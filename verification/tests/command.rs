use lanchat::command::parse_command;
use lanchat::command::parse_params;
use lanchat::command::Command;
use lanchat::command::CommandError;
use lanchat::command::Params;

#[test]
fn parse_params_works() {
    let input = " param1 param2 :trailing";
    let expected = Params {
        middle: vec!["param1", "param2"],
        trailing: Some("trailing"),
    };

    let result = parse_params(input);
    assert_eq!(Ok(("", expected)), result);
}

#[test]
fn parse_command_message_works() {
    let input = "MSG :this is a message";
    let expected = Command::Msg("this is a message".to_owned());

    let result = parse_command(input);
    assert_eq!(Ok(("", expected)), result);
}

#[test]
fn parse_command_nick_works() {
    let input = "NICK olly";
    let expected = Command::Nick("olly".to_owned());

    let result = parse_command(input);
    assert_eq!(Ok(("", expected)), result);
}

fn params<'a>(middle: Vec<&'a str>, trailing: Option<&'a str>) -> Params<'a> {
    Params { middle, trailing }
}

#[test]
fn no_parameters_are_parameters_too() {
    assert_eq!(Ok(("", params(vec![], None))), parse_params(""));
    assert_eq!(Ok(("\r\n", params(vec![], None))), parse_params("\r\n"));
    assert_eq!(Ok(("x", params(vec![], None))), parse_params("x"));
}

#[test]
fn a_trailing_parameter_takes_spaces_and_colons() {
    assert_eq!(
        Ok(("\r\n", params(vec![], Some("a b :c: d ")))),
        parse_params(" :a b :c: d \r\n")
    );
    assert_eq!(Ok(("", params(vec![], Some("")))), parse_params(" :"));
    assert_eq!(
        Ok(("\nrest", params(vec!["a"], Some("b")))),
        parse_params(" a :b\nrest")
    );
}

#[test]
fn a_middle_parameter_takes_colons_but_not_in_front() {
    assert_eq!(
        Ok(("", params(vec!["a:b", "c:"], None))),
        parse_params(" a:b c:")
    );
    assert_eq!(
        Ok(("", params(vec!["a"], Some("b c")))),
        parse_params(" a :b c")
    );
}

#[test]
fn a_middle_parameter_is_never_empty() {
    // A space that no parameter follows is left where it is.
    assert_eq!(Ok((" ", params(vec![], None))), parse_params(" "));
    assert_eq!(Ok(("  a", params(vec![], None))), parse_params("  a"));
    assert_eq!(Ok((" \r\n", params(vec!["a"], None))), parse_params(" a \r\n"));
    assert_eq!(Ok(("  :b", params(vec!["a"], None))), parse_params(" a  :b"));
}

#[test]
fn parameters_end_at_the_line_end() {
    assert_eq!(
        Ok(("\r\n b", params(vec!["a"], None))),
        parse_params(" a\r\n b")
    );
    assert_eq!(Ok(("\rb", params(vec!["a"], None))), parse_params(" a\rb"));
}

#[test]
fn parameters_outside_ascii() {
    assert_eq!(
        Ok(("", params(vec!["é", "✓✓"], Some("ü ß")))),
        parse_params(" é ✓✓ :ü ß")
    );
}

#[test]
fn nick_takes_one_middle_parameter() {
    assert_eq!(
        Ok(Command::Nick("olly".to_owned())),
        Command::try_from(("NICK", params(vec!["olly"], None)))
    );
    assert_eq!(
        Err(CommandError::WrongArity),
        Command::try_from(("NICK", params(vec![], None)))
    );
    assert_eq!(
        Err(CommandError::WrongArity),
        Command::try_from(("NICK", params(vec!["a", "b"], None)))
    );
    assert_eq!(
        Err(CommandError::WrongArity),
        Command::try_from(("NICK", params(vec!["a"], Some("b"))))
    );
    assert_eq!(
        Err(CommandError::WrongArity),
        Command::try_from(("NICK", params(vec![], Some("olly"))))
    );
}

#[test]
fn msg_takes_one_trailing_parameter() {
    assert_eq!(
        Ok(Command::Msg("hi there".to_owned())),
        Command::try_from(("MSG", params(vec![], Some("hi there"))))
    );
    assert_eq!(
        Ok(Command::Msg("".to_owned())),
        Command::try_from(("MSG", params(vec![], Some(""))))
    );
    assert_eq!(
        Err(CommandError::WrongArity),
        Command::try_from(("MSG", params(vec![], None)))
    );
    assert_eq!(
        Err(CommandError::WrongArity),
        Command::try_from(("MSG", params(vec!["hi"], None)))
    );
    assert_eq!(
        Err(CommandError::WrongArity),
        Command::try_from(("MSG", params(vec!["a"], Some("hi"))))
    );
}

#[test]
fn quit_takes_whatever_it_is_given() {
    assert_eq!(
        Ok(Command::Quit),
        Command::try_from(("QUIT", params(vec![], None)))
    );
    assert_eq!(
        Ok(Command::Quit),
        Command::try_from(("QUIT", params(vec!["a", "b"], Some("c"))))
    );
}

#[test]
fn other_keywords_are_not_recognized() {
    for keyword in ["nick", "Msg", "quit", "JOIN", "NICKS", "QUI", "", "MSGMSG"] {
        assert_eq!(
            Err(CommandError::UnrecognizedCommand),
            Command::try_from((keyword, params(vec!["a"], Some("b")))),
            "{}",
            keyword
        );
    }
}

#[test]
fn a_command_needs_a_keyword_of_letters() {
    assert!(parse_command("").is_err());
    assert!(parse_command(" NICK olly").is_err());
    assert!(parse_command("1NICK olly").is_err());
    assert!(parse_command(":olly MSG :hi").is_err());
    // The keyword is all the letters there are.
    assert!(parse_command("NICKolly").is_err());
    assert!(parse_command("QUITE").is_err());
    // It ends where the letters end.
    assert_eq!(Ok(("1", Command::Quit)), parse_command("QUIT1"));
}

#[test]
fn a_command_with_the_wrong_parameters_is_none() {
    assert!(parse_command("NICK").is_err());
    assert!(parse_command("NICK a b").is_err());
    assert!(parse_command("NICK :olly").is_err());
    assert!(parse_command("MSG").is_err());
    assert!(parse_command("MSG hi").is_err());
    assert!(parse_command("MSG a :hi").is_err());
    assert!(parse_command("HELLO :hi").is_err());
}

#[test]
fn a_command_leaves_what_follows_it() {
    assert_eq!(
        Ok(("\r\nQUIT\r\n", Command::Nick("olly".to_owned()))),
        parse_command("NICK olly\r\nQUIT\r\n")
    );
    assert_eq!(Ok(("", Command::Quit)), parse_command("QUIT"));
    assert_eq!(Ok(("", Command::Quit)), parse_command("QUIT now :and for good"));
    assert_eq!(Ok((" ", Command::Quit)), parse_command("QUIT "));
    assert_eq!(
        Ok(("", Command::Nick("o11y:".to_owned()))),
        parse_command("NICK o11y:")
    );
}

#[test]
fn commands_as_they_are_written() {
    assert_eq!("NICK olly", Command::Nick("olly".to_owned()).to_string());
    assert_eq!("MSG :Hi, all!", Command::Msg("Hi, all!".to_owned()).to_string());
    assert_eq!("MSG :", Command::Msg("".to_owned()).to_string());
    assert_eq!("QUIT", Command::Quit.to_string());
}
