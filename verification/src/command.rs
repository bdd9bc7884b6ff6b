//! The commands that a client issues, and the grammar of a command with its
//! parameters:
//!
//! ```text
//! Command  ::= Letter+ Params
//! Params   ::= (Space Middle)* (Space ':' Trailing)?
//! Middle   ::= NoColonCRLFSpace (':' | NoColonCRLFSpace)*
//! Trailing ::= (':' | Space | NoColonCRLFSpace)*
//! ```
//!
//! Every parser takes the text that is left to read and returns, beside its
//! value, the text behind what it has read.

use crate::message::ParseMessageError;
use crate::text::chars_of;
use crate::text::lemma_span;
use crate::text::scan;
use crate::text::span;
use crate::text::CharClass;
use vstd::prelude::*;
use vstd::slice::slice_subrange;
use vstd::std_specs::convert::TryFromSpecImpl;
use vstd::string::StrSliceExecFns;

verus! {

/// A command from a client to the server.
#[derive(Debug, Clone, PartialEq)]
pub enum Command {
    /// Take the given nickname.
    Nick(String),
    /// Send the given text to everyone.
    Msg(String),
    /// Leave.
    Quit,
}

/// A command as a mathematical value.
pub enum CommandView {
    Nick(Seq<char>),
    Msg(Seq<char>),
    Quit,
}

impl View for Command {
    type V = CommandView;

    open spec fn view(&self) -> CommandView {
        match self {
            Command::Nick(nick) => CommandView::Nick(nick@),
            Command::Msg(text) => CommandView::Msg(text@),
            Command::Quit => CommandView::Quit,
        }
    }
}

/// The parameters that follow a keyword.
#[derive(Debug, Clone, PartialEq)]
pub struct Params<'a> {
    /// The parameters that are single words, in order.
    pub middle: Vec<&'a str>,
    /// The last parameter, which may hold spaces and colons.
    pub trailing: Option<&'a str>,
}

/// Parameters as a mathematical value.
pub struct ParamsView {
    pub middle: Seq<Seq<char>>,
    pub trailing: Option<Seq<char>>,
}

impl<'a> View for Params<'a> {
    type V = ParamsView;

    open spec fn view(&self) -> ParamsView {
        ParamsView {
            middle: self.middle.deep_view(),
            trailing: match self.trailing {
                Some(text) => Some(text@),
                None => None,
            },
        }
    }
}

/// Why a keyword and its parameters are no command.
#[derive(Debug, Clone, Copy, PartialEq, Eq, Structural)]
pub enum CommandError {
    /// The keyword is none of `NICK`, `MSG`, `QUIT`.
    UnrecognizedCommand,
    /// The keyword is known, but it does not take these parameters.
    WrongArity,
}

/// The keyword `NICK`.
pub open spec fn nick_keyword() -> Seq<char> {
    seq!['N', 'I', 'C', 'K']
}

/// The keyword `MSG`.
pub open spec fn msg_keyword() -> Seq<char> {
    seq!['M', 'S', 'G']
}

/// The keyword `QUIT`.
pub open spec fn quit_keyword() -> Seq<char> {
    seq!['Q', 'U', 'I', 'T']
}

/// The command that a keyword and its parameters stand for. `NICK` takes one
/// middle parameter and no trailing one, `MSG` takes a trailing parameter and
/// no middle one, and `QUIT` takes whatever it is given.
pub open spec fn spec_dispatch(keyword: Seq<char>, params: ParamsView) -> Result<
    CommandView,
    CommandError,
> {
    if keyword == nick_keyword() {
        if params.middle.len() == 1 && params.trailing is None {
            Ok(CommandView::Nick(params.middle[0]))
        } else {
            Err(CommandError::WrongArity)
        }
    } else if keyword == msg_keyword() {
        if params.middle.len() == 0 && params.trailing is Some {
            Ok(CommandView::Msg(params.trailing->0))
        } else {
            Err(CommandError::WrongArity)
        }
    } else if keyword == quit_keyword() {
        Ok(CommandView::Quit)
    } else {
        Err(CommandError::UnrecognizedCommand)
    }
}

/// Whether a middle parameter can start with `c`: no colon, and nothing that
/// ends a word.
pub open spec fn starts_middle(c: char) -> bool {
    c != ':' && CharClass::Token.holds(c)
}

/// The middle parameters at the front of `s`, each behind one space, and the
/// text behind the last of them. A middle parameter has one character at
/// least: a space that none follows is left where it is.
pub open spec fn spec_middles(s: Seq<char>) -> (Seq<char>, Seq<Seq<char>>)
    decreases s.len(),
{
    if s.len() >= 2 && s[0] == ' ' && starts_middle(s[1]) {
        let end = 1 + span(s.skip(1), CharClass::Token);
        proof {
            lemma_span(s.skip(1), CharClass::Token);
        }
        let (rest, more) = spec_middles(s.skip(end as int));
        (rest, seq![s.subrange(1, end as int)] + more)
    } else {
        (s, Seq::empty())
    }
}

/// The trailing parameter at the front of `s`, behind a space and a colon, if
/// there is one, and the text behind it.
pub open spec fn spec_trailing(s: Seq<char>) -> (Seq<char>, Option<Seq<char>>) {
    if s.len() >= 2 && s[0] == ' ' && s[1] == ':' {
        let end = 2 + span(s.skip(2), CharClass::Text);
        (s.skip(end as int), Some(s.subrange(2, end as int)))
    } else {
        (s, None)
    }
}

/// The parameters at the front of `s`, and the text behind them.
pub open spec fn spec_params(s: Seq<char>) -> (Seq<char>, ParamsView) {
    let (after_middles, middle) = spec_middles(s);
    let (rest, trailing) = spec_trailing(after_middles);
    (rest, ParamsView { middle, trailing })
}

/// The command at the front of `s`, and the text behind it: a keyword of
/// letters, then its parameters. `None` where `s` starts with no letter or the
/// keyword does not go with the parameters.
pub open spec fn spec_command(s: Seq<char>) -> Option<(Seq<char>, CommandView)> {
    let end = span(s, CharClass::Letter) as int;
    if end == 0 {
        None
    } else {
        let (rest, params) = spec_params(s.skip(end));
        match spec_dispatch(s.take(end), params) {
            Ok(command) => Some((rest, command)),
            Err(_) => None,
        }
    }
}

/// Whether `chars` spells `NICK`.
fn is_nick(chars: &[char]) -> (b: bool)
    ensures
        b == (chars@ == nick_keyword()),
{
    let b = chars.len() == 4 && chars[0] == 'N' && chars[1] == 'I' && chars[2] == 'C' && chars[3]
        == 'K';
    assert(b == (chars@ =~= nick_keyword()));
    b
}

/// Whether `chars` spells `MSG`.
fn is_msg(chars: &[char]) -> (b: bool)
    ensures
        b == (chars@ == msg_keyword()),
{
    let b = chars.len() == 3 && chars[0] == 'M' && chars[1] == 'S' && chars[2] == 'G';
    assert(b == (chars@ =~= msg_keyword()));
    b
}

/// Whether `chars` spells `QUIT`.
fn is_quit(chars: &[char]) -> (b: bool)
    ensures
        b == (chars@ == quit_keyword()),
{
    let b = chars.len() == 4 && chars[0] == 'Q' && chars[1] == 'U' && chars[2] == 'I' && chars[3]
        == 'T';
    assert(b == (chars@ =~= quit_keyword()));
    b
}

/// The command for a keyword, given by its characters, and its parameters.
fn dispatch(keyword: &[char], params: Params<'_>) -> (r: Result<Command, CommandError>)
    ensures
        match spec_dispatch(keyword@, params@) {
            Ok(command) => r matches Ok(c) && c@ == command,
            Err(error) => r matches Err(e) && e == error,
        },
{
    let Params { middle, trailing } = params;
    if is_nick(keyword) {
        if middle.len() == 1 && trailing.is_none() {
            Ok(Command::Nick(middle[0].to_owned()))
        } else {
            Err(CommandError::WrongArity)
        }
    } else if is_msg(keyword) {
        match trailing {
            Some(text) if middle.len() == 0 => Ok(Command::Msg(text.to_owned())),
            _ => Err(CommandError::WrongArity),
        }
    } else if is_quit(keyword) {
        Ok(Command::Quit)
    } else {
        Err(CommandError::UnrecognizedCommand)
    }
}

impl TryFrom<(&str, Params<'_>)> for Command {
    type Error = CommandError;

    /// The command for a keyword and its parameters.
    fn try_from(parts: (&str, Params<'_>)) -> (r: Result<Command, CommandError>)
        ensures
            match spec_dispatch(parts.0@, parts.1@) {
                Ok(command) => r matches Ok(c) && c@ == command,
                Err(error) => r matches Err(e) && e == error,
            },
    {
        let (keyword, params) = parts;
        let chars = chars_of(keyword);
        dispatch(chars.as_slice(), params)
    }
}

/// What `try_from` returns is stated on `try_from` itself, over the views
/// of its arguments and its result. The function below has nothing to add.
impl TryFromSpecImpl<(&str, Params<'_>)> for Command {
    open spec fn obeys_try_from_spec() -> bool {
        false
    }

    open spec fn try_from_spec(parts: (&str, Params<'_>)) -> Result<Command, CommandError> {
        arbitrary()
    }
}

impl Command {
    /// The command as it is written on the wire, without the line end.
    pub fn to_string(&self) -> (line: String)
        ensures
            line@ == render_command(self@),
    {
        match self {
            Command::Nick(nick) => {
                proof {
                    reveal_strlit("NICK ");
                }
                let line = String::from_str("NICK ").concat(nick.as_str());
                assert(line@ =~= render_command(self@));
                line
            },
            Command::Msg(text) => {
                proof {
                    reveal_strlit("MSG :");
                }
                let line = String::from_str("MSG :").concat(text.as_str());
                assert(line@ =~= render_command(self@));
                line
            },
            Command::Quit => {
                proof {
                    reveal_strlit("QUIT");
                }
                let line = String::from_str("QUIT");
                assert(line@ =~= render_command(self@));
                line
            },
        }
    }
}

/// A command as it is written on the wire, without the line end.
pub open spec fn render_command(command: CommandView) -> Seq<char> {
    match command {
        CommandView::Nick(nick) => nick_keyword() + seq![' '] + nick,
        CommandView::Msg(text) => msg_keyword() + seq![' ', ':'] + text,
        CommandView::Quit => quit_keyword(),
    }
}

/// Reads the middle parameters of `input` from `from` on. `chars` holds the
/// characters of `input`.
fn middles_at<'a>(input: &'a str, chars: &[char], from: usize) -> (r: (usize, Vec<&'a str>))
    requires
        chars@ == input@,
        from <= chars@.len(),
    ensures
        from <= r.0 <= chars@.len(),
        spec_middles(chars@.skip(from as int)) == (chars@.skip(r.0 as int), r.1.deep_view()),
{
    let ghost s = chars@;
    let mut middle: Vec<&'a str> = Vec::new();
    let mut pos: usize = from;
    assert(middle.deep_view() =~= Seq::<Seq<char>>::empty());
    assert(Seq::<Seq<char>>::empty() + spec_middles(s.skip(from as int)).1 =~= spec_middles(
        s.skip(from as int),
    ).1);
    while chars.len() - pos >= 2 && chars[pos] == ' ' && chars[pos + 1] != ':'
        && CharClass::Token.test(chars[pos + 1])
        invariant
            s == chars@,
            s == input@,
            from <= pos <= s.len(),
            spec_middles(s.skip(from as int)).0 == spec_middles(s.skip(pos as int)).0,
            spec_middles(s.skip(from as int)).1 == middle.deep_view() + spec_middles(
                s.skip(pos as int),
            ).1,
        decreases s.len() - pos,
    {
        let end = scan(chars, pos + 1, CharClass::Token);
        let word = input.substring_char(pos + 1, end);
        proof {
            let t = s.skip(pos as int);
            assert(t.skip(1) =~= s.skip(pos + 1));
            assert(t.skip(1 + (end - (pos + 1))) =~= s.skip(end as int));
            assert(t.subrange(1, 1 + (end - (pos + 1))) =~= s.subrange(pos + 1, end as int));
            assert(middle.deep_view().push(word@) + spec_middles(s.skip(end as int)).1
                =~= middle.deep_view() + (seq![word@] + spec_middles(s.skip(end as int)).1));
        }
        let ghost before = middle.deep_view();
        middle.push(word);
        assert(middle.deep_view() =~= before.push(word@));
        pos = end;
    }
    assert(middle.deep_view() + Seq::<Seq<char>>::empty() =~= middle.deep_view());
    (pos, middle)
}

/// Reads the parameters of `input` from `from` on. `chars` holds the
/// characters of `input`.
fn params_at<'a>(input: &'a str, chars: &[char], from: usize) -> (r: (usize, Params<'a>))
    requires
        chars@ == input@,
        from <= chars@.len(),
    ensures
        from <= r.0 <= chars@.len(),
        spec_params(chars@.skip(from as int)) == (chars@.skip(r.0 as int), r.1@),
{
    let ghost s = chars@;
    let (pos, middle) = middles_at(input, chars, from);
    if chars.len() - pos >= 2 && chars[pos] == ' ' && chars[pos + 1] == ':' {
        let end = scan(chars, pos + 2, CharClass::Text);
        let text = input.substring_char(pos + 2, end);
        proof {
            let t = s.skip(pos as int);
            assert(t.skip(2) =~= s.skip(pos + 2));
            assert(t.skip(2 + (end - (pos + 2))) =~= s.skip(end as int));
            assert(t.subrange(2, 2 + (end - (pos + 2))) =~= s.subrange(pos + 2, end as int));
        }
        (end, Params { middle, trailing: Some(text) })
    } else {
        (pos, Params { middle, trailing: None })
    }
}

/// Reads the command of `input` from `from` on. `chars` holds the characters
/// of `input`.
pub(crate) fn command_at(input: &str, chars: &[char], from: usize) -> (r: Option<(usize, Command)>)
    requires
        chars@ == input@,
        from <= chars@.len(),
    ensures
        match spec_command(chars@.skip(from as int)) {
            Some((rest, command)) => r matches Some((end, c)) && from <= end <= chars@.len()
                && chars@.skip(end as int) == rest && c@ == command,
            None => r is None,
        },
{
    let ghost s = chars@;
    let end = scan(chars, from, CharClass::Letter);
    if end == from {
        return None;
    }
    let (rest, params) = params_at(input, chars, end);
    let keyword = slice_subrange(chars, from, end);
    proof {
        let t = s.skip(from as int);
        assert(t.skip(end - from) =~= s.skip(end as int));
        assert(t.take(end - from) =~= s.subrange(from as int, end as int));
    }
    match dispatch(keyword, params) {
        Ok(command) => Some((rest, command)),
        Err(_) => None,
    }
}

/// Reads the parameters at the front of `input`. There are always some to
/// read, if only none at all.
pub fn parse_params<'a>(input: &'a str) -> (r: Result<(&'a str, Params<'a>), ParseMessageError>)
    ensures
        r matches Ok((rest, params)) && (rest@, params@) == spec_params(input@),
{
    let chars = chars_of(input);
    let (end, params) = params_at(input, chars.as_slice(), 0);
    assert(chars@.skip(0) =~= chars@);
    let rest = input.substring_char(end, chars.len());
    assert(rest@ =~= chars@.skip(end as int));
    Ok((rest, params))
}

/// Reads the command at the front of `input`: a keyword and its parameters.
pub fn parse_command<'a>(input: &'a str) -> (r: Result<(&'a str, Command), ParseMessageError>)
    ensures
        match spec_command(input@) {
            Some((rest, command)) => r matches Ok((left, c)) && left@ == rest && c@ == command,
            None => r is Err,
        },
{
    let chars = chars_of(input);
    assert(chars@.skip(0) =~= chars@);
    match command_at(input, chars.as_slice(), 0) {
        Some((end, command)) => {
            let rest = input.substring_char(end, chars.len());
            assert(rest@ =~= chars@.skip(end as int));
            Ok((rest, command))
        },
        None => Err(ParseMessageError::All),
    }
}

} // verus!
