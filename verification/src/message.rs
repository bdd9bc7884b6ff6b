//! Messages: a command, and in front of it the nickname of whoever sent it
//! where the server passes a message on.
//!
//! ```text
//! Message  ::= (Prefix Space)? Command CRLF
//! Prefix   ::= ':' Nickname
//! Nickname ::= Letter+
//! ```

use crate::command::command_at;
use crate::command::msg_keyword;
use crate::command::nick_keyword;
use crate::command::quit_keyword;
use crate::command::render_command;
use crate::command::spec_command;
use crate::command::spec_middles;
use crate::command::spec_trailing;
use crate::command::starts_middle;
use crate::command::Command;
use crate::command::CommandView;
use crate::text::chars_of;
use crate::text::lemma_span;
use crate::text::lemma_span_is;
use crate::text::scan;
use crate::text::span;
use crate::text::CharClass;
use vstd::prelude::*;
use vstd::string::StrSliceExecFns;

verus! {

/// Where a message comes from.
#[derive(Debug, Clone, PartialEq)]
pub struct Prefix {
    /// The nickname of the sender.
    pub nick: String,
}

/// A prefix as a mathematical value.
pub struct PrefixView {
    pub nick: Seq<char>,
}

impl View for Prefix {
    type V = PrefixView;

    open spec fn view(&self) -> PrefixView {
        PrefixView { nick: self.nick@ }
    }
}

/// A parsed message.
#[derive(Debug, Clone, PartialEq)]
pub struct LanChatMessage {
    /// The sender. The server sets it on what it passes on to the clients; a
    /// message from a client carries none.
    pub prefix: Option<Prefix>,
    /// The command.
    pub command: Command,
}

/// A message as a mathematical value.
pub struct MessageView {
    pub prefix: Option<PrefixView>,
    pub command: CommandView,
}

impl View for LanChatMessage {
    type V = MessageView;

    open spec fn view(&self) -> MessageView {
        MessageView {
            prefix: match self.prefix {
                Some(prefix) => Some(prefix@),
                None => None,
            },
            command: self.command@,
        }
    }
}

/// A line that is no message.
#[derive(Debug, Clone, PartialEq)]
pub enum ParseMessageError {
    /// The one failure there is: the line does not follow the grammar.
    All,
}

/// The prefix at the front of `s`, and the text behind it: a colon and a
/// nickname of one letter or more.
pub open spec fn spec_prefix(s: Seq<char>) -> Option<(Seq<char>, PrefixView)> {
    if s.len() >= 1 && s[0] == ':' && span(s.skip(1), CharClass::Letter) > 0 {
        let end = 1 + span(s.skip(1), CharClass::Letter);
        Some((s.skip(end as int), PrefixView { nick: s.subrange(1, end as int) }))
    } else {
        None
    }
}

/// Whether `s` starts with a carriage return and a line feed.
pub open spec fn starts_with_crlf(s: Seq<char>) -> bool {
    s.len() >= 2 && s[0] == '\r' && s[1] == '\n'
}

/// The message at the front of `s`, and the text behind its line end. Where a
/// prefix and a space can be read they are; the command that follows must then
/// be one, and it is never looked for in front of them.
pub open spec fn spec_message(s: Seq<char>) -> Option<(Seq<char>, MessageView)> {
    let (body, prefix) = match spec_prefix(s) {
        Some((rest, prefix)) => if rest.len() >= 1 && rest[0] == ' ' {
            (rest.skip(1), Some(prefix))
        } else {
            (s, None)
        },
        None => (s, None),
    };
    match spec_command(body) {
        Some((rest, command)) => if starts_with_crlf(rest) {
            Some((rest.skip(2), MessageView { prefix, command }))
        } else {
            None
        },
        None => None,
    }
}

/// A prefix as it is written on the wire.
pub open spec fn render_prefix(prefix: PrefixView) -> Seq<char> {
    seq![':'] + prefix.nick
}

/// A message as it is written on the wire: its line, line end included.
pub open spec fn render_message(message: MessageView) -> Seq<char> {
    let front = match message.prefix {
        Some(prefix) => render_prefix(prefix) + seq![' '],
        None => Seq::empty(),
    };
    front + render_command(message.command) + crlf()
}

/// Whether a nickname can stand in a prefix: one letter or more, and nothing
/// else.
pub open spec fn is_nickname(nick: Seq<char>) -> bool {
    nick.len() > 0 && CharClass::Letter.holds_all(nick)
}

/// Whether a text can stand as a middle parameter: one character or more,
/// no colon in front, and no space, carriage return or line feed anywhere.
pub open spec fn is_middle(word: Seq<char>) -> bool {
    word.len() > 0 && word[0] != ':' && CharClass::Token.holds_all(word)
}

/// Whether a message can be written on one line and read back: the nickname
/// of its prefix is one, the nickname that `NICK` asks for is a middle
/// parameter, and the text of `MSG` holds no carriage return or line feed.
pub open spec fn well_formed(message: MessageView) -> bool {
    &&& message.prefix matches Some(prefix) ==> is_nickname(prefix.nick)
    &&& match message.command {
        CommandView::Nick(nick) => is_middle(nick),
        CommandView::Msg(text) => CharClass::Text.holds_all(text),
        CommandView::Quit => true,
    }
}

/// The line end.
pub open spec fn crlf() -> Seq<char> {
    seq!['\r', '\n']
}

/// A command that is well formed, written out and followed by a line end, is
/// read back as itself, up to the line end.
proof fn lemma_command_round_trip(command: CommandView)
    requires
        well_formed(MessageView { prefix: None, command }),
    ensures
        spec_command(render_command(command) + crlf()) == Some((crlf(), command)),
{
    let body = render_command(command) + crlf();
    match command {
        CommandView::Nick(nick) => {
            assert(body.take(4) =~= nick_keyword());
            lemma_span_is(body, CharClass::Letter, 4);
            let s = body.skip(4);
            assert(s =~= seq![' '] + nick + crlf());
            assert(s[1] == nick[0]);
            let word = s.skip(1);
            assert(word.take(nick.len() as int) =~= nick);
            assert(word[nick.len() as int] == '\r');
            lemma_span_is(word, CharClass::Token, nick.len() as int);
            let end = 1 + nick.len();
            assert(s.subrange(1, end as int) =~= nick);
            assert(s.skip(end as int) =~= crlf());
            assert(spec_middles(crlf()) == (crlf(), Seq::<Seq<char>>::empty()));
            assert(seq![nick] + Seq::<Seq<char>>::empty() =~= seq![nick]);
            assert(spec_middles(s) == (crlf(), seq![nick]));
            assert(spec_trailing(crlf()) == (crlf(), None::<Seq<char>>));
        },
        CommandView::Msg(text) => {
            assert(body.take(3) =~= msg_keyword());
            assert(msg_keyword().len() != nick_keyword().len());
            lemma_span_is(body, CharClass::Letter, 3);
            let s = body.skip(3);
            assert(s =~= seq![' ', ':'] + text + crlf());
            assert(spec_middles(s) == (s, Seq::<Seq<char>>::empty()));
            let tail = s.skip(2);
            assert(tail.take(text.len() as int) =~= text);
            assert(tail[text.len() as int] == '\r');
            lemma_span_is(tail, CharClass::Text, text.len() as int);
            let end = 2 + text.len();
            assert(s.subrange(2, end as int) =~= text);
            assert(s.skip(end as int) =~= crlf());
        },
        CommandView::Quit => {
            assert(body.take(4) =~= quit_keyword());
            assert(quit_keyword().len() != msg_keyword().len());
            assert(quit_keyword()[0] != nick_keyword()[0]);
            lemma_span_is(body, CharClass::Letter, 4);
            let s = body.skip(4);
            assert(s =~= crlf());
            assert(spec_middles(s) == (s, Seq::<Seq<char>>::empty()));
            assert(spec_trailing(s) == (s, None::<Seq<char>>));
        },
    }
}

/// Reading back what was written: a well-formed message, written on a line,
/// is read from that line as itself, prefix and command, and nothing of the
/// line is left over.
pub proof fn lemma_round_trip(message: MessageView)
    requires
        well_formed(message),
    ensures
        spec_message(render_message(message)) == Some((Seq::<char>::empty(), message)),
{
    let line = render_message(message);
    let body = render_command(message.command) + crlf();
    lemma_command_round_trip(message.command);
    assert(crlf().skip(2) =~= Seq::<char>::empty());
    match message.prefix {
        Some(prefix) => {
            let nick = prefix.nick;
            assert(line =~= seq![':'] + nick + seq![' '] + body);
            let t = line.skip(1);
            assert(t.take(nick.len() as int) =~= nick);
            assert(t[nick.len() as int] == ' ');
            lemma_span_is(t, CharClass::Letter, nick.len() as int);
            let end = 1 + nick.len();
            assert(line.subrange(1, end as int) =~= nick);
            assert(line.skip(end as int).skip(1) =~= body);
        },
        None => {
            assert(line =~= body);
            assert(line[0] != ':');
        },
    }
}

/// Whatever is read from a line is well formed.
pub proof fn lemma_parsed_is_well_formed(s: Seq<char>)
    ensures
        spec_message(s) matches Some((_, message)) ==> well_formed(message),
{
    lemma_span(s.skip(1), CharClass::Letter);
    let body = match spec_prefix(s) {
        Some((rest, prefix)) => if rest.len() >= 1 && rest[0] == ' ' {
            let end = 1 + span(s.skip(1), CharClass::Letter);
            assert(s.subrange(1, end as int) =~= s.skip(1).take(end - 1));
            rest.skip(1)
        } else {
            s
        },
        None => s,
    };
    let k = span(body, CharClass::Letter) as int;
    let p = body.skip(k);
    if p.len() >= 2 && p[0] == ' ' && starts_middle(p[1]) {
        let end = 1 + span(p.skip(1), CharClass::Token);
        lemma_span(p.skip(1), CharClass::Token);
        assert(p.subrange(1, end as int) =~= p.skip(1).take(end - 1));
        assert(spec_middles(p).1[0] == p.subrange(1, end as int));
    }
    let m = spec_middles(p).0;
    if m.len() >= 2 && m[0] == ' ' && m[1] == ':' {
        let end = 2 + span(m.skip(2), CharClass::Text);
        lemma_span(m.skip(2), CharClass::Text);
        assert(m.subrange(2, end as int) =~= m.skip(2).take(end - 2));
    }
}

impl Prefix {
    /// The prefix as it is written on the wire.
    pub fn to_string(&self) -> (text: String)
        ensures
            text@ == render_prefix(self@),
    {
        proof {
            reveal_strlit(":");
        }
        let text = String::from_str(":").concat(self.nick.as_str());
        assert(text@ =~= render_prefix(self@));
        text
    }
}

impl ParseMessageError {
    /// What went wrong, in words.
    pub fn to_string(&self) -> (text: String)
        ensures
            text@ == "Failed to parse message"@,
    {
        match self {
            ParseMessageError::All => String::from_str("Failed to parse message"),
        }
    }
}

impl LanChatMessage {
    /// The message as it is written on the wire: its line, line end included.
    pub fn to_string(&self) -> (line: String)
        ensures
            line@ == render_message(self@),
    {
        let mut line = match &self.prefix {
            Some(prefix) => {
                proof {
                    reveal_strlit(" ");
                }
                prefix.to_string().concat(" ")
            },
            None => String::new(),
        };
        let command = self.command.to_string();
        line.append(command.as_str());
        proof {
            reveal_strlit("\r\n");
        }
        line.append("\r\n");
        assert(line@ =~= render_message(self@));
        line
    }

    /// Reads the message that `line` starts with. What follows the line end
    /// is not looked at.
    pub fn parse(line: &str) -> (r: Result<LanChatMessage, ParseMessageError>)
        ensures
            match spec_message(line@) {
                Some((_, message)) => r matches Ok(m) && m@ == message,
                None => r == Err::<LanChatMessage, ParseMessageError>(ParseMessageError::All),
            },
    {
        let chars = chars_of(line);
        match message_at(line, chars.as_slice()) {
            Some((_, message)) => Ok(message),
            None => Err(ParseMessageError::All),
        }
    }
}

impl std::str::FromStr for LanChatMessage {
    type Err = ParseMessageError;

    /// Reads the message that `s` starts with, as [`LanChatMessage::parse`]
    /// does.
    fn from_str(s: &str) -> (r: Result<Self, Self::Err>)
        ensures
            match spec_message(s@) {
                Some((_, message)) => r matches Ok(m) && m@ == message,
                None => r == Err::<LanChatMessage, ParseMessageError>(ParseMessageError::All),
            },
    {
        LanChatMessage::parse(s)
    }
}

/// Reads the prefix at the front of `input`. `chars` holds the characters of
/// `input`.
fn prefix_at(input: &str, chars: &[char]) -> (r: Option<(usize, Prefix)>)
    requires
        chars@ == input@,
    ensures
        match spec_prefix(chars@) {
            Some((rest, prefix)) => r matches Some((end, p)) && end <= chars@.len() && chars@.skip(
                end as int,
            ) == rest && p@ == prefix,
            None => r is None,
        },
{
    if chars.len() == 0 || chars[0] != ':' {
        return None;
    }
    let end = scan(chars, 1, CharClass::Letter);
    if end == 1 {
        return None;
    }
    let nick = input.substring_char(1, end).to_owned();
    Some((end, Prefix { nick }))
}

/// Reads the message at the front of `input`. `chars` holds the characters
/// of `input`.
fn message_at(input: &str, chars: &[char]) -> (r: Option<(usize, LanChatMessage)>)
    requires
        chars@ == input@,
    ensures
        match spec_message(chars@) {
            Some((rest, message)) => r matches Some((end, m)) && end <= chars@.len()
                && chars@.skip(end as int) == rest && m@ == message,
            None => r is None,
        },
{
    let ghost s = chars@;
    let (from, prefix) = match prefix_at(input, chars) {
        Some((end, prefix)) => {
            if end < chars.len() && chars[end] == ' ' {
                assert(s.skip(end as int).skip(1) =~= s.skip(end + 1));
                (end + 1, Some(prefix))
            } else {
                assert(s.skip(0) =~= s);
                (0, None)
            }
        },
        None => {
            assert(s.skip(0) =~= s);
            (0, None)
        },
    };
    match command_at(input, chars, from) {
        Some((end, command)) => {
            if chars.len() - end >= 2 && chars[end] == '\r' && chars[end + 1] == '\n' {
                assert(s.skip(end as int).skip(2) =~= s.skip(end + 2));
                Some((end + 2, LanChatMessage { prefix, command }))
            } else {
                None
            }
        },
        None => None,
    }
}

/// Reads the prefix at the front of `input`.
pub fn parse_prefix<'a>(input: &'a str) -> (r: Result<(&'a str, Prefix), ParseMessageError>)
    ensures
        match spec_prefix(input@) {
            Some((rest, prefix)) => r matches Ok((left, p)) && left@ == rest && p@ == prefix,
            None => r is Err,
        },
{
    let chars = chars_of(input);
    match prefix_at(input, chars.as_slice()) {
        Some((end, prefix)) => {
            let rest = input.substring_char(end, chars.len());
            assert(rest@ =~= chars@.skip(end as int));
            Ok((rest, prefix))
        },
        None => Err(ParseMessageError::All),
    }
}

/// Reads the message at the front of `input`: a prefix if there is one, a
/// command, and the line end.
pub fn parse_message<'a>(input: &'a str) -> (r: Result<
    (&'a str, LanChatMessage),
    ParseMessageError,
>)
    ensures
        match spec_message(input@) {
            Some((rest, message)) => r matches Ok((left, m)) && left@ == rest && m@ == message,
            None => r is Err,
        },
{
    let chars = chars_of(input);
    match message_at(input, chars.as_slice()) {
        Some((end, message)) => {
            let rest = input.substring_char(end, chars.len());
            assert(rest@ =~= chars@.skip(end as int));
            Ok((rest, message))
        },
        None => Err(ParseMessageError::All),
    }
}

} // verus!
