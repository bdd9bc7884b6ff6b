//! The codec: it cuts the bytes that arrive into lines and reads a message
//! from each, and it puts the lines that leave into the buffer for the peer.

use crate::buffer::advance;
use crate::buffer::as_slice;
use crate::buffer::buffered;
use crate::buffer::put;
use crate::buffer::reserve;
use crate::buffer::split_to;
use crate::chunking::has_no_line_end;
use crate::chunking::lemma_discard_recovery;
use crate::chunking::line_end;
use crate::chunking::spec_drain;
use crate::chunking::two_lines;
use crate::framing::first_crlf;
use crate::framing::lemma_first_crlf;
use crate::framing::reading;
use crate::framing::spec_step;
use crate::framing::FramerState;
use crate::framing::Scan;
use crate::framing::CR;
use crate::framing::LF;
use crate::message::spec_message;
use crate::message::LanChatMessage;
use crate::message::MessageView;
use crate::message::ParseMessageError;
use crate::text::utf8_text;
use bytes::BytesMut;
use vstd::prelude::*;
use vstd::std_specs::convert::FromSpecImpl;
use vstd::string::StringSliceAdditionalSpecFns;
use vstd::utf8::decode_utf8;
use vstd::utf8::valid_utf8;

verus! {

/// The limit on the length of a line that a server gives its connections,
/// line end included.
pub const DEFAULT_MAX_LENGTH: usize = 4096;

/// A decoder of the lines of the protocol, and an encoder for them.
pub struct LanChatCodec {
    /// Where in the buffer the next search for a line end starts: what lies
    /// in front has been searched.
    next_index: usize,
    /// The limit on the length of a line, its line end included.
    max_length: usize,
    /// Whether the rest of a line that was too long is being thrown away.
    is_discarding: bool,
}

impl View for LanChatCodec {
    type V = FramerState;

    closed spec fn view(&self) -> FramerState {
        FramerState {
            max_length: self.max_length as nat,
            next_index: self.next_index as nat,
            is_discarding: self.is_discarding,
        }
    }
}

/// Why no message came out of the buffer.
#[derive(Debug, Clone, PartialEq)]
pub enum LanChatCodecError {
    /// A line feed without a carriage return in front of it. The decoder
    /// does not look for it: to the decoder such a line feed is a byte of
    /// its line, and the line is no message.
    LfWithoutCr,
    /// The line is longer than the limit allows.
    MaxLengthExceeded,
    /// The line is no text in UTF-8.
    InvalidEncoding,
    /// The line is no message.
    ParseError(ParseMessageError),
}

impl From<ParseMessageError> for LanChatCodecError {
    fn from(e: ParseMessageError) -> (error: LanChatCodecError) {
        LanChatCodecError::ParseError(e)
    }
}

impl FromSpecImpl<ParseMessageError> for LanChatCodecError {
    open spec fn obeys_from_spec() -> bool {
        true
    }

    open spec fn from_spec(e: ParseMessageError) -> LanChatCodecError {
        LanChatCodecError::ParseError(e)
    }
}

impl LanChatCodecError {
    /// What went wrong, in words.
    pub fn to_string(&self) -> (text: String)
        ensures
            text@ == match self {
                LanChatCodecError::LfWithoutCr =>
                    "Message must be terminated with CRLF and not contain a LF"@,
                LanChatCodecError::MaxLengthExceeded => "Maximum message length exceeded"@,
                LanChatCodecError::InvalidEncoding => "Unable to decode input as UTF8"@,
                LanChatCodecError::ParseError(_) => "Failed to parse message"@,
            },
    {
        match self {
            LanChatCodecError::LfWithoutCr => String::from_str(
                "Message must be terminated with CRLF and not contain a LF",
            ),
            LanChatCodecError::MaxLengthExceeded => String::from_str(
                "Maximum message length exceeded",
            ),
            LanChatCodecError::InvalidEncoding => String::from_str(
                "Unable to decode input as UTF8",
            ),
            LanChatCodecError::ParseError(e) => e.to_string(),
        }
    }
}

/// What the caller gets for what a call found: nothing yet, the message of
/// the line, or the reason why there is none.
pub open spec fn spec_deliver(scan: Scan) -> Result<Option<MessageView>, LanChatCodecError> {
    match scan {
        Scan::Pending => Ok(None),
        Scan::TooLong => Err(LanChatCodecError::MaxLengthExceeded),
        Scan::Line(line) => spec_read_line(line),
    }
}

/// The message of a line: the line must be text in UTF-8, and the text a
/// message.
pub open spec fn spec_read_line(line: Seq<u8>) -> Result<Option<MessageView>, LanChatCodecError> {
    if !valid_utf8(line) {
        Err(LanChatCodecError::InvalidEncoding)
    } else {
        match spec_message(decode_utf8(line)) {
            Some((_, message)) => Ok(Some(message)),
            None => Err(LanChatCodecError::ParseError(ParseMessageError::All)),
        }
    }
}

/// What the caller gets for each thing that a run of calls found.
pub open spec fn spec_outcomes(found: Seq<Scan>) -> Seq<
    Result<Option<MessageView>, LanChatCodecError>,
> {
    Seq::new(found.len(), |k: int| spec_deliver(found[k]))
}

/// Whether `r` is the result `expected`, message for message and error for
/// error.
pub open spec fn delivers(
    r: Result<Option<LanChatMessage>, LanChatCodecError>,
    expected: Result<Option<MessageView>, LanChatCodecError>,
) -> bool {
    match expected {
        Ok(Some(message)) => r matches Ok(Some(m)) && m@ == message,
        Ok(None) => r matches Ok(None),
        Err(error) => r matches Err(e) && e == error,
    }
}

/// Looks for the first line end that lies within `from..to`.
fn find_crlf(bytes: &[u8], from: usize, to: usize) -> (found: Option<usize>)
    requires
        to <= bytes@.len(),
    ensures
        match found {
            Some(i) => first_crlf(bytes@, from as int, to as int) == Some(i as int) && i + 2 <= to,
            None => first_crlf(bytes@, from as int, to as int) is None,
        },
{
    let mut i: usize = from;
    while i < to && to - i >= 2
        invariant
            from <= i,
            to <= bytes@.len(),
            first_crlf(bytes@, from as int, to as int) == first_crlf(bytes@, i as int, to as int),
        decreases to - i,
    {
        if bytes[i] == CR && bytes[i + 1] == LF {
            return Some(i);
        }
        i = i + 1;
    }
    None
}

/// Reads the message of a line.
pub fn read_line(line: &[u8]) -> (r: Result<Option<LanChatMessage>, LanChatCodecError>)
    ensures
        delivers(r, spec_read_line(line@)),
{
    match utf8_text(line) {
        Some(text) => match LanChatMessage::parse(text) {
            Ok(message) => Ok(Some(message)),
            Err(e) => Err(LanChatCodecError::from(e)),
        },
        None => Err(LanChatCodecError::InvalidEncoding),
    }
}

impl LanChatCodec {
    /// A codec with a limit on the length of a line.
    ///
    /// A line that is longer makes `decode` return an error. After that
    /// `decode` throws bytes away until a line end arrives, and then goes on
    /// as before.
    pub fn with_max_length(max_length: usize) -> (codec: LanChatCodec)
        ensures
            codec@ == (FramerState {
                max_length: max_length as nat,
                next_index: 0,
                is_discarding: false,
            }),
    {
        LanChatCodec { next_index: 0, max_length, is_discarding: false }
    }

    /// Takes the next message out of the buffer, if a complete line is there.
    ///
    /// `Ok(None)` says that more bytes are needed. An error is about one
    /// line: the call after it goes on with what follows.
    pub fn decode(&mut self, buf: &mut BytesMut) -> (r: Result<
        Option<LanChatMessage>,
        LanChatCodecError,
    >)
        ensures
            final(self)@ == spec_step(old(self)@, buffered(*old(buf))).state,
            buffered(*final(buf)) == spec_step(old(self)@, buffered(*old(buf))).rest,
            delivers(r, spec_deliver(spec_step(old(self)@, buffered(*old(buf))).scan)),
    {
        let ghost step = spec_step(self@, buffered(*buf));
        loop
            invariant
                step == spec_step(old(self)@, buffered(*old(buf))),
                spec_step(self@, buffered(*buf)) == step,
            decreases buffered(*buf).len(),
        {
            let bytes = as_slice(buf);
            let len = bytes.len();
            // The search goes one byte past the limit, to tell a line of the
            // greatest length from one that is too long.
            let read_to = if len <= self.max_length {
                len
            } else {
                self.max_length + 1
            };
            let found = find_crlf(bytes, self.next_index, read_to);
            let ghost content = buffered(*buf);
            proof {
                lemma_first_crlf(content, self.next_index as int, read_to as int);
            }
            match (self.is_discarding, found) {
                (true, Some(i)) => {
                    advance(buf, i + 2);
                    self.is_discarding = false;
                    self.next_index = 0;
                },
                (true, None) => {
                    advance(buf, read_to);
                    self.next_index = 0;
                    if read_to == len {
                        assert(buffered(*buf) =~= Seq::<u8>::empty());
                        return Ok(None);
                    }
                },
                (false, Some(i)) => {
                    self.next_index = 0;
                    let line = split_to(buf, i + 2);
                    return read_line(as_slice(&line));
                },
                (false, None) => {
                    if len > self.max_length {
                        self.is_discarding = true;
                        return Err(LanChatCodecError::MaxLengthExceeded);
                    }
                    self.next_index = read_to;
                    return Ok(None);
                },
            }
        }
    }

    /// Puts a line into the buffer for the peer, byte for byte. The line is
    /// taken as it is: whoever wrote it has ended it with a line end.
    pub fn encode(&mut self, msg: &str, dst: &mut BytesMut) -> (r: Result<(), LanChatCodecError>)
        requires
            buffered(*old(dst)).len() + msg.spec_bytes().len() <= isize::MAX,
        ensures
            r is Ok,
            buffered(*final(dst)) == buffered(*old(dst)) + msg.spec_bytes(),
            final(self)@ == old(self)@,
    {
        reserve(dst, msg.len());
        put(dst, msg.as_bytes());
        Ok(())
    }
}

/// After a line too long the caller gets one error and then goes on
/// getting messages: given a line that is longer than the limit allows, its
/// line end, and behind it a line within the limit that is a message, with
/// its line end, the calls of the decoder give that the first line is too
/// long, then the message of the second line, and nothing else.
///
/// This holds where the carriage return of the first line is not the last
/// byte of one of the windows in which the line is thrown away.
pub proof fn lemma_discard_recovery_delivers(max_length: nat, long: Seq<u8>, short: Seq<u8>)
    requires
        has_no_line_end(long),
        has_no_line_end(short),
        long.len() + 2 > max_length + 1,
        short.len() + 2 <= max_length + 1,
        (long.len() + 1) % (max_length + 1) != 0,
        spec_read_line(short + line_end()) matches Ok(Some(_)),
    ensures
        spec_outcomes(spec_drain(reading(max_length), two_lines(long, short)).found) == seq![
            Err(LanChatCodecError::MaxLengthExceeded),
            spec_read_line(short + line_end()),
        ],
        spec_drain(reading(max_length), two_lines(long, short)).rest == Seq::<u8>::empty(),
{
    lemma_discard_recovery(max_length, long, short);
    assert(spec_outcomes(spec_drain(reading(max_length), two_lines(long, short)).found) =~= seq![
        Err(LanChatCodecError::MaxLengthExceeded),
        spec_read_line(short + line_end()),
    ]);
}

} // verus!
