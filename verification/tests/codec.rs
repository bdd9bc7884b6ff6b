use bytes::BufMut;
use bytes::BytesMut;
use lanchat::codec::read_line;
use lanchat::codec::LanChatCodec;
use lanchat::codec::LanChatCodecError;
use lanchat::codec::DEFAULT_MAX_LENGTH;
use lanchat::command::Command;
use lanchat::message::LanChatMessage;
use lanchat::message::ParseMessageError;
use lanchat::message::Prefix;

#[test]
fn lanchat_codec_happy_path() {
    let mut codec = LanChatCodec::with_max_length(100);
    let buf = &mut BytesMut::new();
    buf.reserve(100);
    buf.put_slice(b"NICK olly\r\nMSG :Hi!\r\n");

    let expected = LanChatMessage {
        prefix: None,
        command: Command::Nick("olly".to_owned()),
    };

    assert_eq!(expected, codec.decode(buf).unwrap().unwrap());

    let expected = LanChatMessage {
        prefix: None,
        command: Command::Msg("Hi!".to_owned()),
    };

    assert_eq!(expected, codec.decode(buf).unwrap().unwrap());
    assert_eq!(None, codec.decode(buf).unwrap());

    buf.put_slice(b":olly MSG ");
    assert_eq!(None, codec.decode(buf).unwrap());

    buf.put_slice(b":hello???\r\n");
    let expected = LanChatMessage {
        prefix: Some(Prefix {
            nick: "olly".to_owned(),
        }),
        command: Command::Msg("hello???".to_owned()),
    };
    assert_eq!(expected, codec.decode(buf).unwrap().unwrap());
}

#[test]
fn lanchat_codec_unhappy_path() {
    const MAX_LENGTH: usize = 20;
    let mut codec = LanChatCodec::with_max_length(MAX_LENGTH);
    let buf = &mut BytesMut::new();

    buf.reserve(100);

    // Errors when the message is too long
    buf.put_slice(b"MSG :This message is too long");
    assert!(codec.decode(buf).is_err());

    // Continues to return None until it has recovered
    assert!(codec.decode(buf).unwrap().is_none());

    // Recovers once it encounters a CRLF
    buf.put_slice(b"\r\nMSG :ok!\r\n");
    let expected = LanChatMessage {
        prefix: None,
        command: Command::Msg("ok!".to_owned()),
    };
    assert_eq!(expected, codec.decode(buf).unwrap().unwrap());

    // Errors on a line that is no message
    buf.put_slice(b"INVALID\r\n");
    assert!(codec.decode(buf).is_err());

    // Recovers after the error above
    buf.put_slice(b"MSG :valid!\r\n");
    let expected = LanChatMessage {
        prefix: None,
        command: Command::Msg("valid!".to_owned()),
    };
    assert_eq!(expected, codec.decode(buf).unwrap().unwrap());
}

fn message(command: Command) -> LanChatMessage {
    LanChatMessage {
        prefix: None,
        command,
    }
}

/// Calls the decoder until it says that more bytes are needed.
fn drain(
    codec: &mut LanChatCodec,
    buf: &mut BytesMut,
) -> Vec<Result<LanChatMessage, LanChatCodecError>> {
    let mut found = Vec::new();
    loop {
        match codec.decode(buf) {
            Ok(Some(message)) => found.push(Ok(message)),
            Ok(None) => return found,
            Err(error) => found.push(Err(error)),
        }
    }
}

/// Hands the pieces to a new decoder one by one, and drains it after each.
fn feed(
    max_length: usize,
    pieces: &[&[u8]],
) -> (Vec<Result<LanChatMessage, LanChatCodecError>>, Vec<u8>) {
    let mut codec = LanChatCodec::with_max_length(max_length);
    let mut buf = BytesMut::new();
    let mut found = Vec::new();
    for piece in pieces {
        buf.put_slice(piece);
        found.extend(drain(&mut codec, &mut buf));
    }
    (found, buf.to_vec())
}

#[test]
fn two_lines_decode_to_two_messages_and_leave_nothing() {
    let mut codec = LanChatCodec::with_max_length(100);
    let mut buf = BytesMut::new();
    buf.put_slice(b"NICK olly\r\nMSG :Hi!\r\n");

    assert_eq!(
        Ok(Some(message(Command::Nick("olly".to_owned())))),
        codec.decode(&mut buf)
    );
    assert_eq!(b"MSG :Hi!\r\n", &buf[..]);
    assert_eq!(
        Ok(Some(message(Command::Msg("Hi!".to_owned())))),
        codec.decode(&mut buf)
    );
    assert!(buf.is_empty());
    assert_eq!(Ok(None), codec.decode(&mut buf));
    assert!(buf.is_empty());
}

#[test]
fn line_too_long_is_reported_once_and_discarded() {
    let mut codec = LanChatCodec::with_max_length(20);
    let mut buf = BytesMut::new();

    buf.put_slice(b"MSG :This message is too long");
    assert_eq!(
        Err(LanChatCodecError::MaxLengthExceeded),
        codec.decode(&mut buf)
    );
    // The report takes nothing out of the buffer.
    assert_eq!(b"MSG :This message is too long", &buf[..]);

    assert_eq!(Ok(None), codec.decode(&mut buf));
    assert!(buf.is_empty());

    buf.put_slice(b"\r\nMSG :ok!\r\n");
    assert_eq!(
        Ok(Some(message(Command::Msg("ok!".to_owned())))),
        codec.decode(&mut buf)
    );
    assert!(buf.is_empty());
}

#[test]
fn a_line_may_be_one_byte_longer_than_the_limit() {
    // 19 bytes and the line end: one more than the limit of 20.
    let (found, left) = feed(20, &[b"MSG :12345678901234\r\n"]);
    assert_eq!(
        vec![Ok(message(Command::Msg("12345678901234".to_owned())))],
        found
    );
    assert!(left.is_empty());

    // 20 bytes and the line end.
    let (found, left) = feed(20, &[b"MSG :123456789012345\r\n"]);
    assert_eq!(vec![Err(LanChatCodecError::MaxLengthExceeded)], found);
    assert!(left.is_empty());
}

#[test]
fn a_short_line_without_its_end_waits() {
    let mut codec = LanChatCodec::with_max_length(20);
    let mut buf = BytesMut::new();
    buf.put_slice(b"MSG :exactly 20 byte");
    assert_eq!(Ok(None), codec.decode(&mut buf));
    assert_eq!(20, buf.len());
    buf.put_slice(b"s");
    assert_eq!(
        Err(LanChatCodecError::MaxLengthExceeded),
        codec.decode(&mut buf)
    );
}

#[test]
fn the_greatest_limit_is_taken() {
    let (found, left) = feed(usize::MAX, &[b"QUIT\r\nQUI"]);
    assert_eq!(vec![Ok(message(Command::Quit))], found);
    assert_eq!(b"QUI".to_vec(), left);
}

#[test]
fn a_limit_of_nothing_finds_every_line_too_long() {
    let (found, left) = feed(0, &[b"QUIT\r\n"]);
    assert_eq!(vec![Err(LanChatCodecError::MaxLengthExceeded)], found);
    assert!(left.is_empty());
}

#[test]
fn a_line_that_is_no_text_is_an_error_of_its_own() {
    let mut codec = LanChatCodec::with_max_length(100);
    let mut buf = BytesMut::new();
    buf.put_slice(b"MSG :\xff\xfe\r\nQUIT\r\n");
    assert_eq!(
        Err(LanChatCodecError::InvalidEncoding),
        codec.decode(&mut buf)
    );
    // The line is gone and the next one is read as usual.
    assert_eq!(b"QUIT\r\n", &buf[..]);
    assert_eq!(Ok(Some(message(Command::Quit))), codec.decode(&mut buf));
}

#[test]
fn a_line_that_is_cut_inside_a_character_is_no_text() {
    // The first two bytes of a character of three.
    let (found, _) = feed(100, &[b"MSG :\xe2\x9c\r\n"]);
    assert_eq!(vec![Err(LanChatCodecError::InvalidEncoding)], found);
}

#[test]
fn text_outside_ascii_is_decoded() {
    let (found, left) = feed(100, &["MSG :héllo wörld ✓\r\n".as_bytes()]);
    assert_eq!(
        vec![Ok(message(Command::Msg("héllo wörld ✓".to_owned())))],
        found
    );
    assert!(left.is_empty());
}

#[test]
fn a_line_that_is_no_message_is_a_parse_error() {
    let mut codec = LanChatCodec::with_max_length(100);
    let mut buf = BytesMut::new();
    buf.put_slice(b"INVALID\r\nNICK\r\nMSG hello\r\n\r\n");
    let parse_error = || Err(LanChatCodecError::ParseError(ParseMessageError::All));
    assert_eq!(parse_error(), codec.decode(&mut buf));
    assert_eq!(parse_error(), codec.decode(&mut buf));
    assert_eq!(parse_error(), codec.decode(&mut buf));
    assert_eq!(parse_error(), codec.decode(&mut buf));
    assert_eq!(Ok(None), codec.decode(&mut buf));
    assert!(buf.is_empty());
}

#[test]
fn a_line_feed_alone_ends_no_line() {
    let (found, left) = feed(100, &[b"QUIT\nQUIT\rQUIT"]);
    assert!(found.is_empty());
    assert_eq!(b"QUIT\nQUIT\rQUIT".to_vec(), left);
}

#[test]
fn chunking_does_not_matter() {
    let input: &[u8] = b"NICK olly\r\nMSG :Hi!\r\nBOGUS\r\n:olly MSG :a b :c\r\nQUIT\r\nMSG :par";
    let (whole, whole_left) = feed(30, &[input]);
    assert_eq!(
        vec![
            Ok(message(Command::Nick("olly".to_owned()))),
            Ok(message(Command::Msg("Hi!".to_owned()))),
            Err(LanChatCodecError::ParseError(ParseMessageError::All)),
            Ok(LanChatMessage {
                prefix: Some(Prefix {
                    nick: "olly".to_owned()
                }),
                command: Command::Msg("a b :c".to_owned()),
            }),
            Ok(message(Command::Quit)),
        ],
        whole
    );
    assert_eq!(b"MSG :par".to_vec(), whole_left);

    // Every way to cut the input in two, but between a carriage return and
    // its line feed.
    for at in 0..=input.len() {
        if at > 0 && at < input.len() && input[at - 1] == b'\r' && input[at] == b'\n' {
            continue;
        }
        let (found, left) = feed(30, &[&input[..at], &input[at..]]);
        assert_eq!(whole, found, "cut at {}", at);
        assert_eq!(whole_left, left, "cut at {}", at);
    }

    // Byte by byte, with each line end in one piece.
    let mut pieces: Vec<&[u8]> = Vec::new();
    let mut at = 0;
    while at < input.len() {
        let len = if input[at] == b'\r' && at + 1 < input.len() { 2 } else { 1 };
        pieces.push(&input[at..at + len]);
        at += len;
    }
    let (found, left) = feed(30, &pieces);
    assert_eq!(whole, found);
    assert_eq!(whole_left, left);
}

#[test]
fn chunking_does_not_matter_while_no_line_end_is_parted() {
    // A line of 20 bytes, too long for a limit of 7, and a line within it.
    let mut input = vec![b'x'; 20];
    input.extend_from_slice(b"\r\nQUIT\r\n");
    let (whole, whole_left) = feed(7, &[&input]);
    assert_eq!(
        vec![
            Err(LanChatCodecError::MaxLengthExceeded),
            Ok(message(Command::Quit)),
        ],
        whole
    );
    assert!(whole_left.is_empty());

    for at in 0..=input.len() {
        let (found, left) = feed(7, &[&input[..at], &input[at..]]);
        match at {
            // Behind 13 bytes that were thrown away the windows start anew,
            // and the carriage return is the last byte of the first of them.
            13 => assert_eq!(vec![Err(LanChatCodecError::MaxLengthExceeded)], found),
            // Between the carriage return and the line feed of a line end.
            21 | 27 => assert_ne!(whole, found, "cut at {}", at),
            _ => {
                assert_eq!(whole, found, "cut at {}", at);
                assert_eq!(whole_left, left, "cut at {}", at);
            }
        }
    }
}

#[test]
fn empty_pieces_change_nothing() {
    let (whole, whole_left) = feed(30, &[b"QUIT\r\nNICK ol"]);
    let (found, left) = feed(30, &[b"", b"QUIT\r\n", b"", b"", b"NICK ol", b""]);
    assert_eq!(whole, found);
    assert_eq!(whole_left, left);
}

#[test]
fn a_line_end_that_is_parted_between_two_pieces_is_missed() {
    // The search goes on behind the carriage return that it has seen, so
    // the two lines come out as one, and only its first message is read.
    let (found, left) = feed(100, &[b"QUIT\r", b"\nQUIT\r\n"]);
    assert_eq!(vec![Ok(message(Command::Quit))], found);
    assert!(left.is_empty());

    let (found, _) = feed(100, &[b"QUIT\r\nQUIT\r\n"]);
    assert_eq!(
        vec![Ok(message(Command::Quit)), Ok(message(Command::Quit))],
        found
    );
}

#[test]
fn discarding_ends_at_the_line_end_and_the_next_line_is_read() {
    // 45 bytes, a line end, and a line within the limit of 20.
    let mut input = vec![b'x'; 45];
    input.extend_from_slice(b"\r\nMSG :ok!\r\n");
    let (found, left) = feed(20, &[&input]);
    assert_eq!(
        vec![
            Err(LanChatCodecError::MaxLengthExceeded),
            Ok(message(Command::Msg("ok!".to_owned()))),
        ],
        found
    );
    assert!(left.is_empty());
}

#[test]
fn discarding_recovers_for_every_length_but_those_that_part_the_line_end() {
    let max_length = 7;
    for len in max_length..60 {
        let mut input = vec![b'x'; len];
        input.extend_from_slice(b"\r\nQUIT\r\n");
        let (found, left) = feed(max_length, &[&input]);
        if (len + 1) % (max_length + 1) != 0 {
            assert_eq!(
                vec![
                    Err(LanChatCodecError::MaxLengthExceeded),
                    Ok(message(Command::Quit)),
                ],
                found,
                "length {}",
                len
            );
        } else {
            // The carriage return is the last byte of a window: it goes
            // with the window, and the next line goes with the line feed.
            assert_eq!(
                vec![Err(LanChatCodecError::MaxLengthExceeded)],
                found,
                "length {}",
                len
            );
        }
        assert!(left.is_empty(), "length {}", len);
    }
}

#[test]
fn discarding_goes_on_over_several_calls() {
    let mut codec = LanChatCodec::with_max_length(5);
    let mut buf = BytesMut::new();
    buf.put_slice(b"0123456789");
    assert_eq!(
        Err(LanChatCodecError::MaxLengthExceeded),
        codec.decode(&mut buf)
    );
    assert_eq!(Ok(None), codec.decode(&mut buf));
    assert!(buf.is_empty());
    buf.put_slice(b"still the same line");
    assert_eq!(Ok(None), codec.decode(&mut buf));
    assert!(buf.is_empty());
    buf.put_slice(b" \r\nQUIT\r\nQU");
    assert_eq!(Ok(Some(message(Command::Quit))), codec.decode(&mut buf));
    assert_eq!(b"QU", &buf[..]);
}

#[test]
fn two_lines_too_long_are_two_errors() {
    let (found, left) = feed(5, &[b"0123456789\r\nabcdefghij\r\nQUIT"]);
    assert_eq!(
        vec![
            Err(LanChatCodecError::MaxLengthExceeded),
            Err(LanChatCodecError::MaxLengthExceeded),
        ],
        found
    );
    assert_eq!(b"QUIT".to_vec(), left);
}

#[test]
fn a_buffer_that_is_shorter_than_before_is_searched_from_its_end() {
    let mut codec = LanChatCodec::with_max_length(100);
    let mut buf = BytesMut::new();
    buf.put_slice(b"MSG :half a line");
    assert_eq!(Ok(None), codec.decode(&mut buf));
    let mut other = BytesMut::new();
    other.put_slice(b"QUIT\r\n");
    assert_eq!(Ok(None), codec.decode(&mut other));
    assert_eq!(b"QUIT\r\n", &other[..]);
}

#[test]
fn encode_appends_the_line_as_it_is() {
    let mut codec = LanChatCodec::with_max_length(100);
    let mut dst = BytesMut::new();
    assert_eq!(Ok(()), codec.encode(":olly MSG :hi\r\n", &mut dst));
    assert_eq!(b":olly MSG :hi\r\n", &dst[..]);
    assert_eq!(Ok(()), codec.encode("no line end", &mut dst));
    assert_eq!(Ok(()), codec.encode("", &mut dst));
    assert_eq!(Ok(()), codec.encode("✓\r\n", &mut dst));
    assert_eq!(
        ":olly MSG :hi\r\nno line end✓\r\n".as_bytes(),
        &dst[..]
    );
}

#[test]
fn what_is_encoded_is_decoded() {
    let sent = LanChatMessage {
        prefix: Some(Prefix {
            nick: "olly".to_owned(),
        }),
        command: Command::Msg("hello: world".to_owned()),
    };
    let mut codec = LanChatCodec::with_max_length(100);
    let mut wire = BytesMut::new();
    codec.encode(&sent.to_string(), &mut wire).unwrap();
    assert_eq!(Ok(Some(sent)), codec.decode(&mut wire));
}

#[test]
fn read_line_reads_one_line() {
    assert_eq!(
        Ok(Some(message(Command::Nick("olly".to_owned())))),
        read_line(b"NICK olly\r\n")
    );
    assert_eq!(
        Err(LanChatCodecError::ParseError(ParseMessageError::All)),
        read_line(b"NICK olly")
    );
    assert_eq!(Err(LanChatCodecError::InvalidEncoding), read_line(b"\x80\r\n"));
}

#[test]
fn codec_errors_in_words() {
    assert_eq!(
        "Message must be terminated with CRLF and not contain a LF",
        LanChatCodecError::LfWithoutCr.to_string()
    );
    assert_eq!(
        "Maximum message length exceeded",
        LanChatCodecError::MaxLengthExceeded.to_string()
    );
    assert_eq!(
        "Unable to decode input as UTF8",
        LanChatCodecError::InvalidEncoding.to_string()
    );
    assert_eq!(
        "Failed to parse message",
        LanChatCodecError::ParseError(ParseMessageError::All).to_string()
    );
}

#[test]
fn a_parse_error_becomes_a_codec_error() {
    assert_eq!(
        LanChatCodecError::ParseError(ParseMessageError::All),
        LanChatCodecError::from(ParseMessageError::All)
    );
}

#[test]
fn the_limit_of_a_server_is_4096() {
    assert_eq!(4096, DEFAULT_MAX_LENGTH);
}
