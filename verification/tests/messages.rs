use vt6::common::foundation::msg::BufferTooSmallError;
use vt6::common::foundation::msg::Message;
use vt6::common::foundation::msg::MessageFormatter;
use vt6::common::foundation::msg::ParseErrorKind;
use vt6::common::foundation::msg::ParseErrorKind::UnexpectedEOF;
use vt6::common::foundation::msg::ParseErrorKind::ExpectedMessageOpener;
use vt6::common::foundation::msg::ParseErrorKind::ExpectedMessageCloser;
use vt6::common::foundation::msg::ParseErrorKind::ExpectedDecimalNumber;
use vt6::common::foundation::msg::ParseErrorKind::DecimalNumberTooLarge;
use vt6::common::foundation::msg::ParseErrorKind::DecimalNumberHasLeadingZeroes;
use vt6::common::foundation::msg::ParseErrorKind::ExpectedListSigil;
use vt6::common::foundation::msg::ParseErrorKind::ExpectedStringSigil;
use vt6::common::foundation::msg::ParseErrorKind::ExpectedStringCloser;
use vt6::common::foundation::msg::ParseErrorKind::ExpectedMessageType;
use vt6::common::foundation::msg::ParseErrorKind::InvalidMessageType;

#[test]
fn test_message_parsing() {
    //simple happy cases
    expect_parses(
        b"{4|4:want,4:core,1:1,1:2,}",
        "want",
        &[b"core", b"1", b"2"],
    );
    expect_parses(b"{1|10:sig1.claim,}", "sig1.claim", &[]);

    //argument that is not valid UTF-8
    expect_parses(
        b"{3|9:core1.set,13:example.bytes,3:\xA0+\xC3,}",
        "core1.set",
        &[b"example.bytes", b"\xA0+\xC3"],
    );

    //lower bounds for integers (many of those are errors, but the
    //errors occur *after* the integer parsing, so the integers were parsed
    //correctly)
    expect_parse_fails(b"{0|}", 3, ExpectedMessageType);
    expect_parse_fails(b"{1|0:,}", 6, InvalidMessageType);
    expect_parses(b"{2|4:want,0:,}", "want", &[b""]);

    //upper bounds for integers (the numbers are usize::max_value() - 1 for
    //usize == u16, usize == u32 and usize == u64; so at least one of those
    //should move the cursor backwards in the buffer when wrapping integer
    //arithmetic is used without proper checks)
    expect_parse_incomplete(b"{2|4:want,65535:x,}");
    expect_parse_incomplete(b"{2|4:want,4294967295:x,}");
    expect_parse_incomplete(b"{2|4:want,18446744073709551201:x,}");

    //various UnexpectedEOF scenarios
    expect_parse_incomplete(b"{4|4:want,4:core,1:1,1:2,");
    expect_parse_incomplete(b"{4|4:want,4:core,1:1,1:2");
    expect_parse_incomplete(b"{4|4:want,4:co");
    expect_parse_incomplete(b"{4|4:want,4:");
    expect_parse_incomplete(b"{4|4:want,4");
    expect_parse_incomplete(b"{4|");
    expect_parse_incomplete(b"{4");
    expect_parse_incomplete(b"{");
    expect_parse_fails(b"{4|4:want,4:core,1:1,}", 21, ExpectedDecimalNumber);

    //unexpected characters in various situations
    expect_parse_fails(b"{4|4:want,4:core,1:1,1:2,#", 25, ExpectedMessageCloser);
    expect_parse_fails(b"{4|4:want,4:core,1:1,1:2#", 24, ExpectedStringCloser);
    expect_parse_fails(b"{4|4:want,4:core,1:1,1#", 22, ExpectedStringSigil);
    expect_parse_fails(b"{4#", 2, ExpectedListSigil);
    expect_parse_fails(b"{#", 1, ExpectedDecimalNumber);
    expect_parse_fails(b"#", 0, ExpectedMessageOpener);

    //various other situations
    expect_parse_fails(b"{10000000000000000000000000000", 30, DecimalNumberTooLarge);
    expect_parse_fails(b"{01|10:sig1.claim,}", 2, DecimalNumberHasLeadingZeroes);
    expect_parse_fails(b"{1|010:sig1.claim,}", 4, DecimalNumberHasLeadingZeroes);
}

fn expect_parses(input: &[u8], message_type: &str, args: &[&[u8]]) {
    let (msg, offset) = Message::parse(input).unwrap();
    //`input` should not contain extraneous characters
    assert_eq!(input.len(), offset);
    assert_eq!(msg.parsed_type().as_str(), message_type);
    let mut iter = msg.arguments();
    for expected in args {
        assert_eq!(iter.next(), Some(*expected));
    }
    assert_eq!(iter.next(), None);
}

fn expect_parse_fails(input: &[u8], offset: usize, kind: ParseErrorKind) {
    let err = Message::parse(input).unwrap_err();
    assert_eq!(err.kind, kind);
    assert_eq!(err.offset, offset);
}

fn expect_parse_incomplete(input: &[u8]) {
    expect_parse_fails(input, input.len(), UnexpectedEOF);
}

#[test]
fn test_message_fmt_debug_display() {
    let (msg, _) = Message::parse(b"{2|4:want,5:core1,}").unwrap();
    assert_eq!(msg.to_string(), "(want core1)");
    assert_eq!(
        msg.debug_string(),
        r#"Message { parsed_type: Want, arguments: <1 items> }"#
    );

    let (msg, _) = Message::parse(b"{1|10:sig1.claim,}").unwrap();
    assert_eq!(msg.to_string(), "(sig1.claim)");
    assert_eq!(
        msg.debug_string(),
        r#"Message { parsed_type: Scoped(ScopedIdentifier::parse("sig1.claim")), arguments: <0 items> }"#
    );

    let (msg, _) = Message::parse(b"{3|9:core1.set,13:example.bytes,5:\xA0a\"a\xC3,}").unwrap();
    assert_eq!(
        msg.to_string(),
        r#"(core1.set example.bytes "\xa0a\"a\xc3")"#
    );
    assert_eq!(
        msg.debug_string(),
        r#"Message { parsed_type: Scoped(ScopedIdentifier::parse("core1.set")), arguments: <2 items> }"#
    );
}

#[test]
fn test_message_formatting() {
    let mut buf = vec![0; 4096];
    let required_size = make_example_message(&mut buf).unwrap();
    assert_eq!(&buf[0..required_size], b"{2|4:want,5:core1,}" as &[u8]);

    //test that MessageFormatter correctly aborts when encountering too-small
    //buffers of various sizes
    for size in 0..(2 * required_size) {
        let mut buf = vec![0; size];
        let result = make_example_message(&mut buf);
        if size < required_size {
            assert_eq!(result, Err(BufferTooSmallError(required_size - size)));
        } else {
            assert_eq!(result, Ok(required_size));
        }
    }

    //test a message without arguments
    let size = MessageFormatter::new(&mut buf, "sig.claim", 0)
        .finalize()
        .unwrap();
    assert_eq!(&buf[0..size], b"{1|9:sig.claim,}" as &[u8]);

    //test a message with a large number of arguments
    let size = {
        let mut f = MessageFormatter::new(&mut buf, "foo.bar", 250);
        for _ in 0..250 {
            f.add_argument(&0);
        }
        f.finalize().unwrap()
    };
    //prefix "{251|7:foo.bar;" and suffix "}" have 16 bytes in total, and each
    //argument "1:0;" has 4 bytes
    assert_eq!(size, 1016);

    //test a message exceeding a buffer of 1024 bytes
    let mut small = vec![0; 1024];
    let mut f = MessageFormatter::new(&mut small, "foo.bar", 500);
    for _ in 0..500 {
        f.add_argument(&0);
    }
    let required_size = 16 + 4 * 500;
    assert_eq!(f.finalize(), Err(BufferTooSmallError(required_size - 1024)));
}

fn make_example_message(buf: &mut [u8]) -> Result<usize, BufferTooSmallError> {
    let mut f = MessageFormatter::new(buf, "want", 1);
    f.add_argument("core1");
    f.finalize()
}

#[test]
fn parsing_what_was_formatted_gives_the_message_back() {
    let mut buf = vec![0xffu8; 64];
    let size = {
        let mut f = MessageFormatter::new(&mut buf, "core1.set", 2);
        f.add_argument("example.title");
        f.add_argument(&b"hello \xA0 world"[..]);
        f.finalize().unwrap()
    };
    assert_eq!(&buf[0..size], &b"{3|9:core1.set,13:example.title,13:hello \xA0 world,}"[..]);
    //what stands behind the message is left alone
    assert!(buf[size..].iter().all(|&b| b == 0xff));
    let (msg, consumed) = Message::parse(&buf).unwrap();
    assert_eq!(consumed, size);
    assert_eq!(msg.parsed_type().as_str(), "core1.set");
    let mut args = msg.arguments();
    assert_eq!(args.len(), 2);
    assert_eq!(args.next(), Some(&b"example.title"[..]));
    assert_eq!(args.next(), Some(&b"hello \xA0 world"[..]));
    assert_eq!(args.next(), None);
    assert_eq!(args.next(), None);
}

#[test]
fn every_prefix_of_a_message_is_incomplete() {
    let full = b"{3|9:core1.set,13:example.title,11:hello world,}";
    assert!(Message::parse(full).is_ok());
    for k in 0..full.len() {
        let err = Message::parse(&full[0..k]).unwrap_err();
        assert_eq!(err.kind, UnexpectedEOF);
        assert_eq!(err.offset, k);
        assert!(err.is_incomplete());
    }
}

#[test]
fn too_small_buffers_report_the_exact_deficit() {
    let full = b"{2|19:posix1.client-hello,6:secret,}";
    for k in 1..=full.len() {
        let mut buf = vec![0u8; full.len() - k];
        let mut f = MessageFormatter::new(&mut buf, "posix1.client-hello", 1);
        f.add_argument("secret");
        assert_eq!(f.finalize(), Err(BufferTooSmallError(k)));
    }
    let mut buf = vec![0u8; full.len()];
    let mut f = MessageFormatter::new(&mut buf, "posix1.client-hello", 1);
    f.add_argument("secret");
    assert_eq!(f.finalize(), Ok(full.len()));
    assert_eq!(&buf[..], &full[..]);
}

#[test]
fn malformed_numbers_and_openers_are_told_apart() {
    expect_parse_fails(b"x{1|4:want,}", 0, ExpectedMessageOpener);
    expect_parse_fails(b"}", 0, ExpectedMessageOpener);
    expect_parse_fails(b"{00|", 2, DecimalNumberHasLeadingZeroes);
    expect_parse_fails(b"{1|04:want,}", 4, DecimalNumberHasLeadingZeroes);
    expect_parse_fails(b"{1|99999999999999999999999:", 26, DecimalNumberTooLarge);
    expect_parse_fails(b"{340282366920938463463374607431768211456|", 40, DecimalNumberTooLarge);
    expect_parse_fails(b"{1|4:wont,}", 10, InvalidMessageType);
    expect_parse_fails(b"{1|2:\xC0\xB1,}", 8, InvalidMessageType);
}

#[test]
fn error_kinds_have_names() {
    assert_eq!(UnexpectedEOF.to_str(), "unexpected EOF");
    assert_eq!(ExpectedMessageOpener.to_str(), "expected message opener");
    assert_eq!(ExpectedMessageCloser.to_str(), "expected message closer");
    assert_eq!(ExpectedDecimalNumber.to_str(), "expected decimal number");
    assert_eq!(DecimalNumberTooLarge.to_str(), "decimal number too large");
    assert_eq!(
        DecimalNumberHasLeadingZeroes.to_str(),
        "decimal number has leading zeroes"
    );
    assert_eq!(ExpectedListSigil.to_str(), "expected list sigil");
    assert_eq!(ExpectedStringSigil.to_str(), "expected string sigil");
    assert_eq!(ExpectedStringCloser.to_str(), "expected string closer");
    assert_eq!(ExpectedMessageType.to_str(), "expected message type");
    assert_eq!(InvalidMessageType.to_str(), "invalid message type");
}

#[test]
fn messages_are_shown_with_escapes() {
    let (msg, _) =
        Message::parse(b"{3|9:core1.set,13:example.title,11:hello world,}").unwrap();
    assert_eq!(msg.to_string(), r#"(core1.set example.title "hello world")"#);
    let (msg, _) = Message::parse(b"{4|4:want,0:,5:\t\r\n'\\,3:\x00\x7f\xff,}").unwrap();
    assert_eq!(
        msg.to_string(),
        r#"(want "" "\t\r\n\'\\" "\x00\x7f\xff")"#
    );
}
