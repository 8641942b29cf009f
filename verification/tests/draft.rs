use vt6::common::foundation::msg::BufferTooSmallError;
use vt6::common::foundation::msg::MessageFormatter;
use vt6::common::foundation::msg::ParseErrorKind;
use vt6::common::foundation::msg::ParseErrorKind::UnexpectedEOF;
use vt6::common::foundation::msg::ParseErrorKind::ExpectedMessageOpener;
use vt6::common::foundation::msg::ParseErrorKind::ExpectedMessageCloser;
use vt6::common::foundation::msg::ParseErrorKind::ExpectedDecimalNumber;
use vt6::common::foundation::msg::ParseErrorKind::DecimalNumberTooLarge;
use vt6::common::foundation::msg::ParseErrorKind::DecimalNumberHasLeadingZeroes;
use vt6::common::foundation::msg::ParseErrorKind::ExpectedListSigil;
use vt6::common::foundation::msg::ParseErrorKind::ExpectedStringSigil;
use vt6::common::foundation::msg::ParseErrorKind::ExpectedStringCloser;
use vt6::common::foundation::msg::ParseErrorKind::ExpectedMessageType;
use vt6::common::foundation::msg::ParseErrorKind::InvalidMessageType;
use vt6::common::foundation::EncodeArgument;
use vt6::draft::is_identifier;
use vt6::draft::is_message_type;
use vt6::draft::is_scoped_identifier;
use vt6::draft::msg::Message;
use vt6::draft::server::handle_messages;
use vt6::draft::server::pick_version;
use vt6::draft::server::publish_property;
use vt6::draft::server::write_bare;
use vt6::draft::server::write_have;
use vt6::draft::server::write_nope;
use vt6::draft::server::Buffer;
use vt6::draft::server::Connection;
use vt6::draft::server::CoreHandler;
use vt6::draft::server::EarlyHandler;
use vt6::draft::server::Handler;
use vt6::draft::server::PosixHandler;
use vt6::draft::server::StreamMode;
use vt6::draft::server::StreamState;
use vt6::draft::server::Tracker;
use vt6::draft::sexp::add_quotes;
use vt6::draft::sexp::isbareword;
use vt6::draft::sexp::Atom;
use vt6::draft::sexp::Element;
use vt6::draft::sexp::Message as SexpMessage;
use vt6::draft::sexp::Parse;
use vt6::draft::sexp::ParseErrorKind as SexpErrorKind;
use vt6::draft::sexp::ParserState;
use vt6::draft::sexp::SExpression;
use vt6::draft::ModuleVersion;

#[test]
fn tests_test_message_formatting() {
    let mut buf = vec![0; 4096];
    let required_size = make_example_message(&mut buf).unwrap();
    assert_eq!(&buf[0..required_size], b"{3|4:have,4:core,3:1.0,}" as &[u8]);

    //test that MessageFormatter correctly aborts when encountering too-small
    //buffers of various sizes
    for size in 0..(2 * required_size) {
        let mut buf = vec![0; size];
        let result = make_example_message(&mut buf);
        if size < required_size {
            assert_eq!(result, Err(BufferTooSmallError(required_size - size)));
        } else {
            assert_eq!(result, Ok(required_size));
        }
    }

    //test a message without arguments
    let size = MessageFormatter::new(&mut buf, "sig.claim", 0).finalize().unwrap();
    assert_eq!(&buf[0..size], b"{1|9:sig.claim,}" as &[u8]);

    //test a message with a large number of arguments
    let size = {
        let mut f = MessageFormatter::new(&mut buf, "foo.bar", 1000);
        for _ in 0..1000 {
            f.add_argument(&0);
        }
        f.finalize().unwrap()
    };
    //prefix "{1001|7:foo.bar;" and suffix "}" have 17 bytes in total, and each
    //argument "1:0;" has 4 bytes
    assert_eq!(size, 4017);
}

fn make_example_message(buf: &mut [u8]) -> Result<usize, BufferTooSmallError> {
    let mut f = MessageFormatter::new(buf, "have", 2);
    f.add_argument("core");
    f.add_argument(&ModuleVersion { major: 1, minor: 0 });
    f.finalize()
}

#[test]
fn tests_test_message_parsing() {
    //simple happy cases
    expect_parses(b"{4|4:want,4:core,1:1,1:2,}",
        ("", "want"), &[ b"core", b"1", b"2" ],
    );
    expect_parses(b"{1|9:sig.claim,}",
        ("sig", "claim"), &[],
    );

    //argument that is not valid UTF-8
    expect_parses(b"{3|8:core.set,13:example.bytes,3:\xA0+\xC3,}",
        ("core", "set"), &[ b"example.bytes", b"\xA0+\xC3" ],
    );

    //lower bounds for integers (many of those are errors, but the
    //errors occur *after* the integer parsing, so the integers were parsed
    //correctly)
    expect_parse_fails(b"{0|}", 3, ExpectedMessageType);
    expect_parse_fails(b"{1|0:,}", 6, InvalidMessageType);
    expect_parses(b"{2|4:want,0:,}", ("", "want"), &[ b"" ]);

    //upper bounds for integers (the numbers are usize::max_value() - 1 for
    //usize == u16, usize == u32 and usize == u64; so at least one of those
    //should move the cursor backwards in the buffer when wrapping integer
    //arithmetic is used without proper checks)
    expect_parse_incomplete(b"{2|4:want,65535:x,}");
    expect_parse_incomplete(b"{2|4:want,4294967295:x,}");
    expect_parse_incomplete(b"{2|4:want,18446744073709551201:x,}");

    //various UnexpectedEOF scenarios
    expect_parse_incomplete(b"{4|4:want,4:core,1:1,1:2,");
    expect_parse_incomplete(b"{4|4:want,4:core,1:1,1:2");
    expect_parse_incomplete(b"{4|4:want,4:co");
    expect_parse_incomplete(b"{4|4:want,4:");
    expect_parse_incomplete(b"{4|4:want,4");
    expect_parse_incomplete(b"{4|");
    expect_parse_incomplete(b"{4");
    expect_parse_incomplete(b"{");
    expect_parse_fails(b"{4|4:want,4:core,1:1,}", 21, ExpectedDecimalNumber);

    //unexpected characters in various situations
    expect_parse_fails(b"{4|4:want,4:core,1:1,1:2,#", 25, ExpectedMessageCloser);
    expect_parse_fails(b"{4|4:want,4:core,1:1,1:2#", 24, ExpectedStringCloser);
    expect_parse_fails(b"{4|4:want,4:core,1:1,1#", 22, ExpectedStringSigil);
    expect_parse_fails(b"{4#", 2, ExpectedListSigil);
    expect_parse_fails(b"{#", 1, ExpectedDecimalNumber);
    expect_parse_fails(b"#", 0, ExpectedMessageOpener);

    //various other situations
    expect_parse_fails(b"{10000000000000000000000000000", 30, DecimalNumberTooLarge);
    expect_parse_fails(b"{01|9:sig.claim,}", 2, DecimalNumberHasLeadingZeroes);
    expect_parse_fails(b"{1|09:sig.claim,}", 4, DecimalNumberHasLeadingZeroes);
}

fn expect_parses(input: &[u8], message_type: (&str, &str), args: &[&[u8]]) {
    let (msg, offset) = Message::parse(input).unwrap();
    //`input` should not contain extraneous characters
    assert_eq!(input.len(), offset);
    assert_eq!(msg.message_type(), message_type);
    let mut iter = msg.arguments();
    for expected in args {
        assert_eq!(iter.next(), Some(*expected));
    }
    assert_eq!(iter.next(), None);
}

fn expect_parse_fails(input: &[u8], offset: usize, kind: ParseErrorKind) {
    let err = Message::parse(input).unwrap_err();
    assert_eq!(err.kind, kind);
    assert_eq!(err.offset, offset);
}

fn expect_parse_incomplete(input: &[u8]) {
    expect_parse_fails(input, input.len(), UnexpectedEOF);
}

#[test]
fn tests_test_message_fmt_debug_display() {
    let (msg, _) = Message::parse(b"{4|4:want,4:core,1:1,1:2,}").unwrap();
    assert_eq!(msg.to_string(), "(want core 1 2)");
    assert_eq!(msg.debug_string(), r#"Message { type_name: "want", arguments: <3 items> }"#);

    let (msg, _) = Message::parse(b"{1|9:sig.claim,}").unwrap();
    assert_eq!(msg.to_string(), "(sig.claim)");
    assert_eq!(msg.debug_string(), r#"Message { type_name: "sig.claim", arguments: <0 items> }"#);

    let (msg, _) = Message::parse(b"{3|8:core.set,13:example.bytes,5:\xA0a\"a\xC3,}").unwrap();
    assert_eq!(msg.to_string(), r#"(core.set example.bytes "\xa0a\"a\xc3")"#);
    assert_eq!(msg.debug_string(), r#"Message { type_name: "core.set", arguments: <2 items> }"#);
}

#[test]
fn draft_messages_are_shown() {
    let (msg, _) = Message::parse(b"{4|4:want,4:core,1:1,1:2,}").unwrap();
    assert_eq!(msg.to_string(), "(want core 1 2)");
    assert_eq!(msg.full_type(), "want");

    let (msg, _) = Message::parse(b"{1|9:sig.claim,}").unwrap();
    assert_eq!(msg.to_string(), "(sig.claim)");

    let (msg, _) = Message::parse(b"{3|8:core.set,13:example.bytes,5:\xA0a\"a\xC3,}").unwrap();
    assert_eq!(msg.to_string(), r#"(core.set example.bytes "\xa0a\"a\xc3")"#);
    assert_eq!(msg.full_type(), "core.set");
}

#[test]
fn draft_identifiers_carry_no_version() {
    assert_eq!(is_identifier("core"), true);
    assert_eq!(is_identifier("core1"), false);
    assert_eq!(is_identifier("scoped.ident"), false);
    assert_eq!(is_identifier("what is: this"), false);
    assert_eq!(is_identifier("_what-is-this"), true);

    assert_eq!(is_scoped_identifier("core"), None);
    assert_eq!(is_scoped_identifier("core.set"), Some(("core", "set")));
    assert_eq!(is_scoped_identifier("what is: this"), None);
    assert_eq!(is_scoped_identifier("_what.is-this"), Some(("_what", "is-this")));
    assert_eq!(is_scoped_identifier("want"), None);
    assert_eq!(is_scoped_identifier("have"), None);
    assert_eq!(is_scoped_identifier("nope"), None);
    assert_eq!(is_scoped_identifier("a.b.c"), None);
    assert_eq!(is_scoped_identifier("core1.set"), None);

    assert_eq!(is_message_type("core"), None);
    assert_eq!(is_message_type("core.set"), Some(("core", "set")));
    assert_eq!(is_message_type("what is: this"), None);
    assert_eq!(is_message_type("_what.is-this"), Some(("_what", "is-this")));
    assert_eq!(is_message_type("want"), Some(("", "want")));
    assert_eq!(is_message_type("have"), Some(("", "have")));
    assert_eq!(is_message_type("nope"), Some(("", "nope")));
    assert_eq!(is_message_type("init"), None);
}

#[test]
fn tests_test_wanthave_basic() {
    assert_eq!(
        TestConnection::handle_single_message("{3|4:want,4:test,1:1,}"),
        Some("{3|4:have,4:test,3:1.3,}".into()),
    );
    assert_eq!(
        TestConnection::handle_single_message("{3|4:want,4:test,1:2,}"),
        Some("{3|4:have,4:test,3:2.1,}".into()),
    );
    assert_eq!(
        TestConnection::handle_single_message("{3|4:want,4:test,1:3,}"),
        Some("{1|4:have,}".into()),
    );
    assert_eq!(
        TestConnection::handle_single_message("{4|4:want,4:test,1:1,1:2,}"),
        Some("{3|4:have,4:test,3:2.1,}".into()),
    );
    assert_eq!(
        TestConnection::handle_single_message("{4|4:want,4:test,1:1,1:3,}"),
        Some("{3|4:have,4:test,3:1.3,}".into()),
    );
    assert_eq!(
        TestConnection::handle_single_message("{4|4:want,4:test,1:3,1:4,}"),
        Some("{1|4:have,}".into()),
    );
}

#[test]
fn tests_test_wanthave_replies_consistently() {
    let mut conn = TestConnection::new();
    assert_eq!(
        conn.handle_message("{3|4:want,4:test,1:1,}"),
        Some("{3|4:have,4:test,3:1.3,}".into()),
    );
    assert_eq!(
        conn.handle_message("{3|4:want,4:test,1:1,}"),
        Some("{3|4:have,4:test,3:1.3,}".into()),
    );
    assert_eq!(
        conn.handle_message("{3|4:want,4:test,1:2,}"),
        Some("{1|4:have,}".into()),
    );
    assert_eq!(
        conn.handle_message("{4|4:want,4:test,1:1,1:2,}"),
        Some("{3|4:have,4:test,3:1.3,}".into()),
    );
    assert_eq!(
        conn.handle_message("{4|4:want,4:test,1:1,1:3,}"),
        Some("{3|4:have,4:test,3:1.3,}".into()),
    );
    assert_eq!(
        conn.handle_message("{4|4:want,4:test,1:2,1:3,}"),
        Some("{1|4:have,}".into()),
    );
}

#[test]
fn tests_test_invalid_wants() {
    //missing module name and major version
    assert_eq!(
        TestConnection::handle_single_message("{1|4:want,}"),
        None,
    );
    //missing major version
    assert_eq!(
        TestConnection::handle_single_message("{2|4:want,4:test,}"),
        None,
    );
    //missing module name
    assert_eq!(
        TestConnection::handle_single_message("{2|4:want,1:1,}"),
        None,
    );
    //wrong argument order
    assert_eq!(
        TestConnection::handle_single_message("{3|4:want,1:1,4:test,}"),
        None,
    );
    //malformed module name
    assert_eq!(
        TestConnection::handle_single_message("{3|4:want,7:foo.bar,1:1,}"),
        None,
    );
    //malformed major version
    assert_eq!(
        TestConnection::handle_single_message("{3|4:want,4:test,3:1.0,}"),
        None,
    );
    assert_eq!(
        TestConnection::handle_single_message("{3|4:want,4:test,1:0,}"),
        None,
    );
}

#[test]
fn test_property_handling() {
    let mut conn = TestConnection::new();

    //need to negotiate core before using core.set and core.sub
    assert_eq!(
        conn.handle_message("{3|4:want,4:core,1:1,}"),
        Some("{3|4:have,4:core,3:1.0,}".into()),
    );

    //check readonly properties in core
    assert_eq!(
        conn.handle_message("{2|8:core.sub,25:core.server-msg-bytes-max,}"),
        Some("{3|8:core.pub,25:core.server-msg-bytes-max,4:1024,}".into()),
    );
    assert_eq!(
        conn.handle_message("{2|8:core.sub,25:core.client-msg-bytes-max,}"),
        Some("{3|8:core.pub,25:core.client-msg-bytes-max,4:2048,}".into()),
    );

    //need to negotiate test before using test.title
    assert_eq!(
        conn.handle_message("{3|4:want,4:test,1:1,}"),
        Some("{3|4:have,4:test,3:1.3,}".into()),
    );

    //check core.sub
    assert_eq!(
        conn.handle_message("{2|8:core.sub,10:test.title,}"),
        Some("{3|8:core.pub,10:test.title,7:initial,}".into()),
    );

    //check core.set where the server accepts the suggested value
    assert_eq!(
        conn.handle_message("{3|8:core.set,10:test.title,0:,}"),
        Some("{3|8:core.pub,10:test.title,0:,}".into()),
    );
    assert_eq!(
        conn.handle_message("{3|8:core.set,10:test.title,19:Lorem ipsum, dolor.,}"),
        Some("{3|8:core.pub,10:test.title,19:Lorem ipsum, dolor.,}".into()),
    );

    //check core.set where the server normalizes the requested value
    assert_eq!(
        conn.handle_message("{3|8:core.set,10:test.title,28:Lorem ipsum, dolor sit amet.,}"),
        Some("{3|8:core.pub,10:test.title,20:Lorem ipsum, dolor s,}".into()),
    );
}

#[test]
fn test_property_handling_invalid_syntax() {
    let mut conn = TestConnection::new();

    //need to negotiate core before using core.set and core.sub
    assert_eq!(
        conn.handle_message("{3|4:want,4:core,1:1,}"),
        Some("{3|4:have,4:core,3:1.0,}".into()),
    );
    //need to negotiate test before using test.title
    assert_eq!(
        conn.handle_message("{3|4:want,4:test,1:1,}"),
        Some("{3|4:have,4:test,3:1.3,}".into()),
    );

    //core.sub: missing property name
    assert_eq!(
        conn.handle_message("{1|8:core.sub,}"),
        None,
    );
    //core.sub: multiple properties
    assert_eq!(
        conn.handle_message("{3|8:core.sub,10:test.title,25:core.server-msg-bytes-max,}"),
        None,
    );

    //core.set: missing property name
    assert_eq!(
        conn.handle_message("{1|8:core.set,}"),
        None,
    );
    //core.set: missing property value
    assert_eq!(
        conn.handle_message("{2|8:core.set,10:test.title,}"),
        None,
    );
    //core.set: unexpected extra arguments (an early draft of vt6/core1.0
    //allowed setting multiple properties at once like shown here)
    assert_eq!(
        conn.handle_message("{5|8:core.set,10:test.title,3:foo,25:core.server-msg-bytes-max,4:2048,}"),
        None,
    );
}

#[test]
fn test_property_handling_invalid_negotiation() {
    //cannot use core.sub or core.set without negotiating core first
    assert_eq!(
        TestConnection::handle_single_message("{2|8:core.sub,10:test.title,}"),
        None,
    );
    assert_eq!(
        TestConnection::handle_single_message("{3|8:core.set,10:test.title,3:foo,}"),
        None,
    );

    //cannot use test.title without negotiating title first
    let mut conn = TestConnection::new();
    assert_eq!(
        TestConnection::handle_single_message("{3|4:want,4:core,1:1,}"),
        Some("{3|4:have,4:core,3:1.0,}".into()),
    );
    assert_eq!(
        conn.handle_message("{2|8:core.sub,10:test.title,}"),
        None,
    );
    assert_eq!(
        conn.handle_message("{3|8:core.set,10:test.title,3:foo,}"),
        None,
    );
}

#[test]
fn the_greatest_usable_version_is_picked() {
    let v = |major, minor| ModuleVersion { major, minor };
    assert_eq!(pick_version(None, &[], &[]), None);
    assert_eq!(pick_version(None, &[1, 2], &[None, None]), None);
    assert_eq!(pick_version(None, &[1, 2], &[Some(3), None]), Some((v(1, 3), true)));
    assert_eq!(pick_version(None, &[2, 1], &[Some(1), Some(3)]), Some((v(2, 1), true)));
    assert_eq!(pick_version(None, &[1, 2, 2], &[Some(3), Some(1), Some(0)]), Some((v(2, 1), true)));
    assert_eq!(pick_version(Some(v(1, 3)), &[2, 1], &[Some(1), Some(3)]), Some((v(1, 3), false)));
    assert_eq!(pick_version(Some(v(1, 3)), &[2], &[Some(1)]), None);
    assert!(v(1, 3) < v(2, 0));
    assert_eq!(v(12, 345).encode_to_vector(), b"12.345");
}

#[test]
fn the_tracker_remembers_what_was_agreed() {
    let mut tracker = Tracker::new();
    assert_eq!(tracker.is_module_enabled("core"), None);
    tracker.enable_module("core", ModuleVersion { major: 1, minor: 0 });
    tracker.enable_module("test", ModuleVersion { major: 2, minor: 1 });
    assert_eq!(tracker.is_module_enabled("core"), Some(ModuleVersion { major: 1, minor: 0 }));
    assert_eq!(tracker.is_module_enabled("test"), Some(ModuleVersion { major: 2, minor: 1 }));
    assert_eq!(tracker.is_module_enabled("tes"), None);
}

#[test]
fn the_stream_is_turned_into_a_standard_stream() {
    let handler = CoreHandler::new(PosixHandler::new(TestHandler {}));
    let mut conn = TestConnection::new();
    let mut send_buf = vec![0; 1024];
    let mut handle = |conn: &mut TestConnection, input: &str| -> Option<String> {
        let (message, _) = Message::parse(input.as_bytes()).unwrap();
        let n = EarlyHandler::handle(&handler, &message, conn, &mut send_buf)?;
        Some(std::str::from_utf8(&send_buf[0..n]).unwrap().into())
    };
    //the module has to be agreed to first
    assert_eq!(handle(&mut conn, "{1|14:posix.to-stdin,}"), None);
    assert_eq!(
        handle(&mut conn, "{3|4:want,5:posix,1:1,}"),
        Some("{3|4:have,5:posix,3:1.0,}".into())
    );
    assert_eq!(handle(&mut conn, "{2|14:posix.to-stdin,1:x,}"), None);
    assert_eq!(conn.stream.mode, StreamMode::Message);
    let before = conn.stream.entered;
    assert_eq!(
        handle(&mut conn, "{1|14:posix.to-stdin,}"),
        Some("{1|14:posix.to-stdin,}".into())
    );
    assert_eq!(conn.stream.mode, StreamMode::Stdin);
    assert!(conn.stream.entered >= before);
    //the stream carries no messages any more
    assert_eq!(handle(&mut conn, "{1|15:posix.to-stdout,}"), None);
    assert_eq!(conn.stream.mode, StreamMode::Stdin);
    let mut other = TestConnection::new();
    handle(&mut other, "{3|4:want,5:posix,1:1,}");
    assert_eq!(
        handle(&mut other, "{1|15:posix.to-stdout,}"),
        Some("{1|15:posix.to-stdout,}".into())
    );
    assert_eq!(other.stream.mode, StreamMode::Stdout);
}

#[test]
fn properties_are_published() {
    let mut buf = vec![0u8; 64];
    let size = publish_property(&mut buf, "example.counter", &42).unwrap();
    assert_eq!(&buf[..size], &b"{3|8:core.pub,15:example.counter,2:42,}"[..]);
    assert_eq!(publish_property(&mut buf[..size - 1], "example.counter", &42), None);
}

struct TestConnection {
    tracker: Tracker,
    title: String,
    stream: StreamState,
}

impl TestConnection {
    fn new() -> Self {
        TestConnection {
            tracker: Tracker::new(),
            title: "initial".into(),
            stream: StreamState::enter(StreamMode::Message),
        }
    }

    fn handle_single_message(input: &str) -> Option<String> {
        Self::new().handle_message(input)
    }

    fn handle_message(&mut self, input: &str) -> Option<String> {
        let (message, _) = Message::parse(input.as_bytes()).unwrap();
        let handler = CoreHandler::new(TestHandler {});
        let mut send_buf = vec![0;1024];
        let bytes_written = EarlyHandler::handle(&handler, &message, self, &mut send_buf)?;
        Some(std::str::from_utf8(&send_buf[0..bytes_written]).unwrap().into())
    }
}

impl Connection for TestConnection {
    fn stream_state(&self) -> StreamState { self.stream }
    fn set_stream_state(&mut self, new: StreamState) { self.stream = new; }
    fn max_server_message_length(&self) -> usize { 1024 }
    fn max_client_message_length(&self) -> usize { 2048 }

    fn enable_module(&mut self, name: &str, version: ModuleVersion) {
        self.tracker.enable_module(name, version)
    }
    fn is_module_enabled(&self, name: &str) -> Option<ModuleVersion> {
        self.tracker.is_module_enabled(name)
    }

    fn stream_mode(&self) -> StreamMode { self.stream.mode }
    fn enabled(&self, name: &str) -> Option<ModuleVersion> { self.is_module_enabled(name) }
    fn client_limit(&self) -> usize { self.max_client_message_length() }
    fn server_limit(&self) -> usize { self.max_server_message_length() }
}

////////////////////////////////////////////////////////////////////////////

struct TestHandler {} //NOTE: includes RejectHandler

impl Handler<TestConnection> for TestHandler {
    fn usable(&self, name: &str, major_version: u16, conn: &TestConnection) -> Option<u16> {
        self.can_use_module(name, major_version, conn)
    }

    fn handle(&self, _msg: &Message, _conn: &mut TestConnection, _send_buffer: &mut [u8]) -> Option<usize> {
        None
    }

    fn can_use_module(&self, name: &str, major_version: u16, _conn: &TestConnection) -> Option<u16> {
        match (name, major_version) {
            ("test", 1) => Some(3),
            ("test", 2) => Some(1),
            _ => None,
        }
    }

    fn subscribe_to_property(&self, name: &str, conn: &mut TestConnection, send_buffer: &mut [u8]) -> Option<usize> {
        if name == "test.title" && conn.is_module_enabled("test").is_some() {
            publish_property(send_buffer, name, conn.title.as_str())
        } else {
            None
        }
    }

    fn set_property(&self, name: &str, requested_value: &[u8], conn: &mut TestConnection, send_buffer: &mut [u8]) -> Option<usize> {
        //the "test.title" property accepts string values, but strings longer than 20 bytes are
        //truncated to fit (so that we can have testcases where `requested_value != new_value`)
        if name == "test.title" && conn.is_module_enabled("test").is_some() {
            if let Ok(mut new_str) = std::str::from_utf8(requested_value) {
                if new_str.len() > 20 {
                    let mut idx = 20;
                    while !new_str.is_char_boundary(idx) {
                        idx -= 1;
                    }
                    new_str = &new_str[0..idx];
                }
                conn.title = new_str.into();
            }
            publish_property(send_buffer, name, conn.title.as_str())
        } else {
            None
        }
    }
}

#[test]
fn s_expressions_are_parsed_and_shown() {
    let sexp = SExpression::parse_byte_string(
        b" (core.set example.title \"hello \\\"world\\\"\" (a (b) ())\tc)",
    )
    .unwrap();
    assert_eq!(sexp.0.len(), 5);
    match &sexp.0[0] {
        Element::Atom(atom) => {
            assert_eq!(atom.value, "core.set");
            assert!(!atom.was_quoted);
            assert!(atom.is_scoped_name());
            assert!(atom.is_message_type());
        }
        _ => panic!("expected an atom"),
    }
    match &sexp.0[2] {
        Element::Atom(atom) => {
            assert_eq!(atom.value, "hello \"world\"");
            assert!(atom.was_quoted);
            assert!(!atom.is_message_type());
        }
        _ => panic!("expected an atom"),
    }
    assert_eq!(
        sexp.to_string(),
        "(core.set example.title \"hello \\\"world\\\"\" (a (b) ()) c)"
    );
    assert_eq!(sexp.0[3].to_string(), "(a (b) ())");
    assert_eq!(SExpression::parse_byte_string(b"()").unwrap().to_string(), "()");
    let message = SexpMessage::parse_byte_string(b"(want core 1 2)").unwrap();
    assert_eq!(message.to_string(), "(want core 1 2)");
}

fn sexp_error(input: &[u8]) -> (usize, SexpErrorKind) {
    let e = SExpression::parse_byte_string(input).unwrap_err();
    (e.offset, e.kind)
}

#[test]
fn malformed_s_expressions_are_refused() {
    assert_eq!(sexp_error(b""), (0, SexpErrorKind::UnexpectedEOF));
    assert_eq!(sexp_error(b"  "), (2, SexpErrorKind::UnexpectedEOF));
    assert_eq!(sexp_error(b"(a b"), (4, SexpErrorKind::UnexpectedEOF));
    assert_eq!(sexp_error(b"(a \"b"), (5, SexpErrorKind::UnexpectedEOF));
    assert_eq!(sexp_error(b"(a \"b\\"), (6, SexpErrorKind::UnexpectedEOF));
    assert_eq!(sexp_error(b"a"), (0, SexpErrorKind::InvalidToken));
    assert_eq!(sexp_error(b"(a #)"), (3, SexpErrorKind::InvalidToken));
    assert_eq!(sexp_error(b"(a) b"), (3, SexpErrorKind::ExpectedEOF));
    assert_eq!(sexp_error(b"(\"a\\nb\")"), (3, SexpErrorKind::UnknownEscapeSequence));
    assert_eq!(sexp_error(b"(\"ab\xff\")"), (4, SexpErrorKind::InvalidUTF8));
    let message_error = |input: &[u8]| {
        let e = SexpMessage::parse_byte_string(input).unwrap_err();
        (e.offset, e.kind)
    };
    assert_eq!(message_error(b"()"), (0, SexpErrorKind::EmptyMessage));
    assert_eq!(message_error(b"(core)"), (0, SexpErrorKind::InvalidMessageType));
    assert_eq!(message_error(b"(\"want\")"), (0, SexpErrorKind::InvalidMessageType));
    assert_eq!(message_error(b"((want))"), (0, SexpErrorKind::InvalidMessageType));
    assert_eq!(message_error(b"(want"), (5, SexpErrorKind::UnexpectedEOF));
    assert_eq!(SexpErrorKind::ExpectedEOF.to_str(), "expected EOF");
    assert_eq!(SexpErrorKind::UnexpectedEOF.to_str(), "unexpected EOF");
    assert_eq!(SexpErrorKind::InvalidUTF8.to_str(), "invalid UTF-8");
    assert_eq!(SexpErrorKind::InvalidToken.to_str(), "unexpected character at start of token");
    assert_eq!(SexpErrorKind::UnknownEscapeSequence.to_str(), "unknown escape sequence");
    assert_eq!(SexpErrorKind::EmptyMessage.to_str(), "empty message");
    assert_eq!(SexpErrorKind::InvalidMessageType.to_str(), "invalid message type");
}

#[test]
fn atoms_are_quoted_where_they_must_be() {
    assert_eq!(Atom::new("core.set".into()).to_string(), "core.set");
    assert_eq!(Atom::new("hello world".into()).to_string(), "\"hello world\"");
    assert_eq!(Atom::new("a\\b\"c".into()).to_string(), "\"a\\\\b\\\"c\"");
    assert_eq!(Atom::new("h\u{e9}".into()).to_string(), "\"h\u{e9}\"");
    assert_eq!(add_quotes(&"plain text".to_string()), "plain text");
    assert_eq!(add_quotes(&"a\\b\"c".to_string()), "\"a\\\\b\\\"c\"");
    let atom = Atom::parse_byte_string(b"  \"a\\\\b\"").unwrap();
    assert_eq!(atom.value, "a\\b");
    assert!(atom.was_quoted);
    let mut state = ParserState::new(b"foo-bar baz");
    let first = Atom::parse(&mut state).unwrap();
    assert_eq!(first.value, "foo-bar");
    assert_eq!(state.cursor, 7);
    let second = Atom::parse(&mut state).unwrap();
    assert_eq!(second.value, "baz");
    assert_eq!(state.cursor, 11);
    assert_eq!(Atom::parse(&mut state).unwrap_err().kind, SexpErrorKind::UnexpectedEOF);
    assert!(isbareword(b'a') && isbareword(b'.') && !isbareword(b' ') && !isbareword(b'"'));
}

#[test]
fn the_messages_in_a_buffer_are_handled_in_turn() {
    let handler = CoreHandler::new(PosixHandler::new(TestHandler {}));
    let mut conn = TestConnection::new();
    let mut recv =
        b"{3|4:want,4:test,1:1,}xx{2|8:core.sub,10:test.title,}{3|4:want,5:posix,1:1,}{3|4:wa".to_vec();
    let mut send = b">".to_vec();
    let dropped = handle_messages(&mut conn, &handler, &mut recv, &mut send);
    assert_eq!(dropped, 2);
    assert_eq!(recv, b"{3|4:wa");
    assert_eq!(
        send,
        &b">{3|4:have,4:test,3:1.3,}{1|4:nope,}{3|4:have,5:posix,3:1.0,}"[..]
    );
    //once the stream is a standard stream, what follows is no message
    let mut recv = b"{1|15:posix.to-stdout,}{3|4:want,4:test,1:1,}".to_vec();
    let mut send = Vec::new();
    assert_eq!(handle_messages(&mut conn, &handler, &mut recv, &mut send), 0);
    assert_eq!(send, b"{1|15:posix.to-stdout,}");
    assert_eq!(recv, b"{3|4:want,4:test,1:1,}");
    assert_eq!(handle_messages(&mut conn, &handler, &mut recv, &mut send), 0);
    assert_eq!(recv, b"{3|4:want,4:test,1:1,}");
    //a message that is longer than the connection takes is dropped
    let mut conn = TestConnection::new();
    let mut recv = b"{2|4:want,4000:".to_vec();
    recv.resize(2048, b'x');
    let mut send = Vec::new();
    assert_eq!(handle_messages(&mut conn, &handler, &mut recv, &mut send), 2048);
    assert!(recv.is_empty());
    assert!(send.is_empty());
    let mut small = [0u8; 10];
    assert_eq!(write_nope(&mut small), None);
    let mut large = [0u8; 16];
    assert_eq!(write_nope(&mut large), Some(11));
    assert_eq!(&large[..11], b"{1|4:nope,}");
}

#[test]
fn the_buffer_is_filled_and_emptied_from_the_front() {
    let mut buffer = Buffer::new(8);
    assert_eq!(buffer.unfilled_len(), 8);
    assert_eq!(buffer.filled(), b"");
    assert_eq!(buffer.add(b"abcde"), 5);
    assert_eq!(buffer.filled(), b"abcde");
    assert_eq!(buffer.leading(2), b"ab");
    assert_eq!(buffer.unfilled_len(), 3);
    assert_eq!(buffer.add(b"fghij"), 3);
    assert_eq!(buffer.filled(), b"abcdefgh");
    assert_eq!(buffer.add(b"x"), 0);
    buffer.discard(3);
    assert_eq!(buffer.filled(), b"defgh");
    assert_eq!(buffer.unfilled_len(), 3);
    buffer.discard(5);
    assert_eq!(buffer.filled(), b"");
    //the buffer takes the place of a receive buffer
    let handler = CoreHandler::new(TestHandler {});
    let mut conn = TestConnection::new();
    let mut recv = Buffer::new(64);
    recv.add(b"{3|4:want,4:test,1:2,}{3|4:wa");
    let mut send = Vec::new();
    assert_eq!(handle_messages(&mut conn, &handler, &mut recv, &mut send), 0);
    assert_eq!(recv.filled(), b"{3|4:wa");
    assert_eq!(send, b"{3|4:have,4:test,3:2.1,}");
}

#[test]
fn answers_are_written_to_the_front_of_the_buffer() {
    let mut buf = vec![0x2eu8; 32];
    let version = ModuleVersion { major: 1, minor: 0 };
    assert_eq!(write_have(&mut buf, "core", Some(version)), Some(24));
    assert_eq!(&buf[0..24], b"{3|4:have,4:core,3:1.0,}");
    assert_eq!(&buf[24..], &[0x2eu8; 8][..]);
    assert_eq!(write_have(&mut buf, "core", None), Some(11));
    assert_eq!(&buf[0..11], b"{1|4:have,}");
    assert_eq!(write_bare(&mut buf, "posix.to-stdout"), Some(23));
    assert_eq!(&buf[0..23], b"{1|15:posix.to-stdout,}");
    //a message must fit as a whole
    let mut small = vec![0u8; 23];
    assert_eq!(write_have(&mut small, "core", Some(version)), None);
    assert_eq!(write_have(&mut small, "core", None), Some(11));
    assert_eq!(write_bare(&mut small, "posix.to-stdout"), Some(23));
    assert_eq!(write_bare(&mut small[0..22], "posix.to-stdout"), None);
}

#[test]
fn each_handler_answers_for_its_own_module() {
    let handler = CoreHandler::new(PosixHandler::new(TestHandler {}));
    let conn = TestConnection::new();
    assert_eq!(handler.can_use_module("core", 1, &conn), Some(0));
    assert_eq!(handler.can_use_module("core", 2, &conn), None);
    assert_eq!(handler.can_use_module("posix", 1, &conn), Some(0));
    assert_eq!(handler.can_use_module("posix", 3, &conn), None);
    assert_eq!(handler.can_use_module("test", 1, &conn), Some(3));
    assert_eq!(handler.can_use_module("test", 2, &conn), Some(1));
    assert_eq!(handler.can_use_module("other", 1, &conn), None);
}
