use vt6::client::Environment;
use vt6::client::EnvironmentError;
use vt6::common::foundation::msg::Message;

#[test]
fn the_parent_hello_is_parsed() {
    let env = Environment::from_bytes(
        b"{3|19:posix1.parent-hello,6:secret,13:/run/vt6/1234,}".to_vec(),
    );
    assert!(!env.needs_more());
    let parsed = env.parse().unwrap();
    assert_eq!(parsed.server_socket_path(), b"/run/vt6/1234");
    assert_eq!(parsed.client_secret(), "secret");
    //parsing can be repeated
    assert_eq!(env.parse().unwrap().client_secret(), "secret");
}

#[test]
fn a_client_without_a_terminal_is_told_so() {
    let env = Environment::without_terminal();
    assert!(!env.needs_more());
    match env.parse() {
        Err(e @ EnvironmentError::NoVT6Terminal) => {
            assert_eq!(e.to_string(), "not connected to a VT6-capable terminal")
        }
        other => panic!("unexpected: {:?}", other.map(|_| ())),
    }
}

#[test]
fn a_corrupt_parent_hello_is_refused() {
    let env = Environment::from_bytes(b"{3|19:posix1.parent-hello,6:sec".to_vec());
    assert!(env.needs_more());
    match env.parse() {
        Err(e @ EnvironmentError::CorruptParentHello(_)) => assert_eq!(
            e.to_string(),
            "cannot parse ParentHello: Parse error at offset 31: unexpected EOF"
        ),
        other => panic!("unexpected: {:?}", other.map(|_| ())),
    }
    let env = Environment::from_bytes(b"hello".to_vec());
    assert!(!env.needs_more());
    match env.parse() {
        Err(e @ EnvironmentError::CorruptParentHello(_)) => assert_eq!(
            e.to_string(),
            "cannot parse ParentHello: Parse error at offset 0: expected message opener"
        ),
        other => panic!("unexpected: {:?}", other.map(|_| ())),
    }
    //a buffer that is full takes no more
    let mut long = b"{2|4:want,2000:".to_vec();
    long.resize(1024, b'x');
    assert!(!Environment::from_bytes(long).needs_more());
    assert!(Environment::from_bytes(Vec::new()).needs_more());
}

#[test]
fn another_message_is_no_parent_hello() {
    for input in [
        &b"{2|4:want,5:core1,}"[..],
        &b"{2|19:posix1.parent-hello,6:secret,}"[..],
        &b"{3|19:posix1.parent-hello,2:\xC0\xB1,1:x,}"[..],
    ] {
        let env = Environment::from_bytes(input.to_vec());
        match env.parse() {
            Err(e @ EnvironmentError::InvalidParentHello(_)) => {
                let (msg, _) = Message::parse(input).unwrap();
                assert_eq!(e.to_string(), format!("invalid ParentHello: {}", msg.to_string()));
            }
            other => panic!("unexpected: {:?}", other.map(|_| ())),
        }
    }
}
