use std::cell::RefCell;
use std::rc::Rc;
use vt6::common::foundation::msg::BufferTooSmallError;
use vt6::common::foundation::msg::DecodeMessage;
use vt6::common::foundation::msg::EncodeMessage;
use vt6::common::foundation::msg::Message;
use vt6::common::foundation::msg::ParseError;
use vt6::common::foundation::ClientID;
use vt6::common::foundation::ModuleIdentifier;
use vt6::common::foundation::OwnedClientID;
use vt6::msg::core1::ClientNew;
use vt6::msg::Want;
use vt6::server::connection::resync_offset;
use vt6::server::connection::ReceiveBuffer;
use vt6::server::core1;
use vt6::server::send_buffer::SEND_BUFFER_SIZE;
use vt6::server::Application;
use vt6::server::Broadcast;
use vt6::server::ClientCredentials;
use vt6::server::ClientIdentity;
use vt6::server::ClientSelector;
use vt6::server::Connection;
use vt6::server::ConnectionPool;
use vt6::server::ConnectionState;
use vt6::server::Handler;
use vt6::server::HandlerError;
use vt6::server::HandshakeHandler;
use vt6::server::MessageConnector;
use vt6::server::MessageHandler;
use vt6::server::Notification;
use vt6::server::Registry;
use vt6::server::RejectHandler;
use vt6::server::ScreenCredentials;
use vt6::server::ScreenIdentity;
use vt6::server::SendBuffer;
use vt6::server::StdoutConnector;
use vt6::server::TxQueue;

////////////////////////////////////////////////////////////////////////////////
// an application to test with

#[derive(Default)]
struct Store {
    clients: Vec<ClientIdentity>,
    client_secrets: Vec<(String, ClientIdentity)>,
    stdin: Vec<(String, ScreenIdentity)>,
    stdout: Vec<(String, ScreenIdentity)>,
    authorize_calls: usize,
    unregistered: Vec<String>,
    notifications: Vec<String>,
    errors: usize,
    next_secret: usize,
}

#[derive(Clone, Default)]
struct TestApp(Rc<RefCell<Store>>);

impl TestApp {
    fn add_client(&self, id: &str, secret: &str) {
        let identity = ClientIdentity::new(&ClientID::parse(id).unwrap());
        let mut store = self.0.borrow_mut();
        store.clients.push(identity.clone());
        store.client_secrets.push((secret.into(), identity));
    }
    fn add_screen(&self, id: &str, stdin_secret: &str, stdout_secret: &str) {
        let mut store = self.0.borrow_mut();
        store.stdin.push((stdin_secret.into(), ScreenIdentity::new(id)));
        store.stdout.push((stdout_secret.into(), ScreenIdentity::new(id)));
    }
}

fn take<T>(list: &mut Vec<(String, T)>, secret: &str) -> Option<T> {
    let index = list.iter().position(|(s, _)| s == secret)?;
    Some(list.remove(index).1)
}

fn selects(selector: &ClientSelector<'_>, id: &ClientIdentity) -> bool {
    selector.contains(id.client_id())
}

struct TestMessageConnector(ClientIdentity);

impl MessageConnector for TestMessageConnector {
    fn new(id: ClientIdentity) -> Self {
        TestMessageConnector(id)
    }
    fn identity(&self) -> &ClientIdentity {
        &self.0
    }
    fn identity_view(&self) -> ClientIdentity {
        self.0.clone()
    }
}

struct TestStdoutConnector(ScreenIdentity, Vec<u8>);

impl StdoutConnector for TestStdoutConnector {
    fn new(id: ScreenIdentity) -> Self {
        TestStdoutConnector(id, Vec::new())
    }
    fn receive(&mut self, buf: &[u8]) {
        self.1.extend_from_slice(buf);
    }
    fn screen_view(&self) -> ScreenIdentity {
        self.0.clone()
    }
}

impl Application for TestApp {
    type MessageConnector = TestMessageConnector;
    type StdoutConnector = TestStdoutConnector;

    fn notify(&self, n: &Notification<'_>) {
        let mut store = self.0.borrow_mut();
        if n.is_error() {
            store.errors += 1;
        }
        store.notifications.push(n.to_string());
    }

    fn register_client(&self, i: ClientIdentity) -> ClientCredentials {
        let mut store = self.0.borrow_mut();
        store.next_secret += 1;
        let secret = format!("secret{}", store.next_secret);
        store.clients.push(i.clone());
        store.client_secrets.push((secret.clone(), i));
        ClientCredentials::from_secret(secret)
    }

    fn authorize_client(&self, secret: &str) -> Option<ClientIdentity> {
        let mut store = self.0.borrow_mut();
        store.authorize_calls += 1;
        take(&mut store.client_secrets, secret)
    }

    fn find_client(&self, id: ClientID<'_>) -> Option<ClientIdentity> {
        let store = self.0.borrow();
        store.clients.iter().find(|c| c.client_id() == id).cloned()
    }

    fn has_clients(&self, selector: ClientSelector<'_>) -> bool {
        self.0.borrow().clients.iter().any(|c| selects(&selector, c))
    }

    fn unregister_clients(&self, selector: ClientSelector<'_>) {
        let mut store = self.0.borrow_mut();
        let (gone, kept): (Vec<_>, Vec<_>) =
            store.clients.drain(..).partition(|c| selects(&selector, c));
        store.clients = kept;
        for c in gone {
            store.unregistered.push(c.client_id().as_str().into());
        }
        store.client_secrets.retain(|(_, c)| !selects(&selector, c));
    }

    fn authorize_stdin(&self, secret: &str) -> Option<ScreenIdentity> {
        let mut store = self.0.borrow_mut();
        store.authorize_calls += 1;
        take(&mut store.stdin, secret)
    }

    fn authorize_stdout(&self, secret: &str) -> Option<ScreenIdentity> {
        let mut store = self.0.borrow_mut();
        store.authorize_calls += 1;
        take(&mut store.stdout, secret)
    }
}

type Handshake = core1::HandshakeHandler<RejectHandler>;
type Messages = core1::MessageHandler<RejectHandler>;

struct Terminal {
    app: TestApp,
    pool: ConnectionPool<TestApp>,
}

impl Terminal {
    fn new() -> Self {
        let app = TestApp::default();
        Terminal { pool: ConnectionPool::new(app.clone()), app }
    }

    fn connect(&mut self) -> u64 {
        self.pool.create_connection()
    }

    ///Feeds the bytes to the connection and returns what is left in the
    ///receive buffer.
    fn receive(&mut self, conn_id: u64, buf: &mut Vec<u8>) -> Vec<u64> {
        self.pool.handle_incoming(
            conn_id,
            buf,
            &core1::HandshakeHandler(RejectHandler),
            &core1::MessageHandler(RejectHandler),
        )
    }

    fn send(&mut self, conn_id: u64, bytes: &[u8]) -> Vec<u64> {
        let mut buf = bytes.to_vec();
        let closed = self.receive(conn_id, &mut buf);
        assert!(buf.is_empty(), "left in the buffer: {:?}", buf);
        closed
    }

    ///Takes all that waits to be sent on the connection, as the transmitter
    ///would.
    fn sent(&mut self, conn_id: u64) -> Vec<u8> {
        let mut all = Vec::new();
        let mut returned = None;
        while let Some(buf) = self.pool.swap_send_buffer(conn_id, returned.take()) {
            all.extend_from_slice(buf.filled());
            returned = Some(buf);
        }
        all
    }

    fn state(&self, conn_id: u64) -> Option<&'static str> {
        self.pool.connection(conn_id).map(|c| c.state().state_name())
    }

    fn msgio(&mut self, client: &str) -> u64 {
        let secret = format!("hello-{}", client);
        self.app.add_client(client, &secret);
        let id = self.connect();
        let hello = format!("{{2|19:posix1.client-hello,{}:{},}}", secret.len(), secret);
        self.send(id, hello.as_bytes());
        assert_eq!(self.state(id), Some("Msgio"));
        self.sent(id);
        id
    }
}

////////////////////////////////////////////////////////////////////////////////
// the handshake

#[test]
fn handshake_with_an_accepted_secret_gives_a_message_socket() {
    let mut t = Terminal::new();
    t.app.add_client("a", "secret");
    let id = t.connect();
    assert_eq!(id, 0);
    assert_eq!(t.state(id), Some("Handshake"));
    let closed = t.send(id, b"{2|19:posix1.client-hello,6:secret,}");
    assert!(closed.is_empty());
    assert_eq!(t.state(id), Some("Msgio"));
    assert_eq!(t.sent(id), b"{5|19:posix1.server-hello,1:a,0:,0:,0:,}");
    assert_eq!(t.sent(id), b"");
    assert_eq!(t.app.0.borrow().notifications, vec!["client connection opened"]);
}

#[test]
fn handshake_tells_the_client_its_screens() {
    let mut t = Terminal::new();
    let identity = ClientIdentity::new(&ClientID::parse("shell").unwrap())
        .with_stdin("in")
        .with_stderr("err");
    assert_eq!(identity.client_id().as_str(), "shell");
    assert_eq!(identity.stdin_screen_id(), Some("in"));
    assert_eq!(identity.stdout_screen_id(), None);
    assert_eq!(identity.stderr_screen_id(), Some("err"));
    assert_eq!(identity.clone().with_stdout("out").stdout_screen_id(), Some("out"));
    t.app.0.borrow_mut().client_secrets.push(("s".into(), identity));
    let id = t.connect();
    t.send(id, b"{2|19:posix1.client-hello,1:s,}");
    assert_eq!(t.sent(id), b"{5|19:posix1.server-hello,5:shell,2:in,0:,3:err,}");
}

#[test]
fn handshake_with_a_rejected_secret_tears_down_without_an_answer() {
    let mut t = Terminal::new();
    t.app.add_client("a", "secret");
    let id = t.connect();
    let closed = t.send(id, b"{2|19:posix1.client-hello,3:bad,}");
    assert_eq!(closed, vec![id]);
    assert_eq!(t.state(id), None);
    assert_eq!(t.sent(id), b"");
    assert!(!t.pool.is_alive(id));
    assert_eq!(
        t.app.0.borrow().notifications,
        vec!["client connection opened", "client connection closed"]
    );
}

#[test]
fn a_secret_is_authorized_once() {
    let mut t = Terminal::new();
    t.app.add_client("a", "secret");
    let first = t.connect();
    t.send(first, b"{2|19:posix1.client-hello,6:secret,}");
    assert_eq!(t.state(first), Some("Msgio"));
    assert_eq!(t.sent(first), b"{5|19:posix1.server-hello,1:a,0:,0:,0:,}");
    assert_eq!(t.app.0.borrow().authorize_calls, 1);
    //the same secret does not open a second socket
    let second = t.connect();
    assert_eq!(second, 1);
    let closed = t.send(second, b"{2|19:posix1.client-hello,6:secret,}");
    assert_eq!(closed, vec![second]);
    assert_eq!(t.app.0.borrow().authorize_calls, 2);
    //a hello on a socket that has left the handshake asks nobody
    t.send(first, b"{2|19:posix1.client-hello,6:secret,}");
    assert_eq!(t.app.0.borrow().authorize_calls, 2);
    assert_eq!(t.sent(first), b"{2|4:have,6:posix1,}");
    assert_eq!(t.state(first), Some("Msgio"));
}

#[test]
fn anything_but_a_handshake_tears_a_new_socket_down() {
    for input in [
        &b"{2|4:want,5:core1,}"[..],
        &b"garbage"[..],
        &b"{1|19:posix1.client-hello,}"[..],
        &b"{3|19:posix1.client-hello,1:a,1:b,}"[..],
        &b"{2|18:posix1.stdin-hello,3:bad,}"[..],
        &b"{2|19:posix1.stdout-hello,3:bad,}"[..],
    ] {
        let mut t = Terminal::new();
        t.app.add_client("a", "a");
        let id = t.connect();
        let mut buf = input.to_vec();
        let closed = t.receive(id, &mut buf);
        assert_eq!(closed, vec![id], "input {:?}", input);
        assert_eq!(t.sent(id), b"");
    }
}

#[test]
fn an_incomplete_handshake_waits_for_more() {
    let mut t = Terminal::new();
    t.app.add_client("a", "secret");
    let id = t.connect();
    let mut buf = b"{2|19:posix1.client-hel".to_vec();
    assert!(t.receive(id, &mut buf).is_empty());
    assert_eq!(buf, b"{2|19:posix1.client-hel");
    assert_eq!(t.state(id), Some("Handshake"));
    buf.extend_from_slice(b"lo,6:secret,}{2|4:want,5:core1,}");
    assert!(t.receive(id, &mut buf).is_empty());
    assert!(buf.is_empty());
    assert_eq!(t.state(id), Some("Msgio"));
    assert_eq!(
        t.sent(id),
        &b"{5|19:posix1.server-hello,1:a,0:,0:,0:,}{2|4:have,7:core1.0,}"[..]
    );
}

////////////////////////////////////////////////////////////////////////////////
// messages

#[test]
fn want_is_answered_with_have() {
    let mut t = Terminal::new();
    let id = t.msgio("a");
    t.send(id, b"{2|4:want,5:core1,}");
    assert_eq!(t.sent(id), b"{2|4:have,7:core1.0,}");
    t.send(id, b"{2|4:want,4:foo9,}");
    assert_eq!(t.sent(id), b"{2|4:have,4:foo9,}");
    assert_eq!(t.state(id), Some("Msgio"));
}

#[test]
fn messages_that_nobody_takes_get_the_baseline_response() {
    let mut t = Terminal::new();
    let id = t.msgio("a");
    //a want that is not valid
    t.send(id, b"{1|4:want,}");
    assert_eq!(t.sent(id), b"{2|4:nope,4:want,}");
    t.send(id, b"{2|4:want,4:core,}");
    assert_eq!(t.sent(id), b"{2|4:nope,4:want,}");
    //eternal message types that no handler knows
    t.send(id, b"{1|4:init,}");
    assert_eq!(t.sent(id), b"{2|4:nope,4:init,}");
    t.send(id, b"{2|4:have,5:core1,}");
    assert_eq!(t.sent(id), b"{2|4:nope,4:have,}");
    //scoped message types that no handler knows
    t.send(id, b"{1|9:core1.foo,}");
    assert_eq!(t.sent(id), b"{2|4:have,7:core1.0,}");
    t.send(id, b"{2|10:term23.bar,1:x,}");
    assert_eq!(t.sent(id), b"{2|4:have,6:term23,}");
    //a known scoped message that is not valid
    t.send(id, b"{1|17:core1.client-make,}");
    assert_eq!(t.sent(id), b"{2|4:nope,17:core1.client-make,}");
    assert_eq!(t.state(id), Some("Msgio"));
}

#[test]
fn garbage_is_dropped_up_to_the_next_opener() {
    let mut t = Terminal::new();
    let id = t.msgio("a");
    let mut buf = b"garbage{2|4:want,".to_vec();
    assert!(t.receive(id, &mut buf).is_empty());
    //the receiver has dropped the garbage and waits for the rest
    assert_eq!(buf, b"{2|4:want,");
    assert_eq!(
        t.app.0.borrow().notifications.last().unwrap(),
        "discarded invalid input: \"garbage\""
    );
    assert_eq!(t.sent(id), b"");
    buf.extend_from_slice(b"5:core1,}");
    assert!(t.receive(id, &mut buf).is_empty());
    assert!(buf.is_empty());
    assert_eq!(t.sent(id), b"{2|4:have,7:core1.0,}");
    assert_eq!(t.app.0.borrow().errors, 0);
}

#[test]
fn resync_skips_at_least_one_byte() {
    assert_eq!(resync_offset(b"garbage{1|"), 7);
    assert_eq!(resync_offset(b"{{"), 1);
    assert_eq!(resync_offset(b"{x{"), 2);
    assert_eq!(resync_offset(b"{"), 1);
    assert_eq!(resync_offset(b"abc"), 3);
    let mut t = Terminal::new();
    let id = t.msgio("a");
    t.send(id, b"{x}{{2|4:want,5:core1,}");
    assert_eq!(t.sent(id), b"{2|4:have,7:core1.0,}");
    let store = t.app.0.borrow();
    let n = &store.notifications;
    assert_eq!(n[n.len() - 2], "discarded invalid input: \"{x}\"");
    assert_eq!(n[n.len() - 1], "discarded invalid input: \"{\"");
}

#[test]
fn a_client_makes_clients_below_itself() {
    let mut t = Terminal::new();
    let id = t.msgio("a");
    t.send(id, b"{5|17:core1.client-make,2:ab,2:s1,0:,0:,}");
    assert_eq!(t.sent(id), b"{2|16:core1.client-new,7:secret1,}");
    let made = t.app.find_client(ClientID::parse("ab").unwrap()).unwrap();
    assert_eq!(made.stdin_screen_id(), Some("s1"));
    assert_eq!(made.stdout_screen_id(), None);
    //the ID is in use now
    t.send(id, b"{5|17:core1.client-make,2:ab,0:,0:,0:,}");
    assert_eq!(t.sent(id), b"{2|4:nope,17:core1.client-make,}");
    //so is every ID above a registered one
    t.send(id, b"{5|17:core1.client-make,1:a,0:,0:,0:,}");
    assert_eq!(t.sent(id), b"{2|4:nope,17:core1.client-make,}");
    //and a client cannot make clients beside itself
    t.send(id, b"{5|17:core1.client-make,2:bc,0:,0:,0:,}");
    assert_eq!(t.sent(id), b"{2|4:nope,17:core1.client-make,}");
    //the new client can connect with its secret
    let child = t.connect();
    t.send(child, b"{2|19:posix1.client-hello,7:secret1,}");
    assert_eq!(t.sent(child), b"{5|19:posix1.server-hello,2:ab,2:s1,0:,0:,}");
}

#[test]
fn the_end_of_a_lifetime_tears_down_the_sockets_below() {
    let mut t = Terminal::new();
    let a = t.msgio("a");
    let ab = t.msgio("ab");
    let abc = t.msgio("abc");
    let ac = t.msgio("ac");
    let closed = t.send(a, b"{2|18:core1.lifetime-end,2:ab,}");
    assert_eq!(closed, vec![ab, abc]);
    assert_eq!(t.app.0.borrow().unregistered, vec!["ab", "abc"]);
    assert_eq!(t.state(a), Some("Msgio"));
    assert_eq!(t.state(ab), None);
    assert_eq!(t.state(abc), None);
    assert_eq!(t.state(ac), Some("Msgio"));
    assert_eq!(t.pool.len(), 2);
    assert_eq!(t.sent(a), b"");
    //a client cannot end its own lifetime or that of a stranger
    t.send(ac, b"{2|18:core1.lifetime-end,2:ac,}");
    assert_eq!(t.sent(ac), b"{2|4:nope,18:core1.lifetime-end,}");
    t.send(ac, b"{2|18:core1.lifetime-end,1:a,}");
    assert_eq!(t.sent(ac), b"{2|4:nope,18:core1.lifetime-end,}");
    assert_eq!(t.state(a), Some("Msgio"));
    //the IDs of connections are never given out again
    assert_eq!(t.connect(), 4);
}

////////////////////////////////////////////////////////////////////////////////
// standard streams

#[test]
fn stdin_is_delivered_in_order() {
    let mut t = Terminal::new();
    t.app.add_screen("screen1", "in1", "out1");
    let id = t.connect();
    t.send(id, b"{2|18:posix1.stdin-hello,3:in1,}");
    assert_eq!(t.state(id), Some("Stdin"));
    assert_eq!(t.sent(id), b"");
    assert!(t.pool.enqueue_stdin(id, b"hello\n"));
    assert_eq!(t.sent(id), b"hello\n");
    //more than a send buffer holds
    let long: Vec<u8> = (0..3 * SEND_BUFFER_SIZE + 17).map(|i| (i % 251) as u8).collect();
    assert!(t.pool.enqueue_stdin(id, b"abc"));
    assert!(t.pool.enqueue_stdin(id, &long));
    assert!(t.pool.enqueue_stdin(id, b"xyz"));
    let mut expected = b"abc".to_vec();
    expected.extend_from_slice(&long);
    expected.extend_from_slice(b"xyz");
    assert_eq!(t.sent(id), expected);
    //messages do not go to a socket for standard input
    assert!(t.pool.enqueue_message(id, &Want(ModuleIdentifier::parse("core1").unwrap())).is_none());
    assert_eq!(t.sent(id), b"");
}

#[test]
fn input_on_a_stdin_socket_tears_it_down() {
    let mut t = Terminal::new();
    t.app.add_screen("screen1", "in1", "out1");
    let id = t.connect();
    let closed = t.send(id, b"{2|18:posix1.stdin-hello,3:in1,}oops");
    assert_eq!(closed, vec![id]);
    assert_eq!(t.state(id), None);
    assert_eq!(
        t.app.0.borrow().notifications,
        vec![
            "client connection opened",
            "discarded invalid input: \"oops\"",
            "client connection closed"
        ]
    );
}

#[test]
fn stdout_goes_to_the_connector() {
    let mut t = Terminal::new();
    t.app.add_screen("screen1", "in1", "out1");
    let id = t.connect();
    t.send(id, b"{2|19:posix1.stdout-hello,4:out1,}hello ");
    t.send(id, b"{world}");
    assert_eq!(t.state(id), Some("Stdout"));
    match t.pool.connection(id).unwrap().state() {
        ConnectionState::Stdout(connector) => {
            assert_eq!(connector.0.screen_id(), "screen1");
            assert_eq!(connector.1, b"hello {world}");
        }
        _ => panic!("not in state Stdout"),
    }
    assert!(!t.pool.enqueue_stdin(id, b"x"));
    //the secret for the standard input is still good, the other is used up
    let second = t.connect();
    assert_eq!(t.send(second, b"{2|19:posix1.stdout-hello,4:out1,}"), vec![second]);
    let third = t.connect();
    assert!(t.send(third, b"{2|18:posix1.stdin-hello,3:in1,}").is_empty());
}

////////////////////////////////////////////////////////////////////////////////
// the pool

#[test]
fn broadcasts_reach_every_connection() {
    let mut t = Terminal::new();
    t.app.add_screen("s1", "in1", "out1");
    t.app.add_screen("s2", "in2", "out2");
    let a = t.msgio("a");
    let one = t.connect();
    t.send(one, b"{2|18:posix1.stdin-hello,3:in1,}");
    let two = t.connect();
    t.send(two, b"{2|18:posix1.stdin-hello,3:in2,}");
    let closed = t.pool.enqueue_broadcast(Broadcast::Stdin {
        screen: ScreenIdentity::new("s2"),
        input: b"typed".to_vec(),
    });
    assert!(closed.is_empty());
    assert_eq!(t.sent(a), b"");
    assert_eq!(t.sent(one), b"");
    assert_eq!(t.sent(two), b"typed");
    let closed = t.pool.enqueue_broadcast(Broadcast::EndLifetime(OwnedClientID::from(
        &ClientID::parse("a").unwrap(),
    )));
    assert_eq!(closed, vec![a]);
    assert_eq!(t.pool.len(), 2);
    assert!(t.pool.is_alive(one));
    assert!(t.pool.is_alive(two));
}

#[test]
fn closed_connections_leave_the_pool() {
    let mut t = Terminal::new();
    let a = t.msgio("a");
    let b = t.msgio("b");
    assert!(t.pool.close_connection(a));
    assert!(!t.pool.close_connection(a));
    assert!(!t.pool.is_alive(a));
    assert!(t.pool.is_alive(b));
    assert_eq!(t.pool.find(b), Some(0));
    assert_eq!(t.pool.find(a), None);
    assert!(t.receive(a, &mut b"{2|4:want,5:core1,}".to_vec()).is_empty());
    assert!(t.pool.enqueue_message(a, &Want(ModuleIdentifier::parse("core1").unwrap())).is_none());
    assert!(t.pool.swap_send_buffer(a, None).is_none());
    assert_eq!(t.app.0.borrow().notifications.last().unwrap(), "client connection closed");
}

#[test]
fn messages_are_sent_in_the_order_in_which_they_were_enqueued() {
    let mut t = Terminal::new();
    let id = t.msgio("a");
    let want = Want(ModuleIdentifier::parse("core1").unwrap());
    let mut one = vec![0u8; 64];
    let len = want.encode(&mut one).unwrap();
    one.truncate(len);
    let count = 3 * (SEND_BUFFER_SIZE / len) + 1;
    let mut expected = Vec::new();
    for _ in 0..count {
        assert_eq!(t.pool.enqueue_message(id, &want), Some(Ok(())));
        expected.extend_from_slice(&one);
    }
    //no message is spread over two buffers
    let mut all = Vec::new();
    let mut returned = None;
    let mut buffers = 0;
    while let Some(buf) = t.pool.swap_send_buffer(id, returned.take()) {
        assert_eq!(buf.filled().len() % len, 0);
        assert_eq!(buf.filled_len(), buf.filled().len());
        all.extend_from_slice(buf.filled());
        buffers += 1;
        returned = Some(buf);
    }
    assert_eq!(all, expected);
    assert_eq!(buffers, 4);
}

#[test]
fn a_message_longer_than_a_send_buffer_is_refused() {
    let mut queue = TxQueue::new();
    let overhead = b"{2|16:core1.client-new,4000:,}".len();
    let long = "x".repeat(4000);
    assert_eq!(queue.enqueue_message(&ClientNew { secret: &long }), Ok(()));
    assert!(!queue.is_empty());
    //the next one does not fit the same buffer, and goes to the one behind
    let short = "y".repeat(100);
    assert_eq!(queue.enqueue_message(&ClientNew { secret: &short }), Ok(()));
    let too_long = "z".repeat(SEND_BUFFER_SIZE);
    assert_eq!(
        queue.enqueue_message(&ClientNew { secret: &too_long }),
        Err(BufferTooSmallError(overhead))
    );
    let first = queue.swap_send_buffer(None).unwrap();
    assert_eq!(first.filled_len(), 4000 + overhead);
    let second = queue.swap_send_buffer(Some(first)).unwrap();
    assert_eq!(second.filled_len(), 100 + overhead - 1);
    assert!(queue.swap_send_buffer(Some(second)).is_none());
    assert!(queue.is_empty());
}

#[test]
fn send_buffers_fill_up() {
    let mut buf = SendBuffer::new();
    assert_eq!(buf.filled_len(), 0);
    assert_eq!(buf.fill_until_full(b"abc"), b"");
    assert_eq!(buf.filled(), b"abc");
    let long = vec![7u8; SEND_BUFFER_SIZE];
    let rest = buf.fill_until_full(&long);
    assert_eq!(rest.len(), 3);
    assert_eq!(buf.filled_len(), SEND_BUFFER_SIZE);
    assert_eq!(buf.fill_until_full(b"x"), b"x");
    assert_eq!(
        buf.fill_if_ok(&Want(ModuleIdentifier::parse("core1").unwrap())),
        Err(BufferTooSmallError(19))
    );
    buf.clear();
    assert_eq!(buf.filled(), b"");
    assert_eq!(buf.fill_if_ok(&Want(ModuleIdentifier::parse("core1").unwrap())), Ok(()));
    assert_eq!(buf.filled(), b"{2|4:want,5:core1,}");
    assert_eq!(SendBuffer::default().filled_len(), 0);
}

////////////////////////////////////////////////////////////////////////////////
// the connection

#[test]
fn teardown_is_never_left() {
    let app = TestApp::default();
    let mut conn: Connection<TestApp> = Connection::new(app.clone(), 7);
    assert_eq!(conn.id(), 7);
    assert_eq!(conn.state().state_name(), "Handshake");
    assert!(conn.state().can_receive_messages());
    assert!(!conn.state().can_receive_stdin());
    conn.set_state(ConnectionState::Stdin(ScreenIdentity::new("s")));
    assert_eq!(conn.state().state_name(), "Stdin");
    assert!(conn.state().can_receive_stdin());
    assert!(conn.state().can_receive_stdin_for_screen(&ScreenIdentity::new("s")));
    assert!(!conn.state().can_receive_stdin_for_screen(&ScreenIdentity::new("t")));
    assert!(!conn.state().can_receive_messages());
    //the handshake is left once
    conn.set_state(ConnectionState::Handshake);
    assert_eq!(conn.state().state_name(), "Stdin");
    conn.set_state(ConnectionState::Teardown);
    assert_eq!(conn.state().state_name(), "Teardown");
    assert!(conn.state().is_teardown());
    conn.set_state(ConnectionState::Handshake);
    assert_eq!(conn.state().state_name(), "Teardown");
    conn.set_state(ConnectionState::Stdin(ScreenIdentity::new("s")));
    assert_eq!(conn.state().state_name(), "Teardown");
    //a connection in teardown takes nothing
    let mut buf = b"{2|4:want,5:core1,}".to_vec();
    conn.handle_incoming(
        &mut buf,
        &core1::HandshakeHandler(RejectHandler),
        &core1::MessageHandler(RejectHandler),
    );
    assert_eq!(buf, b"{2|4:want,5:core1,}");
    assert!(conn.swap_send_buffer(None).is_none());
    assert!(conn.message_connector().is_none());
}

struct Recorder(RefCell<Vec<String>>);

impl Handler<TestApp> for Recorder {
    fn handle(
        &self,
        msg: &Message<'_>,
        conn: &mut Connection<TestApp>,
    ) -> Result<(), HandlerError> {
        self.0.borrow_mut().push(msg.to_string());
        match msg.parsed_type().as_str() {
            "test1.close" => {
                conn.set_state(ConnectionState::Teardown);
                Ok(())
            }
            "test1.invalid" => Err(HandlerError::InvalidMessage),
            "test1.ok" => Ok(()),
            _ => Err(HandlerError::UnknownMessageType),
        }
    }
    fn handle_error(&self, err: &ParseError<'_>, _conn: &mut Connection<TestApp>) {
        self.0
            .borrow_mut()
            .push(format!("{} at {}", err.kind.to_str(), err.offset));
    }
}

impl MessageHandler<TestApp> for Recorder {
    fn supported(&self, module: &ModuleIdentifier<'_>) -> Option<u16> {
        self.get_supported_module_version(module)
    }

    fn get_supported_module_version(&self, module: &ModuleIdentifier<'_>) -> Option<u16> {
        if module.as_str() == "test1" {
            Some(4)
        } else {
            None
        }
    }
}

impl HandshakeHandler<TestApp> for Recorder {}

#[test]
fn handlers_see_each_message_and_each_error() {
    let mut t = Terminal::new();
    let id = t.msgio("a");
    let recorder = Recorder(RefCell::new(Vec::new()));
    let mut buf =
        b"{1|8:test1.ok,}{x{1|13:test1.invalid,}{2|9:test1.foo,1:x,}{1|4:init,}{1|8:te".to_vec();
    let closed = t.pool.handle_incoming(id, &mut buf, &RejectHandler, &recorder);
    assert!(closed.is_empty());
    assert_eq!(buf, b"{1|8:te");
    assert_eq!(
        *recorder.0.borrow(),
        vec![
            "(test1.ok)",
            "expected decimal number at 1",
            "(test1.invalid)",
            "(test1.foo x)",
            "(init)"
        ]
    );
    assert_eq!(
        t.sent(id),
        &b"{2|4:nope,13:test1.invalid,}{2|4:have,7:test1.4,}{2|4:nope,4:init,}"[..]
    );
    //a handler can tear the connection down; what follows is not handled
    let mut buf = b"{1|11:test1.close,}{1|8:test1.ok,}".to_vec();
    let closed = t.pool.handle_incoming(id, &mut buf, &RejectHandler, &recorder);
    assert_eq!(closed, vec![id]);
    assert_eq!(buf, b"{1|8:test1.ok,}");
    assert_eq!(recorder.0.borrow().last().unwrap(), "(test1.close)");
}

#[test]
fn typed_messages_decode_what_they_encode() {
    let mut buf = vec![0u8; 128];
    let (msg, _) = Message::parse(b"{2|4:want,5:core1,}").unwrap();
    let want = Want::decode_message(&msg).unwrap();
    assert_eq!(want.0.as_str(), "core1");
    assert_eq!(want.encode(&mut buf), Ok(19));
    assert_eq!(&buf[..19], b"{2|4:want,5:core1,}");
    assert!(vt6::msg::Have::decode_message(&msg).is_none());

    let (msg, _) = Message::parse(b"{2|4:have,7:core1.0,}").unwrap();
    match vt6::msg::Have::decode_message(&msg).unwrap() {
        vt6::msg::Have::ThisModule(v) => assert_eq!(v.minor_version(), 0),
        _ => panic!("expected a positive have"),
    }
    let (msg, _) = Message::parse(b"{2|4:have,5:core1,}").unwrap();
    let have = vt6::msg::Have::decode_message(&msg).unwrap();
    assert!(matches!(have, vt6::msg::Have::NotThisModule(_)));
    assert_eq!(have.encode(&mut buf), Ok(19));
    assert_eq!(&buf[..19], b"{2|4:have,5:core1,}");

    let (msg, _) = Message::parse(b"{2|4:nope,9:core1.set,}").unwrap();
    let nope = vt6::msg::Nope::decode_message(&msg).unwrap();
    assert_eq!(nope.0.as_str(), "core1.set");
    assert_eq!(nope.encode(&mut buf), Ok(23));
    assert_eq!(&buf[..23], b"{2|4:nope,9:core1.set,}");

    let (msg, _) = Message::parse(b"{5|17:core1.client-make,2:ab,0:,3:out,0:,}").unwrap();
    let make = vt6::msg::core1::ClientMake::decode_message(&msg).unwrap();
    assert_eq!(make.client_id.as_str(), "ab");
    assert_eq!(make.stdin_screen_id, None);
    assert_eq!(make.stdout_screen_id, Some("out"));
    let len = make.encode(&mut buf).unwrap();
    assert_eq!(&buf[..len], &b"{5|17:core1.client-make,2:ab,0:,3:out,0:,}"[..]);
    assert!(vt6::msg::posix1::ServerHello::decode_message(&msg).is_none());

    let (msg, _) = Message::parse(b"{2|16:core1.client-new,6:secret,}").unwrap();
    let new = vt6::msg::core1::ClientNew::decode_message(&msg).unwrap();
    assert_eq!(new.secret, "secret");
    let (msg, _) = Message::parse(b"{2|16:core1.client-end,2:ab,}").unwrap();
    assert_eq!(vt6::msg::core1::ClientEnd::decode_message(&msg).unwrap().client_id.as_str(), "ab");
    let (msg, _) = Message::parse(b"{2|18:core1.lifetime-end,2:ab,}").unwrap();
    let end = vt6::msg::core1::LifetimeEnd::decode_message(&msg).unwrap();
    let len = end.encode(&mut buf).unwrap();
    assert_eq!(&buf[..len], &b"{2|18:core1.lifetime-end,2:ab,}"[..]);

    let (msg, _) =
        Message::parse(b"{3|19:posix1.parent-hello,6:secret,13:/run/vt6/1234,}").unwrap();
    let hello = vt6::msg::posix1::ParentHello::decode_message(&msg).unwrap();
    assert_eq!(hello.client_secret, "secret");
    assert_eq!(hello.server_socket_path, b"/run/vt6/1234");
    let len = hello.encode(&mut buf).unwrap();
    assert_eq!(
        &buf[..len],
        &b"{3|19:posix1.parent-hello,6:secret,13:/run/vt6/1234,}"[..]
    );
    for (wire, secret) in [
        (&b"{2|19:posix1.client-hello,1:x,}"[..], "x"),
        (&b"{2|18:posix1.stdin-hello,1:y,}"[..], "y"),
        (&b"{2|19:posix1.stdout-hello,1:z,}"[..], "z"),
    ] {
        let (msg, _) = Message::parse(wire).unwrap();
        let found = vt6::msg::posix1::ClientHello::decode_message(&msg)
            .map(|m| m.secret)
            .or(vt6::msg::posix1::StdinHello::decode_message(&msg).map(|m| m.secret))
            .or(vt6::msg::posix1::StdoutHello::decode_message(&msg).map(|m| m.secret));
        assert_eq!(found, Some(secret));
    }
    let reply = vt6::msg::HaveReply {
        module: ModuleIdentifier::parse("term2").unwrap(),
        supported: Some(13),
    };
    let len = reply.encode(&mut buf).unwrap();
    assert_eq!(&buf[..len], &b"{2|4:have,8:term2.13,}"[..]);
    assert_eq!(reply.encode(&mut buf[..5]), Err(BufferTooSmallError(17)));
}

#[test]
fn selectors_go_by_prefix() {
    let a = ClientID::parse("a").unwrap();
    let ab = ClientID::parse("ab").unwrap();
    let b = ClientID::parse("b").unwrap();
    assert!(ClientSelector::AtOrBelow(a).contains(a));
    assert!(ClientSelector::AtOrBelow(a).contains(ab));
    assert!(!ClientSelector::AtOrBelow(a).contains(b));
    assert!(!ClientSelector::AtOrBelow(ab).contains(a));
    assert!(!ClientSelector::StrictlyBelow(a).contains(a));
    assert!(ClientSelector::StrictlyBelow(a).contains(ab));
    assert!(!ClientSelector::StrictlyBelow(ab).contains(a));
    assert!(!ClientSelector::StrictlyBelow(a).contains(b));
}

#[test]
fn secrets_are_random_and_url_safe() {
    let one = ClientCredentials::generate().unwrap();
    let two = ClientCredentials::generate().unwrap();
    assert_eq!(one.secret().len(), 32);
    assert!(one
        .secret()
        .chars()
        .all(|c| c.is_ascii_alphanumeric() || c == '-' || c == '_'));
    assert_ne!(one.secret(), two.secret());
    let screen = ScreenCredentials::generate().unwrap();
    assert_eq!(screen.stdin_secret().len(), 32);
    assert_eq!(screen.stdout_secret().len(), 32);
    assert_ne!(screen.stdin_secret(), screen.stdout_secret());
    assert_eq!(
        vt6::server::auth::secret_from_random(&[0u8; 24]),
        "AAAAAAAAAAAAAAAAAAAAAAAAAAAAAAAA"
    );
    assert_eq!(
        vt6::server::auth::secret_from_random(&[0xffu8; 24]),
        "________________________________"
    );
    assert_eq!(ScreenIdentity::new("s").screen_id(), "s");
    let given = ScreenCredentials::from_secrets("i".into(), "o".into());
    assert_eq!(given.stdin_secret(), "i");
    assert_eq!(given.stdout_secret(), "o");
}

#[test]
fn notifications_are_shown() {
    assert_eq!(Notification::ConnectionOpened.to_string(), "client connection opened");
    assert_eq!(Notification::ConnectionClosed.to_string(), "client connection closed");
    assert_eq!(
        Notification::ConnectionIOError("broken pipe".into()).to_string(),
        "client connection encountered IO error: broken pipe"
    );
    assert_eq!(
        Notification::IncomingBytesDiscarded(b"a\"b\xff").to_string(),
        "discarded invalid input: \"a\\\"b\u{fffd}\""
    );
    assert!(Notification::ConnectionIOError("x".into()).is_error());
    assert!(!Notification::ConnectionOpened.is_error());
    assert!(!Notification::ConnectionClosed.is_error());
    assert!(!Notification::IncomingBytesDiscarded(b"x").is_error());
}


#[test]
fn the_registry_authorizes_each_secret_once() {
    let screen = ScreenCredentials::from_secrets("in".into(), "out".into());
    let mut registry = Registry::new(ScreenIdentity::new("screen1"), screen);
    let a = ClientIdentity::new(&ClientID::parse("a").unwrap());
    let ab = ClientIdentity::new(&ClientID::parse("ab").unwrap()).with_stdout("screen1");
    registry.register_client(a, ClientCredentials::from_secret("one".into()));
    registry.register_client(ab, ClientCredentials::from_secret("two".into()));
    assert!(registry.authorize_client("three").is_none());
    let found = registry.authorize_client("two").unwrap();
    assert_eq!(found.client_id().as_str(), "ab");
    assert_eq!(found.stdout_screen_id(), Some("screen1"));
    assert!(registry.authorize_client("two").is_none());
    assert_eq!(registry.authorize_client("one").unwrap().client_id().as_str(), "a");
    assert!(registry.authorize_client("one").is_none());
    assert!(registry.authorize_client("two").is_none());

    assert!(registry.authorize_stdin("out").is_none());
    assert_eq!(registry.authorize_stdin("in").unwrap().screen_id(), "screen1");
    assert!(registry.authorize_stdin("in").is_none());
    assert!(registry.authorize_stdout("in").is_none());
    assert_eq!(registry.authorize_stdout("out").unwrap().screen_id(), "screen1");
    assert!(registry.authorize_stdout("out").is_none());

    let a = ClientID::parse("a").unwrap();
    let ab = ClientID::parse("ab").unwrap();
    let b = ClientID::parse("b").unwrap();
    assert_eq!(registry.find_client(ab).unwrap().client_id(), ab);
    assert!(registry.find_client(b).is_none());
    assert!(registry.has_clients(ClientSelector::AtOrBelow(a)));
    assert!(registry.has_clients(ClientSelector::StrictlyBelow(a)));
    assert!(!registry.has_clients(ClientSelector::StrictlyBelow(ab)));
    assert!(!registry.has_clients(ClientSelector::AtOrBelow(b)));
    registry.unregister_clients(ClientSelector::StrictlyBelow(a));
    assert!(registry.find_client(ab).is_none());
    assert!(registry.find_client(a).is_some());
    registry.unregister_clients(ClientSelector::AtOrBelow(a));
    assert!(!registry.has_clients(ClientSelector::AtOrBelow(a)));
}

#[test]
fn a_chain_supports_the_modules_of_its_handlers() {
    let core1_id = ModuleIdentifier::parse("core1").unwrap();
    let test1_id = ModuleIdentifier::parse("test1").unwrap();
    let other_id = ModuleIdentifier::parse("other2").unwrap();
    let end = RejectHandler;
    assert_eq!(MessageHandler::<TestApp>::get_supported_module_version(&end, &core1_id), None);
    let chain = core1::MessageHandler(RejectHandler);
    assert_eq!(MessageHandler::<TestApp>::get_supported_module_version(&chain, &core1_id), Some(0));
    assert_eq!(MessageHandler::<TestApp>::get_supported_module_version(&chain, &test1_id), None);
    let recorder = Recorder(RefCell::new(Vec::new()));
    assert_eq!(recorder.get_supported_module_version(&test1_id), Some(4));
    assert_eq!(recorder.get_supported_module_version(&other_id), None);
}

#[test]
fn a_growing_buffer_is_emptied_from_the_front() {
    let mut buf = bytes::BytesMut::from(&b"garbage{1|4:want,"[..]);
    assert_eq!(buf.contents(), b"garbage{1|4:want,");
    buf.discard(0);
    assert_eq!(buf.contents(), b"garbage{1|4:want,");
    buf.discard(7);
    assert_eq!(buf.contents(), b"{1|4:want,");
    buf.extend_from_slice(b"}");
    assert_eq!(buf.contents(), b"{1|4:want,}");
    buf.discard(10);
    assert_eq!(buf.contents(), b"}");
    buf.discard(1);
    assert_eq!(buf.contents(), b"");
    buf.discard(0);
    assert_eq!(buf.contents(), b"");
}

#[test]
fn a_pooled_connection_reads_from_a_growing_buffer() {
    let mut t = Terminal::new();
    let id = t.msgio("a");
    let handshake = core1::HandshakeHandler(RejectHandler);
    let messages = core1::MessageHandler(RejectHandler);
    let mut buf = bytes::BytesMut::from(&b"garbage{2|4:want,5:core1,"[..]);
    let closed = t.pool.handle_incoming(id, &mut buf, &handshake, &messages);
    assert!(closed.is_empty());
    assert_eq!(buf.contents(), b"{2|4:want,5:core1,");
    assert_eq!(t.state(id), Some("Msgio"));
    buf.extend_from_slice(b"}");
    let closed = t.pool.handle_incoming(id, &mut buf, &handshake, &messages);
    assert!(closed.is_empty());
    assert_eq!(buf.contents(), b"");
    assert_eq!(t.sent(id), b"{2|4:have,7:core1.0,}");
}
