//! The state machine of one client connection.

use vstd::prelude::*;
use crate::common::foundation::identifiers::find_byte;
use crate::common::foundation::identifiers::is_strict_prefix;
use crate::common::foundation::identifiers::lemma_find_byte_is;
use crate::common::foundation::identifiers::MessageType;
use crate::common::foundation::identifiers::ModuleIdentifier;
use crate::common::foundation::identifiers::OwnedClientID;
use crate::common::foundation::msg::format::BufferTooSmallError;
use crate::common::foundation::msg::grammar::encode_message;
use crate::common::foundation::msg::grammar::lemma_read_item_bounds;
use crate::common::foundation::msg::grammar::lemma_read_items_bounds;
use crate::common::foundation::msg::grammar::read_message;
use crate::common::foundation::msg::parse::Message;
use crate::common::foundation::msg::parse::ParseError;
use crate::common::foundation::msg::parse::ParseErrorKind;
use crate::common::foundation::msg::traits::EncodeMessage;
use crate::msg::HaveReply;
use crate::msg::Nope;
use crate::server::application::Application;
use crate::server::application::MessageConnector;
use crate::server::application::StdoutConnector;
use crate::server::auth::ScreenIdentity;
use crate::server::handler::Handler;
use crate::server::handler::HandlerError;
use crate::server::handler::HandshakeHandler;
use crate::server::handler::MessageHandler;
use crate::server::notification::Notification;
use crate::server::selector::ClientSelector;
use crate::server::send_buffer::SendBuffer;
use crate::server::send_buffer::TxQueue;
use crate::server::send_buffer::SEND_BUFFER_SIZE;

verus! {

////////////////////////////////////////////////////////////////////////////////
// ConnectionState

/// The state of a client socket.
pub enum ConnectionState<A: Application> {
    /// The socket was just opened. The first message of the client decides
    /// what the socket becomes.
    Handshake,
    /// The socket carries messages in both directions.
    Msgio(A::MessageConnector),
    /// The socket carries the standard input of a screen to the client.
    Stdin(ScreenIdentity),
    /// The socket carries the standard output of the client to a screen.
    Stdout(A::StdoutConnector),
    /// The socket is being torn down. Nothing more is read or written.
    Teardown,
}

impl<A: Application> ConnectionState<A> {
    /// The name of each state.
    pub open spec fn name(&self) -> Seq<char> {
        match self {
            ConnectionState::Handshake => "Handshake"@,
            ConnectionState::Msgio(_) => "Msgio"@,
            ConnectionState::Stdin(_) => "Stdin"@,
            ConnectionState::Stdout(_) => "Stdout"@,
            ConnectionState::Teardown => "Teardown"@,
        }
    }

    /// Returns the name of the state, such as "Msgio", for use in messages
    /// to people.
    pub fn state_name(&self) -> (r: &'static str)
        ensures
            r@ == self.name(),
    {
        match self {
            ConnectionState::Handshake => "Handshake",
            ConnectionState::Msgio(_) => "Msgio",
            ConnectionState::Stdin(_) => "Stdin",
            ConnectionState::Stdout(_) => "Stdout",
            ConnectionState::Teardown => "Teardown",
        }
    }

    /// Whether a connection in this state carries messages: in the states
    /// `Handshake` and `Msgio`.
    pub open spec fn carries_messages(&self) -> bool {
        self is Handshake || self is Msgio
    }

    /// Whether messages can be enqueued on a connection in this state: in
    /// the states `Handshake` and `Msgio`.
    pub fn can_receive_messages(&self) -> (r: bool)
        ensures
            r == self.carries_messages(),
    {
        match self {
            ConnectionState::Handshake => true,
            ConnectionState::Msgio(_) => true,
            _ => false,
        }
    }

    /// Whether standard input can be enqueued on a connection in this state:
    /// in the state `Stdin`.
    pub fn can_receive_stdin(&self) -> (r: bool)
        ensures
            r == (self is Stdin),
    {
        match self {
            ConnectionState::Stdin(_) => true,
            _ => false,
        }
    }

    /// Whether a connection in this state is the standard input of the given
    /// screen.
    pub fn can_receive_stdin_for_screen(&self, id: &ScreenIdentity) -> (r: bool)
        ensures
            r == (self is Stdin && self->Stdin_0.id_text() == id.id_text()),
    {
        match self {
            ConnectionState::Stdin(my_id) => my_id.same_as(id),
            _ => false,
        }
    }

    /// Whether the connection is being torn down.
    pub fn is_teardown(&self) -> (r: bool)
        ensures
            r == (self is Teardown),
    {
        match self {
            ConnectionState::Teardown => true,
            _ => false,
        }
    }

    /// Whether the connection is still in its handshake.
    pub fn is_handshake(&self) -> (r: bool)
        ensures
            r == (self is Handshake),
    {
        match self {
            ConnectionState::Handshake => true,
            _ => false,
        }
    }
}

////////////////////////////////////////////////////////////////////////////////
// ReceiveBuffer

/// A buffer of bytes that were read from a socket. The one who reads from
/// the socket fills it, and the connection takes the bytes from its front.
pub trait ReceiveBuffer {
    /// The bytes in the buffer.
    spec fn bytes(&self) -> Seq<u8>;

    /// Returns the bytes in the buffer.
    fn contents(&self) -> (r: &[u8])
        ensures
            r@ == self.bytes(),
    ;

    /// Drops the first `len` bytes from the buffer.
    fn discard(&mut self, len: usize)
        requires
            len <= old(self).bytes().len(),
        ensures
            final(self).bytes() == old(self).bytes().subrange(
                len as int,
                old(self).bytes().len() as int,
            ),
    ;
}

impl ReceiveBuffer for Vec<u8> {
    open spec fn bytes(&self) -> Seq<u8> {
        self@
    }

    fn contents(&self) -> (r: &[u8]) {
        self.as_slice()
    }

    fn discard(&mut self, len: usize) {
        let count = self.len();
        let rest = vstd::slice::slice_to_vec(
            vstd::slice::slice_subrange(self.as_slice(), len, count),
        );
        *self = rest;
    }
}

/// `bytes::BytesMut`: a buffer of bytes, of which nothing is seen here but
/// through the functions below.
#[verifier::external_type_specification]
#[verifier::external_body]
pub struct ExBytesMut(bytes::BytesMut);

/// The bytes that a `BytesMut` holds, in their order.
pub uninterp spec fn bytes_held(buf: bytes::BytesMut) -> Seq<u8>;

/// `BytesMut`'s `Deref`: the bytes that the buffer holds, as a slice.
#[verifier::external_body]
fn held_slice(buf: &bytes::BytesMut) -> (r: &[u8])
    ensures
        r@ == bytes_held(*buf),
{
    &buf[..]
}

/// A write through `BytesMut`'s `DerefMut`: the byte at the position `at`,
/// where the buffer must hold a byte, becomes `byte`, and nothing else
/// changes.
#[verifier::external_body]
fn set_held(buf: &mut bytes::BytesMut, at: usize, byte: u8)
    requires
        at < bytes_held(*old(buf)).len(),
    ensures
        bytes_held(*final(buf)) == bytes_held(*old(buf)).update(at as int, byte),
{
    buf[at] = byte;
}

/// `BytesMut::truncate`: the buffer keeps its first `len` bytes. A buffer
/// that holds no more than `len` bytes stays as it is.
#[verifier::external_body]
fn truncate_held(buf: &mut bytes::BytesMut, len: usize)
    ensures
        bytes_held(*final(buf)) == if len <= bytes_held(*old(buf)).len() {
            bytes_held(*old(buf)).subrange(0, len as int)
        } else {
            bytes_held(*old(buf))
        },
{
    buf.truncate(len)
}

impl ReceiveBuffer for bytes::BytesMut {
    open spec fn bytes(&self) -> Seq<u8> {
        bytes_held(*self)
    }

    fn contents(&self) -> (r: &[u8]) {
        held_slice(self)
    }

    fn discard(&mut self, len: usize) {
        let ghost whole = bytes_held(*self);
        if len > 0 {
            let count = held_slice(self).len();
            let mut idx: usize = len;
            while idx < count
                invariant
                    0 < len <= idx <= count,
                    count == whole.len(),
                    bytes_held(*self).len() == count,
                    forall|j: int| 0 <= j < idx - len ==> bytes_held(*self)[j] == whole[j + len],
                    forall|j: int| idx - len <= j < count ==> bytes_held(*self)[j] == whole[j],
                decreases count - idx,
            {
                let byte = held_slice(self)[idx];
                set_held(self, idx - len, byte);
                idx = idx + 1;
            }
            truncate_held(self, count - len);
        }
        assert(bytes_held(*self) =~= whole.subrange(len as int, whole.len() as int));
    }
}

/// The buffer ends inside a message, which more bytes may complete.
pub open spec fn is_incomplete(bytes: Seq<u8>) -> bool {
    read_message(bytes) is Err && read_message(bytes)->Err_0.kind == ParseErrorKind::UnexpectedEOF
}

/// The buffer holds nothing that can be handled yet: it is empty, or ends
/// inside a message.
pub open spec fn waits_for_more(bytes: Seq<u8>) -> bool {
    bytes.len() == 0 || is_incomplete(bytes)
}

/// `tail` is what is left of `whole` when bytes are dropped from its front.
pub open spec fn is_tail_of(tail: Seq<u8>, whole: Seq<u8>) -> bool {
    tail.len() <= whole.len() && whole.subrange(whole.len() - tail.len(), whole.len() as int)
        == tail
}

/// The number of bytes to drop after a parse error: all that stands before
/// the next `{` behind the first byte, which may start a message, or all
/// there is if no `{` follows.
pub fn resync_offset(contents: &[u8]) -> (n: usize)
    requires
        contents@.len() > 0,
    ensures
        n == find_byte(contents@, 0x7b, 1),
        1 <= n <= contents@.len(),
{
    let len = contents.len();
    let mut i: usize = 1;
    while i < len
        invariant
            len == contents@.len(),
            1 <= i <= len,
            forall|j: int| 1 <= j < i ==> #[trigger] contents@[j] != 0x7b,
        decreases len - i,
    {
        if contents[i] == 0x7b {
            proof {
                lemma_find_byte_is(contents@, 0x7b, 1, i as int);
            }
            return i;
        }
        i = i + 1;
    }
    proof {
        lemma_find_byte_is(contents@, 0x7b, 1, len as int);
    }
    len
}

////////////////////////////////////////////////////////////////////////////////
// Broadcast

/// An action on all connections. A handler has one connection only; what it
/// wants done to the others it enqueues as a broadcast, which the pool of
/// connections carries out on every connection as soon as the handler has
/// given its connection back.
#[derive(Clone, Debug)]
pub enum Broadcast {
    /// The lifetime of a client has ended: the sockets that carry the
    /// messages of this client and of the clients below it are torn down.
    EndLifetime(OwnedClientID),
    /// Input for the standard input of a screen.
    Stdin { screen: ScreenIdentity, input: Vec<u8> },
}

/// Whether the client with ID `id` is the client with ID `top` or below it.
pub open spec fn at_or_below(top: Seq<u8>, id: Seq<u8>) -> bool {
    id == top || is_strict_prefix(top, id)
}

impl Broadcast {
    /// Whether the action tears down a connection in the given state.
    pub open spec fn ends<A: Application>(&self, state: ConnectionState<A>) -> bool {
        match self {
            Broadcast::EndLifetime(top) => state is Msgio && at_or_below(
                top.bytes(),
                state->Msgio_0.identity_view().id_bytes(),
            ),
            Broadcast::Stdin { .. } => false,
        }
    }

    /// The bytes that the action enqueues on a connection in the given state.
    pub open spec fn delivers<A: Application>(&self, state: ConnectionState<A>) -> Seq<u8> {
        match self {
            Broadcast::EndLifetime(_) => Seq::empty(),
            Broadcast::Stdin { screen, input } => if state is Stdin && state->Stdin_0.id_text()
                == screen.id_text() {
                input@
            } else {
                Seq::empty()
            },
        }
    }

    /// Carries out the action on one connection.
    pub fn apply<A: Application>(&self, conn: &mut Connection<A>)
        requires
            old(conn).wf(),
        ensures
            final(conn).wf(),
            final(conn).id_view() == old(conn).id_view(),
            final(conn).queued_broadcasts() == old(conn).queued_broadcasts(),
            self.ends(old(conn).state_view()) ==> final(conn).state_view()
                == ConnectionState::<A>::Teardown,
            !self.ends(old(conn).state_view()) ==> final(conn).state_view() == old(conn).state_view(),
            final(conn).pending() == old(conn).pending() + self.delivers(old(conn).state_view()),
    {
        match self {
            Broadcast::EndLifetime(top) => {
                assert(conn.pending() + Seq::<u8>::empty() =~= conn.pending());
                let matches = match conn.state() {
                    ConnectionState::Msgio(connector) => {
                        let selector = ClientSelector::AtOrBelow(top.as_ref());
                        selector.contains(connector.identity().client_id())
                    },
                    _ => false,
                };
                if matches {
                    conn.set_state(ConnectionState::Teardown);
                }
            },
            Broadcast::Stdin { screen, input } => {
                if conn.state().can_receive_stdin_for_screen(screen) {
                    conn.enqueue_stdin(input.as_slice());
                } else {
                    assert(conn.pending() + Seq::<u8>::empty() =~= conn.pending());
                }
            },
        }
    }
}

////////////////////////////////////////////////////////////////////////////////
// Connection

/// One client connection to the server socket.
pub struct Connection<A: Application> {
    app: A,
    id: u64,
    state: ConnectionState<A>,
    tx: TxQueue,
    broadcasts: Vec<Broadcast>,
}

/// The arguments of the `have` message that says whether a module is
/// supported.
pub open spec fn have_items(module: Seq<u8>, supported: Option<u16>) -> Seq<Seq<u8>> {
    seq![
        crate::common::foundation::identifiers::have_bytes(),
        match supported {
            Some(minor) => crate::msg::versioned_module(module, minor),
            None => module,
        },
    ]
}

/// The arguments of the `nope` message that refuses a message of the given
/// type.
pub open spec fn nope_items(message_type: Seq<u8>) -> Seq<Seq<u8>> {
    seq![crate::common::foundation::identifiers::nope_bytes(), message_type]
}

/// The byte strings of the baseline response to a message that a handler
/// did not take: `nope` with the message type for a message that is not
/// valid, and for one of unknown type that is not scoped; `have` with the
/// module for one of unknown type that is scoped.
pub open spec fn baseline_items(
    message_type: MessageType<'_>,
    error: HandlerError,
    supported: Option<u16>,
) -> Seq<Seq<u8>> {
    match (error, message_type) {
        (HandlerError::UnknownMessageType, MessageType::Scoped(s)) => have_items(
            s.module_bytes(),
            supported,
        ),
        _ => nope_items(message_type.bytes()),
    }
}

/// `left` is the connection `conn` torn down, with nothing else changed.
pub open spec fn is_torn_down<A: Application>(conn: &Connection<A>, left: &Connection<A>) -> bool {
    &&& left.wf()
    &&& left.id_view() == conn.id_view()
    &&& left.state_view() is Teardown
    &&& left.pending() == conn.pending()
    &&& left.queued_broadcasts() == conn.queued_broadcasts()
}

/// `left` is the connection `conn` with the message of the given byte
/// strings enqueued, if the connection carries messages and the message is
/// not too long to be sent, and with nothing else changed.
pub open spec fn is_answered<A: Application>(
    conn: &Connection<A>,
    left: &Connection<A>,
    items: Seq<Seq<u8>>,
) -> bool {
    &&& left.wf()
    &&& left.id_view() == conn.id_view()
    &&& left.state_view() == conn.state_view()
    &&& left.queued_broadcasts() == conn.queued_broadcasts()
    &&& left.pending() == if conn.state_view().carries_messages() && encode_message(items).len()
        <= SEND_BUFFER_SIZE {
        conn.pending() + encode_message(items)
    } else {
        conn.pending()
    }
}

/// What the baseline response says of the module of a message that the
/// handlers did not take: for a message of unknown type in a module, what
/// the handlers support of that module, and nothing else.
pub open spec fn is_baseline_support<A: Application, MH: MessageHandler<A>>(
    handler: &MH,
    message_type: MessageType<'_>,
    error: HandlerError,
    supported: Option<u16>,
) -> bool {
    match (error, message_type) {
        (HandlerError::UnknownMessageType, MessageType::Scoped(s)) => exists|
            module: ModuleIdentifier<'_>,
        |
            #[trigger] handler.supported(&module) == supported && module.bytes()
                == s.module_bytes(),
        _ => supported is None,
    }
}

/// The number of bytes that are taken from the front of a buffer that does
/// not wait for more: the message at the front, or, where there is none,
/// all that stands before the next `{` behind the first byte.
pub open spec fn step_length(buf: Seq<u8>) -> int {
    match read_message(buf) {
        Ok(parsed) => parsed.consumed,
        Err(_) => find_byte(buf, 0x7b, 1),
    }
}

/// What one step makes of a connection in its handshake, of which `buf`
/// was read and does not wait for more. A message goes to the handler: if
/// the handler takes it, the connection is what the handler left, and if
/// not, it is torn down. Bytes that are no message are shown to the
/// handler, and the connection is torn down.
pub open spec fn is_handshake_step<A: Application, HH: HandshakeHandler<A>>(
    handler: &HH,
    conn: &Connection<A>,
    buf: Seq<u8>,
    next: &Connection<A>,
) -> bool {
    match read_message(buf) {
        Ok(parsed) => exists|msg: Message<'_>, mid: Connection<A>, r: Result<(), HandlerError>|
            #[trigger] handler.handles(&msg, conn, &mid, r) && msg.items() == parsed.items
                && mid.wf() && mid.id_view() == conn.id_view() && if r is Ok {
                *next == mid
            } else {
                is_torn_down(&mid, next)
            },
        Err(f) => exists|e: ParseError<'_>, mid: Connection<A>|
            #[trigger] handler.notes(&e, conn, &mid) && e.buffer@ == buf && e.kind == f.kind
                && e.offset == f.offset && mid.wf() && mid.id_view() == conn.id_view()
                && is_torn_down(&mid, next),
    }
}

/// What one step makes of a connection that carries messages, of which
/// `buf` was read and does not wait for more. A message goes to the
/// handler: if the handler takes it, the connection is what the handler
/// left, and if not, the baseline response is enqueued. Bytes that are no
/// message are shown to the handler, and the connection is what the handler
/// left.
pub open spec fn is_message_step<A: Application, MH: MessageHandler<A>>(
    handler: &MH,
    conn: &Connection<A>,
    buf: Seq<u8>,
    next: &Connection<A>,
) -> bool {
    match read_message(buf) {
        Ok(parsed) => exists|msg: Message<'_>, mid: Connection<A>, r: Result<(), HandlerError>|
            #[trigger] handler.handles(&msg, conn, &mid, r) && msg.items() == parsed.items
                && mid.wf() && mid.id_view() == conn.id_view() && match r {
                Ok(_) => *next == mid,
                Err(error) => exists|supported: Option<u16>|
                    #[trigger] is_baseline_support(handler, msg.mtype(), error, supported)
                        && is_answered(
                        &mid,
                        next,
                        baseline_items(msg.mtype(), error, supported),
                    ),
            },
        Err(f) => exists|e: ParseError<'_>|
            #[trigger] handler.notes(&e, conn, next) && e.buffer@ == buf && e.kind == f.kind
                && e.offset == f.offset && next.wf() && next.id_view() == conn.id_view(),
    }
}

/// What comes of handing the bytes `buf` to the connection `conn`: the
/// connection `left`, and the bytes `rest` that stay in the buffer.
///
/// Whatever stands at the front of the buffer is dealt with in steps, as
/// the state of the connection asks for it, until the buffer is empty or
/// ends inside a message, or the connection takes no more. During the
/// handshake and on a socket that carries messages, each step takes one
/// message, or the bytes before the next `{`. On a socket for standard
/// input, any bytes tear the connection down; on a socket for standard
/// output, all bytes go to the connector. A connection that is torn down
/// takes nothing.
pub open spec fn is_handled<A: Application, HH: HandshakeHandler<A>, MH: MessageHandler<A>>(
    handshake: &HH,
    messages: &MH,
    conn: &Connection<A>,
    buf: Seq<u8>,
    left: &Connection<A>,
    rest: Seq<u8>,
) -> bool
    decreases buf.len(),
{
    if buf.len() == 0 {
        left == conn && rest == buf
    } else {
        match conn.state_view() {
            ConnectionState::Teardown => left == conn && rest == buf,
            ConnectionState::Stdin(_) => is_torn_down(conn, left) && rest.len() == 0,
            ConnectionState::Stdout(connector) => {
                &&& left.wf()
                &&& left.id_view() == conn.id_view()
                &&& left.state_view() is Stdout
                &&& left.state_view()->Stdout_0.screen_view() == connector.screen_view()
                &&& left.pending() == conn.pending()
                &&& left.queued_broadcasts() == conn.queued_broadcasts()
                &&& rest.len() == 0
            },
            ConnectionState::Handshake => if is_incomplete(buf) {
                left == conn && rest == buf
            } else {
                1 <= step_length(buf) <= buf.len() && exists|next: Connection<A>|
                    #[trigger] is_handshake_step(handshake, conn, buf, &next) && is_handled(
                        handshake,
                        messages,
                        &next,
                        buf.subrange(step_length(buf), buf.len() as int),
                        left,
                        rest,
                    )
            },
            ConnectionState::Msgio(_) => if is_incomplete(buf) {
                left == conn && rest == buf
            } else {
                1 <= step_length(buf) <= buf.len() && exists|next: Connection<A>|
                    #[trigger] is_message_step(messages, conn, buf, &next) && is_handled(
                        handshake,
                        messages,
                        &next,
                        buf.subrange(step_length(buf), buf.len() as int),
                        left,
                        rest,
                    )
            },
        }
    }
}

impl<A: Application> Connection<A> {
    /// The queue of bytes to send is well-formed.
    pub closed spec fn wf(&self) -> bool {
        self.tx.wf()
    }

    /// What each of the buffers holds that wait to be sent, the next to be
    /// sent first. Together they hold the bytes that wait.
    pub closed spec fn buffers(&self) -> Seq<Seq<u8>> {
        self.tx.buffers()
    }

    /// The bytes that wait to be sent are what the buffers hold, one after
    /// the other.
    pub proof fn lemma_pending_is_buffered(&self)
        ensures
            self.pending() == crate::server::send_buffer::concat_all(self.buffers()),
    {
    }

    /// The ID of the connection.
    pub closed spec fn id_view(&self) -> u64 {
        self.id
    }

    /// The state of the connection.
    pub closed spec fn state_view(&self) -> ConnectionState<A> {
        self.state
    }

    /// The bytes that wait to be sent to the client, in the order in which
    /// they will be sent.
    pub closed spec fn pending(&self) -> Seq<u8> {
        self.tx.pending()
    }

    /// The broadcasts that handlers have enqueued on this connection and
    /// that the pool has not taken yet.
    pub closed spec fn queued_broadcasts(&self) -> Seq<Broadcast> {
        self.broadcasts@
    }

    /// Makes a connection in the state `Handshake`. This is for the pool of
    /// connections to call when it accepts a client.
    pub fn new(app: A, id: u64) -> (r: Self)
        ensures
            r.wf(),
            r.app_view() == app,
            r.id_view() == id,
            r.state_view() is Handshake,
            r.pending() == Seq::<u8>::empty(),
            r.queued_broadcasts() == Seq::<Broadcast>::empty(),
    {
        Connection {
            app,
            id,
            state: ConnectionState::Handshake,
            tx: TxQueue::new(),
            broadcasts: Vec::new(),
        }
    }

    /// The application.
    pub closed spec fn app_view(&self) -> A {
        self.app
    }

    /// The application.
    pub fn application(&self) -> (r: &A)
        ensures
            *r == self.app_view(),
    {
        &self.app
    }

    /// Returns the ID of this connection. No two connections of one pool
    /// have the same.
    pub fn id(&self) -> (r: u64)
        ensures
            r == self.id_view(),
    {
        self.id
    }

    /// Returns the state of this connection.
    pub fn state(&self) -> (r: &ConnectionState<A>)
        ensures
            *r == self.state_view(),
    {
        &self.state
    }

    /// Whether the connection can go from the state `from` to the state
    /// `to`: out of the handshake into any state, and from any state into
    /// teardown. Teardown is never left.
    pub open spec fn may_change(from: ConnectionState<A>, to: ConnectionState<A>) -> bool {
        from is Handshake || to is Teardown
    }

    /// Puts this connection into another state. A handshake handler does so
    /// to leave the handshake; any handler may do so to tear the connection
    /// down. A change that is not allowed is not made.
    pub fn set_state(&mut self, state: ConnectionState<A>)
        ensures
            final(self).wf() == old(self).wf(),
            final(self).id_view() == old(self).id_view(),
            final(self).pending() == old(self).pending(),
            final(self).queued_broadcasts() == old(self).queued_broadcasts(),
            Self::may_change(old(self).state_view(), state) ==> final(self).state_view() == state,
            !Self::may_change(old(self).state_view(), state)
                ==> final(self).state_view() == old(self).state_view(),
            old(self).state_view() is Teardown ==> final(self).state_view() is Teardown,
    {
        if self.state.is_handshake() || state.is_teardown() {
            self.state = state;
        }
    }

    /// The connector of a connection that carries messages, and `None` for
    /// a connection in another state.
    pub fn message_connector(&self) -> (r: Option<&A::MessageConnector>)
        ensures
            r is Some <==> self.state_view() is Msgio,
            r is Some ==> *r->0 == self.state_view()->Msgio_0,
    {
        match &self.state {
            ConnectionState::Msgio(c) => Some(c),
            _ => None,
        }
    }

    /// The connector of a connection that carries standard output, and
    /// `None` for a connection in another state.
    pub fn stdout_connector(&self) -> (r: Option<&A::StdoutConnector>)
        ensures
            r is Some <==> self.state_view() is Stdout,
            r is Some ==> *r->0 == self.state_view()->Stdout_0,
    {
        match &self.state {
            ConnectionState::Stdout(c) => Some(c),
            _ => None,
        }
    }

    /// Writes a message into the queue of bytes to send, behind all that
    /// waits there. A message that is longer than a send buffer is refused
    /// with the number of bytes by which it is.
    ///
    /// Messages can be enqueued in the states `Handshake` and `Msgio` only.
    pub fn enqueue_message<M: EncodeMessage>(&mut self, msg: &M) -> (r: Result<
        (),
        BufferTooSmallError,
    >)
        requires
            old(self).wf(),
            old(self).state_view() is Handshake || old(self).state_view() is Msgio,
        ensures
            final(self).wf(),
            final(self).id_view() == old(self).id_view(),
            final(self).state_view() == old(self).state_view(),
            final(self).queued_broadcasts() == old(self).queued_broadcasts(),
            r is Ok <==> encode_message(msg.items()).len() <= SEND_BUFFER_SIZE,
            r is Ok ==> final(self).pending() == old(self).pending() + encode_message(msg.items()),
            r is Ok ==> exists|i: int|
                0 <= i < final(self).buffers().len() && crate::server::send_buffer::ends_with(
                    #[trigger] final(self).buffers()[i],
                    encode_message(msg.items()),
                ),
            r is Err ==> final(self).pending() == old(self).pending(),
    {
        let r = self.tx.enqueue_message(msg);
        proof {
            if r is Ok {
                let i = choose|i: int|
                    0 <= i < self.tx.buffers().len() && crate::server::send_buffer::ends_with(
                        #[trigger] self.tx.buffers()[i],
                        encode_message(msg.items()),
                    );
                assert(crate::server::send_buffer::ends_with(
                    self.buffers()[i],
                    encode_message(msg.items()),
                ));
            }
        }
        r
    }

    /// Writes standard input into the queue of bytes to send, behind all
    /// that waits there.
    ///
    /// Standard input can be enqueued in the state `Stdin` only.
    pub fn enqueue_stdin(&mut self, buf: &[u8])
        requires
            old(self).wf(),
            old(self).state_view() is Stdin,
        ensures
            final(self).wf(),
            final(self).id_view() == old(self).id_view(),
            final(self).state_view() == old(self).state_view(),
            final(self).queued_broadcasts() == old(self).queued_broadcasts(),
            final(self).pending() == old(self).pending() + buf@,
    {
        self.tx.enqueue_stdin(buf)
    }

    /// Enqueues an action on all connections. The pool carries it out when
    /// the handler has given this connection back.
    pub fn enqueue_broadcast(&mut self, action: Broadcast)
        ensures
            final(self).wf() == old(self).wf(),
            final(self).id_view() == old(self).id_view(),
            final(self).state_view() == old(self).state_view(),
            final(self).pending() == old(self).pending(),
            final(self).queued_broadcasts() == old(self).queued_broadcasts().push(action),
    {
        self.broadcasts.push(action);
    }

    /// Takes the broadcasts that were enqueued on this connection, in the
    /// order in which they were enqueued.
    pub fn take_broadcasts(&mut self) -> (r: Vec<Broadcast>)
        ensures
            final(self).wf() == old(self).wf(),
            final(self).id_view() == old(self).id_view(),
            final(self).state_view() == old(self).state_view(),
            final(self).pending() == old(self).pending(),
            final(self).queued_broadcasts() == Seq::<Broadcast>::empty(),
            r@ == old(self).queued_broadcasts(),
    {
        let mut taken: Vec<Broadcast> = Vec::new();
        core::mem::swap(&mut taken, &mut self.broadcasts);
        taken
    }

    /// Hands out the next buffer of bytes to send, and takes back the buffer
    /// that was sent. This is for the transmitter of the connection to call.
    /// What it is handed, in this order, is what was enqueued, in that order.
    pub fn swap_send_buffer(&mut self, buf: Option<SendBuffer>) -> (r: Option<SendBuffer>)
        requires
            old(self).wf(),
            buf is Some ==> buf->0.wf(),
        ensures
            final(self).wf(),
            final(self).id_view() == old(self).id_view(),
            final(self).state_view() == old(self).state_view(),
            final(self).queued_broadcasts() == old(self).queued_broadcasts(),
            match r {
                Some(next) => next.wf() && next.contents().len() > 0 && old(self).pending()
                    == next.contents() + final(self).pending(),
                None => old(self).pending().len() == 0 && final(self).pending().len() == 0,
            },
    {
        self.tx.swap_send_buffer(buf)
    }

    /// Sends the baseline response to a message that the handlers did not
    /// take, if the connection still carries messages. `supported` is what
    /// the handlers say of the module of the message type.
    pub fn respond_to_error(
        &mut self,
        msg: &Message<'_>,
        error: HandlerError,
        supported: Option<u16>,
    )
        requires
            old(self).wf(),
        ensures
            final(self).wf(),
            final(self).id_view() == old(self).id_view(),
            final(self).state_view() == old(self).state_view(),
            final(self).queued_broadcasts() == old(self).queued_broadcasts(),
            final(self).pending() == if (old(self).state_view() is Handshake
                || old(self).state_view() is Msgio) && encode_message(
                baseline_items(msg.mtype(), error, supported),
            ).len() <= SEND_BUFFER_SIZE {
                old(self).pending() + encode_message(baseline_items(msg.mtype(), error, supported))
            } else {
                old(self).pending()
            },
    {
        if !self.state.can_receive_messages() {
            return ;
        }
        match (error, msg.parsed_type()) {
            (HandlerError::UnknownMessageType, MessageType::Scoped(mt)) => {
                let reply = HaveReply { module: mt.module(), supported };
                assert(reply.items() =~= baseline_items(msg.mtype(), error, supported));
                let _ = self.enqueue_message(&reply);
            },
            (_, message_type) => {
                //anything else is an eternal message that the handlers do not
                //understand, or a message that is not valid
                let reply = Nope(message_type);
                assert(reply.items() =~= baseline_items(msg.mtype(), error, supported));
                let _ = self.enqueue_message(&reply);
            },
        }
    }

    /// Handles bytes that the client has sent. This is for the receiver of
    /// the connection to call whenever it has read from the socket.
    ///
    /// During the handshake and on a socket that carries messages, the
    /// messages in the buffer are parsed and handed to the handlers one by
    /// one, until the buffer is empty or ends inside a message. On a parse
    /// error the bytes up to the next `{` are dropped; during the handshake
    /// it also tears the connection down. On a socket for standard input,
    /// any bytes tear the connection down. On a socket for standard output,
    /// the bytes go to the connector. A connection in teardown takes nothing.
    pub fn handle_incoming<B: ReceiveBuffer, HH: HandshakeHandler<A>, MH: MessageHandler<A>>(
        &mut self,
        buf: &mut B,
        handshake: &HH,
        messages: &MH,
    )
        requires
            old(self).wf(),
        ensures
            final(self).wf(),
            final(self).id_view() == old(self).id_view(),
            is_tail_of(final(buf).bytes(), old(buf).bytes()),
            match old(self).state_view() {
                ConnectionState::Teardown => final(self).state_view() is Teardown
                    && final(self).pending() == old(self).pending()
                    && final(self).queued_broadcasts() == old(self).queued_broadcasts()
                    && final(buf).bytes() == old(buf).bytes(),
                ConnectionState::Stdin(_) => final(self).pending() == old(self).pending()
                    && final(self).queued_broadcasts() == old(self).queued_broadcasts()
                    && final(buf).bytes().len() == 0 && if old(buf).bytes().len() > 0 {
                    final(self).state_view() is Teardown
                } else {
                    final(self).state_view() == old(self).state_view()
                },
                ConnectionState::Stdout(connector) => final(self).state_view() is Stdout
                    && final(self).state_view()->Stdout_0.screen_view() == connector.screen_view()
                    && final(self).pending() == old(self).pending()
                    && final(self).queued_broadcasts() == old(self).queued_broadcasts()
                    && final(buf).bytes().len() == 0,
                _ => waits_for_more(old(buf).bytes()) ==> final(self).state_view() == old(self).state_view()
                    && final(self).pending() == old(self).pending()
                    && final(self).queued_broadcasts() == old(self).queued_broadcasts()
                    && final(buf).bytes() == old(buf).bytes(),
            },
            final(self).state_view().carries_messages() ==> waits_for_more(final(buf).bytes()),
            final(self).state_view() is Stdin || final(self).state_view() is Stdout
                ==> final(buf).bytes().len() == 0 || old(buf).bytes().len() == 0,
            is_handled(
                handshake,
                messages,
                old(self),
                old(buf).bytes(),
                final(self),
                final(buf).bytes(),
            ),
    {
        assert(old(buf).bytes().subrange(0, old(buf).bytes().len() as int) =~= old(buf).bytes());
        loop
            invariant
                self.wf(),
                self.id_view() == old(self).id_view(),
                is_tail_of(buf.bytes(), old(buf).bytes()),
                forall|left: Connection<A>, rest: Seq<u8>| #[trigger]
                    is_handled(handshake, messages, &*self, buf.bytes(), &left, rest)
                        ==> is_handled(
                        handshake,
                        messages,
                        old(self),
                        old(buf).bytes(),
                        &left,
                        rest,
                    ),
                !old(self).state_view().carries_messages() || waits_for_more(old(buf).bytes())
                    ==> self.state_view() == old(self).state_view()
                    && self.pending() == old(self).pending()
                    && self.queued_broadcasts() == old(self).queued_broadcasts()
                    && buf.bytes() == old(buf).bytes(),
            decreases buf.bytes().len(),
        {
            if buf.contents().len() == 0 {
                proof {
                    assert(is_handled(handshake, messages, &*self, buf.bytes(), &*self, buf.bytes()));
                }
                return ;
            }
            let ghost before = buf.bytes();
            let ghost start = *self;
            let progress = match self.state {
                ConnectionState::Handshake => self.handle_incoming_handshake(buf, handshake),
                ConnectionState::Msgio(_) => self.handle_incoming_msgio(buf, messages),
                ConnectionState::Stdin(_) => {
                    //receiving anything on stdin is an error, so close the
                    //connection
                    self.set_state(ConnectionState::Teardown);
                    let n = Notification::IncomingBytesDiscarded(buf.contents());
                    self.app.notify(&n);
                    let len = buf.contents().len();
                    buf.discard(len);
                    false
                },
                ConnectionState::Stdout(ref mut connector) => {
                    connector.receive(buf.contents());
                    let len = buf.contents().len();
                    buf.discard(len);
                    false
                },
                ConnectionState::Teardown => false,
            };
            proof {
                assert(is_tail_of(buf.bytes(), before)) by {
                    assert(before.subrange(before.len() - buf.bytes().len(), before.len() as int)
                        =~= buf.bytes());
                }
                lemma_tail_of_tail(buf.bytes(), before, old(buf).bytes());
            }
            if !progress {
                proof {
                    assert(is_handled(handshake, messages, &start, before, &*self, buf.bytes()));
                }
                return ;
            }
            proof {
                let now = *self;
                let rest_now = buf.bytes();
                assert forall|left: Connection<A>, rest: Seq<u8>| #[trigger]
                    is_handled(handshake, messages, &now, rest_now, &left, rest) implies is_handled(
                    handshake,
                    messages,
                    old(self),
                    old(buf).bytes(),
                    &left,
                    rest,
                ) by {
                    if start.state_view() is Handshake {
                        assert(is_handshake_step(handshake, &start, before, &now));
                    } else {
                        assert(is_message_step(messages, &start, before, &now));
                    }
                    assert(is_handled(handshake, messages, &start, before, &left, rest));
                }
            }
        }
    }

    /// Handles the first message in the buffer of a connection in its
    /// handshake. Returns whether anything was taken from the buffer, so
    /// that there may be more to handle.
    fn handle_incoming_handshake<B: ReceiveBuffer, HH: HandshakeHandler<A>>(
        &mut self,
        buf: &mut B,
        handler: &HH,
    ) -> (progress: bool)
        requires
            old(self).wf(),
            old(self).state_view() is Handshake,
            old(buf).bytes().len() > 0,
        ensures
            final(self).wf(),
            final(self).id_view() == old(self).id_view(),
            is_tail_of(final(buf).bytes(), old(buf).bytes()),
            progress == !is_incomplete(old(buf).bytes()),
            progress ==> final(buf).bytes().len() < old(buf).bytes().len(),
            progress ==> 1 <= step_length(old(buf).bytes()) <= old(buf).bytes().len()
                && final(buf).bytes() == old(buf).bytes().subrange(
                step_length(old(buf).bytes()),
                old(buf).bytes().len() as int,
            ) && is_handshake_step(handler, old(self), old(buf).bytes(), final(self)),
            !progress ==> *final(self) == *old(self) && final(buf).bytes() == old(buf).bytes(),
    {
        let ghost whole = buf.bytes();
        assert(whole.subrange(0, whole.len() as int) =~= whole);
        let discard = match Message::parse(buf.contents()) {
            Ok((msg, bytes_parsed)) => {
                proof {
                    lemma_message_bounds(whole);
                }
                let r = handler.handle(&msg, self);
                let ghost mid = *self;
                match r {
                    Ok(_) => {},
                    Err(_) => {
                        //during the handshake, anything that is no handshake
                        //is a fatal error
                        self.set_state(ConnectionState::Teardown);
                    },
                }
                proof {
                    assert(handler.handles(&msg, old(self), &mid, r));
                    assert(is_handshake_step(handler, old(self), whole, &*self));
                }
                bytes_parsed
            },
            Err(e) => {
                if e.is_incomplete() {
                    //if we don't have a full message yet, wait until the next
                    //read
                    return false;
                }
                handler.handle_error(&e, self);
                let ghost mid = *self;
                //during the handshake, anything that is no valid handshake
                //is a fatal error
                self.set_state(ConnectionState::Teardown);
                proof {
                    assert(handler.notes(&e, old(self), &mid));
                    assert(is_handshake_step(handler, old(self), whole, &*self));
                }
                self.discard_garbage(buf.contents())
            },
        };
        buf.discard(discard);
        proof {
            assert(buf.bytes() =~= whole.subrange(whole.len() - buf.bytes().len(), whole.len() as int));
        }
        true
    }

    /// Handles the first message in the buffer of a connection that carries
    /// messages. Returns whether anything was taken from the buffer, so that
    /// there may be more to handle.
    fn handle_incoming_msgio<B: ReceiveBuffer, MH: MessageHandler<A>>(
        &mut self,
        buf: &mut B,
        handler: &MH,
    ) -> (progress: bool)
        requires
            old(self).wf(),
            old(self).state_view() is Msgio,
            old(buf).bytes().len() > 0,
        ensures
            final(self).wf(),
            final(self).id_view() == old(self).id_view(),
            is_tail_of(final(buf).bytes(), old(buf).bytes()),
            progress == !is_incomplete(old(buf).bytes()),
            progress ==> final(buf).bytes().len() < old(buf).bytes().len(),
            progress ==> 1 <= step_length(old(buf).bytes()) <= old(buf).bytes().len()
                && final(buf).bytes() == old(buf).bytes().subrange(
                step_length(old(buf).bytes()),
                old(buf).bytes().len() as int,
            ) && is_message_step(handler, old(self), old(buf).bytes(), final(self)),
            !progress ==> *final(self) == *old(self) && final(buf).bytes() == old(buf).bytes(),
    {
        let ghost whole = buf.bytes();
        assert(whole.subrange(0, whole.len() as int) =~= whole);
        let discard = match Message::parse(buf.contents()) {
            Ok((msg, bytes_parsed)) => {
                proof {
                    lemma_message_bounds(whole);
                }
                let r = handler.handle(&msg, self);
                let ghost mid = *self;
                match r {
                    Ok(_) => {},
                    //error handling according to the baseline
                    Err(HandlerError::InvalidMessage) => {
                        self.respond_to_error(&msg, HandlerError::InvalidMessage, None);
                        proof {
                            assert(is_baseline_support(
                                handler,
                                msg.mtype(),
                                HandlerError::InvalidMessage,
                                None,
                            ));
                        }
                    },
                    Err(HandlerError::UnknownMessageType) => {
                        let supported = match msg.parsed_type() {
                            MessageType::Scoped(mt) => {
                                let module = mt.module();
                                let supported = handler.get_supported_module_version(&module);
                                proof {
                                    assert(handler.supported(&module) == supported);
                                }
                                supported
                            },
                            _ => None,
                        };
                        self.respond_to_error(&msg, HandlerError::UnknownMessageType, supported);
                        proof {
                            assert(is_baseline_support(
                                handler,
                                msg.mtype(),
                                HandlerError::UnknownMessageType,
                                supported,
                            ));
                        }
                    },
                }
                proof {
                    assert(handler.handles(&msg, old(self), &mid, r));
                    assert(is_message_step(handler, old(self), whole, &*self));
                }
                bytes_parsed
            },
            Err(e) => {
                if e.is_incomplete() {
                    //if we don't have a full message yet, wait until the next
                    //read
                    return false;
                }
                handler.handle_error(&e, self);
                proof {
                    assert(handler.notes(&e, old(self), &*self));
                    assert(is_message_step(handler, old(self), whole, &*self));
                }
                self.discard_garbage(buf.contents())
            },
        };
        buf.discard(discard);
        proof {
            assert(buf.bytes() =~= whole.subrange(whole.len() - buf.bytes().len(), whole.len() as int));
        }
        true
    }

    /// After a parse error, tells the application which bytes are dropped to
    /// get back in step, and returns their number: all that stands before
    /// the next byte that may start a message.
    fn discard_garbage(&self, contents: &[u8]) -> (n: usize)
        requires
            contents@.len() > 0,
        ensures
            n == find_byte(contents@, 0x7b, 1),
            1 <= n <= contents@.len(),
    {
        let bytes_to_discard = resync_offset(contents);
        let n = Notification::IncomingBytesDiscarded(
            vstd::slice::slice_subrange(contents, 0, bytes_to_discard),
        );
        self.app.notify(&n);
        bytes_to_discard
    }
}

/// A connection that is torn down takes nothing.
pub proof fn lemma_teardown_takes_nothing<
    A: Application,
    HH: HandshakeHandler<A>,
    MH: MessageHandler<A>,
>(
    handshake: &HH,
    messages: &MH,
    conn: &Connection<A>,
    buf: Seq<u8>,
    left: &Connection<A>,
    rest: Seq<u8>,
)
    requires
        is_handled(handshake, messages, conn, buf, left, rest),
        conn.state_view() is Teardown,
    ensures
        left == conn,
        rest == buf,
{
}

/// On a socket that carries messages, bytes that are no message are
/// dropped up to the next `{` behind the first byte, and no more than
/// these if what follows ends inside a message. If the handler leaves the
/// connection as it is when it is shown such bytes, the connection stays as
/// it is: its state, and what waits on it.
pub proof fn lemma_garbage_is_dropped<A: Application, HH: HandshakeHandler<A>, MH: MessageHandler<A>>(
    handshake: &HH,
    messages: &MH,
    conn: &Connection<A>,
    buf: Seq<u8>,
    left: &Connection<A>,
    rest: Seq<u8>,
)
    requires
        is_handled(handshake, messages, conn, buf, left, rest),
        conn.state_view() is Msgio,
        buf.len() > 0,
        read_message(buf) is Err,
        !is_incomplete(buf),
        waits_for_more(buf.subrange(find_byte(buf, 0x7b, 1), buf.len() as int)),
        forall|e: ParseError<'_>, mid: Connection<A>| #[trigger]
            messages.notes(&e, conn, &mid) ==> mid == *conn,
    ensures
        left == conn,
        rest == buf.subrange(find_byte(buf, 0x7b, 1), buf.len() as int),
{
    let k = find_byte(buf, 0x7b, 1);
    let next = choose|next: Connection<A>|
        #[trigger] is_message_step(messages, conn, buf, &next) && is_handled(
            handshake,
            messages,
            &next,
            buf.subrange(k, buf.len() as int),
            left,
            rest,
        );
    assert(next == *conn);
}

/// During the handshake, bytes that are no message tear the connection
/// down. They are dropped up to the next `{` behind the first byte, and
/// what follows stays in the buffer. What waits on the connection is what
/// the handler left when it was shown the bytes.
pub proof fn lemma_handshake_needs_a_message<
    A: Application,
    HH: HandshakeHandler<A>,
    MH: MessageHandler<A>,
>(
    handshake: &HH,
    messages: &MH,
    conn: &Connection<A>,
    buf: Seq<u8>,
    left: &Connection<A>,
    rest: Seq<u8>,
)
    requires
        is_handled(handshake, messages, conn, buf, left, rest),
        conn.state_view() is Handshake,
        buf.len() > 0,
        read_message(buf) is Err,
        !is_incomplete(buf),
    ensures
        left.state_view() is Teardown,
        rest == buf.subrange(find_byte(buf, 0x7b, 1), buf.len() as int),
        exists|e: ParseError<'_>, mid: Connection<A>|
            #[trigger] handshake.notes(&e, conn, &mid) && e.kind == read_message(buf)->Err_0.kind
                && e.offset == read_message(buf)->Err_0.offset && is_torn_down(&mid, left),
{
    let k = find_byte(buf, 0x7b, 1);
    let next = choose|next: Connection<A>|
        #[trigger] is_handshake_step(handshake, conn, buf, &next) && is_handled(
            handshake,
            messages,
            &next,
            buf.subrange(k, buf.len() as int),
            left,
            rest,
        );
    lemma_teardown_takes_nothing(
        handshake,
        messages,
        &next,
        buf.subrange(k, buf.len() as int),
        left,
        rest,
    );
}

/// During the handshake, the first message goes to the handler. If the
/// handler does not take it, the connection is torn down, with what the
/// handler left waiting on it, and what follows the message stays in the
/// buffer. If the handler takes it, what follows the message is handled as
/// the state asks for in which the handler left the connection.
pub proof fn lemma_handshake_takes_a_message<
    A: Application,
    HH: HandshakeHandler<A>,
    MH: MessageHandler<A>,
>(
    handshake: &HH,
    messages: &MH,
    conn: &Connection<A>,
    buf: Seq<u8>,
    left: &Connection<A>,
    rest: Seq<u8>,
)
    requires
        is_handled(handshake, messages, conn, buf, left, rest),
        conn.state_view() is Handshake,
        read_message(buf) is Ok,
    ensures
        exists|msg: Message<'_>, mid: Connection<A>, r: Result<(), HandlerError>|
            #[trigger] handshake.handles(&msg, conn, &mid, r) && msg.items() == read_message(
                buf,
            )->Ok_0.items && if r is Ok {
                is_handled(
                    handshake,
                    messages,
                    &mid,
                    buf.subrange(read_message(buf)->Ok_0.consumed, buf.len() as int),
                    left,
                    rest,
                )
            } else {
                is_torn_down(&mid, left) && rest == buf.subrange(
                    read_message(buf)->Ok_0.consumed,
                    buf.len() as int,
                )
            },
{
    lemma_message_bounds(buf);
    let k = read_message(buf)->Ok_0.consumed;
    let next = choose|next: Connection<A>|
        #[trigger] is_handshake_step(handshake, conn, buf, &next) && is_handled(
            handshake,
            messages,
            &next,
            buf.subrange(k, buf.len() as int),
            left,
            rest,
        );
    let (msg, mid, r) = choose|msg: Message<'_>, mid: Connection<A>, r: Result<(), HandlerError>|
        #[trigger] handshake.handles(&msg, conn, &mid, r) && msg.items() == read_message(
            buf,
        )->Ok_0.items && mid.wf() && mid.id_view() == conn.id_view() && if r is Ok {
            next == mid
        } else {
            is_torn_down(&mid, &next)
        };
    if r is Err {
        lemma_teardown_takes_nothing(
            handshake,
            messages,
            &next,
            buf.subrange(k, buf.len() as int),
            left,
            rest,
        );
    }
}

/// What is left of what is left is left of the whole.
pub proof fn lemma_tail_of_tail(a: Seq<u8>, b: Seq<u8>, c: Seq<u8>)
    requires
        is_tail_of(a, b),
        is_tail_of(b, c),
    ensures
        is_tail_of(a, c),
{
    assert(c.subrange(c.len() - a.len(), c.len() as int) =~= c.subrange(
        c.len() - b.len(),
        c.len() as int,
    ).subrange(b.len() - a.len(), b.len() as int));
}

/// A message takes up at least one byte and no more than the buffer holds.
pub proof fn lemma_message_bounds(buf: Seq<u8>)
    requires
        read_message(buf) is Ok,
    ensures
        1 <= read_message(buf)->Ok_0.consumed <= buf.len(),
{
    crate::common::foundation::msg::grammar::lemma_digit_run_end(buf, 1);
    let count = crate::common::foundation::msg::grammar::read_decimal(buf, 1)->Ok_0;
    let start = count.next + 1;
    lemma_read_item_bounds(buf, start);
    let first = crate::common::foundation::msg::grammar::read_item(buf, start)->Ok_0;
    lemma_read_items_bounds(buf, first.next, (count.value - 1) as nat);
}

} // verus!
