//! The handshake on a new socket: the first message of the client says what
//! the socket shall carry, and holds the secret that entitles the client to
//! it.

use vstd::prelude::*;
use vstd::string::StringSliceAdditionalSpecFns;
use crate::common::foundation::msg::grammar::encode_message;
use crate::common::foundation::msg::parse::Message;
use crate::common::foundation::msg::parse::ParseError;
use crate::common::foundation::msg::traits::DecodeMessage;
use crate::common::foundation::msg::traits::EncodeMessage;
use crate::msg::has_type;
use crate::msg::posix1::ClientHello;
use crate::msg::posix1::ServerHello;
use crate::msg::posix1::StdinHello;
use crate::msg::posix1::StdoutHello;
use crate::server::application::Application;
use crate::server::application::MessageConnector;
use crate::server::application::StdoutConnector;
use crate::server::auth::optional_string_bytes;
use crate::server::auth::ClientIdentity;
use crate::server::auth::ScreenIdentity;
use crate::server::connection::Connection;
use crate::server::connection::ConnectionState;
use crate::server::handler::Handler;
use crate::server::handler::HandlerError;
use crate::server::send_buffer::SEND_BUFFER_SIZE;

verus! {

/// A handshake handler for the three handshakes of the module `posix1`:
/// `posix1.client-hello` for a socket that carries messages,
/// `posix1.stdin-hello` and `posix1.stdout-hello` for the standard streams of
/// a screen. Any other message goes to the next handler.
#[derive(Clone, Copy, Debug, Default)]
pub struct HandshakeHandler<Next>(pub Next);

impl<A: Application, Next: crate::server::handler::HandshakeHandler<
    A,
>> crate::server::handler::HandshakeHandler<A> for HandshakeHandler<Next> {

}

/// The byte strings of the `posix1.server-hello` message that tells a client
/// its identity.
pub open spec fn server_hello_items(identity: ClientIdentity) -> Seq<Seq<u8>> {
    seq![
        "posix1.server-hello".spec_bytes(),
        identity.id_bytes(),
        optional_string_bytes(identity.stdin_screen()),
        optional_string_bytes(identity.stdout_screen()),
        optional_string_bytes(identity.stderr_screen()),
    ]
}

/// Ends the handshake for the standard input of a screen, with what the
/// application made of the secret: with the identity of a screen, the
/// connection leaves the handshake for the state `Stdin`; without, the
/// handshake has failed.
pub fn accept_stdin<A: Application>(conn: &mut Connection<A>, identity: Option<ScreenIdentity>) -> (r:
    Result<(), HandlerError>)
    requires
        old(conn).wf(),
    ensures
        final(conn).wf(),
        final(conn).id_view() == old(conn).id_view(),
        final(conn).pending() == old(conn).pending(),
        final(conn).queued_broadcasts() == old(conn).queued_broadcasts(),
        r is Ok <==> identity is Some && old(conn).state_view() is Handshake,
        r is Ok ==> final(conn).state_view() == ConnectionState::<A>::Stdin(identity->0),
        r is Err ==> r == Err::<(), HandlerError>(HandlerError::InvalidMessage)
            && final(conn).state_view() == old(conn).state_view(),
{
    if !conn.state().is_handshake() {
        return Err(HandlerError::InvalidMessage);
    }
    match identity {
        Some(identity) => {
            conn.set_state(ConnectionState::Stdin(identity));
            Ok(())
        },
        None => Err(HandlerError::InvalidMessage),
    }
}

/// Ends the handshake for the standard output of a screen, with what the
/// application made of the secret: with the identity of a screen, the
/// connection leaves the handshake for the state `Stdout`, with a new
/// connector for that screen; without, the handshake has failed.
pub fn accept_stdout<A: Application>(conn: &mut Connection<A>, identity: Option<ScreenIdentity>) -> (r:
    Result<(), HandlerError>)
    requires
        old(conn).wf(),
    ensures
        final(conn).wf(),
        final(conn).id_view() == old(conn).id_view(),
        final(conn).pending() == old(conn).pending(),
        final(conn).queued_broadcasts() == old(conn).queued_broadcasts(),
        r is Ok <==> identity is Some && old(conn).state_view() is Handshake,
        r is Ok ==> final(conn).state_view() is Stdout
            && final(conn).state_view()->Stdout_0.screen_view() == identity->0,
        r is Err ==> r == Err::<(), HandlerError>(HandlerError::InvalidMessage)
            && final(conn).state_view() == old(conn).state_view(),
{
    if !conn.state().is_handshake() {
        return Err(HandlerError::InvalidMessage);
    }
    match identity {
        Some(identity) => {
            let connector = A::StdoutConnector::new(identity);
            conn.set_state(ConnectionState::Stdout(connector));
            Ok(())
        },
        None => Err(HandlerError::InvalidMessage),
    }
}

/// Ends the handshake for a socket that carries messages, with what the
/// application made of the secret: with the identity of a client, the
/// connection leaves the handshake for the state `Msgio`, with a new
/// connector for that client, and tells the client its identity with a
/// `posix1.server-hello` message; without, the handshake has failed. It
/// fails as well where that message is too long to be sent.
pub fn accept_client<A: Application>(conn: &mut Connection<A>, identity: Option<ClientIdentity>) -> (r:
    Result<(), HandlerError>)
    requires
        old(conn).wf(),
    ensures
        final(conn).wf(),
        final(conn).id_view() == old(conn).id_view(),
        final(conn).queued_broadcasts() == old(conn).queued_broadcasts(),
        r is Ok <==> identity is Some && old(conn).state_view() is Handshake && encode_message(
            server_hello_items(identity->0),
        ).len() <= SEND_BUFFER_SIZE,
        r is Ok ==> final(conn).state_view() is Msgio
            && final(conn).state_view()->Msgio_0.identity_view() == identity->0
            && final(conn).pending() == old(conn).pending()
            + encode_message(server_hello_items(identity->0)),
        r is Err ==> r == Err::<(), HandlerError>(HandlerError::InvalidMessage)
            && final(conn).state_view() == old(conn).state_view()
            && final(conn).pending() == old(conn).pending(),
{
    if !conn.state().is_handshake() {
        return Err(HandlerError::InvalidMessage);
    }
    let identity = match identity {
        Some(identity) => identity,
        None => {
            return Err(HandlerError::InvalidMessage);
        },
    };
    let reply = ServerHello {
        client_id: identity.client_id(),
        stdin_screen_id: identity.stdin_screen_id(),
        stdout_screen_id: identity.stdout_screen_id(),
        stderr_screen_id: identity.stderr_screen_id(),
    };
    assert(reply.items() =~= server_hello_items(identity));
    match conn.enqueue_message(&reply) {
        Ok(_) => {},
        Err(_) => {
            return Err(HandlerError::InvalidMessage);
        },
    }
    let connector = A::MessageConnector::new(identity);
    conn.set_state(ConnectionState::Msgio(connector));
    Ok(())
}

impl<A: Application, Next: crate::server::handler::HandshakeHandler<A>> Handler<
    A,
> for HandshakeHandler<Next> {
    open spec fn handles(
        &self,
        msg: &Message<'_>,
        conn: &Connection<A>,
        left: &Connection<A>,
        r: Result<(), HandlerError>,
    ) -> bool {
        if msg.mtype().bytes() == "posix1.stdin-hello".spec_bytes() {
            &&& !StdinHello::accepts(msg.items()) || !(conn.state_view() is Handshake)
                ==> r is Err
            &&& r is Ok
                ==> left.state_view() is Stdin
                && left.pending() == conn.pending()
            &&& r is Err ==> r == Err::<(), HandlerError>(HandlerError::InvalidMessage)
                && left.state_view() == conn.state_view() && left.pending()
                == conn.pending()
        } else if msg.mtype().bytes() == "posix1.stdout-hello".spec_bytes() {
            &&& !StdoutHello::accepts(msg.items()) || !(conn.state_view() is Handshake)
                ==> r is Err
            &&& r is Ok
                ==> left.state_view() is Stdout
                && left.pending() == conn.pending()
            &&& r is Err ==> r == Err::<(), HandlerError>(HandlerError::InvalidMessage)
                && left.state_view() == conn.state_view() && left.pending()
                == conn.pending()
        } else if msg.mtype().bytes() == "posix1.client-hello".spec_bytes() {
            &&& !ClientHello::accepts(msg.items()) || !(conn.state_view() is Handshake)
                ==> r is Err
            &&& r is Ok
                ==> left.state_view() is Msgio
                && left.pending() == conn.pending() + encode_message(
                server_hello_items(left.state_view()->Msgio_0.identity_view()),
            )
            &&& r is Err ==> r == Err::<(), HandlerError>(HandlerError::InvalidMessage)
                && left.state_view() == conn.state_view() && left.pending()
                == conn.pending()
        } else {
            self.0.handles(msg, conn, left, r)
        }
    }

    fn handle(&self, msg: &Message<'_>, conn: &mut Connection<A>) -> (r: Result<(), HandlerError>) {
        if has_type(msg, "posix1.stdin-hello") {
            let hello = match StdinHello::decode_message(msg) {
                Some(hello) => hello,
                None => {
                    return Err(HandlerError::InvalidMessage);
                },
            };
            let identity = conn.application().authorize_stdin(hello.secret);
            accept_stdin(conn, identity)
        } else if has_type(msg, "posix1.stdout-hello") {
            let hello = match StdoutHello::decode_message(msg) {
                Some(hello) => hello,
                None => {
                    return Err(HandlerError::InvalidMessage);
                },
            };
            let identity = conn.application().authorize_stdout(hello.secret);
            accept_stdout(conn, identity)
        } else if has_type(msg, "posix1.client-hello") {
            let hello = match ClientHello::decode_message(msg) {
                Some(hello) => hello,
                None => {
                    return Err(HandlerError::InvalidMessage);
                },
            };
            let identity = conn.application().authorize_client(hello.secret);
            accept_client(conn, identity)
        } else {
            self.0.handle(msg, conn)
        }
    }

    open spec fn notes(
        &self,
        err: &ParseError<'_>,
        conn: &Connection<A>,
        left: &Connection<A>,
    ) -> bool {
        self.0.notes(err, conn, left)
    }

    fn handle_error(&self, err: &ParseError<'_>, conn: &mut Connection<A>) {
        self.0.handle_error(err, conn);
    }
}

} // verus!
