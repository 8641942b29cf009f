//! Handlers: the middleware that takes the messages of a connection. A
//! handler either takes a message or hands it to the next handler in line.

use vstd::prelude::*;
use crate::common::foundation::identifiers::ModuleIdentifier;
use crate::common::foundation::msg::parse::Message;
use crate::common::foundation::msg::parse::ParseError;
use crate::server::application::Application;
use crate::server::connection::Connection;

verus! {

/// Why a handler did not take a message. The connection answers with the
/// baseline response for the error.
#[derive(Clone, Copy, Debug, PartialEq, Eq)]
pub enum HandlerError {
    /// The message is of a type that no handler knows. The connection answers
    /// with a `have` message that says whether the module is supported.
    UnknownMessageType,
    /// The message is of a known type, but it is not valid. The connection
    /// answers with a `nope` message.
    InvalidMessage,
}

/// A handler for the messages that arrive on a connection.
///
/// Handlers are chained: each holds the next handler in line and hands it
/// what it does not take itself. A handler reaches the connection through
/// the connection's methods only, which keep it well-formed and never change
/// its ID.
pub trait Handler<A: Application> {
    /// What this handler promises of `handle`, beyond what every handler
    /// keeps to: of the result `r` and of the connection, which was `conn`
    /// and is `left`. A handler that promises nothing leaves this as it is.
    open spec fn handles(
        &self,
        msg: &Message<'_>,
        conn: &Connection<A>,
        left: &Connection<A>,
        r: Result<(), HandlerError>,
    ) -> bool {
        true
    }

    /// Handles a message that the client has sent on the connection. Returns
    /// `Ok` when the message is dealt with, answers included.
    fn handle(&self, msg: &Message<'_>, conn: &mut Connection<A>) -> (r: Result<(), HandlerError>)
        requires
            old(conn).wf(),
        ensures
            final(conn).wf(),
            final(conn).id_view() == old(conn).id_view(),
            self.handles(msg, old(conn), final(conn), r),
    ;

    /// What this handler promises of `handle_error`, beyond what every
    /// handler keeps to: of the connection, which was `conn` and is `left`.
    /// A handler that promises nothing leaves this as it is.
    open spec fn notes(
        &self,
        err: &ParseError<'_>,
        conn: &Connection<A>,
        left: &Connection<A>,
    ) -> bool {
        true
    }

    /// Takes note of input that is no message. Most handlers hand it to the
    /// next handler; it is of interest for logging.
    fn handle_error(&self, err: &ParseError<'_>, conn: &mut Connection<A>)
        requires
            old(conn).wf(),
        ensures
            final(conn).wf(),
            final(conn).id_view() == old(conn).id_view(),
            self.notes(err, old(conn), final(conn)),
    ;
}

/// A handler that can be used on sockets that carry messages.
pub trait MessageHandler<A: Application>: Handler<A> {
    /// The minor version of the module that this handler chain supports, or
    /// `None` if it does not support the module. A chain supports the same
    /// modules for as long as it stands.
    spec fn supported(&self, module: &ModuleIdentifier<'_>) -> Option<u16>;

    /// Returns the minor version of the module that this handler chain
    /// supports, or `None` if it does not support the module.
    fn get_supported_module_version(&self, module: &ModuleIdentifier<'_>) -> (r: Option<u16>)
        ensures
            r == self.supported(module),
    ;
}

/// A handler that can be used during the handshake on a new socket.
pub trait HandshakeHandler<A: Application>: Handler<A> {

}

} // verus!
