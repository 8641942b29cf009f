//! The handler at the end of every chain.

use vstd::prelude::*;
use crate::common::foundation::identifiers::ModuleIdentifier;
use crate::common::foundation::msg::parse::Message;
use crate::common::foundation::msg::parse::ParseError;
use crate::server::application::Application;
use crate::server::connection::Connection;
use crate::server::handler::Handler;
use crate::server::handler::HandlerError;
use crate::server::handler::HandshakeHandler;
use crate::server::handler::MessageHandler;

verus! {

/// A handler that refuses every message as of unknown type, and supports no
/// module. It stands at the end of a chain of handlers: what is valid was
/// taken by a handler before it.
#[derive(Clone, Copy, Debug, Default)]
pub struct RejectHandler;

impl<A: Application> HandshakeHandler<A> for RejectHandler {

}

impl<A: Application> MessageHandler<A> for RejectHandler {
    open spec fn supported(&self, _module: &ModuleIdentifier<'_>) -> Option<u16> {
        None
    }

    fn get_supported_module_version(&self, _module: &ModuleIdentifier<'_>) -> Option<u16> {
        None
    }
}

impl<A: Application> Handler<A> for RejectHandler {
    open spec fn notes(
        &self,
        err: &ParseError<'_>,
        conn: &Connection<A>,
        left: &Connection<A>,
    ) -> bool {
        left == conn
    }

    open spec fn handles(
        &self,
        msg: &Message<'_>,
        conn: &Connection<A>,
        left: &Connection<A>,
        r: Result<(), HandlerError>,
    ) -> bool {
        r == Err::<(), HandlerError>(HandlerError::UnknownMessageType) && left == conn
    }

    fn handle(&self, _msg: &Message<'_>, _conn: &mut Connection<A>) -> (r: Result<
        (),
        HandlerError,
    >) {
        Err(HandlerError::UnknownMessageType)
    }

    fn handle_error(&self, _err: &ParseError<'_>, _conn: &mut Connection<A>) {
    }
}

} // verus!
