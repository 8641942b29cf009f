//! The handler for the messages of the foundation and of the module `core1`
//! on a socket that carries messages: `want`, `core1.client-make` and
//! `core1.lifetime-end`.

use vstd::prelude::*;
use vstd::string::StringSliceAdditionalSpecFns;
use crate::common::foundation::identifiers::bytes_equal;
use crate::common::foundation::identifiers::is_strict_prefix;
use crate::common::foundation::identifiers::want_str;
use crate::common::foundation::identifiers::ClientID;
use crate::common::foundation::identifiers::ModuleIdentifier;
use crate::common::foundation::identifiers::OwnedClientID;
use crate::common::foundation::msg::grammar::encode_message;
use crate::common::foundation::msg::parse::Message;
use crate::common::foundation::msg::parse::ParseError;
use crate::common::foundation::msg::traits::DecodeMessage;
use crate::common::foundation::msg::traits::EncodeMessage;
use crate::msg::core1::ClientMake;
use crate::msg::core1::ClientNew;
use crate::msg::core1::LifetimeEnd;
use crate::msg::has_type;
use crate::msg::HaveReply;
use crate::msg::Nope;
use crate::msg::Want;
use crate::server::application::Application;
use crate::server::application::MessageConnector;
use crate::server::auth::ClientCredentials;
use crate::server::auth::ClientIdentity;
use crate::server::connection::have_items;
use crate::server::connection::nope_items;
use crate::server::connection::Broadcast;
use crate::server::connection::Connection;
use crate::server::handler::Handler;
use crate::server::handler::HandlerError;
use crate::server::selector::ClientSelector;
use crate::server::send_buffer::SEND_BUFFER_SIZE;

verus! {

/// What the handlers behind [`MessageHandler`] in a chain have to offer. The
/// handler for `core1` decodes some messages and hands them to the next
/// handler through the methods of this trait.
pub trait MessageHandlerExt<A: Application>: crate::server::handler::MessageHandler<A> {

}

impl<A: Application> MessageHandlerExt<A> for crate::server::reject::RejectHandler {

}

/// A message handler for the messages of the foundation and of the module
/// `core1`. Any other message goes to the next handler.
#[derive(Clone, Copy, Debug, Default)]
pub struct MessageHandler<Next>(pub Next);

/// The minor version of `core1` that this handler supports.
pub const CORE1_MINOR_VERSION: u16 = 0;

/// Whether the module is `core1`, which this handler supports itself.
pub fn is_core1(module: &ModuleIdentifier<'_>) -> (r: bool)
    ensures
        r == (module.bytes() == "core1".spec_bytes()),
{
    bytes_equal(module.as_str().as_bytes(), "core1".as_bytes())
}

/// The minor version of the module that a chain supports which is made of
/// the handler for `core1` and the handlers `next` behind it: of `core1`
/// its own, and of any other module what the handlers behind it support.
pub open spec fn supported_behind<A: Application, Next: MessageHandlerExt<A>>(
    next: &Next,
    module: &ModuleIdentifier<'_>,
) -> Option<u16> {
    if module.bytes() == "core1".spec_bytes() {
        Some(CORE1_MINOR_VERSION)
    } else {
        next.supported(module)
    }
}

impl<A: Application, Next: MessageHandlerExt<A>> crate::server::handler::MessageHandler<
    A,
> for MessageHandler<Next> {
    open spec fn supported(&self, module: &ModuleIdentifier<'_>) -> Option<u16> {
        supported_behind(&self.0, module)
    }

    fn get_supported_module_version(&self, module: &ModuleIdentifier<'_>) -> Option<u16> {
        if is_core1(module) {
            Some(CORE1_MINOR_VERSION)
        } else {
            self.0.get_supported_module_version(module)
        }
    }
}

/// The bytes that wait on a connection after the message of the given byte
/// strings was enqueued behind `pending`: a message that is too long to be
/// sent is left out.
pub open spec fn with_message(pending: Seq<u8>, items: Seq<Seq<u8>>) -> Seq<u8> {
    if encode_message(items).len() <= SEND_BUFFER_SIZE {
        pending + encode_message(items)
    } else {
        pending
    }
}

/// What holds of the answer to a valid `want` message for the module,
/// where the chain of handlers supports the module as `supported` says: the
/// request succeeds if the connection carries messages and the `have`
/// message is not too long to be sent, and that message is then enqueued.
/// `pending` is what waited on the connection before, and `left` what waits
/// on it then.
pub open spec fn is_want_answer<A: Application>(
    module: Seq<u8>,
    supported: Option<u16>,
    state: crate::server::connection::ConnectionState<A>,
    pending: Seq<u8>,
    left: Seq<u8>,
    r: Result<(), HandlerError>,
) -> bool {
    &&& r is Ok <==> state.carries_messages() && encode_message(
        have_items(module, supported),
    ).len() <= SEND_BUFFER_SIZE
    &&& r is Ok ==> left == pending + encode_message(have_items(module, supported))
    &&& r is Err ==> left == pending
}

/// Answers a `want` message for the module with a `have` message: with the
/// minor version of the module where it is supported, and with the module
/// alone where it is not. Where the connection does not carry messages, or
/// the answer is too long to be sent, the request is not valid.
pub fn answer_want<A: Application>(
    conn: &mut Connection<A>,
    module: ModuleIdentifier<'_>,
    supported: Option<u16>,
) -> (r: Result<(), HandlerError>)
    requires
        old(conn).wf(),
    ensures
        final(conn).wf(),
        final(conn).id_view() == old(conn).id_view(),
        final(conn).state_view() == old(conn).state_view(),
        final(conn).queued_broadcasts() == old(conn).queued_broadcasts(),
        r is Ok <==> (old(conn).state_view() is Handshake || old(conn).state_view() is Msgio)
            && encode_message(have_items(module.bytes(), supported)).len() <= SEND_BUFFER_SIZE,
        r is Ok ==> final(conn).pending() == old(conn).pending() + encode_message(
            have_items(module.bytes(), supported),
        ),
        r is Err ==> r == Err::<(), HandlerError>(HandlerError::InvalidMessage)
            && final(conn).pending() == old(conn).pending(),
{
    if !conn.state().can_receive_messages() {
        return Err(HandlerError::InvalidMessage);
    }
    let reply = HaveReply { module, supported };
    assert(reply.items() =~= have_items(module.bytes(), supported));
    match conn.enqueue_message(&reply) {
        Ok(_) => Ok(()),
        Err(_) => Err(HandlerError::InvalidMessage),
    }
}

/// Refuses the message with a `nope` message, if the connection carries
/// messages and the answer is not too long to be sent.
pub fn answer_nope<A: Application>(conn: &mut Connection<A>, msg: &Message<'_>)
    requires
        old(conn).wf(),
    ensures
        final(conn).wf(),
        final(conn).id_view() == old(conn).id_view(),
        final(conn).state_view() == old(conn).state_view(),
        final(conn).queued_broadcasts() == old(conn).queued_broadcasts(),
        final(conn).pending() == if (old(conn).state_view() is Handshake
            || old(conn).state_view() is Msgio)
            && encode_message(nope_items(msg.mtype().bytes())).len()
            <= SEND_BUFFER_SIZE {
            old(conn).pending() + encode_message(nope_items(msg.mtype().bytes()))
        } else {
            old(conn).pending()
        },
{
    if conn.state().can_receive_messages() {
        let reply = Nope(msg.parsed_type());
        assert(reply.items() =~= nope_items(msg.mtype().bytes()));
        let _ = conn.enqueue_message(&reply);
    }
}

/// The client ID of the client at the other end of the connection, if the
/// connection carries messages.
pub fn own_client_id<A: Application>(conn: &Connection<A>) -> (r: Option<OwnedClientID>)
    ensures
        r is Some <==> conn.state_view() is Msgio,
        r is Some ==> r->0.bytes() == conn.state_view()->Msgio_0.identity_view().id_bytes(),
{
    match conn.message_connector() {
        Some(connector) => Some(OwnedClientID::from(&connector.identity().client_id())),
        None => None,
    }
}

/// The identity that a `core1.client-make` message asks to register.
pub fn identity_to_make(msg: &ClientMake<'_>) -> (r: ClientIdentity)
    ensures
        r.id_bytes() == msg.client_id.bytes(),
        r.stdin_screen() is Some == msg.stdin_screen_id is Some,
        r.stdin_screen() is Some ==> r.stdin_screen()->0@ == msg.stdin_screen_id->0@,
        r.stdout_screen() is Some == msg.stdout_screen_id is Some,
        r.stdout_screen() is Some ==> r.stdout_screen()->0@ == msg.stdout_screen_id->0@,
        r.stderr_screen() is Some == msg.stderr_screen_id is Some,
        r.stderr_screen() is Some ==> r.stderr_screen()->0@ == msg.stderr_screen_id->0@,
{
    let mut id = ClientIdentity::new(&msg.client_id);
    if let Some(sid) = msg.stdin_screen_id {
        id = id.with_stdin(sid);
    }
    if let Some(sid) = msg.stdout_screen_id {
        id = id.with_stdout(sid);
    }
    if let Some(sid) = msg.stderr_screen_id {
        id = id.with_stderr(sid);
    }
    id
}

/// Tells the client that has asked for a new client the secret of the new
/// client, with a `core1.client-new` message.
pub fn answer_client_make<A: Application>(conn: &mut Connection<A>, credentials: &ClientCredentials)
    requires
        old(conn).wf(),
    ensures
        final(conn).wf(),
        final(conn).id_view() == old(conn).id_view(),
        final(conn).state_view() == old(conn).state_view(),
        final(conn).queued_broadcasts() == old(conn).queued_broadcasts(),
        final(conn).pending() == if (old(conn).state_view() is Handshake
            || old(conn).state_view() is Msgio)
            && encode_message(client_new_items(credentials.secret_text())).len()
            <= SEND_BUFFER_SIZE {
            old(conn).pending() + encode_message(client_new_items(credentials.secret_text()))
        } else {
            old(conn).pending()
        },
{
    if conn.state().can_receive_messages() {
        let reply = ClientNew { secret: credentials.secret() };
        assert(reply.items() =~= client_new_items(credentials.secret_text()));
        let _ = conn.enqueue_message(&reply);
    }
}

/// The byte strings of the `core1.client-new` message with the given
/// secret.
pub open spec fn client_new_items(secret: Seq<char>) -> Seq<Seq<u8>> {
    seq!["core1.client-new".spec_bytes(), vstd::utf8::encode_utf8(secret)]
}

/// Ends the lifetime of the client with the given ID: all connections that
/// carry the messages of this client or of a client below it will be torn
/// down, as soon as the pool of connections has this connection back.
pub fn end_lifetime<A: Application>(conn: &mut Connection<A>, id: &ClientID<'_>)
    requires
        old(conn).wf(),
    ensures
        final(conn).wf(),
        final(conn).id_view() == old(conn).id_view(),
        final(conn).state_view() == old(conn).state_view(),
        final(conn).pending() == old(conn).pending(),
        final(conn).queued_broadcasts().len() == old(conn).queued_broadcasts().len() + 1,
        final(conn).queued_broadcasts().drop_last() == old(conn).queued_broadcasts(),
        final(conn).queued_broadcasts().last() is EndLifetime,
        final(conn).queued_broadcasts().last()->EndLifetime_0.bytes() == id.bytes(),
{
    let action = Broadcast::EndLifetime(OwnedClientID::from(id));
    conn.enqueue_broadcast(action);
    assert(conn.queued_broadcasts().drop_last() =~= old(conn).queued_broadcasts());
}

impl<A: Application, Next: MessageHandlerExt<A>> Handler<A> for MessageHandler<Next> {
    open spec fn handles(
        &self,
        msg: &Message<'_>,
        conn: &Connection<A>,
        left: &Connection<A>,
        r: Result<(), HandlerError>,
    ) -> bool {
        if msg.mtype().bytes() == crate::common::foundation::identifiers::want_bytes() {
            &&& left.state_view() == conn.state_view()
            &&& left.queued_broadcasts() == conn.queued_broadcasts()
            &&& !Want::accepts(msg.items()) ==> r is Err
            &&& r is Err ==> r == Err::<(), HandlerError>(HandlerError::InvalidMessage)
                && left.pending() == conn.pending()
            &&& Want::accepts(msg.items()) ==> exists|module: ModuleIdentifier<'_>|
                #[trigger] module.bytes() == msg.items()[1] && is_want_answer(
                    msg.items()[1],
                    supported_behind::<A, Next>(&self.0, &module),
                    conn.state_view(),
                    conn.pending(),
                    left.pending(),
                    r,
                )
            &&& Want::accepts(msg.items()) && msg.items()[1] == "core1".spec_bytes()
                ==> is_want_answer(
                msg.items()[1],
                Some(CORE1_MINOR_VERSION),
                conn.state_view(),
                conn.pending(),
                left.pending(),
                r,
            )
        } else if msg.mtype().bytes() == "core1.client-make".spec_bytes() {
            &&& left.state_view() == conn.state_view()
            &&& left.queued_broadcasts() == conn.queued_broadcasts()
            &&& r is Ok <==> ClientMake::accepts(msg.items()) && conn.state_view() is Msgio
            &&& r is Err ==> r == Err::<(), HandlerError>(HandlerError::InvalidMessage)
                && left.pending() == conn.pending()
            &&& r is Ok && !is_strict_prefix(
                conn.state_view()->Msgio_0.identity_view().id_bytes(),
                msg.items()[1],
            ) ==> left.pending() == with_message(
                conn.pending(),
                nope_items(msg.mtype().bytes()),
            )
            &&& r is Ok && is_strict_prefix(
                conn.state_view()->Msgio_0.identity_view().id_bytes(),
                msg.items()[1],
            ) ==> {
                ||| left.pending() == with_message(
                    conn.pending(),
                    nope_items(msg.mtype().bytes()),
                )
                ||| exists|secret: Seq<char>|
                    left.pending() == with_message(
                        conn.pending(),
                        #[trigger] client_new_items(secret),
                    )
            }
        } else if msg.mtype().bytes() == "core1.lifetime-end".spec_bytes() {
            &&& left.state_view() == conn.state_view()
            &&& r is Ok <==> LifetimeEnd::accepts(msg.items()) && conn.state_view() is Msgio
            &&& r is Err ==> r == Err::<(), HandlerError>(HandlerError::InvalidMessage)
                && left.pending() == conn.pending()
                    && left.queued_broadcasts() == conn.queued_broadcasts()
            &&& r is Ok && is_strict_prefix(
                conn.state_view()->Msgio_0.identity_view().id_bytes(),
                msg.items()[1],
            ) ==> left.pending() == conn.pending()
                && left.queued_broadcasts().len() == conn.queued_broadcasts().len()
                + 1 && left.queued_broadcasts().drop_last()
                == conn.queued_broadcasts()
                && left.queued_broadcasts().last() is EndLifetime
                && left.queued_broadcasts().last()->EndLifetime_0.bytes()
                == msg.items()[1]
            &&& r is Ok && !is_strict_prefix(
                conn.state_view()->Msgio_0.identity_view().id_bytes(),
                msg.items()[1],
            ) ==> left.queued_broadcasts() == conn.queued_broadcasts()
                && left.pending() == with_message(
                conn.pending(),
                nope_items(msg.mtype().bytes()),
            )
        } else {
            self.0.handles(msg, conn, left, r)
        }
    }

    fn handle(&self, msg: &Message<'_>, conn: &mut Connection<A>) -> (r: Result<(), HandlerError>) {
        if has_type(msg, want_str()) {
            let module_id = match Want::decode_message(msg) {
                Some(Want(module_id)) => module_id,
                None => {
                    return Err(HandlerError::InvalidMessage);
                },
            };
            let supported = if is_core1(&module_id) {
                Some(CORE1_MINOR_VERSION)
            } else {
                self.0.get_supported_module_version(&module_id)
            };
            answer_want(conn, module_id, supported)
        } else if has_type(msg, "core1.client-make") {
            let request = match ClientMake::decode_message(msg) {
                Some(request) => request,
                None => {
                    return Err(HandlerError::InvalidMessage);
                },
            };
            let own_id = match own_client_id(conn) {
                Some(own_id) => own_id,
                None => {
                    return Err(HandlerError::InvalidMessage);
                },
            };
            //new client ID must be below this client's ID
            let selector = ClientSelector::StrictlyBelow(own_id.as_ref());
            if !selector.contains(request.client_id) {
                answer_nope(conn, msg);
                return Ok(());
            }
            //client ID must not be in use yet

            let selector = ClientSelector::AtOrBelow(request.client_id);
            if conn.application().has_clients(selector) {
                answer_nope(conn, msg);
                return Ok(());
            }
            //register the client and send its secret to the registrar

            let credentials = conn.application().register_client(identity_to_make(&request));
            answer_client_make(conn, &credentials);
            Ok(())
        } else if has_type(msg, "core1.lifetime-end") {
            let request = match LifetimeEnd::decode_message(msg) {
                Some(request) => request,
                None => {
                    return Err(HandlerError::InvalidMessage);
                },
            };
            let own_id = match own_client_id(conn) {
                Some(own_id) => own_id,
                None => {
                    return Err(HandlerError::InvalidMessage);
                },
            };
            //client ID whose lifetime ends must be below this client's ID
            let selector = ClientSelector::StrictlyBelow(own_id.as_ref());
            if !selector.contains(request.client_id) {
                answer_nope(conn, msg);
                return Ok(());
            }
            //tear down all client connections at or below this client ID

            end_lifetime(conn, &request.client_id);
            conn.application().unregister_clients(ClientSelector::AtOrBelow(request.client_id));
            Ok(())
        } else {
            self.0.handle(msg, conn)
        }
    }

    open spec fn notes(
        &self,
        err: &ParseError<'_>,
        conn: &Connection<A>,
        left: &Connection<A>,
    ) -> bool {
        self.0.notes(err, conn, left)
    }

    fn handle_error(&self, err: &ParseError<'_>, conn: &mut Connection<A>) {
        self.0.handle_error(err, conn);
    }
}

} // verus!
