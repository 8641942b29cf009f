//! The application's side: what the library asks of the terminal that it
//! runs in.

use vstd::prelude::*;
use crate::common::foundation::identifiers::ClientID;
use crate::server::auth::ClientCredentials;
use crate::server::auth::ClientIdentity;
use crate::server::auth::ScreenIdentity;
use crate::server::notification::Notification;
use crate::server::selector::ClientSelector;

verus! {

/// The connector of a client socket that carries messages. One is kept for
/// each such socket; through it the handlers reach what the application
/// knows of the client.
pub trait MessageConnector: Sized {
    /// The identity of the client at the other end of the socket.
    spec fn identity_view(&self) -> ClientIdentity;

    /// Makes the connector for the socket of the given client.
    fn new(id: ClientIdentity) -> (r: Self)
        ensures
            r.identity_view() == id,
    ;

    /// The identity of the client at the other end of the socket.
    fn identity(&self) -> (r: &ClientIdentity)
        ensures
            *r == self.identity_view(),
    ;
}

/// The connector of a client socket that carries the standard output of a
/// screen.
pub trait StdoutConnector: Sized {
    /// The identity of the screen that shows the standard output.
    spec fn screen_view(&self) -> ScreenIdentity;

    /// Makes the connector for the standard output of the given screen.
    fn new(id: ScreenIdentity) -> (r: Self)
        ensures
            r.screen_view() == id,
    ;

    /// Is called whenever the client has written to the standard output.
    fn receive(&mut self, buf: &[u8])
        ensures
            final(self).screen_view() == old(self).screen_view(),
    ;
}

/// What the library asks of the application: the store of clients and
/// screens with their secrets, and a sink for notifications.
pub trait Application: Sized {
    type MessageConnector: MessageConnector;

    type StdoutConnector: StdoutConnector;

    /// Takes a notification: information, or an error that is not fatal.
    fn notify(&self, n: &Notification<'_>);

    /// Registers a new client and returns its credentials. The terminal
    /// cannot refuse new clients. The caller has made sure that the new
    /// client is below the client that asks, and that its ID is not in use.
    fn register_client(&self, i: ClientIdentity) -> ClientCredentials;

    /// Authorizes a handshake for a socket that carries messages. The same
    /// secret is authorized once at most.
    fn authorize_client(&self, secret: &str) -> Option<ClientIdentity>;

    /// Returns what is known of the client with the given ID, if it is
    /// registered.
    fn find_client(&self, id: ClientID<'_>) -> Option<ClientIdentity>;

    /// Whether any registered client is in the given set.
    fn has_clients(&self, selector: ClientSelector<'_>) -> bool;

    /// Drops all registered clients in the given set.
    fn unregister_clients(&self, selector: ClientSelector<'_>);

    /// Authorizes a handshake for a socket that carries the standard input of
    /// a screen. The same secret is authorized once at most.
    fn authorize_stdin(&self, secret: &str) -> Option<ScreenIdentity>;

    /// Authorizes a handshake for a socket that carries the standard output
    /// of a screen. The same secret is authorized once at most.
    fn authorize_stdout(&self, secret: &str) -> Option<ScreenIdentity>;
}

} // verus!
