//! Selectors for sets of clients by their place in the tree of client IDs.

use vstd::prelude::*;
use crate::common::foundation::identifiers::is_strict_prefix;
use crate::common::foundation::identifiers::ClientID;

verus! {

/// A set of clients, given by a client ID: the clients below it, with or
/// without the client itself. A client is below another if its client ID
/// starts with the other's and is longer.
#[derive(Clone, Copy, Debug)]
pub enum ClientSelector<'a> {
    /// The client with this client ID and all clients below it.
    AtOrBelow(ClientID<'a>),
    /// All clients below the client with this client ID, but not that client
    /// itself.
    StrictlyBelow(ClientID<'a>),
}

impl<'a> ClientSelector<'a> {
    /// Whether the selector holds the client with the given client ID.
    pub open spec fn selects(&self, id: Seq<u8>) -> bool {
        match *self {
            ClientSelector::AtOrBelow(p) => id == p.bytes() || is_strict_prefix(p.bytes(), id),
            ClientSelector::StrictlyBelow(p) => is_strict_prefix(p.bytes(), id),
        }
    }

    /// Whether the selector holds the client with the given client ID.
    pub fn contains(&self, id: ClientID<'_>) -> (r: bool)
        ensures
            r == self.selects(id.bytes()),
    {
        match *self {
            ClientSelector::AtOrBelow(p) => p.same_as(&id) || p.is_strict_prefix_of(&id),
            ClientSelector::StrictlyBelow(p) => p.is_strict_prefix_of(&id),
        }
    }
}

} // verus!
