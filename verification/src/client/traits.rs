//! Traits for what a client sends and receives.

use vstd::prelude::*;
use crate::common::foundation::msg::parse::Message;
use crate::common::foundation::msg::traits::EncodeMessage;

verus! {

/// A message that a client can send to the terminal as a request.
pub trait Request: EncodeMessage {
    /// Whether the given message is the response to this request. A
    /// connection uses this to tell the response apart from the delayed
    /// responses that may arrive while it waits.
    fn is_response(&self, msg: &Message<'_>) -> bool;
}

/// Takes the messages of the terminal that answer no request of the
/// client.
pub trait DelayedResponseHandler {
    /// Takes one such message.
    fn handle(&mut self, msg: &Message<'_>);
}

} // verus!
