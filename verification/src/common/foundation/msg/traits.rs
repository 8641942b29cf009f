//! Traits for the typed forms of messages.

use vstd::prelude::*;
use crate::common::foundation::msg::format::format_result;
use crate::common::foundation::msg::format::BufferTooSmallError;
use crate::common::foundation::msg::grammar::encode_message;
use crate::common::foundation::msg::parse::Message;

verus! {

/// A type that holds the parsed form of one kind of message.
pub trait DecodeMessage<'a>: Sized {
    /// Whether a message with these byte strings, the message type first, is
    /// of this kind and well-formed.
    spec fn accepts(items: Seq<Seq<u8>>) -> bool;

    /// The byte strings that this value stands for, the message type first.
    spec fn decoded_items(&self) -> Seq<Seq<u8>>;

    /// Decodes the message if it is of this kind and its arguments are
    /// well-formed.
    fn decode_message(msg: &Message<'a>) -> (r: Option<Self>)
        ensures
            r is Some <==> Self::accepts(msg.items()),
            r is Some ==> r->0.decoded_items() == msg.items(),
    ;
}

/// A type whose values can be written as a message.
pub trait EncodeMessage {
    /// The byte strings of the message, the message type first.
    spec fn items(&self) -> Seq<Seq<u8>>;

    /// Writes the message to the front of `buf` and returns its length. If
    /// `buf` is too small for it, returns by how many bytes.
    fn encode(&self, buf: &mut [u8]) -> (r: Result<usize, BufferTooSmallError>)
        ensures
            final(buf)@.len() == old(buf)@.len(),
            r == format_result(encode_message(self.items()).len(), old(buf)@.len()),
            r is Ok ==> final(buf)@ == encode_message(self.items()) + old(buf)@.subrange(
                encode_message(self.items()).len() as int,
                old(buf)@.len() as int,
            ),
    ;
}

} // verus!
