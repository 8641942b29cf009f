//! The message formatter: it writes a message into a buffer of fixed size,
//! and goes on counting where the buffer ends, so that it can tell by how
//! much the buffer is too small.

use vstd::prelude::*;
use vstd::string::StringSliceAdditionalSpecFns;
use crate::common::foundation::decimal::decimal_size;
use crate::common::foundation::decimal::lemma_decimal_digits_shape;
use crate::common::foundation::encode_argument::EncodeArgument;
use crate::common::foundation::msg::grammar::encode_header;
use crate::common::foundation::msg::grammar::encode_item;
use crate::common::foundation::msg::grammar::encode_items;
use crate::common::foundation::msg::grammar::encode_message;

verus! {

/// The error of [`MessageFormatter::finalize`]: the buffer is too small for
/// the message. The number says how many bytes did not fit.
#[derive(Clone, Copy, Debug, PartialEq, Eq)]
pub struct BufferTooSmallError(pub usize);

/// Appending one byte string to a list appends its written form.
pub proof fn lemma_encode_items_push(items: Seq<Seq<u8>>, item: Seq<u8>)
    ensures
        encode_items(items.push(item)) == encode_items(items) + encode_item(item),
{
    assert(items.push(item).drop_last() =~= items);
}

/// The written form of a list is the written forms of its parts, one after
/// the other.
pub proof fn lemma_encode_items_concat(a: Seq<Seq<u8>>, b: Seq<Seq<u8>>)
    ensures
        encode_items(a + b) == encode_items(a) + encode_items(b),
    decreases b.len(),
{
    if b.len() == 0 {
        assert(a + b =~= a);
        assert(encode_items(a) + encode_items(b) =~= encode_items(a));
    } else {
        lemma_encode_items_concat(a, b.drop_last());
        assert((a + b).drop_last() =~= a + b.drop_last());
        assert((a + b).last() == b.last());
        assert(encode_items(a + b) =~= encode_items(a) + encode_items(b));
    }
}

/// A formatter for messages. The number of arguments is announced when the
/// formatter is made, because it is written first.
pub struct MessageFormatter<'b> {
    /// The buffer that the message is written to.
    pub buffer: &'b mut [u8],
    /// The number of bytes that the message takes so far, whether they fit
    /// the buffer or not.
    pub cursor: usize,
    /// Whether the message has grown beyond what `cursor` can count.
    pub overflow: bool,
    /// The number of arguments that are still to be added.
    pub remaining_arguments: usize,
    /// All the bytes of the message so far.
    pub written: Ghost<Seq<u8>>,
    /// What the buffer held when the formatter was made.
    pub initial: Ghost<Seq<u8>>,
    /// The byte strings that were added so far, the message type first.
    pub items: Ghost<Seq<Seq<u8>>>,
}

/// What [`MessageFormatter::finalize`] returns for a message of `total`
/// bytes and a buffer of `capacity` bytes: the length of the message if it
/// fits, and else the number of bytes that do not fit. For a message longer
/// than any buffer, that number is the largest there is.
pub open spec fn format_result(total: nat, capacity: nat) -> Result<usize, BufferTooSmallError> {
    if total <= capacity {
        Ok(total as usize)
    } else if total <= usize::MAX {
        Err(BufferTooSmallError((total - capacity) as usize))
    } else {
        Err(BufferTooSmallError(usize::MAX))
    }
}

impl<'b> MessageFormatter<'b> {
    /// The cursor counts the bytes written so far, and as long as these fit
    /// the buffer, the buffer holds them at its front and is unchanged behind
    /// them.
    pub open spec fn buffer_ok(&self) -> bool {
        &&& !self.overflow ==> self.cursor == self.written@.len()
        &&& self.overflow ==> self.written@.len() > usize::MAX
        &&& self.buffer@.len() == self.initial@.len()
        &&& self.written@.len() <= self.buffer@.len() ==> self.buffer@ =~= self.written@
            + self.initial@.subrange(self.written@.len() as int, self.initial@.len() as int)
    }

    /// The number of byte strings that was announced, the message type
    /// included.
    pub open spec fn announced(&self) -> nat {
        self.items@.len() + self.remaining_arguments as nat
    }

    /// The bytes written so far are the header and the byte strings added so
    /// far.
    pub open spec fn wf(&self) -> bool {
        &&& self.buffer_ok()
        &&& self.written@ == encode_header(self.announced()) + encode_items(self.items@)
    }

    /// Makes a formatter for a message of the given type with
    /// `num_arguments` arguments, and writes the header and the message type.
    pub fn new(buffer: &'b mut [u8], message_type: &str, num_arguments: usize) -> (f:
        MessageFormatter<'b>)
        requires
            num_arguments < usize::MAX,
        ensures
            f.wf(),
            f.items@ == seq![message_type.spec_bytes()],
            f.remaining_arguments == num_arguments,
            f.initial@ == old(buffer)@,
            final(buffer)@ == final(f.buffer)@,
    {
        let len = num_arguments + 1;  // + 1 for the message type
        let ghost init = buffer@;
        let mut f = MessageFormatter {
            buffer,
            cursor: 0,
            overflow: false,
            remaining_arguments: len,
            written: Ghost(Seq::empty()),
            initial: Ghost(init),
            items: Ghost(Seq::empty()),
        };
        assert(f.buffer@ =~= f.written@ + f.initial@.subrange(0, f.initial@.len() as int));
        proof {
            lemma_decimal_digits_shape(len as nat);
        }
        f.add_char(0x7b);
        f.encode(&len, decimal_size(len as u128));
        f.add_char(0x7c);
        assert(f.written@ =~= encode_header(len as nat) + encode_items(f.items@));
        f.add_argument(message_type);
        assert(f.items@ =~= seq![message_type.spec_bytes()]);
        f
    }

    /// Adds an argument to the message.
    ///
    /// No more arguments can be added than were announced.
    pub fn add_argument<T: EncodeArgument + ?Sized>(&mut self, arg: &T)
        requires
            old(self).wf(),
            old(self).remaining_arguments > 0,
        ensures
            final(self).wf(),
            final(self).items@ == old(self).items@.push(arg.wire()),
            final(self).remaining_arguments == old(self).remaining_arguments - 1,
            final(self).initial@ == old(self).initial@,
            final(final(self).buffer)@ == final(old(self).buffer)@,
    {
        self.remaining_arguments = self.remaining_arguments - 1;
        let size = arg.get_size();
        proof {
            lemma_decimal_digits_shape(size as nat);
            lemma_encode_items_push(self.items@, arg.wire());
        }
        if size == usize::MAX {
            //with its length and its closer, this argument is longer than any
            //buffer can be
            self.overflow = true;
            proof {
                assert(self.buffer.len() <= usize::MAX);
                assert(encode_item(arg.wire()).len() >= arg.wire().len() + 2);
                self.written@ = self.written@ + encode_item(arg.wire());
                self.items@ = self.items@.push(arg.wire());
                assert(self.written@ =~= encode_header(self.announced()) + encode_items(
                    self.items@,
                ));
            }
            return ;
        }
        self.encode(&size, decimal_size(size as u128));
        self.add_char(0x3a);
        self.encode(arg, size);
        self.add_char(0x2c);
        proof {
            self.items@ = self.items@.push(arg.wire());
            assert(self.written@ =~= old(self).written@ + encode_item(arg.wire()));
            assert(self.written@ =~= encode_header(self.announced()) + encode_items(self.items@));
        }
    }

    /// Ends the message. Returns the number of bytes of the message, which
    /// then stands at the front of the buffer, or, if the buffer is too small
    /// for it, by how many bytes.
    ///
    /// All the arguments that were announced must have been added.
    pub fn finalize(self) -> (r: Result<usize, BufferTooSmallError>)
        requires
            self.wf(),
            self.remaining_arguments == 0,
        ensures
            final(self.buffer)@.len() == self.initial@.len(),
            r == format_result(encode_message(self.items@).len(), self.initial@.len()),
            r is Ok ==> final(self.buffer)@ == encode_message(self.items@) + self.initial@.subrange(
                encode_message(self.items@).len() as int,
                self.initial@.len() as int,
            ),
    {
        let mut f = self;
        f.add_char(0x7d);
        assert(f.written@ =~= encode_message(self.items@));
        let capacity = f.buffer.len();
        if f.overflow {
            Err(BufferTooSmallError(usize::MAX))
        } else if f.cursor > capacity {
            Err(BufferTooSmallError(f.cursor - capacity))
        } else {
            assert(f.buffer@ =~= f.written@ + f.initial@.subrange(
                f.cursor as int,
                f.initial@.len() as int,
            ));
            Ok(f.cursor)
        }
    }

    /// Writes one byte, if there is room for it, and counts it.
    pub fn add_char(&mut self, c: u8)
        requires
            old(self).buffer_ok(),
        ensures
            final(self).buffer_ok(),
            final(self).written@ == old(self).written@.push(c),
            final(self).remaining_arguments == old(self).remaining_arguments,
            final(self).initial@ == old(self).initial@,
            final(self).items@ == old(self).items@,
            final(final(self).buffer)@ == final(old(self).buffer)@,
    {
        let capacity = self.buffer.len();
        if !self.overflow && self.cursor < capacity {
            self.buffer[self.cursor] = c;
        }
        if self.cursor == usize::MAX {
            self.overflow = true;
        } else {
            self.cursor = self.cursor + 1;
        }
        proof {
            self.written@ = self.written@.push(c);
        }
    }

    /// Writes the encoding of `arg`, if there is room for all of it, and
    /// counts its bytes. `size` is `arg.get_size()`.
    pub fn encode<T: EncodeArgument + ?Sized>(&mut self, arg: &T, size: usize)
        requires
            old(self).buffer_ok(),
            size == arg.wire().len(),
        ensures
            final(self).buffer_ok(),
            final(self).written@ == old(self).written@ + arg.wire(),
            final(self).remaining_arguments == old(self).remaining_arguments,
            final(self).initial@ == old(self).initial@,
            final(self).items@ == old(self).items@,
            final(final(self).buffer)@ == final(old(self).buffer)@,
    {
        let capacity = self.buffer.len();
        if size > usize::MAX - self.cursor {
            self.overflow = true;
        } else {
            let new_cursor = self.cursor + size;
            if !self.overflow && new_cursor <= capacity {
                let (_head, rest) = self.buffer.split_at_mut(self.cursor);
                let (target, _tail) = rest.split_at_mut(size);
                arg.encode(target);
            }
            self.cursor = new_cursor;
        }
        proof {
            self.written@ = self.written@ + arg.wire();
        }
    }
}

} // verus!
