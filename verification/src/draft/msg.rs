//! Messages of the draft. They are framed like all messages; only their
//! message types are written without versions.

use vstd::prelude::*;
use vstd::string::StringSliceAdditionalSpecFns;
use vstd::utf8::encode_utf8;
use vstd::utf8::valid_utf8;
use crate::common::foundation::decimal::decimal_digits;
use crate::common::foundation::decimal::decimal_size;
use crate::common::foundation::decimal::lemma_decimal_digits_shape;
use crate::common::foundation::decimal::write_decimal;
use crate::common::foundation::encode_argument::zeroes;
use crate::common::foundation::text::lemma_ascii_is_utf8;
use crate::common::foundation::encode_argument::append_bytes;
use crate::common::foundation::msg::display::lemma_render_arguments_ascii;
use crate::common::foundation::msg::display::push_argument;
use crate::common::foundation::msg::display::render_arguments;
use crate::common::foundation::msg::display::render_message;
use crate::common::foundation::text::string_from_utf8_lossy;
use crate::common::foundation::msg::grammar::read_message_in;
use crate::common::foundation::msg::grammar::Dialect;
use crate::common::foundation::msg::grammar::Failure;
use crate::common::foundation::msg::grammar::Parsed;
use crate::common::foundation::msg::parse::parse_frame;
use crate::common::foundation::msg::parse::MessageIterator;
use crate::common::foundation::msg::parse::ParseError;
use crate::common::foundation::msg::parse::ParseErrorKind;
use crate::draft::is_draft_eternal;
use crate::draft::is_draft_message_type;
use crate::draft::is_message_type;
use crate::draft::lemma_draft_type_is_ascii;
use crate::draft::split_draft_scoped;

verus! {

/// How a message of the draft is described for debugging.
pub open spec fn draft_debug_text(message_type: Seq<u8>, count: nat) -> Seq<u8> {
    "Message { type_name: \"".spec_bytes() + message_type + "\", arguments: <".spec_bytes()
        + decimal_digits(count) + " items> }".spec_bytes()
}

/// The description of a message of the draft is valid UTF-8.
pub proof fn lemma_draft_debug_text_is_utf8(message_type: Seq<u8>, count: nat)
    requires
        is_draft_message_type(message_type),
    ensures
        valid_utf8(draft_debug_text(message_type, count)),
{
    let a = "Message { type_name: \"".spec_bytes();
    let c = "\", arguments: <".spec_bytes();
    let d = decimal_digits(count);
    let e = " items> }".spec_bytes();
    vstd::utf8::encode_utf8_valid_utf8("Message { type_name: \""@);
    vstd::utf8::encode_utf8_valid_utf8("\", arguments: <"@);
    vstd::utf8::encode_utf8_valid_utf8(" items> }"@);
    lemma_draft_type_is_ascii(message_type);
    lemma_ascii_is_utf8(message_type);
    lemma_decimal_digits_shape(count);
    assert forall|i: int| 0 <= i < d.len() implies #[trigger] d[i] < 0x80 by {
        assert(crate::common::foundation::decimal::digit_byte(d[i]));
    }
    lemma_ascii_is_utf8(d);
    vstd::utf8::valid_utf8_concat(a, message_type);
    vstd::utf8::valid_utf8_concat(a + message_type, c);
    vstd::utf8::valid_utf8_concat(a + message_type + c, d);
    vstd::utf8::valid_utf8_concat(a + message_type + c + d, e);
}

/// A message of the draft that was received: its type and its arguments.
#[derive(Clone, Copy, Debug)]
pub struct Message<'s> {
    full_type: &'s str,
    module: &'s str,
    member: &'s str,
    arguments: MessageIterator<'s>,
}

impl<'s> Message<'s> {
    #[verifier::type_invariant]
    spec fn valid(self) -> bool {
        &&& self.arguments.wf()
        &&& is_draft_message_type(self.full_type.spec_bytes())
        &&& if is_draft_eternal(self.full_type.spec_bytes()) {
            self.module.spec_bytes().len() == 0 && self.member == self.full_type
        } else {
            split_draft_scoped(self.full_type.spec_bytes()) == Some(
                (self.module.spec_bytes(), self.member.spec_bytes()),
            )
        }
    }

    /// The message type as it is written.
    pub closed spec fn type_bytes(&self) -> Seq<u8> {
        self.full_type.spec_bytes()
    }

    /// The name of the module in the message type; empty for `want`, `have`
    /// and `nope`.
    pub closed spec fn module_bytes(&self) -> Seq<u8> {
        self.module.spec_bytes()
    }

    /// The name inside the module in the message type.
    pub closed spec fn member_bytes(&self) -> Seq<u8> {
        self.member.spec_bytes()
    }

    /// The arguments, without the message type.
    pub closed spec fn args(&self) -> Seq<Seq<u8>> {
        self.arguments.remaining()
    }

    /// All the byte strings of the message: the message type, then the
    /// arguments.
    pub open spec fn items(&self) -> Seq<Seq<u8>> {
        seq![self.type_bytes()] + self.args()
    }

    /// Parses a message of the draft from `buffer`, whose first byte must be
    /// the message opener. On success returns the message and the number of
    /// bytes that it takes up, the opener and the closer included.
    pub fn parse(buffer: &'s [u8]) -> (r: Result<(Message<'s>, usize), ParseError<'s>>)
        ensures
            match r {
                Ok((msg, consumed)) => read_message_in(Dialect::Draft, buffer@) == Ok::<
                    Parsed,
                    Failure,
                >(Parsed { items: msg.items(), consumed: consumed as int }),
                Err(e) => read_message_in(Dialect::Draft, buffer@) is Err && e == (ParseError {
                    buffer,
                    offset: read_message_in(Dialect::Draft, buffer@)->Err_0.offset as usize,
                    kind: read_message_in(Dialect::Draft, buffer@)->Err_0.kind,
                }) && e.offset == read_message_in(Dialect::Draft, buffer@)->Err_0.offset,
            },
    {
        let frame = match parse_frame(buffer, Dialect::Draft) {
            Ok(frame) => frame,
            Err(e) => {
                return Err(e);
            },
        };
        match is_message_type(frame.message_type) {
            Some((module, member)) => {
                let msg = Message {
                    full_type: frame.message_type,
                    module,
                    member,
                    arguments: frame.arguments,
                };
                Ok((msg, frame.consumed))
            },
            None => {
                //this does not happen: the frame holds a message type
                Err(ParseError { buffer, offset: 0, kind: ParseErrorKind::InvalidMessageType })
            },
        }
    }

    /// Returns the message type in its two parts: the name of the module,
    /// which is empty for `want`, `have` and `nope`, and the name inside the
    /// module.
    pub fn message_type(&self) -> (r: (&'s str, &'s str))
        ensures
            r.0.spec_bytes() == self.module_bytes(),
            r.1.spec_bytes() == self.member_bytes(),
            is_draft_message_type(self.type_bytes()),
            if is_draft_eternal(self.type_bytes()) {
                self.module_bytes().len() == 0 && self.member_bytes() == self.type_bytes()
            } else {
                split_draft_scoped(self.type_bytes()) == Some(
                    (self.module_bytes(), self.member_bytes()),
                )
            },
    {
        proof {
            use_type_invariant(self);
        }
        (self.module, self.member)
    }

    /// Returns the message type as it is written.
    pub fn full_type(&self) -> (r: &'s str)
        ensures
            r.spec_bytes() == self.type_bytes(),
            is_draft_message_type(self.type_bytes()),
    {
        proof {
            use_type_invariant(self);
        }
        self.full_type
    }

    /// Returns an iterator over the arguments of this message, without the
    /// message type.
    pub fn arguments(&self) -> (r: MessageIterator<'s>)
        ensures
            r.wf(),
            r.remaining() == self.args(),
    {
        proof {
            use_type_invariant(self);
        }
        self.arguments
    }

    /// A description of the value for debugging: the message type as it is
    /// written, and the number of arguments.
    pub fn debug_string(&self) -> (r: String)
        ensures
            encode_utf8(r@) == draft_debug_text(self.type_bytes(), self.args().len()),
    {
        let mut out: Vec<u8> = Vec::new();
        append_bytes(&mut out, "Message { type_name: \"".as_bytes());
        append_bytes(&mut out, self.full_type().as_bytes());
        append_bytes(&mut out, "\", arguments: <".as_bytes());
        let count = self.arguments().len();
        let mut digits = zeroes(decimal_size(count as u128));
        write_decimal(count as u128, digits.as_mut_slice());
        append_bytes(&mut out, digits.as_slice());
        append_bytes(&mut out, " items> }".as_bytes());
        proof {
            assert(out@ =~= draft_debug_text(self.type_bytes(), self.args().len()));
            lemma_draft_debug_text_is_utf8(self.type_bytes(), self.args().len());
        }
        string_from_utf8_lossy(out.as_slice())
    }

    /// The message as text for people to read: `(type arg1 ... argN)`.
    pub fn to_string(&self) -> (r: String)
        ensures
            encode_utf8(r@) == render_message(self.type_bytes(), self.args()),
    {
        let mut out: Vec<u8> = Vec::new();
        out.push(0x28);
        append_bytes(&mut out, self.full_type().as_bytes());
        let ghost prefix = out@;
        let mut args = self.arguments();
        let ghost all = args.remaining();
        let ghost mut done: Seq<Seq<u8>> = Seq::empty();
        while args.len() > 0
            invariant
                args.wf(),
                all == done + args.remaining(),
                out@ == prefix + render_arguments(done),
            decreases args.remaining().len(),
        {
            let ghost before = args.remaining();
            match args.next() {
                Some(arg) => {
                    push_argument(&mut out, arg);
                    proof {
                        let next_done = done.push(arg@);
                        assert(next_done.drop_last() =~= done);
                        assert(done + before =~= next_done + before.drop_first());
                        done = next_done;
                    }
                },
                None => {},
            }
        }
        out.push(0x29);
        proof {
            assert(done =~= all);
            assert(out@ =~= render_message(self.type_bytes(), self.args()));
            lemma_draft_type_is_ascii(self.type_bytes());
            lemma_render_arguments_ascii(self.args());
            let shown = render_arguments(self.args());
            let name = self.type_bytes();
            assert forall|i: int| 0 <= i < out@.len() implies #[trigger] out@[i] < 0x80 by {
                if 1 <= i < 1 + name.len() {
                    assert(out@[i] == name[i - 1]);
                } else if 1 + name.len() <= i < 1 + name.len() + shown.len() {
                    assert(out@[i] == shown[i - 1 - name.len()]);
                }
            }
            lemma_ascii_is_utf8(out@);
        }
        string_from_utf8_lossy(out.as_slice())
    }
}

} // verus!
