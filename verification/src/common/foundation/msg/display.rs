//! Messages as text for people to read: `(type arg1 ... argN)`, with the
//! arguments quoted and escaped where they hold anything but letters, digits,
//! `.`, `_` and `-`.

use vstd::prelude::*;
use vstd::string::StringSliceAdditionalSpecFns;
use vstd::utf8::encode_utf8;
use vstd::utf8::valid_utf8;
use crate::common::foundation::decimal::decimal_digits;
use crate::common::foundation::decimal::decimal_size;
use crate::common::foundation::decimal::lemma_decimal_digits_shape;
use crate::common::foundation::decimal::write_decimal;
use crate::common::foundation::text::lemma_ascii_is_utf8;
use crate::common::foundation::text::string_from_utf8_lossy;
use crate::common::foundation::encode_argument::append_bytes;
use crate::common::foundation::encode_argument::zeroes;
use crate::common::foundation::identifiers::lemma_grammar_is_ascii;
use crate::common::foundation::identifiers::MessageType;
use crate::common::foundation::msg::parse::Message;

verus! {

/// A byte that cannot stand in an argument that is shown without quotes:
/// anything but an ASCII letter, a digit, `.`, `_` or `-`.
pub open spec fn needs_escaping(ch: u8) -> bool {
    !((0x41 <= ch <= 0x5a) || (0x61 <= ch <= 0x7a) || (0x30 <= ch <= 0x39) || ch == 0x2e || ch
        == 0x5f || ch == 0x2d)
}

/// The lower-case hexadecimal digit for a number below 16.
pub open spec fn hex_digit(n: nat) -> u8 {
    if n < 10 {
        (0x30 + n) as u8
    } else {
        (0x61 + n - 10) as u8
    }
}

/// How a byte is shown inside quotes: tab, carriage return and line feed as
/// `\t`, `\r` and `\n`; quotes and the backslash with a backslash in front;
/// other printable ASCII as it is; anything else as `\x` and two hexadecimal
/// digits.
pub open spec fn escape_byte(b: u8) -> Seq<u8> {
    if b == 0x09 {
        seq![0x5cu8, 0x74u8]
    } else if b == 0x0d {
        seq![0x5cu8, 0x72u8]
    } else if b == 0x0a {
        seq![0x5cu8, 0x6eu8]
    } else if b == 0x27 || b == 0x22 || b == 0x5c {
        seq![0x5cu8, b]
    } else if 0x20 <= b <= 0x7e {
        seq![b]
    } else {
        seq![0x5cu8, 0x78u8, hex_digit((b / 16) as nat), hex_digit((b % 16) as nat)]
    }
}

/// The bytes of `s`, each as `escape_byte` shows it.
pub open spec fn escape_bytes(s: Seq<u8>) -> Seq<u8>
    decreases s.len(),
{
    if s.len() == 0 {
        Seq::empty()
    } else {
        escape_bytes(s.drop_last()) + escape_byte(s.last())
    }
}

/// Whether an argument is shown without quotes: it is not empty and none of
/// its bytes needs escaping.
pub open spec fn is_bare(arg: Seq<u8>) -> bool {
    arg.len() > 0 && forall|i: int| 0 <= i < arg.len() ==> !needs_escaping(#[trigger] arg[i])
}

/// An argument as it is shown: a space, and the argument, in quotes unless
/// it is bare.
pub open spec fn render_argument(arg: Seq<u8>) -> Seq<u8> {
    if is_bare(arg) {
        seq![0x20u8] + escape_bytes(arg)
    } else {
        seq![0x20u8, 0x22u8] + escape_bytes(arg) + seq![0x22u8]
    }
}

/// Arguments as they are shown, one after the other.
pub open spec fn render_arguments(args: Seq<Seq<u8>>) -> Seq<u8>
    decreases args.len(),
{
    if args.len() == 0 {
        Seq::empty()
    } else {
        render_arguments(args.drop_last()) + render_argument(args.last())
    }
}

/// A message as it is shown: `(`, the message type, the arguments, `)`.
pub open spec fn render_message(message_type: Seq<u8>, args: Seq<Seq<u8>>) -> Seq<u8> {
    seq![0x28u8] + message_type + render_arguments(args) + seq![0x29u8]
}

/// Every byte of `s` is ASCII.
pub open spec fn is_ascii_bytes(s: Seq<u8>) -> bool {
    forall|i: int| 0 <= i < s.len() ==> #[trigger] s[i] < 0x80
}

/// Escaped bytes are ASCII.
pub proof fn lemma_escape_bytes_ascii(s: Seq<u8>)
    ensures
        is_ascii_bytes(escape_bytes(s)),
    decreases s.len(),
{
    if s.len() > 0 {
        lemma_escape_bytes_ascii(s.drop_last());
        let head = escape_bytes(s.drop_last());
        let tail = escape_byte(s.last());
        assert forall|i: int| 0 <= i < (head + tail).len() implies #[trigger] (head + tail)[i]
            < 0x80 by {
            if i < head.len() {
                assert((head + tail)[i] == head[i]);
            } else {
                assert((head + tail)[i] == tail[i - head.len()]);
            }
        }
    }
}

/// Shown arguments are ASCII.
pub proof fn lemma_render_arguments_ascii(args: Seq<Seq<u8>>)
    ensures
        is_ascii_bytes(render_arguments(args)),
    decreases args.len(),
{
    if args.len() > 0 {
        lemma_render_arguments_ascii(args.drop_last());
        lemma_escape_bytes_ascii(args.last());
        let head = render_arguments(args.drop_last());
        let tail = render_argument(args.last());
        let inner = escape_bytes(args.last());
        assert forall|i: int| 0 <= i < tail.len() implies #[trigger] tail[i] < 0x80 by {
            if is_bare(args.last()) {
                if i > 0 {
                    assert(tail[i] == inner[i - 1]);
                }
            } else {
                if 2 <= i < 2 + inner.len() {
                    assert(tail[i] == inner[i - 2]);
                }
            }
        }
        assert forall|i: int| 0 <= i < (head + tail).len() implies #[trigger] (head + tail)[i]
            < 0x80 by {
            if i < head.len() {
                assert((head + tail)[i] == head[i]);
            } else {
                assert((head + tail)[i] == tail[i - head.len()]);
            }
        }
    }
}

/// Whether the byte cannot stand in an argument that is shown without
/// quotes.
pub fn char_needs_escaping(ch: u8) -> (r: bool)
    ensures
        r == needs_escaping(ch),
{
    !((ch >= 0x41 && ch <= 0x5a) || (ch >= 0x61 && ch <= 0x7a) || (ch >= 0x30 && ch <= 0x39) || ch
        == 0x2e || ch == 0x5f || ch == 0x2d)
}

/// The lower-case hexadecimal digit for a number below 16.
pub fn hex_symbol(n: u8) -> (c: u8)
    requires
        n < 16,
    ensures
        c == hex_digit(n as nat),
{
    if n < 10 {
        0x30 + n
    } else {
        0x61 + (n - 10)
    }
}

/// Appends `b` to `out` as it is shown inside quotes.
pub fn push_escaped(out: &mut Vec<u8>, b: u8)
    ensures
        final(out)@ == old(out)@ + escape_byte(b),
{
    if b == 0x09 {
        out.push(0x5c);
        out.push(0x74);
    } else if b == 0x0d {
        out.push(0x5c);
        out.push(0x72);
    } else if b == 0x0a {
        out.push(0x5c);
        out.push(0x6e);
    } else if b == 0x27 || b == 0x22 || b == 0x5c {
        out.push(0x5c);
        out.push(b);
    } else if b >= 0x20 && b <= 0x7e {
        out.push(b);
    } else {
        out.push(0x5c);
        out.push(0x78);
        out.push(hex_symbol(b / 16));
        out.push(hex_symbol(b % 16));
    }
    assert(out@ =~= old(out)@ + escape_byte(b));
}

/// Appends an argument to `out` as it is shown.
pub fn push_argument(out: &mut Vec<u8>, arg: &[u8])
    ensures
        final(out)@ == old(out)@ + render_argument(arg@),
{
    let n = arg.len();
    let mut escaped = n == 0;
    let mut i: usize = 0;
    while i < n
        invariant
            n == arg@.len(),
            i <= n,
            escaped == (n == 0 || exists|j: int| 0 <= j < i && needs_escaping(#[trigger] arg@[j])),
        decreases n - i,
    {
        if char_needs_escaping(arg[i]) {
            escaped = true;
        }
        i = i + 1;
    }
    assert(escaped == !is_bare(arg@));
    out.push(0x20);
    if escaped {
        out.push(0x22);
    }
    let ghost prefix = out@;
    let mut k: usize = 0;
    while k < n
        invariant
            n == arg@.len(),
            k <= n,
            out@ == prefix + escape_bytes(arg@.subrange(0, k as int)),
        decreases n - k,
    {
        push_escaped(out, arg[k]);
        proof {
            assert(arg@.subrange(0, k + 1).drop_last() =~= arg@.subrange(0, k as int));
            assert(out@ =~= prefix + escape_bytes(arg@.subrange(0, k + 1)));
        }
        k = k + 1;
    }
    assert(arg@.subrange(0, n as int) =~= arg@);
    if escaped {
        out.push(0x22);
    }
    assert(out@ =~= old(out)@ + render_argument(arg@));
}

impl<'s> Message<'s> {
    /// The message as text for people to read, as bytes.
    pub fn render(&self) -> (out: Vec<u8>)
        ensures
            out@ == render_message(self.mtype().bytes(), self.args()),
            is_ascii_bytes(out@),
    {
        let mut out: Vec<u8> = Vec::new();
        out.push(0x28);
        let message_type = self.parsed_type();
        append_bytes(&mut out, message_type.as_str().as_bytes());
        let ghost prefix = out@;
        let mut args = self.arguments();
        let ghost all = args.remaining();
        let ghost mut done: Seq<Seq<u8>> = Seq::empty();
        while args.len() > 0
            invariant
                args.wf(),
                all == done + args.remaining(),
                out@ == prefix + render_arguments(done),
            decreases args.remaining().len(),
        {
            let ghost before = args.remaining();
            match args.next() {
                Some(arg) => {
                    push_argument(&mut out, arg);
                    proof {
                        let next_done = done.push(arg@);
                        assert(next_done.drop_last() =~= done);
                        assert(done + before =~= next_done + before.drop_first());
                        done = next_done;
                    }
                },
                None => {},
            }
        }
        out.push(0x29);
        proof {
            assert(done =~= all);
            assert(out@ =~= render_message(self.mtype().bytes(), self.args()));
            lemma_grammar_is_ascii(self.mtype().bytes());
            lemma_render_arguments_ascii(self.args());
            let shown = render_arguments(self.args());
            let name = self.mtype().bytes();
            assert forall|i: int| 0 <= i < out@.len() implies #[trigger] out@[i] < 0x80 by {
                if 1 <= i < 1 + name.len() {
                    assert(out@[i] == name[i - 1]);
                } else if 1 + name.len() <= i < 1 + name.len() + shown.len() {
                    assert(out@[i] == shown[i - 1 - name.len()]);
                }
            }
        }
        out
    }

    /// The message as text for people to read: `(type arg1 ... argN)`.
    pub fn to_string(&self) -> (r: String)
        ensures
            encode_utf8(r@) == render_message(self.mtype().bytes(), self.args()),
    {
        let out = self.render();
        proof {
            lemma_ascii_is_utf8(out@);
        }
        string_from_utf8_lossy(out.as_slice())
    }

    /// A description of the value for debugging: the message type as the
    /// parser sees it, and the number of arguments.
    pub fn debug_string(&self) -> (r: String)
        ensures
            encode_utf8(r@) == debug_text(self.mtype(), self.args().len()),
    {
        let mut out: Vec<u8> = Vec::new();
        append_bytes(&mut out, "Message { parsed_type: ".as_bytes());
        match self.parsed_type() {
            MessageType::Init => append_bytes(&mut out, "Init".as_bytes()),
            MessageType::Want => append_bytes(&mut out, "Want".as_bytes()),
            MessageType::Have => append_bytes(&mut out, "Have".as_bytes()),
            MessageType::Nope => append_bytes(&mut out, "Nope".as_bytes()),
            MessageType::Scoped(s) => {
                append_bytes(&mut out, "Scoped(ScopedIdentifier::parse(\"".as_bytes());
                append_bytes(&mut out, s.as_str().as_bytes());
                append_bytes(&mut out, "\"))".as_bytes());
            },
        }
        append_bytes(&mut out, ", arguments: <".as_bytes());
        let count = self.arguments().len();
        let mut digits = zeroes(decimal_size(count as u128));
        write_decimal(count as u128, digits.as_mut_slice());
        append_bytes(&mut out, digits.as_slice());
        append_bytes(&mut out, " items> }".as_bytes());
        proof {
            assert(out@ =~= debug_text(self.mtype(), self.args().len()));
            lemma_debug_text_is_utf8(self.mtype(), self.args().len());
        }
        string_from_utf8_lossy(out.as_slice())
    }
}

/// How a message type is described for debugging.
pub open spec fn debug_type_text(message_type: MessageType<'_>) -> Seq<u8> {
    match message_type {
        MessageType::Init => "Init".spec_bytes(),
        MessageType::Want => "Want".spec_bytes(),
        MessageType::Have => "Have".spec_bytes(),
        MessageType::Nope => "Nope".spec_bytes(),
        MessageType::Scoped(s) => "Scoped(ScopedIdentifier::parse(\"".spec_bytes() + s.bytes()
            + "\"))".spec_bytes(),
    }
}

/// How a message is described for debugging.
pub open spec fn debug_text(message_type: MessageType<'_>, count: nat) -> Seq<u8> {
    "Message { parsed_type: ".spec_bytes() + debug_type_text(message_type)
        + ", arguments: <".spec_bytes() + decimal_digits(count) + " items> }".spec_bytes()
}

/// The description of a message is valid UTF-8.
pub proof fn lemma_debug_text_is_utf8(message_type: MessageType<'_>, count: nat)
    ensures
        valid_utf8(debug_text(message_type, count)),
{
    vstd::utf8::encode_utf8_valid_utf8("Message { parsed_type: "@);
    vstd::utf8::encode_utf8_valid_utf8("Init"@);
    vstd::utf8::encode_utf8_valid_utf8("Want"@);
    vstd::utf8::encode_utf8_valid_utf8("Have"@);
    vstd::utf8::encode_utf8_valid_utf8("Nope"@);
    vstd::utf8::encode_utf8_valid_utf8("Scoped(ScopedIdentifier::parse(\""@);
    vstd::utf8::encode_utf8_valid_utf8("\"))"@);
    vstd::utf8::encode_utf8_valid_utf8(", arguments: <"@);
    vstd::utf8::encode_utf8_valid_utf8(" items> }"@);
    lemma_decimal_digits_shape(count);
    assert forall|i: int| 0 <= i < decimal_digits(count).len() implies #[trigger] decimal_digits(
        count,
    )[i] < 0x80 by {
        assert(crate::common::foundation::decimal::digit_byte(decimal_digits(count)[i]));
    }
    lemma_ascii_is_utf8(decimal_digits(count));
    match message_type {
        MessageType::Scoped(s) => {
            vstd::utf8::encode_utf8_valid_utf8(s.source()@);
            vstd::utf8::valid_utf8_concat(
                "Scoped(ScopedIdentifier::parse(\"".spec_bytes(),
                s.bytes(),
            );
            vstd::utf8::valid_utf8_concat(
                "Scoped(ScopedIdentifier::parse(\"".spec_bytes() + s.bytes(),
                "\"))".spec_bytes(),
            );
        },
        _ => {},
    }
    let a = "Message { parsed_type: ".spec_bytes();
    let b = debug_type_text(message_type);
    let c = ", arguments: <".spec_bytes();
    let d = decimal_digits(count);
    let e = " items> }".spec_bytes();
    vstd::utf8::valid_utf8_concat(a, b);
    vstd::utf8::valid_utf8_concat(a + b, c);
    vstd::utf8::valid_utf8_concat(a + b + c, d);
    vstd::utf8::valid_utf8_concat(a + b + c + d, e);
}

} // verus!
