//! The wire grammar of messages, as functions on byte sequences: what a
//! reader makes of a buffer, and what a writer produces for a list of byte
//! strings.

use vstd::prelude::*;
use crate::common::foundation::decimal::decimal_digits;
use crate::common::foundation::decimal::decimal_value;
use crate::common::foundation::decimal::digit_byte;
use crate::common::foundation::identifiers::is_message_type;
use crate::common::foundation::msg::parse::ParseErrorKind;

verus! {

/// The byte `{`, which opens a message.
pub open spec fn message_opener() -> u8 {
    0x7b
}

/// The byte `}`, which closes a message.
pub open spec fn message_closer() -> u8 {
    0x7d
}

/// The byte `|`, which separates the count from the byte strings.
pub open spec fn list_sigil() -> u8 {
    0x7c
}

/// The byte `:`, which separates a length from the bytes.
pub open spec fn string_sigil() -> u8 {
    0x3a
}

/// The byte `,`, which ends a byte string.
pub open spec fn string_closer() -> u8 {
    0x2c
}

/// Why and where reading stopped.
pub ghost struct Failure {
    pub kind: ParseErrorKind,
    pub offset: int,
}

/// A number that was read, and the position behind its numeral.
pub ghost struct Numeral {
    pub value: nat,
    pub next: int,
}

/// A byte string that was read, and the position behind its closer.
pub ghost struct Item {
    pub bytes: Seq<u8>,
    pub next: int,
}

/// Byte strings that were read, and the position behind the last of them.
pub ghost struct Items {
    pub items: Seq<Seq<u8>>,
    pub next: int,
}

/// A message that was read: its byte strings, the message type first, and
/// the number of bytes that it takes up.
pub ghost struct Parsed {
    pub items: Seq<Seq<u8>>,
    pub consumed: int,
}

/// The first position at or after `from` that holds no digit.
pub open spec fn digit_run_end(buf: Seq<u8>, from: int) -> int
    decreases buf.len() - from,
{
    if from < 0 || from >= buf.len() || !digit_byte(buf[from]) {
        from
    } else {
        digit_run_end(buf, from + 1)
    }
}

/// Reads a numeral at `pos`: all the digits that follow. It must not have a
/// leading zero, and its value must fit the pointer size. A leading zero is
/// reported at the first digit behind it, a value that is too large behind
/// the last digit.
pub open spec fn read_decimal(buf: Seq<u8>, pos: int) -> Result<Numeral, Failure> {
    let end = digit_run_end(buf, pos);
    let digits = buf.subrange(pos, end);
    if pos >= buf.len() {
        Err(Failure { kind: ParseErrorKind::UnexpectedEOF, offset: pos })
    } else if end == pos {
        Err(Failure { kind: ParseErrorKind::ExpectedDecimalNumber, offset: pos })
    } else if digits.len() > 1 && digits[0] == 0x30 {
        Err(Failure { kind: ParseErrorKind::DecimalNumberHasLeadingZeroes, offset: pos + 1 })
    } else if decimal_value(digits) > usize::MAX {
        Err(Failure { kind: ParseErrorKind::DecimalNumberTooLarge, offset: end })
    } else {
        Ok(Numeral { value: decimal_value(digits), next: end })
    }
}

/// Reads the byte `c` at `pos`; any other byte there is an error of `kind`.
pub open spec fn read_byte(buf: Seq<u8>, pos: int, c: u8, kind: ParseErrorKind) -> Result<
    int,
    Failure,
> {
    if pos >= buf.len() {
        Err(Failure { kind: ParseErrorKind::UnexpectedEOF, offset: pos })
    } else if buf[pos] != c {
        Err(Failure { kind, offset: pos })
    } else {
        Ok(pos + 1)
    }
}

/// Reads the `count` bytes at `pos`. Where the buffer holds fewer, reading
/// stops at its end.
pub open spec fn read_contents(buf: Seq<u8>, pos: int, count: nat) -> Result<Item, Failure> {
    if pos + count > buf.len() {
        Err(Failure { kind: ParseErrorKind::UnexpectedEOF, offset: buf.len() as int })
    } else {
        Ok(Item { bytes: buf.subrange(pos, pos + count), next: pos + count })
    }
}

/// Reads one byte string at `pos`: its length, `:`, its bytes, and `,`.
pub open spec fn read_item(buf: Seq<u8>, pos: int) -> Result<Item, Failure> {
    match read_decimal(buf, pos) {
        Err(e) => Err(e),
        Ok(length) => match read_byte(
            buf,
            length.next,
            string_sigil(),
            ParseErrorKind::ExpectedStringSigil,
        ) {
            Err(e) => Err(e),
            Ok(start) => match read_contents(buf, start, length.value) {
                Err(e) => Err(e),
                Ok(contents) => match read_byte(
                    buf,
                    contents.next,
                    string_closer(),
                    ParseErrorKind::ExpectedStringCloser,
                ) {
                    Err(e) => Err(e),
                    Ok(next) => Ok(Item { bytes: contents.bytes, next }),
                },
            },
        },
    }
}

/// Reads `count` byte strings, one after the other, starting at `pos`.
pub open spec fn read_items(buf: Seq<u8>, pos: int, count: nat) -> Result<Items, Failure>
    decreases count,
{
    if count == 0 {
        Ok(Items { items: Seq::empty(), next: pos })
    } else {
        match read_item(buf, pos) {
            Err(e) => Err(e),
            Ok(first) => match read_items(buf, first.next, (count - 1) as nat) {
                Err(e) => Err(e),
                Ok(rest) => Ok(Items { items: seq![first.bytes] + rest.items, next: rest.next }),
            },
        }
    }
}

/// The dialects of the protocol. They differ in what a message type is.
#[derive(Clone, Copy, Debug, PartialEq, Eq)]
pub enum Dialect {
    /// The protocol as it is: the names of modules carry their major
    /// version, as in `core1.set`.
    Current,
    /// The first draft of the protocol: the names of modules carry no
    /// version, as in `core.set`.
    Draft,
}

/// Whether the byte string is a message type of the dialect.
pub open spec fn valid_type(dialect: Dialect, bytes: Seq<u8>) -> bool {
    match dialect {
        Dialect::Current => is_message_type(bytes),
        Dialect::Draft => crate::draft::is_draft_message_type(bytes),
    }
}

/// Reads one message at the start of `buf`. The first byte string must be a
/// message type.
pub open spec fn read_message(buf: Seq<u8>) -> Result<Parsed, Failure> {
    read_message_in(Dialect::Current, buf)
}

/// Reads one message of the dialect at the start of `buf`. The first byte
/// string must be a message type of the dialect.
pub open spec fn read_message_in(dialect: Dialect, buf: Seq<u8>) -> Result<Parsed, Failure> {
    match read_byte(buf, 0, message_opener(), ParseErrorKind::ExpectedMessageOpener) {
        Err(e) => Err(e),
        Ok(after_opener) => match read_decimal(buf, after_opener) {
            Err(e) => Err(e),
            Ok(count) => match read_byte(
                buf,
                count.next,
                list_sigil(),
                ParseErrorKind::ExpectedListSigil,
            ) {
                Err(e) => Err(e),
                Ok(start) => if count.value == 0 {
                    Err(Failure { kind: ParseErrorKind::ExpectedMessageType, offset: start })
                } else {
                    match read_item(buf, start) {
                        Err(e) => Err(e),
                        Ok(first) => if !valid_type(dialect, first.bytes) {
                            Err(
                                Failure {
                                    kind: ParseErrorKind::InvalidMessageType,
                                    offset: first.next,
                                },
                            )
                        } else {
                            match read_items(buf, first.next, (count.value - 1) as nat) {
                                Err(e) => Err(e),
                                Ok(rest) => match read_byte(
                                    buf,
                                    rest.next,
                                    message_closer(),
                                    ParseErrorKind::ExpectedMessageCloser,
                                ) {
                                    Err(e) => Err(e),
                                    Ok(end) => Ok(
                                        Parsed {
                                            items: seq![first.bytes] + rest.items,
                                            consumed: end,
                                        },
                                    ),
                                },
                            }
                        },
                    }
                },
            },
        },
    }
}

/// One byte string as it is written: its length, `:`, its bytes, and `,`.
pub open spec fn encode_item(bytes: Seq<u8>) -> Seq<u8> {
    decimal_digits(bytes.len()) + seq![string_sigil()] + bytes + seq![string_closer()]
}

/// Byte strings as they are written, one after the other.
pub open spec fn encode_items(items: Seq<Seq<u8>>) -> Seq<u8>
    decreases items.len(),
{
    if items.len() == 0 {
        Seq::empty()
    } else {
        encode_items(items.drop_last()) + encode_item(items.last())
    }
}

/// The start of a message of `count` byte strings: `{`, the count, and `|`.
pub open spec fn encode_header(count: nat) -> Seq<u8> {
    seq![message_opener()] + decimal_digits(count) + seq![list_sigil()]
}

/// A message as it is written. The first of `items` is the message type.
pub open spec fn encode_message(items: Seq<Seq<u8>>) -> Seq<u8> {
    encode_header(items.len()) + encode_items(items) + seq![message_closer()]
}

/// The end of a run of digits lies inside the buffer, the run holds digits
/// only, and what follows is no digit.
pub proof fn lemma_digit_run_end(buf: Seq<u8>, from: int)
    requires
        0 <= from <= buf.len(),
    ensures
        from <= digit_run_end(buf, from) <= buf.len(),
        forall|i: int| from <= i < digit_run_end(buf, from) ==> digit_byte(#[trigger] buf[i]),
        digit_run_end(buf, from) < buf.len() ==> !digit_byte(buf[digit_run_end(buf, from)]),
    decreases buf.len() - from,
{
    if from < buf.len() && digit_byte(buf[from]) {
        lemma_digit_run_end(buf, from + 1);
    }
}

/// A position that ends a run of digits is the end that `digit_run_end`
/// finds.
pub proof fn lemma_digit_run_end_is(buf: Seq<u8>, from: int, end: int)
    requires
        0 <= from <= end <= buf.len(),
        forall|i: int| from <= i < end ==> digit_byte(#[trigger] buf[i]),
        end < buf.len() ==> !digit_byte(buf[end]),
    ensures
        digit_run_end(buf, from) == end,
    decreases end - from,
{
    if from < end {
        lemma_digit_run_end_is(buf, from + 1, end);
    }
}

/// Reading moves forward and stays inside the buffer.
pub proof fn lemma_read_item_bounds(buf: Seq<u8>, pos: int)
    requires
        0 <= pos <= buf.len(),
    ensures
        match read_item(buf, pos) {
            Ok(item) => pos < item.next <= buf.len() && item.bytes.len() < buf.len(),
            Err(e) => pos <= e.offset <= buf.len(),
        },
{
    lemma_digit_run_end(buf, pos);
}

/// Reading byte strings moves forward, stays inside the buffer, and gives as
/// many as were asked for.
pub proof fn lemma_read_items_bounds(buf: Seq<u8>, pos: int, count: nat)
    requires
        0 <= pos <= buf.len(),
    ensures
        match read_items(buf, pos, count) {
            Ok(items) => pos <= items.next <= buf.len() && items.items.len() == count,
            Err(e) => pos <= e.offset <= buf.len(),
        },
    decreases count,
{
    if count > 0 {
        lemma_read_item_bounds(buf, pos);
        if let Ok(first) = read_item(buf, pos) {
            lemma_read_items_bounds(buf, first.next, (count - 1) as nat);
        }
    }
}

} // verus!
