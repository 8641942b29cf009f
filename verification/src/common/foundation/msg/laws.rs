//! What holds of the wire grammar: reading inverts writing, a message that
//! was cut off reads as incomplete, and malformed numerals and openers are
//! told apart.

use vstd::prelude::*;
use crate::common::foundation::decimal::decimal_digits;
use crate::common::foundation::decimal::decimal_value;
use crate::common::foundation::decimal::digit_byte;
use crate::common::foundation::decimal::lemma_decimal_digits_shape;
use crate::common::foundation::decimal::lemma_decimal_value_of_digits;
use crate::common::foundation::decimal::lemma_decimal_value_prefix;
use crate::common::foundation::identifiers::is_message_type;
use crate::common::foundation::msg::format::lemma_encode_items_concat;
use crate::common::foundation::msg::grammar::digit_run_end;
use crate::common::foundation::msg::grammar::encode_header;
use crate::common::foundation::msg::grammar::encode_item;
use crate::common::foundation::msg::grammar::encode_items;
use crate::common::foundation::msg::grammar::encode_message;
use crate::common::foundation::msg::grammar::lemma_digit_run_end;
use crate::common::foundation::msg::grammar::lemma_digit_run_end_is;
use crate::common::foundation::msg::grammar::lemma_read_item_bounds;
use crate::common::foundation::msg::grammar::lemma_read_items_bounds;
use crate::common::foundation::msg::grammar::list_sigil;
use crate::common::foundation::msg::grammar::message_closer;
use crate::common::foundation::msg::grammar::message_opener;
use crate::common::foundation::msg::grammar::read_decimal;
use crate::common::foundation::msg::grammar::read_item;
use crate::common::foundation::msg::grammar::read_items;
use crate::common::foundation::msg::grammar::read_message;
use crate::common::foundation::msg::grammar::string_closer;
use crate::common::foundation::msg::grammar::string_sigil;
use crate::common::foundation::msg::grammar::Failure;
use crate::common::foundation::msg::grammar::Item;
use crate::common::foundation::msg::grammar::Items;
use crate::common::foundation::msg::grammar::Numeral;
use crate::common::foundation::msg::grammar::Parsed;
use crate::common::foundation::msg::parse::ParseErrorKind;

verus! {

////////////////////////////////////////////////////////////////////////////////
// reading inverts writing

/// Where a buffer holds `a + b` at `pos`, it holds `a` at `pos` and `b`
/// behind it.
proof fn lemma_holds_split(buf: Seq<u8>, pos: int, a: Seq<u8>, b: Seq<u8>)
    requires
        0 <= pos,
        pos + a.len() + b.len() <= buf.len(),
        buf.subrange(pos, pos + a.len() + b.len()) == a + b,
    ensures
        buf.subrange(pos, pos + a.len()) == a,
        buf.subrange(pos + a.len(), pos + a.len() + b.len()) == b,
{
    let whole = buf.subrange(pos, pos + a.len() + b.len());
    assert(buf.subrange(pos, pos + a.len()) =~= whole.subrange(0, a.len() as int));
    assert(buf.subrange(pos + a.len(), pos + a.len() + b.len()) =~= whole.subrange(
        a.len() as int,
        (a.len() + b.len()) as int,
    ));
    assert((a + b).subrange(0, a.len() as int) =~= a);
    assert((a + b).subrange(a.len() as int, (a.len() + b.len()) as int) =~= b);
}

/// The canonical numeral of a number that fits the pointer size, followed by
/// something that is no digit, is read as that number.
pub proof fn lemma_read_decimal_of_digits(buf: Seq<u8>, pos: int, n: nat)
    requires
        0 <= pos,
        n <= usize::MAX,
        pos + decimal_digits(n).len() <= buf.len(),
        buf.subrange(pos, pos + decimal_digits(n).len()) == decimal_digits(n),
        pos + decimal_digits(n).len() < buf.len() ==> !digit_byte(
            buf[pos + decimal_digits(n).len()],
        ),
    ensures
        read_decimal(buf, pos) == Ok::<Numeral, Failure>(
            Numeral { value: n, next: pos + decimal_digits(n).len() },
        ),
{
    let digits = decimal_digits(n);
    let end = pos + digits.len();
    lemma_decimal_digits_shape(n);
    lemma_decimal_value_of_digits(n);
    assert forall|i: int| pos <= i < end implies digit_byte(#[trigger] buf[i]) by {
        assert(buf[i] == buf.subrange(pos, end)[i - pos]);
    }
    lemma_digit_run_end_is(buf, pos, end);
}

/// A byte string as it is written is read as that byte string.
pub proof fn lemma_read_item_of_encoding(buf: Seq<u8>, pos: int, item: Seq<u8>)
    requires
        0 <= pos,
        item.len() <= usize::MAX,
        pos + encode_item(item).len() <= buf.len(),
        buf.subrange(pos, pos + encode_item(item).len()) == encode_item(item),
    ensures
        read_item(buf, pos) == Ok::<Item, Failure>(
            Item { bytes: item, next: pos + encode_item(item).len() },
        ),
{
    let digits = decimal_digits(item.len());
    let written = encode_item(item);
    let d = digits.len() as int;
    assert forall|i: int| 0 <= i < written.len() implies buf[pos + i] == #[trigger] written[i] by {
        assert(buf.subrange(pos, pos + written.len())[i] == buf[pos + i]);
    }
    assert(written[d] == string_sigil());
    assert(written[d + 1 + item.len()] == string_closer());
    assert(buf.subrange(pos, pos + d) =~= digits) by {
        assert forall|i: int| 0 <= i < d implies buf.subrange(pos, pos + d)[i] == digits[i] by {
            assert(written[i] == digits[i]);
        }
    }
    assert(buf[pos + d] == string_sigil());
    lemma_read_decimal_of_digits(buf, pos, item.len());
    assert(buf.subrange(pos + d + 1, pos + d + 1 + item.len()) =~= item) by {
        assert forall|i: int| 0 <= i < item.len() implies buf.subrange(
            pos + d + 1,
            pos + d + 1 + item.len(),
        )[i] == item[i] by {
            assert(written[d + 1 + i] == item[i]);
        }
    }
    assert(buf[pos + d + 1 + item.len()] == string_closer());
}

/// Byte strings as they are written are read as those byte strings.
pub proof fn lemma_read_items_of_encoding(buf: Seq<u8>, pos: int, items: Seq<Seq<u8>>)
    requires
        0 <= pos,
        forall|i: int| 0 <= i < items.len() ==> (#[trigger] items[i]).len() <= usize::MAX,
        pos + encode_items(items).len() <= buf.len(),
        buf.subrange(pos, pos + encode_items(items).len()) == encode_items(items),
    ensures
        read_items(buf, pos, items.len()) == Ok::<Items, Failure>(
            Items { items, next: pos + encode_items(items).len() },
        ),
    decreases items.len(),
{
    if items.len() == 0 {
        assert(items =~= Seq::<Seq<u8>>::empty());
    } else {
        let first = items[0];
        let tail = items.drop_first();
        assert(items =~= seq![first] + tail);
        lemma_encode_items_concat(seq![first], tail);
        assert(encode_items(seq![first]) =~= encode_item(first)) by {
            assert(seq![first].drop_last() =~= Seq::<Seq<u8>>::empty());
            assert(encode_items(seq![first].drop_last()) =~= Seq::<u8>::empty());
        }
        lemma_holds_split(buf, pos, encode_item(first), encode_items(tail));
        lemma_read_item_of_encoding(buf, pos, first);
        assert forall|i: int| 0 <= i < tail.len() implies (#[trigger] tail[i]).len()
            <= usize::MAX by {
            assert(tail[i] == items[i + 1]);
        }
        lemma_read_items_of_encoding(buf, pos + encode_item(first).len(), tail);
        assert(seq![first] + tail =~= items);
    }
}

/// Reading what was written gives back the message, and consumes exactly
/// what was written, whatever follows in the buffer.
pub proof fn lemma_parse_format_round_trip(items: Seq<Seq<u8>>, rest: Seq<u8>)
    requires
        items.len() >= 1,
        items.len() <= usize::MAX,
        is_message_type(items[0]),
        forall|i: int| 0 <= i < items.len() ==> (#[trigger] items[i]).len() <= usize::MAX,
    ensures
        read_message(encode_message(items) + rest) == Ok::<Parsed, Failure>(
            Parsed { items, consumed: encode_message(items).len() as int },
        ),
{
    let buf = encode_message(items) + rest;
    let header = encode_header(items.len());
    let digits = decimal_digits(items.len());
    let body = encode_items(items);
    let first = items[0];
    let tail = items.drop_first();
    lemma_decimal_digits_shape(items.len());
    assert(buf[0] == message_opener());
    assert(buf.subrange(1, 1 + digits.len() as int) =~= digits);
    assert(buf[1 + digits.len() as int] == list_sigil());
    lemma_read_decimal_of_digits(buf, 1, items.len());
    let start = header.len() as int;
    assert(buf.subrange(start, start + body.len()) =~= body);
    assert(items =~= seq![first] + tail);
    lemma_encode_items_concat(seq![first], tail);
    assert(encode_items(seq![first]) =~= encode_item(first)) by {
        assert(seq![first].drop_last() =~= Seq::<Seq<u8>>::empty());
        assert(encode_items(seq![first].drop_last()) =~= Seq::<u8>::empty());
    }
    lemma_holds_split(buf, start, encode_item(first), encode_items(tail));
    lemma_read_item_of_encoding(buf, start, first);
    assert forall|i: int| 0 <= i < tail.len() implies (#[trigger] tail[i]).len() <= usize::MAX by {
        assert(tail[i] == items[i + 1]);
    }
    lemma_read_items_of_encoding(buf, start + encode_item(first).len(), tail);
    assert(buf[start + body.len()] == message_closer());
}

////////////////////////////////////////////////////////////////////////////////
// a message that was cut off

/// What reading a numeral makes of a buffer that was cut off at `k`.
proof fn lemma_prefix_decimal(buf: Seq<u8>, k: int, pos: int)
    requires
        0 <= pos <= k <= buf.len(),
        read_decimal(buf, pos) is Ok,
    ensures
        pos == k ==> read_decimal(buf.subrange(0, k), pos) == Err::<Numeral, Failure>(
            Failure { kind: ParseErrorKind::UnexpectedEOF, offset: k },
        ),
        pos < k && read_decimal(buf, pos)->Ok_0.next <= k ==> read_decimal(
            buf.subrange(0, k),
            pos,
        ) == read_decimal(buf, pos),
        pos < k && read_decimal(buf, pos)->Ok_0.next > k ==> read_decimal(
            buf.subrange(0, k),
            pos,
        ) is Ok && read_decimal(buf.subrange(0, k), pos)->Ok_0.next == k,
{
    let p = buf.subrange(0, k);
    let end = digit_run_end(buf, pos);
    lemma_digit_run_end(buf, pos);
    if pos < k {
        let cut = if end <= k {
            end
        } else {
            k
        };
        assert forall|i: int| pos <= i < cut implies digit_byte(#[trigger] p[i]) by {
            assert(p[i] == buf[i]);
        }
        if cut < k {
            assert(p[cut] == buf[cut]);
        }
        lemma_digit_run_end_is(p, pos, cut);
        assert(p.subrange(pos, cut) =~= buf.subrange(pos, end).subrange(0, cut - pos));
        lemma_decimal_value_prefix(buf.subrange(pos, end), cut - pos);
        assert(p.subrange(pos, cut)[0] == buf.subrange(pos, end)[0]);
        if end <= k {
            assert(p.subrange(pos, cut) =~= buf.subrange(pos, end));
        }
    }
}

/// What reading a byte string makes of a buffer that was cut off at `k`: the
/// same if the byte string ends before `k`, and else that the buffer ends too
/// early.
proof fn lemma_prefix_item(buf: Seq<u8>, k: int, pos: int)
    requires
        0 <= pos <= k <= buf.len(),
        read_item(buf, pos) is Ok,
    ensures
        read_item(buf, pos)->Ok_0.next <= k ==> read_item(buf.subrange(0, k), pos) == read_item(
            buf,
            pos,
        ),
        read_item(buf, pos)->Ok_0.next > k ==> read_item(buf.subrange(0, k), pos) == Err::<
            Item,
            Failure,
        >(Failure { kind: ParseErrorKind::UnexpectedEOF, offset: k }),
{
    let p = buf.subrange(0, k);
    lemma_prefix_decimal(buf, k, pos);
    lemma_digit_run_end(buf, pos);
    let length = read_decimal(buf, pos)->Ok_0;
    if pos < k && length.next < k {
        assert(p[length.next] == buf[length.next]);
        let start = length.next + 1;
        if start + length.value <= k {
            assert(p.subrange(start, start + length.value) =~= buf.subrange(
                start,
                start + length.value,
            ));
            if start + length.value < k {
                assert(p[start + length.value] == buf[start + length.value]);
            }
        }
    }
}

/// What reading byte strings makes of a buffer that was cut off at `k`.
proof fn lemma_prefix_items(buf: Seq<u8>, k: int, pos: int, count: nat)
    requires
        0 <= pos <= k <= buf.len(),
        read_items(buf, pos, count) is Ok,
    ensures
        read_items(buf, pos, count)->Ok_0.next <= k ==> read_items(buf.subrange(0, k), pos, count)
            == read_items(buf, pos, count),
        read_items(buf, pos, count)->Ok_0.next > k ==> read_items(buf.subrange(0, k), pos, count)
            == Err::<Items, Failure>(Failure { kind: ParseErrorKind::UnexpectedEOF, offset: k }),
    decreases count,
{
    if count > 0 {
        lemma_prefix_item(buf, k, pos);
        lemma_read_item_bounds(buf, pos);
        let first = read_item(buf, pos)->Ok_0;
        lemma_read_items_bounds(buf, first.next, (count - 1) as nat);
        if first.next <= k {
            lemma_prefix_items(buf, k, first.next, (count - 1) as nat);
        }
    }
}

/// Every proper prefix of a message reads as incomplete: the error is
/// `UnexpectedEOF`, at the end of the prefix.
pub proof fn lemma_prefix_is_incomplete(buf: Seq<u8>, k: int)
    requires
        read_message(buf) is Ok,
        0 <= k < read_message(buf)->Ok_0.consumed,
    ensures
        read_message(buf.subrange(0, k)) == Err::<Parsed, Failure>(
            Failure { kind: ParseErrorKind::UnexpectedEOF, offset: k },
        ),
{
    let p = buf.subrange(0, k);
    lemma_digit_run_end(buf, 1);
    let count = read_decimal(buf, 1)->Ok_0;
    let start = count.next + 1;
    lemma_read_item_bounds(buf, start);
    let first = read_item(buf, start)->Ok_0;
    lemma_read_items_bounds(buf, first.next, (count.value - 1) as nat);
    let rest = read_items(buf, first.next, (count.value - 1) as nat)->Ok_0;
    assert(k <= rest.next);
    if k >= 1 {
        assert(p[0] == buf[0]);
        lemma_prefix_decimal(buf, k, 1);
        if count.next < k {
            assert(p[count.next] == buf[count.next]);
            lemma_prefix_item(buf, k, start);
            if first.next <= k {
                lemma_prefix_items(buf, k, first.next, (count.value - 1) as nat);
            }
        }
    }
}

////////////////////////////////////////////////////////////////////////////////
// malformed input

/// Any byte but `{` at the front of the buffer is an
/// `ExpectedMessageOpener` at offset 0.
pub proof fn lemma_opener_is_required(buf: Seq<u8>)
    requires
        buf.len() > 0,
        buf[0] != message_opener(),
    ensures
        read_message(buf) == Err::<Parsed, Failure>(
            Failure { kind: ParseErrorKind::ExpectedMessageOpener, offset: 0 },
        ),
{
}

/// A numeral of more than one digit that starts with `0` is a
/// `DecimalNumberHasLeadingZeroes`, reported at the first digit that follows
/// the zero.
pub proof fn lemma_leading_zero_is_refused(buf: Seq<u8>, pos: int)
    requires
        0 <= pos,
        pos + 1 < buf.len(),
        buf[pos] == 0x30,
        digit_byte(buf[pos + 1]),
    ensures
        read_decimal(buf, pos) == Err::<Numeral, Failure>(
            Failure {
                kind: ParseErrorKind::DecimalNumberHasLeadingZeroes,
                offset: pos + 1,
            },
        ),
        read_item(buf, pos) == Err::<Item, Failure>(read_decimal(buf, pos)->Err_0),
        pos == 1 && buf[0] == message_opener() ==> read_message(buf) == Err::<Parsed, Failure>(
            read_decimal(buf, pos)->Err_0,
        ),
{
    lemma_digit_run_end(buf, pos);
    lemma_digit_run_end(buf, pos + 1);
    lemma_digit_run_end(buf, pos + 2);
    assert(buf.subrange(pos, digit_run_end(buf, pos))[0] == buf[pos]);
}

/// A numeral without leading zeroes whose value exceeds the pointer size is
/// a `DecimalNumberTooLarge`, reported behind its last digit.
pub proof fn lemma_large_number_is_refused(buf: Seq<u8>, pos: int)
    requires
        0 <= pos < buf.len(),
        digit_byte(buf[pos]),
        buf[pos] != 0x30,
        decimal_value(buf.subrange(pos, digit_run_end(buf, pos))) > usize::MAX,
    ensures
        read_decimal(buf, pos) == Err::<Numeral, Failure>(
            Failure {
                kind: ParseErrorKind::DecimalNumberTooLarge,
                offset: digit_run_end(buf, pos),
            },
        ),
        read_item(buf, pos) == Err::<Item, Failure>(read_decimal(buf, pos)->Err_0),
        pos == 1 && buf[0] == message_opener() ==> read_message(buf) == Err::<Parsed, Failure>(
            read_decimal(buf, pos)->Err_0,
        ),
{
    lemma_digit_run_end(buf, pos);
    lemma_digit_run_end(buf, pos + 1);
    assert(buf.subrange(pos, digit_run_end(buf, pos))[0] == buf[pos]);
}

} // verus!
