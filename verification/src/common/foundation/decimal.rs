//! Decimal numerals as they appear on the wire: ASCII digits, most significant
//! first, without leading zeroes.

use vstd::prelude::*;

verus! {

/// The byte is an ASCII digit.
pub open spec fn digit_byte(c: u8) -> bool {
    0x30 <= c <= 0x39
}

/// Every byte of `s` is an ASCII digit.
pub open spec fn all_digits(s: Seq<u8>) -> bool {
    forall|i: int| 0 <= i < s.len() ==> digit_byte(#[trigger] s[i])
}

/// The canonical numeral of `n`.
pub open spec fn decimal_digits(n: nat) -> Seq<u8>
    decreases n,
{
    if n < 10 {
        seq![(0x30 + n) as u8]
    } else {
        decimal_digits(n / 10).push((0x30 + n % 10) as u8)
    }
}

/// The number that a string of digits denotes (leading zeroes allowed).
pub open spec fn decimal_value(s: Seq<u8>) -> nat
    decreases s.len(),
{
    if s.len() == 0 {
        0
    } else {
        decimal_value(s.drop_last()) * 10 + (s.last() - 0x30) as nat
    }
}

/// `s` is a numeral in canonical form: at least one digit, only digits, and
/// no leading zero unless the numeral is `0` itself.
pub open spec fn is_canonical_decimal(s: Seq<u8>) -> bool {
    &&& s.len() > 0
    &&& all_digits(s)
    &&& s.len() > 1 ==> s[0] != 0x30
}

/// What a decoder bounded by `max` makes of `s`.
pub open spec fn decode_decimal(s: Seq<u8>, max: nat) -> Option<nat> {
    if is_canonical_decimal(s) && decimal_value(s) <= max {
        Some(decimal_value(s))
    } else {
        None
    }
}

/// The wire form of a signed integer: a minus sign for negatives, then the
/// canonical numeral of the magnitude.
pub open spec fn int_wire(i: int) -> Seq<u8> {
    if i < 0 {
        seq![0x2du8] + decimal_digits((-i) as nat)
    } else {
        decimal_digits(i as nat)
    }
}

/// What a decoder for the integer range `min..=max` makes of `s`. Only the
/// canonical form of a number is accepted: `-0`, `+1` and `007` are not.
pub open spec fn decode_int(s: Seq<u8>, min: int, max: int) -> Option<int> {
    if s.len() > 0 && s[0] == 0x2d {
        let digits = s.subrange(1, s.len() as int);
        if is_canonical_decimal(digits) && decimal_value(digits) != 0
            && -(decimal_value(digits) as int) >= min {
            Some(-(decimal_value(digits) as int))
        } else {
            None
        }
    } else if is_canonical_decimal(s) && decimal_value(s) <= max {
        Some(decimal_value(s) as int)
    } else {
        None
    }
}

/// A numeral has at least one digit, and all its bytes are digits.
pub proof fn lemma_decimal_digits_shape(n: nat)
    ensures
        decimal_digits(n).len() >= 1,
        all_digits(decimal_digits(n)),
        n >= 1 ==> decimal_digits(n)[0] != 0x30,
        n < 10 <==> decimal_digits(n).len() == 1,
    decreases n,
{
    if n >= 10 {
        lemma_decimal_digits_shape(n / 10);
        let s = decimal_digits(n / 10);
        assert(decimal_digits(n)[0] == s[0]);
        assert forall|i: int| 0 <= i < decimal_digits(n).len() implies digit_byte(
            #[trigger] decimal_digits(n)[i],
        ) by {
            if i < s.len() {
                assert(decimal_digits(n)[i] == s[i]);
            }
        }
    }
}

/// Reading back the canonical numeral of `n` gives `n`.
pub proof fn lemma_decimal_value_of_digits(n: nat)
    ensures
        is_canonical_decimal(decimal_digits(n)),
        decimal_value(decimal_digits(n)) == n,
    decreases n,
{
    lemma_decimal_digits_shape(n);
    if n < 10 {
        let s = decimal_digits(n);
        assert(s.drop_last().len() == 0);
        assert(decimal_value(s.drop_last()) == 0);
    } else {
        lemma_decimal_value_of_digits(n / 10);
        let s = decimal_digits(n);
        assert(s.drop_last() =~= decimal_digits(n / 10));
    }
}

/// The value of a digit string without a leading zero tells its length: a
/// string of more than one digit denotes at least ten.
pub proof fn lemma_decimal_value_lower_bound(s: Seq<u8>)
    requires
        is_canonical_decimal(s),
    ensures
        s.len() > 1 ==> decimal_value(s) >= 10,
        s.len() == 1 ==> decimal_value(s) < 10,
    decreases s.len(),
{
    let t = s.drop_last();
    if s.len() == 1 {
        assert(decimal_value(t) == 0);
    } else {
        assert(t[0] == s[0]);
        assert(all_digits(t)) by {
            assert forall|i: int| 0 <= i < t.len() implies digit_byte(#[trigger] t[i]) by {
                assert(t[i] == s[i]);
            }
        }
        if t.len() == 1 {
            assert(decimal_value(t.drop_last()) == 0);
            assert(decimal_value(t) == (t[0] - 0x30) as nat);
            assert(decimal_value(t) >= 1);
        } else {
            lemma_decimal_value_lower_bound(t);
        }
    }
}

/// A canonical numeral is the numeral of its own value: no two canonical
/// numerals denote the same number.
pub proof fn lemma_digits_of_decimal_value(s: Seq<u8>)
    requires
        is_canonical_decimal(s),
    ensures
        decimal_digits(decimal_value(s)) == s,
    decreases s.len(),
{
    let t = s.drop_last();
    if s.len() == 1 {
        assert(decimal_value(t) == 0);
        assert(decimal_digits(decimal_value(s)) =~= s);
    } else {
        assert(t[0] == s[0]);
        assert(all_digits(t)) by {
            assert forall|i: int| 0 <= i < t.len() implies digit_byte(#[trigger] t[i]) by {
                assert(t[i] == s[i]);
            }
        }
        lemma_digits_of_decimal_value(t);
        lemma_decimal_value_lower_bound(s);
        let v = decimal_value(s);
        assert(v / 10 == decimal_value(t));
        assert(v % 10 == (s.last() - 0x30) as nat);
        assert(decimal_digits(v) =~= s);
    }
}

/// The value of a digit string is at least the value of each of its prefixes.
pub proof fn lemma_decimal_value_prefix(s: Seq<u8>, k: int)
    requires
        0 <= k <= s.len(),
    ensures
        decimal_value(s.subrange(0, k)) <= decimal_value(s),
    decreases s.len() - k,
{
    if k == s.len() {
        assert(s.subrange(0, k) =~= s);
    } else {
        lemma_decimal_value_prefix(s.drop_last(), k);
        assert(s.drop_last().subrange(0, k) =~= s.subrange(0, k));
    }
}

/// Appending one digit multiplies the value by ten and adds the digit.
pub proof fn lemma_decimal_value_push(s: Seq<u8>, d: u8)
    ensures
        decimal_value(s.push(d)) == decimal_value(s) * 10 + (d - 0x30) as nat,
{
    assert(s.push(d).drop_last() =~= s);
}

/// Decoding inverts encoding on every integer of the range, and accepts
/// nothing but encodings.
pub proof fn lemma_int_wire_round_trip(i: int, min: int, max: int)
    requires
        min <= i <= max,
    ensures
        decode_int(int_wire(i), min, max) == Some(i),
{
    if i < 0 {
        let n = (-i) as nat;
        lemma_decimal_value_of_digits(n);
        assert(int_wire(i).subrange(1, int_wire(i).len() as int) =~= decimal_digits(n));
    } else {
        lemma_decimal_value_of_digits(i as nat);
        lemma_decimal_digits_shape(i as nat);
    }
}

/// Whatever the decoder accepts is the canonical wire form of the number
/// that it returns.
pub proof fn lemma_decode_int_is_canonical(s: Seq<u8>, min: int, max: int)
    requires
        min <= 0 <= max,
        decode_int(s, min, max) is Some,
    ensures
        min <= decode_int(s, min, max)->0 <= max,
        int_wire(decode_int(s, min, max)->0) == s,
{
    if s.len() > 0 && s[0] == 0x2d {
        let digits = s.subrange(1, s.len() as int);
        lemma_digits_of_decimal_value(digits);
        assert(s =~= seq![0x2du8] + digits);
    } else {
        lemma_digits_of_decimal_value(s);
    }
}

/// The number of digits of the canonical numeral of `val`.
pub fn decimal_size(val: u128) -> (n: usize)
    ensures
        n == decimal_digits(val as nat).len(),
        1 <= n <= 39,
{
    let mut rest: u128 = val;
    let mut result: usize = 1;
    assert(rest as nat * pow10(0) <= val) by {
        assert(pow10(0) == 1);
        assert(rest as nat * 1 == rest as nat);
    }
    while rest > 9
        invariant
            1 <= result <= 39,
            decimal_digits(val as nat).len() == decimal_digits(rest as nat).len() + result - 1,
            rest as nat * pow10((result - 1) as nat) <= val,
        decreases rest,
    {
        proof {
            lemma_pow10_step((result - 1) as nat);
            assert((rest / 10) as nat * pow10(result as nat) <= rest as nat * pow10(
                (result - 1) as nat,
            )) by (nonlinear_arith)
                requires
                    pow10(result as nat) == 10 * pow10((result - 1) as nat),
                    rest >= 0,
            ;
            if result == 39 {
                lemma_pow10_39();
                assert((rest / 10) as nat >= 1);
                assert((rest / 10) as nat * pow10(39) >= pow10(39)) by (nonlinear_arith)
                    requires
                        (rest / 10) as nat >= 1,
                ;
            }
        }
        result = result + 1;
        rest = rest / 10;
    }
    proof {
        lemma_decimal_digits_shape(rest as nat);
    }
    result
}

/// Ten to the power of `e`.
pub open spec fn pow10(e: nat) -> nat
    decreases e,
{
    if e == 0 {
        1
    } else {
        10 * pow10((e - 1) as nat)
    }
}

proof fn lemma_pow10_step(e: nat)
    ensures
        pow10(e + 1) == 10 * pow10(e),
{
}

proof fn lemma_pow10_39()
    ensures
        pow10(39) > u128::MAX,
{
    reveal_with_fuel(pow10, 40);
}

/// Writes the canonical numeral of `val` into `buf`, which has exactly the
/// numeral's length.
pub fn write_decimal(val: u128, buf: &mut [u8])
    requires
        old(buf)@.len() == decimal_digits(val as nat).len(),
    ensures
        final(buf)@ == decimal_digits(val as nat),
{
    let len = buf.len();
    proof {
        lemma_decimal_digits_shape(val as nat);
    }
    let mut rest: u128 = val;
    let mut idx: usize = len - 1;
    while rest > 9
        invariant
            buf@.len() == len,
            len == decimal_digits(val as nat).len(),
            idx < len,
            idx + 1 == decimal_digits(rest as nat).len(),
            decimal_digits(val as nat) =~= decimal_digits(rest as nat) + buf@.subrange(idx + 1, len as int),
        decreases rest,
    {
        proof {
            lemma_decimal_digits_shape((rest / 10) as nat);
        }
        let ghost before = buf@;
        buf[idx] = 0x30u8 + ((rest % 10) as u8);
        proof {
            let d = (0x30 + rest % 10) as u8;
            assert(decimal_digits(rest as nat) == decimal_digits((rest / 10) as nat).push(d));
            assert(buf@.subrange(idx as int, len as int) =~= seq![d] + before.subrange(idx + 1, len as int));
            assert(decimal_digits(val as nat) =~= decimal_digits((rest / 10) as nat)
                + buf@.subrange(idx as int, len as int));
        }
        rest = rest / 10;
        idx = idx - 1;
    }
    let ghost before = buf@;
    buf[idx] = 0x30u8 + (rest as u8);
    proof {
        assert(idx == 0);
        assert(decimal_digits(rest as nat) =~= seq![(0x30 + rest) as u8]);
        assert(buf@ =~= seq![(0x30 + rest) as u8] + before.subrange(1, len as int));
    }
}

/// The value of a string of digits, unless it exceeds `max`.
pub fn digits_value(s: &[u8], max: u128) -> (r: Option<u128>)
    requires
        all_digits(s@),
        max >= 9,
    ensures
        r == if decimal_value(s@) <= max {
            Some(decimal_value(s@) as u128)
        } else {
            None::<u128>
        },
{
    let n = s.len();
    let mut acc: u128 = 0;
    let mut i: usize = 0;
    while i < n
        invariant
            n == s@.len(),
            i <= n,
            all_digits(s@),
            max >= 9,
            acc <= max,
            acc == decimal_value(s@.subrange(0, i as int)),
        decreases n - i,
    {
        let d: u128 = (s[i] - 0x30u8) as u128;
        proof {
            assert(s@.subrange(0, i + 1) =~= s@.subrange(0, i as int).push(s@[i as int]));
            lemma_decimal_value_push(s@.subrange(0, i as int), s@[i as int]);
            lemma_decimal_value_prefix(s@, i + 1);
        }
        if acc > (max - d) / 10 {
            return None;
        }
        acc = acc * 10 + d;
        i = i + 1;
    }
    proof {
        assert(s@.subrange(0, n as int) =~= s@);
    }
    Some(acc)
}

/// Whether `s` is a numeral in canonical form.
pub fn check_canonical_decimal(s: &[u8]) -> (r: bool)
    ensures
        r == is_canonical_decimal(s@),
{
    let n = s.len();
    if n == 0 {
        return false;
    }
    if n > 1 && s[0] == 0x30 {
        return false;
    }
    let mut i: usize = 0;
    while i < n
        invariant
            n == s@.len(),
            i <= n,
            forall|j: int| 0 <= j < i ==> digit_byte(#[trigger] s@[j]),
        decreases n - i,
    {
        if !(s[i] >= 0x30 && s[i] <= 0x39) {
            return false;
        }
        i = i + 1;
    }
    true
}

/// Decodes an unsigned integer of at most `max` from its canonical numeral.
pub fn parse_decimal(s: &[u8], max: u128) -> (r: Option<u128>)
    requires
        max >= 9,
    ensures
        r is Some <==> decode_decimal(s@, max as nat) is Some,
        r is Some ==> r->0 as nat == decode_decimal(s@, max as nat)->0,
{
    if !check_canonical_decimal(s) {
        return None;
    }
    digits_value(s, max)
}

/// The integer that a sign and a magnitude stand for.
pub open spec fn signed_value(negative: bool, magnitude: u128) -> int {
    if negative {
        -(magnitude as int)
    } else {
        magnitude as int
    }
}

/// Decodes a signed integer of the range `-neg_max ..= max` from its canonical
/// wire form. The result is the sign and the magnitude.
pub fn parse_signed(s: &[u8], neg_max: u128, max: u128) -> (r: Option<(bool, u128)>)
    requires
        max >= 9,
        neg_max >= 9,
    ensures
        r is Some <==> decode_int(s@, -(neg_max as int), max as int) is Some,
        match r {
            Some((negative, magnitude)) => {
                &&& decode_int(s@, -(neg_max as int), max as int) == Some(signed_value(negative, magnitude))
                &&& negative ==> 1 <= magnitude <= neg_max
                &&& !negative ==> magnitude <= max
            },
            None => true,
        },
{
    if s.len() > 0 && s[0] == 0x2d {
        let digits = vstd::slice::slice_subrange(s, 1, s.len());
        if !check_canonical_decimal(digits) {
            return None;
        }
        match digits_value(digits, neg_max) {
            Some(v) => {
                if v == 0 {
                    None
                } else {
                    Some((true, v))
                }
            },
            None => None,
        }
    } else {
        match parse_decimal(s, max) {
            Some(v) => Some((false, v)),
            None => None,
        }
    }
}

} // verus!
