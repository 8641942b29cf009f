//! Encoding of typed values as arguments of a message.

use vstd::prelude::*;
use vstd::string::StringSliceAdditionalSpecFns;
use crate::common::foundation::decimal::decimal_size;
use crate::common::foundation::decimal::int_wire;
use crate::common::foundation::decimal::write_decimal;
use crate::common::foundation::identifiers::ClientID;
use crate::common::foundation::identifiers::Identifier;
use crate::common::foundation::identifiers::MessageType;
use crate::common::foundation::identifiers::ModuleIdentifier;
use crate::common::foundation::identifiers::ModuleVersion;
use crate::common::foundation::identifiers::ScopedIdentifier;

verus! {

/// A type whose values can be encoded as an argument of a message.
///
/// Strings and byte strings encode as themselves, booleans as `t` or `f`,
/// integers as canonical decimal numerals, and an absent optional value as
/// the empty byte string.
pub trait EncodeArgument {
    /// The bytes that stand for this value on the wire.
    spec fn wire(&self) -> Seq<u8>;

    /// The exact number of bytes that the encoding of this value takes. For
    /// an encoding that is longer than any byte string can be, this is the
    /// largest number there is.
    fn get_size(&self) -> (n: usize)
        ensures
            n == saturated_len(self.wire()),
    ;

    /// Encodes this value into `buf`, which is exactly `get_size()` bytes
    /// long.
    fn encode(&self, buf: &mut [u8])
        requires
            old(buf)@.len() == self.wire().len(),
        ensures
            final(buf)@ == self.wire(),
    ;

    /// Encodes this value into a new vector of `get_size()` bytes.
    fn encode_to_vector(&self) -> (v: Vec<u8>)
        requires
            self.wire().len() <= usize::MAX,
        ensures
            v@ == self.wire(),
    {
        let mut v = zeroes(self.get_size());
        self.encode(v.as_mut_slice());
        v
    }
}

/// The length of `s`, or the largest number there is if `s` is longer than
/// that.
pub open spec fn saturated_len(s: Seq<u8>) -> usize {
    if s.len() <= usize::MAX {
        s.len() as usize
    } else {
        usize::MAX
    }
}

/// A vector of `n` zero bytes.
pub fn zeroes(n: usize) -> (v: Vec<u8>)
    ensures
        v@.len() == n,
        forall|i: int| 0 <= i < n ==> v@[i] == 0,
{
    let mut v: Vec<u8> = Vec::new();
    let mut i: usize = 0;
    while i < n
        invariant
            i <= n,
            v@.len() == i,
            forall|j: int| 0 <= j < i ==> v@[j] == 0,
        decreases n - i,
    {
        v.push(0);
        i = i + 1;
    }
    v
}

/// Appends `src` to `v`.
pub fn append_bytes(v: &mut Vec<u8>, src: &[u8])
    ensures
        final(v)@ == old(v)@ + src@,
{
    let n = src.len();
    let mut i: usize = 0;
    while i < n
        invariant
            n == src@.len(),
            i <= n,
            v@ == old(v)@ + src@.subrange(0, i as int),
        decreases n - i,
    {
        v.push(src[i]);
        i = i + 1;
        assert(v@ =~= old(v)@ + src@.subrange(0, i as int));
    }
    assert(src@.subrange(0, n as int) =~= src@);
}

/// Copies `src` into `buf`, which has the same length.
pub fn copy_bytes(buf: &mut [u8], src: &[u8])
    requires
        old(buf)@.len() == src@.len(),
    ensures
        final(buf)@ == src@,
{
    let n = src.len();
    let mut i: usize = 0;
    while i < n
        invariant
            n == src@.len(),
            buf@.len() == n,
            i <= n,
            forall|j: int| 0 <= j < i ==> buf@[j] == src@[j],
        decreases n - i,
    {
        buf[i] = src[i];
        i = i + 1;
    }
    assert(buf@ =~= src@);
}

/// A type whose values hold their own encoding as a byte string.
pub trait EncodedArgument {
    /// The bytes that `encoded` returns.
    spec fn encoded_bytes(&self) -> Seq<u8>;

    /// The encoded form of this value.
    fn encoded(&self) -> (r: &[u8])
        ensures
            r@ == self.encoded_bytes(),
    ;
}

impl<T: EncodedArgument + ?Sized> EncodeArgument for T {
    open spec fn wire(&self) -> Seq<u8> {
        self.encoded_bytes()
    }

    fn get_size(&self) -> (n: usize) {
        self.encoded().len()
    }

    fn encode(&self, buf: &mut [u8]) {
        copy_bytes(buf, self.encoded());
    }
}

impl EncodeArgument for [u8] {
    open spec fn wire(&self) -> Seq<u8> {
        self@
    }

    fn get_size(&self) -> (n: usize) {
        self.len()
    }

    fn encode(&self, buf: &mut [u8]) {
        copy_bytes(buf, self);
    }
}

impl EncodeArgument for str {
    open spec fn wire(&self) -> Seq<u8> {
        self.spec_bytes()
    }

    fn get_size(&self) -> (n: usize) {
        self.as_bytes().len()
    }

    fn encode(&self, buf: &mut [u8]) {
        copy_bytes(buf, self.as_bytes());
    }
}

impl EncodeArgument for bool {
    open spec fn wire(&self) -> Seq<u8> {
        if *self {
            seq![0x74u8]
        } else {
            seq![0x66u8]
        }
    }

    fn get_size(&self) -> (n: usize) {
        1
    }

    fn encode(&self, buf: &mut [u8]) {
        buf[0] = if *self {
            0x74
        } else {
            0x66
        };
        assert(buf@ =~= self.wire());
    }
}

impl<'a, T: EncodeArgument + ?Sized> EncodeArgument for Option<&'a T> {
    open spec fn wire(&self) -> Seq<u8> {
        match *self {
            None => Seq::empty(),
            Some(val) => val.wire(),
        }
    }

    fn get_size(&self) -> (n: usize) {
        match *self {
            None => 0,
            Some(val) => val.get_size(),
        }
    }

    fn encode(&self, buf: &mut [u8]) {
        match *self {
            None => {
                assert(buf@ =~= Seq::<u8>::empty());
            },
            Some(val) => val.encode(buf),
        }
    }
}

impl<'a> EncodedArgument for ClientID<'a> {
    open spec fn encoded_bytes(&self) -> Seq<u8> {
        self.bytes()
    }

    fn encoded(&self) -> (r: &[u8]) {
        self.as_str().as_bytes()
    }
}

impl<'a> EncodedArgument for Identifier<'a> {
    open spec fn encoded_bytes(&self) -> Seq<u8> {
        self.bytes()
    }

    fn encoded(&self) -> (r: &[u8]) {
        self.as_str().as_bytes()
    }
}

impl<'a> EncodedArgument for ModuleIdentifier<'a> {
    open spec fn encoded_bytes(&self) -> Seq<u8> {
        self.bytes()
    }

    fn encoded(&self) -> (r: &[u8]) {
        self.as_str().as_bytes()
    }
}

impl<'a> EncodedArgument for ModuleVersion<'a> {
    open spec fn encoded_bytes(&self) -> Seq<u8> {
        self.bytes()
    }

    fn encoded(&self) -> (r: &[u8]) {
        self.as_str().as_bytes()
    }
}

impl<'a> EncodedArgument for ScopedIdentifier<'a> {
    open spec fn encoded_bytes(&self) -> Seq<u8> {
        self.bytes()
    }

    fn encoded(&self) -> (r: &[u8]) {
        self.as_str().as_bytes()
    }
}

impl<'a> EncodedArgument for MessageType<'a> {
    open spec fn encoded_bytes(&self) -> Seq<u8> {
        self.bytes()
    }

    fn encoded(&self) -> (r: &[u8]) {
        self.as_str().as_bytes()
    }
}

/// The magnitude of a signed integer.
pub fn magnitude(val: i128) -> (m: u128)
    ensures
        m == (if val < 0 {
            -(val as int)
        } else {
            val as int
        }),
{
    if val >= 0 {
        val as u128
    } else {
        ((-(val + 1)) as u128) + 1
    }
}

/// The number of bytes that the wire form of `val` takes.
pub fn signed_size(val: i128) -> (n: usize)
    ensures
        n == int_wire(val as int).len(),
{
    let digits = decimal_size(magnitude(val));
    if val >= 0 {
        digits
    } else {
        digits + 1
    }
}

/// Writes the wire form of `val` into `buf`, which has exactly its length.
pub fn write_signed(val: i128, buf: &mut [u8])
    requires
        old(buf)@.len() == int_wire(val as int).len(),
    ensures
        final(buf)@ == int_wire(val as int),
{
    let m = magnitude(val);
    if val >= 0 {
        write_decimal(m, buf);
    } else {
        let (sign, digits) = buf.split_at_mut(1);
        sign[0] = 0x2d;
        write_decimal(m, digits);
        assert(sign@ =~= seq![0x2du8]);
    }
}

impl EncodeArgument for u8 {
    open spec fn wire(&self) -> Seq<u8> {
        int_wire(*self as int)
    }

    fn get_size(&self) -> (n: usize) {
        decimal_size(*self as u128)
    }

    fn encode(&self, buf: &mut [u8]) {
        write_decimal(*self as u128, buf)
    }
}

impl EncodeArgument for u16 {
    open spec fn wire(&self) -> Seq<u8> {
        int_wire(*self as int)
    }

    fn get_size(&self) -> (n: usize) {
        decimal_size(*self as u128)
    }

    fn encode(&self, buf: &mut [u8]) {
        write_decimal(*self as u128, buf)
    }
}

impl EncodeArgument for u32 {
    open spec fn wire(&self) -> Seq<u8> {
        int_wire(*self as int)
    }

    fn get_size(&self) -> (n: usize) {
        decimal_size(*self as u128)
    }

    fn encode(&self, buf: &mut [u8]) {
        write_decimal(*self as u128, buf)
    }
}

impl EncodeArgument for u64 {
    open spec fn wire(&self) -> Seq<u8> {
        int_wire(*self as int)
    }

    fn get_size(&self) -> (n: usize) {
        decimal_size(*self as u128)
    }

    fn encode(&self, buf: &mut [u8]) {
        write_decimal(*self as u128, buf)
    }
}

impl EncodeArgument for u128 {
    open spec fn wire(&self) -> Seq<u8> {
        int_wire(*self as int)
    }

    fn get_size(&self) -> (n: usize) {
        decimal_size(*self)
    }

    fn encode(&self, buf: &mut [u8]) {
        write_decimal(*self, buf)
    }
}

impl EncodeArgument for usize {
    open spec fn wire(&self) -> Seq<u8> {
        int_wire(*self as int)
    }

    fn get_size(&self) -> (n: usize) {
        decimal_size(*self as u128)
    }

    fn encode(&self, buf: &mut [u8]) {
        write_decimal(*self as u128, buf)
    }
}

impl EncodeArgument for i8 {
    open spec fn wire(&self) -> Seq<u8> {
        int_wire(*self as int)
    }

    fn get_size(&self) -> (n: usize) {
        signed_size(*self as i128)
    }

    fn encode(&self, buf: &mut [u8]) {
        write_signed(*self as i128, buf)
    }
}

impl EncodeArgument for i16 {
    open spec fn wire(&self) -> Seq<u8> {
        int_wire(*self as int)
    }

    fn get_size(&self) -> (n: usize) {
        signed_size(*self as i128)
    }

    fn encode(&self, buf: &mut [u8]) {
        write_signed(*self as i128, buf)
    }
}

impl EncodeArgument for i32 {
    open spec fn wire(&self) -> Seq<u8> {
        int_wire(*self as int)
    }

    fn get_size(&self) -> (n: usize) {
        signed_size(*self as i128)
    }

    fn encode(&self, buf: &mut [u8]) {
        write_signed(*self as i128, buf)
    }
}

impl EncodeArgument for i64 {
    open spec fn wire(&self) -> Seq<u8> {
        int_wire(*self as int)
    }

    fn get_size(&self) -> (n: usize) {
        signed_size(*self as i128)
    }

    fn encode(&self, buf: &mut [u8]) {
        write_signed(*self as i128, buf)
    }
}

impl EncodeArgument for i128 {
    open spec fn wire(&self) -> Seq<u8> {
        int_wire(*self as int)
    }

    fn get_size(&self) -> (n: usize) {
        signed_size(*self)
    }

    fn encode(&self, buf: &mut [u8]) {
        write_signed(*self, buf)
    }
}

impl EncodeArgument for isize {
    open spec fn wire(&self) -> Seq<u8> {
        int_wire(*self as int)
    }

    fn get_size(&self) -> (n: usize) {
        signed_size(*self as i128)
    }

    fn encode(&self, buf: &mut [u8]) {
        write_signed(*self as i128, buf)
    }
}

} // verus!
