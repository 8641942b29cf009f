//! Decoding of arguments of a message into typed values.

use vstd::prelude::*;
use vstd::string::StringSliceAdditionalSpecFns;
use vstd::utf8::valid_utf8;
use crate::common::foundation::decimal::decode_int;
use crate::common::foundation::decimal::lemma_decode_int_is_canonical;
use crate::common::foundation::decimal::lemma_int_wire_round_trip;
use crate::common::foundation::encode_argument::EncodeArgument;
use crate::common::foundation::identifiers::lemma_grammar_is_ascii;
use crate::common::foundation::text::lemma_ascii_is_utf8;
use crate::common::foundation::text::str_from_utf8;
use crate::common::foundation::decimal::parse_decimal;
use crate::common::foundation::decimal::parse_signed;
use crate::common::foundation::identifiers::is_client_id;
use crate::common::foundation::identifiers::is_identifier;
use crate::common::foundation::identifiers::is_message_type;
use crate::common::foundation::identifiers::split_module_identifier;
use crate::common::foundation::identifiers::split_module_version;
use crate::common::foundation::identifiers::split_scoped_identifier;
use crate::common::foundation::identifiers::ClientID;
use crate::common::foundation::identifiers::Identifier;
use crate::common::foundation::identifiers::MessageType;
use crate::common::foundation::identifiers::ModuleIdentifier;
use crate::common::foundation::identifiers::ModuleVersion;
use crate::common::foundation::identifiers::ScopedIdentifier;

verus! {

/// A type whose values can be decoded from an argument of a message. This is
/// the inverse of encoding.
///
/// Byte strings decode as themselves and strings from valid UTF-8. Booleans
/// and integers are accepted in their canonical form only. An optional value
/// decodes the empty byte string as `None`.
pub trait DecodeArgument<'a>: Sized {
    /// Whether `arg` stands for a value of this type.
    spec fn decodable(arg: Seq<u8>) -> bool;

    /// Whether `arg` stands for `value`.
    spec fn decodes_to(arg: Seq<u8>, value: Self) -> bool;

    /// Decodes `arg` into a value of this type, or returns `None` where it
    /// stands for none.
    fn decode_argument(arg: &'a [u8]) -> (r: Option<Self>)
        ensures
            r is Some <==> Self::decodable(arg@),
            r is Some ==> Self::decodes_to(arg@, r->0),
    ;
}

impl<'a> DecodeArgument<'a> for bool {
    open spec fn decodable(arg: Seq<u8>) -> bool {
        arg == seq![0x74u8] || arg == seq![0x66u8]
    }

    open spec fn decodes_to(arg: Seq<u8>, value: bool) -> bool {
        arg == (if value {
            seq![0x74u8]
        } else {
            seq![0x66u8]
        })
    }

    fn decode_argument(arg: &'a [u8]) -> (r: Option<bool>) {
        if arg.len() == 1 && arg[0] == 0x74 {
            assert(arg@ =~= seq![0x74u8]);
            Some(true)
        } else if arg.len() == 1 && arg[0] == 0x66 {
            assert(arg@ =~= seq![0x66u8]);
            Some(false)
        } else {
            assert(seq![0x74u8][0] == 0x74u8);
            assert(seq![0x66u8][0] == 0x66u8);
            None
        }
    }
}

impl<'a> DecodeArgument<'a> for &'a [u8] {
    open spec fn decodable(arg: Seq<u8>) -> bool {
        true
    }

    open spec fn decodes_to(arg: Seq<u8>, value: &'a [u8]) -> bool {
        value@ == arg
    }

    fn decode_argument(arg: &'a [u8]) -> (r: Option<&'a [u8]>) {
        Some(arg)
    }
}

impl<'a> DecodeArgument<'a> for &'a str {
    open spec fn decodable(arg: Seq<u8>) -> bool {
        valid_utf8(arg)
    }

    open spec fn decodes_to(arg: Seq<u8>, value: &'a str) -> bool {
        value.spec_bytes() == arg
    }

    fn decode_argument(arg: &'a [u8]) -> (r: Option<&'a str>) {
        str_from_utf8(arg)
    }
}

impl<'a, T: DecodeArgument<'a>> DecodeArgument<'a> for Option<T> {
    open spec fn decodable(arg: Seq<u8>) -> bool {
        arg.len() == 0 || T::decodable(arg)
    }

    open spec fn decodes_to(arg: Seq<u8>, value: Option<T>) -> bool {
        if arg.len() == 0 {
            value is None
        } else {
            value is Some && T::decodes_to(arg, value->0)
        }
    }

    fn decode_argument(arg: &'a [u8]) -> (r: Option<Option<T>>) {
        if arg.len() == 0 {
            Some(None)
        } else {
            match T::decode_argument(arg) {
                Some(value) => Some(Some(value)),
                None => None,
            }
        }
    }
}

impl<'a> DecodeArgument<'a> for u8 {
    open spec fn decodable(arg: Seq<u8>) -> bool {
        decode_int(arg, u8::MIN as int, u8::MAX as int) is Some
    }

    open spec fn decodes_to(arg: Seq<u8>, value: u8) -> bool {
        decode_int(arg, u8::MIN as int, u8::MAX as int) == Some(value as int)
    }

    fn decode_argument(arg: &'a [u8]) -> (r: Option<u8>) {
        match parse_decimal(arg, u8::MAX as u128) {
            Some(v) => Some(v as u8),
            None => None,
        }
    }
}

impl<'a> DecodeArgument<'a> for u16 {
    open spec fn decodable(arg: Seq<u8>) -> bool {
        decode_int(arg, u16::MIN as int, u16::MAX as int) is Some
    }

    open spec fn decodes_to(arg: Seq<u8>, value: u16) -> bool {
        decode_int(arg, u16::MIN as int, u16::MAX as int) == Some(value as int)
    }

    fn decode_argument(arg: &'a [u8]) -> (r: Option<u16>) {
        match parse_decimal(arg, u16::MAX as u128) {
            Some(v) => Some(v as u16),
            None => None,
        }
    }
}

impl<'a> DecodeArgument<'a> for u32 {
    open spec fn decodable(arg: Seq<u8>) -> bool {
        decode_int(arg, u32::MIN as int, u32::MAX as int) is Some
    }

    open spec fn decodes_to(arg: Seq<u8>, value: u32) -> bool {
        decode_int(arg, u32::MIN as int, u32::MAX as int) == Some(value as int)
    }

    fn decode_argument(arg: &'a [u8]) -> (r: Option<u32>) {
        match parse_decimal(arg, u32::MAX as u128) {
            Some(v) => Some(v as u32),
            None => None,
        }
    }
}

impl<'a> DecodeArgument<'a> for u64 {
    open spec fn decodable(arg: Seq<u8>) -> bool {
        decode_int(arg, u64::MIN as int, u64::MAX as int) is Some
    }

    open spec fn decodes_to(arg: Seq<u8>, value: u64) -> bool {
        decode_int(arg, u64::MIN as int, u64::MAX as int) == Some(value as int)
    }

    fn decode_argument(arg: &'a [u8]) -> (r: Option<u64>) {
        match parse_decimal(arg, u64::MAX as u128) {
            Some(v) => Some(v as u64),
            None => None,
        }
    }
}

impl<'a> DecodeArgument<'a> for u128 {
    open spec fn decodable(arg: Seq<u8>) -> bool {
        decode_int(arg, u128::MIN as int, u128::MAX as int) is Some
    }

    open spec fn decodes_to(arg: Seq<u8>, value: u128) -> bool {
        decode_int(arg, u128::MIN as int, u128::MAX as int) == Some(value as int)
    }

    fn decode_argument(arg: &'a [u8]) -> (r: Option<u128>) {
        parse_decimal(arg, u128::MAX)
    }
}

impl<'a> DecodeArgument<'a> for usize {
    open spec fn decodable(arg: Seq<u8>) -> bool {
        decode_int(arg, usize::MIN as int, usize::MAX as int) is Some
    }

    open spec fn decodes_to(arg: Seq<u8>, value: usize) -> bool {
        decode_int(arg, usize::MIN as int, usize::MAX as int) == Some(value as int)
    }

    fn decode_argument(arg: &'a [u8]) -> (r: Option<usize>) {
        match parse_decimal(arg, usize::MAX as u128) {
            Some(v) => Some(v as usize),
            None => None,
        }
    }
}

/// The signed integer that a sign and a magnitude stand for.
pub fn apply_sign(negative: bool, magnitude: u128) -> (v: i128)
    requires
        negative ==> 1 <= magnitude <= 0x8000_0000_0000_0000_0000_0000_0000_0000,
        !negative ==> magnitude <= i128::MAX,
    ensures
        v == crate::common::foundation::decimal::signed_value(negative, magnitude),
{
    if negative {
        -((magnitude - 1) as i128) - 1
    } else {
        magnitude as i128
    }
}

impl<'a> DecodeArgument<'a> for i8 {
    open spec fn decodable(arg: Seq<u8>) -> bool {
        decode_int(arg, i8::MIN as int, i8::MAX as int) is Some
    }

    open spec fn decodes_to(arg: Seq<u8>, value: i8) -> bool {
        decode_int(arg, i8::MIN as int, i8::MAX as int) == Some(value as int)
    }

    fn decode_argument(arg: &'a [u8]) -> (r: Option<i8>) {
        match parse_signed(arg, 0x80, i8::MAX as u128) {
            Some((negative, magnitude)) => Some(apply_sign(negative, magnitude) as i8),
            None => None,
        }
    }
}

impl<'a> DecodeArgument<'a> for i16 {
    open spec fn decodable(arg: Seq<u8>) -> bool {
        decode_int(arg, i16::MIN as int, i16::MAX as int) is Some
    }

    open spec fn decodes_to(arg: Seq<u8>, value: i16) -> bool {
        decode_int(arg, i16::MIN as int, i16::MAX as int) == Some(value as int)
    }

    fn decode_argument(arg: &'a [u8]) -> (r: Option<i16>) {
        match parse_signed(arg, 0x8000, i16::MAX as u128) {
            Some((negative, magnitude)) => Some(apply_sign(negative, magnitude) as i16),
            None => None,
        }
    }
}

impl<'a> DecodeArgument<'a> for i32 {
    open spec fn decodable(arg: Seq<u8>) -> bool {
        decode_int(arg, i32::MIN as int, i32::MAX as int) is Some
    }

    open spec fn decodes_to(arg: Seq<u8>, value: i32) -> bool {
        decode_int(arg, i32::MIN as int, i32::MAX as int) == Some(value as int)
    }

    fn decode_argument(arg: &'a [u8]) -> (r: Option<i32>) {
        match parse_signed(arg, 0x8000_0000, i32::MAX as u128) {
            Some((negative, magnitude)) => Some(apply_sign(negative, magnitude) as i32),
            None => None,
        }
    }
}

impl<'a> DecodeArgument<'a> for i64 {
    open spec fn decodable(arg: Seq<u8>) -> bool {
        decode_int(arg, i64::MIN as int, i64::MAX as int) is Some
    }

    open spec fn decodes_to(arg: Seq<u8>, value: i64) -> bool {
        decode_int(arg, i64::MIN as int, i64::MAX as int) == Some(value as int)
    }

    fn decode_argument(arg: &'a [u8]) -> (r: Option<i64>) {
        match parse_signed(arg, 0x8000_0000_0000_0000, i64::MAX as u128) {
            Some((negative, magnitude)) => Some(apply_sign(negative, magnitude) as i64),
            None => None,
        }
    }
}

impl<'a> DecodeArgument<'a> for i128 {
    open spec fn decodable(arg: Seq<u8>) -> bool {
        decode_int(arg, i128::MIN as int, i128::MAX as int) is Some
    }

    open spec fn decodes_to(arg: Seq<u8>, value: i128) -> bool {
        decode_int(arg, i128::MIN as int, i128::MAX as int) == Some(value as int)
    }

    fn decode_argument(arg: &'a [u8]) -> (r: Option<i128>) {
        match parse_signed(arg, 0x8000_0000_0000_0000_0000_0000_0000_0000, i128::MAX as u128) {
            Some((negative, magnitude)) => Some(apply_sign(negative, magnitude)),
            None => None,
        }
    }
}

impl<'a> DecodeArgument<'a> for isize {
    open spec fn decodable(arg: Seq<u8>) -> bool {
        decode_int(arg, isize::MIN as int, isize::MAX as int) is Some
    }

    open spec fn decodes_to(arg: Seq<u8>, value: isize) -> bool {
        decode_int(arg, isize::MIN as int, isize::MAX as int) == Some(value as int)
    }

    fn decode_argument(arg: &'a [u8]) -> (r: Option<isize>) {
        match parse_signed(arg, (isize::MAX as u128) + 1, isize::MAX as u128) {
            Some((negative, magnitude)) => Some(apply_sign(negative, magnitude) as isize),
            None => None,
        }
    }
}

impl<'a> DecodeArgument<'a> for ClientID<'a> {
    open spec fn decodable(arg: Seq<u8>) -> bool {
        is_client_id(arg)
    }

    open spec fn decodes_to(arg: Seq<u8>, value: ClientID<'a>) -> bool {
        value.bytes() == arg
    }

    fn decode_argument(arg: &'a [u8]) -> (r: Option<ClientID<'a>>) {
        proof {
            if is_client_id(arg@) {
                lemma_ascii_is_utf8(arg@);
            }
        }
        match str_from_utf8(arg) {
            Some(s) => ClientID::parse(s),
            None => None,
        }
    }
}

impl<'a> DecodeArgument<'a> for Identifier<'a> {
    open spec fn decodable(arg: Seq<u8>) -> bool {
        is_identifier(arg)
    }

    open spec fn decodes_to(arg: Seq<u8>, value: Identifier<'a>) -> bool {
        value.bytes() == arg
    }

    fn decode_argument(arg: &'a [u8]) -> (r: Option<Identifier<'a>>) {
        proof {
            if is_identifier(arg@) {
                lemma_ascii_is_utf8(arg@);
            }
        }
        match str_from_utf8(arg) {
            Some(s) => Identifier::parse(s),
            None => None,
        }
    }
}

impl<'a> DecodeArgument<'a> for ModuleIdentifier<'a> {
    open spec fn decodable(arg: Seq<u8>) -> bool {
        split_module_identifier(arg) is Some
    }

    open spec fn decodes_to(arg: Seq<u8>, value: ModuleIdentifier<'a>) -> bool {
        value.bytes() == arg
    }

    fn decode_argument(arg: &'a [u8]) -> (r: Option<ModuleIdentifier<'a>>) {
        proof {
            if split_module_identifier(arg@) is Some {
                lemma_grammar_is_ascii(arg@);
                lemma_ascii_is_utf8(arg@);
            }
        }
        match str_from_utf8(arg) {
            Some(s) => ModuleIdentifier::parse(s),
            None => None,
        }
    }
}

impl<'a> DecodeArgument<'a> for ModuleVersion<'a> {
    open spec fn decodable(arg: Seq<u8>) -> bool {
        split_module_version(arg) is Some
    }

    open spec fn decodes_to(arg: Seq<u8>, value: ModuleVersion<'a>) -> bool {
        value.bytes() == arg
    }

    fn decode_argument(arg: &'a [u8]) -> (r: Option<ModuleVersion<'a>>) {
        proof {
            if split_module_version(arg@) is Some {
                lemma_grammar_is_ascii(arg@);
                lemma_ascii_is_utf8(arg@);
            }
        }
        match str_from_utf8(arg) {
            Some(s) => ModuleVersion::parse(s),
            None => None,
        }
    }
}

impl<'a> DecodeArgument<'a> for ScopedIdentifier<'a> {
    open spec fn decodable(arg: Seq<u8>) -> bool {
        split_scoped_identifier(arg) is Some
    }

    open spec fn decodes_to(arg: Seq<u8>, value: ScopedIdentifier<'a>) -> bool {
        value.bytes() == arg
    }

    fn decode_argument(arg: &'a [u8]) -> (r: Option<ScopedIdentifier<'a>>) {
        proof {
            if split_scoped_identifier(arg@) is Some {
                lemma_grammar_is_ascii(arg@);
                lemma_ascii_is_utf8(arg@);
            }
        }
        match str_from_utf8(arg) {
            Some(s) => ScopedIdentifier::parse(s),
            None => None,
        }
    }
}

impl<'a> DecodeArgument<'a> for MessageType<'a> {
    open spec fn decodable(arg: Seq<u8>) -> bool {
        is_message_type(arg)
    }

    open spec fn decodes_to(arg: Seq<u8>, value: MessageType<'a>) -> bool {
        value.bytes() == arg
    }

    fn decode_argument(arg: &'a [u8]) -> (r: Option<MessageType<'a>>) {
        proof {
            if is_message_type(arg@) {
                lemma_grammar_is_ascii(arg@);
                lemma_ascii_is_utf8(arg@);
            }
        }
        match str_from_utf8(arg) {
            Some(s) => MessageType::parse(s),
            None => None,
        }
    }
}

////////////////////////////////////////////////////////////////////////////////
// decoding inverts encoding

/// Decoding the encoding of a boolean gives the boolean, and nothing else
/// decodes to it.
pub proof fn lemma_round_trip_bool(x: bool, arg: Seq<u8>)
    ensures
        <bool as DecodeArgument>::decodable(x.wire()),
        <bool as DecodeArgument>::decodes_to(x.wire(), x),
        <bool as DecodeArgument>::decodes_to(arg, x) ==> arg == x.wire(),
{
}

/// Decoding the encoding of a byte string gives the byte string.
pub proof fn lemma_round_trip_bytes(x: &[u8])
    ensures
        <&[u8] as DecodeArgument>::decodable(x.wire()),
        <&[u8] as DecodeArgument>::decodes_to(x.wire(), x),
{
}

/// Decoding the encoding of a string gives the string.
pub proof fn lemma_round_trip_str(x: &str)
    ensures
        <&str as DecodeArgument>::decodable(x.wire()),
        <&str as DecodeArgument>::decodes_to(x.wire(), x),
{
    vstd::utf8::encode_utf8_valid_utf8(x@);
}

/// Decoding the encoding of an optional string gives it back, provided the
/// string is not empty: the empty string and the absent one share an
/// encoding, which decodes as absent.
pub proof fn lemma_round_trip_option_str(x: Option<&str>)
    requires
        x is Some ==> x->0.spec_bytes().len() > 0,
    ensures
        <Option<&str> as DecodeArgument>::decodable(x.wire()),
        <Option<&str> as DecodeArgument>::decodes_to(x.wire(), x),
{
    if x is Some {
        vstd::utf8::encode_utf8_valid_utf8(x->0@);
    }
}

/// Decoding the encoding of an `u8` gives the number, and nothing but its
/// encoding decodes to it.
pub proof fn lemma_round_trip_u8(x: u8, arg: Seq<u8>)
    ensures
        <u8 as DecodeArgument>::decodable(x.wire()),
        <u8 as DecodeArgument>::decodes_to(x.wire(), x),
        <u8 as DecodeArgument>::decodes_to(arg, x) ==> arg == x.wire(),
{
    lemma_int_wire_round_trip(x as int, u8::MIN as int, u8::MAX as int);
    if <u8 as DecodeArgument>::decodes_to(arg, x) {
        lemma_decode_int_is_canonical(arg, u8::MIN as int, u8::MAX as int);
    }
}

/// Decoding the encoding of an `u16` gives the number, and nothing but its
/// encoding decodes to it.
pub proof fn lemma_round_trip_u16(x: u16, arg: Seq<u8>)
    ensures
        <u16 as DecodeArgument>::decodable(x.wire()),
        <u16 as DecodeArgument>::decodes_to(x.wire(), x),
        <u16 as DecodeArgument>::decodes_to(arg, x) ==> arg == x.wire(),
{
    lemma_int_wire_round_trip(x as int, u16::MIN as int, u16::MAX as int);
    if <u16 as DecodeArgument>::decodes_to(arg, x) {
        lemma_decode_int_is_canonical(arg, u16::MIN as int, u16::MAX as int);
    }
}

/// Decoding the encoding of an `u32` gives the number, and nothing but its
/// encoding decodes to it.
pub proof fn lemma_round_trip_u32(x: u32, arg: Seq<u8>)
    ensures
        <u32 as DecodeArgument>::decodable(x.wire()),
        <u32 as DecodeArgument>::decodes_to(x.wire(), x),
        <u32 as DecodeArgument>::decodes_to(arg, x) ==> arg == x.wire(),
{
    lemma_int_wire_round_trip(x as int, u32::MIN as int, u32::MAX as int);
    if <u32 as DecodeArgument>::decodes_to(arg, x) {
        lemma_decode_int_is_canonical(arg, u32::MIN as int, u32::MAX as int);
    }
}

/// Decoding the encoding of an `u64` gives the number, and nothing but its
/// encoding decodes to it.
pub proof fn lemma_round_trip_u64(x: u64, arg: Seq<u8>)
    ensures
        <u64 as DecodeArgument>::decodable(x.wire()),
        <u64 as DecodeArgument>::decodes_to(x.wire(), x),
        <u64 as DecodeArgument>::decodes_to(arg, x) ==> arg == x.wire(),
{
    lemma_int_wire_round_trip(x as int, u64::MIN as int, u64::MAX as int);
    if <u64 as DecodeArgument>::decodes_to(arg, x) {
        lemma_decode_int_is_canonical(arg, u64::MIN as int, u64::MAX as int);
    }
}

/// Decoding the encoding of an `u128` gives the number, and nothing but its
/// encoding decodes to it.
pub proof fn lemma_round_trip_u128(x: u128, arg: Seq<u8>)
    ensures
        <u128 as DecodeArgument>::decodable(x.wire()),
        <u128 as DecodeArgument>::decodes_to(x.wire(), x),
        <u128 as DecodeArgument>::decodes_to(arg, x) ==> arg == x.wire(),
{
    lemma_int_wire_round_trip(x as int, u128::MIN as int, u128::MAX as int);
    if <u128 as DecodeArgument>::decodes_to(arg, x) {
        lemma_decode_int_is_canonical(arg, u128::MIN as int, u128::MAX as int);
    }
}

/// Decoding the encoding of an `usize` gives the number, and nothing but its
/// encoding decodes to it.
pub proof fn lemma_round_trip_usize(x: usize, arg: Seq<u8>)
    ensures
        <usize as DecodeArgument>::decodable(x.wire()),
        <usize as DecodeArgument>::decodes_to(x.wire(), x),
        <usize as DecodeArgument>::decodes_to(arg, x) ==> arg == x.wire(),
{
    lemma_int_wire_round_trip(x as int, usize::MIN as int, usize::MAX as int);
    if <usize as DecodeArgument>::decodes_to(arg, x) {
        lemma_decode_int_is_canonical(arg, usize::MIN as int, usize::MAX as int);
    }
}

/// Decoding the encoding of an `i8` gives the number, and nothing but its
/// encoding decodes to it.
pub proof fn lemma_round_trip_i8(x: i8, arg: Seq<u8>)
    ensures
        <i8 as DecodeArgument>::decodable(x.wire()),
        <i8 as DecodeArgument>::decodes_to(x.wire(), x),
        <i8 as DecodeArgument>::decodes_to(arg, x) ==> arg == x.wire(),
{
    lemma_int_wire_round_trip(x as int, i8::MIN as int, i8::MAX as int);
    if <i8 as DecodeArgument>::decodes_to(arg, x) {
        lemma_decode_int_is_canonical(arg, i8::MIN as int, i8::MAX as int);
    }
}

/// Decoding the encoding of an `i16` gives the number, and nothing but its
/// encoding decodes to it.
pub proof fn lemma_round_trip_i16(x: i16, arg: Seq<u8>)
    ensures
        <i16 as DecodeArgument>::decodable(x.wire()),
        <i16 as DecodeArgument>::decodes_to(x.wire(), x),
        <i16 as DecodeArgument>::decodes_to(arg, x) ==> arg == x.wire(),
{
    lemma_int_wire_round_trip(x as int, i16::MIN as int, i16::MAX as int);
    if <i16 as DecodeArgument>::decodes_to(arg, x) {
        lemma_decode_int_is_canonical(arg, i16::MIN as int, i16::MAX as int);
    }
}

/// Decoding the encoding of an `i32` gives the number, and nothing but its
/// encoding decodes to it.
pub proof fn lemma_round_trip_i32(x: i32, arg: Seq<u8>)
    ensures
        <i32 as DecodeArgument>::decodable(x.wire()),
        <i32 as DecodeArgument>::decodes_to(x.wire(), x),
        <i32 as DecodeArgument>::decodes_to(arg, x) ==> arg == x.wire(),
{
    lemma_int_wire_round_trip(x as int, i32::MIN as int, i32::MAX as int);
    if <i32 as DecodeArgument>::decodes_to(arg, x) {
        lemma_decode_int_is_canonical(arg, i32::MIN as int, i32::MAX as int);
    }
}

/// Decoding the encoding of an `i64` gives the number, and nothing but its
/// encoding decodes to it.
pub proof fn lemma_round_trip_i64(x: i64, arg: Seq<u8>)
    ensures
        <i64 as DecodeArgument>::decodable(x.wire()),
        <i64 as DecodeArgument>::decodes_to(x.wire(), x),
        <i64 as DecodeArgument>::decodes_to(arg, x) ==> arg == x.wire(),
{
    lemma_int_wire_round_trip(x as int, i64::MIN as int, i64::MAX as int);
    if <i64 as DecodeArgument>::decodes_to(arg, x) {
        lemma_decode_int_is_canonical(arg, i64::MIN as int, i64::MAX as int);
    }
}

/// Decoding the encoding of an `i128` gives the number, and nothing but its
/// encoding decodes to it.
pub proof fn lemma_round_trip_i128(x: i128, arg: Seq<u8>)
    ensures
        <i128 as DecodeArgument>::decodable(x.wire()),
        <i128 as DecodeArgument>::decodes_to(x.wire(), x),
        <i128 as DecodeArgument>::decodes_to(arg, x) ==> arg == x.wire(),
{
    lemma_int_wire_round_trip(x as int, i128::MIN as int, i128::MAX as int);
    if <i128 as DecodeArgument>::decodes_to(arg, x) {
        lemma_decode_int_is_canonical(arg, i128::MIN as int, i128::MAX as int);
    }
}

/// Decoding the encoding of an `isize` gives the number, and nothing but its
/// encoding decodes to it.
pub proof fn lemma_round_trip_isize(x: isize, arg: Seq<u8>)
    ensures
        <isize as DecodeArgument>::decodable(x.wire()),
        <isize as DecodeArgument>::decodes_to(x.wire(), x),
        <isize as DecodeArgument>::decodes_to(arg, x) ==> arg == x.wire(),
{
    lemma_int_wire_round_trip(x as int, isize::MIN as int, isize::MAX as int);
    if <isize as DecodeArgument>::decodes_to(arg, x) {
        lemma_decode_int_is_canonical(arg, isize::MIN as int, isize::MAX as int);
    }
}

} // verus!
