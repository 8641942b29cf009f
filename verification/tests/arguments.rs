use vt6::common::foundation::DecodeArgument;
use vt6::common::foundation::EncodeArgument;

#[test]
fn test_decode_bool() {
    assert_eq!(bool::decode_argument(b"t"), Some(true));
    assert_eq!(bool::decode_argument(b"f"), Some(false));
    assert_eq!(bool::decode_argument(b"unknown"), None);
    assert_eq!(bool::decode_argument(b"1"), None);
    assert_eq!(bool::decode_argument(b"0"), None);
    assert_eq!(bool::decode_argument(b"true"), None);
    assert_eq!(bool::decode_argument(b"false"), None);
}

#[test]
fn test_decode_u8_fails() {
    let invalid_inputs: Vec<&'static [u8]> = vec![
        b"",
        b"unknown",
        b"\xC0\xB1", //UTF-8 overlong encoding of "1"
        b" 42",      //whitespace in front
        b"042",      //zeroes in front
        b"0042",     //more zeroes in front
    ];

    for input in invalid_inputs {
        assert_eq!(None, i8::decode_argument(input));
        assert_eq!(None, u8::decode_argument(input));
        assert_eq!(None, i16::decode_argument(input));
        assert_eq!(None, u16::decode_argument(input));
        assert_eq!(None, i32::decode_argument(input));
        assert_eq!(None, u32::decode_argument(input));
        assert_eq!(None, i64::decode_argument(input));
        assert_eq!(None, u64::decode_argument(input));
        assert_eq!(None, i128::decode_argument(input));
        assert_eq!(None, u128::decode_argument(input));
        assert_eq!(None, isize::decode_argument(input));
        assert_eq!(None, usize::decode_argument(input));
    }
}

fn encoded<T: EncodeArgument + ?Sized>(val: &T) -> Vec<u8> {
    let size = val.get_size();
    let mut buf = vec![0u8; size];
    val.encode(&mut buf);
    buf
}

#[test]
fn test_encode_strings() {
    assert_eq!(encoded("abc"), "abc".as_bytes());
    assert_eq!(
        encoded("vt\u{1F4AF}=\u{1F4A9}"),
        "vt\u{1F4AF}=\u{1F4A9}".as_bytes()
    );

    let val = b"abc = \xAA\xBB\xCC or something!";
    let mut buf = vec![0u8; val[..].get_size()];
    val[..].encode(&mut buf);
    assert_eq!(buf, val);
}

#[test]
fn test_encode_bool() {
    let val = true;
    let mut buf = vec![0u8; val.get_size()];
    val.encode(&mut buf);
    assert_eq!(buf, b"t");

    let val = false;
    let mut buf = vec![0u8; val.get_size()];
    val.encode(&mut buf);
    assert_eq!(buf, b"f");
}

fn check_encodes_like_display<T: EncodeArgument + std::fmt::Display + ?Sized>(val: &T) {
    let size = val.get_size();
    let mut buf = vec![0u8; size];
    val.encode(&mut buf);
    assert_eq!(std::str::from_utf8(&buf).unwrap(), format!("{}", val));
}

fn check_encodes_like_display_and_decodes<
    T: EncodeArgument + for<'a> DecodeArgument<'a> + std::fmt::Display + std::fmt::Debug + Eq,
>(
    val: &T,
) {
    check_encodes_like_display(val);

    let size = val.get_size();
    let mut buf = vec![0u8; size];
    val.encode(&mut buf);

    assert_eq!(Some(val), T::decode_argument(&buf).as_ref());
}

#[test]
fn test_encode_unsigned() {
    check_encodes_like_display_and_decodes(&0u8);
    check_encodes_like_display_and_decodes(&42u8);
    check_encodes_like_display_and_decodes(&(u8::max_value() - 1));
    check_encodes_like_display_and_decodes(&(u8::max_value()));

    check_encodes_like_display_and_decodes(&0u16);
    check_encodes_like_display_and_decodes(&42u16);
    check_encodes_like_display_and_decodes(&(u16::max_value() - 1));
    check_encodes_like_display_and_decodes(&(u16::max_value()));

    check_encodes_like_display_and_decodes(&0u32);
    check_encodes_like_display_and_decodes(&42u32);
    check_encodes_like_display_and_decodes(&(u32::max_value() - 1));
    check_encodes_like_display_and_decodes(&(u32::max_value()));

    check_encodes_like_display_and_decodes(&0u64);
    check_encodes_like_display_and_decodes(&42u64);
    check_encodes_like_display_and_decodes(&(u64::max_value() - 1));
    check_encodes_like_display_and_decodes(&(u64::max_value()));

    check_encodes_like_display_and_decodes(&0u128);
    check_encodes_like_display_and_decodes(&42u128);
    check_encodes_like_display_and_decodes(&(u128::max_value() - 1));
    check_encodes_like_display_and_decodes(&(u128::max_value()));

    check_encodes_like_display_and_decodes(&0usize);
    check_encodes_like_display_and_decodes(&42usize);
    check_encodes_like_display_and_decodes(&(usize::max_value() - 1));
    check_encodes_like_display_and_decodes(&(usize::max_value()));
}

#[test]
fn test_encode_signed() {
    check_encodes_like_display_and_decodes(&0i8);
    check_encodes_like_display_and_decodes(&-1i8);
    check_encodes_like_display_and_decodes(&42i8);
    check_encodes_like_display_and_decodes(&-42i8);
    check_encodes_like_display_and_decodes(&(i8::min_value()));
    check_encodes_like_display_and_decodes(&(i8::min_value() + 1));
    check_encodes_like_display_and_decodes(&(i8::max_value() - 1));
    check_encodes_like_display_and_decodes(&(i8::max_value()));

    check_encodes_like_display_and_decodes(&0i16);
    check_encodes_like_display_and_decodes(&-1i16);
    check_encodes_like_display_and_decodes(&42i16);
    check_encodes_like_display_and_decodes(&-42i16);
    check_encodes_like_display_and_decodes(&(i16::min_value()));
    check_encodes_like_display_and_decodes(&(i16::min_value() + 1));
    check_encodes_like_display_and_decodes(&(i16::max_value() - 1));
    check_encodes_like_display_and_decodes(&(i16::max_value()));

    check_encodes_like_display_and_decodes(&0i32);
    check_encodes_like_display_and_decodes(&-1i32);
    check_encodes_like_display_and_decodes(&42i32);
    check_encodes_like_display_and_decodes(&-42i32);
    check_encodes_like_display_and_decodes(&(i32::min_value()));
    check_encodes_like_display_and_decodes(&(i32::min_value() + 1));
    check_encodes_like_display_and_decodes(&(i32::max_value() - 1));
    check_encodes_like_display_and_decodes(&(i32::max_value()));

    check_encodes_like_display_and_decodes(&0i64);
    check_encodes_like_display_and_decodes(&-1i64);
    check_encodes_like_display_and_decodes(&42i64);
    check_encodes_like_display_and_decodes(&-42i64);
    check_encodes_like_display_and_decodes(&(i64::min_value()));
    check_encodes_like_display_and_decodes(&(i64::min_value() + 1));
    check_encodes_like_display_and_decodes(&(i64::max_value() - 1));
    check_encodes_like_display_and_decodes(&(i64::max_value()));

    check_encodes_like_display_and_decodes(&0i128);
    check_encodes_like_display_and_decodes(&-1i128);
    check_encodes_like_display_and_decodes(&42i128);
    check_encodes_like_display_and_decodes(&-42i128);
    check_encodes_like_display_and_decodes(&(i128::min_value()));
    check_encodes_like_display_and_decodes(&(i128::min_value() + 1));
    check_encodes_like_display_and_decodes(&(i128::max_value() - 1));
    check_encodes_like_display_and_decodes(&(i128::max_value()));

    check_encodes_like_display_and_decodes(&0isize);
    check_encodes_like_display_and_decodes(&-1isize);
    check_encodes_like_display_and_decodes(&42isize);
    check_encodes_like_display_and_decodes(&-42isize);
    check_encodes_like_display_and_decodes(&(isize::min_value()));
    check_encodes_like_display_and_decodes(&(isize::min_value() + 1));
    check_encodes_like_display_and_decodes(&(isize::max_value() - 1));
    check_encodes_like_display_and_decodes(&(isize::max_value()));
}

#[test]
fn decoders_accept_the_canonical_form_only() {
    assert_eq!(i8::decode_argument(b"-128"), Some(-128));
    assert_eq!(i8::decode_argument(b"-129"), None);
    assert_eq!(i8::decode_argument(b"128"), None);
    assert_eq!(i8::decode_argument(b"-0"), None);
    assert_eq!(i8::decode_argument(b"+1"), None);
    assert_eq!(i8::decode_argument(b"-01"), None);
    assert_eq!(i8::decode_argument(b"-"), None);
    assert_eq!(u8::decode_argument(b"-1"), None);
    assert_eq!(u8::decode_argument(b"255"), Some(255));
    assert_eq!(u8::decode_argument(b"256"), None);
    assert_eq!(u16::decode_argument(b"65535"), Some(65535));
    assert_eq!(u16::decode_argument(b"65536"), None);
    assert_eq!(
        u128::decode_argument(b"340282366920938463463374607431768211455"),
        Some(u128::MAX)
    );
    assert_eq!(
        u128::decode_argument(b"340282366920938463463374607431768211456"),
        None
    );
    assert_eq!(
        i128::decode_argument(b"-170141183460469231731687303715884105728"),
        Some(i128::MIN)
    );
    assert_eq!(
        i128::decode_argument(b"-170141183460469231731687303715884105729"),
        None
    );
}

#[test]
fn optional_values_are_absent_when_empty() {
    assert_eq!(Option::<&str>::decode_argument(b""), Some(None));
    assert_eq!(Option::<&str>::decode_argument(b"abc"), Some(Some("abc")));
    assert_eq!(Option::<&str>::decode_argument(b"\xC0\xB1"), None);
    assert_eq!(Option::<u8>::decode_argument(b""), Some(None));
    assert_eq!(Option::<u8>::decode_argument(b"7"), Some(Some(7)));
    assert_eq!(Option::<u8>::decode_argument(b"07"), None);
    let absent: Option<&str> = None;
    assert_eq!(absent.get_size(), 0);
    assert_eq!(Some("abc").get_size(), 3);
    assert_eq!(Some("abc").encode_to_vector(), b"abc");
    assert_eq!(<&str>::decode_argument(b"abc"), Some("abc"));
    assert_eq!(<&[u8]>::decode_argument(b"\xA0"), Some(&b"\xA0"[..]));
}
