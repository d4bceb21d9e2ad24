use noggin::from_header_value::{trim, FromHeaderValue};
use noggin::value::{convert_list, convert_value, TypeTag, Value};

#[test]
fn bool_values() {
    assert_eq!(bool::parse_header_value(b"true"), Some(true));
    assert_eq!(bool::parse_header_value(b"false"), Some(false));
    assert_eq!(bool::parse_header_value(b" true "), Some(true));
    assert_eq!(bool::parse_header_value(b"falsey"), None);
}

#[test]
fn u8_values() {
    assert_eq!(u8::parse_header_value(b"42"), Some(42));
    assert_eq!(u8::parse_header_value(b"255"), Some(255));
    assert_eq!(u8::parse_header_value(b"-1"), None);
    assert_eq!(u8::parse_header_value(b"256"), None);
}

#[test]
fn u16_values() {
    assert_eq!(u16::parse_header_value(b"42"), Some(42));
    assert_eq!(u16::parse_header_value(b"65536"), None);
    assert_eq!(u16::parse_header_value(b"-1"), None);
}

#[test]
fn u32_values() {
    assert_eq!(u32::parse_header_value(b"42"), Some(42));
    assert_eq!(u32::parse_header_value(b"+42"), Some(42));
    assert_eq!(u32::parse_header_value(b"4294967296"), None);
    assert_eq!(u32::parse_header_value(b"-1"), None);
}

#[test]
fn u64_values() {
    assert_eq!(u64::parse_header_value(b"42"), Some(42));
    assert_eq!(u64::parse_header_value(b"18446744073709551615"), Some(u64::MAX));
    assert_eq!(u64::parse_header_value(b"18446744073709551616"), None);
}

#[test]
fn u128_values() {
    assert_eq!(u128::parse_header_value(b"42"), Some(42));
    assert_eq!(
        u128::parse_header_value(b"340282366920938463463374607431768211455"),
        Some(u128::MAX)
    );
    assert_eq!(
        u128::parse_header_value(b"340282366920938463463374607431768211456"),
        None
    );
}

#[test]
fn usize_values() {
    assert_eq!(usize::parse_header_value(b"42"), Some(42));
    assert_eq!(usize::parse_header_value(b" 7 "), Some(7));
    assert_eq!(usize::parse_header_value(b"idk"), None);
    assert_eq!(usize::parse_header_value(b""), None);
}

#[test]
fn i8_values() {
    assert_eq!(i8::parse_header_value(b"42"), Some(42));
    assert_eq!(i8::parse_header_value(b"-42"), Some(-42));
    assert_eq!(i8::parse_header_value(b"-128"), Some(i8::MIN));
    assert_eq!(i8::parse_header_value(b"128"), None);
    assert_eq!(i8::parse_header_value(b"idk"), None);
}

#[test]
fn i16_values() {
    assert_eq!(i16::parse_header_value(b"42"), Some(42));
    assert_eq!(i16::parse_header_value(b"-42"), Some(-42));
    assert_eq!(i16::parse_header_value(b"idk"), None);
}

#[test]
fn i32_values() {
    assert_eq!(i32::parse_header_value(b"42"), Some(42));
    assert_eq!(i32::parse_header_value(b"-2147483648"), Some(i32::MIN));
    assert_eq!(i32::parse_header_value(b"-2147483649"), None);
}

#[test]
fn i64_values() {
    assert_eq!(i64::parse_header_value(b"42"), Some(42));
    assert_eq!(i64::parse_header_value(b"-42"), Some(-42));
    assert_eq!(i64::parse_header_value(b"idk"), None);
}

#[test]
fn i128_values() {
    assert_eq!(i128::parse_header_value(b"42"), Some(42));
    assert_eq!(
        i128::parse_header_value(b"-170141183460469231731687303715884105728"),
        Some(i128::MIN)
    );
    assert_eq!(
        i128::parse_header_value(b"170141183460469231731687303715884105728"),
        None
    );
}

#[test]
fn isize_values() {
    assert_eq!(isize::parse_header_value(b"42"), Some(42));
    assert_eq!(isize::parse_header_value(b"-42"), Some(-42));
    assert_eq!(isize::parse_header_value(b"idk"), None);
}

#[test]
fn sign_edge_cases() {
    assert_eq!(i8::parse_header_value(b"-0"), Some(0));
    assert_eq!(i8::parse_header_value(b"-"), None);
    assert_eq!(i8::parse_header_value(b"+"), None);
    assert_eq!(i8::parse_header_value(b"-+5"), None);
    assert_eq!(u8::parse_header_value(b"4 2"), None);
}

#[test]
fn trim_strips_spaces_only() {
    assert_eq!(trim(b" hello "), b"hello");
    assert_eq!(trim(b"hello"), b"hello");
    assert_eq!(trim(b"   "), b"");
    assert_eq!(trim(b" \thi\t "), b"\thi\t");
}

#[test]
fn str_conversion_trims() {
    assert_eq!(
        convert_value(TypeTag::Str, b" hello "),
        Some(Value::Str(b"hello".to_vec()))
    );
    assert_eq!(
        convert_value(TypeTag::Str, b"hello"),
        Some(Value::Str(b"hello".to_vec()))
    );
}

#[test]
fn bytes_conversion_trims_spaces() {
    assert_eq!(
        convert_value(TypeTag::Bytes, b" hello "),
        Some(Value::Bytes(b"hello".to_vec()))
    );
    assert_eq!(
        convert_value(TypeTag::Bytes, b"hello"),
        Some(Value::Bytes(b"hello".to_vec()))
    );
}

#[test]
fn list_conversion_splits_on_commas() {
    assert_eq!(
        convert_list(TypeTag::U8, b"1"),
        Some(vec![Value::U8(1)])
    );
    assert_eq!(
        convert_list(TypeTag::U8, b"1, 2"),
        Some(vec![Value::U8(1), Value::U8(2)])
    );
    assert_eq!(
        convert_list(TypeTag::U8, b"1, 2, 3"),
        Some(vec![Value::U8(1), Value::U8(2), Value::U8(3)])
    );
    assert_eq!(convert_list(TypeTag::U8, b"idk"), None);
    assert_eq!(convert_list(TypeTag::U8, b"1,,2"), None);
}

#[test]
fn empty_list_value_fails_for_numbers() {
    assert_eq!(convert_list(TypeTag::U8, b""), None);
    assert_eq!(
        convert_list(TypeTag::Str, b""),
        Some(vec![Value::Str(Vec::new())])
    );
}
