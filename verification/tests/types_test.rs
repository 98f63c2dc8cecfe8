//! Integration tests for the GBLN type system

use gbln::TypeHint;

#[test]
fn t_parse_integer_types() {
    assert_eq!(TypeHint::from_str("i8").unwrap(), TypeHint::I8);
    assert_eq!(TypeHint::from_str("i16").unwrap(), TypeHint::I16);
    assert_eq!(TypeHint::from_str("i32").unwrap(), TypeHint::I32);
    assert_eq!(TypeHint::from_str("i64").unwrap(), TypeHint::I64);
    assert_eq!(TypeHint::from_str("u8").unwrap(), TypeHint::U8);
    assert_eq!(TypeHint::from_str("u16").unwrap(), TypeHint::U16);
    assert_eq!(TypeHint::from_str("u32").unwrap(), TypeHint::U32);
    assert_eq!(TypeHint::from_str("u64").unwrap(), TypeHint::U64);
}

#[test]
fn t_parse_float_types() {
    assert_eq!(TypeHint::from_str("f32").unwrap(), TypeHint::F32);
    assert_eq!(TypeHint::from_str("f64").unwrap(), TypeHint::F64);
}

#[test]
fn t_parse_string_types() {
    assert_eq!(TypeHint::from_str("s2").unwrap(), TypeHint::Str(2));
    assert_eq!(TypeHint::from_str("s4").unwrap(), TypeHint::Str(4));
    assert_eq!(TypeHint::from_str("s8").unwrap(), TypeHint::Str(8));
    assert_eq!(TypeHint::from_str("s16").unwrap(), TypeHint::Str(16));
    assert_eq!(TypeHint::from_str("s32").unwrap(), TypeHint::Str(32));
    assert_eq!(TypeHint::from_str("s64").unwrap(), TypeHint::Str(64));
    assert_eq!(TypeHint::from_str("s128").unwrap(), TypeHint::Str(128));
    assert_eq!(TypeHint::from_str("s256").unwrap(), TypeHint::Str(256));
    assert_eq!(TypeHint::from_str("s512").unwrap(), TypeHint::Str(512));
    assert_eq!(TypeHint::from_str("s1024").unwrap(), TypeHint::Str(1024));
}

#[test]
fn t_parse_bool_type() {
    assert_eq!(TypeHint::from_str("b").unwrap(), TypeHint::Bool);
}

#[test]
fn t_parse_null_type() {
    assert_eq!(TypeHint::from_str("n").unwrap(), TypeHint::Null);
}

#[test]
fn t_invalid_type_unknown() {
    assert!(TypeHint::from_str("unknown").is_err());
    assert!(TypeHint::from_str("x32").is_err());
}

#[test]
fn t_invalid_type_incomplete() {
    assert!(TypeHint::from_str("s").is_err());
    assert!(TypeHint::from_str("i").is_err());
}

#[test]
fn t_invalid_type_non_numeric() {
    assert!(TypeHint::from_str("sabc").is_err());
    assert!(TypeHint::from_str("s12abc").is_err());
}

#[test]
fn t_type_to_string() {
    assert_eq!(TypeHint::I8.as_str(), "i8");
    assert_eq!(TypeHint::U32.as_str(), "u32");
    assert_eq!(TypeHint::F64.as_str(), "f64");
    assert_eq!(TypeHint::Str(64).as_str(), "s64");
    assert_eq!(TypeHint::Bool.as_str(), "b");
    assert_eq!(TypeHint::Null.as_str(), "n");
}

#[test]
fn t_roundtrip_conversion() {
    let types = vec!["i8", "u32", "f64", "s128", "b", "n"];

    for type_str in types {
        let hint = TypeHint::from_str(type_str).unwrap();
        assert_eq!(hint.as_str(), type_str);
    }
}

#[test]
fn t_parse_value_integer_ranges() {
    assert_eq!(
        TypeHint::I8.parse_value("120").unwrap(),
        gbln::Value::I8(120)
    );
    assert!(TypeHint::I8.parse_value("200").is_err());
    assert_eq!(
        TypeHint::I8.parse_value("-128").unwrap(),
        gbln::Value::I8(-128)
    );
    assert!(TypeHint::I8.parse_value("-129").is_err());
    assert_eq!(
        TypeHint::U8.parse_value("255").unwrap(),
        gbln::Value::U8(255)
    );
    assert!(TypeHint::U8.parse_value("256").is_err());
    assert!(TypeHint::U8.parse_value("-0").is_err());
    assert_eq!(
        TypeHint::I64
            .parse_value("-9223372036854775808")
            .unwrap(),
        gbln::Value::I64(i64::MIN)
    );
    assert_eq!(
        TypeHint::U64
            .parse_value("18446744073709551615")
            .unwrap(),
        gbln::Value::U64(u64::MAX)
    );
    assert!(TypeHint::U64.parse_value("18446744073709551616").is_err());
}

#[test]
fn t_parse_value_string_length() {
    assert_eq!(
        TypeHint::Str(4).parse_value("ABCD").unwrap(),
        gbln::Value::Str("ABCD".to_string())
    );
    assert!(TypeHint::Str(4).parse_value("TOOLONG").is_err());
    assert_eq!(
        TypeHint::Str(2).parse_value("").unwrap(),
        gbln::Value::Str(String::new())
    );
}

#[test]
fn t_parse_value_bool_and_null() {
    assert_eq!(
        TypeHint::Bool.parse_value("t").unwrap(),
        gbln::Value::Bool(true)
    );
    assert_eq!(
        TypeHint::Bool.parse_value("false").unwrap(),
        gbln::Value::Bool(false)
    );
    assert!(TypeHint::Bool.parse_value("yes").is_err());
    assert_eq!(TypeHint::Null.parse_value("").unwrap(), gbln::Value::Null);
    assert_eq!(
        TypeHint::Null.parse_value("null").unwrap(),
        gbln::Value::Null
    );
    assert!(TypeHint::Null.parse_value("nil").is_err());
}

#[test]
fn t_parse_value_floats_keep_text() {
    assert_eq!(
        TypeHint::F64.parse_value("19.99").unwrap(),
        gbln::Value::F64("19.99".to_string())
    );
    assert_eq!(
        TypeHint::F32.parse_value("-1.5e3").unwrap(),
        gbln::Value::F32("-1.5e3".to_string())
    );
    assert_eq!(
        TypeHint::F64.parse_value("inf").unwrap(),
        gbln::Value::F64("inf".to_string())
    );
    assert!(TypeHint::F64.parse_value("1.2.3").is_err());
    assert!(TypeHint::F64.parse_value("abc").is_err());
}

#[test]
fn t_error_messages_name_the_type_and_counts() {
    assert_eq!(
        TypeHint::I8.parse_value("200").unwrap_err(),
        "Cannot parse '200' as i8"
    );
    assert_eq!(
        TypeHint::F64.parse_value("abc").unwrap_err(),
        "Cannot parse 'abc' as f64"
    );
    assert_eq!(
        TypeHint::Str(4).parse_value("TOOLONG").unwrap_err(),
        "String too long: 7 characters (max 4)"
    );
    assert_eq!(
        TypeHint::Bool.parse_value("yes").unwrap_err(),
        "Invalid boolean value: 'yes' (expected t/f or true/false)"
    );
    assert_eq!(
        TypeHint::Null.parse_value("nil").unwrap_err(),
        "Invalid null value: 'nil' (expected empty or 'null')"
    );
    assert_eq!(
        TypeHint::from_str("unknown").unwrap_err(),
        "Unknown type hint: unknown"
    );
    assert_eq!(
        TypeHint::from_str("s12abc").unwrap_err(),
        "Invalid string type: s12abc"
    );
}
