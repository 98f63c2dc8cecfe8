//! Tests for the value model: accessors, lookup, and equality.

use gbln::parse;
use gbln::Value;

#[test]
fn t_type_checks() {
    assert!(Value::I8(1).is_i8());
    assert!(!Value::I16(1).is_i8());
    assert!(Value::U32(1).is_u32());
    assert!(Value::Str("x".to_string()).is_string());
    assert!(Value::Bool(true).is_bool());
    assert!(Value::Object(Vec::new()).is_object());
    assert!(Value::Array(Vec::new()).is_array());
    assert!(!Value::Null.is_object());
}

#[test]
fn t_accessors() {
    assert_eq!(Value::U32(7).as_u32(), Some(7));
    assert_eq!(Value::I32(-7).as_i32(), Some(-7));
    assert_eq!(Value::I32(-7).as_u32(), None);
    assert_eq!(Value::Str("hey".to_string()).as_str(), Some("hey"));
    assert_eq!(Value::Bool(false).as_bool(), Some(false));
    assert!(Value::Null.as_str().is_none());

    let v = parse("user{age<i8>(25)}").unwrap();
    assert!(v.as_object().is_some());
    assert!(v.as_array().is_none());

    let a = parse("[<i8>(1)]").unwrap();
    let items = a.as_array().unwrap();
    assert_eq!(items.len(), 1);
}

#[test]
fn t_get_looks_up_fields() {
    let v = parse("user{age<i8>(25)name<s8>(Ann)}").unwrap();
    let user = v.get("user").unwrap();
    assert_eq!(user.get("age"), Some(&Value::I8(25)));
    assert_eq!(user.get("name"), Some(&Value::Str("Ann".to_string())));
    assert_eq!(user.get("missing"), None);
    assert_eq!(Value::Null.get("anything"), None);
}

#[test]
fn t_equality_is_structural() {
    assert_eq!(Value::I8(5), Value::I8(5));
    assert_ne!(Value::I8(5), Value::I8(6));
    assert_ne!(Value::I8(5), Value::I16(5));
    assert_eq!(
        Value::F64("1.5".to_string()),
        Value::F64("1.5".to_string())
    );
    // float values compare by their literal text
    assert_ne!(
        Value::F64("1.5".to_string()),
        Value::F64("1.50".to_string())
    );

    let a = parse("user{age<i8>(25)name<s8>(Ann)}").unwrap();
    let b = parse("user{name<s8>(Ann)age<i8>(25)}").unwrap();
    // field order in the source is not significant
    assert_eq!(a, b);

    let c = parse("user{age<i8>(26)name<s8>(Ann)}").unwrap();
    assert_ne!(a, c);
}
