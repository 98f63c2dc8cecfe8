//! Integration tests for the GBLN parser

use gbln::parser::parse;
use gbln::value::Value;

/// An object value from key/value pairs (field order is not significant
/// for equality; the parser stores fields sorted by key).
fn obj(pairs: Vec<(&str, Value)>) -> Value {
    let mut fields: Vec<(String, Value)> = Vec::new();
    for (k, v) in pairs {
        fields.push((k.to_string(), v));
    }
    fields.sort_by(|a, b| a.0.cmp(&b.0));
    Value::Object(fields)
}

#[test]
fn t_single_value_i32() {
    let input = "<i32>(42)";
    let result = parse(input).unwrap();
    assert_eq!(result, Value::I32(42));
}

#[test]
fn t_single_value_string() {
    let input = "<s32>(Hello World)";
    let result = parse(input).unwrap();
    assert_eq!(result, Value::Str("Hello World".to_string()));
}

#[test]
fn t_single_value_bool_true() {
    let input = "<b>(t)";
    let result = parse(input).unwrap();
    assert_eq!(result, Value::Bool(true));
}

#[test]
fn t_single_value_bool_false() {
    let input = "<b>(f)";
    let result = parse(input).unwrap();
    assert_eq!(result, Value::Bool(false));
}

#[test]
fn t_single_value_null() {
    let input = "<n>()";
    let result = parse(input).unwrap();
    assert_eq!(result, Value::Null);
}

#[test]
fn parser_test_t_simple_object() {
    let input = "user{name<s32>(Alice)age<i8>(25)}";
    let result = parse(input).unwrap();

    let expected_user = obj(vec![
        ("name", Value::Str("Alice".to_string())),
        ("age", Value::I8(25)),
    ]);
    let expected = obj(vec![("user", expected_user)]);

    assert_eq!(result, expected);
}

#[test]
fn t_simple_object_with_whitespace() {
    let input = "user{\n    name<s32>(Alice)\n    age<i8>(25)\n}";
    let result = parse(input).unwrap();

    let expected_user = obj(vec![
        ("name", Value::Str("Alice".to_string())),
        ("age", Value::I8(25)),
    ]);
    let expected = obj(vec![("user", expected_user)]);

    assert_eq!(result, expected);
}

#[test]
fn parser_test_t_nested_object() {
    let input = "user{profile{name<s32>(Alice)age<i8>(25)}}";
    let result = parse(input).unwrap();

    let profile = obj(vec![
        ("name", Value::Str("Alice".to_string())),
        ("age", Value::I8(25)),
    ]);
    let user = obj(vec![("profile", profile)]);
    let expected = obj(vec![("user", user)]);

    assert_eq!(result, expected);
}

#[test]
fn t_typed_array() {
    let input = "tags<s16>[rust python golang]";
    let result = parse(input).unwrap();

    let tags = vec![
        Value::Str("rust".to_string()),
        Value::Str("python".to_string()),
        Value::Str("golang".to_string()),
    ];
    let expected = obj(vec![("tags", Value::Array(tags))]);

    assert_eq!(result, expected);
}

#[test]
fn t_typed_array_integers() {
    let input = "numbers<i32>[1 2 3 42 100]";
    let result = parse(input).unwrap();

    let numbers = vec![
        Value::I32(1),
        Value::I32(2),
        Value::I32(3),
        Value::I32(42),
        Value::I32(100),
    ];
    let expected = obj(vec![("numbers", Value::Array(numbers))]);

    assert_eq!(result, expected);
}

#[test]
fn t_array_of_objects() {
    let input = "[{id<u32>(1)name<s32>(Alice)}{id<u32>(2)name<s32>(Bob)}]";
    let result = parse(input).unwrap();

    let obj1 = obj(vec![
        ("id", Value::U32(1)),
        ("name", Value::Str("Alice".to_string())),
    ]);
    let obj2 = obj(vec![
        ("id", Value::U32(2)),
        ("name", Value::Str("Bob".to_string())),
    ]);
    let expected = Value::Array(vec![obj1, obj2]);

    assert_eq!(result, expected);
}

#[test]
fn t_mixed_array() {
    let input = "[<i32>(1)<s16>(hello)<b>(t)]";
    let result = parse(input).unwrap();

    let expected = Value::Array(vec![
        Value::I32(1),
        Value::Str("hello".to_string()),
        Value::Bool(true),
    ]);

    assert_eq!(result, expected);
}

#[test]
fn t_nested_parentheses_in_value() {
    let input = "<s64>(f(x) = (x + 1) * (x - 1))";
    let result = parse(input).unwrap();
    assert_eq!(result, Value::Str("f(x) = (x + 1) * (x - 1)".to_string()));
}

#[test]
fn t_angle_brackets_in_value() {
    let input = "<s256>(<h1>Hello</h1>)";
    let result = parse(input).unwrap();
    assert_eq!(result, Value::Str("<h1>Hello</h1>".to_string()));
}

#[test]
fn t_complex_nested_structure() {
    let input = r#"
        company{
            name<s64>(Acme Corp)
            employees[
                {id<u32>(1)name<s32>(Alice)role<s16>(dev)}
                {id<u32>(2)name<s32>(Bob)role<s16>(pm)}
            ]
            active<b>(t)
        }
    "#;
    let result = parse(input).unwrap();

    let employee1 = obj(vec![
        ("id", Value::U32(1)),
        ("name", Value::Str("Alice".to_string())),
        ("role", Value::Str("dev".to_string())),
    ]);
    let employee2 = obj(vec![
        ("id", Value::U32(2)),
        ("name", Value::Str("Bob".to_string())),
        ("role", Value::Str("pm".to_string())),
    ]);
    let company = obj(vec![
        ("name", Value::Str("Acme Corp".to_string())),
        ("employees", Value::Array(vec![employee1, employee2])),
        ("active", Value::Bool(true)),
    ]);
    let expected = obj(vec![("company", company)]);

    assert_eq!(result, expected);
}

#[test]
fn t_error_duplicate_key() {
    let input = "user{name<s32>(Alice)name<s32>(Bob)}";
    let result = parse(input);
    assert!(result.is_err());
    let err = result.unwrap_err();
    assert_eq!(err.kind, gbln::ErrorKind::DuplicateKey);
    assert_eq!(err.message, "Duplicate key: name");
}

#[test]
fn t_optional_type_hints_in_object() {
    // Type hints are optional - this should succeed
    let input = "user{name(Alice)}";
    let result = parse(input);
    assert!(result.is_ok());

    let value = result.unwrap();
    match value.get("user") {
        Some(user) => {
            assert_eq!(user.get("name"), Some(&Value::Str("Alice".to_string())));
        }
        _ => panic!("Expected user object"),
    }
}

#[test]
fn t_error_unclosed_parenthesis() {
    let input = "<s32>(hello";
    let result = parse(input);
    assert!(result.is_err());
}

#[test]
fn t_error_invalid_type() {
    let input = "<xyz>(value)";
    let result = parse(input);
    assert!(result.is_err());
    let err = result.unwrap_err();
    assert_eq!(err.kind, gbln::ErrorKind::InvalidTypeHint);
    assert_eq!(err.message, "Unknown type hint: xyz");
}

#[test]
fn t_error_unexpected_token_after_value() {
    let input = "<i32>(42) extra";
    let result = parse(input);
    assert!(result.is_err());
    let err = result.unwrap_err();
    assert_eq!(err.kind, gbln::ErrorKind::UnexpectedToken);
    assert_eq!(err.message, "Unexpected token after value");
}

#[test]
fn t_integer_range_enforced_at_parse() {
    assert!(parse("<i8>(200)").is_err());
    assert_eq!(parse("<i8>(120)").unwrap(), Value::I8(120));
}

#[test]
fn t_string_length_enforced_at_parse() {
    assert!(parse("<s4>(TOOLONG)").is_err());
    assert_eq!(parse("<s4>(ABCD)").unwrap(), Value::Str("ABCD".to_string()));
}

#[test]
fn t_empty_containers() {
    assert_eq!(parse("{}").unwrap(), Value::Object(Vec::new()));
    assert_eq!(parse("[]").unwrap(), Value::Array(Vec::new()));
}

#[test]
fn t_unexpected_character_fails_parse() {
    let result = parse("user{name<s8>(x)} @");
    assert!(result.is_err());
    let result = parse("@");
    assert!(result.is_err());
}

#[test]
fn t_lone_colon_is_unexpected() {
    // `:` only opens a comment together with `|`; alone it can start no token
    let result = parse("user : (x)");
    assert!(result.is_err());
}

#[test]
fn t_error_kinds() {
    // a key must be followed by '(', '[', '{', or '<'
    let err = parse("user name").unwrap_err();
    assert_eq!(err.kind, gbln::ErrorKind::InvalidSyntax);

    let err = parse("<xyz>(value)").unwrap_err();
    assert_eq!(err.kind, gbln::ErrorKind::InvalidTypeHint);

    let err = parse("<i8>(200)").unwrap_err();
    assert_eq!(err.kind, gbln::ErrorKind::TypeMismatch);

    let err = parse("<s32>(hello").unwrap_err();
    assert_eq!(err.kind, gbln::ErrorKind::UnexpectedEof);

    let err = parse("@").unwrap_err();
    assert_eq!(err.kind, gbln::ErrorKind::UnexpectedCharacter);

    let err = parse("{name<s8>(a)").unwrap_err();
    assert_eq!(err.kind, gbln::ErrorKind::UnexpectedToken);
}

#[test]
fn t_clone_preserves_value() {
    let v = parse("company{name<s8>(Acme)tags<s8>[a bb]}").unwrap();
    let w = v.clone();
    assert_eq!(v, w);
    assert_eq!(gbln::to_string(&v), gbln::to_string(&w));
}
