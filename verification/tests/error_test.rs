//! Tests for error construction.

use gbln::Error;
use gbln::ErrorKind;

#[test]
fn t_error_new_carries_position() {
    let e = Error::new(ErrorKind::UnexpectedToken, 3, 14, "bad token".to_string());
    assert_eq!(e.kind, ErrorKind::UnexpectedToken);
    assert_eq!(e.line, 3);
    assert_eq!(e.column, 14);
    assert_eq!(e.message, "bad token");
    assert!(e.suggestion.is_none());
}

#[test]
fn t_error_with_suggestion() {
    let e = Error::new(ErrorKind::InvalidTypeHint, 1, 2, "unknown code".to_string())
        .with_suggestion("use one of i8..u64, f32, f64, b, n, s<N>".to_string());
    assert_eq!(e.kind, ErrorKind::InvalidTypeHint);
    assert_eq!(
        e.suggestion.as_deref(),
        Some("use one of i8..u64, f32, f64, b, n, s<N>")
    );
}

#[test]
fn t_error_io_has_no_position() {
    let e = Error::io("disk trouble".to_string());
    assert_eq!(e.kind, ErrorKind::IoError);
    assert_eq!(e.line, 0);
    assert_eq!(e.column, 0);
}

#[test]
fn t_error_from_string() {
    let e = Error::from("disk trouble".to_string());
    assert_eq!(e.kind, ErrorKind::IoError);
    assert_eq!(e.message, "disk trouble");
}
