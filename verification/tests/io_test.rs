//! Tests for the byte-level document I/O: XZ detection, compression
//! round trips, and parsing from on-disk bytes.

use gbln::from_io_bytes;
use gbln::is_xz_compressed;
use gbln::parse;
use gbln::to_io_bytes;
use gbln::GblnConfig;

#[test]
fn io_t_is_xz_compressed_detects_magic_bytes() {
    let xz_data = vec![0xFD, 0x37, 0x7A, 0x58, 0x5A, 0x00, 0x01, 0x02];
    assert_eq!(is_xz_compressed(&xz_data), true);

    let plain_data = vec![0x00, 0x01, 0x02, 0x03];
    assert_eq!(is_xz_compressed(&plain_data), false);
}

#[test]
fn t_io_bytes_roundtrip_with_compression() {
    let value = parse("user{id<u32>(123)name<s32>(Alice)}").unwrap();
    let config = GblnConfig::io_format();
    let bytes = to_io_bytes(&value, &config).unwrap();
    assert!(is_xz_compressed(&bytes));

    let back = from_io_bytes(&bytes).unwrap();
    assert_eq!(back, value);
}

#[test]
fn t_io_bytes_roundtrip_without_compression() {
    let value = parse("user{id<u32>(123)name<s32>(Alice)}").unwrap();
    let config = GblnConfig::new().compress(false);
    let bytes = to_io_bytes(&value, &config).unwrap();
    assert!(!is_xz_compressed(&bytes));
    assert_eq!(
        String::from_utf8(bytes.clone()).unwrap(),
        "{user{id<u32>(123)name<s8>(Alice)}}"
    );

    let back = from_io_bytes(&bytes).unwrap();
    assert_eq!(back, value);
}

#[test]
fn t_io_bytes_pretty_mode_produces_formatted_output() {
    let value = parse("user{name<s32>(Alice)age<i8>(25)}").unwrap();
    let config = GblnConfig::development();
    let bytes = to_io_bytes(&value, &config).unwrap();
    let text = String::from_utf8(bytes).unwrap();
    assert!(text.contains('\n'));
    assert!(text.contains("    "));
}

#[test]
fn t_from_io_bytes_rejects_invalid_utf8() {
    let bytes = vec![0x80, 0xff, 0x00];
    assert!(from_io_bytes(&bytes).is_err());
}

#[test]
fn t_from_io_bytes_rejects_invalid_document() {
    let bytes = b"not a document @".to_vec();
    assert!(from_io_bytes(&bytes).is_err());
}

#[test]
fn t_io_bytes_clamps_out_of_range_level() {
    // a level set directly on the struct, above the builder's clamp
    let value = gbln::parse("user{id<u32>(1)}").unwrap();
    let mut config = GblnConfig::io_format();
    config.compression_level = 99;
    let bytes = to_io_bytes(&value, &config).unwrap();
    assert!(is_xz_compressed(&bytes));
    assert_eq!(from_io_bytes(&bytes).unwrap(), value);
}
