//! Byte-level checks of the wire primitives: exact encodings and the
//! structured errors the decoders report.

use carla_data_serde::wire::{
    dec_bool, dec_field_u64, dec_hdr, dec_u32, dec_u64, enc_bool, enc_field_u64, enc_hdr, enc_u32,
    enc_u64, DecodeErrorKind, TAG_BOOL, TAG_U64,
};

#[test]
fn u32_big_endian_exact_bytes() {
    let mut out: Vec<u8> = Vec::new();
    enc_u32(0x01020304, &mut out);
    assert_eq!(out, vec![1, 2, 3, 4]);
    let (x, end) = dec_u32(&out, 0).unwrap();
    assert_eq!(x, 0x01020304);
    assert_eq!(end, 4);
}

#[test]
fn u64_big_endian_exact_bytes() {
    let mut out: Vec<u8> = Vec::new();
    enc_u64(0x0102030405060708, &mut out);
    assert_eq!(out, vec![1, 2, 3, 4, 5, 6, 7, 8]);
    let (x, end) = dec_u64(&out, 0).unwrap();
    assert_eq!(x, 0x0102030405060708);
    assert_eq!(end, 8);
}

#[test]
fn bool_encoding_and_bad_byte() {
    let mut out: Vec<u8> = Vec::new();
    enc_bool(true, &mut out);
    enc_bool(false, &mut out);
    assert_eq!(out, vec![1, 0]);
    assert_eq!(dec_bool(&out, 0).unwrap().0, true);
    assert_eq!(dec_bool(&out, 1).unwrap().0, false);
    let bad = vec![7u8];
    let err = dec_bool(&bad, 0).unwrap_err();
    assert_eq!(err.kind, DecodeErrorKind::BadBool);
    assert_eq!(err.at, 0);
}

#[test]
fn header_exact_bytes() {
    let mut out: Vec<u8> = Vec::new();
    enc_hdr("len", TAG_U64, &mut out);
    assert_eq!(out, vec![3, b'l', b'e', b'n', TAG_U64]);
    let end = dec_hdr(&out, 0, "len", TAG_U64).unwrap();
    assert_eq!(end, out.len());
}

#[test]
fn wrong_field_name_is_reported() {
    let mut out: Vec<u8> = Vec::new();
    enc_field_u64("heigth", 5, &mut out);
    let err = dec_field_u64(&out, 0, "height").unwrap_err();
    assert_eq!(err.kind, DecodeErrorKind::FieldName);
    assert_eq!(err.at, 0);
}

#[test]
fn wrong_field_kind_is_reported() {
    let mut out: Vec<u8> = Vec::new();
    enc_hdr("height", TAG_BOOL, &mut out);
    out.push(1);
    let err = dec_field_u64(&out, 0, "height").unwrap_err();
    assert_eq!(err.kind, DecodeErrorKind::FieldKind);
}

#[test]
fn truncated_input_is_reported() {
    let mut out: Vec<u8> = Vec::new();
    enc_field_u64("height", 5, &mut out);
    out.truncate(out.len() - 1);
    let err = dec_field_u64(&out, 0, "height").unwrap_err();
    assert_eq!(err.kind, DecodeErrorKind::Truncated);
    let empty: Vec<u8> = Vec::new();
    let err = dec_u64(&empty, 0).unwrap_err();
    assert_eq!(err.kind, DecodeErrorKind::Truncated);
    assert_eq!(err.at, 0);
}
