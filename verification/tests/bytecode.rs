//! Big-endian byte arithmetic and hexadecimal parsing.

use pdf_glyph_mapping::bytecode::fits_in_bytes;
use pdf_glyph_mapping::from_many_bytes;
use pdf_glyph_mapping::from_two_bytes;
use pdf_glyph_mapping::parse_hex;
use pdf_glyph_mapping::to_many_bytes;
use pdf_glyph_mapping::PdfError;

#[test]
fn from_many_bytes_reads_big_endian() {
    assert_eq!(from_many_bytes(&[]), 0);
    assert_eq!(from_many_bytes(&[0x01]), 1);
    assert_eq!(from_many_bytes(&[0x01, 0x00]), 256);
    assert_eq!(from_many_bytes(&[0x12, 0x34, 0x56]), 0x123456);
    assert_eq!(
        from_many_bytes(&[0xFF, 0xFF, 0xFF, 0xFF, 0xFF, 0xFF, 0xFF, 0xFF]),
        u64::MAX
    );
}

#[test]
fn to_many_bytes_writes_big_endian_zero_padded() {
    assert_eq!(to_many_bytes(0x0905, 2), vec![0x09, 0x05]);
    assert_eq!(to_many_bytes(1, 4), vec![0, 0, 0, 1]);
    assert_eq!(to_many_bytes(0, 0), Vec::<u8>::new());
}

#[test]
fn to_many_bytes_round_trips() {
    let bytes = to_many_bytes(0xDEAD_BEEF, 5);
    assert_eq!(from_many_bytes(&bytes), 0xDEAD_BEEF);
}

#[test]
fn fits_in_bytes_draws_the_line() {
    assert!(fits_in_bytes(0xFFFF, 2));
    assert!(!fits_in_bytes(0x10000, 2));
    assert!(fits_in_bytes(u64::MAX, 8));
    assert!(!fits_in_bytes(1, 0));
}

#[test]
fn from_two_bytes_reads_a_pair() {
    assert_eq!(from_two_bytes(&[0x41, 0x42]), 0x4142);
    assert_eq!(from_two_bytes(&[0x00, 0x03]), 3);
}

#[test]
fn parse_hex_reads_hex_digits() {
    assert_eq!(parse_hex("0041"), Ok(0x41));
    assert_eq!(parse_hex("dead"), Ok(0xDEAD));
    assert_eq!(parse_hex("DEAD"), Ok(0xDEAD));
    assert_eq!(parse_hex("ffffffff"), Ok(u32::MAX));
}

#[test]
fn parse_hex_rejects_non_hex() {
    assert_eq!(parse_hex(""), Err(PdfError::NotHex));
    assert_eq!(parse_hex("12g4"), Err(PdfError::NotHex));
    assert_eq!(parse_hex(" 12"), Err(PdfError::NotHex));
}

#[test]
fn parse_hex_rejects_too_large() {
    assert_eq!(parse_hex("100000000"), Err(PdfError::ValueTooLarge));
}

#[test]
fn parse_hex_accepts_one_leading_plus_sign() {
    assert_eq!(parse_hex("+1f"), Ok(0x1F));
    assert_eq!(parse_hex("+"), Err(PdfError::NotHex));
    assert_eq!(parse_hex("++1"), Err(PdfError::NotHex));
    assert_eq!(parse_hex("1+2"), Err(PdfError::NotHex));
}
