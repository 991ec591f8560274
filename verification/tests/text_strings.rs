//! PDF text-string encoding and UTF-16BE decoding.

use pdf_glyph_mapping::pdf_encode_unicode_text_string;
use pdf_glyph_mapping::text_string::utf8_bytes_to_string;
use pdf_glyph_mapping::utf16be_decode_to_string;
use pdf_glyph_mapping::PdfError;

#[test]
fn encode_starts_with_byte_order_mark() {
    let bytes = pdf_encode_unicode_text_string("A");
    assert_eq!(bytes, vec![0xFE, 0xFF, 0x00, 0x41]);
}

#[test]
fn encode_writes_utf16_big_endian() {
    let bytes = pdf_encode_unicode_text_string("ab");
    assert_eq!(bytes, vec![0xFE, 0xFF, 0x00, 0x61, 0x00, 0x62]);
    let devanagari = pdf_encode_unicode_text_string("\u{0905}");
    assert_eq!(devanagari, vec![0xFE, 0xFF, 0x09, 0x05]);
}

#[test]
fn encode_writes_surrogate_pairs_for_non_bmp() {
    let bytes = pdf_encode_unicode_text_string("\u{1D11E}");
    assert_eq!(bytes, vec![0xFE, 0xFF, 0xD8, 0x34, 0xDD, 0x1E]);
}

#[test]
fn round_trip_through_encode_and_decode() {
    for text in ["", "hello", "\u{0905}\u{0938}", "mixed \u{1D11E} music \u{10FFFF}"] {
        let bytes = pdf_encode_unicode_text_string(text);
        assert_eq!(&bytes[..2], &[0xFE, 0xFF]);
        let back = utf16be_decode_to_string(&bytes[2..]).unwrap();
        assert_eq!(back, text);
    }
}

#[test]
fn decode_rejects_lone_surrogates() {
    assert_eq!(
        utf16be_decode_to_string(&[0xD8, 0x34]),
        Err(PdfError::InvalidUtf16)
    );
    assert_eq!(
        utf16be_decode_to_string(&[0xDC, 0x00, 0x00, 0x41]),
        Err(PdfError::InvalidUtf16)
    );
    assert_eq!(
        utf16be_decode_to_string(&[0xD8, 0x34, 0x00, 0x41]),
        Err(PdfError::InvalidUtf16)
    );
}

#[test]
fn decode_drops_a_trailing_odd_byte() {
    assert_eq!(utf16be_decode_to_string(&[0x00, 0x41, 0x7F]).unwrap(), "A");
}

#[test]
fn utf8_bytes_become_text() {
    assert_eq!(utf8_bytes_to_string(b"NotoSans-Bold").unwrap(), "NotoSans-Bold");
    assert_eq!(utf8_bytes_to_string(&[0xC3, 0xA9]).unwrap(), "\u{e9}");
    assert_eq!(utf8_bytes_to_string(&[0xE0, 0xA4, 0x85]).unwrap(), "\u{0905}");
    assert_eq!(utf8_bytes_to_string(&[0xF0, 0x9D, 0x84, 0x9E]).unwrap(), "\u{1D11E}");
}

#[test]
fn bytes_that_are_not_utf8_are_refused() {
    assert_eq!(utf8_bytes_to_string(&[0x80]), Err(PdfError::NotUtf8));
    assert_eq!(utf8_bytes_to_string(&[0xC3]), Err(PdfError::NotUtf8));
    assert_eq!(utf8_bytes_to_string(&[0xC0, 0xAF]), Err(PdfError::NotUtf8));
    assert_eq!(utf8_bytes_to_string(&[0xED, 0xA0, 0x80]), Err(PdfError::NotUtf8));
    assert_eq!(utf8_bytes_to_string(&[0xF4, 0x90, 0x80, 0x80]), Err(PdfError::NotUtf8));
    assert_eq!(utf8_bytes_to_string(&[0xFF]), Err(PdfError::NotUtf8));
}
