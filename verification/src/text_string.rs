//! PDF text-string encoding.
//!
//! A Unicode string destined for a text-string slot (such as `/ActualText`)
//! is written as the two byte-order-mark bytes `FE FF` followed by the
//! string's UTF-16BE code units, two bytes each. The same byte shape, without
//! the mark, carries the destination text inside a ToUnicode CMap.

#![verifier::loop_isolation(false)]

use vstd::prelude::*;

use crate::error::PdfError;

verus! {

/// Whether a code unit is a high (leading) surrogate.
pub open spec fn is_high_surrogate(u: u16) -> bool {
    0xD800 <= u <= 0xDBFF
}

/// Whether a code unit is a low (trailing) surrogate.
pub open spec fn is_low_surrogate(u: u16) -> bool {
    0xDC00 <= u <= 0xDFFF
}

/// The UTF-16 code units encoding one scalar value.
pub open spec fn utf16_units_of_char(c: char) -> Seq<u16> {
    let u = c as u32;
    if u < 0x10000 {
        seq![u as u16]
    } else {
        seq![
            (0xD800 + (u - 0x10000) / 0x400) as u16,
            (0xDC00 + (u - 0x10000) % 0x400) as u16,
        ]
    }
}

/// The UTF-16 code units encoding a string.
pub open spec fn utf16_units(s: Seq<char>) -> Seq<u16>
    decreases s.len(),
{
    if s.len() == 0 {
        Seq::empty()
    } else {
        utf16_units_of_char(s[0]) + utf16_units(s.drop_first())
    }
}

/// Code units written big-endian, two bytes each.
pub open spec fn utf16be_bytes(units: Seq<u16>) -> Seq<u8>
    decreases units.len(),
{
    if units.len() == 0 {
        Seq::empty()
    } else {
        seq![(units[0] / 256) as u8, (units[0] % 256) as u8] + utf16be_bytes(units.drop_first())
    }
}

/// The bytes of a PDF text string: the byte-order mark, then UTF-16BE.
pub open spec fn pdf_text_string_bytes(s: Seq<char>) -> Seq<u8> {
    seq![254u8, 255u8] + utf16be_bytes(utf16_units(s))
}

/// Big-endian byte pairs read back as code units; a trailing odd byte is
/// dropped rather than read as half a code unit.
pub open spec fn units_of_be_bytes(b: Seq<u8>) -> Seq<u16>
    decreases b.len(),
{
    if b.len() < 2 {
        Seq::empty()
    } else {
        seq![(b[0] * 256 + b[1]) as u16] + units_of_be_bytes(b.skip(2))
    }
}

/// Code units decoded back to a string: `None` when a surrogate stands
/// alone or a pair is out of order.
pub open spec fn utf16_decode(units: Seq<u16>) -> Option<Seq<char>>
    decreases units.len(),
{
    if units.len() == 0 {
        Some(Seq::empty())
    } else if !is_high_surrogate(units[0]) && !is_low_surrogate(units[0]) {
        match utf16_decode(units.drop_first()) {
            None => None,
            Some(rest) => Some(seq![(units[0] as u32) as char] + rest),
        }
    } else if units.len() >= 2 && is_high_surrogate(units[0]) && is_low_surrogate(units[1]) {
        let v = 0x10000 + (units[0] - 0xD800) * 0x400 + (units[1] - 0xDC00);
        match utf16_decode(units.skip(2)) {
            None => None,
            Some(rest) => Some(seq![(v as u32) as char] + rest),
        }
    } else {
        None
    }
}

/// Reading byte pairs back undoes the big-endian write.
pub proof fn lemma_units_of_be_bytes_of_units(units: Seq<u16>)
    ensures
        units_of_be_bytes(utf16be_bytes(units)) == units,
    decreases units.len(),
{
    if units.len() > 0 {
        let rest = units.drop_first();
        lemma_units_of_be_bytes_of_units(rest);
        let b = utf16be_bytes(units);
        assert(b.skip(2) =~= utf16be_bytes(rest));
        assert(units_of_be_bytes(b) =~= units);
    }
}

/// Decoding undoes encoding, surrogate pairs included.
pub proof fn lemma_utf16_decode_of_units(s: Seq<char>)
    ensures
        utf16_decode(utf16_units(s)) == Some(s),
    decreases s.len(),
{
    broadcast use vstd::utf8::char_is_scalar;
    broadcast use vstd::utf8::char_u32_cast;

    if s.len() > 0 {
        let c = s[0];
        let u = c as u32;
        vstd::utf8::char_is_scalar(c);
        assert(vstd::utf8::is_scalar(u));
        let rest = s.drop_first();
        lemma_utf16_decode_of_units(rest);
        let units = utf16_units(s);
        if u < 0x10000 {
            assert(units[0] == (u as u16));
            assert(!is_high_surrogate(units[0]) && !is_low_surrogate(units[0]));
            assert(units.drop_first() =~= utf16_units(rest));
            vstd::utf8::char_u32_cast(c, u);
            assert((units[0] as u32) == u);
            assert(((units[0] as u32) as char) == c);
            assert(seq![c] + rest =~= s);
        } else {
            let hi = (0xD800 + (u - 0x10000) / 0x400) as u16;
            let lo = (0xDC00 + (u - 0x10000) % 0x400) as u16;
            assert(u <= 0x10FFFF);
            assert((u - 0x10000) / 0x400 <= 0x3FF);
            assert(units[0] == hi && units[1] == lo);
            assert(is_high_surrogate(hi) && is_low_surrogate(lo));
            assert(units.skip(2) =~= utf16_units(rest));
            let v = 0x10000 + (hi - 0xD800) * 0x400 + (lo - 0xDC00);
            assert(v == u);
            vstd::utf8::char_u32_cast(c, u);
            assert((v as u32) == u);
            assert(((v as u32) as char) == c);
            assert(seq![c] + rest =~= s);
        }
    }
}

/// The byte-order mark, then UTF-16BE: stripping the mark and decoding what
/// remains yields the string that was encoded, for every string, non-BMP
/// scalars and their surrogate pairs included.
pub proof fn lemma_pdf_text_string_round_trip(s: Seq<char>)
    ensures
        pdf_text_string_bytes(s).len() >= 2,
        pdf_text_string_bytes(s)[0] == 254,
        pdf_text_string_bytes(s)[1] == 255,
        utf16_decode(units_of_be_bytes(pdf_text_string_bytes(s).skip(2))) == Some(s),
{
    let b = pdf_text_string_bytes(s);
    assert(b.skip(2) =~= utf16be_bytes(utf16_units(s)));
    lemma_units_of_be_bytes_of_units(utf16_units(s));
    lemma_utf16_decode_of_units(s);
}

/// Appending one character appends its code units.
proof fn lemma_utf16_units_push(s: Seq<char>, c: char)
    ensures
        utf16_units(s.push(c)) == utf16_units(s) + utf16_units_of_char(c),
    decreases s.len(),
{
    if s.len() == 0 {
        assert(s.push(c)[0] == c);
        assert(s.push(c).drop_first() =~= Seq::<char>::empty());
        assert(utf16_units(Seq::<char>::empty()) =~= Seq::<u16>::empty());
        assert(utf16_units(s.push(c)) == utf16_units_of_char(c) + utf16_units(
            s.push(c).drop_first(),
        ));
        assert(utf16_units(s.push(c)) =~= utf16_units_of_char(c));
        assert(utf16_units(s) + utf16_units_of_char(c) =~= utf16_units_of_char(c));
    } else {
        lemma_utf16_units_push(s.drop_first(), c);
        assert(s.push(c).drop_first() =~= s.drop_first().push(c));
        assert(s.push(c)[0] == s[0]);
        assert(utf16_units(s) + utf16_units_of_char(c) =~= utf16_units_of_char(s[0]) + (
        utf16_units(s.drop_first()) + utf16_units_of_char(c)));
    }
}

/// Writing two unit sequences one after the other writes their bytes one
/// after the other.
proof fn lemma_utf16be_bytes_concat(a: Seq<u16>, b: Seq<u16>)
    ensures
        utf16be_bytes(a + b) == utf16be_bytes(a) + utf16be_bytes(b),
    decreases a.len(),
{
    if a.len() == 0 {
        assert(a + b =~= b);
        assert(utf16be_bytes(a) + utf16be_bytes(b) =~= utf16be_bytes(b));
    } else {
        lemma_utf16be_bytes_concat(a.drop_first(), b);
        assert((a + b).drop_first() =~= a.drop_first() + b);
        assert((a + b)[0] == a[0]);
        assert(utf16be_bytes(a) + utf16be_bytes(b) =~= seq![
            (a[0] / 256) as u8,
            (a[0] % 256) as u8,
        ] + (utf16be_bytes(a.drop_first()) + utf16be_bytes(b)));
    }
}

/// Relies on `alloc::string::String::push`: appends the given character to
/// the end of the string.
pub assume_specification[ String::push ](s: &mut String, c: char)
    ensures
        final(s)@ == old(s)@.push(c),
;

/// Relies on `char::from_u32`: `Some` exactly on Unicode scalar values, and
/// the character returned has the given value.
pub assume_specification[ char::from_u32 ](v: u32) -> (r: Option<char>)
    ensures
        (v < 0xD800 || (0xE000 <= v < 0x110000)) <==> r is Some,
        r matches Some(c) ==> c as u32 == v,
;

/// The number of code units read is half the number of bytes, rounded down.
pub proof fn lemma_units_of_be_bytes_len(b: Seq<u8>)
    ensures
        units_of_be_bytes(b).len() == b.len() / 2,
    decreases b.len(),
{
    if b.len() >= 2 {
        lemma_units_of_be_bytes_len(b.skip(2));
    }
}

/// Reads a byte string as UTF-8 text, as names and other byte-carried text
/// are read; bytes that are not a valid UTF-8 encoding are refused, not
/// guessed at.
pub fn utf8_bytes_to_string(b: &[u8]) -> (r: Result<String, PdfError>)
    ensures
        match r {
            Ok(t) => vstd::utf8::valid_utf8(b@) && t@ == vstd::utf8::decode_utf8(b@),
            Err(e) => !vstd::utf8::valid_utf8(b@) && e == PdfError::NotUtf8,
        },
{
    let mut out = String::new();
    let n = b.len();
    let mut i: usize = 0;
    proof {
        assert(b@.skip(0) =~= b@);
        if vstd::utf8::valid_utf8(b@) {
            assert(out@ + vstd::utf8::decode_utf8(b@) =~= vstd::utf8::decode_utf8(b@));
        }
    }
    while i < n
        invariant
            n == b@.len(),
            i <= n,
            vstd::utf8::valid_utf8(b@) <==> vstd::utf8::valid_utf8(b@.skip(i as int)),
            vstd::utf8::valid_utf8(b@) ==> vstd::utf8::decode_utf8(b@) == out@
                + vstd::utf8::decode_utf8(b@.skip(i as int)),
        decreases n - i,
    {
        let ghost tail = b@.skip(i as int);
        let ghost out_old = out@;
        proof {
            assert(tail[0] == b@[i as int]);
        }
        let b0 = b[i];
        let width: usize;
        let cp: u32;
        if b0 < 0x80 {
            width = 1;
            cp = b0 as u32;
            proof {
                assert(b0 & 0x7F == b0) by (bit_vector)
                    requires
                        b0 < 0x80,
                ;
                assert(vstd::utf8::valid_first_scalar(tail));
                assert(vstd::utf8::decode_first_scalar(tail) == cp);
                assert(vstd::utf8::length_of_first_scalar(tail) == 1);
            }
        } else if b0 < 0xC0 {
            proof {
                assert(!vstd::utf8::valid_first_scalar(tail));
            }
            return Err(PdfError::NotUtf8);
        } else if b0 < 0xE0 {
            if !(i + 1 < n && 0x80 <= b[i + 1] && b[i + 1] < 0xC0) {
                proof {
                    if i + 1 < n {
                        assert(tail[1] == b@[i as int + 1]);
                    }
                    assert(!vstd::utf8::valid_first_scalar(tail));
                }
                return Err(PdfError::NotUtf8);
            }
            let b1 = b[i + 1];
            width = 2;
            cp = (((b0 & 0x1F) as u32) << 6u32) | ((b1 & 0x3F) as u32);
            proof {
                assert(tail[1] == b@[i as int + 1]);
                assert((((b0 & 0x1F) as u32) << 6u32) | ((b1 & 0x3F) as u32) <= 0x7FF)
                    by (bit_vector);
            }
            if cp < 0x80 {
                proof {
                    assert(!vstd::utf8::not_overlong_encoding(cp, 2));
                    assert(!vstd::utf8::valid_first_scalar(tail));
                }
                return Err(PdfError::NotUtf8);
            }
            proof {
                assert(vstd::utf8::valid_first_scalar(tail));
                assert(vstd::utf8::decode_first_scalar(tail) == cp);
                assert(vstd::utf8::length_of_first_scalar(tail) == 2);
            }
        } else if b0 < 0xF0 {
            if !(n - i > 2 && 0x80 <= b[i + 1] && b[i + 1] < 0xC0 && 0x80 <= b[i + 2] && b[i + 2]
                < 0xC0) {
                proof {
                    if i + 1 < n {
                        assert(tail[1] == b@[i as int + 1]);
                    }
                    if i + 2 < n {
                        assert(tail[2] == b@[i as int + 2]);
                    }
                    assert(!vstd::utf8::valid_first_scalar(tail));
                }
                return Err(PdfError::NotUtf8);
            }
            let b1 = b[i + 1];
            let b2 = b[i + 2];
            width = 3;
            cp = (((b0 & 0x0F) as u32) << 12u32) | (((b1 & 0x3F) as u32) << 6u32) | ((b2
                & 0x3F) as u32);
            proof {
                assert(tail[1] == b@[i as int + 1]);
                assert(tail[2] == b@[i as int + 2]);
                assert((((b0 & 0x0F) as u32) << 12u32) | (((b1 & 0x3F) as u32) << 6u32) | ((b2
                    & 0x3F) as u32) <= 0xFFFF) by (bit_vector);
            }
            if cp < 0x800 || (0xD800 <= cp && cp <= 0xDFFF) {
                proof {
                    assert(!vstd::utf8::valid_first_scalar(tail));
                }
                return Err(PdfError::NotUtf8);
            }
            proof {
                assert(vstd::utf8::valid_first_scalar(tail));
                assert(vstd::utf8::decode_first_scalar(tail) == cp);
                assert(vstd::utf8::length_of_first_scalar(tail) == 3);
            }
        } else if b0 < 0xF8 {
            if !(n - i > 3 && 0x80 <= b[i + 1] && b[i + 1] < 0xC0 && 0x80 <= b[i + 2] && b[i + 2]
                < 0xC0 && 0x80 <= b[i + 3] && b[i + 3] < 0xC0) {
                proof {
                    if i + 1 < n {
                        assert(tail[1] == b@[i as int + 1]);
                    }
                    if i + 2 < n {
                        assert(tail[2] == b@[i as int + 2]);
                    }
                    if i + 3 < n {
                        assert(tail[3] == b@[i as int + 3]);
                    }
                    assert(!vstd::utf8::valid_first_scalar(tail));
                }
                return Err(PdfError::NotUtf8);
            }
            let b1 = b[i + 1];
            let b2 = b[i + 2];
            let b3 = b[i + 3];
            width = 4;
            cp = (((b0 & 0x07) as u32) << 18u32) | (((b1 & 0x3F) as u32) << 12u32) | (((b2
                & 0x3F) as u32) << 6u32) | ((b3 & 0x3F) as u32);
            proof {
                assert(tail[1] == b@[i as int + 1]);
                assert(tail[2] == b@[i as int + 2]);
                assert(tail[3] == b@[i as int + 3]);
                assert((((b0 & 0x07) as u32) << 18u32) | (((b1 & 0x3F) as u32) << 12u32) | (((b2
                    & 0x3F) as u32) << 6u32) | ((b3 & 0x3F) as u32) <= 0x1FFFFF) by (bit_vector);
            }
            if cp < 0x10000 || cp > 0x10FFFF {
                proof {
                    assert(!vstd::utf8::valid_first_scalar(tail));
                }
                return Err(PdfError::NotUtf8);
            }
            proof {
                assert(vstd::utf8::valid_first_scalar(tail));
                assert(vstd::utf8::decode_first_scalar(tail) == cp);
                assert(vstd::utf8::length_of_first_scalar(tail) == 4);
            }
        } else {
            proof {
                assert(!vstd::utf8::valid_first_scalar(tail));
            }
            return Err(PdfError::NotUtf8);
        }
        match char::from_u32(cp) {
            Some(c) => {
                out.push(c);
                proof {
                    vstd::utf8::char_u32_cast(c, cp);
                    assert(vstd::utf8::pop_first_scalar(tail) =~= b@.skip(i + width));
                    if vstd::utf8::valid_utf8(b@) {
                        let rest = vstd::utf8::decode_utf8(b@.skip(i + width));
                        assert(vstd::utf8::decode_utf8(tail) == seq![c] + rest);
                        assert(out_old + (seq![c] + rest) =~= out@ + rest);
                    }
                }
                i = i + width;
            },
            None => {
                proof {
                    assert(false);
                }
                return Err(PdfError::NotUtf8);
            },
        }
    }
    proof {
        assert(b@.skip(n as int) =~= Seq::<u8>::empty());
        assert(vstd::utf8::decode_utf8(Seq::<u8>::empty()) =~= Seq::<char>::empty());
        assert(out@ + Seq::<char>::empty() =~= out@);
    }
    Ok(out)
}

/// Encodes a string as a PDF text string: `FE FF`, then UTF-16BE.
pub fn pdf_encode_unicode_text_string(mytext: &str) -> (r: Vec<u8>)
    ensures
        r@ == pdf_text_string_bytes(mytext@),
{
    let mut bytes: Vec<u8> = Vec::new();
    bytes.push(254);
    bytes.push(255);
    let n = mytext.unicode_len();
    let mut i: usize = 0;
    proof {
        assert(mytext@.take(0) =~= Seq::<char>::empty());
        assert(bytes@ =~= seq![254u8, 255u8] + utf16be_bytes(utf16_units(mytext@.take(0))));
    }
    while i < n
        invariant
            n == mytext@.len(),
            i <= n,
            bytes@ == seq![254u8, 255u8] + utf16be_bytes(utf16_units(mytext@.take(i as int))),
        decreases n - i,
    {
        let c = mytext.get_char(i);
        let u = c as u32;
        proof {
            vstd::utf8::char_is_scalar(c);
            lemma_utf16_units_push(mytext@.take(i as int), c);
            lemma_utf16be_bytes_concat(
                utf16_units(mytext@.take(i as int)),
                utf16_units_of_char(c),
            );
            assert(mytext@.take(i as int).push(c) =~= mytext@.take(i as int + 1));
        }
        if u < 0x10000 {
            bytes.push((u / 256) as u8);
            bytes.push((u % 256) as u8);
            proof {
                assert(utf16_units_of_char(c) =~= seq![u as u16]);
                assert(seq![u as u16].drop_first() =~= Seq::<u16>::empty());
                assert(utf16be_bytes(seq![u as u16]) =~= seq![(u / 256) as u8, (u % 256) as u8]);
                assert(bytes@ =~= seq![254u8, 255u8] + utf16be_bytes(
                    utf16_units(mytext@.take(i as int + 1)),
                ));
            }
        } else {
            let x = u - 0x10000;
            let hi: u32 = 0xD800 + x / 0x400;
            let lo: u32 = 0xDC00 + x % 0x400;
            bytes.push((hi / 256) as u8);
            bytes.push((hi % 256) as u8);
            bytes.push((lo / 256) as u8);
            bytes.push((lo % 256) as u8);
            proof {
                let units = utf16_units_of_char(c);
                assert(units =~= seq![hi as u16, lo as u16]);
                assert(units.drop_first() =~= seq![lo as u16]);
                assert(seq![lo as u16].drop_first() =~= Seq::<u16>::empty());
                assert(utf16be_bytes(seq![lo as u16]) =~= seq![(lo / 256) as u8, (lo % 256) as u8]);
                assert(utf16be_bytes(units) =~= seq![
                    (hi / 256) as u8,
                    (hi % 256) as u8,
                    (lo / 256) as u8,
                    (lo % 256) as u8,
                ]);
                assert(bytes@ =~= seq![254u8, 255u8] + utf16be_bytes(
                    utf16_units(mytext@.take(i as int + 1)),
                ));
            }
        }
        i = i + 1;
    }
    proof {
        assert(mytext@.take(n as int) =~= mytext@);
    }
    bytes
}

/// Decodes UTF-16BE bytes (without a byte-order mark) to a string.
///
/// A trailing odd byte is dropped rather than read as half a code unit; a
/// surrogate that stands alone or out of order is an `InvalidUtf16` error,
/// which callers treat as a fault of the enclosing unit (the font whose
/// CMap held the text).
pub fn utf16be_decode_to_string(bytes: &[u8]) -> (r: Result<String, PdfError>)
    ensures
        match r {
            Ok(t) => utf16_decode(units_of_be_bytes(bytes@)) == Some(t@),
            Err(e) => utf16_decode(units_of_be_bytes(bytes@)) is None && e
                == PdfError::InvalidUtf16,
        },
{
    let mut out = String::new();
    let n = bytes.len();
    let mut i: usize = 0;
    let ghost whole = units_of_be_bytes(bytes@);
    proof {
        assert(bytes@.skip(0) =~= bytes@);
        if utf16_decode(whole) is Some {
            assert(out@ + utf16_decode(whole)->Some_0 =~= utf16_decode(whole)->Some_0);
        }
    }
    while n - i >= 2
        invariant
            n == bytes@.len(),
            i <= n,
            utf16_decode(whole) is Some <==> utf16_decode(
                units_of_be_bytes(bytes@.skip(i as int)),
            ) is Some,
            utf16_decode(whole) matches Some(t) ==> t == out@ + utf16_decode(
                units_of_be_bytes(bytes@.skip(i as int)),
            )->Some_0,
        decreases n - i,
    {
        let ghost tail = units_of_be_bytes(bytes@.skip(i as int));
        let ghost out_old = out@;
        proof {
            lemma_units_of_be_bytes_len(bytes@.skip(i as int));
            assert(bytes@.skip(i as int)[0] == bytes@[i as int]);
            assert(bytes@.skip(i as int)[1] == bytes@[i as int + 1]);
            assert(bytes@.skip(i as int).skip(2) =~= bytes@.skip(i as int + 2));
        }
        let u: u32 = (bytes[i] as u32) * 256 + (bytes[i + 1] as u32);
        proof {
            assert(tail[0] == u as u16);
        }
        if u < 0xD800 || u > 0xDFFF {
            match char::from_u32(u) {
                Some(c) => {
                    out.push(c);
                    proof {
                        vstd::utf8::char_u32_cast(c, u);
                        let rest = tail.drop_first();
                        assert(rest =~= units_of_be_bytes(bytes@.skip(i as int + 2)));
                        if utf16_decode(whole) is Some {
                            assert(utf16_decode(tail) is Some);
                            let restd = utf16_decode(rest)->Some_0;
                            assert(utf16_decode(tail)->Some_0 == seq![c] + restd);
                            assert(out_old + (seq![c] + restd) =~= out@ + restd);
                        }
                    }
                    i = i + 2;
                },
                None => {
                    proof {
                        assert(false);
                    }
                    return Err(PdfError::InvalidUtf16);
                },
            }
        } else if u <= 0xDBFF {
            if n - i >= 4 {
                let u2: u32 = (bytes[i + 2] as u32) * 256 + (bytes[i + 3] as u32);
                proof {
                    assert(bytes@.skip(i as int)[2] == bytes@[i as int + 2]);
                    assert(bytes@.skip(i as int)[3] == bytes@[i as int + 3]);
                    assert(tail.drop_first() =~= units_of_be_bytes(bytes@.skip(i as int + 2)));
                    assert(units_of_be_bytes(bytes@.skip(i as int + 2))[0] == bytes@[i as int + 2]
                        * 256 + bytes@[i as int + 3]);
                    assert(tail[1] == u2 as u16);
                }
                if 0xDC00 <= u2 && u2 <= 0xDFFF {
                    let v: u32 = 0x10000 + (u - 0xD800) * 0x400 + (u2 - 0xDC00);
                    match char::from_u32(v) {
                        Some(c) => {
                            out.push(c);
                            proof {
                                vstd::utf8::char_u32_cast(c, v);
                                let rest = tail.skip(2);
                                assert(bytes@.skip(i as int + 2).skip(2) =~= bytes@.skip(
                                    i as int + 4,
                                ));
                                assert(units_of_be_bytes(bytes@.skip(i as int + 2)).drop_first()
                                    =~= units_of_be_bytes(bytes@.skip(i as int + 4)));
                                assert(tail.drop_first().drop_first() =~= units_of_be_bytes(
                                    bytes@.skip(i as int + 4),
                                ));
                                assert(rest =~= tail.drop_first().drop_first());
                                if utf16_decode(whole) is Some {
                                    assert(utf16_decode(tail) is Some);
                                    let restd = utf16_decode(rest)->Some_0;
                                    assert(utf16_decode(tail)->Some_0 == seq![c] + restd);
                                    assert(out_old + (seq![c] + restd) =~= out@ + restd);
                                }
                            }
                            i = i + 4;
                        },
                        None => {
                            proof {
                                assert(false);
                            }
                            return Err(PdfError::InvalidUtf16);
                        },
                    }
                } else {
                    proof {
                        assert(utf16_decode(tail) is None);
                    }
                    return Err(PdfError::InvalidUtf16);
                }
            } else {
                proof {
                    assert(tail.len() == 1);
                    assert(utf16_decode(tail) is None);
                }
                return Err(PdfError::InvalidUtf16);
            }
        } else {
            proof {
                assert(is_low_surrogate(tail[0]));
                assert(utf16_decode(tail) is None);
            }
            return Err(PdfError::InvalidUtf16);
        }
    }
    proof {
        lemma_units_of_be_bytes_len(bytes@.skip(i as int));
        assert(units_of_be_bytes(bytes@.skip(i as int)).len() == 0);
        assert(utf16_decode(units_of_be_bytes(bytes@.skip(i as int))) == Some(
            Seq::<char>::empty(),
        ));
        assert(utf16_decode(whole) is Some);
        assert(out@ + Seq::<char>::empty() =~= out@);
    }
    Ok(out)
}

} // verus!
