//! Fixed-width big-endian conversion between byte strings and integers.
//!
//! Character codes in a CMap are byte strings of up to eight bytes; range
//! expansion and text-string encoding treat them as big-endian integers.

#![verifier::loop_isolation(false)]

use vstd::prelude::*;

use crate::error::PdfError;

verus! {

/// The value of a byte string read as a big-endian integer.
pub open spec fn be_val(s: Seq<u8>) -> nat
    decreases s.len(),
{
    if s.len() == 0 {
        0
    } else {
        be_val(s.drop_last()) * 256 + s.last() as nat
    }
}

/// The `len`-byte big-endian encoding of `v` (only the low `len` bytes of `v`).
pub open spec fn be_bytes(v: nat, len: nat) -> Seq<u8>
    decreases len,
{
    if len == 0 {
        Seq::empty()
    } else {
        be_bytes(v / 256, (len - 1) as nat).push((v % 256) as u8)
    }
}

/// 256 to the `n`th power: the number of distinct `n`-byte strings.
pub open spec fn pow256(n: nat) -> nat
    decreases n,
{
    if n == 0 {
        1
    } else {
        256 * pow256((n - 1) as nat)
    }
}

/// A byte string's value is below 256 to its length.
pub proof fn lemma_be_val_bound(s: Seq<u8>)
    ensures
        be_val(s) < pow256(s.len()),
    decreases s.len(),
{
    if s.len() > 0 {
        lemma_be_val_bound(s.drop_last());
    }
}

/// `pow256` never decreases.
pub proof fn lemma_pow256_mono(a: nat, b: nat)
    requires
        a <= b,
    ensures
        pow256(a) <= pow256(b),
    decreases b,
{
    if a < b {
        lemma_pow256_mono(a, (b - 1) as nat);
    }
}

/// The concrete powers the executable conversions rely on.
pub proof fn lemma_pow256_values()
    ensures
        pow256(1) == 0x100,
        pow256(2) == 0x10000,
        pow256(6) == 0x1000000000000,
        pow256(7) == 0x100000000000000,
        pow256(8) == 0x10000000000000000,
{
    assert(pow256(0) == 1);
    assert(pow256(1) == 256 * pow256(0));
    assert(pow256(2) == 256 * pow256(1));
    assert(pow256(3) == 256 * pow256(2));
    assert(pow256(4) == 256 * pow256(3));
    assert(pow256(5) == 256 * pow256(4));
    assert(pow256(6) == 256 * pow256(5));
    assert(pow256(7) == 256 * pow256(6));
    assert(pow256(8) == 256 * pow256(7));
}

/// The encoding of `v` in `len` bytes has length `len`.
pub proof fn lemma_be_bytes_len(v: nat, len: nat)
    ensures
        be_bytes(v, len).len() == len,
    decreases len,
{
    if len > 0 {
        lemma_be_bytes_len(v / 256, (len - 1) as nat);
    }
}

/// Reading back the encoding of a value that fits yields the value.
pub proof fn lemma_be_val_of_be_bytes(v: nat, len: nat)
    requires
        v < pow256(len),
    ensures
        be_val(be_bytes(v, len)) == v,
    decreases len,
{
    if len > 0 {
        lemma_be_val_of_be_bytes(v / 256, (len - 1) as nat);
        let prefix = be_bytes(v / 256, (len - 1) as nat);
        assert(prefix.push((v % 256) as u8).drop_last() =~= prefix);
    }
}

/// Reads a byte string of up to eight bytes as a big-endian integer.
pub fn from_many_bytes(bytes: &[u8]) -> (r: u64)
    requires
        bytes@.len() <= 8,
    ensures
        r == be_val(bytes@),
{
    let mut ret: u64 = 0;
    let mut i: usize = 0;
    while i < bytes.len()
        invariant
            bytes@.len() <= 8,
            i <= bytes@.len(),
            ret == be_val(bytes@.take(i as int)),
        decreases bytes@.len() - i,
    {
        proof {
            lemma_be_val_bound(bytes@.take(i as int));
            lemma_pow256_mono(i as nat, 7);
            lemma_pow256_values();
        }
        ret = ret * 256 + (bytes[i] as u64);
        proof {
            assert(bytes@.take(i + 1 as int).drop_last() =~= bytes@.take(i as int));
        }
        i = i + 1;
    }
    proof {
        assert(bytes@.take(bytes@.len() as int) =~= bytes@);
    }
    ret
}

/// Writes `value` as a big-endian byte string of exactly `len` bytes.
///
/// The value must fit: a caller that cannot guarantee that tests it against
/// `pow256` first (`fits_in_bytes`).
pub fn to_many_bytes(value: u64, len: usize) -> (r: Vec<u8>)
    requires
        len <= 8,
        value < pow256(len as nat),
    ensures
        r@ == be_bytes(value as nat, len as nat),
        r@.len() == len,
    decreases len,
{
    proof {
        lemma_be_bytes_len(value as nat, len as nat);
    }
    if len == 0 {
        Vec::new()
    } else {
        let mut r = to_many_bytes(value / 256, len - 1);
        r.push((value % 256) as u8);
        r
    }
}

/// Whether `value` fits in a big-endian string of `len` bytes.
pub fn fits_in_bytes(value: u64, len: usize) -> (r: bool)
    requires
        len <= 8,
    ensures
        r == (value < pow256(len as nat)),
{
    proof {
        lemma_pow256_values();
        lemma_pow256_mono(len as nat, 8);
    }
    if len == 8 {
        true
    } else {
        let mut bound: u64 = 1;
        let mut i: usize = 0;
        while i < len
            invariant
                len < 8,
                i <= len,
                bound == pow256(i as nat),
            decreases len - i,
        {
            proof {
                lemma_pow256_mono(i as nat, 6);
                lemma_pow256_values();
            }
            bound = bound * 256;
            i = i + 1;
        }
        value < bound
    }
}

/// Reads a big-endian 16-bit glyph code out of a two-byte chunk.
pub fn from_two_bytes(bytes: &[u8]) -> (r: u16)
    requires
        bytes@.len() == 2,
    ensures
        r == bytes@[0] * 256 + bytes@[1],
        r == be_val(bytes@),
{
    proof {
        assert(bytes@.drop_last() =~= seq![bytes@[0]]);
        assert(seq![bytes@[0]].drop_last() =~= Seq::<u8>::empty());
        assert(be_val(Seq::<u8>::empty()) == 0);
        assert(be_val(seq![bytes@[0]]) == bytes@[0]);
        assert(be_val(bytes@) == bytes@[0] * 256 + bytes@[1]);
    }
    (bytes[0] as u16) * 256 + (bytes[1] as u16)
}

/// A character interpreted as a hexadecimal digit.
pub open spec fn hex_digit_val(c: char) -> Option<nat> {
    let u = c as u32;
    if 48 <= u <= 57 {
        Some((u - 48) as nat)
    } else if 65 <= u <= 70 {
        Some((u - 55) as nat)
    } else if 97 <= u <= 102 {
        Some((u - 87) as nat)
    } else {
        None
    }
}

/// The digit part of a hexadecimal numeral: a single leading plus sign is
/// accepted and carries no value.
pub open spec fn hex_digits(s: Seq<char>) -> Seq<char> {
    if s.len() > 0 && s[0] == '+' {
        s.drop_first()
    } else {
        s
    }
}

/// Whether `s` is a hexadecimal numeral: at least one digit, every
/// character after the optional sign a hexadecimal digit.
pub open spec fn is_hex_str(s: Seq<char>) -> bool {
    let d = hex_digits(s);
    d.len() > 0 && forall|i: int| 0 <= i < d.len() ==> #[trigger] hex_digit_val(d[i]) is Some
}

/// The value of a string of hexadecimal digits.
pub open spec fn hex_val(s: Seq<char>) -> nat
    decreases s.len(),
{
    if s.len() == 0 {
        0
    } else {
        hex_val(s.drop_last()) * 16 + hex_digit_val(s.last())->Some_0
    }
}

/// Reads a glyph number written as hexadecimal digits.
///
/// Accepts exactly the non-empty all-hexadecimal-digit strings, an optional
/// leading plus sign apart, whose value fits in 32 bits; anything else is
/// rejected, the two causes apart.
pub fn parse_hex(input: &str) -> (r: Result<u32, PdfError>)
    ensures
        r is Ok <==> is_hex_str(input@) && hex_val(hex_digits(input@)) <= u32::MAX,
        r matches Ok(v) ==> v == hex_val(hex_digits(input@)),
        r == Err::<u32, PdfError>(PdfError::NotHex) <==> !is_hex_str(input@),
        r == Err::<u32, PdfError>(PdfError::ValueTooLarge) <==> is_hex_str(input@) && hex_val(
            hex_digits(input@),
        ) > u32::MAX,
{
    let n = input.unicode_len();
    let start: usize = if n > 0 && input.get_char(0) == '+' {
        1
    } else {
        0
    };
    let ghost d = hex_digits(input@);
    proof {
        if start == 1 {
            assert(d =~= input@.skip(1));
        } else {
            assert(d =~= input@.skip(0));
        }
    }
    if n == start {
        return Err(PdfError::NotHex);
    }
    let mut i: usize = start;
    while i < n
        invariant
            n == input@.len(),
            start <= 1,
            d == hex_digits(input@),
            d =~= input@.skip(start as int),
            start <= i <= n,
            forall|j: int| 0 <= j < i - start ==> #[trigger] hex_digit_val(d[j]) is Some,
        decreases n - i,
    {
        let c = input.get_char(i);
        let u = c as u32;
        let ok = (48 <= u && u <= 57) || (65 <= u && u <= 70) || (97 <= u && u <= 102);
        if !ok {
            proof {
                assert(d[i - start as int] == input@[i as int]);
                assert(hex_digit_val(d[i - start as int]) is None);
            }
            return Err(PdfError::NotHex);
        }
        i = i + 1;
    }
    let mut acc: u32 = 0;
    let mut i: usize = start;
    proof {
        assert(d.take(0) =~= Seq::<char>::empty());
    }
    while i < n
        invariant
            n == input@.len(),
            start <= 1,
            d == hex_digits(input@),
            d =~= input@.skip(start as int),
            is_hex_str(input@),
            start <= i <= n,
            acc == hex_val(d.take(i - start as int)),
        decreases n - i,
    {
        let c = input.get_char(i);
        let u = c as u32;
        proof {
            assert(d[i - start as int] == input@[i as int]);
            assert(hex_digit_val(d[i - start as int]) is Some);
        }
        let d_val: u32 = if u <= 57 {
            u - 48
        } else if u <= 70 {
            u - 55
        } else {
            u - 87
        };
        if acc > 0xFFF_FFFF {
            proof {
                lemma_hex_val_grows(d, i - start as int);
            }
            return Err(PdfError::ValueTooLarge);
        }
        acc = acc * 16 + d_val;
        proof {
            assert(d.take(i + 1 - start as int).drop_last() =~= d.take(i - start as int));
            assert(d.take(i + 1 - start as int).last() == d[i - start as int]);
        }
        i = i + 1;
    }
    proof {
        assert(d.take(n - start as int) =~= d);
    }
    Ok(acc)
}

/// Once a prefix of a hexadecimal string exceeds 32 bits, so does the whole.
proof fn lemma_hex_val_grows(s: Seq<char>, i: int)
    requires
        0 <= i < s.len(),
        hex_val(s.take(i)) * 16 + 15 > u32::MAX,
    ensures
        hex_val(s) > u32::MAX,
    decreases s.len() - i,
{
    let next = hex_val(s.take(i + 1));
    assert(s.take(i + 1).drop_last() =~= s.take(i));
    assert(next >= hex_val(s.take(i)) * 16);
    if i + 1 < s.len() {
        assert(next * 16 + 15 >= next);
        lemma_hex_val_grows(s, i + 1);
    } else {
        assert(s.take(i + 1) =~= s);
    }
}

} // verus!
