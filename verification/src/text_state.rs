//! Text state and text-showing operators.
//!
//! The walker keeps, per content stream, the font set by the last `Tf` and
//! a slant flag read off the last `Tm`. Every text-showing operator — `Tj`,
//! `'`, `"` and `TJ` — carries glyph codes in its string operand; the codes
//! are two bytes wide under a composite font and one byte otherwise. In
//! dump mode the codes become a hexadecimal line per operation; in fix mode
//! they are resolved through a per-font replacement table into the text the
//! annotation will carry.

#![verifier::loop_isolation(false)]

use vstd::prelude::*;
use vstd::string::StringExecFns;

use crate::error::PdfError;
use crate::font::{clone_font, empty_font, font_v, Font, FontSubtype, FontV};
use crate::object::{lemma_objs_v, obj_v, op_v, Op, ObjV, OpV, PdfObject};
use crate::resources::{fm_get, fm_v, FontMap};

verus! {

/// Which of the two behaviours a run performs: dumping the glyph codes it
/// saw, or rewriting the streams with resolved text.
#[derive(Debug, Clone, Copy, PartialEq, Eq, Structural)]
pub enum Phase {
    Phase1Dump,
    Phase2Fix,
}

impl Phase {
    /// The phase a command-line word selects: `phase2` means fixing,
    /// anything else means dumping.
    pub fn from_str(s: &str) -> (r: Phase)
        ensures
            r == (if s@ == "phase2"@ {
                Phase::Phase2Fix
            } else {
                Phase::Phase1Dump
            }),
    {
        if crate::object::str_eq(s, "phase2") {
            Phase::Phase2Fix
        } else {
            Phase::Phase1Dump
        }
    }
}

/// How a glyph with no entry in the replacement table is handled: written
/// as a bracketed placeholder and recorded, or reported as an error.
///
/// An interactive fallback lives outside the library: a caller that wants
/// one dumps the codes first, asks for the missing texts, and runs the fix
/// phase with the completed table.
#[derive(Debug, Clone, Copy, PartialEq, Eq, Structural)]
pub enum GlyphPolicy {
    Placeholder,
    Fail,
}

/// The mutable state one content-stream walk carries.
#[derive(Debug, PartialEq, Eq)]
pub struct TextState {
    pub current_font: Font,
    pub current_tm_slant: bool,
}

/// The mathematical shape of the text state.
pub struct TextStateV {
    pub current_font: FontV,
    pub current_tm_slant: bool,
}

/// The shape of the text state.
pub open spec fn ts_v(ts: TextState) -> TextStateV {
    TextStateV { current_font: font_v(ts.current_font), current_tm_slant: ts.current_tm_slant }
}

/// What a `Tf` operator does to the text state: its first operand names a
/// font that must be in scope; the name missing from the scope is a
/// reported, skippable error.
pub open spec fn spec_visit_tf(
    ts: TextStateV,
    op: OpV,
    fonts: Seq<(Seq<u8>, FontV)>,
) -> Result<TextStateV, PdfError> {
    if op.operands.len() != 2 {
        Err(PdfError::WrongKind)
    } else if !(op.operands[0] is Name) {
        Err(PdfError::WrongKind)
    } else {
        match fm_get(fonts, op.operands[0]->Name_0) {
            None => Err(PdfError::ResourceNotFound),
            Some(f) => Ok(TextStateV { current_font: f, current_tm_slant: ts.current_tm_slant }),
        }
    }
}

/// What a `Tm` operator does to the text state: the third of its six
/// operands is the slant component; the flag records whether it is
/// positive.
pub open spec fn spec_visit_tm(ts: TextStateV, op: OpV) -> Result<TextStateV, PdfError> {
    if op.operands.len() != 6 {
        Err(PdfError::WrongKind)
    } else {
        match op.operands[2] {
            ObjV::Integer(i) => Ok(
                TextStateV { current_font: ts.current_font, current_tm_slant: i > 0 },
            ),
            ObjV::Real(x) => Ok(
                TextStateV { current_font: ts.current_font, current_tm_slant: x > 0 },
            ),
            _ => Err(PdfError::WrongKind),
        }
    }
}

impl TextState {
    /// The state a top-level content-stream visit starts with: the sentinel
    /// font and no slant.
    pub fn new() -> (r: TextState)
        ensures
            font_v(r.current_font) == font_v(Font {
                font_descriptor_id: None,
                base_font_name: None,
                encoding: None,
                subtype: None,
            }),
            r.current_tm_slant == false,
    {
        TextState { current_font: empty_font(), current_tm_slant: false }
    }

    /// Switches the current font to the one the `Tf` operand names.
    pub fn visit_tf(&mut self, op: &Op, fonts: &FontMap) -> (r: Result<(), PdfError>)
        ensures
            match r {
                Ok(()) => spec_visit_tf(ts_v(*old(self)), op_v(*op), fm_v(fonts.entries@)) == Ok::<
                    TextStateV,
                    PdfError,
                >(ts_v(*final(self))),
                Err(e) => spec_visit_tf(ts_v(*old(self)), op_v(*op), fm_v(fonts.entries@)) == Err::<
                    TextStateV,
                    PdfError,
                >(e) && *final(self) == *old(self),
            },
    {
        proof {
            lemma_objs_v(op.operands@);
        }
        if op.operands.len() != 2 {
            return Err(PdfError::WrongKind);
        }
        let name = match &op.operands[0] {
            PdfObject::Name(n) => n,
            _ => {
                return Err(PdfError::WrongKind);
            },
        };
        match fonts.get(name.as_slice()) {
            None => Err(PdfError::ResourceNotFound),
            Some(f) => {
                self.current_font = clone_font(f);
                Ok(())
            },
        }
    }

    /// Reads the slant flag off the third `Tm` operand.
    pub fn visit_tm(&mut self, op: &Op) -> (r: Result<(), PdfError>)
        ensures
            match r {
                Ok(()) => spec_visit_tm(ts_v(*old(self)), op_v(*op)) == Ok::<TextStateV, PdfError>(
                    ts_v(*final(self)),
                ),
                Err(e) => spec_visit_tm(ts_v(*old(self)), op_v(*op)) == Err::<TextStateV, PdfError>(
                    e,
                ) && *final(self) == *old(self),
            },
    {
        proof {
            lemma_objs_v(op.operands@);
        }
        if op.operands.len() != 6 {
            return Err(PdfError::WrongKind);
        }
        match &op.operands[2] {
            PdfObject::Integer(i) => {
                self.current_tm_slant = *i > 0;
                Ok(())
            },
            PdfObject::Real(x) => {
                self.current_tm_slant = *x > 0;
                Ok(())
            },
            _ => Err(PdfError::WrongKind),
        }
    }
}

/// The raw glyph-code bytes a text-showing operator carries: the single
/// string of `Tj` and `'`, the third operand of `"`, or the string elements
/// of `TJ`'s array with the positioning numbers passed over.
pub open spec fn spec_show_text_bytes(op: OpV) -> Result<Seq<u8>, PdfError> {
    if op.operator == "Tj"@ || op.operator == "'"@ {
        if op.operands.len() != 1 {
            Err(PdfError::WrongKind)
        } else if !(op.operands[0] is Str) {
            Err(PdfError::WrongKind)
        } else {
            Ok(op.operands[0]->Str_0)
        }
    } else if op.operator == "\""@ {
        if op.operands.len() != 3 {
            Err(PdfError::WrongKind)
        } else if !(op.operands[2] is Str) {
            Err(PdfError::WrongKind)
        } else {
            Ok(op.operands[2]->Str_0)
        }
    } else if op.operator == "TJ"@ {
        if op.operands.len() != 1 {
            Err(PdfError::WrongKind)
        } else if !(op.operands[0] is Array) {
            Err(PdfError::WrongKind)
        } else {
            spec_tj_bytes(op.operands[0]->Array_0)
        }
    } else {
        Err(PdfError::WrongKind)
    }
}

/// The concatenated string elements of a `TJ` array; a number adjusts
/// positioning and carries no codes; anything else is a hard error.
pub open spec fn spec_tj_bytes(elems: Seq<ObjV>) -> Result<Seq<u8>, PdfError>
    decreases elems.len(),
{
    if elems.len() == 0 {
        Ok(Seq::empty())
    } else {
        match spec_tj_bytes(elems.drop_last()) {
            Err(e) => Err(e),
            Ok(acc) => match elems.last() {
                ObjV::Str(b, _) => Ok(acc + b),
                ObjV::Integer(_) => Ok(acc),
                ObjV::Real(_) => Ok(acc),
                _ => Err(PdfError::WrongKind),
            },
        }
    }
}

/// The code bytes chunked at the subtype's width: big-endian pairs for a
/// composite font — an odd leftover byte is a hard error — and single
/// bytes otherwise.
pub open spec fn spec_chunk_codes(b: Seq<u8>, subtype: FontSubtype) -> Result<Seq<u16>, PdfError> {
    if subtype is Type0 {
        if b.len() % 2 != 0 {
            Err(PdfError::UnevenCode)
        } else {
            Ok(Seq::new(b.len() / 2, |i: int| (b[2 * i] * 256 + b[2 * i + 1]) as u16))
        }
    } else {
        Ok(Seq::new(b.len(), |i: int| b[i] as u16))
    }
}

/// What extracting the glyph codes of a text-showing operator yields.
pub open spec fn spec_glyph_ids(op: OpV, subtype: FontSubtype) -> Result<Seq<u16>, PdfError> {
    match spec_show_text_bytes(op) {
        Err(e) => Err(e),
        Ok(b) => spec_chunk_codes(b, subtype),
    }
}

/// Extracts the glyph codes a text-showing operator draws.
pub fn glyph_ids(op: &Op, font_subtype: &FontSubtype) -> (r: Result<Vec<u16>, PdfError>)
    ensures
        match r {
            Ok(v) => spec_glyph_ids(op_v(*op), *font_subtype) == Ok::<Seq<u16>, PdfError>(v@),
            Err(e) => spec_glyph_ids(op_v(*op), *font_subtype) == Err::<Seq<u16>, PdfError>(e),
        },
{
    proof {
        lemma_objs_v(op.operands@);
        reveal_strlit("Tj");
        reveal_strlit("'");
        reveal_strlit("\"");
        reveal_strlit("TJ");
    }
    let mut bytes: Vec<u8> = Vec::new();
    if crate::object::str_eq(op.operator.as_str(), "Tj") || crate::object::str_eq(
        op.operator.as_str(),
        "'",
    ) {
        if op.operands.len() != 1 {
            return Err(PdfError::WrongKind);
        }
        match &op.operands[0] {
            PdfObject::Str(b, _) => {
                bytes = crate::object::clone_bytes(b);
            },
            _ => {
                return Err(PdfError::WrongKind);
            },
        }
    } else if crate::object::str_eq(op.operator.as_str(), "\"") {
        if op.operands.len() != 3 {
            return Err(PdfError::WrongKind);
        }
        match &op.operands[2] {
            PdfObject::Str(b, _) => {
                bytes = crate::object::clone_bytes(b);
            },
            _ => {
                return Err(PdfError::WrongKind);
            },
        }
    } else if crate::object::str_eq(op.operator.as_str(), "TJ") {
        if op.operands.len() != 1 {
            return Err(PdfError::WrongKind);
        }
        let elems = match &op.operands[0] {
            PdfObject::Array(v) => v,
            _ => {
                return Err(PdfError::WrongKind);
            },
        };
        let ghost ev = crate::object::objs_v(elems@);
        let n = elems.len();
        let mut i: usize = 0;
        proof {
            lemma_objs_v(elems@);
            assert(ev.take(0) =~= Seq::<ObjV>::empty());
        }
        while i < n
            invariant
                n == elems@.len(),
                ev == crate::object::objs_v(elems@),
                ev.len() == n,
                forall|j: int| 0 <= j < n ==> ev[j] == obj_v(elems@[j]),
                i <= n,
                spec_tj_bytes(ev.take(i as int)) == Ok::<Seq<u8>, PdfError>(bytes@),
            decreases n - i,
        {
            proof {
                assert(ev.take(i as int + 1).drop_last() =~= ev.take(i as int));
                assert(ev.take(i as int + 1).last() == ev[i as int]);
            }
            match &elems[i] {
                PdfObject::Str(b, _) => {
                    let mut extra = crate::object::clone_bytes(b);
                    let ghost before = bytes@;
                    bytes.append(&mut extra);
                    proof {
                        assert(bytes@ =~= before + b@);
                    }
                },
                PdfObject::Integer(_) => {},
                PdfObject::Real(_) => {},
                _ => {
                    proof {
                        crate::text_state::lemma_tj_bytes_err(ev, i as int);
                    }
                    return Err(PdfError::WrongKind);
                },
            }
            i = i + 1;
        }
        proof {
            assert(ev.take(n as int) =~= ev);
        }
    } else {
        return Err(PdfError::WrongKind);
    }
    match font_subtype {
        FontSubtype::Type0 => {
            if bytes.len() % 2 != 0 {
                return Err(PdfError::UnevenCode);
            }
            let mut out: Vec<u16> = Vec::new();
            let half = bytes.len() / 2;
            let mut i: usize = 0;
            while i < half
                invariant
                    bytes@.len() % 2 == 0,
                    half == bytes@.len() / 2,
                    i <= half,
                    out@.len() == i,
                    forall|j: int|
                        0 <= j < i ==> out@[j] == (bytes@[2 * j] * 256 + bytes@[2 * j + 1]) as u16,
                decreases half - i,
            {
                let hi = bytes[2 * i];
                let lo = bytes[2 * i + 1];
                out.push((hi as u16) * 256 + (lo as u16));
                i = i + 1;
            }
            proof {
                assert(out@ =~= Seq::new(
                    bytes@.len() / 2,
                    |j: int| (bytes@[2 * j] * 256 + bytes@[2 * j + 1]) as u16,
                ));
            }
            Ok(out)
        },
        _ => {
            let mut out: Vec<u16> = Vec::new();
            let n = bytes.len();
            let mut i: usize = 0;
            while i < n
                invariant
                    n == bytes@.len(),
                    i <= n,
                    out@.len() == i,
                    forall|j: int| 0 <= j < i ==> out@[j] == bytes@[j] as u16,
                decreases n - i,
            {
                out.push(bytes[i] as u16);
                i = i + 1;
            }
            proof {
                assert(out@ =~= Seq::new(bytes@.len(), |j: int| bytes@[j] as u16));
            }
            Ok(out)
        },
    }
}

/// A `TJ` element of the wrong kind fails the whole extraction.
pub proof fn lemma_tj_bytes_err(elems: Seq<ObjV>, i: int)
    requires
        0 <= i < elems.len(),
        spec_tj_bytes(elems.take(i)) is Ok,
        !(elems[i] is Str),
        !(elems[i] is Integer),
        !(elems[i] is Real),
    ensures
        spec_tj_bytes(elems) == Err::<Seq<u8>, PdfError>(PdfError::WrongKind),
    decreases elems.len() - i,
{
    assert(elems.take(i + 1).drop_last() =~= elems.take(i));
    assert(elems.take(i + 1).last() == elems[i]);
    if i + 1 == elems.len() {
        assert(elems.take(i + 1) =~= elems);
    } else {
        lemma_tj_bytes_err_propagates(elems, i + 1);
    }
}

/// Once a prefix of a `TJ` array fails, the whole array fails the same way.
proof fn lemma_tj_bytes_err_propagates(elems: Seq<ObjV>, i: int)
    requires
        0 <= i <= elems.len(),
        spec_tj_bytes(elems.take(i)) is Err,
    ensures
        spec_tj_bytes(elems) == spec_tj_bytes(elems.take(i)),
    decreases elems.len() - i,
{
    if i < elems.len() {
        assert(elems.take(i + 1).drop_last() =~= elems.take(i));
        lemma_tj_bytes_err_propagates(elems, i + 1);
    } else {
        assert(elems.take(i) =~= elems);
    }
}

/// The character that writes one hexadecimal digit, upper case.
pub open spec fn hex_digit_char(d: nat) -> char {
    if d == 0 {
        '0'
    } else if d == 1 {
        '1'
    } else if d == 2 {
        '2'
    } else if d == 3 {
        '3'
    } else if d == 4 {
        '4'
    } else if d == 5 {
        '5'
    } else if d == 6 {
        '6'
    } else if d == 7 {
        '7'
    } else if d == 8 {
        '8'
    } else if d == 9 {
        '9'
    } else if d == 10 {
        'A'
    } else if d == 11 {
        'B'
    } else if d == 12 {
        'C'
    } else if d == 13 {
        'D'
    } else if d == 14 {
        'E'
    } else {
        'F'
    }
}

/// A glyph code written as four hexadecimal digits.
pub open spec fn hex4_chars(n: u16) -> Seq<char> {
    seq![
        hex_digit_char((n / 4096) as nat),
        hex_digit_char(((n / 256) % 16) as nat),
        hex_digit_char(((n / 16) % 16) as nat),
        hex_digit_char((n % 16) as nat),
    ]
}

/// One dump line: each code as four hexadecimal digits followed by a
/// space, and a line break at the end.
pub open spec fn spec_dump_line(glyphs: Seq<u16>) -> Seq<char>
    decreases glyphs.len(),
{
    if glyphs.len() == 0 {
        "\n"@
    } else {
        hex4_chars(glyphs[0]) + " "@ + spec_dump_line(glyphs.drop_first())
    }
}

/// Writes one hexadecimal digit.
fn hex_digit(d: u16) -> (c: char)
    requires
        d < 16,
    ensures
        c == hex_digit_char(d as nat),
{
    if d == 0 {
        '0'
    } else if d == 1 {
        '1'
    } else if d == 2 {
        '2'
    } else if d == 3 {
        '3'
    } else if d == 4 {
        '4'
    } else if d == 5 {
        '5'
    } else if d == 6 {
        '6'
    } else if d == 7 {
        '7'
    } else if d == 8 {
        '8'
    } else if d == 9 {
        '9'
    } else if d == 10 {
        'A'
    } else if d == 11 {
        'B'
    } else if d == 12 {
        'C'
    } else if d == 13 {
        'D'
    } else if d == 14 {
        'E'
    } else {
        'F'
    }
}

/// Appends a glyph code as four hexadecimal digits.
fn push_hex4(s: &mut String, n: u16)
    ensures
        final(s)@ == old(s)@ + hex4_chars(n),
{
    s.push(hex_digit(n / 4096));
    s.push(hex_digit((n / 256) % 16));
    s.push(hex_digit((n / 16) % 16));
    s.push(hex_digit(n % 16));
    proof {
        assert(final(s)@ =~= old(s)@ + hex4_chars(n));
    }
}

/// Builds the dump line for one text-showing operation.
pub fn glyph_dump_line(glyphs: &Vec<u16>) -> (r: String)
    ensures
        r@ == spec_dump_line(glyphs@),
{
    proof {
        reveal_strlit(" ");
        reveal_strlit("\n");
    }
    let mut s = String::new();
    let n = glyphs.len();
    let mut i: usize = 0;
    proof {
        assert(glyphs@.skip(0) =~= glyphs@);
    }
    while i < n
        invariant
            n == glyphs@.len(),
            i <= n,
            spec_dump_line(glyphs@) == s@ + spec_dump_line(glyphs@.skip(i as int)),
        decreases n - i,
    {
        proof {
            assert(glyphs@.skip(i as int)[0] == glyphs@[i as int]);
            assert(glyphs@.skip(i as int).drop_first() =~= glyphs@.skip(i as int + 1));
        }
        let ghost before = s@;
        push_hex4(&mut s, glyphs[i]);
        s.push(' ');
        proof {
            assert(s@ =~= before + (hex4_chars(glyphs@[i as int]) + " "@));
            assert(before + (hex4_chars(glyphs@[i as int]) + " "@) + spec_dump_line(
                glyphs@.skip(i as int + 1),
            ) =~= before + (hex4_chars(glyphs@[i as int]) + " "@ + spec_dump_line(
                glyphs@.skip(i as int + 1),
            )));
        }
        i = i + 1;
    }
    proof {
        assert(glyphs@.skip(n as int) =~= Seq::<u16>::empty());
    }
    s.push('\n');
    proof {
        assert(s@ =~= spec_dump_line(glyphs@));
    }
    s
}

/// The per-font replacement table: glyph code to resolved text, the single
/// authoritative source for annotation (CMap candidates are informational
/// and are dumped, never chosen from).
#[derive(Debug, PartialEq, Eq)]
pub struct GlyphTextMap {
    pub entries: Vec<(u16, String)>,
}

/// The shape of a replacement table.
pub open spec fn gm_v(s: Seq<(u16, String)>) -> Seq<(u16, Seq<char>)> {
    Seq::new(s.len(), |i: int| (s[i].0, s[i].1@))
}

/// The text recorded under a glyph code: the first entry that carries it.
pub open spec fn gm_get(m: Seq<(u16, Seq<char>)>, g: u16) -> Option<Seq<char>>
    decreases m.len(),
{
    if m.len() == 0 {
        None
    } else if m[0].0 == g {
        Some(m[0].1)
    } else {
        gm_get(m.drop_first(), g)
    }
}

impl GlyphTextMap {
    /// A table without entries.
    pub fn new() -> (r: GlyphTextMap)
        ensures
            r.entries@.len() == 0,
    {
        GlyphTextMap { entries: Vec::new() }
    }

    /// The replacement text under a glyph code, or `None`.
    pub fn get(&self, g: u16) -> (r: Option<&String>)
        ensures
            match r {
                Some(t) => gm_get(gm_v(self.entries@), g) == Some(t@),
                None => gm_get(gm_v(self.entries@), g) is None,
            },
    {
        let n = self.entries.len();
        let mut i: usize = 0;
        proof {
            assert(gm_v(self.entries@).skip(0) =~= gm_v(self.entries@));
        }
        while i < n
            invariant
                n == self.entries@.len(),
                i <= n,
                gm_get(gm_v(self.entries@), g) == gm_get(gm_v(self.entries@).skip(i as int), g),
            decreases n - i,
        {
            proof {
                assert(gm_v(self.entries@).skip(i as int)[0] == gm_v(self.entries@)[i as int]);
            }
            if self.entries[i].0 == g {
                return Some(&self.entries[i].1);
            }
            proof {
                assert(gm_v(self.entries@).skip(i as int).drop_first() =~= gm_v(
                    self.entries@,
                ).skip(i as int + 1));
            }
            i = i + 1;
        }
        proof {
            assert(gm_v(self.entries@).skip(n as int) =~= Seq::<(u16, Seq<char>)>::empty());
        }
        None
    }
}

/// The placeholder text recorded for an unmapped glyph.
pub open spec fn placeholder_text(g: u16) -> Seq<char> {
    "[glyph"@ + hex4_chars(g) + "]"@
}

/// What resolving a code sequence against a replacement table yields: the
/// texts in code order, concatenated, together with the table as it stands
/// afterwards — unchanged, unless the placeholder policy recorded new
/// entries for unmapped codes.
pub open spec fn spec_resolve_glyphs(
    m: Seq<(u16, Seq<char>)>,
    glyphs: Seq<u16>,
    policy: GlyphPolicy,
) -> Result<(Seq<char>, Seq<(u16, Seq<char>)>), PdfError>
    decreases glyphs.len(),
{
    if glyphs.len() == 0 {
        Ok((Seq::empty(), m))
    } else {
        match gm_get(m, glyphs[0]) {
            Some(t) => match spec_resolve_glyphs(m, glyphs.drop_first(), policy) {
                Err(e) => Err(e),
                Ok((body, m2)) => Ok((t + body, m2)),
            },
            None => match policy {
                GlyphPolicy::Fail => Err(PdfError::UnresolvedGlyph),
                GlyphPolicy::Placeholder => {
                    let t = placeholder_text(glyphs[0]);
                    match spec_resolve_glyphs(m.push((glyphs[0], t)), glyphs.drop_first(), policy) {
                        Err(e) => Err(e),
                        Ok((body, m2)) => Ok((t + body, m2)),
                    }
                },
            },
        }
    }
}

/// Resolves a code sequence to its replacement text.
pub fn resolve_glyphs(map: &mut GlyphTextMap, glyphs: &Vec<u16>, policy: GlyphPolicy) -> (r: Result<
    String,
    PdfError,
>)
    ensures
        match r {
            Ok(t) => spec_resolve_glyphs(gm_v(old(map).entries@), glyphs@, policy) matches Ok(p)
                && p.0 == t@ && p.1 == gm_v(final(map).entries@),
            Err(e) => spec_resolve_glyphs(gm_v(old(map).entries@), glyphs@, policy) == Err::<
                (Seq<char>, Seq<(u16, Seq<char>)>),
                PdfError,
            >(e) && final(map).entries@ == old(map).entries@,
        },
{
    proof {
        reveal_strlit("[glyph");
        reveal_strlit("]");
    }
    let mut body = String::new();
    let n = glyphs.len();
    let mut i: usize = 0;
    proof {
        assert(glyphs@.skip(0) =~= glyphs@);
    }
    while i < n
        invariant
            n == glyphs@.len(),
            i <= n,
            spec_resolve_glyphs(gm_v(old(map).entries@), glyphs@, policy) == (match
                spec_resolve_glyphs(gm_v(map.entries@), glyphs@.skip(i as int), policy) {
                Ok(p) => Ok::<(Seq<char>, Seq<(u16, Seq<char>)>), PdfError>(
                    (body@ + p.0, p.1),
                ),
                Err(e) => Err::<(Seq<char>, Seq<(u16, Seq<char>)>), PdfError>(e),
            }),
            policy is Fail ==> map.entries@ == old(map).entries@,
        decreases n - i,
    {
        proof {
            assert(glyphs@.skip(i as int)[0] == glyphs@[i as int]);
            assert(glyphs@.skip(i as int).drop_first() =~= glyphs@.skip(i as int + 1));
        }
        let g = glyphs[i];
        let ghost body0 = body@;
        let ghost m_pre = gm_v(map.entries@);
        let resolved: Option<String> = match map.get(g) {
            Some(t) => Some(t.clone()),
            None => None,
        };
        match resolved {
            Some(piece) => {
                proof {
                    assert(gm_get(m_pre, g) == Some(piece@));
                }
                body.append(piece.as_str());
                proof {
                    let rest = spec_resolve_glyphs(m_pre, glyphs@.skip(i as int + 1), policy);
                    if rest is Ok {
                        let p2 = rest->Ok_0;
                        assert(body0 + (piece@ + p2.0) =~= (body0 + piece@) + p2.0);
                    }
                }
            },
            None => {
                match policy {
                    GlyphPolicy::Fail => {
                        return Err(PdfError::UnresolvedGlyph);
                    },
                    GlyphPolicy::Placeholder => {
                        let mut ph = String::new();
                        ph.append("[glyph");
                        push_hex4(&mut ph, g);
                        ph.push(']');
                        proof {
                            assert(ph@ =~= placeholder_text(g));
                        }
                        body.append(ph.as_str());
                        map.entries.push((g, ph));
                        proof {
                            assert(gm_v(map.entries@) =~= m_pre.push((g, placeholder_text(g))));
                            let rest = spec_resolve_glyphs(
                                gm_v(map.entries@),
                                glyphs@.skip(i as int + 1),
                                policy,
                            );
                            if rest is Ok {
                                let p2 = rest->Ok_0;
                                assert(body0 + (placeholder_text(g) + p2.0) =~= (body0
                                    + placeholder_text(g)) + p2.0);
                            }
                        }
                    },
                }
            },
        }
        i = i + 1;
    }
    proof {
        assert(glyphs@.skip(n as int) =~= Seq::<u16>::empty());
        assert(body@ + Seq::<char>::empty() =~= body@);
    }
    Ok(body)
}

/// The annotation text for one text-showing operation: the resolved text,
/// wrapped in the font's base name as bracketed tags, and in slant tags
/// when the text matrix was slanted.
pub open spec fn spec_annotation_text(name: Seq<char>, body: Seq<char>, slant: bool) -> Seq<char> {
    let tagged = "["@ + name + "]"@ + body + "[/"@ + name + "]"@;
    if slant {
        "[sl]"@ + tagged + "[/sl]"@
    } else {
        tagged
    }
}

/// Builds the annotation text for one text-showing operation.
pub fn build_annotation_text(name: &str, body: &str, slant: bool) -> (r: String)
    ensures
        r@ == spec_annotation_text(name@, body@, slant),
{
    let mut s = String::new();
    if slant {
        s.append("[sl]");
    }
    s.append("[");
    s.append(name);
    s.append("]");
    s.append(body);
    s.append("[/");
    s.append(name);
    s.append("]");
    if slant {
        s.append("[/sl]");
    }
    proof {
        assert(s@ =~= spec_annotation_text(name@, body@, slant));
    }
    s
}


} // verus!
