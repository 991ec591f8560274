//! ToUnicode CMap parsing.
//!
//! A ToUnicode stream is a content-stream program whose `endbfchar` and
//! `endbfrange` operators declare what text a character code stands for.
//! Parsing folds those operators into a code-to-candidate-texts table; a
//! code may legitimately accumulate several distinct candidates, so the
//! table keeps them all, in first-seen order.

#![verifier::loop_isolation(false)]

use vstd::prelude::*;
use vstd::string::StringSliceAdditionalSpecFns;

use crate::bytecode::{be_bytes, be_val, from_many_bytes, pow256, to_many_bytes};
use crate::error::PdfError;
use crate::object::{bytes_eq, str_eq, Op, PdfObject};
use crate::text_string::{units_of_be_bytes, utf16_decode, utf16be_decode_to_string};

verus! {

/// A character code: the raw byte string that selects a glyph.
#[derive(Debug, PartialEq, Eq, Hash)]
pub struct CharacterCode(pub Vec<u8>);

/// The code-to-candidate-texts table parsed from a ToUnicode CMap.
///
/// Entries are kept in first-seen order, one per distinct code; each entry's
/// candidates are kept in first-seen order without repetition.
#[derive(Debug, PartialEq, Eq)]
pub struct ToUnicodeCMap {
    pub mapped: Vec<(CharacterCode, Vec<String>)>,
}

/// The shapes of a candidate list.
pub open spec fn strings_v(v: Seq<String>) -> Seq<Seq<char>> {
    Seq::new(v.len(), |i: int| v[i]@)
}

/// The shape of the table: codes and candidate texts as sequences.
pub open spec fn cm_v(s: Seq<(CharacterCode, Vec<String>)>) -> Seq<(Seq<u8>, Seq<Seq<char>>)> {
    Seq::new(s.len(), |i: int| (s[i].0.0@, strings_v(s[i].1@)))
}

/// The table's shape has one entry per table entry.
pub proof fn lemma_cm_len(s: Seq<(CharacterCode, Vec<String>)>)
    ensures
        cm_v(s).len() == s.len(),
{
}

/// The candidates recorded under a code: the first entry that carries it.
pub open spec fn cm_get(m: Seq<(Seq<u8>, Seq<Seq<char>>)>, k: Seq<u8>) -> Option<Seq<Seq<char>>>
    decreases m.len(),
{
    if m.len() == 0 {
        None
    } else if m[0].0 == k {
        Some(m[0].1)
    } else {
        cm_get(m.drop_first(), k)
    }
}

/// The index of the first entry under a code, or the length if none.
pub open spec fn cm_key_index(m: Seq<(Seq<u8>, Seq<Seq<char>>)>, k: Seq<u8>) -> int
    decreases m.len(),
{
    if m.len() == 0 {
        0
    } else if m[0].0 == k {
        0
    } else {
        1 + cm_key_index(m.drop_first(), k)
    }
}

/// What recording one candidate text under one code does to the table: a
/// new code is appended; a known code gains the text unless it already has
/// it.
pub open spec fn spec_insert_mapping(
    m: Seq<(Seq<u8>, Seq<Seq<char>>)>,
    k: Seq<u8>,
    t: Seq<char>,
) -> Seq<(Seq<u8>, Seq<Seq<char>>)> {
    let i = cm_key_index(m, k);
    if i == m.len() {
        m.push((k, seq![t]))
    } else if m[i].1.contains(t) {
        m
    } else {
        m.update(i, (k, m[i].1.push(t)))
    }
}

/// The first-match index and the first-match lookup agree.
pub proof fn lemma_cm_key_index(m: Seq<(Seq<u8>, Seq<Seq<char>>)>, k: Seq<u8>)
    ensures
        0 <= cm_key_index(m, k) <= m.len(),
        cm_key_index(m, k) == m.len() <==> cm_get(m, k) is None,
        cm_key_index(m, k) < m.len() ==> m[cm_key_index(m, k)].0 == k && cm_get(m, k) == Some(
            m[cm_key_index(m, k)].1,
        ),
        forall|j: int| 0 <= j < cm_key_index(m, k) ==> m[j].0 != k,
    decreases m.len(),
{
    if m.len() > 0 && m[0].0 != k {
        lemma_cm_key_index(m.drop_first(), k);
        assert forall|j: int| 0 <= j < cm_key_index(m, k) implies m[j].0 != k by {
            if j > 0 {
                assert(m.drop_first()[j - 1] == m[j]);
            }
        }
    }
}

/// Recording a candidate changes the lookup for that code alone.
pub proof fn lemma_insert_mapping_get(
    m: Seq<(Seq<u8>, Seq<Seq<char>>)>,
    k: Seq<u8>,
    t: Seq<char>,
)
    ensures
        cm_get(spec_insert_mapping(m, k, t), k) == Some(
            match cm_get(m, k) {
                None => seq![t],
                Some(cs) => if cs.contains(t) {
                    cs
                } else {
                    cs.push(t)
                },
            },
        ),
        forall|k2: Seq<u8>| k2 != k ==> cm_get(spec_insert_mapping(m, k, t), k2) == cm_get(m, k2),
    decreases m.len(),
{
    lemma_cm_key_index(m, k);
    let i = cm_key_index(m, k);
    if m.len() == 0 {
        assert forall|k2: Seq<u8>| k2 != k implies cm_get(spec_insert_mapping(m, k, t), k2)
            == cm_get(m, k2) by {
            assert(m.push((k, seq![t]))[0] == (k, seq![t]));
            assert(m.push((k, seq![t])).drop_first() =~= Seq::<(Seq<u8>, Seq<Seq<char>>)>::empty());
            assert(cm_get(m.push((k, seq![t])).drop_first(), k2) is None);
        }
        assert(m.push((k, seq![t]))[0] == (k, seq![t]));
    } else if m[0].0 == k {
        if !m[0].1.contains(t) {
            let r = m.update(0, (k, m[0].1.push(t)));
            assert(r[0] == (k, m[0].1.push(t)));
            assert forall|k2: Seq<u8>| k2 != k implies cm_get(r, k2) == cm_get(m, k2) by {
                assert(r.drop_first() =~= m.drop_first());
            }
        }
    } else {
        lemma_insert_mapping_get(m.drop_first(), k, t);
        let r = spec_insert_mapping(m, k, t);
        let rd = spec_insert_mapping(m.drop_first(), k, t);
        if i == m.len() {
            assert(r.drop_first() =~= rd);
            assert(r[0] == m[0]);
        } else {
            if m[i].1.contains(t) {
            } else {
                assert(m.drop_first()[i - 1] == m[i]);
                assert(cm_key_index(m.drop_first(), k) == i - 1);
                assert(r.drop_first() =~= rd);
                assert(r[0] == m[0]);
            }
        }
        assert(cm_get(r, k) == cm_get(rd, k));
        assert forall|k2: Seq<u8>| k2 != k implies cm_get(r, k2) == cm_get(m, k2) by {
            if k2 == m[0].0 {
                assert(r[0] == m[0]);
                assert(cm_get(r, k2) == Some(r[0].1));
                assert(cm_get(m, k2) == Some(m[0].1));
            } else {
                assert(r.drop_first() =~= rd);
                assert(cm_get(r, k2) == cm_get(rd, k2));
                assert(cm_get(rd, k2) == cm_get(m.drop_first(), k2));
                assert(cm_get(m, k2) == cm_get(m.drop_first(), k2));
            }
        }
    }
}

/// What expanding one source code of a bfrange does to the table: the
/// destination is `src - begin + offset`; a zero destination is the
/// unmapped sentinel and is skipped; one that does not fit two bytes, or
/// decodes to no scalar value, fails the whole range.
pub open spec fn spec_expand_one(
    m: Seq<(Seq<u8>, Seq<Seq<char>>)>,
    begin: nat,
    klen: nat,
    offset: nat,
    src: nat,
) -> Result<Seq<(Seq<u8>, Seq<Seq<char>>)>, PdfError> {
    let dst = src + offset - begin;
    if dst == 0 {
        Ok(m)
    } else if dst >= 0x10000 {
        Err(PdfError::ValueTooLarge)
    } else {
        match utf16_decode(units_of_be_bytes(be_bytes(dst as nat, 2))) {
            None => Err(PdfError::InvalidUtf16),
            Some(t) => Ok(spec_insert_mapping(m, be_bytes(src, klen), t)),
        }
    }
}

/// What expanding the rest of a bfrange, from `src` to `end`, does.
pub open spec fn spec_expand(
    m: Seq<(Seq<u8>, Seq<Seq<char>>)>,
    begin: nat,
    end: nat,
    klen: nat,
    offset: nat,
    src: nat,
) -> Result<Seq<(Seq<u8>, Seq<Seq<char>>)>, PdfError>
    decreases end + 1 - src,
{
    if src > end {
        Ok(m)
    } else {
        match spec_expand_one(m, begin, klen, offset, src) {
            Err(e) => Err(e),
            Ok(m2) => spec_expand(m2, begin, end, klen, offset, src + 1),
        }
    }
}

/// Expansion over codes whose destinations are all nonzero: every source
/// code in `[src, end]` gains exactly its one decoded destination text,
/// every code outside the range keeps its candidates, and the table grows
/// by one entry per source code.
proof fn lemma_expand_fresh(
    m: Seq<(Seq<u8>, Seq<Seq<char>>)>,
    begin: nat,
    end: nat,
    klen: nat,
    offset: nat,
    src: nat,
)
    requires
        begin <= src <= end + 1,
        end < pow256(klen),
        klen <= 8,
        src + offset > begin,
        spec_expand(m, begin, end, klen, offset, src) is Ok,
        forall|s: nat| src <= s <= end ==> cm_get(m, #[trigger] be_bytes(s, klen)) is None,
    ensures
        ({
            let r = spec_expand(m, begin, end, klen, offset, src)->Ok_0;
            &&& r.len() == m.len() + (end + 1 - src)
            &&& (forall|s: nat|
                src <= s <= end ==> cm_get(r, #[trigger] be_bytes(s, klen)) == Some(
                    seq![
                        utf16_decode(
                            units_of_be_bytes(be_bytes((s + offset - begin) as nat, 2)),
                        )->Some_0,
                    ],
                ))
            &&& (forall|k2: Seq<u8>|
                !(k2.len() == klen && src <= be_val(k2) <= end) ==> #[trigger] cm_get(r, k2)
                    == cm_get(m, k2))
        }),
    decreases end + 1 - src,
{
    if src > end {
    } else {
        let key = be_bytes(src, klen);
        crate::bytecode::lemma_be_bytes_len(src, klen);
        crate::bytecode::lemma_be_val_of_be_bytes(src, klen);
        let dst = (src + offset - begin) as nat;
        let t = utf16_decode(units_of_be_bytes(be_bytes(dst, 2)))->Some_0;
        let m2 = spec_insert_mapping(m, key, t);
        lemma_cm_key_index(m, key);
        lemma_insert_mapping_get(m, key, t);
        assert(m2.len() == m.len() + 1);
        assert forall|s: nat| src + 1 <= s <= end implies cm_get(
            m2,
            #[trigger] be_bytes(s, klen),
        ) is None by {
            crate::bytecode::lemma_be_val_of_be_bytes(s, klen);
            assert(be_bytes(s, klen) != key);
        }
        lemma_expand_fresh(m2, begin, end, klen, offset, src + 1);
        let r = spec_expand(m, begin, end, klen, offset, src)->Ok_0;
        assert(r == spec_expand(m2, begin, end, klen, offset, src + 1)->Ok_0);
        assert(cm_get(r, key) == cm_get(m2, key)) by {
            crate::bytecode::lemma_be_bytes_len(src, klen);
        }
        assert forall|k2: Seq<u8>| !(k2.len() == klen && src <= be_val(k2) <= end)
            implies #[trigger] cm_get(r, k2) == cm_get(m, k2) by {
            if k2 == key {
                crate::bytecode::lemma_be_val_of_be_bytes(src, klen);
            } else {
                assert(cm_get(m2, k2) == cm_get(m, k2));
                assert(cm_get(r, k2) == cm_get(m2, k2));
            }
        }
    }
}

/// Expanding a bfrange from an empty table produces exactly
/// `end - begin + 1` entries, less the single one whose destination is the
/// zero sentinel, and maps every source code in `[begin, end]` to its
/// destination `src - begin + offset`.
pub proof fn lemma_bfrange_expansion(begin: nat, end: nat, klen: nat, offset: nat)
    requires
        begin <= end,
        klen <= 8,
        end < pow256(klen),
        spec_expand(
            Seq::<(Seq<u8>, Seq<Seq<char>>)>::empty(),
            begin,
            end,
            klen,
            offset,
            begin,
        ) is Ok,
    ensures
        ({
            let r = spec_expand(
                Seq::<(Seq<u8>, Seq<Seq<char>>)>::empty(),
                begin,
                end,
                klen,
                offset,
                begin,
            )->Ok_0;
            &&& r.len() == end - begin + 1 - (if offset == 0 {
                1int
            } else {
                0int
            })
            &&& (forall|s: nat|
                begin <= s <= end && s + offset != begin ==> cm_get(
                    r,
                    #[trigger] be_bytes(s, klen),
                ) == Some(
                    seq![
                        utf16_decode(
                            units_of_be_bytes(be_bytes((s + offset - begin) as nat, 2)),
                        )->Some_0,
                    ],
                ))
            &&& (offset == 0 ==> cm_get(r, be_bytes(begin, klen)) is None)
        }),
{
    let empty = Seq::<(Seq<u8>, Seq<Seq<char>>)>::empty();
    if offset == 0 {
        assert(spec_expand_one(empty, begin, klen, offset, begin) == Ok::<
            Seq<(Seq<u8>, Seq<Seq<char>>)>,
            PdfError,
        >(empty));
        if begin == end {
        } else {
            lemma_expand_fresh(empty, begin, end, klen, offset, begin + 1);
            let r = spec_expand(empty, begin, end, klen, offset, begin)->Ok_0;
            assert(r == spec_expand(empty, begin, end, klen, offset, begin + 1)->Ok_0);
            assert(cm_get(r, be_bytes(begin, klen)) is None) by {
                crate::bytecode::lemma_be_bytes_len(begin, klen);
                crate::bytecode::lemma_be_val_of_be_bytes(begin, klen);
            }
        }
    } else {
        lemma_expand_fresh(empty, begin, end, klen, offset, begin);
    }
}

impl ToUnicodeCMap {
    /// A table without entries.
    pub fn new() -> (r: ToUnicodeCMap)
        ensures
            r.mapped@.len() == 0,
    {
        ToUnicodeCMap { mapped: Vec::new() }
    }

    /// Records one candidate text under one code.
    pub fn insert_mapping(&mut self, code: Vec<u8>, text: String) -> (r: ())
        ensures
            cm_v(final(self).mapped@) == spec_insert_mapping(
                cm_v(old(self).mapped@),
                code@,
                text@,
            ),
    {
        let ghost m0 = cm_v(self.mapped@);
        let ghost k = code@;
        let n = self.mapped.len();
        let mut i: usize = 0;
        while i < n
            invariant
                n == self.mapped@.len(),
                i <= n,
                self.mapped@ == old(self).mapped@,
                forall|j: int| 0 <= j < i ==> m0[j].0 != k,
            decreases n - i,
        {
            if bytes_eq(self.mapped[i].0.0.as_slice(), code.as_slice()) {
                proof {
                    lemma_cm_key_index(m0, k);
                    assert(m0[i as int].0 == k);
                    assert(cm_key_index(m0, k) == i);
                }
                let cn = self.mapped[i].1.len();
                let mut ci: usize = 0;
                while ci < cn
                    invariant
                        n == self.mapped@.len(),
                        i < n,
                        cn == self.mapped@[i as int].1@.len(),
                        ci <= cn,
                        self.mapped@ == old(self).mapped@,
                        forall|j: int| 0 <= j < ci ==> m0[i as int].1[j] != text@,
                    decreases cn - ci,
                {
                    if str_eq(self.mapped[i].1[ci].as_str(), text.as_str()) {
                        proof {
                            assert(m0[i as int].1[ci as int] == text@);
                            assert(m0[i as int].1.contains(text@));
                            assert(spec_insert_mapping(m0, k, text@) == m0);
                        }
                        return ;
                    }
                    ci = ci + 1;
                }
                proof {
                    assert(!m0[i as int].1.contains(text@)) by {
                        if m0[i as int].1.contains(text@) {
                            let widx = choose|widx: int|
                                0 <= widx < m0[i as int].1.len() && m0[i as int].1[widx] == text@;
                            assert(false);
                        }
                    }
                }
                let ghost before = self.mapped@;
                let (cc, mut cands) = self.mapped.remove(i);
                cands.push(text);
                self.mapped.insert(i, (cc, cands));
                proof {
                    assert(self.mapped@ =~= before.update(
                        i as int,
                        self.mapped@[i as int],
                    ));
                    assert(self.mapped@[i as int].0.0@ == k);
                    assert(strings_v(self.mapped@[i as int].1@) =~= m0[i as int].1.push(text@));
                    assert(cm_v(self.mapped@) =~= m0.update(
                        i as int,
                        (k, m0[i as int].1.push(text@)),
                    ));
                }
                return ;
            }
            i = i + 1;
        }
        proof {
            lemma_cm_key_index(m0, k);
            assert(cm_key_index(m0, k) == n) by {
                if cm_key_index(m0, k) < n {
                    assert(m0[cm_key_index(m0, k)].0 == k);
                }
            }
        }
        let mut cands: Vec<String> = Vec::new();
        cands.push(text);
        self.mapped.push((CharacterCode(code), cands));
        proof {
            assert(strings_v(self.mapped@[n as int].1@) =~= seq![text@]);
            assert(cm_v(self.mapped@) =~= m0.push((k, seq![text@])));
        }
    }

    /// Parses a ToUnicode stream object into a code-to-texts table.
    ///
    /// The object must be a stream whose content was decodable as operators;
    /// one that was not is an `UnsupportedCMapFormat` error, which callers
    /// treat as a fault of that font alone. Every `endbfchar` records its
    /// source/destination pairs, every `endbfrange` expands its triples, and
    /// all other operators are ignored.
    pub fn parse(stream_object: &PdfObject) -> (r: Result<ToUnicodeCMap, PdfError>)
        ensures
            match r {
                Ok(cm) => spec_cmap_parse(*stream_object) == Ok::<
                    Seq<(Seq<u8>, Seq<Seq<char>>)>,
                    PdfError,
                >(cm_v(cm.mapped@)),
                Err(e) => spec_cmap_parse(*stream_object) == Err::<
                    Seq<(Seq<u8>, Seq<Seq<char>>)>,
                    PdfError,
                >(e),
            },
    {
        match stream_object {
            PdfObject::Stream(st) => match &st.ops {
                None => Err(PdfError::UnsupportedCMapFormat),
                Some(v) => Self::parse_ops(v),
            },
            _ => Err(PdfError::WrongKind),
        }
    }

    /// Folds a decoded operator sequence into a code-to-texts table.
    pub fn parse_ops(ops: &Vec<Op>) -> (r: Result<ToUnicodeCMap, PdfError>)
        ensures
            match r {
                Ok(cm) => spec_cmap_fold(
                    Seq::<(Seq<u8>, Seq<Seq<char>>)>::empty(),
                    ops@,
                ) == Ok::<Seq<(Seq<u8>, Seq<Seq<char>>)>, PdfError>(cm_v(cm.mapped@)),
                Err(e) => spec_cmap_fold(
                    Seq::<(Seq<u8>, Seq<Seq<char>>)>::empty(),
                    ops@,
                ) == Err::<Seq<(Seq<u8>, Seq<Seq<char>>)>, PdfError>(e),
            },
    {
        proof {
            reveal_strlit("endbfchar");
            reveal_strlit("endbfrange");
        }
        let mut cmap = ToUnicodeCMap::new();
        proof {
            assert(cm_v(cmap.mapped@) =~= Seq::<(Seq<u8>, Seq<Seq<char>>)>::empty());
            assert(ops@.skip(0) =~= ops@);
        }
        let n = ops.len();
        let mut i: usize = 0;
        while i < n
            invariant
                n == ops@.len(),
                i <= n,
                spec_cmap_fold(Seq::<(Seq<u8>, Seq<Seq<char>>)>::empty(), ops@)
                    == spec_cmap_fold(cm_v(cmap.mapped@), ops@.skip(i as int)),
            decreases n - i,
        {
            proof {
                assert(ops@.skip(i as int)[0] == ops@[i as int]);
                assert(ops@.skip(i as int).drop_first() =~= ops@.skip(i as int + 1));
            }
            let op = &ops[i];
            if str_eq(op.operator.as_str(), "endbfchar") {
                match Self::parse_bfchar(&mut cmap, &op.operands) {
                    Ok(()) => {},
                    Err(e) => {
                        return Err(e);
                    },
                }
            } else if str_eq(op.operator.as_str(), "endbfrange") {
                match Self::parse_bfrange(&mut cmap, &op.operands) {
                    Ok(()) => {},
                    Err(e) => {
                        return Err(e);
                    },
                }
            }
            i = i + 1;
        }
        proof {
            assert(ops@.skip(n as int) =~= Seq::<Op>::empty());
        }
        Ok(cmap)
    }

    /// Records the source/destination pairs of one `endbfchar`.
    fn parse_bfchar(cmap: &mut ToUnicodeCMap, operands: &Vec<PdfObject>) -> (r: Result<
        (),
        PdfError,
    >)
        ensures
            match r {
                Ok(()) => spec_bfchar(cm_v(old(cmap).mapped@), operands@) == Ok::<
                    Seq<(Seq<u8>, Seq<Seq<char>>)>,
                    PdfError,
                >(cm_v(final(cmap).mapped@)),
                Err(e) => spec_bfchar(cm_v(old(cmap).mapped@), operands@) == Err::<
                    Seq<(Seq<u8>, Seq<Seq<char>>)>,
                    PdfError,
                >(e),
            },
    {
        let n = operands.len();
        let mut i: usize = 0;
        proof {
            assert(operands@.skip(0) =~= operands@);
        }
        while i < n
            invariant
                n == operands@.len(),
                i <= n,
                spec_bfchar(cm_v(old(cmap).mapped@), operands@) == spec_bfchar(
                    cm_v(cmap.mapped@),
                    operands@.skip(i as int),
                ),
            decreases n - i,
        {
            proof {
                assert(operands@.skip(i as int)[0] == operands@[i as int]);
            }
            if n - i == 1 {
                return Err(PdfError::BadCMapOperands);
            }
            proof {
                assert(operands@.skip(i as int)[1] == operands@[i as int + 1]);
                assert(operands@.skip(i as int).skip(2) =~= operands@.skip(i as int + 2));
            }
            let src = match &operands[i] {
                PdfObject::Str(b, _) => b,
                _ => {
                    return Err(PdfError::BadCMapOperands);
                },
            };
            let dstb = match &operands[i + 1] {
                PdfObject::Str(b, _) => b,
                _ => {
                    return Err(PdfError::BadCMapOperands);
                },
            };
            if src.len() > 8 {
                return Err(PdfError::CodeTooLong);
            }
            let text = match utf16be_decode_to_string(dstb.as_slice()) {
                Ok(t) => t,
                Err(e) => {
                    return Err(e);
                },
            };
            if !bytes_all_zero(dstb.as_slice()) {
                let key = crate::object::clone_bytes(src);
                cmap.insert_mapping(key, text);
            }
            i = i + 2;
        }
        proof {
            assert(operands@.skip(n as int) =~= Seq::<PdfObject>::empty());
        }
        Ok(())
    }

    /// Expands the begin/end/offset triples of one `endbfrange`.
    fn parse_bfrange(cmap: &mut ToUnicodeCMap, operands: &Vec<PdfObject>) -> (r: Result<
        (),
        PdfError,
    >)
        ensures
            match r {
                Ok(()) => spec_bfrange(cm_v(old(cmap).mapped@), operands@) == Ok::<
                    Seq<(Seq<u8>, Seq<Seq<char>>)>,
                    PdfError,
                >(cm_v(final(cmap).mapped@)),
                Err(e) => spec_bfrange(cm_v(old(cmap).mapped@), operands@) == Err::<
                    Seq<(Seq<u8>, Seq<Seq<char>>)>,
                    PdfError,
                >(e),
            },
    {
        let n = operands.len();
        let mut i: usize = 0;
        proof {
            assert(operands@.skip(0) =~= operands@);
        }
        while i < n
            invariant
                n == operands@.len(),
                i <= n,
                spec_bfrange(cm_v(old(cmap).mapped@), operands@) == spec_bfrange(
                    cm_v(cmap.mapped@),
                    operands@.skip(i as int),
                ),
            decreases n - i,
        {
            proof {
                assert(operands@.skip(i as int)[0] == operands@[i as int]);
            }
            if n - i < 3 {
                return Err(PdfError::BadCMapOperands);
            }
            proof {
                assert(operands@.skip(i as int)[1] == operands@[i as int + 1]);
                assert(operands@.skip(i as int)[2] == operands@[i as int + 2]);
                assert(operands@.skip(i as int).skip(3) =~= operands@.skip(i as int + 3));
            }
            let bb = match &operands[i] {
                PdfObject::Str(b, _) => b,
                _ => {
                    return Err(PdfError::BadCMapOperands);
                },
            };
            let eb = match &operands[i + 1] {
                PdfObject::Str(b, _) => b,
                _ => {
                    return Err(PdfError::BadCMapOperands);
                },
            };
            let ob = match &operands[i + 2] {
                PdfObject::Str(b, _) => b,
                _ => {
                    return Err(PdfError::BadCMapOperands);
                },
            };
            if bb.len() != eb.len() {
                return Err(PdfError::BadCMapOperands);
            }
            if bb.len() > 8 {
                return Err(PdfError::CodeTooLong);
            }
            if ob.len() > 8 {
                return Err(PdfError::CodeTooLong);
            }
            proof {
                crate::bytecode::lemma_be_val_bound(bb@);
                crate::bytecode::lemma_be_val_bound(eb@);
            }
            let begin = from_many_bytes(bb.as_slice());
            let end = from_many_bytes(eb.as_slice());
            let offset = from_many_bytes(ob.as_slice());
            match Self::expand_range(cmap, begin, end, bb.len(), offset) {
                Ok(()) => {},
                Err(e) => {
                    return Err(e);
                },
            }
            i = i + 3;
        }
        proof {
            assert(operands@.skip(n as int) =~= Seq::<PdfObject>::empty());
        }
        Ok(())
    }

    /// Expands every source code of one range.
    fn expand_range(cmap: &mut ToUnicodeCMap, begin: u64, end: u64, klen: usize, offset: u64) -> (r:
        Result<(), PdfError>)
        requires
            klen <= 8,
            begin < pow256(klen as nat),
            end < pow256(klen as nat),
        ensures
            match r {
                Ok(()) => spec_expand(
                    cm_v(old(cmap).mapped@),
                    begin as nat,
                    end as nat,
                    klen as nat,
                    offset as nat,
                    begin as nat,
                ) == Ok::<Seq<(Seq<u8>, Seq<Seq<char>>)>, PdfError>(cm_v(final(cmap).mapped@)),
                Err(e) => spec_expand(
                    cm_v(old(cmap).mapped@),
                    begin as nat,
                    end as nat,
                    klen as nat,
                    offset as nat,
                    begin as nat,
                ) == Err::<Seq<(Seq<u8>, Seq<Seq<char>>)>, PdfError>(e),
            },
    {
        if begin > end {
            return Ok(());
        }
        let mut src = begin;
        while src < end
            invariant
                begin <= src <= end,
                klen <= 8,
                end < pow256(klen as nat),
                spec_expand(
                    cm_v(old(cmap).mapped@),
                    begin as nat,
                    end as nat,
                    klen as nat,
                    offset as nat,
                    begin as nat,
                ) == spec_expand(
                    cm_v(cmap.mapped@),
                    begin as nat,
                    end as nat,
                    klen as nat,
                    offset as nat,
                    src as nat,
                ),
            decreases end - src,
        {
            match Self::expand_one(cmap, begin, klen, offset, src) {
                Ok(()) => {},
                Err(e) => {
                    return Err(e);
                },
            }
            src = src + 1;
        }
        let ghost m_before = cm_v(cmap.mapped@);
        match Self::expand_one(cmap, begin, klen, offset, end) {
            Ok(()) => {},
            Err(e) => {
                return Err(e);
            },
        }
        proof {
            assert(spec_expand(
                cm_v(cmap.mapped@),
                begin as nat,
                end as nat,
                klen as nat,
                offset as nat,
                end as nat + 1,
            ) == Ok::<Seq<(Seq<u8>, Seq<Seq<char>>)>, PdfError>(cm_v(cmap.mapped@)));
            assert(spec_expand(
                m_before,
                begin as nat,
                end as nat,
                klen as nat,
                offset as nat,
                end as nat,
            ) == Ok::<Seq<(Seq<u8>, Seq<Seq<char>>)>, PdfError>(cm_v(cmap.mapped@)));
        }
        Ok(())
    }

    /// Expands one source code of a range.
    fn expand_one(cmap: &mut ToUnicodeCMap, begin: u64, klen: usize, offset: u64, src: u64) -> (r:
        Result<(), PdfError>)
        requires
            src >= begin,
            klen <= 8,
            src < pow256(klen as nat),
        ensures
            match r {
                Ok(()) => spec_expand_one(
                    cm_v(old(cmap).mapped@),
                    begin as nat,
                    klen as nat,
                    offset as nat,
                    src as nat,
                ) == Ok::<Seq<(Seq<u8>, Seq<Seq<char>>)>, PdfError>(cm_v(final(cmap).mapped@)),
                Err(e) => spec_expand_one(
                    cm_v(old(cmap).mapped@),
                    begin as nat,
                    klen as nat,
                    offset as nat,
                    src as nat,
                ) == Err::<Seq<(Seq<u8>, Seq<Seq<char>>)>, PdfError>(e),
            },
    {
        let diff = src - begin;
        if diff > u64::MAX - offset {
            return Err(PdfError::ValueTooLarge);
        }
        let dst = diff + offset;
        if dst == 0 {
            return Ok(());
        }
        if dst > 0xFFFF {
            return Err(PdfError::ValueTooLarge);
        }
        proof {
            crate::bytecode::lemma_pow256_values();
        }
        let dst_bytes = to_many_bytes(dst, 2);
        let text = match utf16be_decode_to_string(dst_bytes.as_slice()) {
            Ok(t) => t,
            Err(e) => {
                return Err(e);
            },
        };
        let key = to_many_bytes(src, klen);
        cmap.insert_mapping(key, text);
        Ok(())
    }
}

/// Whether every byte of a destination is zero: the unmapped sentinel.
pub open spec fn is_zero_bytes(b: Seq<u8>) -> bool {
    forall|i: int| 0 <= i < b.len() ==> b[i] == 0
}

/// Whether every byte is zero.
pub fn bytes_all_zero(b: &[u8]) -> (r: bool)
    ensures
        r == is_zero_bytes(b@),
{
    let n = b.len();
    let mut i: usize = 0;
    while i < n
        invariant
            n == b@.len(),
            i <= n,
            forall|j: int| 0 <= j < i ==> b@[j] == 0,
        decreases n - i,
    {
        if b[i] != 0 {
            return false;
        }
        i = i + 1;
    }
    true
}

/// What one `endbfchar` operand list does to the table: pairs of source
/// code and UTF-16BE destination, recorded in order; a destination of all
/// zero bytes is the unmapped sentinel and is skipped.
pub open spec fn spec_bfchar(
    m: Seq<(Seq<u8>, Seq<Seq<char>>)>,
    operands: Seq<PdfObject>,
) -> Result<Seq<(Seq<u8>, Seq<Seq<char>>)>, PdfError>
    decreases operands.len(),
{
    if operands.len() == 0 {
        Ok(m)
    } else if operands.len() == 1 {
        Err(PdfError::BadCMapOperands)
    } else if !(operands[0] is Str) || !(operands[1] is Str) {
        Err(PdfError::BadCMapOperands)
    } else if operands[0]->Str_0@.len() > 8 {
        Err(PdfError::CodeTooLong)
    } else {
        match utf16_decode(units_of_be_bytes(operands[1]->Str_0@)) {
            None => Err(PdfError::InvalidUtf16),
            Some(t) => {
                let m2 = if is_zero_bytes(operands[1]->Str_0@) {
                    m
                } else {
                    spec_insert_mapping(m, operands[0]->Str_0@, t)
                };
                spec_bfchar(m2, operands.skip(2))
            },
        }
    }
}

/// What one `endbfrange` operand list does to the table: triples of begin,
/// end and offset, each expanded source code by source code.
pub open spec fn spec_bfrange(
    m: Seq<(Seq<u8>, Seq<Seq<char>>)>,
    operands: Seq<PdfObject>,
) -> Result<Seq<(Seq<u8>, Seq<Seq<char>>)>, PdfError>
    decreases operands.len(),
{
    if operands.len() == 0 {
        Ok(m)
    } else if operands.len() < 3 {
        Err(PdfError::BadCMapOperands)
    } else if !(operands[0] is Str) || !(operands[1] is Str) || !(operands[2] is Str) {
        Err(PdfError::BadCMapOperands)
    } else if operands[0]->Str_0@.len() != operands[1]->Str_0@.len() {
        Err(PdfError::BadCMapOperands)
    } else if operands[0]->Str_0@.len() > 8 {
        Err(PdfError::CodeTooLong)
    } else if operands[2]->Str_0@.len() > 8 {
        Err(PdfError::CodeTooLong)
    } else {
        let begin = be_val(operands[0]->Str_0@);
        let end = be_val(operands[1]->Str_0@);
        let offset = be_val(operands[2]->Str_0@);
        match spec_expand(m, begin, end, operands[0]->Str_0@.len(), offset, begin) {
            Err(e) => Err(e),
            Ok(m2) => spec_bfrange(m2, operands.skip(3)),
        }
    }
}

/// What one operator does to the table: `endbfchar` and `endbfrange` record
/// mappings, everything else — `begincmap` and `endcmap` included — is
/// ignored.
pub open spec fn spec_cmap_step(
    m: Seq<(Seq<u8>, Seq<Seq<char>>)>,
    op: Op,
) -> Result<Seq<(Seq<u8>, Seq<Seq<char>>)>, PdfError> {
    if op.operator@ == "endbfchar"@ {
        spec_bfchar(m, op.operands@)
    } else if op.operator@ == "endbfrange"@ {
        spec_bfrange(m, op.operands@)
    } else {
        Ok(m)
    }
}

/// What a whole operator sequence does to the table.
pub open spec fn spec_cmap_fold(
    m: Seq<(Seq<u8>, Seq<Seq<char>>)>,
    ops: Seq<Op>,
) -> Result<Seq<(Seq<u8>, Seq<Seq<char>>)>, PdfError>
    decreases ops.len(),
{
    if ops.len() == 0 {
        Ok(m)
    } else {
        match spec_cmap_step(m, ops[0]) {
            Err(e) => Err(e),
            Ok(m2) => spec_cmap_fold(m2, ops.drop_first()),
        }
    }
}

/// What parsing a ToUnicode stream object yields.
pub open spec fn spec_cmap_parse(o: PdfObject) -> Result<
    Seq<(Seq<u8>, Seq<Seq<char>>)>,
    PdfError,
> {
    match o {
        PdfObject::Stream(st) => match st.ops {
            None => Err(PdfError::UnsupportedCMapFormat),
            Some(v) => spec_cmap_fold(Seq::<(Seq<u8>, Seq<Seq<char>>)>::empty(), v@),
        },
        _ => Err(PdfError::WrongKind),
    }
}

} // verus!
