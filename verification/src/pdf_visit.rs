//! Content-stream traversal.
//!
//! The walker visits every operation of every chosen page's content
//! streams. `Tf` and `Tm` update the text state, `Do` recurses into the
//! named form object under a widened resource scope, and every text-showing
//! operator is either dumped — its glyph codes as one hexadecimal line per
//! operation, collected per font — or wrapped in a `BDC /Span
//! <</ActualText (…)>>` … `EMC` pair carrying the resolved text. The walker
//! reads the document and returns its rewrites as an edit list;
//! `apply_edits` writes them back.

#![verifier::loop_isolation(false)]

use vstd::prelude::*;
use vstd::string::StringExecFns;
use vstd::string::StringSliceAdditionalSpecFns;

use crate::cmap::strings_v;
use crate::error::PdfError;
use crate::font::FontV;
use crate::object::{
    clone_bytes, clone_object, dict_get, dict_v, graph_v, lemma_dict_v, lemma_graph_v_lookup,
    lemma_vobj_index, obj_index, obj_lookup, obj_v, op_v, ops_v, spec_dict_set, str_eq, vdict_get,
    vobj_index, vobj_lookup, Document, ObjV, ObjectId, Op, OpV, Page, PdfDict, PdfObject, StreamV,
};
use crate::resources::{fm_v, FontMap};
use crate::text_state::{
    gm_v, ts_v, GlyphPolicy, GlyphTextMap, Phase, TextState, TextStateV,
};

verus! {

/// Everything a walk produces besides the visitor's own state: the per-font
/// dump lines, the run-wide operator counts, the stream rewrites, and the
/// per-page errors that were reported rather than propagated.
#[derive(Debug, PartialEq, Eq)]
pub struct WalkOutput {
    pub dump: Vec<(ObjectId, String, Vec<String>)>,
    pub seen_ops: Vec<(String, u64)>,
    pub edits: Vec<(ObjectId, Vec<Op>)>,
    pub reports: Vec<(u32, PdfError)>,
}

/// The mathematical shape of a walk's outputs.
pub struct OutV {
    pub dump: Seq<(ObjectId, Seq<char>, Seq<Seq<char>>)>,
    pub seen: Seq<(Seq<char>, u64)>,
    pub edits: Seq<(ObjectId, Seq<OpV>)>,
    pub reports: Seq<(u32, PdfError)>,
}

/// The shape of a walk's outputs.
pub open spec fn out_v(o: WalkOutput) -> OutV {
    OutV {
        dump: Seq::new(o.dump@.len(), |i: int| (o.dump@[i].0, o.dump@[i].1@, strings_v(o.dump@[i].2@))),
        seen: Seq::new(o.seen_ops@.len(), |i: int| (o.seen_ops@[i].0@, o.seen_ops@[i].1)),
        edits: Seq::new(o.edits@.len(), |i: int| (o.edits@[i].0, ops_v(o.edits@[i].1@))),
        reports: o.reports@,
    }
}

impl WalkOutput {
    /// An empty output.
    pub fn new() -> (r: WalkOutput)
        ensures
            out_v(r).dump =~= Seq::<(ObjectId, Seq<char>, Seq<Seq<char>>)>::empty(),
            out_v(r).seen =~= Seq::<(Seq<char>, u64)>::empty(),
            out_v(r).edits =~= Seq::<(ObjectId, Seq<OpV>)>::empty(),
            out_v(r).reports =~= Seq::<(u32, PdfError)>::empty(),
    {
        WalkOutput { dump: Vec::new(), seen_ops: Vec::new(), edits: Vec::new(), reports: Vec::new() }
    }
}

/// The per-operation visitor: the text state, the per-font replacement
/// tables, and the configuration selecting dump or fix behaviour.
#[derive(Debug, PartialEq, Eq)]
pub struct MyOpVisitor {
    pub text_state: TextState,
    pub font_glyph_mappings: Vec<(ObjectId, GlyphTextMap)>,
    pub phase: Phase,
    pub glyph_policy: GlyphPolicy,
}

/// The mathematical shape of the visitor.
pub struct VisitorV {
    pub ts: TextStateV,
    pub maps: Seq<(ObjectId, Seq<(u16, Seq<char>)>)>,
    pub phase: Phase,
    pub policy: GlyphPolicy,
}

/// The shape of the visitor.
pub open spec fn visitor_v(v: MyOpVisitor) -> VisitorV {
    VisitorV {
        ts: ts_v(v.text_state),
        maps: Seq::new(
            v.font_glyph_mappings@.len(),
            |i: int| (v.font_glyph_mappings@[i].0, gm_v(v.font_glyph_mappings@[i].1.entries@)),
        ),
        phase: v.phase,
        policy: v.glyph_policy,
    }
}

/// What copying every entry of `b` over `a` yields: `b`'s entries replace
/// `a`'s where the keys collide and are appended where they do not.
pub open spec fn spec_simple_extend(
    a: Seq<(Seq<u8>, ObjV)>,
    b: Seq<(Seq<u8>, ObjV)>,
) -> Seq<(Seq<u8>, ObjV)>
    decreases b.len(),
{
    if b.len() == 0 {
        a
    } else {
        spec_simple_extend(spec_dict_set(a, b[0].0, b[0].1), b.drop_first())
    }
}

/// Copies every entry of `b` into `a`, overriding on key collisions.
pub fn simple_extend(a: &mut PdfDict, b: &PdfDict)
    ensures
        dict_v(final(a).entries@) == spec_simple_extend(
            dict_v(old(a).entries@),
            dict_v(b.entries@),
        ),
{
    let n = b.entries.len();
    let mut i: usize = 0;
    proof {
        lemma_dict_v(b.entries@);
        assert(dict_v(b.entries@).skip(0) =~= dict_v(b.entries@));
    }
    while i < n
        invariant
            n == b.entries@.len(),
            i <= n,
            spec_simple_extend(dict_v(old(a).entries@), dict_v(b.entries@)) == spec_simple_extend(
                dict_v(a.entries@),
                dict_v(b.entries@).skip(i as int),
            ),
        decreases n - i,
    {
        proof {
            lemma_dict_v(b.entries@);
            assert(dict_v(b.entries@).skip(i as int)[0] == dict_v(b.entries@)[i as int]);
            assert(dict_v(b.entries@).skip(i as int).drop_first() =~= dict_v(b.entries@).skip(
                i as int + 1,
            ));
        }
        let key = clone_bytes(&b.entries[i].0);
        let value = clone_object(&b.entries[i].1);
        a.set(key, value);
        i = i + 1;
    }
    proof {
        assert(dict_v(b.entries@).skip(n as int) =~= Seq::<(Seq<u8>, ObjV)>::empty());
    }
}

/// The form objects each inherited resource object adds to a scope.
pub open spec fn spec_xobject_fold(
    objs: Seq<(ObjectId, PdfObject)>,
    acc: Seq<(Seq<u8>, ObjV)>,
    inherited: Seq<ObjectId>,
) -> Seq<(Seq<u8>, ObjV)>
    decreases inherited.len(),
{
    if inherited.len() == 0 {
        acc
    } else {
        let acc2 = spec_xobject_fold(objs, acc, inherited.drop_last());
        match obj_lookup(objs, inherited.last()) {
            Some(PdfObject::Dict(rd)) => match dict_get(rd.entries@, "XObject".spec_bytes()) {
                Some(PdfObject::Dict(xd)) => spec_simple_extend(acc2, dict_v(xd.entries@)),
                _ => acc2,
            },
            _ => acc2,
        }
    }
}

/// What a page's form-object scope is: the `/XObject` subdictionary of the
/// direct resource dictionary, then of each inherited resource object. A
/// page with no direct dictionary must have exactly one inherited resource
/// object; any other count without a dictionary is an error.
pub open spec fn spec_xobject_scope(
    objs: Seq<(ObjectId, PdfObject)>,
    direct: Option<PdfDict>,
    inherited: Seq<ObjectId>,
) -> Result<Seq<(Seq<u8>, ObjV)>, PdfError> {
    if direct is None && inherited.len() != 1 {
        Err(PdfError::BadResourceShape)
    } else {
        let base = match direct {
            Some(rd) => match dict_get(rd.entries@, "XObject".spec_bytes()) {
                Some(PdfObject::Dict(xd)) => spec_simple_extend(
                    Seq::<(Seq<u8>, ObjV)>::empty(),
                    dict_v(xd.entries@),
                ),
                _ => Seq::<(Seq<u8>, ObjV)>::empty(),
            },
            None => Seq::<(Seq<u8>, ObjV)>::empty(),
        };
        Ok(spec_xobject_fold(objs, base, inherited))
    }
}

/// Builds the form-object scope a page's streams are visited under.
///
/// A page with neither a direct resource dictionary nor exactly one
/// inherited resource object is an error — and nothing else here is: the
/// absence of the dictionary alone is valid.
pub fn build_xobject_scope(document: &Document, page: &Page) -> (r: Result<PdfDict, PdfError>)
    ensures
        r is Err <==> page.resources_direct is None && page.resources_inherited@.len() != 1,
        match r {
            Ok(x) => spec_xobject_scope(
                document.objects@,
                page.resources_direct,
                page.resources_inherited@,
            ) == Ok::<Seq<(Seq<u8>, ObjV)>, PdfError>(dict_v(x.entries@)),
            Err(e) => e == PdfError::BadResourceShape,
        },
{
    let mut x = PdfDict::new();
    proof {
        assert(dict_v(x.entries@) =~= Seq::<(Seq<u8>, ObjV)>::empty());
    }
    match &page.resources_direct {
        Some(rd) => {
            match rd.get("XObject".as_bytes()) {
                Some(PdfObject::Dict(xd)) => {
                    simple_extend(&mut x, xd);
                },
                _ => {},
            }
        },
        None => {
            if page.resources_inherited.len() != 1 {
                return Err(PdfError::BadResourceShape);
            }
        },
    }
    let ghost base = dict_v(x.entries@);
    let n = page.resources_inherited.len();
    let mut i: usize = 0;
    proof {
        assert(page.resources_inherited@.take(0) =~= Seq::<ObjectId>::empty());
    }
    while i < n
        invariant
            n == page.resources_inherited@.len(),
            i <= n,
            spec_xobject_fold(document.objects@, base, page.resources_inherited@.take(i as int))
                == dict_v(x.entries@),
        decreases n - i,
    {
        proof {
            assert(page.resources_inherited@.take(i as int + 1).drop_last()
                =~= page.resources_inherited@.take(i as int));
            assert(page.resources_inherited@.take(i as int + 1).last()
                == page.resources_inherited@[i as int]);
        }
        let rid = page.resources_inherited[i];
        match document.get_object(rid) {
            Some(PdfObject::Dict(rd)) => {
                match rd.get("XObject".as_bytes()) {
                    Some(PdfObject::Dict(xd)) => {
                        simple_extend(&mut x, xd);
                    },
                    _ => {},
                }
            },
            _ => {},
        }
        i = i + 1;
    }
    proof {
        assert(page.resources_inherited@.take(n as int) =~= page.resources_inherited@);
    }
    Ok(x)
}

/// The index of the first operator-count entry under a name.
pub open spec fn sn_index(s: Seq<(Seq<char>, u64)>, name: Seq<char>) -> int
    decreases s.len(),
{
    if s.len() == 0 {
        0
    } else if s[0].0 == name {
        0
    } else {
        1 + sn_index(s.drop_first(), name)
    }
}

/// The first-match index is in range and earlier entries miss.
pub proof fn lemma_sn_index(s: Seq<(Seq<char>, u64)>, name: Seq<char>)
    ensures
        0 <= sn_index(s, name) <= s.len(),
        sn_index(s, name) < s.len() ==> s[sn_index(s, name)].0 == name,
        forall|j: int| 0 <= j < sn_index(s, name) ==> s[j].0 != name,
    decreases s.len(),
{
    if s.len() > 0 && s[0].0 != name {
        lemma_sn_index(s.drop_first(), name);
        assert forall|j: int| 0 <= j < sn_index(s, name) implies s[j].0 != name by {
            if j > 0 {
                assert(s.drop_first()[j - 1] == s[j]);
            }
        }
    }
}

/// What counting one operator does to the run-wide tally: a new name is
/// appended with count one, a known one is incremented (saturating).
pub open spec fn spec_note_op(s: Seq<(Seq<char>, u64)>, name: Seq<char>) -> Seq<(Seq<char>, u64)> {
    let i = sn_index(s, name);
    if i == s.len() {
        s.push((name, 1))
    } else {
        s.update(i, (s[i].0, if s[i].1 == u64::MAX {
            s[i].1
        } else {
            (s[i].1 + 1) as u64
        }))
    }
}

/// Counts one operator occurrence.
fn note_op(seen: &mut Vec<(String, u64)>, name: &str)
    ensures
        Seq::new(final(seen)@.len(), |i: int| (final(seen)@[i].0@, final(seen)@[i].1))
            == spec_note_op(
            Seq::new(old(seen)@.len(), |i: int| (old(seen)@[i].0@, old(seen)@[i].1)),
            name@,
        ),
{
    let ghost s0 = Seq::new(seen@.len(), |i: int| (seen@[i].0@, seen@[i].1));
    let n = seen.len();
    let mut i: usize = 0;
    while i < n
        invariant
            n == seen@.len(),
            i <= n,
            seen@ == old(seen)@,
            forall|j: int| 0 <= j < i ==> s0[j].0 != name@,
        decreases n - i,
    {
        if str_eq(seen[i].0.as_str(), name) {
            proof {
                lemma_sn_index(s0, name@);
                assert(s0[i as int].0 == name@);
                assert(sn_index(s0, name@) == i);
            }
            let ghost before = seen@;
            let (key, count) = seen.remove(i);
            let bumped: u64 = if count == u64::MAX {
                count
            } else {
                count + 1
            };
            seen.insert(i, (key, bumped));
            proof {
                assert(seen@ =~= before.update(i as int, seen@[i as int]));
                assert(Seq::new(seen@.len(), |j: int| (seen@[j].0@, seen@[j].1)) =~= s0.update(
                    i as int,
                    (s0[i as int].0, bumped),
                ));
            }
            return ;
        }
        i = i + 1;
    }
    proof {
        lemma_sn_index(s0, name@);
        assert(sn_index(s0, name@) == n) by {
            if sn_index(s0, name@) < n {
                assert(s0[sn_index(s0, name@)].0 == name@);
            }
        }
    }
    seen.push((name.to_owned(), 1));
    proof {
        assert(Seq::new(seen@.len(), |j: int| (seen@[j].0@, seen@[j].1)) =~= s0.push((name@, 1)));
    }
}

/// The index of the first dump entry under a font's descriptor id.
pub open spec fn dmp_index(d: Seq<(ObjectId, Seq<char>, Seq<Seq<char>>)>, id: ObjectId) -> int
    decreases d.len(),
{
    if d.len() == 0 {
        0
    } else if d[0].0 == id {
        0
    } else {
        1 + dmp_index(d.drop_first(), id)
    }
}

/// The first-match index is in range and earlier entries miss.
pub proof fn lemma_dmp_index(d: Seq<(ObjectId, Seq<char>, Seq<Seq<char>>)>, id: ObjectId)
    ensures
        0 <= dmp_index(d, id) <= d.len(),
        dmp_index(d, id) < d.len() ==> d[dmp_index(d, id)].0 == id,
        forall|j: int| 0 <= j < dmp_index(d, id) ==> d[j].0 != id,
    decreases d.len(),
{
    if d.len() > 0 && d[0].0 != id {
        lemma_dmp_index(d.drop_first(), id);
        assert forall|j: int| 0 <= j < dmp_index(d, id) implies d[j].0 != id by {
            if j > 0 {
                assert(d.drop_first()[j - 1] == d[j]);
            }
        }
    }
}

/// What appending one dump line under one font does: a new font opens with
/// that line; a known font keeps its name and gains the line.
pub open spec fn spec_note_dump(
    d: Seq<(ObjectId, Seq<char>, Seq<Seq<char>>)>,
    id: ObjectId,
    name: Seq<char>,
    line: Seq<char>,
) -> Seq<(ObjectId, Seq<char>, Seq<Seq<char>>)> {
    let i = dmp_index(d, id);
    if i == d.len() {
        d.push((id, name, seq![line]))
    } else {
        d.update(i, (id, d[i].1, d[i].2.push(line)))
    }
}

/// Appends one dump line under one font.
fn note_dump(
    dump: &mut Vec<(ObjectId, String, Vec<String>)>,
    id: ObjectId,
    name: &str,
    line: String,
)
    ensures
        Seq::new(
            final(dump)@.len(),
            |i: int| (final(dump)@[i].0, final(dump)@[i].1@, strings_v(final(dump)@[i].2@)),
        ) == spec_note_dump(
            Seq::new(
                old(dump)@.len(),
                |i: int| (old(dump)@[i].0, old(dump)@[i].1@, strings_v(old(dump)@[i].2@)),
            ),
            id,
            name@,
            line@,
        ),
{
    let ghost d0 = Seq::new(
        dump@.len(),
        |i: int| (dump@[i].0, dump@[i].1@, strings_v(dump@[i].2@)),
    );
    let n = dump.len();
    let mut i: usize = 0;
    while i < n
        invariant
            n == dump@.len(),
            i <= n,
            dump@ == old(dump)@,
            forall|j: int| 0 <= j < i ==> d0[j].0 != id,
        decreases n - i,
    {
        if dump[i].0.num == id.num && dump[i].0.generation == id.generation {
            proof {
                lemma_dmp_index(d0, id);
                assert(d0[i as int].0 == id);
                assert(dmp_index(d0, id) == i);
            }
            let ghost before = dump@;
            let (eid, ename, mut lines) = dump.remove(i);
            let ghost lines0 = strings_v(lines@);
            lines.push(line);
            dump.insert(i, (eid, ename, lines));
            proof {
                assert(dump@ =~= before.update(i as int, dump@[i as int]));
                assert(strings_v(dump@[i as int].2@) =~= lines0.push(
                    dump@[i as int].2@.last()@,
                ));
                assert(Seq::new(
                    dump@.len(),
                    |j: int| (dump@[j].0, dump@[j].1@, strings_v(dump@[j].2@)),
                ) =~= d0.update(i as int, (id, d0[i as int].1, d0[i as int].2.push(line@))));
            }
            return ;
        }
        i = i + 1;
    }
    proof {
        lemma_dmp_index(d0, id);
        assert(dmp_index(d0, id) == n) by {
            if dmp_index(d0, id) < n {
                assert(d0[dmp_index(d0, id)].0 == id);
            }
        }
    }
    let mut lines: Vec<String> = Vec::new();
    lines.push(line);
    dump.push((id, name.to_owned(), lines));
    proof {
        assert(strings_v(dump@[n as int].2@) =~= seq![dump@[n as int].2@[0]@]);
        assert(Seq::new(
            dump@.len(),
            |j: int| (dump@[j].0, dump@[j].1@, strings_v(dump@[j].2@)),
        ) =~= d0.push((id, name@, seq![line@])));
    }
}

/// The index of the first replacement-table entry under a descriptor id.
pub open spec fn mp_index(m: Seq<(ObjectId, Seq<(u16, Seq<char>)>)>, id: ObjectId) -> int
    decreases m.len(),
{
    if m.len() == 0 {
        0
    } else if m[0].0 == id {
        0
    } else {
        1 + mp_index(m.drop_first(), id)
    }
}

/// The table recorded under a descriptor id, or `None`.
pub open spec fn mp_get(m: Seq<(ObjectId, Seq<(u16, Seq<char>)>)>, id: ObjectId) -> Option<
    Seq<(u16, Seq<char>)>,
>
    decreases m.len(),
{
    if m.len() == 0 {
        None
    } else if m[0].0 == id {
        Some(m[0].1)
    } else {
        mp_get(m.drop_first(), id)
    }
}

/// What writing a font's table back does: a new id is appended, a known one
/// has its table replaced in place.
pub open spec fn spec_map_put(
    m: Seq<(ObjectId, Seq<(u16, Seq<char>)>)>,
    id: ObjectId,
    gm: Seq<(u16, Seq<char>)>,
) -> Seq<(ObjectId, Seq<(u16, Seq<char>)>)> {
    let i = mp_index(m, id);
    if i == m.len() {
        m.push((id, gm))
    } else {
        m.update(i, (id, gm))
    }
}

/// The first-match index and the first-match lookup agree.
pub proof fn lemma_mp_index(m: Seq<(ObjectId, Seq<(u16, Seq<char>)>)>, id: ObjectId)
    ensures
        0 <= mp_index(m, id) <= m.len(),
        mp_index(m, id) == m.len() <==> mp_get(m, id) is None,
        mp_index(m, id) < m.len() ==> m[mp_index(m, id)].0 == id && mp_get(m, id) == Some(
            m[mp_index(m, id)].1,
        ),
        forall|j: int| 0 <= j < mp_index(m, id) ==> m[j].0 != id,
    decreases m.len(),
{
    if m.len() > 0 && m[0].0 != id {
        lemma_mp_index(m.drop_first(), id);
        assert forall|j: int| 0 <= j < mp_index(m, id) implies m[j].0 != id by {
            if j > 0 {
                assert(m.drop_first()[j - 1] == m[j]);
            }
        }
    }
}

/// Resolves a code sequence against the table of the font with descriptor
/// id `id`, lazily opening an empty table for a font not seen before.
fn resolve_in_font_map(
    maps: &mut Vec<(ObjectId, GlyphTextMap)>,
    id: ObjectId,
    glyphs: &Vec<u16>,
    policy: GlyphPolicy,
) -> (r: Result<String, PdfError>)
    ensures
        ({
            let mv0 = Seq::new(
                old(maps)@.len(),
                |i: int| (old(maps)@[i].0, gm_v(old(maps)@[i].1.entries@)),
            );
            let mv1 = Seq::new(
                final(maps)@.len(),
                |i: int| (final(maps)@[i].0, gm_v(final(maps)@[i].1.entries@)),
            );
            let m0 = match mp_get(mv0, id) {
                Some(g) => g,
                None => Seq::<(u16, Seq<char>)>::empty(),
            };
            match r {
                Ok(t) => crate::text_state::spec_resolve_glyphs(m0, glyphs@, policy) matches Ok(p)
                    && p.0 == t@ && mv1 == spec_map_put(mv0, id, p.1),
                Err(e) => crate::text_state::spec_resolve_glyphs(m0, glyphs@, policy) == Err::<
                    (Seq<char>, Seq<(u16, Seq<char>)>),
                    PdfError,
                >(e) && mv1 == mv0,
            }
        }),
{
    let ghost mv0 = Seq::new(maps@.len(), |i: int| (maps@[i].0, gm_v(maps@[i].1.entries@)));
    let n = maps.len();
    let mut i: usize = 0;
    while i < n
        invariant
            n == maps@.len(),
            i <= n,
            maps@ == old(maps)@,
            forall|j: int| 0 <= j < i ==> mv0[j].0 != id,
        decreases n - i,
    {
        if maps[i].0.num == id.num && maps[i].0.generation == id.generation {
            proof {
                lemma_mp_index(mv0, id);
                assert(mv0[i as int].0 == id);
                assert(mp_index(mv0, id) == i);
            }
            let ghost before = maps@;
            let (eid, mut table) = maps.remove(i);
            let res = crate::text_state::resolve_glyphs(&mut table, glyphs, policy);
            maps.insert(i, (eid, table));
            proof {
                assert(maps@ =~= before.update(i as int, maps@[i as int]));
                assert(Seq::new(maps@.len(), |j: int| (maps@[j].0, gm_v(maps@[j].1.entries@)))
                    =~= mv0.update(i as int, (id, gm_v(maps@[i as int].1.entries@))));
                if res is Err {
                    assert(mv0.update(i as int, (id, gm_v(maps@[i as int].1.entries@))) =~= mv0);
                }
            }
            return res;
        }
        i = i + 1;
    }
    proof {
        lemma_mp_index(mv0, id);
        assert(mp_index(mv0, id) == n) by {
            if mp_index(mv0, id) < n {
                assert(mv0[mp_index(mv0, id)].0 == id);
            }
        }
    }
    let mut table = GlyphTextMap::new();
    proof {
        assert(gm_v(table.entries@) =~= Seq::<(u16, Seq<char>)>::empty());
    }
    let res = crate::text_state::resolve_glyphs(&mut table, glyphs, policy);
    match res {
        Ok(t) => {
            maps.push((id, table));
            proof {
                assert(Seq::new(maps@.len(), |j: int| (maps@[j].0, gm_v(maps@[j].1.entries@)))
                    =~= mv0.push((id, gm_v(maps@[n as int].1.entries@))));
            }
            Ok(t)
        },
        Err(e) => Err(e),
    }
}

/// The text state a top-level content-stream visit starts with.
pub open spec fn initial_ts() -> TextStateV {
    TextStateV {
        current_font: FontV {
            font_descriptor_id: None,
            base_font_name: None,
            encoding: None,
            subtype: None,
        },
        current_tm_slant: false,
    }
}

/// What one text-showing operation does: in dump mode a hexadecimal line
/// is appended under the current font; in fix mode the codes are resolved
/// and the marked-content pair to insert is produced. Text shown before a
/// font was set is an error for the enclosing stream.
pub open spec fn spec_show_op(st: VisitorV, op: OpV, out: OutV) -> Result<
    (VisitorV, OutV, Option<(OpV, OpV)>),
    PdfError,
> {
    match st.ts.current_font.subtype {
        None => Err(PdfError::NoCurrentFont),
        Some(subtype) => match crate::text_state::spec_glyph_ids(op, subtype) {
            Err(e) => Err(e),
            Ok(ids) => {
                if st.ts.current_font.font_descriptor_id is None
                    || st.ts.current_font.base_font_name is None {
                    Err(PdfError::NoCurrentFont)
                } else {
                    let id = st.ts.current_font.font_descriptor_id->0;
                    let name = st.ts.current_font.base_font_name->0;
                    if st.phase is Phase1Dump {
                        let out2 = OutV {
                            dump: spec_note_dump(
                                out.dump,
                                id,
                                name,
                                crate::text_state::spec_dump_line(ids),
                            ),
                            seen: out.seen,
                            edits: out.edits,
                            reports: out.reports,
                        };
                        Ok((st, out2, None))
                    } else {
                        let m0 = match mp_get(st.maps, id) {
                            Some(g) => g,
                            None => Seq::<(u16, Seq<char>)>::empty(),
                        };
                        match crate::text_state::spec_resolve_glyphs(m0, ids, st.policy) {
                            Err(e) => Err(e),
                            Ok(p) => {
                                let text = crate::text_state::spec_annotation_text(
                                    name,
                                    p.0,
                                    st.ts.current_tm_slant,
                                );
                                let bdc = OpV {
                                    operator: "BDC"@,
                                    operands: seq![
                                        ObjV::Name("Span".spec_bytes()),
                                        ObjV::Dict(
                                            seq![
                                                (
                                                    "ActualText".spec_bytes(),
                                                    ObjV::Str(
                                                        crate::text_string::pdf_text_string_bytes(
                                                            text,
                                                        ),
                                                        crate::object::StrFormat::Hexadecimal,
                                                    ),
                                                ),
                                            ],
                                        ),
                                    ],
                                };
                                let emc = OpV { operator: "EMC"@, operands: Seq::empty() };
                                let st2 = VisitorV {
                                    ts: st.ts,
                                    maps: spec_map_put(st.maps, id, p.1),
                                    phase: st.phase,
                                    policy: st.policy,
                                };
                                Ok((st2, out, Some((bdc, emc))))
                            },
                        }
                    }
                }
            },
        },
    }
}

/// What invoking one form object does, the `Do` name already resolved to
/// its scope entry: the entry's reference chain is followed to a stream,
/// the stream's own resources widen the scope — its fonts ahead of the
/// parent's, its form objects over them — and the stream is visited one
/// level of nesting depth down, so that a cycle of form invocations ends
/// in `DepthExceeded` instead of not ending.
pub open spec fn spec_do_entry(
    objs: Seq<(ObjectId, PdfObject)>,
    page: u32,
    entry: ObjV,
    fonts: Seq<(Seq<u8>, FontV)>,
    xobjects: Seq<(Seq<u8>, ObjV)>,
    depth: nat,
    st: VisitorV,
    out: OutV,
) -> (VisitorV, OutV, Option<PdfError>)
    decreases depth, 0int, 1int,
{
    match crate::object::spec_deref_target_v(objs, entry, crate::font::REF_FUEL as nat) {
        Err(e) => (st, out, Some(e)),
        Ok(target) => match obj_lookup(objs, target.0) {
            Some(PdfObject::Stream(stm)) => {
                let cf = match dict_get(stm.dict.entries@, "Resources".spec_bytes()) {
                    Some(PdfObject::Dict(res)) => crate::resources::spec_collect_fonts(
                        objs,
                        Seq::empty(),
                        res.entries@,
                    ),
                    _ => Ok(Seq::empty()),
                };
                match cf {
                    Err(e) => (st, out, Some(e)),
                    Ok(cf0) => {
                        let child_fonts = crate::resources::spec_extend_missing(cf0, fonts);
                        let child_x = match dict_get(
                            stm.dict.entries@,
                            "Resources".spec_bytes(),
                        ) {
                            Some(PdfObject::Dict(res)) => match dict_get(
                                res.entries@,
                                "XObject".spec_bytes(),
                            ) {
                                Some(PdfObject::Dict(xd)) => spec_simple_extend(
                                    xobjects,
                                    dict_v(xd.entries@),
                                ),
                                _ => xobjects,
                            },
                            _ => xobjects,
                        };
                        if depth == 0 {
                            (st, out, Some(PdfError::DepthExceeded))
                        } else {
                            spec_visit_stream(
                                objs,
                                page,
                                target.0,
                                child_fonts,
                                child_x,
                                (depth - 1) as nat,
                                st,
                                out,
                            )
                        }
                    },
                }
            },
            _ => (st, out, Some(PdfError::WrongKind)),
        },
    }
}

/// What visiting a stream's operations from position `i` on yields: the
/// final operation list, the visitor and output state, and the error that
/// stopped the visit, if one did. A `Do` resolves its name in the scope
/// and invokes the form as `spec_do_entry` says.
///
/// A `Do` or `Tf` name absent from the accumulated scope is a skippable
/// per-operator error: it is reported under `page` and only that operator
/// is passed over — unannotated, the state unchanged; every other failure
/// aborts the remaining operators of the stream.
pub open spec fn spec_visit_from(
    objs: Seq<(ObjectId, PdfObject)>,
    page: u32,
    ops: Seq<OpV>,
    i: int,
    fonts: Seq<(Seq<u8>, FontV)>,
    xobjects: Seq<(Seq<u8>, ObjV)>,
    depth: nat,
    st: VisitorV,
    out: OutV,
) -> (Seq<OpV>, VisitorV, OutV, Option<PdfError>)
    decreases depth, ops.len() - i, 1int,
{
    if i < 0 || i >= ops.len() {
        (ops, st, out, None::<PdfError>)
    } else {
        let op = ops[i];
        let out1 = OutV {
            dump: out.dump,
            seen: spec_note_op(out.seen, op.operator),
            edits: out.edits,
            reports: out.reports,
        };
        if op.operator == "Do"@ {
            if op.operands.len() != 1 {
                (ops, st, out1, Some(PdfError::WrongKind))
            } else if !(op.operands[0] is Name) {
                (ops, st, out1, Some(PdfError::WrongKind))
            } else {
                match vdict_get(xobjects, op.operands[0]->Name_0) {
                    None => spec_visit_from(
                        objs,
                        page,
                        ops,
                        i + 1,
                        fonts,
                        xobjects,
                        depth,
                        st,
                        OutV {
                            dump: out1.dump,
                            seen: out1.seen,
                            edits: out1.edits,
                            reports: out1.reports.push((page, PdfError::ResourceNotFound)),
                        },
                    ),
                    Some(entry) => {
                        let w = spec_do_entry(
                            objs,
                            page,
                            entry,
                            fonts,
                            xobjects,
                            depth,
                            st,
                            out1,
                        );
                        if w.2 is Some {
                            (ops, w.0, w.1, w.2)
                        } else {
                            spec_visit_from(
                                objs,
                                page,
                                ops,
                                i + 1,
                                fonts,
                                xobjects,
                                depth,
                                w.0,
                                w.1,
                            )
                        }
                    },
                }
            }
        } else if op.operator == "Tf"@ {
            match crate::text_state::spec_visit_tf(st.ts, op, fonts) {
                Err(e) => if e == PdfError::ResourceNotFound {
                    spec_visit_from(
                        objs,
                        page,
                        ops,
                        i + 1,
                        fonts,
                        xobjects,
                        depth,
                        st,
                        OutV {
                            dump: out1.dump,
                            seen: out1.seen,
                            edits: out1.edits,
                            reports: out1.reports.push((page, PdfError::ResourceNotFound)),
                        },
                    )
                } else {
                    (ops, st, out1, Some(e))
                },
                Ok(ts2) => spec_visit_from(
                    objs,
                    page,
                    ops,
                    i + 1,
                    fonts,
                    xobjects,
                    depth,
                    VisitorV { ts: ts2, maps: st.maps, phase: st.phase, policy: st.policy },
                    out1,
                ),
            }
        } else if op.operator == "Tm"@ {
            match crate::text_state::spec_visit_tm(st.ts, op) {
                Err(e) => (ops, st, out1, Some(e)),
                Ok(ts2) => spec_visit_from(
                    objs,
                    page,
                    ops,
                    i + 1,
                    fonts,
                    xobjects,
                    depth,
                    VisitorV { ts: ts2, maps: st.maps, phase: st.phase, policy: st.policy },
                    out1,
                ),
            }
        } else if op.operator == "Tj"@ || op.operator == "TJ"@ || op.operator == "'"@
            || op.operator == "\""@ {
            match spec_show_op(st, op, out1) {
                Err(e) => (ops, st, out1, Some(e)),
                Ok(step) => match step.2 {
                    None => spec_visit_from(
                        objs,
                        page,
                        ops,
                        i + 1,
                        fonts,
                        xobjects,
                        depth,
                        step.0,
                        step.1,
                    ),
                    Some(pair) => {
                        let ops2 = ops.insert(i, pair.0).insert(i + 2, pair.1);
                        spec_visit_from(
                            objs,
                            page,
                            ops2,
                            i + 3,
                            fonts,
                            xobjects,
                            depth,
                            step.0,
                            step.1,
                        )
                    },
                },
            }
        } else {
            spec_visit_from(objs, page, ops, i + 1, fonts, xobjects, depth, st, out1)
        }
    }
}

/// What visiting one content stream yields: the visitor and output state,
/// and the error that aborted the stream, if one did. A finished fix-mode
/// visit records the stream's final operation list as an edit.
pub open spec fn spec_visit_stream(
    objs: Seq<(ObjectId, PdfObject)>,
    page: u32,
    id: ObjectId,
    fonts: Seq<(Seq<u8>, FontV)>,
    xobjects: Seq<(Seq<u8>, ObjV)>,
    depth: nat,
    st: VisitorV,
    out: OutV,
) -> (VisitorV, OutV, Option<PdfError>)
    decreases depth + 1, 0int, 0int,
{
    match obj_lookup(objs, id) {
        None => (st, out, Some(PdfError::DanglingReference)),
        Some(o) => match o {
            PdfObject::Stream(stm) => match stm.ops {
                None => (st, out, Some(PdfError::UndecodableStream)),
                Some(v) => {
                    let s = spec_visit_from(
                        objs,
                        page,
                        ops_v(v@),
                        0,
                        fonts,
                        xobjects,
                        depth,
                        st,
                        out,
                    );
                    if s.3 is Some {
                        (s.1, s.2, s.3)
                    } else {
                        let out2 = if st.phase is Phase2Fix {
                            OutV {
                                dump: s.2.dump,
                                seen: s.2.seen,
                                edits: s.2.edits.push((id, s.0)),
                                reports: s.2.reports,
                            }
                        } else {
                            s.2
                        };
                        (s.1, out2, None::<PdfError>)
                    }
                },
            },
            _ => (st, out, Some(PdfError::WrongKind)),
        },
    }
}

/// A form invocation never changes which phase it runs in nor its glyph
/// policy.
pub proof fn lemma_do_entry_preserves_config(
    objs: Seq<(ObjectId, PdfObject)>,
    page: u32,
    entry: ObjV,
    fonts: Seq<(Seq<u8>, FontV)>,
    xobjects: Seq<(Seq<u8>, ObjV)>,
    depth: nat,
    st: VisitorV,
    out: OutV,
)
    ensures
        ({
            let w = spec_do_entry(objs, page, entry, fonts, xobjects, depth, st, out);
            &&& w.0.phase == st.phase
            &&& w.0.policy == st.policy
            &&& (st.phase is Phase1Dump ==> w.1.edits == out.edits)
        }),
    decreases depth, 0int, 1int,
{
    match crate::object::spec_deref_target_v(objs, entry, crate::font::REF_FUEL as nat) {
        Err(_) => {},
        Ok(target) => match obj_lookup(objs, target.0) {
            Some(PdfObject::Stream(stm)) => {
                let cf = match dict_get(stm.dict.entries@, "Resources".spec_bytes()) {
                    Some(PdfObject::Dict(res)) => crate::resources::spec_collect_fonts(
                        objs,
                        Seq::empty(),
                        res.entries@,
                    ),
                    _ => Ok(Seq::empty()),
                };
                match cf {
                    Err(_) => {},
                    Ok(cf0) => {
                        if depth > 0 {
                            let child_fonts = crate::resources::spec_extend_missing(cf0, fonts);
                            let child_x = match dict_get(
                                stm.dict.entries@,
                                "Resources".spec_bytes(),
                            ) {
                                Some(PdfObject::Dict(res)) => match dict_get(
                                    res.entries@,
                                    "XObject".spec_bytes(),
                                ) {
                                    Some(PdfObject::Dict(xd)) => spec_simple_extend(
                                        xobjects,
                                        dict_v(xd.entries@),
                                    ),
                                    _ => xobjects,
                                },
                                _ => xobjects,
                            };
                            lemma_stream_preserves_config(
                                objs,
                                page,
                                target.0,
                                child_fonts,
                                child_x,
                                (depth - 1) as nat,
                                st,
                                out,
                            );
                        }
                    },
                }
            },
            _ => {},
        },
    }
}

/// A visit never changes which phase it runs in nor its glyph policy.
pub proof fn lemma_from_preserves_config(
    objs: Seq<(ObjectId, PdfObject)>,
    page: u32,
    ops: Seq<OpV>,
    i: int,
    fonts: Seq<(Seq<u8>, FontV)>,
    xobjects: Seq<(Seq<u8>, ObjV)>,
    depth: nat,
    st: VisitorV,
    out: OutV,
)
    ensures
        ({
            let s = spec_visit_from(objs, page, ops, i, fonts, xobjects, depth, st, out);
            &&& s.1.phase == st.phase
            &&& s.1.policy == st.policy
            &&& (st.phase is Phase1Dump ==> s.2.edits == out.edits)
        }),
    decreases depth, ops.len() - i, 1int,
{
    if 0 <= i < ops.len() {
        let op = ops[i];
        let out1 = OutV {
            dump: out.dump,
            seen: spec_note_op(out.seen, op.operator),
            edits: out.edits,
            reports: out.reports,
        };
        if op.operator == "Do"@ {
            if op.operands.len() == 1 && op.operands[0] is Name {
                match vdict_get(xobjects, op.operands[0]->Name_0) {
                    None => {
                        lemma_from_preserves_config(
                            objs,
                            page,
                            ops,
                            i + 1,
                            fonts,
                            xobjects,
                            depth,
                            st,
                            OutV {
                                dump: out1.dump,
                                seen: out1.seen,
                                edits: out1.edits,
                                reports: out1.reports.push((page, PdfError::ResourceNotFound)),
                            },
                        );
                    },
                    Some(entry) => {
                        lemma_do_entry_preserves_config(
                            objs,
                            page,
                            entry,
                            fonts,
                            xobjects,
                            depth,
                            st,
                            out1,
                        );
                        let w = spec_do_entry(objs, page, entry, fonts, xobjects, depth, st, out1);
                        if w.2 is None {
                            lemma_from_preserves_config(
                                objs,
                                page,
                                ops,
                                i + 1,
                                fonts,
                                xobjects,
                                depth,
                                w.0,
                                w.1,
                            );
                        }
                    },
                }
            }
        } else {
            if op.operator == "Tf"@ {
                match crate::text_state::spec_visit_tf(st.ts, op, fonts) {
                    Err(e) => {
                        if e == PdfError::ResourceNotFound {
                            lemma_from_preserves_config(
                                objs,
                                page,
                                ops,
                                i + 1,
                                fonts,
                                xobjects,
                                depth,
                                st,
                                OutV {
                                    dump: out1.dump,
                                    seen: out1.seen,
                                    edits: out1.edits,
                                    reports: out1.reports.push(
                                        (page, PdfError::ResourceNotFound),
                                    ),
                                },
                            );
                        }
                    },
                    Ok(ts2) => {
                        lemma_from_preserves_config(
                            objs,
                            page,
                            ops,
                            i + 1,
                            fonts,
                            xobjects,
                            depth,
                            VisitorV { ts: ts2, maps: st.maps, phase: st.phase, policy: st.policy },
                            out1,
                        );
                    },
                }
            } else if op.operator == "Tm"@ {
                match crate::text_state::spec_visit_tm(st.ts, op) {
                    Err(_) => {},
                    Ok(ts2) => {
                        lemma_from_preserves_config(
                            objs,
                            page,
                            ops,
                            i + 1,
                            fonts,
                            xobjects,
                            depth,
                            VisitorV { ts: ts2, maps: st.maps, phase: st.phase, policy: st.policy },
                            out1,
                        );
                    },
                }
            } else if op.operator == "Tj"@ || op.operator == "TJ"@ || op.operator == "'"@
                || op.operator == "\""@ {
                match spec_show_op(st, op, out1) {
                    Err(_) => {},
                    Ok(step) => match step.2 {
                        None => {
                            lemma_from_preserves_config(
                                objs,
                                page,
                                ops,
                                i + 1,
                                fonts,
                                xobjects,
                                depth,
                                step.0,
                                step.1,
                            );
                        },
                        Some(pair) => {
                            lemma_from_preserves_config(
                                objs,
                                page,
                                ops.insert(i, pair.0).insert(i + 2, pair.1),
                                i + 3,
                                fonts,
                                xobjects,
                                depth,
                                step.0,
                                step.1,
                            );
                        },
                    },
                }
            } else {
                lemma_from_preserves_config(
                    objs,
                    page,
                    ops,
                    i + 1,
                    fonts,
                    xobjects,
                    depth,
                    st,
                    out1,
                );
            }
        }
    }
}

/// A stream visit never changes which phase it runs in nor its glyph
/// policy.
pub proof fn lemma_stream_preserves_config(
    objs: Seq<(ObjectId, PdfObject)>,
    page: u32,
    id: ObjectId,
    fonts: Seq<(Seq<u8>, FontV)>,
    xobjects: Seq<(Seq<u8>, ObjV)>,
    depth: nat,
    st: VisitorV,
    out: OutV,
)
    ensures
        ({
            let w = spec_visit_stream(objs, page, id, fonts, xobjects, depth, st, out);
            &&& w.0.phase == st.phase
            &&& w.0.policy == st.policy
            &&& (st.phase is Phase1Dump ==> w.1.edits == out.edits)
        }),
    decreases depth + 1, 0int, 0int,
{
    match obj_lookup(objs, id) {
        None => {},
        Some(o) => match o {
            PdfObject::Stream(stm) => match stm.ops {
                None => {},
                Some(v) => {
                    lemma_from_preserves_config(
                        objs,
                        page,
                        ops_v(v@),
                        0,
                        fonts,
                        xobjects,
                        depth,
                        st,
                        out,
                    );
                },
            },
            _ => {},
        },
    }
}

/// Invokes one form object: follows the scope entry's reference chain to
/// its stream, widens the scope with the stream's own resources, and
/// visits the stream one nesting level down.
#[verifier::rlimit(100)]
#[verifier::spinoff_prover]
fn visit_do_entry(
    document: &Document,
    page: u32,
    entry: &PdfObject,
    fonts: &FontMap,
    xobjects: &PdfDict,
    depth: u32,
    visitor: &mut MyOpVisitor,
    out: &mut WalkOutput,
) -> (r: Result<(), PdfError>)
    ensures
        ({
            let w = spec_do_entry(
                document.objects@,
                page,
                obj_v(*entry),
                fm_v(fonts.entries@),
                dict_v(xobjects.entries@),
                depth as nat,
                visitor_v(*old(visitor)),
                out_v(*old(out)),
            );
            &&& visitor_v(*final(visitor)) == w.0
            &&& out_v(*final(out)) == w.1
            &&& match r {
                Ok(()) => w.2 is None,
                Err(e) => w.2 == Some(e),
            }
        }),
    decreases depth, 0int,
{
    let ghost objs = document.objects@;
    proof {
        crate::object::lemma_deref_target_v(objs, *entry, crate::font::REF_FUEL as nat);
        crate::object::lemma_deref_target_lookup(objs, *entry, crate::font::REF_FUEL as nat);
    }
    let (child_id, child_obj) = match document.deref_target(entry, crate::font::REF_FUEL) {
        Err(e) => {
            return Err(e);
        },
        Ok(p) => p,
    };
    let child_stream = match child_obj {
        PdfObject::Stream(stm) => stm,
        _ => {
            return Err(PdfError::WrongKind);
        },
    };
    let mut child_fonts = FontMap::new();
    proof {
        assert(fm_v(child_fonts.entries@) =~= Seq::<(Seq<u8>, FontV)>::empty());
    }
    let mut together = crate::object::clone_dict_entries(&xobjects.entries);
    match child_stream.dict.get("Resources".as_bytes()) {
        Some(PdfObject::Dict(res)) => {
            match crate::resources::collect_fonts_from_resources(res, &mut child_fonts, document) {
                Ok(()) => {},
                Err(e) => {
                    return Err(e);
                },
            }
            match res.get("XObject".as_bytes()) {
                Some(PdfObject::Dict(xd)) => {
                    simple_extend(&mut together, xd);
                },
                _ => {},
            }
        },
        _ => {},
    }
    crate::resources::font_map_extend_missing(&mut child_fonts, fonts);
    if depth == 0 {
        return Err(PdfError::DepthExceeded);
    }
    visit_ops_in_object(document, page, child_id, &child_fonts, &together, depth - 1, visitor, out)
}

/// Visits every operation inside one content stream, recursing into the
/// form objects that `Do` invokes.
///
/// A `Do` or `Tf` name missing from the scope is reported under `page` and
/// that one operator is passed over; every other failure aborts the stream.
#[verifier::rlimit(100)]
#[verifier::spinoff_prover]
fn visit_ops_in_object(
    document: &Document,
    page: u32,
    content_stream_object_id: ObjectId,
    fonts: &FontMap,
    xobjects: &PdfDict,
    depth: u32,
    visitor: &mut MyOpVisitor,
    out: &mut WalkOutput,
) -> (r: Result<(), PdfError>)
    ensures
        ({
            let w = spec_visit_stream(
                document.objects@,
                page,
                content_stream_object_id,
                fm_v(fonts.entries@),
                dict_v(xobjects.entries@),
                depth as nat,
                visitor_v(*old(visitor)),
                out_v(*old(out)),
            );
            &&& visitor_v(*final(visitor)) == w.0
            &&& out_v(*final(out)) == w.1
            &&& match r {
                Ok(()) => w.2 is None,
                Err(e) => w.2 == Some(e),
            }
        }),
    decreases depth, 1int,
{
    proof {
        reveal_strlit("Do");
        reveal_strlit("Tf");
        reveal_strlit("Tm");
        reveal_strlit("Tj");
        reveal_strlit("TJ");
        reveal_strlit("'");
        reveal_strlit("\"");
    }
    let ghost st0 = visitor_v(*visitor);
    let ghost out0 = out_v(*out);
    let stream = match document.get_object(content_stream_object_id) {
        None => {
            return Err(PdfError::DanglingReference);
        },
        Some(o) => match o {
            PdfObject::Stream(stm) => stm,
            _ => {
                return Err(PdfError::WrongKind);
            },
        },
    };
    let ops_src = match &stream.ops {
        None => {
            return Err(PdfError::UndecodableStream);
        },
        Some(v) => v,
    };
    let mut ops = crate::object::clone_op_list(ops_src);
    let ghost ops_v0 = ops_v(ops_src@);
    let mut i: usize = 0;
    while i < ops.len()
        invariant
            visitor.phase == old(visitor).phase,
            visitor.glyph_policy == old(visitor).glyph_policy,
            i <= ops@.len(),
            spec_visit_from(
                document.objects@,
                page,
                ops_v0,
                0,
                fm_v(fonts.entries@),
                dict_v(xobjects.entries@),
                depth as nat,
                st0,
                out0,
            ) == spec_visit_from(
                document.objects@,
                page,
                ops_v(ops@),
                i as int,
                fm_v(fonts.entries@),
                dict_v(xobjects.entries@),
                depth as nat,
                visitor_v(*visitor),
                out_v(*out),
            ),
        decreases ops@.len() - i,
    {
        let ghost objs = document.objects@;
        let ghost fonts_g = fm_v(fonts.entries@);
        let ghost xobj_g = dict_v(xobjects.entries@);
        let ghost opv = ops_v(ops@)[i as int];
        let ghost out_pre = out_v(*out);
        proof {
            crate::object::lemma_ops_v(ops@);
            assert(opv == op_v(ops@[i as int]));
            crate::object::lemma_objs_v(ops@[i as int].operands@);
        }
        note_op(&mut out.seen_ops, ops[i].operator.as_str());
        let ghost out1_g = (OutV {
            dump: out_pre.dump,
            seen: spec_note_op(out_pre.seen, opv.operator),
            edits: out_pre.edits,
            reports: out_pre.reports,
        });
        proof {
            assert(out_v(*out) == out1_g);
        }
        if str_eq(ops[i].operator.as_str(), "Do") {
            if ops[i].operands.len() != 1 {
                return Err(PdfError::WrongKind);
            }
            let name = match &ops[i].operands[0] {
                PdfObject::Name(n) => n,
                _ => {
                    return Err(PdfError::WrongKind);
                },
            };
            proof {
                crate::object::lemma_vdict_get(xobjects.entries@, name@);
            }
            match xobjects.get(name.as_slice()) {
                None => {
                    let ghost st_pre = visitor_v(*visitor);
                    out.reports.push((page, PdfError::ResourceNotFound));
                    proof {
                        assert(out_v(*out) == OutV {
                            dump: out1_g.dump,
                            seen: out1_g.seen,
                            edits: out1_g.edits,
                            reports: out1_g.reports.push((page, PdfError::ResourceNotFound)),
                        });
                        assert(spec_visit_from(
                            objs,
                            page,
                            ops_v(ops@),
                            i as int,
                            fonts_g,
                            xobj_g,
                            depth as nat,
                            st_pre,
                            out_pre,
                        ) == spec_visit_from(
                            objs,
                            page,
                            ops_v(ops@),
                            i as int + 1,
                            fonts_g,
                            xobj_g,
                            depth as nat,
                            visitor_v(*visitor),
                            out_v(*out),
                        ));
                    }
                },
                Some(entry) => {
                    proof {
                        lemma_do_entry_preserves_config(
                            objs,
                            page,
                            obj_v(*entry),
                            fonts_g,
                            xobj_g,
                            depth as nat,
                            visitor_v(*visitor),
                            out_v(*out),
                        );
                    }
                    match visit_do_entry(
                        document,
                        page,
                        entry,
                        fonts,
                        xobjects,
                        depth,
                        visitor,
                        out,
                    ) {
                        Ok(()) => {},
                        Err(e) => {
                            return Err(e);
                        },
                    }
                },
            }
        } else if str_eq(ops[i].operator.as_str(), "Tf") {
            match visitor.text_state.visit_tf(&ops[i], fonts) {
                Ok(()) => {},
                Err(e) => {
                    if let PdfError::ResourceNotFound = e {
                        let ghost st_pre = visitor_v(*visitor);
                        out.reports.push((page, PdfError::ResourceNotFound));
                        proof {
                            assert(out_v(*out) == OutV {
                                dump: out1_g.dump,
                                seen: out1_g.seen,
                                edits: out1_g.edits,
                                reports: out1_g.reports.push(
                                    (page, PdfError::ResourceNotFound),
                                ),
                            });
                            assert(spec_visit_from(
                                objs,
                                page,
                                ops_v(ops@),
                                i as int,
                                fonts_g,
                                xobj_g,
                                depth as nat,
                                st_pre,
                                out_pre,
                            ) == spec_visit_from(
                                objs,
                                page,
                                ops_v(ops@),
                                i as int + 1,
                                fonts_g,
                                xobj_g,
                                depth as nat,
                                visitor_v(*visitor),
                                out_v(*out),
                            ));
                        }
                    } else {
                        return Err(e);
                    }
                },
            }
        } else if str_eq(ops[i].operator.as_str(), "Tm") {
            match visitor.text_state.visit_tm(&ops[i]) {
                Ok(()) => {},
                Err(e) => {
                    return Err(e);
                },
            }
        } else if str_eq(ops[i].operator.as_str(), "Tj") || str_eq(
            ops[i].operator.as_str(),
            "TJ",
        ) || str_eq(ops[i].operator.as_str(), "'") || str_eq(ops[i].operator.as_str(), "\"") {
            let subtype = match visitor.text_state.current_font.subtype {
                Some(s) => s,
                None => {
                    return Err(PdfError::NoCurrentFont);
                },
            };
            let ids = match crate::text_state::glyph_ids(&ops[i], &subtype) {
                Ok(v) => v,
                Err(e) => {
                    return Err(e);
                },
            };
            let font_id = match visitor.text_state.current_font.font_descriptor_id {
                Some(id) => id,
                None => {
                    return Err(PdfError::NoCurrentFont);
                },
            };
            let name = match &visitor.text_state.current_font.base_font_name {
                Some(n) => n.clone(),
                None => {
                    return Err(PdfError::NoCurrentFont);
                },
            };
            match visitor.phase {
                Phase::Phase1Dump => {
                    let line = crate::text_state::glyph_dump_line(&ids);
                    note_dump(&mut out.dump, font_id, name.as_str(), line);
                },
                Phase::Phase2Fix => {
                    let policy = visitor.glyph_policy;
                    let body = match resolve_in_font_map(
                        &mut visitor.font_glyph_mappings,
                        font_id,
                        &ids,
                        policy,
                    ) {
                        Ok(b) => b,
                        Err(e) => {
                            return Err(e);
                        },
                    };
                    let slant = visitor.text_state.current_tm_slant;
                    let text = crate::text_state::build_annotation_text(
                        name.as_str(),
                        body.as_str(),
                        slant,
                    );
                    let encoded = crate::text_string::pdf_encode_unicode_text_string(
                        text.as_str(),
                    );
                    let mut bdc_operands: Vec<PdfObject> = Vec::new();
                    bdc_operands.push(PdfObject::Name("Span".as_bytes_vec()));
                    let mut at_entries: Vec<(Vec<u8>, PdfObject)> = Vec::new();
                    at_entries.push(
                        (
                            "ActualText".as_bytes_vec(),
                            PdfObject::Str(encoded, crate::object::StrFormat::Hexadecimal),
                        ),
                    );
                    bdc_operands.push(PdfObject::Dict(PdfDict { entries: at_entries }));
                    let bdc = Op { operator: "BDC".to_owned(), operands: bdc_operands };
                    let emc = Op { operator: "EMC".to_owned(), operands: Vec::new() };
                    let ghost before_ops = ops_v(ops@);
                    let ghost bdc_g = op_v(bdc);
                    let ghost emc_g = op_v(emc);
                    proof {
                        crate::object::lemma_objs_v(bdc.operands@);
                        crate::object::lemma_dict_v(bdc.operands@[1]->Dict_0.entries@);
                        assert(dict_v(bdc.operands@[1]->Dict_0.entries@) =~= seq![
                            (
                                "ActualText".spec_bytes(),
                                ObjV::Str(
                                    crate::text_string::pdf_text_string_bytes(text@),
                                    crate::object::StrFormat::Hexadecimal,
                                ),
                            ),
                        ]);
                        assert(bdc_g.operands =~= seq![
                            ObjV::Name("Span".spec_bytes()),
                            ObjV::Dict(
                                seq![
                                    (
                                        "ActualText".spec_bytes(),
                                        ObjV::Str(
                                            crate::text_string::pdf_text_string_bytes(text@),
                                            crate::object::StrFormat::Hexadecimal,
                                        ),
                                    ),
                                ],
                            ),
                        ]);
                        crate::object::lemma_objs_v(emc.operands@);
                        assert(emc_g.operands =~= Seq::<ObjV>::empty());
                    }
                    ops.insert(i + 1, emc);
                    ops.insert(i, bdc);
                    proof {
                        crate::object::lemma_ops_v(ops@);
                        assert(ops_v(ops@) =~= before_ops.insert(i as int, bdc_g).insert(
                            i as int + 2,
                            emc_g,
                        ));
                    }
                    let n2 = ops.len();
                    proof {
                        assert(i + 2 < n2);
                    }
                    i = i + 2;
                },
            }
        } else {
        }
        i = i + 1;
    }
    proof {
        crate::object::lemma_ops_v(ops@);
    }
    if let Phase::Phase2Fix = visitor.phase {
        let ghost edits0 = out_v(*out).edits;
        out.edits.push((content_stream_object_id, ops));
        proof {
            assert(out_v(*out).edits =~= edits0.push(
                (content_stream_object_id, ops_v(out.edits@.last().1@)),
            ));
        }
    }
    Ok(())
}

/// What visiting a page's content streams, in order, yields. The text
/// state is reset to the sentinel font at the start of each top-level
/// stream; a stream that fails is reported under the page's number and the
/// remaining streams are still visited.
pub open spec fn spec_walk_streams(
    objs: Seq<(ObjectId, PdfObject)>,
    page_num: u32,
    contents: Seq<ObjectId>,
    fonts: Seq<(Seq<u8>, FontV)>,
    xobjects: Seq<(Seq<u8>, ObjV)>,
    depth: nat,
    st: VisitorV,
    out: OutV,
) -> (VisitorV, OutV)
    decreases contents.len(),
{
    if contents.len() == 0 {
        (st, out)
    } else {
        let st_r = VisitorV {
            ts: initial_ts(),
            maps: st.maps,
            phase: st.phase,
            policy: st.policy,
        };
        let w = spec_visit_stream(objs, page_num, contents[0], fonts, xobjects, depth, st_r, out);
        let out2 = if w.2 is Some {
            OutV {
                dump: w.1.dump,
                seen: w.1.seen,
                edits: w.1.edits,
                reports: w.1.reports.push((page_num, w.2->0)),
            }
        } else {
            w.1
        };
        spec_walk_streams(objs, page_num, contents.drop_first(), fonts, xobjects, depth, w.0, out2)
    }
}

/// What visiting one page yields: its font and form scopes are built, and
/// a page whose scopes cannot be built is reported and passed over.
pub open spec fn spec_walk_page(
    objs: Seq<(ObjectId, PdfObject)>,
    page: Page,
    depth: nat,
    st: VisitorV,
    out: OutV,
) -> (VisitorV, OutV) {
    match crate::resources::spec_page_fonts(objs, page.resources_direct, page.resources_inherited@) {
        Err(e) => (
            st,
            OutV {
                dump: out.dump,
                seen: out.seen,
                edits: out.edits,
                reports: out.reports.push((page.number, e)),
            },
        ),
        Ok(fonts) => match spec_xobject_scope(
            objs,
            page.resources_direct,
            page.resources_inherited@,
        ) {
            Err(e) => (
                st,
                OutV {
                    dump: out.dump,
                    seen: out.seen,
                    edits: out.edits,
                    reports: out.reports.push((page.number, e)),
                },
            ),
            Ok(x) => spec_walk_streams(objs, page.number, page.contents@, fonts, x, depth, st, out),
        },
    }
}

/// The output a walk starts from: nothing yet.
pub open spec fn empty_out() -> OutV {
    OutV {
        dump: Seq::empty(),
        seen: Seq::empty(),
        edits: Seq::empty(),
        reports: Seq::empty(),
    }
}

/// What visiting every page yields, pages not matching the chosen page
/// number passed over.
pub open spec fn spec_walk_pages(
    objs: Seq<(ObjectId, PdfObject)>,
    pages: Seq<Page>,
    chosen: Option<u32>,
    depth: nat,
    st: VisitorV,
    out: OutV,
) -> (VisitorV, OutV)
    decreases pages.len(),
{
    if pages.len() == 0 {
        (st, out)
    } else {
        let skip_this = chosen matches Some(p) && pages[0].number != p;
        let step = if skip_this {
            (st, out)
        } else {
            spec_walk_page(objs, pages[0], depth, st, out)
        };
        spec_walk_pages(objs, pages.drop_first(), chosen, depth, step.0, step.1)
    }
}

/// Goes over each chosen page of the document and visits every operation
/// in its content streams, dumping or rewriting as the visitor's phase
/// directs.
///
/// The document is only read; the stream rewrites come back in the
/// output's edit list, which `apply_edits` writes back. A `Do` or `Tf`
/// name missing from its scope is reported under the page and only that
/// operator is passed over; a page or stream that fails otherwise is
/// reported in the output under its page number and the walk continues
/// with the rest — no error aborts the whole run.
pub fn visit_page_content_stream_ops(
    document: &Document,
    visitor: &mut MyOpVisitor,
    chosen_page_number: Option<u32>,
    max_depth: u32,
) -> (r: WalkOutput)
    ensures
        ({
            let w = spec_walk_pages(
                document.objects@,
                document.pages@,
                chosen_page_number,
                max_depth as nat,
                visitor_v(*old(visitor)),
                empty_out(),
            );
            visitor_v(*final(visitor)) == w.0 && out_v(r) == w.1
        }),
{
    let mut out = WalkOutput::new();
    proof {
        assert(out_v(out).dump == empty_out().dump);
        assert(out_v(out).seen == empty_out().seen);
        assert(out_v(out).edits == empty_out().edits);
        assert(out_v(out).reports == empty_out().reports);
        assert(out_v(out) == empty_out());
        assert(document.pages@.skip(0) =~= document.pages@);
    }
    let ghost st0 = visitor_v(*visitor);
    let ghost out0 = out_v(out);
    let n = document.pages.len();
    let mut p: usize = 0;
    while p < n
        invariant
            n == document.pages@.len(),
            p <= n,
            spec_walk_pages(
                document.objects@,
                document.pages@,
                chosen_page_number,
                max_depth as nat,
                st0,
                out0,
            ) == spec_walk_pages(
                document.objects@,
                document.pages@.skip(p as int),
                chosen_page_number,
                max_depth as nat,
                visitor_v(*visitor),
                out_v(out),
            ),
        decreases n - p,
    {
        proof {
            assert(document.pages@.skip(p as int)[0] == document.pages@[p as int]);
            assert(document.pages@.skip(p as int).drop_first() =~= document.pages@.skip(
                p as int + 1,
            ));
        }
        let page = &document.pages[p];
        let skip_this = match chosen_page_number {
            Some(chosen) => page.number != chosen,
            None => false,
        };
        if !skip_this {
            match crate::resources::get_page_fonts(document, page) {
                Err(e) => {
                    out.reports.push((page.number, e));
                },
                Ok(fonts) => {
                    match build_xobject_scope(document, page) {
                        Err(e) => {
                            out.reports.push((page.number, e));
                        },
                        Ok(xobjects) => {
                            proof {
                                assert(page.contents@.skip(0) =~= page.contents@);
                            }
                            let ghost stp = visitor_v(*visitor);
                            let ghost outp = out_v(out);
                            let cn = page.contents.len();
                            let mut c: usize = 0;
                            while c < cn
                                invariant
                                    cn == page.contents@.len(),
                                    c <= cn,
                                    spec_walk_streams(
                                        document.objects@,
                                        page.number,
                                        page.contents@,
                                        fm_v(fonts.entries@),
                                        dict_v(xobjects.entries@),
                                        max_depth as nat,
                                        stp,
                                        outp,
                                    ) == spec_walk_streams(
                                        document.objects@,
                                        page.number,
                                        page.contents@.skip(c as int),
                                        fm_v(fonts.entries@),
                                        dict_v(xobjects.entries@),
                                        max_depth as nat,
                                        visitor_v(*visitor),
                                        out_v(out),
                                    ),
                                decreases cn - c,
                            {
                                proof {
                                    assert(page.contents@.skip(c as int)[0]
                                        == page.contents@[c as int]);
                                    assert(page.contents@.skip(c as int).drop_first()
                                        =~= page.contents@.skip(c as int + 1));
                                }
                                let cid = page.contents[c];
                                visitor.text_state = TextState::new();
                                match visit_ops_in_object(
                                    document,
                                    page.number,
                                    cid,
                                    &fonts,
                                    &xobjects,
                                    max_depth,
                                    visitor,
                                    &mut out,
                                ) {
                                    Ok(()) => {},
                                    Err(e) => {
                                        out.reports.push((page.number, e));
                                    },
                                }
                                c = c + 1;
                            }
                            proof {
                                assert(page.contents@.skip(cn as int) =~= Seq::<
                                    ObjectId,
                                >::empty());
                            }
                        },
                    }
                },
            }
        }
        p = p + 1;
    }
    proof {
        assert(document.pages@.skip(n as int) =~= Seq::<Page>::empty());
    }
    out
}

/// The shape of an edit list.
pub open spec fn edits_v(e: Seq<(ObjectId, Vec<Op>)>) -> Seq<(ObjectId, Seq<OpV>)> {
    Seq::new(e.len(), |i: int| (e[i].0, ops_v(e[i].1@)))
}

/// What one edit does to the graph's shape: the stream stored under the
/// edit's id keeps its dictionary and has its operator list replaced; an id
/// that stores no object, or one that is not a stream, is the edit's
/// failure and changes nothing.
pub open spec fn spec_apply_one(
    objs: Seq<(ObjectId, ObjV)>,
    id: ObjectId,
    ops: Seq<OpV>,
) -> Result<Seq<(ObjectId, ObjV)>, PdfError> {
    match vobj_lookup(objs, id) {
        None => Err(PdfError::DanglingReference),
        Some(o) => {
            if !(o is Stream) {
                Err(PdfError::WrongKind)
            } else {
                Ok(
                    objs.update(
                        vobj_index(objs, id),
                        (id, ObjV::Stream(StreamV { dict: o->Stream_0.dict, ops: Some(ops) })),
                    ),
                )
            }
        },
    }
}

/// What applying an edit list yields: the graph's shape after the edits are
/// folded over it in order, and the failed edits in edit order, each with
/// its error.
pub open spec fn spec_apply_edits(
    objs: Seq<(ObjectId, ObjV)>,
    edits: Seq<(ObjectId, Seq<OpV>)>,
    failures: Seq<(ObjectId, PdfError)>,
) -> (Seq<(ObjectId, ObjV)>, Seq<(ObjectId, PdfError)>)
    decreases edits.len(),
{
    if edits.len() == 0 {
        (objs, failures)
    } else {
        match spec_apply_one(objs, edits[0].0, edits[0].1) {
            Ok(objs2) => spec_apply_edits(objs2, edits.drop_first(), failures),
            Err(e) => spec_apply_edits(objs, edits.drop_first(), failures.push((edits[0].0, e))),
        }
    }
}

/// Writes an edit list back into the document, stream by stream.
///
/// The document afterwards is the fold of the edits over the one before:
/// each edit in order replaces the operator list of the stream stored under
/// its id, as `spec_apply_one` says, so an object named by no edit is
/// unchanged; an edit whose id stores no stream changes nothing and comes
/// back in the failure list with its error. The page list is untouched.
pub fn apply_edits(document: &mut Document, edits: Vec<(ObjectId, Vec<Op>)>) -> (r: Vec<
    (ObjectId, PdfError),
>)
    ensures
        final(document).pages@ == old(document).pages@,
        ({
            let w = spec_apply_edits(
                graph_v(old(document).objects@),
                edits_v(edits@),
                Seq::<(ObjectId, PdfError)>::empty(),
            );
            &&& graph_v(final(document).objects@) == w.0
            &&& r@ == w.1
        }),
{
    let ghost g0 = graph_v(old(document).objects@);
    let ghost e0 = edits_v(edits@);
    let mut failures: Vec<(ObjectId, PdfError)> = Vec::new();
    let mut remaining = edits;
    proof {
        assert(failures@ =~= Seq::<(ObjectId, PdfError)>::empty());
    }
    while remaining.len() > 0
        invariant
            document.pages@ == old(document).pages@,
            spec_apply_edits(g0, e0, Seq::<(ObjectId, PdfError)>::empty()) == spec_apply_edits(
                graph_v(document.objects@),
                edits_v(remaining@),
                failures@,
            ),
        decreases remaining@.len(),
    {
        let ghost rem0 = remaining@;
        let ghost objs_pre = document.objects@;
        let ghost gpre = graph_v(objs_pre);
        let ghost f_pre = failures@;
        proof {
            assert(edits_v(rem0)[0] == (rem0[0].0, ops_v(rem0[0].1@)));
            assert(edits_v(rem0).drop_first() =~= edits_v(rem0.drop_first()));
        }
        let (id, ops) = remaining.remove(0);
        let ghost ops_g = ops_v(ops@);
        let res = document.set_stream_ops(id, ops);
        proof {
            lemma_graph_v_lookup(objs_pre, id);
            lemma_vobj_index(gpre, id);
        }
        match res {
            Ok(()) => {
                proof {
                    let o = obj_lookup(objs_pre, id)->Some_0;
                    let i = obj_index(objs_pre, id);
                    assert(gpre[i].1 == obj_v(objs_pre[i].1));
                    assert(graph_v(document.objects@) =~= gpre.update(
                        i,
                        (
                            id,
                            ObjV::Stream(
                                StreamV {
                                    dict: obj_v(o)->Stream_0.dict,
                                    ops: Some(ops_g),
                                },
                            ),
                        ),
                    ));
                    assert(spec_apply_one(gpre, id, ops_g) == Ok::<Seq<(ObjectId, ObjV)>, PdfError>(
                        graph_v(document.objects@),
                    ));
                }
            },
            Err(e) => {
                failures.push((id, e));
                proof {
                    assert(graph_v(document.objects@) =~= gpre);
                    if e == PdfError::WrongKind {
                        let o = obj_lookup(objs_pre, id)->Some_0;
                        match o {
                            PdfObject::Stream(_) => {
                                assert(false);
                            },
                            _ => {},
                        }
                        assert(!(obj_v(o) is Stream));
                    }
                    assert(spec_apply_one(gpre, id, ops_g) == Err::<
                        Seq<(ObjectId, ObjV)>,
                        PdfError,
                    >(e));
                }
            },
        }
    }
    proof {
        assert(edits_v(remaining@) =~= Seq::<(ObjectId, Seq<OpV>)>::empty());
    }
    failures
}

/// A page's stream visits never change the phase, and in dump mode they
/// record no edits.
proof fn lemma_walk_streams_dump(
    objs: Seq<(ObjectId, PdfObject)>,
    page_num: u32,
    contents: Seq<ObjectId>,
    fonts: Seq<(Seq<u8>, FontV)>,
    xobjects: Seq<(Seq<u8>, ObjV)>,
    depth: nat,
    st: VisitorV,
    out: OutV,
)
    ensures
        ({
            let w = spec_walk_streams(objs, page_num, contents, fonts, xobjects, depth, st, out);
            &&& w.0.phase == st.phase
            &&& w.0.policy == st.policy
            &&& (st.phase is Phase1Dump ==> w.1.edits == out.edits)
        }),
    decreases contents.len(),
{
    if contents.len() > 0 {
        let st_r = VisitorV { ts: initial_ts(), maps: st.maps, phase: st.phase, policy: st.policy };
        lemma_stream_preserves_config(objs, page_num, contents[0], fonts, xobjects, depth, st_r, out);
        let w = spec_visit_stream(objs, page_num, contents[0], fonts, xobjects, depth, st_r, out);
        let out2 = if w.2 is Some {
            OutV {
                dump: w.1.dump,
                seen: w.1.seen,
                edits: w.1.edits,
                reports: w.1.reports.push((page_num, w.2->0)),
            }
        } else {
            w.1
        };
        lemma_walk_streams_dump(
            objs,
            page_num,
            contents.drop_first(),
            fonts,
            xobjects,
            depth,
            w.0,
            out2,
        );
    }
}

/// A page visit never changes the phase, and in dump mode it records no
/// edits.
proof fn lemma_walk_page_dump(
    objs: Seq<(ObjectId, PdfObject)>,
    page: Page,
    depth: nat,
    st: VisitorV,
    out: OutV,
)
    ensures
        ({
            let w = spec_walk_page(objs, page, depth, st, out);
            &&& w.0.phase == st.phase
            &&& w.0.policy == st.policy
            &&& (st.phase is Phase1Dump ==> w.1.edits == out.edits)
        }),
{
    match crate::resources::spec_page_fonts(objs, page.resources_direct, page.resources_inherited@) {
        Err(_) => {},
        Ok(fonts) => {
            match spec_xobject_scope(objs, page.resources_direct, page.resources_inherited@) {
                Err(_) => {},
                Ok(x) => {
                    lemma_walk_streams_dump(
                        objs,
                        page.number,
                        page.contents@,
                        fonts,
                        x,
                        depth,
                        st,
                        out,
                    );
                },
            }
        },
    }
}

/// A whole walk never changes the phase, and in dump mode it records no
/// edits.
proof fn lemma_walk_pages_dump(
    objs: Seq<(ObjectId, PdfObject)>,
    pages: Seq<Page>,
    chosen: Option<u32>,
    depth: nat,
    st: VisitorV,
    out: OutV,
)
    ensures
        ({
            let w = spec_walk_pages(objs, pages, chosen, depth, st, out);
            &&& w.0.phase == st.phase
            &&& (st.phase is Phase1Dump ==> w.1.edits == out.edits)
        }),
    decreases pages.len(),
{
    if pages.len() > 0 {
        let skip_this = chosen matches Some(p) && pages[0].number != p;
        let step = if skip_this {
            (st, out)
        } else {
            spec_walk_page(objs, pages[0], depth, st, out)
        };
        if !skip_this {
            lemma_walk_page_dump(objs, pages[0], depth, st, out);
        }
        lemma_walk_pages_dump(objs, pages.drop_first(), chosen, depth, step.0, step.1);
    }
}

/// Dump mode is idempotent: a walk whose visitor is in the dump phase
/// records no edits, so applying its output changes nothing in the
/// document; and because the walk's outputs are a function of the document,
/// the page choice, the depth bound and the visitor's starting state alone,
/// a second dump over the unmodified document from the same starting state
/// produces the same dump lines, byte for byte.
pub proof fn lemma_dump_mode_idempotent(
    objs: Seq<(ObjectId, PdfObject)>,
    pages: Seq<Page>,
    chosen: Option<u32>,
    depth: nat,
    st: VisitorV,
)
    requires
        st.phase is Phase1Dump,
    ensures
        spec_walk_pages(objs, pages, chosen, depth, st, empty_out()).1.edits == Seq::<
            (ObjectId, Seq<OpV>),
        >::empty(),
{
    lemma_walk_pages_dump(objs, pages, chosen, depth, st, empty_out());
}

/// What collecting the document's ToUnicode tables yields: for every
/// dictionary object with a `/ToUnicode` entry that resolves, the resolved
/// font together with its parsed, non-empty table; a font that fails to
/// resolve or whose table fails to parse is reported under its object id
/// and skipped, and never aborts the collection.
pub open spec fn spec_collect_unicode(
    objs: Seq<(ObjectId, PdfObject)>,
    entries: Seq<(ObjectId, PdfObject)>,
    acc: Seq<(FontV, Seq<(Seq<u8>, Seq<Seq<char>>)>)>,
    reports: Seq<(ObjectId, PdfError)>,
) -> (Seq<(FontV, Seq<(Seq<u8>, Seq<Seq<char>>)>)>, Seq<(ObjectId, PdfError)>)
    decreases entries.len(),
{
    if entries.len() == 0 {
        (acc, reports)
    } else {
        let id = entries[0].0;
        let step = match entries[0].1 {
            PdfObject::Dict(d) => match dict_get(d.entries@, "ToUnicode".spec_bytes()) {
                Some(tu) => match crate::object::spec_deref(
                    objs,
                    tu,
                    crate::font::REF_FUEL as nat,
                ) {
                    Err(_) => (acc, reports),
                    Ok(stream_obj) => match crate::font::spec_parse_font(objs, d.entries@) {
                        Err(e) => (acc, reports.push((id, e))),
                        Ok(fv) => match crate::cmap::spec_cmap_parse(stream_obj) {
                            Err(e) => (acc, reports.push((id, e))),
                            Ok(cmv) => if cmv.len() > 0 {
                                (acc.push((fv, cmv)), reports)
                            } else {
                                (acc, reports)
                            },
                        },
                    },
                },
                None => (acc, reports),
            },
            _ => (acc, reports),
        };
        spec_collect_unicode(objs, entries.drop_first(), step.0, step.1)
    }
}

/// Collects, for every font dictionary in the document that carries a
/// `/ToUnicode` stream, the resolved font and its parsed table.
pub fn collect_unicode_mappings(document: &Document) -> (r: (
    Vec<(crate::font::Font, crate::cmap::ToUnicodeCMap)>,
    Vec<(ObjectId, PdfError)>,
))
    ensures
        ({
            let w = spec_collect_unicode(
                document.objects@,
                document.objects@,
                Seq::empty(),
                Seq::empty(),
            );
            &&& Seq::new(
                r.0@.len(),
                |i: int| (crate::font::font_v(r.0@[i].0), crate::cmap::cm_v(r.0@[i].1.mapped@)),
            ) == w.0
            &&& r.1@ == w.1
        }),
{
    let mut found: Vec<(crate::font::Font, crate::cmap::ToUnicodeCMap)> = Vec::new();
    let mut reports: Vec<(ObjectId, PdfError)> = Vec::new();
    let ghost objs = document.objects@;
    let n = document.objects.len();
    let mut i: usize = 0;
    proof {
        assert(objs.skip(0) =~= objs);
        assert(Seq::new(
            found@.len(),
            |j: int| (crate::font::font_v(found@[j].0), crate::cmap::cm_v(found@[j].1.mapped@)),
        ) =~= Seq::<(FontV, Seq<(Seq<u8>, Seq<Seq<char>>)>)>::empty());
        assert(reports@ =~= Seq::<(ObjectId, PdfError)>::empty());
    }
    while i < n
        invariant
            n == document.objects@.len(),
            i <= n,
            spec_collect_unicode(objs, objs, Seq::empty(), Seq::empty()) == spec_collect_unicode(
                objs,
                objs.skip(i as int),
                Seq::new(
                    found@.len(),
                    |j: int| (
                        crate::font::font_v(found@[j].0),
                        crate::cmap::cm_v(found@[j].1.mapped@),
                    ),
                ),
                reports@,
            ),
        decreases n - i,
    {
        proof {
            assert(objs.skip(i as int)[0] == objs[i as int]);
            assert(objs.skip(i as int).drop_first() =~= objs.skip(i as int + 1));
        }
        let id = document.objects[i].0;
        match &document.objects[i].1 {
            PdfObject::Dict(d) => {
                match d.get("ToUnicode".as_bytes()) {
                    Some(tu) => {
                        match document.deref(tu, crate::font::REF_FUEL) {
                            Err(_) => {},
                            Ok(stream_obj) => {
                                match crate::font::parse_font(d, document) {
                                    Err(e) => {
                                        reports.push((id, e));
                                    },
                                    Ok(f) => {
                                        match crate::cmap::ToUnicodeCMap::parse(stream_obj) {
                                            Err(e) => {
                                                reports.push((id, e));
                                            },
                                            Ok(cmap) => {
                                                if cmap.mapped.len() > 0 {
                                                    proof {
                                                        crate::cmap::lemma_cm_len(cmap.mapped@);
                                                    }
                                                    let ghost fs = Seq::new(
                                                        found@.len(),
                                                        |j: int| (
                                                            crate::font::font_v(found@[j].0),
                                                            crate::cmap::cm_v(
                                                                found@[j].1.mapped@,
                                                            ),
                                                        ),
                                                    );
                                                    found.push((f, cmap));
                                                    proof {
                                                        assert(Seq::new(
                                                            found@.len(),
                                                            |j: int| (
                                                                crate::font::font_v(found@[j].0),
                                                                crate::cmap::cm_v(
                                                                    found@[j].1.mapped@,
                                                                ),
                                                            ),
                                                        ) =~= fs.push(
                                                            (
                                                                crate::font::font_v(
                                                                    found@.last().0,
                                                                ),
                                                                crate::cmap::cm_v(
                                                                    found@.last().1.mapped@,
                                                                ),
                                                            ),
                                                        ));
                                                    }
                                                }
                                            },
                                        }
                                    },
                                }
                            },
                        }
                    },
                    None => {},
                }
            },
            _ => {},
        }
        i = i + 1;
    }
    proof {
        assert(objs.skip(n as int) =~= Seq::<(ObjectId, PdfObject)>::empty());
    }
    (found, reports)
}

} // verus!
