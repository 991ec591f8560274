//! Resource accumulation.
//!
//! Each content-stream visit works under a scope: the fonts and form
//! objects its names refer to. The scope merges the page's own resource
//! dictionary with any inherited resource objects — first seen wins for
//! fonts, as the more specific scope should be consulted first — and a form
//! invocation later widens it with the form's own resources, which add to
//! and override the parent's.

#![verifier::loop_isolation(false)]

use vstd::prelude::*;
use vstd::string::StringSliceAdditionalSpecFns;

use crate::error::PdfError;
use crate::font::{clone_font, font_v, parse_font, spec_parse_font, Font, FontV};
use crate::object::{
    bytes_eq, clone_bytes, dict_get, obj_lookup, Document, ObjectId, Page, PdfDict, PdfObject,
};

verus! {

/// A font scope: page-local names mapped to resolved fonts, first seen
/// first.
#[derive(Debug, PartialEq, Eq)]
pub struct FontMap {
    pub entries: Vec<(Vec<u8>, Font)>,
}

/// The shape of a font scope.
pub open spec fn fm_v(s: Seq<(Vec<u8>, Font)>) -> Seq<(Seq<u8>, FontV)> {
    Seq::new(s.len(), |i: int| (s[i].0@, font_v(s[i].1)))
}

/// The font recorded under a name: the first entry that carries it.
pub open spec fn fm_get(m: Seq<(Seq<u8>, FontV)>, k: Seq<u8>) -> Option<FontV>
    decreases m.len(),
{
    if m.len() == 0 {
        None
    } else if m[0].0 == k {
        Some(m[0].1)
    } else {
        fm_get(m.drop_first(), k)
    }
}

impl FontMap {
    /// A scope without fonts.
    pub fn new() -> (r: FontMap)
        ensures
            r.entries@.len() == 0,
    {
        FontMap { entries: Vec::new() }
    }

    /// The font under `name`, or `None`.
    pub fn get(&self, name: &[u8]) -> (r: Option<&Font>)
        ensures
            match r {
                Some(f) => fm_get(fm_v(self.entries@), name@) == Some(font_v(*f)),
                None => fm_get(fm_v(self.entries@), name@) is None,
            },
    {
        let n = self.entries.len();
        let mut i: usize = 0;
        proof {
            assert(fm_v(self.entries@).skip(0) =~= fm_v(self.entries@));
        }
        while i < n
            invariant
                n == self.entries@.len(),
                i <= n,
                fm_get(fm_v(self.entries@), name@) == fm_get(
                    fm_v(self.entries@).skip(i as int),
                    name@,
                ),
            decreases n - i,
        {
            proof {
                assert(fm_v(self.entries@).skip(i as int)[0] == fm_v(self.entries@)[i as int]);
            }
            if bytes_eq(self.entries[i].0.as_slice(), name) {
                return Some(&self.entries[i].1);
            }
            proof {
                assert(fm_v(self.entries@).skip(i as int).drop_first() =~= fm_v(
                    self.entries@,
                ).skip(i as int + 1));
            }
            i = i + 1;
        }
        proof {
            assert(fm_v(self.entries@).skip(n as int) =~= Seq::<(Seq<u8>, FontV)>::empty());
        }
        None
    }

    /// Whether the scope holds a font under `name`.
    pub fn has(&self, name: &[u8]) -> (r: bool)
        ensures
            r == (fm_get(fm_v(self.entries@), name@) is Some),
    {
        self.get(name).is_some()
    }
}

/// What collecting the fonts of one resource dictionary's `/Font`
/// subdictionary adds to a scope, entry by entry: an entry whose value is a
/// dictionary, or a reference stored as one, is resolved; a name already in
/// scope is kept as it was (first seen wins); an entry of any other shape
/// is passed over; a font that fails to resolve fails the collection.
pub open spec fn spec_collect_entries(
    objs: Seq<(ObjectId, PdfObject)>,
    fonts: Seq<(Seq<u8>, FontV)>,
    entries: Seq<(Vec<u8>, PdfObject)>,
) -> Result<Seq<(Seq<u8>, FontV)>, PdfError>
    decreases entries.len(),
{
    if entries.len() == 0 {
        Ok(fonts)
    } else {
        let name = entries[0].0@;
        let fd = match entries[0].1 {
            PdfObject::Dict(d) => Some(d.entries@),
            PdfObject::Ref(id) => match obj_lookup(objs, id) {
                Some(PdfObject::Dict(d)) => Some(d.entries@),
                _ => None,
            },
            _ => None,
        };
        match fd {
            None => spec_collect_entries(objs, fonts, entries.drop_first()),
            Some(fde) => {
                if fm_get(fonts, name) is Some {
                    spec_collect_entries(objs, fonts, entries.drop_first())
                } else {
                    match spec_parse_font(objs, fde) {
                        Err(e) => Err(e),
                        Ok(fv) => spec_collect_entries(
                            objs,
                            fonts.push((name, fv)),
                            entries.drop_first(),
                        ),
                    }
                }
            },
        }
    }
}

/// What collecting the fonts of one resource dictionary adds: nothing when
/// it has no `/Font` subdictionary.
pub open spec fn spec_collect_fonts(
    objs: Seq<(ObjectId, PdfObject)>,
    fonts: Seq<(Seq<u8>, FontV)>,
    resources: Seq<(Vec<u8>, PdfObject)>,
) -> Result<Seq<(Seq<u8>, FontV)>, PdfError> {
    match dict_get(resources, "Font".spec_bytes()) {
        Some(PdfObject::Dict(fd)) => spec_collect_entries(objs, fonts, fd.entries@),
        _ => Ok(fonts),
    }
}

/// Collects the fonts a resource dictionary declares into a scope.
pub fn collect_fonts_from_resources(
    resources: &PdfDict,
    fonts: &mut FontMap,
    doc: &Document,
) -> (r: Result<(), PdfError>)
    ensures
        match r {
            Ok(()) => spec_collect_fonts(doc.objects@, fm_v(old(fonts).entries@), resources.entries@)
                == Ok::<Seq<(Seq<u8>, FontV)>, PdfError>(fm_v(final(fonts).entries@)),
            Err(e) => spec_collect_fonts(
                doc.objects@,
                fm_v(old(fonts).entries@),
                resources.entries@,
            ) == Err::<Seq<(Seq<u8>, FontV)>, PdfError>(e),
        },
{
    let font_dict = match resources.get("Font".as_bytes()) {
        Some(PdfObject::Dict(fd)) => fd,
        _ => {
            return Ok(());
        },
    };
    let n = font_dict.entries.len();
    let mut i: usize = 0;
    proof {
        assert(font_dict.entries@.skip(0) =~= font_dict.entries@);
    }
    while i < n
        invariant
            n == font_dict.entries@.len(),
            i <= n,
            spec_collect_entries(
                doc.objects@,
                fm_v(old(fonts).entries@),
                font_dict.entries@,
            ) == spec_collect_entries(
                doc.objects@,
                fm_v(fonts.entries@),
                font_dict.entries@.skip(i as int),
            ),
        decreases n - i,
    {
        proof {
            assert(font_dict.entries@.skip(i as int)[0] == font_dict.entries@[i as int]);
            assert(font_dict.entries@.skip(i as int).drop_first() =~= font_dict.entries@.skip(
                i as int + 1,
            ));
        }
        let name = &font_dict.entries[i].0;
        let value = &font_dict.entries[i].1;
        let fd: Option<&PdfDict> = match value {
            PdfObject::Dict(d) => Some(d),
            PdfObject::Ref(id) => match doc.get_object(*id) {
                Some(PdfObject::Dict(d)) => Some(d),
                _ => None,
            },
            _ => None,
        };
        match fd {
            None => {},
            Some(fde) => {
                if !fonts.has(name.as_slice()) {
                    match parse_font(fde, doc) {
                        Err(e) => {
                            return Err(e);
                        },
                        Ok(f) => {
                            let key = clone_bytes(name);
                            let ghost before = fm_v(fonts.entries@);
                            fonts.entries.push((key, f));
                            proof {
                                assert(fm_v(fonts.entries@) =~= before.push(
                                    (name@, font_v(fonts.entries@.last().1)),
                                ));
                            }
                        },
                    }
                }
            },
        }
        i = i + 1;
    }
    proof {
        assert(font_dict.entries@.skip(n as int) =~= Seq::<(Vec<u8>, PdfObject)>::empty());
    }
    Ok(())
}

/// What collecting a page's fonts yields: the direct resource dictionary
/// first, then each inherited resource object that resolves to a
/// dictionary, in order.
pub open spec fn spec_page_fonts(
    objs: Seq<(ObjectId, PdfObject)>,
    direct: Option<PdfDict>,
    inherited: Seq<ObjectId>,
) -> Result<Seq<(Seq<u8>, FontV)>, PdfError>
    decreases inherited.len(),
{
    if inherited.len() == 0 {
        match direct {
            Some(rd) => spec_collect_fonts(objs, Seq::empty(), rd.entries@),
            None => Ok(Seq::empty()),
        }
    } else {
        match spec_page_fonts(objs, direct, inherited.drop_last()) {
            Err(e) => Err(e),
            Ok(acc) => match obj_lookup(objs, inherited.last()) {
                Some(PdfObject::Dict(rd)) => spec_collect_fonts(objs, acc, rd.entries@),
                _ => Ok(acc),
            },
        }
    }
}

/// Once a prefix of the inherited list fails, the whole collection fails
/// the same way.
proof fn lemma_page_fonts_err(
    objs: Seq<(ObjectId, PdfObject)>,
    direct: Option<PdfDict>,
    inherited: Seq<ObjectId>,
    i: int,
)
    requires
        0 <= i <= inherited.len(),
        spec_page_fonts(objs, direct, inherited.take(i)) is Err,
    ensures
        spec_page_fonts(objs, direct, inherited) == spec_page_fonts(objs, direct, inherited.take(i)),
    decreases inherited.len() - i,
{
    if i < inherited.len() {
        assert(inherited.take(i + 1).drop_last() =~= inherited.take(i));
        lemma_page_fonts_err(objs, direct, inherited, i + 1);
    } else {
        assert(inherited.take(i) =~= inherited);
    }
}

/// Collects the fonts in scope on a page: its direct resource dictionary,
/// then its inherited resource objects.
pub fn get_page_fonts(document: &Document, page: &Page) -> (r: Result<FontMap, PdfError>)
    ensures
        match r {
            Ok(fm) => spec_page_fonts(
                document.objects@,
                page.resources_direct,
                page.resources_inherited@,
            ) == Ok::<Seq<(Seq<u8>, FontV)>, PdfError>(fm_v(fm.entries@)),
            Err(e) => spec_page_fonts(
                document.objects@,
                page.resources_direct,
                page.resources_inherited@,
            ) == Err::<Seq<(Seq<u8>, FontV)>, PdfError>(e),
        },
{
    let mut fonts = FontMap::new();
    proof {
        assert(fm_v(fonts.entries@) =~= Seq::<(Seq<u8>, FontV)>::empty());
        assert(page.resources_inherited@.take(0) =~= Seq::<ObjectId>::empty());
    }
    match &page.resources_direct {
        Some(rd) => {
            match collect_fonts_from_resources(rd, &mut fonts, document) {
                Ok(()) => {},
                Err(e) => {
                    proof {
                        lemma_page_fonts_err(
                            document.objects@,
                            page.resources_direct,
                            page.resources_inherited@,
                            0,
                        );
                    }
                    return Err(e);
                },
            }
        },
        None => {},
    }
    let n = page.resources_inherited.len();
    let mut i: usize = 0;
    while i < n
        invariant
            n == page.resources_inherited@.len(),
            i <= n,
            spec_page_fonts(
                document.objects@,
                page.resources_direct,
                page.resources_inherited@.take(i as int),
            ) == Ok::<Seq<(Seq<u8>, FontV)>, PdfError>(fm_v(fonts.entries@)),
        decreases n - i,
    {
        proof {
            assert(page.resources_inherited@.take(i as int + 1).drop_last()
                =~= page.resources_inherited@.take(i as int));
            assert(page.resources_inherited@.take(i as int + 1).last()
                == page.resources_inherited@[i as int]);
        }
        let rid = page.resources_inherited[i];
        match document.get_object(rid) {
            Some(PdfObject::Dict(rd)) => {
                match collect_fonts_from_resources(rd, &mut fonts, document) {
                    Ok(()) => {},
                    Err(e) => {
                        proof {
                            lemma_page_fonts_err(
                                document.objects@,
                                page.resources_direct,
                                page.resources_inherited@,
                                i as int + 1,
                            );
                        }
                        return Err(e);
                    },
                }
            },
            _ => {},
        }
        i = i + 1;
    }
    proof {
        assert(page.resources_inherited@.take(n as int) =~= page.resources_inherited@);
    }
    Ok(fonts)
}

/// What widening a scope with a parent scope adds: every parent entry
/// whose name the child scope does not already hold, in parent order — so
/// the child's own, more specific entries win every lookup.
pub open spec fn spec_extend_missing(
    dst: Seq<(Seq<u8>, FontV)>,
    src: Seq<(Seq<u8>, FontV)>,
) -> Seq<(Seq<u8>, FontV)>
    decreases src.len(),
{
    if src.len() == 0 {
        dst
    } else {
        let d2 = if fm_get(dst, src[0].0) is Some {
            dst
        } else {
            dst.push(src[0])
        };
        spec_extend_missing(d2, src.drop_first())
    }
}

/// Widens a scope with every entry of `src` whose name it lacks.
pub fn font_map_extend_missing(dst: &mut FontMap, src: &FontMap)
    ensures
        fm_v(final(dst).entries@) == spec_extend_missing(
            fm_v(old(dst).entries@),
            fm_v(src.entries@),
        ),
{
    let n = src.entries.len();
    let mut i: usize = 0;
    proof {
        assert(fm_v(src.entries@).skip(0) =~= fm_v(src.entries@));
    }
    while i < n
        invariant
            n == src.entries@.len(),
            i <= n,
            spec_extend_missing(fm_v(old(dst).entries@), fm_v(src.entries@))
                == spec_extend_missing(fm_v(dst.entries@), fm_v(src.entries@).skip(i as int)),
        decreases n - i,
    {
        proof {
            assert(fm_v(src.entries@).skip(i as int)[0] == fm_v(src.entries@)[i as int]);
            assert(fm_v(src.entries@).skip(i as int).drop_first() =~= fm_v(src.entries@).skip(
                i as int + 1,
            ));
        }
        let name = &src.entries[i].0;
        if !dst.has(name.as_slice()) {
            let key = clone_bytes(name);
            let f = clone_font(&src.entries[i].1);
            let ghost before = fm_v(dst.entries@);
            dst.entries.push((key, f));
            proof {
                assert(fm_v(dst.entries@) =~= before.push(fm_v(src.entries@)[i as int]));
            }
        }
        i = i + 1;
    }
    proof {
        assert(fm_v(src.entries@).skip(n as int) =~= Seq::<(Seq<u8>, FontV)>::empty());
    }
}

} // verus!
