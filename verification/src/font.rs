//! Font resolution.
//!
//! A font resource entry leads, possibly through references, to a font
//! dictionary. Resolving it follows the dictionary chain — a simple font's
//! own `/FontDescriptor`, or a composite font's `/DescendantFonts` and the
//! descendant's descriptor — to a stable identity: the base name, the
//! descriptor's object id (the join key for glyph-to-text tables), and the
//! subtype, which fixes the glyph-code width.

#![verifier::loop_isolation(false)]

use vstd::prelude::*;
use vstd::string::StringSliceAdditionalSpecFns;

use crate::error::PdfError;
use crate::object::{dict_get, obj_lookup, Document, ObjectId, PdfDict, PdfObject};
use crate::text_string::utf8_bytes_to_string;
use vstd::utf8::{decode_utf8, valid_utf8};

verus! {

/// How many references a chain may pass before it is reported as a cycle.
pub const REF_FUEL: u32 = 32;

/// The closed set of font subtypes the format defines for font dictionaries.
///
/// The subtype decides the glyph-code width: a composite (`Type0`) font uses
/// two-byte codes, every other subtype one-byte codes. An unknown subtype
/// name is a hard error — guessing a width silently would corrupt text.
#[derive(Debug, Clone, Copy, PartialEq, Eq, Structural)]
pub enum FontSubtype {
    Type0,
    Type1,
    MMType1,
    Type3,
    TrueType,
}

/// The subtype a name denotes, if any.
pub open spec fn subtype_of_name(s: Seq<char>) -> Option<FontSubtype> {
    if s == "Type0"@ {
        Some(FontSubtype::Type0)
    } else if s == "Type1"@ {
        Some(FontSubtype::Type1)
    } else if s == "MMType1"@ {
        Some(FontSubtype::MMType1)
    } else if s == "Type3"@ {
        Some(FontSubtype::Type3)
    } else if s == "TrueType"@ {
        Some(FontSubtype::TrueType)
    } else {
        None
    }
}

impl FontSubtype {
    /// The width of one glyph code under this subtype, in bytes.
    pub open spec fn spec_code_width(self) -> nat {
        if self is Type0 {
            2
        } else {
            1
        }
    }

    /// The width of one glyph code under this subtype, in bytes.
    pub fn code_width(&self) -> (r: usize)
        ensures
            r == self.spec_code_width(),
    {
        match self {
            FontSubtype::Type0 => 2,
            _ => 1,
        }
    }

    /// Reads a subtype name; an unrecognized name is a hard error.
    pub fn from_str(s: &str) -> (r: Result<FontSubtype, PdfError>)
        ensures
            match r {
                Ok(st) => subtype_of_name(s@) == Some(st),
                Err(e) => subtype_of_name(s@) is None && e == PdfError::UnknownFontSubtype,
            },
    {
        proof {
            reveal_strlit("Type0");
            reveal_strlit("Type1");
            reveal_strlit("MMType1");
            reveal_strlit("Type3");
            reveal_strlit("TrueType");
        }
        if crate::object::str_eq(s, "Type0") {
            Ok(FontSubtype::Type0)
        } else if crate::object::str_eq(s, "Type1") {
            Ok(FontSubtype::Type1)
        } else if crate::object::str_eq(s, "MMType1") {
            Ok(FontSubtype::MMType1)
        } else if crate::object::str_eq(s, "Type3") {
            Ok(FontSubtype::Type3)
        } else if crate::object::str_eq(s, "TrueType") {
            Ok(FontSubtype::TrueType)
        } else {
            Err(PdfError::UnknownFontSubtype)
        }
    }
}

/// A resolved font: base name, descriptor id and subtype.
///
/// Two resource entries whose descriptors are one object are one font for
/// glyph-mapping purposes; the descriptor id is the join key for cached
/// glyph-to-text tables. The fields are optional because the text state
/// starts each content stream with an empty sentinel font.
#[derive(Debug, PartialEq, Eq)]
pub struct Font {
    pub font_descriptor_id: Option<ObjectId>,
    pub base_font_name: Option<String>,
    pub encoding: Option<String>,
    pub subtype: Option<FontSubtype>,
}

/// The mathematical shape of a font.
pub struct FontV {
    pub font_descriptor_id: Option<ObjectId>,
    pub base_font_name: Option<Seq<char>>,
    pub encoding: Option<Seq<char>>,
    pub subtype: Option<FontSubtype>,
}

/// The shape of a font.
pub open spec fn font_v(f: Font) -> FontV {
    FontV {
        font_descriptor_id: f.font_descriptor_id,
        base_font_name: match f.base_font_name {
            None => None,
            Some(s) => Some(s@),
        },
        encoding: match f.encoding {
            None => None,
            Some(s) => Some(s@),
        },
        subtype: f.subtype,
    }
}

/// The sentinel font the text state starts with.
pub fn empty_font() -> (r: Font)
    ensures
        font_v(r) == (FontV {
            font_descriptor_id: None::<ObjectId>,
            base_font_name: None::<Seq<char>>,
            encoding: None::<Seq<char>>,
            subtype: None::<FontSubtype>,
        }),
{
    Font { font_descriptor_id: None, base_font_name: None, encoding: None, subtype: None }
}

/// A fresh font of the same shape.
pub fn clone_font(f: &Font) -> (r: Font)
    ensures
        font_v(r) == font_v(*f),
{
    Font {
        font_descriptor_id: f.font_descriptor_id,
        base_font_name: match &f.base_font_name {
            None => None,
            Some(s) => Some(s.clone()),
        },
        encoding: match &f.encoding {
            None => None,
            Some(s) => Some(s.clone()),
        },
        subtype: f.subtype,
    }
}

/// The descriptor reference a font dictionary must carry.
pub open spec fn spec_descriptor_ref(d: Seq<(Vec<u8>, PdfObject)>) -> Result<ObjectId, PdfError> {
    match dict_get(d, "FontDescriptor".spec_bytes()) {
        None => Err(PdfError::MissingKey),
        Some(o) => match o {
            PdfObject::Ref(id) => Ok(id),
            _ => Err(PdfError::WrongKind),
        },
    }
}

/// What following a descendant-font entry to a dictionary yields: the entry
/// may be a dictionary, a reference to follow, or a one-element array whose
/// element is a reference to follow.
pub open spec fn spec_follow_to_dict(
    objs: Seq<(ObjectId, PdfObject)>,
    o: PdfObject,
    fuel: nat,
) -> Result<Seq<(Vec<u8>, PdfObject)>, PdfError>
    decreases fuel,
{
    match o {
        PdfObject::Dict(dd) => Ok(dd.entries@),
        PdfObject::Ref(id) => {
            if fuel == 0 {
                Err(PdfError::RefChainTooDeep)
            } else {
                match obj_lookup(objs, id) {
                    None => Err(PdfError::DanglingReference),
                    Some(o2) => spec_follow_to_dict(objs, o2, (fuel - 1) as nat),
                }
            }
        },
        PdfObject::Array(v) => {
            if v@.len() != 1 {
                Err(PdfError::WrongKind)
            } else {
                match v@[0] {
                    PdfObject::Ref(id) => {
                        if fuel == 0 {
                            Err(PdfError::RefChainTooDeep)
                        } else {
                            match obj_lookup(objs, id) {
                                None => Err(PdfError::DanglingReference),
                                Some(o2) => spec_follow_to_dict(objs, o2, (fuel - 1) as nat),
                            }
                        }
                    },
                    _ => Err(PdfError::WrongKind),
                }
            }
        },
        _ => Err(PdfError::WrongKind),
    }
}

/// What reading the optional `/Encoding` entry yields: a name (possibly
/// behind references) is kept, an encoding dictionary is not modelled, and
/// any other kind is an error.
pub open spec fn spec_encoding(
    objs: Seq<(ObjectId, PdfObject)>,
    d: Seq<(Vec<u8>, PdfObject)>,
) -> Result<Option<Seq<char>>, PdfError> {
    match dict_get(d, "Encoding".spec_bytes()) {
        None => Ok(None),
        Some(o) => match crate::object::spec_deref(objs, o, REF_FUEL as nat) {
            Err(e) => Err(e),
            Ok(eo) => match eo {
                PdfObject::Name(n) => if valid_utf8(n@) {
                    Ok(Some(decode_utf8(n@)))
                } else {
                    Err(PdfError::NotUtf8)
                },
                PdfObject::Dict(_) => Ok(None),
                _ => Err(PdfError::WrongKind),
            },
        },
    }
}

/// What resolving a font dictionary yields.
pub open spec fn spec_parse_font(
    objs: Seq<(ObjectId, PdfObject)>,
    d: Seq<(Vec<u8>, PdfObject)>,
) -> Result<FontV, PdfError> {
    match dict_get(d, "BaseFont".spec_bytes()) {
        None => Err(PdfError::MissingKey),
        Some(bf) => {
            if !(bf is Name) {
                Err(PdfError::WrongKind)
            } else if !valid_utf8(bf->Name_0@) {
                Err(PdfError::NotUtf8)
            } else {
                let name = decode_utf8(bf->Name_0@);
                match spec_encoding(objs, d) {
                    Err(e) => Err(e),
                    Ok(enc) => match dict_get(d, "Subtype".spec_bytes()) {
                        None => Err(PdfError::MissingKey),
                        Some(st) => {
                            if !(st is Name) {
                                Err(PdfError::WrongKind)
                            } else if !valid_utf8(st->Name_0@) {
                                Err(PdfError::NotUtf8)
                            } else {
                                match subtype_of_name(decode_utf8(st->Name_0@)) {
                                    None => Err(PdfError::UnknownFontSubtype),
                                    Some(subtype) => spec_parse_font_tail(objs, d, name, enc, subtype),
                                }
                            }
                        },
                    },
                }
            }
        },
    }
}

/// The descriptor half of font resolution, after name, encoding and subtype
/// are known.
pub open spec fn spec_parse_font_tail(
    objs: Seq<(ObjectId, PdfObject)>,
    d: Seq<(Vec<u8>, PdfObject)>,
    name: Seq<char>,
    enc: Option<Seq<char>>,
    subtype: FontSubtype,
) -> Result<FontV, PdfError> {
    let has_desc = dict_get(d, "DescendantFonts".spec_bytes()) is Some;
    if has_desc != (subtype is Type0) {
        Err(PdfError::DescendantFontsMismatch)
    } else if !(subtype is Type0) {
        match spec_descriptor_ref(d) {
            Err(e) => Err(e),
            Ok(id) => Ok(
                FontV {
                    font_descriptor_id: Some(id),
                    base_font_name: Some(name),
                    encoding: enc,
                    subtype: Some(subtype),
                },
            ),
        }
    } else {
        match spec_follow_to_dict(
            objs,
            dict_get(d, "DescendantFonts".spec_bytes())->Some_0,
            REF_FUEL as nat,
        ) {
            Err(e) => Err(e),
            Ok(dd) => match spec_descriptor_ref(dd) {
                Err(e) => Err(e),
                Ok(id) => Ok(
                    FontV {
                        font_descriptor_id: Some(id),
                        base_font_name: Some(name),
                        encoding: enc,
                        subtype: Some(subtype),
                    },
                ),
            },
        }
    }
}

impl Document {
    /// Follows a descendant-font entry to the dictionary it names.
    pub fn follow_to_dict<'a>(&'a self, o: &'a PdfObject, fuel: u32) -> (r: Result<
        &'a PdfDict,
        PdfError,
    >)
        ensures
            match r {
                Ok(dd) => spec_follow_to_dict(self.objects@, *o, fuel as nat) == Ok::<
                    Seq<(Vec<u8>, PdfObject)>,
                    PdfError,
                >(dd.entries@),
                Err(e) => spec_follow_to_dict(self.objects@, *o, fuel as nat) == Err::<
                    Seq<(Vec<u8>, PdfObject)>,
                    PdfError,
                >(e),
            },
        decreases fuel,
    {
        match o {
            PdfObject::Dict(dd) => Ok(dd),
            PdfObject::Ref(id) => {
                if fuel == 0 {
                    Err(PdfError::RefChainTooDeep)
                } else {
                    match self.get_object(*id) {
                        None => Err(PdfError::DanglingReference),
                        Some(o2) => self.follow_to_dict(o2, fuel - 1),
                    }
                }
            },
            PdfObject::Array(v) => {
                if v.len() != 1 {
                    Err(PdfError::WrongKind)
                } else {
                    match &v[0] {
                        PdfObject::Ref(id) => {
                            if fuel == 0 {
                                Err(PdfError::RefChainTooDeep)
                            } else {
                                match self.get_object(*id) {
                                    None => Err(PdfError::DanglingReference),
                                    Some(o2) => self.follow_to_dict(o2, fuel - 1),
                                }
                            }
                        },
                        _ => Err(PdfError::WrongKind),
                    }
                }
            },
            _ => Err(PdfError::WrongKind),
        }
    }
}

/// The descriptor reference a font dictionary must carry.
fn descriptor_ref(d: &PdfDict) -> (r: Result<ObjectId, PdfError>)
    ensures
        r == spec_descriptor_ref(d.entries@),
{
    match d.get("FontDescriptor".as_bytes()) {
        None => Err(PdfError::MissingKey),
        Some(o) => match o {
            PdfObject::Ref(id) => Ok(*id),
            _ => Err(PdfError::WrongKind),
        },
    }
}

/// Resolves a font dictionary to its identity.
///
/// The base name and subtype come from the dictionary itself; the descriptor
/// id comes from the dictionary for a simple font, and from the descendant
/// font — reached through `/DescendantFonts`, following references and the
/// one-element array the format prescribes — for a composite one. The
/// presence of `/DescendantFonts` must match the subtype exactly, and every
/// missing or ill-kinded entry is a hard error for this font.
pub fn parse_font(referenced_font: &PdfDict, document: &Document) -> (r: Result<Font, PdfError>)
    ensures
        match r {
            Ok(f) => spec_parse_font(document.objects@, referenced_font.entries@) == Ok::<
                FontV,
                PdfError,
            >(font_v(f)),
            Err(e) => spec_parse_font(document.objects@, referenced_font.entries@) == Err::<
                FontV,
                PdfError,
            >(e),
        },
{
    let name_bytes = match referenced_font.get("BaseFont".as_bytes()) {
        None => {
            return Err(PdfError::MissingKey);
        },
        Some(o) => match o.as_name() {
            Ok(n) => n,
            Err(e) => {
                return Err(e);
            },
        },
    };
    let base = match utf8_bytes_to_string(name_bytes.as_slice()) {
        Ok(t) => t,
        Err(e) => {
            return Err(e);
        },
    };
    let encoding: Option<String> = match referenced_font.get("Encoding".as_bytes()) {
        None => None,
        Some(o) => match document.deref(o, REF_FUEL) {
            Err(e) => {
                return Err(e);
            },
            Ok(eo) => match eo {
                PdfObject::Name(n) => match utf8_bytes_to_string(n.as_slice()) {
                    Ok(t) => Some(t),
                    Err(e) => {
                        return Err(e);
                    },
                },
                PdfObject::Dict(_) => None,
                _ => {
                    return Err(PdfError::WrongKind);
                },
            },
        },
    };
    let subtype_bytes = match referenced_font.get("Subtype".as_bytes()) {
        None => {
            return Err(PdfError::MissingKey);
        },
        Some(o) => match o.as_name() {
            Ok(n) => n,
            Err(e) => {
                return Err(e);
            },
        },
    };
    let subtype_text = match utf8_bytes_to_string(subtype_bytes.as_slice()) {
        Ok(t) => t,
        Err(e) => {
            return Err(e);
        },
    };
    let font_subtype = match FontSubtype::from_str(subtype_text.as_str()) {
        Ok(st) => st,
        Err(e) => {
            return Err(e);
        },
    };
    let is_composite = match font_subtype {
        FontSubtype::Type0 => true,
        _ => false,
    };
    let has_descendants = referenced_font.has("DescendantFonts".as_bytes());
    if has_descendants != is_composite {
        return Err(PdfError::DescendantFontsMismatch);
    }
    if !is_composite {
        let id = match descriptor_ref(referenced_font) {
            Ok(id) => id,
            Err(e) => {
                return Err(e);
            },
        };
        return Ok(
            Font {
                font_descriptor_id: Some(id),
                base_font_name: Some(base),
                encoding,
                subtype: Some(font_subtype),
            },
        );
    }
    let descendants = match referenced_font.get("DescendantFonts".as_bytes()) {
        Some(o) => o,
        None => {
            proof {
                assert(false);
            }
            return Err(PdfError::MissingKey);
        },
    };
    let descendant_dict = match document.follow_to_dict(descendants, REF_FUEL) {
        Ok(dd) => dd,
        Err(e) => {
            return Err(e);
        },
    };
    let id = match descriptor_ref(descendant_dict) {
        Ok(id) => id,
        Err(e) => {
            return Err(e);
        },
    };
    Ok(
        Font {
            font_descriptor_id: Some(id),
            base_font_name: Some(base),
            encoding,
            subtype: Some(font_subtype),
        },
    )
}

/// Font identity is stable across resource names and reference chains: two
/// font dictionaries that agree on their subtype entry and on the entries
/// the identity is drawn from — the descriptor for a simple font, the
/// descendant fonts for a composite one — resolve to the same descriptor id,
/// however they were reached, and therefore share one glyph-text table.
pub proof fn lemma_font_identity_stable(
    objs: Seq<(ObjectId, PdfObject)>,
    d1: Seq<(Vec<u8>, PdfObject)>,
    d2: Seq<(Vec<u8>, PdfObject)>,
)
    requires
        spec_parse_font(objs, d1) is Ok,
        spec_parse_font(objs, d2) is Ok,
        dict_get(d1, "Subtype".spec_bytes()) == dict_get(d2, "Subtype".spec_bytes()),
        dict_get(d1, "FontDescriptor".spec_bytes()) == dict_get(
            d2,
            "FontDescriptor".spec_bytes(),
        ),
        dict_get(d1, "DescendantFonts".spec_bytes()) == dict_get(
            d2,
            "DescendantFonts".spec_bytes(),
        ),
    ensures
        spec_parse_font(objs, d1)->Ok_0.font_descriptor_id == spec_parse_font(
            objs,
            d2,
        )->Ok_0.font_descriptor_id,
{
}

} // verus!
