//! Font resolution: the dictionary chain to a stable identity.

use pdf_glyph_mapping::parse_font;
use pdf_glyph_mapping::Document;
use pdf_glyph_mapping::FontSubtype;
use pdf_glyph_mapping::ObjectId;
use pdf_glyph_mapping::PdfDict;
use pdf_glyph_mapping::PdfError;
use pdf_glyph_mapping::PdfObject;

fn id(num: u32) -> ObjectId {
    ObjectId { num, generation: 0 }
}

fn name(text: &str) -> PdfObject {
    PdfObject::Name(text.as_bytes().to_vec())
}

fn dict(entries: Vec<(&str, PdfObject)>) -> PdfDict {
    PdfDict {
        entries: entries
            .into_iter()
            .map(|(k, v)| (k.as_bytes().to_vec(), v))
            .collect(),
    }
}

fn empty_document() -> Document {
    Document { objects: Vec::new(), pages: Vec::new() }
}

fn simple_font_dict() -> PdfDict {
    dict(vec![
        ("BaseFont", name("NotoSans")),
        ("Subtype", name("TrueType")),
        ("FontDescriptor", PdfObject::Ref(id(40531))),
    ])
}

#[test]
fn a_simple_font_takes_its_own_descriptor() {
    let doc = empty_document();
    let font = parse_font(&simple_font_dict(), &doc).unwrap();
    assert_eq!(font.font_descriptor_id, Some(id(40531)));
    assert_eq!(font.base_font_name.as_deref(), Some("NotoSans"));
    assert_eq!(font.subtype, Some(FontSubtype::TrueType));
    assert_eq!(font.encoding, None);
}

#[test]
fn a_composite_font_takes_the_descendant_descriptor() {
    let descendant = dict(vec![
        ("BaseFont", name("NotoSansDevanagari-Bold")),
        ("FontDescriptor", PdfObject::Ref(id(40531))),
    ]);
    let doc = Document {
        objects: vec![(id(40495), PdfObject::Dict(descendant))],
        pages: Vec::new(),
    };
    let outer = dict(vec![
        ("BaseFont", name("APZKLW+NotoSansDevanagari-Bold")),
        ("DescendantFonts", PdfObject::Array(vec![PdfObject::Ref(id(40495))])),
        ("Encoding", name("Identity-H")),
        ("Subtype", name("Type0")),
    ]);
    let font = parse_font(&outer, &doc).unwrap();
    assert_eq!(font.font_descriptor_id, Some(id(40531)));
    assert_eq!(
        font.base_font_name.as_deref(),
        Some("APZKLW+NotoSansDevanagari-Bold")
    );
    assert_eq!(font.encoding.as_deref(), Some("Identity-H"));
    assert_eq!(font.subtype, Some(FontSubtype::Type0));
}

#[test]
fn descendant_fonts_behind_a_reference_are_followed() {
    let descendant = dict(vec![
        ("BaseFont", name("X")),
        ("FontDescriptor", PdfObject::Ref(id(9))),
    ]);
    let doc = Document {
        objects: vec![
            (id(2), PdfObject::Array(vec![PdfObject::Ref(id(3))])),
            (id(3), PdfObject::Dict(descendant)),
        ],
        pages: Vec::new(),
    };
    let outer = dict(vec![
        ("BaseFont", name("X")),
        ("DescendantFonts", PdfObject::Ref(id(2))),
        ("Subtype", name("Type0")),
    ]);
    let font = parse_font(&outer, &doc).unwrap();
    assert_eq!(font.font_descriptor_id, Some(id(9)));
}

#[test]
fn two_chains_to_one_descriptor_share_one_identity() {
    let descendant = dict(vec![
        ("BaseFont", name("X")),
        ("FontDescriptor", PdfObject::Ref(id(9))),
    ]);
    let doc = Document {
        objects: vec![(id(3), PdfObject::Dict(descendant))],
        pages: Vec::new(),
    };
    let via_array = dict(vec![
        ("BaseFont", name("X")),
        ("DescendantFonts", PdfObject::Array(vec![PdfObject::Ref(id(3))])),
        ("Subtype", name("Type0")),
    ]);
    let simple_sibling = dict(vec![
        ("BaseFont", name("Y")),
        ("Subtype", name("Type1")),
        ("FontDescriptor", PdfObject::Ref(id(9))),
    ]);
    let a = parse_font(&via_array, &doc).unwrap();
    let b = parse_font(&simple_sibling, &doc).unwrap();
    assert_eq!(a.font_descriptor_id, b.font_descriptor_id);
}

#[test]
fn missing_base_font_is_a_missing_key() {
    let doc = empty_document();
    let d = dict(vec![("Subtype", name("Type1"))]);
    assert_eq!(parse_font(&d, &doc), Err(PdfError::MissingKey));
}

#[test]
fn an_unknown_subtype_is_a_hard_error() {
    let doc = empty_document();
    let d = dict(vec![
        ("BaseFont", name("F")),
        ("Subtype", name("OpenTypeish")),
        ("FontDescriptor", PdfObject::Ref(id(1))),
    ]);
    assert_eq!(parse_font(&d, &doc), Err(PdfError::UnknownFontSubtype));
}

#[test]
fn descendants_must_match_the_subtype() {
    let doc = empty_document();
    let simple_with_descendants = dict(vec![
        ("BaseFont", name("F")),
        ("Subtype", name("Type1")),
        ("DescendantFonts", PdfObject::Array(vec![])),
        ("FontDescriptor", PdfObject::Ref(id(1))),
    ]);
    assert_eq!(
        parse_font(&simple_with_descendants, &doc),
        Err(PdfError::DescendantFontsMismatch)
    );
    let composite_without = dict(vec![
        ("BaseFont", name("F")),
        ("Subtype", name("Type0")),
    ]);
    assert_eq!(
        parse_font(&composite_without, &doc),
        Err(PdfError::DescendantFontsMismatch)
    );
}

#[test]
fn a_non_reference_descriptor_is_the_wrong_kind() {
    let doc = empty_document();
    let d = dict(vec![
        ("BaseFont", name("F")),
        ("Subtype", name("Type1")),
        ("FontDescriptor", PdfObject::Integer(3)),
    ]);
    assert_eq!(parse_font(&d, &doc), Err(PdfError::WrongKind));
}

#[test]
fn a_base_font_name_is_read_as_utf8() {
    let doc = empty_document();
    let d = dict(vec![
        ("BaseFont", PdfObject::Name(vec![0xC3, 0xA9])),
        ("Subtype", name("Type1")),
        ("FontDescriptor", PdfObject::Ref(id(1))),
    ]);
    let f = parse_font(&d, &doc).unwrap();
    assert_eq!(f.base_font_name.as_deref(), Some("\u{e9}"));
}

#[test]
fn a_base_font_name_that_is_not_utf8_is_refused() {
    let doc = empty_document();
    let d = dict(vec![
        ("BaseFont", PdfObject::Name(vec![0xFF, 0xFE])),
        ("Subtype", name("Type1")),
        ("FontDescriptor", PdfObject::Ref(id(1))),
    ]);
    assert_eq!(parse_font(&d, &doc), Err(PdfError::NotUtf8));
}

#[test]
fn a_reference_cycle_in_descendants_is_reported() {
    let doc = Document {
        objects: vec![(id(2), PdfObject::Ref(id(2)))],
        pages: Vec::new(),
    };
    let d = dict(vec![
        ("BaseFont", name("F")),
        ("DescendantFonts", PdfObject::Ref(id(2))),
        ("Subtype", name("Type0")),
    ]);
    assert_eq!(parse_font(&d, &doc), Err(PdfError::RefChainTooDeep));
}

#[test]
fn a_dangling_descendant_reference_is_reported() {
    let doc = empty_document();
    let d = dict(vec![
        ("BaseFont", name("F")),
        ("DescendantFonts", PdfObject::Ref(id(777))),
        ("Subtype", name("Type0")),
    ]);
    assert_eq!(parse_font(&d, &doc), Err(PdfError::DanglingReference));
}

#[test]
fn subtype_names_round_trip() {
    assert_eq!(FontSubtype::from_str("Type0"), Ok(FontSubtype::Type0));
    assert_eq!(FontSubtype::from_str("Type1"), Ok(FontSubtype::Type1));
    assert_eq!(FontSubtype::from_str("MMType1"), Ok(FontSubtype::MMType1));
    assert_eq!(FontSubtype::from_str("Type3"), Ok(FontSubtype::Type3));
    assert_eq!(FontSubtype::from_str("TrueType"), Ok(FontSubtype::TrueType));
    assert_eq!(
        FontSubtype::from_str("CIDFontType2"),
        Err(PdfError::UnknownFontSubtype)
    );
}

#[test]
fn code_width_follows_the_subtype() {
    assert_eq!(FontSubtype::Type0.code_width(), 2);
    assert_eq!(FontSubtype::Type1.code_width(), 1);
    assert_eq!(FontSubtype::TrueType.code_width(), 1);
}

#[test]
fn errors_describe_themselves() {
    let e = PdfError::MissingKey;
    let shown = e.describe();
    assert!(!shown.is_empty());
    let pdf_glyph_mapping::PdfExpectationError::NoWay { msg } = e.to_expectation();
    assert_eq!(msg, shown);
}
