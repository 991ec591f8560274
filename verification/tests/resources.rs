//! Resource scopes: inheritance, form invocation, and their edge cases.

use pdf_glyph_mapping::build_xobject_scope;
use pdf_glyph_mapping::get_page_fonts;
use pdf_glyph_mapping::simple_extend;
use pdf_glyph_mapping::visit_page_content_stream_ops;
use pdf_glyph_mapping::Document;
use pdf_glyph_mapping::GlyphPolicy;
use pdf_glyph_mapping::MyOpVisitor;
use pdf_glyph_mapping::ObjectId;
use pdf_glyph_mapping::Op;
use pdf_glyph_mapping::Page;
use pdf_glyph_mapping::PdfDict;
use pdf_glyph_mapping::PdfError;
use pdf_glyph_mapping::PdfObject;
use pdf_glyph_mapping::PdfStream;
use pdf_glyph_mapping::Phase;
use pdf_glyph_mapping::StrFormat;
use pdf_glyph_mapping::TextState;

fn id(num: u32) -> ObjectId {
    ObjectId { num, generation: 0 }
}

fn name(text: &str) -> PdfObject {
    PdfObject::Name(text.as_bytes().to_vec())
}

fn dict(entries: Vec<(&str, PdfObject)>) -> PdfDict {
    PdfDict {
        entries: entries
            .into_iter()
            .map(|(k, v)| (k.as_bytes().to_vec(), v))
            .collect(),
    }
}

fn op(operator: &str, operands: Vec<PdfObject>) -> Op {
    Op { operator: operator.to_string(), operands }
}

fn s(bytes: &[u8]) -> PdfObject {
    PdfObject::Str(bytes.to_vec(), StrFormat::Literal)
}

fn page(
    direct: Option<PdfDict>,
    inherited: Vec<ObjectId>,
    contents: Vec<ObjectId>,
) -> Page {
    Page { number: 1, id: id(100), resources_direct: direct, resources_inherited: inherited, contents }
}

fn visitor() -> MyOpVisitor {
    MyOpVisitor {
        text_state: TextState::new(),
        font_glyph_mappings: Vec::new(),
        phase: Phase::Phase1Dump,
        glyph_policy: GlyphPolicy::Placeholder,
    }
}

fn font_object() -> (ObjectId, PdfObject) {
    (
        id(1),
        PdfObject::Dict(dict(vec![
            ("BaseFont", name("Foo")),
            ("Subtype", name("TrueType")),
            ("FontDescriptor", PdfObject::Ref(id(5))),
        ])),
    )
}

#[test]
fn a_page_with_only_one_inherited_resource_object_is_fine() {
    let resources = dict(vec![(
        "Font",
        PdfObject::Dict(dict(vec![("F1", PdfObject::Ref(id(1)))])),
    )]);
    let doc = Document {
        objects: vec![font_object(), (id(7), PdfObject::Dict(resources))],
        pages: vec![page(None, vec![id(7)], Vec::new())],
    };
    let fonts = get_page_fonts(&doc, &doc.pages[0]).unwrap();
    assert!(fonts.get(b"F1").is_some());
    assert!(build_xobject_scope(&doc, &doc.pages[0]).is_ok());
}

#[test]
fn a_page_with_no_resources_at_all_is_an_invalid_shape() {
    let doc = Document {
        objects: Vec::new(),
        pages: vec![page(None, Vec::new(), Vec::new())],
    };
    assert_eq!(
        build_xobject_scope(&doc, &doc.pages[0]),
        Err(PdfError::BadResourceShape)
    );
}

#[test]
fn a_page_with_two_inherited_objects_and_no_dictionary_is_invalid_too() {
    let doc = Document {
        objects: Vec::new(),
        pages: vec![page(None, vec![id(7), id(8)], Vec::new())],
    };
    assert_eq!(
        build_xobject_scope(&doc, &doc.pages[0]),
        Err(PdfError::BadResourceShape)
    );
}

#[test]
fn the_invalid_shape_is_reported_through_the_walk() {
    let doc = Document {
        objects: Vec::new(),
        pages: vec![page(None, Vec::new(), Vec::new())],
    };
    let mut v = visitor();
    let out = visit_page_content_stream_ops(&doc, &mut v, None, 8);
    assert_eq!(out.reports, vec![(1, PdfError::BadResourceShape)]);
}

#[test]
fn the_first_scope_to_declare_a_name_wins() {
    let direct = dict(vec![(
        "Font",
        PdfObject::Dict(dict(vec![("F1", PdfObject::Ref(id(1)))])),
    )]);
    let shadowed = dict(vec![(
        "Font",
        PdfObject::Dict(dict(vec![("F1", PdfObject::Ref(id(2)))])),
    )]);
    let other_font = (
        id(2),
        PdfObject::Dict(dict(vec![
            ("BaseFont", name("Bar")),
            ("Subtype", name("Type1")),
            ("FontDescriptor", PdfObject::Ref(id(6))),
        ])),
    );
    let doc = Document {
        objects: vec![font_object(), other_font, (id(7), PdfObject::Dict(shadowed))],
        pages: vec![page(Some(direct), vec![id(7)], Vec::new())],
    };
    let fonts = get_page_fonts(&doc, &doc.pages[0]).unwrap();
    let f = fonts.get(b"F1").unwrap();
    assert_eq!(f.base_font_name.as_deref(), Some("Foo"));
}

#[test]
fn simple_extend_overrides_and_appends() {
    let mut a = dict(vec![("K1", PdfObject::Integer(1)), ("K2", PdfObject::Integer(2))]);
    let b = dict(vec![("K2", PdfObject::Integer(20)), ("K3", PdfObject::Integer(30))]);
    simple_extend(&mut a, &b);
    assert_eq!(a.get(b"K1"), Some(&PdfObject::Integer(1)));
    assert_eq!(a.get(b"K2"), Some(&PdfObject::Integer(20)));
    assert_eq!(a.get(b"K3"), Some(&PdfObject::Integer(30)));
}

/// A form object drawn by `Do`, with its own font, and the glyph codes it
/// shows collected under that font.
#[test]
fn a_form_invocation_uses_the_forms_own_resources() {
    let form_font = (
        id(11),
        PdfObject::Dict(dict(vec![
            ("BaseFont", name("FormFont")),
            ("Subtype", name("TrueType")),
            ("FontDescriptor", PdfObject::Ref(id(15))),
        ])),
    );
    let form_resources = dict(vec![(
        "Font",
        PdfObject::Dict(dict(vec![("F1", PdfObject::Ref(id(11)))])),
    )]);
    let form_ops = vec![
        op("Tf", vec![name("F1"), PdfObject::Integer(10)]),
        op("Tj", vec![s(b"Z")]),
    ];
    let form = PdfObject::Stream(PdfStream {
        dict: dict(vec![("Resources", PdfObject::Dict(form_resources))]),
        ops: Some(form_ops),
    });
    let page_ops = vec![op("Do", vec![name("X1")])];
    let page_stream = PdfObject::Stream(PdfStream {
        dict: PdfDict { entries: Vec::new() },
        ops: Some(page_ops),
    });
    let direct = dict(vec![(
        "XObject",
        PdfObject::Dict(dict(vec![("X1", PdfObject::Ref(id(12)))])),
    )]);
    let doc = Document {
        objects: vec![form_font, (id(12), form), (id(2), page_stream)],
        pages: vec![page(Some(direct), Vec::new(), vec![id(2)])],
    };
    let mut v = visitor();
    let out = visit_page_content_stream_ops(&doc, &mut v, None, 8);
    assert_eq!(out.reports, Vec::new());
    assert_eq!(out.dump.len(), 1);
    assert_eq!(out.dump[0].0, id(15));
    assert_eq!(out.dump[0].1, "FormFont");
    assert_eq!(out.dump[0].2, vec!["005A \n".to_string()]);
}

#[test]
fn a_cycle_of_form_invocations_exceeds_the_depth() {
    let form = PdfObject::Stream(PdfStream {
        dict: PdfDict { entries: Vec::new() },
        ops: Some(vec![op("Do", vec![name("X1")])]),
    });
    let page_stream = PdfObject::Stream(PdfStream {
        dict: PdfDict { entries: Vec::new() },
        ops: Some(vec![op("Do", vec![name("X1")])]),
    });
    let direct = dict(vec![(
        "XObject",
        PdfObject::Dict(dict(vec![("X1", PdfObject::Ref(id(12)))])),
    )]);
    let doc = Document {
        objects: vec![(id(12), form), (id(2), page_stream)],
        pages: vec![page(Some(direct), Vec::new(), vec![id(2)])],
    };
    let mut v = visitor();
    let out = visit_page_content_stream_ops(&doc, &mut v, None, 4);
    assert_eq!(out.reports, vec![(1, PdfError::DepthExceeded)]);
}

#[test]
fn a_form_name_missing_from_the_scope_is_reported() {
    let page_stream = PdfObject::Stream(PdfStream {
        dict: PdfDict { entries: Vec::new() },
        ops: Some(vec![op("Do", vec![name("Nowhere")])]),
    });
    let direct = dict(vec![("XObject", PdfObject::Dict(PdfDict { entries: Vec::new() }))]);
    let doc = Document {
        objects: vec![(id(2), page_stream)],
        pages: vec![page(Some(direct), Vec::new(), vec![id(2)])],
    };
    let mut v = visitor();
    let out = visit_page_content_stream_ops(&doc, &mut v, None, 8);
    assert_eq!(out.reports, vec![(1, PdfError::ResourceNotFound)]);
}

#[test]
fn a_dangling_content_stream_is_reported_and_the_walk_goes_on() {
    let doc = Document {
        objects: Vec::new(),
        pages: vec![page(
            Some(PdfDict { entries: Vec::new() }),
            Vec::new(),
            vec![id(404)],
        )],
    };
    let mut v = visitor();
    let out = visit_page_content_stream_ops(&doc, &mut v, None, 8);
    assert_eq!(out.reports, vec![(1, PdfError::DanglingReference)]);
}
