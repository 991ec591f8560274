//! The content-stream walk: glyph extraction, dumping, and annotation.

use pdf_glyph_mapping::apply_edits;
use pdf_glyph_mapping::build_xobject_scope;
use pdf_glyph_mapping::glyph_ids;
use pdf_glyph_mapping::pdf_encode_unicode_text_string;
use pdf_glyph_mapping::visit_page_content_stream_ops;
use pdf_glyph_mapping::Document;
use pdf_glyph_mapping::FontSubtype;
use pdf_glyph_mapping::GlyphPolicy;
use pdf_glyph_mapping::GlyphTextMap;
use pdf_glyph_mapping::MyOpVisitor;
use pdf_glyph_mapping::ObjectId;
use pdf_glyph_mapping::Op;
use pdf_glyph_mapping::Page;
use pdf_glyph_mapping::PdfDict;
use pdf_glyph_mapping::PdfError;
use pdf_glyph_mapping::PdfObject;
use pdf_glyph_mapping::PdfStream;
use pdf_glyph_mapping::Phase;
use pdf_glyph_mapping::StrFormat;
use pdf_glyph_mapping::TextState;

fn id(num: u32) -> ObjectId {
    ObjectId { num, generation: 0 }
}

fn name(text: &str) -> PdfObject {
    PdfObject::Name(text.as_bytes().to_vec())
}

fn dict(entries: Vec<(&str, PdfObject)>) -> PdfDict {
    PdfDict {
        entries: entries
            .into_iter()
            .map(|(k, v)| (k.as_bytes().to_vec(), v))
            .collect(),
    }
}

fn op(operator: &str, operands: Vec<PdfObject>) -> Op {
    Op { operator: operator.to_string(), operands }
}

fn s(bytes: &[u8]) -> PdfObject {
    PdfObject::Str(bytes.to_vec(), StrFormat::Literal)
}

fn stream(ops: Option<Vec<Op>>) -> PdfObject {
    PdfObject::Stream(PdfStream { dict: PdfDict { entries: Vec::new() }, ops })
}

/// A one-page document: a TrueType font under the page name `F1`, and one
/// content stream.
fn one_page_document(ops: Vec<Op>) -> Document {
    let font_dict = dict(vec![
        ("BaseFont", name("Foo")),
        ("Subtype", name("TrueType")),
        ("FontDescriptor", PdfObject::Ref(id(5))),
    ]);
    Document {
        objects: vec![
            (id(1), PdfObject::Dict(font_dict)),
            (id(2), stream(Some(ops))),
        ],
        pages: vec![Page {
            number: 1,
            id: id(3),
            resources_direct: Some(dict(vec![(
                "Font",
                PdfObject::Dict(dict(vec![("F1", PdfObject::Ref(id(1)))])),
            )])),
            resources_inherited: Vec::new(),
            contents: vec![id(2)],
        }],
    }
}

fn visitor(phase: Phase, maps: Vec<(ObjectId, GlyphTextMap)>) -> MyOpVisitor {
    MyOpVisitor {
        text_state: TextState::new(),
        font_glyph_mappings: maps,
        phase,
        glyph_policy: GlyphPolicy::Placeholder,
    }
}

fn tf() -> Op {
    op("Tf", vec![name("F1"), PdfObject::Integer(12)])
}

fn replacement_map(pairs: Vec<(u16, &str)>) -> GlyphTextMap {
    GlyphTextMap {
        entries: pairs.into_iter().map(|(g, t)| (g, t.to_string())).collect(),
    }
}

#[test]
fn one_byte_codes_under_a_simple_font() {
    let show = op("Tj", vec![s(b"AB")]);
    let codes = glyph_ids(&show, &FontSubtype::TrueType).unwrap();
    assert_eq!(codes, vec![0x41, 0x42]);
}

#[test]
fn two_byte_codes_under_a_composite_font() {
    let show = op("Tj", vec![s(b"AB")]);
    let codes = glyph_ids(&show, &FontSubtype::Type0).unwrap();
    assert_eq!(codes, vec![0x4142]);
}

#[test]
fn tj_arrays_concatenate_strings_and_skip_numbers() {
    let show = op(
        "TJ",
        vec![PdfObject::Array(vec![
            s(b"AB"),
            PdfObject::Integer(-120),
            PdfObject::Real(2_500_000),
            s(b"C"),
        ])],
    );
    let codes = glyph_ids(&show, &FontSubtype::TrueType).unwrap();
    assert_eq!(codes, vec![0x41, 0x42, 0x43]);
}

#[test]
fn the_quote_operators_carry_codes_too() {
    let next_line = op("'", vec![s(b"Z")]);
    assert_eq!(glyph_ids(&next_line, &FontSubtype::TrueType).unwrap(), vec![0x5A]);
    let spaced = op(
        "\"",
        vec![PdfObject::Integer(1), PdfObject::Integer(2), s(b"Z")],
    );
    assert_eq!(glyph_ids(&spaced, &FontSubtype::TrueType).unwrap(), vec![0x5A]);
}

#[test]
fn an_odd_byte_count_under_two_byte_codes_is_uneven() {
    let show = op("Tj", vec![s(b"ABC")]);
    assert_eq!(glyph_ids(&show, &FontSubtype::Type0), Err(PdfError::UnevenCode));
}

#[test]
fn a_tj_element_of_the_wrong_kind_is_an_error() {
    let show = op("TJ", vec![PdfObject::Array(vec![name("Nope")])]);
    assert_eq!(
        glyph_ids(&show, &FontSubtype::TrueType),
        Err(PdfError::WrongKind)
    );
}

#[test]
fn dump_mode_collects_hex_lines_per_font() {
    let doc = one_page_document(vec![tf(), op("Tj", vec![s(b"AB")])]);
    let mut v = visitor(Phase::Phase1Dump, Vec::new());
    let out = visit_page_content_stream_ops(&doc, &mut v, None, 8);
    assert_eq!(out.reports, Vec::new());
    assert_eq!(out.edits.len(), 0);
    assert_eq!(out.dump.len(), 1);
    let (font_id, font_name, lines) = &out.dump[0];
    assert_eq!(*font_id, id(5));
    assert_eq!(font_name, "Foo");
    assert_eq!(lines, &vec!["0041 0042 \n".to_string()]);
}

#[test]
fn dump_mode_twice_gives_identical_lines() {
    let doc = one_page_document(vec![tf(), op("Tj", vec![s(b"AB")]), op("Tj", vec![s(b"A")])]);
    let mut v1 = visitor(Phase::Phase1Dump, Vec::new());
    let out1 = visit_page_content_stream_ops(&doc, &mut v1, None, 8);
    assert_eq!(out1.edits.len(), 0);
    let mut v2 = visitor(Phase::Phase1Dump, Vec::new());
    let out2 = visit_page_content_stream_ops(&doc, &mut v2, None, 8);
    assert_eq!(out1.dump, out2.dump);
}

#[test]
fn fix_mode_wraps_the_text_operator_in_a_marked_content_pair() {
    let doc = one_page_document(vec![tf(), op("Tj", vec![s(b"AB")])]);
    let maps = vec![(id(5), replacement_map(vec![(0x41, "a"), (0x42, "b")]))];
    let mut v = visitor(Phase::Phase2Fix, maps);
    let out = visit_page_content_stream_ops(&doc, &mut v, None, 8);
    assert_eq!(out.reports, Vec::new());
    assert_eq!(out.edits.len(), 1);
    let (stream_id, new_ops) = &out.edits[0];
    assert_eq!(*stream_id, id(2));
    let operators: Vec<&str> = new_ops.iter().map(|o| o.operator.as_str()).collect();
    assert_eq!(operators, vec!["Tf", "BDC", "Tj", "EMC"]);
    assert_eq!(new_ops[1].operands[0], name("Span"));
    let expected = pdf_encode_unicode_text_string("[Foo]ab[/Foo]");
    match &new_ops[1].operands[1] {
        PdfObject::Dict(d) => {
            assert_eq!(d.entries.len(), 1);
            assert_eq!(d.entries[0].0, b"ActualText".to_vec());
            assert_eq!(
                d.entries[0].1,
                PdfObject::Str(expected, StrFormat::Hexadecimal)
            );
        }
        other => panic!("ActualText dictionary missing: {:?}", other),
    }
    assert_eq!(new_ops[3].operands.len(), 0);
}

#[test]
fn a_slanted_text_matrix_adds_slant_tags() {
    let tm = op(
        "Tm",
        vec![
            PdfObject::Integer(1),
            PdfObject::Integer(0),
            PdfObject::Real(250_000),
            PdfObject::Integer(1),
            PdfObject::Integer(0),
            PdfObject::Integer(0),
        ],
    );
    let doc = one_page_document(vec![tf(), tm, op("Tj", vec![s(b"A")])]);
    let maps = vec![(id(5), replacement_map(vec![(0x41, "a")]))];
    let mut v = visitor(Phase::Phase2Fix, maps);
    let out = visit_page_content_stream_ops(&doc, &mut v, None, 8);
    let expected = pdf_encode_unicode_text_string("[sl][Foo]a[/Foo][/sl]");
    let (_, new_ops) = &out.edits[0];
    match &new_ops[2].operands[1] {
        PdfObject::Dict(d) => assert_eq!(
            d.entries[0].1,
            PdfObject::Str(expected, StrFormat::Hexadecimal)
        ),
        other => panic!("ActualText dictionary missing: {:?}", other),
    }
}

#[test]
fn an_unmapped_glyph_becomes_a_placeholder_and_is_recorded() {
    let doc = one_page_document(vec![tf(), op("Tj", vec![s(b"A")])]);
    let mut v = visitor(Phase::Phase2Fix, Vec::new());
    let out = visit_page_content_stream_ops(&doc, &mut v, None, 8);
    assert_eq!(out.reports, Vec::new());
    let expected = pdf_encode_unicode_text_string("[Foo][glyph0041][/Foo]");
    let (_, new_ops) = &out.edits[0];
    match &new_ops[1].operands[1] {
        PdfObject::Dict(d) => assert_eq!(
            d.entries[0].1,
            PdfObject::Str(expected, StrFormat::Hexadecimal)
        ),
        other => panic!("ActualText dictionary missing: {:?}", other),
    }
    assert_eq!(v.font_glyph_mappings.len(), 1);
    assert_eq!(v.font_glyph_mappings[0].0, id(5));
    assert_eq!(
        v.font_glyph_mappings[0].1.entries,
        vec![(0x41u16, "[glyph0041]".to_string())]
    );
}

#[test]
fn the_failing_policy_reports_an_unresolved_glyph() {
    let doc = one_page_document(vec![tf(), op("Tj", vec![s(b"A")])]);
    let mut v = visitor(Phase::Phase2Fix, Vec::new());
    v.glyph_policy = GlyphPolicy::Fail;
    let out = visit_page_content_stream_ops(&doc, &mut v, None, 8);
    assert_eq!(out.reports, vec![(1, PdfError::UnresolvedGlyph)]);
    assert_eq!(out.edits.len(), 0);
}

#[test]
fn text_before_any_font_is_reported() {
    let doc = one_page_document(vec![op("Tj", vec![s(b"A")])]);
    let mut v = visitor(Phase::Phase1Dump, Vec::new());
    let out = visit_page_content_stream_ops(&doc, &mut v, None, 8);
    assert_eq!(out.reports, vec![(1, PdfError::NoCurrentFont)]);
}

#[test]
fn an_unknown_font_name_is_reported_not_fatal() {
    let doc = one_page_document(vec![op("Tf", vec![name("F9"), PdfObject::Integer(12)])]);
    let mut v = visitor(Phase::Phase1Dump, Vec::new());
    let out = visit_page_content_stream_ops(&doc, &mut v, None, 8);
    assert_eq!(out.reports, vec![(1, PdfError::ResourceNotFound)]);
}

#[test]
fn an_undecodable_content_stream_is_reported() {
    let mut doc = one_page_document(Vec::new());
    doc.objects[1].1 = stream(None);
    let mut v = visitor(Phase::Phase1Dump, Vec::new());
    let out = visit_page_content_stream_ops(&doc, &mut v, None, 8);
    assert_eq!(out.reports, vec![(1, PdfError::UndecodableStream)]);
}

#[test]
fn operators_are_counted_across_the_run() {
    let doc = one_page_document(vec![tf(), op("Tj", vec![s(b"A")]), op("Tj", vec![s(b"B")])]);
    let maps = vec![(id(5), replacement_map(vec![(0x41, "a"), (0x42, "b")]))];
    let mut v = visitor(Phase::Phase1Dump, maps);
    let out = visit_page_content_stream_ops(&doc, &mut v, None, 8);
    assert_eq!(
        out.seen_ops,
        vec![("Tf".to_string(), 1u64), ("Tj".to_string(), 2u64)]
    );
}

#[test]
fn the_chosen_page_restriction_skips_other_pages() {
    let doc = one_page_document(vec![tf(), op("Tj", vec![s(b"A")])]);
    let mut v = visitor(Phase::Phase1Dump, Vec::new());
    let out = visit_page_content_stream_ops(&doc, &mut v, Some(7), 8);
    assert_eq!(out.dump.len(), 0);
    assert_eq!(out.reports, Vec::new());
}

#[test]
fn applying_the_edits_rewrites_the_stream() {
    let doc = one_page_document(vec![tf(), op("Tj", vec![s(b"A")])]);
    let maps = vec![(id(5), replacement_map(vec![(0x41, "a")]))];
    let mut v = visitor(Phase::Phase2Fix, maps);
    let out = visit_page_content_stream_ops(&doc, &mut v, None, 8);
    let mut doc = doc;
    let failures = apply_edits(&mut doc, out.edits);
    assert_eq!(failures, Vec::new());
    match &doc.objects[1].1 {
        PdfObject::Stream(st) => {
            let ops = st.ops.as_ref().unwrap();
            let operators: Vec<&str> = ops.iter().map(|o| o.operator.as_str()).collect();
            assert_eq!(operators, vec!["Tf", "BDC", "Tj", "EMC"]);
        }
        other => panic!("stream expected: {:?}", other),
    }
}

#[test]
fn phase_words_select_the_phase() {
    assert_eq!(Phase::from_str("phase2"), Phase::Phase2Fix);
    assert_eq!(Phase::from_str("phase1"), Phase::Phase1Dump);
    assert_eq!(Phase::from_str("anything"), Phase::Phase1Dump);
}

#[test]
fn a_missing_form_name_skips_only_that_operator() {
    let doc = one_page_document(vec![
        op("Do", vec![name("Nowhere")]),
        tf(),
        op("Tj", vec![s(b"A")]),
    ]);
    let maps = vec![(id(5), replacement_map(vec![(0x41, "a")]))];
    let mut v = visitor(Phase::Phase2Fix, maps);
    let out = visit_page_content_stream_ops(&doc, &mut v, None, 8);
    assert_eq!(out.reports, vec![(1, PdfError::ResourceNotFound)]);
    assert_eq!(out.edits.len(), 1);
    let operators: Vec<&str> = out.edits[0]
        .1
        .iter()
        .map(|o| o.operator.as_str())
        .collect();
    assert_eq!(operators, vec!["Do", "Tf", "BDC", "Tj", "EMC"]);
}

#[test]
fn a_missing_font_name_skips_only_that_operator() {
    let doc = one_page_document(vec![
        op("Tf", vec![name("F9"), PdfObject::Integer(12)]),
        tf(),
        op("Tj", vec![s(b"A")]),
    ]);
    let mut v = visitor(Phase::Phase1Dump, Vec::new());
    let out = visit_page_content_stream_ops(&doc, &mut v, None, 8);
    assert_eq!(out.reports, vec![(1, PdfError::ResourceNotFound)]);
    assert_eq!(out.dump.len(), 1);
    assert_eq!(out.dump[0].0, id(5));
    assert_eq!(out.dump[0].2, vec!["0041 \n".to_string()]);
}

#[test]
fn an_edit_naming_no_stream_is_a_failure_and_changes_nothing() {
    let mut doc = one_page_document(vec![tf()]);
    let before = format!("{:?}", doc);
    let failures = apply_edits(
        &mut doc,
        vec![
            (id(1), vec![op("Tj", vec![s(b"A")])]),
            (id(404), Vec::new()),
        ],
    );
    assert_eq!(
        failures,
        vec![
            (id(1), PdfError::WrongKind),
            (id(404), PdfError::DanglingReference),
        ]
    );
    assert_eq!(format!("{:?}", doc), before);
}
