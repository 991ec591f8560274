//! ToUnicode CMap parsing: bfchar pairs and bfrange expansion.

use pdf_glyph_mapping::collect_unicode_mappings;
use pdf_glyph_mapping::Document;
use pdf_glyph_mapping::ObjectId;
use pdf_glyph_mapping::Op;
use pdf_glyph_mapping::PdfDict;
use pdf_glyph_mapping::PdfError;
use pdf_glyph_mapping::PdfObject;
use pdf_glyph_mapping::PdfStream;
use pdf_glyph_mapping::StrFormat;
use pdf_glyph_mapping::ToUnicodeCMap;

fn op(name: &str, operands: Vec<PdfObject>) -> Op {
    Op { operator: name.to_string(), operands }
}

fn s(bytes: &[u8]) -> PdfObject {
    PdfObject::Str(bytes.to_vec(), StrFormat::Hexadecimal)
}

fn stream_of(ops: Vec<Op>) -> PdfObject {
    PdfObject::Stream(PdfStream { dict: PdfDict { entries: Vec::new() }, ops: Some(ops) })
}

fn lookup<'a>(cmap: &'a ToUnicodeCMap, code: &[u8]) -> Option<&'a Vec<String>> {
    for (k, v) in &cmap.mapped {
        if k.0 == code {
            return Some(v);
        }
    }
    None
}

#[test]
fn bfchar_records_a_space() {
    let ops = vec![op("endbfchar", vec![s(&[0x00, 0x03]), s(&[0x00, 0x20])])];
    let cmap = ToUnicodeCMap::parse(&stream_of(ops)).unwrap();
    assert_eq!(cmap.mapped.len(), 1);
    let texts = lookup(&cmap, &[0x00, 0x03]).unwrap();
    assert_eq!(texts, &vec![" ".to_string()]);
}

#[test]
fn bfchar_accumulates_distinct_candidates_without_repeats() {
    let ops = vec![
        op("endbfchar", vec![s(&[0x00, 0x03]), s(&[0x00, 0x41])]),
        op("endbfchar", vec![s(&[0x00, 0x03]), s(&[0x00, 0x41])]),
        op("endbfchar", vec![s(&[0x00, 0x03]), s(&[0x00, 0x42])]),
    ];
    let cmap = ToUnicodeCMap::parse(&stream_of(ops)).unwrap();
    let texts = lookup(&cmap, &[0x00, 0x03]).unwrap();
    assert_eq!(texts, &vec!["A".to_string(), "B".to_string()]);
}

#[test]
fn bfchar_skips_the_zero_sentinel() {
    let ops = vec![op("endbfchar", vec![s(&[0x00, 0x07]), s(&[0x00, 0x00])])];
    let cmap = ToUnicodeCMap::parse(&stream_of(ops)).unwrap();
    assert_eq!(cmap.mapped.len(), 0);
}

#[test]
fn bfrange_expands_four_devanagari_codes() {
    let ops = vec![op(
        "endbfrange",
        vec![s(&[0x00, 0x09]), s(&[0x00, 0x0C]), s(&[0x09, 0x05])],
    )];
    let cmap = ToUnicodeCMap::parse(&stream_of(ops)).unwrap();
    assert_eq!(cmap.mapped.len(), 4);
    assert_eq!(lookup(&cmap, &[0x00, 0x09]).unwrap(), &vec!["\u{0905}".to_string()]);
    assert_eq!(lookup(&cmap, &[0x00, 0x0A]).unwrap(), &vec!["\u{0906}".to_string()]);
    assert_eq!(lookup(&cmap, &[0x00, 0x0B]).unwrap(), &vec!["\u{0907}".to_string()]);
    assert_eq!(lookup(&cmap, &[0x00, 0x0C]).unwrap(), &vec!["\u{0908}".to_string()]);
}

#[test]
fn bfrange_with_zero_offset_skips_the_first_destination() {
    let ops = vec![op(
        "endbfrange",
        vec![s(&[0x00, 0x00]), s(&[0x00, 0x02]), s(&[0x00, 0x00])],
    )];
    let cmap = ToUnicodeCMap::parse(&stream_of(ops)).unwrap();
    assert_eq!(cmap.mapped.len(), 2);
    assert!(lookup(&cmap, &[0x00, 0x00]).is_none());
    assert_eq!(lookup(&cmap, &[0x00, 0x01]).unwrap(), &vec!["\u{1}".to_string()]);
}

#[test]
fn bfrange_with_begin_after_end_is_empty_not_an_error() {
    let ops = vec![op(
        "endbfrange",
        vec![s(&[0x00, 0x0C]), s(&[0x00, 0x09]), s(&[0x09, 0x05])],
    )];
    let cmap = ToUnicodeCMap::parse(&stream_of(ops)).unwrap();
    assert_eq!(cmap.mapped.len(), 0);
}

#[test]
fn other_operators_are_ignored() {
    let ops = vec![
        op("begincmap", vec![]),
        op("endbfchar", vec![s(&[0x10]), s(&[0x00, 0x58])]),
        op("endcmap", vec![]),
    ];
    let cmap = ToUnicodeCMap::parse(&stream_of(ops)).unwrap();
    assert_eq!(cmap.mapped.len(), 1);
    assert_eq!(lookup(&cmap, &[0x10]).unwrap(), &vec!["X".to_string()]);
}

#[test]
fn bfchar_with_odd_operands_is_malformed() {
    let ops = vec![op("endbfchar", vec![s(&[0x00, 0x03])])];
    assert_eq!(
        ToUnicodeCMap::parse(&stream_of(ops)),
        Err(PdfError::BadCMapOperands)
    );
}

#[test]
fn bfrange_with_mismatched_widths_is_malformed() {
    let ops = vec![op(
        "endbfrange",
        vec![s(&[0x00, 0x09]), s(&[0x0C]), s(&[0x09, 0x05])],
    )];
    assert_eq!(
        ToUnicodeCMap::parse(&stream_of(ops)),
        Err(PdfError::BadCMapOperands)
    );
}

#[test]
fn a_nine_byte_code_is_too_long() {
    let ops = vec![op(
        "endbfchar",
        vec![s(&[1, 2, 3, 4, 5, 6, 7, 8, 9]), s(&[0x00, 0x41])],
    )];
    assert_eq!(ToUnicodeCMap::parse(&stream_of(ops)), Err(PdfError::CodeTooLong));
}

#[test]
fn a_destination_beyond_two_bytes_is_too_large() {
    let ops = vec![op(
        "endbfrange",
        vec![s(&[0x00, 0x00]), s(&[0x00, 0x01]), s(&[0x01, 0xFF, 0xFF])],
    )];
    assert_eq!(
        ToUnicodeCMap::parse(&stream_of(ops)),
        Err(PdfError::ValueTooLarge)
    );
}

#[test]
fn a_surrogate_destination_is_invalid_utf16() {
    let ops = vec![op(
        "endbfrange",
        vec![s(&[0x00, 0x00]), s(&[0x00, 0x00]), s(&[0xD8, 0x00])],
    )];
    assert_eq!(
        ToUnicodeCMap::parse(&stream_of(ops)),
        Err(PdfError::InvalidUtf16)
    );
}

#[test]
fn an_undecodable_stream_is_an_unsupported_cmap() {
    let undecodable = PdfObject::Stream(PdfStream {
        dict: PdfDict { entries: Vec::new() },
        ops: None,
    });
    assert_eq!(
        ToUnicodeCMap::parse(&undecodable),
        Err(PdfError::UnsupportedCMapFormat)
    );
}

#[test]
fn a_non_stream_object_is_the_wrong_kind() {
    assert_eq!(
        ToUnicodeCMap::parse(&PdfObject::Null),
        Err(PdfError::WrongKind)
    );
}

#[test]
fn collecting_unicode_mappings_pairs_fonts_with_their_tables() {
    let cmap_stream = stream_of(vec![op(
        "endbfchar",
        vec![s(&[0x00, 0x03]), s(&[0x00, 0x20])],
    )]);
    let font_dict = PdfObject::Dict(PdfDict {
        entries: vec![
            (b"BaseFont".to_vec(), PdfObject::Name(b"Foo".to_vec())),
            (b"Subtype".to_vec(), PdfObject::Name(b"TrueType".to_vec())),
            (
                b"FontDescriptor".to_vec(),
                PdfObject::Ref(ObjectId { num: 5, generation: 0 }),
            ),
            (
                b"ToUnicode".to_vec(),
                PdfObject::Ref(ObjectId { num: 9, generation: 0 }),
            ),
        ],
    });
    let doc = Document {
        objects: vec![
            (ObjectId { num: 1, generation: 0 }, font_dict),
            (ObjectId { num: 9, generation: 0 }, cmap_stream),
        ],
        pages: Vec::new(),
    };
    let (found, reports) = collect_unicode_mappings(&doc);
    assert_eq!(reports, Vec::new());
    assert_eq!(found.len(), 1);
    assert_eq!(found[0].0.base_font_name.as_deref(), Some("Foo"));
    assert_eq!(
        lookup(&found[0].1, &[0x00, 0x03]).unwrap(),
        &vec![" ".to_string()]
    );
}

#[test]
fn a_font_whose_cmap_cannot_be_parsed_is_reported_and_skipped() {
    let undecodable = PdfObject::Stream(PdfStream {
        dict: PdfDict { entries: Vec::new() },
        ops: None,
    });
    let font_dict = PdfObject::Dict(PdfDict {
        entries: vec![
            (b"BaseFont".to_vec(), PdfObject::Name(b"Foo".to_vec())),
            (b"Subtype".to_vec(), PdfObject::Name(b"TrueType".to_vec())),
            (
                b"FontDescriptor".to_vec(),
                PdfObject::Ref(ObjectId { num: 5, generation: 0 }),
            ),
            (
                b"ToUnicode".to_vec(),
                PdfObject::Ref(ObjectId { num: 9, generation: 0 }),
            ),
        ],
    });
    let doc = Document {
        objects: vec![
            (ObjectId { num: 1, generation: 0 }, font_dict),
            (ObjectId { num: 9, generation: 0 }, undecodable),
        ],
        pages: Vec::new(),
    };
    let (found, reports) = collect_unicode_mappings(&doc);
    assert_eq!(found.len(), 0);
    assert_eq!(
        reports,
        vec![(
            ObjectId { num: 1, generation: 0 },
            PdfError::UnsupportedCMapFormat
        )]
    );
}
