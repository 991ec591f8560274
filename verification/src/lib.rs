//! Extraction and annotation of the Unicode text behind the glyph codes in a
//! PDF document's content streams.
//!
//! The crate walks a document's pages, resolves which font is active at every
//! text-showing operator, parses embedded ToUnicode CMaps, and either dumps
//! the glyph codes it saw per font or wraps each text-showing operator in a
//! marked-content pair carrying the resolved text.

pub mod bytecode;
pub mod cmap;
pub mod error;
pub mod font;
pub mod object;
pub mod pdf_visit;
pub mod resources;
pub mod text_state;
pub mod text_string;

pub use bytecode::from_many_bytes;
pub use bytecode::from_two_bytes;
pub use bytecode::parse_hex;
pub use bytecode::to_many_bytes;
pub use cmap::CharacterCode;
pub use cmap::ToUnicodeCMap;
pub use error::PdfError;
pub use error::PdfExpectationError;
pub use font::parse_font;
pub use font::Font;
pub use font::FontSubtype;
pub use object::Document;
pub use object::ObjectId;
pub use object::Op;
pub use object::Page;
pub use object::PdfDict;
pub use object::PdfObject;
pub use object::PdfStream;
pub use object::StrFormat;
pub use pdf_visit::apply_edits;
pub use pdf_visit::build_xobject_scope;
pub use pdf_visit::collect_unicode_mappings;
pub use pdf_visit::simple_extend;
pub use pdf_visit::visit_page_content_stream_ops;
pub use pdf_visit::MyOpVisitor;
pub use pdf_visit::WalkOutput;
pub use resources::collect_fonts_from_resources;
pub use resources::get_page_fonts;
pub use resources::FontMap;
pub use text_state::glyph_ids;
pub use text_state::GlyphPolicy;
pub use text_state::GlyphTextMap;
pub use text_state::Phase;
pub use text_state::TextState;
pub use text_string::pdf_encode_unicode_text_string;
pub use text_string::utf16be_decode_to_string;
