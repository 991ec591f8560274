//! Error taxonomy of the library.
//!
//! The policy throughout is "abort the smallest enclosing unit and report":
//! a bad font aborts that font, a bad content stream aborts that stream, and
//! neither aborts the walk over the remaining pages.

#![verifier::loop_isolation(false)]

use vstd::prelude::*;

verus! {

/// Everything that can go wrong while reading or rewriting a document.
///
/// Structural variants mean the document violates an invariant the format
/// promises; the others are policy decisions documented on the functions
/// that return them.
#[derive(Debug, Clone, Copy, PartialEq, Eq, Structural)]
pub enum PdfError {
    /// A dictionary key the format requires at that place was absent.
    MissingKey,
    /// An object was not of the kind the format requires at that place.
    WrongKind,
    /// A reference pointed at no object in the document.
    DanglingReference,
    /// A reference chain was longer than any well-formed document needs.
    RefChainTooDeep,
    /// A font /Subtype name outside the five the format defines.
    UnknownFontSubtype,
    /// /DescendantFonts presence did not match the declared font subtype.
    DescendantFontsMismatch,
    /// A ToUnicode stream held no decodable operator sequence.
    UnsupportedCMapFormat,
    /// bfchar/bfrange operands of the wrong kind, count or width.
    BadCMapOperands,
    /// A character code longer than the eight bytes this library supports.
    CodeTooLong,
    /// A computed value too large for the byte width it must be written in.
    ValueTooLarge,
    /// UTF-16BE text whose code units do not form scalar values.
    InvalidUtf16,
    /// Text that is not a non-empty string of hexadecimal digits.
    NotHex,
    /// A name or text holding bytes that are not a valid UTF-8 encoding.
    NotUtf8,
    /// A name used by an operator but absent from the resource scope.
    ResourceNotFound,
    /// A page with neither a resource dictionary nor exactly one inherited
    /// resource object.
    BadResourceShape,
    /// Nesting of form invocations deeper than the configured cutoff.
    DepthExceeded,
    /// A string operand of odd length under a font with two-byte codes.
    UnevenCode,
    /// A glyph code with no entry in the replacement table.
    UnresolvedGlyph,
    /// A text-showing or form operator before any font or form was set.
    NoCurrentFont,
    /// A content stream whose bytes were not decodable as operators.
    UndecodableStream,
}

/// The displayable error shape handed to callers at the outermost level.
#[derive(Debug, Clone, PartialEq, Eq)]
pub enum PdfExpectationError {
    NoWay { msg: String },
}

impl PdfError {
    /// The phrase `describe` returns, as a sequence of characters.
    pub open spec fn describe_spec(&self) -> Seq<char> {
        match self {
            PdfError::MissingKey => "a required dictionary key is absent"@,
            PdfError::WrongKind => "an object is of the wrong kind"@,
            PdfError::DanglingReference => "a reference points at no object"@,
            PdfError::RefChainTooDeep => "a reference chain is too long"@,
            PdfError::UnknownFontSubtype => "a font subtype name is unknown"@,
            PdfError::DescendantFontsMismatch => "descendant fonts do not match the subtype"@,
            PdfError::UnsupportedCMapFormat => "a ToUnicode stream is not decodable"@,
            PdfError::BadCMapOperands => "bfchar or bfrange operands are malformed"@,
            PdfError::CodeTooLong => "a character code is longer than eight bytes"@,
            PdfError::ValueTooLarge => "a value does not fit its byte width"@,
            PdfError::InvalidUtf16 => "text is not valid UTF-16"@,
            PdfError::NotHex => "text is not a hexadecimal number"@,
            PdfError::NotUtf8 => "a name holds bytes that are not UTF-8"@,
            PdfError::ResourceNotFound => "a named resource is not in scope"@,
            PdfError::BadResourceShape => "page resources are of an invalid shape"@,
            PdfError::DepthExceeded => "form invocations nest too deeply"@,
            PdfError::UnevenCode => "a two-byte-code string has odd length"@,
            PdfError::UnresolvedGlyph => "a glyph has no replacement text"@,
            PdfError::NoCurrentFont => "text is shown before any font is set"@,
            PdfError::UndecodableStream => "a content stream is not decodable"@,
        }
    }

    /// A fixed phrase describing the error.
    pub fn describe(&self) -> (r: &'static str)
        ensures
            r@ == self.describe_spec(),
    {
        let r: &'static str = match self {
            PdfError::MissingKey => "a required dictionary key is absent",
            PdfError::WrongKind => "an object is of the wrong kind",
            PdfError::DanglingReference => "a reference points at no object",
            PdfError::RefChainTooDeep => "a reference chain is too long",
            PdfError::UnknownFontSubtype => "a font subtype name is unknown",
            PdfError::DescendantFontsMismatch => "descendant fonts do not match the subtype",
            PdfError::UnsupportedCMapFormat => "a ToUnicode stream is not decodable",
            PdfError::BadCMapOperands => "bfchar or bfrange operands are malformed",
            PdfError::CodeTooLong => "a character code is longer than eight bytes",
            PdfError::ValueTooLarge => "a value does not fit its byte width",
            PdfError::InvalidUtf16 => "text is not valid UTF-16",
            PdfError::NotHex => "text is not a hexadecimal number",
            PdfError::NotUtf8 => "a name holds bytes that are not UTF-8",
            PdfError::ResourceNotFound => "a named resource is not in scope",
            PdfError::BadResourceShape => "page resources are of an invalid shape",
            PdfError::DepthExceeded => "form invocations nest too deeply",
            PdfError::UnevenCode => "a two-byte-code string has odd length",
            PdfError::UnresolvedGlyph => "a glyph has no replacement text",
            PdfError::NoCurrentFont => "text is shown before any font is set",
            PdfError::UndecodableStream => "a content stream is not decodable",
        };
        r
    }

    /// The outward, message-bearing form of the error.
    pub fn to_expectation(&self) -> (r: PdfExpectationError)
        ensures
            r matches PdfExpectationError::NoWay { msg } && msg@ == self.describe_spec(),
    {
        PdfExpectationError::NoWay { msg: self.describe().to_owned() }
    }
}

} // verus!
