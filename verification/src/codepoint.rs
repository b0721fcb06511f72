//! Character classification used to compose word and paragraph
//! boundaries.

use vstd::prelude::*;

verus! {

/// Classes of characters that drive boundary decisions.
#[derive(Copy, Clone, PartialEq, Eq, Structural, Debug)]
pub enum CharClassification {
    /// Carriage return.
    Cr,
    /// Line feed.
    Lf,
    /// Whitespace that is not a line break.
    Space,
    /// An ASCII punctuation character.
    Punctuation,
    /// Letters and the rest of Unicode.
    Other,
}

/// Whether a character is a line ending.
pub open spec fn spec_char_is_line_ending(ch: char) -> bool {
    ch == '\u{000A}'
}

/// Determine whether a character is a line ending.
#[inline]
pub fn char_is_line_ending(ch: char) -> (r: bool)
    ensures
        r == spec_char_is_line_ending(ch),
{
    ch == '\u{000A}'
}

/// Whether a character counts as non-line-break whitespace.
pub open spec fn spec_char_is_whitespace(ch: char) -> bool {
    ||| ch == '\u{0009}'
    ||| ch == '\u{0020}'
    ||| ch == '\u{00A0}'
    ||| ch == '\u{180E}'
    ||| ch == '\u{202F}'
    ||| ch == '\u{205F}'
    ||| ch == '\u{3000}'
    ||| ch == '\u{FEFF}'
    ||| ('\u{2000}' <= ch && ch <= '\u{200B}')
}

/// Determine whether a character qualifies as (non-line-break)
/// whitespace.
#[inline]
pub fn char_is_whitespace(ch: char) -> (r: bool)
    ensures
        r == spec_char_is_whitespace(ch),
{
    ch == '\u{0009}' || ch == '\u{0020}' || ch == '\u{00A0}' || ch == '\u{180E}' || ch == '\u{202F}'
        || ch == '\u{205F}' || ch == '\u{3000}' || ch == '\u{FEFF}' || ('\u{2000}' <= ch && ch
        <= '\u{200B}')
}

/// Whether a character is ASCII punctuation.
pub open spec fn spec_char_is_punctuation(ch: char) -> bool {
    ||| ('!' <= ch && ch <= '/')
    ||| (':' <= ch && ch <= '@')
    ||| ('[' <= ch && ch <= '`')
    ||| ('{' <= ch && ch <= '~')
}

/// Spec mirror of `CharClassification::new`.
pub open spec fn spec_classify(ch: char) -> CharClassification {
    if ch == '\r' {
        CharClassification::Cr
    } else if ch == '\n' {
        CharClassification::Lf
    } else if spec_char_is_whitespace(ch) {
        CharClassification::Space
    } else if spec_char_is_punctuation(ch) {
        CharClassification::Punctuation
    } else {
        CharClassification::Other
    }
}

impl CharClassification {
    /// The classification of the input character.
    pub fn new(codepoint: char) -> (r: Self)
        ensures
            r == spec_classify(codepoint),
    {
        if codepoint == '\r' {
            CharClassification::Cr
        } else if codepoint == '\n' {
            CharClassification::Lf
        } else if char_is_whitespace(codepoint) {
            CharClassification::Space
        } else if ('!' <= codepoint && codepoint <= '/') || (':' <= codepoint && codepoint <= '@')
            || ('[' <= codepoint && codepoint <= '`') || ('{' <= codepoint && codepoint <= '~') {
            CharClassification::Punctuation
        } else {
            CharClassification::Other
        }
    }
}

/// Whether `c` is alphanumeric in the Unicode sense. The judgment is a
/// pure function of the character, defined by Unicode's derived
/// properties and never restated here.
pub uninterp spec fn spec_char_is_alphanumeric(c: char) -> bool;

/// Relies on `char::is_alphanumeric`: the Unicode alphanumeric classes.
#[verifier::external_body]
pub fn char_is_alphanumeric(c: char) -> (r: bool)
    ensures
        r == spec_char_is_alphanumeric(c),
{
    c.is_alphanumeric()
}

/// Error raised by codepoint-cursor operations.
#[derive(Debug, Clone, Copy, PartialEq, Eq, Structural)]
pub enum CodepointCursorError {
    InvalidCharacter,
}

} // verus!
