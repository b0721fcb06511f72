//! Paragraph-boundary judgment: a quad lookaround over character
//! classes, detecting blank-line paragraph breaks including CRLF forms.

use vstd::prelude::*;
use crate::codepoint::CharClassification;

verus! {

/// A paragraph boundary can start or end a blank-line run, or both when
/// a single empty line separates two paragraphs.
#[derive(PartialEq, Eq, Structural, Debug, Clone, Copy)]
pub enum ParagraphBoundary {
    Interior,
    Start,
    End,
    Both,
}

/// The quad-lookaround table: two classes back and two ahead decide
/// whether a blank-line paragraph break starts or ends here.
pub open spec fn spec_paragraph_boundary(
    before_prev: CharClassification,
    prev: CharClassification,
    next: CharClassification,
    after_next: CharClassification,
) -> ParagraphBoundary {
    match (before_prev, prev, next, after_next) {
        (
            CharClassification::Other,
            CharClassification::Lf,
            CharClassification::Lf,
            CharClassification::Other,
        ) => ParagraphBoundary::Both,
        (_, CharClassification::Lf, CharClassification::Lf, CharClassification::Other) => ParagraphBoundary::Start,
        (
            CharClassification::Lf,
            CharClassification::Cr,
            CharClassification::Lf,
            CharClassification::Other,
        ) => ParagraphBoundary::Start,
        (CharClassification::Other, CharClassification::Lf, CharClassification::Lf, _) => ParagraphBoundary::End,
        (
            CharClassification::Other,
            CharClassification::Cr,
            CharClassification::Lf,
            CharClassification::Cr,
        ) => ParagraphBoundary::End,
        _ => ParagraphBoundary::Interior,
    }
}

impl ParagraphBoundary {
    /// The judgment for the four surrounding character classes.
    pub fn new(
        before_prev: CharClassification,
        prev: CharClassification,
        next: CharClassification,
        after_next: CharClassification,
    ) -> (r: Self)
        ensures
            r == spec_paragraph_boundary(before_prev, prev, next, after_next),
    {
        match (before_prev, prev, next, after_next) {
            (
                CharClassification::Other,
                CharClassification::Lf,
                CharClassification::Lf,
                CharClassification::Other,
            ) => ParagraphBoundary::Both,
            (_, CharClassification::Lf, CharClassification::Lf, CharClassification::Other) => ParagraphBoundary::Start,
            (
                CharClassification::Lf,
                CharClassification::Cr,
                CharClassification::Lf,
                CharClassification::Other,
            ) => ParagraphBoundary::Start,
            (CharClassification::Other, CharClassification::Lf, CharClassification::Lf, _) => ParagraphBoundary::End,
            (
                CharClassification::Other,
                CharClassification::Cr,
                CharClassification::Lf,
                CharClassification::Cr,
            ) => ParagraphBoundary::End,
            _ => ParagraphBoundary::Interior,
        }
    }

    /// Whether this judgment starts a paragraph break.
    pub fn is_start(&self) -> (r: bool)
        ensures
            r == (*self == ParagraphBoundary::Start || *self == ParagraphBoundary::Both),
    {
        *self == ParagraphBoundary::Start || *self == ParagraphBoundary::Both
    }

    /// Whether this judgment ends a paragraph break.
    pub fn is_end(&self) -> (r: bool)
        ensures
            r == (*self == ParagraphBoundary::End || *self == ParagraphBoundary::Both),
    {
        *self == ParagraphBoundary::End || *self == ParagraphBoundary::Both
    }

    /// Whether this judgment is a boundary at all.
    pub fn is_boundary(&self) -> (r: bool)
        ensures
            r == (*self != ParagraphBoundary::Interior),
    {
        *self != ParagraphBoundary::Interior
    }
}

/// Error raised by paragraph-cursor operations.
#[derive(Debug, Clone, Copy, PartialEq, Eq, Structural)]
pub enum ParagraphCursorError {
    InvalidParagraph,
}

/// Error raised by sentence-cursor operations.
#[derive(Debug, Clone, Copy, PartialEq, Eq, Structural)]
pub enum SentenceCursorError {
    InvalidSentence,
}

/// Error raised by block-cursor operations.
#[derive(Debug, Clone, Copy, PartialEq, Eq, Structural)]
pub enum BlockCursorError {
    InvalidCharacter,
}

} // verus!
