//! Word-boundary judgment over pairs of adjacent character classes.

use vstd::prelude::*;
use crate::codepoint::CharClassification;

verus! {

/// A word boundary can be the start of a word, its end, or both, as for
/// punctuation between two words.
#[derive(PartialEq, Eq, Structural, Debug, Clone, Copy)]
pub enum WordBoundary {
    /// Not a boundary.
    Interior,
    /// A boundary starting a word.
    Start,
    /// A boundary ending a word.
    End,
    /// Both a start and an end boundary.
    Both,
}

/// The fixed, total boundary table over the class product: consecutive
/// line feeds start words, whitespace runs and CR/LF pairs are interior,
/// space next to non-space starts or ends a word by direction, and
/// punctuation next to ordinary text is both.
pub open spec fn spec_word_boundary(prev: CharClassification, next: CharClassification) -> WordBoundary {
    match (prev, next) {
        (CharClassification::Lf, CharClassification::Lf) => WordBoundary::Start,
        (CharClassification::Lf, CharClassification::Space) => WordBoundary::Interior,
        (CharClassification::Cr, CharClassification::Lf) => WordBoundary::Interior,
        (CharClassification::Space, CharClassification::Lf) => WordBoundary::Interior,
        (CharClassification::Space, CharClassification::Cr) => WordBoundary::Interior,
        (CharClassification::Space, CharClassification::Space) => WordBoundary::Interior,
        (_, CharClassification::Space) => WordBoundary::End,
        (CharClassification::Space, _) => WordBoundary::Start,
        (CharClassification::Lf, _) => WordBoundary::Start,
        (_, CharClassification::Cr) => WordBoundary::End,
        (_, CharClassification::Lf) => WordBoundary::End,
        (CharClassification::Punctuation, CharClassification::Other) => WordBoundary::Both,
        (CharClassification::Other, CharClassification::Punctuation) => WordBoundary::Both,
        _ => WordBoundary::Interior,
    }
}

impl WordBoundary {
    /// Whether this judgment starts a word.
    pub fn is_start(&self) -> (r: bool)
        ensures
            r == (*self == WordBoundary::Start || *self == WordBoundary::Both),
    {
        *self == WordBoundary::Start || *self == WordBoundary::Both
    }

    /// Whether this judgment ends a word.
    pub fn is_end(&self) -> (r: bool)
        ensures
            r == (*self == WordBoundary::End || *self == WordBoundary::Both),
    {
        *self == WordBoundary::End || *self == WordBoundary::Both
    }

    /// Whether this judgment is a boundary at all.
    pub fn is_boundary(&self) -> (r: bool)
        ensures
            r == (*self != WordBoundary::Interior),
    {
        *self != WordBoundary::Interior
    }

    /// The judgment for a pair of adjacent character classes.
    pub fn new(prev: CharClassification, next: CharClassification) -> (r: Self)
        ensures
            r == spec_word_boundary(prev, next),
    {
        match (prev, next) {
            (CharClassification::Lf, CharClassification::Lf) => WordBoundary::Start,
            (CharClassification::Lf, CharClassification::Space) => WordBoundary::Interior,
            (CharClassification::Cr, CharClassification::Lf) => WordBoundary::Interior,
            (CharClassification::Space, CharClassification::Lf) => WordBoundary::Interior,
            (CharClassification::Space, CharClassification::Cr) => WordBoundary::Interior,
            (CharClassification::Space, CharClassification::Space) => WordBoundary::Interior,
            (_, CharClassification::Space) => WordBoundary::End,
            (CharClassification::Space, _) => WordBoundary::Start,
            (CharClassification::Lf, _) => WordBoundary::Start,
            (_, CharClassification::Cr) => WordBoundary::End,
            (_, CharClassification::Lf) => WordBoundary::End,
            (CharClassification::Punctuation, CharClassification::Other) => WordBoundary::Both,
            (CharClassification::Other, CharClassification::Punctuation) => WordBoundary::Both,
            _ => WordBoundary::Interior,
        }
    }
}

/// Error raised by word-cursor operations.
#[derive(Debug, Clone, Copy, PartialEq, Eq, Structural)]
pub enum WordCursorError {
    InvalidCharacter,
}

} // verus!
