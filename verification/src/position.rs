//! Line/character positions, with UTF-16 code-unit columns and 0-based
//! line numbers, matching text-protocol position conventions.

use vstd::prelude::*;

verus! {

/// A 0-based line and UTF-16 character column.
#[derive(Debug, Eq, PartialEq, Copy, Clone, Structural)]
pub struct Position {
    pub line: usize,
    pub character: usize,
}

impl Position {
    pub fn new(line: usize, character: usize) -> (r: Self)
        ensures
            r.line == line && r.character == character,
    {
        Self { line, character }
    }

    /// Whether this is the origin position.
    pub fn is_zero(self) -> (r: bool)
        ensures
            r == (self.line == 0 && self.character == 0),
    {
        self.line == 0 && self.character == 0
    }
}

/// Zero-indexed cursor coordinates in the document: the row and the
/// grapheme column. The rendered (view) position can differ.
#[derive(Debug, Clone, Copy, PartialEq, Eq, Structural)]
pub struct CursorDocCoords {
    pub row: usize,
    pub col: usize,
}

impl CursorDocCoords {
    pub fn new(row: usize, col: usize) -> (r: Self)
        ensures
            r.row == row && r.col == col,
    {
        Self { row, col }
    }

    /// Project document coordinates onto view coordinates.
    pub fn transform_to_view_coords(&self) -> (r: CursorViewCoords)
        ensures
            r.row == self.row && r.col == self.col,
    {
        CursorViewCoords { row: self.row, col: self.col }
    }
}

/// Zero-indexed cursor coordinates as rendered.
#[derive(Debug, Clone, Copy, PartialEq, Eq, Structural)]
pub struct CursorViewCoords {
    pub row: usize,
    pub col: usize,
}

impl CursorViewCoords {
    pub fn new(row: usize, col: usize) -> (r: Self)
        ensures
            r.row == row && r.col == col,
    {
        Self { row, col }
    }
}

/// A column position request.
#[derive(Clone, Copy, PartialEq, Eq, Structural, Debug)]
pub enum ColPosition {
    FirstNonBlank,
    Start,
    End,
    Col(usize),
}

/// A row position request.
#[derive(Clone, Copy, PartialEq, Eq, Structural, Debug)]
pub enum RowPosition {
    Start,
    End,
    Row(usize),
}

} // verus!
