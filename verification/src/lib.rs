//! A rich-text document core: a mutable UTF-8 text buffer, cursors that walk
//! it at several granularities, a span/annotation model kept consistent with
//! the buffer through edit deltas, and a transaction state machine that
//! applies edits atomically to buffer, cursor and spans.

pub mod buffer;
pub mod codepoint;
pub mod cursor;
pub mod delta;
pub mod editor;
pub mod encoding;
pub mod graphemes;
pub mod line;
pub mod line_ending;
pub mod interval_tree;
pub mod paragraph;
pub mod position;
pub mod selection;
pub mod span;
pub mod word;
pub mod unicode;
