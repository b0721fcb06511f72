//! Deltas: the shape of an edit, used to re-index spans and selections
//! after the text changes, without re-scanning the whole buffer.
//!
//! A delta models an edit as a deleted byte range `[start, start+deleted)`
//! replaced by `inserted` bytes. Transforming an offset through a delta:
//! offsets before the edit are unchanged; offsets at or after the end of
//! the deleted range shift by `inserted - deleted`; offsets strictly inside
//! the deleted range collapse to the edit point. An offset exactly at the
//! edit point of a pure insertion either stays (leading edge) or is pushed
//! past the insertion (trailing edge), governed by the caller's drift
//! choice: this decides whether typing right at a span boundary is
//! absorbed into or excluded from that span.

use vstd::prelude::*;

verus! {

/// The shape of one text edit: `deleted` bytes at `start` were replaced
/// by `inserted` bytes.
#[derive(Debug, Clone, Copy, PartialEq, Eq, Structural)]
pub struct TextDelta {
    pub start: usize,
    pub deleted: usize,
    pub inserted: usize,
}

/// Where an edit should land relative to existing selections when it
/// falls exactly on their edges.
#[derive(Debug, Clone, Copy, PartialEq, Eq, Structural)]
pub enum InsertDrift {
    /// The edit happens inside any non-point selection if possible.
    Inside,
    /// The edit happens outside any non-point selection if possible.
    Outside,
    /// Use the per-endpoint `after` flag as given.
    Default,
}

/// Transform a single offset through a delta. `after` chooses the
/// trailing edge for an offset that sits exactly at the edit point.
pub open spec fn spec_transform(d: TextDelta, offset: int, after: bool) -> int {
    if offset < d.start || (offset == d.start && !after) {
        offset
    } else if offset >= d.start + d.deleted {
        offset - d.deleted + d.inserted
    } else {
        // at the edit point with `after`, or strictly inside the deleted
        // range: collapse to the edit point, drifting past the insertion
        // when `after` asks for the trailing edge
        if after {
            d.start + d.inserted
        } else {
            d.start as int
        }
    }
}

impl TextDelta {
    /// The length of the text after this edit, given its length before.
    pub open spec fn spec_new_len(self, len: int) -> int {
        len - self.deleted + self.inserted
    }

    /// The delta fits a text of length `len`.
    pub open spec fn fits(self, len: int) -> bool {
        self.start + self.deleted <= len
    }

    /// Transform a byte offset through this delta.
    pub fn transform(&self, offset: usize, after: bool) -> (r: usize)
        requires
            offset <= usize::MAX - self.inserted,
        ensures
            r as int == spec_transform(*self, offset as int, after),
    {
        if offset < self.start || (offset == self.start && !after) {
            offset
        } else if offset - self.start >= self.deleted {
            offset - self.deleted + self.inserted
        } else {
            if after {
                self.start + self.inserted
            } else {
                self.start
            }
        }
    }
}

/// A delta that represents inserting the empty string — nothing deleted,
/// nothing inserted — leaves every offset exactly where it was, whatever
/// its position and whatever the drift.
pub proof fn lemma_noop_delta_is_identity(d: TextDelta, offset: int, after: bool)
    requires
        d.deleted == 0,
        d.inserted == 0,
    ensures
        spec_transform(d, offset, after) == offset,
{
}


/// Every transformed offset within a text of length `l` lands within
/// the edited text's length.
pub proof fn lemma_transform_bounded(d: TextDelta, l: int)
    requires
        d.start + d.deleted <= l,
    ensures
        forall|o: int, a: bool|
            0 <= o <= l ==> 0 <= #[trigger] spec_transform(d, o, a) <= l - d.deleted + d.inserted,
{
}


} // verus!
