//! Selections holding one or more cursor ranges.

use vstd::prelude::*;
use crate::cursor::CursorRange;
use crate::delta::{TextDelta, InsertDrift, spec_transform};

verus! {

/// A selection: an ordered collection of cursor ranges, remembering the
/// one most recently added.
#[derive(Debug, Clone, PartialEq, Eq)]
pub struct Selection {
    cursor_ranges: Vec<CursorRange>,
    last_inserted: usize,
}

impl Selection {
    /// The held ranges, in insertion order.
    pub closed spec fn view(&self) -> Seq<CursorRange> {
        self.cursor_ranges@
    }

    /// A new, empty selection.
    pub fn new() -> (r: Selection)
        ensures
            r@ == Seq::<CursorRange>::empty(),
    {
        Selection { cursor_ranges: Vec::new(), last_inserted: 0 }
    }

    /// Add one cursor range to the selection.
    pub fn add_curor_range(&mut self, cursor_range: CursorRange)
        ensures
            final(self)@ == old(self)@.push(cursor_range),
    {
        self.cursor_ranges.push(cursor_range);
        self.last_inserted = self.cursor_ranges.len() - 1;
    }

    /// Whether any held range contains `offset`.
    #[verifier::loop_isolation(false)]
    pub fn contains(&self, offset: usize) -> (r: bool)
        ensures
            r == exists|i: int|
                0 <= i < self@.len() && crate::cursor::range_from(#[trigger] self@[i]) <= offset
                    < crate::cursor::range_to(self@[i]),
    {
        let n = self.cursor_ranges.len();
        let mut i: usize = 0;
        while i < n
            invariant
                i <= n,
                forall|j: int|
                    0 <= j < i ==> !(crate::cursor::range_from(#[trigger] self@[j]) <= offset
                        < crate::cursor::range_to(self@[j])),
            decreases n - i,
        {
            if self.cursor_ranges[i].contains(offset) {
                proof {
                    assert(crate::cursor::range_from(self@[i as int]) <= offset
                        < crate::cursor::range_to(self@[i as int]));
                }
                return true;
            }
            i = i + 1;
        }
        false
    }

    /// A copy of the held ranges.
    #[verifier::loop_isolation(false)]
    pub fn cursor_ranges(&self) -> (r: Vec<CursorRange>)
        ensures
            r@ == self@,
    {
        let mut out: Vec<CursorRange> = Vec::new();
        let mut i: usize = 0;
        while i < self.cursor_ranges.len()
            invariant
                i <= self@.len(),
                out@ == self@.subrange(0, i as int),
            decreases self@.len() - i,
        {
            out.push(self.cursor_ranges[i]);
            proof {
                assert(out@ =~= self@.subrange(0, i + 1 as int));
            }
            i = i + 1;
        }
        proof {
            assert(out@ =~= self@);
        }
        out
    }

    /// The selection is a caret when every held range is a point.
    #[verifier::loop_isolation(false)]
    pub fn is_point(&self) -> (r: bool)
        ensures
            r == forall|i: int|
                0 <= i < self@.len() ==> (#[trigger] self@[i]).anchor == self@[i].head,
    {
        let n = self.cursor_ranges.len();
        let mut i: usize = 0;
        while i < n
            invariant
                i <= n,
                forall|j: int| 0 <= j < i ==> (#[trigger] self@[j]).anchor == self@[j].head,
            decreases n - i,
    {
            if self.cursor_ranges[i].anchor != self.cursor_ranges[i].head {
                proof {
                    assert(self@[i as int].anchor != self@[i as int].head);
                }
                return false;
            }
            i = i + 1;
        }
        true
    }

    /// Re-index every held range through an edit's delta. `Inside` lands
    /// the edit within non-point ranges where possible, `Outside` keeps
    /// it out of them, and `Default` follows the `after` flag.
    #[verifier::loop_isolation(false)]
    pub fn apply_delta(&self, delta: &TextDelta, after: bool, drift: InsertDrift) -> (r: Selection)
        requires
            forall|i: int|
                0 <= i < self@.len() ==> (#[trigger] self@[i]).anchor + delta.inserted
                    <= usize::MAX && self@[i].head + delta.inserted <= usize::MAX,
        ensures
            r@.len() == self@.len(),
            forall|i: int|
                0 <= i < self@.len() ==> #[trigger] r@[i] == spec_apply_delta_range(
                    self@[i],
                    *delta,
                    after,
                    drift,
                ),
    {
        let n = self.cursor_ranges.len();
        let mut result = Selection::new();
        let mut i: usize = 0;
        while i < n
            invariant
                i <= n,
                result@.len() == i,
                forall|j: int|
                    0 <= j < i ==> #[trigger] result@[j] == spec_apply_delta_range(
                        self@[j],
                        *delta,
                        after,
                        drift,
                    ),
            decreases n - i,
        {
            let cursor_range = &self.cursor_ranges[i];
            proof {
                assert(self@[i as int].anchor + delta.inserted <= usize::MAX);
                assert(self@[i as int].head + delta.inserted <= usize::MAX);
            }
            let is_forward = cursor_range.anchor < cursor_range.head;
            let is_empty = cursor_range.anchor == cursor_range.head;
            let (start_after, end_after) = match (drift, is_empty) {
                (InsertDrift::Inside, false) => (!is_forward, is_forward),
                (InsertDrift::Outside, false) => (is_forward, !is_forward),
                _ => (after, after),
            };
            let new_range = CursorRange {
                anchor: delta.transform(cursor_range.anchor, start_after),
                head: delta.transform(cursor_range.head, end_after),
            };
            result.add_curor_range(new_range);
            i = i + 1;
        }
        result
    }
}

/// One range re-indexed through a delta, with the edge choice derived
/// from the drift and the range's orientation.
pub open spec fn spec_apply_delta_range(
    c: CursorRange,
    d: TextDelta,
    after: bool,
    drift: InsertDrift,
) -> CursorRange {
    let is_forward = c.anchor < c.head;
    let is_empty = c.anchor == c.head;
    let start_after = match drift {
        InsertDrift::Inside => if is_empty {
            after
        } else {
            !is_forward
        },
        InsertDrift::Outside => if is_empty {
            after
        } else {
            is_forward
        },
        InsertDrift::Default => after,
    };
    let end_after = match drift {
        InsertDrift::Inside => if is_empty {
            after
        } else {
            is_forward
        },
        InsertDrift::Outside => if is_empty {
            after
        } else {
            !is_forward
        },
        InsertDrift::Default => after,
    };
    CursorRange {
        anchor: spec_transform(d, c.anchor as int, start_after) as usize,
        head: spec_transform(d, c.head as int, end_after) as usize,
    }
}

} // verus!
