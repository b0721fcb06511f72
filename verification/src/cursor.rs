//! Selection ranges: an anchor and a head, both byte offsets into the
//! current buffer content. The head is the end the user actively moves.
//!
//! Ranges are inclusive on the left and exclusive on the right, regardless
//! of anchor/head ordering. Non-zero-width ranges that share only an edge do
//! not overlap, but a zero-width range overlaps the shared left edge of
//! another range.

use vstd::prelude::*;

verus! {

/// Which way a selection points: `Forward` when `anchor <= head`.
#[derive(Debug, Clone, PartialEq, Eq, Copy, Structural)]
pub enum CursorOrientation {
    Forward,
    Backward,
}

/// Which way a cursor motion goes.
#[derive(Debug, Copy, Clone, PartialEq, Eq, Structural)]
pub enum Direction {
    Forward,
    Backward,
}

/// Whether a motion moves the point or extends the selection.
#[derive(Copy, Clone, PartialEq, Eq, Structural)]
pub enum Movement {
    Extend,
    Move,
}

/// A single selection range: anchor and head byte offsets, in any order.
#[derive(Debug, Clone, PartialEq, Eq, Copy, Structural)]
pub struct CursorRange {
    pub anchor: usize,
    pub head: usize,
}

/// Lower end of a range.
pub open spec fn range_from(r: CursorRange) -> int {
    if r.anchor <= r.head {
        r.anchor as int
    } else {
        r.head as int
    }
}

/// Upper end of a range.
pub open spec fn range_to(r: CursorRange) -> int {
    if r.anchor <= r.head {
        r.head as int
    } else {
        r.anchor as int
    }
}

/// Two ranges overlap when they share a starting point, or each one's end
/// strictly exceeds the other's start. An empty range overlaps another
/// range's shared left edge; adjacent non-empty ranges do not overlap.
pub open spec fn spec_overlaps(a: CursorRange, b: CursorRange) -> bool {
    ||| range_from(a) == range_from(b)
    ||| (range_to(a) > range_from(b) && range_to(b) > range_from(a))
}

/// One range contains the whole extent of another.
pub open spec fn spec_contains_range(a: CursorRange, b: CursorRange) -> bool {
    range_from(a) <= range_from(b) && range_to(a) >= range_to(b)
}

/// The smallest range covering both `a` and `b`, oriented as `a` is.
pub open spec fn spec_merge(a: CursorRange, b: CursorRange) -> CursorRange {
    let from = if range_from(a) <= range_from(b) {
        range_from(a)
    } else {
        range_from(b)
    };
    let to = if range_to(a) >= range_to(b) {
        range_to(a)
    } else {
        range_to(b)
    };
    if a.anchor <= a.head {
        CursorRange { anchor: from as usize, head: to as usize }
    } else {
        CursorRange { anchor: to as usize, head: from as usize }
    }
}

impl CursorRange {
    pub fn new(anchor: usize, head: usize) -> (r: Self)
        ensures
            r.anchor == anchor,
            r.head == head,
    {
        Self { anchor, head }
    }

    pub fn set(&mut self, range: Self)
        ensures
            *final(self) == range,
    {
        self.anchor = range.anchor;
        self.head = range.head;
    }

    pub fn set_head(&mut self, offset: usize)
        ensures
            final(self).head == offset,
            final(self).anchor == old(self).anchor,
    {
        self.head = offset;
    }

    pub fn set_anchor(&mut self, offset: usize)
        ensures
            final(self).anchor == offset,
            final(self).head == old(self).head,
    {
        self.anchor = offset;
    }

    /// Collapse the range to a point at `offset`.
    pub fn set_point(&mut self, offset: usize)
        ensures
            final(self).anchor == offset,
            final(self).head == offset,
    {
        self.anchor = offset;
        self.head = offset;
    }

    /// Start of the range.
    #[inline]
    #[must_use]
    pub fn from(&self) -> (r: usize)
        ensures
            r as int == range_from(*self),
    {
        if self.anchor <= self.head {
            self.anchor
        } else {
            self.head
        }
    }

    /// End of the range.
    #[inline]
    #[must_use]
    pub fn to(&self) -> (r: usize)
        ensures
            r as int == range_to(*self),
    {
        if self.anchor <= self.head {
            self.head
        } else {
            self.anchor
        }
    }

    /// Total length of the range.
    #[inline]
    #[must_use]
    pub fn len(&self) -> (r: usize)
        ensures
            r as int == range_to(*self) - range_from(*self),
    {
        self.to() - self.from()
    }

    /// `true` when head and anchor are at the same position.
    #[inline]
    pub fn is_empty(&self) -> (r: bool)
        ensures
            r == (self.anchor == self.head),
    {
        self.anchor == self.head
    }

    /// `CursorOrientation::Backward` when head < anchor, `Forward` otherwise.
    #[inline]
    #[must_use]
    pub fn orientation(&self) -> (r: CursorOrientation)
        ensures
            r == (if self.head < self.anchor {
                CursorOrientation::Backward
            } else {
                CursorOrientation::Forward
            }),
    {
        if self.head < self.anchor {
            CursorOrientation::Backward
        } else {
            CursorOrientation::Forward
        }
    }

    /// `Direction::Backward` when head < anchor, `Forward` otherwise.
    #[inline]
    #[must_use]
    pub fn direction(&self) -> (r: Direction)
        ensures
            r == (if self.head < self.anchor {
                Direction::Backward
            } else {
                Direction::Forward
            }),
    {
        if self.head < self.anchor {
            Direction::Backward
        } else {
            Direction::Forward
        }
    }

    /// Swap anchor and head.
    pub fn flip(&self) -> (r: Self)
        ensures
            r.anchor == self.head,
            r.head == self.anchor,
    {
        Self { anchor: self.head, head: self.anchor }
    }

    /// The same extent, oriented as `orientation` asks.
    pub fn with_orientation(self, orientation: CursorOrientation) -> (r: Self)
        ensures
            r == (if self.orientation_spec() == orientation {
                self
            } else {
                Self { anchor: self.head, head: self.anchor }
            }),
            range_from(r) == range_from(self),
            range_to(r) == range_to(self),
    {
        if self.orientation() == orientation {
            self
        } else {
            self.flip()
        }
    }

    /// The same extent, oriented as `direction` asks.
    pub fn with_direction(self, direction: Direction) -> (r: Self)
        ensures
            r == (if self.direction_spec() == direction {
                self
            } else {
                Self { anchor: self.head, head: self.anchor }
            }),
            range_from(r) == range_from(self),
            range_to(r) == range_to(self),
    {
        if self.direction() == direction {
            self
        } else {
            self.flip()
        }
    }

    /// Spec mirror of `orientation`.
    pub open spec fn orientation_spec(self) -> CursorOrientation {
        if self.head < self.anchor {
            CursorOrientation::Backward
        } else {
            CursorOrientation::Forward
        }
    }

    /// Spec mirror of `direction`.
    pub open spec fn direction_spec(self) -> Direction {
        if self.head < self.anchor {
            Direction::Backward
        } else {
            Direction::Forward
        }
    }

    /// Check two ranges for overlap.
    #[must_use]
    pub fn overlaps(&self, other: &Self) -> (r: bool)
        ensures
            r == spec_overlaps(*self, *other),
    {
        self.from() == other.from() || (self.to() > other.from() && other.to() > self.from())
    }

    #[inline]
    pub fn contains_range(&self, other: &Self) -> (r: bool)
        ensures
            r == spec_contains_range(*self, *other),
    {
        self.from() <= other.from() && self.to() >= other.to()
    }

    pub fn contains(&self, pos: usize) -> (r: bool)
        ensures
            r == (range_from(*self) <= pos < range_to(*self)),
    {
        self.from() <= pos && pos < self.to()
    }

    /// Extend the range so it covers at least `[from, to)`, keeping the
    /// current orientation of anchor and head.
    #[must_use]
    pub fn extend(self, from: usize, to: usize) -> (r: Self)
        requires
            from <= to,
        ensures
            range_from(r) <= from,
            range_to(r) >= to,
            range_from(r) <= range_from(self),
            range_to(r) >= range_to(self),
            r.anchor <= r.head <==> self.anchor <= self.head || (self.anchor == self.head
                && from < self.head),
    {
        if self.anchor <= self.head {
            Self {
                anchor: if self.anchor <= from {
                    self.anchor
                } else {
                    from
                },
                head: if self.head >= to {
                    self.head
                } else {
                    to
                },
            }
        } else {
            Self {
                anchor: if self.anchor >= to {
                    self.anchor
                } else {
                    to
                },
                head: if self.head <= from {
                    self.head
                } else {
                    from
                },
            }
        }
    }

    /// The smallest range covering both `self` and `other`. Orientation is
    /// taken from `self` when the ranges differ, matching the natural
    /// (max, min) comparison of both ranges.
    #[must_use]
    pub fn merge(self, other: Self) -> (r: Self)
        ensures
            r == spec_merge(self, other),
            spec_contains_range(r, self),
            spec_contains_range(r, other),
    {
        let from: usize = if self.from() <= other.from() {
            self.from()
        } else {
            other.from()
        };
        let to: usize = if self.to() >= other.to() {
            self.to()
        } else {
            other.to()
        };
        if self.anchor <= self.head {
            Self { anchor: from, head: to }
        } else {
            Self { anchor: to, head: from }
        }
    }
}

/// Overlap is symmetric: for all ranges `a` and `b`,
/// `a.overlaps(b) == b.overlaps(a)`.
pub proof fn lemma_overlaps_symmetric(a: CursorRange, b: CursorRange)
    ensures
        spec_overlaps(a, b) == spec_overlaps(b, a),
{
}

/// A merged range always contains both of its inputs:
/// `a.merge(b).contains_range(a)` and `a.merge(b).contains_range(b)`.
pub proof fn lemma_merge_contains_both(a: CursorRange, b: CursorRange)
    ensures
        spec_contains_range(spec_merge(a, b), a),
        spec_contains_range(spec_merge(a, b), b),
{
}

} // verus!
