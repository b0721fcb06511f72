//! Grapheme-cluster segmentation: forward and backward boundary queries
//! from an arbitrary byte offset.
//!
//! Which byte offsets are extended-grapheme-cluster boundaries is decided
//! by the `unicode-segmentation` crate; that judgement is a pure function
//! of the text alone, named here by `is_grapheme_boundary_at` and never
//! restated. Single-step queries are trusted wrappers around the crate's
//! incremental `GraphemeCursor`; everything built from them — n-step
//! walks, counting, the round-trip law — is verified.

use vstd::prelude::*;
use vstd::utf8::{valid_utf8, is_char_boundary};

verus! {

/// Error raised by grapheme-cursor operations on ill-placed offsets.
#[derive(Debug, Clone, Copy, PartialEq, Eq, Structural)]
pub enum GraphemeCursorError {
    InvalidCharacter,
}

/// Whether byte offset `i` of the UTF-8 text `s` is an extended grapheme
/// cluster boundary, as `unicode-segmentation` judges it. The result
/// depends on the bytes alone. Offsets that are not codepoint boundaries
/// are never grapheme boundaries.
pub uninterp spec fn is_grapheme_boundary_at(s: Seq<u8>, i: int) -> bool;

/// The least grapheme boundary strictly greater than `i`, up to `s.len()`.
pub open spec fn spec_next_grapheme_boundary(s: Seq<u8>, i: int) -> Option<int>
    decreases s.len() - i,
    when 0 <= i <= s.len()
{
    if i >= s.len() {
        None
    } else if is_grapheme_boundary_at(s, i + 1) {
        Some(i + 1)
    } else {
        spec_next_grapheme_boundary(s, i + 1)
    }
}

/// The greatest grapheme boundary strictly less than `i`, down to 0.
pub open spec fn spec_prev_grapheme_boundary(s: Seq<u8>, i: int) -> Option<int>
    decreases i,
    when 0 <= i
{
    if i <= 0 {
        None
    } else if is_grapheme_boundary_at(s, i - 1) {
        Some(i - 1)
    } else {
        spec_prev_grapheme_boundary(s, i - 1)
    }
}

/// `n` forward steps of single grapheme boundaries; `None` the moment a
/// single step runs off the end, reporting no partial progress.
pub open spec fn spec_nth_next_grapheme_boundary(s: Seq<u8>, i: int, n: nat) -> Option<int>
    decreases n,
{
    if n == 0 {
        Some(i)
    } else {
        match spec_next_grapheme_boundary(s, i) {
            None => None,
            Some(j) => spec_nth_next_grapheme_boundary(s, j, (n - 1) as nat),
        }
    }
}

/// `n` backward steps of single grapheme boundaries.
pub open spec fn spec_nth_prev_grapheme_boundary(s: Seq<u8>, i: int, n: nat) -> Option<int>
    decreases n,
{
    if n == 0 {
        Some(i)
    } else {
        match spec_prev_grapheme_boundary(s, i) {
            None => None,
            Some(j) => spec_nth_prev_grapheme_boundary(s, j, (n - 1) as nat),
        }
    }
}

/// Relies on `unicode_segmentation::GraphemeCursor::is_boundary`, called
/// with the whole text as one chunk so that no context is ever missing:
/// it decides whether `at` is an extended grapheme cluster boundary.
#[verifier::external_body]
pub fn is_grapheme_boundary(bytes: &Vec<u8>, at: usize) -> (r: bool)
    requires
        valid_utf8(bytes@),
        is_char_boundary(bytes@, at as int),
    ensures
        r == is_grapheme_boundary_at(bytes@, at as int),
{
    let s = match core::str::from_utf8(bytes) {
        Ok(s) => s,
        Err(_) => return false,
    };
    let mut gc = unicode_segmentation::GraphemeCursor::new(at, s.len(), true);
    gc.is_boundary(s, 0).unwrap_or(false)
}

/// Relies on `unicode_segmentation::GraphemeCursor::next_boundary`, called
/// with the whole text as one chunk: it finds the next grapheme boundary
/// strictly after `at`, or `None` at the end of the text. Every boundary
/// it returns falls on a codepoint boundary.
#[verifier::external_body]
pub fn next_grapheme_offset(bytes: &Vec<u8>, at: usize) -> (r: Option<usize>)
    requires
        valid_utf8(bytes@),
        is_char_boundary(bytes@, at as int),
    ensures
        spec_next_grapheme_boundary(bytes@, at as int) == match r {
            None => None::<int>,
            Some(j) => Some(j as int),
        },
        r matches Some(j) ==> at < j <= bytes@.len() && is_char_boundary(bytes@, j as int)
            && is_grapheme_boundary_at(bytes@, j as int),
{
    let s = match core::str::from_utf8(bytes) {
        Ok(s) => s,
        Err(_) => return None,
    };
    let mut gc = unicode_segmentation::GraphemeCursor::new(at, s.len(), true);
    gc.next_boundary(s, 0).unwrap_or(None)
}

/// Relies on `unicode_segmentation::GraphemeCursor::prev_boundary`, called
/// with the whole text as one chunk: it finds the closest grapheme
/// boundary strictly before `at`, or `None` at the start of the text.
/// Every boundary it returns falls on a codepoint boundary.
#[verifier::external_body]
pub fn prev_grapheme_offset(bytes: &Vec<u8>, at: usize) -> (r: Option<usize>)
    requires
        valid_utf8(bytes@),
        is_char_boundary(bytes@, at as int),
    ensures
        spec_prev_grapheme_boundary(bytes@, at as int) == match r {
            None => None::<int>,
            Some(j) => Some(j as int),
        },
        r matches Some(j) ==> j < at && is_char_boundary(bytes@, j as int)
            && is_grapheme_boundary_at(bytes@, j as int),
{
    let s = match core::str::from_utf8(bytes) {
        Ok(s) => s,
        Err(_) => return None,
    };
    let mut gc = unicode_segmentation::GraphemeCursor::new(at, s.len(), true);
    gc.prev_boundary(s, 0).unwrap_or(None)
}

/// Compose `n` single forward steps; `None` as soon as one step fails.
#[verifier::loop_isolation(false)]
pub fn nth_next_grapheme_boundary(bytes: &Vec<u8>, from: usize, n: usize) -> (r: Option<usize>)
    requires
        valid_utf8(bytes@),
        is_char_boundary(bytes@, from as int),
    ensures
        spec_nth_next_grapheme_boundary(bytes@, from as int, n as nat) == match r {
            None => None::<int>,
            Some(j) => Some(j as int),
        },
        r matches Some(j) ==> j <= bytes@.len() && is_char_boundary(bytes@, j as int),
{
    proof {
        crate::unicode::lemma_boundary_in_range(bytes@, from as int);
    }
    let mut cur = from;
    let mut steps: usize = 0;
    while steps < n
        invariant
            steps <= n,
            cur <= bytes@.len(),
            is_char_boundary(bytes@, cur as int),
            spec_nth_next_grapheme_boundary(bytes@, from as int, n as nat)
                == spec_nth_next_grapheme_boundary(bytes@, cur as int, (n - steps) as nat),
        decreases n - steps,
    {
        let step = next_grapheme_offset(bytes, cur);
        proof {
            assert(spec_nth_next_grapheme_boundary(bytes@, cur as int, (n - steps) as nat)
                == match spec_next_grapheme_boundary(bytes@, cur as int) {
                None => None::<int>,
                Some(j) => spec_nth_next_grapheme_boundary(bytes@, j, (n - steps - 1) as nat),
            });
        }
        match step {
            Some(j) => {
                cur = j;
                steps = steps + 1;
            },
            None => {
                return None;
            },
        }
    }
    Some(cur)
}

/// Compose `n` single backward steps; `None` as soon as one step fails.
#[verifier::loop_isolation(false)]
pub fn nth_prev_grapheme_boundary(bytes: &Vec<u8>, from: usize, n: usize) -> (r: Option<usize>)
    requires
        valid_utf8(bytes@),
        is_char_boundary(bytes@, from as int),
    ensures
        spec_nth_prev_grapheme_boundary(bytes@, from as int, n as nat) == match r {
            None => None::<int>,
            Some(j) => Some(j as int),
        },
        r matches Some(j) ==> j <= bytes@.len() && is_char_boundary(bytes@, j as int),
{
    proof {
        crate::unicode::lemma_boundary_in_range(bytes@, from as int);
    }
    let mut cur = from;
    let mut steps: usize = 0;
    while steps < n
        invariant
            steps <= n,
            cur <= bytes@.len(),
            is_char_boundary(bytes@, cur as int),
            spec_nth_prev_grapheme_boundary(bytes@, from as int, n as nat)
                == spec_nth_prev_grapheme_boundary(bytes@, cur as int, (n - steps) as nat),
        decreases n - steps,
    {
        let step = prev_grapheme_offset(bytes, cur);
        proof {
            assert(spec_nth_prev_grapheme_boundary(bytes@, cur as int, (n - steps) as nat)
                == match spec_prev_grapheme_boundary(bytes@, cur as int) {
                None => None::<int>,
                Some(j) => spec_nth_prev_grapheme_boundary(bytes@, j, (n - steps - 1) as nat),
            });
        }
        match step {
            Some(j) => {
                cur = j;
                steps = steps + 1;
            },
            None => {
                return None;
            },
        }
    }
    Some(cur)
}

/// A forward step lands on a boundary, above the start, within the text,
/// with no boundary in between.
pub proof fn lemma_next_props(s: Seq<u8>, i: int, j: int)
    requires
        0 <= i <= s.len(),
        spec_next_grapheme_boundary(s, i) == Some(j),
    ensures
        is_grapheme_boundary_at(s, j),
        i < j <= s.len(),
        forall|k: int| i < k < j ==> !is_grapheme_boundary_at(s, k),
    decreases s.len() - i,
{
    if i >= s.len() {
    } else if is_grapheme_boundary_at(s, i + 1) {
    } else {
        lemma_next_props(s, i + 1, j);
    }
}

/// An `n`-step backward walk stays within `[0, i]`.
pub proof fn lemma_nth_prev_bounds(s: Seq<u8>, i: int, n: nat, j: int)
    requires
        0 <= i,
        spec_nth_prev_grapheme_boundary(s, i, n) == Some(j),
    ensures
        0 <= j <= i,
    decreases n,
{
    if n == 0 {
    } else {
        let j1 = spec_prev_grapheme_boundary(s, i).unwrap();
        lemma_prev_props(s, i, j1);
        lemma_nth_prev_bounds(s, j1, (n - 1) as nat, j);
    }
}

/// A backward step lands on a boundary, below the start, with no boundary
/// in between.
pub proof fn lemma_prev_props(s: Seq<u8>, i: int, j: int)
    requires
        0 <= i,
        spec_prev_grapheme_boundary(s, i) == Some(j),
    ensures
        is_grapheme_boundary_at(s, j),
        0 <= j < i,
        forall|k: int| j < k < i ==> !is_grapheme_boundary_at(s, k),
    decreases i,
{
    if i <= 0 {
    } else if is_grapheme_boundary_at(s, i - 1) {
    } else {
        lemma_prev_props(s, i - 1, j);
    }
}

/// Scanning forward from `a` finds `b` when `b` is the first boundary
/// strictly after `a`.
pub proof fn lemma_next_finds(s: Seq<u8>, a: int, b: int)
    requires
        0 <= a < b <= s.len(),
        is_grapheme_boundary_at(s, b),
        forall|k: int| a < k < b ==> !is_grapheme_boundary_at(s, k),
    ensures
        spec_next_grapheme_boundary(s, a) == Some(b),
    decreases b - a,
{
    if is_grapheme_boundary_at(s, a + 1) {
        assert(a + 1 == b);
    } else {
        assert(a + 1 < b);
        lemma_next_finds(s, a + 1, b);
    }
}

/// One backward step followed by one forward step returns to the start,
/// when the start is itself a boundary.
pub proof fn lemma_prev_then_next(s: Seq<u8>, i: int, j: int)
    requires
        0 <= i <= s.len(),
        is_grapheme_boundary_at(s, i),
        spec_prev_grapheme_boundary(s, i) == Some(j),
    ensures
        spec_next_grapheme_boundary(s, j) == Some(i),
{
    lemma_prev_props(s, i, j);
    lemma_next_finds(s, j, i);
}

/// Appending one forward step at the tail of an `n`-step walk.
proof fn lemma_nth_next_snoc(s: Seq<u8>, a: int, m: nat, b: int, c: int)
    requires
        0 <= a <= s.len(),
        spec_nth_next_grapheme_boundary(s, a, m) == Some(b),
        spec_next_grapheme_boundary(s, b) == Some(c),
    ensures
        spec_nth_next_grapheme_boundary(s, a, m + 1) == Some(c),
    decreases m,
{
    if m == 0 {
        assert(a == b);
        assert(spec_nth_next_grapheme_boundary(s, c, 0) == Some(c));
        assert(spec_nth_next_grapheme_boundary(s, a, 1) == Some(c));
    } else {
        let j = spec_next_grapheme_boundary(s, a).unwrap();
        lemma_next_props(s, a, j);
        lemma_nth_next_snoc(s, j, (m - 1) as nat, b, c);
        assert(spec_nth_next_grapheme_boundary(s, a, m + 1)
            == spec_nth_next_grapheme_boundary(s, j, m));
    }
}

/// Grapheme round-trip: starting from a grapheme boundary `i`, if `n`
/// backward steps succeed and land on `j`, then `n` forward steps from
/// `j` land exactly back on `i`.
pub proof fn lemma_grapheme_round_trip(s: Seq<u8>, i: int, n: nat, j: int)
    requires
        0 <= i <= s.len(),
        is_grapheme_boundary_at(s, i),
        spec_nth_prev_grapheme_boundary(s, i, n) == Some(j),
    ensures
        spec_nth_next_grapheme_boundary(s, j, n) == Some(i),
    decreases n,
{
    if n == 0 {
        assert(j == i);
    } else {
        let j1 = spec_prev_grapheme_boundary(s, i).unwrap();
        lemma_prev_props(s, i, j1);
        lemma_grapheme_round_trip(s, j1, (n - 1) as nat, j);
        lemma_prev_then_next(s, i, j1);
        lemma_nth_prev_bounds(s, j1, (n - 1) as nat, j);
        lemma_nth_next_snoc(s, j, (n - 1) as nat, j1, i);
    }
}

} // verus!
