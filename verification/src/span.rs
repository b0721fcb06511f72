//! The span/annotation model: half-open byte ranges carrying typed
//! attributes, with per-type conflict behavior and delta-based
//! re-indexing after every text edit.

use vstd::prelude::*;
use crate::delta::{TextDelta, InsertDrift, spec_transform};

verus! {

/// What happens when two spans of the same attribute type overlap.
#[derive(Debug, Clone, Copy, PartialEq, Eq, Structural)]
pub enum Behavior {
    /// Overlapping same-type spans coalesce into their union range.
    Merge,
    /// The overlapping span with the lower lamport marker is removed;
    /// `AllowMultiple` spans are exempt.
    Delete,
    /// Both spans are retained verbatim even though their ranges overlap.
    AllowMultiple,
}

impl Behavior {
    /// The fixed priority of each behavior.
    pub fn priority(&self) -> (r: u8)
        ensures
            r == spec_priority(*self),
    {
        match self {
            Behavior::Merge => 0,
            Behavior::Delete => 1,
            Behavior::AllowMultiple => 2,
        }
    }
}

/// Spec mirror of `Behavior::priority`.
pub open spec fn spec_priority(b: Behavior) -> u8 {
    match b {
        Behavior::Merge => 0,
        Behavior::Delete => 1,
        Behavior::AllowMultiple => 2,
    }
}

/// A JSON-like attribute value carried by a span.
#[derive(Debug, Clone, PartialEq, Eq)]
pub enum AttrValue {
    Null,
    Flag(bool),
    Number(u64),
    Text(String),
}

/// An annotated text span: a half-open byte range, an attribute type
/// name, its value, the overlap behavior of its type, and a lamport
/// marker for tie-breaking deletions.
#[derive(Debug, Clone, PartialEq, Eq)]
pub struct Span {
    pub start: usize,
    pub end: usize,
    pub type_: String,
    pub value: AttrValue,
    pub behavior: Behavior,
    pub lamport: u64,
}

impl AttrValue {
    /// An equal copy of this value.
    pub fn duplicate(&self) -> (r: AttrValue)
        ensures
            r == *self,
    {
        match self {
            AttrValue::Null => AttrValue::Null,
            AttrValue::Flag(b) => AttrValue::Flag(*b),
            AttrValue::Number(n) => AttrValue::Number(*n),
            AttrValue::Text(s) => AttrValue::Text(s.clone()),
        }
    }
}

impl Span {
    /// An equal copy of this span.
    pub fn duplicate(&self) -> (r: Span)
        ensures
            r == *self,
    {
        Span {
            start: self.start,
            end: self.end,
            type_: self.type_.clone(),
            value: self.value.duplicate(),
            behavior: self.behavior,
            lamport: self.lamport,
        }
    }

    /// A span never has negative width.
    pub open spec fn wf(self) -> bool {
        self.start <= self.end
    }

    /// Whether the span covers byte offset `pos`.
    pub fn contains(&self, pos: usize) -> (r: bool)
        ensures
            r == (self.start <= pos < self.end),
    {
        self.start <= pos && pos < self.end
    }
}

/// Two ranges overlap when each begins before the other ends.
pub open spec fn spec_ranges_overlap(a_start: int, a_end: int, b_start: int, b_end: int) -> bool {
    a_start < b_end && b_start < a_end
}

/// The set of stored spans, resolved per behavior on overlap and
/// re-indexed through every edit's delta.
pub struct SpanSet {
    spans: Vec<Span>,
}

/// Whether an existing span survives the arrival of `new`: it stays
/// unless it has the same type as `new`, actually overlaps it, and the
/// behavior asks for it to be merged away or deleted as the older one.
pub open spec fn spec_survives(old: Span, new: Span) -> bool {
    ||| old.type_@ != new.type_@
    ||| !spec_ranges_overlap(old.start as int, old.end as int, new.start as int, new.end as int)
    ||| (match new.behavior {
        Behavior::AllowMultiple => true,
        Behavior::Merge => false,
        Behavior::Delete => old.behavior == Behavior::AllowMultiple || old.lamport >= new.lamport,
    })
}

/// The union range of `new` with every same-type overlapping span it
/// merges away, folded over a prefix of the stored spans.
pub open spec fn spec_merge_bounds(spans: Seq<Span>, new: Span, k: int) -> (int, int)
    decreases k,
{
    if k <= 0 {
        (new.start as int, new.end as int)
    } else {
        let (s, e) = spec_merge_bounds(spans, new, k - 1);
        let cur = spans[k - 1];
        if cur.type_@ == new.type_@ && spec_ranges_overlap(
            cur.start as int,
            cur.end as int,
            new.start as int,
            new.end as int,
        ) {
            (
                if cur.start < s {
                    cur.start as int
                } else {
                    s
                },
                if cur.end > e {
                    cur.end as int
                } else {
                    e
                },
            )
        } else {
            (s, e)
        }
    }
}

impl SpanSet {
    /// The stored spans, in insertion order.
    pub closed spec fn view(&self) -> Seq<Span> {
        self.spans@
    }

    /// Every stored span has non-negative width.
    pub open spec fn wf(&self) -> bool {
        forall|i: int| 0 <= i < self@.len() ==> (#[trigger] self@[i]).wf()
    }

    /// A new, empty span set.
    pub fn new() -> (r: Self)
        ensures
            r.wf(),
            r@ == Seq::<Span>::empty(),
    {
        SpanSet { spans: Vec::new() }
    }

    /// Number of stored spans.
    pub fn len(&self) -> (r: usize)
        ensures
            r == self@.len(),
    {
        self.spans.len()
    }

    /// A copy of every stored span, in insertion order.
    pub fn spans(&self) -> (r: Vec<Span>)
        ensures
            r@ == self@,
    {
        let mut out: Vec<Span> = Vec::new();
        let mut i: usize = 0;
        while i < self.spans.len()
            invariant
                i <= self.spans@.len(),
                out@ == self.spans@.subrange(0, i as int),
            decreases self.spans@.len() - i,
        {
            out.push(self.spans[i].duplicate());
            proof {
                assert(self.spans@[i as int] == self.spans@.subrange(0, i + 1 as int)[i as int]);
                assert(out@ =~= self.spans@.subrange(0, i + 1 as int));
            }
            i = i + 1;
        }
        proof {
            assert(out@ =~= self.spans@);
        }
        out
    }

    /// Insert a new span, resolving overlap with stored spans of the same
    /// attribute type according to the new span's behavior: `Merge`
    /// coalesces them into their union range, `Delete` keeps only the
    /// newer of the conflicting spans, `AllowMultiple` keeps everything.
    /// Spans of other types, and spans that do not overlap, are never
    /// touched.
    #[verifier::loop_isolation(false)]
    pub fn annotate(&mut self, span: Span)
        requires
            old(self).wf(),
            span.wf(),
        ensures
            final(self).wf(),
            final(self)@.len() <= old(self)@.len() + 1,
            // what survives is exactly the spans the behavior keeps
            final(self)@.subrange(0, final(self)@.len() - 1) == old(self)@.filter(
                |s: Span| spec_survives(s, span),
            ),
            // the inserted span stands last: as given, except that Merge
            // widens it to the union of everything it absorbed
            final(self)@.len() >= 1 && (final(self)@.last() == (match span.behavior {
                Behavior::Merge => Span {
                    start: spec_merge_bounds(old(self)@, span, old(self)@.len() as int).0 as usize,
                    end: spec_merge_bounds(old(self)@, span, old(self)@.len() as int).1 as usize,
                    ..span
                },
                _ => span,
            })),
    {
        broadcast use vstd::seq::group_seq_axioms;

        let ghost olds = self.spans@;
        let ghost pred = |s: Span| spec_survives(s, span);
        let n = self.spans.len();
        let mut kept: Vec<Span> = Vec::new();
        let mut lo = span.start;
        let mut hi = span.end;
        let mut i: usize = 0;
        proof {
            reveal(Seq::filter);
            assert(olds.subrange(0, 0).filter(pred) =~= Seq::<Span>::empty());
        }
        while i < n
            invariant
                i <= n,
                kept@ == olds.subrange(0, i as int).filter(pred),
                span.behavior == Behavior::Merge ==> (lo as int, hi as int) == spec_merge_bounds(
                    olds,
                    span,
                    i as int,
                ),
                lo <= span.start && span.end <= hi,
                self.spans@ == olds,
            decreases n - i,
        {
            let cur = &self.spans[i];
            let same_type = cur.type_ == span.type_;
            let overlapping = cur.start < span.end && span.start < cur.end;
            let survives: bool;
            if !same_type || !overlapping {
                survives = true;
            } else {
                match span.behavior {
                    Behavior::AllowMultiple => {
                        survives = true;
                    },
                    Behavior::Merge => {
                        survives = false;
                        if cur.start < lo {
                            lo = cur.start;
                        }
                        if cur.end > hi {
                            hi = cur.end;
                        }
                    },
                    Behavior::Delete => {
                        survives = cur.behavior == Behavior::AllowMultiple || cur.lamport
                            >= span.lamport;
                    },
                }
            }
            if survives {
                kept.push(self.spans[i].duplicate());
            }
            proof {
                let pre = olds.subrange(0, i as int);
                let ext = olds.subrange(0, i + 1 as int);
                assert(ext.drop_last() =~= pre);
                assert(ext.last() == olds[i as int]);
                assert(pred(olds[i as int]) == survives);
                assert(ext.filter(pred) =~= (if survives {
                    pre.filter(pred).push(olds[i as int])
                } else {
                    pre.filter(pred)
                }));
            }
            i = i + 1;
        }
        let merged = if let Behavior::Merge = span.behavior {
            Span { start: lo, end: hi, ..span }
        } else {
            span
        };
        kept.push(merged);
        self.spans = kept;
        proof {
            assert(olds.subrange(0, n as int) =~= olds);
            assert(self.spans@.subrange(0, self.spans@.len() - 1) =~= olds.filter(pred));
            olds.lemma_filter_len(pred);
            lemma_filter_keeps_wf(olds, pred);
            assert forall|j: int| 0 <= j < self@.len() implies (#[trigger] self@[j]).wf() by {
                if j < self@.len() - 1 {
                    assert(olds.filter(pred)[j] == self@[j]);
                    assert(olds.filter(pred)[j].wf());
                }
            }
        }
    }

    /// The attributes active at `offset`: every stored span covering it.
    #[verifier::loop_isolation(false)]
    pub fn spans_at(&self, offset: usize) -> (r: Vec<Span>)
        ensures
            r@ == self@.filter(|s: Span| s.start <= offset < s.end),
    {
        broadcast use vstd::seq::group_seq_axioms;

        let ghost pred = |s: Span| s.start <= offset < s.end;
        let mut out: Vec<Span> = Vec::new();
        let mut i: usize = 0;
        proof {
            reveal(Seq::filter);
            assert(self@.subrange(0, 0).filter(pred) =~= Seq::<Span>::empty());
        }
        while i < self.spans.len()
            invariant
                i <= self.spans@.len(),
                out@ == self.spans@.subrange(0, i as int).filter(pred),
            decreases self.spans@.len() - i,
        {
            let keep = self.spans[i].start <= offset && offset < self.spans[i].end;
            if keep {
                out.push(self.spans[i].duplicate());
            }
            proof {
                let pre = self.spans@.subrange(0, i as int);
                let ext = self.spans@.subrange(0, i + 1 as int);
                assert(ext.drop_last() =~= pre);
                assert(ext.last() == self.spans@[i as int]);
                assert(pred(self.spans@[i as int]) == keep);
            }
            i = i + 1;
        }
        proof {
            assert(self.spans@.subrange(0, self.spans@.len() as int) =~= self.spans@);
        }
        out
    }

    /// Every stored span overlapping the queried range, in stored order.
    /// For every offset in the range, the attributes of the returned
    /// spans covering it are exactly those `spans_at` would report.
    #[verifier::loop_isolation(false)]
    pub fn spans_in_range(&self, start: usize, end: usize) -> (r: Vec<Span>)
        ensures
            r@ == self@.filter(
                |s: Span| spec_ranges_overlap(s.start as int, s.end as int, start as int, end as int),
            ),
    {
        broadcast use vstd::seq::group_seq_axioms;

        let ghost pred = |s: Span| spec_ranges_overlap(
            s.start as int,
            s.end as int,
            start as int,
            end as int,
        );
        let mut out: Vec<Span> = Vec::new();
        let mut i: usize = 0;
        proof {
            reveal(Seq::filter);
            assert(self@.subrange(0, 0).filter(pred) =~= Seq::<Span>::empty());
        }
        while i < self.spans.len()
            invariant
                i <= self.spans@.len(),
                out@ == self.spans@.subrange(0, i as int).filter(pred),
            decreases self.spans@.len() - i,
        {
            let keep = self.spans[i].start < end && start < self.spans[i].end;
            if keep {
                out.push(self.spans[i].duplicate());
            }
            proof {
                let pre = self.spans@.subrange(0, i as int);
                let ext = self.spans@.subrange(0, i + 1 as int);
                assert(ext.drop_last() =~= pre);
                assert(ext.last() == self.spans@[i as int]);
                assert(pred(self.spans@[i as int]) == keep);
            }
            i = i + 1;
        }
        proof {
            assert(self.spans@.subrange(0, self.spans@.len() as int) =~= self.spans@);
        }
        out
    }

    /// Re-index every stored span through the delta of a text edit: the
    /// required step after every mutation of the buffer. Each span's
    /// start keeps the leading edge and its end the trailing edge when
    /// the drift is `Inside`, the reverse when it is `Outside`, and both
    /// follow `after` under `Default`.
    #[verifier::loop_isolation(false)]
    pub fn update(&mut self, delta: &TextDelta, drift: InsertDrift, after: bool)
        requires
            old(self).wf(),
            forall|i: int|
                0 <= i < old(self)@.len() ==> (#[trigger] old(self)@[i]).end + delta.inserted
                    <= usize::MAX,
        ensures
            final(self).wf(),
            final(self)@.len() == old(self)@.len(),
            forall|i: int|
                0 <= i < old(self)@.len() ==> #[trigger] final(self)@[i] == spec_update_span(
                    old(self)@[i],
                    *delta,
                    drift,
                    after,
                ),
    {
        broadcast use vstd::seq::group_seq_axioms;

        let ghost olds = self.spans@;
        let n = self.spans.len();
        let mut out: Vec<Span> = Vec::new();
        let mut i: usize = 0;
        while i < n
            invariant
                i <= n,
                self.spans@ == olds,
                out@.len() == i,
                forall|j: int|
                    0 <= j < i ==> #[trigger] out@[j] == spec_update_span(
                        olds[j],
                        *delta,
                        drift,
                        after,
                    ),
                forall|j: int| 0 <= j < i ==> (#[trigger] out@[j]).wf(),
            decreases n - i,
        {
            let s = &self.spans[i];
            let (start_after, end_after) = match drift {
                InsertDrift::Inside => (false, true),
                InsertDrift::Outside => (true, false),
                InsertDrift::Default => (after, after),
            };
            let new_start = delta.transform(s.start, start_after);
            let new_end = delta.transform(s.end, end_after);
            let (lo, hi) = if new_start <= new_end {
                (new_start, new_end)
            } else {
                (new_end, new_end)
            };
            out.push(Span { start: lo, end: hi, ..self.spans[i].duplicate() });
            i = i + 1;
        }
        self.spans = out;
    }
}

/// One span re-indexed through a delta: both endpoints are transformed,
/// and a span whose transformed start would pass its end collapses to a
/// point at the end.
pub open spec fn spec_update_span(s: Span, d: TextDelta, drift: InsertDrift, after: bool) -> Span {
    let start_after = match drift {
        InsertDrift::Inside => false,
        InsertDrift::Outside => true,
        InsertDrift::Default => after,
    };
    let end_after = match drift {
        InsertDrift::Inside => true,
        InsertDrift::Outside => false,
        InsertDrift::Default => after,
    };
    let ns = spec_transform(d, s.start as int, start_after);
    let ne = spec_transform(d, s.end as int, end_after);
    if ns <= ne {
        Span { start: ns as usize, end: ne as usize, ..s }
    } else {
        Span { start: ne as usize, end: ne as usize, ..s }
    }
}

/// Filtering keeps well-formedness of every retained span.
proof fn lemma_filter_keeps_wf(s: Seq<Span>, pred: spec_fn(Span) -> bool)
    requires
        forall|i: int| 0 <= i < s.len() ==> (#[trigger] s[i]).wf(),
    ensures
        forall|j: int| 0 <= j < s.filter(pred).len() ==> (#[trigger] s.filter(pred)[j]).wf(),
    decreases s.len(),
{
    broadcast use vstd::seq::group_seq_axioms;

    reveal(Seq::filter);
    if s.len() > 0 {
        let d = s.drop_last();
        assert(forall|i: int| 0 <= i < d.len() ==> (#[trigger] d[i]).wf());
        lemma_filter_keeps_wf(d, pred);
        let f = s.filter(pred);
        let fd = d.filter(pred);
        assert forall|j: int| 0 <= j < f.len() implies (#[trigger] f[j]).wf() by {
            if pred(s.last()) {
                assert(f == fd.push(s.last()));
                if j < fd.len() {
                    assert(f[j] == fd[j]);
                } else {
                    assert(f[j] == s.last());
                    assert(s.last() == s[s.len() - 1]);
                }
            } else {
                assert(f == fd);
                assert(f[j] == fd[j]);
            }
        }
    }
}

/// A delta for "insert the empty string" leaves every span's range
/// bit-for-bit unchanged, whatever the drift and edge choices.
pub proof fn lemma_update_noop(s: Span, d: TextDelta, drift: InsertDrift, after: bool)
    requires
        s.wf(),
        d.deleted == 0,
        d.inserted == 0,
    ensures
        spec_update_span(s, d, drift, after) == s,
{
    crate::delta::lemma_noop_delta_is_identity(d, s.start as int, true);
    crate::delta::lemma_noop_delta_is_identity(d, s.start as int, false);
    crate::delta::lemma_noop_delta_is_identity(d, s.end as int, true);
    crate::delta::lemma_noop_delta_is_identity(d, s.end as int, false);
}



} // verus!
