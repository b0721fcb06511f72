//! An interval tree: an augmented, height-balanced binary search tree
//! keyed by interval start, each node caching the maximum interval end in
//! its subtree. Insertion rebalances with single and double rotations;
//! overlap queries prune subtrees through the cached maxima.
//!
//! The verified invariants are exactly the structure's advertised ones:
//! the tree is ordered by interval start, every node's `max` equals the
//! greatest end bound in its subtree, and the heights of the two children
//! of every node differ by at most one after every insertion and
//! rotation.

use vstd::prelude::*;
use vstd::math::max;
use vstd::multiset::Multiset;

verus! {

/// A half-open interval `[start, end)` with `start <= end`.
#[derive(Debug, Clone, Copy, PartialEq, Eq, Structural)]
pub struct Interval {
    pub start: usize,
    pub end: usize,
}

/// Error for an interval whose end precedes its start.
#[derive(Debug, Clone, Copy, PartialEq, Eq, Structural)]
pub enum IntervalError {
    InvalidRange,
}

impl Interval {
    /// The interval is well formed: `start <= end`.
    pub open spec fn wf(self) -> bool {
        self.start <= self.end
    }

    /// Construct an interval; `InvalidRange` if `end < start`.
    pub fn new(start: usize, end: usize) -> (r: Result<Interval, IntervalError>)
        ensures
            start <= end ==> r == Ok::<Interval, IntervalError>(Interval { start, end }),
            start > end ==> r == Err::<Interval, IntervalError>(IntervalError::InvalidRange),
    {
        if start <= end {
            Ok(Interval { start, end })
        } else {
            Err(IntervalError::InvalidRange)
        }
    }

    /// Whether this interval contains the whole of `other`.
    pub fn contains(&self, other: &Interval) -> (r: bool)
        ensures
            r == (self.start <= other.start && other.end <= self.end),
    {
        self.start <= other.start && other.end <= self.end
    }
}

/// Two intervals intersect when both are non-empty and each starts before
/// the other ends. A zero-width interval intersects nothing.
pub open spec fn spec_intersect(a: Interval, b: Interval) -> bool {
    a.start < a.end && b.start < b.end && a.end > b.start && a.start < b.end
}

/// Exec mirror of `spec_intersect`.
pub fn intersect(a: &Interval, b: &Interval) -> (r: bool)
    ensures
        r == spec_intersect(*a, *b),
{
    a.start < a.end && b.start < b.end && a.end > b.start && a.start < b.end
}

pub(crate) struct Node<D> {
    pub(crate) interval: Interval,
    pub(crate) value: D,
    pub(crate) max: usize,
    pub(crate) height: usize,
    pub(crate) left: Option<Box<Node<D>>>,
    pub(crate) right: Option<Box<Node<D>>>,
}

/// An interval tree associating intervals with data values.
pub struct IntervalTree<D> {
    root: Option<Box<Node<D>>>,
}

/// In-order entries of a subtree.
pub(crate) open spec fn opt_entries<D>(n: Option<Box<Node<D>>>) -> Seq<(Interval, D)>
    decreases n,
{
    match n {
        None => Seq::empty(),
        Some(b) => opt_entries(b.left) + seq![(b.interval, b.value)] + opt_entries(b.right),
    }
}

/// Height of a subtree.
pub(crate) open spec fn opt_height<D>(n: Option<Box<Node<D>>>) -> nat
    decreases n,
{
    match n {
        None => 0,
        Some(b) => (1 + max(opt_height(b.left) as int, opt_height(b.right) as int)) as nat,
    }
}

/// Every interval start in `s` is at most `x`.
pub(crate) open spec fn starts_leq<D>(s: Seq<(Interval, D)>, x: int) -> bool {
    forall|i: int| 0 <= i < s.len() ==> #[trigger] s[i].0.start <= x
}

/// Every interval start in `s` is at least `x`.
pub(crate) open spec fn starts_geq<D>(s: Seq<(Interval, D)>, x: int) -> bool {
    forall|i: int| 0 <= i < s.len() ==> #[trigger] s[i].0.start >= x
}

/// Every interval end in `s` is at most `m`.
pub(crate) open spec fn ends_leq<D>(s: Seq<(Interval, D)>, m: int) -> bool {
    forall|i: int| 0 <= i < s.len() ==> #[trigger] s[i].0.end <= m
}

/// Some interval end in `s` equals `m`.
pub(crate) open spec fn has_end<D>(s: Seq<(Interval, D)>, m: int) -> bool {
    exists|i: int| 0 <= i < s.len() && #[trigger] s[i].0.end == m
}

impl<D> Node<D> {
    /// The entries of this node's subtree, in traversal order.
    pub(crate) open spec fn entries(self) -> Seq<(Interval, D)> {
        opt_entries(self.left) + seq![(self.interval, self.value)] + opt_entries(self.right)
    }
}

/// Interval-start ordering at one node: left entries start at or before
/// this node's interval, right entries at or after it.
pub(crate) open spec fn ordered_at<D>(x: Node<D>) -> bool
    decreases x,
{
    &&& x.interval.wf()
    &&& starts_leq(opt_entries(x.left), x.interval.start as int)
    &&& starts_geq(opt_entries(x.right), x.interval.start as int)
    &&& ordered(x.left)
    &&& ordered(x.right)
}

pub(crate) open spec fn ordered<D>(n: Option<Box<Node<D>>>) -> bool
    decreases n,
{
    match n {
        None => true,
        Some(b) => ordered_at(*b),
    }
}

/// The cached `max` of one node bounds and realizes the interval ends of
/// its whole subtree.
pub(crate) open spec fn maxes_at<D>(x: Node<D>) -> bool
    decreases x,
{
    &&& ends_leq(x.entries(), x.max as int)
    &&& has_end(x.entries(), x.max as int)
    &&& maxes_ok(x.left)
    &&& maxes_ok(x.right)
}

pub(crate) open spec fn maxes_ok<D>(n: Option<Box<Node<D>>>) -> bool
    decreases n,
{
    match n {
        None => true,
        Some(b) => maxes_at(*b),
    }
}

/// The stored height of one node is one more than its taller child's.
pub(crate) open spec fn heights_at<D>(x: Node<D>) -> bool
    decreases x,
{
    &&& x.height == 1 + max(opt_height(x.left) as int, opt_height(x.right) as int)
    &&& heights_ok(x.left)
    &&& heights_ok(x.right)
}

pub(crate) open spec fn heights_ok<D>(n: Option<Box<Node<D>>>) -> bool
    decreases n,
{
    match n {
        None => true,
        Some(b) => heights_at(*b),
    }
}

/// The two children of every node differ in height by at most one.
pub(crate) open spec fn balanced_at<D>(x: Node<D>) -> bool
    decreases x,
{
    &&& opt_height(x.left) <= opt_height(x.right) + 1
    &&& opt_height(x.right) <= opt_height(x.left) + 1
    &&& balanced(x.left)
    &&& balanced(x.right)
}

pub(crate) open spec fn balanced<D>(n: Option<Box<Node<D>>>) -> bool
    decreases n,
{
    match n {
        None => true,
        Some(b) => balanced_at(*b),
    }
}

/// All four invariants of a subtree.
pub(crate) open spec fn opt_wf<D>(n: Option<Box<Node<D>>>) -> bool {
    ordered(n) && maxes_ok(n) && heights_ok(n) && balanced(n)
}

/// A subtree's height never exceeds its number of entries.
pub(crate) proof fn lemma_height_le_len<D>(n: Option<Box<Node<D>>>)
    ensures
        opt_height(n) <= opt_entries(n).len(),
    decreases n,
{
    broadcast use vstd::seq::group_seq_axioms;

    match n {
        None => {},
        Some(b) => {
            lemma_height_le_len(b.left);
            lemma_height_le_len(b.right);
        },
    }
}

impl<D> IntervalTree<D> {
    /// The stored entries, in traversal order.
    pub closed spec fn entries(self) -> Seq<(Interval, D)> {
        opt_entries(self.root)
    }

    /// The tree's invariants hold.
    pub closed spec fn wf(self) -> bool {
        opt_wf(self.root)
    }

    /// Create a new empty tree.
    pub fn new() -> (r: Self)
        ensures
            r.wf(),
            r.entries() == Seq::<(Interval, D)>::empty(),
    {
        proof {
            assert(opt_entries(None::<Box<Node<D>>>) == Seq::<(Interval, D)>::empty());
        }
        IntervalTree { root: None }
    }

    /// Insert `interval` with associated `data`: the entry lands in start
    /// order and everything already stored is kept.
    pub fn insert(&mut self, interval: Interval, data: D)
        requires
            old(self).wf(),
            interval.wf(),
            old(self).entries().len() + 8 <= usize::MAX,
        ensures
            final(self).wf(),
            final(self).entries().to_multiset() == old(self).entries().to_multiset().insert(
                (interval, data),
            ),
            final(self).entries().len() == old(self).entries().len() + 1,
    {
        let ghost olds = opt_entries(self.root);
        insert_opt(&mut self.root, interval, data);
        proof {
            let news = opt_entries(self.root);
            let k = choose|k: int|
                0 <= k <= olds.len() && news == olds.subrange(0, k) + seq![(interval, data)]
                    + olds.subrange(k, olds.len() as int);
            lemma_insert_multiset(olds, news, (interval, data), k);
        }
    }
}

/// The empty sequence's multiset view is the empty multiset.
pub(crate) proof fn lemma_empty_to_multiset<A>()
    ensures
        Seq::<A>::empty().to_multiset() == Multiset::<A>::empty(),
{
    Seq::<A>::empty().to_multiset_ensures();
    assert forall|a: A| #[trigger] Seq::<A>::empty().to_multiset().count(a) == 0 by {
        assert(!Seq::<A>::empty().contains(a));
    }
    assert(Seq::<A>::empty().to_multiset() =~= Multiset::<A>::empty());
}

/// A sequence formed by inserting one element into another sequence has
/// that sequence's multiset plus the element.
pub(crate) proof fn lemma_insert_multiset<T>(olds: Seq<T>, news: Seq<T>, e: T, k: int)
    requires
        0 <= k <= olds.len(),
        news == olds.subrange(0, k) + seq![e] + olds.subrange(k, olds.len() as int),
    ensures
        news.to_multiset() == olds.to_multiset().insert(e),
        news.len() == olds.len() + 1,
{
    broadcast use vstd::seq_lib::group_seq_lib_default, vstd::seq::group_seq_axioms;

    let a = olds.subrange(0, k);
    let b = olds.subrange(k, olds.len() as int);
    vstd::seq_lib::lemma_multiset_commutative(a + seq![e], b);
    vstd::seq_lib::lemma_multiset_commutative(a, seq![e]);
    vstd::seq_lib::lemma_multiset_commutative(a, b);
    assert(a + b == olds);
    assert(seq![e].to_multiset() == Multiset::<T>::empty().insert(e)) by {
        lemma_empty_to_multiset::<T>();
        Seq::<T>::empty().to_multiset_ensures();
        assert(Seq::<T>::empty().push(e) =~= seq![e]);
    }
    assert(news.to_multiset() =~= olds.to_multiset().insert(e));
}

/// Inserting an element whose start respects a bound keeps the bound.
proof fn lemma_starts_leq_insert<D>(
    olds: Seq<(Interval, D)>,
    news: Seq<(Interval, D)>,
    e: (Interval, D),
    k: int,
    x: int,
)
    requires
        0 <= k <= olds.len(),
        news == olds.subrange(0, k) + seq![e] + olds.subrange(k, olds.len() as int),
        starts_leq(olds, x),
        e.0.start <= x,
    ensures
        starts_leq(news, x),
{
    broadcast use vstd::seq::group_seq_axioms;

    assert forall|i: int| 0 <= i < news.len() implies #[trigger] news[i].0.start <= x by {
        if i < k {
            assert(news[i] == olds[i]);
        } else if i == k {
            assert(news[i] == e);
        } else {
            assert(news[i] == olds[i - 1]);
        }
    }
}

proof fn lemma_starts_geq_insert<D>(
    olds: Seq<(Interval, D)>,
    news: Seq<(Interval, D)>,
    e: (Interval, D),
    k: int,
    x: int,
)
    requires
        0 <= k <= olds.len(),
        news == olds.subrange(0, k) + seq![e] + olds.subrange(k, olds.len() as int),
        starts_geq(olds, x),
        e.0.start >= x,
    ensures
        starts_geq(news, x),
{
    broadcast use vstd::seq::group_seq_axioms;

    assert forall|i: int| 0 <= i < news.len() implies #[trigger] news[i].0.start >= x by {
        if i < k {
            assert(news[i] == olds[i]);
        } else if i == k {
            assert(news[i] == e);
        } else {
            assert(news[i] == olds[i - 1]);
        }
    }
}

/// Insert into a subtree: the new entry lands at some position in the
/// in-order entry sequence; the subtree stays well formed and grows in
/// height by at most one.
fn insert_opt<D>(node: &mut Option<Box<Node<D>>>, interval: Interval, data: D)
    requires
        opt_wf(*old(node)),
        interval.wf(),
        opt_entries(*old(node)).len() + 8 <= usize::MAX,
    ensures
        opt_wf(*final(node)),
        exists|k: int|
            0 <= k <= opt_entries(*old(node)).len() && opt_entries(*final(node)) == opt_entries(
                *old(node),
            ).subrange(0, k) + seq![(interval, data)] + opt_entries(*old(node)).subrange(
                k,
                opt_entries(*old(node)).len() as int,
            ),
        opt_height(*old(node)) <= opt_height(*final(node)) <= opt_height(*old(node)) + 1,
    decreases *old(node),
{
    broadcast use vstd::seq::group_seq_axioms;

    match node.take() {
        None => {
            *node = Some(
                Box::new(
                    Node {
                        interval,
                        value: data,
                        max: interval.end,
                        height: 1,
                        left: None,
                        right: None,
                    },
                ),
            );
            proof {
                let olds = opt_entries(None::<Box<Node<D>>>);
                let news = opt_entries(*node);
                assert(news =~= olds.subrange(0, 0) + seq![(interval, data)] + olds.subrange(0, 0));
                assert(news =~= seq![(interval, data)]);
                assert(news[0] == (interval, data));
                assert(news[0].0.end == interval.end);
                assert(has_end(news, interval.end as int));
                assert(ends_leq(news, interval.end as int));
                assert(starts_leq(Seq::<(Interval, D)>::empty(), interval.start as int));
                assert(starts_geq(Seq::<(Interval, D)>::empty(), interval.start as int));
            }
        },
        Some(mut boxed) => {
            let ghost oldn = *boxed;
            proof {
                lemma_height_le_len(oldn.left);
                lemma_height_le_len(oldn.right);
            }
            if interval.start <= boxed.interval.start {
                let ghost oldl = boxed.left;
                insert_opt(&mut boxed.left, interval, data);
                proof {
                    let k = choose|k: int|
                        0 <= k <= opt_entries(oldl).len() && opt_entries(boxed.left) == opt_entries(
                            oldl,
                        ).subrange(0, k) + seq![(interval, data)] + opt_entries(oldl).subrange(
                            k,
                            opt_entries(oldl).len() as int,
                        );
                    lemma_entries_insert_left(oldn, *boxed, interval, data, k);
                    lemma_starts_leq_insert(
                        opt_entries(oldl),
                        opt_entries(boxed.left),
                        (interval, data),
                        k,
                        oldn.interval.start as int,
                    );
                    lemma_height_le_len(boxed.left);
                    assert(opt_entries(boxed.left).len() == opt_entries(oldl).len() + 1);
                }
                let ghost prerepair = *boxed;
                repair(&mut boxed);
                proof {
                    lemma_entries_same_insertion(
                        opt_entries(oldl) + seq![(oldn.interval, oldn.value)] + opt_entries(
                            oldn.right,
                        ),
                        prerepair.entries(),
                        boxed.entries(),
                        (interval, data),
                    );
                }
                *node = Some(boxed);
                proof {
                    let lh = opt_height(oldn.left) as int;
                    let rh = opt_height(oldn.right) as int;
                    let lh2 = opt_height(prerepair.left) as int;
                    let rh2 = opt_height(prerepair.right) as int;
                    assert(rh2 == rh);
                    assert(lh <= lh2 <= lh + 1);
                    if lh2 <= rh2 + 1 && rh2 <= lh2 + 1 {
                        assert(opt_height(*node) == 1 + max(lh2, rh2));
                    } else {
                        assert(lh2 == rh2 + 2);
                        assert(max(lh2, rh2) == max(lh, rh) + 1);
                    }
                }
            } else {
                let ghost oldr = boxed.right;
                insert_opt(&mut boxed.right, interval, data);
                proof {
                    let k = choose|k: int|
                        0 <= k <= opt_entries(oldr).len() && opt_entries(boxed.right)
                            == opt_entries(oldr).subrange(0, k) + seq![(interval, data)]
                            + opt_entries(oldr).subrange(k, opt_entries(oldr).len() as int);
                    lemma_entries_insert_right(oldn, *boxed, interval, data, k);
                    lemma_starts_geq_insert(
                        opt_entries(oldr),
                        opt_entries(boxed.right),
                        (interval, data),
                        k,
                        oldn.interval.start as int,
                    );
                    lemma_height_le_len(boxed.right);
                    assert(opt_entries(boxed.right).len() == opt_entries(oldr).len() + 1);
                }
                let ghost prerepair = *boxed;
                repair(&mut boxed);
                proof {
                    lemma_entries_same_insertion(
                        opt_entries(oldn.left) + seq![(oldn.interval, oldn.value)] + opt_entries(
                            oldr,
                        ),
                        prerepair.entries(),
                        boxed.entries(),
                        (interval, data),
                    );
                }
                *node = Some(boxed);
                proof {
                    let lh = opt_height(oldn.left) as int;
                    let rh = opt_height(oldn.right) as int;
                    let lh2 = opt_height(prerepair.left) as int;
                    let rh2 = opt_height(prerepair.right) as int;
                    assert(lh2 == lh);
                    assert(rh <= rh2 <= rh + 1);
                    if lh2 <= rh2 + 1 && rh2 <= lh2 + 1 {
                        assert(opt_height(*node) == 1 + max(lh2, rh2));
                    } else {
                        assert(rh2 == lh2 + 2);
                        assert(max(lh2, rh2) == max(lh, rh) + 1);
                    }
                }
            }
        },
    }
}

/// If two equal entry sequences both arise by insertion into the same
/// original, an insertion witness carries over.
proof fn lemma_entries_same_insertion<D>(
    olds: Seq<(Interval, D)>,
    mids: Seq<(Interval, D)>,
    news: Seq<(Interval, D)>,
    e: (Interval, D),
)
    requires
        mids == news,
        exists|k: int|
            0 <= k <= olds.len() && mids == olds.subrange(0, k) + seq![e] + olds.subrange(
                k,
                olds.len() as int,
            ),
    ensures
        exists|k: int|
            0 <= k <= olds.len() && news == olds.subrange(0, k) + seq![e] + olds.subrange(
                k,
                olds.len() as int,
            ),
{
}

/// Entry-sequence algebra for an insertion into the left child.
proof fn lemma_entries_insert_left<D>(
    oldn: Node<D>,
    newn: Node<D>,
    interval: Interval,
    data: D,
    k: int,
)
    requires
        0 <= k <= opt_entries(oldn.left).len(),
        opt_entries(newn.left) == opt_entries(oldn.left).subrange(0, k) + seq![(interval, data)]
            + opt_entries(oldn.left).subrange(k, opt_entries(oldn.left).len() as int),
        newn.interval == oldn.interval,
        newn.value == oldn.value,
        newn.right == oldn.right,
    ensures
        newn.entries() == oldn.entries().subrange(0, k) + seq![(interval, data)]
            + oldn.entries().subrange(k, oldn.entries().len() as int),
{
    broadcast use vstd::seq::group_seq_axioms;

    let l = opt_entries(oldn.left);
    let rest = seq![(oldn.interval, oldn.value)] + opt_entries(oldn.right);
    assert(oldn.entries() =~= l + rest);
    assert(oldn.entries().subrange(0, k) =~= l.subrange(0, k));
    assert(oldn.entries().subrange(k, oldn.entries().len() as int) =~= l.subrange(k, l.len() as int)
        + rest);
    assert(newn.entries() =~= opt_entries(newn.left) + rest);
    assert(newn.entries() =~= oldn.entries().subrange(0, k) + seq![(interval, data)]
        + oldn.entries().subrange(k, oldn.entries().len() as int));
}

/// Entry-sequence algebra for an insertion into the right child.
proof fn lemma_entries_insert_right<D>(
    oldn: Node<D>,
    newn: Node<D>,
    interval: Interval,
    data: D,
    k: int,
)
    requires
        0 <= k <= opt_entries(oldn.right).len(),
        opt_entries(newn.right) == opt_entries(oldn.right).subrange(0, k) + seq![(interval, data)]
            + opt_entries(oldn.right).subrange(k, opt_entries(oldn.right).len() as int),
        newn.interval == oldn.interval,
        newn.value == oldn.value,
        newn.left == oldn.left,
    ensures
        newn.entries() == oldn.entries().subrange(0, k + opt_entries(oldn.left).len() + 1) + seq![
            (interval, data),
        ] + oldn.entries().subrange(
            k + opt_entries(oldn.left).len() + 1,
            oldn.entries().len() as int,
        ),
        0 <= k + opt_entries(oldn.left).len() + 1 <= oldn.entries().len(),
{
    broadcast use vstd::seq::group_seq_axioms;

    let l = opt_entries(oldn.left);
    let m = seq![(oldn.interval, oldn.value)];
    let r = opt_entries(oldn.right);
    let kk = k + l.len() + 1;
    assert(oldn.entries() =~= l + m + r);
    assert(oldn.entries().subrange(0, kk) =~= l + m + r.subrange(0, k));
    assert(oldn.entries().subrange(kk, oldn.entries().len() as int) =~= r.subrange(
        k,
        r.len() as int,
    ));
    assert(newn.entries() =~= oldn.entries().subrange(0, kk) + seq![(interval, data)]
        + oldn.entries().subrange(kk, oldn.entries().len() as int));
}

/// Recompute the stored height of `n` from its children.
fn update_height<D>(n: &mut Node<D>)
    requires
        heights_ok(old(n).left),
        heights_ok(old(n).right),
        opt_height(old(n).left) < usize::MAX,
        opt_height(old(n).right) < usize::MAX,
    ensures
        final(n).interval == old(n).interval,
        final(n).value == old(n).value,
        final(n).max == old(n).max,
        final(n).left == old(n).left,
        final(n).right == old(n).right,
        final(n).height == 1 + max(opt_height(final(n).left) as int, opt_height(final(n).right) as int),
{
    let lh = match &n.left {
        Some(l) => l.height,
        None => 0,
    };
    let rh = match &n.right {
        Some(r) => r.height,
        None => 0,
    };
    n.height = 1 + (if lh >= rh {
        lh
    } else {
        rh
    });
}

/// Recompute the cached maximum end of `n` from its own interval and its
/// children's cached maxima.
fn update_max<D>(n: &mut Node<D>)
    requires
        maxes_ok(old(n).left),
        maxes_ok(old(n).right),
    ensures
        final(n).interval == old(n).interval,
        final(n).value == old(n).value,
        final(n).height == old(n).height,
        final(n).left == old(n).left,
        final(n).right == old(n).right,
        ends_leq(final(n).entries(), final(n).max as int),
        has_end(final(n).entries(), final(n).max as int),
{
    proof {
        lemma_max_fields(*n);
    }
    let mut m = n.interval.end;
    match &n.left {
        Some(l) => {
            if m < l.max {
                m = l.max;
            }
        },
        None => {},
    }
    match &n.right {
        Some(r) => {
            if m < r.max {
                m = r.max;
            }
        },
        None => {},
    }
    n.max = m;
    proof {
        lemma_max_correct(*n, m as int);
    }
}

/// The children's cached maxima bound and realize their entries' ends.
proof fn lemma_max_fields<D>(n: Node<D>)
    requires
        maxes_ok(n.left),
        maxes_ok(n.right),
    ensures
        match n.left {
            Some(l) => ends_leq(opt_entries(n.left), l.max as int) && has_end(
                opt_entries(n.left),
                l.max as int,
            ),
            None => opt_entries(n.left).len() == 0,
        },
        match n.right {
            Some(r) => ends_leq(opt_entries(n.right), r.max as int) && has_end(
                opt_entries(n.right),
                r.max as int,
            ),
            None => opt_entries(n.right).len() == 0,
        },
{
    broadcast use vstd::seq::group_seq_axioms;

    match n.left {
        Some(l) => {
            assert(opt_entries(n.left) == l.entries());
        },
        None => {},
    }
    match n.right {
        Some(r) => {
            assert(opt_entries(n.right) == r.entries());
        },
        None => {},
    }
}

/// If `m` is the largest among the node's own end and the children's
/// maxima, it bounds and realizes the ends of the whole entry sequence.
proof fn lemma_max_correct<D>(n: Node<D>, m: int)
    requires
        maxes_ok(n.left),
        maxes_ok(n.right),
        n.interval.end <= m,
        match n.left {
            Some(l) => l.max <= m,
            None => true,
        },
        match n.right {
            Some(r) => r.max <= m,
            None => true,
        },
        m == n.interval.end || (match n.left {
            Some(l) => l.max == m,
            None => false,
        }) || (match n.right {
            Some(r) => r.max == m,
            None => false,
        }),
    ensures
        ends_leq(n.entries(), m),
        has_end(n.entries(), m),
{
    broadcast use vstd::seq::group_seq_axioms;

    lemma_max_fields(n);
    let l = opt_entries(n.left);
    let r = opt_entries(n.right);
    let e = n.entries();
    assert forall|i: int| 0 <= i < e.len() implies #[trigger] e[i].0.end <= m by {
        if i < l.len() {
            assert(e[i] == l[i]);
        } else if i == l.len() {
            assert(e[i] == (n.interval, n.value));
        } else {
            assert(e[i] == r[i - l.len() - 1]);
        }
    }
    if m == n.interval.end {
        assert(e[l.len() as int].0.end == m);
        assert(has_end(e, m));
    } else {
        let in_left = match n.left {
            Some(lb) => lb.max == m,
            None => false,
        };
        if in_left {
            let i = choose|i: int| 0 <= i < l.len() && #[trigger] l[i].0.end == m;
            assert(e[i] == l[i]);
            assert(has_end(e, m));
        } else {
            let i = choose|i: int| 0 <= i < r.len() && #[trigger] r[i].0.end == m;
            assert(e[l.len() + 1 + i] == r[i]);
            assert(has_end(e, m));
        }
    }
}

/// Restore the balance invariant at `n` after an insertion may have
/// tilted it by one step: recompute the cached height and max, rotating
/// when the children's heights differ by two.
fn repair<D>(n: &mut Box<Node<D>>)
    requires
        opt_wf(old(n).left),
        opt_wf(old(n).right),
        old(n).interval.wf(),
        starts_leq(opt_entries(old(n).left), old(n).interval.start as int),
        starts_geq(opt_entries(old(n).right), old(n).interval.start as int),
        opt_height(old(n).left) <= opt_height(old(n).right) + 2,
        opt_height(old(n).right) <= opt_height(old(n).left) + 2,
        opt_height(old(n).left) + 6 < usize::MAX,
        opt_height(old(n).right) + 6 < usize::MAX,
    ensures
        ordered_at(**final(n)),
        maxes_at(**final(n)),
        heights_at(**final(n)),
        balanced_at(**final(n)),
        final(n).entries() == old(n).entries(),
        opt_height(Some(*final(n))) <= 1 + max(
            opt_height(old(n).left) as int,
            opt_height(old(n).right) as int,
        ),
        opt_height(Some(*final(n))) >= max(
            opt_height(old(n).left) as int,
            opt_height(old(n).right) as int,
        ),
        (opt_height(old(n).left) <= opt_height(old(n).right) + 1 && opt_height(old(n).right)
            <= opt_height(old(n).left) + 1) ==> opt_height(Some(*final(n))) == 1 + max(
            opt_height(old(n).left) as int,
            opt_height(old(n).right) as int,
        ),
{
    let lh = match &n.left {
        Some(l) => l.height,
        None => 0,
    };
    let rh = match &n.right {
        Some(r) => r.height,
        None => 0,
    };
    proof {
        assert(lh == opt_height(n.left));
        assert(rh == opt_height(n.right));
    }
    if lh <= rh + 1 && rh <= lh + 1 {
        update_height(n);
        update_max(n);
        proof {
            assert(opt_height(Some(*n)) == 1 + max(
                opt_height(n.left) as int,
                opt_height(n.right) as int,
            ));
        }
    } else if rh > lh {
        rebalance_right_heavy(n);
    } else {
        rebalance_left_heavy(n);
    }
}

/// The right child is two levels taller: restore balance with a left
/// rotation, preceded by a right rotation of the right child when that
/// child leans left.
#[verifier::rlimit(50)]
#[verifier::spinoff_prover]
fn rebalance_right_heavy<D>(n: &mut Box<Node<D>>)
    requires
        opt_wf(old(n).left),
        opt_wf(old(n).right),
        old(n).interval.wf(),
        starts_leq(opt_entries(old(n).left), old(n).interval.start as int),
        starts_geq(opt_entries(old(n).right), old(n).interval.start as int),
        opt_height(old(n).right) == opt_height(old(n).left) + 2,
        opt_height(old(n).right) + 6 < usize::MAX,
    ensures
        ordered_at(**final(n)),
        maxes_at(**final(n)),
        heights_at(**final(n)),
        balanced_at(**final(n)),
        final(n).entries() == old(n).entries(),
        opt_height(Some(*final(n))) == opt_height(old(n).right) || opt_height(Some(*final(n)))
            == opt_height(old(n).right) + 1,
{
    let ghost lh = opt_height(old(n).left) as int;
    let ghost rh = opt_height(old(n).right) as int;
    let mut r = n.right.take().unwrap();
    proof {
        assert(heights_at(*r));
        assert(balanced_at(*r));
        assert(1 + max(opt_height(r.left) as int, opt_height(r.right) as int) == rh);
    }
    let rlh = match &r.left {
        Some(x) => x.height,
        None => 0,
    };
    let rrh = match &r.right {
        Some(x) => x.height,
        None => 0,
    };
    proof {
        if r.left is Some {
            assert(heights_at(*r.left.unwrap()));
        }
        if r.right is Some {
            assert(heights_at(*r.right.unwrap()));
        }
        assert(rlh == opt_height(r.left));
        assert(rrh == opt_height(r.right));
    }
    let ghost r0 = *r;
    let ghost inner = rlh > rrh;
    if rlh > rrh {
        proof {
            assert(r0.left is Some);
            assert(balanced_at(*r0.left.unwrap()));
            assert(heights_at(*r0.left.unwrap()));
        }
        rotate_right(&mut r);
        proof {
            assert(r.entries() == r0.entries());
        }
    }
    let ghost r_pre = *r;
    n.right = Some(r);
    proof {
        assert(n.entries() =~= old(n).entries());
    }
    rotate_left(n);
    proof {
        let nl = *n.left.unwrap();
        assert(nl.right == r_pre.left);
        assert(n.right == r_pre.right);
        assert(balanced(nl.left));
        if inner {
            let rl = *r0.left.unwrap();
            let p0 = opt_height(rl.left) as int;
            let q0 = opt_height(rl.right) as int;
            assert(1 + max(p0, q0) == rlh);
            assert(rlh == lh + 1);
            assert(rrh == lh);
            assert(r_pre.left == rl.left);
            let nr = *r_pre.right.unwrap();
            assert(nr.left == rl.right);
            assert(nr.right == r0.right);
            assert(balanced(nr.left));
            assert(balanced(nr.right));
            assert(balanced_at(nr));
            assert(balanced(nl.right));
            assert(balanced_at(nl));
            assert(balanced(n.right));
            assert(balanced_at(**n));
        } else {
            assert(r_pre == r0);
            assert(balanced(nl.right));
            assert(rrh == lh + 1);
            assert(lh <= rlh <= lh + 1);
            assert(balanced_at(nl));
            assert(balanced(n.right));
            assert(balanced_at(**n));
        }
        assert(opt_height(Some(*n)) == 1 + max(
            opt_height(n.left) as int,
            opt_height(n.right) as int,
        ));
    }
}

/// The left child is two levels taller: restore balance with a right
/// rotation, preceded by a left rotation of the left child when that
/// child leans right.
#[verifier::rlimit(50)]
#[verifier::spinoff_prover]
fn rebalance_left_heavy<D>(n: &mut Box<Node<D>>)
    requires
        opt_wf(old(n).left),
        opt_wf(old(n).right),
        old(n).interval.wf(),
        starts_leq(opt_entries(old(n).left), old(n).interval.start as int),
        starts_geq(opt_entries(old(n).right), old(n).interval.start as int),
        opt_height(old(n).left) == opt_height(old(n).right) + 2,
        opt_height(old(n).left) + 6 < usize::MAX,
    ensures
        ordered_at(**final(n)),
        maxes_at(**final(n)),
        heights_at(**final(n)),
        balanced_at(**final(n)),
        final(n).entries() == old(n).entries(),
        opt_height(Some(*final(n))) == opt_height(old(n).left) || opt_height(Some(*final(n)))
            == opt_height(old(n).left) + 1,
{
    let ghost lh = opt_height(old(n).left) as int;
    let ghost rh = opt_height(old(n).right) as int;
    let mut l = n.left.take().unwrap();
    proof {
        assert(heights_at(*l));
        assert(balanced_at(*l));
        assert(1 + max(opt_height(l.left) as int, opt_height(l.right) as int) == lh);
    }
    let llh = match &l.left {
        Some(x) => x.height,
        None => 0,
    };
    let lrh = match &l.right {
        Some(x) => x.height,
        None => 0,
    };
    proof {
        if l.left is Some {
            assert(heights_at(*l.left.unwrap()));
        }
        if l.right is Some {
            assert(heights_at(*l.right.unwrap()));
        }
        assert(llh == opt_height(l.left));
        assert(lrh == opt_height(l.right));
    }
    let ghost l0 = *l;
    let ghost inner = lrh > llh;
    if lrh > llh {
        proof {
            assert(l0.right is Some);
            assert(balanced_at(*l0.right.unwrap()));
            assert(heights_at(*l0.right.unwrap()));
        }
        rotate_left(&mut l);
        proof {
            assert(l.entries() == l0.entries());
        }
    }
    let ghost l_pre = *l;
    n.left = Some(l);
    proof {
        assert(n.entries() =~= old(n).entries());
    }
    rotate_right(n);
    proof {
        let nr = *n.right.unwrap();
        assert(nr.left == l_pre.right);
        assert(n.left == l_pre.left);
        assert(balanced(nr.right));
        if inner {
            let lr = *l0.right.unwrap();
            let p0 = opt_height(lr.left) as int;
            let q0 = opt_height(lr.right) as int;
            assert(1 + max(p0, q0) == lrh);
            assert(lrh == rh + 1);
            assert(llh == rh);
            assert(l_pre.right == lr.right);
            let nl = *l_pre.left.unwrap();
            assert(nl.right == lr.left);
            assert(nl.left == l0.left);
            assert(balanced(nl.left));
            assert(balanced(nl.right));
            assert(balanced_at(nl));
            assert(balanced(nr.left));
            assert(balanced_at(nr));
            assert(balanced(n.left));
            assert(balanced_at(**n));
        } else {
            assert(l_pre == l0);
            assert(balanced(nr.left));
            assert(llh == rh + 1);
            assert(rh <= lrh <= rh + 1);
            assert(balanced_at(nr));
            assert(balanced(n.left));
            assert(balanced_at(**n));
        }
        assert(opt_height(Some(*n)) == 1 + max(
            opt_height(n.left) as int,
            opt_height(n.right) as int,
        ));
    }
}

/// Left rotation: the right child becomes the subtree's root.
///
/// Entries are preserved; the caller reasons about heights through the
/// exact shape of the result.
#[verifier::spinoff_prover]
fn rotate_left<D>(n: &mut Box<Node<D>>)
    requires
        old(n).right is Some,
        old(n).interval.wf(),
        ordered(old(n).left),
        ordered(old(n).right),
        maxes_ok(old(n).left),
        maxes_ok(old(n).right),
        heights_ok(old(n).left),
        heights_ok(old(n).right),
        starts_leq(opt_entries(old(n).left), old(n).interval.start as int),
        starts_geq(opt_entries(old(n).right), old(n).interval.start as int),
        opt_height(old(n).left) + 2 < usize::MAX,
        opt_height(old(n).right) + 2 < usize::MAX,
    ensures
        ({
            let oldr = old(n).right.unwrap();
            &&& final(n).interval == oldr.interval
            &&& final(n).value == oldr.value
            &&& final(n).left matches Some(nl) && nl.interval == old(n).interval && nl.value == old(
                n,
            ).value && nl.left == old(n).left && nl.right == oldr.left && heights_at(*nl)
                && maxes_at(*nl) && ordered_at(*nl)
            &&& final(n).right == oldr.right
            &&& heights_at(**final(n))
            &&& maxes_at(**final(n))
            &&& ordered_at(**final(n))
            &&& final(n).entries() == old(n).entries()
            &&& opt_height(Some(*final(n))) <= opt_height(Some(*old(n))) + 1
        }),
{
    broadcast use vstd::seq::group_seq_axioms;

    let ghost oldn = **n;
    let mut r = n.right.take().unwrap();
    let t2 = r.left.take();
    let t3 = r.right.take();
    // swap the interval and value between the node and its right child
    core::mem::swap(&mut n.interval, &mut r.interval);
    core::mem::swap(&mut n.value, &mut r.value);
    // after the swap: `n` carries the old right child's data, `r` the
    // old node's; `r` becomes the new left child over the old left
    // subtree and the right child's old left subtree, while the right
    // child's old right subtree hangs off the new root
    let t1 = n.left.take();
    r.left = t1;
    r.right = t2;
    update_height(&mut r);
    update_max(&mut r);
    n.right = t3;
    proof {
        let ghost oldr = oldn.right.unwrap();
        assert(starts_leq(opt_entries(r.left), r.interval.start as int));
        assert(starts_geq(opt_entries(r.right), r.interval.start as int)) by {
            let rl = opt_entries(oldr.left);
            assert forall|i: int| 0 <= i < rl.len() implies #[trigger] rl[i].0.start
                >= r.interval.start by {
                let re = opt_entries(oldn.right);
                assert(re =~= rl + seq![(oldr.interval, oldr.value)] + opt_entries(oldr.right));
                assert(re[i] == rl[i]);
            }
        }
        assert(ordered_at(*r));
    }
    n.left = Some(r);
    update_height(n);
    update_max(n);
    proof {
        let ghost oldr = oldn.right.unwrap();
        let nl = n.left.unwrap();
        // ordering at the new root
        assert(starts_leq(opt_entries(n.left), n.interval.start as int)) by {
            let a = opt_entries(oldn.left);
            let b = seq![(oldn.interval, oldn.value)];
            let c = opt_entries(oldr.left);
            assert(opt_entries(n.left) =~= a + b + c);
            let re = opt_entries(oldn.right);
            assert(re =~= c + seq![(oldr.interval, oldr.value)] + opt_entries(oldr.right));
            assert forall|i: int| 0 <= i < (a + b + c).len() implies #[trigger] (a + b
                + c)[i].0.start <= n.interval.start by {
                assert(re[c.len() as int] == (oldr.interval, oldr.value));
                assert(re[c.len() as int].0.start >= oldn.interval.start);
                if i < a.len() {
                    assert((a + b + c)[i] == a[i]);
                    assert(a[i].0.start <= oldn.interval.start);
                } else if i == a.len() {
                    assert((a + b + c)[i] == (oldn.interval, oldn.value));
                } else {
                    assert((a + b + c)[i] == c[i - a.len() - 1]);
                    assert(c[i - a.len() - 1].0.start <= oldr.interval.start);
                }
            }
        }
        assert(starts_geq(opt_entries(n.right), n.interval.start as int)) by {
            let rr = opt_entries(oldr.right);
            let re = opt_entries(oldn.right);
            let c = opt_entries(oldr.left);
            assert(re =~= c + seq![(oldr.interval, oldr.value)] + rr);
            assert forall|i: int| 0 <= i < rr.len() implies #[trigger] rr[i].0.start
                >= n.interval.start by {
                assert(re[c.len() + 1 + i] == rr[i]);
            }
        }
        assert(ordered_at(*n.left.unwrap()));
        assert(ordered_at(**n));
        assert(heights_at(*n.left.unwrap()));
        assert(heights_at(**n));
        assert(maxes_at(*n.left.unwrap()));
        assert(maxes_at(**n));
        // entries are preserved
        assert(n.entries() =~= oldn.entries()) by {
            let a = opt_entries(oldn.left);
            let b = seq![(oldn.interval, oldn.value)];
            let c = opt_entries(oldr.left);
            let d = seq![(oldr.interval, oldr.value)];
            let e = opt_entries(oldr.right);
            assert(opt_entries(oldn.right) =~= c + d + e);
            assert(oldn.entries() =~= a + b + (c + d + e));
            assert(opt_entries(n.left) =~= (a + b + c));
            assert(n.entries() =~= (a + b + c) + d + e);
        }
    }
}

/// Right rotation: the left child becomes the subtree's root.
#[verifier::spinoff_prover]
fn rotate_right<D>(n: &mut Box<Node<D>>)
    requires
        old(n).left is Some,
        old(n).interval.wf(),
        ordered(old(n).left),
        ordered(old(n).right),
        maxes_ok(old(n).left),
        maxes_ok(old(n).right),
        heights_ok(old(n).left),
        heights_ok(old(n).right),
        starts_leq(opt_entries(old(n).left), old(n).interval.start as int),
        starts_geq(opt_entries(old(n).right), old(n).interval.start as int),
        opt_height(old(n).left) + 2 < usize::MAX,
        opt_height(old(n).right) + 2 < usize::MAX,
    ensures
        ({
            let oldl = old(n).left.unwrap();
            &&& final(n).interval == oldl.interval
            &&& final(n).value == oldl.value
            &&& final(n).right matches Some(nr) && nr.interval == old(n).interval && nr.value
                == old(n).value && nr.left == oldl.right && nr.right == old(n).right && heights_at(
                *nr,
            ) && maxes_at(*nr) && ordered_at(*nr)
            &&& final(n).left == oldl.left
            &&& heights_at(**final(n))
            &&& maxes_at(**final(n))
            &&& ordered_at(**final(n))
            &&& final(n).entries() == old(n).entries()
            &&& opt_height(Some(*final(n))) <= opt_height(Some(*old(n))) + 1
        }),
{
    broadcast use vstd::seq::group_seq_axioms;

    let ghost oldn = **n;
    let mut l = n.left.take().unwrap();
    let t1 = l.left.take();
    let t2 = l.right.take();
    core::mem::swap(&mut n.interval, &mut l.interval);
    core::mem::swap(&mut n.value, &mut l.value);
    // after the swap: `n` carries the old left child's data, `l` the old
    // node's; `l` becomes the new right child over the left child's old
    // right subtree and the old right subtree, while the left child's
    // old left subtree hangs off the new root
    let t3 = n.right.take();
    l.left = t2;
    l.right = t3;
    update_height(&mut l);
    update_max(&mut l);
    n.left = t1;
    proof {
        let ghost oldl = oldn.left.unwrap();
        assert(starts_geq(opt_entries(l.right), l.interval.start as int));
        assert(starts_leq(opt_entries(l.left), l.interval.start as int)) by {
            let lr = opt_entries(oldl.right);
            let le = opt_entries(oldn.left);
            let a = opt_entries(oldl.left);
            assert(le =~= a + seq![(oldl.interval, oldl.value)] + lr);
            assert forall|i: int| 0 <= i < lr.len() implies #[trigger] lr[i].0.start
                <= l.interval.start by {
                assert(le[a.len() + 1 + i] == lr[i]);
            }
        }
        assert(ordered_at(*l));
    }
    n.right = Some(l);
    update_height(n);
    update_max(n);
    proof {
        let ghost oldl = oldn.left.unwrap();
        assert(starts_geq(opt_entries(n.right), n.interval.start as int)) by {
            let c = opt_entries(oldl.right);
            let b = seq![(oldn.interval, oldn.value)];
            let e = opt_entries(oldn.right);
            assert(opt_entries(n.right) =~= c + b + e);
            let le = opt_entries(oldn.left);
            let a = opt_entries(oldl.left);
            assert(le =~= a + seq![(oldl.interval, oldl.value)] + c);
            assert forall|i: int| 0 <= i < (c + b + e).len() implies #[trigger] (c + b
                + e)[i].0.start >= n.interval.start by {
                assert(le[a.len() as int] == (oldl.interval, oldl.value));
                assert(le[a.len() as int].0.start <= oldn.interval.start);
                if i < c.len() {
                    assert((c + b + e)[i] == c[i]);
                    assert(c[i].0.start >= oldl.interval.start);
                } else if i == c.len() {
                    assert((c + b + e)[i] == (oldn.interval, oldn.value));
                } else {
                    assert((c + b + e)[i] == e[i - c.len() - 1]);
                    assert(e[i - c.len() - 1].0.start >= oldn.interval.start);
                }
            }
        }
        assert(starts_leq(opt_entries(n.left), n.interval.start as int)) by {
            let a = opt_entries(oldl.left);
            let le = opt_entries(oldn.left);
            assert(le =~= a + seq![(oldl.interval, oldl.value)] + opt_entries(oldl.right));
            assert forall|i: int| 0 <= i < a.len() implies #[trigger] a[i].0.start
                <= n.interval.start by {
                assert(le[i] == a[i]);
            }
        }
        assert(ordered_at(*n.right.unwrap()));
        assert(ordered_at(**n));
        assert(heights_at(*n.right.unwrap()));
        assert(heights_at(**n));
        assert(maxes_at(*n.right.unwrap()));
        assert(maxes_at(**n));
        assert(n.entries() =~= oldn.entries()) by {
            let a = opt_entries(oldl.left);
            let d = seq![(oldl.interval, oldl.value)];
            let c = opt_entries(oldl.right);
            let b = seq![(oldn.interval, oldn.value)];
            let e = opt_entries(oldn.right);
            assert(opt_entries(oldn.left) =~= a + d + c);
            assert(oldn.entries() =~= (a + d + c) + b + e);
            assert(opt_entries(n.right) =~= (c + b + e));
            assert(n.entries() =~= a + d + (c + b + e));
        }
    }
}

/// The spec predicate that `find` filters with: intersection with the
/// query interval.
pub open spec fn intersect_pred<D>(query: Interval) -> spec_fn((Interval, D)) -> bool {
    |e: (Interval, D)| spec_intersect(query, e.0)
}

/// A sequence of borrowed results agrees pointwise with a sequence of
/// entries.
pub open spec fn pairs_match<D>(s: Seq<(Interval, &D)>, t: Seq<(Interval, D)>) -> bool {
    s.len() == t.len() && forall|i: int|
        0 <= i < s.len() ==> (#[trigger] s[i]).0 == t[i].0 && *s[i].1 == t[i].1
}

/// Filtering a sequence of all-false elements yields the empty sequence.
proof fn lemma_filter_none<A>(s: Seq<A>, pred: spec_fn(A) -> bool)
    requires
        forall|i: int| 0 <= i < s.len() ==> !pred(#[trigger] s[i]),
    ensures
        s.filter(pred) == Seq::<A>::empty(),
    decreases s.len(),
{
    reveal(Seq::filter);
    if s.len() != 0 {
        lemma_filter_none(s.drop_last(), pred);
    }
}

/// Filtering a one-element sequence keeps or drops that element.
proof fn lemma_filter_singleton<A>(e: A, pred: spec_fn(A) -> bool)
    ensures
        seq![e].filter(pred) == (if pred(e) {
            seq![e]
        } else {
            Seq::<A>::empty()
        }),
{
    broadcast use vstd::seq::group_seq_axioms;

    reveal(Seq::filter);
    let m = seq![e];
    assert(m.drop_last() =~= Seq::<A>::empty());
    lemma_filter_none(Seq::<A>::empty(), pred);
    assert(m.last() == e);
    if pred(e) {
        assert(m.filter(pred) =~= Seq::<A>::empty().push(e));
        assert(Seq::<A>::empty().push(e) =~= m);
    } else {
        assert(m.filter(pred) =~= Seq::<A>::empty());
    }
}

/// Under the query's start, a subtree whose cached max is too small holds
/// no intersecting entry.
proof fn lemma_prune_by_max<D>(n: Box<Node<D>>, query: Interval)
    requires
        maxes_at(*n),
        query.start >= n.max,
    ensures
        opt_entries(Some(n)).filter(intersect_pred(query)) == Seq::<(Interval, D)>::empty(),
{
    broadcast use vstd::seq::group_seq_axioms;

    let e = opt_entries(Some(n));
    assert(e == n.entries());
    assert forall|i: int| 0 <= i < e.len() implies !(intersect_pred::<D>(query)(#[trigger] e[i])) by {
        assert(e[i].0.end <= n.max);
    }
    lemma_filter_none(e, intersect_pred(query));
}

/// Entries that all start at or past the query's end never intersect it.
proof fn lemma_prune_by_start<D>(s: Seq<(Interval, D)>, query: Interval, x: int)
    requires
        starts_geq(s, x),
        query.end <= x,
    ensures
        s.filter(intersect_pred(query)) == Seq::<(Interval, D)>::empty(),
{
    assert forall|i: int| 0 <= i < s.len() implies !(intersect_pred::<D>(query)(#[trigger] s[i])) by {
        assert(s[i].0.start >= x);
    }
    lemma_filter_none(s, intersect_pred(query));
}

/// In-order query walk, pruning through the cached maxima and the start
/// ordering.
#[verifier::rlimit(60)]
fn find_rec<'a, D>(node: &'a Option<Box<Node<D>>>, query: Interval, out: &mut Vec<(Interval, &'a D)>)
    requires
        ordered(*node),
        maxes_ok(*node),
    ensures
        final(out)@.len() == old(out)@.len() + opt_entries(*node).filter(
            intersect_pred(query),
        ).len(),
        final(out)@.subrange(0, old(out)@.len() as int) == old(out)@,
        pairs_match(
            final(out)@.subrange(old(out)@.len() as int, final(out)@.len() as int),
            opt_entries(*node).filter(intersect_pred(query)),
        ),
    decreases *node,
{
    broadcast use vstd::seq::group_seq_axioms, vstd::seq_lib::group_seq_lib_default;

    let ghost pred = intersect_pred::<D>(query);
    let ghost base = out@;
    match node {
        None => {
            proof {
                assert(opt_entries(*node).filter(pred) =~= Seq::<(Interval, D)>::empty());
                assert(final(out)@.subrange(0, base.len() as int) =~= base);
                assert(pairs_match(
                    out@.subrange(base.len() as int, out@.len() as int),
                    Seq::<(Interval, D)>::empty(),
                ));
            }
        },
        Some(b) => {
            let ghost l = opt_entries(b.left);
            let ghost m = seq![(b.interval, b.value)];
            let ghost r = opt_entries(b.right);
            proof {
                assert(opt_entries(*node) =~= l + m + r);
                Seq::filter_distributes_over_add(l + m, r, pred);
                Seq::filter_distributes_over_add(l, m, pred);
                assert(opt_entries(*node).filter(pred) =~= l.filter(pred) + m.filter(pred)
                    + r.filter(pred));
                lemma_filter_singleton((b.interval, b.value), pred);
                assert(m =~= seq![(b.interval, b.value)]);
            }
            if query.start < b.max {
                find_rec(&b.left, query, out);
                let ghost o1 = out@;
                if query.end > b.interval.start {
                    if intersect(&query, &b.interval) {
                        out.push((b.interval, &b.value));
                    }
                    proof {
                        let suf = out@.subrange(base.len() as int, out@.len() as int);
                        let s1 = o1.subrange(base.len() as int, o1.len() as int);
                        let t = l.filter(pred) + m.filter(pred);
                        assert(out@.subrange(0, base.len() as int) =~= base);
                        assert(out@.len() == base.len() + t.len());
                        assert forall|i: int| 0 <= i < suf.len() implies (#[trigger] suf[i]).0
                            == t[i].0 && *suf[i].1 == t[i].1 by {
                            if i < s1.len() {
                                assert(suf[i] == s1[i]);
                                assert(t[i] == l.filter(pred)[i]);
                            } else {
                                assert(suf[i] == (b.interval, &b.value));
                                assert(t[i] == (b.interval, b.value));
                            }
                        }
                        assert(pairs_match(suf, t));
                    }
                    let ghost mid = out@;
                    find_rec(&b.right, query, out);
                    proof {
                        lemma_find_combine(
                            base,
                            mid,
                            out@,
                            l.filter(pred),
                            m.filter(pred),
                            r.filter(pred),
                        );
                    }
                } else {
                    proof {
                        lemma_prune_by_start(m + r, query, b.interval.start as int);
                        Seq::filter_distributes_over_add(m, r, pred);
                        assert(m.filter(pred).len() + r.filter(pred).len() == 0);
                        assert(opt_entries(*node).filter(pred) =~= l.filter(pred));
                    }
                }
            } else {
                proof {
                    assert(maxes_at(**b));
                    lemma_prune_by_max(*b, query);
                    assert(final(out)@.subrange(0, base.len() as int) =~= base);
                    assert(pairs_match(
                        out@.subrange(base.len() as int, out@.len() as int),
                        opt_entries(*node).filter(pred),
                    ));
                }
            }
        },
    }
}

/// Stitch the bookkeeping of the three-way split of a query walk.
proof fn lemma_find_combine<D>(
    base: Seq<(Interval, &D)>,
    mid: Seq<(Interval, &D)>,
    fin: Seq<(Interval, &D)>,
    fl: Seq<(Interval, D)>,
    fm: Seq<(Interval, D)>,
    fr: Seq<(Interval, D)>,
)
    requires
        mid.len() == base.len() + fl.len() + fm.len(),
        mid.subrange(0, base.len() as int) == base,
        pairs_match(mid.subrange(base.len() as int, mid.len() as int), fl + fm),
        fin.len() == mid.len() + fr.len(),
        fin.subrange(0, mid.len() as int) == mid,
        pairs_match(fin.subrange(mid.len() as int, fin.len() as int), fr),
    ensures
        fin.len() == base.len() + (fl + fm + fr).len(),
        fin.subrange(0, base.len() as int) == base,
        pairs_match(fin.subrange(base.len() as int, fin.len() as int), fl + fm + fr),
{
    broadcast use vstd::seq::group_seq_axioms;

    assert(fin.subrange(0, base.len() as int) =~= base);
    let suffix = fin.subrange(base.len() as int, fin.len() as int);
    let t = fl + fm + fr;
    assert(suffix.len() == t.len());
    assert forall|i: int| 0 <= i < suffix.len() implies (#[trigger] suffix[i]).0 == t[i].0
        && *suffix[i].1 == t[i].1 by {
        if i < fl.len() + fm.len() {
            assert(suffix[i] == mid.subrange(base.len() as int, mid.len() as int)[i]);
            assert(t[i] == (fl + fm)[i]);
        } else {
            assert(suffix[i] == fin.subrange(mid.len() as int, fin.len() as int)[i - fl.len()
                - fm.len()]);
            assert(t[i] == fr[i - fl.len() - fm.len()]);
        }
    }
}

impl<D> IntervalTree<D> {
    /// All stored entries whose intervals intersect `interval`, in start
    /// order, each as the interval and a borrow of its data. Exactly the
    /// intersecting entries are returned: a zero-width interval matches
    /// nothing.
    pub fn find<'a>(&'a self, interval: Interval) -> (r: Vec<(Interval, &'a D)>)
        requires
            self.wf(),
        ensures
            pairs_match(r@, self.entries().filter(intersect_pred(interval))),
    {
        let mut out: Vec<(Interval, &'a D)> = Vec::new();
        find_rec(&self.root, interval, &mut out);
        proof {
            assert(out@.subrange(0, out@.len() as int) =~= out@);
        }
        out
    }
}

/// Every interval stored in an ordered subtree is well formed.
proof fn lemma_entries_wf<D>(n: Option<Box<Node<D>>>)
    requires
        ordered(n),
    ensures
        forall|i: int| 0 <= i < opt_entries(n).len() ==> (#[trigger] opt_entries(n)[i]).0.wf(),
    decreases n,
{
    broadcast use vstd::seq::group_seq_axioms;

    match n {
        None => {},
        Some(b) => {
            lemma_entries_wf(b.left);
            lemma_entries_wf(b.right);
            let l = opt_entries(b.left);
            let m = seq![(b.interval, b.value)];
            let r = opt_entries(b.right);
            let e = opt_entries(n);
            assert(e =~= l + m + r);
            assert forall|i: int| 0 <= i < e.len() implies (#[trigger] e[i]).0.wf() by {
                if i < l.len() {
                    assert(e[i] == l[i]);
                } else if i == l.len() {
                    assert(e[i] == (b.interval, b.value));
                } else {
                    assert(e[i] == r[i - l.len() - 1]);
                }
            }
        },
    }
}

/// Removing the last element splits off exactly one copy of it in the
/// multiset view.
proof fn lemma_pop_multiset<A>(s: Seq<A>)
    requires
        s.len() > 0,
    ensures
        s.to_multiset() == s.drop_last().to_multiset().insert(s.last()),
{
    broadcast use vstd::seq::group_seq_axioms;

    let d = s.drop_last();
    d.to_multiset_ensures();
    assert(d.push(s.last()) =~= s);
}

/// In-order move of a subtree's entries onto the end of a vector.
fn collect_rec<D>(node: Option<Box<Node<D>>>, out: &mut Vec<(Interval, D)>)
    ensures
        final(out)@ == old(out)@ + opt_entries(node),
    decreases node,
{
    broadcast use vstd::seq::group_seq_axioms;

    let ghost n = node;
    match node {
        None => {
            proof {
                assert(out@ =~= out@ + opt_entries(n));
            }
        },
        Some(b) => {
            let Node { interval, value, max: _, height: _, left, right } = *b;
            collect_rec(left, out);
            out.push((interval, value));
            collect_rec(right, out);
            proof {
                assert(out@ =~= old(out)@ + opt_entries(n));
            }
        },
    }
}

/// Replace the interval of an entry when it equals `o`.
pub open spec fn replace_entry<D>(e: (Interval, D), o: Interval, n: Interval) -> (Interval, D) {
    if e.0 == o {
        (n, e.1)
    } else {
        e
    }
}

impl<D> IntervalTree<D> {
    /// Build a tree holding every pair of `pairs`.
    #[verifier::loop_isolation(false)]
    pub fn from_iter(pairs: Vec<(Interval, D)>) -> (r: Self)
        requires
            pairs@.len() + 8 <= usize::MAX,
            forall|i: int| 0 <= i < pairs@.len() ==> (#[trigger] pairs@[i]).0.wf(),
        ensures
            r.wf(),
            r.entries().to_multiset() == pairs@.to_multiset(),
    {
        let ghost all = pairs@;
        let mut rest = pairs;
        let mut tree = IntervalTree::new();
        proof {
            lemma_empty_to_multiset::<(Interval, D)>();
            assert(tree.entries().to_multiset().add(rest@.to_multiset()) =~= all.to_multiset());
        }
        while rest.len() > 0
            invariant
                tree.wf(),
                rest@ == all.subrange(0, rest@.len() as int),
                tree.entries().len() + rest@.len() == all.len(),
                tree.entries().to_multiset().add(rest@.to_multiset()) == all.to_multiset(),
            decreases rest@.len(),
        {
            let ghost pre = rest@;
            let (iv, d) = rest.pop().unwrap();
            proof {
                lemma_pop_multiset(pre);
                assert(pre[pre.len() - 1] == all.subrange(0, pre.len() as int)[pre.len() - 1]);
                assert(rest@ =~= all.subrange(0, rest@.len() as int));
            }
            let ghost treepre = tree.entries().to_multiset();
            tree.insert(iv, d);
            proof {
                assert(tree.entries().to_multiset().add(rest@.to_multiset()) =~= treepre.insert(
                    (iv, d),
                ).add(rest@.to_multiset()));
                assert(treepre.insert((iv, d)).add(rest@.to_multiset()) =~= treepre.add(
                    rest@.to_multiset().insert((iv, d)),
                ));
            }
        }
        proof {
            lemma_empty_to_multiset::<(Interval, D)>();
            assert(rest@ =~= Seq::<(Interval, D)>::empty());
            assert(tree.entries().to_multiset() =~= all.to_multiset());
        }
        tree
    }

    /// Re-key every entry stored under `old_interval` to `new_interval`,
    /// leaving all other entries untouched. The tree is rebuilt so that
    /// ordering, maxima and balance hold for the new keys.
    #[verifier::loop_isolation(false)]
    pub fn update_interval(&mut self, old_interval: Interval, new_interval: Interval)
        requires
            old(self).wf(),
            new_interval.wf(),
            old(self).entries().len() + 8 <= usize::MAX,
        ensures
            final(self).wf(),
            final(self).entries().to_multiset() == old(self).entries().map_values(
                |e: (Interval, D)| replace_entry(e, old_interval, new_interval),
            ).to_multiset(),
    {
        broadcast use vstd::seq::group_seq_axioms;

        let ghost all = self.entries();
        let ghost f = |e: (Interval, D)| replace_entry(e, old_interval, new_interval);
        proof {
            lemma_entries_wf(self.root);
        }
        let root = self.root.take();
        let mut v: Vec<(Interval, D)> = Vec::new();
        collect_rec(root, &mut v);
        proof {
            assert(v@ =~= all);
        }
        let mut tree = IntervalTree::new();
        proof {
            lemma_empty_to_multiset::<(Interval, D)>();
            assert(v@.map_values(f) =~= all.map_values(f));
            assert(tree.entries().to_multiset().add(
                v@.map_values(f).to_multiset(),
            ) =~= all.map_values(f).to_multiset());
        }
        while v.len() > 0
            invariant
                tree.wf(),
                v@ == all.subrange(0, v@.len() as int),
                tree.entries().len() + v@.len() == all.len(),
                tree.entries().to_multiset().add(v@.map_values(f).to_multiset())
                    == all.map_values(f).to_multiset(),
            decreases v@.len(),
        {
            let ghost pre = v@;
            let (iv, d) = v.pop().unwrap();
            proof {
                lemma_pop_multiset(pre.map_values(f));
                assert(pre.map_values(f).drop_last() =~= pre.drop_last().map_values(f));
                assert(pre[pre.len() - 1] == all.subrange(0, pre.len() as int)[pre.len() - 1]);
                assert(v@ =~= all.subrange(0, v@.len() as int));
                assert(all[pre.len() - 1].0.wf());
            }
            let e2 = if iv == old_interval {
                (new_interval, d)
            } else {
                (iv, d)
            };
            proof {
                assert(e2 == f((iv, d)));
                assert(e2.0.wf());
            }
            let ghost treepre = tree.entries().to_multiset();
            tree.insert(e2.0, e2.1);
            proof {
                assert(tree.entries().to_multiset().add(v@.map_values(f).to_multiset())
                    =~= treepre.insert(f((iv, d))).add(v@.map_values(f).to_multiset()));
                assert(treepre.insert(f((iv, d))).add(v@.map_values(f).to_multiset())
                    =~= treepre.add(v@.map_values(f).to_multiset().insert(f((iv, d)))));
                assert(v@.map_values(f).to_multiset().insert(f((iv, d)))
                    =~= pre.map_values(f).to_multiset());
            }
        }
        proof {
            lemma_empty_to_multiset::<(Interval, D)>();
            assert(v@ =~= Seq::<(Interval, D)>::empty());
            assert(v@.map_values(f) =~= Seq::<(Interval, D)>::empty());
            assert(tree.entries().to_multiset() =~= all.map_values(f).to_multiset());
        }
        self.root = tree.root;
    }
}

/// Pointwise relation between entry sequences after a data-only update:
/// intervals are identical; data of intersecting entries is related by
/// `f`'s contract, all other data is unchanged.
pub open spec fn mapped_entries<D, F: Fn(D) -> D>(
    olds: Seq<(Interval, D)>,
    news: Seq<(Interval, D)>,
    query: Interval,
    f: F,
) -> bool {
    news.len() == olds.len() && forall|i: int|
        0 <= i < olds.len() ==> (#[trigger] news[i]).0 == olds[i].0 && (if spec_intersect(
            query,
            olds[i].0,
        ) {
            f.ensures((olds[i].1,), news[i].1)
        } else {
            news[i].1 == olds[i].1
        })
}

/// Interval-level bounds transfer between entry sequences that agree on
/// their intervals.
proof fn lemma_bounds_transfer<D>(olds: Seq<(Interval, D)>, news: Seq<(Interval, D)>)
    requires
        news.len() == olds.len(),
        forall|i: int| 0 <= i < olds.len() ==> (#[trigger] news[i]).0 == olds[i].0,
    ensures
        forall|x: int| starts_leq(olds, x) ==> starts_leq(news, x),
        forall|x: int| starts_geq(olds, x) ==> starts_geq(news, x),
        forall|m: int| ends_leq(olds, m) ==> ends_leq(news, m),
        forall|m: int| has_end(olds, m) ==> has_end(news, m),
{
    assert forall|x: int| starts_leq(olds, x) implies starts_leq(news, x) by {
        assert forall|i: int| 0 <= i < news.len() implies (#[trigger] news[i]).0.start <= x by {
            assert(olds[i].0.start <= x);
        }
    }
    assert forall|x: int| starts_geq(olds, x) implies starts_geq(news, x) by {
        assert forall|i: int| 0 <= i < news.len() implies (#[trigger] news[i]).0.start >= x by {
            assert(olds[i].0.start >= x);
        }
    }
    assert forall|m: int| ends_leq(olds, m) implies ends_leq(news, m) by {
        assert forall|i: int| 0 <= i < news.len() implies (#[trigger] news[i]).0.end <= m by {
            assert(olds[i].0.end <= m);
        }
    }
    assert forall|m: int| has_end(olds, m) implies has_end(news, m) by {
        let i = choose|i: int| 0 <= i < olds.len() && (#[trigger] olds[i]).0.end == m;
        assert(news[i].0.end == m);
    }
}

/// Apply `f` to every entry of a subtree that intersects `query`; prune
/// through the cached maxima as the overlap search does.
fn map_rec<D: Copy, F: Fn(D) -> D>(node: &mut Option<Box<Node<D>>>, query: Interval, f: &F)
    requires
        opt_wf(*old(node)),
        forall|d: D| #[trigger] f.requires((d,)),
    ensures
        opt_wf(*final(node)),
        opt_height(*final(node)) == opt_height(*old(node)),
        mapped_entries(opt_entries(*old(node)), opt_entries(*final(node)), query, *f),
    decreases *old(node),
{
    broadcast use vstd::seq::group_seq_axioms;

    let ghost oldopt = *node;
    match node.take() {
        None => {},
        Some(mut b) => {
            let ghost oldn = *b;
            if query.start < b.max {
                map_rec(&mut b.left, query, f);
                if intersect(&query, &b.interval) {
                    b.value = f(b.value);
                }
                map_rec(&mut b.right, query, f);
                proof {
                    lemma_bounds_transfer(opt_entries(oldn.left), opt_entries(b.left));
                    lemma_bounds_transfer(opt_entries(oldn.right), opt_entries(b.right));
                    lemma_mapped_stitch(oldn, *b, query, *f);
                    assert(ordered_at(*b));
                    assert(maxes_at(*b)) by {
                        lemma_bounds_transfer(oldn.entries(), b.entries());
                    }
                    assert(heights_at(*b));
                    assert(balanced_at(*b));
                }
            } else {
                proof {
                    assert(mapped_entries(oldn.entries(), oldn.entries(), query, *f)) by {
                        assert forall|i: int| 0 <= i < oldn.entries().len() implies (
                        #[trigger] oldn.entries()[i]).0 == oldn.entries()[i].0 && !spec_intersect(
                            query,
                            oldn.entries()[i].0,
                        ) by {
                            assert(oldn.entries()[i].0.end <= oldn.max);
                        }
                    }
                }
            }
            *node = Some(b);
        },
    }
}

/// Stitch the pointwise mapped relation across the three parts of a
/// node's entries.
proof fn lemma_mapped_stitch<D, F: Fn(D) -> D>(oldn: Node<D>, newn: Node<D>, query: Interval, f: F)
    requires
        newn.interval == oldn.interval,
        mapped_entries(opt_entries(oldn.left), opt_entries(newn.left), query, f),
        mapped_entries(opt_entries(oldn.right), opt_entries(newn.right), query, f),
        spec_intersect(query, oldn.interval) ==> f.ensures((oldn.value,), newn.value),
        !spec_intersect(query, oldn.interval) ==> newn.value == oldn.value,
    ensures
        mapped_entries(oldn.entries(), newn.entries(), query, f),
{
    broadcast use vstd::seq::group_seq_axioms;

    let ol = opt_entries(oldn.left);
    let or = opt_entries(oldn.right);
    let nl = opt_entries(newn.left);
    let nr = opt_entries(newn.right);
    let oe = oldn.entries();
    let ne = newn.entries();
    assert(oe =~= ol + seq![(oldn.interval, oldn.value)] + or);
    assert(ne =~= nl + seq![(newn.interval, newn.value)] + nr);
    assert forall|i: int| 0 <= i < oe.len() implies (#[trigger] ne[i]).0 == oe[i].0 && (
    if spec_intersect(query, oe[i].0) {
        f.ensures((oe[i].1,), ne[i].1)
    } else {
        ne[i].1 == oe[i].1
    }) by {
        if i < ol.len() {
            assert(oe[i] == ol[i]);
            assert(ne[i] == nl[i]);
        } else if i == ol.len() {
            assert(oe[i] == (oldn.interval, oldn.value));
            assert(ne[i] == (newn.interval, newn.value));
        } else {
            assert(oe[i] == or[i - ol.len() - 1]);
            assert(ne[i] == nr[i - ol.len() - 1]);
        }
    }
}

impl<D: Copy> IntervalTree<D> {
    /// Apply `f`, in place, to the data of every stored entry whose
    /// interval intersects `query`; all other entries are untouched and
    /// every interval stays exactly where it was.
    pub fn map_overlapping<F: Fn(D) -> D>(&mut self, query: Interval, f: &F)
        requires
            old(self).wf(),
            forall|d: D| #[trigger] f.requires((d,)),
        ensures
            final(self).wf(),
            mapped_entries(old(self).entries(), final(self).entries(), query, *f),
    {
        map_rec(&mut self.root, query, f);
    }
}

} // verus!
