//! Trees from flat outlines.
//!
//! An outline is a sequence of entries, each with a level (a table of
//! contents, or the headers of a Markdown file). An entry's children are the
//! entries that follow it, up to the next entry whose level is not greater
//! than its own; among those, only the ones that are not inside an earlier
//! child's span are direct children.

use vstd::prelude::*;
use crate::node::{PageNode, forest_size, tree_size};

verus! {

/// The end of the span that starts at `i` below level `bound`: the first
/// index `k >= i` with `k == lv.len()` or `lv[k] <= bound`.
pub open spec fn span_end(lv: Seq<usize>, i: int, bound: int) -> int
    decreases lv.len() - i,
{
    if i < 0 || i >= lv.len() || lv[i] <= bound {
        i
    } else {
        span_end(lv, i + 1, bound)
    }
}

/// Whether `f` is the forest built from the entries `lo..hi` of the outline
/// with levels `lv`, each node standing for its entry as `ok` says (with no
/// word on the node's children, which this relation gives).
pub open spec fn is_forest(
    f: Seq<PageNode>,
    lv: Seq<usize>,
    lo: int,
    hi: int,
    ok: spec_fn(PageNode, int) -> bool,
) -> bool
    decreases hi - lo,
{
    if lo >= hi {
        f.len() == 0
    } else {
        let k = span_end(lv, lo + 1, lv[lo] as int);
        if lo < k && k <= hi {
            &&& f.len() > 0
            &&& ok(f[0], lo)
            &&& is_forest(f[0].children@, lv, lo + 1, k, ok)
            &&& is_forest(f.drop_first(), lv, k, hi, ok)
        } else {
            false
        }
    }
}

/// What a span end is: every level before it is above the bound, and the
/// level at it (if any) is not.
pub proof fn lemma_span_end(lv: Seq<usize>, i: int, bound: int)
    requires
        0 <= i <= lv.len(),
    ensures
        i <= span_end(lv, i, bound) <= lv.len(),
        forall|j: int| i <= j < span_end(lv, i, bound) ==> lv[j] > bound,
        span_end(lv, i, bound) < lv.len() ==> lv[span_end(lv, i, bound)] <= bound,
    decreases lv.len() - i,
{
    if i < lv.len() && lv[i] > bound {
        lemma_span_end(lv, i + 1, bound);
    }
}

/// Entries above the bound can be passed over.
pub proof fn lemma_span_end_skip(lv: Seq<usize>, a: int, c: int, bound: int)
    requires
        0 <= a <= c <= lv.len(),
        forall|j: int| a <= j < c ==> lv[j] > bound,
    ensures
        span_end(lv, a, bound) == span_end(lv, c, bound),
    decreases c - a,
{
    if a < c {
        lemma_span_end_skip(lv, a + 1, c, bound);
    }
}

/// After an entry above the bound and its whole span, the span below the
/// bound goes on.
pub proof fn lemma_span_end_step(lv: Seq<usize>, i: int, bound: int)
    requires
        0 <= i < lv.len(),
        lv[i] > bound,
    ensures
        span_end(lv, i, bound) == span_end(lv, span_end(lv, i + 1, lv[i] as int), bound),
{
    let k = span_end(lv, i + 1, lv[i] as int);
    lemma_span_end(lv, i + 1, lv[i] as int);
    lemma_span_end_skip(lv, i, k, bound);
}

/// Two adjacent forests make one.
pub proof fn lemma_forest_concat(
    f1: Seq<PageNode>,
    f2: Seq<PageNode>,
    lv: Seq<usize>,
    lo: int,
    mid: int,
    hi: int,
    ok: spec_fn(PageNode, int) -> bool,
)
    requires
        lo <= mid <= hi,
        is_forest(f1, lv, lo, mid, ok),
        is_forest(f2, lv, mid, hi, ok),
    ensures
        is_forest(f1 + f2, lv, lo, hi, ok),
    decreases mid - lo,
{
    if lo >= mid {
        assert(f1 + f2 =~= f2);
    } else {
        let k = span_end(lv, lo + 1, lv[lo] as int);
        lemma_forest_concat(f1.drop_first(), f2, lv, k, mid, hi, ok);
        assert((f1 + f2).drop_first() =~= f1.drop_first() + f2);
        assert((f1 + f2)[0] == f1[0]);
    }
}

/// A single node with its children's forest is a forest of one tree.
pub proof fn lemma_forest_single(
    n: PageNode,
    lv: Seq<usize>,
    i: int,
    ok: spec_fn(PageNode, int) -> bool,
)
    requires
        0 <= i < lv.len(),
        ok(n, i),
        is_forest(n.children@, lv, i + 1, span_end(lv, i + 1, lv[i] as int), ok),
    ensures
        is_forest(seq![n], lv, i, span_end(lv, i + 1, lv[i] as int), ok),
{
    lemma_span_end(lv, i + 1, lv[i] as int);
    let k = span_end(lv, i + 1, lv[i] as int);
    assert(is_forest(Seq::<PageNode>::empty(), lv, k, k, ok));
    assert(seq![n].drop_first() =~= Seq::<PageNode>::empty());
    assert(seq![n][0] == n);
}

/// A forest of the entries `lo..hi` has `hi - lo` nodes.
pub proof fn lemma_forest_size(
    f: Seq<PageNode>,
    lv: Seq<usize>,
    lo: int,
    hi: int,
    ok: spec_fn(PageNode, int) -> bool,
)
    requires
        lo <= hi,
        is_forest(f, lv, lo, hi, ok),
    ensures
        forest_size(f) == hi - lo,
    decreases hi - lo,
{
    if lo < hi {
        let k = span_end(lv, lo + 1, lv[lo] as int);
        lemma_forest_size(f[0].children@, lv, lo + 1, k, ok);
        lemma_forest_size(f.drop_first(), lv, k, hi, ok);
        lemma_forest_size_first(f);
    }
}

/// The size of a non-empty forest is the size of its first tree plus that
/// of the rest.
pub proof fn lemma_forest_size_first(f: Seq<PageNode>)
    requires
        f.len() > 0,
    ensures
        forest_size(f) == tree_size(f[0]) + forest_size(f.drop_first()),
    decreases f.len(),
{
    if f.len() > 1 {
        lemma_forest_size_first(f.drop_last());
        assert(f.drop_last().drop_first() =~= f.drop_first().drop_last());
        assert(f.drop_first().last() == f.last());
    } else {
        assert(f.drop_last() =~= Seq::<PageNode>::empty());
        assert(f.drop_first() =~= Seq::<PageNode>::empty());
    }
}

} // verus!
