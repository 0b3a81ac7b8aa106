//! The subsequence relation on sequences, backing the matcher's ordering
//! guarantee: what a filter keeps stays in the original relative order.

use vstd::prelude::*;

verus! {

/// `xs` can be obtained from `ys` by deleting elements, keeping the relative
/// order of the rest (checked greedily from the back).
pub open spec fn subsequence_of<A>(xs: Seq<A>, ys: Seq<A>) -> bool
    decreases xs.len() + ys.len(),
{
    if xs.len() == 0 {
        true
    } else if ys.len() == 0 {
        false
    } else if xs.last() == ys.last() {
        subsequence_of(xs.drop_last(), ys.drop_last())
    } else {
        subsequence_of(xs, ys.drop_last())
    }
}

/// A subsequence of `ys` is still a subsequence after `ys` grows at the end.
pub proof fn lemma_subsequence_push<A>(xs: Seq<A>, ys: Seq<A>, e: A)
    requires
        subsequence_of(xs, ys),
    ensures
        subsequence_of(xs, ys.push(e)),
    decreases ys.len(), 2int,
{
    if xs.len() == 0 {
    } else {
        assert(ys.push(e).drop_last() =~= ys);
        assert(ys.push(e).last() == e);
        if xs.last() == e {
            lemma_subsequence_drop_last(xs, ys);
        }
    }
}

/// Dropping the last element of a subsequence keeps it a subsequence.
pub proof fn lemma_subsequence_drop_last<A>(xs: Seq<A>, ys: Seq<A>)
    requires
        xs.len() > 0,
        subsequence_of(xs, ys),
    ensures
        subsequence_of(xs.drop_last(), ys),
    decreases ys.len(), 1int,
{
    if ys.len() == 0 {
    } else if xs.last() == ys.last() {
        if xs.drop_last().len() == 0 {
        } else {
            lemma_subsequence_push(xs.drop_last(), ys.drop_last(), ys.last());
            assert(ys.drop_last().push(ys.last()) =~= ys);
        }
    } else {
        lemma_subsequence_drop_last(xs, ys.drop_last());
        lemma_subsequence_push(xs.drop_last(), ys.drop_last(), ys.last());
        assert(ys.drop_last().push(ys.last()) =~= ys);
    }
}

} // verus!
