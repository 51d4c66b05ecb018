//! The 2-opt step of the tour optimiser: decide whether swapping two tour
//! edges shortens the tour, and if so apply the swap by reversing the
//! segment between the two positions.

use vstd::prelude::*;
use crate::utils::{
    all_bounded, coord_bounded, dist_sq, lemma_permutation_preserves, prev_index, reversed_segment,
    root_sum_lt, shorter_after_swap,
};

verus! {

broadcast use {
    vstd::multiset::group_multiset_axioms,
    vstd::seq_lib::group_to_multiset_ensures,
};

/// Whether the 2-opt move at tour positions `a` and `b` strictly shortens
/// the tour: the two replacement edges together measure less than the two
/// edges they replace, compared exactly.
pub open spec fn swap_improves(rs: Seq<(i32, i32)>, a: int, b: int) -> bool {
    let n = rs.len() as int;
    let pa = prev_index(n, a);
    let pb = prev_index(n, b);
    root_sum_lt(
        dist_sq(rs[a], rs[b]),
        dist_sq(rs[pa], rs[pb]),
        dist_sq(rs[a], rs[pa]),
        dist_sq(rs[b], rs[pb]),
    )
}

/// The tour after the 2-opt move at positions `a` and `b`: the segment from
/// the smaller position up to, and excluding, the larger one, reversed.
pub open spec fn after_swap(rs: Seq<(i32, i32)>, a: int, b: int) -> Seq<(i32, i32)> {
    let lo = if a <= b {
        a
    } else {
        b
    };
    let hi = if a <= b {
        b
    } else {
        a
    };
    reversed_segment(rs, lo, hi)
}

/// The tour position before `i`, wrapping to the end of the tour.
fn prev_of(n: usize, i: usize) -> (p: usize)
    requires
        i < n,
    ensures
        p == prev_index(n as int, i as int),
        p < n,
{
    if i == 0 {
        n - 1
    } else {
        i - 1
    }
}

/// Reverse the segment `[lo, hi)` of a tour in place.
fn reverse_between(routes: &mut Vec<(i32, i32)>, lo: usize, hi: usize)
    requires
        lo <= hi <= old(routes)@.len(),
    ensures
        final(routes)@ == reversed_segment(old(routes)@, lo as int, hi as int),
{
    let ghost orig = old(routes)@;
    if lo < hi {
        let mut i = lo;
        let mut j = hi - 1;
        while i < j
            invariant
                lo <= i,
                j < hi,
                hi <= routes@.len(),
                routes@.len() == orig.len(),
                i + j == lo + hi - 1,
                forall|k: int|
                    0 <= k < orig.len() && (k < lo || hi <= k) ==> (#[trigger] routes@[k])
                        == orig[k],
                forall|k: int| lo <= k < i ==> (#[trigger] routes@[k]) == orig[lo + hi - 1 - k],
                forall|k: int| j < k < hi ==> (#[trigger] routes@[k]) == orig[lo + hi - 1 - k],
                forall|k: int| i <= k <= j ==> (#[trigger] routes@[k]) == orig[k],
            decreases j + 1 - i,
        {
            let vi = routes[i];
            let vj = routes[j];
            routes[i] = vj;
            routes[j] = vi;
            i = i + 1;
            j = j - 1;
        }
    }
    proof {
        let lo_ = lo as int;
        let hi_ = hi as int;
        assert(routes@ =~= reversed_segment(orig, lo_, hi_)) by {
            assert forall|k: int| 0 <= k < orig.len() implies routes@[k] == reversed_segment(
                orig,
                lo_,
                hi_,
            )[k] by {
                if k < lo_ {
                    assert(reversed_segment(orig, lo_, hi_)[k] == orig[k]);
                } else if k < hi_ {
                    assert(reversed_segment(orig, lo_, hi_)[k] == orig.subrange(
                        lo_,
                        hi_,
                    ).reverse()[k - lo_]);
                    assert(orig.subrange(lo_, hi_).reverse()[k - lo_] == orig.subrange(lo_, hi_)[(
                    hi_ - lo_) - 1 - (k - lo_)]);
                    assert(orig.subrange(lo_, hi_)[(hi_ - lo_) - 1 - (k - lo_)] == orig[lo_ + hi_
                        - 1 - k]);
                } else {
                    assert(reversed_segment(orig, lo_, hi_)[k] == orig[k]);
                }
            }
        }
    }
}

/// Perform the 2-opt step at tour positions `index_a` and `index_b`: when
/// the replacement edges are strictly shorter — compared exactly, with no
/// rounding — reverse the segment between the two positions and report the
/// swap; otherwise leave the tour untouched.  Either way the tour keeps
/// exactly its stops.
pub fn should_edges_swap(routes: &mut Vec<(i32, i32)>, index_a: usize, index_b: usize) -> (r: bool)
    requires
        all_bounded(old(routes)@),
        old(routes)@.len() >= 1,
        index_a < old(routes)@.len(),
        index_b < old(routes)@.len(),
    ensures
        r == swap_improves(old(routes)@, index_a as int, index_b as int),
        r ==> final(routes)@ == after_swap(old(routes)@, index_a as int, index_b as int),
        !r ==> final(routes)@ == old(routes)@,
        final(routes)@.to_multiset() == old(routes)@.to_multiset(),
        final(routes)@.len() == old(routes)@.len(),
        all_bounded(final(routes)@),
{
    let ghost orig = old(routes)@;
    let n = routes.len();
    let prev_a = prev_of(n, index_a);
    let prev_b = prev_of(n, index_b);
    let better = shorter_after_swap(
        routes[index_a],
        routes[prev_a],
        routes[index_b],
        routes[prev_b],
    );
    if better {
        let lower = if index_a < index_b {
            index_a
        } else {
            index_b
        };
        let higher = if index_a < index_b {
            index_b
        } else {
            index_a
        };
        reverse_between(routes, lower, higher);
        proof {
            let lo_ = lower as int;
            let hi_ = higher as int;
            assert(orig =~= orig.take(lo_) + orig.subrange(lo_, hi_) + orig.skip(hi_));
            vstd::seq_lib::lemma_multiset_commutative(orig.take(lo_), orig.subrange(lo_, hi_));
            vstd::seq_lib::lemma_multiset_commutative(
                orig.take(lo_) + orig.subrange(lo_, hi_),
                orig.skip(hi_),
            );
            vstd::seq_lib::lemma_multiset_commutative(
                orig.take(lo_),
                orig.subrange(lo_, hi_).reverse(),
            );
            vstd::seq_lib::lemma_multiset_commutative(
                orig.take(lo_) + orig.subrange(lo_, hi_).reverse(),
                orig.skip(hi_),
            );
            orig.subrange(lo_, hi_).lemma_reverse_to_multiset();
            assert(routes@ =~= (orig.take(lo_) + orig.subrange(lo_, hi_).reverse()) + orig.skip(
                hi_,
            ));
            assert(routes@.to_multiset() =~= orig.to_multiset());
            lemma_permutation_preserves(orig, routes@);
            assert forall|k: int| 0 <= k < routes@.len() implies coord_bounded(
                #[trigger] routes@[k],
            ) by {
                assert(routes@.contains(routes@[k]));
                assert(orig.contains(routes@[k]));
                let w = choose|w: int| 0 <= w < orig.len() && orig[w] == routes@[k];
                assert(coord_bounded(orig[w]));
            }
        }
        true
    } else {
        false
    }
}

} // verus!
