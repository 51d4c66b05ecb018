//! A travelling-salesman tour over integer city coordinates, together with
//! the candidate position pairs the optimiser may try to swap.

use vstd::prelude::*;
use crate::algorithms::{after_swap, swap_improves};
use crate::utils::{all_bounded, get_all_possible_pairings, is_pairing, shuffle_pairs};

verus! {

broadcast use {
    vstd::multiset::group_multiset_axioms,
    vstd::seq_lib::group_to_multiset_ensures,
};

/// Whether the 2-opt move at tour positions `a` and `b` is worth trying at
/// all: a swap that touches both the first and the last stop, or two
/// adjacent stops, leaves the tour's edge set unchanged and is skipped.
pub open spec fn swap_viable(n: int, a: int, b: int) -> bool {
    if a == 0 {
        b != n - 1
    } else if b == 0 {
        a != n - 1
    } else {
        a - b != 1 && b - a != 1
    }
}

/// A tour: the cities in visiting order, and every unordered pair of tour
/// positions as swap candidates.
pub struct Route {
    pub routes: Vec<(i32, i32)>,
    pairings: Vec<(usize, usize)>,
}

impl View for Route {
    type V = Seq<(i32, i32)>;

    /// A tour is viewed as its city sequence.
    closed spec fn view(&self) -> Seq<(i32, i32)> {
        self.routes@
    }
}

impl Route {
    /// The candidate position pairs, in the order they currently stand.
    pub closed spec fn pairings_view(self) -> Seq<(usize, usize)> {
        self.pairings@
    }

    /// Every coordinate is within the optimiser's accepted range, and every
    /// candidate pair names two distinct tour positions in ascending order.
    pub closed spec fn wf(self) -> bool {
        &&& all_bounded(self.routes@)
        &&& forall|k: int|
            0 <= k < self.pairings_view().len() ==> is_pairing(
                self.routes@.len() as int,
                #[trigger] self.pairings_view()[k],
            )
    }

    /// Build a tour over the given cities, with every unordered pair of
    /// tour positions as a swap candidate, each exactly once.
    pub fn new(cities: Vec<(i32, i32)>) -> (r: Route)
        requires
            all_bounded(cities@),
        ensures
            r.wf(),
            r@ == cities@,
            r.pairings_view().no_duplicates(),
            forall|p: (usize, usize)| #[trigger] r.pairings_view().contains(p) <==> is_pairing(
                cities@.len() as int,
                p,
            ),
    {
        let pairings = get_all_possible_pairings(&cities);
        let r = Route { routes: cities, pairings };
        proof {
            assert forall|k: int| 0 <= k < r.pairings_view().len() implies is_pairing(
                r.routes@.len() as int,
                #[trigger] r.pairings_view()[k],
            ) by {
                assert(r.pairings_view().contains(r.pairings_view()[k]));
            }
        }
        r
    }

    /// The candidate pairs in a fresh random order: the same pairs, the
    /// same number of times each, reordered.
    pub fn possible_pairings(&self) -> (r: Vec<(usize, usize)>)
        ensures
            r@.to_multiset() == self.pairings_view().to_multiset(),
            r@.len() == self.pairings_view().len(),
    {
        let mut results: Vec<(usize, usize)> = Vec::new();
        let mut k: usize = 0;
        while k < self.pairings.len()
            invariant
                k <= self.pairings@.len(),
                results@ == self.pairings@.take(k as int),
            decreases self.pairings@.len() - k,
        {
            results.push(self.pairings[k]);
            proof {
                assert(results@ =~= self.pairings@.take(k + 1));
            }
            k = k + 1;
        }
        proof {
            assert(results@ =~= self.pairings@);
        }
        shuffle_pairs(&mut results);
        results
    }

    /// The 2-opt step on this tour: when the move at positions `index_a`
    /// and `index_b` is viable and strictly shortens the tour — compared
    /// exactly, with no rounding — reverse the segment between the two
    /// positions and report the swap; otherwise leave the tour untouched.
    /// Either way the tour keeps exactly its stops.
    pub fn should_edges_swap(&mut self, index_a: usize, index_b: usize) -> (r: bool)
        requires
            old(self).wf(),
            old(self)@.len() >= 1,
            index_a < old(self)@.len(),
            index_b < old(self)@.len(),
        ensures
            final(self).wf(),
            r == (swap_viable(old(self)@.len() as int, index_a as int, index_b as int)
                && swap_improves(old(self)@, index_a as int, index_b as int)),
            r ==> final(self)@ == after_swap(
                old(self)@,
                index_a as int,
                index_b as int,
            ),
            !r ==> final(self)@ == old(self)@,
            final(self)@.to_multiset() == old(self)@.to_multiset(),
            final(self)@.len() == old(self)@.len(),
            final(self).pairings_view() == old(self).pairings_view(),
    {
        let viable = self.check_swap_viability(index_a, index_b);
        if !viable {
            false
        } else {
            let r = crate::algorithms::should_edges_swap(&mut self.routes, index_a, index_b);
            proof {
                assert forall|k: int| 0 <= k < self.pairings_view().len() implies is_pairing(
                    self.routes@.len() as int,
                    #[trigger] self.pairings_view()[k],
                ) by {
                    assert(self.pairings_view() == old(self).pairings_view());
                    assert(is_pairing(old(self).routes@.len() as int, old(self).pairings_view()[k]));
                }
            }
            r
        }
    }

    /// Whether the 2-opt move at positions `a` and `b` is worth trying: a
    /// move across the tour's wrap-around point or between adjacent
    /// positions cannot change the tour.
    fn check_swap_viability(&self, a: usize, b: usize) -> (r: bool)
        requires
            self@.len() >= 1,
            a < self@.len(),
            b < self@.len(),
        ensures
            r == swap_viable(self@.len() as int, a as int, b as int),
    {
        let length = self.routes.len();
        let last_index = length - 1;
        if a == 0 {
            b != last_index
        } else if b == 0 {
            a != last_index
        } else {
            !(a == b + 1 || b == a + 1)
        }
    }
}

} // verus!
