//! Shared helpers for the tour optimiser: run configuration, random city
//! generation, candidate index pairs, and the exact comparison of edge
//! lengths.
//!
//! Edge lengths are euclidean distances between integer points.  Instead of
//! rounding them through floating point, comparisons are decided exactly:
//! `root_sum_lt` states, purely over the squared lengths, whether one sum of
//! two square roots is smaller than another, and the executable comparison
//! computes that predicate in integer arithmetic.  Coordinates are bounded
//! by `COORD_LIMIT` so that every intermediate product fits in 128 bits.

use vstd::prelude::*;
use rand::Rng;
use rand::seq::SliceRandom;

verus! {

broadcast use {
    vstd::multiset::group_multiset_axioms,
    vstd::seq_lib::group_to_multiset_ensures,
};

/// The largest coordinate magnitude the optimiser accepts; keeps the exact
/// edge comparison inside 128-bit arithmetic.
pub const COORD_LIMIT: i32 = 10000;

/// Whether one point lies within the accepted coordinate range.
pub open spec fn coord_bounded(p: (i32, i32)) -> bool {
    &&& -COORD_LIMIT <= p.0 <= COORD_LIMIT
    &&& -COORD_LIMIT <= p.1 <= COORD_LIMIT
}

/// Whether every point of a tour lies within the accepted range.
pub open spec fn all_bounded(ps: Seq<(i32, i32)>) -> bool {
    forall|k: int| 0 <= k < ps.len() ==> coord_bounded(#[trigger] ps[k])
}

/// The square of an integer.
pub open spec fn sq(x: int) -> int {
    x * x
}

/// The squared euclidean distance between two points.
pub open spec fn dist_sq(a: (i32, i32), b: (i32, i32)) -> int {
    sq(a.0 - b.0) + sq(a.1 - b.1)
}

/// Whether `sqrt(p) + sqrt(q) < sqrt(r) + sqrt(s)`, for non-negative
/// integers, decided without square roots.  Squaring twice, with the sign
/// of each side tracked, turns the comparison into polynomial comparisons:
/// with `d = (r + s) - (p + q)` the inequality is `2 sqrt(pq) - 2 sqrt(rs)
/// < d`, and one more squaring on each branch removes the remaining root.
pub open spec fn root_sum_lt(p: int, q: int, r: int, s: int) -> bool {
    let d = (r + s) - (p + q);
    if d >= 0 {
        let t = 4 * (p * q) - d * d - 4 * (r * s);
        t < 0 || t * t < 16 * (d * d) * (r * s)
    } else {
        let u = 4 * (r * s) - 4 * (p * q) - d * d;
        u > 0 && 16 * (d * d) * (p * q) < u * u
    }
}

/// The index of the tour stop before `i`, wrapping to the last stop.
pub open spec fn prev_index(n: int, i: int) -> int {
    if i == 0 {
        n - 1
    } else {
        i - 1
    }
}

/// A sequence with the segment `[lo, hi)` reversed in place.
pub open spec fn reversed_segment<A>(s: Seq<A>, lo: int, hi: int) -> Seq<A> {
    s.take(lo) + s.subrange(lo, hi).reverse() + s.skip(hi)
}

/// The squared distance between two bounded points, computed exactly.
fn dsq(a: (i32, i32), b: (i32, i32)) -> (d: i64)
    requires
        coord_bounded(a),
        coord_bounded(b),
    ensures
        d == dist_sq(a, b),
        0 <= d <= 800_000_000,
{
    let dx = a.0 as i64 - b.0 as i64;
    let dy = a.1 as i64 - b.1 as i64;
    proof {
        assert(dx * dx >= 0 && dx * dx <= 400_000_000) by (nonlinear_arith)
            requires
                -20000 <= dx <= 20000,
        ;
        assert(dy * dy >= 0 && dy * dy <= 400_000_000) by (nonlinear_arith)
            requires
                -20000 <= dy <= 20000,
        ;
    }
    dx * dx + dy * dy
}

/// Whether replacing the tour edges `(a, pa)` and `(b, pb)` by `(a, b)` and
/// `(pa, pb)` strictly shortens the tour.  The result is exactly
/// `root_sum_lt` of the four squared edge lengths: the comparison of the two
/// sums of euclidean lengths, decided in integer arithmetic with no
/// rounding.
pub fn shorter_after_swap(a: (i32, i32), pa: (i32, i32), b: (i32, i32), pb: (i32, i32)) -> (r:
    bool)
    requires
        coord_bounded(a),
        coord_bounded(pa),
        coord_bounded(b),
        coord_bounded(pb),
    ensures
        r == root_sum_lt(dist_sq(a, b), dist_sq(pa, pb), dist_sq(a, pa), dist_sq(b, pb)),
{
    let p = dsq(a, b) as i128;
    let q = dsq(pa, pb) as i128;
    let rr = dsq(a, pa) as i128;
    let s = dsq(b, pb) as i128;
    proof {
        assert(p * q >= 0 && p * q <= 640_000_000_000_000_000i128) by (nonlinear_arith)
            requires
                0 <= p <= 800_000_000,
                0 <= q <= 800_000_000,
        ;
        assert(rr * s >= 0 && rr * s <= 640_000_000_000_000_000i128) by (nonlinear_arith)
            requires
                0 <= rr <= 800_000_000,
                0 <= s <= 800_000_000,
        ;
    }
    let d = (rr + s) - (p + q);
    proof {
        assert(d * d >= 0 && d * d <= 2_560_000_000_000_000_000i128) by (nonlinear_arith)
            requires
                -1_600_000_000 <= d <= 1_600_000_000,
        ;
    }
    if d >= 0 {
        let t = 4 * (p * q) - d * d - 4 * (rr * s);
        if t < 0 {
            true
        } else {
            proof {
                assert(t * t >= 0 && t * t <= 27_000_000_000_000_000_000_000_000_000_000_000_000i128)
                    by (nonlinear_arith)
                    requires
                        -5_120_000_000_000_000_000 <= t <= 5_120_000_000_000_000_000,
                ;
                assert(16 * (d * d) * (rr * s) >= 0 && 16 * (d * d) * (rr * s)
                    <= 27_000_000_000_000_000_000_000_000_000_000_000_000i128) by (nonlinear_arith)
                    requires
                        0 <= d * d <= 2_560_000_000_000_000_000i128,
                        0 <= rr * s <= 640_000_000_000_000_000i128,
                ;
            }
            t * t < 16 * (d * d) * (rr * s)
        }
    } else {
        let u = 4 * (rr * s) - 4 * (p * q) - d * d;
        if u <= 0 {
            false
        } else {
            proof {
                assert(u * u >= 0 && u * u <= 27_000_000_000_000_000_000_000_000_000_000_000_000i128)
                    by (nonlinear_arith)
                    requires
                        -5_120_000_000_000_000_000 <= u <= 5_120_000_000_000_000_000,
                ;
                assert(16 * (d * d) * (p * q) >= 0 && 16 * (d * d) * (p * q)
                    <= 27_000_000_000_000_000_000_000_000_000_000_000_000i128) by (nonlinear_arith)
                    requires
                        0 <= d * d <= 2_560_000_000_000_000_000i128,
                        0 <= p * q <= 640_000_000_000_000_000i128,
                ;
            }
            16 * (d * d) * (p * q) < u * u
        }
    }
}

/// A run configuration for the tour optimiser: how many city samples to
/// draw and the side length of the square they are drawn from.
pub struct Config {
    pub n_city: i32,
    pub border: i32,
}

impl Config {
    /// Build a configuration from optionally supplied values; each missing
    /// value falls back to its default.  No input is rejected.
    pub fn new(n_city: Option<i32>, border: Option<i32>) -> (r: Result<Config, &'static str>)
        ensures
            (r matches Ok(c) ==> c.n_city == (match n_city {
                Some(v) => v,
                None => 30,
            }) && c.border == (match border {
                Some(v) => v,
                None => 1000,
            })),
            r is Ok,
    {
        let n_city: i32 = match n_city {
            Some(v) => v,
            None => 30,
        };
        let border: i32 = match border {
            Some(v) => v,
            None => 1000,
        };
        Ok(Config { n_city, border })
    }
}

/// Draw one city fewer than `n_city` asks for, each uniformly from the
/// square `[0, border) x [0, border)`.
pub fn generate_cities(config: &Config) -> (r: Vec<(i32, i32)>)
    requires
        config.n_city > 1 ==> config.border >= 1,
    ensures
        r@.len() == (if config.n_city > 1 {
            config.n_city - 1
        } else {
            0int
        }),
        forall|k: int|
            0 <= k < r@.len() ==> 0 <= (#[trigger] r@[k]).0 < config.border && 0 <= r@[k].1
                < config.border,
{
    let mut results: Vec<(i32, i32)> = Vec::new();
    let mut i: i32 = 1;
    while i < config.n_city
        invariant
            config.n_city > 1 ==> config.border >= 1,
            1 <= i,
            config.n_city > 1 ==> i <= config.n_city,
            config.n_city <= 1 ==> i == 1,
            results@.len() == i - 1,
            forall|k: int|
                0 <= k < results@.len() ==> 0 <= (#[trigger] results@[k]).0 < config.border && 0
                    <= results@[k].1 < config.border,
        decreases config.n_city - i,
    {
        let x = gen_range_i32(0, config.border);
        let y = gen_range_i32(0, config.border);
        results.push((x, y));
        i = i + 1;
    }
    results
}

/// Whether `p` names two distinct tour positions in ascending order, as the
/// pairing builder produces them.
pub open spec fn is_pairing(n: int, p: (usize, usize)) -> bool {
    (p.0 as int) < (p.1 as int) < n
}

/// A permutation of a sequence holds exactly the same elements: membership
/// and freedom from duplicates carry across any reordering.
pub proof fn lemma_permutation_preserves<A>(s1: Seq<A>, s2: Seq<A>)
    requires
        s1.to_multiset() == s2.to_multiset(),
    ensures
        forall|x: A| #![trigger s1.contains(x)] #![trigger s2.contains(x)]
            (s1.contains(x) <==> s2.contains(x)),
        s1.no_duplicates() ==> s2.no_duplicates(),
{
    assert forall|x: A| s1.contains(x) implies s2.contains(x) by {
        s1.to_multiset_ensures();
        s2.to_multiset_ensures();
        assert(s1.to_multiset().count(x) > 0);
        assert(s2.to_multiset().count(x) > 0);
    }
    assert forall|x: A| s2.contains(x) implies s1.contains(x) by {
        s1.to_multiset_ensures();
        s2.to_multiset_ensures();
        assert(s2.to_multiset().count(x) > 0);
        assert(s1.to_multiset().count(x) > 0);
    }
    if s1.no_duplicates() {
        s1.lemma_multiset_has_no_duplicates();
        assert forall|x: A| s2.to_multiset().contains(x) implies s2.to_multiset().count(x)
            == 1 by {
            assert(s1.to_multiset().count(x) == s2.to_multiset().count(x));
        }
        s2.lemma_multiset_has_no_duplicates_conv();
    }
}

/// Every unordered pair of distinct tour positions, as an ascending index
/// pair, each exactly once, in a random order.
pub fn get_all_possible_pairings(routes: &Vec<(i32, i32)>) -> (r: Vec<(usize, usize)>)
    ensures
        r@.no_duplicates(),
        forall|p: (usize, usize)| #[trigger] r@.contains(p) <==> is_pairing(routes@.len() as int, p),
{
    let n = routes.len();
    let mut results: Vec<(usize, usize)> = Vec::new();
    let mut i: usize = 0;
    while i < n
        invariant
            i <= n,
            results@.no_duplicates(),
            forall|p: (usize, usize)| #[trigger] results@.contains(p) <==> (is_pairing(n as int, p)
                && (p.0 as int) < i),
        decreases n - i,
    {
        let mut j = i + 1;
        while j < n
            invariant
                i < n,
                i < j <= n,
                results@.no_duplicates(),
                forall|p: (usize, usize)| #[trigger] results@.contains(p) <==> (is_pairing(
                    n as int,
                    p,
                ) && ((p.0 as int) < i || (p.0 == i && (p.1 as int) < j))),
            decreases n - j,
        {
            let ghost before = results@;
            results.push((i, j));
            proof {
                assert(results@[before.len() as int] == (i, j));
                assert(results@.contains((i, j)));
                assert forall|p: (usize, usize)| #[trigger] results@.contains(p) <==> (is_pairing(
                    n as int,
                    p,
                ) && ((p.0 as int) < i || (p.0 == i && (p.1 as int) < j + 1))) by {
                    if results@.contains(p) {
                        let k = choose|k: int| 0 <= k < results@.len() && results@[k] == p;
                        if k < before.len() {
                            assert(before[k] == p);
                            assert(before.contains(p));
                        }
                    }
                    if is_pairing(n as int, p) && ((p.0 as int) < i || (p.0 == i && (p.1 as int) < j
                        + 1)) {
                        if p == (i, j) {
                        } else {
                            assert(before.contains(p));
                            let k = choose|k: int| 0 <= k < before.len() && before[k] == p;
                            assert(results@[k] == p);
                        }
                    }
                }
                assert(results@.no_duplicates()) by {
                    assert(!before.contains((i, j)));
                    assert forall|k1: int, k2: int|
                        0 <= k1 < k2 < results@.len() implies results@[k1] != results@[k2] by {
                        if k2 < before.len() {
                        } else {
                            assert(results@[k2] == (i, j));
                            assert(before[k1] == results@[k1]);
                            assert(before.contains(results@[k1]));
                        }
                    }
                }
            }
            j = j + 1;
        }
        i = i + 1;
    }
    let ghost built = results@;
    shuffle_pairs(&mut results);
    proof {
        lemma_permutation_preserves(built, results@);
    }
    results
}

/// Relies on rand::seq::SliceRandom::shuffle: an in-place Fisher-Yates
/// permutation that reorders the slice's elements and neither adds, drops
/// nor changes any; it never panics.
#[verifier::external_body]
pub(crate) fn shuffle_pairs(v: &mut Vec<(usize, usize)>)
    ensures
        final(v)@.to_multiset() == old(v)@.to_multiset(),
        final(v)@.len() == old(v)@.len(),
{
    v.shuffle(&mut rand::thread_rng());
}

/// Relies on rand::Rng::gen_range on a half-open i32 range: it panics
/// exactly on an empty range, excluded here, and otherwise returns a value
/// within the range.
#[verifier::external_body]
fn gen_range_i32(low: i32, high: i32) -> (r: i32)
    requires
        low < high,
    ensures
        low <= r < high,
{
    rand::thread_rng().gen_range(low..high)
}

} // verus!
