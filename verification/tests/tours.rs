use worker_pool::algorithms::should_edges_swap;
use worker_pool::route::Route;
use worker_pool::utils::{generate_cities, get_all_possible_pairings, Config};

fn square() -> Vec<(i32, i32)> {
    // A crossing tour over the four corners of a square: corner order
    // (0,0) -> (10,0) -> (0,10) -> (10,10) crosses itself twice.
    vec![(0, 0), (10, 0), (0, 10), (10, 10)]
}

#[test]
fn crossing_edges_are_swapped() {
    let mut routes = square();
    // Positions 0 and 2: the new edges (both length 10) beat the two
    // crossing diagonals (length sqrt(200) each).
    let swapped = should_edges_swap(&mut routes, 0, 2);
    assert!(swapped);
    // The segment [0, 2) is reversed.
    assert_eq!(routes, vec![(10, 0), (0, 0), (0, 10), (10, 10)]);
}

#[test]
fn a_longer_swap_is_declined() {
    // On the already-untangled square, the same move would re-cross the
    // tour, so it is declined and the tour is untouched.
    let mut routes = vec![(10, 0), (0, 0), (0, 10), (10, 10)];
    let swapped = should_edges_swap(&mut routes, 0, 2);
    assert!(!swapped);
    assert_eq!(routes, vec![(10, 0), (0, 0), (0, 10), (10, 10)]);
}

#[test]
fn an_equal_length_swap_is_declined() {
    // Positions 1 and 3 of the crossing square trade the two sides for the
    // two other sides: exactly equal length, so no swap.
    let mut routes = square();
    let swapped = should_edges_swap(&mut routes, 1, 3);
    assert!(!swapped);
    assert_eq!(routes, square());
}

#[test]
fn route_swaps_only_viable_pairs() {
    let mut route = Route::new(square());
    // Adjacent positions are never swapped.
    assert!(!route.should_edges_swap(1, 2));
    assert_eq!(route.routes, square());
    // First and last position are never swapped.
    assert!(!route.should_edges_swap(0, 3));
    assert_eq!(route.routes, square());
    // The untangling swap goes through.
    assert!(route.should_edges_swap(0, 2));
    assert_eq!(route.routes, vec![(10, 0), (0, 0), (0, 10), (10, 10)]);
}

#[test]
fn pairings_cover_every_unordered_pair_once() {
    let cities = square();
    let pairings = get_all_possible_pairings(&cities);
    let mut sorted = pairings.clone();
    sorted.sort();
    assert_eq!(sorted, vec![(0, 1), (0, 2), (0, 3), (1, 2), (1, 3), (2, 3)]);
}

#[test]
fn route_pairings_are_a_permutation_of_all_pairs() {
    let route = Route::new(square());
    let mut a = route.possible_pairings();
    let mut b = route.possible_pairings();
    a.sort();
    b.sort();
    assert_eq!(a, b);
    assert_eq!(a, vec![(0, 1), (0, 2), (0, 3), (1, 2), (1, 3), (2, 3)]);
}

#[test]
fn config_falls_back_to_defaults() {
    let c = Config::new(None, None).unwrap();
    assert_eq!(c.n_city, 30);
    assert_eq!(c.border, 1000);
    let c = Config::new(Some(7), Some(50)).unwrap();
    assert_eq!(c.n_city, 7);
    assert_eq!(c.border, 50);
}

#[test]
fn generated_cities_stay_inside_the_border() {
    let config = Config { n_city: 40, border: 25 };
    let cities = generate_cities(&config);
    assert_eq!(cities.len(), 39);
    for (x, y) in cities {
        assert!((0..25).contains(&x));
        assert!((0..25).contains(&y));
    }
}

#[test]
fn no_cities_are_generated_for_tiny_requests() {
    let config = Config { n_city: 1, border: 10 };
    assert_eq!(generate_cities(&config).len(), 0);
    let config = Config { n_city: 0, border: 10 };
    assert_eq!(generate_cities(&config).len(), 0);
}
