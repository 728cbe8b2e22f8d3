use rusty_roads::geometry::{
    dist_sq_exec, isqrt, jitter, rot_ccw, rot_cw, scale_to_length, Offset, Point,
};
use rusty_roads::index::SpatialIndex;

#[test]
fn isqrt_exact_values() {
    assert_eq!(isqrt(0), 0);
    assert_eq!(isqrt(1), 1);
    assert_eq!(isqrt(2), 1);
    assert_eq!(isqrt(3), 1);
    assert_eq!(isqrt(4), 2);
    assert_eq!(isqrt(15), 3);
    assert_eq!(isqrt(16), 4);
    assert_eq!(isqrt(399), 19);
    assert_eq!(isqrt(400), 20);
    assert_eq!(isqrt(999_999), 999);
    assert_eq!(isqrt(1_000_000), 1000);
    assert_eq!(isqrt(u64::MAX), 0xFFFF_FFFF);
}

#[test]
fn dist_sq_exact_values() {
    assert_eq!(dist_sq_exec(&Point::new(0, 0), &Point::new(3, 4)), 25);
    assert_eq!(dist_sq_exec(&Point::new(-3, -4), &Point::new(0, 0)), 25);
    assert_eq!(dist_sq_exec(&Point::new(117, 103), &Point::new(120, 100)), 18);
    assert_eq!(dist_sq_exec(&Point::new(7, 7), &Point::new(7, 7)), 0);
}

#[test]
fn scale_exact_values() {
    // a 3-4-5 triangle rescales exactly
    assert_eq!(scale_to_length(&Offset { dx: 3, dy: 4 }, 10), Offset { dx: 6, dy: 8 });
    // an axis-aligned displacement of the target length is unchanged
    assert_eq!(scale_to_length(&Offset { dx: 20, dy: 0 }, 20), Offset { dx: 20, dy: 0 });
    assert_eq!(scale_to_length(&Offset { dx: 0, dy: -5 }, 20), Offset { dx: 0, dy: -20 });
    // the rounded-down norm of (1,1) is 1, so both components scale fully
    assert_eq!(scale_to_length(&Offset { dx: 1, dy: 1 }, 10), Offset { dx: 10, dy: 10 });
}

#[test]
fn rotations_exact_values() {
    assert_eq!(rot_ccw(&Offset { dx: 1, dy: 0 }), Offset { dx: 0, dy: 1 });
    assert_eq!(rot_ccw(&Offset { dx: 0, dy: 1 }), Offset { dx: -1, dy: 0 });
    assert_eq!(rot_cw(&Offset { dx: 1, dy: 0 }), Offset { dx: 0, dy: -1 });
    assert_eq!(rot_cw(&Offset { dx: 3, dy: -7 }), Offset { dx: -7, dy: -3 });
}

#[test]
fn jitter_deflects_heading_exactly() {
    // mixing in half the perpendicular component
    assert_eq!(jitter(&Offset { dx: 1000, dy: 0 }, 500), Offset { dx: 1000, dy: 500 });
    // zero jitter leaves the heading alone
    assert_eq!(jitter(&Offset { dx: 20, dy: 0 }, 0), Offset { dx: 20, dy: 0 });
    // truncation: 20 * 100 / 1000 = 2
    assert_eq!(jitter(&Offset { dx: 20, dy: 0 }, 100), Offset { dx: 20, dy: 2 });
    // a non-zero displacement never collapses to zero
    let r = jitter(&Offset { dx: 1, dy: 0 }, 999);
    assert!(!(r.dx == 0 && r.dy == 0));
}

#[test]
fn nearest_prefers_first_inserted_on_tie() {
    let mut idx = SpatialIndex::new();
    idx.insert_node(Point::new(0, 0));
    idx.insert_node(Point::new(2, 0));
    // both stored points are at squared distance 1 from the query
    assert_eq!(idx.nearest_search(&Point::new(1, 0)), Point::new(0, 0));
    // a strictly closer later point wins
    idx.insert_node(Point::new(1, 0));
    assert_eq!(idx.nearest_search(&Point::new(1, 0)), Point::new(1, 0));
}

#[test]
fn nearest_is_deterministic_and_read_only() {
    let mut idx = SpatialIndex::new();
    idx.insert_node(Point::new(10, 10));
    idx.insert_node(Point::new(30, 40));
    idx.insert_node(Point::new(-5, 2));
    let q = Point::new(29, 41);
    let first = idx.nearest_search(&q);
    let second = idx.nearest_search(&q);
    assert_eq!(first, second);
    assert_eq!(first, Point::new(30, 40));
    assert_eq!(idx.len(), 3);
}

#[test]
fn has_neighbor_compares_on_the_boundary() {
    let mut idx = SpatialIndex::new();
    idx.insert_node(Point::new(3, 4));
    // squared distance from the origin is exactly 25
    assert!(idx.has_neighbor_in_range(&Point::new(0, 0), 5));
    assert!(!idx.has_neighbor_in_range(&Point::new(0, 0), 4));
    assert!(!SpatialIndex::new().has_neighbor_in_range(&Point::new(0, 0), 1000));
}
