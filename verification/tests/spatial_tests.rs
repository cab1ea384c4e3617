use shooter_core::spatial::PointEntry;
use shooter_core::spatial::SpatialIndex;

fn entry(x: i64, y: i64, id: u64) -> PointEntry {
    PointEntry { x, y, id }
}

fn sorted_ids(hits: &[PointEntry]) -> Vec<u64> {
    let mut ids: Vec<u64> = hits.iter().map(|h| h.id).collect();
    ids.sort();
    ids
}

#[test]
fn radius_query_boundary_inclusive() {
    // Distance to (3, 4) is exactly 5: boundary points are included.
    let points = vec![entry(0, 0, 1), entry(100, 0, 2), entry(3, 4, 3)];
    let index = SpatialIndex::build(&points);
    let hits = index.query_radius(0, 0, 5);
    assert_eq!(sorted_ids(&hits), vec![1, 3]);
}

#[test]
fn query_before_first_build_is_empty() {
    let index = SpatialIndex::new();
    let hits = index.query_radius(0, 0, 1_000_000);
    assert!(hits.is_empty());
}

#[test]
fn query_on_empty_point_set() {
    let points: Vec<PointEntry> = Vec::new();
    let index = SpatialIndex::build(&points);
    assert!(index.query_radius(5, 5, 100).is_empty());
}

#[test]
fn all_identical_coordinates() {
    // A degenerate point set must not break the index.
    let mut points = Vec::new();
    for id in 0..50u64 {
        points.push(entry(7, -7, id));
    }
    let index = SpatialIndex::build(&points);
    let hits = index.query_radius(7, -7, 0);
    assert_eq!(hits.len(), 50);
    let miss = index.query_radius(8, -7, 0);
    assert!(miss.is_empty());
}

#[test]
fn exact_in_range_set_on_a_grid() {
    let mut points = Vec::new();
    let mut id: u64 = 0;
    for x in -10..=10i64 {
        for y in -10..=10i64 {
            points.push(entry(x * 10, y * 10, id));
            id += 1;
        }
    }
    let index = SpatialIndex::build(&points);
    let center = (15i64, -25i64);
    let radius = 37i64;
    let hits = index.query_radius(center.0, center.1, radius);
    let expected: Vec<u64> = points
        .iter()
        .filter(|p| {
            let dx = p.x - center.0;
            let dy = p.y - center.1;
            dx * dx + dy * dy <= radius * radius
        })
        .map(|p| p.id)
        .collect();
    let mut expected_sorted = expected;
    expected_sorted.sort();
    assert!(!expected_sorted.is_empty());
    assert_eq!(sorted_ids(&hits), expected_sorted);
}

#[test]
fn no_duplicate_ids_in_result() {
    let points = vec![
        entry(0, 0, 1),
        entry(1, 0, 2),
        entry(0, 1, 3),
        entry(-1, 0, 4),
        entry(0, -1, 5),
    ];
    let index = SpatialIndex::build(&points);
    let hits = index.query_radius(0, 0, 2);
    let ids = sorted_ids(&hits);
    let mut deduped = ids.clone();
    deduped.dedup();
    assert_eq!(ids, deduped);
    assert_eq!(ids, vec![1, 2, 3, 4, 5]);
}

#[test]
fn negative_coordinates_and_large_radius() {
    let points = vec![entry(-900_000_000, 900_000_000, 10), entry(900_000_000, -900_000_000, 20)];
    let index = SpatialIndex::build(&points);
    let hits = index.query_radius(0, 0, 2_000_000_000);
    assert_eq!(sorted_ids(&hits), vec![10, 20]);
    let near = index.query_radius(-900_000_000, 900_000_000, 10);
    assert_eq!(sorted_ids(&near), vec![10]);
}

#[test]
fn rebuild_replaces_snapshot() {
    let first = SpatialIndex::build(&vec![entry(0, 0, 1)]);
    let second = SpatialIndex::build(&vec![entry(50, 50, 2)]);
    // The old snapshot still answers from its own build instant.
    assert_eq!(sorted_ids(&first.query_radius(0, 0, 1)), vec![1]);
    assert_eq!(sorted_ids(&second.query_radius(0, 0, 1)), Vec::<u64>::new());
    assert_eq!(sorted_ids(&second.query_radius(50, 50, 0)), vec![2]);
}
