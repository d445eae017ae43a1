use footprint::geometry::Polygon;
use footprint::geometry::Ring;
use footprint::point::Point;

fn ring(coordinates: &[(i64, i64)]) -> Ring {
    Ring::new(coordinates.iter().map(|&(x, y)| Point::new(x, y)).collect())
}

#[test]
fn ring_is_closed_when_it_ends_where_it_starts() {
    assert!(ring(&[(0, 0), (4, 0), (0, 3), (0, 0)]).is_closed());
    assert!(!ring(&[(0, 0), (4, 0), (0, 3), (1, 0)]).is_closed());
    assert!(!ring(&[(0, 0), (4, 0), (0, 0)]).is_closed());
    assert!(!ring(&[(0, 0)]).is_closed());
    assert!(!ring(&[]).is_closed());
}

#[test]
fn doubled_area_of_a_triangle() {
    assert_eq!(ring(&[(0, 0), (4, 0), (0, 3), (0, 0)]).doubled_area(), Some(12));
}

#[test]
fn doubled_area_does_not_depend_on_direction_or_start() {
    let forward = ring(&[(0, 0), (10, 0), (10, 10), (0, 10), (0, 0)]);
    let backward = ring(&[(0, 0), (0, 10), (10, 10), (10, 0), (0, 0)]);
    let rotated = ring(&[(10, 10), (0, 10), (0, 0), (10, 0), (10, 10)]);
    assert_eq!(forward.doubled_area(), Some(200));
    assert_eq!(backward.doubled_area(), Some(200));
    assert_eq!(rotated.doubled_area(), Some(200));
}

#[test]
fn doubled_area_does_not_depend_on_position() {
    let near = ring(&[(0, 0), (7, 0), (7, 5), (0, 5), (0, 0)]);
    let far = ring(&[
        (-1_000_000, 2_000_000),
        (-999_993, 2_000_000),
        (-999_993, 2_000_005),
        (-1_000_000, 2_000_005),
        (-1_000_000, 2_000_000),
    ]);
    assert_eq!(near.doubled_area(), Some(70));
    assert_eq!(far.doubled_area(), Some(70));
}

#[test]
fn doubled_area_of_a_flat_ring_is_zero() {
    assert_eq!(ring(&[(0, 0), (5, 5), (9, 9), (0, 0)]).doubled_area(), Some(0));
}

#[test]
fn doubled_area_is_unknown_for_an_open_or_short_ring() {
    assert_eq!(ring(&[(0, 0), (4, 0), (0, 3), (1, 1)]).doubled_area(), None);
    assert_eq!(ring(&[(0, 0), (4, 0), (0, 0)]).doubled_area(), None);
    assert_eq!(ring(&[]).doubled_area(), None);
}

#[test]
fn doubled_area_is_unknown_when_the_sum_overflows() {
    let lo = i64::MIN;
    let hi = i64::MAX;
    let huge = ring(&[(lo, lo), (hi, lo), (hi, hi), (lo, hi), (lo, lo)]);
    assert_eq!(huge.doubled_area(), None);
}

#[test]
fn doubled_area_of_a_large_square_is_exact() {
    let side = 1i64 << 40;
    let square = ring(&[(0, 0), (side, 0), (side, side), (0, side), (0, 0)]);
    assert_eq!(square.doubled_area(), Some(1u128 << 81));
}

#[test]
fn polygon_keeps_its_rings() {
    let outer = ring(&[(0, 0), (10, 0), (10, 10), (0, 10), (0, 0)]);
    let hole = ring(&[(2, 2), (4, 2), (4, 4), (2, 4), (2, 2)]);
    let polygon = Polygon::new(outer, vec![hole]);
    assert_eq!(polygon.hole_count(), 1);
    assert_eq!(polygon.exterior.vertices.len(), 5);
    assert_eq!(polygon.interiors[0].vertices[1], Point::new(4, 2));
}
