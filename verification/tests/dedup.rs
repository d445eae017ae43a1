use footprint::hashable_point::dedup;
use footprint::hashable_point::round_only;
use footprint::hashable_point::sanitize;
use footprint::hashable_point::sanitize_to_1m_no_dedup;
use footprint::hashable_point::HashablePoint;
use footprint::hashable_point::SanitizeStats;
use footprint::point::round_coordinate;
use footprint::point::round_to_10_meters;
use footprint::point::round_to_1_meter;
use footprint::point::round_to_grid;
use footprint::point::Point;
use footprint::point::GRID_10_METERS;
use footprint::point::GRID_1_METER;
use footprint::point::UNITS_PER_METER;

fn p(x: i64, y: i64) -> Point {
    Point::new(x, y)
}

#[test]
fn point_keeps_its_coordinates() {
    let q = Point::new(-7, 12);
    assert_eq!(q.x(), -7);
    assert_eq!(q.y(), 12);
    assert_eq!(q, Point { x: -7, y: 12 });
}

#[test]
fn grid_constants_are_in_millimetres() {
    assert_eq!(UNITS_PER_METER, 1000);
    assert_eq!(GRID_1_METER, UNITS_PER_METER);
    assert_eq!(GRID_10_METERS, 10 * UNITS_PER_METER);
}

#[test]
fn round_coordinate_goes_to_the_nearest_multiple() {
    assert_eq!(round_coordinate(0, 10), 0);
    assert_eq!(round_coordinate(4, 10), 0);
    assert_eq!(round_coordinate(6, 10), 10);
    assert_eq!(round_coordinate(14, 10), 10);
    assert_eq!(round_coordinate(16, 10), 20);
    assert_eq!(round_coordinate(-4, 10), 0);
    assert_eq!(round_coordinate(-6, 10), -10);
    assert_eq!(round_coordinate(123_456, 1000), 123_000);
    assert_eq!(round_coordinate(123_567, 1000), 124_000);
}

#[test]
fn round_coordinate_sends_halves_away_from_zero() {
    assert_eq!(round_coordinate(5, 10), 10);
    assert_eq!(round_coordinate(-5, 10), -10);
    assert_eq!(round_coordinate(15, 10), 20);
    assert_eq!(round_coordinate(-15, 10), -20);
    assert_eq!(round_coordinate(500, 1000), 1000);
    assert_eq!(round_coordinate(-500, 1000), -1000);
    assert_eq!(round_coordinate(499, 1000), 0);
    assert_eq!(round_coordinate(-499, 1000), 0);
}

#[test]
fn round_coordinate_with_grid_one_changes_nothing() {
    for v in [i64::MIN, -3, 0, 1, 77, i64::MAX] {
        assert_eq!(round_coordinate(v, 1), v);
    }
}

#[test]
fn round_coordinate_with_odd_grid_has_no_halves() {
    assert_eq!(round_coordinate(1, 3), 0);
    assert_eq!(round_coordinate(2, 3), 3);
    assert_eq!(round_coordinate(-1, 3), 0);
    assert_eq!(round_coordinate(-2, 3), -3);
}

#[test]
fn round_coordinate_stays_on_the_grid_at_the_limits() {
    // 9223372036854775807 lies nearer to ...810, which does not fit.
    assert_eq!(round_coordinate(i64::MAX, 10), 9_223_372_036_854_775_800);
    assert_eq!(round_coordinate(i64::MAX - 3, 10), 9_223_372_036_854_775_800);
    assert_eq!(round_coordinate(i64::MIN, 10), -9_223_372_036_854_775_800);
    assert_eq!(round_coordinate(i64::MIN + 2, 10), -9_223_372_036_854_775_800);
    assert_eq!(round_coordinate(i64::MAX, i64::MAX), i64::MAX);
    assert_eq!(round_coordinate(i64::MIN, i64::MAX), -i64::MAX);
    assert_eq!(round_coordinate(i64::MAX / 2, i64::MAX), 0);
    assert_eq!(round_coordinate(i64::MAX / 2 + 1, i64::MAX), i64::MAX);
}

#[test]
fn round_coordinate_is_idempotent() {
    for v in [-10_007, -5_000, -1, 0, 4_999, 5_000, 5_001, 987_654_321] {
        for g in [1, 7, 10, 1000, 10_000] {
            let once = round_coordinate(v, g);
            assert_eq!(once % g, 0);
            assert_eq!(round_coordinate(once, g), once);
            assert!((once - v).abs() * 2 <= g);
        }
    }
}

#[test]
fn round_to_grid_rounds_both_coordinates() {
    assert_eq!(round_to_grid(p(14, -16), 10), p(10, -20));
    assert_eq!(round_to_grid(p(5, -5), 10), p(10, -10));
}

#[test]
fn round_to_10_meters_uses_the_ten_metre_grid() {
    assert_eq!(round_to_10_meters(p(4_999, 5_000)), p(0, 10_000));
    assert_eq!(round_to_10_meters(p(-14_999, -15_000)), p(-10_000, -20_000));
    assert_eq!(round_to_10_meters(p(123_456_789, 0)), p(123_460_000, 0));
}

#[test]
fn round_to_1_meter_uses_the_one_metre_grid() {
    assert_eq!(round_to_1_meter(p(499, 500)), p(0, 1_000));
    assert_eq!(round_to_1_meter(p(-1_499, -1_500)), p(-1_000, -2_000));
    assert_eq!(round_to_1_meter(p(123_456_789, 0)), p(123_457_000, 0));
}

#[test]
fn hashable_point_from_point_rounds_to_ten_metres() {
    let h = HashablePoint::from(p(14_999, -5_000));
    assert_eq!(h, HashablePoint { x_rounded: 10_000, y_rounded: -10_000 });
    assert_eq!(Point::from(h), p(10_000, -10_000));
}

#[test]
fn hashable_point_on_grid_rounds_to_the_given_grid() {
    let h = HashablePoint::on_grid(p(1_499, 1_500), 1000);
    assert_eq!(h, HashablePoint { x_rounded: 1_000, y_rounded: 2_000 });
}

#[test]
fn hashable_points_of_one_cell_are_equal() {
    let a = HashablePoint::from(p(1, 2));
    let b = HashablePoint::from(p(4_999, -4_999));
    let c = HashablePoint::from(p(5_000, 0));
    assert_eq!(a, b);
    assert_ne!(a, c);
}

#[test]
fn hashable_point_code_tells_cells_apart() {
    let origin = HashablePoint { x_rounded: 0, y_rounded: 0 };
    assert_eq!(origin.code(), (1u128 << 127) + (1u128 << 63));
    let lowest = HashablePoint { x_rounded: i64::MIN, y_rounded: i64::MIN };
    assert_eq!(lowest.code(), 0);
    let highest = HashablePoint { x_rounded: i64::MAX, y_rounded: i64::MAX };
    assert_eq!(highest.code(), u128::MAX);
    let a = HashablePoint { x_rounded: 10, y_rounded: -10 };
    let b = HashablePoint { x_rounded: -10, y_rounded: 10 };
    let c = HashablePoint { x_rounded: 10, y_rounded: -10 };
    assert_ne!(a.code(), b.code());
    assert_eq!(a.code(), c.code());
    assert_eq!(a.code(), ((10u128 + (1u128 << 63)) << 64) + ((1u128 << 63) - 10));
}

#[test]
fn dedup_of_nothing_is_nothing() {
    let (points, stats) = dedup(&Vec::new(), 10);
    assert!(points.is_empty());
    assert_eq!(stats, SanitizeStats { final_count: 0, removed_count: 0, removal_basis_points: 0 });
    let (points, stats) = sanitize(Vec::new());
    assert!(points.is_empty());
    assert_eq!(stats, SanitizeStats { final_count: 0, removed_count: 0, removal_basis_points: 0 });
}

#[test]
fn dedup_keeps_one_rounded_point_per_cell() {
    let input = vec![p(1, 1), p(12, 9), p(-4, 4), p(8, 11), p(100, 100), p(3, -3)];
    let (points, stats) = dedup(&input, 10);
    assert_eq!(points, vec![p(0, 0), p(10, 10), p(100, 100)]);
    assert_eq!(stats.final_count, 3);
    assert_eq!(stats.removed_count, 3);
    assert_eq!(stats.removal_basis_points, 5000);
}

#[test]
fn dedup_keeps_the_rounded_coordinates_not_the_raw_ones() {
    let (points, _) = dedup(&vec![p(4, 4)], 10);
    assert_eq!(points, vec![p(0, 0)]);
}

#[test]
fn dedup_keeps_cells_in_order_of_first_occurrence() {
    let input = vec![p(30, 0), p(10, 0), p(31, 1), p(20, 0), p(11, -1)];
    let (points, _) = dedup(&input, 10);
    assert_eq!(points, vec![p(30, 0), p(10, 0), p(20, 0)]);
}

#[test]
fn dedup_output_is_separated_by_a_grid_step() {
    let mut input = Vec::new();
    for i in -40..40i64 {
        for j in -3..3i64 {
            input.push(p(i * 7 + j, j * 13 - i));
        }
    }
    for g in [1i64, 5, 10, 64] {
        let (points, stats) = dedup(&input, g);
        assert_eq!(stats.final_count, points.len());
        assert_eq!(stats.final_count + stats.removed_count, input.len());
        for a in 0..points.len() {
            assert_eq!(points[a].x % g, 0);
            assert_eq!(points[a].y % g, 0);
            for b in 0..points.len() {
                if a != b {
                    let dx = (points[a].x - points[b].x).abs();
                    let dy = (points[a].y - points[b].y).abs();
                    assert!(dx >= g || dy >= g);
                }
            }
        }
        for q in &input {
            assert!(points.contains(&round_to_grid(*q, g)));
        }
    }
}

#[test]
fn dedup_is_idempotent() {
    let input = vec![p(1, 1), p(12, 9), p(-4, 4), p(8, 11), p(100, 100), p(3, -3), p(-96, 55)];
    for g in [1i64, 10, 50] {
        let (once, _) = dedup(&input, g);
        let (twice, stats) = dedup(&once, g);
        assert_eq!(twice, once);
        assert_eq!(stats.removed_count, 0);
        assert_eq!(stats.removal_basis_points, 0);
    }
}

#[test]
fn dedup_of_equal_points_leaves_one() {
    let input = vec![p(7, 7); 4];
    let (points, stats) = dedup(&input, 10);
    assert_eq!(points, vec![p(10, 10)]);
    assert_eq!(
        stats,
        SanitizeStats { final_count: 1, removed_count: 3, removal_basis_points: 7500 }
    );
}

#[test]
fn dedup_tells_far_cells_apart() {
    let input = vec![p(i64::MAX, i64::MIN), p(i64::MIN, i64::MAX), p(i64::MAX, i64::MIN)];
    let (points, stats) = dedup(&input, 1);
    assert_eq!(points, vec![p(i64::MAX, i64::MIN), p(i64::MIN, i64::MAX)]);
    assert_eq!(stats.removed_count, 1);
    assert_eq!(stats.removal_basis_points, 3333);
}

#[test]
fn sanitize_rounds_to_ten_metres() {
    let input = vec![p(1_000, 2_000), p(4_000, -4_000), p(12_000, 0), p(14_999, 4_999)];
    let (points, stats) = sanitize(input);
    assert_eq!(points, vec![p(0, 0), p(10_000, 0)]);
    assert_eq!(
        stats,
        SanitizeStats { final_count: 2, removed_count: 2, removal_basis_points: 5000 }
    );
}

#[test]
fn sanitize_after_one_metre_rounding_of_three_far_points() {
    let input = vec![p(0, 0), p(1_000_000, 0), p(2_000_000, 0)];
    let rounded = sanitize_to_1m_no_dedup(input.clone());
    assert_eq!(rounded, input);
    let (points, stats) = sanitize(rounded);
    assert_eq!(points, input);
    assert_eq!(stats.removed_count, 0);
}

#[test]
fn round_only_keeps_every_point() {
    let input = vec![p(1, 1), p(2, 2), p(1, 1), p(14, 16), p(1, 1)];
    let out = round_only(&input, 10);
    assert_eq!(out.len(), input.len());
    assert_eq!(out, vec![p(0, 0), p(0, 0), p(0, 0), p(10, 20), p(0, 0)]);
    assert!(round_only(&Vec::new(), 10).is_empty());
}

#[test]
fn sanitize_to_1m_no_dedup_keeps_duplicates() {
    let input = vec![p(1_499, 1_500), p(1_400, 1_600), p(-500, 499)];
    let out = sanitize_to_1m_no_dedup(input);
    assert_eq!(out, vec![p(1_000, 2_000), p(1_000, 2_000), p(-1_000, 0)]);
    assert!(sanitize_to_1m_no_dedup(Vec::new()).is_empty());
}

#[test]
fn stats_share_is_in_hundredths_of_a_percent_rounded_down() {
    assert_eq!(SanitizeStats::new(0, 0).removal_basis_points, 0);
    assert_eq!(SanitizeStats::new(3, 3).removal_basis_points, 0);
    assert_eq!(SanitizeStats::new(3, 2).removal_basis_points, 3333);
    assert_eq!(SanitizeStats::new(3, 1).removal_basis_points, 6666);
    assert_eq!(SanitizeStats::new(3, 0).removal_basis_points, 10_000);
    assert_eq!(SanitizeStats::new(8, 7).removal_basis_points, 1250);
    let all = SanitizeStats::new(usize::MAX, 0);
    assert_eq!(all.removal_basis_points, 10_000);
    assert_eq!(all.removed_count, usize::MAX);
    let one = SanitizeStats::new(usize::MAX, usize::MAX - 1);
    assert_eq!(one.removal_basis_points, 0);
    assert_eq!(one.final_count, usize::MAX - 1);
    assert_eq!(one.removed_count, 1);
}
