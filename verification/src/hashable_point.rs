//! Spatial deduplication: points are rounded to a grid and one representative
//! is kept for every occupied grid cell.

use vstd::prelude::*;
use std::collections::HashSet;
use crate::point::Point;
use crate::point::GRID_10_METERS;
use crate::point::GRID_1_METER;
use crate::point::rounded_point;
use crate::point::point_on_grid;
use crate::point::separated;
use crate::point::round_to_grid;
use crate::point::round_to_10_meters;
use crate::point::lemma_rounded_point;
use crate::point::lemma_grid_points_separated;

verus! {

broadcast use vstd::std_specs::hash::group_hash_axioms;

/// A grid cell, named by the rounded coordinates of its points. Two points
/// with the same cell are the same location at the grid's resolution.
#[derive(Clone, Copy, Debug, PartialEq, Eq, Hash, Structural)]
pub struct HashablePoint {
    pub x_rounded: i64,
    pub y_rounded: i64,
}

/// What a deduplication run reports: how many points are left, how many were
/// dropped, and the dropped share of the input in hundredths of a percent.
#[derive(Clone, Copy, Debug, PartialEq, Eq, Structural)]
pub struct SanitizeStats {
    pub final_count: usize,
    pub removed_count: usize,
    pub removal_basis_points: u32,
}

/// The number under which a cell is kept in a hash set: both coordinates
/// shifted to be non-negative and laid side by side in 128 bits.
pub open spec fn cell_code(p: Point) -> u128 {
    ((p.x + 0x8000_0000_0000_0000) * 0x1_0000_0000_0000_0000 + (p.y + 0x8000_0000_0000_0000)) as u128
}

/// The codes of all points of a sequence.
spec fn cell_codes(s: Seq<Point>) -> Set<u128> {
    Set::new(|c: u128| exists|j: int| 0 <= j < s.len() && #[trigger] cell_code(s[j]) == c)
}

/// Every point of the sequence, rounded to the grid, in the same order.
pub open spec fn round_all(s: Seq<Point>, grid: int) -> Seq<Point> {
    Seq::new(s.len(), |i: int| rounded_point(s[i], grid))
}

/// The sequence without repetitions: each value stays where it first occurs.
pub open spec fn first_occurrences(s: Seq<Point>) -> Seq<Point>
    decreases s.len(),
{
    if s.len() == 0 {
        Seq::empty()
    } else {
        let kept = first_occurrences(s.drop_last());
        if kept.contains(s.last()) {
            kept
        } else {
            kept.push(s.last())
        }
    }
}

/// The occupied grid cells of a point sequence, each once, in the order in
/// which the input first reaches them.
pub open spec fn deduplicated(s: Seq<Point>, grid: int) -> Seq<Point> {
    first_occurrences(round_all(s, grid))
}

/// The report for a run that kept `kept` of `original` points.
pub open spec fn stats_for(original: int, kept: int) -> SanitizeStats {
    SanitizeStats {
        final_count: kept as usize,
        removed_count: (original - kept) as usize,
        removal_basis_points: if original == 0 {
            0
        } else {
            ((original - kept) * 10000 / original) as u32
        },
    }
}

/// Different points have different codes.
pub proof fn lemma_cell_code_injective(p: Point, q: Point)
    ensures
        cell_code(p) == cell_code(q) <==> p == q,
{
}

/// A sequence holds a point exactly when its codes hold the point's code.
proof fn lemma_cell_codes_contains(s: Seq<Point>, p: Point)
    ensures
        cell_codes(s).contains(cell_code(p)) <==> s.contains(p),
{
    if s.contains(p) {
        let j = choose|j: int| 0 <= j < s.len() && s[j] == p;
        assert(cell_code(s[j]) == cell_code(p));
    }
    if cell_codes(s).contains(cell_code(p)) {
        let j = choose|j: int| 0 <= j < s.len() && #[trigger] cell_code(s[j]) == cell_code(p);
        lemma_cell_code_injective(s[j], p);
    }
}

/// Appending a point adds its code to the codes.
proof fn lemma_cell_codes_push(s: Seq<Point>, p: Point)
    ensures
        cell_codes(s.push(p)) == cell_codes(s).insert(cell_code(p)),
{
    let t = s.push(p);
    assert forall|c: u128| cell_codes(t).contains(c) <==> cell_codes(s).insert(cell_code(p)).contains(
        c,
    ) by {
        if cell_codes(t).contains(c) {
            let j = choose|j: int| 0 <= j < t.len() && #[trigger] cell_code(t[j]) == c;
            if j < s.len() {
                assert(cell_code(s[j]) == c);
            }
        }
        if cell_codes(s).contains(c) {
            let j = choose|j: int| 0 <= j < s.len() && #[trigger] cell_code(s[j]) == c;
            assert(cell_code(t[j]) == c);
        }
        if c == cell_code(p) {
            assert(cell_code(t[s.len() as int]) == c);
        }
    }
    assert(cell_codes(t) =~= cell_codes(s).insert(cell_code(p)));
}

/// What `first_occurrences` keeps: no value twice, exactly the values of the
/// input, and never more entries than the input has.
pub proof fn lemma_first_occurrences(s: Seq<Point>)
    ensures
        first_occurrences(s).no_duplicates(),
        first_occurrences(s).len() <= s.len(),
        forall|p: Point| #[trigger] first_occurrences(s).contains(p) <==> s.contains(p),
    decreases s.len(),
{
    if s.len() > 0 {
        let init = s.drop_last();
        let kept = first_occurrences(init);
        lemma_first_occurrences(init);
        let result = first_occurrences(s);
        assert forall|p: Point| #[trigger] result.contains(p) <==> s.contains(p) by {
            assert(kept.contains(p) <==> init.contains(p));
            if result.contains(p) {
                let j = choose|j: int| 0 <= j < result.len() && result[j] == p;
                if j < kept.len() {
                    assert(kept[j] == p);
                    assert(kept.contains(p));
                    let k = choose|k: int| 0 <= k < init.len() && init[k] == p;
                    assert(s[k] == p);
                } else {
                    assert(s[s.len() - 1] == p);
                }
            }
            if s.contains(p) {
                let k = choose|k: int| 0 <= k < s.len() && s[k] == p;
                if k < init.len() {
                    assert(init[k] == p);
                    assert(kept.contains(p));
                    let j = choose|j: int| 0 <= j < kept.len() && kept[j] == p;
                    assert(result[j] == p);
                } else {
                    if kept.contains(p) {
                        let j = choose|j: int| 0 <= j < kept.len() && kept[j] == p;
                        assert(result[j] == p);
                    } else {
                        assert(result[kept.len() as int] == p);
                    }
                }
            }
        }
    }
}

/// A sequence without repetitions is its own deduplication.
pub proof fn lemma_first_occurrences_of_distinct(s: Seq<Point>)
    requires
        s.no_duplicates(),
    ensures
        first_occurrences(s) == s,
    decreases s.len(),
{
    if s.len() > 0 {
        let init = s.drop_last();
        lemma_first_occurrences_of_distinct(init);
        lemma_first_occurrences(init);
        if init.contains(s.last()) {
            let k = choose|k: int| 0 <= k < init.len() && init[k] == s.last();
            assert(s[k] == s[s.len() - 1]);
        }
        assert(init.push(s.last()) =~= s);
    } else {
        assert(s =~= Seq::empty());
    }
}

/// Rounding a sequence whose points are all on the grid changes nothing.
pub proof fn lemma_round_all_on_grid(s: Seq<Point>, grid: int)
    requires
        0 < grid <= i64::MAX,
        forall|i: int| 0 <= i < s.len() ==> point_on_grid(#[trigger] s[i], grid),
    ensures
        round_all(s, grid) == s,
{
    assert forall|i: int| 0 <= i < s.len() implies round_all(s, grid)[i] == s[i] by {
        lemma_rounded_point(s[i], grid);
    }
    assert(round_all(s, grid) =~= s);
}

/// Every point that deduplication keeps lies on the grid and is the rounding of
/// an input point, and the rounding of every input point is kept.
pub proof fn lemma_deduplicated_members(s: Seq<Point>, grid: int)
    requires
        0 < grid <= i64::MAX,
    ensures
        deduplicated(s, grid).no_duplicates(),
        deduplicated(s, grid).len() <= s.len(),
        forall|i: int|
            0 <= i < deduplicated(s, grid).len() ==> point_on_grid(
                #[trigger] deduplicated(s, grid)[i],
                grid,
            ),
        forall|p: Point|
            deduplicated(s, grid).contains(p) <==> exists|i: int|
                0 <= i < s.len() && #[trigger] rounded_point(s[i], grid) == p,
{
    let r = round_all(s, grid);
    let d = deduplicated(s, grid);
    lemma_first_occurrences(r);
    assert forall|p: Point| d.contains(p) <==> exists|i: int|
        0 <= i < s.len() && #[trigger] rounded_point(s[i], grid) == p by {
        if d.contains(p) {
            assert(r.contains(p));
            let i = choose|i: int| 0 <= i < r.len() && r[i] == p;
            assert(rounded_point(s[i], grid) == p);
        }
        if exists|i: int| 0 <= i < s.len() && #[trigger] rounded_point(s[i], grid) == p {
            let i = choose|i: int| 0 <= i < s.len() && #[trigger] rounded_point(s[i], grid) == p;
            assert(r[i] == p);
            assert(r.contains(p));
        }
    }
    assert forall|i: int| 0 <= i < d.len() implies point_on_grid(#[trigger] d[i], grid) by {
        assert(d.contains(d[i]));
        let k = choose|k: int| 0 <= k < s.len() && #[trigger] rounded_point(s[k], grid) == d[i];
        lemma_rounded_point(s[k], grid);
    }
}

/// Grid separation: any two different points that deduplication keeps differ
/// by at least one grid step in x or in y.
pub proof fn lemma_deduplicated_separated(s: Seq<Point>, grid: int, i: int, j: int)
    requires
        0 < grid <= i64::MAX,
        0 <= i < deduplicated(s, grid).len(),
        0 <= j < deduplicated(s, grid).len(),
        i != j,
    ensures
        deduplicated(s, grid)[i] != deduplicated(s, grid)[j],
        separated(deduplicated(s, grid)[i], deduplicated(s, grid)[j], grid),
{
    lemma_deduplicated_members(s, grid);
    let d = deduplicated(s, grid);
    lemma_grid_points_separated(d[i], d[j], grid);
}

/// Idempotence: deduplicating an already deduplicated sequence on the same
/// grid gives it back unchanged.
pub proof fn lemma_deduplicated_idempotent(s: Seq<Point>, grid: int)
    requires
        0 < grid <= i64::MAX,
    ensures
        deduplicated(deduplicated(s, grid), grid) == deduplicated(s, grid),
{
    let d = deduplicated(s, grid);
    lemma_deduplicated_members(s, grid);
    lemma_round_all_on_grid(d, grid);
    lemma_first_occurrences_of_distinct(d);
}

/// Deduplication of nothing is nothing, with an all-zero report.
pub proof fn lemma_deduplicated_empty(grid: int)
    ensures
        deduplicated(Seq::<Point>::empty(), grid) == Seq::<Point>::empty(),
        stats_for(0, 0) == (SanitizeStats {
            final_count: 0,
            removed_count: 0,
            removal_basis_points: 0,
        }),
{
    assert(round_all(Seq::<Point>::empty(), grid) =~= Seq::<Point>::empty());
}

/// Rounding without deduplication keeps the number of points.
pub proof fn lemma_round_all_len(s: Seq<Point>, grid: int)
    ensures
        round_all(s, grid).len() == s.len(),
{
}

impl HashablePoint {
    /// The cell of `point` on a grid of the given size.
    pub fn on_grid(point: Point, grid: i64) -> (h: HashablePoint)
        requires
            grid > 0,
        ensures
            h@ == rounded_point(point, grid as int),
    {
        let r: Point = round_to_grid(point, grid);
        HashablePoint { x_rounded: r.x, y_rounded: r.y }
    }

    /// The number under which the cell is stored in a hash set.
    pub fn code(&self) -> (c: u128)
        ensures
            c == cell_code(self@),
    {
        let shift: u128 = 0x1_0000_0000_0000_0000;
        let offset: i128 = 0x8000_0000_0000_0000;
        let high: u128 = (self.x_rounded as i128 + offset) as u128;
        let low: u128 = (self.y_rounded as i128 + offset) as u128;
        high * shift + low
    }
}

impl View for HashablePoint {
    type V = Point;

    /// The representative of the cell: the point at its rounded coordinates.
    open spec fn view(&self) -> Point {
        Point { x: self.x_rounded, y: self.y_rounded }
    }
}

impl From<Point> for HashablePoint {
    /// The cell of `point` on the ten-metre grid.
    fn from(point: Point) -> (h: HashablePoint) {
        let r: Point = round_to_10_meters(point);
        HashablePoint { x_rounded: r.x, y_rounded: r.y }
    }
}

impl vstd::std_specs::convert::FromSpecImpl<Point> for HashablePoint {
    open spec fn obeys_from_spec() -> bool {
        true
    }

    open spec fn from_spec(point: Point) -> HashablePoint {
        let r = rounded_point(point, GRID_10_METERS as int);
        HashablePoint { x_rounded: r.x, y_rounded: r.y }
    }
}

impl From<HashablePoint> for Point {
    /// The representative of a cell.
    fn from(hashable: HashablePoint) -> (p: Point) {
        Point { x: hashable.x_rounded, y: hashable.y_rounded }
    }
}

impl vstd::std_specs::convert::FromSpecImpl<HashablePoint> for Point {
    open spec fn obeys_from_spec() -> bool {
        true
    }

    open spec fn from_spec(hashable: HashablePoint) -> Point {
        hashable@
    }
}

impl SanitizeStats {
    /// The report for a run that kept `kept` of `original` points.
    pub fn new(original: usize, kept: usize) -> (stats: SanitizeStats)
        requires
            kept <= original,
        ensures
            stats == stats_for(original as int, kept as int),
            stats.final_count + stats.removed_count == original,
            stats.removal_basis_points <= 10000,
    {
        let removed: usize = original - kept;
        let share: u32 = if original == 0 {
            0
        } else {
            let scaled: u128 = (removed as u128) * 10000;
            let quotient: u128 = scaled / (original as u128);
            proof {
                vstd::arithmetic::div_mod::lemma_fundamental_div_mod(
                    scaled as int,
                    original as int,
                );
                assert(quotient <= 10000) by (nonlinear_arith)
                    requires
                        scaled as int == (original as int) * (quotient as int) + (scaled as int) % (
                        original as int),
                        (scaled as int) % (original as int) >= 0,
                        scaled <= 10000 * original,
                        original > 0,
                ;
            }
            quotient as u32
        };
        SanitizeStats { final_count: kept, removed_count: removed, removal_basis_points: share }
    }
}

/// Rounds every point to the grid and keeps each occupied cell once, at the
/// place where the input first reaches it. The kept points carry the rounded
/// coordinates, not the ones that came in.
pub fn dedup(points: &Vec<Point>, grid: i64) -> (out: (Vec<Point>, SanitizeStats))
    requires
        grid > 0,
    ensures
        out.0@ == deduplicated(points@, grid as int),
        out.1 == stats_for(points.len() as int, out.0.len() as int),
        out.0.len() <= points.len(),
        out.0@.no_duplicates(),
        forall|i: int| 0 <= i < out.0.len() ==> point_on_grid(#[trigger] out.0[i], grid as int),
        forall|i: int, j: int|
            0 <= i < out.0.len() && 0 <= j < out.0.len() && i != j ==> separated(
                #[trigger] out.0[i],
                #[trigger] out.0[j],
                grid as int,
            ),
        forall|p: Point|
            out.0@.contains(p) <==> exists|i: int|
                0 <= i < points.len() && #[trigger] rounded_point(points[i], grid as int) == p,
        points.len() == 0 ==> out.0.len() == 0 && out.1 == (SanitizeStats {
            final_count: 0,
            removed_count: 0,
            removal_basis_points: 0,
        }),
{
    let n: usize = points.len();
    let mut seen: HashSet<u128> = HashSet::new();
    let mut kept: Vec<Point> = Vec::new();
    let mut i: usize = 0;
    proof {
        assert(round_all(points@.take(0), grid as int) =~= Seq::<Point>::empty());
        assert(seen@ =~= cell_codes(kept@));
    }
    while i < n
        invariant
            n == points.len(),
            grid > 0,
            i <= n,
            kept@ == deduplicated(points@.take(i as int), grid as int),
            kept.len() <= i,
            seen@ == cell_codes(kept@),
        decreases n - i,
    {
        let cell: HashablePoint = HashablePoint::on_grid(points[i], grid);
        let code: u128 = cell.code();
        let fresh: bool = seen.insert(code);
        proof {
            let before = points@.take(i as int);
            let after = points@.take(i + 1);
            let r = rounded_point(points[i as int], grid as int);
            assert(cell@ == r);
            assert(round_all(after, grid as int).drop_last() =~= round_all(before, grid as int));
            assert(round_all(after, grid as int).last() == r);
            lemma_cell_codes_contains(kept@, r);
            lemma_cell_codes_push(kept@, r);
        }
        if fresh {
            kept.push(Point::from(cell));
        }
        i = i + 1;
    }
    proof {
        assert(points@.take(n as int) =~= points@);
        lemma_deduplicated_members(points@, grid as int);
        assert forall|a: int, b: int|
            0 <= a < kept.len() && 0 <= b < kept.len() && a != b implies separated(
            #[trigger] kept[a],
            #[trigger] kept[b],
            grid as int,
        ) by {
            lemma_deduplicated_separated(points@, grid as int, a, b);
        }
        lemma_deduplicated_empty(grid as int);
    }
    let stats: SanitizeStats = SanitizeStats::new(n, kept.len());
    (kept, stats)
}

/// Rounds every point to the grid and keeps them all, in order.
pub fn round_only(points: &Vec<Point>, grid: i64) -> (out: Vec<Point>)
    requires
        grid > 0,
    ensures
        out@ == round_all(points@, grid as int),
        out.len() == points.len(),
        forall|i: int| 0 <= i < out.len() ==> point_on_grid(#[trigger] out[i], grid as int),
{
    let n: usize = points.len();
    let mut out: Vec<Point> = Vec::new();
    let mut i: usize = 0;
    while i < n
        invariant
            n == points.len(),
            grid > 0,
            i <= n,
            out.len() == i,
            forall|k: int| 0 <= k < i ==> #[trigger] out[k] == rounded_point(points[k], grid as int),
            forall|k: int| 0 <= k < i ==> point_on_grid(#[trigger] out[k], grid as int),
        decreases n - i,
    {
        out.push(round_to_grid(points[i], grid));
        i = i + 1;
    }
    proof {
        assert(out@ =~= round_all(points@, grid as int));
    }
    out
}

/// Rounds the points to the ten-metre grid and removes duplicates.
pub fn sanitize(points: Vec<Point>) -> (out: (Vec<Point>, SanitizeStats))
    ensures
        out.0@ == deduplicated(points@, GRID_10_METERS as int),
        out.1 == stats_for(points.len() as int, out.0.len() as int),
        out.0.len() <= points.len(),
        out.0@.no_duplicates(),
        forall|i: int|
            0 <= i < out.0.len() ==> point_on_grid(#[trigger] out.0[i], GRID_10_METERS as int),
        forall|i: int, j: int|
            0 <= i < out.0.len() && 0 <= j < out.0.len() && i != j ==> separated(
                #[trigger] out.0[i],
                #[trigger] out.0[j],
                GRID_10_METERS as int,
            ),
        forall|p: Point|
            out.0@.contains(p) <==> exists|i: int|
                0 <= i < points.len() && #[trigger] rounded_point(points[i], GRID_10_METERS as int)
                    == p,
        points.len() == 0 ==> out.0.len() == 0 && out.1 == (SanitizeStats {
            final_count: 0,
            removed_count: 0,
            removal_basis_points: 0,
        }),
{
    dedup(&points, GRID_10_METERS)
}

/// Rounds the points to the one-metre grid and keeps every one of them.
pub fn sanitize_to_1m_no_dedup(points: Vec<Point>) -> (out: Vec<Point>)
    ensures
        out@ == round_all(points@, GRID_1_METER as int),
        out.len() == points.len(),
        forall|i: int| 0 <= i < out.len() ==> point_on_grid(#[trigger] out[i], GRID_1_METER as int),
{
    round_only(&points, GRID_1_METER)
}

} // verus!
