//! The hole filter: holes smaller than a threshold area are filled.

use vstd::prelude::*;
use crate::point::Point;
use crate::geometry::Ring;
use crate::geometry::Polygon;
use crate::geometry::PolygonModel;
use crate::geometry::area_known;
use crate::geometry::doubled_area;

verus! {

/// Numerator of the value taken for the circle constant.
pub const PI_NUMERATOR: u128 = 3_141_592_653_589_793;

/// Denominator of the value taken for the circle constant.
pub const PI_DENOMINATOR: u128 = 1_000_000_000_000_000;

/// The area of a disk of the given radius, in square millimetres, rounded
/// down, with the circle constant taken as 3.141592653589793.
pub open spec fn disk_area(radius: int) -> int {
    radius * radius * (PI_NUMERATOR as int) / (PI_DENOMINATOR as int)
}

/// Whether a hole with these vertices is kept: its area can be measured and is
/// no smaller than `min_area`.
pub open spec fn keeps_hole(hole: Seq<Point>, min_area: int) -> bool {
    area_known(hole) && doubled_area(hole) >= 2 * min_area
}

/// The holes that are kept, in the order in which they stood.
pub open spec fn large_holes(holes: Seq<Seq<Point>>, min_area: int) -> Seq<Seq<Point>> {
    holes.filter(|hole: Seq<Point>| keeps_hole(hole, min_area))
}

/// The polygon with the same exterior and only its large holes.
pub open spec fn without_small_holes(polygon: PolygonModel, min_area: int) -> PolygonModel {
    PolygonModel {
        exterior: polygon.exterior,
        interiors: large_holes(polygon.interiors, min_area),
    }
}

/// The contents of a list of rings.
pub open spec fn ring_views(rings: Seq<Ring>) -> Seq<Seq<Point>> {
    Seq::new(rings.len(), |i: int| rings[i]@)
}

/// The smallest area a hole must have to be kept: the area of one buffer disk.
pub fn min_hole_area(radius: u32) -> (area: u128)
    ensures
        area == disk_area(radius as int),
{
    let r: u128 = radius as u128;
    assert(r * r <= 0xffff_ffff * 0xffff_ffff) by (nonlinear_arith)
        requires
            r <= 0xffff_ffff,
    ;
    let square: u128 = r * r;
    square * PI_NUMERATOR / PI_DENOMINATOR
}

/// Filtering a list whose entries all pass the test changes nothing.
proof fn lemma_filter_keeps_passing<A>(s: Seq<A>, pred: spec_fn(A) -> bool)
    requires
        forall|i: int| 0 <= i < s.len() ==> pred(#[trigger] s[i]),
    ensures
        s.filter(pred) == s,
    decreases s.len(),
{
    reveal(Seq::filter);
    if s.len() > 0 {
        lemma_filter_keeps_passing(s.drop_last(), pred);
        assert(s.drop_last().push(s.last()) =~= s);
    }
}

/// Filling small holes keeps the exterior, keeps only holes of at least the
/// threshold area, keeps every such hole, and does nothing when done again.
pub proof fn lemma_hole_filter(polygon: PolygonModel, min_area: int)
    ensures
        without_small_holes(polygon, min_area).exterior == polygon.exterior,
        without_small_holes(polygon, min_area).interiors.len() <= polygon.interiors.len(),
        forall|i: int|
            0 <= i < without_small_holes(polygon, min_area).interiors.len() ==> keeps_hole(
                #[trigger] without_small_holes(polygon, min_area).interiors[i],
                min_area,
            ),
        forall|i: int|
            0 <= i < polygon.interiors.len() && keeps_hole(#[trigger] polygon.interiors[i], min_area)
                ==> without_small_holes(polygon, min_area).interiors.contains(
                polygon.interiors[i],
            ),
        without_small_holes(without_small_holes(polygon, min_area), min_area)
            == without_small_holes(polygon, min_area),
{
    let keep = |hole: Seq<Point>| keeps_hole(hole, min_area);
    let kept = polygon.interiors.filter(keep);
    polygon.interiors.lemma_filter_len(keep);
    assert forall|i: int| 0 <= i < kept.len() implies keep(#[trigger] kept[i]) by {
        polygon.interiors.lemma_filter_pred(keep, i);
    }
    assert forall|i: int|
        0 <= i < polygon.interiors.len() && keeps_hole(
            #[trigger] polygon.interiors[i],
            min_area,
        ) implies kept.contains(polygon.interiors[i]) by {
        polygon.interiors.lemma_filter_contains(keep, i);
    }
    lemma_filter_keeps_passing(kept, keep);
}

/// A polygon with a single hole keeps it exactly when the hole's area can be
/// measured and is at least the threshold; at the threshold itself it stays.
pub proof fn lemma_single_hole(exterior: Seq<Point>, hole: Seq<Point>, min_area: int)
    ensures
        without_small_holes(PolygonModel { exterior, interiors: seq![hole] }, min_area).interiors
            == if area_known(hole) && doubled_area(hole) >= 2 * min_area {
            seq![hole]
        } else {
            Seq::<Seq<Point>>::empty()
        },
{
    reveal_with_fuel(Seq::filter, 2);
    let holes = seq![hole];
    assert(holes.drop_last() =~= Seq::<Seq<Point>>::empty());
    assert(holes.last() == hole);
    let keep = |h: Seq<Point>| keeps_hole(h, min_area);
    assert(holes.drop_last().filter(keep) =~= Seq::<Seq<Point>>::empty());
    assert(Seq::<Seq<Point>>::empty().push(hole) =~= seq![hole]);
}

/// Fills the holes of a polygon whose area is below `min_area` square
/// millimetres. A hole of exactly `min_area` stays; one whose area cannot be
/// measured is filled. The exterior and the order of the holes are kept.
pub fn remove_small_holes(polygon: Polygon, min_area: u128) -> (out: Polygon)
    ensures
        out@ == without_small_holes(polygon@, min_area as int),
{
    let Polygon { exterior, interiors } = polygon;
    let ghost holes: Seq<Seq<Point>> = ring_views(interiors@);
    let ghost keep = |hole: Seq<Point>| keeps_hole(hole, min_area as int);
    let mut kept: Vec<Ring> = Vec::new();
    proof {
        reveal(Seq::filter);
        assert(holes.take(0) =~= Seq::<Seq<Point>>::empty());
        assert(ring_views(kept@) =~= holes.take(0).filter(keep));
    }
    for ring in it: interiors.into_iter()
        invariant
            it.seq().len() == holes.len(),
            forall|i: int| 0 <= i < holes.len() ==> (#[trigger] it.seq()[i])@ == holes[i],
            ring_views(kept@) == holes.take(it.index() as int).filter(keep),
            keep == |hole: Seq<Point>| keeps_hole(hole, min_area as int),
    {
        let ghost done: int = it.index() as int;
        let area: Option<u128> = ring.doubled_area();
        let large: bool = match area {
            Some(a) => a / 2 >= min_area,
            None => false,
        };
        proof {
            reveal(Seq::filter);
            assert(ring@ == holes[done]);
            assert(large == keep(holes[done]));
            assert(holes.take(done + 1).drop_last() =~= holes.take(done));
            assert(holes.take(done + 1).last() == holes[done]);
            assert(ring_views(kept@.push(ring)) =~= ring_views(kept@).push(ring@));
        }
        if large {
            kept.push(ring);
        }
    }
    proof {
        assert(holes.take(holes.len() as int) =~= holes);
    }
    let out = Polygon { exterior, interiors: kept };
    proof {
        assert(out@.interiors =~= ring_views(kept@));
        assert(polygon@.interiors =~= holes);
    }
    out
}

} // verus!
