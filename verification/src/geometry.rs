//! Rings, polygons and composite geometries on the millimetre lattice.

use vstd::prelude::*;
use crate::point::Point;
use crate::point::magnitude;

verus! {

/// A closed boundary curve: its vertices in order, the last repeating the first.
#[derive(Clone, Debug, PartialEq, Eq)]
pub struct Ring {
    pub vertices: Vec<Point>,
}

/// A simple polygon: one exterior ring and the rings of its holes.
#[derive(Clone, Debug, PartialEq, Eq)]
pub struct Polygon {
    pub exterior: Ring,
    pub interiors: Vec<Ring>,
}

/// A geometry as a union or a simplification hands it over: a polygon, a
/// group of polygons, a group of arbitrary geometries, or something that
/// bounds no area (a point or a line).
#[derive(Debug, PartialEq, Eq)]
pub enum Geometry {
    Polygon(Polygon),
    MultiPolygon(Vec<Polygon>),
    Collection(Vec<Geometry>),
    Other,
}

/// The mathematical content of a polygon.
pub ghost struct PolygonModel {
    pub exterior: Seq<Point>,
    pub interiors: Seq<Seq<Point>>,
}

/// The mathematical content of a geometry.
pub ghost enum GeometryModel {
    Polygon(PolygonModel),
    MultiPolygon(Seq<PolygonModel>),
    Collection(Seq<GeometryModel>),
    Other,
}

impl View for Ring {
    type V = Seq<Point>;

    open spec fn view(&self) -> Seq<Point> {
        self.vertices@
    }
}

impl View for Polygon {
    type V = PolygonModel;

    open spec fn view(&self) -> PolygonModel {
        PolygonModel {
            exterior: self.exterior@,
            interiors: Seq::new(self.interiors@.len(), |i: int| self.interiors@[i]@),
        }
    }
}

/// The contents of a list of polygons.
pub open spec fn polygon_models(polygons: Seq<Polygon>) -> Seq<PolygonModel> {
    Seq::new(polygons.len(), |i: int| polygons[i]@)
}

impl View for Geometry {
    type V = GeometryModel;

    open spec fn view(&self) -> GeometryModel
        decreases self,
    {
        match self {
            Geometry::Polygon(p) => GeometryModel::Polygon(p@),
            Geometry::MultiPolygon(ps) => GeometryModel::MultiPolygon(polygon_models(ps@)),
            Geometry::Collection(gs) => GeometryModel::Collection(
                Seq::new(
                    gs@.len(),
                    |i: int|
                        if 0 <= i < gs.len() {
                            gs[i]@
                        } else {
                            GeometryModel::Other
                        },
                ),
            ),
            Geometry::Other => GeometryModel::Other,
        }
    }
}

/// Twice the signed area of the triangle from the origin to `p` to `q`.
pub open spec fn cross(p: Point, q: Point) -> int {
    p.x * q.y - q.x * p.y
}

/// The sum of `cross` over the first `edges` edges of the vertex sequence.
pub open spec fn edge_sum(vertices: Seq<Point>, edges: nat) -> int
    decreases edges,
{
    if edges == 0 {
        0
    } else {
        edge_sum(vertices, (edges - 1) as nat) + cross(
            vertices[edges - 1],
            vertices[edges as int],
        )
    }
}

/// Whether the vertices form a closed ring: at least a triangle, with the
/// first vertex repeated at the end.
pub open spec fn is_closed(vertices: Seq<Point>) -> bool {
    vertices.len() >= 4 && vertices.first() == vertices.last()
}

/// Twice the area that a closed ring encloses, by the surveyor's formula.
pub open spec fn doubled_area(vertices: Seq<Point>) -> int {
    magnitude(edge_sum(vertices, (vertices.len() - 1) as nat))
}

/// Whether every running total of the surveyor's formula fits in 128 bits.
pub open spec fn area_fits(vertices: Seq<Point>) -> bool {
    forall|k: nat|
        k < vertices.len() ==> i128::MIN <= #[trigger] edge_sum(vertices, k) <= i128::MAX
}

/// Whether the enclosed area of the vertex sequence can be measured: it is a
/// closed ring and the sum stays within 128 bits.
pub open spec fn area_known(vertices: Seq<Point>) -> bool {
    is_closed(vertices) && area_fits(vertices)
}

/// The product of two 64-bit values, bounded on both sides.
proof fn lemma_product_bounds(a: int, b: int)
    requires
        i64::MIN <= a <= i64::MAX,
        i64::MIN <= b <= i64::MAX,
    ensures
        -0x3fff_ffff_ffff_ffff_8000_0000_0000_0000 <= a * b <= 0x4000_0000_0000_0000_0000_0000_0000_0000,
{
    assert(a * b <= 0x4000_0000_0000_0000_0000_0000_0000_0000) by (nonlinear_arith)
        requires
            -0x8000_0000_0000_0000 <= a <= 0x7fff_ffff_ffff_ffff,
            -0x8000_0000_0000_0000 <= b <= 0x7fff_ffff_ffff_ffff,
    {
        if a >= 0 && b >= 0 {
            assert(a * b <= 0x7fff_ffff_ffff_ffff * 0x7fff_ffff_ffff_ffff);
        } else if a < 0 && b < 0 {
            assert((-a) * (-b) <= 0x8000_0000_0000_0000 * 0x8000_0000_0000_0000);
        } else {
            assert(a * b <= 0);
        }
    }
    assert(a * b >= -0x3fff_ffff_ffff_ffff_8000_0000_0000_0000) by (nonlinear_arith)
        requires
            -0x8000_0000_0000_0000 <= a <= 0x7fff_ffff_ffff_ffff,
            -0x8000_0000_0000_0000 <= b <= 0x7fff_ffff_ffff_ffff,
    {
        if a >= 0 && b < 0 {
            assert(a * (-b) <= 0x7fff_ffff_ffff_ffff * 0x8000_0000_0000_0000);
        } else if a < 0 && b >= 0 {
            assert((-a) * b <= 0x8000_0000_0000_0000 * 0x7fff_ffff_ffff_ffff);
        } else {
            assert(a * b >= 0);
        }
    }
}

impl Ring {
    /// A ring from its vertices.
    pub fn new(vertices: Vec<Point>) -> (ring: Ring)
        ensures
            ring@ == vertices@,
    {
        Ring { vertices }
    }

    /// Whether the vertices form a closed ring.
    pub fn is_closed(&self) -> (closed: bool)
        ensures
            closed == is_closed(self@),
    {
        let n: usize = self.vertices.len();
        n >= 4 && self.vertices[0] == self.vertices[n - 1]
    }

    /// Twice the area enclosed by the ring, or `None` where the ring is not
    /// closed or the sum leaves the range of 128-bit arithmetic.
    pub fn doubled_area(&self) -> (area: Option<u128>)
        ensures
            area.is_some() <==> area_known(self@),
            area.is_some() ==> area.unwrap() == doubled_area(self@),
    {
        if !self.is_closed() {
            return None;
        }
        let n: usize = self.vertices.len();
        let mut total: i128 = 0;
        let mut k: usize = 0;
        while k < n - 1
            invariant
                n == self.vertices.len(),
                n >= 4,
                k <= n - 1,
                total == edge_sum(self@, k as nat),
                forall|j: nat| j <= k ==> i128::MIN <= #[trigger] edge_sum(self@, j) <= i128::MAX,
            decreases n - 1 - k,
        {
            let p: Point = self.vertices[k];
            let q: Point = self.vertices[k + 1];
            proof {
                lemma_product_bounds(p.x as int, q.y as int);
                lemma_product_bounds(q.x as int, p.y as int);
            }
            let term: i128 = (p.x as i128) * (q.y as i128) - (q.x as i128) * (p.y as i128);
            assert(term == cross(self@[k as int], self@[k + 1]));
            match total.checked_add(term) {
                Some(next) => {
                    total = next;
                },
                None => {
                    assert(!(i128::MIN <= edge_sum(self@, (k + 1) as nat) <= i128::MAX));
                    return None;
                },
            }
            k = k + 1;
        }
        let area: u128 = if total < 0 {
            if total == i128::MIN {
                0x8000_0000_0000_0000_0000_0000_0000_0000
            } else {
                (-total) as u128
            }
        } else {
            total as u128
        };
        Some(area)
    }
}

impl Polygon {
    /// A polygon from its exterior ring and the rings of its holes.
    pub fn new(exterior: Ring, interiors: Vec<Ring>) -> (polygon: Polygon)
        ensures
            polygon.exterior == exterior,
            polygon.interiors == interiors,
    {
        Polygon { exterior, interiors }
    }

    /// How many holes the polygon has.
    pub fn hole_count(&self) -> (n: usize)
        ensures
            n == self@.interiors.len(),
    {
        self.interiors.len()
    }
}

} // verus!
