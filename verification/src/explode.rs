//! The polygon exploder: a merged geometry, however nested, is flattened
//! into the list of its polygons.

use vstd::prelude::*;
use crate::geometry::Polygon;
use crate::geometry::Geometry;
use crate::geometry::PolygonModel;
use crate::geometry::GeometryModel;
use crate::geometry::polygon_models;

verus! {

/// The polygons of a geometry, in the order in which they stand in it: a
/// polygon gives itself, a group gives the polygons of its members one after
/// another, and anything that bounds no area gives nothing.
pub open spec fn exploded(g: GeometryModel) -> Seq<PolygonModel>
    decreases g,
{
    match g {
        GeometryModel::Polygon(p) => seq![p],
        GeometryModel::MultiPolygon(ps) => ps,
        GeometryModel::Collection(gs) => exploded_all(gs),
        GeometryModel::Other => Seq::empty(),
    }
}

/// The polygons of a list of geometries, member after member.
pub open spec fn exploded_all(gs: Seq<GeometryModel>) -> Seq<PolygonModel>
    decreases gs,
{
    if gs.len() == 0 {
        Seq::empty()
    } else {
        exploded_all(gs.drop_last()) + exploded(gs.last())
    }
}

/// Flattening goes member by member: the polygons of two lists put together
/// are those of the first followed by those of the second, and a list of one
/// geometry gives the polygons of that geometry.
pub proof fn lemma_exploded_all_concat(first: Seq<GeometryModel>, second: Seq<GeometryModel>)
    ensures
        exploded_all(first + second) == exploded_all(first) + exploded_all(second),
        exploded(GeometryModel::Collection(first + second)) == exploded(
            GeometryModel::Collection(first),
        ) + exploded(GeometryModel::Collection(second)),
    decreases second.len(),
{
    if second.len() == 0 {
        assert(first + second =~= first);
        assert(exploded_all(first) + exploded_all(second) =~= exploded_all(first));
    } else {
        let whole = first + second;
        lemma_exploded_all_concat(first, second.drop_last());
        assert(whole.drop_last() =~= first + second.drop_last());
        assert(whole.last() == second.last());
        assert((exploded_all(first) + exploded_all(second.drop_last())) + exploded(second.last())
            =~= exploded_all(first) + (exploded_all(second.drop_last()) + exploded(second.last())));
    }
}

/// A group of one geometry holds the polygons of that geometry, and a group
/// of nothing holds none.
pub proof fn lemma_exploded_single(g: GeometryModel)
    ensures
        exploded(GeometryModel::Collection(seq![g])) == exploded(g),
        exploded(GeometryModel::Collection(Seq::empty())) == Seq::<PolygonModel>::empty(),
{
    let one = seq![g];
    assert(one.drop_last() =~= Seq::<GeometryModel>::empty());
    assert(one.last() == g);
    assert(exploded_all(one.drop_last()) =~= Seq::<PolygonModel>::empty());
    assert(exploded_all(one) =~= exploded(g));
}

/// The number of geometries in a geometry, itself and all nested members.
spec fn node_count(g: GeometryModel) -> nat
    decreases g,
{
    match g {
        GeometryModel::Collection(gs) => 1 + node_count_all(gs),
        _ => 1,
    }
}

/// The number of geometries in a list of geometries.
spec fn node_count_all(gs: Seq<GeometryModel>) -> nat
    decreases gs,
{
    if gs.len() == 0 {
        0
    } else {
        node_count_all(gs.drop_last()) + node_count(gs.last())
    }
}

/// The polygons still to come from a work stack whose top is its last entry.
spec fn pending(stack: Seq<GeometryModel>) -> Seq<PolygonModel>
    decreases stack.len(),
{
    if stack.len() == 0 {
        Seq::empty()
    } else {
        exploded(stack.last()) + pending(stack.drop_last())
    }
}

/// The contents of a list of geometries.
spec fn geometry_models(geometries: Seq<Geometry>) -> Seq<GeometryModel> {
    Seq::new(geometries.len(), |i: int| geometries[i]@)
}

/// Flattens a geometry into its polygons. Groups are taken apart to any
/// depth, with a work stack in place of recursion; members that are neither
/// polygons nor groups are dropped.
pub fn explode_polygons(g: Geometry) -> (out: Vec<Polygon>)
    ensures
        polygon_models(out@) == exploded(g@),
{
    let ghost whole: Seq<PolygonModel> = exploded(g@);
    let ghost root: GeometryModel = g@;
    let mut out: Vec<Polygon> = Vec::new();
    let mut stack: Vec<Geometry> = Vec::new();
    stack.push(g);
    proof {
        let models = geometry_models(stack@);
        assert(models.last() == root);
        assert(models.drop_last() =~= Seq::<GeometryModel>::empty());
        assert(pending(models.drop_last()) =~= Seq::<PolygonModel>::empty());
        assert(pending(models) == exploded(root) + pending(models.drop_last()));
        assert(pending(models) =~= whole);
        assert(polygon_models(out@) + pending(models) =~= whole);
    }
    while stack.len() > 0
        invariant
            polygon_models(out@) + pending(geometry_models(stack@)) == whole,
        decreases node_count_all(geometry_models(stack@)),
    {
        let ghost before_out: Seq<PolygonModel> = polygon_models(out@);
        let ghost before: Seq<GeometryModel> = geometry_models(stack@);
        let top: Geometry = stack.pop().unwrap();
        let ghost rest: Seq<GeometryModel> = geometry_models(stack@);
        proof {
            assert(rest =~= before.drop_last());
            assert(top@ == before.last());
            assert(pending(before) == exploded(top@) + pending(rest));
            assert(node_count_all(before) == node_count_all(rest) + node_count(top@));
        }
        match top {
            Geometry::Polygon(p) => {
                proof {
                    assert(polygon_models(out@.push(p)) =~= before_out + exploded(top@));
                    assert((before_out + exploded(top@)) + pending(rest) =~= before_out + (exploded(
                        top@,
                    ) + pending(rest)));
                }
                out.push(p);
            },
            Geometry::MultiPolygon(mut ps) => {
                proof {
                    assert(polygon_models(out@ + ps@) =~= before_out + exploded(top@));
                    assert((before_out + exploded(top@)) + pending(rest) =~= before_out + (exploded(
                        top@,
                    ) + pending(rest)));
                }
                out.append(&mut ps);
            },
            Geometry::Collection(mut members) => {
                let ghost goal: Seq<PolygonModel> = exploded(top@) + pending(rest);
                let ghost weight: int = node_count_all(rest) + node_count(top@) - 1;
                proof {
                    assert(top@ == GeometryModel::Collection(geometry_models(members@))) by {
                        assert(top@->Collection_0 =~= geometry_models(members@));
                    }
                }
                while members.len() > 0
                    invariant
                        exploded_all(geometry_models(members@)) + pending(geometry_models(stack@))
                            == goal,
                        node_count_all(geometry_models(members@)) + node_count_all(
                            geometry_models(stack@),
                        ) == weight,
                    decreases members.len(),
                {
                    let ghost left: Seq<GeometryModel> = geometry_models(members@);
                    let ghost below: Seq<GeometryModel> = geometry_models(stack@);
                    let member: Geometry = members.pop().unwrap();
                    proof {
                        assert(geometry_models(members@) =~= left.drop_last());
                        assert(member@ == left.last());
                        let above = geometry_models(stack@.push(member));
                        assert(above.drop_last() =~= below);
                        assert(above.last() == member@);
                        assert((exploded_all(left.drop_last()) + exploded(member@)) + pending(below)
                            =~= exploded_all(left.drop_last()) + (exploded(member@) + pending(
                            below,
                        )));
                    }
                    stack.push(member);
                }
                proof {
                    assert(exploded_all(geometry_models(members@)) =~= Seq::<PolygonModel>::empty());
                    assert(goal =~= pending(geometry_models(stack@)));
                }
            },
            Geometry::Other => {
                proof {
                    assert(exploded(top@) + pending(rest) =~= pending(rest));
                }
            },
        }
    }
    proof {
        assert(pending(geometry_models(stack@)) =~= Seq::<PolygonModel>::empty());
        assert(polygon_models(out@) + Seq::<PolygonModel>::empty() =~= polygon_models(out@));
    }
    out
}

} // verus!
