//! A buffering run as a sequence of stages. The geometry engine does the
//! buffering, the merging and the simplifying; the run decides what is done
//! next, gives up on the first failure, and ends by flattening the merged
//! geometry and filling its small holes.

use vstd::prelude::*;
use crate::geometry::Polygon;
use crate::geometry::Geometry;
use crate::geometry::PolygonModel;
use crate::geometry::polygon_models;
use crate::buffer::BufferParams;
use crate::buffer::valid_params;
use crate::explode::exploded;
use crate::explode::explode_polygons;
use crate::holes::disk_area;
use crate::holes::min_hole_area;
use crate::holes::without_small_holes;
use crate::holes::remove_small_holes;

verus! {

/// Why a run was given up.
#[derive(Clone, Copy, Debug, PartialEq, Eq, Structural)]
pub enum Failure {
    /// A chunk of points could not be turned into a geometry.
    GeometryConversion,
    /// Buffering rejected its parameters or a chunk.
    Buffer,
    /// The buffered chunks could not be merged.
    Union,
    /// The merged geometry could not be simplified.
    Simplify,
    /// Something was reported that the run was not waiting for.
    OutOfTurn,
}

/// A failed run: what went wrong, and the settings that were in effect.
#[derive(Clone, Copy, Debug, PartialEq, Eq, Structural)]
pub struct PipelineError {
    pub failure: Failure,
    pub params: BufferParams,
}

/// Where a run stands.
#[derive(Clone, Copy, Debug, PartialEq, Eq, Structural)]
pub enum Stage {
    /// The chunks are being buffered.
    Buffering,
    /// The buffered chunks are being merged into one geometry.
    Dissolving,
    /// The merged geometry is being simplified within the tolerance.
    Simplifying { tolerance: u32 },
    /// The geometry is ready to be flattened and freed of small holes.
    Filtering,
    /// The run was given up.
    Failed(Failure),
}

/// What the geometry engine reports back.
#[derive(Clone, Copy, Debug, PartialEq, Eq, Structural)]
pub enum Event {
    /// Every chunk was buffered.
    Buffered,
    /// A chunk could not be turned into a geometry.
    ConversionFailed,
    /// Buffering a chunk failed.
    BufferFailed,
    /// The chunks were merged.
    Dissolved,
    /// Merging failed.
    UnionFailed,
    /// The geometry was simplified.
    Simplified,
    /// Simplifying failed.
    SimplifyFailed,
}

/// What is to be done next.
#[derive(Clone, Copy, Debug, PartialEq, Eq, Structural)]
pub enum Action {
    /// Cut the points into chunks of `chunk_size` and buffer each chunk.
    BufferChunks { radius: u32, quadrant_segments: i32, chunk_size: usize },
    /// Merge all buffered chunks into one geometry.
    Dissolve,
    /// Simplify the merged geometry, preserving its topology.
    Simplify { tolerance: u32 },
    /// Flatten the geometry and fill every hole smaller than `min_hole_area`.
    FilterHoles { min_hole_area: u128 },
    /// Stop: the run failed.
    Abort(PipelineError),
}

/// A buffering run: its settings and where it stands.
#[derive(Clone, Copy, Debug, PartialEq, Eq, Structural)]
pub struct Pipeline {
    pub params: BufferParams,
    pub stage: Stage,
}

/// The stage that follows `stage` when `event` is reported. A failure ends
/// the run for good; simplification is entered only where a tolerance is set.
pub open spec fn next_stage(stage: Stage, params: BufferParams, event: Event) -> Stage {
    match (stage, event) {
        (Stage::Failed(failure), _) => Stage::Failed(failure),
        (Stage::Buffering, Event::Buffered) => Stage::Dissolving,
        (Stage::Buffering, Event::ConversionFailed) => Stage::Failed(Failure::GeometryConversion),
        (Stage::Buffering, Event::BufferFailed) => Stage::Failed(Failure::Buffer),
        (Stage::Dissolving, Event::Dissolved) => match params.simplify_tolerance {
            Some(tolerance) => Stage::Simplifying { tolerance },
            None => Stage::Filtering,
        },
        (Stage::Dissolving, Event::UnionFailed) => Stage::Failed(Failure::Union),
        (Stage::Simplifying { tolerance }, Event::Simplified) => Stage::Filtering,
        (Stage::Simplifying { tolerance }, Event::SimplifyFailed) => Stage::Failed(
            Failure::Simplify,
        ),
        _ => Stage::Failed(Failure::OutOfTurn),
    }
}

/// What a run in the given stage asks for.
pub open spec fn action_of(stage: Stage, params: BufferParams) -> Action {
    match stage {
        Stage::Buffering => Action::BufferChunks {
            radius: params.radius,
            quadrant_segments: params.quadrant_segments,
            chunk_size: params.chunk_size,
        },
        Stage::Dissolving => Action::Dissolve,
        Stage::Simplifying { tolerance } => Action::Simplify { tolerance },
        Stage::Filtering => Action::FilterHoles {
            min_hole_area: disk_area(params.radius as int) as u128,
        },
        Stage::Failed(failure) => Action::Abort(PipelineError { failure, params }),
    }
}

/// The error with which a run that is not ready for filtering answers.
pub open spec fn refusal(stage: Stage, params: BufferParams) -> PipelineError {
    match stage {
        Stage::Failed(failure) => PipelineError { failure, params },
        _ => PipelineError { failure: Failure::OutOfTurn, params },
    }
}

/// A run in which nothing fails goes from buffering through dissolving, through
/// simplifying exactly when a tolerance is set, to filtering.
pub proof fn lemma_run_without_failure(params: BufferParams)
    ensures
        next_stage(Stage::Buffering, params, Event::Buffered) == Stage::Dissolving,
        params.simplify_tolerance is None ==> next_stage(
            Stage::Dissolving,
            params,
            Event::Dissolved,
        ) == Stage::Filtering,
        params.simplify_tolerance matches Some(tolerance) ==> {
            &&& next_stage(Stage::Dissolving, params, Event::Dissolved) == (Stage::Simplifying {
                tolerance,
            })
            &&& next_stage(Stage::Simplifying { tolerance }, params, Event::Simplified)
                == Stage::Filtering
        },
{
}

/// A failed run stays failed, for the same reason, whatever is reported.
pub proof fn lemma_failure_is_final(failure: Failure, params: BufferParams, event: Event)
    ensures
        next_stage(Stage::Failed(failure), params, event) == Stage::Failed(failure),
        action_of(Stage::Failed(failure), params) == Action::Abort(
            PipelineError { failure, params },
        ),
{
}

/// The hole threshold that a run hands out is the area of its own buffer disk.
pub proof fn lemma_threshold_follows_radius(params: BufferParams)
    ensures
        action_of(Stage::Filtering, params) == (Action::FilterHoles {
            min_hole_area: disk_area(params.radius as int) as u128,
        }),
        0 <= disk_area(params.radius as int) <= u128::MAX,
{
    let r: int = params.radius as int;
    assert(0 <= r * r <= 0xffff_ffff * 0xffff_ffff) by (nonlinear_arith)
        requires
            0 <= r <= 0xffff_ffff,
    ;
}

impl Pipeline {
    /// A run with the given settings, about to buffer; `None` where the
    /// settings are not valid.
    pub fn new(params: BufferParams) -> (pipeline: Option<Pipeline>)
        ensures
            pipeline == if valid_params(params) {
                Some(Pipeline { params, stage: Stage::Buffering })
            } else {
                None
            },
    {
        if params.is_valid() {
            Some(Pipeline { params, stage: Stage::Buffering })
        } else {
            None
        }
    }

    /// What the run asks for in its current stage.
    pub fn action(&self) -> (action: Action)
        ensures
            action == action_of(self.stage, self.params),
    {
        match self.stage {
            Stage::Buffering => Action::BufferChunks {
                radius: self.params.radius,
                quadrant_segments: self.params.quadrant_segments,
                chunk_size: self.params.chunk_size,
            },
            Stage::Dissolving => Action::Dissolve,
            Stage::Simplifying { tolerance } => Action::Simplify { tolerance },
            Stage::Filtering => {
                proof {
                    lemma_threshold_follows_radius(self.params);
                }
                Action::FilterHoles { min_hole_area: min_hole_area(self.params.radius) }
            },
            Stage::Failed(failure) => Action::Abort(
                PipelineError { failure, params: self.params },
            ),
        }
    }

    /// Takes in what the geometry engine reports, moves to the next stage and
    /// says what is to be done there.
    pub fn step(&mut self, event: Event) -> (action: Action)
        ensures
            final(self).params == old(self).params,
            final(self).stage == next_stage(old(self).stage, old(self).params, event),
            action == action_of(final(self).stage, final(self).params),
    {
        let next: Stage = match (self.stage, event) {
            (Stage::Failed(failure), _) => Stage::Failed(failure),
            (Stage::Buffering, Event::Buffered) => Stage::Dissolving,
            (Stage::Buffering, Event::ConversionFailed) => Stage::Failed(
                Failure::GeometryConversion,
            ),
            (Stage::Buffering, Event::BufferFailed) => Stage::Failed(Failure::Buffer),
            (Stage::Dissolving, Event::Dissolved) => match self.params.simplify_tolerance {
                Some(tolerance) => Stage::Simplifying { tolerance },
                None => Stage::Filtering,
            },
            (Stage::Dissolving, Event::UnionFailed) => Stage::Failed(Failure::Union),
            (Stage::Simplifying { tolerance }, Event::Simplified) => Stage::Filtering,
            (Stage::Simplifying { tolerance }, Event::SimplifyFailed) => Stage::Failed(
                Failure::Simplify,
            ),
            _ => Stage::Failed(Failure::OutOfTurn),
        };
        self.stage = next;
        self.action()
    }

    /// Ends a run that is ready for filtering: flattens the dissolved geometry
    /// into polygons and fills every hole smaller than the run's buffer disk.
    /// A run in any other stage answers with its failure, or with `OutOfTurn`.
    pub fn finish(&self, dissolved: Geometry) -> (result: Result<Vec<Polygon>, PipelineError>)
        ensures
            result is Ok <==> self.stage == Stage::Filtering,
            result matches Ok(polygons) ==> polygon_models(polygons@) == without_small_holes_all(
                exploded(dissolved@),
                disk_area(self.params.radius as int),
            ),
            result matches Err(error) ==> error == refusal(self.stage, self.params),
    {
        match self.stage {
            Stage::Filtering => Ok(
                explode_and_filter(dissolved, min_hole_area(self.params.radius)),
            ),
            Stage::Failed(failure) => Err(PipelineError { failure, params: self.params }),
            _ => Err(PipelineError { failure: Failure::OutOfTurn, params: self.params }),
        }
    }
}

/// Every polygon of the list with its small holes filled.
pub open spec fn without_small_holes_all(polygons: Seq<PolygonModel>, min_area: int) -> Seq<
    PolygonModel,
> {
    Seq::new(polygons.len(), |i: int| without_small_holes(polygons[i], min_area))
}

/// Flattens a dissolved geometry into its polygons and fills the small holes
/// of each of them.
pub fn explode_and_filter(dissolved: Geometry, min_area: u128) -> (out: Vec<Polygon>)
    ensures
        polygon_models(out@) == without_small_holes_all(exploded(dissolved@), min_area as int),
{
    let polygons: Vec<Polygon> = explode_polygons(dissolved);
    let ghost parts: Seq<PolygonModel> = polygon_models(polygons@);
    let mut out: Vec<Polygon> = Vec::new();
    proof {
        assert(polygon_models(out@) =~= without_small_holes_all(parts.take(0), min_area as int));
    }
    for polygon in it: polygons.into_iter()
        invariant
            it.seq().len() == parts.len(),
            forall|i: int| 0 <= i < parts.len() ==> (#[trigger] it.seq()[i])@ == parts[i],
            out.len() == it.index(),
            polygon_models(out@) == without_small_holes_all(
                parts.take(it.index() as int),
                min_area as int,
            ),
    {
        let ghost done: int = it.index() as int;
        let ghost before: Seq<PolygonModel> = polygon_models(out@);
        let ghost part: PolygonModel = polygon@;
        let cleaned: Polygon = remove_small_holes(polygon, min_area);
        proof {
            assert(part == parts[done]);
            let after = without_small_holes_all(parts.take(done + 1), min_area as int);
            assert forall|i: int| 0 <= i < done + 1 implies polygon_models(out@.push(cleaned))[i]
                == after[i] by {
                if i < done {
                    assert(before[i] == without_small_holes_all(
                        parts.take(done),
                        min_area as int,
                    )[i]);
                }
            }
            assert(polygon_models(out@.push(cleaned)) =~= after);
        }
        out.push(cleaned);
    }
    proof {
        assert(parts.take(parts.len() as int) =~= parts);
    }
    out
}

} // verus!
