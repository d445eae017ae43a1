//! Dissolved polygon footprints from planar point samples.
//!
//! Points are deduplicated on a grid, partitioned into chunks for buffering,
//! and the merged result is flattened into simple polygons whose small holes
//! are filled. All geometry lives on an integer millimetre lattice, so every
//! comparison in this crate is exact. The buffering, the union and the
//! simplification themselves are the work of a geometry engine, which a
//! [`pipeline::Pipeline`] leads through its stages.

pub mod point;
pub mod hashable_point;
pub mod geometry;
pub mod buffer;
pub mod explode;
pub mod holes;
pub mod pipeline;
pub mod ingest;
