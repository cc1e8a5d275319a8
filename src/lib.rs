//! Core of an implicit-surface sampler. The sampler's decisions are here,
//! generic over the point type, with the geometry handed in as closures:
//! the flood fill that spreads points over a surface within a budget, the
//! thinning of crowded points, the refit of last frame's points, and one
//! live resampling frame. Beside them: the fixed-capacity sample store, a
//! linear point index, the per-frame scene protocol, line styles, and a
//! Fibonacci counter.

pub mod counter;
pub mod store;
pub mod index;
pub mod sampler;
pub mod lines;
pub mod surface;
