//! A small symbolic-differentiation engine over dense arrays: expressions are
//! built in an arena, evaluated through a caller-supplied numeric kernel,
//! simplified, differentiated in reverse mode and evaluated through a
//! deduplicating cache.

pub mod scalar;
pub mod shape;
pub mod tensor;
pub mod activations;
pub mod algebra;
pub mod datasets;
pub mod graph;
pub mod layout;
pub mod initializers;
pub mod layers;
pub mod losses;
pub mod models;
