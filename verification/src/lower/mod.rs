//! Lowering from the surface syntax tree to the core language.

pub mod desugar;

pub use desugar::SurfaceToCoreLowerer;
