//! Object-detection inference backend for a labeling tool: project ids,
//! box geometry, decoding of raw model rows, non-maximum suppression,
//! score aggregation, order-preserving result collection, image
//! preprocessing and the per-project model registry.
pub mod api;
pub mod error;
pub mod geometry;
pub mod pipeline;
pub mod postprocess;
pub mod preprocess;
pub mod project;
pub mod registry;
pub mod text;
