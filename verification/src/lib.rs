//! Procedural planet-content generation: a coherent gradient-noise field,
//! a noise-distorted Voronoi province partitioner, a border extractor with
//! bloom and blur, and a displaced sphere-face mesh generator, all over
//! deterministic fixed-point arithmetic.
pub mod border;
pub mod fixed;
pub mod grid;
pub mod mesh;
pub mod noise;
pub mod pipeline;
pub mod provinces;
