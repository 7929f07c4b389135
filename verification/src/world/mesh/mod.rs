//! Turning a chunk's blocks into faces to draw.
pub mod cover;
pub mod face;
pub mod greedy;
pub mod sample;
pub mod sweep;
