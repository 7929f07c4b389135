//! Verified core of a voxel world: block storage, lighting, visibility,
//! world generation rules, reactions, settings and text interfaces.
//!
//! Everything here computes on plain values. Drawing, sampling of noise fields
//! and file access live in the surrounding application.
pub mod bits;
pub mod block;
pub mod coord;
pub mod hash;
pub mod reach;
pub mod settings;
pub mod sim;
pub mod sky;
pub mod stash;
pub mod text;
pub mod ui;
pub mod world;
