//! The voxel world: storage, light, visibility and generation.
pub mod brick;
pub mod census;
pub mod chunk;
pub mod chunk_map;
pub mod classic;
pub mod connectivity;
pub mod coverage;
pub mod diffusion;
pub mod diffusion_cfg;
pub mod diffusion_v2;
pub mod edits;
pub mod field_asks;
pub mod flood;
pub mod generation;
pub mod heightmip;
pub mod lanes;
pub mod lattice;
pub mod light;
pub mod lod;
pub mod mesh;
pub mod neighborhood;
pub mod occlusion;
pub mod overlay;
pub mod place;
pub mod placement;
pub mod propagate;
pub mod q16;
pub mod relight;
pub mod sampled;
pub mod saves;
pub mod sections;
pub mod terrain;
pub mod terrain_fill;
