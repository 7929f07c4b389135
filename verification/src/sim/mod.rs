//! The fixed-step simulation: systems register and advance in the order of their
//! names.
pub mod builtin;
pub mod manifest;
pub mod map_store;
pub mod order;
pub mod reactions;
pub mod replay;
pub mod systems;
pub mod thermal;
