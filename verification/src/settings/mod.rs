//! Persistent settings: one table of fields behind the file codec, the console
//! and the menu.
pub mod codec;
pub mod lists;
pub mod real32;
pub mod table;
pub mod state;
pub mod presets;
pub mod limits;
pub mod edit;
pub mod step;
pub mod show;
pub mod names;
pub mod session;
