//! Three-way merging of sprite sheets.
//!
//! A sprite sheet is one bitmap cut into the frames of named animation
//! states. Given a common ancestor and two edited versions, the crate decides
//! state by state what each side changed and, where the two edits do not
//! collide, builds the sheet that carries both.

pub mod classify;
pub mod dirs;
pub mod encode;
pub mod grid;
pub mod merge;
pub mod order;
pub mod overlay;
pub mod sheet;
pub mod status;
