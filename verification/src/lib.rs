//! Verified core of a side-by-side diff and three-way merge tool: line
//! diffing, three-way block alignment, per-tab document state with editing,
//! copying between panes and undo/redo, and the small state machines behind
//! the file browser and the directory listing.

pub mod engine;
pub mod layout;
pub mod models;
pub mod sequence_diff;
pub mod text;
pub mod three_way;
pub mod tab;
pub mod block_copy;
pub mod file_browser;
pub mod app;
pub mod menu;
pub mod dir_compare;
pub mod laws;
pub mod git_diff;
pub mod tab_bar;
pub mod events;
pub mod view;
