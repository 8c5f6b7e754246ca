//! Interactive terminal browser for a vault of note files: a verified model of
//! the folder tree, the per-folder note cache, the selection and focus state
//! machine, and the text that the three-pane screen shows.

pub mod text;
pub mod theme;
pub mod tags;
pub mod entries;
pub mod state;
pub mod render;
pub mod commands;

