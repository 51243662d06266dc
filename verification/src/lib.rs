//! Narabi: buffer line and tab line rendering for Neovim.
//!
//! The library holds the logic of the plugin: how a buffer path becomes the
//! short name shown in a tab, which buffers are listed, how the `'tabline'`
//! string is assembled, and which highlight groups the plugin defines.

pub mod buffers;
pub mod decimal;
pub mod path;
pub mod render;
pub mod text;
pub mod theme;
