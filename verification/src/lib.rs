//! Icon resolution for a desktop application launcher.
//!
//! Given a symbolic icon name and an optional theme hint, the resolver walks
//! the icon-theme inheritance graph and a series of fallback tiers to find a
//! concrete image file. Filesystem access is kept outside this crate: the
//! resolver is a step machine that asks its driver to probe paths and read
//! theme index files, and decides everything else itself.

pub mod cache;
pub mod candidates;
pub mod model;
pub mod order;
pub mod resolver;
pub mod search_path;
pub mod state;
pub mod text;
pub mod theme_index;
pub mod ui;
