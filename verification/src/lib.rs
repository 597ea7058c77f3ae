//! Verified core of a dotfiles manager: the manifest of stored entries,
//! path rendering, entry resolution and the decisions of each command.

pub mod keys;
pub mod manifest;
pub mod text;
pub mod error;
pub mod env;
pub mod paths;
pub mod config;
pub mod handler;
pub mod laws;
