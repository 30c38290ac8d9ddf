//! The workspaces of the compositor.

pub mod indicator;
pub mod module;
