//! The command palette: its providers and the module that drives them.

pub mod app_launcher;
pub mod calc;
pub mod links;
pub mod module;
pub mod note_search;
pub mod provider;
pub mod query;
pub mod recent_docs;
pub mod ref_search;
pub mod score;
pub mod unicode;
pub mod workspace_switcher;
