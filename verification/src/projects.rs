//! Projects as the modules see them.

use vstd::prelude::*;

use crate::time::UtcTime;

verus! {

/// Where a project stands.
#[derive(Debug, Clone, Copy, PartialEq, Eq, Structural)]
pub enum ProjectStatus {
    Active,
    Blocked,
    Complete,
}

/// The kinds of entry in the library of notes and references.
#[derive(Debug, Clone, Copy, PartialEq, Eq, Structural)]
pub enum EntityType {
    Note,
    Reference,
    Other,
}

/// A project of the registry. `id` is a UUID as a number.
#[derive(Debug, Clone, PartialEq, Eq)]
pub struct ProjectEntry {
    pub id: u128,
    pub name: String,
    pub status: ProjectStatus,
    pub open_questions: Vec<String>,
    pub tags: Vec<String>,
    pub workspace_names: Vec<String>,
    pub updated_at: UtcTime,
    pub last_active_at: Option<UtcTime>,
}

} // verus!
