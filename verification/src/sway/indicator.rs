//! What the workspace indicator shows.

use vstd::prelude::*;

use crate::escalation::EscalationLevel;
use crate::events::WidgetStatus;
use crate::seqs::{first_where, lemma_first_where, lemma_first_where_is, lemma_first_where_none};

verus! {

pub const WORKSPACE_WIDGET_ID: &'static str = "workspace-indicator";

pub const WORKSPACE_WIDGET_TYPE: &'static str = "workspace_indicator";

/// A workspace.
#[derive(Debug, Clone, PartialEq, Eq)]
pub struct WorkspaceInfo {
    pub name: String,
    pub num: i32,
    pub focused: bool,
    pub urgent: bool,
    pub output: String,
}

/// What the indicator shows.
#[derive(Debug, Clone, PartialEq, Eq)]
pub struct WorkspaceIndicatorState {
    pub workspaces: Vec<WorkspaceInfo>,
    /// The name of the workspace that has the focus.
    pub active: Option<String>,
    /// The title of the window that has the focus.
    pub focused_window: Option<String>,
}

/// An update of the indicator.
#[derive(Debug, Clone, PartialEq, Eq)]
pub struct IndicatorUpdate {
    pub widget_id: &'static str,
    pub widget_type: &'static str,
    pub state: WorkspaceIndicatorState,
    pub status: WidgetStatus,
    pub escalation: EscalationLevel,
}

/// Whether a workspace has the focus.
pub open spec fn has_focus() -> spec_fn(WorkspaceInfo) -> bool {
    |w: WorkspaceInfo| w.focused
}

/// The name of the first workspace that has the focus.
pub open spec fn active_name(workspaces: Seq<WorkspaceInfo>) -> Option<Seq<char>> {
    match first_where(workspaces, has_focus()) {
        Some(i) => Some(workspaces[i].name@),
        None => None,
    }
}

impl WorkspaceIndicatorState {
    /// What is shown of some workspaces.
    pub fn from_workspaces(workspaces: Vec<WorkspaceInfo>) -> (r: Self)
        ensures
            r.workspaces == workspaces,
            r.active.deep_view() == active_name(workspaces@),
            r.focused_window is None,
    {
        let ghost p = has_focus();
        let mut i: usize = 0;
        while i < workspaces.len()
            invariant
                i <= workspaces@.len(),
                p == has_focus(),
                forall|k: int| 0 <= k < i ==> !p(#[trigger] workspaces@[k]),
            decreases workspaces@.len() - i,
        {
            if workspaces[i].focused {
                proof {
                    assert(p(workspaces@[i as int]));
                    lemma_first_where_is(workspaces@, p, i as int);
                }
                let active = Some(workspaces[i].name.clone());
                return WorkspaceIndicatorState { workspaces, active, focused_window: None };
            }
            assert(!p(workspaces@[i as int]));
            i += 1;
        }
        proof {
            lemma_first_where_none(workspaces@, p);
        }
        WorkspaceIndicatorState { workspaces, active: None, focused_window: None }
    }

    pub fn with_focused_window(self, title: Option<String>) -> (r: Self)
        ensures
            r.workspaces == self.workspaces,
            r.active == self.active,
            r.focused_window == title,
    {
        let mut out = self;
        out.focused_window = title;
        out
    }

    /// The update that tells the shell.
    pub fn into_widget_update(self, status: WidgetStatus) -> (r: IndicatorUpdate)
        ensures
            r.widget_id@ == "workspace-indicator"@,
            r.widget_type@ == "workspace_indicator"@,
            r.state == self,
            r.status == status,
            r.escalation == EscalationLevel::Ambient,
    {
        IndicatorUpdate {
            widget_id: WORKSPACE_WIDGET_ID,
            widget_type: WORKSPACE_WIDGET_TYPE,
            state: self,
            status,
            escalation: EscalationLevel::Ambient,
        }
    }
}

/// The active workspace is the first that has the focus; where none has, there is none.
pub proof fn law_the_focused_workspace_is_active(workspaces: Seq<WorkspaceInfo>)
    ensures
        active_name(workspaces) is None <==> forall|i: int|
            0 <= i < workspaces.len() ==> !(#[trigger] workspaces[i]).focused,
        active_name(workspaces) matches Some(name) ==> exists|i: int|
            0 <= i < workspaces.len() && (#[trigger] workspaces[i]).focused && workspaces[i].name@
                == name && forall|j: int| 0 <= j < i ==> !(#[trigger] workspaces[j]).focused,
{
    let f = has_focus();
    lemma_first_where(workspaces, f);
    match first_where(workspaces, f) {
        Some(i) => {
            assert(f(workspaces[i]));
            assert forall|j: int| 0 <= j < i implies !(#[trigger] workspaces[j]).focused by {
                assert(!f(workspaces[j]));
            }
        },
        None => {
            assert forall|j: int| 0 <= j < workspaces.len() implies !(
            #[trigger] workspaces[j]).focused by {
                assert(!f(workspaces[j]));
            }
        },
    }
}

} // verus!
