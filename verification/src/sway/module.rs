//! What the events of the compositor lead to.

use vstd::prelude::*;

use super::indicator::{active_name, IndicatorUpdate, WorkspaceIndicatorState, WorkspaceInfo};
use crate::escalation::EscalationLevel;
use crate::events::{Event, EventKind, EventView, WidgetStatus};
use crate::text;

verus! {

/// What happened to a workspace.
#[derive(Debug, Clone, Copy, PartialEq, Eq, Structural)]
pub enum WorkspaceChange {
    Init,
    Empty,
    Focus,
    Move,
    Rename,
    Urgent,
    Reload,
    /// Anything else.
    Other,
}

/// An event of the compositor.
#[derive(Debug, Clone, PartialEq, Eq)]
pub enum CompositorEvent {
    /// A workspace changed; its name, where it has one.
    Workspace { change: WorkspaceChange, current: Option<String> },
    /// A window got the focus.
    WindowFocused { title: Option<String>, app_id: Option<String> },
    /// Anything else.
    Other,
}

/// The contents of a [`CompositorEvent`].
pub enum CompositorView {
    Workspace { change: WorkspaceChange, current: Option<Seq<char>> },
    WindowFocused { title: Option<Seq<char>>, app_id: Option<Seq<char>> },
    Other,
}

impl DeepView for CompositorEvent {
    type V = CompositorView;

    open spec fn deep_view(&self) -> CompositorView {
        match self {
            CompositorEvent::Workspace { change, current } => CompositorView::Workspace {
                change: *change,
                current: current.deep_view(),
            },
            CompositorEvent::WindowFocused { title, app_id } => CompositorView::WindowFocused {
                title: title.deep_view(),
                app_id: app_id.deep_view(),
            },
            CompositorEvent::Other => CompositorView::Other,
        }
    }
}

/// A text, or an empty one where there is none.
pub open spec fn or_empty(s: Option<Seq<char>>) -> Seq<char> {
    match s {
        Some(x) => x,
        None => Seq::empty(),
    }
}

/// The title of the focused window after an event, and what the event is told
/// as. Where it is told, the indicator is to be refreshed too.
pub open spec fn reacted(focused: Option<Seq<char>>, event: CompositorView) -> (
    Option<Seq<char>>,
    Option<EventView>,
) {
    match event {
        CompositorView::Workspace { change, current } if change != WorkspaceChange::Other => (
            focused,
            Some(
                EventView::WorkspaceChanged { name: or_empty(current), focused_window: focused },
            ),
        ),
        CompositorView::WindowFocused { title, app_id } => (
            title,
            Some(EventView::WindowFocused { app_id, title: or_empty(title) }),
        ),
        _ => (focused, None),
    }
}

/// The module that follows the compositor.
#[derive(Debug, Clone, PartialEq, Eq)]
pub struct SwayWorkspaceModule {
    /// The title of the window that has the focus, as far as it is known.
    pub focused_window: Option<String>,
}

impl SwayWorkspaceModule {
    pub fn new() -> (r: Self)
        ensures
            r.focused_window is None,
    {
        SwayWorkspaceModule { focused_window: None }
    }

    /// Takes an event of the compositor. Where something is to be told, the
    /// indicator is to be refreshed too: see [`SwayWorkspaceModule::indicator`].
    pub fn on_compositor_event(&mut self, event: &CompositorEvent) -> (r: Option<Event>)
        ensures
            final(self).focused_window.deep_view() == reacted(
                old(self).focused_window.deep_view(),
                event.deep_view(),
            ).0,
            r.deep_view() == reacted(
                old(self).focused_window.deep_view(),
                event.deep_view(),
            ).1,
    {
        match event {
            CompositorEvent::Workspace { change, current } => {
                if *change == WorkspaceChange::Other {
                    return None;
                }
                let name = match current {
                    Some(n) => n.clone(),
                    None => String::new(),
                };
                Some(
                    Event::WorkspaceChanged {
                        name,
                        focused_window: text::clone_opt(&self.focused_window),
                    },
                )
            },
            CompositorEvent::WindowFocused { title, app_id } => {
                self.focused_window = text::clone_opt(title);
                let shown = match title {
                    Some(t) => t.clone(),
                    None => String::new(),
                };
                Some(Event::WindowFocused { app_id: text::clone_opt(app_id), title: shown })
            },
            CompositorEvent::Other => None,
        }
    }

    /// The update of the indicator for the workspaces that there are.
    pub fn indicator(&self, workspaces: Vec<WorkspaceInfo>) -> (r: IndicatorUpdate)
        ensures
            r.widget_id@ == "workspace-indicator"@,
            r.widget_type@ == "workspace_indicator"@,
            r.status == WidgetStatus::Normal,
            r.escalation == EscalationLevel::Ambient,
            r.state.workspaces == workspaces,
            r.state.active.deep_view() == active_name(workspaces@),
            r.state.focused_window == self.focused_window,
    {
        WorkspaceIndicatorState::from_workspaces(workspaces).with_focused_window(
            text::clone_opt(&self.focused_window),
        ).into_widget_update(WidgetStatus::Normal)
    }

    /// The kinds of event that the module listens to: none. It follows the
    /// compositor.
    pub fn subscribed_events(&self) -> (r: Vec<EventKind>)
        ensures
            r@ == Seq::<EventKind>::empty(),
    {
        Vec::new()
    }
}

/// A change of the workspace is told with the title of the window that was last
/// told to have the focus.
pub proof fn law_changes_carry_the_focused_window(
    before: Option<Seq<char>>,
    title: Option<Seq<char>>,
    app_id: Option<Seq<char>>,
    change: WorkspaceChange,
    current: Option<Seq<char>>,
)
    requires
        change != WorkspaceChange::Other,
    ensures
        ({
            let (focused, _) = reacted(before, CompositorView::WindowFocused { title, app_id });
            reacted(focused, CompositorView::Workspace { change, current }).1 == Some(
                EventView::WorkspaceChanged { name: or_empty(current), focused_window: title },
            )
        }),
{
}

/// What the compositor's events come to: a change of the workspaces is told with the
/// window that has the focus; a window that takes the focus is remembered and told; and
/// nothing else is.
pub proof fn law_compositor_events(focused: Option<Seq<char>>, event: CompositorView)
    ensures
        event matches CompositorView::Workspace { change, current } ==> (if change
            == WorkspaceChange::Other {
            reacted(focused, event).0 == focused && reacted(focused, event).1 is None
        } else {
            reacted(focused, event) == (
                focused,
                Some(
                    EventView::WorkspaceChanged {
                        name: if current is Some {
                            current->0
                        } else {
                            Seq::empty()
                        },
                        focused_window: focused,
                    },
                ),
            )
        }),
        event matches CompositorView::WindowFocused { title, app_id } ==> reacted(focused, event)
            == (
            title,
            Some(
                EventView::WindowFocused {
                    app_id,
                    title: if title is Some {
                        title->0
                    } else {
                        Seq::empty()
                    },
                },
            ),
        ),
        event is Other ==> reacted(focused, event).0 == focused && reacted(focused, event).1 is None,
{
}

} // verus!
