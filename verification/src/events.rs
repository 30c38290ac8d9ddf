//! What the modules tell each other, and what they tell the shell.

use vstd::prelude::*;

verus! {

/// An event on the bus.
#[derive(Debug, Clone, PartialEq, Eq)]
pub enum Event {
    WorkspaceChanged { name: String, focused_window: Option<String> },
    WindowFocused { app_id: Option<String>, title: String },
    PowerStateChanged { on_battery: bool },
    BarDensityRequested { mode: String },
    ProfileActionRequested { action: String, name: Option<String> },
    FocusSessionStarted { kind: String, project: Option<String>, planned_secs: u64 },
    FocusSessionEnded { kind: String, project: Option<String>, actual_secs: u64 },
    CriticalEscalation { widget_id: String, title: String, body: String },
    NudgeDelivered { project_id: u128, kind: String, title: String },
    NotifyRequested { title: String, body: String, urgency: String },
    SshHostStatus { host: String, reachable: bool, latency_ms: Option<u32> },
    DuckUserMessage { text: String },
    DuckActionRequested { action: String },
    PaletteActionRequested { action: String, query: Option<String> },
    CommandPaletteQueryReceived { query: String },
    CommandPaletteSelectReceived { provider: String, item_id: String },
    SessionTimerCommand { action: String },
    WidgetActionReceived { widget_id: String, action: String, data: String },
    ProcessListRequested { sort: String },
    ProcessKillRequested { pid: i32, signal: String },
}

/// The kinds of event that modules listen to.
#[derive(Debug, Clone, Copy, PartialEq, Eq, Hash, Structural)]
pub enum EventKind {
    WorkspaceChanged,
    WindowFocused,
    PowerStateChanged,
    BarDensityRequested,
    ProfileActionRequested,
    FocusSessionStarted,
    FocusSessionEnded,
    CriticalEscalation,
    NudgeDelivered,
    NotifyRequested,
    SshHostStatus,
    DuckUserMessage,
    DuckActionRequested,
    PaletteActionRequested,
    CommandPaletteQueryReceived,
    CommandPaletteSelectReceived,
    SessionTimerCommand,
    WidgetActionReceived,
    ProcessListRequested,
    ProcessKillRequested,
    SyncCompleted,
    DataStoreUpdated,
}

/// The contents of an [`Event`].
pub enum EventView {
    WorkspaceChanged { name: Seq<char>, focused_window: Option<Seq<char>> },
    WindowFocused { app_id: Option<Seq<char>>, title: Seq<char> },
    PowerStateChanged { on_battery: bool },
    BarDensityRequested { mode: Seq<char> },
    ProfileActionRequested { action: Seq<char>, name: Option<Seq<char>> },
    FocusSessionStarted { kind: Seq<char>, project: Option<Seq<char>>, planned_secs: u64 },
    FocusSessionEnded { kind: Seq<char>, project: Option<Seq<char>>, actual_secs: u64 },
    CriticalEscalation { widget_id: Seq<char>, title: Seq<char>, body: Seq<char> },
    NudgeDelivered { project_id: u128, kind: Seq<char>, title: Seq<char> },
    NotifyRequested { title: Seq<char>, body: Seq<char>, urgency: Seq<char> },
    SshHostStatus { host: Seq<char>, reachable: bool, latency_ms: Option<u32> },
    DuckUserMessage { text: Seq<char> },
    DuckActionRequested { action: Seq<char> },
    PaletteActionRequested { action: Seq<char>, query: Option<Seq<char>> },
    CommandPaletteQueryReceived { query: Seq<char> },
    CommandPaletteSelectReceived { provider: Seq<char>, item_id: Seq<char> },
    SessionTimerCommand { action: Seq<char> },
    WidgetActionReceived { widget_id: Seq<char>, action: Seq<char>, data: Seq<char> },
    ProcessListRequested { sort: Seq<char> },
    ProcessKillRequested { pid: i32, signal: Seq<char> },
}

impl DeepView for Event {
    type V = EventView;

    open spec fn deep_view(&self) -> EventView {
        match self {
            Event::WorkspaceChanged { name, focused_window } => EventView::WorkspaceChanged {
                name: name@,
                focused_window: focused_window.deep_view(),
            },
            Event::WindowFocused { app_id, title } => EventView::WindowFocused {
                app_id: app_id.deep_view(),
                title: title@,
            },
            Event::PowerStateChanged { on_battery } => EventView::PowerStateChanged {
                on_battery: *on_battery,
            },
            Event::BarDensityRequested { mode } => EventView::BarDensityRequested { mode: mode@ },
            Event::ProfileActionRequested { action, name } => EventView::ProfileActionRequested {
                action: action@,
                name: name.deep_view(),
            },
            Event::FocusSessionStarted { kind, project, planned_secs } => {
                EventView::FocusSessionStarted {
                    kind: kind@,
                    project: project.deep_view(),
                    planned_secs: *planned_secs,
                }
            },
            Event::FocusSessionEnded { kind, project, actual_secs } => {
                EventView::FocusSessionEnded {
                    kind: kind@,
                    project: project.deep_view(),
                    actual_secs: *actual_secs,
                }
            },
            Event::CriticalEscalation { widget_id, title, body } => EventView::CriticalEscalation {
                widget_id: widget_id@,
                title: title@,
                body: body@,
            },
            Event::NudgeDelivered { project_id, kind, title } => EventView::NudgeDelivered {
                project_id: *project_id,
                kind: kind@,
                title: title@,
            },
            Event::NotifyRequested { title, body, urgency } => EventView::NotifyRequested {
                title: title@,
                body: body@,
                urgency: urgency@,
            },
            Event::SshHostStatus { host, reachable, latency_ms } => EventView::SshHostStatus {
                host: host@,
                reachable: *reachable,
                latency_ms: *latency_ms,
            },
            Event::DuckUserMessage { text } => EventView::DuckUserMessage { text: text@ },
            Event::DuckActionRequested { action } => EventView::DuckActionRequested {
                action: action@,
            },
            Event::PaletteActionRequested { action, query } => EventView::PaletteActionRequested {
                action: action@,
                query: query.deep_view(),
            },
            Event::CommandPaletteQueryReceived { query } => {
                EventView::CommandPaletteQueryReceived { query: query@ }
            },
            Event::CommandPaletteSelectReceived { provider, item_id } => {
                EventView::CommandPaletteSelectReceived { provider: provider@, item_id: item_id@ }
            },
            Event::SessionTimerCommand { action } => EventView::SessionTimerCommand {
                action: action@,
            },
            Event::WidgetActionReceived { widget_id, action, data } => {
                EventView::WidgetActionReceived {
                    widget_id: widget_id@,
                    action: action@,
                    data: data@,
                }
            },
            Event::ProcessListRequested { sort } => EventView::ProcessListRequested { sort: sort@ },
            Event::ProcessKillRequested { pid, signal } => EventView::ProcessKillRequested {
                pid: *pid,
                signal: signal@,
            },
        }
    }
}

/// How up to date a widget's state is.
#[derive(Debug, Clone, Copy, PartialEq, Eq, Structural)]
pub enum WidgetStatus {
    Normal,
    Stale,
}

} // verus!
