use levshell_modules::escalation::EscalationLevel;
use levshell_modules::events::{Event, EventKind, WidgetStatus};
use levshell_modules::ideation::config::{
    ConfigFile, IdeationConfig, IdeationConfigError, NudgeWeights,
};
use levshell_modules::ideation::nudge::NudgeKind;
use levshell_modules::ideation::selector::{
    ranked_kinds, GraphLink, NudgeContext, NudgeSelector, RecentEntity,
};
use levshell_modules::ideation::{
    any_blocked, load_recent_entities, tick_may_fire, IdeationModule,
};
use levshell_modules::notifications::{
    render, DesktopCall, NotificationSender, NotificationsModule, ShellMessage, Urgency,
};
use levshell_modules::proc_sniper::{
    proc_jiffies, proc_name, proc_rss_kb, EarlierSample, ProcessSniperModule, Sample, SniperStep,
};
use levshell_modules::projects::{EntityType, ProjectEntry, ProjectStatus};
use levshell_modules::rubber_duck::client::{
    accepted, chat_url, timeout_secs, ChatMessage, ClientError, Frame, LineReader, TokenDelta,
};
use levshell_modules::rubber_duck::config::{
    default_rubber_duck_config_path, RubberDuckConfig, RubberDuckConfigError, RubberDuckSettings,
    SettingsFile,
};
use levshell_modules::rubber_duck::stream::ChatStream;
use levshell_modules::rubber_duck::{DuckMessage, DuckStep, RubberDuckModule, MAX_MESSAGES};
use levshell_modules::session_timer::{
    Phase, SessionTimerConfig, SessionTimerModule, TimerEffect, SESSION_TIMER_WIDGET_ID,
};
use levshell_modules::sway::indicator::{
    WorkspaceIndicatorState, WorkspaceInfo, WORKSPACE_WIDGET_ID, WORKSPACE_WIDGET_TYPE,
};
use levshell_modules::sway::module::{CompositorEvent, SwayWorkspaceModule, WorkspaceChange};
use levshell_modules::time::UtcTime;
use rand::rngs::StdRng;
use rand::SeedableRng;

// ---------------------------------------------------------------------------
// The session timer
// ---------------------------------------------------------------------------

fn fast_cfg() -> SessionTimerConfig {
    SessionTimerConfig {
        work_minutes: 1,
        break_minutes: 1,
        long_break_minutes: 2,
        intervals_until_long_break: 2,
    }
}

fn timer() -> SessionTimerModule {
    SessionTimerModule::new(fast_cfg())
}

fn published(effects: &[TimerEffect]) -> Vec<Event> {
    effects
        .iter()
        .filter_map(|e| match e {
            TimerEffect::Publish(event) => Some(event.clone()),
            TimerEffect::Show(_) => None,
        })
        .collect()
}

#[test]
fn default_config_is_classic_pomodoro() {
    let c = SessionTimerConfig::default();
    assert_eq!(c.work_minutes, 25);
    assert_eq!(c.break_minutes, 5);
    assert_eq!(c.long_break_minutes, 15);
    assert_eq!(c.intervals_until_long_break, 4);
}

#[test]
fn start_enters_work_and_emits_focus_started() {
    let mut m = timer();
    let events = published(&m.handle_command("start"));
    assert_eq!(m.phase, Phase::Work);
    match &events[0] {
        Event::FocusSessionStarted { kind, planned_secs, .. } => {
            assert_eq!(kind, "work");
            assert_eq!(*planned_secs, 60);
        }
        other => panic!("unexpected: {other:?}"),
    }
}

#[test]
fn work_completion_advances_to_break_with_paired_events() {
    let mut m = timer();
    m.handle_command("start");
    let mut events: Vec<Event> = Vec::new();
    for _ in 0..60 {
        events.extend(published(&m.advance_one_second()));
    }
    assert_eq!(m.phase, Phase::Break);
    assert_eq!(m.work_done, 1);
    assert!(matches!(&events[0], Event::FocusSessionEnded { kind, .. } if kind == "work"));
    assert!(matches!(&events[1], Event::FocusSessionStarted { kind, .. } if kind == "break"));
}

#[test]
fn pause_freezes_elapsed() {
    let mut m = timer();
    m.handle_command("start");
    m.advance_one_second();
    m.advance_one_second();
    m.handle_command("pause");
    let frozen = m.elapsed_secs;
    m.advance_one_second();
    m.advance_one_second();
    assert_eq!(m.elapsed_secs, frozen, "paused timer must not advance");
    m.handle_command("resume");
    m.advance_one_second();
    assert_eq!(m.elapsed_secs, frozen + 1);
}

#[test]
fn stop_returns_to_idle_and_emits_ended() {
    let mut m = timer();
    m.handle_command("start");
    m.advance_one_second();
    let events = published(&m.handle_command("stop"));
    assert_eq!(m.phase, Phase::Idle);
    assert!(matches!(&events[0], Event::FocusSessionEnded { .. }));
}

#[test]
fn widget_toggle_cycles_idle_running_paused() {
    let toggle = |widget: &str| Event::WidgetActionReceived {
        widget_id: widget.into(),
        action: "toggle".into(),
        data: "{}".into(),
    };
    let mut m = timer();
    m.on_event(&toggle(SESSION_TIMER_WIDGET_ID));
    assert_eq!(m.phase, Phase::Work);
    assert!(!m.paused);
    m.on_event(&toggle(SESSION_TIMER_WIDGET_ID));
    assert!(m.paused);
    m.on_event(&toggle(SESSION_TIMER_WIDGET_ID));
    assert!(!m.paused);
    assert_eq!(m.phase, Phase::Work);
    m.on_event(&toggle("something-else"));
    assert!(!m.paused);
}

#[test]
fn long_break_after_n_work_intervals() {
    let mut m = timer();
    m.handle_command("start");
    m.handle_command("skip");
    assert_eq!(m.work_done, 1);
    assert_eq!(m.planned_secs, 60, "1st break is short");
    m.handle_command("skip");
    m.handle_command("skip");
    assert_eq!(m.work_done, 2);
    assert_eq!(m.planned_secs, 120, "2nd break is the long break");
}

// ---------------------------------------------------------------------------
// Ideation
// ---------------------------------------------------------------------------

/// 2026-04-16 12:00:00.
const NOW: UtcTime = UtcTime { secs: 1_776_340_800, nanos: 0 };

fn fire_probability(cfg: &IdeationConfig) -> f64 {
    let lambda = f64::from_bits(cfg.lambda_minutes);
    if lambda <= 0.0 {
        return 1.0;
    }
    (cfg.tick_secs as f64 / (lambda * 60.0)).clamp(0.0, 1.0)
}

fn project(id: u128, name: &str, status: ProjectStatus, questions: &[&str], tags: &[&str]) -> ProjectEntry {
    ProjectEntry {
        id,
        name: name.into(),
        status,
        open_questions: questions.iter().map(|s| s.to_string()).collect(),
        tags: tags.iter().map(|s| s.to_string()).collect(),
        workspace_names: vec![],
        updated_at: NOW,
        last_active_at: None,
    }
}

fn note(owner: Option<u128>, title: &str, tags: &[&str], links: Vec<GraphLink>) -> RecentEntity {
    RecentEntity {
        id: 99,
        entity_type: EntityType::Note,
        title: title.into(),
        project_id: owner,
        tags: tags.iter().map(|s| s.to_string()).collect(),
        updated_at: NOW,
        graph_links: links,
    }
}

fn weighted(open_question: f64, cross_connection: f64, blocked: f64) -> IdeationConfig {
    IdeationConfig {
        weights: NudgeWeights {
            open_question: open_question.to_bits(),
            cross_connection: cross_connection.to_bits(),
            blocked: blocked.to_bits(),
        },
        ..IdeationConfig::default()
    }
}

fn select(
    projects: &[ProjectEntry],
    recent_entities: &[RecentEntity],
    config: &IdeationConfig,
    seed: u64,
) -> Option<levshell_modules::ideation::nudge::Nudge> {
    let ctx = NudgeContext { projects, recent_entities, now: NOW, config };
    NudgeSelector::new().select(&ctx, 0, &mut StdRng::seed_from_u64(seed))
}

#[test]
fn config_defaults_are_sensible() {
    let cfg = IdeationConfig::default();
    assert!(cfg.enabled);
    assert_eq!(f64::from_bits(cfg.lambda_minutes), 45.0);
    assert_eq!(cfg.tick_secs, 60);
    assert_eq!(f64::from_bits(cfg.weights.open_question), 0.7);
    assert_eq!(f64::from_bits(cfg.weights.cross_connection), 0.2);
    assert_eq!(f64::from_bits(cfg.weights.blocked), 0.1);
    assert_eq!(f64::from_bits(cfg.blocked_escalation_factor), 3.0);
}

#[test]
fn base_fire_probability_is_tick_over_lambda() {
    let cfg = IdeationConfig {
        tick_secs: 60,
        lambda_minutes: 30.0f64.to_bits(),
        ..IdeationConfig::default()
    };
    assert!((fire_probability(&cfg) - 1.0 / 30.0).abs() < 1e-9);
}

#[test]
fn base_fire_probability_clamps_when_tick_exceeds_lambda() {
    let cfg = IdeationConfig {
        tick_secs: 3600,
        lambda_minutes: 30.0f64.to_bits(),
        ..IdeationConfig::default()
    };
    assert_eq!(fire_probability(&cfg), 1.0);
}

#[test]
fn ideation_files_fall_back_to_the_defaults() {
    let gone = IdeationConfig::load_from("/c", ConfigFile::Unreadable("gone".into()));
    assert_eq!(gone.as_ref().unwrap_err().message(), "reading ideation config /c: gone");
    let odd = IdeationConfig::load_from("/c", ConfigFile::Malformed("odd".into()));
    assert!(matches!(odd, Err(IdeationConfigError::Toml { .. })));
    assert_eq!(IdeationModule::load_config_from_dir(Some(odd)), IdeationConfig::default());
    assert_eq!(IdeationModule::load_config_from_dir(None), IdeationConfig::default());
    let own = weighted(1.0, 0.0, 0.0);
    let read = IdeationConfig::load_from("/c", ConfigFile::Read(own));
    assert_eq!(IdeationModule::load_config_from_dir(Some(read)), own);
}

#[test]
fn empty_registry_produces_no_nudge() {
    assert_eq!(select(&[], &[], &IdeationConfig::default(), 1), None);
}

#[test]
fn open_question_kind_is_picked_when_available() {
    let projects =
        vec![project(1, "Levshell", ProjectStatus::Active, &["What blocks density morphing?"], &[])];
    let nudge = select(&projects, &[], &weighted(1.0, 0.0, 0.0), 42).unwrap();
    assert_eq!(nudge.kind, NudgeKind::OpenQuestion);
    assert_eq!(nudge.project_id, 1);
    assert_eq!(nudge.body, "What blocks density morphing?");
}

#[test]
fn blocked_escalation_fires_on_blocked_projects() {
    let projects = vec![
        project(1, "Stuck", ProjectStatus::Blocked, &[], &[]),
        project(2, "Running", ProjectStatus::Active, &[], &[]),
    ];
    let nudge = select(&projects, &[], &weighted(0.0, 0.0, 1.0), 7).unwrap();
    assert_eq!(nudge.kind, NudgeKind::BlockedEscalation);
    assert_eq!(nudge.project_id, 1);
}

#[test]
fn stale_active_project_escalates_without_blocked_status() {
    let mut quiet = project(1, "Quiet", ProjectStatus::Active, &[], &[]);
    quiet.updated_at = UtcTime { secs: NOW.secs - 48 * 3600, nanos: 0 };
    let config = IdeationConfig { stale_project_hours: 24, ..weighted(0.0, 0.0, 1.0) };
    let nudge = select(&[quiet], &[], &config, 3).unwrap();
    assert_eq!(nudge.kind, NudgeKind::BlockedEscalation);
}

#[test]
fn completed_projects_are_ignored() {
    let projects = vec![project(1, "Done", ProjectStatus::Complete, &["never asked"], &[])];
    assert_eq!(select(&projects, &[], &weighted(1.0, 0.0, 0.0), 5), None);
}

#[test]
fn cross_connection_requires_tag_overlap_with_different_project() {
    let projects = vec![
        project(1, "Shell", ProjectStatus::Active, &[], &["qml", "shell"]),
        project(2, "Daemon", ProjectStatus::Active, &[], &["rust", "shell"]),
    ];
    let recent = vec![note(Some(1), "Bar widgets", &["shell", "qml"], vec![])];
    let nudge = select(&projects, &recent, &weighted(0.0, 1.0, 0.0), 11).unwrap();
    assert_eq!(nudge.kind, NudgeKind::CrossConnection);
    assert_eq!(nudge.project_id, 2, "must pick a project other than the owner");
    assert!(nudge.body.contains("shell"));
}

#[test]
fn graph_mined_link_beats_tag_overlap_and_names_the_edge() {
    let projects = vec![
        project(1, "Reading", ProjectStatus::Active, &[], &[]),
        project(2, "Thesis", ProjectStatus::Active, &[], &[]),
    ];
    let recent = vec![note(
        Some(1),
        "Sparse attention scratch",
        &[],
        vec![GraphLink {
            kind: "wiki_link".into(),
            neighbour_label: "Longformer summary".into(),
            neighbour_project: Some(2),
        }],
    )];
    let nudge = select(&projects, &recent, &weighted(0.0, 1.0, 0.0), 23).unwrap();
    assert_eq!(nudge.kind, NudgeKind::CrossConnection);
    assert_eq!(nudge.project_id, 2, "nudge targets the neighbour's project");
    assert!(nudge.body.contains("wiki_link"), "{}", nudge.body);
    assert!(nudge.body.contains("Longformer summary"), "{}", nudge.body);
}

#[test]
fn graph_link_within_same_project_is_not_cross_connection() {
    let projects = vec![project(1, "Solo", ProjectStatus::Active, &[], &[])];
    let recent = vec![note(
        Some(1),
        "Intra-project note",
        &[],
        vec![GraphLink {
            kind: "wiki_link".into(),
            neighbour_label: "Sibling note".into(),
            neighbour_project: Some(1),
        }],
    )];
    assert_eq!(select(&projects, &recent, &weighted(0.0, 1.0, 0.0), 29), None);
}

#[test]
fn fall_through_when_preferred_kind_has_no_candidates() {
    let projects = vec![project(1, "Has Questions", ProjectStatus::Active, &["only question"], &[])];
    let config = weighted(0.3, 1.0, 0.0);
    assert_eq!(ranked_kinds(&config.weights)[0].0, NudgeKind::CrossConnection);
    let nudge = select(&projects, &[], &config, 13).unwrap();
    assert_eq!(nudge.kind, NudgeKind::OpenQuestion);
}

#[test]
fn blocked_escalation_factor_multiplies_fire_probability() {
    let config = IdeationConfig {
        tick_secs: 30,
        lambda_minutes: 1.0f64.to_bits(),
        blocked_escalation_factor: 3.0f64.to_bits(),
        ..IdeationConfig::default()
    };
    let projects = vec![project(1, "Stuck", ProjectStatus::Blocked, &[], &[])];
    assert!(any_blocked(&projects));
    let p = fire_probability(&config) * f64::from_bits(config.blocked_escalation_factor);
    assert!(p >= 1.0, "escalated probability clamps to 1.0, so fire every tick");
}

#[test]
fn zero_weights_produces_no_nudge() {
    let projects = vec![project(1, "X", ProjectStatus::Active, &["q"], &[])];
    assert_eq!(select(&projects, &[], &weighted(0.0, 0.0, 0.0), 19), None);
}

#[test]
fn ticks_announce_what_was_picked() {
    let projects = vec![project(1, "X", ProjectStatus::Active, &["q"], &[])];
    let m = IdeationModule::with_config(weighted(1.0, 0.0, 0.0));
    let mut rng = StdRng::seed_from_u64(1);
    let event = m.run_tick(Some(&projects), &[], NOW, true, 0, &mut rng).unwrap();
    match event {
        Event::NudgeDelivered { project_id, kind, .. } => {
            assert_eq!(project_id, 1);
            assert_eq!(kind, "open_question");
        }
        other => panic!("unexpected: {other:?}"),
    }
    assert!(m.run_tick(Some(&projects), &[], NOW, false, 0, &mut rng).is_none());
    assert!(m.run_tick(Some(&[]), &[], NOW, true, 0, &mut rng).is_none());
    assert!(m.run_tick(None, &[], NOW, true, 0, &mut rng).is_none());
    let off = IdeationConfig { enabled: false, ..IdeationConfig::default() };
    assert!(!tick_may_fire(&off, Some(&projects)));
    assert_eq!(m.config().tick_interval(), 60);
}

#[test]
fn recent_entities_lie_within_the_window() {
    let mut old = note(None, "old", &[], vec![]);
    old.updated_at = UtcTime { secs: NOW.secs - 7 * 3600, nanos: 0 };
    let new = note(None, "new", &[], vec![]);
    let kept = load_recent_entities(vec![old], vec![new], NOW, &IdeationConfig::default());
    assert_eq!(kept.len(), 1);
    assert_eq!(kept[0].title, "new");
}

// ---------------------------------------------------------------------------
// Notifications
// ---------------------------------------------------------------------------

struct SpySender {
    calls: Vec<(String, String, String)>,
    nudges: Vec<(String, String)>,
    notifies: Vec<(String, String, String)>,
    result: Result<(), String>,
}

impl SpySender {
    fn with_result(result: Result<(), String>) -> Self {
        SpySender {
            calls: Vec::new(),
            nudges: Vec::new(),
            notifies: Vec::new(),
            result,
        }
    }
}

impl NotificationSender for SpySender {
    fn send_critical(&mut self, widget_id: &str, title: &str, body: &str) -> Result<(), String> {
        self.calls.push((widget_id.into(), title.into(), body.into()));
        self.result.clone()
    }

    fn send_nudge(&mut self, kind: &str, title: &str) -> Result<(), String> {
        self.nudges.push((kind.into(), title.into()));
        self.result.clone()
    }

    fn send_notify(&mut self, urgency: &str, title: &str, body: &str) -> Result<(), String> {
        self.notifies.push((urgency.into(), title.into(), body.into()));
        self.result.clone()
    }
}

fn notifier(result: Result<(), String>) -> NotificationsModule<SpySender> {
    NotificationsModule::new(SpySender::with_result(result))
}

#[test]
fn on_event_forwards_notify_to_sender() {
    let mut module = notifier(Ok(()));
    module.on_event(&Event::NotifyRequested {
        title: "Build finished".into(),
        body: "cargo build: ok".into(),
        urgency: "normal".into(),
    });
    let n = &module.sender.notifies;
    assert_eq!(n.len(), 1);
    assert_eq!(n[0].0, "normal");
    assert_eq!(n[0].1, "Build finished");
    assert_eq!(n[0].2, "cargo build: ok");
    assert!(module.sender.calls.is_empty());
}

#[test]
fn on_event_forwards_critical_to_sender_and_publisher() {
    let mut module = notifier(Ok(()));
    let (message, _) = module.on_event(&Event::CriticalEscalation {
        widget_id: "cpu".into(),
        title: "CPU critically high".into(),
        body: "CPU sustained at 96%".into(),
    });
    assert_eq!(
        message,
        Some(ShellMessage::CriticalEscalation {
            widget_id: "cpu".into(),
            title: "CPU critically high".into(),
            body: "CPU sustained at 96%".into(),
        })
    );
    let calls = &module.sender.calls;
    assert_eq!(calls.len(), 1);
    assert_eq!(calls[0].0, "cpu");
    assert_eq!(calls[0].1, "CPU critically high");
}

#[test]
fn on_event_ignores_unrelated_events() {
    let mut module = notifier(Ok(()));
    let (message, sent) = module.on_event(&Event::PowerStateChanged { on_battery: true });
    assert!(message.is_none() && sent.is_none());
    assert!(module.sender.calls.is_empty());
}

#[test]
fn sender_failure_does_not_fail_on_event() {
    let mut module = notifier(Err("no dbus".into()));
    let (message, sent) = module.on_event(&Event::CriticalEscalation {
        widget_id: "battery".into(),
        title: "Battery critically low".into(),
        body: "Battery at 3%".into(),
    });
    assert!(message.is_some(), "the shell is told all the same");
    assert_eq!(sent, Some(Err("no dbus".into())));
    assert_eq!(
        module.sender.calls,
        vec![("battery".into(), "Battery critically low".into(), "Battery at 3%".into())]
    );
    assert!(module.sender.nudges.is_empty() && module.sender.notifies.is_empty());
}

#[test]
fn module_subscribes_to_critical_escalation() {
    let subs = notifier(Ok(())).subscribed_events();
    assert_eq!(subs.len(), 3);
    assert!(subs.contains(&EventKind::CriticalEscalation));
    assert!(subs.contains(&EventKind::NudgeDelivered));
    assert!(subs.contains(&EventKind::NotifyRequested));
}

#[test]
fn on_event_forwards_nudge_to_sender_and_shell() {
    let title = "Revisit the attention-sparsity assumption";
    let mut module = notifier(Ok(()));
    let (message, _) = module.on_event(&Event::NudgeDelivered {
        project_id: 0,
        kind: "open_question".into(),
        title: title.into(),
    });
    let nudges = module.sender.nudges;
    assert_eq!(nudges.len(), 1);
    assert_eq!(nudges[0].0, "open_question");
    assert_eq!(nudges[0].1, title);
    assert!(module.sender.calls.is_empty());
    assert_eq!(
        message,
        Some(ShellMessage::Nudge { kind: "open_question".into(), title: title.into() })
    );
}

#[test]
fn notifications_are_rendered_with_their_urgency() {
    let call = |urgency: &str| DesktopCall::Notify {
        urgency: urgency.into(),
        title: "T".into(),
        body: "B".into(),
    };
    assert_eq!(render(&call("critical")).urgency, Urgency::Critical);
    assert_eq!(render(&call("low")).urgency, Urgency::Low);
    assert_eq!(render(&call("whatever")).urgency, Urgency::Normal);
}

// ---------------------------------------------------------------------------
// Workspaces
// ---------------------------------------------------------------------------

fn ws(name: &str, num: i32, focused: bool) -> WorkspaceInfo {
    WorkspaceInfo { name: name.into(), num, focused, urgent: false, output: "eDP-1".into() }
}

#[test]
fn from_workspaces_picks_focused_as_active() {
    let state = WorkspaceIndicatorState::from_workspaces(vec![
        ws("research", 1, false),
        ws("writing", 2, true),
        ws("reading", 3, false),
    ]);
    assert_eq!(state.active.as_deref(), Some("writing"));
    assert_eq!(state.workspaces.len(), 3);
}

#[test]
fn no_focused_workspace_means_no_active() {
    let state = WorkspaceIndicatorState::from_workspaces(vec![ws("a", 1, false)]);
    assert!(state.active.is_none());
}

#[test]
fn empty_workspaces_round_trips() {
    let state = WorkspaceIndicatorState::from_workspaces(vec![]);
    assert!(state.workspaces.is_empty());
    assert!(state.active.is_none());
}

#[test]
fn with_focused_window_attaches_title() {
    let state = WorkspaceIndicatorState::from_workspaces(vec![ws("a", 1, true)])
        .with_focused_window(Some("Alacritty".into()));
    assert_eq!(state.focused_window.as_deref(), Some("Alacritty"));
}

#[test]
fn into_widget_update_uses_canonical_ids_and_status() {
    let state = WorkspaceIndicatorState::from_workspaces(vec![ws("a", 1, true)]);
    let update = state.into_widget_update(WidgetStatus::Normal);
    assert_eq!(update.widget_id, WORKSPACE_WIDGET_ID);
    assert_eq!(update.widget_type, WORKSPACE_WIDGET_TYPE);
    assert_eq!(update.status, WidgetStatus::Normal);
    assert_eq!(update.escalation, EscalationLevel::Ambient);
    assert_eq!(update.state.active.as_deref(), Some("a"));
}

#[test]
fn compositor_events_are_told_with_the_focused_window() {
    let mut m = SwayWorkspaceModule::new();
    let focus = CompositorEvent::WindowFocused {
        title: Some("draft".into()),
        app_id: Some("neovide".into()),
    };
    assert_eq!(
        m.on_compositor_event(&focus),
        Some(Event::WindowFocused { app_id: Some("neovide".into()), title: "draft".into() })
    );
    let change = |change: WorkspaceChange| CompositorEvent::Workspace {
        change,
        current: Some("2".into()),
    };
    assert_eq!(
        m.on_compositor_event(&change(WorkspaceChange::Focus)),
        Some(Event::WorkspaceChanged { name: "2".into(), focused_window: Some("draft".into()) })
    );
    assert_eq!(m.on_compositor_event(&change(WorkspaceChange::Other)), None);
    let update = m.indicator(vec![ws("2", 2, true)]);
    assert_eq!(update.state.focused_window.as_deref(), Some("draft"));
    assert_eq!(update.state.active.as_deref(), Some("2"));
}

// ---------------------------------------------------------------------------
// Processes
// ---------------------------------------------------------------------------

fn stat(comm: &str, user: u64, system: u64) -> String {
    format!("7 ({comm}) S 1 2 3 4 5 6 7 8 9 10 {user} {system} 0 0 20\n")
}

fn sample(pid: i32, user: u64, pages: u64) -> Sample {
    Sample {
        pid,
        stat: stat("x", user, 0),
        comm: Some(format!("p{pid}\n")),
        statm: Some(format!("100 {pages} 3")),
    }
}

fn earlier(pid: i32, user: u64) -> EarlierSample {
    EarlierSample { pid, stat: stat("x", user, 0) }
}

#[test]
fn process_files_are_read() {
    assert_eq!(proc_jiffies(&stat("a) (b", 30, 12)), Some(42));
    assert_eq!(proc_jiffies("garbage"), None);
    assert_eq!(proc_jiffies("1 (x) S 1 2"), None);
    assert_eq!(proc_rss_kb(&Some("100 25 3".into())), 100);
    assert_eq!(proc_rss_kb(&Some("100".into())), 0);
    assert_eq!(proc_rss_kb(&None), 0);
    assert_eq!(proc_name(5, &Some("bash\n".into())), "bash");
    assert_eq!(proc_name(5, &None), "pid 5");
}

#[test]
fn the_busiest_processes_are_listed() {
    let percent = |used: u128| (used as f64).to_bits();
    let first: Vec<EarlierSample> = (1..8).map(|pid| earlier(pid, 10)).collect();
    let second: Vec<Sample> =
        (1..9).map(|pid| sample(pid, 10 + pid as u64, 100 - pid as u64)).collect();
    let mut m = ProcessSniperModule::new();
    let rows = m.publish_top(&first, &second, percent);
    let pids: Vec<i32> = rows.iter().map(|r| r.pid).collect();
    assert_eq!(pids, vec![7, 6, 5, 4, 3], "a process that was not there before used nothing");
    assert_eq!(f64::from_bits(rows[0].cpu), 7.0);
    let step = m.on_event(&Event::ProcessListRequested { sort: "mem".into() });
    assert_eq!(step, SniperStep::List);
    let rows = m.publish_top(&first, &second, percent);
    assert_eq!(rows[0].pid, 1);
    assert_eq!(rows[0].mem_kb, 396);
    assert_eq!(rows.len(), 5);
}

#[test]
fn only_allowed_signals_are_sent() {
    let kill = |pid: i32, signal: &str| ProcessSniperModule::kill(pid, signal);
    assert_eq!(kill(42, "SIGTERM"), Some(("-TERM".into(), "42".into())));
    assert_eq!(kill(42, "KILL"), Some(("-KILL".into(), "42".into())));
    assert_eq!(kill(42, "HUP"), None);
    assert_eq!(kill(1, "KILL"), None);
    assert_eq!(kill(-1, "KILL"), None);
    let mut m = ProcessSniperModule::new();
    let event = Event::ProcessKillRequested { pid: 42, signal: "TERM".into() };
    assert_eq!(
        m.on_event(&event),
        SniperStep::KillAndList { signal: "-TERM".into(), pid: "42".into() }
    );
    let refused = Event::ProcessKillRequested { pid: 0, signal: "TERM".into() };
    assert_eq!(m.on_event(&refused), SniperStep::List);
}

// ---------------------------------------------------------------------------
// The rubber duck
// ---------------------------------------------------------------------------

/// Reads the objects of a reply as the model's server writes them.
fn frame(line: &str) -> Result<Frame, String> {
    let v: serde_json::Value = serde_json::from_str(line).map_err(|e| e.to_string())?;
    let message = match v.get("message") {
        Some(m) => Some(ChatMessage {
            role: m["role"].as_str().ok_or("role")?.to_string(),
            content: m["content"].as_str().ok_or("content")?.to_string(),
        }),
        None => None,
    };
    Ok(Frame { message, done: v["done"].as_bool().unwrap_or(false) })
}

fn stream(chunks: &[&[u8]]) -> (Vec<TokenDelta>, Result<String, ClientError>) {
    let mut answer = ChatStream::new();
    let mut tokens: Vec<TokenDelta> = Vec::new();
    for chunk in chunks {
        tokens.extend(answer.absorb(chunk, frame));
    }
    let (last, result) = answer.finish();
    tokens.extend(last);
    (tokens, result)
}

#[test]
fn assembles_deltas_across_chunk_boundaries() {
    let (tokens, result) = stream(&[
        b"{\"message\":{\"role\":\"assistant\",\"content\":\"Hel\"},\"d",
        b"one\":false}\n{\"message\":{\"role\":\"assistan",
        b"t\",\"content\":\"lo!\"},\"done\":false}\n{\"done\":tru",
        b"e}\n",
    ]);
    assert_eq!(tokens.len(), 3);
    assert_eq!(tokens[0].delta, "Hel");
    assert_eq!(tokens[1].delta, "lo!");
    assert!(tokens[2].done);
    assert!(tokens[2].delta.is_empty());
    assert_eq!(result.unwrap(), "Hello!");
}

#[test]
fn non_2xx_status_surfaces_status_error() {
    assert!(accepted(200, String::new()).is_ok());
    match accepted(500, "model missing".into()) {
        Err(ClientError::Status { status, body }) => {
            assert_eq!(status, 500);
            assert!(body.contains("model missing"));
        }
        other => panic!("expected Status, got {other:?}"),
    }
    let e = ClientError::Status { status: 404, body: "no".into() };
    assert_eq!(e.message(), "ollama returned HTTP 404: no");
}

#[test]
fn malformed_line_surfaces_badline_error() {
    let (tokens, result) = stream(&[b"not json at all\n"]);
    assert!(tokens.is_empty());
    match result {
        Err(ClientError::BadLine { line, .. }) => assert_eq!(line, "not json at all"),
        other => panic!("expected a bad line, got {other:?}"),
    }
}

#[test]
fn stream_without_done_synthesizes_final_frame() {
    let (tokens, result) =
        stream(&[b"{\"message\":{\"role\":\"assistant\",\"content\":\"hi\"},\"done\":false}\n"]);
    assert_eq!(tokens.len(), 2);
    assert_eq!(tokens[0].delta, "hi");
    assert!(tokens[1].done);
    assert_eq!(result.unwrap(), "hi");
}

#[test]
fn lines_are_trimmed_and_bad_bytes_skipped() {
    let mut r = LineReader::new();
    assert_eq!(r.absorb(b"  a \n\n\xFF\xFE\nb"), vec!["a"]);
    assert_eq!(r.rest, b"b");
    assert_eq!(r.absorb(b"\xC3"), Vec::<String>::new());
    assert_eq!(r.absorb(b"\xA4\r\n"), vec!["bä"]);
}

#[test]
fn requests_go_to_the_chat_endpoint() {
    let mut cfg = RubberDuckConfig::default();
    assert_eq!(chat_url(&cfg), "http://localhost:11434/api/chat");
    cfg.endpoint = "http://h//".into();
    cfg.timeout_secs = 0;
    assert_eq!(chat_url(&cfg), "http://h/api/chat");
    assert_eq!(timeout_secs(&cfg), 1);
}

#[test]
fn defaults_match_ollama_localhost() {
    let c = RubberDuckConfig::default();
    assert!(c.enabled);
    assert_eq!(c.endpoint, "http://localhost:11434");
    assert_eq!(c.model, "llama3.2:3b");
    assert_eq!(c.timeout_secs, 120);
    assert!(c.system_prompt.contains("rubber-duck"));
}

fn settings(model: &str) -> RubberDuckSettings {
    RubberDuckSettings {
        enabled: None,
        endpoint: None,
        model: Some(model.into()),
        system_prompt: None,
        timeout_secs: None,
    }
}

#[test]
fn parses_partial_toml() {
    let c = RubberDuckConfig::from_settings(settings("mistral:7b"));
    assert_eq!(c.model, "mistral:7b");
    assert_eq!(c.endpoint, "http://localhost:11434");
}

#[test]
fn parses_custom_endpoint() {
    let c = RubberDuckConfig::from_settings(RubberDuckSettings {
        endpoint: Some("http://gpubox.local:11434".into()),
        timeout_secs: Some(300),
        ..settings("qwen2.5:14b")
    });
    assert_eq!(c.endpoint, "http://gpubox.local:11434");
    assert_eq!(c.timeout_secs, 300);
}

#[test]
fn load_from_missing_file_errors_with_path() {
    let path = "/tmp/nonexistent_duck_zzz.toml";
    let err = RubberDuckConfig::load_from(path, SettingsFile::Unreadable("gone".into()))
        .expect_err("should fail");
    match &err {
        RubberDuckConfigError::Io { path: p, .. } => assert_eq!(p, path),
        other => panic!("expected Io, got {other:?}"),
    }
    assert_eq!(
        err.message(),
        "reading rubber-duck config /tmp/nonexistent_duck_zzz.toml: gone"
    );
    assert_eq!(
        default_rubber_duck_config_path(&Some("/c".into())).as_deref(),
        Some("/c/rubber_duck.toml")
    );
}

#[test]
fn load_from_malformed_file_is_toml_error() {
    let err = RubberDuckConfig::load_from("/c/bad.toml", SettingsFile::Malformed("odd".into()))
        .expect_err("should fail");
    assert!(matches!(err, RubberDuckConfigError::Toml { .. }));
}

fn duck_action(action: &str) -> Event {
    Event::DuckActionRequested { action: action.into() }
}

fn say(text: &str) -> Event {
    Event::DuckUserMessage { text: text.into() }
}

#[test]
fn action_open_publishes_duck_open() {
    let mut m = RubberDuckModule::new();
    match m.on_event(&duck_action("open")) {
        DuckStep::Tell(msgs) => {
            assert_eq!(msgs[0], DuckMessage::Open);
            assert!(matches!(&msgs[1], DuckMessage::Status(s) if s.reachable));
        }
        other => panic!("unexpected step: {other:?}"),
    }
}

#[test]
fn action_reset_clears_conversation_and_notifies_shell() {
    let mut m = RubberDuckModule::new();
    m.conversation.push(ChatMessage { role: "user".into(), content: "hi".into() });
    let step = m.on_event(&duck_action("reset"));
    assert!(m.conversation.is_empty());
    assert_eq!(step, DuckStep::Tell(vec![DuckMessage::Reset]));
}

#[test]
fn disabled_config_ignores_user_message() {
    let cfg = RubberDuckConfig { enabled: false, ..Default::default() };
    let mut m = RubberDuckModule::with_config(cfg);
    let step = m.on_event(&say("stuck"));
    assert!(m.conversation.is_empty());
    assert!(matches!(step, DuckStep::Tell(msgs) if msgs.len() == 1));
}

#[test]
fn empty_message_is_ignored() {
    let mut m = RubberDuckModule::new();
    assert_eq!(m.on_event(&say("   ")), DuckStep::Tell(vec![]));
    assert!(m.conversation.is_empty());
}

#[test]
fn push_user_appends_and_includes_system_prompt() {
    let cfg = RubberDuckConfig { system_prompt: "SYS".into(), ..Default::default() };
    let mut m = RubberDuckModule::with_config(cfg);
    let full = m.push_user("why is X broken".into()).unwrap();
    assert_eq!(full.len(), 2);
    assert_eq!(full[0].role, "system");
    assert_eq!(full[0].content, "SYS");
    assert_eq!(full[1].role, "user");
    assert_eq!(full[1].content, "why is X broken");
    assert_eq!(m.conversation.len(), 1);
}

#[test]
fn push_user_returns_none_at_cap() {
    let mut m = RubberDuckModule::new();
    for _ in 0..MAX_MESSAGES {
        m.conversation.push(ChatMessage { role: "user".into(), content: "x".into() });
    }
    assert!(m.push_user("more".into()).is_none());
}

#[test]
fn full_conversations_start_afresh() {
    let mut m = RubberDuckModule::new();
    for _ in 0..MAX_MESSAGES {
        m.conversation.push(ChatMessage { role: "user".into(), content: "x".into() });
    }
    assert_eq!(m.on_event(&say("more")), DuckStep::Tell(vec![DuckMessage::Reset]));
    match m.on_event(&say("again")) {
        DuckStep::Ask(messages) => assert_eq!(messages.len(), 2),
        other => panic!("unexpected step: {other:?}"),
    }
}

#[test]
fn replies_are_kept_and_failures_told() {
    let mut m = RubberDuckModule::new();
    m.on_event(&say("q"));
    let told = m.finished(Ok("a".into()));
    assert!(matches!(&told[..], [DuckMessage::Status(s)] if s.reachable));
    assert_eq!(m.conversation.len(), 2);
    assert_eq!(m.conversation[1].role, "assistant");
    m.finished(Ok(String::new()));
    assert_eq!(m.conversation.len(), 2, "an empty reply is not kept");
    let told = m.finished(Err(ClientError::Http("refused".into())));
    match &told[..] {
        [DuckMessage::Token(t), DuckMessage::Status(s)] => {
            assert_eq!(t.delta, "(rubber-duck error: http error: refused)");
            assert!(t.done && !s.reachable);
            assert_eq!(s.detail, "http error: refused");
        }
        other => panic!("unexpected messages: {other:?}"),
    }
}

#[test]
fn nudge_kinds_have_names_of_their_own() {
    let names = [
        NudgeKind::OpenQuestion.as_str(),
        NudgeKind::CrossConnection.as_str(),
        NudgeKind::BlockedEscalation.as_str(),
    ];
    assert_eq!(names, ["open_question", "cross_connection", "blocked_escalation"]);
}

#[test]
fn a_duck_that_is_turned_off_does_not_open() {
    let cfg = RubberDuckConfig { enabled: false, ..Default::default() };
    let mut m = RubberDuckModule::with_config(cfg);
    match m.on_event(&duck_action("open")) {
        DuckStep::Tell(msgs) => {
            assert_eq!(msgs.len(), 1);
            assert!(matches!(
                &msgs[0],
                DuckMessage::Status(s) if !s.reachable && s.detail == "disabled in config"
            ));
        }
        other => panic!("unexpected step: {other:?}"),
    }
}

#[test]
fn replies_are_cut_anywhere() {
    let bytes = "one\n\n two \nthr\u{e9}e\nrest".as_bytes();
    for size in 1..bytes.len() {
        let mut reader = LineReader::new();
        let mut lines: Vec<String> = Vec::new();
        for piece in bytes.chunks(size) {
            lines.extend(reader.absorb(piece));
        }
        assert_eq!(lines, vec!["one", "two", "thr\u{e9}e"], "pieces of {size}");
        assert_eq!(reader.rest, b"rest");
    }
}

#[test]
fn a_stream_is_its_bytes() {
    let line = |c: &str, done: bool| {
        format!("{{\"message\":{{\"role\":\"assistant\",\"content\":\"{c}\"}},\"done\":{done}}}\n")
    };
    let ended = line("Hé", false) + "\n" + &line("y", true) + &line("late", false) + "no json\n";
    let open = line("Hé", false) + &line("y", false) + "cut off";
    let broken = line("Hé", false) + " no json \n" + &line("y", true);
    for (text, said, last_done) in [(&ended, "Hé|y", true), (&open, "Hé|y|", true)] {
        for size in 1..=text.len() {
            let pieces: Vec<&[u8]> = text.as_bytes().chunks(size).collect();
            let (tokens, result) = stream(&pieces);
            let deltas: Vec<&str> = tokens.iter().map(|t| t.delta.as_str()).collect();
            assert_eq!(deltas.join("|"), said, "pieces of {size}");
            assert_eq!(tokens.iter().filter(|t| t.done).count(), 1);
            assert_eq!(tokens.last().map(|t| t.done), Some(last_done));
            assert_eq!(result, Ok("Héy".to_string()));
        }
    }
    for size in 1..=broken.len() {
        let pieces: Vec<&[u8]> = broken.as_bytes().chunks(size).collect();
        let (tokens, result) = stream(&pieces);
        assert_eq!(tokens.len(), 1);
        assert!(!tokens[0].done);
        assert!(matches!(result, Err(ClientError::BadLine { line, .. }) if line == "no json"));
    }
}

#[derive(Default)]
struct TerseSender {
    titles: Vec<String>,
}

impl NotificationSender for TerseSender {
    fn send_critical(&mut self, _widget_id: &str, title: &str, _body: &str) -> Result<(), String> {
        self.titles.push(title.into());
        Ok(())
    }

    fn send_nudge(&mut self, _kind: &str, title: &str) -> Result<(), String> {
        self.titles.push(title.into());
        Ok(())
    }
}

#[test]
fn senders_may_leave_requested_notifications_out() {
    let mut m = NotificationsModule::new(TerseSender::default());
    let asked = Event::NotifyRequested {
        title: "Tea".into(),
        body: "ready".into(),
        urgency: "low".into(),
    };
    assert_eq!(m.on_event(&asked), (None, Some(Ok(()))));
    assert!(m.sender.titles.is_empty());
    let nudge = Event::NudgeDelivered { project_id: 1, kind: "k".into(), title: "Go".into() };
    assert_eq!(m.on_event(&nudge).1, Some(Ok(())));
    assert_eq!(m.sender.titles, vec!["Go"]);
}
