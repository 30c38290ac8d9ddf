use levshell_modules::context_engine::{
    default_widgets, heuristic_width, primary_output_width, BarDensity, BarLayout,
    ContextEngineModule, ContextMessage, Output, Prominence, WidgetDef, Zone,
};
use levshell_modules::escalation::{EscalationLevel, EscalationTracker};
use levshell_modules::events::Event;
use levshell_modules::focus::tracker::{
    FocusModeTracker, TriggerAction, TriggerInput, TriggerPhase,
};
use levshell_modules::focus::{EvaluatedProfile, EvaluatedTrigger, FocusModeModule};
use levshell_modules::interruption::{
    empty_state, InterruptionCostModule, InterruptionTracker,
};
use levshell_modules::signals::{mirror_event, SignalValue, Signals};
use levshell_modules::textmap::TextMap;

const SEC: u64 = 1_000_000_000;

fn flag(signals: &Signals, name: &str) -> Option<bool> {
    match signals.get(name) {
        Some(SignalValue::Flag(b)) => Some(*b),
        _ => None,
    }
}

// ---------------------------------------------------------------------------
// Escalation
// ---------------------------------------------------------------------------

#[test]
fn new_tracker_starts_at_ambient() {
    let t = EscalationTracker::new();
    assert_eq!(t.current(), EscalationLevel::Ambient);
}

#[test]
fn ambient_raw_stays_ambient() {
    let mut t = EscalationTracker::new();
    let out = t.step(EscalationLevel::Ambient);
    assert_eq!(out.level, EscalationLevel::Ambient);
    assert!(!out.entered_critical);
}

#[test]
fn raw_critical_from_ambient_steps_to_aware_only() {
    let mut t = EscalationTracker::new();
    let out = t.step(EscalationLevel::Critical);
    assert_eq!(out.level, EscalationLevel::Aware);
    assert!(!out.entered_critical);
}

#[test]
fn three_ticks_at_critical_reaches_critical() {
    let mut t = EscalationTracker::new();
    assert_eq!(t.step(EscalationLevel::Critical).level, EscalationLevel::Aware);
    assert_eq!(t.step(EscalationLevel::Critical).level, EscalationLevel::Attention);
    let out = t.step(EscalationLevel::Critical);
    assert_eq!(out.level, EscalationLevel::Critical);
    assert!(out.entered_critical, "first Critical entry must flag edge");
}

#[test]
fn sustained_critical_does_not_re_flag_entry() {
    let mut t = EscalationTracker::new();
    for _ in 0..3 {
        t.step(EscalationLevel::Critical);
    }
    assert_eq!(t.current(), EscalationLevel::Critical);
    let out = t.step(EscalationLevel::Critical);
    assert_eq!(out.level, EscalationLevel::Critical);
    assert!(!out.entered_critical, "subsequent Critical ticks must not re-emit");
}

#[test]
fn drop_from_critical_is_immediate() {
    let mut t = EscalationTracker::new();
    for _ in 0..3 {
        t.step(EscalationLevel::Critical);
    }
    let out = t.step(EscalationLevel::Ambient);
    assert_eq!(out.level, EscalationLevel::Ambient);
    assert!(!out.entered_critical);
}

#[test]
fn drop_to_intermediate_level_is_immediate() {
    let mut t = EscalationTracker::new();
    for _ in 0..3 {
        t.step(EscalationLevel::Critical);
    }
    let out = t.step(EscalationLevel::Aware);
    assert_eq!(out.level, EscalationLevel::Aware);
}

#[test]
fn re_entering_critical_after_drop_flags_edge_again() {
    let mut t = EscalationTracker::new();
    for _ in 0..3 {
        t.step(EscalationLevel::Critical);
    }
    t.step(EscalationLevel::Ambient);
    t.step(EscalationLevel::Critical);
    t.step(EscalationLevel::Critical);
    let out = t.step(EscalationLevel::Critical);
    assert_eq!(out.level, EscalationLevel::Critical);
    assert!(out.entered_critical, "re-entry into Critical after a drop must re-emit edge");
}

#[test]
fn single_step_rise_applies_raw_directly() {
    let mut t = EscalationTracker::new();
    assert_eq!(t.step(EscalationLevel::Aware).level, EscalationLevel::Aware);
    assert_eq!(t.step(EscalationLevel::Attention).level, EscalationLevel::Attention);
}

#[test]
fn plateau_below_current_tracks_raw() {
    let mut t = EscalationTracker::new();
    t.step(EscalationLevel::Attention);
    t.step(EscalationLevel::Attention);
    let out = t.step(EscalationLevel::Aware);
    assert_eq!(out.level, EscalationLevel::Aware);
}

// ---------------------------------------------------------------------------
// Focus triggers
// ---------------------------------------------------------------------------

fn input(profile: &str, predicate: bool) -> TriggerInput<'_> {
    TriggerInput {
        profile,
        predicate,
        dwell: 30 * SEC as u128,
        exit_dwell: 60 * SEC as u128,
    }
}

const T0: u64 = 5 * SEC;

#[test]
fn initial_true_starts_activating_but_does_not_emit() {
    let mut t = FocusModeTracker::new();
    let actions = t.tick(&[input("writing", true)], T0);
    assert!(actions.is_empty());
    assert!(matches!(t.phase("writing"), Some(TriggerPhase::Activating { .. })));
}

#[test]
fn sustained_true_past_dwell_emits_activate() {
    let mut t = FocusModeTracker::new();
    t.tick(&[input("writing", true)], T0);
    let a29 = t.tick(&[input("writing", true)], T0 + 29 * SEC);
    assert!(a29.is_empty());
    let a30 = t.tick(&[input("writing", true)], T0 + 30 * SEC);
    assert_eq!(a30, vec![TriggerAction::Activate("writing".into())]);
    assert_eq!(t.phase("writing"), Some(TriggerPhase::Active));
}

#[test]
fn flicker_during_activating_cancels_without_emit() {
    let mut t = FocusModeTracker::new();
    t.tick(&[input("writing", true)], T0);
    let a = t.tick(&[input("writing", false)], T0 + 10 * SEC);
    assert!(a.is_empty());
    assert_eq!(t.phase("writing"), Some(TriggerPhase::Inactive));
}

#[test]
fn sustained_false_past_exit_dwell_emits_deactivate() {
    let mut t = FocusModeTracker::new();
    t.tick(&[input("writing", true)], T0);
    t.tick(&[input("writing", true)], T0 + 30 * SEC);
    let a0 = t.tick(&[input("writing", false)], T0 + 60 * SEC);
    assert!(a0.is_empty());
    assert!(matches!(t.phase("writing"), Some(TriggerPhase::Deactivating { .. })));
    let a59 = t.tick(&[input("writing", false)], T0 + 119 * SEC);
    assert!(a59.is_empty());
    let a60 = t.tick(&[input("writing", false)], T0 + 120 * SEC);
    assert_eq!(a60, vec![TriggerAction::Deactivate("writing".into())]);
    assert_eq!(t.phase("writing"), Some(TriggerPhase::Inactive));
}

#[test]
fn flicker_during_deactivating_cancels_without_emit() {
    let mut t = FocusModeTracker::new();
    t.tick(&[input("writing", true)], T0);
    t.tick(&[input("writing", true)], T0 + 30 * SEC);
    t.tick(&[input("writing", false)], T0 + 60 * SEC);
    let a = t.tick(&[input("writing", true)], T0 + 70 * SEC);
    assert!(a.is_empty());
    assert_eq!(t.phase("writing"), Some(TriggerPhase::Active));
}

#[test]
fn multiple_profiles_track_independently() {
    let mut t = FocusModeTracker::new();
    t.tick(&[input("writing", true), input("lit-review", false)], T0);
    let a = t.tick(&[input("writing", true), input("lit-review", false)], T0 + 30 * SEC);
    assert_eq!(a, vec![TriggerAction::Activate("writing".into())]);
    assert_eq!(t.phase("lit-review"), Some(TriggerPhase::Inactive));
}

#[test]
fn removed_profile_emits_deactivate_if_active() {
    let mut t = FocusModeTracker::new();
    t.tick(&[input("writing", true)], T0);
    t.tick(&[input("writing", true)], T0 + 30 * SEC);
    let a = t.tick(&[], T0 + 31 * SEC);
    assert_eq!(a, vec![TriggerAction::Deactivate("writing".into())]);
    assert_eq!(t.phase("writing"), None);
}

#[test]
fn removed_inactive_profile_is_silently_dropped() {
    let mut t = FocusModeTracker::new();
    t.tick(&[input("writing", false)], T0);
    let a = t.tick(&[], T0 + SEC);
    assert!(a.is_empty());
    assert_eq!(t.phase("writing"), None);
}

#[test]
fn per_profile_dwell_values_are_respected() {
    let mut t = FocusModeTracker::new();
    let quick = || TriggerInput {
        profile: "quick",
        predicate: true,
        dwell: 5 * SEC as u128,
        exit_dwell: 10 * SEC as u128,
    };
    t.tick(&[quick()], T0);
    let a = t.tick(&[quick()], T0 + 5 * SEC);
    assert_eq!(a, vec![TriggerAction::Activate("quick".into())]);
}

/// The writing profile, whose trigger holds while the editor has the focus.
fn writing_profile(module: &FocusModeModule, dwell: u64, exit: u64) -> EvaluatedProfile {
    EvaluatedProfile {
        name: "writing".into(),
        trigger: Some(EvaluatedTrigger {
            verdict: Some(module.signals.get_text("focused.app_id") == Some("neovide")),
            dwell: dwell as u128 * SEC as u128,
            exit_dwell: exit as u128 * SEC as u128,
        }),
    }
}

fn tick_writing(module: &mut FocusModeModule, dwell: u64, exit: u64, at: u64) -> Vec<Event> {
    let profiles = vec![writing_profile(module, dwell, exit)];
    module.evaluate_and_publish(&profiles, T0 + at * SEC)
}

fn focused(app: &str, title: &str) -> Event {
    Event::WindowFocused { app_id: Some(app.into()), title: title.into() }
}

fn profile_action(action: &str, name: Option<&str>) -> Event {
    Event::ProfileActionRequested { action: action.into(), name: name.map(|n| n.to_string()) }
}

#[test]
fn activates_after_sustained_focus() {
    let mut module = FocusModeModule::new();
    module.apply_event(&focused("neovide", "draft.md"));
    assert!(tick_writing(&mut module, 2, 5, 0).is_empty(), "no activate before dwell elapses");
    let events = tick_writing(&mut module, 2, 5, 3);
    assert_eq!(events, vec![profile_action("activate", Some("writing"))]);
}

#[test]
fn deactivates_after_sustained_non_match() {
    let mut module = FocusModeModule::new();
    module.apply_event(&focused("neovide", "x"));
    tick_writing(&mut module, 2, 3, 0);
    assert_eq!(tick_writing(&mut module, 2, 3, 3).len(), 1);
    module.apply_event(&focused("firefox", "news"));
    assert!(tick_writing(&mut module, 2, 3, 3).is_empty(), "no deactivate before exit_dwell");
    let events = tick_writing(&mut module, 2, 3, 7);
    assert_eq!(events, vec![profile_action("deactivate", Some("writing"))]);
}

#[test]
fn flicker_during_dwell_is_silent() {
    let mut module = FocusModeModule::new();
    module.apply_event(&focused("neovide", "x"));
    assert!(tick_writing(&mut module, 5, 5, 0).is_empty());
    module.apply_event(&focused("firefox", "y"));
    assert!(tick_writing(&mut module, 5, 5, 2).is_empty());
    assert!(tick_writing(&mut module, 5, 5, 10).is_empty(), "no activate after cancelled dwell");
}

#[test]
fn malformed_trigger_does_not_crash_module() {
    let mut module = FocusModeModule::new();
    for i in 0..5 {
        let broken = EvaluatedProfile {
            name: "broken".into(),
            trigger: Some(EvaluatedTrigger {
                verdict: None,
                dwell: SEC as u128,
                exit_dwell: SEC as u128,
            }),
        };
        assert!(module.evaluate_and_publish(&[broken], T0 + i * 2 * SEC).is_empty());
    }
}

#[test]
fn profiles_without_a_trigger_are_left_alone() {
    let mut module = FocusModeModule::new().with_tick_interval(250);
    assert_eq!(module.tick_interval_millis, 250);
    let plain = vec![EvaluatedProfile { name: "plain".into(), trigger: None }];
    assert!(module.evaluate_and_publish(&plain, T0).is_empty());
    assert_eq!(module.tracker.phase("plain"), None);
}

// ---------------------------------------------------------------------------
// Interruptions
// ---------------------------------------------------------------------------

#[test]
fn first_focus_yields_no_notification() {
    let mut t = InterruptionTracker::new(60);
    assert!(t.apply_focus("1:code", T0, 1).is_none());
}

#[test]
fn immediate_return_below_threshold_is_silent() {
    let mut t = InterruptionTracker::new(60);
    t.apply_focus("1:code", T0, 1);
    t.apply_focus("2:docs", T0 + 5 * SEC, 2);
    assert!(t.apply_focus("1:code", T0 + 15 * SEC, 3).is_none());
}

#[test]
fn long_return_above_threshold_fires() {
    let mut t = InterruptionTracker::new(60);
    t.apply_focus("1:code", T0, 1);
    t.apply_focus("2:docs", T0 + 5 * SEC, 2);
    let state = t.apply_focus("1:code", T0 + 605 * SEC, 3).expect("should fire");
    assert_eq!(state.workspace, "1:code");
    assert_eq!(state.away_seconds, 600);
    assert_eq!(state.shown_at_ms, 3);
}

#[test]
fn same_workspace_reported_twice_is_ignored() {
    let mut t = InterruptionTracker::new(60);
    t.apply_focus("1:code", T0, 1);
    assert!(t.apply_focus("1:code", T0 + 100 * SEC, 2).is_none());
    assert_eq!(t.current_workspace.as_deref(), Some("1:code"));
    assert!(!t.last_left_at.contains_key("1:code"));
}

#[test]
fn multiple_workspaces_tracked_independently() {
    let mut t = InterruptionTracker::new(60);
    t.apply_focus("a", T0, 1);
    t.apply_focus("b", T0 + 10 * SEC, 2);
    t.apply_focus("c", T0 + 20 * SEC, 3);
    let sa = t.apply_focus("a", T0 + 210 * SEC, 4).expect("a should fire");
    assert_eq!(sa.workspace, "a");
    assert_eq!(sa.away_seconds, 200);
    let sb = t.apply_focus("b", T0 + 220 * SEC, 5).expect("b should fire");
    assert_eq!(sb.workspace, "b");
    assert_eq!(sb.away_seconds, 200);
}

#[test]
fn round_trip_under_threshold_then_over() {
    let mut t = InterruptionTracker::new(60);
    t.apply_focus("a", T0, 1);
    t.apply_focus("b", T0 + SEC, 2);
    assert!(t.apply_focus("a", T0 + 30 * SEC, 3).is_none());
    t.apply_focus("b", T0 + 31 * SEC, 4);
    let s = t.apply_focus("a", T0 + 500 * SEC, 5).expect("should fire");
    assert_eq!(s.away_seconds, 469);
}

#[test]
fn interruption_module_listens_to_workspaces_alone() {
    let ws = |name: &str| Event::WorkspaceChanged { name: name.into(), focused_window: None };
    let mut m = InterruptionCostModule::new().with_min_away_secs(10);
    assert_eq!(empty_state().workspace, "");
    assert!(m.on_event(&ws("a"), T0, 1).is_none());
    assert!(m.on_event(&focused("x", "y"), T0, 2).is_none());
    assert!(m.on_event(&ws("b"), T0 + SEC, 3).is_none());
    let shown = m.on_event(&ws("a"), T0 + 11 * SEC, 4).unwrap();
    assert_eq!((shown.away_seconds, shown.shown_at_ms), (10, 4));
}

// ---------------------------------------------------------------------------
// The layout of the bar
// ---------------------------------------------------------------------------

fn widget(id: &str, kind: &str, p: Prominence, priority: i32, zone: Zone) -> WidgetDef {
    WidgetDef {
        id: id.into(),
        widget_type: kind.into(),
        default_prominence: p,
        priority,
        zone,
    }
}

fn three_widgets() -> Vec<WidgetDef> {
    vec![
        widget("clock", "clock", Prominence::Visible, 100, Zone::Center),
        widget("cpu", "telemetry", Prominence::Compact, 40, Zone::Right),
        widget("battery", "telemetry", Prominence::IconOnly, 60, Zone::Right),
    ]
}

fn layout(center: &[&str], right: &[&str]) -> BarLayout {
    let list = |v: &[&str]| v.iter().map(|s| s.to_string()).collect::<Vec<String>>();
    BarLayout { left: Vec::new(), center: list(center), right: list(right) }
}

fn committed(widgets: &[WidgetDef]) -> TextMap<Prominence> {
    let mut m = TextMap::new();
    for w in widgets {
        m.insert(w.id.clone(), w.default_prominence);
    }
    m
}

fn engine() -> ContextEngineModule {
    ContextEngineModule::new().with_widgets(three_widgets())
}

#[test]
fn start_publishes_initial_bar_layout_and_visibilities() {
    let mut module = engine();
    let msgs =
        module.publish_layout(layout(&["clock"], &["battery", "cpu"]), committed(&three_widgets()));
    match &msgs[0] {
        ContextMessage::BarLayout(l) => assert_eq!(l.right.len(), 2),
        other => panic!("expected the layout first, got {other:?}"),
    }
    let mut seen: Vec<String> = Vec::new();
    for m in &msgs[1..] {
        match m {
            ContextMessage::WidgetVisibility { widget_id, .. } => seen.push(widget_id.clone()),
            other => panic!("expected a visibility, got {other:?}"),
        }
    }
    seen.sort();
    assert_eq!(seen, vec!["battery", "clock", "cpu"]);
}

#[test]
fn workspace_event_updates_signal_context_and_republishes() {
    let mut module = engine();
    let bar = || layout(&["clock"], &["battery", "cpu"]);
    module.publish_layout(bar(), committed(&three_widgets()));
    let event = Event::WorkspaceChanged { name: "code".into(), focused_window: None };
    module.apply_event(&event);
    assert!(module.publish_layout(bar(), committed(&three_widgets())).is_empty());
    assert_eq!(module.signals.get_text("workspace.name"), Some("code"));
}

#[test]
fn focus_session_events_drive_the_signal() {
    let mut module = engine();
    let project = Some("llm-alignment".to_string());
    module.apply_event(&Event::FocusSessionStarted {
        kind: "work".into(),
        project: project.clone(),
        planned_secs: 1500,
    });
    assert_eq!(flag(&module.signals, "focus_session.active"), Some(true));
    assert_eq!(flag(&module.signals, "focus_session.on_break"), Some(false));
    assert_eq!(module.signals.get_text("focus_session.kind"), Some("work"));
    module.apply_event(&Event::FocusSessionStarted {
        kind: "break".into(),
        project: project.clone(),
        planned_secs: 300,
    });
    assert_eq!(flag(&module.signals, "focus_session.on_break"), Some(true));
    module.apply_event(&Event::FocusSessionEnded {
        kind: "break".into(),
        project,
        actual_secs: 42,
    });
    assert_eq!(flag(&module.signals, "focus_session.active"), Some(false));
    assert_eq!(module.signals.get_text("focus_session.kind"), Some("idle"));
}

#[test]
fn profile_activation_swaps_overrides_on_next_resolve() {
    let mut module = engine().with_profiles(vec!["writing".into(), "focus".into()]);
    module.apply_event(&profile_action("activate", Some("writing")));
    assert_eq!(module.active_profile.as_deref(), Some("writing"));
    module.apply_event(&profile_action("cycle", None));
    assert_eq!(module.active_profile.as_deref(), Some("focus"));
    assert_eq!(module.active_profile_snapshot(), Some(1));
    module.apply_event(&profile_action("cycle", None));
    assert_eq!(module.active_profile.as_deref(), Some("writing"));
}

#[test]
fn deactivate_matching_clears_active_profile() {
    let mut module = engine().with_profiles(vec!["writing".into(), "lit-review".into()]);
    module.apply_event(&profile_action("activate", Some("lit-review")));
    assert_eq!(module.active_profile.as_deref(), Some("lit-review"));
    module.apply_event(&profile_action("deactivate", Some("writing")));
    assert_eq!(module.active_profile.as_deref(), Some("lit-review"));
    module.apply_event(&profile_action("deactivate", Some("lit-review")));
    assert!(module.active_profile.is_none());
}

#[test]
fn deactivate_without_name_clears_any_active_profile() {
    let mut module =
        engine().with_profiles(vec!["writing".into()]).with_active_profile("writing".into());
    module.apply_event(&profile_action("deactivate", None));
    assert!(module.active_profile.is_none());
}

#[test]
fn unknown_profile_activate_is_ignored_not_panics() {
    let mut module = engine().with_profiles(vec!["writing".into()]);
    module.apply_event(&profile_action("activate", Some("does-not-exist")));
    assert!(module.active_profile.is_none());
}

#[test]
fn power_event_updates_on_battery_signal() {
    let mut module = engine();
    module.apply_event(&Event::PowerStateChanged { on_battery: true });
    assert_eq!(flag(&module.signals, "power.on_battery"), Some(true));
}

#[test]
fn default_widgets_builds_the_expected_set() {
    let widgets = default_widgets();
    let ids: Vec<&str> = widgets.iter().map(|w| w.id.as_str()).collect();
    assert!(ids.contains(&"workspace-indicator"));
    assert!(ids.contains(&"clock"));
    assert!(ids.contains(&"battery"));
}

#[test]
fn only_changes_are_published() {
    let mut module = engine();
    let bar = || layout(&["clock"], &["battery", "cpu"]);
    module.publish_layout(bar(), committed(&three_widgets()));
    let mut changed = committed(&three_widgets());
    changed.insert("cpu".into(), Prominence::Hidden);
    changed.remove("battery");
    let msgs = module.publish_layout(bar(), changed);
    assert_eq!(
        msgs,
        vec![
            ContextMessage::WidgetVisibility {
                widget_id: "cpu".into(),
                visible: false,
                prominence: Prominence::Hidden,
            },
            ContextMessage::WidgetVisibility {
                widget_id: "battery".into(),
                visible: false,
                prominence: Prominence::Hidden,
            },
        ]
    );
}

#[test]
fn density_requests_are_answered() {
    let mut module = engine();
    let ask = |mode: &str| Event::BarDensityRequested { mode: mode.into() };
    assert_eq!(
        module.apply_event(&ask("compact")),
        vec![ContextMessage::BarDensityState { mode: BarDensity::Compact }]
    );
    assert_eq!(
        module.apply_event(&ask("cycle")),
        vec![ContextMessage::BarDensityState { mode: BarDensity::Hidden }]
    );
    assert_eq!(
        module.apply_event(&ask("sideways")),
        vec![ContextMessage::BarDensityState { mode: BarDensity::Full }]
    );
    assert_eq!(module.signals.get_text("bar.density"), Some("sideways"));
}

#[test]
fn widths_follow_the_prominence() {
    assert_eq!(heuristic_width("x", Prominence::Hidden), 0);
    assert_eq!(heuristic_width("x", Prominence::Compact), 96);
    let out = |active: bool, width: i32| Output { active, width };
    assert_eq!(primary_output_width(&[out(false, 800), out(true, 1920)]), Some(1920));
    assert_eq!(primary_output_width(&[]), None);
}

#[test]
fn the_bar_has_the_width_it_is_given() {
    assert_eq!(ContextEngineModule::new().available_width, 2560);
    let wide = ContextEngineModule::new().with_widgets(three_widgets()).with_available_width(3840);
    assert_eq!(wide.available_width, 3840);
    assert_eq!(wide.widgets.len(), 3);
}

#[test]
fn actions_wait_for_the_dwell_time() {
    let mut t = FocusModeTracker::new();
    let seen = [true, true, false, true, true, true, true, true, false, false, false, false];
    let mut done = Vec::new();
    for (i, predicate) in seen.iter().enumerate() {
        let now = T0 + i as u64 * 15 * SEC;
        for action in t.tick(&[input("writing", *predicate)], now) {
            done.push((i, action));
        }
    }
    // The trigger holds from the third step on, and no longer from the eighth.
    assert_eq!(
        done,
        vec![(5, TriggerAction::Activate("writing".into()))]
    );
    let late = t.tick(&[input("writing", false)], T0 + 12 * 15 * SEC);
    assert_eq!(late, vec![TriggerAction::Deactivate("writing".into())]);
}

#[test]
fn mirroring_an_event_twice_is_mirroring_it_once() {
    let mut signals = Signals::new();
    mirror_event(&mut signals, &focused("neovide", "draft.md"));
    let once = (signals.get_text("focused.app_id").map(str::to_string), flag(&signals, "x"));
    mirror_event(&mut signals, &focused("neovide", "draft.md"));
    assert_eq!(once, (Some("neovide".to_string()), None));
    assert_eq!(signals.get_text("focused.app_id"), Some("neovide"));
    assert_eq!(signals.get_text("focused.title"), Some("draft.md"));
}

#[test]
fn cycling_visits_every_profile_once() {
    let names = ["writing", "focus", "review", "a"];
    let profiles: Vec<String> = names.iter().map(|n| n.to_string()).collect();
    let mut module = engine().with_profiles(profiles);
    let mut seen: Vec<String> = Vec::new();
    for _ in 0..names.len() {
        module.apply_event(&profile_action("cycle", None));
        seen.push(module.active_profile.clone().unwrap());
    }
    assert_eq!(seen, vec!["a", "focus", "review", "writing"]);
    module.apply_event(&profile_action("cycle", None));
    assert_eq!(module.active_profile.as_deref(), Some("a"));
}

#[test]
fn actions_of_a_run_alternate() {
    let mut t = FocusModeTracker::new();
    let mut done: Vec<TriggerAction> = Vec::new();
    for i in 0..60u64 {
        let at_once = TriggerInput {
            profile: "quick",
            predicate: i % 7 < 3,
            dwell: 0,
            exit_dwell: (i % 3) as u128,
        };
        let inputs = if i % 11 == 10 { vec![] } else { vec![at_once] };
        let acted = t.tick(&inputs, T0 + i);
        assert!(i > 0 || acted.is_empty(), "nothing at the first tick");
        done.extend(acted);
    }
    assert!(done.len() > 4);
    for (i, action) in done.iter().enumerate() {
        let expected = if i % 2 == 0 {
            TriggerAction::Activate("quick".into())
        } else {
            TriggerAction::Deactivate("quick".into())
        };
        assert_eq!(action, &expected, "action {i}");
    }
}
