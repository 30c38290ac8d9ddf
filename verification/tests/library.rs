use levshell_modules::anki_due::AnkiDueModule;
use levshell_modules::anki_review::{AnkiReviewModule, DueProject};
use levshell_modules::arxiv_watch::{
    default_seen_path, parse_atom, unescape, ArxivConfig, ArxivWatchModule, WatchStep,
    ARXIV_WIDGET_ID,
};
use levshell_modules::clock::{CalendarEvent, ClockModule};
use levshell_modules::events::Event;
use levshell_modules::latex_status::{
    find_engine, first_error, is_engine, newest_log, probe as looked, BuildFile, Engine, Finished,
    LatexStatusModule, Phase, Probe, Process, LATEX_WIDGET_ID, RESULT_TICKS,
};
use levshell_modules::project_pulse::{
    ProjectPulseModule, PulseEvent, PulseTask, TaskStatus, TrackedProject,
};
use levshell_modules::projects::EntityType;
use levshell_modules::reference_library::{
    citation, count_notes, LibraryReference, ReferenceLibraryModule, REF_LIBRARY_WIDGET_ID,
};
use levshell_modules::time::UtcTime;

const DAY: i64 = 86_400;
const HOUR_NANOS: u64 = 3_600_000_000_000;

/// 2026-04-16 12:00:00.
const NOW: UtcTime = UtcTime { secs: 1_776_340_800, nanos: 0 };

fn later(secs: i64) -> UtcTime {
    UtcTime { secs: NOW.secs + secs, nanos: 0 }
}

// ---------------------------------------------------------------------------
// Flashcards
// ---------------------------------------------------------------------------

#[test]
fn counts_only_due_cards() {
    assert_eq!(AnkiDueModule::due_count(&[later(-DAY), later(7 * DAY)], NOW), 1);
}

#[test]
fn start_publishes_a_widget_update() {
    assert_eq!(AnkiDueModule::due_count(&[], NOW), 0);
}

fn due(id: u128, cards: usize) -> Option<DueProject> {
    Some(DueProject { id, name: "llm-alignment".into(), due: cards })
}

#[test]
fn nudges_when_due_cards_in_entered_workspace() {
    let mut m = AnkiReviewModule::new();
    match m.on_workspace(due(7, 1), 5).expect("a nudge") {
        Event::NudgeDelivered { kind, title, project_id } => {
            assert_eq!(kind, "anki_review");
            assert!(title.contains("review llm-alignment"), "{title}");
            assert_eq!(project_id, 7);
        }
        other => panic!("unexpected: {other:?}"),
    }
}

#[test]
fn cooldown_suppresses_repeat_and_unmapped_ws_is_silent() {
    let mut m = AnkiReviewModule::new().with_cooldown(HOUR_NANOS);
    assert!(m.on_workspace(due(7, 1), 10).is_some(), "first entry nudges");
    assert!(m.on_workspace(due(7, 1), 20).is_none(), "second entry within cooldown is silent");
    assert!(m.on_workspace(None, 30).is_none());
}

#[test]
fn projects_cool_down_alone() {
    let mut m = AnkiReviewModule::new();
    assert!(m.on_workspace(due(1, 3), 0).is_some());
    assert!(m.on_workspace(due(2, 3), 0).is_some());
    assert!(m.on_workspace(due(3, 0), 0).is_none(), "nothing due");
    assert!(m.on_workspace(due(1, 3), HOUR_NANOS - 1).is_none());
    assert!(m.on_workspace(due(1, 3), HOUR_NANOS).is_some());
}

// ---------------------------------------------------------------------------
// Papers
// ---------------------------------------------------------------------------

const FEED: &str = r#"<feed><title>arXiv</title>
<entry>
  <id>http://arxiv.org/abs/2401.00001v1</id>
  <title>A   Great
  Paper</title>
  <summary>We show &amp; prove things.</summary>
  <published>2024-01-02T00:00:00Z</published>
</entry>
<entry>
  <id>http://arxiv.org/abs/2401.00002v2</id>
  <title>Second</title>
  <summary>x</summary>
  <published>2024-01-03T00:00:00Z</published>
</entry>
</feed>"#;

fn watching(keyword: &str) -> ArxivConfig {
    ArxivConfig { keywords: vec![keyword.into()], ..Default::default() }
}

#[test]
fn dormant_without_keywords_or_authors() {
    assert!(ArxivConfig::default().dormant());
    assert!(!watching("transformers").dormant());
}

#[test]
fn query_builds_or_of_quoted_terms() {
    let c = ArxivConfig {
        keywords: vec!["sparse attention".into()],
        authors: vec!["Vaswani".into()],
        ..Default::default()
    };
    assert_eq!(c.query(), "all:%22sparse+attention%22+OR+au:%22Vaswani%22");
}

#[test]
fn parse_atom_extracts_entries_and_pdf_url() {
    let p = parse_atom(FEED);
    assert_eq!(p.len(), 2);
    assert_eq!(p[0].title, "A Great Paper");
    assert_eq!(p[0].summary, "We show & prove things.");
    assert_eq!(p[0].url, "http://arxiv.org/pdf/2401.00001v1");
    assert_eq!(p[1].id, "http://arxiv.org/abs/2401.00002v2");
}

#[test]
fn papers_are_new_once() {
    let mut m = ArxivWatchModule::new(watching("x"), None);
    assert_eq!(m.poll(Some(FEED)), (true, true));
    assert_eq!(m.last_new.len(), 2);
    assert_eq!(m.poll(Some(FEED)), (false, true));
    assert_eq!(m.last_new.len(), 2, "what is shown stays");
    assert_eq!(m.poll(None), (false, false));
}

#[test]
fn seen_papers_survive_a_restart() {
    let mut m = ArxivWatchModule::new(watching("x"), None);
    m.poll(Some(FEED));
    let saved = m.persist_seen();
    let mut again = ArxivWatchModule::new(watching("x"), Some(&saved));
    assert_eq!(again.seen, m.seen);
    assert_eq!(again.poll(Some(FEED)), (false, true));
    assert!(ArxivWatchModule::new(watching("x"), Some("not json")).seen.is_empty());
    let doubled = ArxivWatchModule::new(watching("x"), Some("[\"b\", \"a\", \"b\"]"));
    assert_eq!(doubled.seen, vec!["b", "a"]);
}

#[test]
fn paper_actions_open_and_acknowledge() {
    let act = |action: &str, data: &str| Event::WidgetActionReceived {
        widget_id: ARXIV_WIDGET_ID.into(),
        action: action.into(),
        data: data.into(),
    };
    let mut m = ArxivWatchModule::new(watching("x"), None);
    m.poll(Some(FEED));
    assert_eq!(
        m.on_event(&act("open", r#"{"url":"http://x/y"}"#)),
        WatchStep::Open("http://x/y".into())
    );
    assert_eq!(m.on_event(&act("open", "{}")), WatchStep::Ignore);
    assert_eq!(m.on_event(&act("open", "no json")), WatchStep::Ignore);
    assert_eq!(m.on_event(&act("ack", "{}")), WatchStep::Publish);
    assert!(m.last_new.is_empty());
}

#[test]
fn dormant_watchers_ignore_feeds() {
    let mut m = ArxivWatchModule::new(ArxivConfig::default(), None);
    assert_eq!(m.poll(Some(FEED)), (false, false));
    assert!(m.seen.is_empty());
    assert_eq!(ArxivConfig::default().interval_secs(), 3600);
    assert_eq!(
        default_seen_path(&Some("/state".into()), &None, "/tmp"),
        "/state/levshell/arxiv_seen.json"
    );
    let cs: Vec<char> = "a &lt; b &amp; c".chars().collect();
    assert_eq!(unescape(&cs), "a < b & c");
}

// ---------------------------------------------------------------------------
// Building documents
// ---------------------------------------------------------------------------

#[test]
fn first_error_finds_bang_line() {
    let log = "This is pdfTeX...\nLaTeX Warning: x\n! Undefined control sequence.\nl.42 \\foo\n";
    assert_eq!(first_error(log).as_deref(), Some("! Undefined control sequence."));
    assert!(first_error("Output written on ok.pdf (1 page).\n").is_none());
}

fn build_file(name: &str, modified: Option<i128>) -> BuildFile {
    BuildFile { name: name.into(), path: format!("/d/{name}"), modified }
}

#[test]
fn newest_log_picks_most_recent() {
    let files = vec![
        build_file("a.log", Some(1)),
        build_file("b.log", Some(2)),
        build_file("notes.txt", Some(3)),
        build_file("c.log", None),
    ];
    assert_eq!(newest_log(&files).as_deref(), Some("/d/b.log"));
    assert!(newest_log(&[build_file("notes.txt", Some(3))]).is_none());
}

fn probe(pid: Option<i32>, finished: Option<Finished>) -> Probe {
    Probe { engine: pid.map(|pid| Engine { pid, dir: "/d".into() }), finished }
}

#[test]
fn idle_when_no_engine_running() {
    let mut m = LatexStatusModule::new();
    m.apply(probe(None, None));
    assert_eq!(m.phase, Phase::Idle);
    assert_eq!(m.phase.wire(), "idle");
}

#[test]
fn builds_end_in_a_result_that_fades() {
    let mut m = LatexStatusModule::new();
    assert!(m.apply(probe(Some(9), None)));
    assert_eq!(m.phase, Phase::Compiling);
    let done = Finished { log: Some("/d/a.log".into()), error: Some("! Oops.".into()) };
    assert!(m.apply(probe(None, Some(done))));
    assert_eq!(m.phase, Phase::Error);
    assert_eq!(m.error.as_deref(), Some("! Oops."));
    let open = Event::WidgetActionReceived {
        widget_id: LATEX_WIDGET_ID.into(),
        action: "open_log".into(),
        data: "{}".into(),
    };
    assert_eq!(m.on_event(&open).as_deref(), Some("/d/a.log"));
    for _ in 0..RESULT_TICKS + 1 {
        m.apply(probe(None, None));
    }
    assert_eq!(m.phase, Phase::Idle);
    assert!(is_engine("pdflatex") && !is_engine("bash"));
}

#[test]
fn the_first_engine_is_found() {
    let process = |pid: i32, comm: Option<&str>| Process { pid, comm: comm.map(str::to_owned) };
    let all = [process(1, Some("init\n")), process(2, None), process(7, Some("latexmk\n"))];
    assert_eq!(find_engine(&all), Some(7));
    assert_eq!(find_engine(&all[..2]), None);
    let two = [process(4, Some("xelatex\n")), process(7, Some("latexmk\n"))];
    assert_eq!(find_engine(&two), Some(4));
}

#[test]
fn builds_that_ended_are_looked_into() {
    let log = Some("/d/a.log".to_string());
    let ended = looked(None, true, log.clone(), Some("ok\n! Missing $ inserted.\n"));
    let found = ended.finished.unwrap();
    assert_eq!(found.log, log);
    assert_eq!(found.error.as_deref(), Some("! Missing $ inserted."));
    assert_eq!(looked(None, false, None, None).finished, None);
    let engine = Engine { pid: 3, dir: "/d".into() };
    let running = looked(Some(engine.clone()), true, log, Some("! Oops\n"));
    assert_eq!(running, Probe { engine: Some(engine), finished: None });
}

// ---------------------------------------------------------------------------
// Projects and deadlines
// ---------------------------------------------------------------------------

fn task(title: &str, due: UtcTime, status: TaskStatus) -> PulseTask {
    PulseTask { title: title.into(), status, due_at: Some(due) }
}

#[test]
fn deadlines_merge_tasks_and_events_sorted() {
    let tasks = vec![
        task("submit camera-ready", later(2 * DAY), TaskStatus::Pending),
        task("old thing", later(3 * DAY), TaskStatus::Done),
    ];
    let events =
        vec![PulseEvent { title: "advisor meeting".into(), start_at: later(DAY) }];
    let dl = ProjectPulseModule::new().deadlines(&tasks, &events, NOW);
    assert_eq!(dl.len(), 2, "task + event, done task excluded");
    assert_eq!(dl[0].title, "advisor meeting");
    assert_eq!(dl[0].kind.wire(), "event");
    assert_eq!(dl[1].title, "submit camera-ready");
    assert_eq!(dl[1].kind.wire(), "task");
    assert_eq!(dl[1].due, "2026-04-18T12:00:00+00:00");
}

#[test]
fn no_registry_yields_empty_projects() {
    let state = ProjectPulseModule::new().refresh(&[], NOW);
    assert_eq!(state.active_today, 0);
    assert_eq!(state.projects.len(), 0);
}

#[test]
fn projects_are_active_or_dormant() {
    let project = |name: &str, last: Option<UtcTime>| TrackedProject {
        name: name.into(),
        status: "active".into(),
        last_active_at: last,
        focus_secs: 60,
        open_questions: 2,
    };
    let state = ProjectPulseModule::new().refresh(
        &[project("now", Some(later(-60))), project("old", Some(later(-30 * DAY)))],
        NOW,
    );
    assert_eq!((state.active_today, state.dormant), (1, 1));
    assert!(state.projects.iter().all(|p| !(p.active_today && p.dormant)));
}

#[test]
fn overdue_tasks_are_marked() {
    let tasks = vec![
        task("late", later(-DAY), TaskStatus::InProgress),
        task("far", later(60 * DAY), TaskStatus::Pending),
    ];
    let dl = ProjectPulseModule::new().deadlines(&tasks, &[], NOW);
    assert_eq!(dl.len(), 1);
    assert!(dl[0].overdue);
}

// ---------------------------------------------------------------------------
// References
// ---------------------------------------------------------------------------

fn reference(citekey: &str, progress: Option<f64>, created_at: UtcTime) -> LibraryReference {
    LibraryReference {
        title: format!("Paper {citekey}"),
        citekey: citekey.into(),
        year: Some(2024),
        reading_progress: progress.map(f64::to_bits),
        created_at,
    }
}

#[test]
fn refresh_publishes_stats() {
    let refs = vec![
        reference("a2024", None, NOW),
        reference("b2024", Some(0.0), NOW),
        reference("c2024", Some(0.8), NOW),
    ];
    let state = ReferenceLibraryModule::new().refresh(&refs, &[None, None, None], NOW);
    assert_eq!(state.total, 3);
    assert_eq!(state.unread, 2);
    assert_eq!(state.recent.len(), 3);
}

#[test]
fn recent_surfaces_linked_note_count() {
    let refs = vec![reference("vaswani2017", None, NOW)];
    let related = vec![Some(vec![EntityType::Note])];
    let state = ReferenceLibraryModule::new().refresh(&refs, &related, NOW);
    assert_eq!(state.recent[0].citekey, "vaswani2017");
    assert_eq!(state.recent[0].linked_notes, 1, "the note must show as a linked note");
    assert_eq!(count_notes(&[EntityType::Reference, EntityType::Note, EntityType::Note]), 2);
}

#[test]
fn recent_count_respects_window() {
    let refs = vec![reference("new", None, NOW), reference("old2020", None, later(-20 * DAY))];
    let state = ReferenceLibraryModule::new().refresh(&refs, &[None, None], NOW);
    assert_eq!(state.recent_count, 1);
}

#[test]
fn clicking_a_reference_copies_its_key() {
    let click = |data: &str| Event::WidgetActionReceived {
        widget_id: REF_LIBRARY_WIDGET_ID.into(),
        action: "copy".into(),
        data: data.into(),
    };
    let m = ReferenceLibraryModule::new();
    assert_eq!(m.on_event(&click(r#"{"citekey":"k1"}"#)).as_deref(), Some("@k1"));
    assert_eq!(m.on_event(&click("{}")), None);
    assert_eq!(citation(None), None);
}

// ---------------------------------------------------------------------------
// The clock
// ---------------------------------------------------------------------------

#[test]
fn the_clock_lists_what_comes() {
    let m = ClockModule::new();
    assert_eq!(m.horizon(NOW), later(7 * DAY));
    let hub = m.refresh(
        &[CalendarEvent {
            title: "talk".into(),
            start_at: later(3600),
            end_at: later(7200),
            location: Some("room".into()),
        }],
        NOW,
    );
    assert_eq!(hub.generated_at, "2026-04-16T12:00:00+00:00");
    assert_eq!(hub.events[0].start_at, "2026-04-16T13:00:00+00:00");
    assert_eq!(NOW.date(), "2026-04-16");
}
