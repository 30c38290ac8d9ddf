use levshell_modules::context_snapshot::capture::{
    capture_from_tree, parse_proc_cmdline, Node, NodeKind,
};
use levshell_modules::context_snapshot::model::{ContextSnapshot, WindowSnapshot};
use levshell_modules::context_snapshot::quote::{shell_quote_cmdline, shell_quote_one, sway_quote};
use levshell_modules::context_snapshot::restore::{
    flatten_live_windows, plan_restore, LiveWindow,
};
use levshell_modules::context_snapshot::{
    default_contexts_dir, delete_snapshot, list_snapshots, path_for, read_snapshot,
    restore_commands, restore_snapshot, restore_summary, save_current, validate_name,
    write_snapshot, ContextSnapshotError, ReadOutcome, RemoveOutcome, WriteOutcome,
};
use levshell_modules::time::UtcTime;

const NOW: UtcTime = UtcTime { secs: 1_776_421_800, nanos: 0 };

fn strings(v: &[&str]) -> Vec<String> {
    v.iter().map(|s| s.to_string()).collect()
}

fn snap(name: &str) -> ContextSnapshot {
    ContextSnapshot {
        name: name.into(),
        captured_at: NOW,
        focused_workspace: None,
        windows: vec![],
    }
}

// ---------------------------------------------------------------------------
// Names and files
// ---------------------------------------------------------------------------

#[test]
fn validate_name_accepts_reasonable_names() {
    assert!(validate_name("research").is_ok());
    assert!(validate_name("paper_1").is_ok());
    assert!(validate_name("lit-review").is_ok());
    assert!(validate_name("A123-b").is_ok());
}

#[test]
fn validate_name_rejects_empty_and_special_chars() {
    assert!(validate_name("").is_err());
    assert!(validate_name("foo bar").is_err());
    assert!(validate_name("../escape").is_err());
    assert!(validate_name("foo/bar").is_err());
    assert!(validate_name("x.y").is_err());
}

#[test]
fn list_delete_roundtrip() {
    assert_eq!(path_for("/d", "a"), "/d/a.json");
    assert_eq!(list_snapshots(&strings(&["b.json", "a.json", "notes.txt", ".json"])), vec!["a", "b"]);
    let s = delete_snapshot("a", "/d", &RemoveOutcome::Removed).unwrap();
    assert!(s.message.contains("deleted"));
    assert_eq!(list_snapshots(&strings(&["b.json"])), vec!["b"]);
    assert!(matches!(
        delete_snapshot("a", "/d", &RemoveOutcome::Missing),
        Err(ContextSnapshotError::NotFound { .. })
    ));
    assert!(matches!(
        delete_snapshot("a", "/d", &RemoveOutcome::Failed("denied".into())),
        Err(ContextSnapshotError::Io { .. })
    ));
    assert!(matches!(
        delete_snapshot("../a", "/d", &RemoveOutcome::Removed),
        Err(ContextSnapshotError::InvalidName { .. })
    ));
}

#[test]
fn list_snapshots_on_missing_dir_returns_empty() {
    assert!(list_snapshots(&[]).is_empty());
}

#[test]
fn write_read_round_trips() {
    let mut s = snap("x");
    s.focused_workspace = Some("3:code".into());
    s.windows.push(WindowSnapshot {
        workspace: "3:code".into(),
        app_id: "neovide".into(),
        title: "draft.md".into(),
        cmdline: Some(vec!["neovide".into()]),
        floating: false,
    });
    let done = write_snapshot(&s, "/d", WriteOutcome::Written).unwrap();
    assert_eq!(done.message, "saved x: 1 window(s) across 1 workspace(s)");
    let back = read_snapshot("x", "/d", ReadOutcome::Read(s.clone())).unwrap();
    assert_eq!(back, s);
}

#[test]
fn read_snapshot_surfaces_parse_error_for_garbage() {
    let res = read_snapshot("bad", "/d", ReadOutcome::Malformed("expected ident".into()));
    assert!(matches!(res, Err(ContextSnapshotError::Parse { .. })));
    assert_eq!(res.unwrap_err().message(), "parse error on /d/bad.json: expected ident");
}

#[test]
fn errors_say_what_happened() {
    let missing = read_snapshot("x", "/d", ReadOutcome::Missing).unwrap_err();
    assert_eq!(missing.message(), "snapshot \"x\" not found in /d");
    let denied = read_snapshot("x", "/d", ReadOutcome::Failed("denied".into())).unwrap_err();
    assert_eq!(denied.message(), "io error on /d/x.json: denied");
    assert_eq!(
        validate_name("a\"b").unwrap_err().message(),
        "invalid snapshot name \"a\\\"b\": must be non-empty and contain only a-z0-9-_"
    );
    let no_dir = write_snapshot(&snap("x"), "/d", WriteOutcome::NoDirectory("full".into()));
    assert_eq!(no_dir.unwrap_err().message(), "io error on /d: full");
    let no_text = write_snapshot(&snap("x"), "/d", WriteOutcome::NoText("odd".into()));
    assert_eq!(no_text.unwrap_err().message(), "could not serialize snapshot: odd");
    assert_eq!(
        ContextSnapshotError::Sway("gone".into()).message(),
        "sway ipc error: gone"
    );
}

#[test]
fn snapshots_lie_below_the_state_directory() {
    let home = Some("/home/u".to_string());
    assert_eq!(default_contexts_dir(&Some("/state".into()), &home), "/state/levshell/contexts");
    assert_eq!(default_contexts_dir(&None, &home), "/home/u/.local/state/levshell/contexts");
    assert_eq!(default_contexts_dir(&None, &None), "/tmp/levshell/contexts");
}

#[test]
fn sway_quote_escapes_backslash_and_quote() {
    assert_eq!(sway_quote("foo"), r#""foo""#);
    assert_eq!(sway_quote(r#"a"b"#), r#""a\"b""#);
    assert_eq!(sway_quote(r"a\b"), r#""a\\b""#);
}

#[test]
fn shell_quote_handles_single_quotes() {
    assert_eq!(shell_quote_one("foo"), "'foo'");
    assert_eq!(shell_quote_one("it's"), "'it'\\''s'");
    assert_eq!(
        shell_quote_cmdline(&["neovide".into(), "draft.md".into()]),
        "'neovide' 'draft.md'"
    );
}

#[test]
fn identity_falls_back_to_app_id_when_title_empty() {
    let w = WindowSnapshot {
        workspace: "1".into(),
        app_id: "foot".into(),
        title: String::new(),
        cmdline: None,
        floating: false,
    };
    assert_eq!(w.identity(), "foot");
}

// ---------------------------------------------------------------------------
// Capturing
// ---------------------------------------------------------------------------

fn node(
    id: i64,
    name: Option<&str>,
    kind: NodeKind,
    focused: bool,
    nodes: Vec<Node>,
    floating_nodes: Vec<Node>,
) -> Node {
    Node {
        id,
        name: name.map(|n| n.to_string()),
        kind,
        focused,
        app_id: None,
        class: None,
        pid: None,
        nodes,
        floating_nodes,
    }
}

fn con(id: i64, title: &str, app_id: &str, pid: Option<i32>) -> Node {
    Node {
        app_id: Some(app_id.into()),
        pid,
        ..node(id, Some(title), NodeKind::Other, false, vec![], vec![])
    }
}

fn tree(output: &str, ws: Node) -> Node {
    let out = node(2, Some(output), NodeKind::Other, false, vec![ws], vec![]);
    node(1, Some("root"), NodeKind::Other, false, vec![out], vec![])
}

fn workspace(name: &str, focused: bool, nodes: Vec<Node>, floating: Vec<Node>) -> Node {
    node(3, Some(name), NodeKind::Workspace, focused, nodes, floating)
}

fn tree_one_window() -> Node {
    let win = con(4, "draft.md", "neovide", Some(1234));
    tree("HDMI-0", workspace("3:code", true, vec![win], vec![]))
}

#[test]
fn captures_a_single_wayland_window() {
    let snap = capture_from_tree(
        "x",
        &tree_one_window(),
        |pid| {
            assert_eq!(pid, 1234);
            Some(vec!["neovide".into(), "draft.md".into()])
        },
        NOW,
    );
    assert_eq!(snap.windows.len(), 1);
    let w = &snap.windows[0];
    assert_eq!(w.workspace, "3:code");
    assert_eq!(w.app_id, "neovide");
    assert_eq!(w.title, "draft.md");
    assert_eq!(w.cmdline.as_deref(), Some(&["neovide".to_owned(), "draft.md".to_owned()][..]));
    assert!(!w.floating);
    assert_eq!(snap.focused_workspace.as_deref(), Some("3:code"));
}

#[test]
fn focused_workspace_follows_a_focused_window_con() {
    let mut win = con(4, "draft.md", "neovide", Some(1234));
    win.focused = true;
    let t = tree("HDMI-0", workspace("2:web", false, vec![win], vec![]));
    let snap = capture_from_tree("x", &t, |_| Some(vec!["neovide".into()]), NOW);
    assert_eq!(snap.windows.len(), 1);
    assert_eq!(snap.focused_workspace.as_deref(), Some("2:web"));
}

#[test]
fn skips_scratchpad_windows() {
    let win = con(4, "private", "secret-app", Some(42));
    let t = tree("__i3", workspace("__i3_scratch", false, vec![win], vec![]));
    let snap = capture_from_tree("x", &t, |_| None, NOW);
    assert!(snap.windows.is_empty());
}

#[test]
fn falls_back_to_window_class_for_xwayland() {
    let slack = Node {
        class: Some("Slack".into()),
        pid: Some(55),
        ..node(4, Some("Slack"), NodeKind::Other, false, vec![], vec![])
    };
    let t = tree("out", workspace("5:misc", false, vec![slack], vec![]));
    let snap = capture_from_tree("x", &t, |_| None, NOW);
    assert_eq!(snap.windows.len(), 1);
    assert_eq!(snap.windows[0].app_id, "Slack");
}

#[test]
fn descends_through_split_containers() {
    let tab1 = con(11, "tab1", "firefox", Some(101));
    let tab2 = con(12, "tab2", "firefox", Some(102));
    let split = node(10, None, NodeKind::Other, false, vec![tab1, tab2], vec![]);
    let t = tree("out", workspace("1:web", false, vec![split], vec![]));
    let snap = capture_from_tree("x", &t, |_| None, NOW);
    assert_eq!(snap.windows.len(), 2);
    assert!(snap.windows.iter().all(|w| w.app_id == "firefox"));
}

#[test]
fn captures_floating_windows() {
    let mpv = Node {
        app_id: Some("mpv".into()),
        pid: Some(77),
        ..node(4, Some("picture-in-picture"), NodeKind::FloatingCon, false, vec![], vec![])
    };
    let t = tree("out", workspace("2:notes", false, vec![], vec![mpv]));
    let snap = capture_from_tree("x", &t, |_| None, NOW);
    assert_eq!(snap.windows.len(), 1);
    assert!(snap.windows[0].floating);
    assert_eq!(snap.windows[0].workspace, "2:notes");
}

#[test]
fn parses_proc_cmdline_nul_separated() {
    let raw = b"neovide\0--fork\0draft.md\0";
    assert_eq!(
        parse_proc_cmdline(raw),
        Some(vec!["neovide".to_owned(), "--fork".to_owned(), "draft.md".to_owned()])
    );
}

#[test]
fn parses_empty_proc_cmdline_as_none() {
    assert_eq!(parse_proc_cmdline(&[]), None);
    assert_eq!(parse_proc_cmdline(&[0, 0, 0]), None);
}

#[test]
fn command_lines_that_are_no_utf8_are_replaced() {
    assert_eq!(parse_proc_cmdline(b"a\xFFb\0"), Some(vec!["a\u{FFFD}b".to_string()]));
}

#[test]
fn missing_pid_yields_no_cmdline() {
    let snap = capture_from_tree("x", &tree_one_window(), |_pid| None, NOW);
    assert!(snap.windows[0].cmdline.is_none());
}

// ---------------------------------------------------------------------------
// Restoring
// ---------------------------------------------------------------------------

fn saved(app: &str, title: &str, ws: &str, cmd: Option<&[&str]>) -> WindowSnapshot {
    WindowSnapshot {
        workspace: ws.into(),
        app_id: app.into(),
        title: title.into(),
        cmdline: cmd.map(strings),
        floating: false,
    }
}

fn live(id: i64, app: &str, title: &str, ws: &str) -> LiveWindow {
    LiveWindow { con_id: id, workspace: ws.into(), app_id: app.into(), title: title.into() }
}

fn snapshot(windows: Vec<WindowSnapshot>) -> ContextSnapshot {
    ContextSnapshot { windows, ..snap("t") }
}

#[test]
fn existing_window_on_right_workspace_is_no_op() {
    let snap = snapshot(vec![saved("firefox", "arxiv", "3", None)]);
    let plan = plan_restore(&snap, &[live(10, "firefox", "arxiv", "3")]);
    assert!(plan.moves.is_empty());
    assert!(plan.launches.is_empty());
}

#[test]
fn existing_window_on_wrong_workspace_is_moved() {
    let snap = snapshot(vec![saved("firefox", "arxiv", "3", None)]);
    let plan = plan_restore(&snap, &[live(10, "firefox", "arxiv", "1")]);
    assert_eq!(plan.moves.len(), 1);
    assert_eq!(plan.moves[0].con_id, 10);
    assert_eq!(plan.moves[0].target_workspace, "3");
    assert!(plan.launches.is_empty());
}

#[test]
fn missing_window_with_cmdline_is_launched() {
    let snap = snapshot(vec![saved("neovide", "draft.md", "2", Some(&["neovide", "draft.md"]))]);
    let plan = plan_restore(&snap, &[]);
    assert!(plan.moves.is_empty());
    assert_eq!(plan.launches.len(), 1);
    assert_eq!(plan.launches[0].cmdline, vec!["neovide", "draft.md"]);
    assert_eq!(plan.launches[0].target_workspace, "2");
}

#[test]
fn missing_window_without_cmdline_is_counted_as_skipped() {
    let snap = snapshot(vec![saved("neovide", "draft.md", "2", None)]);
    let plan = plan_restore(&snap, &[]);
    assert!(plan.launches.is_empty());
    assert!(plan.moves.is_empty());
    assert_eq!(plan.skipped_unrestorable, 1);
}

#[test]
fn prefers_same_title_when_multiple_candidates() {
    let snap = snapshot(vec![saved("firefox", "arxiv abs", "2", None)]);
    let live = vec![live(10, "firefox", "news", "1"), live(20, "firefox", "arxiv abs", "1")];
    let plan = plan_restore(&snap, &live);
    assert_eq!(plan.moves.len(), 1);
    assert_eq!(plan.moves[0].con_id, 20);
}

#[test]
fn consumes_matched_windows_to_avoid_double_claims() {
    let snap =
        snapshot(vec![saved("firefox", "a", "2", None), saved("firefox", "b", "3", None)]);
    let live = vec![live(10, "firefox", "a", "1"), live(20, "firefox", "b", "1")];
    let plan = plan_restore(&snap, &live);
    assert_eq!(plan.moves.len(), 2);
    let targets: Vec<(i64, String)> =
        plan.moves.iter().map(|m| (m.con_id, m.target_workspace.clone())).collect();
    assert!(targets.contains(&(10, "2".into())));
    assert!(targets.contains(&(20, "3".into())));
}

#[test]
fn second_saved_window_falls_back_to_launch_when_only_one_live() {
    let snap = snapshot(vec![
        saved("firefox", "a", "2", None),
        saved("firefox", "b", "3", Some(&["firefox", "--new-window"])),
    ]);
    let plan = plan_restore(&snap, &[live(10, "firefox", "a", "1")]);
    assert_eq!(plan.moves.len(), 1);
    assert_eq!(plan.moves[0].con_id, 10);
    assert_eq!(plan.launches.len(), 1);
    assert_eq!(plan.launches[0].target_workspace, "3");
}

#[test]
fn focused_workspace_is_preserved() {
    let snap = ContextSnapshot { focused_workspace: Some("7:focus".into()), ..snapshot(vec![]) };
    let plan = plan_restore(&snap, &[]);
    assert_eq!(plan.focused_workspace.as_deref(), Some("7:focus"));
}

#[test]
fn different_app_id_is_never_matched() {
    let snap = snapshot(vec![saved("firefox", "arxiv", "2", None)]);
    let plan = plan_restore(&snap, &[live(10, "chromium", "arxiv", "2")]);
    assert!(plan.moves.is_empty());
    assert_eq!(plan.skipped_unrestorable, 1);
}

#[test]
fn same_app_drifted_titles_prefer_same_workspace_no_churn() {
    let snap = snapshot(vec![saved("foot", "old-a", "2", None), saved("foot", "old-b", "6", None)]);
    let live = vec![live(10, "foot", "new-y", "6"), live(11, "foot", "new-x", "2")];
    let plan = plan_restore(&snap, &live);
    assert!(plan.moves.is_empty(), "expected no moves, got {:?}", plan.moves);
    assert!(plan.launches.is_empty());
}

#[test]
fn exact_title_still_wins_over_same_workspace() {
    let snap = snapshot(vec![saved("foot", "build-log", "3", None)]);
    let live = vec![live(20, "foot", "scratch", "3"), live(21, "foot", "build-log", "5")];
    let plan = plan_restore(&snap, &live);
    assert_eq!(plan.moves.len(), 1);
    assert_eq!(plan.moves[0].con_id, 21);
    assert_eq!(plan.moves[0].target_workspace, "3");
}

#[test]
fn restoring_right_after_capturing_moves_nothing() {
    let t = tree_one_window();
    let snap = capture_from_tree("x", &t, |_| None, NOW);
    let plan = plan_restore(&snap, &flatten_live_windows(&t));
    assert!(plan.moves.is_empty() && plan.launches.is_empty());
    assert_eq!(plan.skipped_unrestorable, 0);
}

#[test]
fn plans_become_commands() {
    let mut snap = snapshot(vec![
        saved("firefox", "a", "2 x", None),
        saved("foot", "b", "3", Some(&["foot", "it's"])),
        saved("gone", "c", "4", None),
    ]);
    snap.focused_workspace = Some("2 x".into());
    let plan = plan_restore(&snap, &[live(10, "firefox", "a", "1")]);
    assert_eq!(
        restore_commands(&plan),
        vec![
            "[con_id=10] move to workspace \"2 x\"",
            "workspace \"3\"; exec 'foot' 'it'\\''s'",
            "workspace \"2 x\"",
        ]
    );
    assert_eq!(
        restore_summary("t", &plan, &[true, false, true]).message,
        "restored t: moved 1, launched 0, skipped 1, launch errors 1"
    );
}

#[test]
fn only_valid_names_are_saved_and_restored() {
    let t = tree_one_window();
    let saved = save_current("work", &t, |_| Some(vec!["neovide".to_string()]), NOW).unwrap();
    assert_eq!(saved.name, "work");
    assert_eq!(saved.captured_at, NOW);
    assert_eq!(saved.windows.len(), 1);
    assert_eq!(saved.windows[0].cmdline, Some(vec!["neovide".to_string()]));
    assert!(matches!(
        save_current("../work", &t, |_| None, NOW),
        Err(ContextSnapshotError::InvalidName { .. })
    ));

    let plan = restore_snapshot("work", "/d", ReadOutcome::Read(saved.clone()), &t).unwrap();
    assert!(plan.moves.is_empty() && plan.launches.is_empty());
    assert_eq!(plan.focused_workspace.as_deref(), Some("3:code"));
    let empty = tree("HDMI-0", workspace("3:code", true, vec![], vec![]));
    let plan = restore_snapshot("work", "/d", ReadOutcome::Read(saved.clone()), &empty).unwrap();
    assert_eq!(plan.launches.len(), 1);
    assert!(matches!(
        restore_snapshot("a b", "/d", ReadOutcome::Read(saved), &t),
        Err(ContextSnapshotError::InvalidName { .. })
    ));
    assert!(matches!(
        restore_snapshot("work", "/d", ReadOutcome::Missing, &t),
        Err(ContextSnapshotError::NotFound { .. })
    ));
    assert!(matches!(
        restore_snapshot("work", "/d", ReadOutcome::Failed("denied".into()), &t),
        Err(ContextSnapshotError::Io { .. })
    ));
    assert!(matches!(
        restore_snapshot("work", "/d", ReadOutcome::Malformed("odd".into()), &t),
        Err(ContextSnapshotError::Parse { .. })
    ));
}

#[test]
fn written_snapshots_are_listed_among_other_files() {
    let mut files = strings(&["notes.txt", "a.json.bak", ".json", "json"]);
    for name in ["z-9", "A_1"] {
        let path = path_for("/d", name);
        files.push(path.strip_prefix("/d/").unwrap().to_string());
    }
    assert_eq!(list_snapshots(&files), vec!["A_1", "z-9"]);
}

/// What the compositor reads from a quoted word.
fn sway_read(s: &str) -> String {
    let inner = s.strip_prefix('"').unwrap().strip_suffix('"').unwrap();
    let mut out = String::new();
    let mut chars = inner.chars();
    while let Some(c) = chars.next() {
        assert_ne!(c, '"', "a quote that is not escaped");
        out.push(if c == '\\' { chars.next().unwrap() } else { c });
    }
    out
}

/// The words that a shell reads.
fn shell_read(s: &str) -> Vec<String> {
    let mut words = Vec::new();
    let mut word: Option<String> = None;
    let mut chars = s.chars();
    while let Some(c) = chars.next() {
        match c {
            ' ' => words.extend(word.take()),
            '\'' => {
                let w = word.get_or_insert_with(String::new);
                for c in chars.by_ref() {
                    if c == '\'' {
                        break;
                    }
                    w.push(c);
                }
            }
            '\\' => word.get_or_insert_with(String::new).push(chars.next().unwrap()),
            c => word.get_or_insert_with(String::new).push(c),
        }
    }
    words.extend(word);
    words
}

#[test]
fn quoted_words_read_back() {
    let words = ["", "plain", "it's", "''", "a \"b\" \\", "\\\\\"", "$HOME; rm *", "é∑"];
    for w in words {
        assert_eq!(sway_read(&sway_quote(w)), w);
        assert_eq!(shell_read(&shell_quote_one(w)), vec![w]);
    }
    assert_eq!(shell_read(&shell_quote_cmdline(&strings(&words))), words);
    assert!(shell_read(&shell_quote_cmdline(&[])).is_empty());
}

#[test]
fn windows_without_an_identity_are_left_out() {
    let named = |app: Option<&str>, class: Option<&str>| Node {
        app_id: app.map(|a| a.to_string()),
        class: class.map(|c| c.to_string()),
        ..node(4, Some("w"), NodeKind::Other, false, vec![], vec![])
    };
    let nodes = vec![
        named(Some(""), None),
        named(Some(""), Some("")),
        named(None, Some("")),
        named(Some(""), Some("Slack")),
        named(Some("foot"), Some("Other")),
    ];
    let t = tree("out", workspace("1", false, nodes, vec![]));
    let snap = capture_from_tree("x", &t, |_| None, NOW);
    let apps: Vec<&str> = snap.windows.iter().map(|w| w.app_id.as_str()).collect();
    assert_eq!(apps, vec!["Slack", "foot"]);
    assert_eq!(flatten_live_windows(&t).len(), 2);
}

#[test]
fn command_lines_read_back() {
    let args = ["neovide", "--título", "∑ x"];
    let mut bytes = vec![0, 0];
    for a in args {
        bytes.extend_from_slice(a.as_bytes());
        bytes.extend_from_slice(&[0, 0, 0]);
    }
    assert_eq!(parse_proc_cmdline(&bytes), Some(strings(&args)));
    assert_eq!(parse_proc_cmdline(&[0, 0]), None);
    assert_eq!(parse_proc_cmdline(&[]), None);
}

#[test]
fn every_command_of_a_plan_is_counted() {
    let snap = snapshot(vec![
        saved("firefox", "a", "2", None),
        saved("foot", "b", "3", None),
        saved("gone", "c", "4", Some(&["gone"])),
    ]);
    let plan = plan_restore(&snap, &[live(1, "firefox", "a", "1"), live(2, "foot", "b", "1")]);
    assert_eq!(restore_commands(&plan).len(), 3);
    assert_eq!(
        restore_summary("t", &plan, &[true, false, true]).message,
        "restored t: moved 1, launched 1, move errors 1"
    );
    assert_eq!(
        restore_summary("t", &plan, &[false, false, false]).message,
        "restored t: moved 0, launched 0, move errors 2, launch errors 1"
    );
}
