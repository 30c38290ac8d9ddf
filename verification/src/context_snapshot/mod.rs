//! Saving and restoring the arrangement of windows on the desktop.
//!
//! A snapshot records, for each window, its workspace, application, title and
//! command line. Restoring moves the windows that are still there back to their
//! workspaces and launches the others again.

pub mod capture;
pub mod model;
pub mod quote;
pub mod restore;

use vstd::prelude::*;
use vstd::string::StringExecFns;

use self::capture::{capture_from_tree, captures, focus_of, windows_of, Node};
use self::model::{ContextSnapshot, WindowSnapshot, WindowView};
use self::quote::{shell_quote_cmdline, shell_quoted_words, sway_quote, sway_quoted};
use self::restore::{
    flatten_live_windows, live_windows, plan, plan_restore, LaunchAction, LaunchView, MoveAction,
    MoveView, RestorePlan,
};
use crate::order::{
    lemma_lex_total, lemma_lex_trans, lemma_sort, lex_le, sort, sort_by, str_lt, total_order,
};
use crate::paths::{joined, path_join};
use crate::stdtext::{debug_string, debug_text};
use crate::text;
use crate::text::{decimal, decimal_int};
use crate::time::UtcTime;

verus! {

/// Why a save, restore or delete could not be carried out.
#[derive(Debug, Clone, PartialEq, Eq)]
pub enum ContextSnapshotError {
    /// The compositor could not be reached.
    Sway(String),
    /// There is no snapshot of that name in the directory.
    NotFound { name: String, dir: String },
    /// The name is empty or holds a character that is not allowed.
    InvalidName { name: String },
    /// A file could not be read, written or removed.
    Io { path: String, source: String },
    /// A snapshot file does not hold a snapshot.
    Parse { path: String, source: String },
    /// A snapshot could not be turned into text.
    Serialize(String),
}

impl ContextSnapshotError {
    pub fn message(&self) -> (r: String)
        ensures
            r@ == (match self {
                ContextSnapshotError::Sway(e) => "sway ipc error: "@ + e@,
                ContextSnapshotError::NotFound { name, dir } => "snapshot "@ + debug_text(name@)
                    + " not found in "@ + dir@,
                ContextSnapshotError::InvalidName { name } => "invalid snapshot name "@
                    + debug_text(name@)
                    + ": must be non-empty and contain only a-z0-9-_"@,
                ContextSnapshotError::Io { path, source } => "io error on "@ + path@ + ": "@
                    + source@,
                ContextSnapshotError::Parse { path, source } => "parse error on "@ + path@ + ": "@
                    + source@,
                ContextSnapshotError::Serialize(e) => "could not serialize snapshot: "@ + e@,
            }),
    {
        match self {
            ContextSnapshotError::Sway(e) => text::concat2("sway ipc error: ", e),
            ContextSnapshotError::NotFound { name, dir } => text::concat2(
                &text::concat3("snapshot ", &debug_string(name), " not found in "),
                dir,
            ),
            ContextSnapshotError::InvalidName { name } => text::concat3(
                "invalid snapshot name ",
                &debug_string(name),
                ": must be non-empty and contain only a-z0-9-_",
            ),
            ContextSnapshotError::Io { path, source } => text::concat2(
                &text::concat3("io error on ", path, ": "),
                source,
            ),
            ContextSnapshotError::Parse { path, source } => text::concat2(
                &text::concat3("parse error on ", path, ": "),
                source,
            ),
            ContextSnapshotError::Serialize(e) => text::concat2(
                "could not serialize snapshot: ",
                e,
            ),
        }
    }
}

/// What a completed operation reports to the user.
#[derive(Debug, Clone, PartialEq, Eq)]
pub struct OperationSummary {
    pub message: String,
}

impl OperationSummary {
    pub fn new(message: String) -> (r: Self)
        ensures
            r.message == message,
    {
        OperationSummary { message }
    }
}

// ---------------------------------------------------------------------------
// Names and files
// ---------------------------------------------------------------------------

/// The characters that a snapshot name may hold.
pub open spec fn name_char(c: char) -> bool {
    'a' <= c <= 'z' || 'A' <= c <= 'Z' || '0' <= c <= '9' || c == '-' || c == '_'
}

/// Whether a text is a valid snapshot name.
pub open spec fn valid_name(name: Seq<char>) -> bool {
    name.len() > 0 && forall|i: int| 0 <= i < name.len() ==> name_char(#[trigger] name[i])
}

/// Accepts a valid snapshot name and rejects any other.
pub fn validate_name(name: &str) -> (r: Result<(), ContextSnapshotError>)
    ensures
        r is Ok <==> valid_name(name@),
        r is Err ==> (r->Err_0 matches ContextSnapshotError::InvalidName { name: n } && n@
            == name@),
{
    let cs = text::chars(name);
    if cs.len() == 0 {
        return Err(ContextSnapshotError::InvalidName { name: text::owned(name) });
    }
    let mut i: usize = 0;
    while i < cs.len()
        invariant
            i <= cs@.len(),
            cs@ == name@,
            forall|k: int| 0 <= k < i ==> name_char(#[trigger] cs@[k]),
        decreases cs@.len() - i,
    {
        let c = cs[i];
        let ok = ('a' <= c && c <= 'z') || ('A' <= c && c <= 'Z') || ('0' <= c && c <= '9') || c
            == '-' || c == '_';
        if !ok {
            assert(!name_char(name@[i as int]));
            return Err(ContextSnapshotError::InvalidName { name: text::owned(name) });
        }
        i += 1;
    }
    Ok(())
}

/// The file of a snapshot.
pub open spec fn snapshot_path(dir: Seq<char>, name: Seq<char>) -> Seq<char> {
    joined(dir, name + ".json"@)
}

/// The file of a snapshot.
pub fn path_for(dir: &str, name: &str) -> (r: String)
    ensures
        r@ == snapshot_path(dir@, name@),
{
    path_join(dir, &text::concat2(name, ".json"))
}

/// The directory of the snapshots below the state directory of the user.
pub open spec fn contexts_dir(
    xdg_state_home: Option<Seq<char>>,
    home: Option<Seq<char>>,
) -> Seq<char> {
    let base = match xdg_state_home {
        Some(x) => x,
        None => match home {
            Some(h) => joined(h, ".local/state"@),
            None => "/tmp"@,
        },
    };
    joined(base, "levshell/contexts"@)
}

/// The directory of the snapshots, from the two environment variables that
/// decide it.
pub fn default_contexts_dir(xdg_state_home: &Option<String>, home: &Option<String>) -> (r: String)
    ensures
        r@ == contexts_dir(xdg_state_home.deep_view(), home.deep_view()),
{
    let base: String = match xdg_state_home {
        Some(x) => x.clone(),
        None => match home {
            Some(h) => path_join(h, ".local/state"),
            None => text::owned("/tmp"),
        },
    };
    path_join(&base, "levshell/contexts")
}

/// Whether a file name is that of a snapshot: a non-empty stem and the
/// extension `json`.
pub open spec fn is_snapshot_file(file: Seq<char>) -> bool {
    file.len() > 5 && text::ends_with(file, ".json"@)
}

/// The stems of the snapshot files among `files`, in the order of the list.
pub open spec fn stems(files: Seq<Seq<char>>) -> Seq<Seq<char>>
    decreases files.len(),
{
    if files.len() == 0 {
        Seq::empty()
    } else if is_snapshot_file(files.last()) {
        stems(files.drop_last()).push(files.last().take(files.last().len() - 5))
    } else {
        stems(files.drop_last())
    }
}

/// The names of the snapshots in a directory with the given files, sorted.
pub fn list_snapshots(files: &[String]) -> (r: Vec<String>)
    ensures
        r.deep_view() == sort(
            stems(files.deep_view()),
            |a: Seq<char>, b: Seq<char>| lex_le(a, b),
        ),
{
    let mut names: Vec<String> = Vec::new();
    let ghost fv = files.deep_view();
    let mut i: usize = 0;
    proof {
        assert(fv.take(0) =~= Seq::empty());
        assert(names.deep_view() =~= Seq::empty());
        reveal_strlit(".json");
    }
    while i < files.len()
        invariant
            i <= files@.len(),
            fv == files.deep_view(),
            ".json"@.len() == 5,
            names.deep_view() == stems(fv.take(i as int)),
        decreases files@.len() - i,
    {
        let ghost before = names.deep_view();
        proof {
            assert(fv.take(i + 1).drop_last() =~= fv.take(i as int));
            assert(fv.take(i + 1).last() == files@[i as int]@);
        }
        let cs = text::chars(&files[i]);
        if cs.len() > 5 && text::ends(&files[i], ".json") {
            let stem = text::string(vstd::slice::slice_subrange(&cs, 0, cs.len() - 5));
            assert(stem@ =~= files@[i as int]@.take(files@[i as int]@.len() - 5));
            names.push(stem);
            assert(names.deep_view() =~= before.push(stem@));
        }
        i += 1;
    }
    assert(fv.take(i as int) =~= fv);
    let ghost key = |s: String| s@;
    let ghost rel = |a: Seq<char>, b: Seq<char>| lex_le(a, b);
    assert(names@.map_values(key) =~= names.deep_view());
    let le = |a: &String, b: &String| -> (o: bool)
        ensures
            o == lex_le(a@, b@),
    {
        let after = str_lt(b, a);
        !after
    };
    let sorted = sort_by::<String, Seq<char>, _>(names, le, Ghost(key), Ghost(rel));
    assert(sorted@.map_values(key) =~= sorted.deep_view());
    sorted
}

/// What removing a snapshot's file came to.
#[derive(Debug, Clone, PartialEq, Eq)]
pub enum RemoveOutcome {
    Removed,
    Missing,
    Failed(String),
}

/// What deleting a snapshot reports, given what became of its file. The file is
/// only touched where the name is valid.
pub fn delete_snapshot(name: &str, dir: &str, outcome: &RemoveOutcome) -> (r: Result<
    OperationSummary,
    ContextSnapshotError,
>)
    ensures
        match r {
            Ok(s) => valid_name(name@) && *outcome is Removed && s.message@ == "deleted "@ + name@,
            Err(ContextSnapshotError::InvalidName { name: n }) => !valid_name(name@) && n@
                == name@,
            Err(ContextSnapshotError::NotFound { name: n, dir: d }) => valid_name(name@)
                && *outcome is Missing && n@ == name@ && d@ == dir@,
            Err(ContextSnapshotError::Io { path, source }) => valid_name(name@) && (*outcome matches
                RemoveOutcome::Failed(e) && source == e) && path@ == snapshot_path(dir@, name@),
            Err(_) => false,
        },
{
    match validate_name(name) {
        Err(e) => {
            return Err(e);
        },
        Ok(_) => {},
    }
    match outcome {
        RemoveOutcome::Removed => Ok(OperationSummary::new(text::concat2("deleted ", name))),
        RemoveOutcome::Missing => Err(
            ContextSnapshotError::NotFound { name: text::owned(name), dir: text::owned(dir) },
        ),
        RemoveOutcome::Failed(e) => Err(
            ContextSnapshotError::Io { path: path_for(dir, name), source: e.clone() },
        ),
    }
}

/// What reading a snapshot's file came to.
#[derive(Debug, Clone, PartialEq, Eq)]
pub enum ReadOutcome {
    Missing,
    Failed(String),
    /// The file holds no snapshot, for this reason.
    Malformed(String),
    Read(ContextSnapshot),
}

/// The snapshot of a name, given what became of its file.
pub fn read_snapshot(name: &str, dir: &str, outcome: ReadOutcome) -> (r: Result<
    ContextSnapshot,
    ContextSnapshotError,
>)
    ensures
        match outcome {
            ReadOutcome::Missing => r matches Err(ContextSnapshotError::NotFound {
                name: n,
                dir: d,
            }) && n@ == name@ && d@ == dir@,
            ReadOutcome::Failed(e) => r matches Err(ContextSnapshotError::Io { path, source })
                && path@ == snapshot_path(dir@, name@) && source == e,
            ReadOutcome::Malformed(e) => r matches Err(ContextSnapshotError::Parse {
                path,
                source,
            }) && path@ == snapshot_path(dir@, name@) && source == e,
            ReadOutcome::Read(s) => r matches Ok(x) && x == s,
        },
{
    match outcome {
        ReadOutcome::Missing => Err(
            ContextSnapshotError::NotFound { name: text::owned(name), dir: text::owned(dir) },
        ),
        ReadOutcome::Failed(e) => Err(
            ContextSnapshotError::Io { path: path_for(dir, name), source: e },
        ),
        ReadOutcome::Malformed(e) => Err(
            ContextSnapshotError::Parse { path: path_for(dir, name), source: e },
        ),
        ReadOutcome::Read(s) => Ok(s),
    }
}

/// What restoring the snapshot of a name comes to on the desktop that `tree`
/// shows, given what became of its file. A name that is not valid is refused,
/// whatever the file holds.
pub fn restore_snapshot(name: &str, dir: &str, outcome: ReadOutcome, tree: &Node) -> (r: Result<
    RestorePlan,
    ContextSnapshotError,
>)
    ensures
        !valid_name(name@) ==> (r matches Err(ContextSnapshotError::InvalidName { name: n }) && n@
            == name@),
        valid_name(name@) ==> (match outcome {
            ReadOutcome::Missing => r matches Err(ContextSnapshotError::NotFound {
                name: n,
                dir: d,
            }) && n@ == name@ && d@ == dir@,
            ReadOutcome::Failed(e) => r matches Err(ContextSnapshotError::Io { path, source })
                && path@ == snapshot_path(dir@, name@) && source == e,
            ReadOutcome::Malformed(e) => r matches Err(ContextSnapshotError::Parse {
                path,
                source,
            }) && path@ == snapshot_path(dir@, name@) && source == e,
            ReadOutcome::Read(s) => {
                let planned = plan(s.windows.deep_view(), live_windows(*tree));
                r matches Ok(p) && p.moves.deep_view() == planned.moves && p.launches.deep_view()
                    == planned.launches && p.skipped_unrestorable as nat == (if planned.skipped
                    <= u32::MAX {
                    planned.skipped
                } else {
                    u32::MAX as nat
                }) && p.focused_workspace == s.focused_workspace
            },
        }),
{
    match validate_name(name) {
        Err(e) => {
            return Err(e);
        },
        Ok(_) => {},
    }
    match read_snapshot(name, dir, outcome) {
        Ok(snapshot) => Ok(plan_restore(&snapshot, &flatten_live_windows(tree))),
        Err(e) => Err(e),
    }
}

/// Takes a snapshot of the desktop that `tree` shows, where the name is valid.
pub fn save_current<F: Fn(i32) -> Option<Vec<String>>>(
    name: &str,
    tree: &Node,
    read_cmdline: F,
    now: UtcTime,
) -> (r: Result<ContextSnapshot, ContextSnapshotError>)
    requires
        forall|pid: i32| call_requires(read_cmdline, (pid,)),
    ensures
        r is Ok <==> valid_name(name@),
        r matches Err(e) ==> (e matches ContextSnapshotError::InvalidName { name: n } && n@
            == name@),
        r matches Ok(s) ==> {
            &&& s.name@ == name@
            &&& s.captured_at == now
            &&& s.focused_workspace.deep_view() == focus_of(*tree, None)
            &&& s.windows@.len() == windows_of(*tree, None).len()
            &&& forall|i: int|
                0 <= i < s.windows@.len() ==> captures(
                    read_cmdline,
                    #[trigger] s.windows@[i],
                    windows_of(*tree, None)[i],
                )
            &&& forall|i: int|
                0 <= i < s.windows@.len() ==> (#[trigger] s.windows@[i]).app_id@.len() > 0
        },
{
    match validate_name(name) {
        Err(e) => Err(e),
        Ok(_) => Ok(capture_from_tree(name, tree, read_cmdline, now)),
    }
}

/// What writing a snapshot's file came to.
#[derive(Debug, Clone, PartialEq, Eq)]
pub enum WriteOutcome {
    /// The directory could not be made.
    NoDirectory(String),
    /// The snapshot could not be turned into text.
    NoText(String),
    Failed(String),
    Written,
}

/// What saving a snapshot reports, given what became of its file.
pub fn write_snapshot(snapshot: &ContextSnapshot, dir: &str, outcome: WriteOutcome) -> (r: Result<
    OperationSummary,
    ContextSnapshotError,
>)
    ensures
        match outcome {
            WriteOutcome::NoDirectory(e) => r matches Err(ContextSnapshotError::Io {
                path,
                source,
            }) && path@ == dir@ && source == e,
            WriteOutcome::NoText(e) => r matches Err(ContextSnapshotError::Serialize(x)) && x == e,
            WriteOutcome::Failed(e) => r matches Err(ContextSnapshotError::Io { path, source })
                && path@ == snapshot_path(dir@, snapshot.name@) && source == e,
            WriteOutcome::Written => r matches Ok(s) && s.message@ == save_message(
                snapshot.name@,
                snapshot.windows.deep_view(),
            ),
        },
{
    match outcome {
        WriteOutcome::NoDirectory(e) => Err(
            ContextSnapshotError::Io { path: text::owned(dir), source: e },
        ),
        WriteOutcome::NoText(e) => Err(ContextSnapshotError::Serialize(e)),
        WriteOutcome::Failed(e) => Err(
            ContextSnapshotError::Io { path: path_for(dir, &snapshot.name), source: e },
        ),
        WriteOutcome::Written => Ok(save_summary(snapshot)),
    }
}

/// The number of distinct workspaces of some windows.
pub open spec fn workspace_count(windows: Seq<WindowView>) -> nat {
    windows.map_values(|w: WindowView| w.workspace).to_set().len()
}

/// What saving a snapshot reports.
pub open spec fn save_message(name: Seq<char>, windows: Seq<WindowView>) -> Seq<char> {
    "saved "@ + name + ": "@ + decimal(windows.len()) + " window(s) across "@ + decimal(
        workspace_count(windows),
    ) + " workspace(s)"@
}

/// Counts the distinct workspaces of some windows.
fn count_workspaces(windows: &Vec<WindowSnapshot>) -> (r: usize)
    ensures
        r == workspace_count(windows.deep_view()),
{
    let ghost all = windows.deep_view().map_values(|w: WindowView| w.workspace);
    let mut seen: Vec<String> = Vec::new();
    let mut i: usize = 0;
    proof {
        assert(seen.deep_view().to_set() =~= all.take(0).to_set());
    }
    while i < windows.len()
        invariant
            i <= windows@.len(),
            all == windows.deep_view().map_values(|w: WindowView| w.workspace),
            seen.deep_view().no_duplicates(),
            seen.deep_view().to_set() == all.take(i as int).to_set(),
        decreases windows@.len() - i,
    {
        let ghost before = seen.deep_view();
        let ghost w = windows@[i as int].workspace@;
        proof {
            assert(all[i as int] == w);
            assert(all.take(i + 1) =~= all.take(i as int).push(w));
            all.take(i as int).lemma_push_to_set_commute(w);
        }
        if !text::strings_contain(&seen, &windows[i].workspace) {
            seen.push(windows[i].workspace.clone());
            proof {
                assert(seen.deep_view() =~= before.push(w));
                before.lemma_push_to_set_commute(w);
            }
        } else {
            proof {
                assert(before.to_set().contains(w));
                assert(before.to_set().insert(w) =~= before.to_set());
            }
        }
        i += 1;
    }
    proof {
        assert(all.take(i as int) =~= all);
        seen.deep_view().unique_seq_to_set();
    }
    seen.len()
}

/// What saving a snapshot reports.
pub fn save_summary(snapshot: &ContextSnapshot) -> (r: OperationSummary)
    ensures
        r.message@ == save_message(snapshot.name@, snapshot.windows.deep_view()),
{
    let mut out = text::concat3("saved ", &snapshot.name, ": ");
    out.append(&text::decimal_string(snapshot.windows.len() as u64));
    out.append(" window(s) across ");
    out.append(&text::decimal_string(count_workspaces(&snapshot.windows) as u64));
    out.append(" workspace(s)");
    OperationSummary::new(out)
}

// ---------------------------------------------------------------------------
// Carrying out a plan
// ---------------------------------------------------------------------------

/// The compositor command that carries out a move.
pub open spec fn move_command_text(m: MoveView) -> Seq<char> {
    "[con_id="@ + decimal_int(m.con_id as int) + "] move to workspace "@ + sway_quoted(
        m.target_workspace,
    )
}

/// The compositor command that focuses a workspace.
pub open spec fn focus_command_text(workspace: Seq<char>) -> Seq<char> {
    "workspace "@ + sway_quoted(workspace)
}

/// The compositor command that focuses a workspace and launches a program there.
pub open spec fn launch_command_text(l: LaunchView) -> Seq<char> {
    focus_command_text(l.target_workspace) + "; exec "@ + shell_quoted_words(l.cmdline)
}

/// The compositor command that carries out a move.
pub fn move_command(m: &MoveAction) -> (r: String)
    ensures
        r@ == move_command_text(m.deep_view()),
{
    let mut out = text::concat3(
        "[con_id=",
        &text::decimal_string_i64(m.con_id),
        "] move to workspace ",
    );
    out.append(&sway_quote(&m.target_workspace));
    out
}

/// The compositor command that focuses a workspace.
pub fn focus_command(workspace: &str) -> (r: String)
    ensures
        r@ == focus_command_text(workspace@),
{
    text::concat2("workspace ", &sway_quote(workspace))
}

/// The compositor command that focuses a workspace and launches a program there.
pub fn launch_command(l: &LaunchAction) -> (r: String)
    ensures
        r@ == launch_command_text(l.deep_view()),
{
    text::concat3(&focus_command(&l.target_workspace), "; exec ", &shell_quote_cmdline(&l.cmdline))
}

/// How many of some commands succeeded, and how many failed; neither number
/// goes past the largest that fits.
pub open spec fn tally(outcomes: Seq<bool>, wanted: bool) -> nat
    decreases outcomes.len(),
{
    if outcomes.len() == 0 {
        0
    } else {
        let n = tally(outcomes.drop_last(), wanted);
        if outcomes.last() == wanted && n < u32::MAX {
            n + 1
        } else {
            n
        }
    }
}

/// Counts the outcomes of one kind in a part of a list.
fn count_outcomes(outcomes: &[bool], from: usize, to: usize, wanted: bool) -> (r: u32)
    requires
        from <= to <= outcomes@.len(),
    ensures
        r == tally(outcomes@.subrange(from as int, to as int), wanted),
{
    let mut n: u32 = 0;
    let mut i: usize = from;
    while i < to
        invariant
            from <= i <= to <= outcomes@.len(),
            n == tally(outcomes@.subrange(from as int, i as int), wanted),
        decreases to - i,
    {
        assert(outcomes@.subrange(from as int, i + 1).drop_last() =~= outcomes@.subrange(
            from as int,
            i as int,
        ));
        if outcomes[i] == wanted && n < u32::MAX {
            n = n + 1;
        }
        i += 1;
    }
    n
}

/// One part of the restore report, left out where its number is zero.
pub open spec fn report_part(word: Seq<char>, n: nat) -> Seq<Seq<char>> {
    if n > 0 {
        seq![word + decimal(n)]
    } else {
        Seq::empty()
    }
}

/// What a restore reports of a plan with so many moves and launches. `done` says of
/// each command of the plan whether it succeeded.
pub open spec fn restore_message(
    name: Seq<char>,
    skipped: nat,
    moves: nat,
    launches: nat,
    done: Seq<bool>,
) -> Seq<char> {
    let moved = done.subrange(0, moves as int);
    let launched = done.subrange(moves as int, (moves + launches) as int);
    "restored "@ + name + ": "@ + text::join(
        seq!["moved "@ + decimal(tally(moved, true)), "launched "@ + decimal(tally(launched, true))]
            + report_part("skipped "@, skipped) + report_part(
            "move errors "@,
            tally(moved, false),
        ) + report_part("launch errors "@, tally(launched, false)),
        ", "@,
    )
}

fn push_part(bits: &mut Vec<String>, word: &str, n: u32)
    ensures
        final(bits).deep_view() == old(bits).deep_view() + report_part(word@, n as nat),
{
    let ghost before = bits.deep_view();
    if n > 0 {
        bits.push(text::concat2(word, &text::decimal_string(n as u64)));
    }
    assert(bits.deep_view() =~= before + report_part(word@, n as nat));
}

/// What a restore reports, given for each command of the plan, in the order in which
/// they are run, whether it succeeded.
pub fn restore_summary(name: &str, plan: &RestorePlan, done: &[bool]) -> (r: OperationSummary)
    requires
        done@.len() == plan_commands(
            plan.moves.deep_view(),
            plan.launches.deep_view(),
            plan.focused_workspace.deep_view(),
        ).len(),
    ensures
        r.message@ == restore_message(
            name@,
            plan.skipped_unrestorable as nat,
            plan.moves@.len(),
            plan.launches@.len(),
            done@,
        ),
{
    let moves: usize = plan.moves.len();
    let commands: usize = match &plan.focused_workspace {
        Some(_) => done.len() - 1,
        None => done.len(),
    };
    let move_ok = count_outcomes(done, 0, moves, true);
    let move_err = count_outcomes(done, 0, moves, false);
    let launch_ok = count_outcomes(done, moves, commands, true);
    let launch_err = count_outcomes(done, moves, commands, false);
    let mut bits: Vec<String> = Vec::new();
    bits.push(text::concat2("moved ", &text::decimal_string(move_ok as u64)));
    bits.push(text::concat2("launched ", &text::decimal_string(launch_ok as u64)));
    proof {
        assert(bits.deep_view() =~= seq![
            "moved "@ + decimal(move_ok as nat),
            "launched "@ + decimal(launch_ok as nat),
        ]);
    }
    push_part(&mut bits, "skipped ", plan.skipped_unrestorable);
    push_part(&mut bits, "move errors ", move_err);
    push_part(&mut bits, "launch errors ", launch_err);
    let mut out = text::concat3("restored ", name, ": ");
    out.append(&text::join_strings(&bits, ", "));
    OperationSummary::new(out)
}

/// Every command of a plan, in the order in which it is run: moves, launches,
/// and the final focus.
pub open spec fn plan_commands(
    moves: Seq<MoveView>,
    launches: Seq<LaunchView>,
    focus: Option<Seq<char>>,
) -> Seq<Seq<char>> {
    moves.map_values(|m: MoveView| move_command_text(m)) + launches.map_values(
        |l: LaunchView| launch_command_text(l),
    ) + (match focus {
        Some(ws) => seq![focus_command_text(ws)],
        None => Seq::empty(),
    })
}

/// The commands that carry out a plan.
pub fn restore_commands(plan: &RestorePlan) -> (r: Vec<String>)
    ensures
        r.deep_view() == plan_commands(
            plan.moves.deep_view(),
            plan.launches.deep_view(),
            plan.focused_workspace.deep_view(),
        ),
{
    let mut out: Vec<String> = Vec::new();
    let ghost mv = plan.moves.deep_view().map_values(|m: MoveView| move_command_text(m));
    let ghost lv = plan.launches.deep_view().map_values(|l: LaunchView| launch_command_text(l));
    let mut i: usize = 0;
    assert(out.deep_view() =~= mv.take(0));
    while i < plan.moves.len()
        invariant
            i <= plan.moves@.len(),
            mv == plan.moves.deep_view().map_values(|m: MoveView| move_command_text(m)),
            out.deep_view() == mv.take(i as int),
        decreases plan.moves@.len() - i,
    {
        let ghost before = out.deep_view();
        out.push(move_command(&plan.moves[i]));
        proof {
            assert(out.deep_view() =~= before.push(mv[i as int]));
            assert(mv.take(i + 1) =~= mv.take(i as int).push(mv[i as int]));
        }
        i += 1;
    }
    assert(mv.take(i as int) =~= mv);
    let mut j: usize = 0;
    assert(out.deep_view() =~= mv + lv.take(0));
    while j < plan.launches.len()
        invariant
            j <= plan.launches@.len(),
            lv == plan.launches.deep_view().map_values(|l: LaunchView| launch_command_text(l)),
            out.deep_view() == mv + lv.take(j as int),
        decreases plan.launches@.len() - j,
    {
        let ghost before = out.deep_view();
        out.push(launch_command(&plan.launches[j]));
        proof {
            assert(out.deep_view() =~= before.push(lv[j as int]));
            assert(mv + lv.take(j + 1) =~= (mv + lv.take(j as int)).push(lv[j as int]));
        }
        j += 1;
    }
    assert(lv.take(j as int) =~= lv);
    match &plan.focused_workspace {
        Some(ws) => {
            let ghost before = out.deep_view();
            out.push(focus_command(ws));
            assert(out.deep_view() =~= before.push(focus_command_text(ws@)));
        },
        None => {},
    }
    assert(out.deep_view() =~= plan_commands(
        plan.moves.deep_view(),
        plan.launches.deep_view(),
        plan.focused_workspace.deep_view(),
    ));
    out
}

// ---------------------------------------------------------------------------
// Laws
// ---------------------------------------------------------------------------

/// Every outcome is counted once, below the counter's limit.
proof fn lemma_tallied(outcomes: Seq<bool>)
    requires
        outcomes.len() <= u32::MAX,
    ensures
        tally(outcomes, true) + tally(outcomes, false) == outcomes.len(),
    decreases outcomes.len(),
{
    if outcomes.len() > 0 {
        lemma_tallied(outcomes.drop_last());
    }
}

/// Every command of a plan is counted, as a success or as an error: the two numbers of
/// the moves make up its moves, and those of the launches its launches. The counters
/// stop at their limit, so this holds of plans that do not go past it.
pub proof fn law_every_command_is_counted(
    moves: Seq<MoveView>,
    launches: Seq<LaunchView>,
    focus: Option<Seq<char>>,
    done: Seq<bool>,
)
    requires
        done.len() == plan_commands(moves, launches, focus).len(),
        moves.len() <= u32::MAX,
        launches.len() <= u32::MAX,
    ensures
        ({
            let moved = done.subrange(0, moves.len() as int);
            tally(moved, true) + tally(moved, false) == moves.len()
        }),
        ({
            let launched = done.subrange(moves.len() as int, (moves.len() + launches.len()) as int);
            tally(launched, true) + tally(launched, false) == launches.len()
        }),
{
    lemma_tallied(done.subrange(0, moves.len() as int));
    lemma_tallied(done.subrange(moves.len() as int, (moves.len() + launches.len()) as int));
}

/// A valid name cannot leave the directory: the file of a snapshot is the
/// directory, a slash where it lacks one, and a file name without a slash.
pub proof fn law_valid_names_stay_in_directory(dir: Seq<char>, name: Seq<char>)
    requires
        valid_name(name),
    ensures
        forall|i: int| 0 <= i < (name + ".json"@).len() ==> (name + ".json"@)[i] != '/',
        dir.len() > 0 ==> snapshot_path(dir, name).take(dir.len() as int) == dir,
        name + ".json"@ != ".."@,
{
    reveal_strlit(".json");
    reveal_strlit("..");
    assert forall|i: int| 0 <= i < (name + ".json"@).len() implies (name + ".json"@)[i] != '/' by {
        if i < name.len() {
            assert(name_char(name[i]));
        }
    }
    assert((name + ".json"@)[0] == name[0]);
    assert(name_char(name[0]));
    if dir.len() > 0 {
        assert(snapshot_path(dir, name).take(dir.len() as int) =~= dir);
    }
}

/// The stems of the snapshot files are what stands before `.json` in their names.
proof fn lemma_stems(files: Seq<Seq<char>>, name: Seq<char>)
    requires
        name.len() > 0,
    ensures
        stems(files).contains(name) <==> files.contains(name + ".json"@),
    decreases files.len(),
{
    reveal_strlit(".json");
    let wanted = name + ".json"@;
    if files.len() > 0 {
        let front = files.drop_last();
        let file = files.last();
        lemma_stems(front, name);
        assert(files =~= front.push(file));
        assert(files.contains(wanted) <==> front.contains(wanted) || file == wanted) by {
            if front.contains(wanted) {
                let i = choose|i: int| 0 <= i < front.len() && front[i] == wanted;
                assert(files[i] == wanted);
            }
            if file == wanted {
                assert(files[files.len() - 1] == wanted);
            }
        }
        assert(wanted.take(wanted.len() - 5) =~= name);
        assert(wanted.subrange(wanted.len() - 5, wanted.len() as int) =~= ".json"@);
        if is_snapshot_file(file) {
            let stem = file.take(file.len() - 5);
            assert(file.subrange(file.len() - 5, file.len() as int) == ".json"@);
            assert(file =~= stem + file.subrange(file.len() - 5, file.len() as int));
            let before = stems(front);
            assert(stems(files) == before.push(stem));
            assert(before.push(stem).contains(name) <==> before.contains(name) || stem == name) by {
                if before.contains(name) {
                    let i = choose|i: int| 0 <= i < before.len() && before[i] == name;
                    assert(before.push(stem)[i] == name);
                }
                if stem == name {
                    assert(before.push(stem)[before.len() as int] == name);
                }
            }
        } else {
            assert(file != wanted);
        }
    }
}

/// A snapshot is listed under its name exactly when its file is in the directory,
/// whatever else is there.
pub proof fn law_written_snapshots_are_listed(files: Seq<Seq<char>>, name: Seq<char>)
    requires
        valid_name(name),
    ensures
        sort(stems(files), |a: Seq<char>, b: Seq<char>| lex_le(a, b)).contains(name)
            <==> files.contains(name + ".json"@),
{
    broadcast use vstd::seq_lib::group_to_multiset_ensures;

    let le = |a: Seq<char>, b: Seq<char>| lex_le(a, b);
    let listed = sort(stems(files), le);
    lemma_stems(files, name);
    assert forall|a: Seq<char>, b: Seq<char>| #[trigger] le(a, b) || le(b, a) by {
        lemma_lex_total(a, b);
    }
    assert forall|a: Seq<char>, b: Seq<char>, c: Seq<char>| #[trigger]
        le(a, b) && #[trigger] le(b, c) implies le(a, c) by {
        lemma_lex_trans(a, b, c);
    }
    assert(total_order(le));
    lemma_sort(stems(files), le);
    assert(listed.contains(name) <==> listed.to_multiset().count(name) > 0);
    assert(stems(files).contains(name) <==> stems(files).to_multiset().count(name) > 0);
}

/// A name is valid where it is not empty and made of letters and digits of ASCII, dashes
/// and underscores.
pub proof fn law_which_names_are_valid(name: Seq<char>)
    ensures
        valid_name(name) <==> name.len() > 0 && forall|i: int|
            0 <= i < name.len() ==> {
                let c = #[trigger] name[i];
                ('a' <= c && c <= 'z') || ('A' <= c && c <= 'Z') || ('0' <= c && c <= '9') || c == '-'
                    || c == '_'
            },
{
    if valid_name(name) {
        assert forall|i: int| 0 <= i < name.len() implies ({
            let c = #[trigger] name[i];
            ('a' <= c && c <= 'z') || ('A' <= c && c <= 'Z') || ('0' <= c && c <= '9') || c == '-'
                || c == '_'
        }) by {
            assert(name_char(name[i]));
        }
    }
}

/// A success counts as one more success and an error as one more error, below the
/// counter's limit.
pub proof fn law_outcomes_are_told_apart(outcomes: Seq<bool>, success: bool)
    requires
        outcomes.len() < u32::MAX,
    ensures
        tally(Seq::empty(), true) == 0 && tally(Seq::empty(), false) == 0,
        tally(outcomes.push(success), true) == tally(outcomes, true) + (if success {
            1nat
        } else {
            0nat
        }),
        tally(outcomes.push(success), false) == tally(outcomes, false) + (if success {
            0nat
        } else {
            1nat
        }),
{
    assert(outcomes.push(success).drop_last() =~= outcomes);
    lemma_tallied(outcomes);
}

proof fn lemma_two_parts(head: Seq<char>, a: Seq<char>, b: Seq<char>)
    ensures
        head + text::join(seq![a, b], ", "@) == head + (a + ", "@ + b),
{
    assert(seq![a, b].drop_last() =~= seq![a]);
    assert(text::join(seq![a], ", "@) == a);
}

proof fn lemma_another_part(head: Seq<char>, parts: Seq<Seq<char>>, word: Seq<char>, n: nat)
    requires
        parts.len() > 0,
    ensures
        head + text::join(parts + report_part(word, n), ", "@) == (if n > 0 {
            head + text::join(parts, ", "@) + ", "@ + (word + decimal(n))
        } else {
            head + text::join(parts, ", "@)
        }),
{
    let more = parts + report_part(word, n);
    if n > 0 {
        assert(more.drop_last() =~= parts);
        assert(more.last() == word + decimal(n));
        let t = text::join(parts, ", "@);
        assert(head + (t + ", "@ + (word + decimal(n))) =~= head + t + ", "@ + (word + decimal(n)));
    } else {
        assert(more =~= parts);
    }
}

/// What a restore reports: how many windows were moved and launched and, where there are
/// any, how many were skipped and how many commands failed.
pub proof fn law_reports_name_what_happened(
    name: Seq<char>,
    skipped: nat,
    moves: nat,
    launches: nat,
    done: Seq<bool>,
)
    requires
        done.len() >= moves + launches,
    ensures
        ({
            let m = done.take(moves as int);
            let l = done.subrange(moves as int, (moves + launches) as int);
            let all = "restored "@ + name + ": "@ + ("moved "@ + decimal(tally(m, true)) + ", "@ + (
            "launched "@ + decimal(tally(l, true))));
            let s = if skipped > 0 {
                all + ", "@ + ("skipped "@ + decimal(skipped))
            } else {
                all
            };
            let e = if tally(m, false) > 0 {
                s + ", "@ + ("move errors "@ + decimal(tally(m, false)))
            } else {
                s
            };
            let f = if tally(l, false) > 0 {
                e + ", "@ + ("launch errors "@ + decimal(tally(l, false)))
            } else {
                e
            };
            restore_message(name, skipped, moves, launches, done) == f
        }),
{
    let m = done.subrange(0, moves as int);
    assert(m =~= done.take(moves as int));
    let l = done.subrange(moves as int, (moves + launches) as int);
    let head = "restored "@ + name + ": "@;
    let p0 = "moved "@ + decimal(tally(m, true));
    let p1 = "launched "@ + decimal(tally(l, true));
    let two = seq![p0, p1];
    lemma_two_parts(head, p0, p1);
    let three = two + report_part("skipped "@, skipped);
    let four = three + report_part("move errors "@, tally(m, false));
    lemma_another_part(head, two, "skipped "@, skipped);
    lemma_another_part(head, three, "move errors "@, tally(m, false));
    lemma_another_part(head, four, "launch errors "@, tally(l, false));
}

/// The commands of a plan: each move names its container and its workspace, each launch
/// goes to its workspace first, and the workspace that had the focus comes last.
pub proof fn law_commands_carry_the_plan_out(
    moves: Seq<MoveView>,
    launches: Seq<LaunchView>,
    focus: Option<Seq<char>>,
)
    ensures
        ({
            let c = plan_commands(moves, launches, focus);
            &&& c.len() == moves.len() + launches.len() + (if focus is Some {
                1nat
            } else {
                0nat
            })
            &&& forall|i: int|
                0 <= i < moves.len() ==> #[trigger] c[i] == "[con_id="@ + decimal_int(
                    moves[i].con_id as int,
                ) + "] move to workspace "@ + sway_quoted(moves[i].target_workspace)
            &&& forall|i: int|
                0 <= i < launches.len() ==> #[trigger] c[moves.len() + i] == "workspace "@
                    + sway_quoted(launches[i].target_workspace) + "; exec "@ + shell_quoted_words(
                    launches[i].cmdline,
                )
            &&& focus is Some ==> c.last() == "workspace "@ + sway_quoted(focus->0)
        }),
{
}

/// What saving says: how many windows were saved, and on how many workspaces; a workspace
/// that already has a window is not counted again.
pub proof fn law_saving_counts(name: Seq<char>, windows: Seq<WindowView>, w: WindowView)
    ensures
        save_message(name, windows) == "saved "@ + name + ": "@ + decimal(windows.len())
            + " window(s) across "@ + decimal(workspace_count(windows)) + " workspace(s)"@,
        workspace_count(Seq::<WindowView>::empty()) == 0,
        (exists|i: int| 0 <= i < windows.len() && (#[trigger] windows[i]).workspace == w.workspace)
            ==> workspace_count(windows.push(w)) == workspace_count(windows),
        (forall|i: int| 0 <= i < windows.len() ==> (#[trigger] windows[i]).workspace != w.workspace)
            ==> workspace_count(windows.push(w)) == workspace_count(windows) + 1,
{
    let f = |w: WindowView| w.workspace;
    let e = Seq::<WindowView>::empty();
    assert(e.map_values(f).to_set() =~= Set::empty());
    let a = windows.map_values(f);
    let b = windows.push(w).map_values(f);
    assert(b =~= a.push(w.workspace));
    vstd::seq_lib::seq_to_set_is_finite(a);
    assert(b.to_set() =~= a.to_set().insert(w.workspace)) by {
        assert(b[a.len() as int] == w.workspace);
        assert forall|x| a.contains(x) implies #[trigger] b.contains(x) by {
            let m = choose|m: int| 0 <= m < a.len() && a[m] == x;
            assert(b[m] == x);
        }
    }
    if exists|i: int| 0 <= i < windows.len() && (#[trigger] windows[i]).workspace == w.workspace {
        let i = choose|i: int|
            0 <= i < windows.len() && (#[trigger] windows[i]).workspace == w.workspace;
        assert(a[i] == w.workspace);
        assert(a.to_set().insert(w.workspace) =~= a.to_set());
    }
    if forall|i: int| 0 <= i < windows.len() ==> (#[trigger] windows[i]).workspace != w.workspace {
        assert(!a.contains(w.workspace));
    }
}

/// Snapshots are kept below the directory for state, else below the home directory, else
/// below the one for temporary files.
pub proof fn law_where_snapshots_are(state: Seq<char>, home: Option<Seq<char>>)
    requires
        state.len() > 0,
        state.last() != '/',
    ensures
        contexts_dir(Some(state), home) == state + "/levshell/contexts"@,
        contexts_dir(None, Some(state)) == state + "/.local/state/levshell/contexts"@,
        contexts_dir(None, None) == "/tmp/levshell/contexts"@,
{
    reveal_strlit("levshell/contexts");
    reveal_strlit("/levshell/contexts");
    reveal_strlit(".local/state");
    reveal_strlit("/.local/state/levshell/contexts");
    reveal_strlit("/tmp");
    reveal_strlit("/tmp/levshell/contexts");
    assert(contexts_dir(Some(state), home) =~= state + "/levshell/contexts"@);
    assert(contexts_dir(None, Some(state)) =~= state + "/.local/state/levshell/contexts"@);
    assert(contexts_dir(None, None) =~= "/tmp/levshell/contexts"@);
}

} // verus!
