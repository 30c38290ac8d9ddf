//! Planning a restore.
//!
//! Each saved window takes one unused live window of the same application: the
//! first with the same title, else the first on the saved workspace, else the
//! first of all. A window taken once is not taken again, so two windows never
//! claim the same live one.

use vstd::prelude::*;

use super::capture::{window_from_node_for_restore, Found, Node, NodeKind, SCRATCHPAD_WORKSPACE};
use super::capture::{describes, own_window, windows_of, windows_of_all};
use super::model::{ContextSnapshot, WindowSnapshot, WindowView};
use crate::seqs::{first_where, lemma_first_where_is, lemma_first_where, lemma_first_where_none};
use crate::text;

verus! {

/// A live window that must move to another workspace.
#[derive(Debug, Clone, PartialEq, Eq)]
pub struct MoveAction {
    pub con_id: i64,
    pub target_workspace: String,
    pub identity: String,
}

/// A saved window that is gone and is launched again.
#[derive(Debug, Clone, PartialEq, Eq)]
pub struct LaunchAction {
    pub cmdline: Vec<String>,
    pub target_workspace: String,
    pub identity: String,
}

/// What a restore has to do.
#[derive(Debug, Clone, PartialEq, Eq)]
pub struct RestorePlan {
    pub moves: Vec<MoveAction>,
    pub launches: Vec<LaunchAction>,
    /// The number of saved windows with neither a live match nor a command line.
    pub skipped_unrestorable: u32,
    /// The workspace to focus at the end.
    pub focused_workspace: Option<String>,
}

/// A window that is on the desktop now.
#[derive(Debug, Clone, PartialEq, Eq)]
pub struct LiveWindow {
    pub con_id: i64,
    pub workspace: String,
    pub app_id: String,
    pub title: String,
}

/// The contents of a [`MoveAction`].
pub struct MoveView {
    pub con_id: i64,
    pub target_workspace: Seq<char>,
    pub identity: Seq<char>,
}

/// The contents of a [`LaunchAction`].
pub struct LaunchView {
    pub cmdline: Seq<Seq<char>>,
    pub target_workspace: Seq<char>,
    pub identity: Seq<char>,
}

/// The contents of a [`LiveWindow`].
pub struct LiveView {
    pub con_id: i64,
    pub workspace: Seq<char>,
    pub app_id: Seq<char>,
    pub title: Seq<char>,
}

impl DeepView for MoveAction {
    type V = MoveView;

    open spec fn deep_view(&self) -> MoveView {
        MoveView {
            con_id: self.con_id,
            target_workspace: self.target_workspace@,
            identity: self.identity@,
        }
    }
}

impl DeepView for LaunchAction {
    type V = LaunchView;

    open spec fn deep_view(&self) -> LaunchView {
        LaunchView {
            cmdline: self.cmdline.deep_view(),
            target_workspace: self.target_workspace@,
            identity: self.identity@,
        }
    }
}

impl DeepView for LiveWindow {
    type V = LiveView;

    open spec fn deep_view(&self) -> LiveView {
        LiveView {
            con_id: self.con_id,
            workspace: self.workspace@,
            app_id: self.app_id@,
            title: self.title@,
        }
    }
}

// ---------------------------------------------------------------------------
// Live windows
// ---------------------------------------------------------------------------

/// The live window that a found window is.
pub open spec fn live_of(f: Found) -> LiveView {
    LiveView { con_id: f.con_id, workspace: f.workspace, app_id: f.app_id, title: f.title }
}

/// The live windows of a tree, in the order of the capture.
pub open spec fn live_windows(tree: Node) -> Seq<LiveView> {
    windows_of(tree, None).map_values(|f: Found| live_of(f))
}

/// Lists the windows of a tree.
pub fn flatten_live_windows(tree: &Node) -> (r: Vec<LiveWindow>)
    ensures
        r.deep_view() == live_windows(*tree),
{
    let mut out: Vec<LiveWindow> = Vec::new();
    let none: Option<String> = None;
    walk(tree, &none, &mut out);
    assert(out.deep_view() =~= live_windows(*tree));
    out
}

fn walk(node: &Node, workspace: &Option<String>, out: &mut Vec<LiveWindow>)
    ensures
        final(out).deep_view() == old(out).deep_view() + windows_of(
            *node,
            workspace.deep_view(),
        ).map_values(|f: Found| live_of(f)),
    decreases node,
{
    let ghost ws = workspace.deep_view();
    let ghost before = out.deep_view();
    let mut below: Option<String> = text::clone_opt(workspace);
    if node.kind == NodeKind::Workspace {
        let name: String = match &node.name {
            Some(n) => n.clone(),
            None => String::new(),
        };
        if text::same(&name, SCRATCHPAD_WORKSPACE) {
            assert(out.deep_view() =~= before + windows_of(*node, ws).map_values(
                |f: Found| live_of(f),
            ));
            return;
        }
        below = Some(name);
    } else {
        match workspace {
            Some(w) => {
                match window_from_node_for_restore(node) {
                    Some((app_id, title)) => {
                        out.push(
                            LiveWindow { con_id: node.id, workspace: w.clone(), app_id, title },
                        );
                    },
                    None => {},
                }
            },
            None => {},
        }
    }
    proof {
        assert(out.deep_view() =~= before + own_window(*node, ws).map_values(
            |f: Found| live_of(f),
        ));
    }
    walk_all(&node.nodes, &below, out);
    walk_all(&node.floating_nodes, &below, out);
    proof {
        assert(out.deep_view() =~= before + windows_of(*node, ws).map_values(
            |f: Found| live_of(f),
        ));
    }
}

fn walk_all(nodes: &Vec<Node>, workspace: &Option<String>, out: &mut Vec<LiveWindow>)
    ensures
        final(out).deep_view() == old(out).deep_view() + windows_of_all(
            nodes@,
            workspace.deep_view(),
        ).map_values(|f: Found| live_of(f)),
    decreases nodes,
{
    let ghost ws = workspace.deep_view();
    let ghost before = out.deep_view();
    let ghost g = |f: Found| live_of(f);
    let mut i: usize = 0;
    assert(out.deep_view() =~= before + windows_of_all(nodes@.take(0), ws).map_values(g));
    while i < nodes.len()
        invariant
            i <= nodes@.len(),
            ws == workspace.deep_view(),
            g == (|f: Found| live_of(f)),
            out.deep_view() == before + windows_of_all(nodes@.take(i as int), ws).map_values(g),
        decreases nodes@.len() - i,
    {
        let ghost mid = out.deep_view();
        proof {
            assert(nodes@.take(i + 1).drop_last() =~= nodes@.take(i as int));
            assert(nodes@.take(i + 1).last() == nodes@[i as int]);
        }
        walk(&nodes[i], workspace, out);
        proof {
            assert(windows_of_all(nodes@.take(i + 1), ws).map_values(g) =~= windows_of_all(
                nodes@.take(i as int),
                ws,
            ).map_values(g) + windows_of(nodes@[i as int], ws).map_values(g));
            assert(out.deep_view() =~= before + windows_of_all(
                nodes@.take(i + 1),
                ws,
            ).map_values(g));
        }
        i += 1;
    }
    assert(nodes@.take(i as int) =~= nodes@);
}

// ---------------------------------------------------------------------------
// Matching
// ---------------------------------------------------------------------------

/// Whether a saved window may take a live one.
pub open spec fn candidate(saved: WindowView, used: Seq<i64>, w: LiveView) -> bool {
    !used.contains(w.con_id) && w.app_id == saved.app_id
}

/// The live window that a saved window takes.
pub open spec fn best_match(saved: WindowView, live: Seq<LiveView>, used: Seq<i64>) -> Option<int> {
    let same_title = first_where(
        live,
        |w: LiveView| candidate(saved, used, w) && w.title == saved.title,
    );
    let same_workspace = first_where(
        live,
        |w: LiveView| candidate(saved, used, w) && w.workspace == saved.workspace,
    );
    let any = first_where(live, |w: LiveView| candidate(saved, used, w));
    if same_title is Some {
        same_title
    } else if same_workspace is Some {
        same_workspace
    } else {
        any
    }
}

/// The state of the planner after some of the saved windows.
#[verifier::ext_equal]
pub struct PlanView {
    pub moves: Seq<MoveView>,
    pub launches: Seq<LaunchView>,
    pub skipped: nat,
    pub used: Seq<i64>,
}

/// What one more saved window adds to the plan.
pub open spec fn plan_step(p: PlanView, saved: WindowView, live: Seq<LiveView>) -> PlanView {
    match best_match(saved, live, p.used) {
        Some(i) => PlanView {
            moves: if live[i].workspace == saved.workspace {
                p.moves
            } else {
                p.moves.push(
                    MoveView {
                        con_id: live[i].con_id,
                        target_workspace: saved.workspace,
                        identity: saved.identity(),
                    },
                )
            },
            used: p.used.push(live[i].con_id),
            ..p
        },
        None => if saved.cmdline is Some && saved.cmdline->0.len() > 0 {
            PlanView {
                launches: p.launches.push(
                    LaunchView {
                        cmdline: saved.cmdline->0,
                        target_workspace: saved.workspace,
                        identity: saved.identity(),
                    },
                ),
                ..p
            }
        } else {
            PlanView { skipped: p.skipped + 1, ..p }
        },
    }
}

/// The plan for a list of saved windows, taken in order.
pub open spec fn plan(saved: Seq<WindowView>, live: Seq<LiveView>) -> PlanView
    decreases saved.len(),
{
    if saved.len() == 0 {
        PlanView { moves: Seq::empty(), launches: Seq::empty(), skipped: 0, used: Seq::empty() }
    } else {
        plan_step(plan(saved.drop_last(), live), saved.last(), live)
    }
}

/// Whether an id is in a list.
fn has_id(ids: &Vec<i64>, id: i64) -> (r: bool)
    ensures
        r == ids@.contains(id),
{
    let mut i: usize = 0;
    while i < ids.len()
        invariant
            i <= ids@.len(),
            forall|k: int| 0 <= k < i ==> ids@[k] != id,
        decreases ids@.len() - i,
    {
        if ids[i] == id {
            return true;
        }
        i += 1;
    }
    false
}

/// The index of the live window that a saved window takes, if there is one.
fn find_best_match(saved: &WindowSnapshot, live: &[LiveWindow], used: &Vec<i64>) -> (r: Option<
    usize,
>)
    ensures
        r is Some <==> best_match(saved.deep_view(), live.deep_view(), used@) is Some,
        r is Some ==> r->0 < live@.len() && r->0 as int == best_match(
            saved.deep_view(),
            live.deep_view(),
            used@,
        )->0,
{
    let ghost sv = saved.deep_view();
    let ghost lv = live.deep_view();
    let ghost p_title = |w: LiveView| candidate(sv, used@, w) && w.title == sv.title;
    let ghost p_ws = |w: LiveView| candidate(sv, used@, w) && w.workspace == sv.workspace;
    let ghost p_any = |w: LiveView| candidate(sv, used@, w);
    let mut same_ws: Option<usize> = None;
    let mut any: Option<usize> = None;
    let mut i: usize = 0;
    while i < live.len()
        invariant
            i <= live@.len(),
            sv == saved.deep_view(),
            lv == live.deep_view(),
            p_title == (|w: LiveView| candidate(sv, used@, w) && w.title == sv.title),
            p_ws == (|w: LiveView| candidate(sv, used@, w) && w.workspace == sv.workspace),
            p_any == (|w: LiveView| candidate(sv, used@, w)),
            forall|k: int| 0 <= k < i ==> !p_title(#[trigger] lv[k]),
            same_ws is Some ==> same_ws->0 < i && p_ws(lv[same_ws->0 as int]) && forall|k: int|
                0 <= k < same_ws->0 ==> !p_ws(#[trigger] lv[k]),
            same_ws is None ==> forall|k: int| 0 <= k < i ==> !p_ws(#[trigger] lv[k]),
            any is Some ==> any->0 < i && p_any(lv[any->0 as int]) && forall|k: int|
                0 <= k < any->0 ==> !p_any(#[trigger] lv[k]),
            any is None ==> forall|k: int| 0 <= k < i ==> !p_any(#[trigger] lv[k]),
        decreases live@.len() - i,
    {
        let w = &live[i];
        assert(lv[i as int] == w.deep_view());
        if !has_id(used, w.con_id) && text::same(&w.app_id, &saved.app_id) {
            if text::same(&w.title, &saved.title) {
                proof {
                    lemma_first_where_is(lv, p_title, i as int);
                }
                return Some(i);
            }
            if same_ws.is_none() && text::same(&w.workspace, &saved.workspace) {
                same_ws = Some(i);
            }
            if any.is_none() {
                any = Some(i);
            }
        }
        i += 1;
    }
    proof {
        lemma_first_where_none(lv, p_title);
        if same_ws is Some {
            lemma_first_where_is(lv, p_ws, same_ws->0 as int);
        } else {
            lemma_first_where_none(lv, p_ws);
        }
        if any is Some {
            lemma_first_where_is(lv, p_any, any->0 as int);
        } else {
            lemma_first_where_none(lv, p_any);
        }
    }
    if same_ws.is_some() {
        same_ws
    } else {
        any
    }
}

/// Plans a restore of `snapshot` onto the live windows.
pub fn plan_restore(snapshot: &ContextSnapshot, live: &[LiveWindow]) -> (r: RestorePlan)
    ensures
        r.moves.deep_view() == plan(snapshot.windows.deep_view(), live.deep_view()).moves,
        r.launches.deep_view() == plan(snapshot.windows.deep_view(), live.deep_view()).launches,
        r.skipped_unrestorable as nat == (if plan(
            snapshot.windows.deep_view(),
            live.deep_view(),
        ).skipped <= u32::MAX {
            plan(snapshot.windows.deep_view(), live.deep_view()).skipped
        } else {
            u32::MAX as nat
        }),
        r.focused_workspace == snapshot.focused_workspace,
{
    let mut moves: Vec<MoveAction> = Vec::new();
    let mut launches: Vec<LaunchAction> = Vec::new();
    let mut skipped: u32 = 0;
    let mut used: Vec<i64> = Vec::new();
    let ghost sv = snapshot.windows.deep_view();
    let ghost lv = live.deep_view();
    let mut n: usize = 0;
    proof {
        assert(sv.take(0) =~= Seq::empty());
        assert(moves.deep_view() =~= Seq::empty());
        assert(launches.deep_view() =~= Seq::empty());
    }
    while n < snapshot.windows.len()
        invariant
            n <= snapshot.windows@.len(),
            sv == snapshot.windows.deep_view(),
            lv == live.deep_view(),
            moves.deep_view() == plan(sv.take(n as int), lv).moves,
            launches.deep_view() == plan(sv.take(n as int), lv).launches,
            used@ == plan(sv.take(n as int), lv).used,
            skipped as nat == (if plan(sv.take(n as int), lv).skipped <= u32::MAX {
                plan(sv.take(n as int), lv).skipped
            } else {
                u32::MAX as nat
            }),
        decreases snapshot.windows@.len() - n,
    {
        let saved = &snapshot.windows[n];
        let ghost p0 = plan(sv.take(n as int), lv);
        proof {
            assert(sv.take(n + 1).drop_last() =~= sv.take(n as int));
            assert(sv.take(n + 1).last() == saved.deep_view());
            lemma_best_match_bounds(saved.deep_view(), lv, used@);
        }
        match find_best_match(saved, live, &used) {
            Some(i) => {
                used.push(live[i].con_id);
                assert(lv[i as int] == live@[i as int].deep_view());
                if !text::same(&live[i].workspace, &saved.workspace) {
                    moves.push(
                        MoveAction {
                            con_id: live[i].con_id,
                            target_workspace: saved.workspace.clone(),
                            identity: saved.identity(),
                        },
                    );
                    assert(moves.deep_view() =~= p0.moves.push(moves@.last().deep_view()));
                }
            },
            None => {
                match &saved.cmdline {
                    Some(cmdline) if cmdline.len() > 0 => {
                        launches.push(
                            LaunchAction {
                                cmdline: text::clone_strings(cmdline),
                                target_workspace: saved.workspace.clone(),
                                identity: saved.identity(),
                            },
                        );
                        proof {
                            assert(launches@.last().cmdline.deep_view() =~= cmdline.deep_view());
                            assert(launches.deep_view() =~= p0.launches.push(
                                launches@.last().deep_view(),
                            ));
                        }
                    },
                    _ => {
                        if skipped < u32::MAX {
                            skipped = skipped + 1;
                        }
                    },
                }
            },
        }
        n += 1;
    }
    assert(sv.take(n as int) =~= sv);
    RestorePlan {
        moves,
        launches,
        skipped_unrestorable: skipped,
        focused_workspace: text::clone_opt(&snapshot.focused_workspace),
    }
}

/// A match is an unused live window of the saved application.
proof fn lemma_best_match_bounds(saved: WindowView, live: Seq<LiveView>, used: Seq<i64>)
    ensures
        best_match(saved, live, used) is Some ==> {
            let i = best_match(saved, live, used)->0;
            0 <= i < live.len() && candidate(saved, used, live[i])
        },
        best_match(saved, live, used) is None ==> forall|k: int|
            0 <= k < live.len() ==> !candidate(saved, used, #[trigger] live[k]),
{
    lemma_first_where(live, |w: LiveView| candidate(saved, used, w) && w.title == saved.title);
    lemma_first_where(
        live,
        |w: LiveView| candidate(saved, used, w) && w.workspace == saved.workspace,
    );
    let any = |w: LiveView| candidate(saved, used, w);
    lemma_first_where(live, any);
    if best_match(saved, live, used) is None {
        assert forall|k: int| 0 <= k < live.len() implies !candidate(
            saved,
            used,
            #[trigger] live[k],
        ) by {
            assert(!any(live[k]));
        }
    }
}

// ---------------------------------------------------------------------------
// Laws
// ---------------------------------------------------------------------------

/// No live window is taken twice, and so none is moved twice.
pub proof fn law_one_to_one(saved: Seq<WindowView>, live: Seq<LiveView>)
    ensures
        plan(saved, live).used.no_duplicates(),
        forall|i: int, j: int|
            0 <= i < j < plan(saved, live).moves.len() ==> (#[trigger] plan(saved, live).moves[i]).con_id
                != (#[trigger] plan(saved, live).moves[j]).con_id,
        forall|i: int|
            0 <= i < plan(saved, live).moves.len() ==> plan(saved, live).used.contains(
                (#[trigger] plan(saved, live).moves[i]).con_id,
            ),
    decreases saved.len(),
{
    if saved.len() > 0 {
        let p = plan(saved.drop_last(), live);
        let q = plan(saved, live);
        law_one_to_one(saved.drop_last(), live);
        lemma_best_match_bounds(saved.last(), live, p.used);
        if best_match(saved.last(), live, p.used) is Some {
            let k = best_match(saved.last(), live, p.used)->0;
            assert(q.used == p.used.push(live[k].con_id));
            assert forall|i: int| 0 <= i < q.moves.len() implies q.used.contains(
                (#[trigger] q.moves[i]).con_id,
            ) by {
                if i < p.moves.len() {
                    let m = choose|m: int| 0 <= m < p.used.len() && p.used[m] == p.moves[i].con_id;
                    assert(q.used[m] == q.moves[i].con_id);
                } else {
                    assert(q.used[p.used.len() as int] == q.moves[i].con_id);
                }
            }
        }
    }
}

/// A live window only moves for a saved window of the same application, to the
/// workspace that was saved.
pub proof fn law_moves_match_application(saved: Seq<WindowView>, live: Seq<LiveView>, m: int)
    requires
        0 <= m < plan(saved, live).moves.len(),
    ensures
        exists|s: int, l: int|
            0 <= s < saved.len() && 0 <= l < live.len() && (#[trigger] saved[s]).app_id == (
            #[trigger] live[l]).app_id && plan(saved, live).moves[m].con_id == live[l].con_id
                && plan(saved, live).moves[m].target_workspace == saved[s].workspace
                && live[l].workspace != saved[s].workspace,
    decreases saved.len(),
{
    if saved.len() > 0 {
        let p = plan(saved.drop_last(), live);
        if m < p.moves.len() {
            law_moves_match_application(saved.drop_last(), live, m);
            let (s, l) = choose|s: int, l: int|
                0 <= s < saved.drop_last().len() && 0 <= l < live.len() && (
                #[trigger] saved.drop_last()[s]).app_id == (#[trigger] live[l]).app_id
                    && p.moves[m].con_id == live[l].con_id && p.moves[m].target_workspace
                    == saved.drop_last()[s].workspace && live[l].workspace
                    != saved.drop_last()[s].workspace;
            assert(saved[s] == saved.drop_last()[s]);
            assert(plan(saved, live).moves[m] == p.moves[m]);
        } else {
            lemma_best_match_bounds(saved.last(), live, p.used);
            let l = best_match(saved.last(), live, p.used)->0;
            assert(saved[saved.len() - 1].app_id == live[l].app_id);
        }
    }
}

/// Every saved window is accounted for: it takes a live window, is launched, or
/// is counted as skipped.
pub proof fn law_every_window_accounted_for(saved: Seq<WindowView>, live: Seq<LiveView>)
    ensures
        plan(saved, live).used.len() + plan(saved, live).launches.len() + plan(saved, live).skipped
            == saved.len(),
        plan(saved, live).moves.len() <= plan(saved, live).used.len(),
    decreases saved.len(),
{
    if saved.len() > 0 {
        law_every_window_accounted_for(saved.drop_last(), live);
    }
}

/// The window that a capture of a tree records for a found window, with some
/// command line.
pub open spec fn saved_as(w: WindowView, l: LiveView) -> bool {
    w.workspace == l.workspace && w.app_id == l.app_id && w.title == l.title
}

/// Restoring onto an unchanged desktop does nothing: no window moves, none is
/// launched, none is skipped.
pub proof fn law_unchanged_desktop_is_left_alone(saved: Seq<WindowView>, live: Seq<LiveView>)
    requires
        saved.len() == live.len(),
        forall|i: int| 0 <= i < live.len() ==> saved_as(#[trigger] saved[i], live[i]),
        forall|i: int, j: int|
            0 <= i < j < live.len() ==> (#[trigger] live[i]).con_id != (#[trigger] live[j]).con_id,
    ensures
        plan(saved, live).moves.len() == 0,
        plan(saved, live).launches.len() == 0,
        plan(saved, live).skipped == 0,
{
    lemma_unchanged_prefix(saved, live, saved.len() as int);
    assert(saved.take(saved.len() as int) =~= saved);
}

/// A capture of a tree, restored onto the same tree, changes nothing.
pub proof fn law_restore_undoes_nothing_after_capture(tree: Node, saved: Seq<WindowView>)
    requires
        saved.len() == windows_of(tree, None).len(),
        forall|i: int|
            0 <= i < saved.len() ==> describes(#[trigger] saved[i], windows_of(tree, None)[i]),
        forall|i: int, j: int|
            0 <= i < j < windows_of(tree, None).len() ==> (#[trigger] windows_of(
                tree,
                None,
            )[i]).con_id != (#[trigger] windows_of(tree, None)[j]).con_id,
    ensures
        plan(saved, live_windows(tree)).moves.len() == 0,
        plan(saved, live_windows(tree)).launches.len() == 0,
        plan(saved, live_windows(tree)).skipped == 0,
{
    let live = live_windows(tree);
    assert forall|i: int| 0 <= i < live.len() implies saved_as(#[trigger] saved[i], live[i]) by {
        assert(describes(saved[i], windows_of(tree, None)[i]));
    }
    law_unchanged_desktop_is_left_alone(saved, live);
}

proof fn lemma_unchanged_prefix(saved: Seq<WindowView>, live: Seq<LiveView>, n: int)
    requires
        saved.len() == live.len(),
        0 <= n <= live.len(),
        forall|i: int| 0 <= i < live.len() ==> saved_as(#[trigger] saved[i], live[i]),
        forall|i: int, j: int|
            0 <= i < j < live.len() ==> (#[trigger] live[i]).con_id != (#[trigger] live[j]).con_id,
    ensures
        plan(saved.take(n), live).moves.len() == 0,
        plan(saved.take(n), live).launches.len() == 0,
        plan(saved.take(n), live).skipped == 0,
        plan(saved.take(n), live).used == Seq::new(n as nat, |i: int| live[i].con_id),
    decreases n,
{
    let used = Seq::new(n as nat, |i: int| live[i].con_id);
    if n == 0 {
        assert(used =~= Seq::empty());
    } else {
        lemma_unchanged_prefix(saved, live, n - 1);
        let before = plan(saved.take(n - 1), live);
        let w = saved[n - 1];
        assert(saved.take(n).drop_last() =~= saved.take(n - 1));
        assert(saved.take(n).last() == w);
        assert(saved_as(saved[n - 1], live[n - 1]));
        let p = |x: LiveView| candidate(w, before.used, x) && x.title == w.title;
        assert(!before.used.contains(live[n - 1].con_id)) by {
            if before.used.contains(live[n - 1].con_id) {
                let k = choose|k: int|
                    0 <= k < before.used.len() && before.used[k] == live[n - 1].con_id;
                assert(live[k].con_id == live[n - 1].con_id);
            }
        }
        assert forall|k: int| 0 <= k < n - 1 implies !p(#[trigger] live[k]) by {
            assert(before.used[k] == live[k].con_id);
        }
        lemma_first_where_is(live, p, n - 1);
        assert(best_match(w, live, before.used) == Some(n - 1));
        assert(used =~= before.used.push(live[n - 1].con_id));
    }
}

/// What one more saved window comes to. Where an unused live window of its application
/// is left, it takes one: the first with its title, else the first on its workspace,
/// else the first of all. That window moves where it stands elsewhere, and nothing is
/// launched or skipped. Only where none is left is the saved window launched, or
/// skipped where its command line is not known.
pub proof fn law_a_window_left_is_taken(saved: Seq<WindowView>, w: WindowView, live: Seq<LiveView>)
    ensures
        ({
            let p = plan(saved, live);
            let q = plan(saved.push(w), live);
            if exists|k: int|
                0 <= k < live.len() && (#[trigger] live[k]).app_id == w.app_id && !p.used.contains(
                    live[k].con_id,
                ) {
                &&& q.launches == p.launches
                &&& q.skipped == p.skipped
                &&& exists|l: int|
                    {
                        &&& 0 <= l < live.len()
                        &&& (#[trigger] live[l]).app_id == w.app_id
                        &&& !p.used.contains(live[l].con_id)
                        &&& q.used == p.used.push(live[l].con_id)
                        &&& live[l].workspace == w.workspace ==> q.moves == p.moves
                        &&& live[l].workspace != w.workspace ==> q.moves == p.moves.push(
                            MoveView {
                                con_id: live[l].con_id,
                                target_workspace: w.workspace,
                                identity: if w.title.len() == 0 {
                                    w.app_id
                                } else {
                                    w.app_id + " — "@ + w.title
                                },
                            },
                        )
                        &&& forall|k: int|
                            0 <= k < live.len() && (#[trigger] live[k]).app_id == w.app_id
                                && !p.used.contains(live[k].con_id) ==> {
                                &&& live[k].title == w.title ==> live[l].title == w.title && l <= k
                                &&& live[k].workspace == w.workspace ==> live[l].title == w.title || (
                                live[l].workspace == w.workspace && l <= k)
                                &&& live[l].title == w.title || live[l].workspace == w.workspace || l
                                    <= k
                            }
                    }
            } else {
                &&& q.used == p.used
                &&& q.moves == p.moves
                &&& if w.cmdline is Some && w.cmdline->0.len() > 0 {
                    &&& q.skipped == p.skipped
                    &&& q.launches == p.launches.push(
                        LaunchView {
                            cmdline: w.cmdline->0,
                            target_workspace: w.workspace,
                            identity: if w.title.len() == 0 {
                                w.app_id
                            } else {
                                w.app_id + " — "@ + w.title
                            },
                        },
                    )
                } else {
                    &&& q.skipped == p.skipped + 1
                    &&& q.launches == p.launches
                }
            }
        }),
        plan(Seq::empty(), live).moves.len() == 0,
        plan(Seq::empty(), live).launches.len() == 0,
        plan(Seq::empty(), live).skipped == 0,
        plan(Seq::empty(), live).used.len() == 0,
{
    let p = plan(saved, live);
    let q = plan(saved.push(w), live);
    assert(saved.push(w).drop_last() =~= saved);
    assert(q == plan_step(p, w, live));
    let titled = |x: LiveView| candidate(w, p.used, x) && x.title == w.title;
    let placed = |x: LiveView| candidate(w, p.used, x) && x.workspace == w.workspace;
    let any = |x: LiveView| candidate(w, p.used, x);
    lemma_first_where(live, titled);
    lemma_first_where(live, placed);
    lemma_first_where(live, any);
    lemma_best_match_bounds(w, live, p.used);
    match best_match(w, live, p.used) {
        Some(l) => {
            assert(candidate(w, p.used, live[l]));
            assert forall|k: int|
                0 <= k < live.len() && (#[trigger] live[k]).app_id == w.app_id && !p.used.contains(
                    live[k].con_id,
                ) implies {
                &&& live[k].title == w.title ==> live[l].title == w.title && l <= k
                &&& live[k].workspace == w.workspace ==> live[l].title == w.title || (
                live[l].workspace == w.workspace && l <= k)
                &&& live[l].title == w.title || live[l].workspace == w.workspace || l <= k
            } by {
                assert(any(live[k]));
                if live[k].title == w.title {
                    assert(titled(live[k]));
                }
                if live[k].workspace == w.workspace {
                    assert(placed(live[k]));
                }
            }
        },
        None => {
            assert forall|k: int|
                0 <= k < live.len() && (#[trigger] live[k]).app_id == w.app_id implies p.used.contains(
                live[k].con_id,
            ) by {
                assert(!candidate(w, p.used, live[k]));
            }
        },
    }
}

/// How many live windows of an application are not among some others.
spec fn left(live: Seq<LiveView>, app: Seq<char>, used: Seq<i64>) -> nat
    decreases live.len(),
{
    if live.len() == 0 {
        0
    } else {
        left(live.drop_last(), app, used) + (if live.last().app_id == app && !used.contains(
            live.last().con_id,
        ) {
            1nat
        } else {
            0nat
        })
    }
}

/// How many windows of an application some ids stand for.
pub open spec fn taken(live: Seq<LiveView>, app: Seq<char>, used: Seq<i64>) -> nat
    decreases used.len(),
{
    if used.len() == 0 {
        0
    } else {
        taken(live, app, used.drop_last()) + (if exists|k: int|
            0 <= k < live.len() && (#[trigger] live[k]).app_id == app && live[k].con_id
                == used.last() {
            1nat
        } else {
            0nat
        })
    }
}

proof fn lemma_left_of_none(live: Seq<LiveView>, app: Seq<char>)
    ensures
        left(live, app, Seq::empty()) == live.filter(|x: LiveView| x.app_id == app).len(),
    decreases live.len(),
{
    reveal(Seq::filter);
    if live.len() > 0 {
        lemma_left_of_none(live.drop_last(), app);
    }
}

proof fn lemma_left_after(live: Seq<LiveView>, app: Seq<char>, used: Seq<i64>, l: int)
    requires
        forall|i: int, j: int|
            0 <= i < j < live.len() ==> (#[trigger] live[i]).con_id != (#[trigger] live[j]).con_id,
        -1 <= l < live.len(),
        l >= 0 ==> !used.contains(live[l].con_id),
    ensures
        l >= 0 ==> left(live, app, used.push(live[l].con_id)) == left(live, app, used) - (
        if live[l].app_id == app {
            1int
        } else {
            0int
        }),
    decreases live.len(),
{
    if l >= 0 {
        let id = live[l].con_id;
        let more = used.push(id);
        let front = live.drop_last();
        let last = live.last();
        assert forall|x: i64| more.contains(x) <==> used.contains(x) || x == id by {
            if used.contains(x) {
                let k = choose|k: int| 0 <= k < used.len() && used[k] == x;
                assert(more[k] == x);
            }
            assert(more[used.len() as int] == id);
        }
        if l == live.len() - 1 {
            lemma_left_without(front, app, used, id);
        } else {
            assert(front[l] == live[l]);
            lemma_left_after(front, app, used, l);
            assert(last.con_id != id);
        }
    }
}

proof fn lemma_left_without(live: Seq<LiveView>, app: Seq<char>, used: Seq<i64>, id: i64)
    requires
        forall|i: int| 0 <= i < live.len() ==> (#[trigger] live[i]).con_id != id,
    ensures
        left(live, app, used.push(id)) == left(live, app, used),
    decreases live.len(),
{
    if live.len() > 0 {
        let front = live.drop_last();
        assert forall|i: int| 0 <= i < front.len() implies (#[trigger] front[i]).con_id != id by {
            assert(front[i] == live[i]);
        }
        lemma_left_without(front, app, used, id);
        let x = live[live.len() - 1].con_id;
        if used.contains(x) {
            let k = choose|k: int| 0 <= k < used.len() && used[k] == x;
            assert(used.push(id)[k] == x);
        }
        if used.push(id).contains(x) {
            let k = choose|k: int| 0 <= k < used.push(id).len() && used.push(id)[k] == x;
            assert(used[k] == x);
        }
    }
}

proof fn lemma_some_left(live: Seq<LiveView>, app: Seq<char>, used: Seq<i64>)
    ensures
        left(live, app, used) > 0 <==> exists|k: int|
            0 <= k < live.len() && (#[trigger] live[k]).app_id == app && !used.contains(
                live[k].con_id,
            ),
    decreases live.len(),
{
    if live.len() > 0 {
        let front = live.drop_last();
        lemma_some_left(front, app, used);
        if left(front, app, used) > 0 {
            let k = choose|k: int|
                0 <= k < front.len() && (#[trigger] front[k]).app_id == app && !used.contains(
                    front[k].con_id,
                );
            assert(live[k].app_id == app);
        } else {
            assert(live[live.len() - 1] == live.last());
            if exists|k: int|
                0 <= k < live.len() && (#[trigger] live[k]).app_id == app && !used.contains(
                    live[k].con_id,
                ) {
                let k = choose|k: int|
                    0 <= k < live.len() && (#[trigger] live[k]).app_id == app && !used.contains(
                        live[k].con_id,
                    );
                if k < front.len() {
                    assert(front[k].app_id == app);
                }
            }
        }
    }
}

/// The live windows are used up: of each application as many are taken as were saved, or
/// as there are, whichever is less. So a window is launched or skipped only where the
/// live windows of its application have run out.
pub proof fn law_live_windows_are_used_up(
    saved: Seq<WindowView>,
    live: Seq<LiveView>,
    app: Seq<char>,
)
    requires
        forall|i: int, j: int|
            0 <= i < j < live.len() ==> (#[trigger] live[i]).con_id != (#[trigger] live[j]).con_id,
    ensures
        ({
            let wanted = saved.filter(|w: WindowView| w.app_id == app).len();
            let there = live.filter(|w: LiveView| w.app_id == app).len();
            taken(live, app, plan(saved, live).used) == (if wanted < there {
                wanted
            } else {
                there
            })
        }),
{
    lemma_used_up(saved, live, app);
}

proof fn lemma_used_up(saved: Seq<WindowView>, live: Seq<LiveView>, app: Seq<char>)
    requires
        forall|i: int, j: int|
            0 <= i < j < live.len() ==> (#[trigger] live[i]).con_id != (#[trigger] live[j]).con_id,
    ensures
        ({
            let used = plan(saved, live).used;
            let wanted = saved.filter(|w: WindowView| w.app_id == app).len();
            let there = live.filter(|w: LiveView| w.app_id == app).len();
            &&& taken(live, app, used) + left(live, app, used) == there
            &&& taken(live, app, used) <= wanted
            &&& taken(live, app, used) < wanted ==> left(live, app, used) == 0
        }),
    decreases saved.len(),
{
    reveal(Seq::filter);
    if saved.len() == 0 {
        lemma_left_of_none(live, app);
        assert(plan(saved, live).used =~= Seq::empty());
    } else {
        let front = saved.drop_last();
        let w = saved.last();
        lemma_used_up(front, live, app);
        let p = plan(front, live);
        let q = plan(saved, live);
        assert(q == plan_step(p, w, live));
        lemma_best_match_bounds(w, live, p.used);
        lemma_some_left(live, app, p.used);
        match best_match(w, live, p.used) {
            Some(l) => {
                let id = live[l].con_id;
                lemma_left_after(live, app, p.used, l);
                assert(q.used.drop_last() =~= p.used);
                assert(q.used.last() == id);
                assert((exists|k: int|
                    0 <= k < live.len() && (#[trigger] live[k]).app_id == app && live[k].con_id
                        == id) <==> live[l].app_id == app) by {
                    if live[l].app_id != app {
                        assert forall|k: int|
                            0 <= k < live.len() && (#[trigger] live[k]).con_id == id implies k == l by {}
                    }
                }
            },
            None => {
                if w.app_id == app && left(live, app, p.used) > 0 {
                    let k = choose|k: int|
                        0 <= k < live.len() && (#[trigger] live[k]).app_id == app
                            && !p.used.contains(live[k].con_id);
                    assert(candidate(w, p.used, live[k]));
                }
            },
        }
    }
}

} // verus!
