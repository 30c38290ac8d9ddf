//! Switching workspaces.

use vstd::arithmetic::power2::{lemma2_to64, lemma2_to64_rest};
use vstd::prelude::*;

use super::provider::{ItemView, PaletteItem, ProviderError};
use super::score::{clamped, near, HALF, ONE};
use crate::cuts::{lemma_find_behind, lemma_replace_nothing};
use crate::text;
use crate::text::{ascii_lower, has, replace, starts_with};

verus! {

/// The name of the provider.
pub const WORKSPACE_SWITCHER_PROVIDER: &'static str = "workspace-switcher";

/// The bit pattern of 0.85.
pub const PREFIX_SCORE: u64 = 0x3FEB_3333_3333_3333;

/// The bit pattern of 0.65.
pub const INSIDE_SCORE: u64 = 0x3FE4_CCCC_CCCC_CCCD;

/// A workspace as the compositor lists it.
#[derive(Debug, Clone, PartialEq, Eq)]
pub struct ListedWorkspace {
    pub name: String,
    pub output: String,
    pub focused: bool,
}

/// How well a workspace matches a query, if it does. The case of ASCII letters
/// does not matter.
pub open spec fn workspace_score(name: Seq<char>, query: Seq<char>) -> Option<u64> {
    let q = ascii_lower(query);
    let n = ascii_lower(name);
    if query.len() == 0 {
        Some(HALF)
    } else if n == q {
        Some(ONE)
    } else if starts_with(n, q) {
        Some(PREFIX_SCORE)
    } else if has(n, q) {
        Some(INSIDE_SCORE)
    } else {
        None
    }
}

/// The item of a workspace.
pub open spec fn workspace_item(w: ListedWorkspace, score: u64) -> ItemView {
    ItemView {
        id: w.name@,
        provider: "workspace-switcher"@,
        title: w.name@,
        subtitle: Some(
            if w.focused {
                "focused · "@ + w.output@
            } else {
                w.output@
            },
        ),
        icon: Some("workspace"@),
        icon_path: None,
        score: clamped(score),
    }
}

/// The items of the workspaces that match, in the order of the compositor.
pub open spec fn workspace_items(all: Seq<ListedWorkspace>, query: Seq<char>) -> Seq<ItemView>
    decreases all.len(),
{
    if all.len() == 0 {
        Seq::empty()
    } else {
        match workspace_score(all.last().name@, query) {
            Some(score) => workspace_items(all.drop_last(), query).push(
                workspace_item(all.last(), score),
            ),
            None => workspace_items(all.drop_last(), query),
        }
    }
}

/// The command that switches to a workspace. The name stands in single quotes.
pub open spec fn switch_command(name: Seq<char>) -> Seq<char> {
    "workspace '"@ + replace(name, "'"@, "'\\''"@) + "'"@
}

fn score_of(name: &str, query: &str) -> (r: Option<u64>)
    ensures
        r == workspace_score(name@, query@),
{
    let cs = text::chars(query);
    if cs.len() == 0 {
        return Some(HALF);
    }
    let q = text::lowered(query);
    let n = text::lowered(name);
    if text::same(&n, &q) {
        return Some(ONE);
    }
    if text::begins(&n, &q) {
        return Some(PREFIX_SCORE);
    }
    if text::contains(&n, &q) {
        return Some(INSIDE_SCORE);
    }
    None
}

/// The provider of workspaces.
#[derive(Debug, Clone, Copy, PartialEq, Eq)]
pub struct WorkspaceSwitcherProvider;

impl WorkspaceSwitcherProvider {
    pub fn new() -> (r: Self) {
        WorkspaceSwitcherProvider
    }

    /// The workspaces that match a query. `workspaces` are those that there are;
    /// where the compositor does not answer there are none.
    pub fn search(&self, query: &str, workspaces: &[ListedWorkspace]) -> (r: Vec<PaletteItem>)
        ensures
            r.deep_view() == workspace_items(workspaces@, query@),
    {
        let mut out: Vec<PaletteItem> = Vec::new();
        let mut i: usize = 0;
        assert(out.deep_view() =~= workspace_items(workspaces@.take(0), query@));
        while i < workspaces.len()
            invariant
                i <= workspaces@.len(),
                out.deep_view() == workspace_items(workspaces@.take(i as int), query@),
            decreases workspaces@.len() - i,
        {
            let ghost before = out.deep_view();
            assert(workspaces@.take(i + 1).drop_last() =~= workspaces@.take(i as int));
            let w = &workspaces[i];
            if let Some(score) = score_of(&w.name, query) {
                let subtitle = if w.focused {
                    text::concat2("focused · ", &w.output)
                } else {
                    w.output.clone()
                };
                let item = PaletteItem::new(
                    WORKSPACE_SWITCHER_PROVIDER,
                    w.name.clone(),
                    w.name.clone(),
                ).with_subtitle(subtitle).with_icon("workspace").with_score(score);
                out.push(item);
                assert(out.deep_view() =~= before.push(workspace_item(*w, score)));
            }
            i += 1;
        }
        assert(workspaces@.take(i as int) =~= workspaces@);
        out
    }

    /// The command that carries out an item.
    pub fn command(&self, item_id: &str) -> (r: String)
        ensures
            r@ == switch_command(item_id@),
    {
        proof {
            reveal_strlit("'");
        }
        let quoted = text::replaced(item_id, "'", "'\\''");
        text::concat3("workspace '", &quoted, "'")
    }

    /// What carrying out an item comes to, from what the compositor said of the
    /// command. Where it could not be reached, nothing was said, and nothing is done.
    pub fn executed(&self, said: &Option<Result<(), String>>) -> (r: Result<(), ProviderError>)
        ensures
            r is Err <==> *said matches Some(Err(_)),
            *said matches Some(Err(why)) ==> (r matches Err(ProviderError::ExecuteFailed(w)) && w@
                == "run_command failed: "@ + why@),
    {
        match said {
            Some(Err(why)) => Err(
                ProviderError::ExecuteFailed(text::concat2("run_command failed: ", why)),
            ),
            _ => Ok(()),
        }
    }
}

/// How a workspace is scored: 0.5 without a query; else, in any letter case, 1 for its
/// whole name, 0.85 for the beginning of it, 0.65 for anything else in it, and it is not
/// shown where the query is not in it.
pub proof fn law_workspace_scores(name: Seq<char>, query: Seq<char>)
    ensures
        ({
            let n = ascii_lower(name);
            let q = ascii_lower(query);
            let s = workspace_score(name, query);
            let inside = exists|i: int|
                0 <= i && i + q.len() <= n.len() && #[trigger] n.subrange(i, i + q.len()) == q;
            &&& query.len() == 0 ==> s is Some && near(s->0, 1, 2)
            &&& query.len() > 0 ==> (s is Some <==> inside)
            &&& query.len() > 0 && n == q ==> s is Some && near(s->0, 1, 1)
            &&& query.len() > 0 && n != q && n.len() >= q.len() && n.take(q.len() as int) == q
                ==> s is Some && near(s->0, 85, 100)
            &&& query.len() > 0 && inside && (n.len() < q.len() || n.take(q.len() as int) != q)
                ==> near(s->0, 65, 100)
        }),
{
    lemma2_to64();
    lemma2_to64_rest();
    let n = ascii_lower(name);
    let q = ascii_lower(query);
    assert(near(0x3FE0_0000_0000_0000, 1, 2));
    assert(near(0x3FF0_0000_0000_0000, 1, 1));
    assert(near(0x3FEB_3333_3333_3333, 85, 100));
    assert(near(0x3FE4_CCCC_CCCC_CCCD, 65, 100));
    assert(n.subrange(0, n.len() as int) =~= n);
    if n.len() >= q.len() {
        assert(n.subrange(0, q.len() as int) =~= n.take(q.len() as int));
    }
    if has(n, q) {
        let i = choose|i: int| crate::text::occurs_at(n, q, i);
        assert(n.subrange(i, i + q.len()) == q);
    }
    if exists|i: int|
        0 <= i && i + q.len() <= n.len() && #[trigger] n.subrange(i, i + q.len()) == q {
        let i = choose|i: int|
            0 <= i && i + q.len() <= n.len() && #[trigger] n.subrange(i, i + q.len()) == q;
        assert(crate::text::occurs_at(n, q, i));
    }
    if n == q {
        assert(crate::text::occurs_at(n, q, 0));
    }
}

/// Every workspace that the query is in is shown, in order, by its name, with its output
/// and whether it has the focus.
pub proof fn law_workspaces_are_shown(
    all: Seq<ListedWorkspace>,
    w: ListedWorkspace,
    query: Seq<char>,
)
    ensures
        workspace_items(Seq::empty(), query).len() == 0,
        workspace_score(w.name@, query) is None ==> workspace_items(all.push(w), query)
            == workspace_items(all, query),
        workspace_score(w.name@, query) matches Some(score) ==> workspace_items(all.push(w), query)
            == workspace_items(all, query).push(
            ItemView {
                id: w.name@,
                provider: "workspace-switcher"@,
                title: w.name@,
                subtitle: Some(
                    if w.focused {
                        "focused · "@ + w.output@
                    } else {
                        w.output@
                    },
                ),
                icon: Some("workspace"@),
                icon_path: None,
                score: clamped(score),
            },
        ),
{
    assert(all.push(w).drop_last() =~= all);
}

/// The command names the workspace in single quotes; a quote in the name is closed,
/// escaped and opened again.
pub proof fn law_switch_commands(a: Seq<char>, b: Seq<char>)
    requires
        !a.contains('\''),
    ensures
        switch_command(a) == "workspace '"@ + a + "'"@,
        switch_command(a + "'"@ + b) == "workspace '"@ + (a + "'\\''"@ + replace(b, "'"@, "'\\''"@))
            + "'"@,
{
    reveal_strlit("'");
    lemma_replace_nothing(a, "'"@, "'\\''"@);
    lemma_find_behind(a, "'"@, b);
    let s = a + "'"@ + b;
    assert(s.take(a.len() as int) =~= a);
    assert(s.skip(a.len() as int + 1) =~= b);
}

} // verus!
