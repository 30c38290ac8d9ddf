//! Suggesting a review of due cards on entering a workspace.
//!
//! A workspace stands for a project. Where cards of the project are due, a nudge
//! suggests to review them first; a project is not suggested again until a while
//! has passed.

use vstd::prelude::*;
use vstd::string::StringExecFns;

use crate::events::{Event, EventKind, EventView};
use crate::text;
use crate::text::decimal;

verus! {

/// How long a project is not suggested again: an hour, in nanoseconds.
pub const COOLDOWN_NANOS: u64 = 3_600_000_000_000;

/// How many cards are asked for.
pub const DUE_QUERY_LIMIT: u32 = 10_000;

/// The project of a workspace and how many of its cards are due.
#[derive(Debug, Clone, PartialEq, Eq)]
pub struct DueProject {
    pub id: u128,
    pub name: String,
    pub due: usize,
}

/// When a project was last suggested, in nanoseconds of a clock that never goes
/// back.
pub open spec fn nudged_at(entries: Seq<(u128, u64)>, id: u128) -> Option<u64>
    decreases entries.len(),
{
    if entries.len() == 0 {
        None
    } else if entries.last().0 == id {
        Some(entries.last().1)
    } else {
        nudged_at(entries.drop_last(), id)
    }
}

/// Whether an entry is of another project.
pub open spec fn not_of(id: u128) -> spec_fn((u128, u64)) -> bool {
    |e: (u128, u64)| e.0 != id
}

/// The projects that were suggested, but for one.
pub open spec fn without(entries: Seq<(u128, u64)>, id: u128) -> Seq<(u128, u64)> {
    entries.filter(not_of(id))
}

/// What is noted where a project is suggested.
pub open spec fn noted(entries: Seq<(u128, u64)>, id: u128, now: u64) -> Seq<(u128, u64)> {
    without(entries, id).push((id, now))
}

/// The nanoseconds from one time to a later one; none to an earlier one.
pub open spec fn elapsed(from: u64, to: u64) -> int {
    if to < from {
        0
    } else {
        to - from
    }
}

/// Whether a project was suggested so lately that it is not suggested again.
pub open spec fn cooling(entries: Seq<(u128, u64)>, id: u128, now: u64, cooldown: u64) -> bool {
    match nudged_at(entries, id) {
        Some(prev) => elapsed(prev, now) < cooldown,
        None => false,
    }
}

/// The suggestion for a project.
pub open spec fn suggestion(id: u128, name: Seq<char>, due: usize) -> EventView {
    EventView::NudgeDelivered {
        project_id: id,
        kind: "anki_review"@,
        title: decimal(due as nat) + " "@ + (if due == 1 {
            "card"@
        } else {
            "cards"@
        }) + " due — review "@ + name + " first"@,
    }
}

/// Whether a project is suggested.
pub open spec fn suggested(
    entries: Seq<(u128, u64)>,
    project: Option<DueProject>,
    now: u64,
    cooldown: u64,
) -> bool {
    match project {
        Some(p) => p.due > 0 && !cooling(entries, p.id, now, cooldown),
        None => false,
    }
}

/// The module that suggests reviews.
pub struct AnkiReviewModule {
    /// When which project was suggested, the latest last.
    pub last_nudged: Vec<(u128, u64)>,
    pub cooldown_nanos: u64,
}

impl AnkiReviewModule {
    /// A module that has suggested nothing.
    pub fn new() -> (r: Self)
        ensures
            r.last_nudged@.len() == 0,
            r.cooldown_nanos == COOLDOWN_NANOS,
    {
        AnkiReviewModule { last_nudged: Vec::new(), cooldown_nanos: COOLDOWN_NANOS }
    }

    pub fn with_cooldown(self, nanos: u64) -> (r: Self)
        ensures
            r.last_nudged == self.last_nudged,
            r.cooldown_nanos == nanos,
    {
        AnkiReviewModule { last_nudged: self.last_nudged, cooldown_nanos: nanos }
    }

    fn last(&self, id: u128) -> (r: Option<u64>)
        ensures
            r == nudged_at(self.last_nudged@, id),
    {
        let mut n: usize = self.last_nudged.len();
        assert(self.last_nudged@.take(n as int) =~= self.last_nudged@);
        while n > 0
            invariant
                n <= self.last_nudged@.len(),
                nudged_at(self.last_nudged@, id) == nudged_at(
                    self.last_nudged@.take(n as int),
                    id,
                ),
            decreases n,
        {
            let entry = self.last_nudged[n - 1];
            if entry.0 == id {
                return Some(entry.1);
            }
            assert(self.last_nudged@.take(n as int).drop_last() =~= self.last_nudged@.take(n - 1));
            n -= 1;
        }
        None
    }

    fn note(&mut self, id: u128, now: u64)
        ensures
            final(self).cooldown_nanos == old(self).cooldown_nanos,
            final(self).last_nudged@ == noted(old(self).last_nudged@, id, now),
    {
        let ghost all = self.last_nudged@;
        let ghost p = not_of(id);
        let mut out: Vec<(u128, u64)> = Vec::new();
        let mut i: usize = 0;
        assert(all.take(0).filter(p) =~= Seq::empty()) by {
            reveal(Seq::filter);
        }
        while i < self.last_nudged.len()
            invariant
                i <= self.last_nudged@.len(),
                all == self.last_nudged@,
                all == old(self).last_nudged@,
                self.cooldown_nanos == old(self).cooldown_nanos,
                p == not_of(id),
                out@ == all.take(i as int).filter(p),
            decreases self.last_nudged@.len() - i,
        {
            proof {
                assert(all.take(i + 1) =~= all.take(i as int).push(all[i as int]));
                all.take(i as int).lemma_filter_push(all[i as int], p);
            }
            let entry = self.last_nudged[i];
            if entry.0 != id {
                out.push(entry);
            }
            i += 1;
        }
        assert(all.take(i as int) =~= all);
        out.push((id, now));
        self.last_nudged = out;
    }

    /// Takes the entry of a workspace: `project` is what it stands for, with its
    /// due cards, or nothing where it stands for none or the cards could not be
    /// read. Gives the suggestion, where there is one.
    pub fn on_workspace(&mut self, project: Option<DueProject>, now_nanos: u64) -> (r: Option<
        Event,
    >)
        ensures
            final(self).cooldown_nanos == old(self).cooldown_nanos,
            r is Some <==> suggested(
                old(self).last_nudged@,
                project,
                now_nanos,
                old(self).cooldown_nanos,
            ),
            r is Some ==> r->0.deep_view() == suggestion(
                project->0.id,
                project->0.name@,
                project->0.due,
            ) && final(self).last_nudged@ == noted(
                old(self).last_nudged@,
                project->0.id,
                now_nanos,
            ),
            r is None ==> final(self).last_nudged@ == old(self).last_nudged@,
    {
        let p = match project {
            Some(p) => p,
            None => {
                return None;
            },
        };
        if p.due == 0 {
            return None;
        }
        if let Some(prev) = self.last(p.id) {
            let since: u64 = if now_nanos < prev {
                0
            } else {
                now_nanos - prev
            };
            if since < self.cooldown_nanos {
                return None;
            }
        }
        self.note(p.id, now_nanos);
        let noun = if p.due == 1 {
            "card"
        } else {
            "cards"
        };
        let mut title = text::concat3(&text::decimal_string(p.due as u64), " ", noun);
        title.append(" due — review ");
        title.append(&p.name);
        title.append(" first");
        Some(
            Event::NudgeDelivered { project_id: p.id, kind: text::owned("anki_review"), title },
        )
    }

    /// The kinds of event that the module listens to.
    pub fn subscribed_events(&self) -> (r: Vec<EventKind>)
        ensures
            r@ == seq![EventKind::WorkspaceChanged],
    {
        let r: Vec<EventKind> = vec![EventKind::WorkspaceChanged];
        assert(r@ =~= seq![EventKind::WorkspaceChanged]);
        r
    }
}

/// A project that was just suggested is not suggested again before the while has
/// passed, however often its workspace is entered; then it is.
pub proof fn law_suggestions_keep_their_distance(
    entries: Seq<(u128, u64)>,
    p: DueProject,
    at: u64,
    later: u64,
    cooldown: u64,
)
    requires
        at <= later,
        p.due > 0,
    ensures
        suggested(noted(entries, p.id, at), Some(p), later, cooldown) <==> later - at >= cooldown,
{
    let more = noted(entries, p.id, at);
    assert(more.drop_last() =~= without(entries, p.id));
    assert(nudged_at(more, p.id) == Some(at));
}

/// Suggesting one project changes nothing for another.
pub proof fn law_projects_cool_down_alone(
    entries: Seq<(u128, u64)>,
    other: u128,
    p: DueProject,
    at: u64,
    now: u64,
    cooldown: u64,
)
    requires
        other != p.id,
    ensures
        suggested(noted(entries, other, at), Some(p), now, cooldown) == suggested(
            entries,
            Some(p),
            now,
            cooldown,
        ),
{
    assert(noted(entries, other, at).drop_last() =~= without(entries, other));
    lemma_without(entries, other, p.id);
}

proof fn lemma_without(entries: Seq<(u128, u64)>, other: u128, id: u128)
    requires
        other != id,
    ensures
        nudged_at(without(entries, other), id) == nudged_at(entries, id),
    decreases entries.len(),
{
    reveal(Seq::filter);
    if entries.len() > 0 {
        let t = entries.drop_last();
        let q = not_of(other);
        lemma_without(t, other, id);
        if q(entries.last()) {
            assert(without(entries, other) == without(t, other).push(entries.last()));
            assert(without(entries, other).drop_last() =~= without(t, other));
        }
    }
}

/// What a suggestion says: how many cards are due, one card or several, and of which
/// project.
pub proof fn law_suggestions_name_the_project(id: u128, name: Seq<char>, due: usize)
    ensures
        suggestion(id, name, due) matches EventView::NudgeDelivered { project_id, kind, title }
            && project_id == id && kind == "anki_review"@ && title == (if due == 1 {
            decimal(1) + " "@ + "card"@ + " due — review "@ + name + " first"@
        } else {
            decimal(due as nat) + " "@ + "cards"@ + " due — review "@ + name + " first"@
        }),
{
}

/// A project is suggested exactly where cards of it are due and it was not suggested yet
/// or the while has passed since the last time. `last` is the place of the last time, or
/// -1 where there was none.
pub proof fn law_due_projects_are_suggested(
    entries: Seq<(u128, u64)>,
    p: DueProject,
    now: u64,
    cooldown: u64,
    last: int,
)
    requires
        -1 <= last < entries.len(),
        last >= 0 ==> entries[last].0 == p.id,
        forall|j: int| last < j < entries.len() ==> (#[trigger] entries[j]).0 != p.id,
    ensures
        !suggested(entries, None, now, cooldown),
        suggested(entries, Some(p), now, cooldown) <==> p.due > 0 && (last == -1 || (if now
            < entries[last].1 {
            cooldown == 0
        } else {
            now - entries[last].1 >= cooldown
        })),
{
    lemma_nudged(entries, p.id, last);
}

proof fn lemma_nudged(entries: Seq<(u128, u64)>, id: u128, last: int)
    requires
        -1 <= last < entries.len(),
        last >= 0 ==> entries[last].0 == id,
        forall|j: int| last < j < entries.len() ==> (#[trigger] entries[j]).0 != id,
    ensures
        nudged_at(entries, id) == (if last == -1 {
            None
        } else {
            Some(entries[last].1)
        }),
    decreases entries.len(),
{
    if entries.len() > 0 && last < entries.len() - 1 {
        assert(entries[entries.len() - 1].0 != id);
        lemma_nudged(entries.drop_last(), id, last);
    }
}

} // verus!
