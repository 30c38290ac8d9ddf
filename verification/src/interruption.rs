//! What an interruption cost: on coming back to a workspace, how long the user
//! was away from it.

use vstd::prelude::*;

use crate::events::{Event, EventKind};
use crate::text;
use crate::textmap::TextMap;

verus! {

pub const MODULE_NAME: &'static str = "interruption-cost";

pub const WIDGET_ID: &'static str = "interruption-cost";

pub const WIDGET_TYPE: &'static str = "interruption_cost";

/// Absences shorter than this are not worth a word.
pub const MIN_AWAY_SECS: u64 = 120;

/// What the widget shows.
#[derive(Debug, Clone, PartialEq, Eq)]
pub struct InterruptionState {
    /// The workspace that the user came back to.
    pub workspace: String,
    /// How long they were away.
    pub away_seconds: u64,
    /// When this was shown, in milliseconds of wall-clock time.
    pub shown_at_ms: i64,
}

/// The state that shows nothing.
pub fn empty_state() -> (r: InterruptionState)
    ensures
        r.workspace@.len() == 0,
        r.away_seconds == 0,
        r.shown_at_ms == 0,
{
    InterruptionState { workspace: String::new(), away_seconds: 0, shown_at_ms: 0 }
}

/// Which workspace the user is on, and when they left the others. Times are
/// nanoseconds on a monotonic clock.
pub struct InterruptionTracker {
    pub min_away_secs: u64,
    pub current_workspace: Option<String>,
    pub last_left_at: TextMap<u64>,
}

/// When each workspace was left, once the user goes to `new_ws` at `now`.
pub open spec fn left_after(
    current: Option<Seq<char>>,
    left: Map<Seq<char>, u64>,
    new_ws: Seq<char>,
    now: u64,
) -> Map<Seq<char>, u64> {
    match current {
        Some(prev) if prev != new_ws => left.insert(prev, now),
        _ => left,
    }
}

/// How long the user was away from the workspace they come to, in nanoseconds:
/// nothing where they were never seen to leave it, or never left.
pub open spec fn away(
    current: Option<Seq<char>>,
    left: Map<Seq<char>, u64>,
    new_ws: Seq<char>,
    now: u64,
) -> Option<int> {
    if current == Some(new_ws) || !left.dom().contains(new_ws) {
        None
    } else if now >= left[new_ws] {
        Some(now - left[new_ws])
    } else {
        Some(0)
    }
}

impl InterruptionTracker {
    pub fn new(min_away_secs: u64) -> (r: Self)
        ensures
            r.min_away_secs == min_away_secs,
            r.current_workspace is None,
            r.last_left_at@ == Map::<Seq<char>, u64>::empty(),
    {
        InterruptionTracker { min_away_secs, current_workspace: None, last_left_at: TextMap::new() }
    }

    /// The user goes to a workspace. What to show, where they come back to it
    /// after an absence that is long enough.
    pub fn apply_focus(&mut self, new_ws: &str, now: u64, shown_at_ms: i64) -> (r: Option<
        InterruptionState,
    >)
        ensures
            final(self).min_away_secs == old(self).min_away_secs,
            final(self).current_workspace.deep_view() == Some(new_ws@),
            final(self).last_left_at@ == left_after(
                old(self).current_workspace.deep_view(),
                old(self).last_left_at@,
                new_ws@,
                now,
            ),
            r is Some <==> {
                let a = away(
                    old(self).current_workspace.deep_view(),
                    old(self).last_left_at@,
                    new_ws@,
                    now,
                );
                a is Some && a->0 >= old(self).min_away_secs * 1_000_000_000
            },
            r is Some ==> r->0.workspace@ == new_ws@ && r->0.away_seconds as int == away(
                old(self).current_workspace.deep_view(),
                old(self).last_left_at@,
                new_ws@,
                now,
            )->0 / 1_000_000_000 && r->0.shown_at_ms == shown_at_ms,
    {
        match &self.current_workspace {
            Some(w) => {
                if text::same(w, new_ws) {
                    return None;
                }
            },
            None => {},
        }
        match self.current_workspace.take() {
            Some(prev) => {
                self.last_left_at.insert(prev, now);
            },
            None => {},
        }
        let gone: Option<u64> = match self.last_left_at.get(new_ws) {
            Some(t) => Some(
                if now >= *t {
                    now - *t
                } else {
                    0
                },
            ),
            None => None,
        };
        self.current_workspace = Some(text::owned(new_ws));
        match gone {
            Some(nanos) => {
                if (nanos as u128) < self.min_away_secs as u128 * 1_000_000_000 {
                    None
                } else {
                    Some(
                        InterruptionState {
                            workspace: text::owned(new_ws),
                            away_seconds: nanos / 1_000_000_000,
                            shown_at_ms,
                        },
                    )
                }
            },
            None => None,
        }
    }
}

/// The module behind the widget.
pub struct InterruptionCostModule {
    pub tracker: InterruptionTracker,
}

impl InterruptionCostModule {
    pub fn new() -> (r: Self)
        ensures
            r.tracker.min_away_secs == MIN_AWAY_SECS,
            r.tracker.current_workspace is None,
            r.tracker.last_left_at@ == Map::<Seq<char>, u64>::empty(),
    {
        InterruptionCostModule { tracker: InterruptionTracker::new(MIN_AWAY_SECS) }
    }

    pub fn with_min_away_secs(self, secs: u64) -> (r: Self)
        ensures
            r.tracker.min_away_secs == secs,
            r.tracker.current_workspace == self.tracker.current_workspace,
            r.tracker.last_left_at == self.tracker.last_left_at,
    {
        let mut out = self;
        out.tracker.min_away_secs = secs;
        out
    }

    /// Handles an event. What to show, where a change of the workspace ends an
    /// absence that is long enough; other events change nothing.
    pub fn on_event(&mut self, event: &Event, now: u64, shown_at_ms: i64) -> (r: Option<
        InterruptionState,
    >)
        ensures
            final(self).tracker.min_away_secs == old(self).tracker.min_away_secs,
            match event {
                Event::WorkspaceChanged { name, .. } => {
                    let current = old(self).tracker.current_workspace.deep_view();
                    let left = old(self).tracker.last_left_at@;
                    let gone = away(current, left, name@, now);
                    &&& final(self).tracker.current_workspace.deep_view() == Some(name@)
                    &&& final(self).tracker.last_left_at@ == left_after(current, left, name@, now)
                    &&& r is Some <==> (gone is Some && gone->0 >= old(self).tracker.min_away_secs
                        * 1_000_000_000)
                    &&& r matches Some(s) ==> s.workspace@ == name@ && s.away_seconds as int
                        == gone->0 / 1_000_000_000 && s.shown_at_ms == shown_at_ms
                },
                _ => r is None && final(self).tracker == old(self).tracker,
            },
    {
        match event {
            Event::WorkspaceChanged { name, .. } => self.tracker.apply_focus(
                name,
                now,
                shown_at_ms,
            ),
            _ => None,
        }
    }

    /// The kinds of event that the module listens to.
    pub fn subscribed_events(&self) -> (r: Vec<EventKind>)
        ensures
            r@ == seq![EventKind::WorkspaceChanged],
    {
        let r: Vec<EventKind> = vec![EventKind::WorkspaceChanged];
        assert(r@ =~= seq![EventKind::WorkspaceChanged]);
        r
    }
}

/// What is shown is never shorter than the threshold: an absence that is long
/// enough lasts as many whole seconds at least.
pub proof fn law_shown_absences_reach_the_threshold(
    current: Option<Seq<char>>,
    left: Map<Seq<char>, u64>,
    ws: Seq<char>,
    now: u64,
    min_away_secs: u64,
)
    ensures
        away(current, left, ws, now) matches Some(nanos) ==> (nanos >= min_away_secs
            * 1_000_000_000 <==> nanos / 1_000_000_000 >= min_away_secs),
{
}

/// Being told of the same workspace again changes nothing.
pub proof fn law_same_workspace_is_no_interruption(
    left: Map<Seq<char>, u64>,
    ws: Seq<char>,
    now: u64,
)
    ensures
        left_after(Some(ws), left, ws, now) == left,
        away(Some(ws), left, ws, now) is None,
{
}

/// Going away at one time and coming back at another is an absence of the time
/// between.
pub proof fn law_absence_is_the_time_between(
    left: Map<Seq<char>, u64>,
    ws: Seq<char>,
    other: Seq<char>,
    t1: u64,
    t2: u64,
)
    requires
        ws != other,
        t1 <= t2,
    ensures
        away(
            Some(other),
            left_after(Some(ws), left, other, t1),
            ws,
            t2,
        ) == Some(t2 - t1),
{
}

/// Going to another workspace notes when the one before was left, and nothing else. An
/// absence is known exactly where the user comes from elsewhere to a workspace that they
/// were seen to leave; it is the time since then, and none where the clock went back.
pub proof fn law_absences_are_measured(
    current: Option<Seq<char>>,
    left: Map<Seq<char>, u64>,
    ws: Seq<char>,
    now: u64,
)
    ensures
        current == Some(ws) || current is None ==> left_after(current, left, ws, now) == left,
        current is Some && current != Some(ws) ==> left_after(current, left, ws, now) == left.insert(
            current->0,
            now,
        ),
        away(current, left, ws, now) is Some <==> current != Some(ws) && left.dom().contains(ws),
        away(current, left, ws, now) matches Some(nanos) ==> nanos == (if now < left[ws] {
            0
        } else {
            now - left[ws]
        }),
{
}

} // verus!
