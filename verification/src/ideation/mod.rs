//! The ideation engine: now and then it suggests something to think about.

pub mod config;
pub mod laws;
pub mod nudge;
pub mod selector;

use rand::rngs::StdRng;
use vstd::prelude::*;

use self::config::{default_config, IdeationConfig};
use self::nudge::{Nudge, NudgeView};
use self::selector::{
    attempt_order_of, outcome, ranked, NudgeContext, NudgeSelector, RecentEntity,
};
use crate::events::{Event, EventKind, EventView};
use crate::projects::{ProjectEntry, ProjectStatus};
use crate::text;
use crate::time::UtcTime;

verus! {

pub const MODULE_NAME: &'static str = "ideation";

/// Whether a tick goes on to roll for a nudge: the engine is turned on, there
/// is a registry of projects, and it holds one.
pub fn tick_may_fire(config: &IdeationConfig, projects: Option<&[ProjectEntry]>) -> (r: bool)
    ensures
        r == (config.enabled && projects is Some && projects->0@.len() > 0),
{
    if !config.enabled {
        return false;
    }
    match projects {
        Some(list) => list.len() > 0,
        None => false,
    }
}

/// Whether any project is blocked.
pub open spec fn some_blocked(projects: Seq<ProjectEntry>) -> bool {
    exists|i: int|
        0 <= i < projects.len() && (#[trigger] projects[i]).status == ProjectStatus::Blocked
}

/// Whether any project is blocked, which makes the engine fire more often.
pub fn any_blocked(projects: &[ProjectEntry]) -> (r: bool)
    ensures
        r == some_blocked(projects@),
{
    let mut i: usize = 0;
    while i < projects.len()
        invariant
            i <= projects@.len(),
            forall|k: int|
                0 <= k < i ==> (#[trigger] projects@[k]).status != ProjectStatus::Blocked,
        decreases projects@.len() - i,
    {
        if projects[i].status == ProjectStatus::Blocked {
            return true;
        }
        i += 1;
    }
    false
}

/// The rows that changed at or after `horizon`, in order.
pub open spec fn recent_rows(rows: Seq<RecentEntity>, horizon: UtcTime) -> Seq<RecentEntity> {
    rows.filter(|e: RecentEntity| !e.updated_at.lt(horizon))
}

fn keep_recent(rows: Vec<RecentEntity>, horizon: UtcTime, out: &mut Vec<RecentEntity>)
    ensures
        final(out)@ == old(out)@ + recent_rows(rows@, horizon),
{
    let ghost all = rows@;
    let ghost before = out@;
    let ghost p = |e: RecentEntity| !e.updated_at.lt(horizon);
    let mut rest = rows;
    let ghost mut n: int = 0;
    proof {
        assert(all.take(0).filter(p) =~= Seq::empty()) by {
            reveal(Seq::filter);
        }
        assert(out@ =~= before + all.take(0).filter(p));
    }
    while rest.len() > 0
        invariant
            0 <= n <= all.len(),
            rest@ == all.skip(n),
            p == (|e: RecentEntity| !e.updated_at.lt(horizon)),
            out@ == before + all.take(n).filter(p),
        decreases rest@.len(),
    {
        let row = rest.remove(0);
        proof {
            assert(row == all[n]);
            assert(all.take(n + 1) =~= all.take(n).push(row));
            all.take(n).lemma_filter_push(row, p);
            assert(all.skip(n).remove(0) =~= all.skip(n + 1));
        }
        let ghost mid = out@;
        if !row.updated_at.is_before(&horizon) {
            out.push(row);
            assert(out@ =~= before + all.take(n).filter(p).push(row));
        }
        proof {
            n = n + 1;
        }
    }
    assert(all.take(n) =~= all);
}

/// The notes and references that changed within the recency window: notes
/// first, each list in its order. `now` must leave room for the window.
pub fn load_recent_entities(
    notes: Vec<RecentEntity>,
    references: Vec<RecentEntity>,
    now: UtcTime,
    config: &IdeationConfig,
) -> (r: Vec<RecentEntity>)
    requires
        now.fits_back(config::at_least_one(config.recent_seed_hours)),
    ensures
        r@ == recent_rows(
            notes@,
            now.back(config::at_least_one(config.recent_seed_hours)),
        ) + recent_rows(references@, now.back(config::at_least_one(config.recent_seed_hours))),
{
    let hours: u64 = if config.recent_seed_hours < 1 {
        1
    } else {
        config.recent_seed_hours
    };
    let horizon = now.checked_hours_back(hours).unwrap();
    let mut out: Vec<RecentEntity> = Vec::new();
    keep_recent(notes, horizon, &mut out);
    keep_recent(references, horizon, &mut out);
    assert(out@ =~= recent_rows(notes@, horizon) + recent_rows(references@, horizon));
    out
}

/// The event that announces a nudge.
pub open spec fn nudge_event_of(n: NudgeView) -> EventView {
    EventView::NudgeDelivered { project_id: n.project_id, kind: n.kind.wire(), title: n.title }
}

/// The event that announces a nudge.
pub fn nudge_event(nudge: &Nudge) -> (r: Event)
    ensures
        r.deep_view() == nudge_event_of(nudge.deep_view()),
{
    Event::NudgeDelivered {
        project_id: nudge.project_id,
        kind: text::owned(nudge.kind.as_str()),
        title: nudge.title.clone(),
    }
}

/// The engine.
#[derive(Debug, Clone, Copy, PartialEq, Eq)]
pub struct IdeationModule {
    pub config: IdeationConfig,
}

/// What the selector sees at a tick.
pub open spec fn context_of<'a>(
    projects: &'a [ProjectEntry],
    recent: &'a [RecentEntity],
    now: UtcTime,
    config: &'a IdeationConfig,
) -> NudgeContext<'a> {
    NudgeContext { projects, recent_entities: recent, now, config }
}

impl IdeationModule {
    pub fn new() -> (r: Self)
        ensures
            r.config == default_config(),
    {
        IdeationModule { config: IdeationConfig::default() }
    }

    pub fn with_config(config: IdeationConfig) -> (r: Self)
        ensures
            r.config == config,
    {
        IdeationModule { config }
    }

    pub fn config(&self) -> (r: &IdeationConfig)
        ensures
            *r == self.config,
    {
        &self.config
    }

    /// A tick. `fires` tells whether the roll for a nudge came out, `rolled` is the
    /// place of the rolled kind in the ranked list of kinds. What is announced.
    pub fn run_tick(
        &self,
        projects: Option<&[ProjectEntry]>,
        recent: &[RecentEntity],
        now: UtcTime,
        fires: bool,
        rolled: usize,
        rng: &mut StdRng,
    ) -> (r: Option<Event>)
        requires
            self.config.enabled && fires ==> (projects matches Some(list) ==> list@.len() > 0
                ==> context_of(list, recent, now, &self.config).valid()),
        ensures
            !self.config.enabled || projects is None || !fires ==> r is None,
            projects matches Some(list) ==> list@.len() == 0 ==> r is None,
            self.config.enabled && fires ==> (projects matches Some(list) ==> list@.len() > 0 ==> {
                exists|picked: Option<NudgeView>|
                    #[trigger] outcome(
                        &context_of(list, recent, now, &self.config),
                        attempt_order_of(ranked(self.config.weights), rolled as int),
                        picked,
                    ) && r.deep_view() == (match picked {
                        Some(n) => Some(nudge_event_of(n)),
                        None => None,
                    })
            }),
    {
        if !tick_may_fire(&self.config, projects) || !fires {
            return None;
        }
        match projects {
            Some(list) => {
                let ctx = NudgeContext {
                    projects: list,
                    recent_entities: recent,
                    now,
                    config: &self.config,
                };
                let picked = NudgeSelector::new().select(&ctx, rolled, rng);
                assert(ctx == context_of(list, recent, now, &self.config));
                assert(outcome(
                    &context_of(list, recent, now, &self.config),
                    attempt_order_of(ranked(self.config.weights), rolled as int),
                    picked.deep_view(),
                ));
                match &picked {
                    Some(n) => Some(nudge_event(n)),
                    None => None,
                }
            },
            None => None,
        }
    }

    /// The configuration in a directory: the built-in one where there is no file,
    /// or none that can be used.
    pub fn load_config_from_dir(file: Option<Result<IdeationConfig, config::IdeationConfigError>>) -> (r:
        IdeationConfig)
        ensures
            r == (match file {
                Some(Ok(c)) => c,
                _ => default_config(),
            }),
    {
        match file {
            Some(Ok(c)) => c,
            _ => IdeationConfig::default(),
        }
    }

    /// The kinds of event that the module listens to.
    pub fn subscribed_events(&self) -> (r: Vec<EventKind>)
        ensures
            r@ == seq![
                EventKind::WorkspaceChanged,
                EventKind::SyncCompleted,
                EventKind::DataStoreUpdated,
            ],
    {
        let r: Vec<EventKind> = vec![
            EventKind::WorkspaceChanged,
            EventKind::SyncCompleted,
            EventKind::DataStoreUpdated,
        ];
        assert(r@ =~= seq![
            EventKind::WorkspaceChanged,
            EventKind::SyncCompleted,
            EventKind::DataStoreUpdated,
        ]);
        r
    }
}

} // verus!
