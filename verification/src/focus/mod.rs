//! Switching profiles on and off by what the user is doing.
//!
//! Each profile with a trigger is watched; sustained matches ask for its
//! activation, sustained mismatches for its deactivation.

pub mod runs;
pub mod tracker;

use vstd::prelude::*;

use self::tracker::{actions_of, phases_after, named, retracts};
use self::tracker::{ActionView, FocusModeTracker, InputView, TriggerAction, TriggerInput, TriggerPhase};
use crate::events::{Event, EventKind, EventView};
use crate::signals::{mirror_event, mirrored, Signals, SignalView};
use crate::text;

verus! {

pub const MODULE_NAME: &'static str = "focus-mode";

/// The default time between two ticks, in milliseconds.
pub const DEFAULT_TICK_MILLIS: u64 = 1000;

/// A profile's trigger with what its predicate came to: nothing where the
/// predicate could not be evaluated. Durations are in nanoseconds.
#[derive(Debug, Clone, Copy, PartialEq, Eq, Structural)]
pub struct EvaluatedTrigger {
    pub verdict: Option<bool>,
    pub dwell: u128,
    pub exit_dwell: u128,
}

/// A profile with its evaluated trigger, if it has one.
#[derive(Debug, Clone, PartialEq, Eq)]
pub struct EvaluatedProfile {
    pub name: String,
    pub trigger: Option<EvaluatedTrigger>,
}

/// The inputs of the profiles that have a trigger. One that could not be
/// evaluated counts as false.
pub open spec fn inputs_of(profiles: Seq<EvaluatedProfile>) -> Seq<InputView>
    decreases profiles.len(),
{
    if profiles.len() == 0 {
        Seq::empty()
    } else {
        let before = inputs_of(profiles.drop_last());
        let p = profiles.last();
        match p.trigger {
            Some(t) => before.push(
                InputView {
                    profile: p.name@,
                    predicate: t.verdict == Some(true),
                    dwell: t.dwell,
                    exit_dwell: t.exit_dwell,
                },
            ),
            None => before,
        }
    }
}

/// The event that asks for an action.
pub open spec fn event_of(a: ActionView) -> EventView {
    match a {
        ActionView::Activate(name) => EventView::ProfileActionRequested {
            action: "activate"@,
            name: Some(name),
        },
        ActionView::Deactivate(name) => EventView::ProfileActionRequested {
            action: "deactivate"@,
            name: Some(name),
        },
    }
}

/// The driver of the trackers.
pub struct FocusModeModule {
    pub signals: Signals,
    pub tracker: FocusModeTracker,
    pub tick_interval_millis: u64,
}

/// Collects the inputs of the profiles that have a trigger.
pub fn snapshot_inputs(profiles: &[EvaluatedProfile]) -> (r: Vec<TriggerInput<'_>>)
    ensures
        r.deep_view() == inputs_of(profiles@),
{
    let mut out: Vec<TriggerInput<'_>> = Vec::new();
    let mut i: usize = 0;
    assert(profiles@.take(0) =~= Seq::empty());
    assert(out.deep_view() =~= inputs_of(profiles@.take(0)));
    while i < profiles.len()
        invariant
            i <= profiles@.len(),
            out.deep_view() == inputs_of(profiles@.take(i as int)),
        decreases profiles@.len() - i,
    {
        let ghost before = out.deep_view();
        proof {
            assert(profiles@.take(i + 1).drop_last() =~= profiles@.take(i as int));
            assert(profiles@.take(i + 1).last() == profiles@[i as int]);
        }
        match profiles[i].trigger {
            Some(t) => {
                let predicate = match t.verdict {
                    Some(b) => b,
                    None => false,
                };
                out.push(
                    TriggerInput {
                        profile: profiles[i].name.as_str(),
                        predicate,
                        dwell: t.dwell,
                        exit_dwell: t.exit_dwell,
                    },
                );
                assert(out.deep_view() =~= before.push(out@.last().deep_view()));
            },
            None => {},
        }
        i += 1;
    }
    assert(profiles@.take(i as int) =~= profiles@);
    out
}

impl FocusModeModule {
    pub fn new() -> (r: Self)
        ensures
            r.signals@ == Map::<Seq<char>, SignalView>::empty(),
            r.tracker@ == Map::<Seq<char>, TriggerPhase>::empty(),
            r.tick_interval_millis == DEFAULT_TICK_MILLIS,
    {
        FocusModeModule {
            signals: Signals::new(),
            tracker: FocusModeTracker::new(),
            tick_interval_millis: DEFAULT_TICK_MILLIS,
        }
    }

    pub fn with_tick_interval(self, millis: u64) -> (r: Self)
        ensures
            r.tick_interval_millis == millis,
            r.signals == self.signals,
            r.tracker == self.tracker,
    {
        FocusModeModule {
            signals: self.signals,
            tracker: self.tracker,
            tick_interval_millis: millis,
        }
    }

    /// Folds an event into the signals that the predicates look at.
    pub fn apply_event(&mut self, event: &Event)
        ensures
            final(self).signals@ == mirrored(old(self).signals@, event.deep_view()),
            final(self).tracker == old(self).tracker,
            final(self).tick_interval_millis == old(self).tick_interval_millis,
    {
        mirror_event(&mut self.signals, event);
    }

    /// One tick at the time `now`: the events to publish.
    pub fn evaluate_and_publish(&mut self, profiles: &[EvaluatedProfile], now: u64) -> (r: Vec<
        Event,
    >)
        ensures
            final(self).tracker@ == phases_after(
                old(self).tracker@,
                inputs_of(profiles@),
                now,
            ).restrict(named(inputs_of(profiles@))),
            final(self).signals == old(self).signals,
            final(self).tick_interval_millis == old(self).tick_interval_millis,
            exists|dropped: Seq<ActionView>|
                #![trigger actions_of(old(self).tracker@, inputs_of(profiles@), now) + dropped]
                r.deep_view() == (actions_of(old(self).tracker@, inputs_of(profiles@), now)
                    + dropped).map_values(|a: ActionView| event_of(a)) && retracts(
                    phases_after(old(self).tracker@, inputs_of(profiles@), now),
                    inputs_of(profiles@),
                    dropped,
                ),
    {
        let inputs = snapshot_inputs(profiles);
        let actions = self.tracker.tick(&inputs, now);
        let mut out: Vec<Event> = Vec::new();
        let ghost want = actions.deep_view().map_values(|a: ActionView| event_of(a));
        let mut i: usize = 0;
        assert(out.deep_view() =~= want.take(0));
        while i < actions.len()
            invariant
                i <= actions@.len(),
                want == actions.deep_view().map_values(|a: ActionView| event_of(a)),
                out.deep_view() == want.take(i as int),
            decreases actions@.len() - i,
        {
            let ghost before = out.deep_view();
            let event = match &actions[i] {
                TriggerAction::Activate(name) => Event::ProfileActionRequested {
                    action: text::owned("activate"),
                    name: Some(name.clone()),
                },
                TriggerAction::Deactivate(name) => Event::ProfileActionRequested {
                    action: text::owned("deactivate"),
                    name: Some(name.clone()),
                },
            };
            proof {
                assert(event.deep_view() == want[i as int]);
                assert(want.take(i + 1) =~= want.take(i as int).push(want[i as int]));
            }
            out.push(event);
            assert(out.deep_view() =~= before.push(want[i as int]));
            i += 1;
        }
        assert(want.take(i as int) =~= want);
        out
    }

    /// The kinds of event that the module listens to.
    pub fn subscribed_events(&self) -> (r: Vec<EventKind>)
        ensures
            r@ == seq![
                EventKind::WindowFocused,
                EventKind::WorkspaceChanged,
                EventKind::PowerStateChanged,
            ],
    {
        let r: Vec<EventKind> = vec![
            EventKind::WindowFocused,
            EventKind::WorkspaceChanged,
            EventKind::PowerStateChanged,
        ];
        assert(r@ =~= seq![
            EventKind::WindowFocused,
            EventKind::WorkspaceChanged,
            EventKind::PowerStateChanged,
        ]);
        r
    }
}

/// Every profile with a trigger is looked at, in order, with its times; its condition
/// holds where it was found to, and not where it could not be told.
pub proof fn law_profiles_with_triggers_are_looked_at(
    profiles: Seq<EvaluatedProfile>,
    p: EvaluatedProfile,
)
    ensures
        inputs_of(Seq::empty()).len() == 0,
        p.trigger is None ==> inputs_of(profiles.push(p)) == inputs_of(profiles),
        p.trigger matches Some(t) ==> inputs_of(profiles.push(p)) == inputs_of(profiles).push(
            InputView {
                profile: p.name@,
                predicate: t.verdict is Some && t.verdict->0,
                dwell: t.dwell,
                exit_dwell: t.exit_dwell,
            },
        ),
{
    assert(profiles.push(p).drop_last() =~= profiles);
}

/// An action asks for its profile by name.
pub proof fn law_actions_ask_for_their_profile(name: Seq<char>)
    ensures
        event_of(ActionView::Activate(name)) == (EventView::ProfileActionRequested {
            action: "activate"@,
            name: Some(name),
        }),
        event_of(ActionView::Deactivate(name)) == (EventView::ProfileActionRequested {
            action: "deactivate"@,
            name: Some(name),
        }),
{
}

} // verus!
