//! When a profile switches itself on and off.
//!
//! A profile's predicate must hold for its dwell time before the profile is
//! activated, and fail for its exit dwell time before it is deactivated. A
//! change of mind in between cancels without a word.

use vstd::prelude::*;

use crate::text;
use crate::textmap::{lemma_map_of, map_of, TextMap};

verus! {

/// Where a profile's trigger stands. Times are nanoseconds on a monotonic clock.
#[derive(Debug, Clone, Copy, PartialEq, Eq, Structural)]
pub enum TriggerPhase {
    /// The predicate does not hold.
    Inactive,
    /// The predicate has held since that time; the dwell time is running.
    Activating { since: u64 },
    /// The profile is active.
    Active,
    /// The predicate has failed since that time; the exit dwell time is running.
    Deactivating { since: u64 },
}

/// What the tracker asks for.
#[derive(Debug, Clone, PartialEq, Eq)]
pub enum TriggerAction {
    Activate(String),
    Deactivate(String),
}

/// The contents of a [`TriggerAction`].
pub enum ActionView {
    Activate(Seq<char>),
    Deactivate(Seq<char>),
}

impl DeepView for TriggerAction {
    type V = ActionView;

    open spec fn deep_view(&self) -> ActionView {
        match self {
            TriggerAction::Activate(s) => ActionView::Activate(s@),
            TriggerAction::Deactivate(s) => ActionView::Deactivate(s@),
        }
    }
}

/// One profile's trigger at one time. Durations are in nanoseconds.
#[derive(Debug, Clone)]
pub struct TriggerInput<'a> {
    pub profile: &'a str,
    pub predicate: bool,
    pub dwell: u128,
    pub exit_dwell: u128,
}

/// The contents of a [`TriggerInput`].
pub struct InputView {
    pub profile: Seq<char>,
    pub predicate: bool,
    pub dwell: u128,
    pub exit_dwell: u128,
}

impl DeepView for TriggerInput<'_> {
    type V = InputView;

    open spec fn deep_view(&self) -> InputView {
        InputView {
            profile: self.profile@,
            predicate: self.predicate,
            dwell: self.dwell,
            exit_dwell: self.exit_dwell,
        }
    }
}

/// The time from `since` to `now`, nothing where `now` is earlier.
pub open spec fn elapsed(since: u64, now: u64) -> int {
    if now >= since {
        now - since
    } else {
        0
    }
}

/// The phase after a tick.
pub open spec fn next_phase(p: TriggerPhase, i: InputView, now: u64) -> TriggerPhase {
    match p {
        TriggerPhase::Inactive => if i.predicate {
            TriggerPhase::Activating { since: now }
        } else {
            p
        },
        TriggerPhase::Activating { since } => if !i.predicate {
            TriggerPhase::Inactive
        } else if elapsed(since, now) >= i.dwell {
            TriggerPhase::Active
        } else {
            p
        },
        TriggerPhase::Active => if i.predicate {
            p
        } else {
            TriggerPhase::Deactivating { since: now }
        },
        TriggerPhase::Deactivating { since } => if i.predicate {
            TriggerPhase::Active
        } else if elapsed(since, now) >= i.exit_dwell {
            TriggerPhase::Inactive
        } else {
            p
        },
    }
}

/// What a tick asks for.
pub open spec fn emitted(p: TriggerPhase, i: InputView, now: u64) -> Seq<ActionView> {
    match p {
        TriggerPhase::Activating { since } => if i.predicate && elapsed(since, now) >= i.dwell {
            seq![ActionView::Activate(i.profile)]
        } else {
            Seq::empty()
        },
        TriggerPhase::Deactivating { since } => if !i.predicate && elapsed(since, now)
            >= i.exit_dwell {
            seq![ActionView::Deactivate(i.profile)]
        } else {
            Seq::empty()
        },
        _ => Seq::empty(),
    }
}

/// The phase of a profile; one that is not tracked yet is inactive.
pub open spec fn phase_of(phases: Map<Seq<char>, TriggerPhase>, profile: Seq<char>) -> TriggerPhase {
    if phases.dom().contains(profile) {
        phases[profile]
    } else {
        TriggerPhase::Inactive
    }
}

/// The phases after a list of inputs, taken in order.
pub open spec fn phases_after(
    phases: Map<Seq<char>, TriggerPhase>,
    inputs: Seq<InputView>,
    now: u64,
) -> Map<Seq<char>, TriggerPhase>
    decreases inputs.len(),
{
    if inputs.len() == 0 {
        phases
    } else {
        let before = phases_after(phases, inputs.drop_last(), now);
        let i = inputs.last();
        before.insert(i.profile, next_phase(phase_of(before, i.profile), i, now))
    }
}

/// What a list of inputs asks for, in order.
pub open spec fn actions_of(
    phases: Map<Seq<char>, TriggerPhase>,
    inputs: Seq<InputView>,
    now: u64,
) -> Seq<ActionView>
    decreases inputs.len(),
{
    if inputs.len() == 0 {
        Seq::empty()
    } else {
        let before = phases_after(phases, inputs.drop_last(), now);
        let i = inputs.last();
        actions_of(phases, inputs.drop_last(), now) + emitted(phase_of(before, i.profile), i, now)
    }
}

/// The profiles that a list of inputs names.
pub open spec fn named(inputs: Seq<InputView>) -> Set<Seq<char>> {
    inputs.map_values(|i: InputView| i.profile).to_set()
}

/// Whether a profile in this phase has been activated and not yet deactivated.
pub open spec fn engaged(p: TriggerPhase) -> bool {
    p is Active || p is Deactivating
}

/// Whether a list of actions retracts exactly the engaged profiles that are no
/// longer named, each once, in some order.
pub open spec fn retracts(
    phases: Map<Seq<char>, TriggerPhase>,
    inputs: Seq<InputView>,
    actions: Seq<ActionView>,
) -> bool {
    &&& actions.no_duplicates()
    &&& forall|a: ActionView|
        #[trigger] actions.contains(a) <==> (a matches ActionView::Deactivate(name)
            && phases.dom().contains(name) && engaged(phases[name]) && !named(inputs).contains(
            name,
        ))
}

/// Whether one tick with some inputs led from the phases `before` to `after` and
/// asked for some actions: first what the inputs ask for, in order, then that the
/// engaged profiles that are no longer named be retracted.
pub open spec fn ticked(
    before: Map<Seq<char>, TriggerPhase>,
    inputs: Seq<InputView>,
    now: u64,
    actions: Seq<ActionView>,
    after: Map<Seq<char>, TriggerPhase>,
) -> bool {
    &&& after == phases_after(before, inputs, now).restrict(named(inputs))
    &&& exists|dropped: Seq<ActionView>|
        #![trigger actions_of(before, inputs, now) + dropped]
        actions == actions_of(before, inputs, now) + dropped && retracts(
            phases_after(before, inputs, now),
            inputs,
            dropped,
        )
}

/// The trackers of all profiles.
pub struct FocusModeTracker {
    phases: TextMap<TriggerPhase>,
}

impl FocusModeTracker {
    /// The phases by profile.
    pub closed spec fn view(&self) -> Map<Seq<char>, TriggerPhase> {
        self.phases@
    }

    pub fn new() -> (r: Self)
        ensures
            r@ == Map::<Seq<char>, TriggerPhase>::empty(),
    {
        FocusModeTracker { phases: TextMap::new() }
    }

    /// The phase of a profile, if it is tracked.
    pub fn phase(&self, profile: &str) -> (r: Option<TriggerPhase>)
        ensures
            r == (if self@.dom().contains(profile@) {
                Some(self@[profile@])
            } else {
                None
            }),
    {
        match self.phases.get(profile) {
            Some(p) => Some(*p),
            None => None,
        }
    }

    /// One tick. Profiles that are no longer named are dropped, and retracted
    /// where they were engaged.
    pub fn tick(&mut self, inputs: &[TriggerInput<'_>], now: u64) -> (r: Vec<TriggerAction>)
        ensures
            ticked(old(self)@, inputs.deep_view(), now, r.deep_view(), final(self)@),
    {
        let ghost m0 = self@;
        let ghost iv = inputs.deep_view();
        let mut actions: Vec<TriggerAction> = Vec::new();
        let mut n: usize = 0;
        proof {
            assert(iv.take(0) =~= Seq::empty());
            assert(actions.deep_view() =~= Seq::empty());
        }
        while n < inputs.len()
            invariant
                n <= inputs@.len(),
                iv == inputs.deep_view(),
                self.phases@ == phases_after(m0, iv.take(n as int), now),
                actions.deep_view() == actions_of(m0, iv.take(n as int), now),
            decreases inputs@.len() - n,
        {
            let ghost before = actions.deep_view();
            proof {
                assert(iv.take(n + 1).drop_last() =~= iv.take(n as int));
                assert(iv.take(n + 1).last() == inputs@[n as int].deep_view());
            }
            let phase = match self.phase(inputs[n].profile) {
                Some(p) => p,
                None => TriggerPhase::Inactive,
            };
            let (next, action) = step(phase, &inputs[n], now);
            self.phases.insert(text::owned(inputs[n].profile), next);
            match action {
                Some(a) => {
                    actions.push(a);
                    assert(actions.deep_view() =~= before.push(a.deep_view()));
                },
                None => {},
            }
            assert(actions.deep_view() =~= actions_of(m0, iv.take(n + 1), now));
            n += 1;
        }
        proof {
            assert(iv.take(n as int) =~= iv);
        }
        let ghost m1 = self@;
        let ghost told = actions.deep_view();
        let mut kept: TextMap<TriggerPhase> = TextMap::new();
        let mut k: usize = 0;
        let entries = self.phases.entries();
        let ghost es = entries@;
        let ghost mut dropped: Seq<ActionView> = Seq::empty();
        proof {
            lemma_map_of(es);
            assert(told =~= told + dropped);
            assert(kept@ =~= map_of(es.take(0)).restrict(named(iv)));
        }
        while k < entries.len()
            invariant
                k <= es.len(),
                es == entries@,
                crate::textmap::distinct_keys(es),
                iv == inputs.deep_view(),
                actions.deep_view() == told + dropped,
                kept@ == map_of(es.take(k as int)).restrict(named(iv)),
                dropped.no_duplicates(),
                forall|a: ActionView|
                    #[trigger] dropped.contains(a) ==> (a matches ActionView::Deactivate(name)
                        && exists|j: int|
                        0 <= j < k && (#[trigger] es[j]).0@ == name && engaged(es[j].1)
                            && !named(iv).contains(name)),
                forall|j: int|
                    0 <= j < k && engaged((#[trigger] es[j]).1) && !named(iv).contains(es[j].0@)
                        ==> dropped.contains(ActionView::Deactivate(es[j].0@)),
            decreases es.len() - k,
        {
            let ghost d0 = dropped;
            let name = &entries[k].0;
            let phase = entries[k].1;
            proof {
                assert(es.take(k + 1).drop_last() =~= es.take(k as int));
                assert(es.take(k + 1).last() == es[k as int]);
            }
            if is_named(inputs, name) {
                kept.insert(name.clone(), phase);
                assert(kept@ =~= map_of(es.take(k + 1)).restrict(named(iv)));
            } else {
                assert(kept@ =~= map_of(es.take(k + 1)).restrict(named(iv)));
                let was_engaged = match phase {
                    TriggerPhase::Active => true,
                    TriggerPhase::Deactivating { .. } => true,
                    _ => false,
                };
                if was_engaged {
                    let ghost a = ActionView::Deactivate(name@);
                    let ghost sofar = actions.deep_view();
                    actions.push(TriggerAction::Deactivate(name.clone()));
                    proof {
                        assert(actions.deep_view() =~= sofar.push(a));
                        assert(!d0.contains(a)) by {
                            if d0.contains(a) {
                                let j = choose|j: int|
                                    0 <= j < k && (#[trigger] es[j]).0@ == name@ && engaged(es[j].1)
                                        && !named(iv).contains(name@);
                                assert(es[j].0@ != es[k as int].0@);
                            }
                        }
                        dropped = d0.push(a);
                        assert(actions.deep_view() =~= told + dropped);
                        assert(dropped[d0.len() as int] == a);
                        assert forall|x: ActionView| #[trigger] dropped.contains(x) implies (
                        x matches ActionView::Deactivate(nm) && exists|j: int|
                            0 <= j < k + 1 && (#[trigger] es[j]).0@ == nm && engaged(es[j].1)
                                && !named(iv).contains(nm)) by {
                            let i = choose|i: int| 0 <= i < dropped.len() && dropped[i] == x;
                            if i < d0.len() {
                                assert(d0[i] == x);
                                assert(d0.contains(x));
                            } else {
                                assert(es[k as int].0@ == name@);
                            }
                        }
                        assert forall|j: int|
                            0 <= j < k + 1 && engaged((#[trigger] es[j]).1) && !named(iv).contains(
                                es[j].0@,
                            ) implies dropped.contains(ActionView::Deactivate(es[j].0@)) by {
                            if j < k {
                                let i = choose|i: int|
                                    0 <= i < d0.len() && d0[i] == ActionView::Deactivate(es[j].0@);
                                assert(dropped[i] == ActionView::Deactivate(es[j].0@));
                            }
                        }
                    }
                }
            }
            k += 1;
        }
        proof {
            assert(es.take(k as int) =~= es);
            assert(kept@ == m1.restrict(named(iv)));
            assert forall|a: ActionView| #[trigger] dropped.contains(a) <==> (
            a matches ActionView::Deactivate(name) && m1.dom().contains(name) && engaged(m1[name])
                && !named(iv).contains(name)) by {
                if a matches ActionView::Deactivate(name) && m1.dom().contains(name) && engaged(
                    m1[name],
                ) && !named(iv).contains(name) {
                    let name = a->Deactivate_0;
                    let j = choose|j: int| 0 <= j < es.len() && (#[trigger] es[j]).0@ == name;
                    assert(es[j].1 == m1[name]);
                }
                if dropped.contains(a) {
                    let name = a->Deactivate_0;
                    let j = choose|j: int|
                        0 <= j < k && (#[trigger] es[j]).0@ == name && engaged(es[j].1)
                            && !named(iv).contains(name);
                    assert(m1[es[j].0@] == es[j].1);
                }
            }
            assert(retracts(m1, iv, dropped));
            assert(actions.deep_view() == actions_of(m0, iv, now) + dropped);
        }
        self.phases = kept;
        actions
    }
}

/// Whether a list of inputs names a profile.
fn is_named(inputs: &[TriggerInput<'_>], profile: &str) -> (r: bool)
    ensures
        r == named(inputs.deep_view()).contains(profile@),
{
    let ghost names = inputs.deep_view().map_values(|i: InputView| i.profile);
    let mut i: usize = 0;
    while i < inputs.len()
        invariant
            i <= inputs@.len(),
            names == inputs.deep_view().map_values(|i: InputView| i.profile),
            forall|k: int| 0 <= k < i ==> names[k] != profile@,
        decreases inputs@.len() - i,
    {
        if text::same(inputs[i].profile, profile) {
            assert(names[i as int] == profile@);
            return true;
        }
        assert(names[i as int] != profile@);
        i += 1;
    }
    assert(!names.contains(profile@));
    false
}

/// One tick of one profile.
fn step(phase: TriggerPhase, input: &TriggerInput<'_>, now: u64) -> (r: (
    TriggerPhase,
    Option<TriggerAction>,
))
    ensures
        r.0 == next_phase(phase, input.deep_view(), now),
        emitted(phase, input.deep_view(), now) == (match r.1 {
            Some(a) => seq![a.deep_view()],
            None => Seq::empty(),
        }),
{
    match phase {
        TriggerPhase::Inactive => if input.predicate {
            (TriggerPhase::Activating { since: now }, None)
        } else {
            (phase, None)
        },
        TriggerPhase::Activating { since } => if !input.predicate {
            (TriggerPhase::Inactive, None)
        } else if since_then(since, now) >= input.dwell {
            (TriggerPhase::Active, Some(TriggerAction::Activate(text::owned(input.profile))))
        } else {
            (phase, None)
        },
        TriggerPhase::Active => if input.predicate {
            (phase, None)
        } else {
            (TriggerPhase::Deactivating { since: now }, None)
        },
        TriggerPhase::Deactivating { since } => if input.predicate {
            (TriggerPhase::Active, None)
        } else if since_then(since, now) >= input.exit_dwell {
            (TriggerPhase::Inactive, Some(TriggerAction::Deactivate(text::owned(input.profile))))
        } else {
            (phase, None)
        },
    }
}

fn since_then(since: u64, now: u64) -> (r: u128)
    ensures
        r == elapsed(since, now),
{
    if now >= since {
        (now - since) as u128
    } else {
        0
    }
}

// ---------------------------------------------------------------------------
// Laws
// ---------------------------------------------------------------------------

/// Every activation is followed by a deactivation before the next one, and the
/// other way round: a tick emits exactly when it changes whether the profile is
/// engaged.
pub proof fn law_actions_alternate(p: TriggerPhase, i: InputView, now: u64)
    ensures
        emitted(p, i, now).len() <= 1,
        (emitted(p, i, now).len() == 1) == (engaged(p) != engaged(next_phase(p, i, now))),
        emitted(p, i, now).contains(ActionView::Activate(i.profile)) ==> !engaged(p),
        emitted(p, i, now).contains(ActionView::Deactivate(i.profile)) ==> engaged(p),
{
    if emitted(p, i, now).len() > 0 {
        assert(emitted(p, i, now)[0] is Activate || emitted(p, i, now)[0] is Deactivate);
    }
}

/// A predicate that comes and goes before the dwell time is over leaves no
/// trace.
pub proof fn law_flicker_is_silent(on: InputView, off: InputView, t1: u64, t2: u64)
    requires
        on.predicate,
        !off.predicate,
    ensures
        emitted(TriggerPhase::Inactive, on, t1).len() == 0,
        emitted(next_phase(TriggerPhase::Inactive, on, t1), off, t2).len() == 0,
        next_phase(next_phase(TriggerPhase::Inactive, on, t1), off, t2) == TriggerPhase::Inactive,
{
}

/// An active profile whose predicate fails for a while and recovers stays
/// active.
pub proof fn law_recovery_is_silent(off: InputView, on: InputView, t1: u64, t2: u64)
    requires
        on.predicate,
        !off.predicate,
    ensures
        emitted(TriggerPhase::Active, off, t1).len() == 0,
        emitted(next_phase(TriggerPhase::Active, off, t1), on, t2).len() == 0,
        next_phase(next_phase(TriggerPhase::Active, off, t1), on, t2) == TriggerPhase::Active,
{
}

/// The phase of a profile after some ticks, each with its input and its time.
pub open spec fn phase_after(ticks: Seq<(InputView, u64)>) -> TriggerPhase
    decreases ticks.len(),
{
    if ticks.len() == 0 {
        TriggerPhase::Inactive
    } else {
        next_phase(phase_after(ticks.drop_last()), ticks.last().0, ticks.last().1)
    }
}

/// Whether the predicate came to `verdict` at every tick from the one at `from` on.
pub open spec fn steady_from(ticks: Seq<(InputView, u64)>, from: int, verdict: bool) -> bool {
    forall|k: int| from <= k < ticks.len() ==> (#[trigger] ticks[k]).0.predicate == verdict
}

/// A dwell time that is running began at a tick, and the predicate has not changed
/// since.
proof fn lemma_dwell_began(ticks: Seq<(InputView, u64)>)
    ensures
        phase_after(ticks) matches TriggerPhase::Activating { since } ==> exists|j: int|
            0 <= j < ticks.len() && (#[trigger] ticks[j]).1 == since && steady_from(ticks, j, true),
        phase_after(ticks) matches TriggerPhase::Deactivating { since } ==> exists|j: int|
            0 <= j < ticks.len() && (#[trigger] ticks[j]).1 == since && steady_from(
                ticks,
                j,
                false,
            ),
    decreases ticks.len(),
{
    if ticks.len() > 0 {
        let before = ticks.drop_last();
        let n = ticks.len() - 1;
        lemma_dwell_began(before);
        assert(ticks =~= before.push(ticks.last()));
        match phase_after(ticks) {
            TriggerPhase::Activating { since } => {
                if phase_after(before) == phase_after(ticks) {
                    let j = choose|j: int|
                        0 <= j < before.len() && (#[trigger] before[j]).1 == since && steady_from(
                            before,
                            j,
                            true,
                        );
                    assert(ticks[j].1 == since);
                    assert forall|k: int| j <= k < ticks.len() implies (
                    #[trigger] ticks[k]).0.predicate == true by {
                        if k < n {
                            assert(before[k].0.predicate == true);
                        }
                    }
                } else {
                    assert(ticks[n].1 == since);
                    assert(steady_from(ticks, n, true));
                }
            },
            TriggerPhase::Deactivating { since } => {
                if phase_after(before) == phase_after(ticks) {
                    let j = choose|j: int|
                        0 <= j < before.len() && (#[trigger] before[j]).1 == since && steady_from(
                            before,
                            j,
                            false,
                        );
                    assert(ticks[j].1 == since);
                    assert forall|k: int| j <= k < ticks.len() implies (
                    #[trigger] ticks[k]).0.predicate == false by {
                        if k < n {
                            assert(before[k].0.predicate == false);
                        }
                    }
                } else {
                    assert(ticks[n].1 == since);
                    assert(steady_from(ticks, n, false));
                }
            },
            _ => {},
        }
    }
}

/// A profile is only activated after its predicate has held at every tick for its
/// dwell time, and only deactivated after it has failed at every tick for its exit
/// dwell time.
pub proof fn law_actions_wait_for_the_dwell_time(
    ticks: Seq<(InputView, u64)>,
    i: InputView,
    now: u64,
)
    ensures
        emitted(phase_after(ticks), i, now).contains(ActionView::Activate(i.profile)) ==> i.predicate
            && exists|j: int|
            0 <= j < ticks.len() && elapsed((#[trigger] ticks[j]).1, now) >= i.dwell && steady_from(
                ticks,
                j,
                true,
            ),
        emitted(phase_after(ticks), i, now).contains(ActionView::Deactivate(i.profile))
            ==> !i.predicate && exists|j: int|
            0 <= j < ticks.len() && elapsed((#[trigger] ticks[j]).1, now) >= i.exit_dwell
                && steady_from(ticks, j, false),
{
    lemma_dwell_began(ticks);
}

/// A tick with a profile named once moves that profile by its own input alone.
pub proof fn law_profiles_are_independent(
    phases: Map<Seq<char>, TriggerPhase>,
    inputs: Seq<InputView>,
    now: u64,
    k: int,
)
    requires
        0 <= k < inputs.len(),
        forall|j: int| 0 <= j < inputs.len() && j != k ==> inputs[j].profile != inputs[k].profile,
    ensures
        phases_after(phases, inputs, now).dom().contains(inputs[k].profile),
        phases_after(phases, inputs, now)[inputs[k].profile] == next_phase(
            phase_of(phases, inputs[k].profile),
            inputs[k],
            now,
        ),
    decreases inputs.len(),
{
    let t = inputs.drop_last();
    if k == inputs.len() - 1 {
        assert forall|j: int| 0 <= j < t.len() implies t[j].profile != inputs[k].profile by {
            assert(inputs[j].profile != inputs[k].profile);
        }
        lemma_untouched(phases, t, now, inputs[k].profile);
    } else {
        assert forall|j: int| 0 <= j < t.len() && j != k implies t[j].profile != t[k].profile by {
            assert(inputs[j].profile != inputs[k].profile);
        }
        law_profiles_are_independent(phases, t, now, k);
        assert(inputs[inputs.len() - 1].profile != inputs[k].profile);
    }
}

proof fn lemma_untouched(
    phases: Map<Seq<char>, TriggerPhase>,
    inputs: Seq<InputView>,
    now: u64,
    profile: Seq<char>,
)
    requires
        forall|j: int| 0 <= j < inputs.len() ==> (#[trigger] inputs[j]).profile != profile,
    ensures
        phases_after(phases, inputs, now).dom().contains(profile) == phases.dom().contains(profile),
        phases.dom().contains(profile) ==> phases_after(phases, inputs, now)[profile]
            == phases[profile],
    decreases inputs.len(),
{
    if inputs.len() > 0 {
        let t = inputs.drop_last();
        assert forall|j: int| 0 <= j < t.len() implies (#[trigger] t[j]).profile != profile by {
            assert(inputs[j].profile != profile);
        }
        lemma_untouched(phases, t, now, profile);
        assert(inputs[inputs.len() - 1].profile != profile);
    }
}

/// Whether no two inputs name the same profile.
pub open spec fn distinct(inputs: Seq<InputView>) -> bool {
    forall|i: int, j: int|
        0 <= i < j < inputs.len() ==> (#[trigger] inputs[i]).profile != (
        #[trigger] inputs[j]).profile
}

/// The profile that an action is about.
pub open spec fn about(a: ActionView) -> Seq<char> {
    match a {
        ActionView::Activate(p) => p,
        ActionView::Deactivate(p) => p,
    }
}

/// What an input asks for, by the phase that its profile was in before the tick.
pub open spec fn asked(before: Map<Seq<char>, TriggerPhase>, i: InputView, now: u64) -> Seq<
    ActionView,
> {
    emitted(phase_of(before, i.profile), i, now)
}

/// What inputs of distinct profiles ask for is what each asks for by itself.
proof fn lemma_actions_of(before: Map<Seq<char>, TriggerPhase>, inputs: Seq<InputView>, now: u64)
    requires
        distinct(inputs),
    ensures
        forall|a: ActionView| #[trigger]
            actions_of(before, inputs, now).contains(a) <==> exists|k: int|
                0 <= k < inputs.len() && asked(before, #[trigger] inputs[k], now) == seq![a],
        actions_of(before, inputs, now).no_duplicates(),
        forall|i: int|
            0 <= i < actions_of(before, inputs, now).len() ==> named(inputs).contains(
                about(#[trigger] actions_of(before, inputs, now)[i]),
            ),
        forall|i: int, j: int, a: int, b: int|
            #![trigger actions_of(before, inputs, now)[i], actions_of(before, inputs, now)[j], inputs[a], inputs[b]]
            0 <= i < j < actions_of(before, inputs, now).len() && 0 <= a < inputs.len() && 0 <= b
                < inputs.len() && about(actions_of(before, inputs, now)[i]) == inputs[a].profile
                && about(actions_of(before, inputs, now)[j]) == inputs[b].profile ==> a < b,
    decreases inputs.len(),
{
    let all = actions_of(before, inputs, now);
    let names = inputs.map_values(|i: InputView| i.profile);
    if inputs.len() > 0 {
        let t = inputs.drop_last();
        let last = inputs.last();
        let n = inputs.len() - 1;
        let some = actions_of(before, t, now);
        assert forall|i: int, j: int| 0 <= i < j < t.len() implies (#[trigger] t[i]).profile != (
        #[trigger] t[j]).profile by {
            assert(inputs[i].profile != inputs[j].profile);
        }
        lemma_actions_of(before, t, now);
        assert forall|j: int| 0 <= j < t.len() implies (#[trigger] t[j]).profile != last.profile by {
            assert(inputs[j].profile != inputs[n].profile);
        }
        lemma_untouched(before, t, now, last.profile);
        let more = asked(before, last, now);
        assert(all == some + more);
        law_actions_alternate(phase_of(before, last.profile), last, now);
        let t_names = t.map_values(|i: InputView| i.profile);
        assert forall|i: int| 0 <= i < all.len() implies named(inputs).contains(
            about(#[trigger] all[i]),
        ) && (i < some.len() ==> about(all[i]) != last.profile) && (i >= some.len() ==> about(all[i])
            == last.profile) by {
            if i < some.len() {
                assert(all[i] == some[i]);
                assert(named(t).contains(about(some[i])));
                let k = choose|k: int| 0 <= k < t_names.len() && t_names[k] == about(some[i]);
                assert(names[k] == about(some[i]));
                assert(t[k].profile != last.profile);
            } else {
                assert(more[i - some.len()] == all[i]);
                assert(names[n] == last.profile);
            }
        }
        assert forall|a: ActionView| #[trigger] all.contains(a) <==> exists|k: int|
            0 <= k < inputs.len() && asked(before, #[trigger] inputs[k], now) == seq![a] by {
            if all.contains(a) {
                let i = choose|i: int| 0 <= i < all.len() && all[i] == a;
                if i < some.len() {
                    assert(some[i] == a);
                    assert(some.contains(a));
                    let k = choose|k: int|
                        0 <= k < t.len() && asked(before, #[trigger] t[k], now) == seq![a];
                    assert(asked(before, inputs[k], now) == seq![a]);
                } else {
                    assert(more =~= seq![a]);
                    assert(asked(before, inputs[n], now) == seq![a]);
                }
            }
            if exists|k: int|
                0 <= k < inputs.len() && asked(before, #[trigger] inputs[k], now) == seq![a] {
                let k = choose|k: int|
                    0 <= k < inputs.len() && asked(before, #[trigger] inputs[k], now) == seq![a];
                if k < n {
                    assert(asked(before, t[k], now) == seq![a]);
                    assert(some.contains(a));
                    let i = choose|i: int| 0 <= i < some.len() && some[i] == a;
                    assert(all[i] == a);
                } else {
                    assert(all[some.len() as int] == a);
                }
            }
        }
        assert forall|i: int, j: int| 0 <= i < all.len() && 0 <= j < all.len() && i != j implies all[i]
            != all[j] by {
            if i < some.len() && j < some.len() {
                assert(some[i] != some[j]);
            }
        }
        assert forall|i: int, j: int, a: int, b: int|
            #![trigger all[i], all[j], inputs[a], inputs[b]]
            0 <= i < j < all.len() && 0 <= a < inputs.len() && 0 <= b < inputs.len() && about(all[i])
                == inputs[a].profile && about(all[j]) == inputs[b].profile implies a < b by {
            assert(i < some.len());
            assert(all[i] == some[i]);
            assert(a < n);
            assert(t[a] == inputs[a]);
            if j < some.len() {
                assert(all[j] == some[j]);
                assert(b < n);
                assert(t[b] == inputs[b]);
                assert(about(some[i]) == t[a].profile && about(some[j]) == t[b].profile);
            } else if b < n {
                assert(t[b].profile != last.profile);
            }
        }
    }
}

/// Exactly when a tick switches profiles, where its inputs name distinct ones. A
/// profile is activated where its predicate holds and has done so for its dwell
/// time. It is deactivated where its predicate fails and has done so for its exit
/// dwell time, or where it is no longer named and was engaged. Each action comes
/// once; those that inputs ask for come first, in the order of the inputs.
pub proof fn law_ticks_switch_exactly_when_due(
    before: Map<Seq<char>, TriggerPhase>,
    inputs: Seq<InputView>,
    now: u64,
    actions: Seq<ActionView>,
    after: Map<Seq<char>, TriggerPhase>,
)
    requires
        distinct(inputs),
        ticked(before, inputs, now, actions, after),
    ensures
        forall|p: Seq<char>| #[trigger]
            actions.contains(ActionView::Activate(p)) <==> exists|k: int|
                0 <= k < inputs.len() && (#[trigger] inputs[k]).profile == p && inputs[k].predicate
                    && (phase_of(before, p) matches TriggerPhase::Activating { since } && elapsed(
                    since,
                    now,
                ) >= inputs[k].dwell),
        forall|p: Seq<char>| #[trigger]
            actions.contains(ActionView::Deactivate(p)) <==> (exists|k: int|
                0 <= k < inputs.len() && (#[trigger] inputs[k]).profile == p && !inputs[k].predicate
                    && (phase_of(before, p) matches TriggerPhase::Deactivating { since } && elapsed(
                    since,
                    now,
                ) >= inputs[k].exit_dwell)) || (!named(inputs).contains(p) && engaged(
                phase_of(before, p),
            )),
        actions.no_duplicates(),
        forall|i: int, j: int|
            0 <= i < j < actions.len() && named(inputs).contains(about(#[trigger] actions[j]))
                ==> named(inputs).contains(about(#[trigger] actions[i])),
        forall|i: int, j: int, a: int, b: int|
            #![trigger actions[i], actions[j], inputs[a], inputs[b]]
            0 <= i < j < actions.len() && 0 <= a < inputs.len() && 0 <= b < inputs.len() && about(
                actions[i],
            ) == inputs[a].profile && about(actions[j]) == inputs[b].profile ==> a < b,
{
    let own = actions_of(before, inputs, now);
    let phases = phases_after(before, inputs, now);
    let dropped = choose|dropped: Seq<ActionView>|
        #![trigger own + dropped]
        actions == own + dropped && retracts(phases, inputs, dropped);
    lemma_actions_of(before, inputs, now);
    let names = inputs.map_values(|i: InputView| i.profile);
    assert forall|k: int| 0 <= k < inputs.len() implies named(inputs).contains(
        (#[trigger] inputs[k]).profile,
    ) by {
        assert(names[k] == inputs[k].profile);
    }
    // A profile that is not named keeps its phase until it is dropped.
    assert forall|p: Seq<char>| !named(inputs).contains(p) implies #[trigger] phases.dom().contains(p)
        == before.dom().contains(p) && (before.dom().contains(p) ==> phases[p] == before[p]) by {
        assert forall|j: int| 0 <= j < inputs.len() implies (#[trigger] inputs[j]).profile != p by {
            assert(named(inputs).contains(inputs[j].profile));
        }
        lemma_untouched(before, inputs, now, p);
    }
    assert forall|i: int| 0 <= i < dropped.len() implies !named(inputs).contains(
        about(#[trigger] dropped[i]),
    ) && dropped[i] is Deactivate by {
        assert(dropped.contains(dropped[i]));
    }
    assert forall|a: ActionView| #[trigger] actions.contains(a) <==> own.contains(a)
        || dropped.contains(a) by {
        if actions.contains(a) {
            let i = choose|i: int| 0 <= i < actions.len() && actions[i] == a;
            if i < own.len() {
                assert(own[i] == a);
            } else {
                assert(dropped[i - own.len()] == a);
            }
        }
        if own.contains(a) {
            let i = choose|i: int| 0 <= i < own.len() && own[i] == a;
            assert(actions[i] == a);
        }
        if dropped.contains(a) {
            let i = choose|i: int| 0 <= i < dropped.len() && dropped[i] == a;
            assert(actions[own.len() + i] == a);
        }
    }
    assert forall|p: Seq<char>| #[trigger] actions.contains(ActionView::Activate(p)) <==> exists|
        k: int,
    |
        0 <= k < inputs.len() && (#[trigger] inputs[k]).profile == p && inputs[k].predicate && (
        phase_of(before, p) matches TriggerPhase::Activating { since } && elapsed(since, now)
            >= inputs[k].dwell) by {
        let a = ActionView::Activate(p);
        assert(!dropped.contains(a));
        if own.contains(a) {
            let k = choose|k: int|
                0 <= k < inputs.len() && asked(before, #[trigger] inputs[k], now) == seq![a];
            assert(asked(before, inputs[k], now)[0] == a);
            assert(inputs[k].profile == p);
        }
        if exists|k: int|
            0 <= k < inputs.len() && (#[trigger] inputs[k]).profile == p && inputs[k].predicate && (
            phase_of(before, p) matches TriggerPhase::Activating { since } && elapsed(since, now)
                >= inputs[k].dwell) {
            let k = choose|k: int|
                0 <= k < inputs.len() && (#[trigger] inputs[k]).profile == p && inputs[k].predicate
                    && (phase_of(before, p) matches TriggerPhase::Activating { since } && elapsed(
                    since,
                    now,
                ) >= inputs[k].dwell);
            assert(asked(before, inputs[k], now) == seq![a]);
            assert(own.contains(a));
        }
    }
    assert forall|p: Seq<char>| #[trigger] actions.contains(ActionView::Deactivate(p)) <==> (exists|
        k: int,
    |
        0 <= k < inputs.len() && (#[trigger] inputs[k]).profile == p && !inputs[k].predicate && (
        phase_of(before, p) matches TriggerPhase::Deactivating { since } && elapsed(since, now)
            >= inputs[k].exit_dwell)) || (!named(inputs).contains(p) && engaged(
        phase_of(before, p),
    )) by {
        let a = ActionView::Deactivate(p);
        if own.contains(a) {
            let k = choose|k: int|
                0 <= k < inputs.len() && asked(before, #[trigger] inputs[k], now) == seq![a];
            assert(asked(before, inputs[k], now)[0] == a);
            assert(inputs[k].profile == p);
        }
        if exists|k: int|
            0 <= k < inputs.len() && (#[trigger] inputs[k]).profile == p && !inputs[k].predicate && (
            phase_of(before, p) matches TriggerPhase::Deactivating { since } && elapsed(since, now)
                >= inputs[k].exit_dwell) {
            let k = choose|k: int|
                0 <= k < inputs.len() && (#[trigger] inputs[k]).profile == p && !inputs[k].predicate
                    && (phase_of(before, p) matches TriggerPhase::Deactivating { since } && elapsed(
                    since,
                    now,
                ) >= inputs[k].exit_dwell);
            assert(asked(before, inputs[k], now) == seq![a]);
            assert(own.contains(a));
        }
        assert(!named(inputs).contains(p) ==> (dropped.contains(a) <==> phases.dom().contains(p)
            && engaged(phases[p])));
    }
    assert forall|i: int, j: int| 0 <= i < actions.len() && 0 <= j < actions.len() && i
        != j implies actions[i] != actions[j] by {
        if i < own.len() && j < own.len() {
            assert(own[i] != own[j]);
        } else if i >= own.len() && j >= own.len() {
            assert(dropped[i - own.len()] != dropped[j - own.len()]);
        } else if i < own.len() {
            assert(named(inputs).contains(about(own[i])));
            assert(!named(inputs).contains(about(dropped[j - own.len()])));
        } else {
            assert(named(inputs).contains(about(own[j])));
            assert(!named(inputs).contains(about(dropped[i - own.len()])));
        }
    }
    assert forall|i: int, j: int|
        0 <= i < j < actions.len() && named(inputs).contains(
            about(#[trigger] actions[j]),
        ) implies named(inputs).contains(about(#[trigger] actions[i])) by {
        if j >= own.len() {
            assert(actions[j] == dropped[j - own.len()]);
        }
        assert(actions[i] == own[i]);
    }
    assert forall|i: int, j: int, a: int, b: int|
        #![trigger actions[i], actions[j], inputs[a], inputs[b]]
        0 <= i < j < actions.len() && 0 <= a < inputs.len() && 0 <= b < inputs.len() && about(
            actions[i],
        ) == inputs[a].profile && about(actions[j]) == inputs[b].profile implies a < b by {
        if j >= own.len() {
            assert(actions[j] == dropped[j - own.len()]);
            assert(named(inputs).contains(inputs[b].profile));
        }
        assert(actions[i] == own[i] && actions[j] == own[j]);
    }
}

/// The steps of a trigger. It begins to switch where its condition begins to hold, or
/// ceases to; it goes back at once where the condition goes back; and it switches, with
/// one action, where the condition has lasted for its time.
pub proof fn law_triggers_wait_and_switch(p: TriggerPhase, i: InputView, now: u64)
    ensures
        p is Inactive ==> emitted(p, i, now).len() == 0 && next_phase(p, i, now) == (if i.predicate {
            TriggerPhase::Activating { since: now }
        } else {
            p
        }),
        p is Active ==> emitted(p, i, now).len() == 0 && next_phase(p, i, now) == (if i.predicate {
            p
        } else {
            TriggerPhase::Deactivating { since: now }
        }),
        p matches TriggerPhase::Activating { since } ==> {
            let due = (if now < since {
                0
            } else {
                now - since
            }) >= i.dwell;
            &&& !i.predicate ==> next_phase(p, i, now) == TriggerPhase::Inactive && emitted(
                p,
                i,
                now,
            ).len() == 0
            &&& i.predicate && !due ==> next_phase(p, i, now) == p && emitted(p, i, now).len() == 0
            &&& i.predicate && due ==> next_phase(p, i, now) == TriggerPhase::Active && emitted(
                p,
                i,
                now,
            ) == seq![ActionView::Activate(i.profile)]
        },
        p matches TriggerPhase::Deactivating { since } ==> {
            let due = (if now < since {
                0
            } else {
                now - since
            }) >= i.exit_dwell;
            &&& i.predicate ==> next_phase(p, i, now) == TriggerPhase::Active && emitted(
                p,
                i,
                now,
            ).len() == 0
            &&& !i.predicate && !due ==> next_phase(p, i, now) == p && emitted(p, i, now).len() == 0
            &&& !i.predicate && due ==> next_phase(p, i, now) == TriggerPhase::Inactive && emitted(
                p,
                i,
                now,
            ) == seq![ActionView::Deactivate(i.profile)]
        },
{
}

} // verus!
