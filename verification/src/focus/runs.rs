//! What a run of ticks asks for.

use vstd::prelude::*;

use super::tracker::{
    about, distinct, engaged, law_profiles_are_independent, law_ticks_switch_exactly_when_due, named,
    next_phase, phase_of, ticked, ActionView, InputView, TriggerPhase,
};

verus! {

/// One tick of a run: the phases before it, its inputs and its time, what it asked
/// for, and the phases after it.
pub struct Tick {
    pub before: Map<Seq<char>, TriggerPhase>,
    pub inputs: Seq<InputView>,
    pub now: u64,
    pub actions: Seq<ActionView>,
    pub after: Map<Seq<char>, TriggerPhase>,
}

/// Whether some ticks are those of one tracker from the start, each with inputs that
/// name distinct profiles.
pub open spec fn is_run(ticks: Seq<Tick>) -> bool {
    &&& ticks.len() > 0 ==> ticks[0].before == Map::<Seq<char>, TriggerPhase>::empty()
    &&& forall|k: int| 0 < k < ticks.len() ==> (#[trigger] ticks[k]).before == ticks[k - 1].after
    &&& forall|k: int| 0 <= k < ticks.len() ==> distinct((#[trigger] ticks[k]).inputs)
    &&& forall|k: int|
        0 <= k < ticks.len() ==> {
            let t = #[trigger] ticks[k];
            ticked(t.before, t.inputs, t.now, t.actions, t.after)
        }
}

/// Whether an action is about a profile.
pub open spec fn is_about(p: Seq<char>) -> spec_fn(ActionView) -> bool {
    |a: ActionView| about(a) == p
}

/// What a run asked for of one profile, in order.
pub open spec fn actions_about(ticks: Seq<Tick>, p: Seq<char>) -> Seq<ActionView>
    decreases ticks.len(),
{
    if ticks.len() == 0 {
        Seq::empty()
    } else {
        actions_about(ticks.drop_last(), p) + ticks.last().actions.filter(is_about(p))
    }
}

/// How many ticks of a run name a profile.
pub open spec fn times_named(ticks: Seq<Tick>, p: Seq<char>) -> nat
    decreases ticks.len(),
{
    if ticks.len() == 0 {
        0
    } else {
        times_named(ticks.drop_last(), p) + if named(ticks.last().inputs).contains(p) {
            1nat
        } else {
            0nat
        }
    }
}

/// The phase of a profile after a run.
pub open spec fn phase_at_end(ticks: Seq<Tick>, p: Seq<char>) -> TriggerPhase {
    if ticks.len() == 0 {
        TriggerPhase::Inactive
    } else {
        phase_of(ticks.last().after, p)
    }
}

/// Whether actions about a profile alternate, and start with its activation.
pub open spec fn alternates(actions: Seq<ActionView>, p: Seq<char>) -> bool {
    forall|i: int|
        0 <= i < actions.len() ==> #[trigger] actions[i] == if i % 2 == 0 {
            ActionView::Activate(p)
        } else {
            ActionView::Deactivate(p)
        }
}

/// Of elements that are all different, a filter that only one can pass keeps that
/// one.
proof fn lemma_filter_one(s: Seq<ActionView>, f: spec_fn(ActionView) -> bool, x: ActionView)
    requires
        s.no_duplicates(),
        f(x),
        forall|y: ActionView| #[trigger] s.contains(y) && f(y) ==> y == x,
    ensures
        s.filter(f) == if s.contains(x) {
            seq![x]
        } else {
            Seq::empty()
        },
    decreases s.len(),
{
    reveal(Seq::filter);
    if s.len() > 0 {
        let t = s.drop_last();
        assert forall|y: ActionView| #[trigger] t.contains(y) && f(y) implies y == x by {
            let i = choose|i: int| 0 <= i < t.len() && t[i] == y;
            assert(s[i] == y);
            assert(s.contains(y));
        }
        lemma_filter_one(t, f, x);
        assert(s[s.len() - 1] == s.last());
        assert(s.contains(s.last()));
        if t.contains(x) {
            let i = choose|i: int| 0 <= i < t.len() && t[i] == x;
            assert(s[i] == x);
            assert(s.last() != x);
        } else if s.contains(x) {
            let i = choose|i: int| 0 <= i < s.len() && s[i] == x;
            if i < t.len() {
                assert(t[i] == x);
            }
            assert(s.last() == x);
        }
        if f(s.last()) {
            assert(s.last() == x);
        }
        assert(s.filter(f) =~= if s.contains(x) {
            seq![x]
        } else {
            Seq::empty()
        });
    } else {
        assert(s.filter(f) =~= Seq::empty());
    }
}

/// What one tick asks of one profile: to activate it where it becomes engaged, to
/// deactivate it where it no longer is, and nothing else.
proof fn lemma_one_tick(t: Tick, p: Seq<char>)
    requires
        distinct(t.inputs),
        ticked(t.before, t.inputs, t.now, t.actions, t.after),
    ensures
        t.actions.filter(is_about(p)) == (if engaged(phase_of(t.before, p)) == engaged(
            phase_of(t.after, p),
        ) {
            Seq::empty()
        } else if engaged(phase_of(t.after, p)) {
            seq![ActionView::Activate(p)]
        } else {
            seq![ActionView::Deactivate(p)]
        }),
        !named(t.inputs).contains(p) ==> phase_of(t.after, p) == TriggerPhase::Inactive,
        engaged(phase_of(t.after, p)) && !engaged(phase_of(t.before, p)) ==> named(
            t.inputs,
        ).contains(p) && phase_of(t.before, p) is Activating,
{
    law_ticks_switch_exactly_when_due(t.before, t.inputs, t.now, t.actions, t.after);
    let names = t.inputs.map_values(|i: InputView| i.profile);
    let on = ActionView::Activate(p);
    let off = ActionView::Deactivate(p);
    let before = phase_of(t.before, p);
    if named(t.inputs).contains(p) {
        let k = choose|k: int| 0 <= k < names.len() && names[k] == p;
        let i = t.inputs[k];
        assert(i.profile == p);
        assert forall|j: int| 0 <= j < t.inputs.len() && j != k implies t.inputs[j].profile
            != t.inputs[k].profile by {
            if j < k {
                assert(t.inputs[j].profile != t.inputs[k].profile);
            } else {
                assert(t.inputs[k].profile != t.inputs[j].profile);
            }
        }
        law_profiles_are_independent(t.before, t.inputs, t.now, k);
        assert(phase_of(t.after, p) == next_phase(before, i, t.now));
        assert forall|j: int| 0 <= j < t.inputs.len() && (#[trigger] t.inputs[j]).profile
            == p implies j == k by {
        }
        assert(t.actions.contains(on) <==> !engaged(before) && engaged(phase_of(t.after, p)));
        assert(t.actions.contains(off) <==> engaged(before) && !engaged(phase_of(t.after, p)));
    } else {
        assert forall|j: int| 0 <= j < t.inputs.len() implies (#[trigger] t.inputs[j]).profile
            != p by {
            assert(names[j] == t.inputs[j].profile);
        }
        assert(!t.after.dom().contains(p));
        assert(!t.actions.contains(on));
        assert(t.actions.contains(off) <==> engaged(before));
    }
    let x = if t.actions.contains(on) {
        on
    } else {
        off
    };
    assert forall|y: ActionView| #[trigger] t.actions.contains(y) && is_about(p)(y) implies y
        == x by {
        assert(y == on || y == off);
    }
    lemma_filter_one(t.actions, is_about(p), x);
}

/// Over a whole run, whatever its inputs, the actions about a profile alternate and
/// start with its activation; and there is none before the second tick that names
/// it, even where its dwell time is zero. The profile is engaged at the end exactly
/// where its last action activated it.
pub proof fn law_runs_alternate(ticks: Seq<Tick>, p: Seq<char>)
    requires
        is_run(ticks),
    ensures
        alternates(actions_about(ticks, p), p),
        actions_about(ticks, p).len() > 0 ==> times_named(ticks, p) >= 2,
        engaged(phase_at_end(ticks, p)) <==> actions_about(ticks, p).len() % 2 == 1,
        phase_at_end(ticks, p) != TriggerPhase::Inactive ==> times_named(ticks, p) >= 1,
    decreases ticks.len(),
{
    if ticks.len() > 0 {
        let earlier = ticks.drop_last();
        let t = ticks.last();
        let n = ticks.len() - 1;
        assert(is_run(earlier)) by {
            assert forall|k: int| 0 < k < earlier.len() implies (#[trigger] earlier[k]).before
                == earlier[k - 1].after by {
                assert(ticks[k].before == ticks[k - 1].after);
            }
            assert forall|k: int| 0 <= k < earlier.len() implies distinct(
                (#[trigger] earlier[k]).inputs,
            ) by {
                assert(distinct(ticks[k].inputs));
            }
            assert forall|k: int| 0 <= k < earlier.len() implies {
                let t = #[trigger] earlier[k];
                ticked(t.before, t.inputs, t.now, t.actions, t.after)
            } by {
                assert(earlier[k] == ticks[k]);
            }
        }
        law_runs_alternate(earlier, p);
        assert(ticks[n] == t);
        if n > 0 {
            assert(t.before == ticks[n - 1].after);
            assert(earlier.last() == ticks[n - 1]);
        }
        assert(phase_of(t.before, p) == phase_at_end(earlier, p));
        lemma_one_tick(t, p);
        let so_far = actions_about(earlier, p);
        let all = actions_about(ticks, p);
        assert forall|i: int| 0 <= i < all.len() implies #[trigger] all[i] == if i % 2 == 0 {
            ActionView::Activate(p)
        } else {
            ActionView::Deactivate(p)
        } by {
            if i < so_far.len() {
                assert(all[i] == so_far[i]);
            } else {
                assert(i == so_far.len());
            }
        }
    }
}

} // verus!
