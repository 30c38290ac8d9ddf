//! How urgent a widget looks.
//!
//! A widget climbs by one level per tick at most, so that a short spike does not
//! turn the bar red at once. On the way down it takes the level of the sample
//! immediately. The tick that reaches the highest level is flagged.

use vstd::prelude::*;

verus! {

/// The levels of urgency, from the lowest to the highest.
#[derive(Debug, Clone, Copy, PartialEq, Eq, Structural)]
pub enum EscalationLevel {
    Ambient,
    Aware,
    Attention,
    Critical,
}

impl EscalationLevel {
    /// The place of the level, from 0 up.
    pub open spec fn rank(self) -> int {
        match self {
            EscalationLevel::Ambient => 0,
            EscalationLevel::Aware => 1,
            EscalationLevel::Attention => 2,
            EscalationLevel::Critical => 3,
        }
    }

    /// Whether this level is higher than another.
    pub fn above(self, other: EscalationLevel) -> (r: bool)
        ensures
            r == (self.rank() > other.rank()),
    {
        match (self, other) {
            (EscalationLevel::Ambient, _) => false,
            (EscalationLevel::Aware, EscalationLevel::Ambient) => true,
            (EscalationLevel::Aware, _) => false,
            (EscalationLevel::Attention, EscalationLevel::Ambient) => true,
            (EscalationLevel::Attention, EscalationLevel::Aware) => true,
            (EscalationLevel::Attention, _) => false,
            (EscalationLevel::Critical, EscalationLevel::Critical) => false,
            (EscalationLevel::Critical, _) => true,
        }
    }
}

/// The level one step up; the highest stays.
pub open spec fn one_up(level: EscalationLevel) -> EscalationLevel {
    match level {
        EscalationLevel::Ambient => EscalationLevel::Aware,
        EscalationLevel::Aware => EscalationLevel::Attention,
        EscalationLevel::Attention => EscalationLevel::Critical,
        EscalationLevel::Critical => EscalationLevel::Critical,
    }
}

/// The level after a tick.
pub open spec fn next_level(prev: EscalationLevel, raw: EscalationLevel) -> EscalationLevel {
    if raw.rank() > prev.rank() {
        one_up(prev)
    } else {
        raw
    }
}

/// The state of one widget.
#[derive(Debug, Clone, Copy, PartialEq, Eq, Structural)]
pub struct EscalationTracker {
    pub level: EscalationLevel,
}

/// What one tick came to.
#[derive(Debug, Clone, Copy, PartialEq, Eq, Structural)]
pub struct TickOutcome {
    /// The level to show.
    pub level: EscalationLevel,
    /// Whether this tick reached the highest level from a lower one.
    pub entered_critical: bool,
}

impl EscalationTracker {
    pub fn new() -> (r: Self)
        ensures
            r.level == EscalationLevel::Ambient,
    {
        EscalationTracker { level: EscalationLevel::Ambient }
    }

    pub fn current(&self) -> (r: EscalationLevel)
        ensures
            r == self.level,
    {
        self.level
    }

    /// One tick with the level of the latest sample.
    pub fn step(&mut self, raw: EscalationLevel) -> (r: TickOutcome)
        ensures
            final(self).level == next_level(old(self).level, raw),
            r.level == final(self).level,
            r.entered_critical == (r.level == EscalationLevel::Critical && old(self).level
                != EscalationLevel::Critical),
    {
        let prev = self.level;
        let next = if raw.above(prev) {
            step_up(prev)
        } else {
            raw
        };
        self.level = next;
        TickOutcome {
            level: next,
            entered_critical: next == EscalationLevel::Critical && prev
                != EscalationLevel::Critical,
        }
    }
}

fn step_up(level: EscalationLevel) -> (r: EscalationLevel)
    ensures
        r == one_up(level),
{
    match level {
        EscalationLevel::Ambient => EscalationLevel::Aware,
        EscalationLevel::Aware => EscalationLevel::Attention,
        EscalationLevel::Attention => EscalationLevel::Critical,
        EscalationLevel::Critical => EscalationLevel::Critical,
    }
}

/// A widget climbs by one level per tick at most.
pub proof fn law_climbs_one_level_at_most(prev: EscalationLevel, raw: EscalationLevel)
    ensures
        next_level(prev, raw).rank() <= prev.rank() + 1,
        next_level(prev, raw).rank() <= raw.rank(),
{
}

/// A widget drops to the level of the sample in one tick.
pub proof fn law_drops_at_once(prev: EscalationLevel, raw: EscalationLevel)
    requires
        raw.rank() <= prev.rank(),
    ensures
        next_level(prev, raw) == raw,
{
}

/// The level after several ticks.
pub open spec fn after(start: EscalationLevel, samples: Seq<EscalationLevel>) -> EscalationLevel
    decreases samples.len(),
{
    if samples.len() == 0 {
        start
    } else {
        next_level(after(start, samples.drop_last()), samples.last())
    }
}

/// A condition that lasts is shown in full after as many ticks as it is levels
/// away, from any start.
pub proof fn law_lasting_condition_is_reached(
    start: EscalationLevel,
    raw: EscalationLevel,
    samples: Seq<EscalationLevel>,
)
    requires
        forall|i: int| 0 <= i < samples.len() ==> samples[i] == raw,
        samples.len() >= 3,
    ensures
        after(start, samples) == raw,
{
    lemma_approach(start, raw, samples);
}

proof fn lemma_approach(
    start: EscalationLevel,
    raw: EscalationLevel,
    samples: Seq<EscalationLevel>,
)
    requires
        forall|i: int| 0 <= i < samples.len() ==> samples[i] == raw,
    ensures
        samples.len() >= 1 ==> after(start, samples).rank() <= raw.rank(),
        samples.len() >= 1 ==> after(start, samples).rank() >= raw.rank() || after(
            start,
            samples,
        ).rank() >= start.rank() + samples.len(),
    decreases samples.len(),
{
    if samples.len() > 0 {
        let t = samples.drop_last();
        assert forall|i: int| 0 <= i < t.len() implies t[i] == raw by {
            assert(samples[i] == raw);
        }
        lemma_approach(start, raw, t);
        assert(samples.last() == raw);
    }
}

/// The levels stand in the order in which they are named. A sample above the level
/// shown takes it up by exactly one; any other is shown at once.
pub proof fn law_a_tick_goes_one_up_or_all_the_way_down(
    prev: EscalationLevel,
    raw: EscalationLevel,
)
    ensures
        EscalationLevel::Ambient.rank() == 0,
        EscalationLevel::Aware.rank() == 1,
        EscalationLevel::Attention.rank() == 2,
        EscalationLevel::Critical.rank() == 3,
        raw.rank() > prev.rank() ==> next_level(prev, raw).rank() == prev.rank() + 1,
        raw.rank() <= prev.rank() ==> next_level(prev, raw) == raw,
{
}

} // verus!
