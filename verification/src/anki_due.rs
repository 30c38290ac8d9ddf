//! How many cards are due for review.

use vstd::prelude::*;

use crate::reference_library::count;
use crate::time::UtcTime;

verus! {

pub const ANKI_DUE_WIDGET_ID: &'static str = "anki-due";

pub const ANKI_DUE_WIDGET_TYPE: &'static str = "anki_due";

/// How many cards are asked for.
pub const DUE_QUERY_LIMIT: u32 = 50_000;

/// Whether a card that is due at a time is due by now.
pub open spec fn is_due(at: UtcTime, now: UtcTime) -> bool {
    !now.lt(at)
}

/// The module behind the counter.
#[derive(Debug, Clone, Copy, PartialEq, Eq)]
pub struct AnkiDueModule;

impl AnkiDueModule {
    pub fn new() -> (r: Self) {
        AnkiDueModule
    }

    /// How many cards are due by now, of those that the store gave.
    pub fn due_count(due_at: &[UtcTime], now: UtcTime) -> (r: u32)
        requires
            due_at@.len() <= u32::MAX,
        ensures
            r == count(due_at@, |t: UtcTime| is_due(t, now)),
    {
        let ghost p = |t: UtcTime| is_due(t, now);
        let mut n: u32 = 0;
        let mut i: usize = 0;
        while i < due_at.len()
            invariant
                i <= due_at@.len(),
                due_at@.len() <= u32::MAX,
                n <= i,
                p == (|t: UtcTime| is_due(t, now)),
                n == count(due_at@.take(i as int), p),
            decreases due_at@.len() - i,
        {
            assert(due_at@.take(i + 1).drop_last() =~= due_at@.take(i as int));
            if !now.is_before(&due_at[i]) {
                n += 1;
            }
            i += 1;
        }
        assert(due_at@.take(i as int) =~= due_at@);
        n
    }
}

/// A card is due from its time on: the second, and within it the nanosecond, at which it
/// is due counts.
pub proof fn law_cards_are_due_from_their_time_on(at: UtcTime, now: UtcTime)
    ensures
        is_due(at, now) <==> at.secs < now.secs || (at.secs == now.secs && at.nanos <= now.nanos),
{
}

} // verus!
