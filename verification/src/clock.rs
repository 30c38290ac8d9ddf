//! The calendar below the clock: which events come.

use vstd::prelude::*;

use crate::text;
use crate::time::{rfc3339_text, UtcTime};

verus! {

/// How far ahead events are looked for: seven days, in seconds.
pub const LOOKAHEAD_SECS: i128 = 604_800;

/// How many events are asked for.
pub const MAX_EVENTS: u32 = 12;

/// A calendar event of the store.
#[derive(Debug, Clone, PartialEq, Eq)]
pub struct CalendarEvent {
    pub title: String,
    pub start_at: UtcTime,
    pub end_at: UtcTime,
    pub location: Option<String>,
}

/// An event as the shell is told of it.
#[derive(Debug, Clone, PartialEq, Eq)]
pub struct UpcomingEvent {
    pub title: String,
    pub start_at: String,
    pub end_at: String,
    pub location: Option<String>,
}

/// What an [`UpcomingEvent`] holds.
pub struct UpcomingView {
    pub title: Seq<char>,
    pub start_at: Seq<char>,
    pub end_at: Seq<char>,
    pub location: Option<Seq<char>>,
}

impl DeepView for UpcomingEvent {
    type V = UpcomingView;

    open spec fn deep_view(&self) -> UpcomingView {
        UpcomingView {
            title: self.title@,
            start_at: self.start_at@,
            end_at: self.end_at@,
            location: self.location.deep_view(),
        }
    }
}

/// What the shell is told.
#[derive(Debug, Clone, PartialEq, Eq)]
pub struct ClockHub {
    pub generated_at: String,
    pub events: Vec<UpcomingEvent>,
}

/// An event as the shell is told of it.
pub open spec fn upcoming_event(e: CalendarEvent) -> UpcomingView {
    UpcomingView {
        title: e.title@,
        start_at: rfc3339_text(e.start_at.secs, e.start_at.nanos),
        end_at: rfc3339_text(e.end_at.secs, e.end_at.nanos),
        location: e.location.deep_view(),
    }
}

/// Whether the times of all events are ones that the calendar can express.
pub open spec fn events_valid(events: Seq<CalendarEvent>) -> bool {
    forall|i: int|
        0 <= i < events.len() ==> (#[trigger] events[i]).start_at.valid()
            && events[i].end_at.valid()
}

/// The module behind the calendar.
#[derive(Debug, Clone, Copy, PartialEq, Eq)]
pub struct ClockModule;

impl ClockModule {
    pub fn new() -> (r: Self) {
        ClockModule
    }

    /// The latest time that an event may begin at to be asked for.
    pub fn horizon(&self, now: UtcTime) -> (r: UtcTime)
        requires
            now.can_shift(LOOKAHEAD_SECS as int),
        ensures
            r == now.shift_of(LOOKAHEAD_SECS as int),
    {
        match now.checked_shift(LOOKAHEAD_SECS) {
            Some(t) => t,
            None => now,
        }
    }

    /// What the shell is told, given the events that the store found, in its
    /// order.
    pub fn refresh(&self, events: &[CalendarEvent], now: UtcTime) -> (r: ClockHub)
        requires
            now.valid(),
            events_valid(events@),
        ensures
            r.generated_at@ == rfc3339_text(now.secs, now.nanos),
            r.events.deep_view() == events@.map_values(|e: CalendarEvent| upcoming_event(e)),
    {
        let ghost all = events@.map_values(|e: CalendarEvent| upcoming_event(e));
        let mut out: Vec<UpcomingEvent> = Vec::new();
        let mut i: usize = 0;
        assert(out.deep_view() =~= all.take(0));
        while i < events.len()
            invariant
                i <= events@.len(),
                events_valid(events@),
                all == events@.map_values(|e: CalendarEvent| upcoming_event(e)),
                out.deep_view() == all.take(i as int),
            decreases events@.len() - i,
        {
            let ghost before = out.deep_view();
            let e = &events[i];
            out.push(
                UpcomingEvent {
                    title: e.title.clone(),
                    start_at: e.start_at.rfc3339(),
                    end_at: e.end_at.rfc3339(),
                    location: text::clone_opt(&e.location),
                },
            );
            assert(out.deep_view() =~= before.push(all[i as int]));
            assert(out.deep_view() =~= all.take(i + 1));
            i += 1;
        }
        assert(all.take(i as int) =~= all);
        ClockHub { generated_at: now.rfc3339(), events: out }
    }
}

/// An event is shown with its title and place, and with its own times of start and end.
pub proof fn law_events_are_shown(e: CalendarEvent)
    ensures
        upcoming_event(e).title == e.title@,
        upcoming_event(e).location == e.location.deep_view(),
        upcoming_event(e).start_at == rfc3339_text(e.start_at.secs, e.start_at.nanos),
        upcoming_event(e).end_at == rfc3339_text(e.end_at.secs, e.end_at.nanos),
{
}

} // verus!
