//! Points in time as plain values.

use chrono::{DateTime, Utc};
use vstd::prelude::*;

verus! {

/// A point in time in UTC: whole seconds since the Unix epoch, and the
/// nanoseconds within the second (a leap second counts as more of them in the
/// last second of a minute).
#[derive(Debug, Clone, Copy, PartialEq, Eq, Structural)]
pub struct UtcTime {
    pub secs: i64,
    pub nanos: u32,
}

/// The first second of the calendar's range, at the start of the year -262143.
pub const MIN_SECS: i64 = -8_334_601_228_800;

/// The last second of the calendar's range, at the end of the year 262142.
pub const MAX_SECS: i64 = 8_210_266_876_799;

/// The number of whole hours that a count of hours stands for: counts from 2^63
/// up are negative.
pub open spec fn signed_hours(hours: u64) -> int {
    if hours <= i64::MAX {
        hours as int
    } else {
        hours - 0x1_0000_0000_0000_0000
    }
}

impl UtcTime {
    /// Whether the time is one that the calendar can express.
    pub open spec fn valid(self) -> bool {
        &&& MIN_SECS <= self.secs <= MAX_SECS
        &&& self.nanos < 1_000_000_000 || (self.nanos < 2_000_000_000 && self.secs % 60 == 59)
    }

    /// Whether this time comes strictly before another.
    pub open spec fn lt(self, other: UtcTime) -> bool {
        self.secs < other.secs || (self.secs == other.secs && self.nanos < other.nanos)
    }

    /// The time `delta` seconds later, as seconds and nanoseconds. A time within
    /// a leap second leaves it: the second that follows is the next one.
    pub open spec fn shifted(self, delta: int) -> (int, int) {
        if self.nanos < 1_000_000_000 || delta == 0 {
            (self.secs + delta, self.nanos as int)
        } else if delta > 0 {
            (self.secs + delta, self.nanos - 1_000_000_000)
        } else {
            (self.secs + 1 + delta, self.nanos - 1_000_000_000)
        }
    }

    /// Whether the time `delta` seconds later is one that the calendar can
    /// express.
    pub open spec fn can_shift(self, delta: int) -> bool {
        MIN_SECS <= self.shifted(delta).0 <= MAX_SECS
    }

    /// The time `delta` seconds later.
    pub open spec fn shift_of(self, delta: int) -> UtcTime {
        UtcTime { secs: self.shifted(delta).0 as i64, nanos: self.shifted(delta).1 as u32 }
    }

    /// Whether the time `hours` hours back is one that the calendar can express.
    pub open spec fn fits_back(self, hours: u64) -> bool {
        self.can_shift(-signed_hours(hours) * 3600)
    }

    /// The time `hours` hours back.
    pub open spec fn back(self, hours: u64) -> UtcTime {
        self.shift_of(-signed_hours(hours) * 3600)
    }

    /// Whether this time comes strictly before another.
    pub fn is_before(&self, other: &UtcTime) -> (r: bool)
        ensures
            r == self.lt(*other),
    {
        self.secs < other.secs || (self.secs == other.secs && self.nanos < other.nanos)
    }

    /// The time `delta` seconds later, or nothing where the calendar cannot
    /// express it.
    pub fn checked_shift(&self, delta: i128) -> (r: Option<UtcTime>)
        requires
            -0x1_0000_0000_0000_0000_0000 <= delta <= 0x1_0000_0000_0000_0000_0000,
        ensures
            r == (if self.can_shift(delta as int) {
                Some(self.shift_of(delta as int))
            } else {
                None
            }),
    {
        let leap = self.nanos >= 1_000_000_000 && delta != 0;
        let nanos: u32 = if leap {
            self.nanos - 1_000_000_000
        } else {
            self.nanos
        };
        let secs: i128 = if leap && delta < 0 {
            self.secs as i128 + 1 + delta
        } else {
            self.secs as i128 + delta
        };
        if MIN_SECS as i128 <= secs && secs <= MAX_SECS as i128 {
            Some(UtcTime { secs: secs as i64, nanos })
        } else {
            None
        }
    }

    /// The time `hours` hours back, or nothing where the calendar cannot express
    /// it.
    pub fn checked_hours_back(&self, hours: u64) -> (r: Option<UtcTime>)
        ensures
            r == (if self.fits_back(hours) {
                Some(self.back(hours))
            } else {
                None
            }),
    {
        let signed: i128 = if hours <= 0x7FFF_FFFF_FFFF_FFFF {
            hours as i128
        } else {
            hours as i128 - 0x1_0000_0000_0000_0000
        };
        self.checked_shift(-(signed * 3600))
    }

    /// The date in the form `YYYY-MM-DD`.
    pub fn date(&self) -> (r: String)
        requires
            self.valid(),
        ensures
            r@ == date_text(self.secs, self.nanos),
    {
        format_date(self.secs, self.nanos)
    }

    /// The time in RFC 3339 form.
    pub fn rfc3339(&self) -> (r: String)
        requires
            self.valid(),
        ensures
            r@ == rfc3339_text(self.secs, self.nanos),
    {
        format_rfc3339(self.secs, self.nanos)
    }
}

/// The text that `DateTime::format` gives for a time with the pattern
/// `%Y-%m-%d`.
pub uninterp spec fn date_text(secs: i64, nanos: u32) -> Seq<char>;

/// The text that `DateTime::to_rfc3339` gives for a time.
pub uninterp spec fn rfc3339_text(secs: i64, nanos: u32) -> Seq<char>;

/// `DateTime::format` with the pattern `%Y-%m-%d`. Outside the calendar's range
/// there is no such time.
#[verifier::external_body]
fn format_date(secs: i64, nanos: u32) -> (r: String)
    requires
        (UtcTime { secs, nanos }).valid(),
    ensures
        r@ == date_text(secs, nanos),
{
    let time: DateTime<Utc> = DateTime::from_timestamp(secs, nanos).unwrap();
    time.format("%Y-%m-%d").to_string()
}

/// `DateTime::to_rfc3339`. Outside the calendar's range there is no such time.
#[verifier::external_body]
fn format_rfc3339(secs: i64, nanos: u32) -> (r: String)
    requires
        (UtcTime { secs, nanos }).valid(),
    ensures
        r@ == rfc3339_text(secs, nanos),
{
    let time: DateTime<Utc> = DateTime::from_timestamp(secs, nanos).unwrap();
    time.to_rfc3339()
}

/// A time that is so many seconds later; a leap second is left for the second after it.
pub proof fn law_shifting(t: UtcTime, delta: int)
    requires
        t.can_shift(delta),
    ensures
        t.nanos < 1_000_000_000 ==> t.shift_of(delta).secs == t.secs + delta && t.shift_of(delta).nanos
            == t.nanos,
        t.nanos >= 1_000_000_000 && delta > 0 ==> t.shift_of(delta).secs == t.secs + delta
            && t.shift_of(delta).nanos == t.nanos - 1_000_000_000,
        t.nanos >= 1_000_000_000 && delta < 0 ==> t.shift_of(delta).secs == t.secs + 1 + delta
            && t.shift_of(delta).nanos == t.nanos - 1_000_000_000,
{
}

/// Hours are taken as a signed number of sixty-four bits: those that do not fit in one come
/// out negative, and differ from it by a multiple of two to the sixty-four.
pub proof fn law_hours_are_signed(hours: u64)
    ensures
        hours <= 0x7FFF_FFFF_FFFF_FFFF ==> signed_hours(hours) == hours,
        hours > 0x7FFF_FFFF_FFFF_FFFF ==> signed_hours(hours) < 0,
        -0x8000_0000_0000_0000 <= signed_hours(hours) <= 0x7FFF_FFFF_FFFF_FFFF,
        (hours - signed_hours(hours)) % 0x1_0000_0000_0000_0000 == 0,
{
}

/// Going back by hours is going by so many seconds the other way.
pub proof fn law_hours_back(t: UtcTime, hours: u64)
    requires
        t.nanos < 1_000_000_000,
        hours <= 0x7FFF_FFFF_FFFF_FFFF,
    ensures
        t.fits_back(hours) <==> t.can_shift(-3600 * hours),
        t.fits_back(hours) ==> t.back(hours).nanos == t.nanos,
        t.fits_back(hours) ==> t.back(hours) == t.shift_of(-3600 * hours),
{
    assert(-signed_hours(hours) * 3600 == -3600 * hours);
}

} // verus!
