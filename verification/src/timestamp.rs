//! Calendar time as the `time` crate reports it.

use vstd::prelude::*;

verus! {

/// A broken-down calendar time, field for field what `time::Tm` holds.
#[derive(Clone, Copy, Debug, PartialEq, Eq, Structural)]
pub struct Time {
    /// Seconds after the minute.
    pub sec: i32,
    /// Minutes after the hour.
    pub min: i32,
    /// Hours after midnight.
    pub hour: i32,
    /// Day of the month, starting at 1.
    pub mday: i32,
    /// Months since January.
    pub mon: i32,
    /// Years since 1900.
    pub year: i32,
    /// Days since Sunday.
    pub wday: i32,
    /// Days since the first of January.
    pub yday: i32,
    /// Daylight saving time flag.
    pub isdst: i32,
    /// Seconds east of UTC.
    pub utcoff: i32,
    /// Nanoseconds after the second.
    pub nsec: i32,
}

impl Time {
    /// The time of day, the date and the day of the week lie in the ranges
    /// of a calendar time, and the time is one read in UTC. Of the year, of
    /// the day of the year and of the daylight saving flag this says nothing.
    pub open spec fn is_utc_reading(self) -> bool {
        &&& 0 <= self.sec <= 60
        &&& 0 <= self.min <= 59
        &&& 0 <= self.hour <= 23
        &&& 1 <= self.mday <= 31
        &&& 0 <= self.mon <= 11
        &&& 0 <= self.wday <= 6
        &&& 0 <= self.nsec < 1_000_000_000
        &&& self.utcoff == 0
    }
}

/// Reads the clock through `time::now_utc`.
///
/// Not proved: that on every platform the crate fills the time of day, the
/// day of the month, the month and the day of the week within the ranges
/// that `time::Tm` documents, the nanoseconds below a second, and the offset
/// from UTC with zero. The day of the year is left out: the crate counts it
/// in its own way on one platform and may then pass the documented range.
/// Two readings need not agree, so nothing else is said of the result.
#[verifier::external_body]
pub(crate) fn now_utc() -> (now: Time)
    ensures
        now.is_utc_reading(),
{
    let tm = time::now_utc();
    Time {
        sec: tm.tm_sec,
        min: tm.tm_min,
        hour: tm.tm_hour,
        mday: tm.tm_mday,
        mon: tm.tm_mon,
        year: tm.tm_year,
        wday: tm.tm_wday,
        yday: tm.tm_yday,
        isdst: tm.tm_isdst,
        utcoff: tm.tm_utcoff,
        nsec: tm.tm_nsec,
    }
}

} // verus!
