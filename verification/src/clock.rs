//! Timestamps for file metadata, and the capability that supplies them.

use vstd::prelude::*;

verus! {

/// An instant in local time, as the filesystem stamps it on directory
/// entries: the year counted from a fixed epoch, month and day zero-indexed.
#[derive(Clone, Copy, Debug, PartialEq, Eq, Structural)]
pub struct Timestamp {
    /// Years since the epoch (1970).
    pub year_since_1970: u8,
    /// Month, `0` through `11`.
    pub zero_indexed_month: u8,
    /// Day of the month, `0` through `30`.
    pub zero_indexed_day: u8,
    /// Hour, `0` through `23`.
    pub hours: u8,
    /// Minute, `0` through `59`.
    pub minutes: u8,
    /// Second, `0` through `59`.
    pub seconds: u8,
}

impl Timestamp {
    /// Every field within its calendar range.
    pub open spec fn wf(self) -> bool {
        self.zero_indexed_month <= 11
            && self.zero_indexed_day <= 30
            && self.hours <= 23
            && self.minutes <= 59
            && self.seconds <= 59
    }
}

/// A capability that supplies a timestamp whenever the filesystem needs to
/// stamp a created or modified file. It has no side effects and no failure
/// mode; a real-time clock can be substituted without touching the
/// controller's contract.
pub trait Clock {
    /// The instant this source currently stands at.
    spec fn spec_timestamp(&self) -> Timestamp;

    /// Returns the current time.
    fn get_timestamp(&self) -> (r: Timestamp)
        ensures
            r == self.spec_timestamp(),
            r.wf(),
    ;
}

/// Keeps track of when files are made: a time source that returns one
/// hard-coded instant regardless of when it is called, standing in for a
/// real-time clock that this design leaves unwired.
pub struct FakeClock;

impl Clock for FakeClock {
    open spec fn spec_timestamp(&self) -> Timestamp {
        Timestamp {
            year_since_1970: 30,
            zero_indexed_month: 2,
            zero_indexed_day: 4,
            hours: 8,
            minutes: 31,
            seconds: 2,
        }
    }

    fn get_timestamp(&self) -> (r: Timestamp) {
        Timestamp {
            year_since_1970: 30,
            zero_indexed_month: 2,
            zero_indexed_day: 4,
            hours: 8,
            minutes: 31,
            seconds: 2,
        }
    }
}

} // verus!
