//! The instants up to which a transcript has been read.
use vstd::prelude::*;

verus! {

/// The first millisecond, counted from the epoch, that the calendar reaches.
pub const MIN_MILLIS: i64 = -8_334_601_228_800_000;

/// The last millisecond, counted from the epoch, that the calendar reaches.
pub const MAX_MILLIS: i64 = 8_210_266_876_799_999;

/// An instant that the calendar reaches: seconds from the epoch and nanoseconds within the
/// second. A second may last beyond its thousand milliseconds, for another thousand.
#[derive(Clone, Copy, Debug, PartialEq, Eq)]
pub struct Timestamp {
    secs: i64,
    nanos: u32,
}

/// The calendar reaches the instant.
pub open spec fn calendar_reaches(secs: int, nanos: int) -> bool {
    &&& MIN_MILLIS <= secs * 1000 <= MAX_MILLIS
    &&& 0 <= nanos < 2_000_000_000
}

/// Calls `chrono::DateTime::timestamp_millis` on the instant of the two numbers: the milliseconds
/// from the epoch, those within the second rounded down. `chrono::DateTime::from_timestamp` makes
/// the instant of the seconds wherever the calendar reaches them, and
/// `chrono::Timelike::with_nanosecond` puts in the nanoseconds, of any second, below two thousand
/// million.
#[verifier::external_body]
fn millis_of_instant(secs: i64, nanos: u32) -> (millis: i64)
    requires
        calendar_reaches(secs as int, nanos as int),
    ensures
        millis == secs * 1000 + nanos / 1_000_000,
{
    let second = chrono::DateTime::<chrono::Utc>::from_timestamp(secs, 0).unwrap().naive_utc();
    let instant = chrono::Timelike::with_nanosecond(&second, nanos).unwrap().and_utc();
    instant.timestamp_millis()
}

/// Calls `chrono::DateTime::from_timestamp_millis`: the seconds, rounded down, and the
/// nanoseconds behind them, unless the calendar does not reach that far.
#[verifier::external_body]
fn instant_of_millis(millis: i64) -> (instant: Option<(i64, u32)>)
    ensures
        match instant {
            Some((secs, nanos)) => {
                &&& MIN_MILLIS <= millis <= MAX_MILLIS
                &&& secs == millis as int / 1000
                &&& nanos == (millis as int % 1000) * 1_000_000
            },
            None => millis < MIN_MILLIS || MAX_MILLIS < millis,
        },
{
    chrono::DateTime::<chrono::Utc>::from_timestamp_millis(millis).map(
        |at| (at.timestamp(), at.timestamp_subsec_nanos()),
    )
}

impl Timestamp {
    /// Seconds from the epoch.
    pub closed spec fn seconds(self) -> int {
        self.secs as int
    }

    /// Nanoseconds within the second.
    pub closed spec fn nanoseconds(self) -> int {
        self.nanos as int
    }

    /// Milliseconds from the epoch, rounded down.
    pub open spec fn millis(self) -> int {
        self.seconds() * 1000 + self.nanoseconds() / 1_000_000
    }

    #[verifier::type_invariant]
    spec fn reached(self) -> bool {
        calendar_reaches(self.secs as int, self.nanos as int)
    }

    /// The instant at `secs` and `nanos`, where the calendar reaches it.
    pub fn new(secs: i64, nanos: u32) -> (at: Option<Timestamp>)
        ensures
            match at {
                Some(t) => {
                    &&& calendar_reaches(secs as int, nanos as int)
                    &&& t.seconds() == secs
                    &&& t.nanoseconds() == nanos
                },
                None => !calendar_reaches(secs as int, nanos as int),
            },
    {
        if secs < MIN_MILLIS / 1000 || secs > MAX_MILLIS / 1000 || nanos >= 2_000_000_000 {
            return None;
        }
        Some(Timestamp { secs, nanos })
    }

    /// The start of the count.
    pub fn epoch() -> (at: Timestamp)
        ensures
            at.seconds() == 0,
            at.nanoseconds() == 0,
    {
        Timestamp { secs: 0, nanos: 0 }
    }

    /// Seconds from the epoch.
    pub fn secs(&self) -> (secs: i64)
        ensures
            secs == self.seconds(),
    {
        self.secs
    }

    /// Nanoseconds within the second.
    pub fn nanos(&self) -> (nanos: u32)
        ensures
            nanos == self.nanoseconds(),
    {
        self.nanos
    }

    /// Milliseconds from the epoch.
    pub fn timestamp_millis(&self) -> (millis: i64)
        ensures
            millis == self.millis(),
    {
        proof {
            use_type_invariant(self);
        }
        millis_of_instant(self.secs, self.nanos)
    }

    /// The instant so many milliseconds from the epoch, where the calendar reaches it.
    pub fn from_timestamp_millis(millis: i64) -> (at: Option<Timestamp>)
        ensures
            match at {
                Some(t) => {
                    &&& MIN_MILLIS <= millis <= MAX_MILLIS
                    &&& t.seconds() == millis as int / 1000
                    &&& t.nanoseconds() == (millis as int % 1000) * 1_000_000
                    &&& t.millis() == millis
                },
                None => millis < MIN_MILLIS || MAX_MILLIS < millis,
            },
    {
        match instant_of_millis(millis) {
            Some((secs, nanos)) => Some(Timestamp { secs, nanos }),
            None => None,
        }
    }
}

/// The mark that a reader is handed to resume from; only a timestamp fits this one.
#[derive(Clone, Copy, Debug, PartialEq, Eq)]
pub enum Watermark {
    Timestamp(Timestamp),
    Other,
}

/// An instant in milliseconds counts its seconds by thousands, and its nanoseconds by millions,
/// rounded down.
pub proof fn law_milliseconds_of_an_instant(at: Timestamp)
    ensures
        at.millis() * 1_000_000 <= at.seconds() * 1_000_000_000 + at.nanoseconds(),
        at.seconds() * 1_000_000_000 + at.nanoseconds() < (at.millis() + 1) * 1_000_000,
{
}

} // verus!
