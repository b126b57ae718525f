//! Instants on the UTC time line, counted from the Unix epoch.

use chrono::DateTime;
use chrono::Utc;
use std::str::FromStr;
use vstd::prelude::*;

verus! {

/// Bound on the sub-second part. A value of a thousand million or more marks
/// a leap second.
pub const NANOS_LIMIT: u32 = 2_000_000_000;

/// The mathematical content of a [`Timestamp`].
pub struct TimestampView {
    pub seconds: int,
    pub nanos: int,
}

impl TimestampView {
    pub open spec fn wf(self) -> bool {
        &&& i64::MIN <= self.seconds <= i64::MAX
        &&& 0 <= self.nanos < NANOS_LIMIT
    }
}

/// An instant in UTC: whole seconds since 1970-01-01T00:00:00Z and the
/// nanoseconds past that second.
#[derive(Debug, Clone, Copy, PartialEq, Eq, Structural)]
pub struct Timestamp {
    seconds: i64,
    nanos: u32,
}

impl View for Timestamp {
    type V = TimestampView;

    closed spec fn view(&self) -> TimestampView {
        TimestampView { seconds: self.seconds as int, nanos: self.nanos as int }
    }
}

/// What `DateTime::<Utc>::from_str` makes of a text, as the seconds and
/// nanoseconds of the instant in UTC; `None` where it reports an error.
pub uninterp spec fn timestamp_of_text(text: Seq<char>) -> Option<(i64, u32)>;

/// The instant that a text spells, if it spells one.
pub open spec fn parse_timestamp(text: Seq<char>) -> Option<TimestampView> {
    match timestamp_of_text(text) {
        Some((seconds, nanos)) => if nanos < NANOS_LIMIT {
            Some(TimestampView { seconds: seconds as int, nanos: nanos as int })
        } else {
            None
        },
        None => None,
    }
}

/// Calls `DateTime::<Utc>::from_str`, which reads a date, a time and a zone
/// offset and moves the instant to UTC, and takes the result apart with
/// `timestamp` and `timestamp_subsec_nanos`. The contract only gives the
/// outcome its name, [`timestamp_of_text`].
#[verifier::external_body]
fn datetime_utc_from_str(text: &str) -> (parts: Option<(i64, u32)>)
    ensures
        parts == timestamp_of_text(text@),
{
    match DateTime::<Utc>::from_str(text) {
        Ok(instant) => Some((instant.timestamp(), instant.timestamp_subsec_nanos())),
        Err(_) => None,
    }
}

impl Timestamp {
    /// Holds of every instant: the constructors see to it.
    #[verifier::type_invariant]
    pub open spec fn wf(&self) -> bool {
        self@.wf()
    }

    /// Builds an instant from its two parts, if the sub-second part is in
    /// range.
    pub fn new(seconds: i64, nanos: u32) -> (r: Option<Timestamp>)
        ensures
            r is Some <==> nanos < NANOS_LIMIT,
            r is Some ==> r->0@ == (TimestampView { seconds: seconds as int, nanos: nanos as int }),
            r is Some ==> r->0.wf(),
    {
        if nanos < NANOS_LIMIT {
            Some(Timestamp { seconds, nanos })
        } else {
            None
        }
    }

    /// Reads an instant from text that carries a zone, such as
    /// `2020-01-02T03:04:05+01:00`. The text is read by
    /// `DateTime::<Utc>::from_str`, which moves the instant to UTC.
    pub fn parse(text: &str) -> (r: Option<Timestamp>)
        ensures
            r is Some <==> parse_timestamp(text@) is Some,
            r is Some ==> r->0@ == parse_timestamp(text@)->0,
            r is Some ==> r->0.wf(),
    {
        match datetime_utc_from_str(text) {
            Some((seconds, nanos)) => Timestamp::new(seconds, nanos),
            None => None,
        }
    }

    pub fn seconds(&self) -> (r: i64)
        ensures
            r == self@.seconds,
    {
        self.seconds
    }

    pub fn nanos(&self) -> (r: u32)
        ensures
            r == self@.nanos,
    {
        self.nanos
    }

    /// Whether two instants are the same.
    pub fn same(&self, other: &Timestamp) -> (r: bool)
        ensures
            r == (self@ == other@),
    {
        self.seconds == other.seconds && self.nanos == other.nanos
    }
}

} // verus!
