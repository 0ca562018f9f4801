//! Instants on the UTC time line, and the calendar work that is delegated to
//! `chrono`.

use vstd::prelude::*;

verus! {

/// An instant in UTC.
///
/// `secs` counts the non-leap seconds since 1970-01-01 00:00:00 UTC. `nanos`
/// is the part of a second that follows; while a leap second is being
/// inserted it runs from 1_000_000_000 up, with `secs` held at the second
/// before.
#[derive(Clone, Copy, Debug, PartialEq, Eq, Structural)]
pub struct Timestamp {
    pub secs: i64,
    pub nanos: u32,
}

/// The format of a creation stamp in `chrono`'s notation: date, time of
/// day, and the abbreviation of a time zone.
pub open spec fn created_format() -> Seq<char> {
    "%Y-%m-%d %H:%M:%S %Z"@
}

/// What `chrono::NaiveDateTime::parse_from_str` makes of `text` under
/// `format`: nothing where it reports an error, else the date and time that
/// it read, taken as UTC and given as seconds since the epoch and
/// nanoseconds.
pub uninterp spec fn parsed_utc(text: Seq<char>, format: Seq<char>) -> Option<(i64, u32)>;

/// The whole days that `chrono` counts from one instant to another:
/// `signed_duration_since` followed by `num_days`, on the values that
/// `DateTime::from_timestamp` makes of the seconds and nanoseconds. Nothing
/// where `from_timestamp` refuses either pair.
pub uninterp spec fn elapsed_days(from_secs: i64, from_nanos: u32, to_secs: i64, to_nanos: u32) -> Option<i64>;

/// The instant that a creation stamp names, if it has the format of one.
/// The zone abbreviation is passed over: the date and time are UTC.
pub open spec fn created_instant(created: Seq<char>) -> Option<Timestamp> {
    match parsed_utc(created, created_format()) {
        Some((secs, nanos)) => Some((Timestamp { secs, nanos })),
        None => None,
    }
}

/// Calls `chrono::NaiveDateTime::parse_from_str(text, format)` and reads the
/// result as UTC (`and_utc`, `timestamp`, `timestamp_subsec_nanos`).
///
/// Trusted: the result is a function of `text` and `format` alone, named
/// [`parsed_utc`]. Nothing is claimed about which texts parse.
#[verifier::external_body]
pub(crate) fn parse_utc(text: &str, format: &str) -> (parsed: Option<Timestamp>)
    ensures
        parsed == match parsed_utc(text@, format@) {
            Some((secs, nanos)) => Some((Timestamp { secs, nanos })),
            None => None,
        },
{
    match chrono::NaiveDateTime::parse_from_str(text, format) {
        Ok(naive) => {
            let utc = naive.and_utc();
            Some(Timestamp { secs: utc.timestamp(), nanos: utc.timestamp_subsec_nanos() })
        },
        Err(_) => None,
    }
}

/// Calls `chrono::DateTime::from_timestamp` on both instants, then
/// `signed_duration_since` and `TimeDelta::num_days`.
///
/// Trusted: the result is a function of the four numbers alone, named
/// [`elapsed_days`]; it is `None` where `from_timestamp` returns `None` for
/// one of the instants. Where both instants lie on whole seconds and `to`
/// is not the earlier one, `signed_duration_since` gives the difference of
/// their seconds, and `num_days` divides it by 86 400 and drops the
/// remainder.
#[verifier::external_body]
pub(crate) fn days_between(from: &Timestamp, to: &Timestamp) -> (days: Option<i64>)
    ensures
        days == elapsed_days(from.secs, from.nanos, to.secs, to.nanos),
        days matches Some(d) ==> (from.on_whole_second() && to.on_whole_second() && from.secs
            <= to.secs ==> d == from.whole_days_until(*to)),
{
    let start = chrono::DateTime::from_timestamp(from.secs, from.nanos)?;
    let end = chrono::DateTime::from_timestamp(to.secs, to.nanos)?;
    Some(end.signed_duration_since(start).num_days())
}

impl Timestamp {
    /// Chronological order: by `secs`, then by `nanos`.
    pub open spec fn is_before(self, other: Timestamp) -> bool {
        self.secs < other.secs || (self.secs == other.secs && self.nanos < other.nanos)
    }

    /// The instant has no fraction of a second and lies in no leap second.
    pub open spec fn on_whole_second(self) -> bool {
        self.nanos == 0
    }

    /// The whole days from `self` to `later`, for instants on whole seconds
    /// of which `later` is not the earlier one: the seconds between them,
    /// divided by the 86 400 seconds of a day, the remainder dropped.
    pub open spec fn whole_days_until(self, later: Timestamp) -> int {
        (later.secs - self.secs) / 86_400
    }

    /// Whether `self` is strictly earlier than `other`.
    pub fn before(&self, other: &Timestamp) -> (earlier: bool)
        ensures
            earlier == self.is_before(*other),
    {
        self.secs < other.secs || (self.secs == other.secs && self.nanos < other.nanos)
    }

    /// Reads a creation stamp.
    pub fn parse(created: &str) -> (parsed: Option<Timestamp>)
        ensures
            parsed == created_instant(created@),
    {
        parse_utc(created, "%Y-%m-%d %H:%M:%S %Z")
    }
}

} // verus!
