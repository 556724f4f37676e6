//! Instants in UTC, read and written by chrono. An instant is carried as
//! whole seconds since the Unix epoch and the nanoseconds past them.
use vstd::prelude::*;

verus! {

/// An instant in UTC, as stored with a record: whole seconds since the Unix
/// epoch and the nanoseconds past them.
#[derive(Debug, Clone, Copy, PartialEq, Eq, Structural)]
pub struct Timestamp {
    pub secs: i64,
    pub nanos: u32,
}

/// The instant that chrono reads from the text `s`, if it reads one.
pub uninterp spec fn utc_instant_of(s: Seq<char>) -> Option<(i64, u32)>;

/// The RFC 3339 text that chrono writes for an instant, if it can build it.
pub uninterp spec fn rfc3339_of(secs: i64, nanos: u32) -> Option<Seq<char>>;

/// Relies on chrono's `FromStr for DateTime<Utc>` to read `s`, and on
/// `DateTime::timestamp` and `DateTime::timestamp_subsec_nanos` to take the
/// instant apart.
#[verifier::external_body]
pub(crate) fn read_utc_instant(s: &str) -> (r: Option<(i64, u32)>)
    ensures
        r == utc_instant_of(s@),
{
    s.parse::<chrono::DateTime<chrono::Utc>>().ok().map(
        |d| (d.timestamp(), d.timestamp_subsec_nanos()),
    )
}

/// Relies on chrono's `DateTime::from_timestamp` to rebuild the instant and on
/// `DateTime::to_rfc3339` to write it.
#[verifier::external_body]
pub(crate) fn write_rfc3339(secs: i64, nanos: u32) -> (r: Option<String>)
    ensures
        match rfc3339_of(secs, nanos) {
            Some(t) => r matches Some(s) && s@ == t,
            None => r is None,
        },
{
    chrono::DateTime::from_timestamp(secs, nanos).map(|d| d.to_rfc3339())
}

} // verus!
