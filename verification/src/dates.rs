//! Timestamps read off date texts, through chrono.
use vstd::prelude::*;

verus! {

/// What `DateTime::parse_from_rfc3339` followed by `timestamp` gives for a
/// text: the seconds since the Unix epoch of the instant it names, when it
/// is an RFC 3339 date and time. The grammar and calendar take pages to
/// state.
pub uninterp spec fn rfc3339_seconds(s: Seq<char>) -> Option<int>;

/// `chrono::DateTime::parse_from_rfc3339`, then `timestamp` on success.
#[verifier::external_body]
pub(crate) fn parse_rfc3339(s: &str) -> (r: Option<i64>)
    ensures
        match r {
            Some(t) => rfc3339_seconds(s@) == Some(t as int),
            None => rfc3339_seconds(s@) is None,
        },
{
    match chrono::DateTime::parse_from_rfc3339(s) {
        Ok(d) => Some(d.timestamp()),
        Err(_) => None,
    }
}

/// What `NaiveDateTime::parse_from_str` with `%Y-%m-%dT%H:%M:%S%.f`, read
/// as UTC, gives for a text: the seconds since the Unix epoch, when the text
/// has that form.
pub uninterp spec fn iso_local_seconds(s: Seq<char>) -> Option<int>;

/// `chrono::NaiveDateTime::parse_from_str` with the format
/// `%Y-%m-%dT%H:%M:%S%.f`, then `and_utc().timestamp()` on success.
#[verifier::external_body]
pub(crate) fn parse_iso_local(s: &str) -> (r: Option<i64>)
    ensures
        match r {
            Some(t) => iso_local_seconds(s@) == Some(t as int),
            None => iso_local_seconds(s@) is None,
        },
{
    match chrono::NaiveDateTime::parse_from_str(s, "%Y-%m-%dT%H:%M:%S%.f") {
        Ok(d) => Some(d.and_utc().timestamp()),
        Err(_) => None,
    }
}

} // verus!
