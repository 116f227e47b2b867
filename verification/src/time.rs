//! The calendar boundary: timestamps are plain seconds inside the core,
//! and the calendar library renders and parses their RFC 3339 text.

use vstd::prelude::*;
use crate::policy::{valid_ts, MAX_TIMESTAMP};

verus! {

/// The RFC 3339 text of the instant `t` seconds after the epoch, in UTC.
/// What it looks like is the calendar library's business; the core only
/// relies on it being determined by `t`.
pub uninterp spec fn rfc3339_of(t: i64) -> Seq<char>;

/// Relies on chrono's `Utc::now`: the clock may report anything, so
/// nothing is promised of the value.
#[verifier::external_body]
fn clock_timestamp() -> (r: i64) {
    chrono::Utc::now().timestamp()
}

/// The core's acceptance of a clock reading: an instant is taken
/// exactly when it lies in the range the core handles.
pub fn accept_ts(t: i64) -> (r: Option<i64>)
    ensures
        r == if valid_ts(t) {
            Some(t)
        } else {
            None::<i64>
        },
{
    if 0 <= t && t <= MAX_TIMESTAMP {
        Some(t)
    } else {
        None
    }
}

/// The current time, when the clock reports an instant the core accepts.
pub fn current_timestamp() -> (r: Option<i64>)
    ensures
        r matches Some(t) ==> valid_ts(t),
{
    accept_ts(clock_timestamp())
}

/// Text free of quotes and newlines, as a timestamp's rendering is.
pub open spec fn stamp_text_ok(s: Seq<char>) -> bool {
    forall|k: int| 0 <= k < s.len() ==> s[k] != '"' && s[k] != '\n'
}

/// Relies on chrono's `DateTime::from_timestamp` and `to_rfc3339`: an
/// in-range instant renders to text determined by the timestamp alone,
/// built of digits and date punctuation, so never a quote or a newline.
#[verifier::external_body]
pub fn format_rfc3339(t: i64) -> (r: String)
    requires
        valid_ts(t),
    ensures
        r@ == rfc3339_of(t),
        stamp_text_ok(r@),
{
    match chrono::DateTime::from_timestamp(t, 0) {
        Some(d) => d.to_rfc3339(),
        None => String::new(),
    }
}

/// Relies on chrono's `DateTime::parse_from_rfc3339` and `timestamp`:
/// parsing the RFC 3339 rendering of an instant yields that instant.
#[verifier::external_body]
pub fn parse_rfc3339(s: &str) -> (r: Option<i64>)
    ensures
        forall|t: i64| valid_ts(t) && s@ == rfc3339_of(t) ==> r == Some(t),
{
    chrono::DateTime::parse_from_rfc3339(s).ok().map(|d| d.timestamp())
}

} // verus!
