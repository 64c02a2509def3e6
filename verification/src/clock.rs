//! Reading the clock and writing the lower bound of a task query. The
//! calendar arithmetic is chrono's; this module decides which instant is
//! written and in which pattern.

use crate::model::Timestamp;
use vstd::prelude::*;

verus! {

/// How far back a task query reaches, in seconds: one day.
pub const LOOKBACK_SECONDS: i64 = 86_400;

/// The pattern in which the lower bound is written: date and time of day to
/// the second, with no offset.
pub open spec fn completed_since_pattern() -> Seq<char> {
    "%Y-%m-%dT%H:%M:%S"@
}

/// The text that chrono writes for the instant `secs` whole seconds after
/// 1970-01-01T00:00:00 UTC under the strftime-style `pattern`, or `None`
/// where chrono cannot represent the instant or rejects the pattern.
pub uninterp spec fn utc_text(secs: int, pattern: Seq<char>) -> Option<Seq<char>>;

/// Calls `chrono::DateTime::from_timestamp(secs, 0)` and writes the instant
/// with `DateTime::format(pattern)` through `DelayedFormat::write_to`.
///
/// Nothing is proved of the text. The contract only names it: the result is
/// `utc_text` of the two arguments, `None` when `from_timestamp` gives no
/// instant or the writing reports an error. In UTC and without a locale the
/// text depends on nothing but the arguments.
#[verifier::external_body]
fn format_utc(secs: i64, pattern: &str) -> (text: Option<String>)
    ensures
        match text {
            Some(t) => utc_text(secs as int, pattern@) == Some(t@),
            None => utc_text(secs as int, pattern@) is None,
        },
{
    let moment = chrono::DateTime::from_timestamp(secs, 0)?;
    let mut text = String::new();
    match moment.format(pattern).write_to(&mut text) {
        Ok(()) => Some(text),
        Err(_) => None,
    }
}

/// Reads the system clock with `chrono::Utc::now` and hands it over as
/// `DateTime::timestamp` and `DateTime::timestamp_subsec_nanos`.
///
/// Nothing is promised of the reading: two calls may differ. chrono stops
/// the program if the system clock stands before 1970.
#[verifier::external_body]
pub(crate) fn utc_now() -> Timestamp {
    let now = chrono::Utc::now();
    Timestamp { secs: now.timestamp(), nanos: now.timestamp_subsec_nanos() }
}

/// The lower bound of a task query made at `now`: the instant one day
/// earlier, written to the second. `None` where that instant cannot be
/// written.
pub open spec fn completed_since_text(now: Timestamp) -> Option<Seq<char>> {
    if now.secs - LOOKBACK_SECONDS < i64::MIN {
        None
    } else {
        utc_text(now.secs - LOOKBACK_SECONDS, completed_since_pattern())
    }
}

/// Writes the lower bound of a task query made at `now`.
pub fn completed_since(now: Timestamp) -> (text: Option<String>)
    ensures
        match text {
            Some(t) => completed_since_text(now) == Some(t@),
            None => completed_since_text(now) is None,
        },
{
    match now.secs.checked_sub(LOOKBACK_SECONDS) {
        Some(since) => format_utc(since, "%Y-%m-%dT%H:%M:%S"),
        None => None,
    }
}

} // verus!
