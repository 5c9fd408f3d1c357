//! The system clock and the calendar. Instants are counted in milliseconds
//! since 1970-01-01T00:00:00Z.

use chrono::Datelike;
use vstd::prelude::*;

verus! {

/// The month (1 to 12) of the UTC calendar date on which the instant `millis`
/// falls, where the calendar reaches that far.
pub uninterp spec fn spec_month_of(millis: int) -> Option<u32>;

/// The day of the month (from 1) of the UTC calendar date on which the
/// instant `millis` falls, where the calendar reaches that far.
pub uninterp spec fn spec_day_of(millis: int) -> Option<u32>;

/// Calls `chrono::Utc::now` and `DateTime::timestamp_millis`: the reading of
/// the system clock. Nothing is promised of the value.
#[verifier::external_body]
pub(crate) fn current_time() -> (now: i64) {
    chrono::Utc::now().timestamp_millis()
}

/// Calls `chrono::Datelike::month` on the date that
/// `chrono::DateTime::from_timestamp_millis` makes of `millis`; `None` where
/// chrono cannot represent the instant. The contract names the result.
#[verifier::external_body]
pub(crate) fn month_of(millis: i64) -> (month: Option<u32>)
    ensures
        month == spec_month_of(millis as int),
{
    match chrono::DateTime::from_timestamp_millis(millis) {
        Some(t) => Some(t.month()),
        None => None,
    }
}

/// Calls `chrono::Datelike::day` on the date that
/// `chrono::DateTime::from_timestamp_millis` makes of `millis`; `None` where
/// chrono cannot represent the instant. The contract names the result.
#[verifier::external_body]
pub(crate) fn day_of(millis: i64) -> (day: Option<u32>)
    ensures
        day == spec_day_of(millis as int),
{
    match chrono::DateTime::from_timestamp_millis(millis) {
        Some(t) => Some(t.day()),
        None => None,
    }
}

/// Whether `earlier + days` days lies strictly before `later`.
pub open spec fn spec_older_than(earlier: int, days: int, later: int) -> bool {
    earlier + days * 86_400_000 < later
}

/// Whether the instant `earlier` lies more than `days` days before `later`.
pub fn older_than(earlier: i64, days: u32, later: i64) -> (older: bool)
    ensures
        older == spec_older_than(earlier as int, days as int, later as int),
{
    let span: i128 = (days as i128) * 86_400_000i128;
    (earlier as i128) + span < (later as i128)
}

/// The instant `days` days after `instant`, held at the largest instant that
/// can be written where the sum would pass it.
pub open spec fn spec_plus_days(instant: int, days: int) -> int {
    if instant + days * 86_400_000 > i64::MAX {
        i64::MAX as int
    } else {
        instant + days * 86_400_000
    }
}

/// Adds `days` days to `instant`, saturating at `i64::MAX`.
pub fn plus_days(instant: i64, days: u32) -> (later: i64)
    ensures
        later == spec_plus_days(instant as int, days as int),
{
    let sum: i128 = (instant as i128) + (days as i128) * 86_400_000i128;
    if sum > i64::MAX as i128 {
        i64::MAX
    } else {
        sum as i64
    }
}

/// The instant `days` days before `instant`, held at the least instant that
/// can be written where the difference would pass it.
pub open spec fn spec_minus_days(instant: int, days: int) -> int {
    if instant - days * 86_400_000 < i64::MIN {
        i64::MIN as int
    } else {
        instant - days * 86_400_000
    }
}

/// Subtracts `days` days from `instant`, saturating at `i64::MIN`.
pub fn minus_days(instant: i64, days: u32) -> (earlier: i64)
    ensures
        earlier == spec_minus_days(instant as int, days as int),
{
    let difference: i128 = (instant as i128) - (days as i128) * 86_400_000i128;
    if difference < i64::MIN as i128 {
        i64::MIN
    } else {
        difference as i64
    }
}

/// Whether a calendar date is the first day of January, April, July or
/// October, the days on which representatives are selected. A date that
/// the calendar does not reach is none of them.
pub open spec fn spec_selection_day(day: Option<u32>, month: Option<u32>) -> bool {
    day == Some(1u32) && (month == Some(1u32) || month == Some(4u32) || month == Some(7u32)
        || month == Some(10u32))
}

/// Tells whether representatives are selected on the given day of the
/// given month.
pub fn selection_day(day: Option<u32>, month: Option<u32>) -> (due: bool)
    ensures
        due == spec_selection_day(day, month),
{
    match (day, month) {
        (Some(d), Some(m)) => d == 1 && (m == 1 || m == 4 || m == 7 || m == 10),
        _ => false,
    }
}

/// Whether `instant` falls on a day on which representatives are selected.
pub open spec fn spec_is_selection_day(instant: int) -> bool {
    spec_selection_day(spec_day_of(instant), spec_month_of(instant))
}

/// Tells whether representatives are to be selected on the day of `instant`.
pub fn is_selection_day(instant: i64) -> (due: bool)
    ensures
        due == spec_is_selection_day(instant as int),
{
    let day = day_of(instant);
    let month = month_of(instant);
    selection_day(day, month)
}

} // verus!
