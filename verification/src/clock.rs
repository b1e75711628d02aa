//! The wall clock and the range of times that can be sent upstream.

use vstd::prelude::*;

verus! {

/// The first second that chrono represents, counted from the epoch: the
/// start of 1 January of the year -262143, its least date.
pub const UTC_MIN: i64 = -8_334_601_228_800;

/// The last second that chrono represents, counted from the epoch: the end
/// of 31 December of the year 262142, its greatest date.
pub const UTC_MAX: i64 = 8_210_266_876_799;

/// The time `secs`, in seconds since the epoch, if chrono can represent it.
pub open spec fn utc_timestamp(secs: i64) -> Option<i64> {
    if UTC_MIN <= secs <= UTC_MAX {
        Some(secs)
    } else {
        None
    }
}

/// Calls `chrono::DateTime::<Utc>::from_timestamp_secs` and reads the result
/// back with `DateTime::timestamp`.
///
/// Trusted: chrono makes a time of `secs` exactly if the day that `secs`
/// falls on is one of its dates, which run from 1 January -262143 to 31
/// December 262142, and that time reads back as the same number of seconds.
/// [`UTC_MIN`] and [`UTC_MAX`] are the first second of the first and the
/// last second of the last of these days.
#[verifier::external_body]
pub(crate) fn utc_from_timestamp_secs(secs: i64) -> (r: Option<i64>)
    ensures
        r == utc_timestamp(secs),
{
    chrono::DateTime::<chrono::Utc>::from_timestamp_secs(secs).map(|t| t.timestamp())
}

/// Calls `chrono::Utc::now` and reads the result with `DateTime::timestamp`:
/// the current time in seconds since the epoch.
///
/// Nothing is claimed of the result, which differs from call to call.
#[verifier::external_body]
pub(crate) fn utc_now() -> (now: i64) {
    chrono::Utc::now().timestamp()
}

} // verus!
