//! Points in time, as milliseconds since the Unix epoch.
use vstd::prelude::*;

use crate::json::Json;
use crate::json::JsonView;

verus! {

/// The nanoseconds since the Unix epoch that `time` reads in an RFC 3339 timestamp, or nothing
/// where it reports an error.
pub uninterp spec fn rfc3339_nanos(text: Seq<char>) -> Option<i128>;

/// `time::OffsetDateTime::parse` with the RFC 3339 description, and the instant that it returns
/// as `unix_timestamp_nanos`: both depend on the text alone.
#[verifier::external_body]
fn parse_rfc3339(text: &str) -> (nanos: Option<i128>)
    ensures
        nanos == rfc3339_nanos(text@),
{
    time::OffsetDateTime::parse(text, &time::format_description::well_known::Rfc3339)
        .ok()
        .map(|instant| instant.unix_timestamp_nanos())
}

/// Declares `std::time::SystemTime` to the verifier.
#[verifier::external_type_specification]
#[verifier::external_body]
pub struct ExSystemTime(std::time::SystemTime);

/// Declares `std::time::SystemTimeError` to the verifier.
#[verifier::external_type_specification]
#[verifier::external_body]
pub struct ExSystemTimeError(std::time::SystemTimeError);

/// What `std::time::SystemTime::duration_since` the Unix epoch returns: how long after the epoch a
/// time is, or an error for a time before it.
pub uninterp spec fn epoch_age(time: std::time::SystemTime) -> Result<
    std::time::Duration,
    std::time::SystemTimeError,
>;

/// The whole milliseconds of a duration, as `std::time::Duration::as_millis` returns them.
pub uninterp spec fn whole_millis(age: std::time::Duration) -> u128;

/// `std::time::SystemTime::now`. The reading depends on the clock, so nothing is stated of it.
#[verifier::external_body]
fn system_time() -> (time: std::time::SystemTime) {
    std::time::SystemTime::now()
}

/// `std::time::SystemTime::duration_since` the Unix epoch, which depends on the time alone.
#[verifier::external_body]
fn age_of(time: &std::time::SystemTime) -> (age: Result<
    std::time::Duration,
    std::time::SystemTimeError,
>)
    ensures
        age == epoch_age(*time),
{
    time.duration_since(std::time::UNIX_EPOCH)
}

/// `std::time::Duration::as_millis`, which depends on the duration alone.
#[verifier::external_body]
fn millis_of(age: &std::time::Duration) -> (millis: u128)
    ensures
        millis == whole_millis(*age),
{
    age.as_millis()
}

/// A quotient rounded towards zero.
pub open spec fn truncated_quotient(n: int, d: int) -> int {
    if n >= 0 {
        n / d
    } else {
        -((-n) / d)
    }
}

/// Whole milliseconds of a number of nanoseconds, rounded towards zero; nothing where they leave
/// the range of the ledger's timestamps.
pub open spec fn millis_of_nanos(nanos: int) -> Option<i64> {
    let millis = truncated_quotient(nanos, 1_000_000);
    if i64::MIN <= millis <= i64::MAX {
        Some(millis as i64)
    } else {
        None
    }
}

/// Whole milliseconds of a number of nanoseconds, rounded towards zero.
pub fn nanos_to_millis(nanos: i128) -> (millis: Option<i64>)
    ensures
        millis == millis_of_nanos(nanos as int),
{
    if nanos >= 0 {
        let whole: i128 = nanos / 1_000_000;
        if whole <= 9_223_372_036_854_775_807 {
            Some(whole as i64)
        } else {
            None
        }
    } else if nanos < -9_223_372_036_854_775_809_000_000 {
        None
    } else {
        let whole: i128 = (-nanos) / 1_000_000;
        if whole <= 9_223_372_036_854_775_808 {
            Some((-whole) as i64)
        } else {
            None
        }
    }
}

/// The instant that a record's `timestamp` member denotes.
pub open spec fn record_time(record: JsonView) -> Option<i64> {
    match record.text_member("timestamp"@) {
        Some(text) => match rfc3339_nanos(text) {
            Some(nanos) => millis_of_nanos(nanos as int),
            None => None,
        },
        None => None,
    }
}

/// The instant that a record's `timestamp` member denotes.
pub fn timestamp_ms(record: &Json) -> (millis: Option<i64>)
    ensures
        millis == record_time(record@),
{
    match record.get_str("timestamp") {
        Some(text) => match parse_rfc3339(text) {
            Some(nanos) => nanos_to_millis(nanos),
            None => None,
        },
        None => None,
    }
}

/// A clock reading as a timestamp: the epoch where there is none, and the last timestamp where it
/// lies beyond.
pub open spec fn reading_stamp(reading: Option<u128>) -> int {
    match reading {
        Some(age) => if age <= i64::MAX {
            age as int
        } else {
            i64::MAX as int
        },
        None => 0,
    }
}

/// A clock reading as a timestamp.
pub fn timestamp_of_reading(reading: Option<u128>) -> (millis: i64)
    ensures
        millis == reading_stamp(reading),
{
    match reading {
        Some(age) => if age <= 9_223_372_036_854_775_807 {
            age as i64
        } else {
            9_223_372_036_854_775_807
        },
        None => 0,
    }
}

/// The milliseconds since the Unix epoch at a time; nothing for a time before the epoch.
pub open spec fn reading_of(time: std::time::SystemTime) -> Option<u128> {
    match epoch_age(time) {
        Ok(age) => Some(whole_millis(age)),
        Err(_) => None,
    }
}

/// A time as a timestamp.
pub fn timestamp_of(time: &std::time::SystemTime) -> (millis: i64)
    ensures
        millis == reading_stamp(reading_of(*time)),
{
    timestamp_of_reading(
        match age_of(time) {
            Ok(age) => Some(millis_of(&age)),
            Err(_) => None,
        },
    )
}

/// The present time. It is what the clock says, and never before the epoch.
pub fn now_ms() -> (millis: i64)
    ensures
        0 <= millis,
        exists|time: std::time::SystemTime| millis == #[trigger] reading_stamp(reading_of(time)),
{
    let time = system_time();
    timestamp_of(&time)
}

/// An instant in nanoseconds is kept in whole milliseconds: the fraction of a millisecond is dropped
/// towards 1970, and an instant is lost only where no timestamp reaches it.
pub proof fn instants_are_kept_to_the_millisecond(nanos: int)
    ensures
        match millis_of_nanos(nanos) {
            Some(millis) => {
                &&& nanos >= 0 ==> 0 <= nanos - millis * 1_000_000 < 1_000_000
                &&& nanos <= 0 ==> -1_000_000 < nanos - millis * 1_000_000 <= 0
            },
            None => nanos >= (i64::MAX + 1) * 1_000_000 || nanos <= (i64::MIN - 1) * 1_000_000,
        },
{
}

/// A record's time is that of its `timestamp`; a record without one, or with one that is no instant,
/// has none.
pub proof fn a_records_time_is_its_timestamp(record: JsonView)
    ensures
        match record.text_member("timestamp"@) {
            Some(text) => match rfc3339_nanos(text) {
                Some(nanos) => match record_time(record) {
                    Some(millis) => -1_000_000 < nanos - millis * 1_000_000 < 1_000_000,
                    None => nanos >= (i64::MAX + 1) * 1_000_000 || nanos <= (i64::MIN - 1)
                        * 1_000_000,
                },
                None => record_time(record) is None,
            },
            None => record_time(record) is None,
        },
{
    if let Some(text) = record.text_member("timestamp"@) {
        if let Some(nanos) = rfc3339_nanos(text) {
            instants_are_kept_to_the_millisecond(nanos as int);
        }
    }
}

/// A later reading gives no earlier timestamp, and one that fits is kept as it is.
pub proof fn readings_keep_their_order(earlier: u128, later: u128)
    requires
        earlier <= later,
    ensures
        reading_stamp(Some(earlier)) <= reading_stamp(Some(later)),
        later <= i64::MAX ==> reading_stamp(Some(later)) == later,
        0 <= reading_stamp(Some(earlier)) <= i64::MAX,
        reading_stamp(None) == 0,
{
}

} // verus!
