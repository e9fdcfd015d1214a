//! Calendar days: where a day of a time zone begins and ends.
use vstd::prelude::*;

use crate::text;
use crate::text::contains_text;
use crate::text::same_text;

verus! {

/// The seconds of a day of the calendar, and of every day in UTC.
pub const DAY_SECONDS: i64 = 86_400;

/// The milliseconds of a day in UTC.
pub const DAY_MS: i64 = 86_400_000;

/// The farthest that the clock of a time zone is from UTC, in seconds: a second less than 26 hours.
pub const FARTHEST_OFFSET: i64 = 93_599;

/// The second of `jiff::Timestamp::MIN`.
pub const FIRST_SECOND: i64 = -377_705_023_201;

/// The second of `jiff::Timestamp::MAX`.
pub const LAST_SECOND: i64 = 253_402_207_200;

/// Whether a year of the Gregorian calendar has a 29th of February.
pub open spec fn is_leap(year: int) -> bool {
    year % 4 == 0 && (year % 100 != 0 || year % 400 == 0)
}

/// The days of a month.
pub open spec fn days_in_month(year: int, month: int) -> int {
    if month == 2 {
        if is_leap(year) {
            29
        } else {
            28
        }
    } else if month == 4 || month == 6 || month == 9 || month == 11 {
        30
    } else {
        31
    }
}

/// The days of a year before one of its months.
pub open spec fn days_before_month(year: int, month: int) -> int
    decreases month,
{
    if month <= 1 {
        0
    } else {
        days_before_month(year, month - 1) + days_in_month(year, month - 1)
    }
}

/// The days from the start of the year 1 to the start of another year.
pub open spec fn days_before_year(year: int) -> int {
    let past = year - 1;
    365 * past + past / 4 - past / 100 + past / 400
}

/// The days from 1970-01-01 to a date of the Gregorian calendar: a year, a month and a day.
pub open spec fn days_since_1970(date: (i16, i8, i8)) -> int {
    let (year, month, day) = (date.0 as int, date.1 as int, date.2 as int);
    days_before_year(year) - days_before_year(1970) + days_before_month(year, month) + day - 1
}

/// Declares `jiff::civil::Date` to the verifier.
#[verifier::external_type_specification]
#[verifier::external_body]
pub struct ExDate(jiff::civil::Date);

/// Declares `jiff::Zoned` to the verifier.
#[verifier::external_type_specification]
#[verifier::external_body]
pub struct ExZoned(jiff::Zoned);

/// Declares `jiff::Error` to the verifier.
#[verifier::external_type_specification]
#[verifier::external_body]
pub struct ExCalendarError(jiff::Error);

/// The text that a `jiff::Error` displays.
pub uninterp spec fn error_message(error: jiff::Error) -> Seq<char>;

/// The year, the month and the day that a `jiff::civil::Date` holds.
pub uninterp spec fn date_model(date: jiff::civil::Date) -> (i16, i8, i8);

/// What the `FromStr` of `jiff::civil::Date` reads in a text: the year, the month and the day, or
/// the text of the error that it reports.
pub uninterp spec fn parsed_date(text: Seq<char>) -> Result<(i16, i8, i8), Seq<char>>;

/// The instant that a `jiff::Zoned` holds, in milliseconds since 1970.
pub uninterp spec fn instant(time: jiff::Zoned) -> i64;

/// The date on the calendar that a `jiff::Zoned` holds, in days since 1970-01-01.
pub uninterp spec fn civil_day(time: jiff::Zoned) -> int;

/// Whether the time zone that a `jiff::Zoned` holds is `jiff::tz::TimeZone::UTC`.
pub uninterp spec fn is_utc(time: jiff::Zoned) -> bool;

/// What `jiff::Zoned::tomorrow` returns for a time, by the time zone that the time holds.
pub uninterp spec fn tomorrow_of(time: jiff::Zoned) -> Result<jiff::Zoned, jiff::Error>;

/// What `jiff::Zoned::start_of_day` returns for a time, by the time zone that the time holds.
pub uninterp spec fn day_start_of(time: jiff::Zoned) -> Result<jiff::Zoned, jiff::Error>;

/// Whether `in_tz` returns this for midnight of a date in a time zone with some database of time
/// zones.
pub uninterp spec fn may_begin(
    date: (i16, i8, i8),
    timezone: Seq<char>,
    start: Result<jiff::Zoned, jiff::Error>,
) -> bool;

/// Whether the clock of a time zone can be this far from UTC, in seconds.
pub open spec fn is_offset(seconds: int) -> bool {
    -FARTHEST_OFFSET <= seconds <= FARTHEST_OFFSET
}

/// Whether an instant is midnight of a date by a clock that is some offset from UTC.
pub open spec fn is_midnight(date: (i16, i8, i8), millis: i64) -> bool {
    exists|offset: int| #[trigger]
        is_offset(offset) && millis == (days_since_1970(date) * DAY_SECONDS - offset) * 1_000
}

/// Whether an instant that is this many seconds from 1970 can be held.
pub open spec fn is_second(seconds: int) -> bool {
    FIRST_SECOND <= seconds <= LAST_SECOND
}

/// Whether midnight of a day in UTC can be held.
pub open spec fn has_midnight(day: int) -> bool {
    is_second(day * DAY_SECONDS)
}

/// The `FromStr` of `jiff::civil::Date`: whether there is a date, and which one or what the error
/// then says, depends on the text alone.
#[verifier::external_body]
fn parse_date(text: &str) -> (date: Result<jiff::civil::Date, jiff::Error>)
    ensures
        match date {
            Ok(date) => parsed_date(text@) == Ok::<(i16, i8, i8), Seq<char>>(date_model(date)),
            Err(error) => parsed_date(text@) == Err::<(i16, i8, i8), Seq<char>>(
                error_message(error),
            ),
        },
{
    text.parse()
}

/// `jiff::civil::Date::at` for midnight, and `in_tz` for the time zone. The database of the machine
/// decides whether there is such a time zone, and how far it is from UTC; so which offset it is, and
/// when there is no time, is left unsaid. Whatever the database, the instant is midnight of the date
/// less one offset. UTC is known without the database: there the offset is zero, and the only dates
/// without midnight are those whose instant cannot be held.
#[verifier::external_body]
fn midnight_in(date: jiff::civil::Date, timezone: &str) -> (start: Result<jiff::Zoned, jiff::Error>)
    ensures
        may_begin(date_model(date), timezone@, start),
        start matches Ok(time) ==> is_midnight(date_model(date), instant(time)),
        timezone@ == "UTC"@ ==> match start {
            Ok(time) => {
                &&& has_midnight(days_since_1970(date_model(date)))
                &&& is_utc(time)
                &&& civil_day(time) == days_since_1970(date_model(date))
                &&& instant(time) == days_since_1970(date_model(date)) * DAY_MS
            },
            Err(_) => !has_midnight(days_since_1970(date_model(date))),
        },
{
    date.at(0, 0, 0, 0).in_tz(timezone)
}

/// `jiff::Zoned::tomorrow`: the same time of the next day, by the time zone that the time holds. In
/// UTC its date is the next one, and there is none only where its instant lies beyond the last whole
/// second that can be held.
#[verifier::external_body]
fn day_after(time: &jiff::Zoned) -> (next: Result<jiff::Zoned, jiff::Error>)
    ensures
        next == tomorrow_of(*time),
        is_utc(*time) ==> match next {
            Ok(next) => {
                &&& is_utc(next)
                &&& civil_day(next) == civil_day(*time) + 1
            },
            Err(_) => instant(*time) + DAY_MS > LAST_SECOND * 1_000,
        },
{
    time.tomorrow()
}

/// `jiff::Zoned::start_of_day`: the first instant of the date that the time holds, by the time zone
/// that the time holds. In UTC that is midnight of the date, wherever it can be held.
#[verifier::external_body]
fn start_of_day(time: &jiff::Zoned) -> (start: Result<jiff::Zoned, jiff::Error>)
    ensures
        start == day_start_of(*time),
        is_utc(*time) ==> match start {
            Ok(start) => has_midnight(civil_day(*time)) && instant(start) == civil_day(*time)
                * DAY_MS,
            Err(_) => !has_midnight(civil_day(*time)),
        },
{
    time.start_of_day()
}

/// `jiff::Zoned::timestamp` in milliseconds: the instant that the time holds.
#[verifier::external_body]
fn instant_ms(time: &jiff::Zoned) -> (millis: i64)
    ensures
        millis == instant(*time),
{
    time.timestamp().as_millisecond()
}

/// The `Display` of a `jiff::Error`.
#[verifier::external_body]
fn error_text(error: &jiff::Error) -> (text: String)
    ensures
        text@ == error_message(*error),
{
    error.to_string()
}

/// Whether a time zone is named as the IANA names it: by an area and a place, or as UTC.
pub open spec fn is_iana_name(timezone: Seq<char>) -> bool {
    text::occurs(timezone, "/"@) || timezone == "UTC"@
}

/// What looking for the bounds of a day came to.
#[derive(Debug, PartialEq, Eq)]
pub enum DayOutcome {
    /// There is no such date.
    NoDate(String),
    /// The day does not begin in the time zone.
    NoStart(String),
    /// The day does not end in the time zone.
    NoEnd(String),
    /// The first moment of the day, and the first one of the day after it.
    Bounds(i64, i64),
}

/// What an outcome says.
#[verifier::ext_equal]
pub enum DayView {
    NoDate(Seq<char>),
    NoStart(Seq<char>),
    NoEnd(Seq<char>),
    Bounds(i64, i64),
}

impl View for DayOutcome {
    type V = DayView;

    open spec fn view(&self) -> DayView {
        match self {
            DayOutcome::NoDate(why) => DayView::NoDate(why@),
            DayOutcome::NoStart(why) => DayView::NoStart(why@),
            DayOutcome::NoEnd(why) => DayView::NoEnd(why@),
            DayOutcome::Bounds(from_ms, to_ms) => DayView::Bounds(*from_ms, *to_ms),
        }
    }
}

impl DayView {
    /// The bounds, or the message that says why there are none.
    pub open spec fn said(self) -> Result<(i64, i64), Seq<char>> {
        match self {
            DayView::NoDate(why) => Err("invalid calendar date: "@ + why),
            DayView::NoStart(why) => Err("invalid IANA timezone or date boundary: "@ + why),
            DayView::NoEnd(why) => Err("unable to resolve next calendar day: "@ + why),
            DayView::Bounds(from_ms, to_ms) => Ok((from_ms, to_ms)),
        }
    }
}

/// Bounds or a message.
pub open spec fn bounds_view(bounds: Result<(i64, i64), String>) -> Result<(i64, i64), Seq<char>> {
    match bounds {
        Ok(bounds) => Ok(bounds),
        Err(error) => Err(error@),
    }
}

/// A text in front of another.
fn explained(prefix: &str, error: String) -> (message: String)
    ensures
        message@ == prefix@ + error@,
{
    let mut message = prefix.to_owned();
    message.append(error.as_str());
    message
}

/// The bounds of a day, or the message that says why there are none.
pub fn bounds_of(outcome: DayOutcome) -> (bounds: Result<(i64, i64), String>)
    ensures
        bounds_view(bounds) == outcome@.said(),
{
    match outcome {
        DayOutcome::NoDate(why) => Err(explained("invalid calendar date: ", why)),
        DayOutcome::NoStart(why) => Err(
            explained("invalid IANA timezone or date boundary: ", why),
        ),
        DayOutcome::NoEnd(why) => Err(explained("unable to resolve next calendar day: ", why)),
        DayOutcome::Bounds(from_ms, to_ms) => Ok((from_ms, to_ms)),
    }
}

/// Where the day after a time begins.
pub open spec fn end_of(start: jiff::Zoned) -> Result<jiff::Zoned, jiff::Error> {
    match tomorrow_of(start) {
        Ok(next) => day_start_of(next),
        Err(error) => Err(error),
    }
}

/// The day that begins at a time, or that has no beginning: it ends where the day after it begins.
pub open spec fn day_of(start: Result<jiff::Zoned, jiff::Error>) -> DayView {
    match start {
        Ok(start) => match end_of(start) {
            Ok(end) => DayView::Bounds(instant(start), instant(end)),
            Err(error) => DayView::NoEnd(error_message(error)),
        },
        Err(error) => DayView::NoStart(error_message(error)),
    }
}

/// Whether a day in UTC comes out like this: it ends at midnight of the next date, and has no end
/// only where that cannot be held or the day after the start cannot.
pub open spec fn is_utc_day(start: jiff::Zoned, day: DayView) -> bool {
    let next = civil_day(start) + 1;
    match day {
        DayView::Bounds(from_ms, to_ms) => {
            &&& has_midnight(next)
            &&& from_ms == instant(start)
            &&& to_ms == next * DAY_MS
        },
        DayView::NoEnd(_) => !has_midnight(next) || instant(start) + DAY_MS > LAST_SECOND * 1_000,
        _ => false,
    }
}

/// The day that begins at a time, or that has no beginning.
pub fn day_from(start: Result<jiff::Zoned, jiff::Error>) -> (outcome: DayOutcome)
    ensures
        outcome@ == day_of(start),
        start matches Ok(begun) ==> is_utc(begun) ==> is_utc_day(begun, outcome@),
{
    let start = match start {
        Ok(start) => start,
        Err(error) => {
            return DayOutcome::NoStart(error_text(&error));
        },
    };
    let next = match day_after(&start) {
        Ok(next) => next,
        Err(error) => {
            return DayOutcome::NoEnd(error_text(&error));
        },
    };
    match start_of_day(&next) {
        Ok(end) => DayOutcome::Bounds(instant_ms(&start), instant_ms(&end)),
        Err(error) => DayOutcome::NoEnd(error_text(&error)),
    }
}

/// Whether these are the bounds of a date in a time zone, where midnight of the date came out as
/// this start.
pub open spec fn is_day(
    date: (i16, i8, i8),
    timezone: Seq<char>,
    start: Result<jiff::Zoned, jiff::Error>,
    bounds: Result<(i64, i64), Seq<char>>,
) -> bool {
    &&& may_begin(date, timezone, start)
    &&& start matches Ok(time) ==> is_midnight(date, instant(time))
    &&& bounds == day_of(start).said()
}

/// Whether these are the bounds of a date in a time zone for some start that midnight of the date
/// can come out as.
pub open spec fn is_some_day(
    date: (i16, i8, i8),
    timezone: Seq<char>,
    bounds: Result<(i64, i64), Seq<char>>,
) -> bool {
    exists|start: Result<jiff::Zoned, jiff::Error>| is_day(date, timezone, start, bounds)
}

/// The bounds of a day in UTC, in milliseconds since 1970.
pub open spec fn utc_bounds(day: int) -> (i64, i64) {
    ((day * DAY_MS) as i64, ((day + 1) * DAY_MS) as i64)
}

/// The first moment of a day in a time zone, and the first one of the day after it. The time zones
/// come from the machine's database: with a date and an IANA name they decide whether there are
/// such moments, and how far they are from those in UTC. In UTC every day lasts from midnight to
/// midnight, and is found wherever both can be held.
pub fn calendar_day_bounds_ms(date: &str, timezone: &str) -> (bounds: Result<(i64, i64), String>)
    ensures
        !is_iana_name(timezone@) ==> (bounds matches Err(error) && error@
            == "timezone must be an IANA name such as Asia/Shanghai"@),
        is_iana_name(timezone@) ==> match parsed_date(date@) {
            Ok(date) => is_some_day(date, timezone@, bounds_view(bounds)),
            Err(why) => bounds_view(bounds) == DayView::NoDate(why).said(),
        },
        timezone@ == "UTC"@ ==> match parsed_date(date@) {
            Ok(date) => {
                let day = days_since_1970(date);
                if has_midnight(day) && has_midnight(day + 1) {
                    bounds == Ok::<(i64, i64), String>(utc_bounds(day))
                } else {
                    bounds is Err
                }
            },
            Err(_) => true,
        },
{
    if !contains_text(timezone, "/") && !same_text(timezone, "UTC") {
        return Err("timezone must be an IANA name such as Asia/Shanghai".to_owned());
    }
    let day = match parse_date(date) {
        Ok(day) => day,
        Err(error) => {
            return bounds_of(DayOutcome::NoDate(error_text(&error)));
        },
    };
    let start = midnight_in(day, timezone);
    let ghost begun = start;
    let bounds = bounds_of(day_from(start));
    assert(is_day(date_model(day), timezone@, begun, bounds_view(bounds)));
    bounds
}

/// The days are numbered without gaps: the first of 1970 has the number zero, and the number grows by
/// one with each date, within a month, from month to month and from year to year.
pub proof fn each_date_is_one_day_after_the_one_before(year: i16, month: i8, day: i8)
    requires
        1 <= month <= 12,
        1 <= day < 31,
        year < i16::MAX,
    ensures
        days_since_1970((1970, 1, 1)) == 0,
        days_since_1970((year, month, (day + 1) as i8)) == days_since_1970((year, month, day)) + 1,
        month < 12 ==> days_since_1970((year, (month + 1) as i8, 1)) == days_since_1970(
            (year, month, days_in_month(year as int, month as int) as i8),
        ) + 1,
        days_since_1970(((year + 1) as i16, 1, 1)) == days_since_1970((year, 12, 31)) + 1,
{
    reveal_with_fuel(days_before_month, 13);
}

/// A month has as many days as the calendar says: February 29 in a leap year, and a year is one where
/// four divides it, but a hundred only together with four hundred.
pub proof fn months_have_their_days(year: int)
    ensures
        days_in_month(year, 1) == 31,
        days_in_month(year, 3) == 31,
        days_in_month(year, 4) == 30,
        days_in_month(year, 5) == 31,
        days_in_month(year, 6) == 30,
        days_in_month(year, 7) == 31,
        days_in_month(year, 8) == 31,
        days_in_month(year, 9) == 30,
        days_in_month(year, 10) == 31,
        days_in_month(year, 11) == 30,
        days_in_month(year, 12) == 31,
        days_in_month(year, 2) == 29 || days_in_month(year, 2) == 28,
        year % 4 != 0 ==> days_in_month(year, 2) == 28,
        year % 400 == 0 ==> days_in_month(year, 2) == 29,
        year % 100 == 0 && year % 400 != 0 ==> days_in_month(year, 2) == 28,
        year % 4 == 0 && year % 100 != 0 ==> days_in_month(year, 2) == 29,
{
}

/// A day ends where the next one begins: days in UTC adjoin and each lasts a day of seconds.
pub proof fn days_in_utc_adjoin(day: int)
    requires
        has_midnight(day),
        has_midnight(day + 1),
        has_midnight(day + 2),
    ensures
        utc_bounds(day).0 == day * 86_400_000,
        utc_bounds(day).1 == utc_bounds(day + 1).0,
        utc_bounds(day).1 - utc_bounds(day).0 == 86_400_000,
{
}

/// A day lasts from the instant at which it begins to the one at which the day after it begins, and
/// has no bounds where one of the two is missing.
pub proof fn a_day_lasts_until_the_next_one_begins(
    start: jiff::Zoned,
    next: jiff::Zoned,
    end: jiff::Zoned,
    error: jiff::Error,
)
    ensures
        tomorrow_of(start) == Ok::<jiff::Zoned, jiff::Error>(next) && day_start_of(next) == Ok::<
            jiff::Zoned,
            jiff::Error,
        >(end) ==> day_of(Ok(start)).said() == Ok::<(i64, i64), Seq<char>>(
            (instant(start), instant(end)),
        ),
        tomorrow_of(start) is Err ==> day_of(Ok(start)).said() is Err,
        tomorrow_of(start) == Ok::<jiff::Zoned, jiff::Error>(next) && day_start_of(next) is Err
            ==> day_of(Ok(start)).said() is Err,
        day_of(Err(error)).said() is Err,
{
}

/// A name is taken for a time zone only where it names an area and a place or is UTC: an offset such
/// as one added to UTC is refused.
pub proof fn offsets_are_no_time_zones(timezone: Seq<char>)
    requires
        forall|i: int| 0 <= i < timezone.len() ==> (#[trigger] timezone[i]) != '/',
        timezone != "UTC"@,
    ensures
        !is_iana_name(timezone),
{
    reveal_strlit("/");
    if text::occurs(timezone, "/"@) {
        let at = text::what_stands_in_a_text_is_a_part_of_it(timezone, "/"@);
        let parts = timezone.take(at) + "/"@ + timezone.skip(at + 1);
        assert(parts[at] == '/');
    }
}

/// Every name with a slash is looked up, and so is UTC.
pub proof fn areas_and_utc_are_looked_up(area: Seq<char>, place: Seq<char>)
    ensures
        is_iana_name(area + "/"@ + place),
        is_iana_name("UTC"@),
{
    text::a_text_stands_between_two_others(area, "/"@, place);
}

/// A day in UTC that has bounds lasts from its start to midnight of the next date: a whole day where
/// it starts at midnight.
pub proof fn a_utc_day_ends_at_the_next_midnight(start: jiff::Zoned, from_ms: i64, to_ms: i64)
    requires
        is_utc_day(start, DayView::Bounds(from_ms, to_ms)),
    ensures
        from_ms == instant(start),
        to_ms == (civil_day(start) + 1) * 86_400_000,
        instant(start) == civil_day(start) * 86_400_000 ==> to_ms - from_ms == 86_400_000,
        has_midnight(civil_day(start) + 1),
{
}

} // verus!
