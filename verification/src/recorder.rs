//! The recorder: how long it waits between attempts, and what it keeps about its health.
use vstd::prelude::*;

use crate::clock::now_ms;
use crate::scan::IngestSummary;
use crate::session::SessionFailure;
use crate::session::SessionFailureKind;
use crate::text;
use crate::text::parse_number;
use crate::text::push_decimal;
use crate::text::same_text;

verus! {

/// The version under which observations are stored.
pub const COLLECTOR_VERSION: &'static str = "0.1.0";

/// The seconds between two reads of the rate limits, where nothing else is configured.
pub const DEFAULT_FALLBACK_SECONDS: u64 = 3_600;

/// The seconds between two scans of the session logs, where nothing else is configured.
pub const DEFAULT_TOKEN_SCAN_SECONDS: u64 = 30;

/// The longest wait.
pub const LONGEST_DELAY_SECONDS: u64 = 21_600;

/// A number kept between two others.
pub open spec fn clamped(number: int, least: int, most: int) -> int {
    if number < least {
        least
    } else if number > most {
        most
    } else {
        number
    }
}

/// The seconds that a setting asks for: its number, or the default where it has none, kept within
/// bounds.
pub open spec fn configured(
    setting: Option<Seq<char>>,
    default: u64,
    least: u64,
    most: u64,
) -> int {
    let number = match setting {
        Some(text) => match text::number_of_text(text, u64::MAX as nat) {
            Some(number) => number as int,
            None => default as int,
        },
        None => default as int,
    };
    clamped(number, least as int, most as int)
}

/// The seconds that a setting asks for.
fn configured_seconds(setting: Option<&str>, default: u64, least: u64, most: u64) -> (seconds: u64)
    ensures
        seconds == configured(text::opt_str_view(setting), default, least, most),
{
    let number = match setting {
        Some(text) => match parse_number(text, 18_446_744_073_709_551_615) {
            Some(number) => number,
            None => default,
        },
        None => default,
    };
    if number < least {
        least
    } else if number > most {
        most
    } else {
        number
    }
}

/// The seconds between two reads of the rate limits: five minutes to a day.
pub fn fallback_seconds(setting: Option<&str>) -> (seconds: u64)
    ensures
        seconds == configured(
            text::opt_str_view(setting),
            DEFAULT_FALLBACK_SECONDS,
            300,
            86_400,
        ),
        300 <= seconds <= 86_400,
{
    configured_seconds(setting, DEFAULT_FALLBACK_SECONDS, 300, 86_400)
}

/// The seconds between two scans of the session logs: five seconds to an hour.
pub fn token_scan_seconds(setting: Option<&str>) -> (seconds: u64)
    ensures
        seconds == configured(
            text::opt_str_view(setting),
            DEFAULT_TOKEN_SCAN_SECONDS,
            5,
            3_600,
        ),
        5 <= seconds <= 3_600,
{
    configured_seconds(setting, DEFAULT_TOKEN_SCAN_SECONDS, 5, 3_600)
}

/// How far a wait may lie from its base on either side: a tenth of it, and one at least.
pub open spec fn spread_of(base: u64) -> int {
    if base / 10 >= 1 {
        (base / 10) as int
    } else {
        1
    }
}

/// A wait around its base, by a seed.
pub open spec fn jittered(base: u64, seed: u64) -> int {
    let spread = spread_of(base);
    let least = if base >= spread {
        base - spread
    } else {
        0
    };
    let wait = least + seed as int % (2 * spread + 1);
    if wait <= u64::MAX {
        wait
    } else {
        u64::MAX as int
    }
}

/// A wait around its base, by a seed.
pub fn jittered_fallback_seconds(base: u64, seed: u64) -> (seconds: u64)
    ensures
        seconds == jittered(base, seed),
{
    let tenth = base / 10;
    let spread = if tenth >= 1 {
        tenth
    } else {
        1
    };
    let offset = seed % (spread * 2 + 1);
    base.saturating_sub(spread).saturating_add(offset)
}

/// A wait stays within a tenth of its base.
pub proof fn jitter_stays_within_a_tenth(base: u64, seed: u64)
    requires
        10 <= base,
    ensures
        base - base / 10 <= jittered(base, seed) <= base + base / 10,
{
    let spread = spread_of(base);
    assert(0 <= seed as int % (2 * spread + 1) <= 2 * spread) by (nonlinear_arith)
        requires
            spread >= 1,
    ;
}

/// The distance of a timestamp from the epoch.
pub open spec fn magnitude(at_ms: i64) -> int {
    if at_ms >= 0 {
        at_ms as int
    } else {
        -at_ms
    }
}

/// The distance of a timestamp from the epoch.
pub fn unsigned_time(at_ms: i64) -> (distance: u64)
    ensures
        distance == magnitude(at_ms),
{
    let wide: i128 = at_ms as i128;
    if wide >= 0 {
        wide as u64
    } else {
        (-wide) as u64
    }
}

/// The wait after so many rejections of the identity in a row: a few seconds after the first one,
/// then an hour that doubles up to six. A few seconds depend on the clock, so that recorders do not
/// return all at once.
pub open spec fn authentication_delay(failures: u32, at_ms: i64) -> int {
    if failures <= 1 {
        5 + magnitude(at_ms) % 11
    } else if failures == 2 {
        3_600
    } else if failures == 3 {
        7_200
    } else if failures == 4 {
        14_400
    } else {
        21_600
    }
}

/// The wait after so many rejections of the identity in a row, at this time.
pub fn authentication_retry_delay_at(failures: u32, at_ms: i64) -> (seconds: u64)
    ensures
        seconds == authentication_delay(failures, at_ms),
{
    if failures <= 1 {
        return 5 + unsigned_time(at_ms) % 11;
    }
    let doublings = if failures - 2 <= 3 {
        failures - 2
    } else {
        3
    };
    let mut delay: u64 = 3_600;
    let mut i: u32 = 0;
    while i < doublings
        invariant
            i <= doublings <= 3,
            delay == if i == 0 {
                3_600int
            } else if i == 1 {
                7_200
            } else if i == 2 {
                14_400
            } else {
                28_800
            },
        decreases doublings - i,
    {
        delay = delay * 2;
        i += 1;
    }
    if delay <= LONGEST_DELAY_SECONDS {
        delay
    } else {
        LONGEST_DELAY_SECONDS
    }
}

/// The wait after so many rejections of the identity in a row.
pub fn authentication_retry_delay(failures: u32) -> (seconds: u64)
    ensures
        failures <= 1 ==> 5 <= seconds <= 15,
        failures > 1 ==> seconds == authentication_delay(failures, 0),
{
    authentication_retry_delay_at(failures, now_ms())
}

/// The wait after so many other failures in a row.
pub open spec fn transient_delay(failures: u32) -> u64 {
    if failures <= 1 {
        60
    } else if failures == 2 {
        300
    } else if failures == 3 {
        900
    } else {
        3_600
    }
}

/// The wait after so many other failures in a row.
pub fn transient_retry_delay(failures: u32) -> (seconds: u64)
    ensures
        seconds == transient_delay(failures),
{
    match failures {
        0 | 1 => 60,
        2 => 300,
        3 => 900,
        _ => 3_600,
    }
}

/// The failures in a row, of either sort.
#[derive(Clone, Copy, Debug, PartialEq, Eq, Structural)]
pub struct Recovery {
    pub authentication_failures: u32,
    pub transient_failures: u32,
}

/// One more failure in a row; the first one of a row where the session had done its work.
pub open spec fn one_more(failures: u32, had_success: bool) -> u32 {
    if had_success {
        1
    } else if failures < u32::MAX {
        (failures + 1) as u32
    } else {
        u32::MAX
    }
}

impl Recovery {
    /// No failures.
    pub fn new() -> (recovery: Recovery)
        ensures
            recovery == (Recovery { authentication_failures: 0, transient_failures: 0 }),
    {
        Recovery { authentication_failures: 0, transient_failures: 0 }
    }

    /// The failures in a row after a session ended like this: a failure of one sort ends the row of
    /// the other.
    pub open spec fn after(self, kind: SessionFailureKind, had_success: bool) -> Recovery {
        match kind {
            SessionFailureKind::Authentication => Recovery {
                authentication_failures: one_more(self.authentication_failures, had_success),
                transient_failures: 0,
            },
            _ => Recovery {
                authentication_failures: 0,
                transient_failures: one_more(self.transient_failures, had_success),
            },
        }
    }

    /// The failures in the row that the last failure belongs to.
    pub open spec fn in_row(self, kind: SessionFailureKind) -> u32 {
        match kind {
            SessionFailureKind::Authentication => self.authentication_failures,
            _ => self.transient_failures,
        }
    }

    /// The wait after a failure of this sort: a suggestion counts where it is longer, up to six
    /// hours.
    pub open spec fn delay(
        self,
        kind: SessionFailureKind,
        suggested: Option<u64>,
        at_ms: i64,
    ) -> int {
        match kind {
            SessionFailureKind::Authentication => authentication_delay(
                self.authentication_failures,
                at_ms,
            ),
            _ => {
                let base = transient_delay(self.transient_failures) as int;
                match suggested {
                    Some(suggested) => if suggested < base {
                        base
                    } else if suggested > 21_600 {
                        21_600
                    } else {
                        suggested as int
                    },
                    None => base,
                }
            },
        }
    }

    /// Takes the end of a session at this time: the failures in its row, and the seconds to wait.
    pub fn on_failure(&mut self, failure: &SessionFailure, at_ms: i64) -> (outcome: (u32, u64))
        ensures
            *final(self) == old(self).after(failure@.kind, failure@.had_success),
            outcome.0 == final(self).in_row(failure@.kind),
            outcome.1 == final(self).delay(
                failure@.kind,
                failure@.suggested_retry_seconds,
                at_ms,
            ),
    {
        match failure.kind {
            SessionFailureKind::Authentication => {
                self.authentication_failures = if failure.had_success {
                    1
                } else {
                    self.authentication_failures.saturating_add(1)
                };
                self.transient_failures = 0;
                (
                    self.authentication_failures,
                    authentication_retry_delay_at(self.authentication_failures, at_ms),
                )
            },
            SessionFailureKind::RateLimited | SessionFailureKind::Transient => {
                self.transient_failures = if failure.had_success {
                    1
                } else {
                    self.transient_failures.saturating_add(1)
                };
                self.authentication_failures = 0;
                let base = transient_retry_delay(self.transient_failures);
                let delay = match failure.suggested_retry_seconds {
                    Some(suggested) => if suggested < base {
                        base
                    } else if suggested > LONGEST_DELAY_SECONDS {
                        LONGEST_DELAY_SECONDS
                    } else {
                        suggested
                    },
                    None => base,
                };
                (self.transient_failures, delay)
            },
        }
    }

    /// Takes that no App Server was found: the failures in the row, and the seconds to wait. The
    /// row of the rejections goes on.
    pub fn on_missing_server(&mut self) -> (outcome: (u32, u64))
        ensures
            *final(self) == (Recovery {
                transient_failures: one_more(old(self).transient_failures, false),
                ..*old(self)
            }),
            outcome.0 == final(self).transient_failures,
            outcome.1 == transient_delay(final(self).transient_failures),
    {
        self.transient_failures = self.transient_failures.saturating_add(1);
        (self.transient_failures, transient_retry_delay(self.transient_failures))
    }
}

/// Every wait is at least five seconds and at most six hours, and a wait that the App Server asks
/// for is kept wherever it is no longer than that.
pub proof fn waits_are_bounded(
    recovery: Recovery,
    kind: SessionFailureKind,
    suggested: Option<u64>,
    at_ms: i64,
)
    ensures
        5 <= recovery.delay(kind, suggested, at_ms) <= LONGEST_DELAY_SECONDS,
        kind != SessionFailureKind::Authentication ==> (suggested matches Some(seconds) ==> seconds
            <= LONGEST_DELAY_SECONDS ==> recovery.delay(kind, suggested, at_ms) >= seconds),
{
}

/// Once the identity was rejected twice in a row, the recorder waits for an hour at least, and for
/// longer or as long after each further rejection.
pub proof fn repeated_rejections_open_the_circuit(recovery: Recovery, at_ms: i64, later_ms: i64)
    requires
        recovery.authentication_failures >= 1,
    ensures
        ({
            let once = recovery.after(SessionFailureKind::Authentication, false);
            let twice = once.after(SessionFailureKind::Authentication, false);
            let first = once.delay(SessionFailureKind::Authentication, None, at_ms);
            let second = twice.delay(SessionFailureKind::Authentication, None, later_ms);
            3_600 <= first <= second
        }),
{
}

/// The health of the collector. Its state is the stored word: `starting`, `healthy`, `recovering` or
/// `degraded`. Any other word is kept until the state changes.
#[derive(Debug)]
pub struct CollectorHealth {
    pub state: String,
    pub last_success_at_ms: Option<i64>,
    pub last_failure_at_ms: Option<i64>,
    pub consecutive_failures: u32,
    pub last_error_class: Option<String>,
    pub last_error: Option<String>,
    pub next_retry_at_ms: Option<i64>,
    pub network_reads_total: u64,
    pub recoveries: u64,
    pub notifications_total: u64,
    pub last_notification_at_ms: Option<i64>,
}

/// What the health of the collector says.
#[verifier::ext_equal]
pub struct HealthView {
    pub state: Seq<char>,
    pub last_success_at_ms: Option<i64>,
    pub last_failure_at_ms: Option<i64>,
    pub consecutive_failures: u32,
    pub last_error_class: Option<Seq<char>>,
    pub last_error: Option<Seq<char>>,
    pub next_retry_at_ms: Option<i64>,
    pub network_reads_total: u64,
    pub recoveries: u64,
    pub notifications_total: u64,
    pub last_notification_at_ms: Option<i64>,
}

impl View for CollectorHealth {
    type V = HealthView;

    open spec fn view(&self) -> HealthView {
        HealthView {
            state: self.state@,
            last_success_at_ms: self.last_success_at_ms,
            last_failure_at_ms: self.last_failure_at_ms,
            consecutive_failures: self.consecutive_failures,
            last_error_class: text::opt_view(self.last_error_class),
            last_error: text::opt_view(self.last_error),
            next_retry_at_ms: self.next_retry_at_ms,
            network_reads_total: self.network_reads_total,
            recoveries: self.recoveries,
            notifications_total: self.notifications_total,
            last_notification_at_ms: self.last_notification_at_ms,
        }
    }
}

/// A counter after counting once more.
pub open spec fn counted(counter: u64) -> u64 {
    if counter < u64::MAX {
        (counter + 1) as u64
    } else {
        u64::MAX
    }
}

/// The word that is stored for a sort of failure.
pub open spec fn failure_word(kind: SessionFailureKind) -> Seq<char> {
    match kind {
        SessionFailureKind::Authentication => "authentication"@,
        SessionFailureKind::RateLimited => "rate_limited"@,
        SessionFailureKind::Transient => "transient"@,
    }
}

/// The word that is stored for a sort of failure.
pub fn failure_class(kind: SessionFailureKind) -> (word: &'static str)
    ensures
        word@ == failure_word(kind),
{
    match kind {
        SessionFailureKind::Authentication => "authentication",
        SessionFailureKind::RateLimited => "rate_limited",
        SessionFailureKind::Transient => "transient",
    }
}

/// When to try again after waiting from a time on; the last timestamp where that lies beyond.
pub open spec fn retry_time(at_ms: i64, delay_seconds: u64) -> i64 {
    if at_ms + delay_seconds * 1000 <= i64::MAX {
        (at_ms + delay_seconds * 1000) as i64
    } else {
        i64::MAX
    }
}

/// When to try again.
fn retry_at(at_ms: i64, delay_seconds: u64) -> (time: i64)
    ensures
        time == retry_time(at_ms, delay_seconds),
{
    let exact: i128 = at_ms as i128 + delay_seconds as i128 * 1000;
    if exact <= 9_223_372_036_854_775_807 {
        exact as i64
    } else {
        9_223_372_036_854_775_807
    }
}

impl HealthView {
    /// Before the first read.
    pub open spec fn starting() -> HealthView {
        HealthView {
            state: "starting"@,
            last_success_at_ms: None,
            last_failure_at_ms: None,
            consecutive_failures: 0,
            last_error_class: None,
            last_error: None,
            next_retry_at_ms: None,
            network_reads_total: 0,
            recoveries: 0,
            notifications_total: 0,
            last_notification_at_ms: None,
        }
    }

    /// The health after a read that succeeded: it is a recovery where the collector was not well.
    pub open spec fn after_success(self, at_ms: i64) -> HealthView {
        HealthView {
            state: "healthy"@,
            last_success_at_ms: Some(at_ms),
            consecutive_failures: 0,
            last_error_class: None,
            last_error: None,
            next_retry_at_ms: None,
            recoveries: if self.state == "recovering"@ || self.state == "degraded"@ {
                counted(self.recoveries)
            } else {
                self.recoveries
            },
            ..self
        }
    }

    /// The health after a session that ended: the collector is degraded where it waits for an hour
    /// or longer.
    pub open spec fn after_failure(
        self,
        kind: SessionFailureKind,
        message: Seq<char>,
        failures: u32,
        delay_seconds: u64,
        at_ms: i64,
    ) -> HealthView {
        HealthView {
            state: if delay_seconds >= 3_600 {
                "degraded"@
            } else {
                "recovering"@
            },
            last_failure_at_ms: Some(at_ms),
            consecutive_failures: failures,
            last_error_class: Some(failure_word(kind)),
            last_error: Some(message),
            next_retry_at_ms: Some(retry_time(at_ms, delay_seconds)),
            ..self
        }
    }

    /// The health after a notification.
    pub open spec fn after_notification(self, at_ms: i64) -> HealthView {
        HealthView {
            notifications_total: counted(self.notifications_total),
            last_notification_at_ms: Some(at_ms),
            ..self
        }
    }

    /// The health after a read was sent.
    pub open spec fn after_network_read(self) -> HealthView {
        HealthView { network_reads_total: counted(self.network_reads_total), ..self }
    }
}

impl CollectorHealth {
    /// Before the first read.
    pub fn new() -> (health: CollectorHealth)
        ensures
            health@ == HealthView::starting(),
    {
        CollectorHealth {
            state: "starting".to_owned(),
            last_success_at_ms: None,
            last_failure_at_ms: None,
            consecutive_failures: 0,
            last_error_class: None,
            last_error: None,
            next_retry_at_ms: None,
            network_reads_total: 0,
            recoveries: 0,
            notifications_total: 0,
            last_notification_at_ms: None,
        }
    }

    /// Takes a read that succeeded.
    pub fn record_success(&mut self, at_ms: i64)
        ensures
            final(self)@ == old(self)@.after_success(at_ms),
    {
        if same_text(self.state.as_str(), "recovering") || same_text(
            self.state.as_str(),
            "degraded",
        ) {
            self.recoveries = self.recoveries.saturating_add(1);
        }
        self.state = "healthy".to_owned();
        self.last_success_at_ms = Some(at_ms);
        self.consecutive_failures = 0;
        self.last_error_class = None;
        self.last_error = None;
        self.next_retry_at_ms = None;
    }

    /// Takes a session that ended.
    pub fn record_failure(
        &mut self,
        failure: &SessionFailure,
        failures: u32,
        delay_seconds: u64,
        at_ms: i64,
    )
        ensures
            final(self)@ == old(self)@.after_failure(
                failure@.kind,
                failure@.message,
                failures,
                delay_seconds,
                at_ms,
            ),
    {
        self.state = if delay_seconds >= 3_600 {
            "degraded".to_owned()
        } else {
            "recovering".to_owned()
        };
        self.last_failure_at_ms = Some(at_ms);
        self.consecutive_failures = failures;
        self.last_error_class = Some(failure_class(failure.kind).to_owned());
        self.last_error = Some(failure.message.clone());
        self.next_retry_at_ms = Some(retry_at(at_ms, delay_seconds));
    }

    /// Takes a notification.
    pub fn record_notification(&mut self, at_ms: i64)
        ensures
            final(self)@ == old(self)@.after_notification(at_ms),
    {
        self.notifications_total = self.notifications_total.saturating_add(1);
        self.last_notification_at_ms = Some(at_ms);
    }

    /// Takes that a read was sent.
    pub fn record_network_read(&mut self)
        ensures
            final(self)@ == old(self)@.after_network_read(),
    {
        self.network_reads_total = self.network_reads_total.saturating_add(1);
    }
}

/// A success ends every failure: whatever failed before, the collector is healthy, no failure
/// counts, no error is left and no retry is due; and it counts as a recovery exactly where a
/// session had failed since the last success.
pub proof fn success_recovers_from_failure(
    health: HealthView,
    kind: SessionFailureKind,
    message: Seq<char>,
    failures: u32,
    delay_seconds: u64,
    failed_at_ms: i64,
    at_ms: i64,
)
    ensures
        ({
            let failed = health.after_failure(
                kind,
                message,
                failures,
                delay_seconds,
                failed_at_ms,
            );
            let well = failed.after_success(at_ms);
            &&& well.state == "healthy"@
            &&& well.consecutive_failures == 0
            &&& well.last_error is None
            &&& well.last_error_class is None
            &&& well.next_retry_at_ms is None
            &&& well.recoveries == counted(health.recoveries)
            &&& well.after_success(at_ms).recoveries == well.recoveries
        }),
{
    reveal_strlit("healthy");
    reveal_strlit("recovering");
    reveal_strlit("degraded");
    assert("healthy"@.len() == 7 && "recovering"@.len() == 10 && "degraded"@.len() == 8);
}

/// Notifications and reads are counted without touching anything else about the health: nothing
/// that a notification carries is kept.
pub proof fn counting_changes_no_state(health: HealthView, at_ms: i64)
    ensures
        ({
            let noted = health.after_notification(at_ms);
            (HealthView {
                notifications_total: health.notifications_total,
                last_notification_at_ms: health.last_notification_at_ms,
                ..noted
            }) == health
        }),
        ({
            let read = health.after_network_read();
            (HealthView { network_reads_total: health.network_reads_total, ..read }) == health
        }),
{
}

/// What is logged about a scan.
pub open spec fn scan_line(summary: IngestSummary) -> Seq<char> {
    "token sync inserted="@ + text::decimal(summary.events_inserted as nat) + " duplicates="@
        + text::decimal(summary.duplicate_events_skipped as nat) + " malformed="@ + text::decimal(
        summary.malformed_lines as nat,
    ) + " files_changed="@ + text::decimal(summary.files_changed as nat)
}

/// What is logged about a scan; nothing where it found neither events nor malformed lines.
pub fn scan_log(summary: &IngestSummary) -> (line: Option<String>)
    ensures
        text::opt_view(line) == if summary.events_inserted > 0 || summary.malformed_lines > 0 {
            Some(scan_line(*summary))
        } else {
            None
        },
{
    if summary.events_inserted == 0 && summary.malformed_lines == 0 {
        return None;
    }
    let mut line = "token sync inserted=".to_owned();
    push_decimal(&mut line, summary.events_inserted);
    line.append(" duplicates=");
    push_decimal(&mut line, summary.duplicate_events_skipped);
    line.append(" malformed=");
    push_decimal(&mut line, summary.malformed_lines);
    line.append(" files_changed=");
    push_decimal(&mut line, summary.files_changed);
    assert(line@ =~= scan_line(*summary));
    Some(line)
}

/// A setting is taken as it is wherever it lies within the bounds; else the nearest bound is taken,
/// and where there is no number the default.
pub proof fn settings_are_kept_within_bounds(
    setting: Option<Seq<char>>,
    default: u64,
    least: u64,
    most: u64,
    number: nat,
)
    requires
        least <= most,
        least <= default <= most,
    ensures
        setting is None ==> configured(setting, default, least, most) == default,
        setting matches Some(text) ==> text::number_of_text(text, u64::MAX as nat) is None
            ==> configured(setting, default, least, most) == default,
        setting matches Some(text) ==> text::number_of_text(text, u64::MAX as nat) == Some(number)
            ==> {
            &&& least <= number <= most ==> configured(setting, default, least, most) == number
            &&& number < least ==> configured(setting, default, least, most) == least
            &&& number > most ==> configured(setting, default, least, most) == most
        },
{
}

/// Each seed gives its own wait around the base: from a spread below it up to a spread above it, a
/// second further for each next seed.
pub proof fn every_wait_around_the_base_is_reached(base: u64, offset: u64)
    requires
        10 <= base <= u64::MAX / 2,
        offset <= 2 * (base / 10),
    ensures
        jittered(base, offset) == base - base / 10 + offset,
{
    let spread = spread_of(base);
    assert(offset as int % (2 * spread + 1) == offset) by (nonlinear_arith)
        requires
            0 <= offset <= 2 * spread,
            spread >= 1,
    ;
}

/// Waits after rejections of the identity start at an hour with the second one and double with each
/// further one, up to six hours; after the first they are a few seconds that the clock decides.
pub proof fn waits_after_rejections_double(failures: u32, at_ms: i64)
    ensures
        failures <= 1 ==> 5 <= authentication_delay(failures, at_ms) <= 15,
        authentication_delay(2, at_ms) == 3_600,
        2 <= failures < u32::MAX ==> authentication_delay((failures + 1) as u32, at_ms) == (if 2
            * authentication_delay(failures, at_ms) <= 21_600 {
            2 * authentication_delay(failures, at_ms)
        } else {
            21_600
        }),
{
}

/// Waits after other failures never shrink as the row goes on: a minute at first, an hour at last.
pub proof fn waits_after_failures_never_shrink(failures: u32)
    requires
        failures < u32::MAX,
    ensures
        60 <= transient_delay(failures) <= transient_delay((failures + 1) as u32) <= 3_600,
        failures <= 1 ==> transient_delay(failures) == 60,
        failures >= 4 ==> transient_delay(failures) == 3_600,
        2 <= failures <= 3 ==> transient_delay((failures - 1) as u32) < transient_delay(failures)
            && transient_delay(failures) < transient_delay((failures + 1) as u32),
{
}

/// A failure goes on with the row of its own sort and ends that of the other; after a session that
/// did its work a new row begins.
pub proof fn a_failure_goes_on_with_its_own_row(
    recovery: Recovery,
    kind: SessionFailureKind,
    had_success: bool,
)
    ensures
        ({
            let after = recovery.after(kind, had_success);
            let rejected = kind == SessionFailureKind::Authentication;
            &&& rejected ==> after.transient_failures == 0 && after.in_row(kind)
                == after.authentication_failures
            &&& !rejected ==> after.authentication_failures == 0 && after.in_row(kind)
                == after.transient_failures
            &&& had_success ==> after.in_row(kind) == 1
            &&& !had_success && recovery.in_row(kind) < u32::MAX ==> after.in_row(kind)
                == recovery.in_row(kind) + 1
            &&& !had_success && recovery.in_row(kind) == u32::MAX ==> after.in_row(kind)
                == u32::MAX
        }),
{
}

/// The wait after a failure is the longer one of the row's own and the one that is suggested, of
/// which six hours count at most; a rejected identity waits by its row alone.
pub proof fn a_suggested_wait_counts_where_it_is_longer(
    recovery: Recovery,
    suggested: u64,
    at_ms: i64,
)
    ensures
        ({
            let own = transient_delay(recovery.transient_failures);
            let wait = recovery.delay(SessionFailureKind::RateLimited, Some(suggested), at_ms);
            &&& wait >= own
            &&& suggested <= own ==> wait == own
            &&& own < suggested <= 21_600 ==> wait == suggested
            &&& suggested > 21_600 ==> wait == 21_600
            &&& recovery.delay(SessionFailureKind::Transient, Some(suggested), at_ms) == wait
            &&& recovery.delay(SessionFailureKind::Transient, None, at_ms) == own
            &&& recovery.delay(SessionFailureKind::Authentication, Some(suggested), at_ms)
                == recovery.delay(SessionFailureKind::Authentication, None, at_ms)
            &&& recovery.delay(SessionFailureKind::Authentication, None, at_ms)
                == authentication_delay(recovery.authentication_failures, at_ms)
        }),
{
}

/// What a failure leaves behind: its time, its class and its words, the failures in its row and the
/// time to try again, and a collector that is degraded exactly where it waits for an hour or longer.
/// Nothing about earlier successes or counts is touched.
pub proof fn a_failure_is_kept_until_the_next_success(
    health: HealthView,
    kind: SessionFailureKind,
    message: Seq<char>,
    failures: u32,
    delay_seconds: u64,
    at_ms: i64,
)
    ensures
        ({
            let after = health.after_failure(kind, message, failures, delay_seconds, at_ms);
            &&& delay_seconds >= 3_600 ==> after.state == "degraded"@
            &&& delay_seconds < 3_600 ==> after.state == "recovering"@
            &&& after.last_failure_at_ms == Some(at_ms)
            &&& after.consecutive_failures == failures
            &&& after.last_error == Some(message)
            &&& after.last_error_class == Some(
                match kind {
                    SessionFailureKind::Authentication => "authentication"@,
                    SessionFailureKind::RateLimited => "rate_limited"@,
                    SessionFailureKind::Transient => "transient"@,
                },
            )
            &&& at_ms + delay_seconds * 1000 <= i64::MAX ==> after.next_retry_at_ms == Some(
                (at_ms + delay_seconds * 1000) as i64,
            )
            &&& after.last_success_at_ms == health.last_success_at_ms
            &&& after.network_reads_total == health.network_reads_total
            &&& after.recoveries == health.recoveries
            &&& after.notifications_total == health.notifications_total
            &&& after.last_notification_at_ms == health.last_notification_at_ms
        }),
{
}

/// What a success, a notification and a read leave behind: their own time and count, and nothing else.
/// A success after a success is no recovery.
pub proof fn each_event_is_counted_once(health: HealthView, at_ms: i64)
    ensures
        health.after_success(at_ms).last_success_at_ms == Some(at_ms),
        health.after_success(at_ms).state == "healthy"@,
        health.after_success(at_ms).last_failure_at_ms == health.last_failure_at_ms,
        health.after_success(at_ms).notifications_total == health.notifications_total,
        health.after_success(at_ms).network_reads_total == health.network_reads_total,
        health.state != "recovering"@ && health.state != "degraded"@ ==> health.after_success(
            at_ms,
        ).recoveries == health.recoveries,
        health.notifications_total < u64::MAX ==> health.after_notification(
            at_ms,
        ).notifications_total == health.notifications_total + 1,
        health.after_notification(at_ms).last_notification_at_ms == Some(at_ms),
        health.network_reads_total < u64::MAX ==> health.after_network_read().network_reads_total
            == health.network_reads_total + 1,
{
}

/// The few seconds after a first rejection are five and what the clock leaves over, the same for a
/// time before the epoch as for one as long after it.
pub proof fn the_clock_spreads_the_first_wait(at_ms: i64)
    requires
        at_ms > i64::MIN,
    ensures
        at_ms >= 0 ==> authentication_delay(1, at_ms) == 5 + at_ms as int % 11,
        authentication_delay(1, at_ms) == authentication_delay(1, (-at_ms) as i64),
        authentication_delay(0, at_ms) == authentication_delay(1, at_ms),
{
}

/// A collector starts with nothing counted and nothing known.
pub proof fn a_collector_starts_with_nothing_counted()
    ensures
        ({
            let health = HealthView::starting();
            &&& health.state == "starting"@
            &&& health.consecutive_failures == 0
            &&& health.network_reads_total == 0
            &&& health.recoveries == 0
            &&& health.notifications_total == 0
            &&& health.last_success_at_ms is None
            &&& health.last_failure_at_ms is None
            &&& health.last_error is None
            &&& health.last_error_class is None
            &&& health.next_retry_at_ms is None
            &&& health.last_notification_at_ms is None
        }),
{
}

/// A counter goes up by one, and stays where it is when it can go no further.
pub proof fn counters_never_turn_over(counter: u64)
    ensures
        counter < u64::MAX ==> counted(counter) == counter + 1,
        counted(u64::MAX) == u64::MAX,
{
}

/// A number within bounds stays as it is, one below them becomes the least and one above the most.
pub proof fn a_number_is_moved_into_its_bounds(number: int, least: int, most: int)
    requires
        least <= most,
    ensures
        least <= clamped(number, least, most) <= most,
        least <= number <= most ==> clamped(number, least, most) == number,
        number < least ==> clamped(number, least, most) == least,
        number > most ==> clamped(number, least, most) == most,
{
}

/// The waits after other failures: a minute, five minutes, a quarter of an hour, and then an hour.
pub proof fn waits_after_failures_grow_in_steps(failures: u32)
    ensures
        failures < 2 ==> transient_delay(failures) == 60,
        transient_delay(2) == 5 * 60,
        transient_delay(3) == 15 * 60,
        failures > 3 ==> transient_delay(failures) == 60 * 60,
{
}

/// A wait lies no further from its base than a tenth of it, and for a short base than a second.
pub proof fn a_wait_lies_around_its_base(base: u64, seed: u64)
    requires
        1 <= base <= u64::MAX / 2,
    ensures
        base >= 10 ==> base - base / 10 <= jittered(base, seed) <= base + base / 10,
        base < 10 ==> base - 1 <= jittered(base, seed) <= base + 1,
{
    let spread = spread_of(base);
    assert(0 <= seed as int % (2 * spread + 1) <= 2 * spread) by (nonlinear_arith)
        requires
            spread >= 1,
    ;
}

/// A base of nothing gives waits of up to two seconds.
pub proof fn a_wait_around_nothing_is_short(seed: u64)
    ensures
        0 <= jittered(0, seed) <= 2,
        jittered(0, 0) == 0,
{
}

} // verus!
