use codex_quota_ledger::json::Document;
use codex_quota_ledger::recorder::authentication_retry_delay;
use codex_quota_ledger::recorder::authentication_retry_delay_at;
use codex_quota_ledger::recorder::fallback_seconds;
use codex_quota_ledger::recorder::jittered_fallback_seconds;
use codex_quota_ledger::recorder::scan_log;
use codex_quota_ledger::recorder::token_scan_seconds;
use codex_quota_ledger::recorder::transient_retry_delay;
use codex_quota_ledger::recorder::unsigned_time;
use codex_quota_ledger::recorder::CollectorHealth;
use codex_quota_ledger::recorder::Recovery;
use codex_quota_ledger::recorder::DEFAULT_FALLBACK_SECONDS;
use codex_quota_ledger::scan::IngestSummary;
use codex_quota_ledger::session::classify_error_text;
use codex_quota_ledger::session::classify_rate_limit_error;
use codex_quota_ledger::session::message_of_line;
use codex_quota_ledger::session::on_handshake_line;
use codex_quota_ledger::session::retry_after_seconds;
use codex_quota_ledger::session::session_failure;
use codex_quota_ledger::session::Action;
use codex_quota_ledger::session::Handshake;
use codex_quota_ledger::session::RateLimitErrorClass;
use codex_quota_ledger::session::ReadSource;
use codex_quota_ledger::session::Session;
use codex_quota_ledger::session::SessionFailureKind;
use codex_quota_ledger::session::Step;
use codex_quota_ledger::session::Weighed;

#[test]
fn authentication_rejection_requires_session_rebuild() {
    let error = Document::parse(r#"{"code":-32001,"message":"Unauthorized: token_invalidated"}"#)
        .expect("error");
    assert_eq!(
        classify_rate_limit_error(&error),
        RateLimitErrorClass::Authentication
    );
}

#[test]
fn normal_fallback_is_low_frequency() {
    assert_eq!(DEFAULT_FALLBACK_SECONDS, 3_600);
    assert!((3_240..=3_960).contains(&jittered_fallback_seconds(3_600, 17)));
}

#[test]
fn repeated_authentication_failures_open_circuit() {
    assert!(authentication_retry_delay(1) <= 15);
    assert_eq!(authentication_retry_delay(2), 3_600);
    assert_eq!(authentication_retry_delay(3), 7_200);
    assert_eq!(authentication_retry_delay(99), 21_600);
}

#[test]
fn rate_limit_retry_after_is_honored() {
    let error = Document::parse(r#"{"message":"Too many requests","data":{"retryAfterMs":90001}}"#)
        .expect("error");
    assert_eq!(
        classify_rate_limit_error(&error),
        RateLimitErrorClass::RateLimited
    );
    assert_eq!(retry_after_seconds(error.json()), Some(91));
}

#[test]
fn collector_health_tracks_failure_and_recovery() {
    let mut health = CollectorHealth::new();
    let failure = session_failure(
        SessionFailureKind::Authentication,
        "token_invalidated".to_string(),
        false,
    );
    health.record_failure(&failure, 2, 3_600, 1_000);
    assert_eq!(health.state, "degraded");
    assert_eq!(health.consecutive_failures, 2);
    assert_eq!(health.last_error_class.as_deref(), Some("authentication"));
    assert_eq!(health.next_retry_at_ms, Some(3_601_000));
    health.record_success(9_000_000);
    assert_eq!(health.state, "healthy");
    assert_eq!(health.consecutive_failures, 0);
    assert_eq!(health.recoveries, 1);
    assert_eq!(health.last_error, None);
}

#[test]
fn rate_limit_notifications_are_auditable_without_storing_payloads() {
    let mut health = CollectorHealth::new();
    health.record_notification(7);
    health.record_network_read();
    assert_eq!(health.notifications_total, 1);
    assert!(health.last_notification_at_ms.is_some());
    assert_eq!(health.network_reads_total, 1);
    assert_eq!(health.state, "starting");
}

#[test]
fn a_state_that_is_not_known_is_kept_and_is_nothing_to_recover_from() {
    let mut health = CollectorHealth::new();
    health.state = "paused".to_string();
    health.record_notification(7);
    health.record_network_read();
    assert_eq!(health.state, "paused");
    health.record_success(8);
    assert_eq!(health.state, "healthy");
    assert_eq!(health.recoveries, 0);
}

#[test]
fn errors_are_classified_by_their_words() {
    assert_eq!(classify_error_text("STATUS 401"), RateLimitErrorClass::Authentication);
    assert_eq!(classify_error_text("code \"429\""), RateLimitErrorClass::RateLimited);
    assert_eq!(classify_error_text("a Rate Limit"), RateLimitErrorClass::RateLimited);
    assert_eq!(classify_error_text("status 599"), RateLimitErrorClass::Server);
    assert_eq!(classify_error_text("\"500\""), RateLimitErrorClass::Server);
    assert_eq!(classify_error_text("status 499"), RateLimitErrorClass::Other);
    assert_eq!(classify_error_text("500"), RateLimitErrorClass::Other);
    let seconds = |text: &str| retry_after_seconds(Document::parse(text).expect("error").json());
    assert_eq!(seconds(r#"{"retry_after":5,"data":{"retryAfter":9}}"#), Some(5));
    assert_eq!(seconds(r#"{"retryAfterMs":"x","retry_after_ms":9,"retryAfter":3}"#), Some(3));
    assert_eq!(seconds(r#"{"data":{"retry_after_ms":1000}}"#), Some(1));
    assert_eq!(seconds("{}"), None);
}

fn message(text: &str) -> Document {
    message_of_line(text).expect("message")
}

fn ready() -> Session {
    let (mut session, id) = Session::start();
    assert_eq!(id, 2);
    let step = session.on_message(&message(
        r#"{"id":2,"result":{"account":{"type":"chatgpt","email":"a@b.c","planType":"pro"}}}"#,
    ));
    assert!(step.failure.is_none());
    assert!(matches!(step.actions[0], Action::StoreAccount(_)));
    assert!(matches!(step.actions[1], Action::ReadUsage(3)));
    assert!(matches!(step.actions[2], Action::ReadLimits(4)));
    assert_eq!(step.actions.len(), 3);
    session
}

fn failed(step: Step) -> (SessionFailureKind, String, bool, Option<u64>) {
    let failure = step.failure.expect("failure");
    (
        failure.kind,
        failure.message,
        failure.had_success,
        failure.suggested_retry_seconds,
    )
}

#[test]
fn a_session_reads_usage_and_limits_once_its_account_is_known() {
    let mut session = ready();
    let usage = session.on_message(&message(r#"{"id":3,"result":{"summary":{"lifetimeTokens":5}}}"#));
    match &usage.actions[0] {
        Action::StoreUsage(account, usage) => {
            assert!(account.starts_with("acct-"));
            assert_eq!(usage.lifetime_tokens, Some(5));
        }
        other => panic!("unexpected action: {other:?}"),
    }
    let limits = session.on_message(&message(
        r#"{"id":4,"result":{"rateLimits":{"secondary":{"usedPercent":7,"windowDurationMins":10080,"resetsAt":2000}}}}"#,
    ));
    let mut actions = limits.actions;
    match actions.remove(0) {
        Action::Weigh(windows, source, raw_json) => {
            assert_eq!(source, ReadSource::Initial);
            assert!(raw_json.starts_with("{\"rateLimits\""));
            assert_eq!(windows.len(), 1);
            let weighed = session.on_weighed(
                windows,
                &vec![0],
                None,
                source,
                raw_json,
                77,
                "0.1.0".to_string(),
            );
            match weighed {
                Weighed::Observed(snapshot) => {
                    assert_eq!(snapshot.plan.as_deref(), Some("pro"));
                    assert_eq!(snapshot.source, "initial");
                    assert_eq!(snapshot.observed_at_ms, 77);
                    assert_eq!(snapshot.reset_at_ms, Some(2_000_000));
                    assert_eq!(snapshot.used_percent_bits, 7.0_f64.to_bits());
                }
                other => panic!("unexpected outcome: {other:?}"),
            }
        }
        other => panic!("unexpected action: {other:?}"),
    }
    session.on_snapshot_taken();
    assert!(session.on_closed().had_success);
    assert_eq!(session.on_closed().message, "App Server connection closed");
    assert_eq!(session.on_disconnected().message, "App Server reader stopped");
    assert_eq!(session.on_action_failed("disk".to_string()).kind, SessionFailureKind::Transient);
}

#[test]
fn notifications_and_silence_read_what_is_not_being_read() {
    let mut session = ready();
    let busy = session.on_message(&message(r#"{"method":"account/rateLimits/updated"}"#));
    assert_eq!(busy.actions.len(), 1);
    assert!(session.on_timeout().actions.is_empty());
    session.on_message(&message(r#"{"id":4,"result":{}}"#));
    let notified = session.on_message(&message(r#"{"method":"account/rateLimits/updated"}"#));
    assert!(matches!(notified.actions[0], Action::CountNotification));
    assert!(matches!(notified.actions[1], Action::ReadLimits(5)));
    session.on_message(&message(r#"{"id":3,"result":{}}"#));
    let silent = session.on_timeout();
    assert_eq!(silent.actions.len(), 1);
    assert!(matches!(silent.actions[0], Action::ReadUsage(6)));
    assert!(session.has_room());
    let (mut young, _) = Session::start();
    assert!(young.on_timeout().actions.is_empty());
    assert_eq!(
        young
            .on_message(&message(r#"{"method":"account/rateLimits/updated"}"#))
            .actions
            .len(),
        1
    );
}

#[test]
fn sessions_end_as_their_errors_say() {
    let (mut session, _) = Session::start();
    assert_eq!(
        failed(session.on_message(&message(r#"{"id":2,"error":{"code":1}}"#))),
        (SessionFailureKind::Authentication, "{\"code\":1}".to_string(), false, None)
    );
    let (mut session, _) = Session::start();
    assert_eq!(
        failed(session.on_message(&message(r#"{"id":2}"#))).1,
        "account/read returned no result"
    );
    let (mut session, _) = Session::start();
    assert_eq!(
        failed(session.on_message(&message(r#"{"id":2,"result":{}}"#))).1,
        "App Server returned no authenticated account"
    );
    let mut session = ready();
    assert_eq!(
        failed(session.on_message(&message(r#"{"method":"account/updated"}"#))).1,
        "account identity changed; rebuilding the App Server session"
    );
    let mut session = ready();
    let step = session.on_message(&message(
        r#"{"id":4,"error":{"message":"rate limit","retryAfter":30}}"#,
    ));
    assert!(matches!(&step.actions[0], Action::Log(line) if line.starts_with("rate-limit read rejected: ")));
    let ended = failed(step);
    assert_eq!((ended.0, ended.3), (SessionFailureKind::RateLimited, Some(30)));
    let mut session = ready();
    let ended = failed(session.on_message(&message(r#"{"id":4,"error":{"message":"status 503","retryAfter":30}}"#)));
    assert_eq!((ended.0, ended.3), (SessionFailureKind::Transient, None));
    let mut session = ready();
    assert_eq!(
        failed(session.on_message(&message(r#"{"id":4}"#))).1,
        "rate-limit read returned no result"
    );
    let mut session = ready();
    let logged = session.on_message(&message(r#"{"id":3,"error":"busy"}"#));
    assert!(matches!(&logged.actions[0], Action::Log(line) if line == "account usage read unavailable: \"busy\""));
    let mut session = ready();
    assert_eq!(
        failed(session.on_message(&message(r#"{"id":3,"error":"authentication"}"#))).0,
        SessionFailureKind::Authentication
    );
}

#[test]
fn replies_that_nothing_waits_for_are_passed_over() {
    let mut session = ready();
    for text in [r#"{"id":99,"error":{}}"#, r#"{"method":"other"}"#, "[]", r#"{"id":2,"result":{}}"#] {
        let step = session.on_message(&message(text));
        assert!(step.actions.is_empty() && step.failure.is_none());
    }
    let invalid = session.on_invalid("eof");
    assert!(matches!(&invalid.actions[0], Action::Log(line) if line == "invalid App Server message: eof"));
    let missing = session.on_message(&message(r#"{"id":4,"result":{"rateLimitsByLimitId":{"x":{}}}}"#));
    assert!(matches!(&missing.actions[0], Action::Log(line)
        if line == "unable to parse rate limits: canonical codex limit id is missing; available limit ids: x"));
    let unreadable = session.on_weighed(
        vec![],
        &vec![],
        None,
        ReadSource::Fallback,
        "{}".to_string(),
        0,
        "0.1.0".to_string(),
    );
    assert!(matches!(unreadable, Weighed::Unreadable(line)
        if line == "unable to parse rate limits: unsupported rate-limit schema"));
}

#[test]
fn the_handshake_waits_for_its_own_reply() {
    assert!(matches!(on_handshake_line("{\"method\":\"x\"}\n"), Handshake::Waiting));
    assert!(matches!(on_handshake_line(" {\"id\":1,\"result\":{}} \n"), Handshake::Ready));
    match on_handshake_line("{\"id\":1,\"error\":{}}") {
        Handshake::Failed(error) => assert_eq!(
            error,
            "App Server rejected initialization: {\"error\":{},\"id\":1}"
        ),
        other => panic!("unexpected outcome: {other:?}"),
    }
    match on_handshake_line("nonsense") {
        Handshake::Failed(error) => assert_eq!(
            error,
            "invalid App Server initialization response: expected ident at line 1 column 2"
        ),
        other => panic!("unexpected outcome: {other:?}"),
    }
    assert_eq!(
        message_of_line("nonsense").err(),
        Some("expected ident at line 1 column 2".to_string())
    );
}

#[test]
fn waits_grow_with_the_failures_in_a_row() {
    let auth = session_failure(SessionFailureKind::Authentication, "x".to_string(), false);
    let mut limited = session_failure(SessionFailureKind::RateLimited, "x".to_string(), false);
    let mut recovery = Recovery::new();
    assert_eq!(recovery.on_failure(&auth, 23), (1, 6));
    assert_eq!(recovery.on_failure(&auth, 23), (2, 3_600));
    assert_eq!(recovery.on_failure(&limited, 23), (1, 60));
    assert_eq!(recovery.authentication_failures, 0);
    limited.suggested_retry_seconds = Some(100);
    assert_eq!(recovery.on_failure(&limited, 23), (2, 300));
    limited.suggested_retry_seconds = Some(99_999);
    assert_eq!(recovery.on_failure(&limited, 23), (3, 21_600));
    limited.had_success = true;
    limited.suggested_retry_seconds = None;
    assert_eq!(recovery.on_failure(&limited, 23), (1, 60));
    assert_eq!(recovery.on_missing_server(), (2, 300));
    assert_eq!(transient_retry_delay(0), 60);
    assert_eq!(transient_retry_delay(4), 3_600);
    assert_eq!(authentication_retry_delay_at(4, 0), 14_400);
    assert_eq!(authentication_retry_delay_at(0, -12), 6);
    assert_eq!(unsigned_time(i64::MIN), 9_223_372_036_854_775_808);
}

#[test]
fn settings_are_kept_within_bounds() {
    assert_eq!(fallback_seconds(None), 3_600);
    assert_eq!(fallback_seconds(Some("10")), 300);
    assert_eq!(fallback_seconds(Some("100000")), 86_400);
    assert_eq!(fallback_seconds(Some("+600")), 600);
    assert_eq!(fallback_seconds(Some(" 600")), 3_600);
    assert_eq!(token_scan_seconds(Some("x")), 30);
    assert_eq!(token_scan_seconds(Some("1")), 5);
    assert_eq!(token_scan_seconds(Some("99999999999999999999")), 30);
    assert_eq!(jittered_fallback_seconds(3_600, 17), 3_257);
    assert_eq!(jittered_fallback_seconds(0, 5), 2);
    assert_eq!(jittered_fallback_seconds(u64::MAX, u64::MAX), u64::MAX - u64::MAX / 10 + u64::MAX % (u64::MAX / 10 * 2 + 1));
}

#[test]
fn scans_are_logged_where_they_found_something() {
    let mut summary = IngestSummary::new(1, 2);
    summary.files_changed = 4;
    summary.duplicate_events_skipped = 3;
    assert_eq!(scan_log(&summary), None);
    summary.events_inserted = 10;
    assert_eq!(
        scan_log(&summary).as_deref(),
        Some("token sync inserted=10 duplicates=3 malformed=0 files_changed=4")
    );
}
