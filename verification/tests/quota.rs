use codex_quota_ledger::account::account_identity;
use codex_quota_ledger::account::partition_seen;
use codex_quota_ledger::account::stable_account_fingerprint;
use codex_quota_ledger::calendar::bounds_of;
use codex_quota_ledger::calendar::calendar_day_bounds_ms;
use codex_quota_ledger::calendar::day_from;
use codex_quota_ledger::calendar::DayOutcome;
use codex_quota_ledger::history::latest_snapshot_for_account;
use codex_quota_ledger::history::read_history;
use codex_quota_ledger::history::saturating_difference;
use codex_quota_ledger::history::Difference;
use codex_quota_ledger::history::QuotaLog;
use codex_quota_ledger::history::Snapshot;
use codex_quota_ledger::history::QUOTA_OBSERVATION_SCHEMA_VERSION;
use codex_quota_ledger::history::RESET_JITTER_TOLERANCE_MS;
use codex_quota_ledger::json::Document;
use codex_quota_ledger::official::official_usage;
use codex_quota_ledger::quota::rank_windows;
use codex_quota_ledger::quota::select_weekly_window;
use codex_quota_ledger::quota::weekly_candidates;
use codex_quota_ledger::quota::Ranking;
use codex_quota_ledger::quota::WindowReading;
use codex_quota_ledger::recorder::COLLECTOR_VERSION;

const WEEK: f64 = 10_080.0;

fn gap(left: u64, right: u64) -> u64 {
    (f64::from_bits(left) - f64::from_bits(right)).abs().to_bits()
}

fn select(text: &str) -> Result<WindowReading, String> {
    let document = Document::parse(text).expect("reply");
    let candidates = weekly_candidates(document.json())?;
    let distances: Vec<u64> = candidates
        .iter()
        .map(|window| (f64::from_bits(window.duration_minutes_bits) - WEEK).abs().to_bits())
        .collect();
    let gap = rank_windows(&distances).and_then(|ranking| {
        ranking.runner_up.map(|next| {
            (f64::from_bits(distances[next]) - f64::from_bits(distances[ranking.winner]))
                .abs()
                .to_bits()
        })
    });
    select_weekly_window(candidates, &distances, gap)
}

#[test]
fn selects_weekly_secondary_window() {
    let result = select(
        r#"{"rateLimitsByLimitId":{"codex":{
            "primary":{"usedPercent":31.0,"windowDurationMins":300,"resetsAt":1000},
            "secondary":{"usedPercent":7.0,"windowDurationMins":10080,"resetsAt":2000},
            "plan":"prolite"}}}"#,
    )
    .expect("weekly window");
    assert_eq!(f64::from_bits(result.used_percent_bits), 7.0);
    assert_eq!(100.0 - f64::from_bits(result.used_percent_bits), 93.0);
    assert_eq!(result.reset_at_ms, Some(2_000_000));
    assert_eq!(result.limit_id.as_deref(), Some("codex"));
    assert_eq!(result.plan.as_deref(), Some("prolite"));
}

#[test]
fn parses_direct_weekly_window() {
    let result = select(
        r#"{"rateLimits":[{"limitId":"codex","usedPercent":42.5,"durationMinutes":10080,"resetAt":1700000000}]}"#,
    )
    .expect("weekly window");
    assert_eq!(f64::from_bits(result.used_percent_bits), 42.5);
    assert_eq!(100.0 - f64::from_bits(result.used_percent_bits), 57.5);
    assert_eq!(result.reset_at_ms, Some(1_700_000_000_000));
}

#[test]
fn bengalfox_is_not_silently_treated_as_codex() {
    let error = select(
        r#"{"rateLimitsByLimitId":{"codex_bengalfox":{"secondary":{
            "usedPercent":9.0,"windowDurationMins":10080,"resetsAt":2000}}}}"#,
    )
    .expect_err("must fail closed");
    assert!(error.contains("codex_bengalfox"));
}

#[test]
fn missing_limits_are_listed_in_their_order() {
    let error = select(r#"{"rateLimitsByLimitId":{"b":{},"a":{},"c":{}}}"#).expect_err("missing");
    assert_eq!(
        error,
        "canonical codex limit id is missing; available limit ids: a, b, c"
    );
}

#[test]
fn windows_that_cannot_be_told_apart_are_refused() {
    assert_eq!(
        select("{}").expect_err("empty"),
        "unsupported rate-limit schema"
    );
    let ambiguous = "ambiguous weekly rate-limit schema";
    assert_eq!(
        select(r#"{"rateLimits":[{"usedPercent":1,"durationMinutes":10080},{"usedPercent":2,"durationMinutes":10080}]}"#)
            .expect_err("tied"),
        ambiguous
    );
    assert_eq!(
        select(r#"{"usedPercent":1,"duration_minutes":9839.9}"#).expect_err("far"),
        ambiguous
    );
    let edge = select(r#"{"usedPercent":1,"duration_minutes":9840,"reset_at":20000000000}"#)
        .expect("just near enough");
    assert_eq!(edge.reset_at_ms, Some(20_000_000_000));
    assert_eq!(edge.limit_id, None);
    assert_eq!(
        select(r#"{"usedPercent":1}"#).expect_err("no duration"),
        ambiguous
    );
}

#[test]
fn windows_rank_by_their_distance_and_then_their_place() {
    assert_eq!(rank_windows(&vec![]), None);
    assert_eq!(
        rank_windows(&vec![4]),
        Some(Ranking {
            winner: 0,
            runner_up: None
        })
    );
    assert_eq!(
        rank_windows(&vec![5, 3, 9, 3]),
        Some(Ranking {
            winner: 1,
            runner_up: Some(3)
        })
    );
}

fn persist(log: &mut QuotaLog, snapshot: Snapshot) -> Result<bool, String> {
    let gaps: Vec<u64> = log
        .windows
        .iter()
        .map(|window| gap(window.duration_minutes_bits, snapshot.duration_minutes_bits))
        .collect();
    let differences: Vec<Difference> = log
        .snapshots
        .iter()
        .map(|known| Difference {
            percent_bits: gap(known.used_percent_bits, snapshot.used_percent_bits),
            duration_bits: gap(known.duration_minutes_bits, snapshot.duration_minutes_bits),
        })
        .collect();
    let duration_ms = (f64::from_bits(snapshot.duration_minutes_bits) * 60_000.0).round() as i64;
    log.persist_snapshot(snapshot, duration_ms, &gaps, &differences)
}

fn snapshot(account: &str, observed_at_ms: i64, used_percent: f64, reset_at_ms: i64, source: &str) -> Snapshot {
    Snapshot {
        account_key: account.to_string(),
        observed_at_ms,
        used_percent_bits: used_percent.to_bits(),
        reset_at_ms: Some(reset_at_ms),
        duration_minutes_bits: WEEK.to_bits(),
        limit_id: Some("codex".to_string()),
        plan: Some("prolite".to_string()),
        source: source.to_string(),
        raw_json: "{}".to_string(),
        observation_schema_version: QUOTA_OBSERVATION_SCHEMA_VERSION,
        collector_version: COLLECTOR_VERSION.to_string(),
    }
}

#[test]
fn database_records_changes_and_deduplicates_equal_values() {
    let mut log = QuotaLog::new();
    assert!(persist(&mut log, snapshot("acct-test", 1_000, 7.0, 9_000, "initial")).expect("insert"));
    assert!(!persist(&mut log, snapshot("acct-test", 2_000, 7.0, 9_000, "initial")).expect("deduplicate"));
    assert!(persist(&mut log, snapshot("acct-test", 3_000, 8.0, 9_000, "initial")).expect("changed insert"));
    let history = read_history(&log.snapshots, "acct-test", 10);
    assert_eq!(history.len(), 2);
    assert_eq!(f64::from_bits(log.snapshots[history[0]].used_percent_bits), 8.0);
    assert_eq!(
        100.0 - f64::from_bits(log.snapshots[history[1]].used_percent_bits),
        93.0
    );
    assert_eq!(log.windows.len(), 1);
    let window = (
        log.windows[0].last_seen_at_ms,
        log.windows[0].status.clone(),
    );
    assert_eq!(window, (3_000, "active".to_string()));
}

#[test]
fn status_and_history_do_not_leak_the_previous_account_partition() {
    let mut log = QuotaLog::new();
    for (account, observed_at_ms, used_percent) in
        [("acct-old", 2_000, 80.0), ("acct-current", 1_000, 10.0)]
    {
        let mut taken = snapshot(account, observed_at_ms, used_percent, 9_000, "test");
        taken.plan = Some("pro".to_string());
        persist(&mut log, taken).expect("snapshot");
    }
    let latest = latest_snapshot_for_account(&log.snapshots, "acct-current").expect("current snapshot");
    assert_eq!(log.snapshots[latest].account_key, "acct-current");
    let history = read_history(&log.snapshots, "acct-current", 10);
    assert_eq!(history.len(), 1);
    assert_eq!(log.snapshots[history[0]].account_key, "acct-current");
    assert_eq!(latest_snapshot_for_account(&log.snapshots, "acct-none"), None);
}

#[test]
fn reset_timestamp_jitter_reuses_the_active_epoch() {
    let mut log = QuotaLog::new();
    persist(&mut log, snapshot("acct-test", 1_000, 7.0, 2_000_000, "test")).expect("first snapshot");
    persist(
        &mut log,
        snapshot(
            "acct-test",
            2_000,
            8.0,
            2_000_000 + RESET_JITTER_TOLERANCE_MS,
            "test",
        ),
    )
    .expect("jittered snapshot");
    assert_eq!(log.windows.len(), 1);
}

#[test]
fn a_new_epoch_closes_the_old_one_and_leaves_other_accounts_alone() {
    let mut log = QuotaLog::new();
    persist(&mut log, snapshot("acct-a", 1_000, 7.0, 2_000_000, "test")).expect("first");
    persist(&mut log, snapshot("acct-b", 1_500, 7.0, 2_000_000, "test")).expect("other account");
    persist(&mut log, snapshot("acct-a", 2_000, 1.0, 900_000_000, "test")).expect("next epoch");
    assert_eq!(log.windows.len(), 3);
    assert_eq!(log.windows[0].status, "closed");
    assert_eq!(log.windows[0].last_seen_at_ms, 2_000);
    assert_eq!(log.windows[1].status, "active");
    assert_eq!(log.windows[1].last_seen_at_ms, 1_500);
    assert_eq!(log.windows[2].status, "active");
    assert_eq!(log.windows[2].window_start_ms, 900_000_000 - 604_800_000);
    assert_eq!(log.windows[2].first_seen_at_ms, 2_000);
}

#[test]
fn unchanged_observations_are_stored_again_after_a_day() {
    let mut log = QuotaLog::new();
    assert_eq!(persist(&mut log, snapshot("a", 0, 7.0, 9_000, "test")), Ok(true));
    assert_eq!(
        persist(&mut log, snapshot("a", 86_399_999, 7.0, 9_000, "test")),
        Ok(false)
    );
    assert_eq!(
        persist(&mut log, snapshot("a", 86_400_000, 7.0, 9_000, "test")),
        Ok(true)
    );
    assert_eq!(
        persist(&mut log, snapshot("a", 86_400_001, 7.0, 9_001, "test")),
        Ok(true)
    );
}

#[test]
fn invalid_observations_are_refused() {
    let mut log = QuotaLog::new();
    for percent in [-1.0, 100.5, f64::NAN, f64::INFINITY, f64::NEG_INFINITY] {
        assert_eq!(
            persist(&mut log, snapshot("a", 0, percent, 9_000, "test")),
            Err("invalid used percentage".to_string())
        );
    }
    for duration in [0.0, -0.0, -5.0, f64::NAN, f64::INFINITY] {
        let mut taken = snapshot("a", 0, 5.0, 9_000, "test");
        taken.duration_minutes_bits = duration.to_bits();
        assert_eq!(
            persist(&mut log, taken),
            Err("invalid quota window duration".to_string())
        );
    }
    assert!(log.snapshots.is_empty() && log.windows.is_empty());
    assert_eq!(persist(&mut log, snapshot("a", 0, 100.0, 9_000, "test")), Ok(true));
    assert_eq!(persist(&mut log, snapshot("b", 0, -0.0, 9_000, "test")), Ok(true));
}

#[test]
fn histories_are_the_newest_first_up_to_their_limit() {
    let snapshots: Vec<Snapshot> = [5, 9, 1, 9, 7]
        .iter()
        .map(|at| snapshot("a", *at, 1.0, 0, "test"))
        .collect();
    assert_eq!(read_history(&snapshots, "a", 3), vec![3, 1, 4]);
    assert_eq!(read_history(&snapshots, "a", 10), vec![3, 1, 4, 0, 2]);
    assert_eq!(read_history(&snapshots, "b", 10), Vec::<usize>::new());
    assert_eq!(latest_snapshot_for_account(&snapshots, "a"), Some(3));
    assert_eq!(saturating_difference(i64::MIN, 1), i64::MIN);
    assert_eq!(saturating_difference(i64::MAX, -1), i64::MAX);
    assert_eq!(saturating_difference(7, 9), -2);
}

#[test]
fn account_identity_is_stable_and_does_not_retain_email() {
    let parse = |text: &str| account_identity(Document::parse(text).expect("reply").json());
    let first = parse(
        r#"{"account":{"type":"chatgpt","email":"Person@Example.com","planType":"pro"},"requiresOpenaiAuth":true}"#,
    )
    .expect("identity");
    let second = parse(r#"{"account":{"type":"chatgpt","email":"person@example.com","planType":"pro"}}"#)
        .expect("normalized identity");
    assert_eq!(first.account_key, second.account_key);
    assert!(!first.account_key.contains("person"));
    assert_eq!(first.auth_type, "chatgpt");
}

#[test]
fn fingerprints_are_fixed_and_refusals_are_exact() {
    assert_eq!(stable_account_fingerprint(""), "acct-cbf29ce484222325");
    assert_eq!(stable_account_fingerprint(" A "), "acct-af63dc4c8601ec8c");
    let parse = |text: &str| {
        account_identity(Document::parse(text).expect("reply").json()).expect_err("refused")
    };
    assert_eq!(parse("{}"), "App Server returned no authenticated account");
    assert_eq!(
        parse(r#"{"account":null}"#),
        "App Server returned no authenticated account"
    );
    assert_eq!(parse(r#"{"account":{}}"#), "App Server account type is missing");
    assert_eq!(
        parse(r#"{"account":{"type":"apikey","email":"  "}}"#),
        "App Server account identity is unavailable; refusing an unpartitioned write"
    );
    let identity = account_identity(
        Document::parse(r#"{"account":{"type":"t","email":"e"}}"#)
            .expect("reply")
            .json(),
    )
    .expect("identity");
    assert_eq!(partition_seen(None, &identity, 9).first_seen_at_ms, 9);
    let seen = partition_seen(Some(3), &identity, 9);
    assert_eq!((seen.first_seen_at_ms, seen.last_seen_at_ms), (3, 9));
}

#[test]
fn official_usage_preserves_daily_data_and_null_availability() {
    let first = official_usage(
        &Document::parse(
            r#"{"result":{"summary":{"lifetimeTokens":123,"peakDailyTokens":45},"dailyUsageBuckets":[{"startDate":"2026-09-03","tokens":12}]}}"#,
        )
        .expect("message"),
    )
    .expect("daily usage");
    let second = official_usage(
        &Document::parse(r#"{"result":{"summary":{"lifetimeTokens":124},"dailyUsageBuckets":null}}"#)
            .expect("message"),
    )
    .expect("null usage");
    assert_eq!(
        vec![
            (10, i64::from(first.daily_buckets_available)),
            (20, i64::from(second.daily_buckets_available))
        ],
        vec![(10, 1), (20, 0)]
    );
    let daily = (first.buckets[0].start_date.clone(), first.buckets[0].tokens);
    assert_eq!(daily, ("2026-09-03".to_string(), 12));
    assert_eq!(first.lifetime_tokens, Some(123));
    assert_eq!(first.peak_daily_tokens, Some(45));
    assert_eq!(first.buckets[0].raw_json, r#"{"startDate":"2026-09-03","tokens":12}"#);
    assert!(second.buckets.is_empty());
}

#[test]
fn buckets_without_a_day_or_tokens_are_passed_over() {
    let usage = official_usage(
        &Document::parse(
            r#"{"result":{"dailyUsageBuckets":[{"tokens":1},{"startDate":"a"},{"startDate":"b","tokens":2,"modelName":"m"},{"startDate":"c","tokens":3,"model":null,"modelName":"m"}]}}"#,
        )
        .expect("message"),
    )
    .expect("usage");
    assert_eq!(usage.buckets.len(), 2);
    assert_eq!(usage.buckets[0].model.as_deref(), Some("m"));
    assert_eq!(usage.buckets[1].model, None);
    assert_eq!(usage.lifetime_tokens, None);
    assert!(official_usage(&Document::parse("{}").expect("message")).is_none());
}

#[test]
fn calendar_day_bounds_use_iana_timezone_rules() {
    let (start, end) = calendar_day_bounds_ms("2026-03-08", "America/New_York").expect("DST day");
    assert_eq!(end - start, 23 * 60 * 60 * 1_000);
    let (start, end) = calendar_day_bounds_ms("2026-09-03", "Asia/Shanghai").expect("normal day");
    assert_eq!(end - start, 24 * 60 * 60 * 1_000);
    assert!(calendar_day_bounds_ms("2026-09-03", "UTC+8").is_err());
}

#[test]
fn calendar_days_begin_at_midnight_and_refuse_what_is_no_day() {
    assert_eq!(
        calendar_day_bounds_ms("1970-01-02", "UTC"),
        Ok((86_400_000, 172_800_000))
    );
    assert_eq!(
        calendar_day_bounds_ms("1970-01-02", "Shanghai"),
        Err("timezone must be an IANA name such as Asia/Shanghai".to_string())
    );
    assert!(calendar_day_bounds_ms("yesterday", "UTC")
        .expect_err("date")
        .starts_with("invalid calendar date: "));
    assert!(calendar_day_bounds_ms("2026-09-03", "Nowhere/Atall")
        .expect_err("zone")
        .starts_with("invalid IANA timezone or date boundary: "));
}

#[test]
fn days_without_bounds_say_why() {
    let why = || "why".to_string();
    assert_eq!(bounds_of(DayOutcome::Bounds(1, 2)), Ok((1, 2)));
    assert_eq!(
        bounds_of(DayOutcome::NoDate(why())),
        Err("invalid calendar date: why".to_string())
    );
    assert_eq!(
        bounds_of(DayOutcome::NoStart(why())),
        Err("invalid IANA timezone or date boundary: why".to_string())
    );
    assert_eq!(
        bounds_of(DayOutcome::NoEnd(why())),
        Err("unable to resolve next calendar day: why".to_string())
    );
}

#[test]
fn days_in_utc_last_from_midnight_to_midnight() {
    for (date, from_ms) in [
        ("1970-01-01", 0),
        ("1969-12-31", -86_400_000),
        ("2000-03-01", 951_868_800_000),
        ("2024-02-29", 1_709_164_800_000),
        ("-009999-01-03", -377_704_944_000_000),
        ("9999-12-29", 253_402_041_600_000),
    ] {
        assert_eq!(
            calendar_day_bounds_ms(date, "UTC"),
            Ok((from_ms, from_ms + 86_400_000))
        );
    }
    assert!(calendar_day_bounds_ms("-009999-01-02", "UTC")
        .expect_err("no start")
        .starts_with("invalid IANA timezone or date boundary: "));
    assert!(calendar_day_bounds_ms("9999-12-30", "UTC")
        .expect_err("no end")
        .starts_with("unable to resolve next calendar day: "));
    assert!(calendar_day_bounds_ms("9999-12-31", "UTC")
        .expect_err("no start")
        .starts_with("invalid IANA timezone or date boundary: "));
}

#[test]
fn a_day_ends_where_the_next_one_begins() {
    let zone = jiff::tz::TimeZone::posix("EST5EDT,M3.2.0,M11.1.0").expect("zone");
    let start = |month, day| {
        jiff::civil::date(2026, month, day)
            .at(0, 0, 0, 0)
            .to_zoned(zone.clone())
    };
    assert_eq!(
        day_from(start(3, 8)),
        DayOutcome::Bounds(1_772_946_000_000, 1_772_946_000_000 + 23 * 3_600_000)
    );
    assert_eq!(
        day_from(start(11, 1)),
        DayOutcome::Bounds(1_793_505_600_000, 1_793_505_600_000 + 25 * 3_600_000)
    );
    let nowhere = jiff::civil::date(2026, 3, 8)
        .at(0, 0, 0, 0)
        .in_tz("Nowhere/Atall");
    let why = nowhere.clone().expect_err("zone").to_string();
    assert_eq!(day_from(nowhere), DayOutcome::NoStart(why));
    let last = jiff::Timestamp::MAX.to_zoned(jiff::tz::TimeZone::UTC);
    let why = last.tomorrow().expect_err("tomorrow").to_string();
    assert_eq!(day_from(Ok(last)), DayOutcome::NoEnd(why));
}

#[test]
fn a_status_that_is_not_known_is_kept_until_the_window_is_seen_again() {
    let mut log = QuotaLog::new();
    persist(&mut log, snapshot("acct-a", 1_000, 7.0, 2_000_000, "test")).expect("first");
    log.windows[0].status = "frozen".to_string();
    persist(&mut log, snapshot("acct-a", 2_000, 1.0, 900_000_000, "test")).expect("next epoch");
    assert_eq!(log.windows.len(), 2);
    assert_eq!(log.windows[0].status, "frozen");
    assert_eq!(log.windows[0].last_seen_at_ms, 1_000);
    assert_eq!(log.windows[1].status, "active");
    persist(&mut log, snapshot("acct-a", 3_000, 8.0, 2_000_000, "test")).expect("seen again");
    assert_eq!(log.windows.len(), 2);
    assert_eq!(log.windows[0].status, "active");
    assert_eq!(log.windows[1].status, "closed");
}
