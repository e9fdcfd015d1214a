use codex_quota_ledger::estimate::capacity_warnings;
use codex_quota_ledger::estimate::compare_epochs;
use codex_quota_ledger::estimate::estimate_warnings;
use codex_quota_ledger::estimate::estimate_window;
use codex_quota_ledger::estimate::epoch_ends;
use codex_quota_ledger::estimate::is_point_of;
use codex_quota_ledger::estimate::local_tokens;
use codex_quota_ledger::estimate::reconciliation_warnings;
use codex_quota_ledger::estimate::reconciliation_window;
use codex_quota_ledger::estimate::Confidence;
use codex_quota_ledger::estimate::EpochEvidence;
use codex_quota_ledger::history::QuotaWindow;
use codex_quota_ledger::history::Snapshot;
use codex_quota_ledger::ledger::TokenEvent;
use codex_quota_ledger::pricing::seed_prices;
use codex_quota_ledger::pricing::select_price;
use codex_quota_ledger::pricing::split_tokens;
use codex_quota_ledger::pricing::PriceRule;
use codex_quota_ledger::pricing::TokenSplit;
use codex_quota_ledger::report::merge_totals;
use codex_quota_ledger::report::report_from_ledger;
use codex_quota_ledger::report::UsageGroup;
use codex_quota_ledger::report::UsageTotals;
use codex_quota_ledger::usage::TokenUsage;

fn rule(prefix: &str, active: bool) -> PriceRule {
    PriceRule {
        model_prefix: prefix.to_string(),
        active,
        long_context_threshold: Some(1_000),
    }
}

fn event(model: &str, limit: Option<&str>, tier: Option<&str>, input: u64, at_ms: i64) -> TokenEvent {
    let usage = TokenUsage {
        input,
        cached_input: input / 2,
        cache_write_input: input,
        output: 3,
        reasoning_output: 9,
    };
    TokenEvent {
        account_key: "acct".to_string(),
        session_id: format!("s{at_ms}"),
        usage_at_ms: at_ms,
        reported_at_ms: at_ms,
        model: model.to_string(),
        limit_id: limit.map(str::to_string),
        service_tier: tier.map(str::to_string),
        usage,
        total: usage,
        source_path: "p".to_string(),
        provenance: "native".to_string(),
        ingested_at_ms: 0,
    }
}

#[test]
fn the_longest_active_prefix_prices_a_model() {
    let prices = vec![
        rule("gpt-5", true),
        rule("gpt-5.6-sol", false),
        rule("gpt-5.6", true),
        rule("GPT-5.6", true),
        rule("m_1%x", true),
    ];
    assert_eq!(select_price(&prices, "gpt-5.6-sol"), Some(2));
    assert_eq!(select_price(&prices, "Gpt-5.1"), Some(0));
    assert_eq!(select_price(&prices, "gpt-4"), None);
    assert_eq!(select_price(&prices, "ma1zzzxy"), Some(4));
    assert_eq!(select_price(&prices, "ma1zzz"), None);
}

#[test]
fn seeded_prices_cover_the_known_models() {
    let seeds = seed_prices();
    assert_eq!(seeds.len(), 7);
    assert_eq!(seeds[2].model_prefix, "gpt-5.6-luna");
    assert_eq!(seeds[2].cached_input_milli, 20);
    assert_eq!(seeds[5].output_milli, 4_500);
    assert_eq!(seeds[6].long_context_threshold, Some(272_000));
}

#[test]
fn tokens_divide_over_the_rates_without_loss() {
    let usage = TokenUsage {
        input: 100,
        cached_input: 90,
        cache_write_input: 40,
        output: 7,
        reasoning_output: 9,
    };
    assert_eq!(
        split_tokens(usage, Some(99)),
        TokenSplit {
            uncached: 0,
            cached: 90,
            cache_write: 10,
            output: 7,
            long_context: true
        }
    );
    assert!(!split_tokens(usage, Some(100)).long_context);
    assert!(!split_tokens(usage, None).long_context);
}

#[test]
fn totals_saturate_and_merge() {
    let mut totals = UsageTotals::default();
    totals.add(
        TokenUsage {
            input: u64::MAX,
            cached_input: 0,
            cache_write_input: 0,
            output: 5,
            reasoning_output: 9,
        },
        false,
    );
    totals.add(
        TokenUsage {
            input: 1,
            ..Default::default()
        },
        true,
    );
    assert_eq!(totals.input_tokens, u64::MAX);
    assert_eq!(totals.reasoning_output_tokens, 5);
    assert_eq!(totals.events, 2);
    assert_eq!((totals.priced_events, totals.unpriced_events), (1, 1));
    let mut sum = UsageTotals::default();
    merge_totals(&mut sum, &totals);
    merge_totals(&mut sum, &totals);
    assert_eq!(sum.events, 4);
    assert_eq!(sum.output_tokens, 10);
    assert_eq!(sum.input_tokens, u64::MAX);
}

#[test]
fn reports_group_in_order_and_warn_about_unpriced_groups() {
    let mut replayed = event("b", None, None, 100, 5);
    replayed.provenance = "legacy_replay".to_string();
    let mut legacy = event("b", None, None, 100, 6);
    legacy.account_key = "legacy-unknown".to_string();
    let events = vec![
        event("b", Some("codex"), None, 10, 1),
        event("a", None, Some("fast"), 20, 2),
        event("b", None, Some("default"), 2_000, 3),
        event("b", Some("codex"), None, 30, 4),
        event("z", None, None, 1, 5),
        replayed,
        legacy,
        event("b", None, None, 1, 100),
    ];
    let report = report_from_ledger(&events, "acct", 1, 100, &vec![rule("b", true)]);
    let keys: Vec<(&str, Option<&str>, Option<&str>)> = report
        .groups
        .iter()
        .map(|group| {
            (
                group.model.as_str(),
                group.limit_id.as_deref(),
                group.service_tier.as_deref(),
            )
        })
        .collect();
    assert_eq!(
        keys,
        vec![
            ("a", None, Some("fast")),
            ("b", None, Some("default")),
            ("b", Some("codex"), None),
            ("z", None, None)
        ]
    );
    assert_eq!(report.totals.events, 5);
    assert_eq!(report.totals.input_tokens, 2_061);
    assert_eq!(report.groups[1].charges.len(), 1);
    assert!(report.groups[1].charges[0].split.long_context);
    assert_eq!(report.groups[2].charges.len(), 2);
    assert_eq!(
        report.warnings,
        vec![
            "1 legacy token events have no verified account identity and are excluded from this account report.",
            "Model a service tier fast is not priced; its tokens remain visible and are excluded from cost.",
            "No active price for model z; its tokens are excluded from cost.",
        ]
    );
    assert_eq!(report.pricing_version, "openai-2026-08-27");
    assert_eq!((report.from_ms, report.to_ms), (1, 100));
}

#[test]
fn adjoining_reports_count_each_event_once() {
    let events: Vec<TokenEvent> = (0..10).map(|at| event("b", None, None, 10, at)).collect();
    let prices = vec![rule("b", true)];
    let whole = report_from_ledger(&events, "acct", 2, 9, &prices).totals;
    let left = report_from_ledger(&events, "acct", 2, 5, &prices).totals;
    let right = report_from_ledger(&events, "acct", 5, 9, &prices).totals;
    assert_eq!(whole.events, 7);
    assert_eq!(left.events + right.events, whole.events);
    assert_eq!(left.input_tokens + right.input_tokens, whole.input_tokens);
}

fn snapshot(reset_at_ms: Option<i64>, observed_at_ms: i64) -> Snapshot {
    Snapshot {
        account_key: "acct".to_string(),
        observed_at_ms,
        used_percent_bits: 7.0_f64.to_bits(),
        reset_at_ms,
        duration_minutes_bits: 10_080.0_f64.to_bits(),
        limit_id: Some("codex".to_string()),
        plan: None,
        source: "test".to_string(),
        raw_json: "{}".to_string(),
        observation_schema_version: 2,
        collector_version: "0.1.0".to_string(),
    }
}

#[test]
fn estimates_look_at_the_window_up_to_the_observation() {
    assert_eq!(
        estimate_window(None, 5).expect_err("no snapshot"),
        "no quota snapshot is available yet"
    );
    assert_eq!(
        estimate_window(Some(&snapshot(None, 3)), 5).expect_err("no reset"),
        "latest quota snapshot has no reset time"
    );
    assert_eq!(estimate_window(Some(&snapshot(Some(100), 40)), 70), Ok((30, 40)));
    assert_eq!(estimate_window(Some(&snapshot(Some(100), 400)), 70), Ok((30, 100)));
    assert_eq!(
        estimate_window(Some(&snapshot(Some(i64::MIN), 0)), 1),
        Ok((i64::MIN, i64::MIN))
    );
    assert_eq!(
        reconciliation_window(None, 5, None).expect_err("no snapshot"),
        "no App Server quota snapshot is available yet"
    );
    assert_eq!(
        reconciliation_window(Some(&snapshot(None, 3)), 5, Some(9)).expect_err("no reset"),
        "latest App Server quota snapshot has no reset time"
    );
    assert_eq!(
        reconciliation_window(Some(&snapshot(Some(100), 40)), 70, Some(90)),
        Ok((30, 90))
    );
    assert_eq!(
        reconciliation_window(Some(&snapshot(Some(100), 40)), 70, None),
        Ok((30, 40))
    );
}

fn group(limit: Option<&str>) -> UsageGroup {
    UsageGroup {
        model: "m".to_string(),
        limit_id: limit.map(str::to_string),
        service_tier: None,
        totals: UsageTotals::default(),
        charges: vec![],
    }
}

#[test]
fn estimates_warn_of_limits_that_do_not_match() {
    let local = vec!["local".to_string()];
    let groups = vec![group(Some("z")), group(None), group(Some("b")), group(Some("z"))];
    let projection = "Projection covers local JSONL logs only; web, cloud, other-device, and missing logs are not recoverable.";
    assert_eq!(
        estimate_warnings(&local, &groups, &Some("codex".to_string())),
        vec![
            "local",
            "Quota limit_id is codex, but local token events use b, z; projection is low confidence.",
            projection
        ]
    );
    assert_eq!(
        estimate_warnings(&local, &groups, &Some("b".to_string())),
        vec!["local", projection]
    );
    assert_eq!(
        estimate_warnings(&local, &vec![group(None)], &Some("codex".to_string())),
        vec!["local", projection]
    );
    assert_eq!(estimate_warnings(&vec![], &groups, &None), vec![projection]);
}

#[test]
fn reconciliations_warn_of_old_observations() {
    assert_eq!(reconciliation_warnings(&vec![], true, 900_000).len(), 1);
    assert_eq!(reconciliation_warnings(&vec![], false, 9_000_000).len(), 1);
    let stale = reconciliation_warnings(&vec!["local".to_string()], true, 960_001);
    assert_eq!(stale.len(), 3);
    assert_eq!(
        stale[2],
        "The App Server snapshot is 16 minutes older than the web observation; refresh age can explain part of the percentage delta."
    );
}

#[test]
fn epochs_compare_with_the_last_estimate_before_them() {
    let evidence = |implied_tokens, first: Option<f64>, rise: Option<f64>| EpochEvidence {
        implied_tokens,
        first_percent_bits: first.map(f64::to_bits),
        rise_bits: rise.map(f64::to_bits),
    };
    let compared = compare_epochs(&vec![
        evidence(Some(10), Some(1.0), Some(10.0)),
        evidence(None, Some(0.0), None),
        evidence(Some(30), Some(1.1), Some(20.0)),
        evidence(Some(0), Some(-0.0), Some(50.0)),
        evidence(Some(5), Some(0.5), Some(9.9)),
    ]);
    assert_eq!(compared[0].compared, None);
    assert_eq!(compared[0].confidence, Confidence::Higher);
    assert_eq!(compared[1].compared, None);
    assert_eq!(compared[1].confidence.as_str(), "insufficient-observations");
    assert_eq!(compared[2].compared, Some((10, 30)));
    assert_eq!(compared[2].confidence.as_str(), "partial-window");
    assert_eq!(compared[3].compared, Some((30, 0)));
    assert_eq!(compared[3].confidence, Confidence::Higher);
    assert_eq!(compared[4].compared, None);
    assert_eq!(compared[4].confidence, Confidence::PartialWindow);
    assert_eq!(capacity_warnings().len(), 2);
    let mut totals = UsageTotals::default();
    totals.input_tokens = u64::MAX;
    totals.output_tokens = 1;
    assert_eq!(local_tokens(&totals), u64::MAX);
}

#[test]
fn observations_belong_to_the_epoch_that_they_fall_in() {
    let window = QuotaWindow {
        account_key: "acct".to_string(),
        limit_id: "codex".to_string(),
        reset_at_ms: 1_000_000,
        duration_minutes_bits: 10_080.0_f64.to_bits(),
        window_start_ms: 0,
        first_seen_at_ms: 10,
        last_seen_at_ms: 20,
        status: "active".to_string(),
    };
    assert!(is_point_of(&snapshot(Some(1_300_000), 10), 0, &window));
    assert!(is_point_of(&snapshot(Some(700_000), 20), 0.000_000_9_f64.to_bits(), &window));
    assert!(!is_point_of(&snapshot(Some(1_300_001), 10), 0, &window));
    assert!(!is_point_of(&snapshot(None, 10), 0, &window));
    assert!(!is_point_of(&snapshot(Some(1_000_000), 21), 0, &window));
    assert!(!is_point_of(&snapshot(Some(1_000_000), 15), 0.000_001_f64.to_bits(), &window));
    let points = vec![
        snapshot(Some(1_000_000), 15),
        snapshot(Some(1_000_000), 12),
        snapshot(None, 11),
        snapshot(Some(1_000_000), 12),
        snapshot(Some(1_000_000), 15),
    ];
    assert_eq!(epoch_ends(&points, &vec![0; 5], &window), Some((1, 4)));
    assert_eq!(epoch_ends(&points, &vec![u64::MAX, 0, 0, 0, u64::MAX], &window), Some((1, 3)));
    assert_eq!(epoch_ends(&points, &vec![u64::MAX; 5], &window), None);
}
