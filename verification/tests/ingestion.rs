use codex_quota_ledger::backlog::ingest_file_batch_for_account;
use codex_quota_ledger::backlog::ingest_file_for_account;
use codex_quota_ledger::backlog::ingest_in_batches;
use codex_quota_ledger::backlog::ingest_once;
use codex_quota_ledger::backlog::SessionLog;
use codex_quota_ledger::clock::nanos_to_millis;
use codex_quota_ledger::clock::now_ms;
use codex_quota_ledger::clock::timestamp_ms;
use codex_quota_ledger::clock::timestamp_of;
use codex_quota_ledger::clock::timestamp_of_reading;
use codex_quota_ledger::ingest::apply_line;
use codex_quota_ledger::ingest::apply_record;
use codex_quota_ledger::ingest::model_response_at_ms;
use codex_quota_ledger::ingest::Batch;
use codex_quota_ledger::ingest::Checkpoint;
use codex_quota_ledger::ingest::LineEffect;
use codex_quota_ledger::ingest::Source;
use codex_quota_ledger::json::Document;
use codex_quota_ledger::json::Json;
use codex_quota_ledger::json::JsonMember;
use codex_quota_ledger::json::JsonNumber;
use codex_quota_ledger::ledger::store_action;
use codex_quota_ledger::ledger::Ledger;
use codex_quota_ledger::ledger::StoreAction;
use codex_quota_ledger::ledger::TokenEvent;
use codex_quota_ledger::pricing::seed_prices;
use codex_quota_ledger::pricing::PriceRule;
use codex_quota_ledger::report::report_from_ledger;
use codex_quota_ledger::report::reporting_account;
use codex_quota_ledger::scan::ledger_status;
use codex_quota_ledger::scan::required_active_account_key;
use codex_quota_ledger::scan::FileTally;
use codex_quota_ledger::scan::IngestSummary;
use codex_quota_ledger::scan::IngestionState;
use codex_quota_ledger::scan::ModelEvents;
use codex_quota_ledger::schema::is_divided_by_account;
use codex_quota_ledger::schema::TableIndex;
use codex_quota_ledger::usage::token_usage;
use codex_quota_ledger::usage::TokenUsage;

fn event(total_input: u64, last_input: u64) -> String {
    format!(
        r#"{{"timestamp":"2026-08-27T00:00:00Z","type":"event_msg","payload":{{"type":"token_count","info":{{"total_token_usage":{{"input_tokens":{total_input},"cached_input_tokens":0,"cache_write_input_tokens":0,"output_tokens":10,"reasoning_output_tokens":2}},"last_token_usage":{{"input_tokens":{last_input},"cached_input_tokens":0,"cache_write_input_tokens":0,"output_tokens":10,"reasoning_output_tokens":2}}}},"rate_limits":{{"limit_id":"codex"}}}}}}"#
    )
}

fn native_prefix(session: &str) -> String {
    format!(
        "{{\"type\":\"session_meta\",\"payload\":{{\"id\":\"{session}\"}}}}\n\
         {{\"type\":\"turn_context\",\"payload\":{{\"model\":\"gpt-5.6-sol\"}}}}\n"
    )
}

fn source(account: &str, path: &str, at_ms: i64) -> Source {
    Source {
        account_key: account.to_string(),
        path: path.to_string(),
        scanned_at_ms: at_ms,
    }
}

fn ingest_file(
    ledger: &mut Ledger,
    checkpoint: &mut Checkpoint,
    account: &str,
    path: &str,
    content: &str,
    at_ms: i64,
) -> FileTally {
    ingest_file_for_account(ledger, checkpoint, content.as_bytes(), &source(account, path, at_ms))
}

fn rules() -> Vec<PriceRule> {
    seed_prices()
        .iter()
        .map(|price| PriceRule {
            model_prefix: price.model_prefix.to_string(),
            active: true,
            long_context_threshold: price.long_context_threshold,
        })
        .collect()
}

fn stored(account: &str, session: &str, at_ms: i64, model: &str, input: u64, output: u64) -> TokenEvent {
    let usage = TokenUsage {
        input,
        output,
        ..Default::default()
    };
    TokenEvent {
        account_key: account.to_string(),
        session_id: session.to_string(),
        usage_at_ms: at_ms,
        reported_at_ms: at_ms,
        model: model.to_string(),
        limit_id: Some("codex".to_string()),
        service_tier: None,
        usage,
        total: usage,
        source_path: session.to_string(),
        provenance: "native".to_string(),
        ingested_at_ms: at_ms,
    }
}

#[test]
fn partial_line_is_committed_only_after_newline() {
    let mut ledger = Ledger::new();
    let mut checkpoint = Checkpoint::default();
    let mut content = format!("{}{}", native_prefix("s1"), event(100, 100));
    let first = ingest_file(&mut ledger, &mut checkpoint, "legacy-unknown", "rollout.jsonl", &content, 1);
    assert_eq!(first.events_inserted, 0);
    assert_eq!(checkpoint.offset, native_prefix("s1").len() as u64);
    content.push('\n');
    let second = ingest_file(&mut ledger, &mut checkpoint, "legacy-unknown", "rollout.jsonl", &content, 2);
    assert_eq!(second.events_inserted, 1);
    assert_eq!(ledger.events.len(), 1);
}

#[test]
fn restart_truncation_and_legacy_replay_do_not_duplicate_events() {
    let record = event(100, 100);
    let original = format!("{}{}\n", native_prefix("s1"), record);
    let replay = format!(
        "{}{{\"type\":\"session_meta\",\"payload\":{{\"id\":\"s1\"}}}}\n{}\n",
        native_prefix("outer"),
        record
    );
    let mut ledger = Ledger::new();
    let mut first = Checkpoint::default();
    let mut second = Checkpoint::default();
    let account = "legacy-unknown";
    assert_eq!(
        ingest_file(&mut ledger, &mut first, account, "original.jsonl", &original, 1).events_inserted,
        1
    );
    assert_eq!(
        ingest_file(&mut ledger, &mut second, account, "replay.jsonl", &replay, 2).events_inserted,
        0
    );
    assert_eq!(
        ingest_file(&mut ledger, &mut first, account, "original.jsonl", &original, 3).events_inserted,
        0
    );
    let truncated = format!(
        "{{\"type\":\"session_meta\",\"payload\":{{\"id\":\"s1\"}}}}\n{}\n",
        record
    );
    assert_eq!(
        ingest_file(&mut ledger, &mut first, account, "original.jsonl", &truncated, 4).events_inserted,
        0
    );
    assert_eq!(ledger.events.len(), 1);
}

#[test]
fn token_report_after_tool_output_keeps_model_response_time() {
    let records = format!(
        "{}{}\n{}\n{}\n",
        native_prefix("s1"),
        r#"{"timestamp":"2026-08-28T00:00:40Z","type":"response_item","payload":{"type":"custom_tool_call"}}"#,
        r#"{"timestamp":"2026-08-28T00:00:49Z","type":"response_item","payload":{"type":"custom_tool_call_output"}}"#,
        event(100, 100).replace("2026-08-27T00:00:00Z", "2026-08-28T00:00:49Z")
    );
    let mut ledger = Ledger::new();
    let mut checkpoint = Checkpoint::default();
    let tally = ingest_file(&mut ledger, &mut checkpoint, "legacy-unknown", "rollout.jsonl", &records, 1);
    assert_eq!(tally.events_inserted, 1);
    let times = (ledger.events[0].usage_at_ms, ledger.events[0].reported_at_ms);
    assert_eq!(times, (1_787_875_240_000, 1_787_875_249_000));
}

#[test]
fn pending_usage_time_survives_incremental_checkpoint() {
    let mut content = format!(
        "{}{}\n",
        native_prefix("s1"),
        r#"{"timestamp":"2026-08-28T00:00:40Z","type":"response_item","payload":{"type":"custom_tool_call"}}"#
    );
    let mut ledger = Ledger::new();
    let mut checkpoint = Checkpoint::default();
    let account = "legacy-unknown";
    assert_eq!(
        ingest_file(&mut ledger, &mut checkpoint, account, "rollout.jsonl", &content, 1).events_inserted,
        0
    );
    content.push_str(&format!(
        "{}\n{}\n",
        r#"{"timestamp":"2026-08-28T00:00:49Z","type":"response_item","payload":{"type":"custom_tool_call_output"}}"#,
        event(100, 100).replace("2026-08-27T00:00:00Z", "2026-08-28T00:00:49Z")
    ));
    assert_eq!(
        ingest_file(&mut ledger, &mut checkpoint, account, "rollout.jsonl", &content, 2).events_inserted,
        1
    );
    assert_eq!(ledger.events[0].usage_at_ms, 1_787_875_240_000);
}

#[test]
fn replay_backfills_existing_usage_time() {
    let report = event(100, 100).replace("2026-08-27T00:00:00Z", "2026-08-28T00:00:49Z");
    let legacy = format!("{}{}\n", native_prefix("s1"), report);
    let mut ledger = Ledger::new();
    let mut checkpoint = Checkpoint::default();
    let account = "legacy-unknown";
    ingest_file(&mut ledger, &mut checkpoint, account, "rollout.jsonl", &legacy, 1);
    let enriched = format!(
        "{}{}\n{}\n{}\n",
        native_prefix("s1"),
        r#"{"timestamp":"2026-08-28T00:00:40Z","type":"response_item","payload":{"type":"custom_tool_call"}}"#,
        r#"{"timestamp":"2026-08-28T00:00:49Z","type":"response_item","payload":{"type":"custom_tool_call_output"}}"#,
        report
    );
    let mut reset = Checkpoint::default();
    assert_eq!(
        ingest_file(&mut ledger, &mut reset, account, "rollout.jsonl", &enriched, 2).events_inserted,
        1
    );
    let times = (ledger.events[0].usage_at_ms, ledger.events[0].reported_at_ms);
    assert_eq!(times, (1_787_875_240_000, 1_787_875_249_000));
    assert_eq!(ledger.events[0].ingested_at_ms, 2);
}

#[test]
fn half_open_windows_assign_boundary_event_once() {
    let content = format!(
        "{}{}\n",
        native_prefix("s1"),
        event(100, 100).replace("2026-08-27T00:00:00Z", "2026-08-28T00:00:44Z")
    );
    let mut ledger = Ledger::new();
    let mut checkpoint = Checkpoint::default();
    ingest_file(&mut ledger, &mut checkpoint, "legacy-unknown", "rollout.jsonl", &content, 1);
    let boundary = 1_787_875_244_000;
    let account = reporting_account(None);
    let before = report_from_ledger(&ledger.events, &account, 0, boundary, &rules());
    let after = report_from_ledger(&ledger.events, &account, boundary, 1_787_875_250_000, &rules());
    assert_eq!(before.totals.events, 0);
    assert_eq!(after.totals.events, 1);
}

fn number(value: u64) -> Json {
    Json::Number(JsonNumber {
        unsigned: Some(value),
        signed: i64::try_from(value).ok(),
        double_bits: Some((value as f64).to_bits()),
    })
}

fn object(members: Vec<(&str, Json)>) -> Json {
    Json::Object(
        members
            .into_iter()
            .map(|(name, value)| JsonMember {
                name: name.to_string(),
                value,
            })
            .collect(),
    )
}

fn counters(input: u64, cached: u64, output: u64, reasoning: u64) -> Json {
    object(vec![
        ("input_tokens", number(input)),
        ("cached_input_tokens", number(cached)),
        ("cache_write_input_tokens", number(0)),
        ("output_tokens", number(output)),
        ("reasoning_output_tokens", number(reasoning)),
    ])
}

#[test]
fn token_usage_prefers_last_and_skips_duplicate_total() {
    let payload = object(vec![(
        "info",
        object(vec![
            ("total_token_usage", counters(1200, 1000, 100, 40)),
            ("last_token_usage", counters(200, 100, 20, 5)),
        ]),
    )]);
    let previous = TokenUsage {
        input: 1000,
        cached_input: 900,
        output: 80,
        reasoning_output: 35,
        ..Default::default()
    };
    let (usage, total) = token_usage(&payload, Some(previous)).expect("new usage");
    assert_eq!(usage.input, 200);
    assert_eq!(usage.cached_input, 100);
    assert!(token_usage(&payload, Some(total)).is_none());
}

#[test]
fn usage_without_a_last_report_is_the_gain_over_the_previous_total() {
    let payload = object(vec![(
        "info",
        object(vec![("total_token_usage", counters(1200, 800, 100, 40))]),
    )]);
    let previous = TokenUsage {
        input: 1000,
        cached_input: 900,
        output: 80,
        reasoning_output: 35,
        ..Default::default()
    };
    let (usage, _) = token_usage(&payload, Some(previous)).expect("gain");
    assert_eq!(
        usage,
        TokenUsage {
            input: 200,
            cached_input: 0,
            cache_write_input: 0,
            output: 20,
            reasoning_output: 5
        }
    );
    assert!(token_usage(&object(vec![]), None).is_none());
    assert!(TokenUsage::from_value(&object(vec![("input_tokens", number(1))])).is_none());
}

#[test]
fn mixed_pricing_keeps_known_subtotal_and_unpriced_remainder() {
    let mut ledger = Ledger::new();
    let mut unknown = stored("legacy-unknown", "unknown", 20, "future-model", 2000, 20);
    unknown.usage.cached_input = 500;
    unknown.total.cached_input = 500;
    assert!(ledger.record(stored("legacy-unknown", "known", 10, "gpt-5.6-sol", 1000, 10)));
    assert!(ledger.record(unknown));
    let report = report_from_ledger(&ledger.events, &reporting_account(None), 0, 100, &rules());
    assert!(report.groups.iter().any(|group| !group.charges.is_empty()));
    assert_eq!(report.totals.priced_events, 1);
    assert_eq!(report.totals.unpriced_events, 1);
    assert_eq!(report.totals.unpriced_input_tokens, 2_000);
    assert_eq!(report.totals.unpriced_output_tokens, 20);
}

#[test]
fn explicit_fast_service_tier_keeps_tokens_but_is_not_default_priced() {
    let content = format!(
        "{{\"type\":\"session_meta\",\"payload\":{{\"id\":\"fast\",\"service_tier\":\"priority\"}}}}\n\
         {{\"type\":\"turn_context\",\"payload\":{{\"model\":\"gpt-5.6-sol\"}}}}\n{}\n",
        event(100, 100)
    );
    let mut ledger = Ledger::new();
    let mut checkpoint = Checkpoint::default();
    assert_eq!(
        ingest_file(&mut ledger, &mut checkpoint, "legacy-unknown", "rollout.jsonl", &content, 1).events_inserted,
        1
    );
    let report = report_from_ledger(&ledger.events, &reporting_account(None), 0, i64::MAX, &rules());
    assert_eq!(report.totals.input_tokens, 100);
    assert_eq!(report.totals.unpriced_events, 1);
    assert!(report.groups.iter().all(|group| group.charges.is_empty()));
    assert_eq!(report.groups[0].service_tier.as_deref(), Some("priority"));
    assert!(report.warnings.iter().any(|warning| {
        warning.contains("service tier priority") && warning.contains("not priced")
    }));
}

fn no_scan() -> IngestionState {
    IngestionState {
        last_scan_at_ms: None,
        last_event_at_ms: None,
        files_checked: 0,
        last_events_inserted: 0,
        last_error: None,
        timestamp_schema_version: 2,
    }
}

#[test]
fn active_and_archived_roots_deduplicate_the_same_session_event() {
    let record = format!("{}{}\n", native_prefix("same"), event(100, 100));
    let mut ledger = Ledger::new();
    let logs: Vec<SessionLog> = ["sessions/active.jsonl", "archived_sessions/archived.jsonl"]
        .iter()
        .map(|path| SessionLog {
            path: path.to_string(),
            content: record.clone().into_bytes(),
        })
        .collect();
    let mut checkpoints = vec![Checkpoint::default(), Checkpoint::default()];
    let mut state = no_scan();
    let summary = ingest_once(
        &mut ledger,
        &logs,
        &mut checkpoints,
        &mut state,
        Some("acct-test".to_string()),
        1,
    )
    .expect("active account");
    assert_eq!(summary.files_checked, 2);
    assert_eq!(summary.events_inserted, 1);
    assert_eq!(summary.duplicate_events_skipped, 1);
    assert_eq!(summary.files_changed, 2);
    assert_eq!(ledger.events.len(), 1);
    assert_eq!(state.last_scan_at_ms, Some(1));
    assert_eq!(state.last_event_at_ms, Some(1_787_788_800_000));
}

#[test]
fn scans_read_each_log_once_and_again_only_to_fill_in_timestamps() {
    let logs = vec![SessionLog {
        path: "sessions/a.jsonl".to_string(),
        content: format!("{}{}\n", native_prefix("s"), event(100, 100)).into_bytes(),
    }];
    let mut ledger = Ledger::new();
    let mut checkpoints = vec![Checkpoint::default()];
    let mut state = no_scan();
    let account = Some("acct".to_string());
    assert_eq!(
        ingest_once(&mut ledger, &logs, &mut checkpoints, &mut state, None, 1)
            .expect_err("no account"),
        "account identity is not confirmed; local token ingestion is deferred"
    );
    assert_eq!(state.last_scan_at_ms, None);
    assert_eq!(checkpoints[0].offset, 0);
    let first = ingest_once(&mut ledger, &logs, &mut checkpoints, &mut state, account.clone(), 2)
        .expect("first scan");
    assert_eq!((first.files_changed, first.events_inserted), (1, 1));
    let second = ingest_once(&mut ledger, &logs, &mut checkpoints, &mut state, account.clone(), 3)
        .expect("second scan");
    assert_eq!((second.files_changed, second.events_inserted), (0, 0));
    state.timestamp_schema_version = 1;
    let anew = ingest_once(&mut ledger, &logs, &mut checkpoints, &mut state, account, 4)
        .expect("scan from the start");
    assert_eq!((anew.files_changed, anew.events_inserted), (1, 0));
    assert_eq!(anew.duplicate_events_skipped, 1);
    assert_eq!(state.timestamp_schema_version, 2);
    assert_eq!(state.last_events_inserted, 0);
    assert_eq!(ledger.events.len(), 1);
}

#[test]
fn batch_limits_do_not_change_what_is_read() {
    let content = format!(
        "{}{}\nnot json\n{}\n{}\n{}",
        native_prefix("s"),
        event(100, 100),
        event(100, 100),
        event(250, 150),
        event(300, 50)
    );
    let mut expected = None;
    for (max_events, max_bytes) in [(0, 0), (1, u64::MAX), (2, 40), (256, 4_194_304)] {
        let mut ledger = Ledger::new();
        let mut checkpoint = Checkpoint::default();
        let tally = ingest_in_batches(
            &mut ledger,
            &mut checkpoint,
            content.as_bytes(),
            &source("acct", "a.jsonl", 1),
            max_events,
            max_bytes,
        );
        assert_eq!(tally.events_inserted, 2);
        assert_eq!(tally.duplicates, 1);
        assert_eq!(tally.malformed, 1);
        assert_eq!(checkpoint.file_len, content.len() as u64);
        assert_eq!(checkpoint.offset, content.rfind('\n').expect("line") as u64 + 1);
        let totals: Vec<TokenUsage> = ledger.events.iter().map(|event| event.total).collect();
        let outcome = (tally, checkpoint.previous_total, totals);
        assert_eq!(*expected.get_or_insert(outcome.clone()), outcome);
    }
}

#[test]
fn a_growing_log_is_read_as_one() {
    let content = format!(
        "{}{}\n{}\n",
        native_prefix("s"),
        event(100, 100),
        event(250, 150)
    );
    let mut at_once = Ledger::new();
    let mut whole = Checkpoint::default();
    ingest_file(&mut at_once, &mut whole, "acct", "a.jsonl", &content, 1);
    for cut in [0, 1, 60, 200, content.len() - 1] {
        let mut ledger = Ledger::new();
        let mut checkpoint = Checkpoint::default();
        ingest_file(&mut ledger, &mut checkpoint, "acct", "a.jsonl", &content[..cut], 1);
        ingest_file(&mut ledger, &mut checkpoint, "acct", "a.jsonl", &content, 1);
        assert_eq!(checkpoint.offset, whole.offset);
        assert_eq!(checkpoint.previous_total, whole.previous_total);
        assert_eq!(ledger.events.len(), at_once.events.len());
        for (left, right) in ledger.events.iter().zip(&at_once.events) {
            assert_eq!(left.total, right.total);
            assert_eq!(left.usage, right.usage);
            assert_eq!(left.usage_at_ms, right.usage_at_ms);
        }
    }
}

#[test]
fn a_line_step_tells_the_event_and_whether_to_read_on() {
    let mut batch = Batch::start(Checkpoint::default(), source("acct", "p", 1), 1, u64::MAX);
    let line = format!("{}\n", event(5, 5));
    assert!(batch.feed(b"{}\n").more);
    let step = batch.feed(line.as_bytes());
    assert!(!step.more);
    assert_eq!(step.event.expect("event").total.input, 5);
    batch.stored(7, true);
    assert!(!batch.feed(b"{\"type\"").more);
    let (checkpoint, outcome) = batch.finish(100);
    assert_eq!(checkpoint.offset, 3 + line.len() as u64);
    assert_eq!(outcome.events_inserted, 1);
    assert_eq!(outcome.last_event_at, Some(7));
    assert!(!outcome.more_available);
}

#[test]
fn bulk_backfill_commits_resumable_bounded_batches() {
    let content = format!(
        "{}{}\n{}\n",
        native_prefix("batched"),
        event(100, 100),
        event(200, 100)
    );
    let mut ledger = Ledger::new();
    let mut checkpoint = Checkpoint::default();
    let first = ingest_file_batch_for_account(
        &mut ledger,
        &mut checkpoint,
        content.as_bytes(),
        source("acct-test", "rollout.jsonl", 1),
        1,
        u64::MAX,
    );
    assert_eq!(first.events_inserted, 1);
    assert!(first.more_available);
    let first_offset = checkpoint.offset;
    assert!(first_offset > 0 && first_offset < content.len() as u64);
    let second = ingest_file_batch_for_account(
        &mut ledger,
        &mut checkpoint,
        content.as_bytes(),
        source("acct-test", "rollout.jsonl", 2),
        1,
        u64::MAX,
    );
    assert_eq!(second.events_inserted, 1);
    assert!(!second.more_available);
    assert_eq!(ledger.events.len(), 2);
}

#[test]
fn a_byte_limit_ends_a_batch_after_the_line_that_reaches_it() {
    let content = format!("{}{}\n", native_prefix("bytes"), event(100, 100));
    let mut ledger = Ledger::new();
    let mut checkpoint = Checkpoint::default();
    let batch = ingest_file_batch_for_account(
        &mut ledger,
        &mut checkpoint,
        content.as_bytes(),
        source("acct-test", "rollout.jsonl", 1),
        0,
        0,
    );
    assert!(batch.more_available);
    assert_eq!(batch.events_inserted, 0);
    assert_eq!(checkpoint.offset, content.find('\n').expect("line") as u64 + 1);
    assert_eq!(checkpoint.session_id, "bytes");
}

#[test]
fn reports_only_the_active_account_partition() {
    let mut ledger = Ledger::new();
    for (session, account, input) in [("a", "acct-a", 100_u64), ("b", "acct-b", 200)] {
        ledger.record(stored(account, session, 10, "gpt-5.6-sol", input, 10));
    }
    let account = reporting_account(Some("acct-a".to_string()));
    let report = report_from_ledger(&ledger.events, &account, 0, 100, &rules());
    assert_eq!(report.totals.input_tokens, 100);
    assert_eq!(report.totals.events, 1);
}

#[test]
fn migration_allows_identical_event_identity_in_two_accounts() {
    let legacy = TableIndex {
        unique: true,
        columns: vec!["session_id".to_string(), "total_input_tokens".to_string()],
    };
    let divided = TableIndex {
        unique: true,
        columns: vec!["account_key".to_string(), "session_id".to_string()],
    };
    let plain = TableIndex {
        unique: false,
        columns: vec!["account_key".to_string()],
    };
    assert!(!is_divided_by_account(&vec![legacy, plain]));
    assert!(is_divided_by_account(&vec![divided]));
    let mut ledger = Ledger::new();
    for account in ["acct-a", "acct-b"] {
        assert!(ledger.record(stored(account, "same", 1, "gpt-5.6-sol", 1, 1)));
    }
    assert_eq!(ledger.events.len(), 2);
}

#[test]
fn storing_a_report_inserts_retimes_or_keeps() {
    let first = stored("acct", "s", 10, "gpt-5.6-sol", 5, 1);
    let later = stored("acct", "s", 20, "gpt-5.6-sol", 5, 1);
    let mut replay = stored("acct", "s", 30, "gpt-5.6-sol", 5, 1);
    replay.provenance = "legacy_replay".to_string();
    assert_eq!(store_action(None, &first), StoreAction::Insert);
    assert_eq!(store_action(Some(&first), &later), StoreAction::Retime);
    assert_eq!(store_action(Some(&first), &first), StoreAction::Keep);
    assert_eq!(store_action(Some(&first), &replay), StoreAction::Keep);
    let mut imported = stored("acct", "s", 30, "gpt-5.6-sol", 5, 1);
    imported.provenance = "imported".to_string();
    assert_eq!(store_action(Some(&imported), &first), StoreAction::Keep);
    let mut ledger = Ledger::new();
    assert!(ledger.record(first));
    assert!(ledger.record(later));
    assert!(!ledger.record(replay));
    assert_eq!(ledger.events.len(), 1);
    assert_eq!(ledger.events[0].usage_at_ms, 20);
}

#[test]
fn malformed_and_undated_lines_are_counted_and_passed() {
    let content = format!(
        "not json\n{}\n{}\n",
        event(100, 100).replace("2026-08-27T00:00:00Z", "yesterday"),
        event(100, 100)
    );
    let mut ledger = Ledger::new();
    let mut checkpoint = Checkpoint::default();
    let tally = ingest_file(&mut ledger, &mut checkpoint, "acct", "rollout.jsonl", &content, 1);
    assert_eq!(tally.malformed, 2);
    assert_eq!(tally.duplicates, 1);
    assert_eq!(tally.events_inserted, 0);
    assert_eq!(tally.last_event_at, None);
    assert_eq!(checkpoint.offset, content.len() as u64);
    let mut state = Checkpoint::default();
    let bytes: Vec<u8> = vec![0xff, b'\n'];
    assert!(matches!(
        apply_line(&mut state, &bytes, &source("acct", "p", 1)),
        LineEffect::Malformed
    ));
    assert_eq!(state.offset, 2);
}

#[test]
fn a_report_without_a_session_goes_by_its_path_and_an_unknown_model() {
    let mut state = Checkpoint::default();
    let line = format!("  {}  \n", event(7, 7));
    match apply_line(&mut state, line.as_bytes(), &source("acct", "logs/a.jsonl", 9)) {
        LineEffect::Reported(event) => {
            assert_eq!(event.session_id, "logs/a.jsonl");
            assert_eq!(event.model, "unknown");
            assert_eq!(event.limit_id.as_deref(), Some("codex"));
            assert_eq!(event.provenance, "native");
            assert_eq!(event.reported_at_ms, 1_787_788_800_000);
            assert_eq!(event.ingested_at_ms, 9);
        }
        other => panic!("unexpected effect: {other:?}"),
    }
}

#[test]
fn only_what_the_model_generates_sets_the_usage_time() {
    let time = |text: &str| {
        let document = Document::parse(text).expect("record");
        model_response_at_ms(document.json(), timestamp_ms(document.json()))
    };
    let at = "\"timestamp\":\"2026-08-28T00:00:40Z\",\"type\":\"response_item\"";
    assert_eq!(
        time(&format!("{{{at},\"payload\":{{\"type\":\"reasoning\"}}}}")),
        Some(1_787_875_240_000)
    );
    assert_eq!(
        time(&format!(
            "{{{at},\"payload\":{{\"type\":\"message\",\"role\":\"assistant\"}}}}"
        )),
        Some(1_787_875_240_000)
    );
    assert_eq!(
        time(&format!(
            "{{{at},\"payload\":{{\"type\":\"message\",\"role\":\"user\"}}}}"
        )),
        None
    );
    assert_eq!(
        time(&format!("{{{at},\"payload\":{{\"type\":\"tool_call_output\"}}}}")),
        None
    );
    assert_eq!(time("{\"type\":\"event_msg\",\"payload\":{\"type\":\"reasoning\"}}"), None);
}

#[test]
fn settings_change_the_model_and_the_tier_of_what_follows() {
    let mut state = Checkpoint::default();
    let from = source("acct", "p", 1);
    let apply = |state: &mut Checkpoint, text: &str| {
        let document = Document::parse(text).expect("record");
        apply_record(state, document.json(), None, &from)
    };
    assert!(matches!(
        apply(
            &mut state,
            r#"{"type":"event_msg","payload":{"type":"thread_settings_applied","thread_settings":{"model":"m1","service_tier":"fast"}}}"#
        ),
        LineEffect::Absorbed
    ));
    assert_eq!(state.model, "m1");
    assert_eq!(state.service_tier.as_deref(), Some("fast"));
    apply(&mut state, r#"{"type":"turn_context","payload":{"service_tier":null}}"#);
    assert_eq!(state.model, "m1");
    assert_eq!(state.service_tier, None);
    apply(&mut state, r#"{"type":"session_meta","payload":{"session_id":"one"}}"#);
    state.pending_usage_at_ms = Some(5);
    apply(&mut state, r#"{"type":"session_meta","payload":{"id":"two"}}"#);
    assert_eq!(state.session_id, "two");
    assert_eq!(state.owner_session_id, "one");
    assert_eq!(state.pending_usage_at_ms, None);
}

#[test]
fn checkpoints_resume_reset_or_rest() {
    let at = |offset: u64, file_len: u64| Checkpoint {
        offset,
        file_len,
        session_id: "s".to_string(),
        ..Default::default()
    };
    assert!(at(10, 10).resume(10).is_none());
    assert_eq!(at(10, 10).resume(11).expect("more").session_id, "s");
    assert_eq!(at(10, 10).resume(9).expect("shorter").offset, 0);
    assert_eq!(at(8, 10).resume(10).expect("partial").offset, 8);
    assert_eq!(
        Checkpoint::stored_total(Some(1), None, Some(2), None, Some(3)),
        Some(TokenUsage {
            input: 1,
            cached_input: 0,
            cache_write_input: 2,
            output: 0,
            reasoning_output: 3
        })
    );
    assert_eq!(Checkpoint::stored_total(None, Some(1), None, None, None), None);
}

#[test]
fn timestamps_are_milliseconds_towards_zero() {
    assert_eq!(nanos_to_millis(1_999_999), Some(1));
    assert_eq!(nanos_to_millis(-1_999_999), Some(-1));
    assert_eq!(nanos_to_millis(i128::MAX), None);
    assert_eq!(nanos_to_millis(i128::MIN), None);
    let age = std::time::Duration::from_micros(1_234_567);
    assert_eq!(timestamp_of(&(std::time::UNIX_EPOCH + age)), 1_234);
    assert_eq!(timestamp_of(&(std::time::UNIX_EPOCH - age)), 0);
    assert_eq!(timestamp_of_reading(None), 0);
    assert_eq!(timestamp_of_reading(Some(7)), 7);
    assert_eq!(timestamp_of_reading(Some(u128::MAX)), i64::MAX);
    assert!(now_ms() > 1_600_000_000_000);
    let before = Document::parse("{\"timestamp\":\"1969-12-31T23:59:59.9985Z\"}").expect("record");
    assert_eq!(timestamp_ms(before.json()), Some(-1));
    let none = Document::parse("{\"timestamp\":5}").expect("record");
    assert_eq!(timestamp_ms(none.json()), None);
}

#[test]
fn scans_keep_the_last_event_and_forget_the_last_error() {
    let state = IngestionState {
        last_scan_at_ms: None,
        last_event_at_ms: Some(5),
        files_checked: 0,
        last_events_inserted: 0,
        last_error: None,
        timestamp_schema_version: 0,
    };
    assert!(state.needs_backfill());
    let failed = state.after_error(7, "broken".to_string());
    assert_eq!(failed.last_error.as_deref(), Some("broken"));
    assert_eq!(failed.last_event_at_ms, Some(5));
    let scanned = failed.after_scan(&IngestSummary::new(9, 3), None);
    assert_eq!(scanned.last_scan_at_ms, Some(9));
    assert_eq!(scanned.last_event_at_ms, Some(5));
    assert_eq!(scanned.files_checked, 3);
    assert_eq!(scanned.last_error, None);
    assert!(!scanned.needs_backfill());
    assert_eq!(
        required_active_account_key(None).expect_err("no account"),
        "account identity is not confirmed; local token ingestion is deferred"
    );
}

#[test]
fn status_counts_the_events_without_a_price() {
    let state = IngestionState {
        last_scan_at_ms: Some(1),
        last_event_at_ms: None,
        files_checked: 2,
        last_events_inserted: 3,
        last_error: Some("private".to_string()),
        timestamp_schema_version: 2,
    };
    let models = vec![
        ModelEvents {
            model: "GPT-5.6-SOL-preview".to_string(),
            events: 4,
        },
        ModelEvents {
            model: "future-model".to_string(),
            events: 5,
        },
    ];
    let status = ledger_status(state, &models, 6, &rules());
    assert_eq!(status.total_events, 9);
    assert_eq!(status.unpriced_events, 5);
    assert_eq!(status.checkpoint_files, 6);
    assert!(status.last_error_present);
}
