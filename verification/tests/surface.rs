use codex_quota_ledger::command::parse_command;
use codex_quota_ledger::command::Command;
use codex_quota_ledger::command::Percentage;
use codex_quota_ledger::json::Document;
use codex_quota_ledger::local::already_running;
use codex_quota_ledger::local::dashboard_process;
use codex_quota_ledger::local::dashboard_state;
use codex_quota_ledger::local::dashboard_url;
use codex_quota_ledger::local::is_dashboard_response;
use codex_quota_ledger::local::is_log_full;
use codex_quota_ledger::local::is_missing_task;
use codex_quota_ledger::local::lists_process;
use codex_quota_ledger::local::log_line;
use codex_quota_ledger::local::newest_candidate;
use codex_quota_ledger::local::process_of_file;
use codex_quota_ledger::local::task_command;
use codex_quota_ledger::query::availability_of;
use codex_quota_ledger::query::day_issues;
use codex_quota_ledger::query::diagnose_issues;
use codex_quota_ledger::query::envelope;
use codex_quota_ledger::query::evidence_sources;
use codex_quota_ledger::query::export_issues;
use codex_quota_ledger::query::history_issues;
use codex_quota_ledger::query::is_query_command;
use codex_quota_ledger::query::notification_observation;
use codex_quota_ledger::query::status_issues;
use codex_quota_ledger::query::sync_issues;
use codex_quota_ledger::query::unavailable_issues;
use codex_quota_ledger::query::unavailable_message;
use codex_quota_ledger::query::warnings;
use codex_quota_ledger::query::windows_issues;
use codex_quota_ledger::query::Availability;
use codex_quota_ledger::query::Issue;
use codex_quota_ledger::scan::IngestSummary;
use codex_quota_ledger::schema::column_statement;
use codex_quota_ledger::schema::has_column;
use codex_quota_ledger::schema::ledger_columns;
use codex_quota_ledger::schema::quota_columns;
use codex_quota_ledger::web::dashboard_answer;
use codex_quota_ledger::web::dashboard_commands;
use codex_quota_ledger::web::security_headers;
use codex_quota_ledger::web::RequestPolicy;

fn parse(line: &[&str]) -> Result<Command, String> {
    let args: Vec<String> = line.iter().map(|arg| arg.to_string()).collect();
    let percentages: Vec<Percentage> = line
        .iter()
        .map(|arg| match arg.parse::<f64>() {
            Ok(value) if value.is_finite() && (0.0..=100.0).contains(&value) => {
                Percentage::Valid(value.to_bits())
            }
            Ok(_) => Percentage::OutOfRange,
            Err(_) => Percentage::NotANumber,
        })
        .collect();
    parse_command(&args, &percentages)
}

fn refused(line: &[&str]) -> String {
    parse(line).expect_err("refused")
}

#[test]
fn commands_and_their_options_are_read() {
    assert!(matches!(parse(&[]), Ok(Command::Help)));
    assert!(matches!(parse(&["-V", "ignored"]), Ok(Command::Version)));
    assert!(matches!(parse(&["run"]), Ok(Command::Run)));
    assert!(matches!(parse(&["history"]), Ok(Command::History(100))));
    assert!(matches!(
        parse(&["history", "x", "--limit", "0", "--limit", "20000"]),
        Ok(Command::History(10_000))
    ));
    assert!(matches!(parse(&["history", "--limit", "0"]), Ok(Command::History(1))));
    match parse(&["day", "--timezone", "UTC", "--date", "2026-01-01"]) {
        Ok(Command::Day(date, timezone)) => {
            assert_eq!((date.as_str(), timezone.as_str()), ("2026-01-01", "UTC"))
        }
        other => panic!("unexpected command: {other:?}"),
    }
    assert!(matches!(parse(&["reconcile"]), Ok(Command::Reconcile(None))));
    assert!(matches!(
        parse(&["reconcile", "--web-used-percent", "12.5"]),
        Ok(Command::Reconcile(Some(bits))) if bits == 12.5_f64.to_bits()
    ));
    assert!(matches!(parse(&["serve"]), Ok(Command::Serve(48_121, 15))));
    assert!(matches!(
        parse(&["serve", "--query-timeout-seconds", "500", "--port", "0"]),
        Ok(Command::Serve(0, 120))
    ));
    assert!(matches!(
        parse(&["open", "--no-browser", "--port", "9"]),
        Ok(Command::Open(9, false))
    ));
    assert!(matches!(parse(&["paths"]), Ok(Command::Paths)));
}

#[test]
fn commands_refuse_what_they_do_not_know() {
    assert_eq!(refused(&["nonsense"]), "unknown command: nonsense");
    assert_eq!(refused(&["history", "--limit"]), "--limit requires a number");
    assert_eq!(refused(&["history", "--limit", "-1"]), "invalid --limit value");
    assert_eq!(refused(&["day"]), "day requires --date YYYY-MM-DD");
    assert_eq!(
        refused(&["day", "--date", "2026-01-01", "--timezone"]),
        "day requires --timezone with an IANA name"
    );
    assert_eq!(refused(&["day", "now"]), "unknown day option: now");
    assert_eq!(refused(&["reconcile", "x"]), "unknown reconcile option: x");
    assert_eq!(
        refused(&["reconcile", "--web-used-percent"]),
        "--web-used-percent requires a number"
    );
    assert_eq!(
        refused(&["reconcile", "--web-used-percent", "x"]),
        "invalid --web-used-percent value"
    );
    assert_eq!(
        refused(&["reconcile", "--web-used-percent", "101"]),
        "--web-used-percent must be between 0 and 100"
    );
    assert_eq!(refused(&["serve", "--port"]), "--port requires a number");
    assert_eq!(refused(&["serve", "--port", "65536"]), "invalid --port value");
    assert_eq!(
        refused(&["serve", "--query-timeout-seconds", "x"]),
        "invalid --query-timeout-seconds value"
    );
    assert_eq!(
        refused(&["serve", "--query-timeout-seconds"]),
        "--query-timeout-seconds requires a number"
    );
    assert_eq!(refused(&["serve", "x"]), "unknown serve option: x");
    assert_eq!(refused(&["open", "--port", "0"]), "open requires a fixed nonzero port");
    assert_eq!(refused(&["open", "--port", "x"]), "invalid open port");
    assert_eq!(refused(&["open", "x"]), "unknown open option: x");
}

#[test]
fn answers_come_in_the_common_envelope() {
    let issue = Issue::warning("code", "message".to_string(), "source");
    assert_eq!((issue.code, issue.severity, issue.source), ("code", "warning", Some("source")));
    let answer = envelope("status", 5, Availability::Partial, 7_u8, vec![issue]);
    assert_eq!(answer.schema, "codex-quota-ledger.query");
    assert_eq!(answer.schema_version, 1);
    assert_eq!(answer.command, "status");
    assert_eq!(answer.generated_at_ms, 5);
    assert_eq!(answer.availability.as_str(), "partial");
    assert_eq!(answer.data, 7);
    assert_eq!(answer.issues.len(), 1);
    assert_eq!(answer.evidence_sources[0].source, "official_quota");
    assert_eq!(answer.evidence_sources[0].confidence, "direct");
    assert_eq!(availability_of(&vec![]), Availability::Complete);
    assert_eq!(availability_of(&answer.issues), Availability::Partial);
}

#[test]
fn queries_name_their_evidence() {
    for command in [
        "status", "history", "windows", "sync", "estimate", "reconcile", "day", "capacity", "diagnose", "export",
    ] {
        assert!(is_query_command(command));
        assert!(!evidence_sources(command).is_empty());
    }
    assert!(!is_query_command("serve"));
    assert!(evidence_sources("serve").is_empty());
    let export = evidence_sources("export");
    assert_eq!(export.len(), 4);
    assert_eq!(export[3].relationship, "derived-not-official-accounting");
    assert_eq!(evidence_sources("reconcile")[2].confidence, "user-supplied");
}

#[test]
fn failed_queries_tell_only_what_is_missing() {
    assert_eq!(
        unavailable_message("no quota snapshot is available yet"),
        "Required official quota evidence is unavailable."
    );
    assert_eq!(
        unavailable_message("no App Server quota snapshot is available yet"),
        "Required official quota evidence is unavailable."
    );
    assert_eq!(
        unavailable_message("account identity is not confirmed; local token ingestion is deferred"),
        "No verified active account partition is available."
    );
    assert_eq!(
        unavailable_message("unable to open C:\\Users\\x"),
        "The query could not be completed. Run diagnose for local health details."
    );
    let issues = unavailable_issues("gone");
    assert_eq!((issues[0].code, issues[0].severity), ("query_unavailable", "error"));
    assert_eq!(issues[0].source, None);
}

#[test]
fn issues_say_what_an_answer_lacks() {
    let codes = |issues: Vec<Issue>| issues.iter().map(|issue| issue.code).collect::<Vec<_>>();
    assert_eq!(
        codes(status_issues(false, "starting")),
        vec!["official_quota_unavailable", "collector_not_healthy"]
    );
    assert_eq!(
        status_issues(true, "degraded")[0].message,
        "The official quota collector is degraded."
    );
    assert_eq!(
        status_issues(true, "paused")[0].message,
        "The official quota collector is paused."
    );
    assert!(status_issues(true, "healthy").is_empty());
    assert_eq!(
        codes(diagnose_issues(false, "recovering", 0, true)),
        vec![
            "active_account_unavailable",
            "collector_not_healthy",
            "notification_live_observation_pending",
            "local_ingestion_error_present"
        ]
    );
    assert!(diagnose_issues(true, "healthy", 1, false).is_empty());
    assert_eq!(notification_observation(0), "pending");
    assert_eq!(notification_observation(2), "observed");
    let local = vec!["one".to_string(), "two".to_string()];
    assert_eq!(day_issues(&local, true).len(), 2);
    assert_eq!(
        codes(day_issues(&vec![], false)),
        vec!["official_daily_usage_unavailable"]
    );
    assert_eq!(
        codes(export_issues(true, &local)),
        vec![
            "official_usage_empty",
            "local_usage_evidence_limit",
            "local_usage_evidence_limit"
        ]
    );
    assert_eq!(codes(history_issues(true)), vec!["quota_history_empty"]);
    assert!(history_issues(false).is_empty());
    assert_eq!(codes(windows_issues(true)), vec!["quota_windows_empty"]);
    let mut summary = IngestSummary::new(1, 1);
    assert!(sync_issues(&summary).is_empty());
    summary.malformed_lines = 3;
    assert_eq!(
        sync_issues(&summary)[0].message,
        "3 malformed local JSONL lines were skipped."
    );
    let limited = warnings(&local, "estimate_evidence_limit", "derived_estimate");
    assert_eq!(limited[1].message, "two");
    assert_eq!(limited[1].source, Some("derived_estimate"));
}

#[test]
fn foreign_requests_are_refused_and_own_ones_are_answered() {
    let policy = RequestPolicy::new("127.0.0.1:48121", 48_121);
    assert!(policy.allows(Some("127.0.0.1:48121"), None, None));
    assert!(policy.allows(
        Some("LOCALHOST:48121"),
        Some("http://localhost:48121"),
        Some("same-origin")
    ));
    assert!(!policy.allows(Some("attacker.example"), None, None));
    assert!(!policy.allows(None, None, None));
    assert!(!policy.allows(Some("127.0.0.1:48121"), Some("https://attacker.example"), None));
    assert!(!policy.allows(Some("127.0.0.1:48121"), None, Some("Cross-Site")));
}

#[test]
fn every_answer_of_the_dashboard_is_hardened() {
    let headers = security_headers();
    assert!(headers[0].1.starts_with("default-src 'none'"));
    assert!(headers.contains(&("x-content-type-options", "nosniff")));
    assert!(headers.contains(&("cache-control", "no-store")));
    assert!(headers.contains(&("referrer-policy", "no-referrer")));
    assert_eq!(dashboard_commands(), vec!["status", "estimate", "capacity", "reconcile"]);
}

#[test]
fn the_dashboard_passes_on_only_answers_to_its_queries() {
    let answer = br#"{"schema":"codex-quota-ledger.query","schemaVersion":1,"command":"status"}"#;
    assert!(dashboard_answer(answer, "status").is_some());
    assert!(dashboard_answer(answer, "estimate").is_none());
    let newer = br#"{"schema":"codex-quota-ledger.query","schemaVersion":2,"command":"status"}"#;
    assert!(dashboard_answer(newer, "status").is_none());
    assert!(dashboard_answer(b"{", "status").is_none());
    assert_eq!(
        dashboard_answer(answer, "status").expect("answer").text(),
        r#"{"command":"status","schema":"codex-quota-ledger.query","schemaVersion":1}"#
    );
    assert!(Document::parse("{").is_err());
}

#[test]
fn processes_are_found_again_by_their_files() {
    assert_eq!(process_of_file(" 42\r\n"), Some(42));
    assert_eq!(process_of_file("4294967296"), None);
    assert_eq!(process_of_file(""), None);
    assert_eq!(dashboard_state(7, 48_121), "7 48121");
    assert_eq!(dashboard_process(&dashboard_state(7, 48_121)), Some((7, 48_121)));
    assert_eq!(dashboard_process(" 7\t65535 rest"), Some((7, 65_535)));
    assert_eq!(dashboard_process("7 65536"), None);
    assert_eq!(dashboard_process("7"), None);
    assert!(lists_process("\"recorder.exe\",\"42\",\"Console\"", 42));
    assert!(!lists_process("\"recorder.exe\",\"421\"", 42));
    assert_eq!(already_running(5), "recorder is already running with PID 5");
    assert_eq!(dashboard_url(80), "http://127.0.0.1:80");
    assert!(is_dashboard_response("HTTP/1.1 200 OK\r\n\r\ncodex-quota-ledger\n"));
    assert!(!is_dashboard_response("HTTP/1.1 200 OK\r\n\r\nother"));
    assert!(!is_dashboard_response("x HTTP/1.1 200 codex-quota-ledger"));
    assert_eq!(newest_candidate(&vec![3, 9, 1, 9]), Some(3));
    assert_eq!(newest_candidate(&vec![]), None);
    assert!(is_missing_task("ERROR: The system cannot find the file"));
    assert!(is_missing_task("错误: 系统找不到指定的文件。"));
    assert!(!is_missing_task("denied"));
    assert_eq!(task_command("C:\\a b.exe"), "\"C:\\a b.exe\" run");
}

#[test]
fn log_lines_never_break() {
    assert_eq!(log_line(12, "a\r\nb"), "12 a  b");
    assert_eq!(log_line(-12, "x"), "-12 x");
    assert!(!is_log_full(1_048_576));
    assert!(is_log_full(1_048_577));
}

#[test]
fn older_tables_get_the_columns_that_they_lack() {
    let columns = ledger_columns();
    assert_eq!(columns.len(), 10);
    assert_eq!(quota_columns().len(), 6);
    let existing = vec!["id".to_string(), "service_tier".to_string()];
    assert!(has_column(&existing, "id"));
    assert_eq!(column_statement(&existing, &columns[0]), None);
    assert_eq!(
        column_statement(&existing, &columns[2]).as_deref(),
        Some("ALTER TABLE token_events ADD COLUMN account_key TEXT NOT NULL DEFAULT 'legacy-unknown'")
    );
}
