//! Queries: the envelope in which every answer comes, and what it admits to lacking.
use vstd::prelude::*;

use crate::scan::IngestSummary;
use crate::text;
use crate::text::contains_text;
use crate::text::decimal_text;
use crate::text::same_text;

verus! {

/// The schema of every answer.
pub const SCHEMA: &'static str = "codex-quota-ledger.query";

/// The version of the schema.
pub const SCHEMA_VERSION: u32 = 1;

/// How much of an answer there is.
#[derive(Clone, Copy, Debug, PartialEq, Eq, Structural)]
pub enum Availability {
    Complete,
    Partial,
    Unavailable,
}

impl Availability {
    /// The word for an availability.
    pub fn as_str(self) -> (word: &'static str)
        ensures
            word@ == match self {
                Availability::Complete => "complete"@,
                Availability::Partial => "partial"@,
                Availability::Unavailable => "unavailable"@,
            },
    {
        match self {
            Availability::Complete => "complete",
            Availability::Partial => "partial",
            Availability::Unavailable => "unavailable",
        }
    }
}

/// Something that an answer lacks.
#[derive(Debug)]
pub struct Issue {
    pub code: &'static str,
    pub severity: &'static str,
    pub message: String,
    pub source: Option<&'static str>,
}

/// What an issue says.
#[verifier::ext_equal]
pub struct IssueView {
    pub code: Seq<char>,
    pub severity: Seq<char>,
    pub message: Seq<char>,
    pub source: Option<Seq<char>>,
}

impl View for Issue {
    type V = IssueView;

    open spec fn view(&self) -> IssueView {
        IssueView {
            code: self.code@,
            severity: self.severity@,
            message: self.message@,
            source: text::opt_str_view(self.source),
        }
    }
}

/// What issues say.
pub open spec fn issue_views(issues: Seq<Issue>) -> Seq<IssueView> {
    issues.map_values(|issue: Issue| issue@)
}

/// A warning.
pub open spec fn warning(code: Seq<char>, message: Seq<char>, source: Seq<char>) -> IssueView {
    IssueView { code, severity: "warning"@, message, source: Some(source) }
}

impl Issue {
    /// A warning.
    pub fn warning(code: &'static str, message: String, source: &'static str) -> (issue: Issue)
        ensures
            issue@ == warning(code@, message@, source@),
    {
        Issue { code, severity: "warning", message, source: Some(source) }
    }
}

/// Evidence that an answer rests on.
#[derive(Clone, Copy, Debug)]
pub struct EvidenceSource {
    pub source: &'static str,
    pub confidence: &'static str,
    pub relationship: &'static str,
}

impl View for EvidenceSource {
    type V = (Seq<char>, Seq<char>, Seq<char>);

    open spec fn view(&self) -> (Seq<char>, Seq<char>, Seq<char>) {
        (self.source@, self.confidence@, self.relationship@)
    }
}

/// What evidence says.
pub open spec fn source_views(sources: Seq<EvidenceSource>) -> Seq<
    (Seq<char>, Seq<char>, Seq<char>),
> {
    sources.map_values(|source: EvidenceSource| source@)
}

/// Evidence that stands on its own.
pub open spec fn direct(source: Seq<char>) -> (Seq<char>, Seq<char>, Seq<char>) {
    (source, "direct"@, "independent-evidence-source"@)
}

/// Evidence that is derived from other evidence.
pub open spec fn derived(source: Seq<char>, confidence: Seq<char>) -> (
    Seq<char>,
    Seq<char>,
    Seq<char>,
) {
    (source, confidence, "derived-not-official-accounting"@)
}

/// The evidence that the answer to a command rests on.
pub open spec fn sources_of(command: Seq<char>) -> Seq<(Seq<char>, Seq<char>, Seq<char>)> {
    if command == "status"@ {
        seq![direct("official_quota"@), direct("local_jsonl"@)]
    } else if command == "history"@ {
        seq![direct("official_quota"@)]
    } else if command == "windows"@ {
        seq![derived("reconstructed_quota_windows"@, "bounded"@)]
    } else if command == "sync"@ {
        seq![direct("local_jsonl"@)]
    } else if command == "estimate"@ {
        seq![
            direct("official_quota"@),
            direct("local_jsonl"@),
            derived("api_equivalent_estimate"@, "limited"@),
        ]
    } else if command == "reconcile"@ {
        seq![
            direct("official_quota"@),
            direct("local_jsonl"@),
            derived("optional_web_observation"@, "user-supplied"@),
        ]
    } else if command == "day"@ {
        seq![direct("official_daily_usage"@), direct("local_jsonl"@)]
    } else if command == "capacity"@ {
        seq![
            direct("official_quota"@),
            direct("local_jsonl"@),
            derived("historical_capacity"@, "limited"@),
        ]
    } else if command == "diagnose"@ {
        seq![direct("local_health_state"@)]
    } else if command == "export"@ {
        seq![
            direct("official_quota"@),
            direct("official_daily_usage"@),
            direct("local_jsonl"@),
            derived("reconstructed_quota_windows"@, "bounded"@),
        ]
    } else {
        Seq::empty()
    }
}

/// Evidence that stands on its own.
fn direct_source(source: &'static str) -> (evidence: EvidenceSource)
    ensures
        evidence@ == direct(source@),
{
    EvidenceSource { source, confidence: "direct", relationship: "independent-evidence-source" }
}

/// Evidence that is derived from other evidence.
fn derived_source(source: &'static str, confidence: &'static str) -> (evidence: EvidenceSource)
    ensures
        evidence@ == derived(source@, confidence@),
{
    EvidenceSource { source, confidence, relationship: "derived-not-official-accounting" }
}

/// The evidence that the answer to a command rests on.
pub fn evidence_sources(command: &str) -> (sources: Vec<EvidenceSource>)
    ensures
        source_views(sources@) == sources_of(command@),
{
    let sources = if same_text(command, "status") {
        vec![direct_source("official_quota"), direct_source("local_jsonl")]
    } else if same_text(command, "history") {
        vec![direct_source("official_quota")]
    } else if same_text(command, "windows") {
        vec![derived_source("reconstructed_quota_windows", "bounded")]
    } else if same_text(command, "sync") {
        vec![direct_source("local_jsonl")]
    } else if same_text(command, "estimate") {
        vec![
            direct_source("official_quota"),
            direct_source("local_jsonl"),
            derived_source("api_equivalent_estimate", "limited"),
        ]
    } else if same_text(command, "reconcile") {
        vec![
            direct_source("official_quota"),
            direct_source("local_jsonl"),
            derived_source("optional_web_observation", "user-supplied"),
        ]
    } else if same_text(command, "day") {
        vec![direct_source("official_daily_usage"), direct_source("local_jsonl")]
    } else if same_text(command, "capacity") {
        vec![
            direct_source("official_quota"),
            direct_source("local_jsonl"),
            derived_source("historical_capacity", "limited"),
        ]
    } else if same_text(command, "diagnose") {
        vec![direct_source("local_health_state")]
    } else if same_text(command, "export") {
        vec![
            direct_source("official_quota"),
            direct_source("official_daily_usage"),
            direct_source("local_jsonl"),
            derived_source("reconstructed_quota_windows", "bounded"),
        ]
    } else {
        Vec::new()
    };
    assert(source_views(sources@) =~= sources_of(command@));
    sources
}

/// Whether a command is answered in the envelope.
pub open spec fn is_query(command: Seq<char>) -> bool {
    ||| command == "status"@
    ||| command == "history"@
    ||| command == "windows"@
    ||| command == "sync"@
    ||| command == "estimate"@
    ||| command == "reconcile"@
    ||| command == "day"@
    ||| command == "capacity"@
    ||| command == "diagnose"@
    ||| command == "export"@
}

/// Whether a command is answered in the envelope.
pub fn is_query_command(command: &str) -> (answer: bool)
    ensures
        answer == is_query(command@),
{
    same_text(command, "status") || same_text(command, "history") || same_text(command, "windows")
        || same_text(command, "sync") || same_text(command, "estimate") || same_text(
        command,
        "reconcile",
    ) || same_text(command, "day") || same_text(command, "capacity") || same_text(
        command,
        "diagnose",
    ) || same_text(command, "export")
}

/// Every answer in the envelope says what evidence it rests on, and no other command does.
pub proof fn answers_name_their_evidence(command: Seq<char>)
    ensures
        is_query(command) <==> sources_of(command).len() > 0,
{
}

/// An answer in its envelope.
#[derive(Debug)]
pub struct Envelope<T> {
    pub schema: &'static str,
    pub schema_version: u32,
    pub command: String,
    pub generated_at_ms: i64,
    pub availability: Availability,
    pub evidence_sources: Vec<EvidenceSource>,
    pub data: T,
    pub issues: Vec<Issue>,
}

/// Puts an answer into its envelope.
pub fn envelope<T>(
    command: &str,
    generated_at_ms: i64,
    availability: Availability,
    data: T,
    issues: Vec<Issue>,
) -> (answer: Envelope<T>)
    ensures
        answer.schema@ == SCHEMA@,
        answer.schema_version == SCHEMA_VERSION,
        answer.command@ == command@,
        answer.generated_at_ms == generated_at_ms,
        answer.availability == availability,
        source_views(answer.evidence_sources@) == sources_of(command@),
        answer.data == data,
        answer.issues == issues,
{
    Envelope {
        schema: SCHEMA,
        schema_version: SCHEMA_VERSION,
        command: command.to_owned(),
        generated_at_ms,
        availability,
        evidence_sources: evidence_sources(command),
        data,
        issues,
    }
}

/// The availability of an answer with these issues: it is complete where there are none.
pub fn availability_of(issues: &Vec<Issue>) -> (availability: Availability)
    ensures
        availability == if issues@.len() == 0 {
            Availability::Complete
        } else {
            Availability::Partial
        },
        availability == availability_with(issues@.len()),
{
    if issues.len() == 0 {
        Availability::Complete
    } else {
        Availability::Partial
    }
}

/// What is said where a query fails with an error: nothing of the error itself.
pub open spec fn unavailable_text(error: Seq<char>) -> Seq<char> {
    if text::occurs(error, "no quota snapshot"@) || text::occurs(
        error,
        "no App Server quota snapshot"@,
    ) {
        "Required official quota evidence is unavailable."@
    } else if text::occurs(error, "account identity is not confirmed"@) || text::occurs(
        error,
        "no active account partition"@,
    ) {
        "No verified active account partition is available."@
    } else {
        "The query could not be completed. Run diagnose for local health details."@
    }
}

/// What is said where a query fails with an error.
pub fn unavailable_message(error: &str) -> (message: &'static str)
    ensures
        message@ == unavailable_text(error@),
{
    if contains_text(error, "no quota snapshot") || contains_text(
        error,
        "no App Server quota snapshot",
    ) {
        "Required official quota evidence is unavailable."
    } else if contains_text(error, "account identity is not confirmed") || contains_text(
        error,
        "no active account partition",
    ) {
        "No verified active account partition is available."
    } else {
        "The query could not be completed. Run diagnose for local health details."
    }
}

/// What a failed query answers never depends on more of its error than the sort of it.
pub proof fn failed_queries_tell_nothing_private(error: Seq<char>)
    ensures
        unavailable_text(error) == "Required official quota evidence is unavailable."@
            || unavailable_text(error) == "No verified active account partition is available."@
            || unavailable_text(error)
            == "The query could not be completed. Run diagnose for local health details."@,
{
}

/// The issue of a query that failed.
pub fn unavailable_issues(message: &str) -> (issues: Vec<Issue>)
    ensures
        issue_views(issues@) == seq![
            (IssueView {
                code: "query_unavailable"@,
                severity: "error"@,
                message: message@,
                source: None,
            }),
        ],
{
    let issues = vec![
        Issue {
            code: "query_unavailable",
            severity: "error",
            message: message.to_owned(),
            source: None,
        },
    ];
    assert(issue_views(issues@) =~= seq![
        IssueView {
            code: "query_unavailable"@,
            severity: "error"@,
            message: message@,
            source: None,
        },
    ]);
    issues
}

/// A warning where something holds, and nothing where it does not.
pub open spec fn warning_if(
    holds: bool,
    code: Seq<char>,
    message: Seq<char>,
    source: Seq<char>,
) -> Seq<IssueView> {
    if holds {
        seq![warning(code, message, source)]
    } else {
        Seq::empty()
    }
}

/// Adds a warning where something holds.
fn push_if(
    issues: &mut Vec<Issue>,
    holds: bool,
    code: &'static str,
    message: &str,
    source: &'static str,
)
    ensures
        issue_views(final(issues)@) == issue_views(old(issues)@) + warning_if(
            holds,
            code@,
            message@,
            source@,
        ),
{
    let ghost before = issue_views(issues@);
    if holds {
        issues.push(Issue::warning(code, message.to_owned(), source));
        assert(issue_views(issues@) =~= before + seq![warning(code@, message@, source@)]);
    } else {
        assert(before + Seq::<IssueView>::empty() =~= before);
    }
}

/// A warning for each of these texts.
pub open spec fn warning_each(
    messages: Seq<Seq<char>>,
    code: Seq<char>,
    source: Seq<char>,
) -> Seq<IssueView> {
    messages.map_values(|message: Seq<char>| warning(code, message, source))
}

/// Adds a warning for each of these texts.
fn push_each(
    issues: &mut Vec<Issue>,
    messages: &Vec<String>,
    code: &'static str,
    source: &'static str,
)
    ensures
        issue_views(final(issues)@) == issue_views(old(issues)@) + warning_each(
            text::views(messages@),
            code@,
            source@,
        ),
{
    let ghost before = issue_views(issues@);
    let ghost all = warning_each(text::views(messages@), code@, source@);
    let mut i: usize = 0;
    assert(before + all.take(0) =~= before);
    while i < messages.len()
        invariant
            i <= messages@.len(),
            all == warning_each(text::views(messages@), code@, source@),
            issue_views(issues@) == before + all.take(i as int),
        decreases messages@.len() - i,
    {
        let ghost here = issue_views(issues@);
        let issue = Issue::warning(code, messages[i].clone(), source);
        let ghost said = issue@;
        issues.push(issue);
        proof {
            assert(text::views(messages@)[i as int] == messages@[i as int]@);
            assert(all[i as int] == said);
            assert(issue_views(issues@) =~= here.push(said));
            assert(here.push(said) =~= before + all.take(i + 1));
        }
        i += 1;
    }
    assert(all.take(all.len() as int) =~= all);
}

/// The issues of a scan that passed over so many lines.
pub open spec fn sync_issued(malformed: nat) -> Seq<IssueView> {
    warning_if(
        malformed > 0,
        "malformed_jsonl_lines"@,
        text::decimal(malformed) + " malformed local JSONL lines were skipped."@,
        "local_jsonl"@,
    )
}

/// The issues of a report on a calendar day.
pub open spec fn day_issued(local: Seq<Seq<char>>, official_usage_found: bool) -> Seq<IssueView> {
    warning_each(local, "local_usage_evidence_limit"@, "local_jsonl"@) + warning_if(
        !official_usage_found,
        "official_daily_usage_unavailable"@,
        "No official daily usage observation covers this date."@,
        "official_daily_usage"@,
    )
}

/// The issues of a status.
pub open spec fn status_issued(quota_found: bool, state: Seq<char>) -> Seq<IssueView> {
    warning_if(
        !quota_found,
        "official_quota_unavailable"@,
        "No official quota observation is available yet."@,
        "official_quota"@,
    ) + warning_if(
        state != "healthy"@,
        "collector_not_healthy"@,
        "The official quota collector is "@ + state + "."@,
        "collector_health"@,
    )
}

/// The issues of an export.
pub open spec fn export_issued(official_usage_empty: bool, local: Seq<Seq<char>>) -> Seq<
    IssueView,
> {
    warning_if(
        official_usage_empty,
        "official_usage_empty"@,
        "No official daily usage observations are available for the active account."@,
        "official_daily_usage"@,
    ) + warning_each(local, "local_usage_evidence_limit"@, "local_jsonl"@)
}

/// How much there is of an answer with so many issues.
pub open spec fn availability_with(issues: nat) -> Availability {
    if issues == 0 {
        Availability::Complete
    } else {
        Availability::Partial
    }
}

/// No issues.
fn no_issues() -> (issues: Vec<Issue>)
    ensures
        issue_views(issues@) == Seq::<IssueView>::empty(),
{
    let issues: Vec<Issue> = Vec::new();
    assert(issue_views(issues@) =~= Seq::<IssueView>::empty());
    issues
}

/// A warning for each of these texts.
pub fn warnings(messages: &Vec<String>, code: &'static str, source: &'static str) -> (issues: Vec<
    Issue,
>)
    ensures
        issue_views(issues@) == warning_each(text::views(messages@), code@, source@),
{
    let mut issues = no_issues();
    push_each(&mut issues, messages, code, source);
    assert(Seq::<IssueView>::empty() + warning_each(text::views(messages@), code@, source@)
        =~= warning_each(text::views(messages@), code@, source@));
    issues
}

/// The issues of a scan.
pub fn sync_issues(summary: &IngestSummary) -> (issues: Vec<Issue>)
    ensures
        issue_views(issues@) == warning_if(
            summary.malformed_lines > 0,
            "malformed_jsonl_lines"@,
            text::decimal(summary.malformed_lines as nat)
                + " malformed local JSONL lines were skipped."@,
            "local_jsonl"@,
        ),
        issue_views(issues@) == sync_issued(summary.malformed_lines as nat),
{
    let mut issues = no_issues();
    let mut message = decimal_text(summary.malformed_lines);
    message.append(" malformed local JSONL lines were skipped.");
    push_if(
        &mut issues,
        summary.malformed_lines > 0,
        "malformed_jsonl_lines",
        message.as_str(),
        "local_jsonl",
    );
    assert(issue_views(issues@) =~= warning_if(
        summary.malformed_lines > 0,
        "malformed_jsonl_lines"@,
        message@,
        "local_jsonl"@,
    ));
    issues
}

/// The issues of a report on a calendar day.
pub fn day_issues(local_warnings: &Vec<String>, official_usage_found: bool) -> (issues: Vec<Issue>)
    ensures
        issue_views(issues@) == warning_each(
            text::views(local_warnings@),
            "local_usage_evidence_limit"@,
            "local_jsonl"@,
        ) + warning_if(
            !official_usage_found,
            "official_daily_usage_unavailable"@,
            "No official daily usage observation covers this date."@,
            "official_daily_usage"@,
        ),
        issue_views(issues@) == day_issued(text::views(local_warnings@), official_usage_found),
{
    let mut issues = warnings(local_warnings, "local_usage_evidence_limit", "local_jsonl");
    push_if(
        &mut issues,
        !official_usage_found,
        "official_daily_usage_unavailable",
        "No official daily usage observation covers this date.",
        "official_daily_usage",
    );
    issues
}

/// The issues of a status.
pub fn status_issues(quota_found: bool, state: &str) -> (issues: Vec<Issue>)
    ensures
        issue_views(issues@) == warning_if(
            !quota_found,
            "official_quota_unavailable"@,
            "No official quota observation is available yet."@,
            "official_quota"@,
        ) + warning_if(
            state@ != "healthy"@,
            "collector_not_healthy"@,
            "The official quota collector is "@ + state@ + "."@,
            "collector_health"@,
        ),
        issue_views(issues@) == status_issued(quota_found, state@),
{
    let mut issues = no_issues();
    push_if(
        &mut issues,
        !quota_found,
        "official_quota_unavailable",
        "No official quota observation is available yet.",
        "official_quota",
    );
    let ghost first = issue_views(issues@);
    assert(first =~= warning_if(
        !quota_found,
        "official_quota_unavailable"@,
        "No official quota observation is available yet."@,
        "official_quota"@,
    ));
    let mut message = "The official quota collector is ".to_owned();
    message.append(state);
    message.append(".");
    push_if(
        &mut issues,
        !same_text(state, "healthy"),
        "collector_not_healthy",
        message.as_str(),
        "collector_health",
    );
    issues
}

/// The issues of a diagnosis.
pub open spec fn diagnosis(
    account_available: bool,
    state: Seq<char>,
    notified: bool,
    ingestion_failed: bool,
) -> Seq<IssueView> {
    warning_if(
        !account_available,
        "active_account_unavailable"@,
        "No verified active account partition is available."@,
        "account"@,
    ) + warning_if(
        state != "healthy"@,
        "collector_not_healthy"@,
        "The official collector is "@ + state + "."@,
        "collector_health"@,
    ) + warning_if(
        !notified,
        "notification_live_observation_pending"@,
        "No real account/rateLimits/updated notification has been recorded yet."@,
        "official_quota"@,
    ) + warning_if(
        ingestion_failed,
        "local_ingestion_error_present"@,
        "The local ledger has a recorded ingestion error; private detail is omitted."@,
        "local_jsonl"@,
    )
}

/// The issues of a diagnosis.
pub fn diagnose_issues(
    account_available: bool,
    state: &str,
    notifications_total: u64,
    ingestion_failed: bool,
) -> (issues: Vec<Issue>)
    ensures
        issue_views(issues@) == diagnosis(
            account_available,
            state@,
            notifications_total > 0,
            ingestion_failed,
        ),
{
    let mut issues = no_issues();
    push_if(
        &mut issues,
        !account_available,
        "active_account_unavailable",
        "No verified active account partition is available.",
        "account",
    );
    assert(issue_views(issues@) =~= warning_if(
        !account_available,
        "active_account_unavailable"@,
        "No verified active account partition is available."@,
        "account"@,
    ));
    let mut message = "The official collector is ".to_owned();
    message.append(state);
    message.append(".");
    push_if(
        &mut issues,
        !same_text(state, "healthy"),
        "collector_not_healthy",
        message.as_str(),
        "collector_health",
    );
    push_if(
        &mut issues,
        notifications_total == 0,
        "notification_live_observation_pending",
        "No real account/rateLimits/updated notification has been recorded yet.",
        "official_quota",
    );
    push_if(
        &mut issues,
        ingestion_failed,
        "local_ingestion_error_present",
        "The local ledger has a recorded ingestion error; private detail is omitted.",
        "local_jsonl",
    );
    issues
}

/// Whether a notification was seen, in a word.
pub fn notification_observation(notifications_total: u64) -> (word: &'static str)
    ensures
        word@ == if notifications_total > 0 {
            "observed"@
        } else {
            "pending"@
        },
{
    if notifications_total > 0 {
        "observed"
    } else {
        "pending"
    }
}

/// The issues of an export.
pub fn export_issues(official_usage_empty: bool, local_warnings: &Vec<String>) -> (issues: Vec<
    Issue,
>)
    ensures
        issue_views(issues@) == warning_if(
            official_usage_empty,
            "official_usage_empty"@,
            "No official daily usage observations are available for the active account."@,
            "official_daily_usage"@,
        ) + warning_each(
            text::views(local_warnings@),
            "local_usage_evidence_limit"@,
            "local_jsonl"@,
        ),
        issue_views(issues@) == export_issued(official_usage_empty, text::views(local_warnings@)),
{
    let mut issues = no_issues();
    push_if(
        &mut issues,
        official_usage_empty,
        "official_usage_empty",
        "No official daily usage observations are available for the active account.",
        "official_daily_usage",
    );
    assert(issue_views(issues@) =~= warning_if(
        official_usage_empty,
        "official_usage_empty"@,
        "No official daily usage observations are available for the active account."@,
        "official_daily_usage"@,
    ));
    push_each(&mut issues, local_warnings, "local_usage_evidence_limit", "local_jsonl");
    issues
}

/// The issues of a history.
pub fn history_issues(empty: bool) -> (issues: Vec<Issue>)
    ensures
        issue_views(issues@) == warning_if(
            empty,
            "quota_history_empty"@,
            "No official quota history is available for the active account."@,
            "official_quota"@,
        ),
{
    let mut issues = no_issues();
    push_if(
        &mut issues,
        empty,
        "quota_history_empty",
        "No official quota history is available for the active account.",
        "official_quota",
    );
    assert(issue_views(issues@) =~= warning_if(
        empty,
        "quota_history_empty"@,
        "No official quota history is available for the active account."@,
        "official_quota"@,
    ));
    issues
}

/// The issues of a list of windows.
pub fn windows_issues(empty: bool) -> (issues: Vec<Issue>)
    ensures
        issue_views(issues@) == warning_if(
            empty,
            "quota_windows_empty"@,
            "No reconstructed quota windows are available for the active account."@,
            "derived_quota_windows"@,
        ),
{
    let mut issues = no_issues();
    push_if(
        &mut issues,
        empty,
        "quota_windows_empty",
        "No reconstructed quota windows are available for the active account.",
        "derived_quota_windows",
    );
    assert(issue_views(issues@) =~= warning_if(
        empty,
        "quota_windows_empty"@,
        "No reconstructed quota windows are available for the active account."@,
        "derived_quota_windows"@,
    ));
    issues
}

/// A failed query is answered by the sort of its error: a missing quota, a missing account, or
/// anything else.
pub proof fn failed_queries_say_what_is_missing(error: Seq<char>)
    ensures
        ({
            let no_quota = text::occurs(error, "no quota snapshot"@) || text::occurs(
                error,
                "no App Server quota snapshot"@,
            );
            let no_account = text::occurs(error, "account identity is not confirmed"@)
                || text::occurs(error, "no active account partition"@);
            &&& no_quota ==> unavailable_text(error)
                == "Required official quota evidence is unavailable."@
            &&& !no_quota && no_account ==> unavailable_text(error)
                == "No verified active account partition is available."@
            &&& !no_quota && !no_account ==> unavailable_text(error)
                == "The query could not be completed. Run diagnose for local health details."@
        }),
{
}

/// Evidence is either direct and independent, or derived and marked as no official accounting: no
/// answer passes off the one as the other.
pub proof fn evidence_is_direct_or_marked_as_derived(command: Seq<char>, i: int)
    requires
        0 <= i < sources_of(command).len(),
    ensures
        ({
            let (_, confidence, relationship) = sources_of(command)[i];
            ||| confidence == "direct"@ && relationship == "independent-evidence-source"@
            ||| confidence != "direct"@ && relationship == "derived-not-official-accounting"@
        }),
{
    reveal_strlit("direct");
    reveal_strlit("bounded");
    reveal_strlit("limited");
    reveal_strlit("user-supplied");
    assert("direct"@.len() == 6 && "bounded"@.len() == 7 && "limited"@.len() == 7
        && "user-supplied"@.len() == 13);
}

/// A diagnosis has an issue for each thing that is wrong and for nothing else, in the order in which
/// they are listed.
pub proof fn a_diagnosis_lists_what_is_wrong(
    account_available: bool,
    state: Seq<char>,
    notified: bool,
    ingestion_failed: bool,
)
    ensures
        ({
            let issues = diagnosis(account_available, state, notified, ingestion_failed);
            &&& issues.len() == (if account_available { 0int } else { 1 }) + (if state
                == "healthy"@ { 0int } else { 1 }) + (if notified { 0int } else { 1 }) + (
            if ingestion_failed { 1int } else { 0 })
            &&& !account_available ==> issues[0].code == "active_account_unavailable"@
            &&& account_available && state != "healthy"@ ==> issues[0].code
                == "collector_not_healthy"@
            &&& ingestion_failed ==> issues.last().code == "local_ingestion_error_present"@
            &&& !ingestion_failed && !notified ==> issues.last().code
                == "notification_live_observation_pending"@
            &&& forall|i: int|
                0 <= i < issues.len() ==> (#[trigger] issues[i]).severity == "warning"@
        }),
{
}

/// Which evidence an answer names: the official quota where it shows percentages of it, the local logs
/// where it shows their tokens, and the official daily usage where it shows days of it.
pub proof fn answers_name_the_evidence_that_they_show(command: Seq<char>)
    ensures
        command == "status"@ || command == "history"@ || command == "estimate"@ || command
            == "reconcile"@ || command == "capacity"@ || command == "export"@ ==> sources_of(
            command,
        )[0] == direct("official_quota"@),
        command == "status"@ || command == "estimate"@ || command == "reconcile"@ || command
            == "day"@ || command == "capacity"@ ==> sources_of(command)[1] == direct(
            "local_jsonl"@,
        ),
        command == "sync"@ ==> sources_of(command) == seq![direct("local_jsonl"@)],
        command == "day"@ ==> sources_of(command)[0] == direct("official_daily_usage"@),
        command == "export"@ ==> sources_of(command)[1] == direct("official_daily_usage"@)
            && sources_of(command)[2] == direct("local_jsonl"@),
        command == "estimate"@ || command == "reconcile"@ || command == "capacity"@ ==> sources_of(
            command,
        ).len() == 3 && sources_of(command)[2].2 == "derived-not-official-accounting"@,
        command == "windows"@ ==> sources_of(command).len() == 1 && sources_of(command)[0].2
            == "derived-not-official-accounting"@,
        direct("local_jsonl"@) == ("local_jsonl"@, "direct"@, "independent-evidence-source"@),
{
    words_of_commands_differ();
}

/// The words of the commands are all different.
proof fn words_of_commands_differ()
    ensures
        "status"@.len() == 6,
        "history"@.len() == 7,
        "windows"@.len() == 7,
        "sync"@.len() == 4,
        "estimate"@.len() == 8,
        "reconcile"@.len() == 9,
        "day"@.len() == 3,
        "capacity"@.len() == 8,
        "diagnose"@.len() == 8,
        "export"@.len() == 6,
        "status"@[0] == 's',
        "export"@[0] == 'e',
        "history"@[0] == 'h',
        "windows"@[0] == 'w',
        "estimate"@[0] == 'e',
        "capacity"@[0] == 'c',
        "diagnose"@[0] == 'd',
{
    reveal_strlit("status");
    reveal_strlit("history");
    reveal_strlit("windows");
    reveal_strlit("sync");
    reveal_strlit("estimate");
    reveal_strlit("reconcile");
    reveal_strlit("day");
    reveal_strlit("capacity");
    reveal_strlit("diagnose");
    reveal_strlit("export");
}

/// An answer is complete exactly where nothing is missing from it: a status where a quota was observed
/// and the collector is healthy, a report on a day where the local one warns of nothing and there is
/// official usage, an export where there is official usage and no warning, and a scan where it passed
/// over no line.
pub proof fn answers_are_complete_where_nothing_is_missing(
    quota_found: bool,
    state: Seq<char>,
    local: Seq<Seq<char>>,
    usage_found: bool,
    malformed: nat,
)
    ensures
        availability_with(status_issued(quota_found, state).len()) == Availability::Complete <==> (
        quota_found && state == "healthy"@),
        availability_with(day_issued(local, usage_found).len()) == Availability::Complete <==> (
        local.len() == 0 && usage_found),
        availability_with(export_issued(!usage_found, local).len()) == Availability::Complete <==> (
        local.len() == 0 && usage_found),
        availability_with(sync_issued(malformed).len()) == Availability::Complete <==> malformed
            == 0,
{
}

/// Every warning of a local report is an issue of the answers that show it, word for word and in its
/// place.
pub proof fn local_warnings_are_passed_on(local: Seq<Seq<char>>, usage_found: bool, i: int)
    requires
        0 <= i < local.len(),
    ensures
        day_issued(local, usage_found)[i].message == local[i],
        export_issued(!usage_found, local)[i + (if usage_found { 0int } else { 1 })].message
            == local[i],
        warning_each(local, "code"@, "source"@).len() == local.len(),
{
}

/// What an issue says and where it comes from: a missing quota comes from the quota, an unhealthy
/// collector names its state, and lines that were passed over are counted.
pub proof fn issues_say_what_is_wrong(state: Seq<char>, malformed: nat)
    ensures
        status_issued(false, state)[0].code == "official_quota_unavailable"@,
        status_issued(false, state)[0].source == Some("official_quota"@),
        state != "healthy"@ ==> ({
            let issue = status_issued(true, state)[0];
            &&& issue.code == "collector_not_healthy"@
            &&& text::has_prefix(issue.message, "The official quota collector is "@ + state)
        }),
        malformed > 0 ==> text::has_prefix(sync_issued(malformed)[0].message, text::decimal(malformed))
            && sync_issued(malformed)[0].severity == "warning"@,
{
    let head = "The official quota collector is "@ + state;
    assert((head + "."@).subrange(0, head.len() as int) =~= head);
    let count = text::decimal(malformed);
    assert((count + " malformed local JSONL lines were skipped."@).subrange(0, count.len() as int)
        =~= count);
}

} // verus!
