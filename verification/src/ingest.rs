//! Reading session logs: how each line changes what is known of its file, and which token reports
//! it adds to the ledger.
use vstd::prelude::*;

use crate::clock;
use crate::clock::timestamp_ms;
use crate::json;
use crate::json::Document;
use crate::json::Json;
use crate::json::JsonView;
use crate::ledger::TokenEvent;
use crate::ledger::TokenEventView;
use crate::text;
use crate::text::copy_optional_text;
use crate::text::ends_with_text;
use crate::text::is_text;
use crate::text::own_optional_text;
use crate::text::same_text;
use crate::text::trim;
use crate::usage;
use crate::usage::token_usage;
use crate::usage::TokenUsage;

verus! {

/// The token reports after which a batch ends.
pub const INGEST_BATCH_EVENT_LIMIT: u64 = 256;

/// The bytes after which a batch ends.
pub const INGEST_BATCH_BYTE_LIMIT: u64 = 4_194_304;

/// How far a session log has been read, and what the lines so far say about the next ones.
#[derive(Debug)]
pub struct Checkpoint {
    pub offset: u64,
    pub file_len: u64,
    pub session_id: String,
    pub owner_session_id: String,
    pub model: String,
    pub service_tier: Option<String>,
    pub previous_total: Option<TokenUsage>,
    pub pending_usage_at_ms: Option<i64>,
}

/// What a checkpoint says.
#[verifier::ext_equal]
pub struct CheckpointView {
    pub offset: u64,
    pub file_len: u64,
    pub session_id: Seq<char>,
    pub owner_session_id: Seq<char>,
    pub model: Seq<char>,
    pub service_tier: Option<Seq<char>>,
    pub previous_total: Option<TokenUsage>,
    pub pending_usage_at_ms: Option<i64>,
}

impl View for Checkpoint {
    type V = CheckpointView;

    open spec fn view(&self) -> CheckpointView {
        CheckpointView {
            offset: self.offset,
            file_len: self.file_len,
            session_id: self.session_id@,
            owner_session_id: self.owner_session_id@,
            model: self.model@,
            service_tier: text::opt_view(self.service_tier),
            previous_total: self.previous_total,
            pending_usage_at_ms: self.pending_usage_at_ms,
        }
    }
}

impl CheckpointView {
    /// The checkpoint of a file that nothing has been read of.
    pub open spec fn start() -> CheckpointView {
        CheckpointView {
            offset: 0,
            file_len: 0,
            session_id: Seq::empty(),
            owner_session_id: Seq::empty(),
            model: Seq::empty(),
            service_tier: None,
            previous_total: None,
            pending_usage_at_ms: None,
        }
    }

    /// The checkpoint that reading a file of this length goes on from: nothing where the file was
    /// read to its end and has the length it had, and the start where it has become shorter than
    /// what was read of it.
    pub open spec fn resumed(self, file_len: u64) -> Option<CheckpointView> {
        if file_len == self.file_len && self.offset == self.file_len {
            None
        } else if file_len < self.offset {
            Some(CheckpointView::start())
        } else {
            Some(self)
        }
    }
}

impl Default for Checkpoint {
    fn default() -> (checkpoint: Checkpoint)
        ensures
            checkpoint@ == CheckpointView::start(),
    {
        Checkpoint {
            offset: 0,
            file_len: 0,
            session_id: String::new(),
            owner_session_id: String::new(),
            model: String::new(),
            service_tier: None,
            previous_total: None,
            pending_usage_at_ms: None,
        }
    }
}

/// An optional checkpoint.
pub open spec fn opt_checkpoint(checkpoint: Option<Checkpoint>) -> Option<CheckpointView> {
    match checkpoint {
        Some(checkpoint) => Some(checkpoint@),
        None => None,
    }
}

impl Checkpoint {
    /// The checkpoint that reading a file of this length goes on from; nothing where there is
    /// nothing to read.
    pub fn resume(self, file_len: u64) -> (start: Option<Checkpoint>)
        ensures
            opt_checkpoint(start) == self@.resumed(file_len),
    {
        if file_len == self.file_len && self.offset == self.file_len {
            None
        } else if file_len < self.offset {
            Some(Checkpoint::default())
        } else {
            Some(self)
        }
    }

    /// The previous total that its five stored counters denote: there is one where the input
    /// counter is there, and the other counters are zero where they are not.
    pub fn stored_total(
        input: Option<u64>,
        cached_input: Option<u64>,
        cache_write_input: Option<u64>,
        output: Option<u64>,
        reasoning_output: Option<u64>,
    ) -> (total: Option<TokenUsage>)
        ensures
            total == match input {
                Some(input) => Some(
                    TokenUsage {
                        input,
                        cached_input: usage::or_zero(cached_input),
                        cache_write_input: usage::or_zero(cache_write_input),
                        output: usage::or_zero(output),
                        reasoning_output: usage::or_zero(reasoning_output),
                    },
                ),
                None => None,
            },
    {
        match input {
            Some(input) => Some(
                TokenUsage {
                    input,
                    cached_input: cached_input.unwrap_or(0),
                    cache_write_input: cache_write_input.unwrap_or(0),
                    output: output.unwrap_or(0),
                    reasoning_output: reasoning_output.unwrap_or(0),
                },
            ),
            None => None,
        }
    }
}

/// Whose log is read, from where and when.
#[derive(Debug)]
pub struct Source {
    pub account_key: String,
    pub path: String,
    pub scanned_at_ms: i64,
}

/// What a source says.
#[verifier::ext_equal]
pub struct SourceView {
    pub account_key: Seq<char>,
    pub path: Seq<char>,
    pub scanned_at_ms: i64,
}

impl View for Source {
    type V = SourceView;

    open spec fn view(&self) -> SourceView {
        SourceView {
            account_key: self.account_key@,
            path: self.path@,
            scanned_at_ms: self.scanned_at_ms,
        }
    }
}

/// What a line amounts to.
#[derive(Debug)]
pub enum LineEffect {
    /// It holds no JSON document.
    Malformed,
    /// It changes at most what is known of the file.
    Absorbed,
    /// It reports tokens, but none that are new.
    Repeated,
    /// It reports new tokens at no time.
    Undated,
    /// It reports new tokens.
    Reported(TokenEvent),
}

/// What a line amounts to.
#[verifier::ext_equal]
pub enum EffectView {
    Malformed,
    Absorbed,
    Repeated,
    Undated,
    Reported(TokenEventView),
}

impl View for LineEffect {
    type V = EffectView;

    open spec fn view(&self) -> EffectView {
        match self {
            LineEffect::Malformed => EffectView::Malformed,
            LineEffect::Absorbed => EffectView::Absorbed,
            LineEffect::Repeated => EffectView::Repeated,
            LineEffect::Undated => EffectView::Undated,
            LineEffect::Reported(event) => EffectView::Reported(event@),
        }
    }
}

/// Whether a record is a response of the model: its reasoning, a message of the assistant, or a
/// call that it makes.
pub open spec fn is_model_response(record: JsonView) -> bool {
    let payload = record.member("payload"@);
    &&& record.text_member("type"@) == Some("response_item"@)
    &&& match json::found_text(json::found_member(payload, "type"@)) {
        Some(kind) => if kind == "reasoning"@ {
            true
        } else if kind == "message"@ {
            json::found_text(json::found_member(payload, "role"@)) == Some("assistant"@)
        } else {
            text::has_suffix(kind, "_call"@)
        },
        None => false,
    }
}

/// The time of a response of the model.
pub open spec fn response_time(record: JsonView, at: Option<i64>) -> Option<i64> {
    if is_model_response(record) {
        at
    } else {
        None
    }
}

/// The session that a session's first record names.
pub open spec fn named_session(payload: Option<JsonView>) -> Option<Seq<char>> {
    match json::found_text(json::found_member(payload, "id"@)) {
        Some(id) => Some(id),
        None => json::found_text(json::found_member(payload, "session_id"@)),
    }
}

/// A session begins: the first one owns the file, and a change of session forgets what the
/// previous one left behind.
pub open spec fn after_session(state: CheckpointView, payload: Option<JsonView>) -> CheckpointView {
    match named_session(payload) {
        Some(id) => {
            let owner = if state.owner_session_id.len() == 0 {
                id
            } else {
                state.owner_session_id
            };
            if state.session_id == id {
                CheckpointView { owner_session_id: owner, ..state }
            } else {
                CheckpointView {
                    owner_session_id: owner,
                    session_id: id,
                    service_tier: json::found_text(json::found_member(payload, "service_tier"@)),
                    previous_total: None,
                    pending_usage_at_ms: None,
                    ..state
                }
            }
        },
        None => state,
    }
}

/// New settings: the model that they name, and the service tier where they mention one.
pub open spec fn after_settings(state: CheckpointView, settings: Option<JsonView>) -> CheckpointView {
    CheckpointView {
        model: match json::found_text(json::found_member(settings, "model"@)) {
            Some(model) => model,
            None => state.model,
        },
        service_tier: match json::found_member(settings, "service_tier"@) {
            Some(tier) => tier.text(),
            None => state.service_tier,
        },
        ..state
    }
}

/// The event of a token report that adds `usage` to the running `total`.
pub open spec fn reported_event(
    state: CheckpointView,
    payload: JsonView,
    reported_at_ms: i64,
    usage: TokenUsage,
    total: TokenUsage,
    source: SourceView,
) -> TokenEventView {
    let session_id = if state.session_id.len() == 0 {
        source.path
    } else {
        state.session_id
    };
    TokenEventView {
        account_key: source.account_key,
        session_id,
        usage_at_ms: match state.pending_usage_at_ms {
            Some(at) => at,
            None => reported_at_ms,
        },
        reported_at_ms,
        model: match payload.text_member("model"@) {
            Some(model) => model,
            None => if state.model.len() == 0 {
                "unknown"@
            } else {
                state.model
            },
        },
        limit_id: json::found_text(
            json::found_member(payload.member("rate_limits"@), "limit_id"@),
        ),
        service_tier: state.service_tier,
        usage,
        total,
        source_path: source.path,
        provenance: if state.owner_session_id.len() != 0 && state.owner_session_id != session_id {
            "legacy_replay"@
        } else {
            "native"@
        },
        ingested_at_ms: source.scanned_at_ms,
    }
}

/// A token report: one that adds nothing leaves everything as it is; else its total is the one
/// that the next report is held against, and where it has a time, the time of the last response
/// is used up.
pub open spec fn after_token_report(
    state: CheckpointView,
    payload: JsonView,
    at: Option<i64>,
    source: SourceView,
) -> (CheckpointView, EffectView) {
    match usage::reported_usage(payload, state.previous_total) {
        Some((usage, total)) => match at {
            Some(at) => (
                CheckpointView {
                    previous_total: Some(total),
                    pending_usage_at_ms: None,
                    ..state
                },
                EffectView::Reported(reported_event(state, payload, at, usage, total, source)),
            ),
            None => (
                CheckpointView { previous_total: Some(total), ..state },
                EffectView::Undated,
            ),
        },
        None => (state, EffectView::Repeated),
    }
}

/// What a record does, where `at` is the time that it carries.
pub open spec fn after_record(
    state: CheckpointView,
    record: JsonView,
    at: Option<i64>,
    source: SourceView,
) -> (CheckpointView, EffectView) {
    let kind = record.text_member("type"@);
    let payload = record.member("payload"@);
    if kind == Some("session_meta"@) {
        (after_session(state, payload), EffectView::Absorbed)
    } else if kind == Some("turn_context"@) {
        (after_settings(state, payload), EffectView::Absorbed)
    } else if response_time(record, at) is Some {
        (
            CheckpointView { pending_usage_at_ms: response_time(record, at), ..state },
            EffectView::Absorbed,
        )
    } else if kind != Some("event_msg"@) {
        (state, EffectView::Absorbed)
    } else {
        match payload {
            Some(payload) => if payload.text_member("type"@) == Some(
                "thread_settings_applied"@,
            ) {
                (
                    after_settings(state, payload.member("thread_settings"@)),
                    EffectView::Absorbed,
                )
            } else if payload.text_member("type"@) == Some("token_count"@) {
                after_token_report(state, payload, at, source)
            } else {
                (state, EffectView::Absorbed)
            },
            None => (state, EffectView::Absorbed),
        }
    }
}

/// A counter after adding to it; the largest one where the sum lies beyond.
pub open spec fn capped_sum(counter: u64, more: int) -> u64 {
    if counter + more <= u64::MAX {
        (counter + more) as u64
    } else {
        u64::MAX
    }
}

/// The record that a line holds: the JSON document in its text without the white space around
/// it.
pub open spec fn line_record(line: Seq<u8>) -> Option<JsonView> {
    if vstd::utf8::valid_utf8(line) {
        match json::json_parsed(text::trimmed(vstd::utf8::decode_utf8(line))) {
            Ok(record) => Some(record),
            Err(_) => None,
        }
    } else {
        None
    }
}

/// What a whole line does.
pub open spec fn after_line(state: CheckpointView, line: Seq<u8>, source: SourceView) -> (
    CheckpointView,
    EffectView,
) {
    let moved = CheckpointView {
        offset: capped_sum(state.offset, line.len() as int),
        ..state
    };
    match line_record(line) {
        Some(record) => after_record(moved, record, clock::record_time(record), source),
        None => (moved, EffectView::Malformed),
    }
}

/// `std::str::from_utf8`: the text that the bytes encode, or nothing where they are not UTF-8.
#[verifier::external_body]
fn text_of_bytes(bytes: &[u8]) -> (text: Option<&str>)
    ensures
        match text {
            Some(text) => vstd::utf8::valid_utf8(bytes@) && text@ == vstd::utf8::decode_utf8(
                bytes@,
            ),
            None => !vstd::utf8::valid_utf8(bytes@),
        },
{
    std::str::from_utf8(bytes).ok()
}

/// The time of a response of the model, where `at` is the time that the record carries.
pub fn model_response_at_ms(record: &Json, at: Option<i64>) -> (time: Option<i64>)
    ensures
        time == response_time(record@, at),
{
    if !is_text(record.get_str("type"), "response_item") {
        return None;
    }
    let payload = match record.get("payload") {
        Some(payload) => payload,
        None => {
            return None;
        },
    };
    let kind = match payload.get_str("type") {
        Some(kind) => kind,
        None => {
            return None;
        },
    };
    let generated = if same_text(kind, "reasoning") {
        true
    } else if same_text(kind, "message") {
        is_text(payload.get_str("role"), "assistant")
    } else {
        ends_with_text(kind, "_call")
    };
    if generated {
        at
    } else {
        None
    }
}

/// A session begins.
fn begin_session(state: &mut Checkpoint, payload: Option<&Json>)
    ensures
        final(state)@ == after_session(old(state)@, json::opt_json(payload)),
{
    let payload = match payload {
        Some(payload) => payload,
        None => {
            return;
        },
    };
    let named = match payload.get_str("id") {
        Some(id) => Some(id),
        None => payload.get_str("session_id"),
    };
    if let Some(id) = named {
        if state.owner_session_id.as_str().unicode_len() == 0 {
            state.owner_session_id = id.to_owned();
        }
        if !same_text(state.session_id.as_str(), id) {
            state.session_id = id.to_owned();
            state.service_tier = own_optional_text(payload.get_str("service_tier"));
            state.previous_total = None;
            state.pending_usage_at_ms = None;
        }
    }
}

/// New settings hold.
fn apply_settings(state: &mut Checkpoint, settings: Option<&Json>)
    ensures
        final(state)@ == after_settings(old(state)@, json::opt_json(settings)),
{
    if let Some(settings) = settings {
        if let Some(model) = settings.get_str("model") {
            state.model = model.to_owned();
        }
        if let Some(tier) = settings.get("service_tier") {
            state.service_tier = own_optional_text(tier.as_str());
        }
    }
}

/// The event of a token report that adds `usage` to the running `total`.
fn event_of_report(
    state: &Checkpoint,
    payload: &Json,
    reported_at_ms: i64,
    usage: TokenUsage,
    total: TokenUsage,
    source: &Source,
) -> (event: TokenEvent)
    ensures
        event@ == reported_event(state@, payload@, reported_at_ms, usage, total, source@),
{
    let session_id = if state.session_id.as_str().unicode_len() == 0 {
        source.path.clone()
    } else {
        state.session_id.clone()
    };
    let model = match payload.get_str("model") {
        Some(model) => model.to_owned(),
        None => if state.model.as_str().unicode_len() == 0 {
            "unknown".to_owned()
        } else {
            state.model.clone()
        },
    };
    let limit_id = match payload.get("rate_limits") {
        Some(limits) => own_optional_text(limits.get_str("limit_id")),
        None => None,
    };
    let replayed = state.owner_session_id.as_str().unicode_len() != 0 && !same_text(
        state.owner_session_id.as_str(),
        session_id.as_str(),
    );
    TokenEvent {
        account_key: source.account_key.clone(),
        session_id,
        usage_at_ms: match state.pending_usage_at_ms {
            Some(at) => at,
            None => reported_at_ms,
        },
        reported_at_ms,
        model,
        limit_id,
        service_tier: copy_optional_text(&state.service_tier),
        usage,
        total,
        source_path: source.path.clone(),
        provenance: if replayed {
            "legacy_replay".to_owned()
        } else {
            "native".to_owned()
        },
        ingested_at_ms: source.scanned_at_ms,
    }
}

/// Applies a record to a checkpoint, where `at` is the time that the record carries.
pub fn apply_record(
    state: &mut Checkpoint,
    record: &Json,
    at: Option<i64>,
    source: &Source,
) -> (effect: LineEffect)
    ensures
        (final(state)@, effect@) == after_record(old(state)@, record@, at, source@),
{
    let kind = record.get_str("type");
    if is_text(kind, "session_meta") {
        begin_session(state, record.get("payload"));
        return LineEffect::Absorbed;
    }
    if is_text(kind, "turn_context") {
        apply_settings(state, record.get("payload"));
        return LineEffect::Absorbed;
    }
    if let Some(time) = model_response_at_ms(record, at) {
        state.pending_usage_at_ms = Some(time);
        return LineEffect::Absorbed;
    }
    if !is_text(kind, "event_msg") {
        return LineEffect::Absorbed;
    }
    let payload = match record.get("payload") {
        Some(payload) => payload,
        None => {
            return LineEffect::Absorbed;
        },
    };
    let message = payload.get_str("type");
    if is_text(message, "thread_settings_applied") {
        apply_settings(state, payload.get("thread_settings"));
        return LineEffect::Absorbed;
    }
    if !is_text(message, "token_count") {
        return LineEffect::Absorbed;
    }
    match token_usage(payload, state.previous_total) {
        Some((usage, total)) => match at {
            Some(at) => {
                let event = event_of_report(state, payload, at, usage, total, source);
                state.previous_total = Some(total);
                state.pending_usage_at_ms = None;
                LineEffect::Reported(event)
            },
            None => {
                state.previous_total = Some(total);
                LineEffect::Undated
            },
        },
        None => LineEffect::Repeated,
    }
}

/// The record that a line holds.
fn record_of_line(line: &[u8]) -> (record: Option<Document>)
    ensures
        match record {
            Some(record) => line_record(line@) == Some(record@),
            None => line_record(line@) is None,
        },
{
    match text_of_bytes(line) {
        Some(text) => match Document::parse(trim(text)) {
            Ok(document) => Some(document),
            Err(_) => None,
        },
        None => None,
    }
}

/// Applies a whole line to a checkpoint.
pub fn apply_line(state: &mut Checkpoint, line: &[u8], source: &Source) -> (effect: LineEffect)
    ensures
        (final(state)@, effect@) == after_line(old(state)@, line@, source@),
{
    state.offset = state.offset.saturating_add(line.len() as u64);
    match record_of_line(line) {
        Some(document) => {
            let record = document.json();
            let at = timestamp_ms(record);
            apply_record(state, record, at, source)
        },
        None => LineEffect::Malformed,
    }
}

/// The counters of a batch.
#[derive(Clone, Copy, Debug, PartialEq, Eq, Structural)]
pub struct BatchCounts {
    pub inserted: u64,
    pub duplicates: u64,
    pub malformed: u64,
    pub last_event_at: Option<i64>,
    pub processed_bytes: u64,
    pub processed_events: u64,
}

/// The later of two times, of which the first may be missing.
pub open spec fn latest(known: Option<i64>, time: i64) -> Option<i64> {
    match known {
        Some(known) => if known >= time {
            Some(known)
        } else {
            Some(time)
        },
        None => Some(time),
    }
}

/// The later of two times, of which the first may be missing.
fn later(known: Option<i64>, time: i64) -> (latest: Option<i64>)
    ensures
        latest == self::latest(known, time),
{
    match known {
        Some(known) => if known >= time {
            Some(known)
        } else {
            Some(time)
        },
        None => Some(time),
    }
}

impl BatchCounts {
    /// Nothing counted yet.
    pub open spec fn zero() -> BatchCounts {
        BatchCounts {
            inserted: 0,
            duplicates: 0,
            malformed: 0,
            last_event_at: None,
            processed_bytes: 0,
            processed_events: 0,
        }
    }

    /// The counters after a line of `bytes` bytes. Whether a report was new to the ledger is
    /// counted when the ledger has answered.
    pub open spec fn after(self, effect: EffectView, bytes: nat) -> BatchCounts {
        BatchCounts {
            inserted: self.inserted,
            duplicates: match effect {
                EffectView::Repeated => capped_sum(self.duplicates, 1),
                _ => self.duplicates,
            },
            malformed: match effect {
                EffectView::Malformed | EffectView::Undated => capped_sum(self.malformed, 1),
                _ => self.malformed,
            },
            last_event_at: self.last_event_at,
            processed_bytes: capped_sum(self.processed_bytes, bytes as int),
            processed_events: match effect {
                EffectView::Malformed | EffectView::Absorbed => self.processed_events,
                _ => capped_sum(self.processed_events, 1),
            },
        }
    }

    /// The counters after the ledger has answered whether a report changed it.
    pub open spec fn after_storing(self, reported_at_ms: i64, changed: bool) -> BatchCounts {
        if changed {
            BatchCounts {
                inserted: capped_sum(self.inserted, 1),
                last_event_at: latest(self.last_event_at, reported_at_ms),
                ..self
            }
        } else {
            BatchCounts { duplicates: capped_sum(self.duplicates, 1), ..self }
        }
    }
}

/// What reading one batch of a file came to.
#[derive(Clone, Copy, Debug, PartialEq, Eq, Structural)]
pub struct IngestBatch {
    pub changed: bool,
    pub events_inserted: u64,
    pub duplicates: u64,
    pub malformed: u64,
    pub last_event_at: Option<i64>,
    pub more_available: bool,
}

impl IngestBatch {
    /// The outcome for a file that has nothing to read.
    pub fn unchanged() -> (batch: IngestBatch)
        ensures
            batch == (IngestBatch {
                changed: false,
                events_inserted: 0,
                duplicates: 0,
                malformed: 0,
                last_event_at: None,
                more_available: false,
            }),
    {
        IngestBatch {
            changed: false,
            events_inserted: 0,
            duplicates: 0,
            malformed: 0,
            last_event_at: None,
            more_available: false,
        }
    }
}

/// A batch of lines being read from a file.
#[derive(Debug)]
pub struct Batch {
    pub checkpoint: Checkpoint,
    pub source: Source,
    pub max_events: u64,
    pub max_bytes: u64,
    pub counts: BatchCounts,
    pub partial_tail: bool,
}

/// What is to be done after a line: store the event where there is one, and read on or stop.
#[derive(Debug)]
pub struct LineStep {
    pub event: Option<TokenEvent>,
    pub more: bool,
}

/// Whether a batch with these counters goes on: a limit of zero counts as one.
pub open spec fn within_limits(counts: BatchCounts, max_events: u64, max_bytes: u64) -> bool {
    let events = if max_events >= 1 {
        max_events
    } else {
        1
    };
    let bytes = if max_bytes >= 1 {
        max_bytes
    } else {
        1
    };
    counts.processed_bytes < bytes && counts.processed_events < events
}

/// Whether what was read of a file is a whole line.
pub open spec fn is_whole_line(line: Seq<u8>) -> bool {
    line.len() > 0 && line.last() == 10
}

/// The event that a line reports.
pub open spec fn effect_event(effect: EffectView) -> Option<TokenEventView> {
    match effect {
        EffectView::Reported(event) => Some(event),
        _ => None,
    }
}

/// An optional event.
pub open spec fn opt_event(event: Option<TokenEvent>) -> Option<TokenEventView> {
    match event {
        Some(event) => Some(event@),
        None => None,
    }
}

impl Batch {
    /// Begins a batch.
    pub fn start(
        checkpoint: Checkpoint,
        source: Source,
        max_events: u64,
        max_bytes: u64,
    ) -> (batch: Batch)
        ensures
            batch.checkpoint@ == checkpoint@,
            batch.source@ == source@,
            batch.max_events == max_events,
            batch.max_bytes == max_bytes,
            batch.counts == BatchCounts::zero(),
            !batch.partial_tail,
    {
        Batch {
            checkpoint,
            source,
            max_events,
            max_bytes,
            counts: BatchCounts {
                inserted: 0,
                duplicates: 0,
                malformed: 0,
                last_event_at: None,
                processed_bytes: 0,
                processed_events: 0,
            },
            partial_tail: false,
        }
    }

    /// Takes what was read up to the next line feed. At the end of the file that is nothing, or a
    /// line that is still being written: it stays unread.
    pub fn feed(&mut self, line: &[u8]) -> (step: LineStep)
        ensures
            final(self).source@ == old(self).source@,
            final(self).max_events == old(self).max_events,
            final(self).max_bytes == old(self).max_bytes,
            is_whole_line(line@) ==> {
                let (state, effect) = after_line(old(self).checkpoint@, line@, old(self).source@);
                &&& final(self).checkpoint@ == state
                &&& final(self).counts == old(self).counts.after(effect, line@.len())
                &&& final(self).partial_tail == old(self).partial_tail
                &&& opt_event(step.event) == effect_event(effect)
                &&& step.more == within_limits(
                    final(self).counts,
                    old(self).max_events,
                    old(self).max_bytes,
                )
            },
            !is_whole_line(line@) ==> {
                &&& final(self).checkpoint@ == old(self).checkpoint@
                &&& final(self).counts == old(self).counts
                &&& final(self).partial_tail == (old(self).partial_tail || line@.len() > 0)
                &&& step.event is None
                &&& !step.more
            },
    {
        if line.len() == 0 {
            return LineStep { event: None, more: false };
        }
        if line[line.len() - 1] != 10 {
            self.partial_tail = true;
            return LineStep { event: None, more: false };
        }
        let effect = apply_line(&mut self.checkpoint, line, &self.source);
        self.counts.processed_bytes = self.counts.processed_bytes.saturating_add(
            line.len() as u64,
        );
        let event = match effect {
            LineEffect::Malformed => {
                self.counts.malformed = self.counts.malformed.saturating_add(1);
                None
            },
            LineEffect::Absorbed => None,
            LineEffect::Repeated => {
                self.counts.processed_events = self.counts.processed_events.saturating_add(1);
                self.counts.duplicates = self.counts.duplicates.saturating_add(1);
                None
            },
            LineEffect::Undated => {
                self.counts.processed_events = self.counts.processed_events.saturating_add(1);
                self.counts.malformed = self.counts.malformed.saturating_add(1);
                None
            },
            LineEffect::Reported(event) => {
                self.counts.processed_events = self.counts.processed_events.saturating_add(1);
                Some(event)
            },
        };
        let events = if self.max_events >= 1 {
            self.max_events
        } else {
            1
        };
        let bytes = if self.max_bytes >= 1 {
            self.max_bytes
        } else {
            1
        };
        LineStep {
            event,
            more: self.counts.processed_bytes < bytes && self.counts.processed_events < events,
        }
    }

    /// Counts the ledger's answer to an event: whether storing it changed the ledger.
    pub fn stored(&mut self, reported_at_ms: i64, changed: bool)
        ensures
            final(self).checkpoint@ == old(self).checkpoint@,
            final(self).source@ == old(self).source@,
            final(self).max_events == old(self).max_events,
            final(self).max_bytes == old(self).max_bytes,
            final(self).partial_tail == old(self).partial_tail,
            final(self).counts == old(self).counts.after_storing(reported_at_ms, changed),
    {
        if changed {
            self.counts.inserted = self.counts.inserted.saturating_add(1);
            self.counts.last_event_at = later(self.counts.last_event_at, reported_at_ms);
        } else {
            self.counts.duplicates = self.counts.duplicates.saturating_add(1);
        }
    }

    /// Ends the batch on a file of this length. There is more to read where the checkpoint lies
    /// before the end and the batch did not stop at an unfinished line.
    pub fn finish(self, file_len: u64) -> (outcome: (Checkpoint, IngestBatch))
        ensures
            outcome.0@ == (CheckpointView { file_len, ..self.checkpoint@ }),
            outcome.1 == (IngestBatch {
                changed: true,
                events_inserted: self.counts.inserted,
                duplicates: self.counts.duplicates,
                malformed: self.counts.malformed,
                last_event_at: self.counts.last_event_at,
                more_available: !self.partial_tail && self.checkpoint@.offset < file_len,
            }),
    {
        let mut checkpoint = self.checkpoint;
        let counts = self.counts;
        checkpoint.file_len = file_len;
        let more_available = !self.partial_tail && checkpoint.offset < file_len;
        (
            checkpoint,
            IngestBatch {
                changed: true,
                events_inserted: counts.inserted,
                duplicates: counts.duplicates,
                malformed: counts.malformed,
                last_event_at: counts.last_event_at,
                more_available,
            },
        )
    }
}

/// What reading whole lines one after the other comes to: the checkpoint, and the events that they
/// report in their order.
pub open spec fn after_lines(
    state: CheckpointView,
    lines: Seq<Seq<u8>>,
    source: SourceView,
) -> (CheckpointView, Seq<TokenEventView>)
    decreases lines.len(),
{
    if lines.len() == 0 {
        (state, Seq::empty())
    } else {
        let (before, events) = after_lines(state, lines.drop_last(), source);
        let (after, effect) = after_line(before, lines.last(), source);
        match effect {
            EffectView::Reported(event) => (after, events.push(event)),
            _ => (after, events),
        }
    }
}

/// The bytes of all lines together.
pub open spec fn total_bytes(lines: Seq<Seq<u8>>) -> nat
    decreases lines.len(),
{
    if lines.len() == 0 {
        0
    } else {
        total_bytes(lines.drop_last()) + lines.last().len()
    }
}

/// A file can be read in batches of any size: what is read in two batches, the second from the
/// checkpoint that the first left, is what one batch would have read.
pub proof fn batches_can_be_resumed(
    state: CheckpointView,
    first: Seq<Seq<u8>>,
    second: Seq<Seq<u8>>,
    source: SourceView,
)
    ensures
        ({
            let (middle, early) = after_lines(state, first, source);
            let (end, late) = after_lines(middle, second, source);
            after_lines(state, first + second, source) == (end, early + late)
        }),
    decreases second.len(),
{
    let (middle, early) = after_lines(state, first, source);
    if second.len() == 0 {
        assert(first + second =~= first);
        assert(early + Seq::<TokenEventView>::empty() =~= early);
    } else {
        batches_can_be_resumed(state, first, second.drop_last(), source);
        assert((first + second).drop_last() =~= first + second.drop_last());
        let (before, late) = after_lines(middle, second.drop_last(), source);
        if let EffectView::Reported(event) = after_line(before, second.last(), source).1 {
            assert(early + late.push(event) =~= (early + late).push(event));
        }
    }
}

/// Each whole line moves the checkpoint past its bytes, whatever it holds.
pub proof fn checkpoint_moves_past_each_line(
    state: CheckpointView,
    lines: Seq<Seq<u8>>,
    source: SourceView,
)
    requires
        state.offset + total_bytes(lines) <= u64::MAX,
    ensures
        after_lines(state, lines, source).0.offset == state.offset + total_bytes(lines),
        after_lines(state, lines, source).0.file_len == state.file_len,
    decreases lines.len(),
{
    if lines.len() > 0 {
        checkpoint_moves_past_each_line(state, lines.drop_last(), source);
    }
}

/// The session that owns a file is the first one that it names, and no record changes it.
pub proof fn owner_is_the_first_session(
    state: CheckpointView,
    record: JsonView,
    at: Option<i64>,
    source: SourceView,
)
    requires
        state.owner_session_id.len() > 0,
    ensures
        after_record(state, record, at, source).0.owner_session_id == state.owner_session_id,
{
}

/// A report counts at the time of the model's last response, whatever other records lie between
/// the two: only a change of session, another response or a report takes that time away.
pub proof fn response_time_waits_for_its_report(
    state: CheckpointView,
    record: JsonView,
    at: Option<i64>,
    source: SourceView,
)
    ensures
        ({
            let (after, effect) = after_record(state, record, at, source);
            &&& effect matches EffectView::Reported(event) ==> {
                &&& state.pending_usage_at_ms matches Some(time) ==> event.usage_at_ms == time
                &&& after.pending_usage_at_ms is None
            }
            &&& !(effect is Reported) && !is_model_response(record) && after.session_id
                == state.session_id ==> after.pending_usage_at_ms == state.pending_usage_at_ms
        }),
{
}

/// A report is held against the last total of its own session: after a change of session nothing
/// of the previous one is left.
pub proof fn change_of_session_forgets_the_total(
    state: CheckpointView,
    record: JsonView,
    at: Option<i64>,
    source: SourceView,
)
    ensures
        ({
            let after = after_record(state, record, at, source).0;
            after.session_id != state.session_id ==> after.previous_total is None
                && after.pending_usage_at_ms is None
        }),
{
}

/// A record that reports the same total as the one before it reports no event.
pub proof fn repeated_report_is_no_event(
    state: CheckpointView,
    record: JsonView,
    at: Option<i64>,
    again: Option<i64>,
    source: SourceView,
)
    ensures
        ({
            let (after, effect) = after_record(state, record, at, source);
            effect is Reported ==> after_record(after, record, again, source) == (
                after,
                EffectView::Repeated,
            )
        }),
{
}

/// A file that was read to its end has nothing to read until its length changes.
pub proof fn read_file_has_nothing_to_read(state: CheckpointView)
    requires
        state.offset == state.file_len,
    ensures
        forall|file_len: u64|
            (#[trigger] state.resumed(file_len)) is None <==> file_len == state.file_len,
{
}

/// A sum of counters is exact wherever it fits, and never more than it is.
pub proof fn sums_are_exact_where_they_fit(counter: u64, more: u64)
    ensures
        counter + more <= u64::MAX ==> capped_sum(counter, more as int) == counter + more,
        counter + more > u64::MAX ==> capped_sum(counter, more as int) == u64::MAX,
{
}

/// The kinds of records are all different.
proof fn kinds_differ()
    ensures
        "event_msg"@ != "session_meta"@,
        "event_msg"@ != "turn_context"@,
        "event_msg"@ != "response_item"@,
        "response_item"@ != "session_meta"@,
        "response_item"@ != "turn_context"@,
        "turn_context"@ != "session_meta"@,
        "token_count"@ != "thread_settings_applied"@,
{
    reveal_strlit("event_msg");
    reveal_strlit("session_meta");
    reveal_strlit("turn_context");
    reveal_strlit("response_item");
    reveal_strlit("token_count");
    reveal_strlit("thread_settings_applied");
    assert("event_msg"@.len() == 9);
    assert("session_meta"@.len() == 12);
    assert("turn_context"@.len() == 12);
    assert("response_item"@.len() == 13);
    assert("token_count"@.len() == 11);
    assert("thread_settings_applied"@.len() == 23);
    assert("session_meta"@[0] == 's' && "turn_context"@[0] == 't');
}

/// Whether a record is a token report with this payload.
pub open spec fn is_token_record(record: JsonView, payload: JsonView) -> bool {
    &&& record.text_member("type"@) == Some("event_msg"@)
    &&& record.member("payload"@) == Some(payload)
    &&& payload.text_member("type"@) == Some("token_count"@)
}

/// A token report with a new total and a time is an event: of the account and the file that are
/// read, at its own time and the time of the last response, with the total that it states and the
/// usage that it states for itself, under the model that it names or else the one in force. It is a
/// replay exactly where the file belongs to another session than the one in force.
pub proof fn a_new_token_report_is_an_event(
    state: CheckpointView,
    record: JsonView,
    payload: JsonView,
    at: i64,
    source: SourceView,
    total: TokenUsage,
)
    requires
        is_token_record(record, payload),
        usage::states(payload, "total_token_usage"@, total),
        state.previous_total != Some(total),
    ensures
        ({
            let (after, effect) = after_record(state, record, Some(at), source);
            &&& effect matches EffectView::Reported(event) && {
                &&& event.account_key == source.account_key
                &&& event.source_path == source.path
                &&& event.ingested_at_ms == source.scanned_at_ms
                &&& event.reported_at_ms == at
                &&& event.usage_at_ms == match state.pending_usage_at_ms {
                    Some(response) => response,
                    None => at,
                }
                &&& event.total == total
                &&& usage::info_member(payload, "last_token_usage"@) matches Some(last)
                    ==> usage::is_count(last) ==> usage::counts(last, event.usage)
                &&& (usage::info_member(payload, "last_token_usage"@) matches Some(last)
                    ==> !usage::is_count(last)) ==> match state.previous_total {
                    Some(before) => usage::is_gain(event.usage, before, total),
                    None => event.usage == total,
                }
                &&& match payload.text_member("model"@) {
                    Some(model) => event.model == model,
                    None => if state.model.len() > 0 {
                        event.model == state.model
                    } else {
                        event.model == "unknown"@
                    },
                }
                &&& event.limit_id == match payload.member("rate_limits"@) {
                    Some(limits) => limits.text_member("limit_id"@),
                    None => None,
                }
                &&& event.service_tier == state.service_tier
                &&& state.session_id.len() > 0 ==> event.session_id == state.session_id
                &&& state.session_id.len() == 0 ==> event.session_id == source.path
                &&& event.provenance == "native"@ <==> state.owner_session_id.len() == 0
                    || state.owner_session_id == event.session_id
                &&& event.provenance != "native"@ ==> event.provenance == "legacy_replay"@
            }
            &&& after == (CheckpointView {
                previous_total: Some(total),
                pending_usage_at_ms: None,
                ..state
            })
        }),
{
    kinds_differ();
    reveal_strlit("native");
    reveal_strlit("legacy_replay");
    assert("native"@.len() == 6 && "legacy_replay"@.len() == 13);
    usage::each_new_total_is_reported(payload, state.previous_total);
    usage::each_report_used_what_it_states_or_gained(payload, state.previous_total);
}

/// A token report without a time is no event, but the next report is held against its total; one
/// that states no total, or the previous one again, changes nothing at all.
pub proof fn other_token_reports_are_no_events(
    state: CheckpointView,
    record: JsonView,
    payload: JsonView,
    at: Option<i64>,
    source: SourceView,
)
    requires
        is_token_record(record, payload),
    ensures
        ({
            let (after, effect) = after_record(state, record, at, source);
            let stated = usage::info_member(payload, "total_token_usage"@);
            &&& (stated matches Some(stated) ==> !usage::is_count(stated)) ==> effect
                == EffectView::Repeated && after == state
            &&& forall|total: TokenUsage| #[trigger]
                usage::states(payload, "total_token_usage"@, total) ==> if state.previous_total
                    == Some(total) {
                    effect == EffectView::Repeated && after == state
                } else {
                    at is None ==> effect == EffectView::Undated && after == (CheckpointView {
                        previous_total: Some(total),
                        ..state
                    })
                }
        }),
{
    kinds_differ();
    usage::each_new_total_is_reported(payload, state.previous_total);
    usage::repeated_total_is_nothing(payload, state.previous_total);
}

/// Only token reports are events, and only they leave a total; where a file is read and how long it
/// is, no record changes.
pub proof fn only_token_reports_are_events(
    state: CheckpointView,
    record: JsonView,
    at: Option<i64>,
    source: SourceView,
)
    ensures
        ({
            let (after, effect) = after_record(state, record, at, source);
            let is_report = record.member("payload"@) matches Some(payload) && is_token_record(
                record,
                payload,
            );
            &&& !is_report ==> effect == EffectView::Absorbed
            &&& !is_report && after.session_id == state.session_id ==> after.previous_total
                == state.previous_total
            &&& after.offset == state.offset
            &&& after.file_len == state.file_len
        }),
{
    kinds_differ();
}

/// A session record puts the session that it names in force, under its `id` or else its
/// `session_id`; the first one owns the file for good. Naming the session in force again changes
/// nothing of what is known, another one starts with its own tier and nothing to hold reports
/// against, and the model stays. A record without a name changes nothing.
pub proof fn a_session_record_puts_its_session_in_force(
    state: CheckpointView,
    record: JsonView,
    at: Option<i64>,
    source: SourceView,
)
    requires
        record.text_member("type"@) == Some("session_meta"@),
    ensures
        ({
            let after = after_record(state, record, at, source).0;
            let named = match record.member("payload"@) {
                Some(payload) => match payload.text_member("id"@) {
                    Some(id) => Some(id),
                    None => payload.text_member("session_id"@),
                },
                None => None,
            };
            &&& after.model == state.model
            &&& match named {
                Some(id) => {
                    &&& after.session_id == id
                    &&& state.owner_session_id.len() == 0 ==> after.owner_session_id == id
                    &&& state.owner_session_id.len() > 0 ==> after.owner_session_id
                        == state.owner_session_id
                    &&& id == state.session_id ==> after.previous_total == state.previous_total
                        && after.pending_usage_at_ms == state.pending_usage_at_ms
                        && after.service_tier == state.service_tier
                    &&& id != state.session_id ==> after.previous_total is None
                        && after.pending_usage_at_ms is None && after.service_tier
                        == record.member("payload"@)->Some_0.text_member("service_tier"@)
                },
                None => after == state,
            }
        }),
{
}

/// Settings put the model in force that they name, and the tier where they mention one, be it to
/// take it back; they come in a turn's context or as applied settings, and nothing else changes the
/// model.
pub proof fn settings_put_their_model_in_force(
    state: CheckpointView,
    record: JsonView,
    at: Option<i64>,
    source: SourceView,
    settings: JsonView,
)
    requires
        (record.text_member("type"@) == Some("turn_context"@) && record.member("payload"@) == Some(
            settings,
        )) || (record.text_member("type"@) == Some("event_msg"@) && (record.member(
            "payload"@,
        ) matches Some(payload) && payload.text_member("type"@) == Some(
            "thread_settings_applied"@,
        ) && payload.member("thread_settings"@) == Some(settings))),
    ensures
        ({
            let (after, effect) = after_record(state, record, at, source);
            &&& effect == EffectView::Absorbed
            &&& settings.text_member("model"@) matches Some(model) ==> after.model == model
            &&& settings.text_member("model"@) is None ==> after.model == state.model
            &&& settings.member("service_tier"@) is None ==> after.service_tier
                == state.service_tier
            &&& settings.member("service_tier"@) is Some ==> after.service_tier
                == settings.text_member("service_tier"@)
            &&& after.session_id == state.session_id
            &&& after.owner_session_id == state.owner_session_id
            &&& after.previous_total == state.previous_total
            &&& after.pending_usage_at_ms == state.pending_usage_at_ms
        }),
{
    kinds_differ();
}

/// A record that holds no settings and no session leaves model, tier and session as they are.
pub proof fn other_records_change_no_setting(
    state: CheckpointView,
    record: JsonView,
    at: Option<i64>,
    source: SourceView,
)
    requires
        record.text_member("type"@) != Some("turn_context"@),
        record.text_member("type"@) != Some("session_meta"@),
        record.member("payload"@) matches Some(payload) ==> payload.text_member("type"@) != Some(
            "thread_settings_applied"@,
        ),
    ensures
        ({
            let after = after_record(state, record, at, source).0;
            &&& after.model == state.model
            &&& after.service_tier == state.service_tier
            &&& after.session_id == state.session_id
            &&& after.owner_session_id == state.owner_session_id
        }),
{
}

/// The time of a response is kept for the next report: that of the model's reasoning, of a message
/// of the assistant and of every call. Other records, messages of the user among them, give no such
/// time.
pub proof fn the_models_responses_give_the_time(
    state: CheckpointView,
    record: JsonView,
    payload: JsonView,
    kind: Seq<char>,
    at: i64,
    source: SourceView,
)
    requires
        record.text_member("type"@) == Some("response_item"@),
        record.member("payload"@) == Some(payload),
        payload.text_member("type"@) == Some(kind),
    ensures
        ({
            let (after, effect) = after_record(state, record, Some(at), source);
            &&& effect == EffectView::Absorbed
            &&& kind == "reasoning"@ ==> after.pending_usage_at_ms == Some(at)
            &&& kind == "message"@ && payload.text_member("role"@) == Some("assistant"@)
                ==> after.pending_usage_at_ms == Some(at)
            &&& kind == "message"@ && payload.text_member("role"@) != Some("assistant"@)
                ==> after.pending_usage_at_ms == state.pending_usage_at_ms
            &&& kind != "message"@ && text::has_suffix(kind, "_call"@) ==> after.pending_usage_at_ms
                == Some(at)
            &&& kind != "message"@ && kind != "reasoning"@ && !text::has_suffix(kind, "_call"@)
                ==> after.pending_usage_at_ms == state.pending_usage_at_ms
        }),
{
    kinds_differ();
    reveal_strlit("message");
    reveal_strlit("reasoning");
    assert("message"@.len() == 7 && "reasoning"@.len() == 9);
}

/// A line does what its record does, at the record's own time, and moves past its own bytes; a line
/// without a record is malformed and does nothing else.
pub proof fn a_line_does_what_its_record_does(state: CheckpointView, line: Seq<u8>, source: SourceView)
    requires
        state.offset + line.len() <= u64::MAX,
    ensures
        ({
            let (after, effect) = after_line(state, line, source);
            let moved = CheckpointView { offset: (state.offset + line.len()) as u64, ..state };
            match line_record(line) {
                Some(record) => (after, effect) == after_record(
                    moved,
                    record,
                    clock::record_time(record),
                    source,
                ),
                None => effect == EffectView::Malformed && after == moved,
            }
        }),
        !vstd::utf8::valid_utf8(line) ==> after_line(state, line, source).1
            == EffectView::Malformed,
{
}

/// A file that has become shorter than what was read of it is read from its start; one that has grown
/// goes on where it was left, with all that is known of it.
pub proof fn reading_goes_on_or_starts_anew(state: CheckpointView, file_len: u64)
    ensures
        file_len < state.offset ==> state.resumed(file_len) == Some(CheckpointView::start()),
        file_len > state.offset && file_len != state.file_len ==> state.resumed(file_len) == Some(
            state,
        ),
        CheckpointView::start().offset == 0,
        CheckpointView::start().file_len == 0,
        CheckpointView::start().previous_total is None,
        CheckpointView::start().pending_usage_at_ms is None,
        CheckpointView::start().session_id.len() == 0,
        CheckpointView::start().owner_session_id.len() == 0,
        CheckpointView::start().model.len() == 0,
        CheckpointView::start().service_tier is None,
{
}

/// White space around a record has no bearing on it: lines whose texts differ in nothing else hold
/// the same record, and a text without any around it is read as it is.
pub proof fn white_space_around_a_record_is_nothing(left: Seq<u8>, right: Seq<u8>)
    requires
        vstd::utf8::valid_utf8(left),
        vstd::utf8::valid_utf8(right),
    ensures
        text::trimmed(vstd::utf8::decode_utf8(left)) == text::trimmed(vstd::utf8::decode_utf8(right))
            ==> line_record(left) == line_record(right),
        text::trimmed(vstd::utf8::decode_utf8(left)) == vstd::utf8::decode_utf8(right)
            ==> line_record(left) == match json::json_parsed(vstd::utf8::decode_utf8(right)) {
            Ok(record) => Some(record),
            Err(_) => None,
        },
{
}

/// A batch begins with nothing counted. Each line counts its bytes, and one report where it makes one;
/// it counts as malformed where it is or has no time, and as a duplicate where its total is repeated.
pub proof fn each_line_counts_once(counts: BatchCounts, effect: EffectView, bytes: nat)
    requires
        counts.processed_bytes + bytes <= u64::MAX,
        counts.malformed < u64::MAX,
        counts.duplicates < u64::MAX,
        counts.processed_events < u64::MAX,
    ensures
        ({
            let after = counts.after(effect, bytes);
            &&& after.processed_bytes == counts.processed_bytes + bytes
            &&& after.inserted == counts.inserted
            &&& after.last_event_at == counts.last_event_at
            &&& after.malformed == counts.malformed + (if effect is Malformed || effect is Undated {
                1int
            } else {
                0
            })
            &&& after.duplicates == counts.duplicates + (if effect is Repeated { 1int } else { 0 })
            &&& after.processed_events == counts.processed_events + (if effect is Malformed
                || effect is Absorbed { 0int } else { 1 })
        }),
        ({
            let none = BatchCounts::zero();
            &&& none.inserted == 0 && none.duplicates == 0 && none.malformed == 0
            &&& none.processed_bytes == 0 && none.processed_events == 0
            &&& none.last_event_at is None
        }),
{
}

/// A report that the ledger has taken up counts as inserted, and any other as a duplicate: never as
/// both, and never as none. Only one that was taken up may be the last event.
pub proof fn a_report_is_inserted_or_a_duplicate(
    counts: BatchCounts,
    reported_at_ms: i64,
    changed: bool,
)
    requires
        counts.inserted < u64::MAX,
        counts.duplicates < u64::MAX,
    ensures
        ({
            let after = counts.after_storing(reported_at_ms, changed);
            &&& after.inserted == counts.inserted + (if changed { 1int } else { 0 })
            &&& after.duplicates == counts.duplicates + (if changed { 0int } else { 1 })
            &&& after.malformed == counts.malformed
            &&& after.processed_bytes == counts.processed_bytes
            &&& after.processed_events == counts.processed_events
            &&& !changed ==> after.last_event_at == counts.last_event_at
            &&& changed ==> match (counts.last_event_at, after.last_event_at) {
                (Some(known), Some(last)) => last >= known && last >= reported_at_ms && (last
                    == known || last == reported_at_ms),
                (None, Some(last)) => last == reported_at_ms,
                _ => false,
            }
        }),
{
}

/// A batch goes on exactly while it is below both of its limits; a limit of zero still lets one line
/// through.
pub proof fn a_batch_goes_on_below_both_limits(
    counts: BatchCounts,
    max_events: u64,
    max_bytes: u64,
)
    ensures
        max_events > 0 && max_bytes > 0 ==> (within_limits(counts, max_events, max_bytes) <==> (
        counts.processed_events < max_events && counts.processed_bytes < max_bytes)),
        within_limits(counts, 0, max_bytes) == within_limits(counts, 1, max_bytes),
        within_limits(counts, max_events, 0) == within_limits(counts, max_events, 1),
        within_limits(BatchCounts::zero(), max_events, max_bytes),
{
}

/// A file is left alone exactly where it was read to its end and has not changed its length; one that
/// still has something unread, or whose length was another, is read on from where reading stopped,
/// and one that is shorter than what was read of it from its start.
pub proof fn a_file_is_left_alone_at_its_end(state: CheckpointView, file_len: u64)
    ensures
        state.resumed(file_len) is None <==> state.offset == file_len && state.file_len == file_len,
        state.resumed(file_len) matches Some(start) ==> start.offset <= file_len,
        state.offset <= file_len && state.resumed(file_len) is Some ==> state.resumed(file_len)
            == Some(state),
{
}

} // verus!
