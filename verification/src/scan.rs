//! Scans of all session logs: what they come to, and what is kept about the last one.
use vstd::prelude::*;

use crate::ingest;
use crate::ingest::IngestBatch;
use crate::pricing;
use crate::pricing::select_price;
use crate::pricing::PriceRule;
use crate::text;

verus! {

/// The version of the ledger's timestamps that a scan leaves behind.
pub const TIMESTAMP_SCHEMA_VERSION: i64 = 2;

/// The later of two times that may both be missing.
pub open spec fn latest_of(known: Option<i64>, more: Option<i64>) -> Option<i64> {
    match more {
        Some(time) => ingest::latest(known, time),
        None => known,
    }
}

/// The later of two times that may both be missing.
pub fn later_of(known: Option<i64>, more: Option<i64>) -> (latest: Option<i64>)
    ensures
        latest == latest_of(known, more),
{
    match (known, more) {
        (Some(known), Some(time)) => if known >= time {
            Some(known)
        } else {
            Some(time)
        },
        (None, more) => more,
        (known, None) => known,
    }
}

/// What the batches of one file came to.
#[derive(Clone, Copy, Debug, PartialEq, Eq, Structural)]
pub struct FileTally {
    pub changed: bool,
    pub events_inserted: u64,
    pub duplicates: u64,
    pub malformed: u64,
    pub last_event_at: Option<i64>,
}

impl FileTally {
    /// Before the first batch.
    pub fn new() -> (tally: FileTally)
        ensures
            tally == (FileTally {
                changed: false,
                events_inserted: 0,
                duplicates: 0,
                malformed: 0,
                last_event_at: None,
            }),
    {
        FileTally {
            changed: false,
            events_inserted: 0,
            duplicates: 0,
            malformed: 0,
            last_event_at: None,
        }
    }

    /// The tally with another batch.
    pub open spec fn with(self, batch: IngestBatch) -> FileTally {
        FileTally {
            changed: self.changed || batch.changed,
            events_inserted: ingest::capped_sum(self.events_inserted, batch.events_inserted as int),
            duplicates: ingest::capped_sum(self.duplicates, batch.duplicates as int),
            malformed: ingest::capped_sum(self.malformed, batch.malformed as int),
            last_event_at: latest_of(self.last_event_at, batch.last_event_at),
        }
    }

    /// Adds a batch.
    pub fn absorb(&mut self, batch: IngestBatch)
        ensures
            *final(self) == old(self).with(batch),
    {
        self.changed = self.changed || batch.changed;
        self.events_inserted = self.events_inserted.saturating_add(batch.events_inserted);
        self.duplicates = self.duplicates.saturating_add(batch.duplicates);
        self.malformed = self.malformed.saturating_add(batch.malformed);
        self.last_event_at = later_of(self.last_event_at, batch.last_event_at);
    }
}

/// What a scan came to.
#[derive(Clone, Copy, Debug, PartialEq, Eq, Structural)]
pub struct IngestSummary {
    pub scanned_at_ms: i64,
    pub files_checked: u64,
    pub files_changed: u64,
    pub events_inserted: u64,
    pub duplicate_events_skipped: u64,
    pub malformed_lines: u64,
}

impl IngestSummary {
    /// Before the first file.
    pub fn new(scanned_at_ms: i64, files_checked: u64) -> (summary: IngestSummary)
        ensures
            summary == (IngestSummary {
                scanned_at_ms,
                files_checked,
                files_changed: 0,
                events_inserted: 0,
                duplicate_events_skipped: 0,
                malformed_lines: 0,
            }),
    {
        IngestSummary {
            scanned_at_ms,
            files_checked,
            files_changed: 0,
            events_inserted: 0,
            duplicate_events_skipped: 0,
            malformed_lines: 0,
        }
    }

    /// The summary with another file.
    pub open spec fn with(self, file: FileTally) -> IngestSummary {
        IngestSummary {
            scanned_at_ms: self.scanned_at_ms,
            files_checked: self.files_checked,
            files_changed: ingest::capped_sum(
                self.files_changed,
                if file.changed {
                    1
                } else {
                    0
                },
            ),
            events_inserted: ingest::capped_sum(self.events_inserted, file.events_inserted as int),
            duplicate_events_skipped: ingest::capped_sum(
                self.duplicate_events_skipped,
                file.duplicates as int,
            ),
            malformed_lines: ingest::capped_sum(self.malformed_lines, file.malformed as int),
        }
    }

    /// Adds a file.
    pub fn absorb(&mut self, file: FileTally)
        ensures
            *final(self) == old(self).with(file),
    {
        if file.changed {
            self.files_changed = self.files_changed.saturating_add(1);
        }
        self.events_inserted = self.events_inserted.saturating_add(file.events_inserted);
        self.duplicate_events_skipped = self.duplicate_events_skipped.saturating_add(
            file.duplicates,
        );
        self.malformed_lines = self.malformed_lines.saturating_add(file.malformed);
    }
}

/// What is kept about the last scan.
#[derive(Debug)]
pub struct IngestionState {
    pub last_scan_at_ms: Option<i64>,
    pub last_event_at_ms: Option<i64>,
    pub files_checked: u64,
    pub last_events_inserted: u64,
    pub last_error: Option<String>,
    pub timestamp_schema_version: i64,
}

/// What is known about the last scan.
#[verifier::ext_equal]
pub struct StateView {
    pub last_scan_at_ms: Option<i64>,
    pub last_event_at_ms: Option<i64>,
    pub files_checked: u64,
    pub last_events_inserted: u64,
    pub last_error: Option<Seq<char>>,
    pub timestamp_schema_version: i64,
}

impl View for IngestionState {
    type V = StateView;

    open spec fn view(&self) -> StateView {
        StateView {
            last_scan_at_ms: self.last_scan_at_ms,
            last_event_at_ms: self.last_event_at_ms,
            files_checked: self.files_checked,
            last_events_inserted: self.last_events_inserted,
            last_error: text::opt_view(self.last_error),
            timestamp_schema_version: self.timestamp_schema_version,
        }
    }
}

impl StateView {
    /// Whether every log has to be read again from its start.
    pub open spec fn is_behind(self) -> bool {
        self.timestamp_schema_version < 2
    }

    /// What is known after a scan that came to `summary` and last saw an event at `last_event_at`.
    pub open spec fn scanned(
        self,
        summary: IngestSummary,
        last_event_at: Option<i64>,
    ) -> StateView {
        StateView {
            last_scan_at_ms: Some(summary.scanned_at_ms),
            last_event_at_ms: if last_event_at is Some {
                last_event_at
            } else {
                self.last_event_at_ms
            },
            files_checked: summary.files_checked,
            last_events_inserted: summary.events_inserted,
            last_error: None,
            timestamp_schema_version: TIMESTAMP_SCHEMA_VERSION,
        }
    }

    /// What is known after a scan that failed.
    pub open spec fn failed(self, now_ms: i64, error: Seq<char>) -> StateView {
        StateView { last_scan_at_ms: Some(now_ms), last_error: Some(error), ..self }
    }
}

impl IngestionState {
    /// Whether the ledger's times come from before the times of the model's responses were kept,
    /// so that every log has to be read again from its start.
    pub fn needs_backfill(&self) -> (needed: bool)
        ensures
            needed == (self.timestamp_schema_version < 2),
            needed == self@.is_behind(),
    {
        self.timestamp_schema_version < 2
    }

    /// A scan succeeded: the last event stays where the scan found none, and no error is left.
    pub fn after_scan(self, summary: &IngestSummary, last_event_at: Option<i64>) -> (state:
        IngestionState)
        ensures
            state.last_scan_at_ms == Some(summary.scanned_at_ms),
            state.last_event_at_ms == match last_event_at {
                Some(at) => Some(at),
                None => self.last_event_at_ms,
            },
            state.files_checked == summary.files_checked,
            state.last_events_inserted == summary.events_inserted,
            state.last_error is None,
            state.timestamp_schema_version == TIMESTAMP_SCHEMA_VERSION,
            state@ == self@.scanned(*summary, last_event_at),
    {
        IngestionState {
            last_scan_at_ms: Some(summary.scanned_at_ms),
            last_event_at_ms: match last_event_at {
                Some(at) => Some(at),
                None => self.last_event_at_ms,
            },
            files_checked: summary.files_checked,
            last_events_inserted: summary.events_inserted,
            last_error: None,
            timestamp_schema_version: TIMESTAMP_SCHEMA_VERSION,
        }
    }

    /// A scan failed: only its time and its error are kept.
    pub fn after_error(self, now_ms: i64, error: String) -> (state: IngestionState)
        ensures
            state.last_scan_at_ms == Some(now_ms),
            text::opt_view(state.last_error) == Some(error@),
            state.last_event_at_ms == self.last_event_at_ms,
            state.files_checked == self.files_checked,
            state.last_events_inserted == self.last_events_inserted,
            state.timestamp_schema_version == self.timestamp_schema_version,
            state@ == self@.failed(now_ms, error@),
    {
        IngestionState {
            last_scan_at_ms: Some(now_ms),
            last_event_at_ms: self.last_event_at_ms,
            files_checked: self.files_checked,
            last_events_inserted: self.last_events_inserted,
            last_error: Some(error),
            timestamp_schema_version: self.timestamp_schema_version,
        }
    }
}

/// The account whose logs are read: there is none to read for until an account is confirmed.
pub fn required_active_account_key(account_key: Option<String>) -> (account: Result<
    String,
    String,
>)
    ensures
        match account_key {
            Some(key) => account matches Ok(account) && account@ == key@,
            None => account matches Err(error) && error@
                == "account identity is not confirmed; local token ingestion is deferred"@,
        },
{
    match account_key {
        Some(key) => Ok(key),
        None => Err(
            "account identity is not confirmed; local token ingestion is deferred".to_owned(),
        ),
    }
}

/// The events of one model.
#[derive(Debug)]
pub struct ModelEvents {
    pub model: String,
    pub events: u64,
}

/// The events of the models that no active price covers.
pub open spec fn unpriced_sum(models: Seq<ModelEvents>, prices: Seq<PriceRule>) -> nat
    decreases models.len(),
{
    if models.len() == 0 {
        0
    } else {
        unpriced_sum(models.drop_last(), prices) + if pricing::price_of(
            prices,
            models.last().model@,
        ) is None {
            models.last().events as nat
        } else {
            0
        }
    }
}

/// All events of the models.
pub open spec fn events_sum(models: Seq<ModelEvents>) -> nat
    decreases models.len(),
{
    if models.len() == 0 {
        0
    } else {
        events_sum(models.drop_last()) + models.last().events as nat
    }
}

/// The state of the ledger.
#[derive(Debug)]
pub struct LedgerStatus {
    pub last_scan_at_ms: Option<i64>,
    pub last_event_at_ms: Option<i64>,
    pub files_checked: u64,
    pub last_events_inserted: u64,
    pub total_events: u64,
    pub checkpoint_files: u64,
    pub unpriced_events: u64,
    pub last_error_present: bool,
    pub last_error: Option<String>,
}

/// The state of a ledger that holds so many events of each model.
pub fn ledger_status(
    state: IngestionState,
    models: &Vec<ModelEvents>,
    checkpoint_files: u64,
    prices: &Vec<PriceRule>,
) -> (status: LedgerStatus)
    ensures
        status.last_scan_at_ms == state.last_scan_at_ms,
        status.last_event_at_ms == state.last_event_at_ms,
        status.files_checked == state.files_checked,
        status.last_events_inserted == state.last_events_inserted,
        status.total_events == ingest::capped_sum(0, events_sum(models@) as int),
        status.checkpoint_files == checkpoint_files,
        status.unpriced_events == ingest::capped_sum(0, unpriced_sum(models@, prices@) as int),
        status.last_error_present == (state.last_error is Some),
        text::opt_view(status.last_error) == text::opt_view(state.last_error),
{
    let mut total: u64 = 0;
    let mut unpriced: u64 = 0;
    let mut i: usize = 0;
    assert(models@.take(0) =~= Seq::<ModelEvents>::empty());
    while i < models.len()
        invariant
            i <= models@.len(),
            total == ingest::capped_sum(0, events_sum(models@.take(i as int)) as int),
            unpriced == ingest::capped_sum(
                0,
                unpriced_sum(models@.take(i as int), prices@) as int,
            ),
        decreases models@.len() - i,
    {
        assert(models@.take(i + 1).drop_last() =~= models@.take(i as int));
        total = total.saturating_add(models[i].events);
        if select_price(prices, models[i].model.as_str()).is_none() {
            unpriced = unpriced.saturating_add(models[i].events);
        }
        i += 1;
    }
    assert(models@.take(models@.len() as int) =~= models@);
    LedgerStatus {
        last_scan_at_ms: state.last_scan_at_ms,
        last_event_at_ms: state.last_event_at_ms,
        files_checked: state.files_checked,
        last_events_inserted: state.last_events_inserted,
        total_events: total,
        checkpoint_files,
        unpriced_events: unpriced,
        last_error_present: state.last_error.is_some(),
        last_error: state.last_error,
    }
}

/// Of two times the later one is kept, and a time that is missing takes nothing away.
pub proof fn the_later_time_is_kept(known: Option<i64>, more: Option<i64>)
    ensures
        match latest_of(known, more) {
            Some(time) => {
                &&& known == Some(time) || more == Some(time)
                &&& known matches Some(known) ==> known <= time
                &&& more matches Some(more) ==> more <= time
            },
            None => known is None && more is None,
        },
{
}

/// What batches of a file count adds up, and the file has changed where one of them says so.
pub proof fn batches_add_up(tally: FileTally, batch: IngestBatch)
    ensures
        tally.with(batch).changed == (tally.changed || batch.changed),
        tally.events_inserted + batch.events_inserted <= u64::MAX ==> tally.with(
            batch,
        ).events_inserted == tally.events_inserted + batch.events_inserted,
        tally.duplicates + batch.duplicates <= u64::MAX ==> tally.with(batch).duplicates
            == tally.duplicates + batch.duplicates,
        tally.malformed + batch.malformed <= u64::MAX ==> tally.with(batch).malformed
            == tally.malformed + batch.malformed,
        tally.with(batch).last_event_at == latest_of(tally.last_event_at, batch.last_event_at),
{
}

/// The events of a ledger are those of its models, and those without a price are the ones of the
/// models that no active price covers: lists of models add up.
pub proof fn events_of_models_add_up(
    first: Seq<ModelEvents>,
    second: Seq<ModelEvents>,
    prices: Seq<PriceRule>,
)
    ensures
        events_sum(first + second) == events_sum(first) + events_sum(second),
        unpriced_sum(first + second, prices) == unpriced_sum(first, prices) + unpriced_sum(
            second,
            prices,
        ),
        unpriced_sum(second, prices) <= events_sum(second),
        events_sum(Seq::empty()) == 0,
    decreases second.len(),
{
    if second.len() == 0 {
        assert(first + second =~= first);
    } else {
        events_of_models_add_up(first, second.drop_last(), prices);
        assert((first + second).drop_last() =~= first + second.drop_last());
    }
}

/// A model's events all count, as without a price exactly where no active price covers the model.
pub proof fn a_model_counts_its_own_events(model: ModelEvents, prices: Seq<PriceRule>)
    ensures
        events_sum(seq![model]) == model.events,
        pricing::price_of(prices, model.model@) is None ==> unpriced_sum(seq![model], prices)
            == model.events,
        pricing::price_of(prices, model.model@) is Some ==> unpriced_sum(seq![model], prices) == 0,
{
    let one = seq![model];
    assert(one.drop_last() =~= Seq::<ModelEvents>::empty());
    assert(one.last() == model);
    assert(events_sum(one.drop_last()) == 0);
    assert(unpriced_sum(one.drop_last(), prices) == 0);
}

/// What the files of a scan came to adds up: a file counts as changed once, where it changed, and
/// the scan keeps its time and the number of files that it looked at.
pub proof fn files_add_up(summary: IngestSummary, file: FileTally)
    ensures
        summary.with(file).scanned_at_ms == summary.scanned_at_ms,
        summary.with(file).files_checked == summary.files_checked,
        !file.changed ==> summary.with(file).files_changed == summary.files_changed,
        file.changed && summary.files_changed < u64::MAX ==> summary.with(file).files_changed
            == summary.files_changed + 1,
        summary.events_inserted + file.events_inserted <= u64::MAX ==> summary.with(
            file,
        ).events_inserted == summary.events_inserted + file.events_inserted,
        summary.duplicate_events_skipped + file.duplicates <= u64::MAX ==> summary.with(
            file,
        ).duplicate_events_skipped == summary.duplicate_events_skipped + file.duplicates,
        summary.malformed_lines + file.malformed <= u64::MAX ==> summary.with(file).malformed_lines
            == summary.malformed_lines + file.malformed,
{
}

/// A scan that succeeds takes back the error of one that failed before it, and from then on no log
/// has to be read again; it forgets the last event only for a later scan's own. A scan that fails
/// says so and leaves the rest as it was, also that the logs have to be read again.
pub proof fn a_scan_says_how_it_went(
    state: StateView,
    summary: IngestSummary,
    last_event_at: Option<i64>,
    now_ms: i64,
    error: Seq<char>,
)
    ensures
        state.scanned(summary, last_event_at).last_error is None,
        !state.scanned(summary, last_event_at).is_behind(),
        state.scanned(summary, last_event_at).last_scan_at_ms == Some(summary.scanned_at_ms),
        state.scanned(summary, last_event_at).last_events_inserted == summary.events_inserted,
        state.scanned(summary, last_event_at).files_checked == summary.files_checked,
        state.scanned(summary, None).last_event_at_ms == state.last_event_at_ms,
        last_event_at is Some ==> state.scanned(summary, last_event_at).last_event_at_ms
            == last_event_at,
        state.failed(now_ms, error).last_error == Some(error),
        state.failed(now_ms, error).last_scan_at_ms == Some(now_ms),
        state.failed(now_ms, error).is_behind() == state.is_behind(),
        state.failed(now_ms, error).scanned(summary, last_event_at) == state.scanned(
            summary,
            last_event_at,
        ),
        state.failed(now_ms, error).last_event_at_ms == state.last_event_at_ms,
        state.failed(now_ms, error).files_checked == state.files_checked,
        state.failed(now_ms, error).last_events_inserted == state.last_events_inserted,
        state.timestamp_schema_version <= 1 ==> state.is_behind(),
        state.timestamp_schema_version >= 2 ==> !state.is_behind(),
{
}

} // verus!
