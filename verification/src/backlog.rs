//! Reading session logs into the ledger: one batch of a log, all of it, and all logs of a scan.
use vstd::prelude::*;

use crate::ingest;
use crate::ingest::Batch;
use crate::ingest::Checkpoint;
use crate::ingest::CheckpointView;
use crate::ingest::EffectView;
use crate::ingest::IngestBatch;
use crate::ingest::Source;
use crate::ingest::SourceView;
use crate::ingest::INGEST_BATCH_BYTE_LIMIT;
use crate::ingest::INGEST_BATCH_EVENT_LIMIT;
use crate::ledger;
use crate::ledger::Ledger;
use crate::ledger::StoreAction;
use crate::ledger::TokenEventView;
use crate::scan;
use crate::scan::required_active_account_key;
use crate::scan::FileTally;
use crate::scan::IngestSummary;
use crate::scan::IngestionState;

verus! {

/// The number of bytes up to the first line feed, which counts with them; that of all bytes where
/// there is none.
pub open spec fn line_end(bytes: Seq<u8>) -> nat
    decreases bytes.len(),
{
    if bytes.len() == 0 {
        0
    } else if bytes[0] == 10 {
        1
    } else {
        1 + line_end(bytes.drop_first())
    }
}

/// The whole lines that bytes begin with, each with its line feed.
pub open spec fn whole_lines(bytes: Seq<u8>) -> Seq<Seq<u8>>
    decreases bytes.len(),
{
    let end = line_end(bytes);
    if 0 < end <= bytes.len() && bytes[end - 1] == 10 {
        seq![bytes.take(end as int)] + whole_lines(bytes.skip(end as int))
    } else {
        Seq::empty()
    }
}

/// How far reading a file has come: the checkpoint, the ledger, and what was counted.
#[verifier::ext_equal]
pub struct Progress {
    pub checkpoint: CheckpointView,
    pub events: Seq<TokenEventView>,
    pub inserted: nat,
    pub duplicates: nat,
    pub malformed: nat,
    pub last_event_at: Option<i64>,
    pub bytes: nat,
    pub reports: nat,
}

/// Whether storing a report changes a ledger.
pub open spec fn changes(events: Seq<TokenEventView>, report: TokenEventView) -> bool {
    ledger::action_of(ledger::known_event(events, report.key()), report) != StoreAction::Keep
}

impl Progress {
    /// Before the first line.
    pub open spec fn begin(checkpoint: CheckpointView, events: Seq<TokenEventView>) -> Progress {
        Progress {
            checkpoint,
            events,
            inserted: 0,
            duplicates: 0,
            malformed: 0,
            last_event_at: None,
            bytes: 0,
            reports: 0,
        }
    }

    /// After one more whole line: a report that the line makes is stored.
    pub open spec fn after(self, line: Seq<u8>, source: SourceView) -> Progress {
        let (checkpoint, effect) = ingest::after_line(self.checkpoint, line, source);
        let read = Progress { checkpoint, bytes: self.bytes + line.len(), ..self };
        match effect {
            EffectView::Malformed => Progress { malformed: self.malformed + 1, ..read },
            EffectView::Absorbed => read,
            EffectView::Repeated => Progress {
                duplicates: self.duplicates + 1,
                reports: self.reports + 1,
                ..read
            },
            EffectView::Undated => Progress {
                malformed: self.malformed + 1,
                reports: self.reports + 1,
                ..read
            },
            EffectView::Reported(event) => if changes(self.events, event) {
                Progress {
                    events: ledger::recorded(self.events, event),
                    inserted: self.inserted + 1,
                    last_event_at: ingest::latest(self.last_event_at, event.reported_at_ms),
                    reports: self.reports + 1,
                    ..read
                }
            } else {
                Progress {
                    events: ledger::recorded(self.events, event),
                    duplicates: self.duplicates + 1,
                    reports: self.reports + 1,
                    ..read
                }
            },
        }
    }

    /// Whether a batch goes on from here: neither of its limits is reached. A limit of zero counts
    /// as one.
    pub open spec fn is_within(self, max_events: u64, max_bytes: u64) -> bool {
        &&& self.bytes < if max_bytes >= 1 {
            max_bytes as int
        } else {
            1
        }
        &&& self.reports < if max_events >= 1 {
            max_events as int
        } else {
            1
        }
    }

    /// What was counted before and after together, with the checkpoint and the ledger after it.
    pub open spec fn followed_by(self, more: Progress) -> Progress {
        Progress {
            checkpoint: CheckpointView { file_len: self.checkpoint.file_len, ..more.checkpoint },
            events: more.events,
            inserted: self.inserted + more.inserted,
            duplicates: self.duplicates + more.duplicates,
            malformed: self.malformed + more.malformed,
            last_event_at: scan::latest_of(self.last_event_at, more.last_event_at),
            bytes: self.bytes + more.bytes,
            reports: self.reports + more.reports,
        }
    }

    /// What is counted never exceeds the bytes that were read.
    pub open spec fn is_bounded(self) -> bool {
        &&& self.inserted <= self.reports
        &&& self.duplicates <= self.reports
        &&& self.malformed <= self.bytes
        &&& self.reports <= self.bytes
    }
}

/// Reading whole lines one after the other.
pub open spec fn read_lines(start: Progress, lines: Seq<Seq<u8>>, source: SourceView) -> Progress
    decreases lines.len(),
{
    if lines.len() == 0 {
        start
    } else {
        read_lines(start.after(lines[0], source), lines.drop_first(), source)
    }
}

/// How many of the lines one batch reads: it ends after the line that reaches a limit.
pub open spec fn lines_in_batch(
    start: Progress,
    lines: Seq<Seq<u8>>,
    source: SourceView,
    max_events: u64,
    max_bytes: u64,
) -> nat
    decreases lines.len(),
{
    if lines.len() == 0 {
        0
    } else {
        let next = start.after(lines[0], source);
        if next.is_within(max_events, max_bytes) {
            1 + lines_in_batch(next, lines.drop_first(), source, max_events, max_bytes)
        } else {
            1
        }
    }
}

/// The end of a line is the first line feed, or the end of the bytes where there is none.
proof fn line_end_is_first(bytes: Seq<u8>)
    ensures
        line_end(bytes) <= bytes.len(),
        bytes.len() > 0 ==> line_end(bytes) > 0,
        forall|i: int| 0 <= i < line_end(bytes) - 1 ==> (#[trigger] bytes[i]) != 10,
        line_end(bytes) < bytes.len() ==> bytes[line_end(bytes) - 1] == 10,
    decreases bytes.len(),
{
    if bytes.len() > 0 && bytes[0] != 10 {
        let rest = bytes.drop_first();
        line_end_is_first(rest);
        assert forall|i: int| 0 <= i < line_end(bytes) - 1 implies (#[trigger] bytes[i]) != 10 by {
            if i > 0 {
                assert(rest[i - 1] == bytes[i]);
            }
        }
        assert(line_end(bytes) < bytes.len() ==> rest[line_end(rest) - 1] == bytes[line_end(bytes)
            - 1]);
    }
}

/// Reading one line more.
proof fn read_one_more(start: Progress, lines: Seq<Seq<u8>>, line: Seq<u8>, source: SourceView)
    ensures
        read_lines(start, lines.push(line), source) == read_lines(start, lines, source).after(
            line,
            source,
        ),
    decreases lines.len(),
{
    let longer = lines.push(line);
    if lines.len() == 0 {
        assert(longer.drop_first() =~= Seq::<Seq<u8>>::empty());
        assert(read_lines(start.after(line, source), longer.drop_first(), source) == start.after(
            line,
            source,
        ));
    } else {
        assert(longer[0] == lines[0]);
        assert(longer.drop_first() =~= lines.drop_first().push(line));
        read_one_more(start.after(lines[0], source), lines.drop_first(), line, source);
    }
}

/// Where the line that begins at a place ends.
fn find_line_end(content: &[u8], from: usize) -> (end: usize)
    requires
        from <= content@.len(),
    ensures
        from <= end <= content@.len(),
        end - from == line_end(content@.skip(from as int)),
{
    let ghost all = content@.skip(from as int);
    let mut at: usize = from;
    assert(all.skip(0) =~= all);
    while at < content.len()
        invariant
            from <= at <= content@.len(),
            all == content@.skip(from as int),
            line_end(all) == (at - from) + line_end(all.skip(at - from)),
        decreases content@.len() - at,
    {
        let ghost rest = all.skip(at - from);
        assert(rest[0] == content@[at as int]);
        assert(rest.drop_first() =~= all.skip(at + 1 - from));
        if content[at] == 10 {
            return at + 1;
        }
        at += 1;
    }
    at
}

/// Whether a batch and a ledger stand where reading has come.
spec fn stands_at(batch: Batch, events: Seq<TokenEventView>, progress: Progress) -> bool {
    &&& batch.checkpoint@ == progress.checkpoint
    &&& events == progress.events
    &&& batch.counts.inserted == progress.inserted
    &&& batch.counts.duplicates == progress.duplicates
    &&& batch.counts.malformed == progress.malformed
    &&& batch.counts.last_event_at == progress.last_event_at
    &&& batch.counts.processed_bytes == progress.bytes
    &&& batch.counts.processed_events == progress.reports
    &&& progress.is_bounded()
}

/// Feeds the lines of a file to a batch until it ends.
fn read_batch(ledger: &mut Ledger, batch: &mut Batch, content: &[u8], from: usize)
    requires
        old(ledger).wf(),
        from <= content@.len(),
        old(batch).checkpoint@.offset == from,
        old(batch).counts == ingest::BatchCounts::zero(),
        !old(batch).partial_tail,
    ensures
        final(ledger).wf(),
        ({
            let begun = Progress::begin(old(batch).checkpoint@, old(ledger)@);
            let lines = whole_lines(content@.skip(from as int));
            let source = old(batch).source@;
            let n = lines_in_batch(
                begun,
                lines,
                source,
                old(batch).max_events,
                old(batch).max_bytes,
            );
            let end = read_lines(begun, lines.take(n as int), source);
            &&& n <= lines.len()
            &&& stands_at(*final(batch), final(ledger)@, end)
            &&& end.checkpoint.offset == from + end.bytes
            &&& end.checkpoint.offset <= content@.len()
            &&& (!final(batch).partial_tail && end.checkpoint.offset < content@.len()) == (n > 0
                && !end.is_within(old(batch).max_events, old(batch).max_bytes)
                && end.checkpoint.offset < content@.len())
        }),
{
    let ghost begun = Progress::begin(batch.checkpoint@, ledger@);
    let ghost lines = whole_lines(content@.skip(from as int));
    let ghost source = batch.source@;
    let ghost (max_events, max_bytes) = (batch.max_events, batch.max_bytes);
    let ghost mut k: int = 0;
    let ghost mut now = begun;
    let mut at: usize = from;
    proof {
        assert(lines.take(0) =~= Seq::<Seq<u8>>::empty());
        assert(lines.skip(0) =~= lines);
    }
    loop
        invariant
            ledger.wf(),
            from <= at <= content@.len(),
            begun == Progress::begin(old(batch).checkpoint@, old(ledger)@),
            lines == whole_lines(content@.skip(from as int)),
            source == old(batch).source@,
            max_events == old(batch).max_events,
            max_bytes == old(batch).max_bytes,
            batch.source@ == source,
            batch.max_events == max_events,
            batch.max_bytes == max_bytes,
            !batch.partial_tail,
            0 <= k <= lines.len(),
            now == read_lines(begun, lines.take(k), source),
            stands_at(*batch, ledger@, now),
            now.checkpoint.offset == at,
            now.bytes == at - from,
            whole_lines(content@.skip(at as int)) == lines.skip(k),
            lines_in_batch(begun, lines, source, max_events, max_bytes) == k + lines_in_batch(
                now,
                lines.skip(k),
                source,
                max_events,
                max_bytes,
            ),
            k == 0 || now.is_within(max_events, max_bytes),
        decreases content@.len() - at,
    {
        let end = find_line_end(content, at);
        let line = vstd::slice::slice_subrange(content, at, end);
        let ghost rest = content@.skip(at as int);
        proof {
            line_end_is_first(rest);
            assert(line@ =~= rest.take(end - at));
        }
        let step = batch.feed(line);
        let ghost whole = ingest::is_whole_line(line@);
        proof {
            if line@.len() > 0 {
                assert(line@.last() == rest[line_end(rest) - 1]);
            }
            if whole {
                assert(lines.skip(k) =~= seq![line@] + whole_lines(rest.skip(end - at)));
                assert(lines.skip(k)[0] == line@);
                assert(lines.skip(k).drop_first() =~= whole_lines(rest.skip(end - at)));
                assert(rest.skip(end - at) =~= content@.skip(end as int));
                assert(lines.skip(k).drop_first() =~= lines.skip(k + 1));
                assert(lines[k] == line@);
                assert(lines.take(k + 1) =~= lines.take(k).push(line@));
                read_one_more(begun, lines.take(k), line@, source);
            } else {
                assert(lines.skip(k) =~= Seq::<Seq<u8>>::empty());
                assert(lines.len() == k);
            }
        }
        let ghost before = ledger@;
        if let Some(event) = step.event {
            let reported_at_ms = event.reported_at_ms;
            let changed = ledger.record(event);
            batch.stored(reported_at_ms, changed);
        }
        proof {
            if whole {
                now = now.after(line@, source);
                k = k + 1;
            }
        }
        if !step.more {
            return ;
        }
        at = end;
    }
}

/// Reads a batch of a file into the ledger: the lines from the checkpoint on, up to one of the
/// limits. `content` is the whole file, and the checkpoint is brought up to date.
pub fn ingest_file_batch_for_account(
    ledger: &mut Ledger,
    checkpoint: &mut Checkpoint,
    content: &[u8],
    source: Source,
    max_events: u64,
    max_bytes: u64,
) -> (outcome: IngestBatch)
    requires
        old(ledger).wf(),
    ensures
        final(ledger).wf(),
        match old(checkpoint)@.resumed(content@.len() as u64) {
            Some(start) => {
                let begun = Progress::begin(start, old(ledger)@);
                let lines = whole_lines(content@.skip(start.offset as int));
                let n = lines_in_batch(begun, lines, source@, max_events, max_bytes);
                let end = read_lines(begun, lines.take(n as int), source@);
                &&& final(ledger)@ == end.events
                &&& final(checkpoint)@ == (CheckpointView {
                    file_len: content@.len() as u64,
                    ..end.checkpoint
                })
                &&& end.checkpoint.offset == start.offset + end.bytes <= content@.len()
                &&& end.is_bounded()
                &&& outcome == (IngestBatch {
                    changed: true,
                    events_inserted: end.inserted as u64,
                    duplicates: end.duplicates as u64,
                    malformed: end.malformed as u64,
                    last_event_at: end.last_event_at,
                    more_available: n > 0 && !end.is_within(max_events, max_bytes)
                        && end.checkpoint.offset < content@.len(),
                })
            },
            None => {
                &&& final(ledger)@ == old(ledger)@
                &&& final(checkpoint)@ == old(checkpoint)@
                &&& outcome == (IngestBatch {
                    changed: false,
                    events_inserted: 0,
                    duplicates: 0,
                    malformed: 0,
                    last_event_at: None,
                    more_available: false,
                })
            },
        },
{
    let file_len = content.len() as u64;
    if file_len == checkpoint.file_len && checkpoint.offset == checkpoint.file_len {
        return IngestBatch::unchanged();
    }
    let mut start = Checkpoint::default();
    if file_len >= checkpoint.offset {
        std::mem::swap(&mut start, checkpoint);
    }
    let from = start.offset as usize;
    let mut batch = Batch::start(start, source, max_events, max_bytes);
    read_batch(ledger, &mut batch, content, from);
    let (after, outcome) = batch.finish(file_len);
    *checkpoint = after;
    outcome
}

/// A batch reads no more lines than there are.
proof fn batch_is_part_of_the_lines(
    start: Progress,
    lines: Seq<Seq<u8>>,
    source: SourceView,
    max_events: u64,
    max_bytes: u64,
)
    ensures
        lines_in_batch(start, lines, source, max_events, max_bytes) <= lines.len(),
    decreases lines.len(),
{
    if lines.len() > 0 {
        let next = start.after(lines[0], source);
        batch_is_part_of_the_lines(next, lines.drop_first(), source, max_events, max_bytes);
    }
}

/// A batch that is not ended by a limit reads all lines.
proof fn unlimited_batch_reads_all(
    start: Progress,
    lines: Seq<Seq<u8>>,
    source: SourceView,
    max_events: u64,
    max_bytes: u64,
)
    ensures
        ({
            let n = lines_in_batch(start, lines, source, max_events, max_bytes);
            let end = read_lines(start, lines.take(n as int), source);
            n == 0 || end.is_within(max_events, max_bytes) ==> n == lines.len()
        }),
    decreases lines.len(),
{
    if lines.len() > 0 {
        let next = start.after(lines[0], source);
        let rest = lines.drop_first();
        let n = lines_in_batch(start, lines, source, max_events, max_bytes);
        batch_is_part_of_the_lines(start, lines, source, max_events, max_bytes);
        assert(lines.take(n as int)[0] == lines[0]);
        assert(lines.take(n as int).drop_first() =~= rest.take(n - 1));
        assert(rest.take(0) =~= Seq::<Seq<u8>>::empty());
        assert(read_lines(next, rest.take(0), source) == next);
        if next.is_within(max_events, max_bytes) {
            unlimited_batch_reads_all(next, rest, source, max_events, max_bytes);
        }
    }
}

/// Reading goes on from where it has come, however it has come there.
proof fn reading_goes_on(
    start: Progress,
    first: Seq<Seq<u8>>,
    second: Seq<Seq<u8>>,
    source: SourceView,
)
    ensures
        read_lines(start, first + second, source) == read_lines(
            read_lines(start, first, source),
            second,
            source,
        ),
    decreases first.len(),
{
    if first.len() == 0 {
        assert(first + second =~= second);
    } else {
        assert((first + second)[0] == first[0]);
        assert((first + second).drop_first() =~= first.drop_first() + second);
        reading_goes_on(start.after(first[0], source), first.drop_first(), second, source);
    }
}

/// What a line does depends on neither the length that the file had nor what was counted before.
proof fn line_counts_alike(before: Progress, now: Progress, line: Seq<u8>, source: SourceView)
    ensures
        before.followed_by(now).after(line, source) == before.followed_by(now.after(line, source)),
{
    let state = now.checkpoint;
    let moved = CheckpointView { file_len: before.checkpoint.file_len, ..state };
    let (after, effect) = ingest::after_line(state, line, source);
    assert(ingest::after_line(moved, line, source) == (
        CheckpointView { file_len: before.checkpoint.file_len, ..after },
        effect,
    ));
}

/// Reading from a checkpoint that was kept adds to what was counted before it.
proof fn reading_adds_up(before: Progress, now: Progress, lines: Seq<Seq<u8>>, source: SourceView)
    ensures
        read_lines(before.followed_by(now), lines, source) == before.followed_by(
            read_lines(now, lines, source),
        ),
    decreases lines.len(),
{
    if lines.len() > 0 {
        line_counts_alike(before, now, lines[0], source);
        reading_adds_up(before, now.after(lines[0], source), lines.drop_first(), source);
    }
}

/// Reading counts the bytes of the lines.
proof fn bytes_are_counted(start: Progress, lines: Seq<Seq<u8>>, source: SourceView)
    ensures
        read_lines(start, lines, source).bytes == start.bytes + ingest::total_bytes(lines),
    decreases lines.len(),
{
    if lines.len() > 0 {
        let rest = lines.drop_last();
        bytes_are_counted(start, rest, source);
        assert(rest.push(lines.last()) =~= lines);
        read_one_more(start, rest, lines.last(), source);
    }
}

/// Behind its first whole lines, bytes have the other whole lines.
proof fn lines_behind(bytes: Seq<u8>, k: int)
    requires
        0 <= k <= whole_lines(bytes).len(),
    ensures
        ingest::total_bytes(whole_lines(bytes).take(k)) <= bytes.len(),
        whole_lines(bytes.skip(ingest::total_bytes(whole_lines(bytes).take(k)) as int))
            == whole_lines(bytes).skip(k),
    decreases k,
{
    let lines = whole_lines(bytes);
    if k == 0 {
        assert(lines.take(0) =~= Seq::<Seq<u8>>::empty());
        assert(lines.skip(0) =~= lines);
        assert(bytes.skip(0) =~= bytes);
    } else {
        lines_behind(bytes, k - 1);
        let read = ingest::total_bytes(lines.take(k - 1)) as int;
        let rest = bytes.skip(read);
        let end = line_end(rest) as int;
        assert(whole_lines(rest)[0] == lines[k - 1]);
        assert(lines.take(k).drop_last() =~= lines.take(k - 1));
        assert(lines[k - 1] == rest.take(end));
        assert(bytes.skip(read + end) =~= rest.skip(end));
        assert(whole_lines(rest) =~= seq![rest.take(end)] + whole_lines(rest.skip(end)));
        assert(lines.skip(k) =~= whole_lines(rest).skip(1));
        assert(whole_lines(rest).skip(1) =~= whole_lines(rest.skip(end)));
    }
}

/// The same source once more.
fn copy_source(source: &Source) -> (copy: Source)
    ensures
        copy@ == source@,
{
    Source {
        account_key: source.account_key.clone(),
        path: source.path.clone(),
        scanned_at_ms: source.scanned_at_ms,
    }
}

/// What reading all whole lines of a file comes to, from a checkpoint on.
pub open spec fn file_read(
    start: CheckpointView,
    events: Seq<TokenEventView>,
    content: Seq<u8>,
    source: SourceView,
) -> Progress {
    read_lines(
        Progress::begin(start, events),
        whole_lines(content.skip(start.offset as int)),
        source,
    )
}

/// What reading a file counts.
pub open spec fn tally_of(read: Progress) -> FileTally {
    FileTally {
        changed: true,
        events_inserted: read.inserted as u64,
        duplicates: read.duplicates as u64,
        malformed: read.malformed as u64,
        last_event_at: read.last_event_at,
    }
}

/// Reads all whole lines of a file from the checkpoint on into the ledger, in batches with these
/// limits. What comes of it does not depend on the limits. `content` is the whole file, and the
/// checkpoint is brought up to date.
pub fn ingest_in_batches(
    ledger: &mut Ledger,
    checkpoint: &mut Checkpoint,
    content: &[u8],
    source: &Source,
    max_events: u64,
    max_bytes: u64,
) -> (tally: FileTally)
    requires
        old(ledger).wf(),
    ensures
        final(ledger).wf(),
        match old(checkpoint)@.resumed(content@.len() as u64) {
            Some(start) => {
                let read = file_read(start, old(ledger)@, content@, source@);
                &&& final(ledger)@ == read.events
                &&& final(checkpoint)@ == (CheckpointView {
                    file_len: content@.len() as u64,
                    ..read.checkpoint
                })
                &&& read.checkpoint.offset == start.offset + read.bytes <= content@.len()
                &&& read.is_bounded()
                &&& tally == tally_of(read)
            },
            None => {
                &&& final(ledger)@ == old(ledger)@
                &&& final(checkpoint)@ == old(checkpoint)@
                &&& tally == (FileTally {
                    changed: false,
                    events_inserted: 0,
                    duplicates: 0,
                    malformed: 0,
                    last_event_at: None,
                })
            },
        },
{
    let mut tally = FileTally::new();
    let ghost file_len = content@.len() as u64;
    let ghost start = checkpoint@.resumed(file_len);
    if content.len() as u64 == checkpoint.file_len && checkpoint.offset == checkpoint.file_len {
        return tally;
    }
    let ghost start = start->Some_0;
    let ghost begun = Progress::begin(start, ledger@);
    let ghost lines = whole_lines(content@.skip(start.offset as int));
    let ghost mut k: int = 0;
    let ghost mut now = begun;
    proof {
        assert(lines.take(0) =~= Seq::<Seq<u8>>::empty());
        assert(lines.skip(0) =~= lines);
    }
    loop
        invariant
            ledger.wf(),
            file_len == content@.len(),
            old(checkpoint)@.resumed(file_len) == Some(start),
            begun == Progress::begin(start, old(ledger)@),
            lines == whole_lines(content@.skip(start.offset as int)),
            0 <= k <= lines.len(),
            now == read_lines(begun, lines.take(k), source@),
            checkpoint@.resumed(file_len) matches Some(here) && here == (CheckpointView {
                file_len: here.file_len,
                ..now.checkpoint
            }),
            ledger@ == now.events,
            now.is_bounded(),
            now.checkpoint.offset == start.offset + now.bytes <= content@.len(),
            whole_lines(content@.skip(now.checkpoint.offset as int)) == lines.skip(k),
            tally == (FileTally { changed: tally.changed, ..tally_of(now) }),
        decreases lines.len() - k,
    {
        let ghost here = checkpoint@.resumed(file_len)->Some_0;
        let ghost fresh = Progress::begin(here, ledger@);
        let ghost rest = lines.skip(k);
        let ghost n = lines_in_batch(fresh, rest, source@, max_events, max_bytes) as int;
        let ghost part = read_lines(fresh, rest.take(n), source@);
        let batch = ingest_file_batch_for_account(
            ledger,
            checkpoint,
            content,
            copy_source(source),
            max_events,
            max_bytes,
        );
        proof {
            batch_is_part_of_the_lines(fresh, rest, source@, max_events, max_bytes);
            unlimited_batch_reads_all(fresh, rest, source@, max_events, max_bytes);
            assert(now.followed_by(fresh) =~= now);
            reading_adds_up(now, fresh, rest.take(n), source@);
            assert(lines.take(k + n) =~= lines.take(k) + rest.take(n));
            reading_goes_on(begun, lines.take(k), rest.take(n), source@);
            now = now.followed_by(part);
            k = k + n;
            let ahead = content@.skip(start.offset as int);
            lines_behind(ahead, k);
            bytes_are_counted(begun, lines.take(k), source@);
            assert(ahead.skip(now.bytes as int) =~= content@.skip(now.checkpoint.offset as int));
            if now.checkpoint.offset == content@.len() {
                assert(ahead.skip(now.bytes as int).len() == 0);
                assert(lines.skip(k).len() == 0);
            }
        }
        tally.absorb(batch);
        if !batch.more_available {
            assert(k == lines.len());
            assert(lines.take(k) =~= lines);
            return tally;
        }
    }
}

/// Reads all whole lines of a file from the checkpoint on into the ledger.
pub fn ingest_file_for_account(
    ledger: &mut Ledger,
    checkpoint: &mut Checkpoint,
    content: &[u8],
    source: &Source,
) -> (tally: FileTally)
    requires
        old(ledger).wf(),
    ensures
        final(ledger).wf(),
        ({
            let (state, events, counted) = after_file(
                old(checkpoint)@,
                old(ledger)@,
                content@,
                source@,
            );
            &&& final(checkpoint)@ == state
            &&& final(ledger)@ == events
            &&& tally == counted
        }),
{
    ingest_in_batches(
        ledger,
        checkpoint,
        content,
        source,
        INGEST_BATCH_EVENT_LIMIT,
        INGEST_BATCH_BYTE_LIMIT,
    )
}

/// What reading a file does to its checkpoint and to the ledger, and what it counts: nothing where
/// there is nothing to read.
pub open spec fn after_file(
    checkpoint: CheckpointView,
    events: Seq<TokenEventView>,
    content: Seq<u8>,
    source: SourceView,
) -> (CheckpointView, Seq<TokenEventView>, FileTally) {
    match checkpoint.resumed(content.len() as u64) {
        Some(start) => {
            let read = file_read(start, events, content, source);
            (
                CheckpointView { file_len: content.len() as u64, ..read.checkpoint },
                read.events,
                tally_of(read),
            )
        },
        None => (
            checkpoint,
            events,
            FileTally {
                changed: false,
                events_inserted: 0,
                duplicates: 0,
                malformed: 0,
                last_event_at: None,
            },
        ),
    }
}

/// Reading lines stores the reports that they make, in their order.
pub proof fn reading_stores_the_reports(
    start: CheckpointView,
    events: Seq<TokenEventView>,
    lines: Seq<Seq<u8>>,
    source: SourceView,
)
    ensures
        ({
            let read = read_lines(Progress::begin(start, events), lines, source);
            let (checkpoint, reports) = ingest::after_lines(start, lines, source);
            read.checkpoint == checkpoint && read.events == ledger::recorded_all(events, reports)
        }),
    decreases lines.len(),
{
    let begun = Progress::begin(start, events);
    if lines.len() > 0 {
        let rest = lines.drop_last();
        reading_stores_the_reports(start, events, rest, source);
        assert(rest.push(lines.last()) =~= lines);
        read_one_more(begun, rest, lines.last(), source);
        let (before, reports) = ingest::after_lines(start, rest, source);
        if let EffectView::Reported(event) = ingest::after_line(before, lines.last(), source).1 {
            assert(reports.push(event).drop_last() =~= reports);
        }
    }
}

/// What is appended to bytes adds whole lines behind those that are there.
proof fn lines_of_longer_bytes(bytes: Seq<u8>, more: Seq<u8>)
    ensures
        ({
            let lines = whole_lines(bytes);
            let read = ingest::total_bytes(lines) as int;
            &&& read <= bytes.len()
            &&& whole_lines(bytes + more) == lines + whole_lines((bytes + more).skip(read))
        }),
    decreases bytes.len(),
{
    let lines = whole_lines(bytes);
    let all = bytes + more;
    let end = line_end(bytes) as int;
    line_end_is_first(bytes);
    if end > 0 && bytes[end - 1] == 10 {
        let rest = bytes.skip(end);
        lines_of_longer_bytes(rest, more);
        line_end_of_longer_bytes(bytes, more);
        assert(all.take(end) =~= bytes.take(end));
        assert(all.skip(end) =~= rest + more);
        let read = ingest::total_bytes(whole_lines(rest)) as int;
        total_with_first(bytes.take(end), whole_lines(rest));
        assert(all.skip(end + read) =~= (rest + more).skip(read));
        assert(whole_lines(all) =~= lines + whole_lines(all.skip(end + read)));
    } else {
        assert(all.skip(0) =~= all);
        assert(lines + whole_lines(all) =~= whole_lines(all));
    }
}

/// The first line feed stays the first one when bytes are appended.
proof fn line_end_of_longer_bytes(bytes: Seq<u8>, more: Seq<u8>)
    requires
        line_end(bytes) > 0,
        bytes[line_end(bytes) - 1] == 10,
    ensures
        line_end(bytes + more) == line_end(bytes),
    decreases bytes.len(),
{
    let all = bytes + more;
    assert(all[0] == bytes[0]);
    if bytes[0] != 10 {
        let rest = bytes.drop_first();
        assert(all.drop_first() =~= rest + more);
        line_end_is_first(rest);
        assert(rest.len() > 0) by {
            if rest.len() == 0 {
                assert(line_end(bytes) == 1);
            }
        }
        assert(rest[line_end(rest) - 1] == bytes[line_end(bytes) - 1]);
        line_end_of_longer_bytes(rest, more);
    }
}

/// The bytes of lines with one more in front.
proof fn total_with_first(first: Seq<u8>, lines: Seq<Seq<u8>>)
    ensures
        ingest::total_bytes(seq![first] + lines) == first.len() + ingest::total_bytes(lines),
    decreases lines.len(),
{
    let all = seq![first] + lines;
    if lines.len() == 0 {
        assert(all.drop_last() =~= Seq::<Seq<u8>>::empty());
        assert(all.last() == first);
        assert(ingest::total_bytes(all.drop_last()) == 0);
    } else {
        assert(all.drop_last() =~= seq![first] + lines.drop_last());
        assert(all.last() == lines.last());
        total_with_first(first, lines.drop_last());
    }
}

/// A log that grows is read as if it had been read at once: what is read before it grew and what
/// is read afterwards, from the checkpoint that was left, make up what one reading of the longer
/// log comes to.
pub proof fn growing_log_is_read_as_one(
    start: CheckpointView,
    events: Seq<TokenEventView>,
    content: Seq<u8>,
    more: Seq<u8>,
    kept_len: u64,
    source: SourceView,
)
    requires
        start.offset <= content.len(),
        content.len() + more.len() <= u64::MAX,
    ensures
        ({
            let first = file_read(start, events, content, source);
            let kept = CheckpointView { file_len: kept_len, ..first.checkpoint };
            let second = file_read(kept, first.events, content + more, source);
            first.followed_by(second) == file_read(start, events, content + more, source)
        }),
{
    let at = start.offset as int;
    let ahead = content.skip(at);
    let all = content + more;
    let begun = Progress::begin(start, events);
    let early = whole_lines(ahead);
    let first = file_read(start, events, content, source);
    let kept = CheckpointView { file_len: kept_len, ..first.checkpoint };
    let fresh = Progress::begin(kept, first.events);
    lines_of_longer_bytes(ahead, more);
    assert(all.skip(at) =~= ahead + more);
    bytes_are_counted(begun, early, source);
    reading_stores_the_reports(start, events, early, source);
    ingest::checkpoint_moves_past_each_line(start, early, source);
    let read = ingest::total_bytes(early) as int;
    let late = whole_lines(all.skip(at + read));
    assert(all.skip(at + read) =~= (ahead + more).skip(read));
    reading_goes_on(begun, early, late, source);
    assert(first.followed_by(fresh) =~= first);
    reading_adds_up(first, fresh, late, source);
}

/// A session log.
#[derive(Debug)]
pub struct SessionLog {
    pub path: String,
    pub content: Vec<u8>,
}

impl View for SessionLog {
    type V = (Seq<char>, Seq<u8>);

    open spec fn view(&self) -> (Seq<char>, Seq<u8>) {
        (self.path@, self.content@)
    }
}

/// What logs hold.
pub open spec fn log_views(logs: Seq<SessionLog>) -> Seq<(Seq<char>, Seq<u8>)> {
    logs.map_values(|log: SessionLog| log@)
}

/// What checkpoints say.
pub open spec fn checkpoint_views(checkpoints: Seq<Checkpoint>) -> Seq<CheckpointView> {
    checkpoints.map_values(|checkpoint: Checkpoint| checkpoint@)
}

/// What a scan comes to: the checkpoints, the ledger, the summary and the time of the last event.
#[verifier::ext_equal]
pub struct ScanView {
    pub checkpoints: Seq<CheckpointView>,
    pub events: Seq<TokenEventView>,
    pub summary: IngestSummary,
    pub last_event_at: Option<i64>,
}

impl ScanView {
    /// Before the first log.
    pub open spec fn begin(
        checkpoints: Seq<CheckpointView>,
        events: Seq<TokenEventView>,
        scanned_at_ms: i64,
    ) -> ScanView {
        ScanView {
            checkpoints,
            events,
            summary: IngestSummary {
                scanned_at_ms,
                files_checked: checkpoints.len() as u64,
                files_changed: 0,
                events_inserted: 0,
                duplicate_events_skipped: 0,
                malformed_lines: 0,
            },
            last_event_at: None,
        }
    }

    /// After one more log, the one that stands at this place.
    pub open spec fn after(self, at: int, log: (Seq<char>, Seq<u8>), account: Seq<char>) -> ScanView {
        let source = SourceView {
            account_key: account,
            path: log.0,
            scanned_at_ms: self.summary.scanned_at_ms,
        };
        let (checkpoint, events, tally) = after_file(
            self.checkpoints[at],
            self.events,
            log.1,
            source,
        );
        ScanView {
            checkpoints: self.checkpoints.update(at, checkpoint),
            events,
            summary: self.summary.with(tally),
            last_event_at: scan::latest_of(self.last_event_at, tally.last_event_at),
        }
    }
}

/// Reading logs one after the other, each from its own checkpoint.
pub open spec fn after_logs(
    start: ScanView,
    logs: Seq<(Seq<char>, Seq<u8>)>,
    account: Seq<char>,
) -> ScanView
    decreases logs.len(),
{
    if logs.len() == 0 {
        start
    } else {
        after_logs(start, logs.drop_last(), account).after(
            logs.len() - 1,
            logs.last(),
            account,
        )
    }
}

/// The checkpoints that a scan starts from: those that were kept, or none of them where the
/// timestamps of the ledger are to be filled in anew.
pub open spec fn scan_start(
    checkpoints: Seq<CheckpointView>,
    timestamp_schema_version: i64,
) -> Seq<CheckpointView> {
    if timestamp_schema_version < scan::TIMESTAMP_SCHEMA_VERSION {
        checkpoints.map_values(|checkpoint: CheckpointView| CheckpointView::start())
    } else {
        checkpoints
    }
}

/// A scan checks as many logs as there are, at one time.
proof fn scan_checks_all_logs(
    start: ScanView,
    logs: Seq<(Seq<char>, Seq<u8>)>,
    account: Seq<char>,
)
    ensures
        after_logs(start, logs, account).summary.files_checked == start.summary.files_checked,
        after_logs(start, logs, account).summary.scanned_at_ms == start.summary.scanned_at_ms,
    decreases logs.len(),
{
    if logs.len() > 0 {
        scan_checks_all_logs(start, logs.drop_last(), account);
    }
}

/// Reads logs into the ledger, each from its own checkpoint, and adds up what that comes to.
fn read_logs(
    ledger: &mut Ledger,
    logs: &Vec<SessionLog>,
    checkpoints: &mut Vec<Checkpoint>,
    account: &str,
    scanned_at_ms: i64,
) -> (outcome: (IngestSummary, Option<i64>))
    requires
        old(ledger).wf(),
        logs@.len() == old(checkpoints)@.len(),
    ensures
        final(ledger).wf(),
        ({
            let end = after_logs(
                ScanView::begin(
                    checkpoint_views(old(checkpoints)@),
                    old(ledger)@,
                    scanned_at_ms,
                ),
                log_views(logs@),
                account@,
            );
            &&& checkpoint_views(final(checkpoints)@) == end.checkpoints
            &&& final(ledger)@ == end.events
            &&& outcome == (end.summary, end.last_event_at)
        }),
{
    let ghost begun = ScanView::begin(checkpoint_views(checkpoints@), ledger@, scanned_at_ms);
    let ghost all = log_views(logs@);
    let mut summary = IngestSummary::new(scanned_at_ms, logs.len() as u64);
    let mut last_event_at: Option<i64> = None;
    let mut i: usize = 0;
    assert(all.take(0) =~= Seq::<(Seq<char>, Seq<u8>)>::empty());
    while i < logs.len()
        invariant
            ledger.wf(),
            i <= logs@.len(),
            logs@.len() == checkpoints@.len(),
            all == log_views(logs@),
            summary.scanned_at_ms == scanned_at_ms,
            after_logs(begun, all.take(i as int), account@) == (ScanView {
                checkpoints: checkpoint_views(checkpoints@),
                events: ledger@,
                summary,
                last_event_at,
            }),
        decreases logs@.len() - i,
    {
        let ghost now = after_logs(begun, all.take(i as int), account@);
        let log = &logs[i];
        let source = Source {
            account_key: account.to_owned(),
            path: log.path.clone(),
            scanned_at_ms,
        };
        assert(now.checkpoints[i as int] == checkpoints@[i as int]@);
        let tally = ingest_file_for_account(
            ledger,
            &mut checkpoints[i],
            log.content.as_slice(),
            &source,
        );
        summary.absorb(tally);
        last_event_at = scan::later_of(last_event_at, tally.last_event_at);
        proof {
            assert(all.take(i + 1).drop_last() =~= all.take(i as int));
            assert(all.take(i + 1).last() == log@);
            let next = now.after(i as int, log@, account@);
            assert(checkpoint_views(checkpoints@) =~= next.checkpoints);
        }
        i += 1;
    }
    assert(all.take(all.len() as int) =~= all);
    (summary, last_event_at)
}

/// Forgets how far the logs have been read.
fn forget_checkpoints(checkpoints: &mut Vec<Checkpoint>)
    ensures
        checkpoint_views(final(checkpoints)@) == checkpoint_views(old(checkpoints)@).map_values(
            |checkpoint: CheckpointView| CheckpointView::start(),
        ),
{
    let n: usize = checkpoints.len();
    let mut fresh: Vec<Checkpoint> = Vec::new();
    while fresh.len() < n
        invariant
            fresh@.len() <= n,
            forall|i: int| 0 <= i < fresh@.len() ==> (#[trigger] fresh@[i])@ == CheckpointView::start(),
        decreases n - fresh@.len(),
    {
        fresh.push(Checkpoint::default());
    }
    *checkpoints = fresh;
    assert(checkpoint_views(checkpoints@) =~= checkpoint_views(old(checkpoints)@).map_values(
        |checkpoint: CheckpointView| CheckpointView::start(),
    ));
}

/// Scans all logs for an account, which has to be confirmed: each is read from its own checkpoint
/// on, and what is kept about the last scan is brought up to date.
pub fn ingest_once(
    ledger: &mut Ledger,
    logs: &Vec<SessionLog>,
    checkpoints: &mut Vec<Checkpoint>,
    state: &mut IngestionState,
    account_key: Option<String>,
    scanned_at_ms: i64,
) -> (outcome: Result<IngestSummary, String>)
    requires
        old(ledger).wf(),
        logs@.len() == old(checkpoints)@.len(),
    ensures
        final(ledger).wf(),
        match account_key {
            Some(account) => {
                let start = scan_start(
                    checkpoint_views(old(checkpoints)@),
                    old(state).timestamp_schema_version,
                );
                let end = after_logs(
                    ScanView::begin(start, old(ledger)@, scanned_at_ms),
                    log_views(logs@),
                    account@,
                );
                &&& outcome == Ok::<IngestSummary, String>(end.summary)
                &&& checkpoint_views(final(checkpoints)@) == end.checkpoints
                &&& final(ledger)@ == end.events
                &&& final(state).last_scan_at_ms == Some(scanned_at_ms)
                &&& final(state).last_event_at_ms == match end.last_event_at {
                    Some(at) => Some(at),
                    None => old(state).last_event_at_ms,
                }
                &&& final(state).files_checked == logs@.len()
                &&& final(state).last_events_inserted == end.summary.events_inserted
                &&& final(state).last_error is None
                &&& final(state).timestamp_schema_version == scan::TIMESTAMP_SCHEMA_VERSION
            },
            None => {
                &&& outcome matches Err(error) && error@
                    == "account identity is not confirmed; local token ingestion is deferred"@
                &&& *final(ledger) == *old(ledger)
                &&& *final(checkpoints) == *old(checkpoints)
                &&& *final(state) == *old(state)
            },
        },
{
    let account = match required_active_account_key(account_key) {
        Ok(account) => account,
        Err(error) => {
            return Err(error);
        },
    };
    let ghost start = scan_start(checkpoint_views(checkpoints@), state.timestamp_schema_version);
    if state.needs_backfill() {
        forget_checkpoints(checkpoints);
    }
    assert(checkpoint_views(checkpoints@) =~= start);
    assert(start.len() == logs.len());
    proof {
        scan_checks_all_logs(
            ScanView::begin(start, ledger@, scanned_at_ms),
            log_views(logs@),
            account@,
        );
    }
    let (summary, last_event_at) = read_logs(
        ledger,
        logs,
        checkpoints,
        account.as_str(),
        scanned_at_ms,
    );
    let known = IngestionState {
        last_scan_at_ms: state.last_scan_at_ms,
        last_event_at_ms: state.last_event_at_ms,
        files_checked: state.files_checked,
        last_events_inserted: state.last_events_inserted,
        last_error: None,
        timestamp_schema_version: state.timestamp_schema_version,
    };
    *state = known.after_scan(&summary, last_event_at);
    Ok(summary)
}

/// When a log is read has no bearing on which events its lines report.
proof fn same_lines_report_the_same_events(
    start: CheckpointView,
    lines: Seq<Seq<u8>>,
    source: SourceView,
    later: SourceView,
)
    requires
        later == (SourceView { scanned_at_ms: later.scanned_at_ms, ..source }),
    ensures
        ({
            let (state, reports) = ingest::after_lines(start, lines, source);
            let (again, repeated) = ingest::after_lines(start, lines, later);
            &&& again == state
            &&& repeated.len() == reports.len()
            &&& forall|i: int|
                0 <= i < reports.len() ==> (#[trigger] repeated[i]).key() == reports[i].key()
        }),
    decreases lines.len(),
{
    if lines.len() > 0 {
        same_lines_report_the_same_events(start, lines.drop_last(), source, later);
    }
}

/// Reading a log anew from its start, at whatever time, adds no event to a ledger that it was read
/// into: the events stand where they stood, and at most their times are corrected.
pub proof fn rereading_a_log_adds_nothing(
    start: CheckpointView,
    events: Seq<TokenEventView>,
    content: Seq<u8>,
    source: SourceView,
    later: SourceView,
)
    requires
        later == (SourceView { scanned_at_ms: later.scanned_at_ms, ..source }),
    ensures
        ({
            let once = file_read(start, events, content, source).events;
            let again = file_read(start, once, content, later).events;
            &&& again.len() == once.len()
            &&& forall|i: int|
                0 <= i < once.len() ==> (#[trigger] again[i]).untimed() == once[i].untimed()
        }),
{
    let lines = whole_lines(content.skip(start.offset as int));
    let once = file_read(start, events, content, source).events;
    let reports = ingest::after_lines(start, lines, source).1;
    let repeated = ingest::after_lines(start, lines, later).1;
    reading_stores_the_reports(start, events, lines, source);
    reading_stores_the_reports(start, once, lines, later);
    same_lines_report_the_same_events(start, lines, source, later);
    assert forall|i: int| 0 <= i < repeated.len() implies ledger::holds(
        once,
        (#[trigger] repeated[i]).key(),
    ) by {
        assert(repeated[i].key() == reports[i].key());
        ledger::all_recorded_are_held(events, reports, i);
    }
    ledger::recording_held_events_adds_nothing(once, repeated);
}

/// A log that ends with a whole line has nothing to read after it was read, until its length
/// changes.
pub proof fn read_log_is_left_alone(
    checkpoint: CheckpointView,
    events: Seq<TokenEventView>,
    content: Seq<u8>,
    source: SourceView,
    later: SourceView,
)
    requires
        content.len() <= u64::MAX,
        content.len() > 0 ==> content.last() == 10,
    ensures
        ({
            let (state, stored, _) = after_file(checkpoint, events, content, source);
            let (again, same, tally) = after_file(state, stored, content, later);
            again == state && same == stored && !tally.changed
        }),
{
    if let Some(start) = checkpoint.resumed(content.len() as u64) {
        let ahead = content.skip(start.offset as int);
        let lines = whole_lines(ahead);
        assert(ahead.len() > 0 ==> ahead.last() == content.last());
        finished_lines_are_all(ahead);
        reading_stores_the_reports(start, events, lines, source);
        ingest::checkpoint_moves_past_each_line(start, lines, source);
    }
}

/// Bytes that end with a line feed are made of whole lines.
proof fn finished_lines_are_all(bytes: Seq<u8>)
    requires
        bytes.len() > 0 ==> bytes.last() == 10,
    ensures
        ingest::total_bytes(whole_lines(bytes)) == bytes.len(),
    decreases bytes.len(),
{
    line_end_is_first(bytes);
    let end = line_end(bytes) as int;
    if bytes.len() > 0 {
        assert(bytes[bytes.len() - 1] == 10);
        let rest = bytes.skip(end);
        assert(rest.len() > 0 ==> rest.last() == bytes.last());
        finished_lines_are_all(rest);
        total_with_first(bytes.take(end), whole_lines(rest));
    }
}

/// Lines one behind the other.
pub open spec fn glued(lines: Seq<Seq<u8>>) -> Seq<u8>
    decreases lines.len(),
{
    if lines.len() == 0 {
        Seq::empty()
    } else {
        lines[0] + glued(lines.drop_first())
    }
}

/// Every byte up to the last line feed is read once and in its order, and none behind it: the lines
/// put together are what the bytes begin with, each line ends at its first line feed, and what is
/// left over holds none.
pub proof fn lines_are_cut_at_every_line_feed(bytes: Seq<u8>)
    ensures
        ({
            let lines = whole_lines(bytes);
            let read = glued(lines);
            &&& read.len() <= bytes.len()
            &&& read == bytes.take(read.len() as int)
            &&& forall|i: int| read.len() <= i < bytes.len() ==> (#[trigger] bytes[i]) != 10
            &&& forall|k: int|
                0 <= k < lines.len() ==> (#[trigger] lines[k]).len() > 0 && lines[k].last() == 10
            &&& forall|k: int, i: int|
                0 <= k < lines.len() && 0 <= i < lines[k].len() - 1 ==> (#[trigger] lines[k][i])
                    != 10
        }),
    decreases bytes.len(),
{
    line_end_is_first(bytes);
    let end = line_end(bytes) as int;
    let lines = whole_lines(bytes);
    if 0 < end <= bytes.len() && bytes[end - 1] == 10 {
        let rest = bytes.skip(end);
        let first = bytes.take(end);
        lines_are_cut_at_every_line_feed(rest);
        let behind = whole_lines(rest);
        assert(lines[0] == first);
        assert(lines.drop_first() =~= behind);
        let read = glued(lines);
        assert(read =~= first + glued(behind));
        assert(read =~= bytes.take(read.len() as int)) by {
            assert forall|i: int| 0 <= i < read.len() implies read[i] == bytes[i] by {
                if i >= end {
                    assert(glued(behind)[i - end] == rest[i - end]);
                }
            }
        }
        assert forall|i: int| read.len() <= i < bytes.len() implies (#[trigger] bytes[i]) != 10 by {
            assert(rest[i - end] == bytes[i]);
        }
        assert forall|k: int| 0 <= k < lines.len() implies (#[trigger] lines[k]).len() > 0
            && lines[k].last() == 10 by {
            if k > 0 {
                assert(lines[k] == behind[k - 1]);
            }
        }
        assert forall|k: int, i: int|
            0 <= k < lines.len() && 0 <= i < lines[k].len() - 1 implies (#[trigger] lines[k][i])
            != 10 by {
            if k > 0 {
                assert(lines[k] == behind[k - 1]);
                assert(behind[k - 1][i] != 10);
            } else {
                assert(first[i] == bytes[i]);
            }
        }
    } else {
        assert forall|i: int| 0 <= i < bytes.len() implies (#[trigger] bytes[i]) != 10 by {
            if i == end - 1 {
                assert(bytes[end - 1] != 10);
            }
        }
        assert(glued(lines) =~= bytes.take(0));
    }
}

/// Each line is counted once, for what it is: a report as new where it changes the ledger and as a
/// duplicate where it does not, one that repeats its total as a duplicate, one without a time and a
/// line without a record as malformed, and any other line not at all.
pub proof fn each_line_is_counted_for_what_it_is(
    before: Progress,
    line: Seq<u8>,
    source: SourceView,
)
    ensures
        ({
            let after = before.after(line, source);
            let (checkpoint, effect) = ingest::after_line(before.checkpoint, line, source);
            &&& after.checkpoint == checkpoint
            &&& after.bytes == before.bytes + line.len()
            &&& after.inserted + after.duplicates + after.malformed == before.inserted
                + before.duplicates + before.malformed + (if effect is Absorbed { 0int } else {
                1
            })
            &&& after.inserted == before.inserted + (if after.events != before.events { 1int }
            else { 0 })
            &&& effect is Malformed || effect is Undated <==> after.malformed == before.malformed
                + 1
            &&& after.reports == before.reports + (if effect is Absorbed || effect is Malformed {
                0int
            } else {
                1
            })
            &&& effect matches EffectView::Reported(event) ==> after.events == ledger::recorded(
                before.events,
                event,
            )
            &&& !(effect is Reported) ==> after.events == before.events && after.last_event_at
                == before.last_event_at
            &&& effect matches EffectView::Reported(event) ==> after.events != before.events
                ==> match before.last_event_at {
                Some(known) => after.last_event_at == Some(
                    if event.reported_at_ms > known {
                        event.reported_at_ms
                    } else {
                        known
                    },
                ),
                None => after.last_event_at == Some(event.reported_at_ms),
            }
        }),
{
    let (_, effect) = ingest::after_line(before.checkpoint, line, source);
    if let EffectView::Reported(event) = effect {
        ledger::a_change_is_told_where_there_is_one(before.events, event);
    }
}

/// A scan reads each log from its own checkpoint for the account that is confirmed, and adds what it
/// counts to the summary: the checkpoints of other logs stay as they are.
pub proof fn a_scan_reads_each_log_by_itself(
    before: ScanView,
    at: int,
    log: (Seq<char>, Seq<u8>),
    account: Seq<char>,
    other: int,
)
    requires
        0 <= at < before.checkpoints.len(),
        0 <= other < before.checkpoints.len(),
        other != at,
    ensures
        ({
            let after = before.after(at, log, account);
            let source = SourceView {
                account_key: account,
                path: log.0,
                scanned_at_ms: before.summary.scanned_at_ms,
            };
            let (checkpoint, events, tally) = after_file(
                before.checkpoints[at],
                before.events,
                log.1,
                source,
            );
            &&& after.checkpoints.len() == before.checkpoints.len()
            &&& after.checkpoints[at] == checkpoint
            &&& after.checkpoints[other] == before.checkpoints[other]
            &&& after.events == events
            &&& before.summary.events_inserted + tally.events_inserted <= u64::MAX
                ==> after.summary.events_inserted == before.summary.events_inserted
                + tally.events_inserted
            &&& before.summary.duplicate_events_skipped + tally.duplicates <= u64::MAX
                ==> after.summary.duplicate_events_skipped
                == before.summary.duplicate_events_skipped + tally.duplicates
            &&& before.summary.malformed_lines + tally.malformed <= u64::MAX
                ==> after.summary.malformed_lines == before.summary.malformed_lines
                + tally.malformed
            &&& before.summary.files_changed < u64::MAX ==> after.summary.files_changed
                == before.summary.files_changed + (if tally.changed { 1int } else { 0 })
            &&& after.summary.files_checked == before.summary.files_checked
            &&& after.summary.scanned_at_ms == before.summary.scanned_at_ms
        }),
{
}

/// What reading a file leaves: a checkpoint that stands behind the last line feed and knows how long
/// the file was, and a tally of what was counted; a file without anything to read leaves everything
/// as it is.
pub proof fn a_file_is_read_up_to_its_last_line_feed(
    checkpoint: CheckpointView,
    events: Seq<TokenEventView>,
    content: Seq<u8>,
    source: SourceView,
)
    requires
        content.len() <= u64::MAX,
    ensures
        ({
            let (after, stored, tally) = after_file(checkpoint, events, content, source);
            match checkpoint.resumed(content.len() as u64) {
                Some(start) => {
                    &&& tally.changed
                    &&& after.file_len == content.len()
                    &&& after.offset <= content.len() || start.offset > content.len()
                    &&& start.offset <= content.len() ==> forall|i: int|
                        after.offset <= i < content.len() ==> (#[trigger] content[i]) != 10
                    &&& start.offset < after.offset <= content.len() ==> content[after.offset - 1]
                        == 10
                },
                None => after == checkpoint && stored == events && !tally.changed
                    && tally.events_inserted == 0 && tally.duplicates == 0 && tally.malformed == 0,
            }
        }),
{
    if let Some(start) = checkpoint.resumed(content.len() as u64) {
        if start.offset <= content.len() {
            let ahead = content.skip(start.offset as int);
            let lines = whole_lines(ahead);
            lines_are_cut_at_every_line_feed(ahead);
            glued_has_all_bytes(lines);
            reading_stores_the_reports(start, events, lines, source);
            ingest::checkpoint_moves_past_each_line(start, lines, source);
            let after = after_file(checkpoint, events, content, source).0;
            let read = glued(lines).len() as int;
            assert(after.offset == start.offset + read);
            assert forall|i: int| after.offset <= i < content.len() implies (#[trigger] content[i])
                != 10 by {
                assert(ahead[i - start.offset] == content[i]);
            }
            if read > 0 {
                glued_ends_like_the_last(lines);
                assert(glued(lines)[read - 1] == ahead[read - 1]);
            }
        }
    }
}

/// Lines that are put together have all their bytes.
proof fn glued_has_all_bytes(lines: Seq<Seq<u8>>)
    ensures
        glued(lines).len() == ingest::total_bytes(lines),
    decreases lines.len(),
{
    if lines.len() > 0 {
        glued_has_all_bytes(lines.drop_first());
        assert(seq![lines[0]] + lines.drop_first() =~= lines);
        total_with_first(lines[0], lines.drop_first());
    }
}

/// Lines that are put together end like the last of them.
proof fn glued_ends_like_the_last(lines: Seq<Seq<u8>>)
    requires
        lines.len() > 0,
        forall|k: int|
            0 <= k < lines.len() ==> (#[trigger] lines[k]).len() > 0 && lines[k].last() == 10,
    ensures
        glued(lines).len() > 0,
        glued(lines).last() == 10,
    decreases lines.len(),
{
    let rest = lines.drop_first();
    assert(lines[0].last() == 10);
    if rest.len() > 0 {
        assert forall|k: int| 0 <= k < rest.len() implies (#[trigger] rest[k]).len() > 0
            && rest[k].last() == 10 by {
            assert(rest[k] == lines[k + 1]);
        }
        glued_ends_like_the_last(rest);
        assert(glued(lines).last() == glued(rest).last());
    } else {
        assert(glued(rest).len() == 0);
        assert(glued(lines) =~= lines[0]);
    }
}

/// Logs are read anew from their start exactly where the ledger's timestamps are of an older
/// version.
pub proof fn old_timestamps_are_filled_in_anew(
    checkpoints: Seq<CheckpointView>,
    version: i64,
    i: int,
)
    requires
        0 <= i < checkpoints.len(),
    ensures
        scan_start(checkpoints, version).len() == checkpoints.len(),
        version < 2 ==> scan_start(checkpoints, version)[i] == CheckpointView::start(),
        version >= 2 ==> scan_start(checkpoints, version)[i] == checkpoints[i],
{
}

/// A batch goes on as long as it has read fewer bytes and fewer reports than its limits allow, where a
/// limit of zero counts as one; it reads at least one line where there is any.
pub proof fn a_batch_goes_on_below_its_limits(
    progress: Progress,
    lines: Seq<Seq<u8>>,
    source: SourceView,
    max_events: u64,
    max_bytes: u64,
)
    ensures
        max_events > 0 && max_bytes > 0 ==> (progress.is_within(max_events, max_bytes)
            <==> progress.bytes < max_bytes && progress.reports < max_events),
        progress.is_within(0, max_bytes) == progress.is_within(1, max_bytes),
        progress.is_within(max_events, 0) == progress.is_within(max_events, 1),
        lines.len() > 0 ==> lines_in_batch(progress, lines, source, max_events, max_bytes) >= 1,
{
}

/// A tally says what was counted, each thing by itself.
pub proof fn a_tally_says_what_was_counted(read: Progress)
    requires
        read.is_bounded(),
        read.bytes <= u64::MAX,
    ensures
        tally_of(read).changed,
        tally_of(read).events_inserted == read.inserted,
        tally_of(read).duplicates == read.duplicates,
        tally_of(read).malformed == read.malformed,
        tally_of(read).last_event_at == read.last_event_at,
{
}

/// Reading starts with nothing counted, from the checkpoint and the ledger that are there.
pub proof fn reading_starts_with_nothing_counted(
    checkpoint: CheckpointView,
    events: Seq<TokenEventView>,
)
    ensures
        ({
            let begun = Progress::begin(checkpoint, events);
            &&& begun.checkpoint == checkpoint
            &&& begun.events == events
            &&& begun.inserted == 0 && begun.duplicates == 0 && begun.malformed == 0
            &&& begun.bytes == 0 && begun.reports == 0
            &&& begun.last_event_at is None
        }),
{
}

/// A scan begins with nothing counted: it knows its time and how many logs there are to read.
pub proof fn a_scan_begins_with_nothing_counted(
    checkpoints: Seq<CheckpointView>,
    events: Seq<TokenEventView>,
    scanned_at_ms: i64,
)
    requires
        checkpoints.len() <= u64::MAX,
    ensures
        ({
            let begun = ScanView::begin(checkpoints, events, scanned_at_ms);
            &&& begun.checkpoints == checkpoints
            &&& begun.events == events
            &&& begun.last_event_at is None
            &&& begun.summary.scanned_at_ms == scanned_at_ms
            &&& begun.summary.files_checked == checkpoints.len()
            &&& begun.summary.files_changed == 0
            &&& begun.summary.events_inserted == 0
            &&& begun.summary.duplicate_events_skipped == 0
            &&& begun.summary.malformed_lines == 0
        }),
{
}

} // verus!
