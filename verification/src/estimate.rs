//! Estimates: the windows that they look at, how epochs compare, and what they warn of.
use vstd::prelude::*;

use crate::history;
use crate::history::saturating_difference;
use crate::history::QuotaWindow;
use crate::history::Snapshot;
use crate::history::SnapshotView;
use crate::history::WindowView;
use crate::quota;
use crate::quota::is_close;
use crate::quota::INFINITY_BITS;
use crate::quota::NEGATIVE_INFINITY_BITS;
use crate::quota::NEGATIVE_ZERO_BITS;
use crate::quota::ONE_BITS;
use crate::quota::TEN_BITS;
use crate::report::UsageGroup;
use crate::report::UsageTotals;
use crate::text;
use crate::text::decimal_text;
use crate::text::is_before;
use crate::text::join;
use crate::text::same_text;

verus! {

/// The version of the estimate of a weekly window.
pub const ESTIMATE_ALGORITHM_VERSION: &'static str = "quota-estimate-v2";

/// The version of the reconciliation.
pub const RECONCILIATION_ALGORITHM_VERSION: &'static str = "reconciliation-v2";

/// The version of the report on a calendar day.
pub const DAY_ALGORITHM_VERSION: &'static str = "calendar-day-v1";

/// The version of the comparison of epochs.
pub const CAPACITY_ALGORITHM_VERSION: &'static str = "historical-capacity-v1";

/// The smaller of two times.
pub open spec fn earlier(left: i64, right: i64) -> i64 {
    if left <= right {
        left
    } else {
        right
    }
}

/// The part of a quota's window that lies before a time.
pub open spec fn window_until(reset_at_ms: i64, duration_ms: i64, until_ms: i64) -> (i64, i64) {
    (history::capped_difference(reset_at_ms, duration_ms), earlier(until_ms, reset_at_ms))
}

/// The part of a quota's window that lies before a time.
fn bounds_until(reset_at_ms: i64, duration_ms: i64, until_ms: i64) -> (bounds: (i64, i64))
    ensures
        bounds == window_until(reset_at_ms, duration_ms, until_ms),
{
    let end = if until_ms <= reset_at_ms {
        until_ms
    } else {
        reset_at_ms
    };
    (saturating_difference(reset_at_ms, duration_ms), end)
}

/// The window of an estimate: from the start of the quota's window to the observation, where
/// `duration_ms` is how long the window lasts.
pub fn estimate_window(quota: Option<&Snapshot>, duration_ms: i64) -> (bounds: Result<
    (i64, i64),
    String,
>)
    ensures
        match quota {
            None => bounds matches Err(error) && error@ == "no quota snapshot is available yet"@,
            Some(quota) => match quota@.reset_at_ms {
                None => bounds matches Err(error) && error@
                    == "latest quota snapshot has no reset time"@,
                Some(reset) => bounds == Ok::<(i64, i64), String>(
                    window_until(reset, duration_ms, quota@.observed_at_ms),
                ),
            },
        },
        match estimate_bounds(
            match quota {
                Some(quota) => Some(quota@),
                None => None,
            },
            duration_ms,
        ) {
            Ok(expected) => bounds == Ok::<(i64, i64), String>(expected),
            Err(error) => bounds matches Err(found) && found@ == error,
        },
{
    match quota {
        None => Err("no quota snapshot is available yet".to_owned()),
        Some(quota) => match quota.reset_at_ms {
            None => Err("latest quota snapshot has no reset time".to_owned()),
            Some(reset) => Ok(bounds_until(reset, duration_ms, quota.observed_at_ms)),
        },
    }
}

/// The window of a reconciliation: up to now where there is a percentage to compare with now, and
/// else up to the observation.
pub fn reconciliation_window(
    quota: Option<&Snapshot>,
    duration_ms: i64,
    compared_at_ms: Option<i64>,
) -> (bounds: Result<(i64, i64), String>)
    ensures
        match quota {
            None => bounds matches Err(error) && error@
                == "no App Server quota snapshot is available yet"@,
            Some(quota) => match quota@.reset_at_ms {
                None => bounds matches Err(error) && error@
                    == "latest App Server quota snapshot has no reset time"@,
                Some(reset) => bounds == Ok::<(i64, i64), String>(
                    window_until(
                        reset,
                        duration_ms,
                        match compared_at_ms {
                            Some(at) => at,
                            None => quota@.observed_at_ms,
                        },
                    ),
                ),
            },
        },
        match reconciliation_bounds(
            match quota {
                Some(quota) => Some(quota@),
                None => None,
            },
            duration_ms,
            compared_at_ms,
        ) {
            Ok(expected) => bounds == Ok::<(i64, i64), String>(expected),
            Err(error) => bounds matches Err(found) && found@ == error,
        },
{
    match quota {
        None => Err("no App Server quota snapshot is available yet".to_owned()),
        Some(quota) => match quota.reset_at_ms {
            None => Err("latest App Server quota snapshot has no reset time".to_owned()),
            Some(reset) => {
                let until = match compared_at_ms {
                    Some(at) => at,
                    None => quota.observed_at_ms,
                };
                Ok(bounds_until(reset, duration_ms, until))
            },
        },
    }
}

/// The window of a reconciliation of an observation, where there is one.
pub open spec fn reconciliation_bounds(
    quota: Option<SnapshotView>,
    duration_ms: i64,
    compared_at_ms: Option<i64>,
) -> Result<(i64, i64), Seq<char>> {
    match quota {
        None => Err("no App Server quota snapshot is available yet"@),
        Some(quota) => match quota.reset_at_ms {
            None => Err("latest App Server quota snapshot has no reset time"@),
            Some(reset) => Ok(
                window_until(
                    reset,
                    duration_ms,
                    match compared_at_ms {
                        Some(at) => at,
                        None => quota.observed_at_ms,
                    },
                ),
            ),
        },
    }
}

/// A window never reaches past its reset.
pub proof fn windows_end_at_their_reset(reset_at_ms: i64, duration_ms: i64, until_ms: i64)
    ensures
        window_until(reset_at_ms, duration_ms, until_ms).1 <= reset_at_ms,
        window_until(reset_at_ms, duration_ms, until_ms).1 <= until_ms,
{
}

/// Whether a group has a limit.
pub open spec fn has_limit(group: UsageGroup, limit_id: Seq<char>) -> bool {
    text::opt_view(group.limit_id) == Some(limit_id)
}

/// Whether one of the groups has a limit.
pub open spec fn some_group_has(groups: Seq<UsageGroup>, limit_id: Seq<char>) -> bool {
    exists|g: int| 0 <= g < groups.len() && has_limit(#[trigger] groups[g], limit_id)
}

/// Whether a list holds the limits of groups, each once and in their order.
pub open spec fn lists_limits(ids: Seq<Seq<char>>, groups: Seq<UsageGroup>) -> bool {
    &&& forall|i: int, j: int|
        0 <= i < j < ids.len() ==> text::text_before(#[trigger] ids[i], #[trigger] ids[j])
    &&& forall|id: Seq<char>| #[trigger] ids.contains(id) <==> some_group_has(groups, id)
}

/// The limits of groups, each once and in their order.
pub open spec fn limit_list(groups: Seq<UsageGroup>) -> Seq<Seq<char>> {
    choose|ids: Seq<Seq<char>>| lists_limits(ids, groups)
}

/// What is said where the quota's limit is none of those that the local events have.
pub open spec fn mismatch(limit_id: Seq<char>, ids: Seq<Seq<char>>) -> Seq<char> {
    "Quota limit_id is "@ + limit_id + ", but local token events use "@ + text::joined(ids, ", "@)
        + "; projection is low confidence."@
}

/// What is said about every estimate.
pub open spec fn projection_limit() -> Seq<char> {
    "Projection covers local JSONL logs only; web, cloud, other-device, and missing logs are not recoverable."@
}

/// What an estimate warns of, where the local events have these limits.
pub open spec fn estimate_warned(
    local: Seq<Seq<char>>,
    limit_id: Option<Seq<char>>,
    ids: Seq<Seq<char>>,
) -> Seq<Seq<char>> {
    let compared = match limit_id {
        Some(limit_id) => if ids.len() > 0 && !ids.contains(limit_id) {
            local.push(mismatch(limit_id, ids))
        } else {
            local
        },
        None => local,
    };
    compared.push(projection_limit())
}

/// Copies texts.
fn copy_texts(texts: &Vec<String>) -> (copy: Vec<String>)
    ensures
        text::views(copy@) == text::views(texts@),
{
    let mut copy: Vec<String> = Vec::new();
    let mut i: usize = 0;
    while i < texts.len()
        invariant
            i <= texts@.len(),
            text::views(copy@) =~= text::views(texts@).take(i as int),
        decreases texts@.len() - i,
    {
        let ghost before = text::views(copy@);
        copy.push(texts[i].clone());
        assert(text::views(copy@) =~= before.push(texts@[i as int]@));
        i += 1;
    }
    assert(text::views(texts@).take(texts@.len() as int) =~= text::views(texts@));
    copy
}

/// Adds a text to texts.
fn push_text(texts: &mut Vec<String>, text: String)
    ensures
        text::views(final(texts)@) == text::views(old(texts)@).push(text@),
{
    let ghost before = text::views(texts@);
    let ghost said = text@;
    texts.push(text);
    assert(text::views(texts@) =~= before.push(said));
}

/// Adds a limit to ordered limits, unless it is there.
fn add_limit(ids: &mut Vec<String>, limit_id: &String)
    requires
        forall|i: int, j: int|
            0 <= i < j < old(ids)@.len() ==> text::text_before(
                #[trigger] text::views(old(ids)@)[i],
                #[trigger] text::views(old(ids)@)[j],
            ),
    ensures
        forall|i: int, j: int|
            0 <= i < j < final(ids)@.len() ==> text::text_before(
                #[trigger] text::views(final(ids)@)[i],
                #[trigger] text::views(final(ids)@)[j],
            ),
        forall|id: Seq<char>| #[trigger]
            text::views(final(ids)@).contains(id) <==> id == limit_id@ || text::views(
                old(ids)@,
            ).contains(id),
{
    let ghost before = text::views(ids@);
    let mut at: usize = 0;
    while at < ids.len() && is_before(ids[at].as_str(), limit_id.as_str())
        invariant
            at <= ids@.len(),
            before == text::views(ids@),
            forall|i: int| 0 <= i < at ==> text::text_before(#[trigger] before[i], limit_id@),
        decreases ids@.len() - at,
    {
        assert(before[at as int] == ids@[at as int]@);
        at += 1;
    }
    if at < ids.len() && same_text(ids[at].as_str(), limit_id.as_str()) {
        proof {
            assert(before[at as int] == ids@[at as int]@);
            assert(before.contains(limit_id@));
        }
        return ;
    }
    ids.insert(at, limit_id.clone());
    proof {
        let after = text::views(ids@);
        assert(after =~= before.insert(at as int, limit_id@));
        if at < before.len() {
            assert(after[at + 1] == before[at as int]);
            text::text_order_is_total(before[at as int], limit_id@);
        }
        assert forall|i: int, j: int| 0 <= i < j < after.len() implies text::text_before(
            #[trigger] after[i],
            #[trigger] after[j],
        ) by {
            let left = if i < at {
                i
            } else {
                i - 1
            };
            let right = if j < at {
                j
            } else {
                j - 1
            };
            if i != at && j != at {
                assert(text::text_before(before[left], before[right]));
            } else if i == at {
                assert(text::text_before(limit_id@, before[at as int]));
                if right > at {
                    assert(text::text_before(before[at as int], before[right]));
                    text::text_order_is_transitive(limit_id@, before[at as int], before[right]);
                }
            }
        }
        assert forall|id: Seq<char>| #[trigger] after.contains(id) <==> id == limit_id@
            || before.contains(id) by {
            assert(after[at as int] == limit_id@);
            if before.contains(id) {
                let i = choose|i: int| 0 <= i < before.len() && before[i] == id;
                if i < at {
                    assert(after[i] == id);
                } else {
                    assert(after[i + 1] == id);
                }
            }
            if after.contains(id) && id != limit_id@ {
                let i = choose|i: int| 0 <= i < after.len() && after[i] == id;
                if i < at {
                    assert(before[i] == id);
                } else {
                    assert(before[i - 1] == id);
                }
            }
        }
    }
}

/// The limits of groups, each once and in their order.
fn limits_of(groups: &Vec<UsageGroup>) -> (ids: Vec<String>)
    ensures
        lists_limits(text::views(ids@), groups@),
{
    let mut ids: Vec<String> = Vec::new();
    let mut i: usize = 0;
    while i < groups.len()
        invariant
            i <= groups@.len(),
            forall|a: int, b: int|
                0 <= a < b < ids@.len() ==> text::text_before(
                    #[trigger] text::views(ids@)[a],
                    #[trigger] text::views(ids@)[b],
                ),
            forall|id: Seq<char>| #[trigger]
                text::views(ids@).contains(id) <==> exists|g: int|
                    0 <= g < i && has_limit(#[trigger] groups@[g], id),
        decreases groups@.len() - i,
    {
        let ghost before = text::views(ids@);
        if let Some(limit_id) = &groups[i].limit_id {
            add_limit(&mut ids, limit_id);
            assert(has_limit(groups@[i as int], limit_id@));
        }
        proof {
            assert forall|id: Seq<char>| #[trigger]
                text::views(ids@).contains(id) <==> exists|g: int|
                    0 <= g < i + 1 && has_limit(#[trigger] groups@[g], id) by {
                if before.contains(id) {
                    let g = choose|g: int| 0 <= g < i && has_limit(#[trigger] groups@[g], id);
                    assert(has_limit(groups@[g], id));
                }
            }
        }
        i += 1;
    }
    ids
}

/// Whether a text is among texts.
fn is_among(texts: &Vec<String>, text: &str) -> (found: bool)
    ensures
        found == text::views(texts@).contains(text@),
{
    let mut i: usize = 0;
    while i < texts.len()
        invariant
            i <= texts@.len(),
            forall|j: int| 0 <= j < i ==> (#[trigger] text::views(texts@)[j]) != text@,
        decreases texts@.len() - i,
    {
        assert(text::views(texts@)[i as int] == texts@[i as int]@);
        if same_text(texts[i].as_str(), text) {
            return true;
        }
        i += 1;
    }
    false
}

/// What an estimate warns of.
pub fn estimate_warnings(
    local_warnings: &Vec<String>,
    groups: &Vec<UsageGroup>,
    quota_limit_id: &Option<String>,
) -> (warnings: Vec<String>)
    ensures
        text::views(warnings@) == estimate_warned(
            text::views(local_warnings@),
            text::opt_view(*quota_limit_id),
            limit_list(groups@),
        ),
{
    let mut warnings = copy_texts(local_warnings);
    let ids = limits_of(groups);
    proof {
        assert(lists_limits(text::views(ids@), groups@));
        limits_are_listed_one_way(text::views(ids@), limit_list(groups@), groups@);
        assert(ids@.len() == text::views(ids@).len());
    }
    if let Some(limit_id) = quota_limit_id {
        if ids.len() > 0 && !is_among(&ids, limit_id.as_str()) {
            let mut message = "Quota limit_id is ".to_owned();
            message.append(limit_id.as_str());
            message.append(", but local token events use ");
            message.append(join(&ids, ", ").as_str());
            message.append("; projection is low confidence.");
            assert(message@ =~= mismatch(limit_id@, text::views(ids@)));
            push_text(&mut warnings, message);
        }
    }
    push_text(
        &mut warnings,
        "Projection covers local JSONL logs only; web, cloud, other-device, and missing logs are not recoverable.".to_owned(),
    );
    warnings
}

/// The list of limits that a warning names is determined by the groups.
pub proof fn limits_are_listed_one_way(
    left: Seq<Seq<char>>,
    right: Seq<Seq<char>>,
    groups: Seq<UsageGroup>,
)
    requires
        lists_limits(left, groups),
        lists_limits(right, groups),
    ensures
        left == right,
{
    assert forall|id: Seq<char>| left.contains(id) == right.contains(id) by {
        assert(left.contains(id) <==> some_group_has(groups, id));
        assert(right.contains(id) <==> some_group_has(groups, id));
    }
    ordered_lists_agree(left, right);
}

/// Two strictly ordered lists with the same texts are the same.
proof fn ordered_lists_agree(left: Seq<Seq<char>>, right: Seq<Seq<char>>)
    requires
        forall|i: int, j: int|
            0 <= i < j < left.len() ==> text::text_before(#[trigger] left[i], #[trigger] left[j]),
        forall|i: int, j: int|
            0 <= i < j < right.len() ==> text::text_before(
                #[trigger] right[i],
                #[trigger] right[j],
            ),
        forall|id: Seq<char>| left.contains(id) == right.contains(id),
    ensures
        left == right,
    decreases left.len(),
{
    if left.len() == 0 || right.len() == 0 {
        if left.len() > 0 {
            assert(left.contains(left[0]));
        }
        if right.len() > 0 {
            assert(right.contains(right[0]));
        }
        assert(left =~= right);
    } else {
        let (a, b) = (left.last(), right.last());
        assert(a == b) by {
            assert(left[left.len() - 1] == a);
            assert(left.contains(a));
            assert(right[right.len() - 1] == b);
            assert(right.contains(b));
            let i = choose|i: int| 0 <= i < right.len() && right[i] == a;
            let j = choose|j: int| 0 <= j < left.len() && left[j] == b;
            if i < right.len() - 1 && j < left.len() - 1 {
                text::text_order_is_transitive(a, b, a);
                text::text_order_is_irreflexive(a);
            }
        }
        let (x, y) = (left.drop_last(), right.drop_last());
        assert forall|id: Seq<char>| x.contains(id) == y.contains(id) by {
            if x.contains(id) {
                let i = choose|i: int| 0 <= i < x.len() && x[i] == id;
                assert(left[i] == id);
                assert(left.contains(id));
                let j = choose|j: int| 0 <= j < right.len() && right[j] == id;
                if j == right.len() - 1 {
                    assert(text::text_before(left[i], left[left.len() - 1]));
                    text::text_order_is_irreflexive(id);
                } else {
                    assert(y[j] == id);
                }
            }
            if y.contains(id) {
                let i = choose|i: int| 0 <= i < y.len() && y[i] == id;
                assert(right[i] == id);
                assert(right.contains(id));
                let j = choose|j: int| 0 <= j < left.len() && left[j] == id;
                if j == left.len() - 1 {
                    assert(text::text_before(right[i], right[right.len() - 1]));
                    text::text_order_is_irreflexive(id);
                } else {
                    assert(x[j] == id);
                }
            }
        }
        ordered_lists_agree(x, y);
        assert(left =~= x.push(a));
        assert(right =~= y.push(b));
    }
}

/// What is said about every reconciliation.
pub open spec fn reconciliation_limit() -> Seq<char> {
    "The App Server and web UI are server-side quota observations; local JSONL is a separate detail ledger and may omit web, cloud, other-device, or missing-log usage."@
}

/// What is said where the observation is much older than what it is compared with.
pub open spec fn stale_snapshot(age_ms: int) -> Seq<char> {
    "The App Server snapshot is "@ + text::decimal((age_ms / 60_000) as nat)
        + " minutes older than the web observation; refresh age can explain part of the percentage delta."@
}

/// What a reconciliation warns of.
pub open spec fn reconciliation_warned(
    local: Seq<Seq<char>>,
    compared: bool,
    age_ms: i64,
) -> Seq<Seq<char>> {
    let first = local.push(reconciliation_limit());
    if compared && age_ms > 900_000 {
        first.push(stale_snapshot(age_ms as int))
    } else {
        first
    }
}

/// What a reconciliation warns of, where the observation is so old.
pub fn reconciliation_warnings(local_warnings: &Vec<String>, compared: bool, age_ms: i64) -> (
    warnings: Vec<String>)
    ensures
        text::views(warnings@) == reconciliation_warned(
            text::views(local_warnings@),
            compared,
            age_ms,
        ),
{
    let mut warnings = copy_texts(local_warnings);
    push_text(
        &mut warnings,
        "The App Server and web UI are server-side quota observations; local JSONL is a separate detail ledger and may omit web, cloud, other-device, or missing-log usage.".to_owned(),
    );
    if compared && age_ms > 900_000 {
        let mut message = "The App Server snapshot is ".to_owned();
        message.append(decimal_text((age_ms / 60_000) as u64).as_str());
        message.append(
            " minutes older than the web observation; refresh age can explain part of the percentage delta.",
        );
        assert(message@ =~= stale_snapshot(age_ms as int));
        push_text(&mut warnings, message);
    }
    warnings
}

/// The tokens of totals: what went in and what came out.
pub open spec fn tokens_of(totals: UsageTotals) -> u64 {
    if totals.input_tokens + totals.output_tokens <= u64::MAX {
        (totals.input_tokens + totals.output_tokens) as u64
    } else {
        u64::MAX
    }
}

/// The tokens that an epoch used locally.
pub fn local_tokens(totals: &UsageTotals) -> (tokens: u64)
    ensures
        tokens == if totals.input_tokens + totals.output_tokens <= u64::MAX {
            totals.input_tokens + totals.output_tokens
        } else {
            u64::MAX as int
        },
        tokens == tokens_of(*totals),
{
    totals.input_tokens.saturating_add(totals.output_tokens)
}

/// Whether an observation was made in an epoch: it is of the epoch's limit and duration, resets at
/// about the same time, and was made while the epoch was seen.
pub open spec fn is_point(snapshot: SnapshotView, gap: u64, window: WindowView) -> bool {
    &&& snapshot.account_key == window.account_key
    &&& snapshot.limit_id == Some(window.limit_id)
    &&& quota::is_same(gap)
    &&& snapshot.reset_at_ms matches Some(reset) && history::apart(reset, window.reset_at_ms)
        <= history::RESET_JITTER_TOLERANCE_MS
    &&& window.first_seen_at_ms <= snapshot.observed_at_ms <= window.last_seen_at_ms
}

/// Whether an observation was made in an epoch, where `gap` holds the bits of the difference between
/// their durations.
pub fn is_point_of(snapshot: &Snapshot, gap: u64, window: &QuotaWindow) -> (answer: bool)
    ensures
        answer == is_point(snapshot@, gap, window@),
{
    let same_limit = match &snapshot.limit_id {
        Some(limit_id) => same_text(limit_id.as_str(), window.limit_id.as_str()),
        None => false,
    };
    let same_reset = match snapshot.reset_at_ms {
        Some(reset) => {
            let late: i128 = reset as i128 - window.reset_at_ms as i128;
            late <= 300_000 && late >= -300_000
        },
        None => false,
    };
    same_text(snapshot.account_key.as_str(), window.account_key.as_str()) && same_limit && is_close(
        gap,
    ) && same_reset && window.first_seen_at_ms <= snapshot.observed_at_ms && snapshot.observed_at_ms <= window.last_seen_at_ms
}

/// Whether an observation is the first one that was made in an epoch. `gaps` holds for each
/// observation the bits of the difference between its duration and the epoch's.
pub open spec fn is_first_point(
    snapshots: Seq<SnapshotView>,
    gaps: Seq<u64>,
    window: WindowView,
    i: int,
) -> bool {
    &&& 0 <= i < snapshots.len()
    &&& is_point(snapshots[i], gaps[i], window)
    &&& forall|j: int|
        0 <= j < snapshots.len() && j != i && is_point(#[trigger] snapshots[j], gaps[j], window)
            ==> history::is_newer(snapshots, j, i)
}

/// Whether an observation is the last one that was made in an epoch.
pub open spec fn is_last_point(
    snapshots: Seq<SnapshotView>,
    gaps: Seq<u64>,
    window: WindowView,
    i: int,
) -> bool {
    &&& 0 <= i < snapshots.len()
    &&& is_point(snapshots[i], gaps[i], window)
    &&& forall|j: int|
        0 <= j < snapshots.len() && j != i && is_point(#[trigger] snapshots[j], gaps[j], window)
            ==> history::is_newer(snapshots, i, j)
}

/// The first and the last observation that were made in an epoch, by their places; nothing where
/// none was made.
pub fn epoch_ends(snapshots: &Vec<Snapshot>, gaps: &Vec<u64>, window: &QuotaWindow) -> (ends: Option<
    (usize, usize),
>)
    requires
        gaps@.len() == snapshots@.len(),
    ensures
        match ends {
            Some((first, last)) => {
                let all = history::snapshot_views(snapshots@);
                &&& is_first_point(all, gaps@, window@, first as int)
                &&& is_last_point(all, gaps@, window@, last as int)
            },
            None => forall|i: int|
                0 <= i < snapshots@.len() ==> !is_point(
                    (#[trigger] snapshots@[i])@,
                    gaps@[i],
                    window@,
                ),
        },
{
    let ghost all = history::snapshot_views(snapshots@);
    let mut ends: Option<(usize, usize)> = None;
    let mut i: usize = 0;
    while i < snapshots.len()
        invariant
            gaps@.len() == snapshots@.len(),
            all == history::snapshot_views(snapshots@),
            i <= snapshots@.len(),
            match ends {
                Some((first, last)) => {
                    &&& first < i && last < i
                    &&& is_point(all[first as int], gaps@[first as int], window@)
                    &&& is_point(all[last as int], gaps@[last as int], window@)
                    &&& forall|j: int|
                        0 <= j < i && is_point(#[trigger] all[j], gaps@[j], window@) ==> (j == first
                            || history::is_newer(all, j, first as int)) && (j == last
                            || history::is_newer(all, last as int, j))
                },
                None => forall|j: int|
                    0 <= j < i ==> !is_point((#[trigger] snapshots@[j])@, gaps@[j], window@),
            },
        decreases snapshots@.len() - i,
    {
        let snapshot = &snapshots[i];
        assert(all[i as int] == snapshot@);
        assert forall|j: int| 0 <= j < i implies #[trigger] all[j] == snapshots@[j]@ by {}
        if is_point_of(snapshot, gaps[i], window) {
            match ends {
                Some((first, last)) => {
                    let earliest = if snapshot.observed_at_ms < snapshots[first].observed_at_ms {
                        i
                    } else {
                        first
                    };
                    let latest = if snapshot.observed_at_ms >= snapshots[last].observed_at_ms {
                        i
                    } else {
                        last
                    };
                    ends = Some((earliest, latest));
                },
                None => {
                    ends = Some((i, i));
                },
            }
        }
        i += 1;
    }
    ends
}

/// What is known of an epoch: the tokens that it implies for the whole window, and by their bits
/// the percentage of its first observation and by how much it rose.
#[derive(Clone, Copy, Debug, PartialEq, Eq, Structural)]
pub struct EpochEvidence {
    pub implied_tokens: Option<u64>,
    pub first_percent_bits: Option<u64>,
    pub rise_bits: Option<u64>,
}

impl EpochEvidence {
    /// Whether the epoch was seen from its start on, and far enough.
    pub open spec fn is_broad(self) -> bool {
        &&& self.first_percent_bits matches Some(bits) && quota::is_at_most_one(bits)
        &&& self.rise_bits matches Some(bits) && quota::is_at_least_ten(bits)
    }

    /// Whether the epoch was seen from its start on, and far enough.
    fn covers_much(&self) -> (answer: bool)
        ensures
            answer == self.is_broad(),
    {
        let from_the_start = match self.first_percent_bits {
            Some(bits) => bits <= ONE_BITS || (bits >= NEGATIVE_ZERO_BITS && bits
                <= NEGATIVE_INFINITY_BITS),
            None => false,
        };
        let far = match self.rise_bits {
            Some(bits) => bits >= TEN_BITS && bits <= INFINITY_BITS,
            None => false,
        };
        from_the_start && far
    }
}

/// How an epoch compares: with which earlier estimate, and how sure that is.
#[derive(Clone, Copy, Debug, PartialEq, Eq)]
pub struct EpochComparison {
    /// The earlier estimate and this one.
    pub compared: Option<(u64, u64)>,
    pub confidence: Confidence,
}

/// How sure an estimate of an epoch is.
#[derive(Clone, Copy, Debug, PartialEq, Eq, Structural)]
pub enum Confidence {
    Higher,
    PartialWindow,
    InsufficientObservations,
}

impl Confidence {
    /// The word for a confidence.
    pub fn as_str(self) -> (word: &'static str)
        ensures
            word@ == match self {
                Confidence::Higher => "higher"@,
                Confidence::PartialWindow => "partial-window"@,
                Confidence::InsufficientObservations => "insufficient-observations"@,
            },
    {
        match self {
            Confidence::Higher => "higher",
            Confidence::PartialWindow => "partial-window",
            Confidence::InsufficientObservations => "insufficient-observations",
        }
    }
}

/// The last estimate among epochs.
pub open spec fn last_estimate(epochs: Seq<EpochEvidence>) -> Option<u64>
    decreases epochs.len(),
{
    if epochs.len() == 0 {
        None
    } else {
        match epochs.last().implied_tokens {
            Some(tokens) => Some(tokens),
            None => last_estimate(epochs.drop_last()),
        }
    }
}

/// How an epoch compares with the last estimate before it.
pub open spec fn comparison(previous: Option<u64>, epoch: EpochEvidence) -> EpochComparison {
    EpochComparison {
        compared: match (previous, epoch.implied_tokens) {
            (Some(previous), Some(current)) => if previous > 0 {
                Some((previous, current))
            } else {
                None
            },
            _ => None,
        },
        confidence: if epoch.is_broad() {
            Confidence::Higher
        } else if epoch.implied_tokens is Some {
            Confidence::PartialWindow
        } else {
            Confidence::InsufficientObservations
        },
    }
}

/// How epochs compare, each with the last estimate before it.
pub fn compare_epochs(epochs: &Vec<EpochEvidence>) -> (comparisons: Vec<EpochComparison>)
    ensures
        comparisons@.len() == epochs@.len(),
        forall|i: int|
            0 <= i < epochs@.len() ==> (#[trigger] comparisons@[i]) == comparison(
                last_estimate(epochs@.take(i)),
                epochs@[i],
            ),
{
    let mut comparisons: Vec<EpochComparison> = Vec::new();
    let mut previous: Option<u64> = None;
    let mut i: usize = 0;
    assert(epochs@.take(0) =~= Seq::<EpochEvidence>::empty());
    while i < epochs.len()
        invariant
            i <= epochs@.len(),
            comparisons@.len() == i,
            previous == last_estimate(epochs@.take(i as int)),
            forall|j: int|
                0 <= j < i ==> (#[trigger] comparisons@[j]) == comparison(
                    last_estimate(epochs@.take(j)),
                    epochs@[j],
                ),
        decreases epochs@.len() - i,
    {
        let epoch = epochs[i];
        assert(epochs@.take(i + 1).drop_last() =~= epochs@.take(i as int));
        let compared = match (previous, epoch.implied_tokens) {
            (Some(known), Some(current)) => if known > 0 {
                Some((known, current))
            } else {
                None
            },
            _ => None,
        };
        let confidence = if epoch.covers_much() {
            Confidence::Higher
        } else if epoch.implied_tokens.is_some() {
            Confidence::PartialWindow
        } else {
            Confidence::InsufficientObservations
        };
        comparisons.push(EpochComparison { compared, confidence });
        if epoch.implied_tokens.is_some() {
            previous = epoch.implied_tokens;
        }
        i += 1;
    }
    comparisons
}

/// What is said about every comparison of epochs.
pub fn capacity_warnings() -> (warnings: Vec<String>)
    ensures
        text::views(warnings@) == seq![
            "Capacity is inferred from local raw tokens per observed official percentage point; it is not a documented OpenAI quota formula."@,
            "Cloud, web, other-device and missing local logs can make epochs incomparable."@,
        ],
{
    let mut warnings: Vec<String> = Vec::new();
    assert(text::views(warnings@) =~= Seq::<Seq<char>>::empty());
    push_text(
        &mut warnings,
        "Capacity is inferred from local raw tokens per observed official percentage point; it is not a documented OpenAI quota formula.".to_owned(),
    );
    push_text(
        &mut warnings,
        "Cloud, web, other-device and missing local logs can make epochs incomparable.".to_owned(),
    );
    assert(text::views(warnings@) =~= seq![
        "Capacity is inferred from local raw tokens per observed official percentage point; it is not a documented OpenAI quota formula."@,
        "Cloud, web, other-device and missing local logs can make epochs incomparable."@,
    ]);
    warnings
}

/// A window lasts its own duration up to its reset, and is looked at up to the given time.
pub proof fn a_window_lasts_its_duration(reset_at_ms: i64, duration_ms: i64, until_ms: i64)
    ensures
        ({
            let (start, end) = window_until(reset_at_ms, duration_ms, until_ms);
            &&& i64::MIN <= reset_at_ms - duration_ms <= i64::MAX ==> start + duration_ms
                == reset_at_ms
            &&& until_ms <= reset_at_ms ==> end == until_ms
            &&& until_ms > reset_at_ms ==> end == reset_at_ms
        }),
{
}

/// An estimate says everything that the local report warns of, then where the quota is of another
/// limit than all local events, and at its end always what it cannot cover.
pub proof fn an_estimate_admits_what_it_lacks(
    local: Seq<Seq<char>>,
    limit_id: Option<Seq<char>>,
    ids: Seq<Seq<char>>,
)
    ensures
        ({
            let warned = estimate_warned(local, limit_id, ids);
            let foreign = limit_id matches Some(limit_id) && ids.len() > 0 && !ids.contains(
                limit_id,
            );
            &&& warned.take(local.len() as int) == local
            &&& warned.last() == projection_limit()
            &&& foreign ==> warned.len() == local.len() + 2
            &&& !foreign ==> warned.len() == local.len() + 1
        }),
{
    let warned = estimate_warned(local, limit_id, ids);
    assert(warned.take(local.len() as int) =~= local);
}

/// A reconciliation says everything that the local report warns of, then that the sources are
/// separate, and that the observation is old exactly where it is compared after more than a quarter
/// of an hour.
pub proof fn a_reconciliation_admits_what_it_lacks(
    local: Seq<Seq<char>>,
    compared: bool,
    age_ms: i64,
)
    ensures
        ({
            let warned = reconciliation_warned(local, compared, age_ms);
            &&& warned.take(local.len() as int) == local
            &&& warned[local.len() as int] == reconciliation_limit()
            &&& compared && age_ms > 900_000 ==> warned.len() == local.len() + 2
            &&& !compared || age_ms <= 900_000 ==> warned.len() == local.len() + 1
        }),
{
    let warned = reconciliation_warned(local, compared, age_ms);
    assert(warned.take(local.len() as int) =~= local);
}

/// Which observations belong to an epoch: those of its account and limit that last as long, reset
/// within five minutes of it, and were made from its first to its last sighting.
pub proof fn an_epoch_has_its_own_observations(
    snapshot: SnapshotView,
    gap: u64,
    window: WindowView,
)
    ensures
        is_point(snapshot, gap, window) <==> {
            &&& snapshot.account_key == window.account_key
            &&& snapshot.limit_id == Some(window.limit_id)
            &&& gap < 0x3eb0_c6f7_a0b5_ed8d
            &&& match snapshot.reset_at_ms {
                Some(reset) => -300_000 <= reset - window.reset_at_ms <= 300_000,
                None => false,
            }
            &&& window.first_seen_at_ms <= snapshot.observed_at_ms
            &&& snapshot.observed_at_ms <= window.last_seen_at_ms
        },
{
}

/// The ends of an epoch are its earliest and its latest observation: none of it was made before the
/// first or after the last.
pub proof fn an_epoch_lies_between_its_ends(
    snapshots: Seq<SnapshotView>,
    gaps: Seq<u64>,
    window: WindowView,
    first: int,
    last: int,
    j: int,
)
    requires
        is_first_point(snapshots, gaps, window, first),
        is_last_point(snapshots, gaps, window, last),
        0 <= j < snapshots.len(),
        is_point(snapshots[j], gaps[j], window),
    ensures
        snapshots[first].observed_at_ms <= snapshots[j].observed_at_ms,
        snapshots[j].observed_at_ms <= snapshots[last].observed_at_ms,
        is_point(snapshots[first], gaps[first], window),
        is_point(snapshots[last], gaps[last], window),
{
    if j != first {
        assert(history::is_newer(snapshots, j, first));
    }
    if j != last {
        assert(history::is_newer(snapshots, last, j));
    }
}

/// The last estimate is that of the latest epoch which has one; epochs without one are passed over.
pub proof fn the_last_estimate_is_the_latest_there_is(epochs: Seq<EpochEvidence>, i: int)
    requires
        0 <= i < epochs.len(),
        epochs[i].implied_tokens is Some,
        forall|j: int| i < j < epochs.len() ==> (#[trigger] epochs[j]).implied_tokens is None,
    ensures
        last_estimate(epochs) == epochs[i].implied_tokens,
    decreases epochs.len(),
{
    if i < epochs.len() - 1 {
        assert(epochs[epochs.len() - 1].implied_tokens is None);
        the_last_estimate_is_the_latest_there_is(epochs.drop_last(), i);
    }
}

/// An epoch is compared with an estimate above zero only, and only where it has one itself; an
/// estimate is sure where the epoch was seen from one percent at most on over ten percent at least,
/// and there is none where nothing is implied.
pub proof fn epochs_are_compared_by_their_estimates(previous: Option<u64>, epoch: EpochEvidence)
    ensures
        comparison(previous, epoch).compared matches Some((before, now)) ==> before > 0 && previous
            == Some(before) && epoch.implied_tokens == Some(now),
        comparison(previous, epoch).compared is None ==> previous is None || previous == Some(0u64)
            || epoch.implied_tokens is None,
        comparison(previous, epoch).confidence == Confidence::Higher <==> (
        epoch.first_percent_bits matches Some(first) && (first <= 0x3ff0_0000_0000_0000
            || 0x8000_0000_0000_0000 <= first <= 0xfff0_0000_0000_0000)) && (
        epoch.rise_bits matches Some(rise) && 0x4024_0000_0000_0000 <= rise
            <= 0x7ff0_0000_0000_0000),
        comparison(previous, epoch).confidence == Confidence::InsufficientObservations
            ==> epoch.implied_tokens is None,
        comparison(previous, epoch).confidence == Confidence::PartialWindow
            ==> epoch.implied_tokens is Some,
{
}

/// The window of an estimate: of the newest observation, or why there is none.
pub open spec fn estimate_bounds(quota: Option<SnapshotView>, duration_ms: i64) -> Result<
    (i64, i64),
    Seq<char>,
> {
    match quota {
        None => Err("no quota snapshot is available yet"@),
        Some(quota) => match quota.reset_at_ms {
            None => Err("latest quota snapshot has no reset time"@),
            Some(reset) => Ok(window_until(reset, duration_ms, quota.observed_at_ms)),
        },
    }
}

/// An estimate looks at the quota's window from its start to the observation and not beyond its reset;
/// there is none exactly where there is no observation or it names no reset.
pub proof fn an_estimate_looks_at_the_observed_window(quota: SnapshotView, duration_ms: i64)
    ensures
        match estimate_bounds(Some(quota), duration_ms) {
            Ok((start, end)) => quota.reset_at_ms matches Some(reset) && {
                &&& i64::MIN <= reset - duration_ms <= i64::MAX ==> start + duration_ms == reset
                &&& end <= reset && end <= quota.observed_at_ms
                &&& end == reset || end == quota.observed_at_ms
            },
            Err(_) => quota.reset_at_ms is None,
        },
        estimate_bounds(None, duration_ms) is Err,
{
}

/// Without any estimate there is no last one.
pub proof fn no_estimate_no_last_estimate(epochs: Seq<EpochEvidence>)
    requires
        forall|j: int| 0 <= j < epochs.len() ==> (#[trigger] epochs[j]).implied_tokens is None,
    ensures
        last_estimate(epochs) is None,
    decreases epochs.len(),
{
    if epochs.len() > 0 {
        assert(epochs[epochs.len() - 1].implied_tokens is None);
        no_estimate_no_last_estimate(epochs.drop_last());
    }
}

/// A reconciliation looks at the quota's window up to the moment of the comparison, or without one up
/// to the observation, and not beyond its reset; there is none exactly where there is no observation
/// or it names no reset. Compared at the observation itself it looks at what an estimate looks at.
pub proof fn a_reconciliation_looks_at_the_compared_window(
    quota: SnapshotView,
    duration_ms: i64,
    compared_at_ms: Option<i64>,
)
    ensures
        match reconciliation_bounds(Some(quota), duration_ms, compared_at_ms) {
            Ok((start, end)) => quota.reset_at_ms matches Some(reset) && {
                &&& i64::MIN <= reset - duration_ms <= i64::MAX ==> start + duration_ms == reset
                &&& end <= reset
                &&& compared_at_ms matches Some(at) ==> end <= at && (end == at || end == reset)
                &&& compared_at_ms is None ==> end <= quota.observed_at_ms && (end
                    == quota.observed_at_ms || end == reset)
            },
            Err(_) => quota.reset_at_ms is None,
        },
        reconciliation_bounds(None, duration_ms, compared_at_ms) is Err,
        quota.reset_at_ms is Some ==> reconciliation_bounds(Some(quota), duration_ms, None)
            == estimate_bounds(Some(quota), duration_ms),
        quota.reset_at_ms is Some ==> reconciliation_bounds(
            Some(quota),
            duration_ms,
            Some(quota.observed_at_ms),
        ) == estimate_bounds(Some(quota), duration_ms),
{
}

/// The tokens of an epoch are what went in together with what came out; cached input and reasoning
/// are parts of these and count once.
pub proof fn tokens_are_input_and_output(totals: UsageTotals)
    ensures
        totals.input_tokens + totals.output_tokens <= u64::MAX ==> tokens_of(totals)
            == totals.input_tokens + totals.output_tokens,
        totals.input_tokens + totals.output_tokens > u64::MAX ==> tokens_of(totals) == u64::MAX,
{
}

/// A warning about an old observation names its age in whole minutes.
pub proof fn an_old_observation_tells_its_age(age_ms: int, minutes: nat)
    requires
        minutes * 60_000 <= age_ms < (minutes + 1) * 60_000,
    ensures
        text::has_prefix(
            stale_snapshot(age_ms),
            "The App Server snapshot is "@ + text::decimal(minutes) + " minutes older than"@,
        ),
{
    assert(age_ms / 60_000 == minutes);
    let said = stale_snapshot(age_ms);
    let head = "The App Server snapshot is "@ + text::decimal(minutes);
    reveal_strlit(" minutes older than");
    reveal_strlit(
        " minutes older than the web observation; refresh age can explain part of the percentage delta.",
    );
    let start = head + " minutes older than"@;
    assert(said.subrange(0, start.len() as int) =~= start);
}

/// A warning about a foreign limit names the quota's own limit first, and all those of the events in
/// their order behind it.
pub proof fn a_foreign_limit_is_named(limit_id: Seq<char>, ids: Seq<Seq<char>>)
    ensures
        text::has_prefix(
            mismatch(limit_id, ids),
            "Quota limit_id is "@ + limit_id + ", but local token events use "@ + text::joined(
                ids,
                ", "@,
            ),
        ),
{
    let head = "Quota limit_id is "@ + limit_id + ", but local token events use "@ + text::joined(
        ids,
        ", "@,
    );
    assert(mismatch(limit_id, ids).subrange(0, head.len() as int) =~= head);
}

} // verus!
