//! The history of quota observations: the snapshots that are kept, and the windows that are
//! reconstructed from them.
use vstd::prelude::*;

use crate::quota;
use crate::quota::is_close;
use crate::quota::HUNDRED_BITS;
use crate::quota::INFINITY_BITS;
use crate::quota::NEGATIVE_ZERO_BITS;
use crate::text;
use crate::text::same_optional_text;
use crate::text::same_text;

verus! {

/// The milliseconds by which the reset of one window may differ between observations.
pub const RESET_JITTER_TOLERANCE_MS: i64 = 300_000;

/// The version of the observations that are stored.
pub const QUOTA_OBSERVATION_SCHEMA_VERSION: u32 = 2;

/// The milliseconds after which an unchanged observation is stored again.
pub const REPEAT_AFTER_MS: i64 = 86_400_000;

/// An observation of a quota. The doubles are carried by their bits.
#[derive(Debug)]
pub struct Snapshot {
    pub account_key: String,
    pub observed_at_ms: i64,
    pub used_percent_bits: u64,
    pub reset_at_ms: Option<i64>,
    pub duration_minutes_bits: u64,
    pub limit_id: Option<String>,
    pub plan: Option<String>,
    pub source: String,
    pub raw_json: String,
    pub observation_schema_version: u32,
    pub collector_version: String,
}

/// What an observation says.
#[verifier::ext_equal]
pub struct SnapshotView {
    pub account_key: Seq<char>,
    pub observed_at_ms: i64,
    pub used_percent_bits: u64,
    pub reset_at_ms: Option<i64>,
    pub duration_minutes_bits: u64,
    pub limit_id: Option<Seq<char>>,
    pub plan: Option<Seq<char>>,
    pub source: Seq<char>,
    pub raw_json: Seq<char>,
    pub observation_schema_version: u32,
    pub collector_version: Seq<char>,
}

impl View for Snapshot {
    type V = SnapshotView;

    open spec fn view(&self) -> SnapshotView {
        SnapshotView {
            account_key: self.account_key@,
            observed_at_ms: self.observed_at_ms,
            used_percent_bits: self.used_percent_bits,
            reset_at_ms: self.reset_at_ms,
            duration_minutes_bits: self.duration_minutes_bits,
            limit_id: text::opt_view(self.limit_id),
            plan: text::opt_view(self.plan),
            source: self.source@,
            raw_json: self.raw_json@,
            observation_schema_version: self.observation_schema_version,
            collector_version: self.collector_version@,
        }
    }
}

/// What observations say.
pub open spec fn snapshot_views(snapshots: Seq<Snapshot>) -> Seq<SnapshotView> {
    snapshots.map_values(|snapshot: Snapshot| snapshot@)
}

/// A window of a limit. Its status is the stored word: `active` for the window that the limit counts
/// in now, and `closed` once another has taken its place. Any other word is kept as it is.
#[derive(Debug)]
pub struct QuotaWindow {
    pub account_key: String,
    pub limit_id: String,
    pub reset_at_ms: i64,
    pub duration_minutes_bits: u64,
    pub window_start_ms: i64,
    pub first_seen_at_ms: i64,
    pub last_seen_at_ms: i64,
    pub status: String,
}

/// What a window says.
#[verifier::ext_equal]
pub struct WindowView {
    pub account_key: Seq<char>,
    pub limit_id: Seq<char>,
    pub reset_at_ms: i64,
    pub duration_minutes_bits: u64,
    pub window_start_ms: i64,
    pub first_seen_at_ms: i64,
    pub last_seen_at_ms: i64,
    pub status: Seq<char>,
}

impl View for QuotaWindow {
    type V = WindowView;

    open spec fn view(&self) -> WindowView {
        WindowView {
            account_key: self.account_key@,
            limit_id: self.limit_id@,
            reset_at_ms: self.reset_at_ms,
            duration_minutes_bits: self.duration_minutes_bits,
            window_start_ms: self.window_start_ms,
            first_seen_at_ms: self.first_seen_at_ms,
            last_seen_at_ms: self.last_seen_at_ms,
            status: self.status@,
        }
    }
}

/// What windows say.
pub open spec fn window_views(windows: Seq<QuotaWindow>) -> Seq<WindowView> {
    windows.map_values(|window: QuotaWindow| window@)
}

/// What an observation tells about the window of a limit.
#[verifier::ext_equal]
pub struct Sighting {
    pub account_key: Seq<char>,
    pub limit_id: Seq<char>,
    pub reset_at_ms: i64,
    pub duration_minutes_bits: u64,
    pub duration_ms: i64,
    pub observed_at_ms: i64,
}

/// How far two resets lie apart.
pub open spec fn apart(left: i64, right: i64) -> int {
    if left >= right {
        left - right
    } else {
        right - left
    }
}

impl WindowView {
    /// Whether the window belongs to the limit that was seen.
    pub open spec fn is_of(self, seen: Sighting) -> bool {
        self.account_key == seen.account_key && self.limit_id == seen.limit_id
    }

    /// Whether the window is the one that its limit counts in now.
    pub open spec fn is_active(self) -> bool {
        self.status == "active"@
    }

    /// Whether the window may be the one that was seen: it is active, lasts as long, and resets at
    /// about the same time.
    pub open spec fn may_be(self, gap: u64, seen: Sighting) -> bool {
        &&& self.is_of(seen)
        &&& self.is_active()
        &&& quota::is_same(gap)
        &&& apart(self.reset_at_ms, seen.reset_at_ms) <= RESET_JITTER_TOLERANCE_MS
    }

    /// Whether the window is the one with this reset and exactly the duration that was seen.
    pub open spec fn has_key(self, seen: Sighting, reset_at_ms: i64) -> bool {
        &&& self.is_of(seen)
        &&& self.reset_at_ms == reset_at_ms
        &&& self.duration_minutes_bits == seen.duration_minutes_bits
    }

    /// The window once the limit counts in the one with this reset.
    pub open spec fn superseded(self, seen: Sighting, reset_at_ms: i64) -> WindowView {
        if self.is_of(seen) && self.is_active() && self.reset_at_ms != reset_at_ms {
            WindowView { status: "closed"@, last_seen_at_ms: seen.observed_at_ms, ..self }
        } else {
            self
        }
    }
}

/// Whether a window is a better match than another: its reset is closer, or as close and it was
/// seen earlier, or all of this is equal and it stands first.
pub open spec fn matches_better(windows: Seq<WindowView>, seen: Sighting, i: int, j: int) -> bool {
    let (left, right) = (
        apart(windows[i].reset_at_ms, seen.reset_at_ms),
        apart(windows[j].reset_at_ms, seen.reset_at_ms),
    );
    ||| left < right
    ||| left == right && windows[i].first_seen_at_ms < windows[j].first_seen_at_ms
    ||| left == right && windows[i].first_seen_at_ms == windows[j].first_seen_at_ms && i <= j
}

/// Whether a window is the best match among all that may be the one that was seen.
pub open spec fn is_epoch(
    windows: Seq<WindowView>,
    gaps: Seq<u64>,
    seen: Sighting,
    i: int,
) -> bool {
    &&& 0 <= i < windows.len()
    &&& windows[i].may_be(gaps[i], seen)
    &&& forall|j: int|
        0 <= j < windows.len() && (#[trigger] windows[j]).may_be(gaps[j], seen) ==> matches_better(
            windows,
            seen,
            i,
            j,
        )
}

/// The reset under which what was seen is kept: that of the best match, or its own where there is
/// none.
pub open spec fn canonical_reset(
    windows: Seq<WindowView>,
    gaps: Seq<u64>,
    seen: Sighting,
) -> i64 {
    if exists|i: int| is_epoch(windows, gaps, seen, i) {
        windows[choose|i: int| is_epoch(windows, gaps, seen, i)].reset_at_ms
    } else {
        seen.reset_at_ms
    }
}

/// A difference, kept within the range of the timestamps.
pub open spec fn capped_difference(left: i64, right: i64) -> i64 {
    if left - right > i64::MAX {
        i64::MAX
    } else if left - right < i64::MIN {
        i64::MIN
    } else {
        (left - right) as i64
    }
}

/// A window that is seen for the first time.
pub open spec fn new_window(seen: Sighting, reset_at_ms: i64) -> WindowView {
    WindowView {
        account_key: seen.account_key,
        limit_id: seen.limit_id,
        reset_at_ms,
        duration_minutes_bits: seen.duration_minutes_bits,
        window_start_ms: capped_difference(reset_at_ms, seen.duration_ms),
        first_seen_at_ms: seen.observed_at_ms,
        last_seen_at_ms: seen.observed_at_ms,
        status: "active"@,
    }
}

/// Where the window with this reset stands; the number of windows where there is none.
pub open spec fn place_of(windows: Seq<WindowView>, seen: Sighting, reset_at_ms: i64) -> nat
    decreases windows.len(),
{
    if windows.len() == 0 {
        0
    } else if windows[0].has_key(seen, reset_at_ms) {
        0
    } else {
        1 + place_of(windows.drop_first(), seen, reset_at_ms)
    }
}

/// The place of a window is that of the first one with its key.
pub proof fn place_is_first(windows: Seq<WindowView>, seen: Sighting, reset_at_ms: i64)
    ensures
        ({
            let at = place_of(windows, seen, reset_at_ms);
            &&& at <= windows.len()
            &&& at < windows.len() ==> windows[at as int].has_key(seen, reset_at_ms)
            &&& forall|i: int|
                0 <= i < at ==> !(#[trigger] windows[i]).has_key(seen, reset_at_ms)
        }),
    decreases windows.len(),
{
    if windows.len() > 0 && !windows[0].has_key(seen, reset_at_ms) {
        let rest = windows.drop_first();
        place_is_first(rest, seen, reset_at_ms);
        let at = place_of(windows, seen, reset_at_ms);
        assert(at < windows.len() ==> windows[at as int] == rest[at - 1]);
        assert forall|i: int| 0 <= i < at implies !(#[trigger] windows[i]).has_key(
            seen,
            reset_at_ms,
        ) by {
            if i > 0 {
                assert(windows[i] == rest[i - 1]);
            }
        }
    }
}

/// The windows once the limit counts in the one with this reset.
pub open spec fn all_superseded(
    windows: Seq<WindowView>,
    seen: Sighting,
    reset_at_ms: i64,
) -> Seq<WindowView> {
    windows.map_values(|window: WindowView| window.superseded(seen, reset_at_ms))
}

/// The windows after an observation: the other active windows of the limit are closed, and the one
/// that was seen is active, as the row that is there or as a new one.
pub open spec fn after_sighting(
    windows: Seq<WindowView>,
    gaps: Seq<u64>,
    seen: Sighting,
) -> Seq<WindowView> {
    let reset_at_ms = canonical_reset(windows, gaps, seen);
    let rest = all_superseded(windows, seen, reset_at_ms);
    let at = place_of(rest, seen, reset_at_ms);
    if at < rest.len() {
        rest.update(
            at as int,
            WindowView {
                last_seen_at_ms: seen.observed_at_ms,
                status: "active"@,
                ..rest[at as int]
            },
        )
    } else {
        rest.push(new_window(seen, reset_at_ms))
    }
}

/// There is one best match at most, and there is one wherever a window may be the one that was
/// seen.
pub proof fn best_match_is_unique(windows: Seq<WindowView>, gaps: Seq<u64>, seen: Sighting)
    ensures
        forall|i: int, j: int| #[trigger]
            is_epoch(windows, gaps, seen, i) && #[trigger] is_epoch(windows, gaps, seen, j) ==> i
                == j,
        (exists|i: int| is_epoch(windows, gaps, seen, i)) <==> (exists|i: int|
            0 <= i < windows.len() && (#[trigger] windows[i]).may_be(gaps[i], seen)),
{
    if exists|i: int| 0 <= i < windows.len() && (#[trigger] windows[i]).may_be(gaps[i], seen) {
        let best = best_match(windows, gaps, seen, windows.len() as int);
        assert(is_epoch(windows, gaps, seen, best));
    }
    if exists|i: int| is_epoch(windows, gaps, seen, i) {
        let i = choose|i: int| is_epoch(windows, gaps, seen, i);
        assert(windows[i].may_be(gaps[i], seen));
    }
}

/// Some window among the first ones is the best match.
proof fn best_match(
    windows: Seq<WindowView>,
    gaps: Seq<u64>,
    seen: Sighting,
    end: int,
) -> (best: int)
    requires
        0 <= end <= windows.len(),
        exists|i: int| 0 <= i < end && (#[trigger] windows[i]).may_be(gaps[i], seen),
    ensures
        0 <= best < end,
        windows[best].may_be(gaps[best], seen),
        forall|j: int|
            0 <= j < end && (#[trigger] windows[j]).may_be(gaps[j], seen) ==> matches_better(
                windows,
                seen,
                best,
                j,
            ),
    decreases end,
{
    let last = end - 1;
    if exists|i: int| 0 <= i < last && (#[trigger] windows[i]).may_be(gaps[i], seen) {
        let earlier = best_match(windows, gaps, seen, last);
        if windows[last].may_be(gaps[last], seen) && !matches_better(
            windows,
            seen,
            earlier,
            last,
        ) {
            last
        } else {
            earlier
        }
    } else {
        last
    }
}

/// What an observation tells about the window of a limit.
#[derive(Debug)]
pub struct SeenWindow<'a> {
    pub account_key: &'a str,
    pub limit_id: &'a str,
    pub reset_at_ms: i64,
    pub duration_minutes_bits: u64,
    pub duration_ms: i64,
    pub observed_at_ms: i64,
}

impl<'a> View for SeenWindow<'a> {
    type V = Sighting;

    open spec fn view(&self) -> Sighting {
        Sighting {
            account_key: self.account_key@,
            limit_id: self.limit_id@,
            reset_at_ms: self.reset_at_ms,
            duration_minutes_bits: self.duration_minutes_bits,
            duration_ms: self.duration_ms,
            observed_at_ms: self.observed_at_ms,
        }
    }
}

/// A difference, kept within the range of the timestamps.
pub fn saturating_difference(left: i64, right: i64) -> (difference: i64)
    ensures
        difference == capped_difference(left, right),
{
    let exact: i128 = left as i128 - right as i128;
    if exact > 9_223_372_036_854_775_807 {
        9_223_372_036_854_775_807
    } else if exact < -9_223_372_036_854_775_808 {
        -9_223_372_036_854_775_808
    } else {
        exact as i64
    }
}

/// How far two resets lie apart.
fn distance(left: i64, right: i64) -> (far: u64)
    ensures
        far == apart(left, right),
{
    let exact: i128 = left as i128 - right as i128;
    if exact >= 0 {
        exact as u64
    } else {
        (-exact) as u64
    }
}

/// Whether a window belongs to the limit that was seen.
fn belongs_to(window: &QuotaWindow, seen: &SeenWindow) -> (answer: bool)
    ensures
        answer == window@.is_of(seen@),
{
    same_text(window.account_key.as_str(), seen.account_key) && same_text(
        window.limit_id.as_str(),
        seen.limit_id,
    )
}

/// The reset under which what was seen is kept. `gaps` holds for each window the bits
/// of the difference between its duration and the one that was seen.
pub fn canonical_reset_at(windows: &Vec<QuotaWindow>, gaps: &Vec<u64>, seen: &SeenWindow) -> (
    reset_at_ms: i64)
    requires
        gaps@.len() == windows@.len(),
    ensures
        reset_at_ms == canonical_reset(window_views(windows@), gaps@, seen@),
{
    let ghost all = window_views(windows@);
    let mut best: Option<usize> = None;
    let mut i: usize = 0;
    while i < windows.len()
        invariant
            gaps@.len() == windows@.len(),
            all == window_views(windows@),
            i <= windows@.len(),
            match best {
                Some(best) => {
                    &&& best < i
                    &&& all[best as int].may_be(gaps@[best as int], seen@)
                    &&& forall|j: int|
                        0 <= j < i && (#[trigger] all[j]).may_be(gaps@[j], seen@)
                            ==> matches_better(all, seen@, best as int, j)
                },
                None => forall|j: int|
                    0 <= j < i ==> !(#[trigger] all[j]).may_be(gaps@[j], seen@),
            },
        decreases windows@.len() - i,
    {
        let window = &windows[i];
        assert(all[i as int] == window@);
        let far = distance(window.reset_at_ms, seen.reset_at_ms);
        if belongs_to(window, seen) && same_text(window.status.as_str(), "active") && is_close(
            gaps[i],
        ) && far <= 300_000 {
            match best {
                Some(b) => {
                    assert(all[b as int] == windows@[b as int]@);
                    let known = distance(windows[b].reset_at_ms, seen.reset_at_ms);
                    if far < known || (far == known && window.first_seen_at_ms
                        < windows[b].first_seen_at_ms) {
                        best = Some(i);
                    }
                },
                None => {
                    best = Some(i);
                },
            }
        }
        i += 1;
    }
    proof {
        best_match_is_unique(all, gaps@, seen@);
    }
    match best {
        Some(b) => {
            assert(is_epoch(all, gaps@, seen@, b as int));
            assert(all[b as int] == windows@[b as int]@);
            windows[b].reset_at_ms
        },
        None => seen.reset_at_ms,
    }
}

/// Brings the windows up to date with an observation. `gaps` holds for each window the
/// bits of the difference between its duration and the one that was seen.
pub fn observe_window(windows: &mut Vec<QuotaWindow>, gaps: &Vec<u64>, seen: &SeenWindow)
    requires
        gaps@.len() == old(windows)@.len(),
    ensures
        window_views(final(windows)@) == after_sighting(
            window_views(old(windows)@),
            gaps@,
            seen@,
        ),
{
    let ghost before = window_views(windows@);
    let reset_at_ms = canonical_reset_at(windows, gaps, seen);
    let ghost rest = all_superseded(before, seen@, reset_at_ms);
    let mut i: usize = 0;
    while i < windows.len()
        invariant
            i <= windows@.len(),
            windows@.len() == before.len(),
            rest == all_superseded(before, seen@, reset_at_ms),
            window_views(windows@) =~= rest.take(i as int) + before.skip(i as int),
        decreases windows@.len() - i,
    {
        let ghost here = window_views(windows@);
        assert(here[i as int] == before[i as int]);
        assert(here[i as int] == windows@[i as int]@);
        if belongs_to(&windows[i], seen) && same_text(windows[i].status.as_str(), "active")
            && windows[i].reset_at_ms != reset_at_ms {
            windows[i].status = "closed".to_owned();
            windows[i].last_seen_at_ms = seen.observed_at_ms;
        }
        proof {
            assert(windows@[i as int]@ == rest[i as int]);
            assert(window_views(windows@) =~= here.update(i as int, rest[i as int]));
            assert(window_views(windows@) =~= rest.take(i + 1) + before.skip(i + 1));
        }
        i += 1;
    }
    assert(window_views(windows@) =~= rest);
    let at = find_window(windows, seen, reset_at_ms);
    proof {
        place_is_first(rest, seen@, reset_at_ms);
    }
    if at < windows.len() {
        windows[at].last_seen_at_ms = seen.observed_at_ms;
        windows[at].status = "active".to_owned();
        assert(window_views(windows@) =~= rest.update(
            at as int,
            WindowView {
                last_seen_at_ms: seen@.observed_at_ms,
                status: "active"@,
                ..rest[at as int]
            },
        ));
    } else {
        let window = QuotaWindow {
            account_key: seen.account_key.to_owned(),
            limit_id: seen.limit_id.to_owned(),
            reset_at_ms,
            duration_minutes_bits: seen.duration_minutes_bits,
            window_start_ms: saturating_difference(reset_at_ms, seen.duration_ms),
            first_seen_at_ms: seen.observed_at_ms,
            last_seen_at_ms: seen.observed_at_ms,
            status: "active".to_owned(),
        };
        windows.push(window);
        assert(window_views(windows@) =~= rest.push(new_window(seen@, reset_at_ms)));
    }
}

/// Where the window with this reset stands; the number of windows where there is none.
fn find_window(windows: &Vec<QuotaWindow>, seen: &SeenWindow, reset_at_ms: i64) -> (at: usize)
    ensures
        at == place_of(window_views(windows@), seen@, reset_at_ms),
{
    let ghost all = window_views(windows@);
    let mut at: usize = 0;
    assert(all.skip(0) =~= all);
    while at < windows.len()
        invariant
            all == window_views(windows@),
            at <= windows@.len(),
            place_of(all, seen@, reset_at_ms) == at + place_of(
                all.skip(at as int),
                seen@,
                reset_at_ms,
            ),
        decreases windows@.len() - at,
    {
        let window = &windows[at];
        assert(all.skip(at as int)[0] == window@);
        assert(all.skip(at as int).drop_first() =~= all.skip(at + 1));
        if belongs_to(window, seen) && window.reset_at_ms == reset_at_ms
            && window.duration_minutes_bits == seen.duration_minutes_bits {
            return at;
        }
        at += 1;
    }
    at
}

/// Whether an observation is newer than another: it was made later, or at the same time and stored
/// later.
pub open spec fn is_newer(snapshots: Seq<SnapshotView>, i: int, j: int) -> bool {
    let (left, right) = (snapshots[i].observed_at_ms, snapshots[j].observed_at_ms);
    left > right || (left == right && i > j)
}

/// Whether an observation is the newest one of an account.
pub open spec fn is_newest(snapshots: Seq<SnapshotView>, account: Seq<char>, i: int) -> bool {
    &&& 0 <= i < snapshots.len()
    &&& snapshots[i].account_key == account
    &&& forall|j: int|
        0 <= j < snapshots.len() && (#[trigger] snapshots[j]).account_key == account && j != i
            ==> is_newer(snapshots, i, j)
}

/// The newest observation of an account, by its place.
pub open spec fn newest(snapshots: Seq<SnapshotView>, account: Seq<char>) -> Option<int> {
    if exists|i: int| is_newest(snapshots, account, i) {
        Some(choose|i: int| is_newest(snapshots, account, i))
    } else {
        None
    }
}

/// The newest observation of an account, by its place; there is one wherever the account has any.
pub fn latest_snapshot_for_account(snapshots: &Vec<Snapshot>, account: &str) -> (latest: Option<
    usize,
>)
    ensures
        match latest {
            Some(i) => is_newest(snapshot_views(snapshots@), account@, i as int) && newest(
                snapshot_views(snapshots@),
                account@,
            ) == Some(i as int),
            None => newest(snapshot_views(snapshots@), account@) is None && forall|i: int|
                0 <= i < snapshots@.len() ==> (#[trigger] snapshots@[i]).account_key@ != account@,
        },
{
    let ghost all = snapshot_views(snapshots@);
    let mut latest: Option<usize> = None;
    let mut i: usize = 0;
    while i < snapshots.len()
        invariant
            all == snapshot_views(snapshots@),
            i <= snapshots@.len(),
            match latest {
                Some(best) => {
                    &&& best < i
                    &&& all[best as int].account_key == account@
                    &&& forall|j: int|
                        0 <= j < i && (#[trigger] all[j]).account_key == account@ && j != best
                            ==> is_newer(all, best as int, j)
                },
                None => forall|j: int|
                    0 <= j < i ==> (#[trigger] snapshots@[j]).account_key@ != account@,
            },
        decreases snapshots@.len() - i,
    {
        let snapshot = &snapshots[i];
        assert(all[i as int] == snapshot@);
        assert forall|j: int| 0 <= j < i implies #[trigger] all[j] == snapshots@[j]@ by {}
        if same_text(snapshot.account_key.as_str(), account) {
            match latest {
                Some(best) => {
                    if snapshot.observed_at_ms >= snapshots[best].observed_at_ms {
                        latest = Some(i);
                    }
                },
                None => {
                    latest = Some(i);
                },
            }
        }
        i += 1;
    }
    proof {
        if let Some(best) = latest {
            assert(is_newest(all, account@, best as int));
            let chosen = choose|i: int| is_newest(all, account@, i);
            assert(all[chosen].account_key == account@);
            assert(chosen == best);
        } else {
            assert forall|i: int| !is_newest(all, account@, i) by {
                if 0 <= i < all.len() {
                    assert(all[i] == snapshots@[i]@);
                }
            }
        }
    }
    latest
}

/// Whether places are those of an account's newest observations, the newest first: all of them, or
/// as many as the limit allows.
pub open spec fn is_history(
    places: Seq<usize>,
    snapshots: Seq<SnapshotView>,
    account: Seq<char>,
    limit: usize,
) -> bool {
    &&& places.len() <= limit
    &&& forall|a: int|
        0 <= a < places.len() ==> (#[trigger] places[a]) < snapshots.len()
            && snapshots[places[a] as int].account_key == account
    &&& forall|a: int, b: int|
        0 <= a < b < places.len() ==> is_newer(
            snapshots,
            (#[trigger] places[a]) as int,
            (#[trigger] places[b]) as int,
        )
    &&& forall|j: int|
        0 <= j < snapshots.len() && (#[trigger] snapshots[j]).account_key == account
            ==> stands_in(places, j) || (places.len() == limit && forall|a: int|
            0 <= a < places.len() ==> is_newer(snapshots, (#[trigger] places[a]) as int, j))
}

/// Whether a place is listed.
pub open spec fn stands_in(places: Seq<usize>, j: int) -> bool {
    exists|a: int| 0 <= a < places.len() && (#[trigger] places[a]) == j
}

/// The newest observations of an account by their places, the newest first.
pub fn read_history(snapshots: &Vec<Snapshot>, account: &str, limit: usize) -> (places: Vec<usize>)
    ensures
        is_history(places@, snapshot_views(snapshots@), account@, limit),
{
    let ghost all = snapshot_views(snapshots@);
    let mut places: Vec<usize> = Vec::new();
    let mut i: usize = 0;
    while i < snapshots.len()
        invariant
            all == snapshot_views(snapshots@),
            i <= snapshots@.len(),
            places@.len() <= limit,
            forall|a: int|
                0 <= a < places@.len() ==> (#[trigger] places@[a]) < i
                    && all[places@[a] as int].account_key == account@,
            forall|a: int, b: int|
                0 <= a < b < places@.len() ==> is_newer(
                    all,
                    (#[trigger] places@[a]) as int,
                    (#[trigger] places@[b]) as int,
                ),
            forall|j: int|
                0 <= j < i && (#[trigger] all[j]).account_key == account@ ==> stands_in(
                    places@,
                    j,
                ) || (places@.len() == limit && forall|a: int|
                    0 <= a < places@.len() ==> is_newer(all, (#[trigger] places@[a]) as int, j)),
        decreases snapshots@.len() - i,
    {
        let snapshot = &snapshots[i];
        assert(all[i as int] == snapshot@);
        if same_text(snapshot.account_key.as_str(), account) {
            add_to_history(&mut places, snapshots, i, limit);
            proof {
                assert forall|j: int|
                    0 <= j < i + 1 && (#[trigger] all[j]).account_key == account@ implies stands_in(
                    places@,
                    j,
                ) || (places@.len() == limit && forall|a: int|
                    0 <= a < places@.len() ==> is_newer(
                        all,
                        (#[trigger] places@[a]) as int,
                        j,
                    )) by {}
            }
        }
        i += 1;
    }
    places
}

/// Adds an observation that is stored later than all listed ones to their places.
fn add_to_history(places: &mut Vec<usize>, snapshots: &Vec<Snapshot>, i: usize, limit: usize)
    requires
        i < snapshots@.len(),
        old(places)@.len() <= limit,
        forall|a: int| 0 <= a < old(places)@.len() ==> (#[trigger] old(places)@[a]) < i,
        forall|a: int, b: int|
            0 <= a < b < old(places)@.len() ==> is_newer(
                snapshot_views(snapshots@),
                (#[trigger] old(places)@[a]) as int,
                (#[trigger] old(places)@[b]) as int,
            ),
    ensures
        final(places)@.len() <= limit,
        forall|a: int|
            0 <= a < final(places)@.len() ==> (#[trigger] final(places)@[a]) == i || stands_in(
                old(places)@,
                final(places)@[a] as int,
            ),
        forall|a: int, b: int|
            0 <= a < b < final(places)@.len() ==> is_newer(
                snapshot_views(snapshots@),
                (#[trigger] final(places)@[a]) as int,
                (#[trigger] final(places)@[b]) as int,
            ),
        forall|j: int|
            j == i || stands_in(old(places)@, j) || (old(places)@.len() == limit && forall|a: int|
                0 <= a < old(places)@.len() ==> is_newer(
                    snapshot_views(snapshots@),
                    (#[trigger] old(places)@[a]) as int,
                    j,
                )) ==> #[trigger] stands_in(final(places)@, j) || (final(places)@.len() == limit
                && forall|a: int|
                0 <= a < final(places)@.len() ==> is_newer(
                    snapshot_views(snapshots@),
                    (#[trigger] final(places)@[a]) as int,
                    j,
                )),
{
    let ghost all = snapshot_views(snapshots@);
    let ghost before = places@;
    let mut at: usize = 0;
    while at < places.len() && snapshots[places[at]].observed_at_ms > snapshots[i].observed_at_ms
        invariant
            all == snapshot_views(snapshots@),
            before == places@,
            i < snapshots@.len(),
            at <= places@.len(),
            forall|a: int| 0 <= a < places@.len() ==> (#[trigger] places@[a]) < i,
            forall|a: int| 0 <= a < at ==> is_newer(all, (#[trigger] places@[a]) as int, i as int),
        decreases places@.len() - at,
    {
        assert(all[places@[at as int] as int] == snapshots@[places@[at as int] as int]@);
        assert(all[i as int] == snapshots@[i as int]@);
        at += 1;
    }
    proof {
        assert(all[i as int] == snapshots@[i as int]@);
        assert forall|a: int| at <= a < before.len() implies is_newer(
            all,
            i as int,
            (#[trigger] before[a]) as int,
        ) by {
            assert(all[before[at as int] as int] == snapshots@[before[at as int] as int]@);
            if a > at {
                assert(is_newer(all, before[at as int] as int, before[a] as int));
            }
        }
    }
    places.insert(at, i);
    let ghost longer = places@;
    proof {
        assert forall|a: int, b: int| 0 <= a < b < longer.len() implies is_newer(
            all,
            (#[trigger] longer[a]) as int,
            (#[trigger] longer[b]) as int,
        ) by {
            let left = if a < at {
                a
            } else {
                a - 1
            };
            let right = if b < at {
                b
            } else {
                b - 1
            };
            if a != at && b != at {
                assert(is_newer(all, before[left] as int, before[right] as int));
            }
        }
        assert forall|j: int| stands_in(before, j) implies #[trigger] stands_in(longer, j) by {
            let a = choose|a: int| 0 <= a < before.len() && (#[trigger] before[a]) == j;
            if a < at {
                assert(longer[a] == j);
            } else {
                assert(longer[a + 1] == j);
            }
        }
        assert(longer[at as int] == i);
        assert(stands_in(longer, i as int));
        assert forall|a: int| 0 <= a < longer.len() implies (#[trigger] longer[a]) == i
            || stands_in(before, longer[a] as int) by {
            if a < at {
                assert(before[a] == longer[a]);
            } else if a > at {
                assert(before[a - 1] == longer[a]);
            }
        }
    }
    if places.len() > limit {
        places.pop();
        proof {
            let last = longer[longer.len() - 1];
            assert(places@ =~= longer.drop_last());
            assert forall|j: int|
                j == i || stands_in(before, j) || (before.len() == limit && forall|a: int|
                    0 <= a < before.len() ==> is_newer(
                        all,
                        (#[trigger] before[a]) as int,
                        j,
                    )) implies #[trigger] stands_in(places@, j) || (places@.len() == limit
                && forall|a: int|
                0 <= a < places@.len() ==> is_newer(all, (#[trigger] places@[a]) as int, j)) by {
                if stands_in(longer, j) {
                    let b = choose|b: int| 0 <= b < longer.len() && (#[trigger] longer[b]) == j;
                    if b < longer.len() - 1 {
                        assert(places@[b] == j);
                    } else {
                        assert forall|a: int| 0 <= a < places@.len() implies is_newer(
                            all,
                            (#[trigger] places@[a]) as int,
                            j,
                        ) by {
                            assert(longer[a] == places@[a]);
                            assert(is_newer(all, longer[a] as int, longer[b] as int));
                        }
                    }
                } else {
                    assert forall|a: int| 0 <= a < places@.len() implies is_newer(
                        all,
                        (#[trigger] places@[a]) as int,
                        j,
                    ) by {
                        assert(longer[a] == places@[a]);
                        if a < at {
                            assert(before[a] == longer[a]);
                        } else if a > at {
                            assert(before[a - 1] == longer[a]);
                        } else {
                            assert(at < before.len());
                            assert(is_newer(all, before[at as int] as int, j));
                            assert(is_newer(all, i as int, before[at as int] as int));
                        }
                    }
                }
            }
        }
    }
}

/// How far a stored observation's doubles are from those of a new one, by the bits of the
/// differences.
#[derive(Clone, Copy, Debug, PartialEq, Eq, Structural)]
pub struct Difference {
    pub percent_bits: u64,
    pub duration_bits: u64,
}

impl Difference {
    /// Whether both doubles count as the same.
    pub open spec fn is_none(self) -> bool {
        quota::is_same(self.percent_bits) && quota::is_same(self.duration_bits)
    }
}

/// Whether an observation says the same as the one before it.
pub open spec fn is_unchanged(previous: SnapshotView, difference: Difference, next: SnapshotView) -> bool {
    &&& difference.is_none()
    &&& previous.reset_at_ms == next.reset_at_ms
    &&& previous.limit_id == next.limit_id
    &&& previous.account_key == next.account_key
    &&& previous.plan == next.plan
}

/// Whether an observation is worth storing: it is the account's first one, or says something new,
/// or the last one is a day old.
pub open spec fn is_news(
    snapshots: Seq<SnapshotView>,
    differences: Seq<Difference>,
    next: SnapshotView,
) -> bool {
    match newest(snapshots, next.account_key) {
        Some(i) => !is_unchanged(snapshots[i], differences[i], next) || next.observed_at_ms
            - snapshots[i].observed_at_ms >= REPEAT_AFTER_MS,
        None => true,
    }
}

/// What an observation tells about the window of its limit; nothing where it names no reset or no
/// limit.
pub open spec fn sighting_of(snapshot: SnapshotView, duration_ms: i64) -> Option<Sighting> {
    match (snapshot.reset_at_ms, snapshot.limit_id) {
        (Some(reset_at_ms), Some(limit_id)) => Some(
            Sighting {
                account_key: snapshot.account_key,
                limit_id,
                reset_at_ms,
                duration_minutes_bits: snapshot.duration_minutes_bits,
                duration_ms,
                observed_at_ms: snapshot.observed_at_ms,
            },
        ),
        _ => None,
    }
}

/// The error that an observation is refused with; nothing where its percentage and its duration
/// are valid.
pub open spec fn refusal(snapshot: SnapshotView) -> Option<Seq<char>> {
    if !quota::is_percentage(snapshot.used_percent_bits) {
        Some("invalid used percentage"@)
    } else if !quota::is_duration(snapshot.duration_minutes_bits) {
        Some("invalid quota window duration"@)
    } else {
        None
    }
}

/// The error that an observation is refused with.
pub fn refuse(snapshot: &Snapshot) -> (error: Option<String>)
    ensures
        text::opt_view(error) == refusal(snapshot@),
{
    let percent = snapshot.used_percent_bits;
    let duration = snapshot.duration_minutes_bits;
    if percent > HUNDRED_BITS && percent != NEGATIVE_ZERO_BITS {
        Some("invalid used percentage".to_owned())
    } else if duration == 0 || duration >= INFINITY_BITS {
        Some("invalid quota window duration".to_owned())
    } else {
        None
    }
}

/// The observations and the windows that are kept.
#[derive(Debug)]
pub struct QuotaLog {
    pub snapshots: Vec<Snapshot>,
    pub windows: Vec<QuotaWindow>,
}

impl QuotaLog {
    /// Nothing observed yet.
    pub fn new() -> (log: QuotaLog)
        ensures
            snapshot_views(log.snapshots@) == Seq::<SnapshotView>::empty(),
            window_views(log.windows@) == Seq::<WindowView>::empty(),
    {
        let log = QuotaLog { snapshots: Vec::new(), windows: Vec::new() };
        assert(snapshot_views(log.snapshots@) =~= Seq::<SnapshotView>::empty());
        assert(window_views(log.windows@) =~= Seq::<WindowView>::empty());
        log
    }

    /// Takes an observation, and says whether it was stored. The windows follow every valid
    /// observation, also one that is not stored. `gaps` holds for each window the bits of the
    /// difference between its duration and the observed one, and `differences` the same for the
    /// doubles of each stored observation; `duration_ms` is the duration in milliseconds.
    pub fn persist_snapshot(
        &mut self,
        snapshot: Snapshot,
        duration_ms: i64,
        gaps: &Vec<u64>,
        differences: &Vec<Difference>,
    ) -> (stored: Result<bool, String>)
        requires
            gaps@.len() == old(self).windows@.len(),
            differences@.len() == old(self).snapshots@.len(),
        ensures
            match refusal(snapshot@) {
                Some(error) => {
                    &&& stored matches Err(message) && message@ == error
                    &&& snapshot_views(final(self).snapshots@) == snapshot_views(
                        old(self).snapshots@,
                    )
                    &&& window_views(final(self).windows@) == window_views(old(self).windows@)
                },
                None => {
                    let news = is_news(snapshot_views(old(self).snapshots@), differences@, snapshot@);
                    &&& (
                        snapshot_views(final(self).snapshots@),
                        window_views(final(self).windows@),
                    ) == after_observation(
                        snapshot_views(old(self).snapshots@),
                        window_views(old(self).windows@),
                        snapshot@,
                        duration_ms,
                        gaps@,
                        differences@,
                    )
                    &&& stored == Ok::<bool, String>(news)
                    &&& snapshot_views(final(self).snapshots@) == if news {
                        snapshot_views(old(self).snapshots@).push(snapshot@)
                    } else {
                        snapshot_views(old(self).snapshots@)
                    }
                    &&& window_views(final(self).windows@) == match sighting_of(
                        snapshot@,
                        duration_ms,
                    ) {
                        Some(seen) => after_sighting(
                            window_views(old(self).windows@),
                            gaps@,
                            seen,
                        ),
                        None => window_views(old(self).windows@),
                    }
                },
            },
    {
        if let Some(error) = refuse(&snapshot) {
            return Err(error);
        }
        if let (Some(reset_at_ms), Some(limit_id)) = (snapshot.reset_at_ms, &snapshot.limit_id) {
            let seen = SeenWindow {
                account_key: snapshot.account_key.as_str(),
                limit_id: limit_id.as_str(),
                reset_at_ms,
                duration_minutes_bits: snapshot.duration_minutes_bits,
                duration_ms,
                observed_at_ms: snapshot.observed_at_ms,
            };
            observe_window(&mut self.windows, gaps, &seen);
        }
        let ghost before = snapshot_views(self.snapshots@);
        if let Some(i) = latest_snapshot_for_account(
            &self.snapshots,
            snapshot.account_key.as_str(),
        ) {
            let previous = &self.snapshots[i];
            assert(before[i as int] == previous@);
            let unchanged = is_close(differences[i].percent_bits) && is_close(
                differences[i].duration_bits,
            ) && previous.reset_at_ms == snapshot.reset_at_ms
                && same_optional_text(&previous.limit_id, &snapshot.limit_id)
                && same_text(previous.account_key.as_str(), snapshot.account_key.as_str())
                && same_optional_text(&previous.plan, &snapshot.plan);
            let age: i128 = snapshot.observed_at_ms as i128 - previous.observed_at_ms as i128;
            if unchanged && age < 86_400_000 {
                return Ok(false);
            }
        }
        let ghost said = snapshot@;
        self.snapshots.push(snapshot);
        assert(snapshot_views(self.snapshots@) =~= before.push(said));
        Ok(true)
    }
}

/// The window that was seen keeps its row while its reset jitters: an observation whose reset lies
/// within the tolerance of an active window of the same duration adds no window. The best match
/// `i`, or another window `j` with its reset, has to last exactly as long as what was seen: one
/// that only counts as lasting as long is another row.
pub proof fn jitter_adds_no_window(
    windows: Seq<WindowView>,
    gaps: Seq<u64>,
    seen: Sighting,
    i: int,
    j: int,
)
    requires
        is_epoch(windows, gaps, seen, i),
        0 <= j < windows.len(),
        windows[j].has_key(seen, windows[i].reset_at_ms),
    ensures
        canonical_reset(windows, gaps, seen) == windows[i].reset_at_ms,
        after_sighting(windows, gaps, seen).len() == windows.len(),
{
    best_match_is_unique(windows, gaps, seen);
    let reset = canonical_reset(windows, gaps, seen);
    let rest = all_superseded(windows, seen, reset);
    place_is_first(rest, seen, reset);
    assert(rest[j].has_key(seen, reset));
}

/// An observation changes no window of another account or another limit.
pub proof fn other_windows_stay_as_they_are(
    windows: Seq<WindowView>,
    gaps: Seq<u64>,
    seen: Sighting,
    i: int,
)
    requires
        0 <= i < windows.len(),
        !windows[i].is_of(seen),
    ensures
        after_sighting(windows, gaps, seen)[i] == windows[i],
{
    let reset = canonical_reset(windows, gaps, seen);
    let rest = all_superseded(windows, seen, reset);
    place_is_first(rest, seen, reset);
    assert(rest[i] == windows[i]);
}

/// No window is ever lost, and at most one is added.
pub proof fn windows_are_kept(windows: Seq<WindowView>, gaps: Seq<u64>, seen: Sighting)
    ensures
        ({
            let after = after_sighting(windows, gaps, seen);
            &&& windows.len() <= after.len() <= windows.len() + 1
            &&& forall|i: int|
                0 <= i < windows.len() ==> {
                    &&& (#[trigger] after[i]).account_key == windows[i].account_key
                    &&& after[i].limit_id == windows[i].limit_id
                    &&& after[i].reset_at_ms == windows[i].reset_at_ms
                    &&& after[i].duration_minutes_bits == windows[i].duration_minutes_bits
                    &&& after[i].window_start_ms == windows[i].window_start_ms
                    &&& after[i].first_seen_at_ms == windows[i].first_seen_at_ms
                }
        }),
{
    let reset = canonical_reset(windows, gaps, seen);
    let rest = all_superseded(windows, seen, reset);
    place_is_first(rest, seen, reset);
}

/// After an observation a limit counts in one epoch: all its active windows have the reset under
/// which the observation is kept, and one of them is the window that was seen.
pub proof fn one_epoch_is_active(windows: Seq<WindowView>, gaps: Seq<u64>, seen: Sighting)
    ensures
        ({
            let after = after_sighting(windows, gaps, seen);
            let reset = canonical_reset(windows, gaps, seen);
            &&& forall|i: int|
                0 <= i < after.len() && (#[trigger] after[i]).is_of(seen) && after[i].is_active()
                    ==> after[i].reset_at_ms == reset
            &&& exists|i: int|
                0 <= i < after.len() && (#[trigger] after[i]).has_key(seen, reset)
                    && after[i].is_active() && after[i].last_seen_at_ms == seen.observed_at_ms
        }),
{
    reveal_strlit("active");
    reveal_strlit("closed");
    assert("active"@[0] == 'a' && "closed"@[0] == 'c');
    let reset = canonical_reset(windows, gaps, seen);
    let rest = all_superseded(windows, seen, reset);
    let after = after_sighting(windows, gaps, seen);
    place_is_first(rest, seen, reset);
    let at = place_of(rest, seen, reset) as int;
    assert(after[at].has_key(seen, reset));
}

/// Whether no two windows have the same account, limit, reset and duration.
pub open spec fn windows_differ(windows: Seq<WindowView>) -> bool {
    forall|i: int, j: int|
        0 <= i < j < windows.len() ==> !((#[trigger] windows[i]).account_key == (
        #[trigger] windows[j]).account_key && windows[i].limit_id == windows[j].limit_id
            && windows[i].reset_at_ms == windows[j].reset_at_ms
            && windows[i].duration_minutes_bits == windows[j].duration_minutes_bits)
}

/// An observation keeps the windows apart.
pub proof fn sighting_keeps_windows_apart(
    windows: Seq<WindowView>,
    gaps: Seq<u64>,
    seen: Sighting,
)
    requires
        windows_differ(windows),
    ensures
        windows_differ(after_sighting(windows, gaps, seen)),
{
    let reset = canonical_reset(windows, gaps, seen);
    let rest = all_superseded(windows, seen, reset);
    let after = after_sighting(windows, gaps, seen);
    place_is_first(rest, seen, reset);
    windows_are_kept(windows, gaps, seen);
    assert forall|i: int, j: int| 0 <= i < j < after.len() implies !((
    #[trigger] after[i]).account_key == (#[trigger] after[j]).account_key && after[i].limit_id
        == after[j].limit_id && after[i].reset_at_ms == after[j].reset_at_ms
        && after[i].duration_minutes_bits == after[j].duration_minutes_bits) by {
        if j < windows.len() {
            assert(windows[i].account_key == after[i].account_key);
            assert(windows[j].account_key == after[j].account_key);
        } else {
            assert(rest[i] == after[i]);
            assert(!rest[i].has_key(seen, reset));
        }
    }
}

/// An observation that repeats the newest one within a day is not stored.
pub proof fn repeated_observation_is_not_stored(
    snapshots: Seq<SnapshotView>,
    differences: Seq<Difference>,
    next: SnapshotView,
    i: int,
)
    requires
        differences.len() == snapshots.len(),
        is_newest(snapshots, next.account_key, i),
        differences[i].is_none(),
        snapshots[i].reset_at_ms == next.reset_at_ms,
        snapshots[i].limit_id == next.limit_id,
        snapshots[i].plan == next.plan,
        next.observed_at_ms - snapshots[i].observed_at_ms < REPEAT_AFTER_MS,
    ensures
        !is_news(snapshots, differences, next),
{
    let account = next.account_key;
    let chosen = newest(snapshots, account)->Some_0;
    assert(is_newest(snapshots, account, chosen));
    assert(snapshots[chosen].account_key == account);
    assert(snapshots[i].account_key == account);
    assert(chosen == i);
}

/// What is stored for one account depends on the observations of that account alone: the history
/// and the newest observation of an account are its own.
pub proof fn history_is_the_accounts_own(
    places: Seq<usize>,
    snapshots: Seq<SnapshotView>,
    account: Seq<char>,
    limit: usize,
)
    requires
        is_history(places, snapshots, account, limit),
        limit > 0,
    ensures
        forall|a: int|
            0 <= a < places.len() ==> snapshots[(#[trigger] places[a]) as int].account_key
                == account,
        places.len() == 0 <==> newest(snapshots, account) is None,
        places.len() > 0 ==> newest(snapshots, account) == Some(places[0] as int),
{
    if places.len() > 0 {
        let first = places[0] as int;
        assert forall|j: int|
            0 <= j < snapshots.len() && (#[trigger] snapshots[j]).account_key == account && j
                != first implies is_newer(snapshots, first, j) by {
            if stands_in(places, j) {
                let a = choose|a: int| 0 <= a < places.len() && (#[trigger] places[a]) == j;
                assert(is_newer(snapshots, places[0] as int, places[a] as int));
            }
        }
        assert(is_newest(snapshots, account, first));
        let chosen = newest(snapshots, account)->Some_0;
        assert(is_newest(snapshots, account, chosen));
        assert(snapshots[chosen].account_key == account);
    } else {
        assert forall|i: int| !is_newest(snapshots, account, i) by {
            if 0 <= i < snapshots.len() && snapshots[i].account_key == account {
                assert(stands_in(places, i) || places.len() == limit);
            }
        }
    }
}

/// Whether an observation is the account's newest one by its times: none of the account was made
/// later, and of those that were made at the same time none was stored later.
pub open spec fn comes_last(snapshots: Seq<SnapshotView>, account: Seq<char>, i: int) -> bool {
    &&& 0 <= i < snapshots.len()
    &&& snapshots[i].account_key == account
    &&& forall|j: int|
        0 <= j < snapshots.len() && (#[trigger] snapshots[j]).account_key == account
            ==> snapshots[j].observed_at_ms < snapshots[i].observed_at_ms || (
        snapshots[j].observed_at_ms == snapshots[i].observed_at_ms && j <= i)
}

/// The newest observation is the one that comes last, and there is none exactly where the account
/// has no observation.
pub proof fn the_newest_observation_comes_last(
    snapshots: Seq<SnapshotView>,
    account: Seq<char>,
    i: int,
)
    ensures
        comes_last(snapshots, account, i) ==> newest(snapshots, account) == Some(i),
        newest(snapshots, account) matches Some(at) ==> comes_last(snapshots, account, at),
        (forall|j: int|
            0 <= j < snapshots.len() ==> (#[trigger] snapshots[j]).account_key != account)
            ==> newest(snapshots, account) is None,
{
    if comes_last(snapshots, account, i) {
        assert(is_newest(snapshots, account, i)) by {
            assert forall|j: int|
                0 <= j < snapshots.len() && (#[trigger] snapshots[j]).account_key == account && j
                    != i implies is_newer(snapshots, i, j) by {}
        }
        let at = newest(snapshots, account)->Some_0;
        assert(is_newest(snapshots, account, at));
        assert(snapshots[at].account_key == account);
        assert(snapshots[i].account_key == account);
        if at != i {
            assert(is_newer(snapshots, i, at));
            assert(is_newer(snapshots, at, i));
        }
    }
    if let Some(at) = newest(snapshots, account) {
        assert(is_newest(snapshots, account, at));
        assert forall|j: int|
            0 <= j < snapshots.len() && (#[trigger] snapshots[j]).account_key
                == account implies snapshots[j].observed_at_ms < snapshots[at].observed_at_ms || (
        snapshots[j].observed_at_ms == snapshots[at].observed_at_ms && j <= at) by {
            if j != at {
                assert(is_newer(snapshots, at, j));
            }
        }
    }
}

/// An account that has an observation has a newest one.
pub proof fn an_observed_account_has_a_newest_observation(
    snapshots: Seq<SnapshotView>,
    account: Seq<char>,
    j: int,
)
    requires
        0 <= j < snapshots.len(),
        snapshots[j].account_key == account,
    ensures
        newest(snapshots, account) is Some,
    decreases snapshots.len(),
{
    let rest = snapshots.drop_last();
    let last = snapshots.len() - 1;
    let best = if exists|k: int| 0 <= k < rest.len() && (#[trigger] rest[k]).account_key == account {
        let k = choose|k: int| 0 <= k < rest.len() && (#[trigger] rest[k]).account_key == account;
        an_observed_account_has_a_newest_observation(rest, account, k);
        let early = newest(rest, account)->Some_0;
        the_newest_observation_comes_last(rest, account, early);
        if snapshots[last].account_key == account && snapshots[last].observed_at_ms
            >= snapshots[early].observed_at_ms {
            last
        } else {
            early
        }
    } else {
        assert(j == last) by {
            if j < rest.len() {
                assert(rest[j].account_key == account);
            }
        }
        last
    };
    assert(comes_last(snapshots, account, best)) by {
        assert forall|k: int|
            0 <= k < snapshots.len() && (#[trigger] snapshots[k]).account_key
                == account implies snapshots[k].observed_at_ms < snapshots[best].observed_at_ms || (
        snapshots[k].observed_at_ms == snapshots[best].observed_at_ms && k <= best) by {
            if k < rest.len() {
                assert(rest[k].account_key == account);
            }
        }
    }
    the_newest_observation_comes_last(snapshots, account, best);
}

/// Exactly what says nothing new within a day is left out. An observation is stored where it is the
/// account's first one; where its percentage or its duration differs from that of the account's
/// newest one, whichever way it moved; where it names another reset, another limit or another plan;
/// and where the newest one is a day old. Else it is not.
pub proof fn whatever_is_new_is_stored(
    snapshots: Seq<SnapshotView>,
    differences: Seq<Difference>,
    next: SnapshotView,
    i: int,
)
    ensures
        (forall|j: int|
            0 <= j < snapshots.len() ==> (#[trigger] snapshots[j]).account_key != next.account_key)
            ==> is_news(snapshots, differences, next),
        comes_last(snapshots, next.account_key, i) ==> {
            &&& differences[i].percent_bits >= quota::SAME_BITS ==> is_news(
                snapshots,
                differences,
                next,
            )
            &&& differences[i].duration_bits >= quota::SAME_BITS ==> is_news(
                snapshots,
                differences,
                next,
            )
            &&& snapshots[i].reset_at_ms != next.reset_at_ms ==> is_news(
                snapshots,
                differences,
                next,
            )
            &&& snapshots[i].limit_id != next.limit_id ==> is_news(snapshots, differences, next)
            &&& snapshots[i].plan != next.plan ==> is_news(snapshots, differences, next)
            &&& next.observed_at_ms - snapshots[i].observed_at_ms >= 86_400_000 ==> is_news(
                snapshots,
                differences,
                next,
            )
            &&& differences[i].percent_bits < quota::SAME_BITS && differences[i].duration_bits
                < quota::SAME_BITS && snapshots[i].reset_at_ms == next.reset_at_ms
                && snapshots[i].limit_id == next.limit_id && snapshots[i].plan == next.plan
                && next.observed_at_ms - snapshots[i].observed_at_ms < 86_400_000 ==> !is_news(
                snapshots,
                differences,
                next,
            )
        },
{
    the_newest_observation_comes_last(snapshots, next.account_key, i);
}

/// What an observation leaves behind, where it is valid: the observations with it at their end where
/// it is new, and the windows brought up to date where it names a limit and a reset.
pub open spec fn after_observation(
    snapshots: Seq<SnapshotView>,
    windows: Seq<WindowView>,
    next: SnapshotView,
    duration_ms: i64,
    gaps: Seq<u64>,
    differences: Seq<Difference>,
) -> (Seq<SnapshotView>, Seq<WindowView>) {
    (
        if is_news(snapshots, differences, next) {
            snapshots.push(next)
        } else {
            snapshots
        },
        match sighting_of(next, duration_ms) {
            Some(seen) => after_sighting(windows, gaps, seen),
            None => windows,
        },
    )
}

/// The newest observation of an account always tells what was observed last. Once an observation was
/// taken at no earlier time than the account's others, the account's newest stored observation has
/// its reset, its limit and its plan; it is the observation itself unless that says nothing new. The
/// newest observation of another account is the one that it was.
pub proof fn the_newest_observation_tells_what_was_seen_last(
    snapshots: Seq<SnapshotView>,
    windows: Seq<WindowView>,
    next: SnapshotView,
    duration_ms: i64,
    gaps: Seq<u64>,
    differences: Seq<Difference>,
    other: Seq<char>,
)
    requires
        forall|j: int|
            0 <= j < snapshots.len() && (#[trigger] snapshots[j]).account_key == next.account_key
                ==> snapshots[j].observed_at_ms <= next.observed_at_ms,
        other != next.account_key,
    ensures
        ({
            let after = after_observation(
                snapshots,
                windows,
                next,
                duration_ms,
                gaps,
                differences,
            ).0;
            &&& newest(after, next.account_key) matches Some(i) && {
                &&& after[i].account_key == next.account_key
                &&& after[i].reset_at_ms == next.reset_at_ms
                &&& after[i].limit_id == next.limit_id
                &&& after[i].plan == next.plan
                &&& after[i] == next || (i < snapshots.len() && differences[i].percent_bits
                    < quota::SAME_BITS && differences[i].duration_bits < quota::SAME_BITS
                    && next.observed_at_ms - after[i].observed_at_ms < 86_400_000)
            }
            &&& newest(after, other) == newest(snapshots, other)
            &&& snapshots.len() <= after.len() <= snapshots.len() + 1
            &&& forall|j: int| 0 <= j < snapshots.len() ==> #[trigger] after[j] == snapshots[j]
        }),
{
    let account = next.account_key;
    let after = after_observation(snapshots, windows, next, duration_ms, gaps, differences).0;
    let end = snapshots.len() as int;
    if is_news(snapshots, differences, next) {
        assert(after[end] == next);
        assert(comes_last(after, account, end)) by {
            assert forall|j: int|
                0 <= j < after.len() && (#[trigger] after[j]).account_key
                    == account implies after[j].observed_at_ms < after[end].observed_at_ms || (
            after[j].observed_at_ms == after[end].observed_at_ms && j <= end) by {
                if j < end {
                    assert(snapshots[j].account_key == account);
                }
            }
        }
        the_newest_observation_comes_last(after, account, end);
        if let Some(at) = newest(snapshots, other) {
            the_newest_observation_comes_last(snapshots, other, at);
            assert(comes_last(after, other, at)) by {
                assert forall|j: int|
                    0 <= j < after.len() && (#[trigger] after[j]).account_key
                        == other implies after[j].observed_at_ms < after[at].observed_at_ms || (
                after[j].observed_at_ms == after[at].observed_at_ms && j <= at) by {
                    assert(j < end);
                    assert(snapshots[j].account_key == other);
                }
            }
            the_newest_observation_comes_last(after, other, at);
        } else {
            assert forall|j: int| 0 <= j < after.len() implies (#[trigger] after[j]).account_key
                != other by {
                if j < end && snapshots[j].account_key == other {
                    an_observed_account_has_a_newest_observation(snapshots, other, j);
                }
            }
            the_newest_observation_comes_last(after, other, 0);
        }
    } else {
        let at = newest(snapshots, account)->Some_0;
        the_newest_observation_comes_last(snapshots, account, at);
    }
}

/// Which observations are refused: those whose percentage is no number from zero to a hundred, and
/// those whose duration is no number above zero. All others are taken.
pub proof fn invalid_observations_are_refused(snapshot: SnapshotView)
    ensures
        refusal(snapshot) is None <==> (snapshot.used_percent_bits <= 0x4059_0000_0000_0000
            || snapshot.used_percent_bits == 0x8000_0000_0000_0000) && 0
            < snapshot.duration_minutes_bits < 0x7ff0_0000_0000_0000,
{
}

/// An observation tells about a window exactly where it names a reset and a limit: of its own
/// account, limit, reset and duration, at its own time.
pub proof fn an_observation_tells_about_its_own_window(snapshot: SnapshotView, duration_ms: i64)
    ensures
        match sighting_of(snapshot, duration_ms) {
            Some(seen) => {
                &&& seen.account_key == snapshot.account_key
                &&& snapshot.limit_id == Some(seen.limit_id)
                &&& snapshot.reset_at_ms == Some(seen.reset_at_ms)
                &&& seen.duration_minutes_bits == snapshot.duration_minutes_bits
                &&& seen.duration_ms == duration_ms
                &&& seen.observed_at_ms == snapshot.observed_at_ms
            },
            None => snapshot.limit_id is None || snapshot.reset_at_ms is None,
        },
{
}

/// The reset under which an observation is kept is its own, or that of an active window of the same
/// account and limit that lasts as long and resets at most five minutes apart; of several such
/// windows none resets closer to what was seen. Wherever there is such a window, the reset is one of
/// theirs.
pub proof fn a_reset_is_kept_within_five_minutes(
    windows: Seq<WindowView>,
    gaps: Seq<u64>,
    seen: Sighting,
    j: int,
)
    ensures
        -300_000 <= canonical_reset(windows, gaps, seen) - seen.reset_at_ms <= 300_000,
        0 <= j < windows.len() && windows[j].account_key == seen.account_key && windows[j].limit_id
            == seen.limit_id && windows[j].status == "active"@ && gaps[j] < quota::SAME_BITS
            && -300_000 <= windows[j].reset_at_ms - seen.reset_at_ms <= 300_000 ==> apart(
            canonical_reset(windows, gaps, seen),
            seen.reset_at_ms,
        ) <= apart(windows[j].reset_at_ms, seen.reset_at_ms) && exists|i: int|
            0 <= i < windows.len() && (#[trigger] windows[i]).account_key == seen.account_key
                && windows[i].limit_id == seen.limit_id && windows[i].status == "active"@
                && windows[i].reset_at_ms == canonical_reset(windows, gaps, seen),
{
    best_match_is_unique(windows, gaps, seen);
    if exists|i: int| is_epoch(windows, gaps, seen, i) {
        let best = choose|i: int| is_epoch(windows, gaps, seen, i);
        assert(windows[best].may_be(gaps[best], seen));
        if 0 <= j < windows.len() && windows[j].may_be(gaps[j], seen) {
            assert(matches_better(windows, seen, best, j));
        }
    } else if 0 <= j < windows.len() && windows[j].may_be(gaps[j], seen) {
        assert(false);
    }
}

/// A window that is seen for the first time begins its own duration before its reset, and is active
/// from then on under what was seen.
pub proof fn a_new_window_is_the_one_that_was_seen(seen: Sighting, reset_at_ms: i64)
    ensures
        ({
            let window = new_window(seen, reset_at_ms);
            &&& window.account_key == seen.account_key
            &&& window.limit_id == seen.limit_id
            &&& window.reset_at_ms == reset_at_ms
            &&& window.duration_minutes_bits == seen.duration_minutes_bits
            &&& i64::MIN <= reset_at_ms - seen.duration_ms <= i64::MAX ==> window.window_start_ms
                + seen.duration_ms == reset_at_ms
            &&& window.first_seen_at_ms == seen.observed_at_ms
            &&& window.last_seen_at_ms == seen.observed_at_ms
            &&& window.status == "active"@
        }),
{
}

/// What an observation does to each window of its limit: an active one with another reset is closed
/// and was last seen now, and one that is not active stays as it is unless it is the one that was
/// seen.
pub proof fn another_reset_closes_the_window(
    windows: Seq<WindowView>,
    gaps: Seq<u64>,
    seen: Sighting,
    i: int,
)
    requires
        0 <= i < windows.len(),
        windows[i].account_key == seen.account_key,
        windows[i].limit_id == seen.limit_id,
        windows[i].reset_at_ms != canonical_reset(windows, gaps, seen),
    ensures
        ({
            let after = after_sighting(windows, gaps, seen)[i];
            &&& windows[i].status == "active"@ ==> after.status == "closed"@
                && after.last_seen_at_ms == seen.observed_at_ms
            &&& windows[i].status != "active"@ ==> after == windows[i]
        }),
{
    let reset = canonical_reset(windows, gaps, seen);
    let rest = all_superseded(windows, seen, reset);
    place_is_first(rest, seen, reset);
}

/// Whether a window may be the one that was seen, said of its fields: it is an active one of the same
/// account and limit, lasts as long, and resets at most five minutes apart.
pub open spec fn is_likely(window: WindowView, gap: u64, seen: Sighting) -> bool {
    &&& window.account_key == seen.account_key
    &&& window.limit_id == seen.limit_id
    &&& window.status == "active"@
    &&& gap < 0x3eb0_c6f7_a0b5_ed8d
    &&& -300_000 <= window.reset_at_ms - seen.reset_at_ms <= 300_000
}

/// Of the windows that may be the one that was seen, the one with the closest reset is taken, and of
/// equally close ones one that was seen earliest; where there is none, what was seen keeps its own
/// reset.
pub proof fn the_closest_and_oldest_window_is_taken(
    windows: Seq<WindowView>,
    gaps: Seq<u64>,
    seen: Sighting,
)
    requires
        gaps.len() == windows.len(),
    ensures
        (forall|j: int|
            0 <= j < windows.len() ==> !is_likely(#[trigger] windows[j], gaps[j], seen))
            ==> canonical_reset(windows, gaps, seen) == seen.reset_at_ms,
        (exists|j: int| 0 <= j < windows.len() && is_likely(#[trigger] windows[j], gaps[j], seen))
            ==> exists|i: int|
            0 <= i < windows.len() && is_likely(#[trigger] windows[i], gaps[i], seen)
                && windows[i].reset_at_ms == canonical_reset(windows, gaps, seen) && forall|j: int|
                0 <= j < windows.len() && is_likely(#[trigger] windows[j], gaps[j], seen) ==> apart(
                    windows[i].reset_at_ms,
                    seen.reset_at_ms,
                ) < apart(windows[j].reset_at_ms, seen.reset_at_ms) || (apart(
                    windows[i].reset_at_ms,
                    seen.reset_at_ms,
                ) == apart(windows[j].reset_at_ms, seen.reset_at_ms) && windows[i].first_seen_at_ms
                    <= windows[j].first_seen_at_ms),
{
    best_match_is_unique(windows, gaps, seen);
    assert forall|j: int| 0 <= j < windows.len() implies is_likely(
        #[trigger] windows[j],
        gaps[j],
        seen,
    ) == windows[j].may_be(gaps[j], seen) by {}
    if exists|i: int| is_epoch(windows, gaps, seen, i) {
        let best = choose|i: int| is_epoch(windows, gaps, seen, i);
        assert(is_likely(windows[best], gaps[best], seen));
        assert forall|j: int|
            0 <= j < windows.len() && is_likely(#[trigger] windows[j], gaps[j], seen) implies apart(
            windows[best].reset_at_ms,
            seen.reset_at_ms,
        ) < apart(windows[j].reset_at_ms, seen.reset_at_ms) || (apart(
            windows[best].reset_at_ms,
            seen.reset_at_ms,
        ) == apart(windows[j].reset_at_ms, seen.reset_at_ms) && windows[best].first_seen_at_ms
            <= windows[j].first_seen_at_ms) by {
            assert(matches_better(windows, seen, best, j));
        }
    }
}

/// A distance between two resets is how far one is from the other, either way.
pub proof fn a_distance_goes_either_way(left: i64, right: i64)
    ensures
        apart(left, right) == apart(right, left),
        left >= right ==> right + apart(left, right) == left,
{
}

/// A history is complete and in order: its observations are different ones of the account, the later
/// before the earlier, and no more than were asked for. One that is missing was made no later than
/// any that is listed, and is missing only where as many are listed as were asked for.
pub proof fn a_history_is_complete_and_in_order(
    places: Seq<usize>,
    snapshots: Seq<SnapshotView>,
    account: Seq<char>,
    limit: usize,
    a: int,
    b: int,
    j: int,
)
    requires
        is_history(places, snapshots, account, limit),
    ensures
        places.len() <= limit,
        0 <= a < places.len() ==> places[a] < snapshots.len()
            && snapshots[places[a] as int].account_key == account,
        0 <= a < b < places.len() ==> places[a] != places[b]
            && snapshots[places[a] as int].observed_at_ms
            >= snapshots[places[b] as int].observed_at_ms,
        0 <= j < snapshots.len() && snapshots[j].account_key == account && (forall|c: int|
            0 <= c < places.len() ==> (#[trigger] places[c]) != j) ==> places.len() == limit && (0
            <= a < places.len() ==> snapshots[places[a] as int].observed_at_ms
            >= snapshots[j].observed_at_ms),
{
    if 0 <= a < b < places.len() {
        assert(is_newer(snapshots, places[a] as int, places[b] as int));
    }
    if 0 <= j < snapshots.len() && snapshots[j].account_key == account && (forall|c: int|
        0 <= c < places.len() ==> (#[trigger] places[c]) != j) {
        assert(!stands_in(places, j));
        if 0 <= a < places.len() {
            assert(is_newer(snapshots, places[a] as int, j));
        }
    }
}

/// What an observation does to the windows that have the reset under which it is kept: the one that
/// lasts exactly as long is active and was last seen now, any other stays as it is, and where none
/// lasts as long a new one is added behind all others.
pub proof fn the_window_that_was_seen_is_active(
    windows: Seq<WindowView>,
    gaps: Seq<u64>,
    seen: Sighting,
    i: int,
)
    requires
        windows_differ(windows),
    ensures
        ({
            let after = after_sighting(windows, gaps, seen);
            let reset = canonical_reset(windows, gaps, seen);
            let own = |window: WindowView|
                window.account_key == seen.account_key && window.limit_id == seen.limit_id
                    && window.reset_at_ms == reset;
            &&& 0 <= i < windows.len() && own(windows[i]) ==> if windows[i].duration_minutes_bits
                == seen.duration_minutes_bits {
                &&& after.len() == windows.len()
                &&& after[i].status == "active"@
                &&& after[i].last_seen_at_ms == seen.observed_at_ms
                &&& after[i].first_seen_at_ms == windows[i].first_seen_at_ms
                &&& after[i].window_start_ms == windows[i].window_start_ms
            } else {
                after[i] == windows[i]
            }
            &&& (forall|j: int|
                0 <= j < windows.len() ==> !own(#[trigger] windows[j])
                    || windows[j].duration_minutes_bits != seen.duration_minutes_bits)
                ==> after.len() == windows.len() + 1 && after.last() == new_window(seen, reset)
        }),
{
    let reset = canonical_reset(windows, gaps, seen);
    let rest = all_superseded(windows, seen, reset);
    let after = after_sighting(windows, gaps, seen);
    place_is_first(rest, seen, reset);
    let at = place_of(rest, seen, reset) as int;
    if 0 <= i < windows.len() && windows[i].has_key(seen, reset) {
        assert(rest[i].has_key(seen, reset));
        assert(at <= i) by {
            if i < at {
                assert(!rest[i].has_key(seen, reset));
            }
        }
        assert(rest[at].has_key(seen, reset));
        if at < i {
            assert(windows[at].account_key == windows[i].account_key);
        }
    }
    if at < rest.len() {
        assert(rest[at].has_key(seen, reset));
        assert(windows[at].has_key(seen, reset));
        assert(windows[at].reset_at_ms == reset);
    }
}

/// A difference of times is exact where it can be held, and else the furthest time on its side.
pub proof fn differences_stop_at_the_ends(left: i64, right: i64)
    ensures
        i64::MIN <= left - right <= i64::MAX ==> capped_difference(left, right) == left - right,
        left - right > i64::MAX ==> capped_difference(left, right) == i64::MAX,
        left - right < i64::MIN ==> capped_difference(left, right) == i64::MIN,
{
}

/// A refusal says what is invalid: the percentage where it is, and else the duration.
pub proof fn a_refusal_says_what_is_invalid(snapshot: SnapshotView)
    ensures
        !quota::is_percentage(snapshot.used_percent_bits) ==> refusal(snapshot) == Some(
            "invalid used percentage"@,
        ),
        quota::is_percentage(snapshot.used_percent_bits) && refusal(snapshot) is Some ==> refusal(
            snapshot,
        ) == Some("invalid quota window duration"@),
{
}

} // verus!
