//! Rate limits as the App Server reports them: which windows a reply holds, and which of them is
//! the weekly one. Percentages and durations are doubles; they are carried by their bits, and the
//! bits of two doubles without a sign compare as the doubles do.
use vstd::prelude::*;

use crate::json;
use crate::json::Json;
use crate::json::JsonMember;
use crate::json::JsonView;
use crate::text;
use crate::text::copy_optional_text;
use crate::text::is_before;
use crate::text::join;
use crate::text::own_optional_text;

verus! {

/// The bits of an infinite double: larger bits without a sign are no number.
pub const INFINITY_BITS: u64 = 0x7ff0_0000_0000_0000;

/// The bits of the double 240: the minutes by which a weekly window may miss a week.
pub const WEEK_TOLERANCE_BITS: u64 = 0x406e_0000_0000_0000;

/// The bits of the double 0.000001: doubles that are closer than this count as the same.
pub const SAME_BITS: u64 = 0x3eb0_c6f7_a0b5_ed8d;

/// The bits of the double 1.
pub const ONE_BITS: u64 = 0x3ff0_0000_0000_0000;

/// The bits of the double 10.
pub const TEN_BITS: u64 = 0x4024_0000_0000_0000;

/// The bits of the double 100.
pub const HUNDRED_BITS: u64 = 0x4059_0000_0000_0000;

/// The bits of the negative zero: those of every double with a sign are at least as large.
pub const NEGATIVE_ZERO_BITS: u64 = 0x8000_0000_0000_0000;

/// The bits of the negative infinite double: larger bits are no number.
pub const NEGATIVE_INFINITY_BITS: u64 = 0xfff0_0000_0000_0000;

/// The resets below this number are seconds, the others milliseconds.
pub const FIRST_MILLISECOND_RESET: i64 = 10_000_000_000;

/// One window in a reply.
#[derive(Debug)]
pub struct WindowReading {
    pub used_percent_bits: u64,
    pub duration_minutes_bits: u64,
    pub reset_at_ms: Option<i64>,
    pub limit_id: Option<String>,
    pub plan: Option<String>,
}

/// What a window says.
#[verifier::ext_equal]
pub struct ReadingView {
    pub used_percent_bits: u64,
    pub duration_minutes_bits: u64,
    pub reset_at_ms: Option<i64>,
    pub limit_id: Option<Seq<char>>,
    pub plan: Option<Seq<char>>,
}

impl View for WindowReading {
    type V = ReadingView;

    open spec fn view(&self) -> ReadingView {
        ReadingView {
            used_percent_bits: self.used_percent_bits,
            duration_minutes_bits: self.duration_minutes_bits,
            reset_at_ms: self.reset_at_ms,
            limit_id: text::opt_view(self.limit_id),
            plan: text::opt_view(self.plan),
        }
    }
}

/// What windows say.
pub open spec fn reading_views(readings: Seq<WindowReading>) -> Seq<ReadingView> {
    readings.map_values(|reading: WindowReading| reading@)
}

/// The first of two texts that is there.
pub open spec fn text_or(first: Option<Seq<char>>, second: Option<Seq<char>>) -> Option<Seq<char>> {
    match first {
        Some(text) => Some(text),
        None => second,
    }
}

/// The double in a value.
pub open spec fn found_double(found: Option<JsonView>) -> Option<u64> {
    match found {
        Some(value) => value.double_bits(),
        None => None,
    }
}

/// The first of four members that is there, whatever it holds.
pub open spec fn first_of(
    value: JsonView,
    first: Seq<char>,
    second: Seq<char>,
    third: Seq<char>,
    fourth: Seq<char>,
) -> Option<JsonView> {
    json::either(
        json::either(value.member(first), value.member(second)),
        json::either(value.member(third), value.member(fourth)),
    )
}

/// The limit that a value names.
pub open spec fn limit_of(value: JsonView) -> Option<Seq<char>> {
    json::found_text(json::either(value.member("limitId"@), value.member("limit_id"@)))
}

/// The plan that a value names.
pub open spec fn plan_of(value: JsonView) -> Option<Seq<char>> {
    json::found_text(
        json::either(
            json::either(value.member("planType"@), value.member("plan_type"@)),
            value.member("plan"@),
        ),
    )
}

/// The time of a reset in milliseconds.
pub open spec fn reset_time(reset: i64) -> i64 {
    if reset < FIRST_MILLISECOND_RESET {
        reset.wrapping_mul(1000)
    } else {
        reset
    }
}

/// The reset that a value names.
pub open spec fn reset_of(value: JsonView) -> Option<i64> {
    match first_of(value, "resetsAt"@, "resets_at"@, "resetAt"@, "reset_at"@) {
        Some(reset) => match reset.signed() {
            Some(reset) => Some(reset_time(reset)),
            None => None,
        },
        None => None,
    }
}

/// The window that a value is: there is one where it names a used percentage. A duration that is
/// not named is zero.
pub open spec fn window_of(value: JsonView, inherited: Option<Seq<char>>) -> Option<ReadingView> {
    match found_double(json::either(value.member("usedPercent"@), value.member("used_percent"@))) {
        Some(used_percent_bits) => Some(
            ReadingView {
                used_percent_bits,
                duration_minutes_bits: match found_double(
                    first_of(
                        value,
                        "windowDurationMins"@,
                        "window_duration_mins"@,
                        "durationMinutes"@,
                        "duration_minutes"@,
                    ),
                ) {
                    Some(bits) => bits,
                    None => 0,
                },
                reset_at_ms: reset_of(value),
                limit_id: text_or(inherited, limit_of(value)),
                plan: plan_of(value),
            },
        ),
        None => None,
    }
}

/// The window that a member of a bucket is, with the bucket's plan where it names none itself.
pub open spec fn window_in(
    value: Option<JsonView>,
    limit_id: Option<Seq<char>>,
    plan: Option<Seq<char>>,
) -> Seq<ReadingView> {
    match value {
        Some(value) => match window_of(value, limit_id) {
            Some(window) => seq![ReadingView { plan: text_or(window.plan, plan), ..window }],
            None => Seq::empty(),
        },
        None => Seq::empty(),
    }
}

/// The windows of a bucket: its primary and its secondary one, or else the one that it is itself.
pub open spec fn windows_of(value: JsonView, inherited: Option<Seq<char>>) -> Seq<ReadingView> {
    let limit_id = text_or(limit_of(value), inherited);
    let plan = plan_of(value);
    let inner = window_in(value.member("primary"@), limit_id, plan) + window_in(
        value.member("secondary"@),
        limit_id,
        plan,
    );
    if inner.len() > 0 {
        inner
    } else {
        window_in(Some(value), limit_id, plan)
    }
}

/// The windows of several buckets.
pub open spec fn windows_of_all(values: Seq<JsonView>) -> Seq<ReadingView>
    decreases values.len(),
{
    if values.len() == 0 {
        Seq::empty()
    } else {
        windows_of_all(values.drop_last()) + windows_of(values.last(), None)
    }
}

/// Where a reply holds its limits: in a member of its own, or at the top.
pub open spec fn root_of(reply: JsonView) -> JsonView {
    match reply.member("rateLimits"@) {
        Some(root) => root,
        None => reply,
    }
}

/// The members of an object.
pub open spec fn members_of(value: Option<JsonView>) -> Option<Seq<(Seq<char>, JsonView)>> {
    match value {
        Some(JsonView::Object(members)) => Some(members),
        _ => None,
    }
}

/// The limits of a reply by their names, where it has them.
pub open spec fn named_limits(reply: JsonView) -> Option<Seq<(Seq<char>, JsonView)>> {
    match members_of(root_of(reply).member("rateLimitsByLimitId"@)) {
        Some(members) => Some(members),
        None => members_of(reply.member("rateLimitsByLimitId"@)),
    }
}

/// The windows of a reply that does not name its limits.
pub open spec fn unnamed_windows(reply: JsonView) -> Seq<ReadingView> {
    let root = root_of(reply);
    match json::either(root.member("rateLimits"@), reply.member("rateLimits"@)) {
        Some(JsonView::List(values)) => windows_of_all(values),
        Some(value) => windows_of(value, None),
        None => windows_of(root, None),
    }
}

/// The names of members.
pub open spec fn names_of(members: Seq<(Seq<char>, JsonView)>) -> Seq<Seq<char>> {
    members.map_values(|member: (Seq<char>, JsonView)| member.0)
}

/// Whether a text may stand before another in an ordered list.
pub open spec fn not_after(left: Seq<char>, right: Seq<char>) -> bool {
    !text::text_before(right, left)
}

/// Texts in their order.
pub open spec fn ordered(texts: Seq<Seq<char>>) -> Seq<Seq<char>> {
    texts.sort_by(|left: Seq<char>, right: Seq<char>| not_after(left, right))
}

/// What is said where the canonical limit is missing among these names.
pub open spec fn missing_limit_message(names: Seq<Seq<char>>) -> Seq<char> {
    "canonical codex limit id is missing; available limit ids: "@ + text::joined(
        ordered(names),
        ", "@,
    )
}

/// The windows of a reply: those of the canonical limit where the reply names its limits, which
/// have to hold it; else those of all limits.
pub open spec fn candidates_of(reply: JsonView) -> Result<Seq<ReadingView>, Seq<char>> {
    match named_limits(reply) {
        Some(members) => match json::first_named(members, "codex"@) {
            Some(codex) => Ok(windows_of(codex, Some("codex"@))),
            None => Err(missing_limit_message(names_of(members))),
        },
        None => Ok(unnamed_windows(reply)),
    }
}

/// Texts that stand in their order are the ordered list of their own.
proof fn ordered_list_is_unique(list: Seq<Seq<char>>, texts: Seq<Seq<char>>)
    requires
        forall|i: int, j: int|
            0 <= i < j < list.len() ==> #[trigger] not_after(list[i], list[j]),
        list.to_multiset() == texts.to_multiset(),
    ensures
        list == ordered(texts),
{
    let leq = |left: Seq<char>, right: Seq<char>| not_after(left, right);
    assert(vstd::relations::total_ordering(leq)) by {
        assert forall|x: Seq<char>| #[trigger] leq(x, x) by {
            text::text_order_is_irreflexive(x);
        }
        assert forall|x: Seq<char>, y: Seq<char>| #[trigger] leq(x, y) && #[trigger] leq(
            y,
            x,
        ) implies x == y by {
            text::text_order_is_total(x, y);
        }
        assert forall|x: Seq<char>, y: Seq<char>| #[trigger] leq(x, y) || #[trigger] leq(y, x) by {
            if text::text_before(y, x) && text::text_before(x, y) {
                text::text_order_is_transitive(x, y, x);
                text::text_order_is_irreflexive(x);
            }
        }
        assert forall|x: Seq<char>, y: Seq<char>, z: Seq<char>| #[trigger] leq(x, y)
            && #[trigger] leq(y, z) implies leq(x, z) by {
            if text::text_before(z, x) {
                text::text_order_is_total(x, y);
                text::text_order_is_total(y, z);
                if x != y && y != z {
                    text::text_order_is_transitive(x, y, z);
                    text::text_order_is_transitive(x, z, x);
                    text::text_order_is_irreflexive(x);
                }
            }
        }
    }
    assert forall|i: int, j: int| 0 <= i < j < list.len() implies #[trigger] leq(
        list[i],
        list[j],
    ) by {
        assert(not_after(list[i], list[j]));
    }
    texts.lemma_sort_by_ensures(leq);
    vstd::seq_lib::lemma_sorted_unique(list, ordered(texts), leq);
}

/// The first of two texts that is there.
fn own_text_or(first: &Option<String>, second: Option<&str>) -> (text: Option<String>)
    ensures
        text::opt_view(text) == text_or(text::opt_view(*first), text::opt_str_view(second)),
{
    match first {
        Some(text) => Some(text.clone()),
        None => own_optional_text(second),
    }
}

/// The first of four members that is there.
fn get_first<'a>(
    value: &'a Json,
    first: &str,
    second: &str,
    third: &str,
    fourth: &str,
) -> (found: Option<&'a Json>)
    ensures
        json::opt_json(found) == first_of(value@, first@, second@, third@, fourth@),
{
    match value.get_either(first, second) {
        Some(value) => Some(value),
        None => value.get_either(third, fourth),
    }
}

/// The double in a value.
fn double_of(found: Option<&Json>) -> (bits: Option<u64>)
    ensures
        bits == found_double(json::opt_json(found)),
{
    match found {
        Some(value) => value.as_double_bits(),
        None => None,
    }
}

/// The text of a value.
fn text_of(found: Option<&Json>) -> (text: Option<&str>)
    ensures
        text::opt_str_view(text) == json::found_text(json::opt_json(found)),
{
    match found {
        Some(value) => value.as_str(),
        None => None,
    }
}

/// The plan that a value names.
fn plan_text(value: &Json) -> (plan: Option<&str>)
    ensures
        text::opt_str_view(plan) == plan_of(value@),
{
    match value.get_either("planType", "plan_type") {
        Some(plan) => plan.as_str(),
        None => value.get_str("plan"),
    }
}

/// An optional window.
pub open spec fn opt_reading(reading: Option<WindowReading>) -> Option<ReadingView> {
    match reading {
        Some(reading) => Some(reading@),
        None => None,
    }
}

/// The window that a value is.
pub fn parse_window(value: &Json, inherited_limit_id: &Option<String>) -> (window: Option<
    WindowReading,
>)
    ensures
        opt_reading(window) == window_of(value@, text::opt_view(*inherited_limit_id)),
{
    let used_percent_bits = match double_of(value.get_either("usedPercent", "used_percent")) {
        Some(bits) => bits,
        None => {
            return None;
        },
    };
    let duration = get_first(
        value,
        "windowDurationMins",
        "window_duration_mins",
        "durationMinutes",
        "duration_minutes",
    );
    let reset = get_first(value, "resetsAt", "resets_at", "resetAt", "reset_at");
    let reset_at_ms = match reset {
        Some(reset) => match reset.as_i64() {
            Some(reset) => Some(
                if reset < FIRST_MILLISECOND_RESET {
                    reset.wrapping_mul(1000)
                } else {
                    reset
                },
            ),
            None => None,
        },
        None => None,
    };
    Some(
        WindowReading {
            used_percent_bits,
            duration_minutes_bits: double_of(duration).unwrap_or(0),
            reset_at_ms,
            limit_id: own_text_or(
                inherited_limit_id,
                text_of(value.get_either("limitId", "limit_id")),
            ),
            plan: own_optional_text(plan_text(value)),
        },
    )
}

/// Adds the window that a member of a bucket is.
fn push_window(
    windows: &mut Vec<WindowReading>,
    value: Option<&Json>,
    limit_id: &Option<String>,
    plan: &Option<String>,
)
    ensures
        reading_views(final(windows)@) == reading_views(old(windows)@) + window_in(
            json::opt_json(value),
            text::opt_view(*limit_id),
            text::opt_view(*plan),
        ),
{
    let ghost before = reading_views(windows@);
    if let Some(value) = value {
        if let Some(window) = parse_window(value, limit_id) {
            let window = WindowReading {
                plan: match window.plan {
                    Some(plan) => Some(plan),
                    None => copy_optional_text(plan),
                },
                used_percent_bits: window.used_percent_bits,
                duration_minutes_bits: window.duration_minutes_bits,
                reset_at_ms: window.reset_at_ms,
                limit_id: window.limit_id,
            };
            let ghost said = window@;
            windows.push(window);
            assert(reading_views(windows@) =~= before + seq![said]);
            return ;
        }
    }
    assert(before + Seq::<ReadingView>::empty() =~= before);
}

/// The windows of a bucket.
pub fn bucket_windows(value: &Json, inherited_limit_id: &Option<String>) -> (windows: Vec<
    WindowReading,
>)
    ensures
        reading_views(windows@) == windows_of(value@, text::opt_view(*inherited_limit_id)),
{
    let limit_id = match text_of(value.get_either("limitId", "limit_id")) {
        Some(limit_id) => Some(limit_id.to_owned()),
        None => copy_optional_text(inherited_limit_id),
    };
    let plan = own_optional_text(plan_text(value));
    let mut windows: Vec<WindowReading> = Vec::new();
    assert(reading_views(windows@) =~= Seq::<ReadingView>::empty());
    push_window(&mut windows, value.get("primary"), &limit_id, &plan);
    assert(Seq::<ReadingView>::empty() + reading_views(windows@) =~= reading_views(windows@));
    push_window(&mut windows, value.get("secondary"), &limit_id, &plan);
    assert(windows@.len() == reading_views(windows@).len());
    if windows.len() == 0 {
        assert(reading_views(windows@) =~= Seq::<ReadingView>::empty());
        push_window(&mut windows, Some(value), &limit_id, &plan);
        assert(Seq::<ReadingView>::empty() + reading_views(windows@) =~= reading_views(windows@));
    }
    windows
}

/// Whether texts stand in their order.
spec fn in_order(texts: Seq<Seq<char>>) -> bool {
    forall|i: int, j: int| 0 <= i < j < texts.len() ==> #[trigger] not_after(texts[i], texts[j])
}

/// The names of members in their order.
fn sorted_names(members: &Vec<JsonMember>) -> (names: Vec<String>)
    ensures
        text::views(names@) == ordered(Seq::new(members@.len(), |i: int| members@[i].name@)),
{
    let ghost all = Seq::new(members@.len(), |i: int| members@[i].name@);
    let mut names: Vec<String> = Vec::new();
    let mut i: usize = 0;
    assert(text::views(names@) =~= all.take(0));
    while i < members.len()
        invariant
            i <= members@.len(),
            all == Seq::new(members@.len(), |i: int| members@[i].name@),
            in_order(text::views(names@)),
            text::views(names@).to_multiset() == all.take(i as int).to_multiset(),
        decreases members@.len() - i,
    {
        let ghost before = text::views(names@);
        let name = members[i].name.clone();
        let ghost added = name@;
        let at = insertion_place(&names, name.as_str());
        names.insert(at, name);
        proof {
            let after = text::views(names@);
            assert(after =~= before.insert(at as int, added));
            assert(after.remove(at as int) =~= before);
            after.to_multiset_ensures();
            assert(after[at as int] == added);
            assert(after.contains(added));
            assert(after.to_multiset() =~= before.to_multiset().insert(added));
            assert(all.take(i + 1) =~= all.take(i as int).push(added));
            all.take(i as int).to_multiset_ensures();
            assert forall|a: int, b: int| 0 <= a < b < after.len() implies #[trigger] not_after(
                after[a],
                after[b],
            ) by {
                let left = if a < at {
                    a
                } else {
                    a - 1
                };
                let right = if b < at {
                    b
                } else {
                    b - 1
                };
                if a != at && b != at {
                    assert(not_after(before[left], before[right]));
                }
            }
        }
        i += 1;
    }
    proof {
        assert(all.take(all.len() as int) =~= all);
        ordered_list_is_unique(text::views(names@), all);
    }
    names
}

/// Where a name belongs among ordered names: behind all that do not come after it.
fn insertion_place(names: &Vec<String>, name: &str) -> (at: usize)
    requires
        in_order(text::views(names@)),
    ensures
        at <= names@.len(),
        forall|i: int|
            0 <= i < at ==> !text::text_before(name@, #[trigger] text::views(names@)[i]),
        forall|i: int|
            at <= i < names@.len() ==> !text::text_before(#[trigger] text::views(names@)[i], name@),
{
    let mut at: usize = 0;
    while at < names.len()
        invariant
            at <= names@.len(),
            in_order(text::views(names@)),
            forall|i: int|
                0 <= i < at ==> !text::text_before(name@, #[trigger] text::views(names@)[i]),
        decreases names@.len() - at,
    {
        if is_before(name, names[at].as_str()) {
            proof {
                let all = text::views(names@);
                assert(all[at as int] == names@[at as int]@);
                assert forall|i: int| at <= i < names@.len() implies !text::text_before(
                    #[trigger] all[i],
                    name@,
                ) by {
                    if text::text_before(all[i], name@) {
                        assert(i > at ==> not_after(all[at as int], all[i]));
                        text::text_order_is_transitive(all[i], name@, all[at as int]);
                        text::text_order_is_irreflexive(all[i]);
                    }
                }
            }
            return at;
        }
        assert(text::views(names@)[at as int] == names@[at as int]@);
        at += 1;
    }
    at
}

/// The message that the canonical limit is missing.
fn missing_limit(members: &Vec<JsonMember>) -> (message: String)
    ensures
        message@ == missing_limit_message(Seq::new(members@.len(), |i: int| members@[i].name@)),
{
    let ids = sorted_names(members);
    let mut message = "canonical codex limit id is missing; available limit ids: ".to_owned();
    let list = join(&ids, ", ");
    message.append(list.as_str());
    message
}

/// The windows of a reply, or the message that the canonical limit is missing.
pub fn weekly_candidates(reply: &Json) -> (candidates: Result<Vec<WindowReading>, String>)
    ensures
        match candidates_of(reply@) {
            Ok(windows) => candidates matches Ok(found) && reading_views(found@) == windows,
            Err(message) => candidates matches Err(found) && found@ == message,
        },
{
    let root = match reply.get("rateLimits") {
        Some(root) => root,
        None => reply,
    };
    let inner = root.get("rateLimitsByLimitId");
    let named = match inner {
        Some(Json::Object(_)) => inner,
        _ => reply.get("rateLimitsByLimitId"),
    };
    if let Some(limits) = named {
        if let Json::Object(members) = limits {
            return match limits.get("codex") {
                Some(codex) => Ok(bucket_windows(codex, &Some("codex".to_owned()))),
                None => {
                    assert(names_of(limits@->Object_0) =~= Seq::new(
                        members@.len(),
                        |i: int| members@[i].name@,
                    ));
                    Err(missing_limit(members))
                },
            };
        }
    }
    let found = match root.get("rateLimits") {
        Some(found) => Some(found),
        None => reply.get("rateLimits"),
    };
    match found {
        Some(limits) => match limits {
            Json::List(items) => {
                assert(limits@->List_0 =~= Seq::new(items@.len(), |i: int| items@[i]@));
                Ok(all_windows(items))
            },
            _ => Ok(bucket_windows(limits, &None)),
        },
        None => Ok(bucket_windows(root, &None)),
    }
}

/// The windows of several buckets.
fn all_windows(values: &Vec<Json>) -> (windows: Vec<WindowReading>)
    ensures
        reading_views(windows@) == windows_of_all(Seq::new(values@.len(), |i: int| values@[i]@)),
{
    let ghost all = Seq::new(values@.len(), |i: int| values@[i]@);
    let mut windows: Vec<WindowReading> = Vec::new();
    let mut i: usize = 0;
    assert(all.take(0) =~= Seq::<JsonView>::empty());
    assert(reading_views(windows@) =~= Seq::<ReadingView>::empty());
    while i < values.len()
        invariant
            i <= values@.len(),
            all == Seq::new(values@.len(), |i: int| values@[i]@),
            reading_views(windows@) == windows_of_all(all.take(i as int)),
        decreases values@.len() - i,
    {
        let ghost before = windows@;
        let mut more = bucket_windows(&values[i], &None);
        let ghost added = more@;
        windows.append(&mut more);
        proof {
            assert(all.take(i + 1).drop_last() =~= all.take(i as int));
            assert(reading_views(before + added) =~= reading_views(before) + reading_views(added));
        }
        i += 1;
    }
    assert(all.take(all.len() as int) =~= all);
    windows
}

/// Whether a window goes before another: the one that is closer to a week, or the earlier one of
/// two that are equally close.
pub open spec fn is_closer(distances: Seq<u64>, i: int, j: int) -> bool {
    distances[i] < distances[j] || (distances[i] == distances[j] && i <= j)
}

/// The two windows that are closest to a week.
#[derive(Clone, Copy, Debug, PartialEq, Eq, Structural)]
pub struct Ranking {
    pub winner: usize,
    pub runner_up: Option<usize>,
}

/// Whether a ranking is the one of these distances.
pub open spec fn ranks(ranking: Ranking, distances: Seq<u64>) -> bool {
    &&& ranking.winner < distances.len()
    &&& forall|j: int| 0 <= j < distances.len() ==> #[trigger] is_closer(
        distances,
        ranking.winner as int,
        j,
    )
    &&& match ranking.runner_up {
        Some(next) => {
            &&& next < distances.len()
            &&& next != ranking.winner
            &&& forall|j: int|
                0 <= j < distances.len() && j != ranking.winner ==> #[trigger] is_closer(
                    distances,
                    next as int,
                    j,
                )
        },
        None => distances.len() == 1,
    }
}

/// The closest window, one of them left out.
fn closest(distances: &Vec<u64>, left_out: usize) -> (found: Option<usize>)
    ensures
        match found {
            Some(best) => {
                &&& best < distances@.len()
                &&& best != left_out
                &&& forall|j: int|
                    0 <= j < distances@.len() && j != left_out ==> #[trigger] is_closer(
                        distances@,
                        best as int,
                        j,
                    )
            },
            None => distances@.len() == 0 || (distances@.len() == 1 && left_out == 0),
        },
{
    let mut found: Option<usize> = None;
    let mut i: usize = 0;
    while i < distances.len()
        invariant
            i <= distances@.len(),
            match found {
                Some(best) => {
                    &&& best < i
                    &&& best != left_out
                    &&& forall|j: int|
                        0 <= j < i && j != left_out ==> #[trigger] is_closer(
                            distances@,
                            best as int,
                            j,
                        )
                },
                None => i == 0 || (i == 1 && left_out == 0),
            },
        decreases distances@.len() - i,
    {
        if i != left_out {
            match found {
                Some(best) => {
                    if distances[i] < distances[best] {
                        proof {
                            assert forall|j: int| 0 <= j < i + 1 && j != left_out implies
                                #[trigger] is_closer(distances@, i as int, j) by {
                                if j < i {
                                    assert(is_closer(distances@, best as int, j));
                                }
                            }
                        }
                        found = Some(i);
                    }
                },
                None => {
                    found = Some(i);
                },
            }
        }
        i += 1;
    }
    found
}

/// Ranks windows by the bits of their distances from a week.
pub fn rank_windows(distances: &Vec<u64>) -> (ranking: Option<Ranking>)
    ensures
        match ranking {
            Some(ranking) => ranks(ranking, distances@),
            None => distances@.len() == 0,
        },
{
    match closest(distances, distances.len()) {
        Some(winner) => {
            let runner_up = closest(distances, winner);
            Some(Ranking { winner, runner_up })
        },
        None => {
            None
        },
    }
}

/// A ranking is determined by the distances.
pub proof fn ranking_is_unique(left: Ranking, right: Ranking, distances: Seq<u64>)
    requires
        ranks(left, distances),
        ranks(right, distances),
    ensures
        left == right,
{
    assert(is_closer(distances, left.winner as int, right.winner as int));
    assert(is_closer(distances, right.winner as int, left.winner as int));
    if let (Some(a), Some(b)) = (left.runner_up, right.runner_up) {
        assert(is_closer(distances, a as int, b as int));
        assert(is_closer(distances, b as int, a as int));
    }
}

/// Whether a distance from a week, by its bits, is larger than a weekly window's may be.
pub open spec fn is_too_far(distance_bits: u64) -> bool {
    WEEK_TOLERANCE_BITS < distance_bits <= INFINITY_BITS
}

/// Whether a difference, by its bits, is so small that two doubles count as the same.
pub open spec fn is_same(gap_bits: u64) -> bool {
    gap_bits < SAME_BITS
}

/// Whether a difference, by its bits, is so small that two doubles count as the same.
pub fn is_close(gap_bits: u64) -> (close: bool)
    ensures
        close == is_same(gap_bits),
{
    gap_bits < SAME_BITS
}

/// The ranking of these distances.
pub open spec fn ranking_of(distances: Seq<u64>) -> Ranking {
    choose|ranking: Ranking| ranks(ranking, distances)
}

/// The weekly window among candidates: the closest one to a week, unless it is too far from one or
/// the next one is just as close. `distances` holds the bits of the candidates' distances from a
/// week, and `gap` those of the difference between the two closest ones.
pub open spec fn weekly_window(
    candidates: Seq<ReadingView>,
    distances: Seq<u64>,
    gap: Option<u64>,
) -> Result<ReadingView, Seq<char>> {
    let winner = ranking_of(distances).winner as int;
    if candidates.len() == 0 {
        Err("unsupported rate-limit schema"@)
    } else if is_too_far(distances[winner]) || (gap matches Some(gap) && is_same(gap)) {
        Err("ambiguous weekly rate-limit schema"@)
    } else {
        Ok(candidates[winner])
    }
}

/// The weekly window among candidates.
pub fn select_weekly_window(
    candidates: Vec<WindowReading>,
    distances: &Vec<u64>,
    gap: Option<u64>,
) -> (selected: Result<WindowReading, String>)
    requires
        candidates@.len() == distances@.len(),
    ensures
        match weekly_window(reading_views(candidates@), distances@, gap) {
            Ok(window) => selected matches Ok(found) && found@ == window,
            Err(error) => selected matches Err(found) && found@ == error,
        },
{
    let ranking = match rank_windows(distances) {
        Some(ranking) => ranking,
        None => {
            return Err("unsupported rate-limit schema".to_owned());
        },
    };
    proof {
        assert(ranks(ranking, distances@));
        ranking_is_unique(ranking, ranking_of(distances@), distances@);
    }
    let distance = distances[ranking.winner];
    let too_far = distance > WEEK_TOLERANCE_BITS && distance <= INFINITY_BITS;
    let tied = match gap {
        Some(gap) => is_close(gap),
        None => false,
    };
    if too_far || tied {
        return Err("ambiguous weekly rate-limit schema".to_owned());
    }
    assert(reading_views(candidates@)[ranking.winner as int]
        == candidates@[ranking.winner as int]@);
    let mut candidates = candidates;
    Ok(candidates.swap_remove(ranking.winner))
}

/// Whether a percentage, by its bits, lies between zero and a hundred.
pub open spec fn is_percentage(bits: u64) -> bool {
    bits <= HUNDRED_BITS || bits == NEGATIVE_ZERO_BITS
}

/// Whether a double, by its bits, is one at most: those with a sign are.
pub open spec fn is_at_most_one(bits: u64) -> bool {
    bits <= ONE_BITS || NEGATIVE_ZERO_BITS <= bits <= NEGATIVE_INFINITY_BITS
}

/// Whether a double, by its bits, is ten at least.
pub open spec fn is_at_least_ten(bits: u64) -> bool {
    TEN_BITS <= bits <= INFINITY_BITS
}

/// Whether a duration, by its bits, is a finite number above zero.
pub open spec fn is_duration(bits: u64) -> bool {
    0 < bits < INFINITY_BITS
}

/// The first member that is there under one of two names.
pub open spec fn under_either(value: JsonView, first: Seq<char>, second: Seq<char>) -> Option<
    JsonView,
> {
    match value.member(first) {
        Some(found) => Some(found),
        None => value.member(second),
    }
}

/// The first member that is there under one of four names.
pub open spec fn under_one_of(
    value: JsonView,
    first: Seq<char>,
    second: Seq<char>,
    third: Seq<char>,
    fourth: Seq<char>,
) -> Option<JsonView> {
    match under_either(value, first, second) {
        Some(found) => Some(found),
        None => under_either(value, third, fourth),
    }
}

/// A value is a window exactly where it names a used percentage that is a number, and the window has
/// that percentage, the duration that the value names or none, and the reset that it names: a number
/// of seconds where it is small, and of milliseconds where it is not. A limit that is handed down
/// goes before the one that the value names.
pub proof fn a_window_has_the_numbers_of_its_value(value: JsonView, inherited: Option<Seq<char>>)
    ensures
        ({
            let used = under_either(value, "usedPercent"@, "used_percent"@);
            let lasts = under_one_of(
                value,
                "windowDurationMins"@,
                "window_duration_mins"@,
                "durationMinutes"@,
                "duration_minutes"@,
            );
            let reset = under_one_of(
                value,
                "resetsAt"@,
                "resets_at"@,
                "resetAt"@,
                "reset_at"@,
            );
            let limit = under_either(value, "limitId"@, "limit_id"@);
            let plan = match under_either(value, "planType"@, "plan_type"@) {
                Some(plan) => Some(plan),
                None => value.member("plan"@),
            };
            match window_of(value, inherited) {
                Some(window) => {
                    &&& used matches Some(used) && used.double_bits() == Some(
                        window.used_percent_bits,
                    )
                    &&& match lasts {
                        Some(lasts) => match lasts.double_bits() {
                            Some(bits) => window.duration_minutes_bits == bits,
                            None => window.duration_minutes_bits == 0,
                        },
                        None => window.duration_minutes_bits == 0,
                    }
                    &&& match reset {
                        Some(reset) => match reset.signed() {
                            Some(number) => {
                                &&& number >= 10_000_000_000 ==> window.reset_at_ms == Some(number)
                                &&& -9_000_000_000_000_000 <= number < 10_000_000_000
                                    ==> window.reset_at_ms == Some((number * 1000) as i64)
                                &&& window.reset_at_ms is Some
                            },
                            None => window.reset_at_ms is None,
                        },
                        None => window.reset_at_ms is None,
                    }
                    &&& match inherited {
                        Some(inherited) => window.limit_id == Some(inherited),
                        None => window.limit_id == match limit {
                            Some(limit) => limit.text(),
                            None => None,
                        },
                    }
                    &&& window.plan == match plan {
                        Some(plan) => plan.text(),
                        None => None,
                    }
                },
                None => used matches Some(used) ==> used.double_bits() is None,
            }
        }),
{
}

/// Whether a window is what a part of a bucket is, under the bucket's limit, with the bucket's plan
/// where the part names none.
pub open spec fn is_part(
    window: ReadingView,
    part: Option<JsonView>,
    limit: Option<Seq<char>>,
    plan: Option<Seq<char>>,
) -> bool {
    part matches Some(part) && (window_of(part, limit) matches Some(own) && {
        &&& window.used_percent_bits == own.used_percent_bits
        &&& window.duration_minutes_bits == own.duration_minutes_bits
        &&& window.reset_at_ms == own.reset_at_ms
        &&& window.limit_id == own.limit_id
        &&& own.plan is Some ==> window.plan == own.plan
        &&& own.plan is None ==> window.plan == plan
    })
}

/// Whether a part of a bucket is a window.
pub open spec fn has_percentage(part: Option<JsonView>) -> bool {
    part matches Some(part) && (under_either(part, "usedPercent"@, "used_percent"@) matches Some(
        used,
    ) && used.double_bits() is Some)
}

/// The windows of a bucket are its primary one and its secondary one, in this order, as far as it
/// has them; a bucket that has neither is one window itself, or none. All of them belong to the limit
/// that the bucket names, or else to the one that is handed down.
pub proof fn a_bucket_has_its_primary_and_its_secondary_window(
    value: JsonView,
    inherited: Option<Seq<char>>,
)
    ensures
        ({
            let windows = windows_of(value, inherited);
            let (primary, secondary) = (value.member("primary"@), value.member("secondary"@));
            let named = match under_either(value, "limitId"@, "limit_id"@) {
                Some(limit) => limit.text(),
                None => None,
            };
            let limit = match named {
                Some(named) => Some(named),
                None => inherited,
            };
            let plan = plan_of(value);
            &&& has_percentage(primary) && has_percentage(secondary) ==> windows.len() == 2
                && is_part(windows[0], primary, limit, plan) && is_part(
                windows[1],
                secondary,
                limit,
                plan,
            )
            &&& has_percentage(primary) && !has_percentage(secondary) ==> windows.len() == 1
                && is_part(windows[0], primary, limit, plan)
            &&& !has_percentage(primary) && has_percentage(secondary) ==> windows.len() == 1
                && is_part(windows[0], secondary, limit, plan)
            &&& !has_percentage(primary) && !has_percentage(secondary) ==> if has_percentage(
                Some(value),
            ) {
                windows.len() == 1 && is_part(windows[0], Some(value), limit, plan)
            } else {
                windows.len() == 0
            }
            &&& limit matches Some(limit) ==> forall|i: int|
                0 <= i < windows.len() ==> (#[trigger] windows[i]).limit_id == Some(limit)
        }),
{
    let (primary, secondary) = (value.member("primary"@), value.member("secondary"@));
    let limit = text_or(limit_of(value), inherited);
    let plan = plan_of(value);
    let (first, second) = (
        window_in(primary, limit, plan),
        window_in(secondary, limit, plan),
    );
    if let Some(part) = primary {
        a_window_has_the_numbers_of_its_value(part, limit);
    }
    if let Some(part) = secondary {
        a_window_has_the_numbers_of_its_value(part, limit);
    }
    a_window_has_the_numbers_of_its_value(value, limit);
    assert(has_percentage(primary) <==> first.len() == 1);
    assert(has_percentage(secondary) <==> second.len() == 1);
    if first.len() == 0 {
        assert(first + second =~= second);
    }
}

/// The windows of several buckets are those of each, one behind the other.
pub proof fn windows_of_buckets_stand_one_behind_the_other(
    first: Seq<JsonView>,
    second: Seq<JsonView>,
    bucket: JsonView,
)
    ensures
        windows_of_all(first + second) == windows_of_all(first) + windows_of_all(second),
        windows_of_all(seq![bucket]) == windows_of(bucket, None),
        windows_of_all(Seq::empty()) == Seq::<ReadingView>::empty(),
    decreases second.len(),
{
    let one = seq![bucket];
    assert(one.drop_last() =~= Seq::<JsonView>::empty());
    assert(windows_of_all(one.drop_last()) =~= Seq::<ReadingView>::empty());
    assert(one.last() == bucket);
    assert(windows_of_all(one) =~= windows_of(bucket, None));
    if second.len() == 0 {
        assert(first + second =~= first);
        assert(windows_of_all(first) + Seq::<ReadingView>::empty() =~= windows_of_all(first));
    } else {
        windows_of_buckets_stand_one_behind_the_other(first, second.drop_last(), bucket);
        assert((first + second).drop_last() =~= first + second.drop_last());
        assert(windows_of_all(first + second) =~= windows_of_all(first) + windows_of_all(second));
    }
}

/// Whether a reply has limits by their names: inside its `rateLimits`, or else at its top, whatever
/// else it holds.
pub open spec fn has_named_limits(reply: JsonView, limits: JsonView) -> bool {
    &&& limits is Object
    &&& match reply.member("rateLimits"@) {
        Some(inner) => match inner.member("rateLimitsByLimitId"@) {
            Some(JsonView::Object(members)) => limits == JsonView::Object(members),
            _ => reply.member("rateLimitsByLimitId"@) == Some(limits),
        },
        None => reply.member("rateLimitsByLimitId"@) == Some(limits),
    }
}

/// A reply that names its limits is asked for the limit `codex` and for no other: the candidates are
/// the windows of that limit, all of them under the name that it gives itself or else under `codex`,
/// and without such a limit there are none but an error. What else the reply holds has no bearing.
pub proof fn named_limits_leave_only_the_canonical_one(reply: JsonView, limits: JsonView)
    requires
        has_named_limits(reply, limits),
    ensures
        match limits.member("codex"@) {
            Some(codex) => candidates_of(reply) matches Ok(windows) && {
                &&& windows == windows_of(codex, Some("codex"@))
                &&& forall|i: int|
                    0 <= i < windows.len() ==> (#[trigger] windows[i]).limit_id == Some(
                        match under_either(codex, "limitId"@, "limit_id"@) {
                            Some(JsonView::Text(name)) => name,
                            _ => "codex"@,
                        },
                    )
            },
            None => candidates_of(reply) matches Err(message) && text::has_prefix(
                message,
                "canonical codex limit id is missing; available limit ids: "@,
            ),
        },
{
    match limits.member("codex"@) {
        Some(codex) => {
            a_bucket_has_its_primary_and_its_secondary_window(codex, Some("codex"@));
        },
        None => {
            let head = "canonical codex limit id is missing; available limit ids: "@;
            let message = candidates_of(reply)->Err_0;
            assert(message.subrange(0, head.len() as int) =~= head);
        },
    }
}

/// Two replies with the same named limits have the same candidates.
pub proof fn named_limits_decide_alone(left: JsonView, right: JsonView, limits: JsonView)
    requires
        has_named_limits(left, limits),
        has_named_limits(right, limits),
    ensures
        candidates_of(left) == candidates_of(right),
{
}

/// A reply that does not name its limits has the windows of all of them: of each bucket in its list,
/// of its one bucket, or of itself.
pub proof fn unnamed_limits_are_all_candidates(reply: JsonView)
    requires
        forall|limits: JsonView| !#[trigger] has_named_limits(reply, limits),
    ensures
        match reply.member("rateLimits"@) {
            Some(inner) => match inner.member("rateLimits"@) {
                Some(JsonView::List(buckets)) => candidates_of(reply) == Ok::<
                    Seq<ReadingView>,
                    Seq<char>,
                >(windows_of_all(buckets)),
                Some(bucket) => candidates_of(reply) == Ok::<Seq<ReadingView>, Seq<char>>(
                    windows_of(bucket, None),
                ),
                None => match inner {
                    JsonView::List(buckets) => candidates_of(reply) == Ok::<
                        Seq<ReadingView>,
                        Seq<char>,
                    >(windows_of_all(buckets)),
                    _ => candidates_of(reply) == Ok::<Seq<ReadingView>, Seq<char>>(
                        windows_of(inner, None),
                    ),
                },
            },
            None => candidates_of(reply) == Ok::<Seq<ReadingView>, Seq<char>>(
                windows_of(reply, None),
            ),
        },
{
    if let Some(members) = named_limits(reply) {
        assert(has_named_limits(reply, JsonView::Object(members)));
    }
}

/// The weekly window is one of the candidates, no other is closer to a week, and it misses a week by
/// four hours at most. There is an error exactly where there is no candidate, where even the closest
/// one misses a week by more, or where the two closest ones cannot be told apart.
pub proof fn the_weekly_window_is_the_closest_to_a_week(
    candidates: Seq<ReadingView>,
    distances: Seq<u64>,
    gap: Option<u64>,
    ranking: Ranking,
)
    requires
        candidates.len() == distances.len(),
        ranks(ranking, distances),
    ensures
        weekly_window(candidates, distances, gap) matches Ok(window) ==> exists|i: int|
            0 <= i < candidates.len() && window == #[trigger] candidates[i] && (forall|j: int|
                0 <= j < distances.len() ==> distances[i] <= #[trigger] distances[j]) && !(
            0x406e_0000_0000_0000 < distances[i] <= 0x7ff0_0000_0000_0000),
        weekly_window(candidates, distances, gap) is Err <==> (gap matches Some(gap) && gap
            < 0x3eb0_c6f7_a0b5_ed8d) || (forall|j: int|
            0 <= j < distances.len() ==> (#[trigger] distances[j]) > 0x406e_0000_0000_0000)
            && 0x406e_0000_0000_0000 < distances[ranking.winner as int] <= 0x7ff0_0000_0000_0000,
{
    let chosen = ranking_of(distances);
    assert(ranks(chosen, distances));
    ranking_is_unique(chosen, ranking, distances);
    let best = ranking.winner as int;
    assert forall|j: int| 0 <= j < distances.len() implies distances[best]
        <= #[trigger] distances[j] by {
        assert(is_closer(distances, best, j));
    }
    assert(candidates[best] == candidates[best]);
}

/// Without candidates there is no weekly window.
pub proof fn no_candidate_no_weekly_window(distances: Seq<u64>, gap: Option<u64>)
    ensures
        weekly_window(Seq::empty(), distances, gap) is Err,
{
}

/// A ranking names the two closest windows: no window is closer than the winner, and none but the
/// winner is closer than the runner-up; of equally close ones the earlier goes first.
pub proof fn a_ranking_names_the_two_closest(ranking: Ranking, distances: Seq<u64>, j: int)
    requires
        ranks(ranking, distances),
        0 <= j < distances.len(),
    ensures
        distances[ranking.winner as int] <= distances[j],
        distances[ranking.winner as int] == distances[j] ==> ranking.winner <= j,
        ranking.runner_up matches Some(next) ==> next != ranking.winner && (j != ranking.winner
            ==> distances[next as int] <= distances[j] && (distances[next as int] == distances[j]
            ==> next <= j)),
        distances.len() > 1 ==> ranking.runner_up is Some,
{
    assert(is_closer(distances, ranking.winner as int, j));
    if let Some(next) = ranking.runner_up {
        if j != ranking.winner {
            assert(is_closer(distances, next as int, j));
        }
    }
}

/// Where no window can be told to be the weekly one, the answer says why: there was none at all, or
/// more than one that could be it or none that is close.
pub proof fn a_missing_weekly_window_is_explained(
    candidates: Seq<ReadingView>,
    distances: Seq<u64>,
    gap: Option<u64>,
)
    ensures
        weekly_window(candidates, distances, gap) matches Err(error) ==> (candidates.len() == 0
            <==> error == "unsupported rate-limit schema"@) && (candidates.len() > 0 <==> error
            == "ambiguous weekly rate-limit schema"@),
{
    reveal_strlit("unsupported rate-limit schema");
    reveal_strlit("ambiguous weekly rate-limit schema");
    assert("unsupported rate-limit schema"@.len() != "ambiguous weekly rate-limit schema"@.len());
}

} // verus!
