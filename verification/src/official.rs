//! Token usage as the account's own service reports it.
use vstd::prelude::*;

use crate::json;
use crate::json::Document;
use crate::json::Json;
use crate::json::JsonView;
use crate::text;
use crate::text::own_optional_text;

verus! {

/// The tokens of one day.
#[derive(Debug)]
pub struct DailyBucket {
    pub start_date: String,
    pub model: Option<String>,
    pub tokens: u64,
    pub raw_json: String,
}

/// What a day's bucket says.
#[verifier::ext_equal]
pub struct BucketView {
    pub start_date: Seq<char>,
    pub model: Option<Seq<char>>,
    pub tokens: u64,
    pub raw_json: Seq<char>,
}

impl View for DailyBucket {
    type V = BucketView;

    open spec fn view(&self) -> BucketView {
        BucketView {
            start_date: self.start_date@,
            model: text::opt_view(self.model),
            tokens: self.tokens,
            raw_json: self.raw_json@,
        }
    }
}

/// What buckets say.
pub open spec fn bucket_views(buckets: Seq<DailyBucket>) -> Seq<BucketView> {
    buckets.map_values(|bucket: DailyBucket| bucket@)
}

/// The usage that the service reports.
#[derive(Debug)]
pub struct OfficialUsage {
    pub lifetime_tokens: Option<u64>,
    pub peak_daily_tokens: Option<u64>,
    pub longest_running_turn_sec: Option<u64>,
    pub current_streak_days: Option<u64>,
    pub longest_streak_days: Option<u64>,
    pub daily_buckets_available: bool,
    pub raw_json: String,
    pub buckets: Vec<DailyBucket>,
}

/// What the reported usage says.
#[verifier::ext_equal]
pub struct UsageView {
    pub lifetime_tokens: Option<u64>,
    pub peak_daily_tokens: Option<u64>,
    pub longest_running_turn_sec: Option<u64>,
    pub current_streak_days: Option<u64>,
    pub longest_streak_days: Option<u64>,
    pub daily_buckets_available: bool,
    pub raw_json: Seq<char>,
    pub buckets: Seq<BucketView>,
}

impl View for OfficialUsage {
    type V = UsageView;

    open spec fn view(&self) -> UsageView {
        UsageView {
            lifetime_tokens: self.lifetime_tokens,
            peak_daily_tokens: self.peak_daily_tokens,
            longest_running_turn_sec: self.longest_running_turn_sec,
            current_streak_days: self.current_streak_days,
            longest_streak_days: self.longest_streak_days,
            daily_buckets_available: self.daily_buckets_available,
            raw_json: self.raw_json@,
            buckets: bucket_views(self.buckets@),
        }
    }
}

/// The bucket that an item is: one that names its day and its tokens.
pub open spec fn bucket_of(item: JsonView) -> Option<BucketView> {
    match (item.text_member("startDate"@), item.unsigned_member("tokens"@)) {
        (Some(start_date), Some(tokens)) => Some(
            BucketView {
                start_date,
                model: json::found_text(
                    json::either(item.member("model"@), item.member("modelName"@)),
                ),
                tokens,
                raw_json: json::json_rendered(item),
            },
        ),
        _ => None,
    }
}

/// The buckets among items, in their order.
pub open spec fn buckets_of(items: Seq<JsonView>) -> Seq<BucketView>
    decreases items.len(),
{
    if items.len() == 0 {
        Seq::empty()
    } else {
        let before = buckets_of(items.drop_last());
        match bucket_of(items.last()) {
            Some(bucket) => before.push(bucket),
            None => before,
        }
    }
}

/// A counter of a summary.
pub open spec fn counter_of(summary: Option<JsonView>, name: Seq<char>) -> Option<u64> {
    json::found_unsigned(json::found_member(summary, name))
}

/// The usage that a reply reports. The days are available where they are a list, be it an empty
/// one.
pub open spec fn usage_of(reply: JsonView) -> UsageView {
    let summary = reply.member("summary"@);
    let daily = reply.member("dailyUsageBuckets"@);
    UsageView {
        lifetime_tokens: counter_of(summary, "lifetimeTokens"@),
        peak_daily_tokens: counter_of(summary, "peakDailyTokens"@),
        longest_running_turn_sec: counter_of(summary, "longestRunningTurnSec"@),
        current_streak_days: counter_of(summary, "currentStreakDays"@),
        longest_streak_days: counter_of(summary, "longestStreakDays"@),
        daily_buckets_available: daily matches Some(JsonView::List(_)),
        raw_json: json::json_rendered(reply),
        buckets: match daily {
            Some(JsonView::List(items)) => buckets_of(items),
            _ => Seq::empty(),
        },
    }
}

/// A counter of a summary.
fn counter(summary: Option<&Json>, name: &str) -> (number: Option<u64>)
    ensures
        number == counter_of(json::opt_json(summary), name@),
{
    match summary {
        Some(summary) => summary.get_u64(name),
        None => None,
    }
}

/// The bucket that an item is, where `raw_json` is its text.
fn read_bucket(item: &Json, raw_json: String) -> (bucket: Option<DailyBucket>)
    requires
        raw_json@ == json::json_rendered(item@),
    ensures
        match bucket {
            Some(bucket) => bucket_of(item@) == Some(bucket@),
            None => bucket_of(item@) is None,
        },
{
    let start_date = match item.get_str("startDate") {
        Some(start_date) => start_date,
        None => {
            return None;
        },
    };
    let tokens = match item.get_u64("tokens") {
        Some(tokens) => tokens,
        None => {
            return None;
        },
    };
    let model = match item.get_either("model", "modelName") {
        Some(model) => own_optional_text(model.as_str()),
        None => None,
    };
    Some(DailyBucket { start_date: start_date.to_owned(), model, tokens, raw_json })
}

/// The usage that the result of a message reports; nothing where the message has no result.
pub fn official_usage(message: &Document) -> (usage: Option<OfficialUsage>)
    ensures
        match message@.member("result"@) {
            Some(result) => usage matches Some(usage) && usage@ == usage_of(result),
            None => usage is None,
        },
{
    let result = match message.json().get("result") {
        Some(result) => result,
        None => {
            return None;
        },
    };
    let raw_json = match message.member_text("result") {
        Some(raw_json) => raw_json,
        None => {
            return None;
        },
    };
    let summary = result.get("summary");
    let mut buckets: Vec<DailyBucket> = Vec::new();
    let mut daily_buckets_available = false;
    assert(bucket_views(buckets@) =~= Seq::<BucketView>::empty());
    if let Some(daily) = result.get("dailyUsageBuckets") {
        if let Json::List(items) = daily {
            daily_buckets_available = true;
            let ghost all = daily@->List_0;
            let mut i: usize = 0;
            assert(all.take(0) =~= Seq::<JsonView>::empty());
            while i < items.len()
                invariant
                    i <= items@.len(),
                    *daily == Json::List(*items),
                    all == daily@->List_0,
                    all.len() == items@.len(),
                    message@.member("result"@) == Some(result@),
                    result@.member("dailyUsageBuckets"@) == Some(daily@),
                    bucket_views(buckets@) == buckets_of(all.take(i as int)),
                decreases items@.len() - i,
            {
                let ghost before = bucket_views(buckets@);
                assert(all[i as int] == items@[i as int]@);
                assert(all.take(i + 1).drop_last() =~= all.take(i as int));
                if let Some(raw) = message.item_text("result", "dailyUsageBuckets", i) {
                    if let Some(bucket) = read_bucket(&items[i], raw) {
                        let ghost said = bucket@;
                        buckets.push(bucket);
                        assert(bucket_views(buckets@) =~= before.push(said));
                    }
                }
                i += 1;
            }
            assert(all.take(all.len() as int) =~= all);
        }
    }
    Some(
        OfficialUsage {
            lifetime_tokens: counter(summary, "lifetimeTokens"),
            peak_daily_tokens: counter(summary, "peakDailyTokens"),
            longest_running_turn_sec: counter(summary, "longestRunningTurnSec"),
            current_streak_days: counter(summary, "currentStreakDays"),
            longest_streak_days: counter(summary, "longestStreakDays"),
            daily_buckets_available,
            raw_json,
            buckets,
        },
    )
}

/// Every day is reported by itself: the buckets of two lists of items together are those of the
/// first, and behind them those of the second.
pub proof fn buckets_of_lists_stand_one_behind_the_other(
    first: Seq<JsonView>,
    second: Seq<JsonView>,
)
    ensures
        buckets_of(first + second) == buckets_of(first) + buckets_of(second),
        buckets_of(Seq::empty()) == Seq::<BucketView>::empty(),
    decreases second.len(),
{
    if second.len() == 0 {
        assert(first + second =~= first);
        assert(buckets_of(first) + Seq::<BucketView>::empty() =~= buckets_of(first));
    } else {
        buckets_of_lists_stand_one_behind_the_other(first, second.drop_last());
        assert((first + second).drop_last() =~= first + second.drop_last());
        if let Some(bucket) = bucket_of(second.last()) {
            assert(buckets_of(first) + buckets_of(second.drop_last()).push(bucket) =~= (buckets_of(
                first,
            ) + buckets_of(second.drop_last())).push(bucket));
        }
    }
}

/// Whether a bucket says what an item says: its day, its tokens, the model that it names and its own
/// text.
pub open spec fn is_bucket_of(bucket: BucketView, item: JsonView) -> bool {
    &&& item.text_member("startDate"@) == Some(bucket.start_date)
    &&& item.unsigned_member("tokens"@) == Some(bucket.tokens)
    &&& item.member("model"@) is Some ==> bucket.model == item.text_member("model"@)
    &&& item.member("model"@) is None ==> bucket.model == item.text_member("modelName"@)
    &&& bucket.raw_json == json::json_rendered(item)
}

/// An item alone is one bucket that says what the item says, or none exactly where it lacks its day
/// or its tokens.
pub proof fn an_item_is_the_bucket_that_it_states(item: JsonView)
    ensures
        item.text_member("startDate"@) is Some && item.unsigned_member("tokens"@) is Some
            ==> buckets_of(seq![item]).len() == 1 && is_bucket_of(buckets_of(seq![item])[0], item),
        item.text_member("startDate"@) is None || item.unsigned_member("tokens"@) is None
            ==> buckets_of(seq![item]).len() == 0,
{
    let one = seq![item];
    assert(one.drop_last() =~= Seq::<JsonView>::empty());
    assert(buckets_of(one.drop_last()) =~= Seq::<BucketView>::empty());
    assert(one.last() == item);
}

/// Whether a bucket says what one of the items says.
pub open spec fn is_bucket_among(bucket: BucketView, items: Seq<JsonView>) -> bool {
    exists|i: int| 0 <= i < items.len() && is_bucket_of(bucket, #[trigger] items[i])
}

/// Each bucket of a list says what one of its items says, and nothing of the others; there are no
/// more buckets than items.
pub proof fn each_bucket_says_what_its_item_says(items: Seq<JsonView>)
    ensures
        buckets_of(items).len() <= items.len(),
        forall|k: int|
            0 <= k < buckets_of(items).len() ==> is_bucket_among(
                #[trigger] buckets_of(items)[k],
                items,
            ),
    decreases items.len(),
{
    if items.len() > 0 {
        let rest = items.drop_last();
        each_bucket_says_what_its_item_says(rest);
        let (before, all) = (buckets_of(rest), buckets_of(items));
        assert forall|k: int| 0 <= k < all.len() implies is_bucket_among(
            #[trigger] all[k],
            items,
        ) by {
            if k < before.len() {
                assert(all[k] == before[k]);
                assert(is_bucket_among(before[k], rest));
                let i = choose|i: int|
                    0 <= i < rest.len() && is_bucket_of(before[k], #[trigger] rest[i]);
                assert(is_bucket_of(all[k], items[i]));
            } else {
                assert(is_bucket_of(all[k], items[items.len() - 1]));
            }
        }
    }
}

/// What a reply counts is what it states: each counter is the one under its own name in the summary,
/// unknown where it is not there, never zero for it. The days are available exactly where they are a
/// list.
pub proof fn counters_are_those_of_the_summary(reply: JsonView, summary: JsonView)
    ensures
        reply.member("summary"@) == Some(summary) ==> {
            &&& usage_of(reply).lifetime_tokens == summary.unsigned_member("lifetimeTokens"@)
            &&& usage_of(reply).peak_daily_tokens == summary.unsigned_member("peakDailyTokens"@)
            &&& usage_of(reply).longest_running_turn_sec == summary.unsigned_member(
                "longestRunningTurnSec"@,
            )
            &&& usage_of(reply).current_streak_days == summary.unsigned_member(
                "currentStreakDays"@,
            )
            &&& usage_of(reply).longest_streak_days == summary.unsigned_member(
                "longestStreakDays"@,
            )
        },
        reply.member("summary"@) is None ==> {
            &&& usage_of(reply).lifetime_tokens is None
            &&& usage_of(reply).peak_daily_tokens is None
            &&& usage_of(reply).longest_running_turn_sec is None
            &&& usage_of(reply).current_streak_days is None
            &&& usage_of(reply).longest_streak_days is None
        },
        match reply.member("dailyUsageBuckets"@) {
            Some(JsonView::List(items)) => usage_of(reply).daily_buckets_available
                && usage_of(reply).buckets == buckets_of(items),
            _ => !usage_of(reply).daily_buckets_available && usage_of(reply).buckets.len() == 0,
        },
        usage_of(reply).raw_json == json::json_rendered(reply),
{
}

} // verus!
