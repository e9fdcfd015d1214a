//! Token counts as the session logs report them.
use vstd::prelude::*;

use crate::json;
use crate::json::Json;
use crate::json::JsonView;

verus! {

/// The token counters of one report.
#[derive(Clone, Copy, Debug, PartialEq, Eq, Hash, Structural)]
pub struct TokenUsage {
    pub input: u64,
    pub cached_input: u64,
    pub cache_write_input: u64,
    pub output: u64,
    pub reasoning_output: u64,
}

/// What is left of a counter after taking another from it; nothing below zero.
pub open spec fn excess(counter: u64, previous: u64) -> u64 {
    if counter >= previous {
        (counter - previous) as u64
    } else {
        0
    }
}

/// An optional counter, zero where it is absent.
pub open spec fn or_zero(counter: Option<u64>) -> u64 {
    match counter {
        Some(counter) => counter,
        None => 0,
    }
}

impl TokenUsage {
    /// No tokens at all.
    pub open spec fn zero() -> TokenUsage {
        TokenUsage {
            input: 0,
            cached_input: 0,
            cache_write_input: 0,
            output: 0,
            reasoning_output: 0,
        }
    }

    /// The counters in a JSON object: the input and output counters have to be there, the others
    /// count as zero where they are not.
    pub open spec fn of_json(value: JsonView) -> Option<TokenUsage> {
        match (value.unsigned_member("input_tokens"@), value.unsigned_member("output_tokens"@)) {
            (Some(input), Some(output)) => Some(
                TokenUsage {
                    input,
                    cached_input: or_zero(value.unsigned_member("cached_input_tokens"@)),
                    cache_write_input: or_zero(value.unsigned_member("cache_write_input_tokens"@)),
                    output,
                    reasoning_output: or_zero(value.unsigned_member("reasoning_output_tokens"@)),
                },
            ),
            _ => None,
        }
    }

    /// What each counter gained since an earlier report.
    pub open spec fn since(self, previous: TokenUsage) -> TokenUsage {
        TokenUsage {
            input: excess(self.input, previous.input),
            cached_input: excess(self.cached_input, previous.cached_input),
            cache_write_input: excess(self.cache_write_input, previous.cache_write_input),
            output: excess(self.output, previous.output),
            reasoning_output: excess(self.reasoning_output, previous.reasoning_output),
        }
    }

    /// The counters in a JSON object.
    pub fn from_value(value: &Json) -> (usage: Option<TokenUsage>)
        ensures
            usage == TokenUsage::of_json(value@),
    {
        let input = match value.get_u64("input_tokens") {
            Some(input) => input,
            None => {
                return None;
            },
        };
        let output = match value.get_u64("output_tokens") {
            Some(output) => output,
            None => {
                return None;
            },
        };
        Some(
            TokenUsage {
                input,
                cached_input: value.get_u64("cached_input_tokens").unwrap_or(0),
                cache_write_input: value.get_u64("cache_write_input_tokens").unwrap_or(0),
                output,
                reasoning_output: value.get_u64("reasoning_output_tokens").unwrap_or(0),
            },
        )
    }

    /// What each counter gained since an earlier report.
    pub fn delta(self, previous: TokenUsage) -> (gained: TokenUsage)
        ensures
            gained == self.since(previous),
    {
        TokenUsage {
            input: self.input.saturating_sub(previous.input),
            cached_input: self.cached_input.saturating_sub(previous.cached_input),
            cache_write_input: self.cache_write_input.saturating_sub(previous.cache_write_input),
            output: self.output.saturating_sub(previous.output),
            reasoning_output: self.reasoning_output.saturating_sub(previous.reasoning_output),
        }
    }
}

impl Default for TokenUsage {
    fn default() -> (usage: TokenUsage)
        ensures
            usage == TokenUsage::zero(),
    {
        TokenUsage {
            input: 0,
            cached_input: 0,
            cache_write_input: 0,
            output: 0,
            reasoning_output: 0,
        }
    }
}

/// The usage and the running total that a token report adds to the one before it: nothing where
/// it names no total or repeats the previous one; else the usage that it states for itself, or
/// the gain over the previous total where it states none.
pub open spec fn reported_usage(payload: JsonView, previous: Option<TokenUsage>) -> Option<
    (TokenUsage, TokenUsage),
> {
    let info = payload.member("info"@);
    match json::found_member(info, "total_token_usage"@) {
        Some(stated) => match TokenUsage::of_json(stated) {
            Some(total) => if previous == Some(total) {
                None
            } else {
                let last = match json::found_member(info, "last_token_usage"@) {
                    Some(last) => TokenUsage::of_json(last),
                    None => None,
                };
                let before = match previous {
                    Some(before) => before,
                    None => TokenUsage::zero(),
                };
                Some(
                    (
                        match last {
                            Some(last) => last,
                            None => total.since(before),
                        },
                        total,
                    ),
                )
            },
            None => None,
        },
        None => None,
    }
}

/// The usage and the running total that a token report adds to the one before it.
pub fn token_usage(payload: &Json, previous_total: Option<TokenUsage>) -> (report: Option<
    (TokenUsage, TokenUsage),
>)
    ensures
        report == reported_usage(payload@, previous_total),
{
    let info = match payload.get("info") {
        Some(info) => info,
        None => {
            return None;
        },
    };
    let total = match info.get("total_token_usage") {
        Some(stated) => match TokenUsage::from_value(stated) {
            Some(total) => total,
            None => {
                return None;
            },
        },
        None => {
            return None;
        },
    };
    let before = match previous_total {
        Some(before) => {
            if before == total {
                return None;
            }
            before
        },
        None => TokenUsage::default(),
    };
    let last = match info.get("last_token_usage") {
        Some(last) => TokenUsage::from_value(last),
        None => None,
    };
    let usage = match last {
        Some(last) => last,
        None => total.delta(before),
    };
    Some((usage, total))
}

/// A report that repeats the total of the one before it adds nothing.
pub proof fn repeated_total_adds_nothing(payload: JsonView, previous: Option<TokenUsage>)
    ensures
        reported_usage(payload, previous) matches Some((_, total)) ==> reported_usage(
            payload,
            Some(total),
        ) is None,
{
}

/// Whether a JSON object counts these tokens: its input and its output counter are there, and each
/// other counter is the one in the object, or zero where the object has none.
pub open spec fn counts(value: JsonView, usage: TokenUsage) -> bool {
    &&& value.unsigned_member("input_tokens"@) == Some(usage.input)
    &&& value.unsigned_member("output_tokens"@) == Some(usage.output)
    &&& match value.unsigned_member("cached_input_tokens"@) {
        Some(tokens) => usage.cached_input == tokens,
        None => usage.cached_input == 0,
    }
    &&& match value.unsigned_member("cache_write_input_tokens"@) {
        Some(tokens) => usage.cache_write_input == tokens,
        None => usage.cache_write_input == 0,
    }
    &&& match value.unsigned_member("reasoning_output_tokens"@) {
        Some(tokens) => usage.reasoning_output == tokens,
        None => usage.reasoning_output == 0,
    }
}

/// Whether a JSON value has both counters without which it counts nothing.
pub open spec fn is_count(value: JsonView) -> bool {
    value.unsigned_member("input_tokens"@) is Some && value.unsigned_member("output_tokens"@) is Some
}

/// The object under a name in the `info` of a token report.
pub open spec fn info_member(payload: JsonView, name: Seq<char>) -> Option<JsonView> {
    match payload.member("info"@) {
        Some(info) => info.member(name),
        None => None,
    }
}

/// Whether a token report states these tokens under a name.
pub open spec fn states(payload: JsonView, name: Seq<char>, usage: TokenUsage) -> bool {
    info_member(payload, name) matches Some(stated) && counts(stated, usage)
}

/// Whether every counter of `whole` is the sum of those of two parts.
pub open spec fn is_sum(whole: TokenUsage, first: TokenUsage, second: TokenUsage) -> bool {
    &&& whole.input == first.input + second.input
    &&& whole.cached_input == first.cached_input + second.cached_input
    &&& whole.cache_write_input == first.cache_write_input + second.cache_write_input
    &&& whole.output == first.output + second.output
    &&& whole.reasoning_output == first.reasoning_output + second.reasoning_output
}

/// Whether every counter of `usage` is what it gained from `earlier` to `later`: nothing where it fell.
pub open spec fn is_gain(usage: TokenUsage, earlier: TokenUsage, later: TokenUsage) -> bool {
    &&& later.input >= earlier.input ==> usage.input == later.input - earlier.input
    &&& later.input < earlier.input ==> usage.input == 0
    &&& later.cached_input >= earlier.cached_input ==> usage.cached_input == later.cached_input
        - earlier.cached_input
    &&& later.cached_input < earlier.cached_input ==> usage.cached_input == 0
    &&& later.cache_write_input >= earlier.cache_write_input ==> usage.cache_write_input
        == later.cache_write_input - earlier.cache_write_input
    &&& later.cache_write_input < earlier.cache_write_input ==> usage.cache_write_input == 0
    &&& later.output >= earlier.output ==> usage.output == later.output - earlier.output
    &&& later.output < earlier.output ==> usage.output == 0
    &&& later.reasoning_output >= earlier.reasoning_output ==> usage.reasoning_output
        == later.reasoning_output - earlier.reasoning_output
    &&& later.reasoning_output < earlier.reasoning_output ==> usage.reasoning_output == 0
}

/// Whether no counter of `later` is below that of `earlier`.
pub open spec fn is_no_less(later: TokenUsage, earlier: TokenUsage) -> bool {
    &&& later.input >= earlier.input
    &&& later.cached_input >= earlier.cached_input
    &&& later.cache_write_input >= earlier.cache_write_input
    &&& later.output >= earlier.output
    &&& later.reasoning_output >= earlier.reasoning_output
}

/// Counters are read as they stand in the object, each under its own name, and there are none
/// exactly where the object lacks its input or its output counter.
pub proof fn counters_are_read_as_they_stand(value: JsonView)
    ensures
        match TokenUsage::of_json(value) {
            Some(usage) => counts(value, usage),
            None => !is_count(value),
        },
{
}

/// What a counter gained and what it was before make up what it is; where it fell, it gained
/// nothing.
pub proof fn gain_and_earlier_total_make_up_the_total(total: TokenUsage, earlier: TokenUsage)
    ensures
        is_no_less(total, earlier) ==> is_sum(total, earlier, total.since(earlier)),
        is_gain(total.since(earlier), earlier, total),
{
}

/// A report adds something exactly where it states a total other than the previous one, and the
/// total that it leaves is the one that it states.
pub proof fn each_new_total_is_reported(payload: JsonView, previous: Option<TokenUsage>)
    ensures
        match reported_usage(payload, previous) {
            Some((_, total)) => {
                &&& info_member(payload, "total_token_usage"@) matches Some(stated) && counts(
                    stated,
                    total,
                )
                &&& previous != Some(total)
            },
            None => info_member(payload, "total_token_usage"@) matches Some(stated) ==> !is_count(
                stated,
            ) || (previous matches Some(before) && counts(stated, before)),
        },
{
}

/// A report that states its own usage used just that: every counter is the one under
/// `last_token_usage`, whatever the totals are.
pub proof fn stated_usage_is_taken_as_stated(
    payload: JsonView,
    previous: Option<TokenUsage>,
    last: JsonView,
)
    requires
        info_member(payload, "last_token_usage"@) == Some(last),
        is_count(last),
    ensures
        reported_usage(payload, previous) matches Some((usage, _)) ==> counts(last, usage),
{
}

/// A report that states no usage of its own used what its total gained, counter by counter: with the
/// previous total it makes up the new one wherever no counter fell, and the first report used its
/// whole total.
pub proof fn unstated_usage_is_the_gain(payload: JsonView, previous: Option<TokenUsage>)
    requires
        info_member(payload, "last_token_usage"@) matches Some(last) ==> !is_count(last),
    ensures
        reported_usage(payload, previous) matches Some((usage, total)) ==> match previous {
            Some(before) => is_gain(usage, before, total) && (is_no_less(total, before) ==> is_sum(
                total,
                before,
                usage,
            )),
            None => usage == total,
        },
{
}

/// The tokens of several reports together.
#[verifier::ext_equal]
pub struct UsageSum {
    pub input: int,
    pub cached_input: int,
    pub cache_write_input: int,
    pub output: int,
    pub reasoning_output: int,
}

impl UsageSum {
    /// No tokens.
    pub open spec fn zero() -> UsageSum {
        UsageSum { input: 0, cached_input: 0, cache_write_input: 0, output: 0, reasoning_output: 0 }
    }

    /// The sum with another usage.
    pub open spec fn plus(self, usage: TokenUsage) -> UsageSum {
        UsageSum {
            input: self.input + usage.input,
            cached_input: self.cached_input + usage.cached_input,
            cache_write_input: self.cache_write_input + usage.cache_write_input,
            output: self.output + usage.output,
            reasoning_output: self.reasoning_output + usage.reasoning_output,
        }
    }
}

/// What the reports of a session come to, each held against the total that the one before it left:
/// the tokens that they used, and the last total.
pub open spec fn session_usage(reports: Seq<JsonView>) -> (UsageSum, Option<TokenUsage>)
    decreases reports.len(),
{
    if reports.len() == 0 {
        (UsageSum::zero(), None)
    } else {
        let (sum, previous) = session_usage(reports.drop_last());
        match reported_usage(reports.last(), previous) {
            Some((usage, total)) => (sum.plus(usage), Some(total)),
            None => (sum, previous),
        }
    }
}

/// Whether the totals of reports never fall, and each usage that they state is what its total
/// gained over the one before.
pub open spec fn states_its_gains(reports: Seq<JsonView>) -> bool
    decreases reports.len(),
{
    reports.len() == 0 || {
        let previous = session_usage(reports.drop_last()).1;
        let report = reports.last();
        &&& states_its_gains(reports.drop_last())
        &&& forall|total: TokenUsage| #[trigger]
            states(report, "total_token_usage"@, total) ==> {
                let before = match previous {
                    Some(before) => before,
                    None => TokenUsage {
                        input: 0,
                        cached_input: 0,
                        cache_write_input: 0,
                        output: 0,
                        reasoning_output: 0,
                    },
                };
                &&& is_no_less(total, before)
                &&& forall|own: TokenUsage| #[trigger]
                    states(report, "last_token_usage"@, own) ==> is_sum(total, before, own)
            }
    }
}

/// Nothing is counted twice or lost over a session: where the totals never fall and each stated
/// usage is the gain of its total, the usages of the reports add up, counter by counter, to the last
/// total.
pub proof fn usages_of_a_session_add_up_to_its_total(reports: Seq<JsonView>)
    requires
        states_its_gains(reports),
    ensures
        match session_usage(reports).1 {
            Some(total) => session_usage(reports).0 == UsageSum::zero().plus(total),
            None => session_usage(reports).0 == UsageSum::zero(),
        },
    decreases reports.len(),
{
    if reports.len() > 0 {
        usages_of_a_session_add_up_to_its_total(reports.drop_last());
        let previous = session_usage(reports.drop_last()).1;
        let report = reports.last();
        if let Some((usage, total)) = reported_usage(report, previous) {
            each_new_total_is_reported(report, previous);
            assert(states(report, "total_token_usage"@, total));
            if let Some(last) = info_member(report, "last_token_usage"@) {
                if is_count(last) {
                    stated_usage_is_taken_as_stated(report, previous, last);
                    assert(states(report, "last_token_usage"@, usage));
                } else {
                    unstated_usage_is_the_gain(report, previous);
                }
            } else {
                unstated_usage_is_the_gain(report, previous);
            }
        }
    }
}

/// A report with a new total used what it states for itself, or what its total gained.
pub proof fn each_report_used_what_it_states_or_gained(payload: JsonView, previous: Option<TokenUsage>)
    ensures
        reported_usage(payload, previous) matches Some((usage, total)) ==> {
            let last = info_member(payload, "last_token_usage"@);
            &&& last matches Some(last) ==> is_count(last) ==> counts(last, usage)
            &&& (last matches Some(last) ==> !is_count(last)) ==> match previous {
                Some(before) => is_gain(usage, before, total),
                None => usage == total,
            }
        },
{
    if let Some(last) = info_member(payload, "last_token_usage"@) {
        if is_count(last) {
            stated_usage_is_taken_as_stated(payload, previous, last);
        } else {
            unstated_usage_is_the_gain(payload, previous);
        }
    } else {
        unstated_usage_is_the_gain(payload, previous);
    }
}

/// A report that states the previous total adds nothing, and one that states another adds something
/// and leaves that total.
pub proof fn repeated_total_is_nothing(payload: JsonView, previous: Option<TokenUsage>)
    ensures
        forall|total: TokenUsage| #[trigger]
            states(payload, "total_token_usage"@, total) ==> if previous == Some(total) {
                reported_usage(payload, previous) is None
            } else {
                reported_usage(payload, previous) matches Some((_, left)) && left == total
            },
{
    assert forall|total: TokenUsage| #[trigger]
        states(payload, "total_token_usage"@, total) implies if previous == Some(total) {
        reported_usage(payload, previous) is None
    } else {
        reported_usage(payload, previous) matches Some((_, left)) && left == total
    } by {
        let stated = info_member(payload, "total_token_usage"@)->Some_0;
        counters_are_read_as_they_stand(stated);
    }
}

} // verus!
