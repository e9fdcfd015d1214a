//! Prices: which one covers a model, and how the tokens of a report divide over its rates.
use vstd::prelude::*;

use crate::text;
use crate::text::chars_of;
use crate::text::lower_of;
use crate::usage::TokenUsage;

verus! {

/// Where the prices were published.
pub const PRICE_SOURCE: &'static str = "https://developers.openai.com/api/docs/models";

/// The day on which the prices were last looked up.
pub const PRICE_VERIFIED_ON: &'static str = "2026-08-27";

/// The version under which the prices are stored.
pub const PRICE_VERSION: &'static str = "openai-2026-08-27";

/// What decides whether a stored price covers a model, and from which input on it counts as long
/// context.
#[derive(Debug)]
pub struct PriceRule {
    pub model_prefix: String,
    pub active: bool,
    pub long_context_threshold: Option<u64>,
}

/// A published price: thousandths of a dollar for each million tokens, and tenths for the
/// multipliers of long context.
#[derive(Clone, Copy, Debug)]
pub struct SeedPrice {
    pub model_prefix: &'static str,
    pub input_milli: u64,
    pub cached_input_milli: u64,
    pub output_milli: u64,
    pub long_context_threshold: Option<u64>,
    pub long_context_input_tenths: u64,
    pub long_context_output_tenths: u64,
}

/// The numbers of a published price: input, cached input, output, threshold and the multipliers
/// for input and output.
pub open spec fn numbers_of(price: SeedPrice) -> (u64, u64, u64, Option<u64>, u64, u64) {
    (
        price.input_milli,
        price.cached_input_milli,
        price.output_milli,
        price.long_context_threshold,
        price.long_context_input_tenths,
        price.long_context_output_tenths,
    )
}

/// Whether a price is the published one for a prefix.
pub open spec fn is_price(
    price: SeedPrice,
    prefix: Seq<char>,
    numbers: (u64, u64, u64, Option<u64>, u64, u64),
) -> bool {
    price.model_prefix@ == prefix && numbers_of(price) == numbers
}

/// The published prices.
pub fn seed_prices() -> (prices: Vec<SeedPrice>)
    ensures
        prices@.len() == 7,
        is_price(prices@[0], "gpt-5.6-sol"@, (4_000, 400, 20_000, Some(272_000), 20, 15)),
        is_price(prices@[1], "gpt-5.6-terra"@, (2_000, 200, 12_000, Some(272_000), 20, 15)),
        is_price(prices@[2], "gpt-5.6-luna"@, (200, 20, 1_200, None, 10, 10)),
        is_price(prices@[3], "gpt-5.6"@, (4_000, 400, 20_000, Some(272_000), 20, 15)),
        is_price(prices@[4], "gpt-5.5"@, (5_000, 500, 30_000, Some(272_000), 20, 15)),
        is_price(prices@[5], "gpt-5.4-mini"@, (750, 75, 4_500, None, 10, 10)),
        is_price(prices@[6], "gpt-5.4"@, (2_500, 250, 15_000, Some(272_000), 20, 15)),
{
    vec![
        surcharged("gpt-5.6-sol", 4_000, 400, 20_000),
        surcharged("gpt-5.6-terra", 2_000, 200, 12_000),
        flat("gpt-5.6-luna", 200, 20, 1_200),
        surcharged("gpt-5.6", 4_000, 400, 20_000),
        surcharged("gpt-5.5", 5_000, 500, 30_000),
        flat("gpt-5.4-mini", 750, 75, 4_500),
        surcharged("gpt-5.4", 2_500, 250, 15_000),
    ]
}

/// A price that rises with long context.
fn surcharged(
    model_prefix: &'static str,
    input_milli: u64,
    cached_input_milli: u64,
    output_milli: u64,
) -> (price: SeedPrice)
    ensures
        is_price(
            price,
            model_prefix@,
            (input_milli, cached_input_milli, output_milli, Some(272_000), 20, 15),
        ),
{
    SeedPrice {
        model_prefix,
        input_milli,
        cached_input_milli,
        output_milli,
        long_context_threshold: Some(272_000),
        long_context_input_tenths: 20,
        long_context_output_tenths: 15,
    }
}

/// A price that stays the same with long context.
fn flat(
    model_prefix: &'static str,
    input_milli: u64,
    cached_input_milli: u64,
    output_milli: u64,
) -> (price: SeedPrice)
    ensures
        is_price(
            price,
            model_prefix@,
            (input_milli, cached_input_milli, output_milli, None, 10, 10),
        ),
{
    SeedPrice {
        model_prefix,
        input_milli,
        cached_input_milli,
        output_milli,
        long_context_threshold: None,
        long_context_input_tenths: 10,
        long_context_output_tenths: 10,
    }
}

/// Whether a text begins as a stored prefix says: letters match regardless of their case in
/// ASCII, `_` stands for one character and `%` for any number of them.
pub open spec fn begins_like(text: Seq<char>, prefix: Seq<char>) -> bool
    decreases text.len() + prefix.len(),
{
    if prefix.len() == 0 {
        true
    } else if prefix[0] == '%' {
        begins_like(text, prefix.drop_first()) || (text.len() > 0 && begins_like(
            text.drop_first(),
            prefix,
        ))
    } else {
        text.len() > 0 && (prefix[0] == '_' || text::lower_char(text[0]) == text::lower_char(
            prefix[0],
        )) && begins_like(text.drop_first(), prefix.drop_first())
    }
}

/// Whether an active price covers a model.
pub open spec fn covers(rule: PriceRule, model: Seq<char>) -> bool {
    rule.active && begins_like(model, rule.model_prefix@)
}

/// Whether one price goes before another: the longer prefix, or the earlier one of two that are
/// equally long.
pub open spec fn goes_before(prices: Seq<PriceRule>, i: int, j: int) -> bool {
    let (left, right) = (prices[i].model_prefix@.len(), prices[j].model_prefix@.len());
    left > right || (left == right && i <= j)
}

/// Whether a price is the one for a model: of all that cover it, the one that goes first.
pub open spec fn is_price_of(prices: Seq<PriceRule>, model: Seq<char>, i: int) -> bool {
    &&& 0 <= i < prices.len()
    &&& covers(prices[i], model)
    &&& forall|j: int|
        0 <= j < prices.len() && covers(#[trigger] prices[j], model) ==> goes_before(prices, i, j)
}

/// The price for a model, by its place in the list.
pub open spec fn price_of(prices: Seq<PriceRule>, model: Seq<char>) -> Option<int> {
    if exists|i: int| is_price_of(prices, model, i) {
        Some(choose|i: int| is_price_of(prices, model, i))
    } else {
        None
    }
}

/// A model has one price at most, and none exactly where no active price covers it.
pub proof fn price_is_unique(prices: Seq<PriceRule>, model: Seq<char>)
    ensures
        forall|i: int, j: int| #[trigger]
            is_price_of(prices, model, i) && #[trigger] is_price_of(prices, model, j) ==> i == j,
        price_of(prices, model) is None <==> forall|i: int|
            0 <= i < prices.len() ==> !covers(#[trigger] prices[i], model),
{
    if exists|i: int| 0 <= i < prices.len() && covers(#[trigger] prices[i], model) {
        let found = first_price(prices, model, prices.len() as int);
        assert(is_price_of(prices, model, found));
    }
}

/// Some price among the first ones goes first.
proof fn first_price(prices: Seq<PriceRule>, model: Seq<char>, end: int) -> (first: int)
    requires
        0 <= end <= prices.len(),
        exists|i: int| 0 <= i < end && covers(#[trigger] prices[i], model),
    ensures
        0 <= first < end,
        covers(prices[first], model),
        forall|j: int|
            0 <= j < end && covers(#[trigger] prices[j], model) ==> goes_before(prices, first, j),
    decreases end,
{
    let last = end - 1;
    if exists|i: int| 0 <= i < last && covers(#[trigger] prices[i], model) {
        let earlier = first_price(prices, model, last);
        if covers(prices[last], model) && prices[last].model_prefix@.len()
            > prices[earlier].model_prefix@.len() {
            last
        } else {
            earlier
        }
    } else {
        last
    }
}

/// Whether the text from one place on begins as the prefix from another place on says.
fn begins_like_at(
    text: &Vec<char>,
    at: usize,
    prefix: &Vec<char>,
    from: usize,
) -> (found: bool)
    requires
        at <= text@.len(),
        from <= prefix@.len(),
    ensures
        found == begins_like(text@.skip(at as int), prefix@.skip(from as int)),
    decreases text@.len() - at + prefix@.len() - from,
{
    if from == prefix.len() {
        return true;
    }
    let ghost rest = prefix@.skip(from as int);
    assert(rest.drop_first() =~= prefix@.skip(from + 1));
    let wanted = prefix[from];
    if at == text.len() {
        return wanted == '%' && begins_like_at(text, at, prefix, from + 1);
    }
    assert(text@.skip(at as int).drop_first() =~= text@.skip(at + 1));
    if wanted == '%' {
        begins_like_at(text, at, prefix, from + 1) || begins_like_at(text, at + 1, prefix, from)
    } else {
        (wanted == '_' || lower_of(text[at]) == lower_of(wanted))
            && begins_like_at(text, at + 1, prefix, from + 1)
    }
}

/// The price for a model, by its place in the list.
pub fn select_price(prices: &Vec<PriceRule>, model: &str) -> (chosen: Option<usize>)
    ensures
        match chosen {
            Some(i) => is_price_of(prices@, model@, i as int) && price_of(prices@, model@) == Some(
                i as int,
            ),
            None => price_of(prices@, model@) is None,
        },
{
    let name = chars_of(model);
    let mut chosen: Option<usize> = None;
    let mut length: usize = 0;
    let mut i: usize = 0;
    while i < prices.len()
        invariant
            name@ == model@,
            i <= prices@.len(),
            match chosen {
                Some(c) => {
                    &&& c < i
                    &&& covers(prices@[c as int], model@)
                    &&& length == prices@[c as int].model_prefix@.len()
                    &&& forall|j: int|
                        0 <= j < i && covers(#[trigger] prices@[j], model@) ==> goes_before(
                            prices@,
                            c as int,
                            j,
                        )
                },
                None => forall|j: int| 0 <= j < i ==> !covers(#[trigger] prices@[j], model@),
            },
        decreases prices@.len() - i,
    {
        let rule = &prices[i];
        if rule.active {
            let prefix = chars_of(rule.model_prefix.as_str());
            proof {
                assert(name@.skip(0) =~= model@);
                assert(prefix@.skip(0) =~= rule.model_prefix@);
            }
            if begins_like_at(&name, 0, &prefix, 0) && (chosen.is_none() || prefix.len() > length) {
                chosen = Some(i);
                length = prefix.len();
            }
        }
        i += 1;
    }
    proof {
        price_is_unique(prices@, model@);
        if let Some(c) = chosen {
            assert(is_price_of(prices@, model@, c as int));
        }
    }
    chosen
}

/// The tokens of a report by the rates that apply to them.
#[derive(Clone, Copy, Debug, PartialEq, Eq, Structural)]
pub struct TokenSplit {
    pub uncached: u64,
    pub cached: u64,
    pub cache_write: u64,
    pub output: u64,
    pub long_context: bool,
}

/// The smaller of two counters.
pub open spec fn smaller(left: u64, right: u64) -> u64 {
    if left <= right {
        left
    } else {
        right
    }
}

/// The cached input, which is never more than the input.
pub open spec fn cached_part(usage: TokenUsage) -> u64 {
    smaller(usage.cached_input, usage.input)
}

/// The input written to the cache, which is never more than what is not read from it.
pub open spec fn cache_write_part(usage: TokenUsage) -> u64 {
    smaller(usage.cache_write_input, (usage.input - cached_part(usage)) as u64)
}

/// The input that has to do with the cache in no way.
pub open spec fn uncached_part(usage: TokenUsage) -> u64 {
    (usage.input - cached_part(usage) - cache_write_part(usage)) as u64
}

/// The reasoning output, which is never more than the output.
pub open spec fn reasoning_part(usage: TokenUsage) -> u64 {
    smaller(usage.reasoning_output, usage.output)
}

/// Every input token is charged at one rate: the three parts of the input make up the whole.
pub proof fn input_parts_make_up_the_input(usage: TokenUsage)
    ensures
        uncached_part(usage) + cached_part(usage) + cache_write_part(usage) == usage.input,
        reasoning_part(usage) <= usage.output,
{
}

impl TokenSplit {
    /// How the tokens of a report divide.
    pub open spec fn of(usage: TokenUsage, threshold: Option<u64>) -> TokenSplit {
        TokenSplit {
            uncached: uncached_part(usage),
            cached: cached_part(usage),
            cache_write: cache_write_part(usage),
            output: usage.output,
            long_context: threshold matches Some(threshold) && usage.input > threshold,
        }
    }
}

/// The smaller of two counters.
fn min(left: u64, right: u64) -> (least: u64)
    ensures
        least == smaller(left, right),
{
    if left <= right {
        left
    } else {
        right
    }
}

/// How the tokens of a report divide over the rates of a price with this threshold.
pub fn split_tokens(usage: TokenUsage, threshold: Option<u64>) -> (split: TokenSplit)
    ensures
        split == TokenSplit::of(usage, threshold),
{
    let cached = min(usage.cached_input, usage.input);
    let cache_write = min(usage.cache_write_input, usage.input - cached);
    TokenSplit {
        uncached: usage.input - cached - cache_write,
        cached,
        cache_write,
        output: usage.output,
        long_context: match threshold {
            Some(threshold) => usage.input > threshold,
            None => false,
        },
    }
}

/// Input counts as written to the cache only as far as the report says so: never more than its
/// counter, and all of it wherever it fits beside the cached input. Without such a counter all
/// input that is not cached is uncached.
pub proof fn cache_writes_are_those_that_are_reported(usage: TokenUsage, threshold: Option<u64>)
    ensures
        ({
            let split = TokenSplit::of(usage, threshold);
            &&& split.cached <= usage.cached_input
            &&& split.cache_write <= usage.cache_write_input
            &&& split.cached + split.cache_write <= usage.input
            &&& usage.cached_input <= usage.input ==> split.cached == usage.cached_input
            &&& usage.cached_input > usage.input ==> split.cached == usage.input
            &&& usage.cached_input + usage.cache_write_input <= usage.input ==> split.cache_write
                == usage.cache_write_input
            &&& usage.cached_input + usage.cache_write_input > usage.input ==> split.uncached == 0
            &&& usage.cache_write_input == 0 ==> split.cache_write == 0 && split.uncached
                == usage.input - split.cached
            &&& split.uncached + split.cached + split.cache_write == usage.input
            &&& split.output == usage.output
        }),
        cached_part(usage) == TokenSplit::of(usage, threshold).cached,
        cache_write_part(usage) == TokenSplit::of(usage, threshold).cache_write,
        uncached_part(usage) == TokenSplit::of(usage, threshold).uncached,
        usage.reasoning_output <= usage.output ==> reasoning_part(usage) == usage.reasoning_output,
        usage.reasoning_output > usage.output ==> reasoning_part(usage) == usage.output,
{
}

/// A report counts as long context exactly where the price has a threshold and the whole input, the
/// cached part too, lies above it; nothing else about the split depends on the threshold.
pub proof fn long_context_is_more_input_than_the_threshold(usage: TokenUsage, threshold: u64)
    ensures
        !TokenSplit::of(usage, None).long_context,
        usage.input > threshold ==> TokenSplit::of(usage, Some(threshold)).long_context,
        usage.input <= threshold ==> !TokenSplit::of(usage, Some(threshold)).long_context,
        (TokenSplit { long_context: false, ..TokenSplit::of(usage, Some(threshold)) })
            == TokenSplit::of(usage, None),
{
}

/// Whether a prefix has no character that stands for others.
pub open spec fn is_plain(prefix: Seq<char>) -> bool {
    forall|i: int| 0 <= i < prefix.len() ==> (#[trigger] prefix[i]) != '%' && prefix[i] != '_'
}

/// A plain prefix matches exactly the texts whose first characters are its own, but for the case of
/// ASCII letters.
pub proof fn plain_prefixes_match_what_begins_with_them(text: Seq<char>, prefix: Seq<char>)
    requires
        is_plain(prefix),
    ensures
        begins_like(text, prefix) <==> prefix.len() <= text.len() && text::lowered(
            text.take(prefix.len() as int),
        ) == text::lowered(prefix),
    decreases prefix.len(),
{
    if prefix.len() > 0 {
        assert(prefix[0] != '%');
        if text.len() > 0 {
            let (rest, shorter) = (text.drop_first(), prefix.drop_first());
            assert forall|i: int| 0 <= i < shorter.len() implies (#[trigger] shorter[i]) != '%'
                && shorter[i] != '_' by {
                assert(prefix[i + 1] == shorter[i]);
            }
            plain_prefixes_match_what_begins_with_them(rest, shorter);
            if prefix.len() <= text.len() {
                let (whole, part) = (
                    text::lowered(text.take(prefix.len() as int)),
                    text::lowered(rest.take(shorter.len() as int)),
                );
                let (wanted, less) = (text::lowered(prefix), text::lowered(shorter));
                assert(whole.len() == wanted.len() && part.len() == less.len());
                if begins_like(text, prefix) {
                    assert forall|i: int| 0 <= i < whole.len() implies whole[i] == wanted[i] by {
                        if i > 0 {
                            assert(part[i - 1] == less[i - 1]);
                        }
                    }
                    assert(whole =~= wanted);
                }
                if whole == wanted {
                    assert(whole[0] == wanted[0]);
                    assert forall|i: int| 0 <= i < part.len() implies part[i] == less[i] by {
                        assert(whole[i + 1] == wanted[i + 1]);
                    }
                    assert(part =~= less);
                }
            }
        }
    } else {
        assert(text::lowered(text.take(0)) =~= text::lowered(prefix));
    }
}

/// A model is charged by the most specific price: the one for it is active and matches the model,
/// and no active price that matches has a longer prefix. An inactive price is never chosen, and
/// where an active one matches there is a price.
pub proof fn the_longest_active_prefix_decides(prices: Seq<PriceRule>, model: Seq<char>, j: int)
    requires
        0 <= j < prices.len(),
        prices[j].active,
        begins_like(model, prices[j].model_prefix@),
    ensures
        price_of(prices, model) matches Some(i) && 0 <= i < prices.len() && prices[i].active
            && begins_like(model, prices[i].model_prefix@) && prices[i].model_prefix@.len()
            >= prices[j].model_prefix@.len(),
{
    price_is_unique(prices, model);
    assert(covers(prices[j], model));
    let i = price_of(prices, model)->Some_0;
    assert(is_price_of(prices, model, i));
    assert(goes_before(prices, i, j));
}

/// A model that no active price matches has no price.
pub proof fn no_match_no_price(prices: Seq<PriceRule>, model: Seq<char>)
    requires
        forall|j: int|
            0 <= j < prices.len() ==> !(#[trigger] prices[j]).active || !begins_like(
                model,
                prices[j].model_prefix@,
            ),
    ensures
        price_of(prices, model) is None,
{
    price_is_unique(prices, model);
    assert forall|i: int| 0 <= i < prices.len() implies !covers(#[trigger] prices[i], model) by {}
}

} // verus!
