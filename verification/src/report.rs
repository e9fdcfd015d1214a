//! Usage reports: the native events of one account in a window of time, by model, limit and
//! service tier.
use vstd::prelude::*;

use crate::ingest;
use crate::ledger;
use crate::ledger::TokenEvent;
use crate::ledger::TokenEventView;
use crate::ledger::LEGACY_ACCOUNT;
use crate::pricing;
use crate::pricing::select_price;
use crate::pricing::split_tokens;
use crate::pricing::PriceRule;
use crate::pricing::TokenSplit;
use crate::pricing::PRICE_SOURCE;
use crate::pricing::PRICE_VERIFIED_ON;
use crate::pricing::PRICE_VERSION;
use crate::text;
use crate::text::copy_optional_text;
use crate::text::decimal_text;
use crate::text::is_before;
use crate::text::same_text;
use crate::usage::TokenUsage;

verus! {

/// The tokens of a number of events.
#[derive(Clone, Copy, Debug, PartialEq, Eq, Structural)]
pub struct UsageTotals {
    pub input_tokens: u64,
    pub uncached_input_tokens: u64,
    pub cached_input_tokens: u64,
    pub cache_write_input_tokens: u64,
    pub output_tokens: u64,
    pub reasoning_output_tokens: u64,
    pub events: u64,
    pub priced_events: u64,
    pub unpriced_events: u64,
    pub unpriced_input_tokens: u64,
    pub unpriced_output_tokens: u64,
}

/// The quantities that totals add up.
pub enum Measure {
    Input,
    UncachedInput,
    CachedInput,
    CacheWriteInput,
    Output,
    ReasoningOutput,
    Events,
    PricedEvents,
    UnpricedEvents,
    UnpricedInput,
    UnpricedOutput,
}

/// What one event adds to a quantity.
pub open spec fn amount(usage: TokenUsage, priced: bool, measure: Measure) -> nat {
    match measure {
        Measure::Input => usage.input as nat,
        Measure::UncachedInput => pricing::uncached_part(usage) as nat,
        Measure::CachedInput => pricing::cached_part(usage) as nat,
        Measure::CacheWriteInput => pricing::cache_write_part(usage) as nat,
        Measure::Output => usage.output as nat,
        Measure::ReasoningOutput => pricing::reasoning_part(usage) as nat,
        Measure::Events => 1,
        Measure::PricedEvents => if priced {
            1
        } else {
            0
        },
        Measure::UnpricedEvents => if priced {
            0
        } else {
            1
        },
        Measure::UnpricedInput => if priced {
            0
        } else {
            usage.input as nat
        },
        Measure::UnpricedOutput => if priced {
            0
        } else {
            usage.output as nat
        },
    }
}

impl UsageTotals {
    /// One of the quantities.
    pub open spec fn get(self, measure: Measure) -> u64 {
        match measure {
            Measure::Input => self.input_tokens,
            Measure::UncachedInput => self.uncached_input_tokens,
            Measure::CachedInput => self.cached_input_tokens,
            Measure::CacheWriteInput => self.cache_write_input_tokens,
            Measure::Output => self.output_tokens,
            Measure::ReasoningOutput => self.reasoning_output_tokens,
            Measure::Events => self.events,
            Measure::PricedEvents => self.priced_events,
            Measure::UnpricedEvents => self.unpriced_events,
            Measure::UnpricedInput => self.unpriced_input_tokens,
            Measure::UnpricedOutput => self.unpriced_output_tokens,
        }
    }

    /// Nothing.
    pub open spec fn zero() -> UsageTotals {
        UsageTotals {
            input_tokens: 0,
            uncached_input_tokens: 0,
            cached_input_tokens: 0,
            cache_write_input_tokens: 0,
            output_tokens: 0,
            reasoning_output_tokens: 0,
            events: 0,
            priced_events: 0,
            unpriced_events: 0,
            unpriced_input_tokens: 0,
            unpriced_output_tokens: 0,
        }
    }

    /// Adds the tokens of an event, which has a price or none.
    pub fn add(&mut self, usage: TokenUsage, priced: bool)
        ensures
            forall|measure: Measure| #[trigger]
                final(self).get(measure) == ingest::capped_sum(
                    old(self).get(measure),
                    amount(usage, priced, measure) as int,
                ),
    {
        let split = split_tokens(usage, None);
        let reasoning = if usage.reasoning_output <= usage.output {
            usage.reasoning_output
        } else {
            usage.output
        };
        self.input_tokens = self.input_tokens.saturating_add(usage.input);
        self.cached_input_tokens = self.cached_input_tokens.saturating_add(split.cached);
        self.cache_write_input_tokens = self.cache_write_input_tokens.saturating_add(
            split.cache_write,
        );
        self.uncached_input_tokens = self.uncached_input_tokens.saturating_add(split.uncached);
        self.output_tokens = self.output_tokens.saturating_add(usage.output);
        self.reasoning_output_tokens = self.reasoning_output_tokens.saturating_add(reasoning);
        self.events = self.events.saturating_add(1);
        if priced {
            self.priced_events = self.priced_events.saturating_add(1);
        } else {
            self.unpriced_events = self.unpriced_events.saturating_add(1);
            self.unpriced_input_tokens = self.unpriced_input_tokens.saturating_add(usage.input);
            self.unpriced_output_tokens = self.unpriced_output_tokens.saturating_add(usage.output);
        }
    }
}

impl Default for UsageTotals {
    fn default() -> (totals: UsageTotals)
        ensures
            totals == UsageTotals::zero(),
    {
        UsageTotals {
            input_tokens: 0,
            uncached_input_tokens: 0,
            cached_input_tokens: 0,
            cache_write_input_tokens: 0,
            output_tokens: 0,
            reasoning_output_tokens: 0,
            events: 0,
            priced_events: 0,
            unpriced_events: 0,
            unpriced_input_tokens: 0,
            unpriced_output_tokens: 0,
        }
    }
}

/// Adds the totals of a group.
pub fn merge_totals(totals: &mut UsageTotals, group: &UsageTotals)
    ensures
        forall|measure: Measure| #[trigger]
            final(totals).get(measure) == ingest::capped_sum(
                old(totals).get(measure),
                group.get(measure) as int,
            ),
{
    totals.input_tokens = totals.input_tokens.saturating_add(group.input_tokens);
    totals.uncached_input_tokens = totals.uncached_input_tokens.saturating_add(
        group.uncached_input_tokens,
    );
    totals.cached_input_tokens = totals.cached_input_tokens.saturating_add(
        group.cached_input_tokens,
    );
    totals.cache_write_input_tokens = totals.cache_write_input_tokens.saturating_add(
        group.cache_write_input_tokens,
    );
    totals.output_tokens = totals.output_tokens.saturating_add(group.output_tokens);
    totals.reasoning_output_tokens = totals.reasoning_output_tokens.saturating_add(
        group.reasoning_output_tokens,
    );
    totals.events = totals.events.saturating_add(group.events);
    totals.priced_events = totals.priced_events.saturating_add(group.priced_events);
    totals.unpriced_events = totals.unpriced_events.saturating_add(group.unpriced_events);
    totals.unpriced_input_tokens = totals.unpriced_input_tokens.saturating_add(
        group.unpriced_input_tokens,
    );
    totals.unpriced_output_tokens = totals.unpriced_output_tokens.saturating_add(
        group.unpriced_output_tokens,
    );
}

/// Whether an event counts in a report: it is native, belongs to the account, and its tokens were
/// used in the window, which holds its first moment and not its last.
pub open spec fn in_scope(
    event: TokenEventView,
    account: Seq<char>,
    from_ms: i64,
    to_ms: i64,
) -> bool {
    &&& event.is_native()
    &&& event.account_key == account
    &&& from_ms <= event.usage_at_ms < to_ms
}

/// The events that count in a report.
pub open spec fn scope(
    events: Seq<TokenEventView>,
    account: Seq<char>,
    from_ms: i64,
    to_ms: i64,
) -> Seq<TokenEventView> {
    events.filter(|event: TokenEventView| in_scope(event, account, from_ms, to_ms))
}

/// The price of an event, by its place in the list: only the default service tier has prices.
pub open spec fn event_price(event: TokenEventView, prices: Seq<PriceRule>) -> Option<int> {
    if event.service_tier is None || event.service_tier == Some("default"@) {
        pricing::price_of(prices, event.model)
    } else {
        None
    }
}

/// The sum of a quantity over events.
pub open spec fn sum(
    events: Seq<TokenEventView>,
    prices: Seq<PriceRule>,
    measure: Measure,
) -> nat
    decreases events.len(),
{
    if events.len() == 0 {
        0
    } else {
        let event = events.last();
        sum(events.drop_last(), prices, measure) + amount(
            event.usage,
            event_price(event, prices) is Some,
            measure,
        )
    }
}

/// Whether totals are those of events: each quantity is its sum, or the largest counter where the
/// sum lies beyond.
pub open spec fn totals_of(
    totals: UsageTotals,
    events: Seq<TokenEventView>,
    prices: Seq<PriceRule>,
) -> bool {
    forall|measure: Measure| #[trigger]
        totals.get(measure) == ingest::capped_sum(0, sum(events, prices, measure) as int)
}

/// What one event is charged: by the price at this place in the list, for tokens that divide like
/// this.
#[derive(Clone, Copy, Debug, PartialEq, Eq, Structural)]
pub struct Charge {
    pub price: usize,
    pub split: TokenSplit,
}

/// What an event is charged.
pub open spec fn charge_of(event: TokenEventView, prices: Seq<PriceRule>) -> Option<(
    int,
    TokenSplit,
)> {
    match event_price(event, prices) {
        Some(price) => Some(
            (price, TokenSplit::of(event.usage, prices[price].long_context_threshold)),
        ),
        None => None,
    }
}

/// What events are charged, in their order.
pub open spec fn charges_of(events: Seq<TokenEventView>, prices: Seq<PriceRule>) -> Seq<
    (int, TokenSplit),
>
    decreases events.len(),
{
    if events.len() == 0 {
        Seq::empty()
    } else {
        let before = charges_of(events.drop_last(), prices);
        match charge_of(events.last(), prices) {
            Some(charge) => before.push(charge),
            None => before,
        }
    }
}

/// What a report groups events by: the model, the limit and the service tier.
#[verifier::ext_equal]
pub struct GroupKey {
    pub model: Seq<char>,
    pub limit_id: Option<Seq<char>>,
    pub service_tier: Option<Seq<char>>,
}

/// The group of an event.
pub open spec fn group_key(event: TokenEventView) -> GroupKey {
    GroupKey {
        model: event.model,
        limit_id: event.limit_id,
        service_tier: event.service_tier,
    }
}

/// Whether an optional text comes before another: a missing one before every text.
pub open spec fn optional_before(left: Option<Seq<char>>, right: Option<Seq<char>>) -> bool {
    match (left, right) {
        (Some(left), Some(right)) => text::text_before(left, right),
        (None, Some(_)) => true,
        _ => false,
    }
}

/// Whether a group comes before another: by the model, then the limit, then the service tier.
pub open spec fn key_before(left: GroupKey, right: GroupKey) -> bool {
    ||| text::text_before(left.model, right.model)
    ||| left.model == right.model && optional_before(left.limit_id, right.limit_id)
    ||| left.model == right.model && left.limit_id == right.limit_id && optional_before(
        left.service_tier,
        right.service_tier,
    )
}

/// The events of one group.
pub open spec fn group_events(events: Seq<TokenEventView>, key: GroupKey) -> Seq<TokenEventView> {
    events.filter(|event: TokenEventView| group_key(event) == key)
}

/// One group of a report.
#[derive(Debug)]
pub struct UsageGroup {
    pub model: String,
    pub limit_id: Option<String>,
    pub service_tier: Option<String>,
    pub totals: UsageTotals,
    /// What the events of the group are charged, in their order.
    pub charges: Vec<Charge>,
}

impl UsageGroup {
    /// What the group's events have in common.
    pub open spec fn key(self) -> GroupKey {
        GroupKey {
            model: self.model@,
            limit_id: text::opt_view(self.limit_id),
            service_tier: text::opt_view(self.service_tier),
        }
    }

    /// What the group's events are charged.
    pub open spec fn charged(self) -> Seq<(int, TokenSplit)> {
        self.charges@.map_values(|charge: Charge| (charge.price as int, charge.split))
    }

    /// Whether the group holds what these events of it come to.
    pub open spec fn sums_up(self, events: Seq<TokenEventView>, prices: Seq<PriceRule>) -> bool {
        let mine = group_events(events, self.key());
        &&& mine.len() > 0
        &&& totals_of(self.totals, mine, prices)
        &&& self.charged() == charges_of(mine, prices)
    }
}

/// Whether groups are those of events: one for each key that occurs, in the order of the keys,
/// each with what its events come to.
pub open spec fn groups_of(
    groups: Seq<UsageGroup>,
    events: Seq<TokenEventView>,
    prices: Seq<PriceRule>,
) -> bool {
    &&& forall|i: int, j: int|
        0 <= i < j < groups.len() ==> key_before(
            (#[trigger] groups[i]).key(),
            (#[trigger] groups[j]).key(),
        )
    &&& forall|i: int| 0 <= i < groups.len() ==> (#[trigger] groups[i]).sums_up(events, prices)
    &&& forall|i: int|
        0 <= i < events.len() ==> has_group(groups, group_key(#[trigger] events[i]))
}

/// Whether there is a group for a key.
pub open spec fn has_group(groups: Seq<UsageGroup>, key: GroupKey) -> bool {
    exists|i: int| 0 <= i < groups.len() && (#[trigger] groups[i]).key() == key
}

/// The native events in the window whose account was never confirmed.
pub open spec fn legacy_events(events: Seq<TokenEventView>, from_ms: i64, to_ms: i64) -> nat {
    scope(events, LEGACY_ACCOUNT@, from_ms, to_ms).len()
}

/// What is said about a group that has no price; nothing where one of its events has one.
pub open spec fn group_warning(group: UsageGroup) -> Option<Seq<char>> {
    if group.totals.priced_events > 0 {
        None
    } else {
        match text::opt_view(group.service_tier) {
            Some(tier) => if tier != "default"@ {
                Some(
                    "Model "@ + group.model@ + " service tier "@ + tier
                        + " is not priced; its tokens remain visible and are excluded from cost."@,
                )
            } else {
                Some(unpriced_model(group.model@))
            },
            None => Some(unpriced_model(group.model@)),
        }
    }
}

/// What is said about a model without a price.
pub open spec fn unpriced_model(model: Seq<char>) -> Seq<char> {
    "No active price for model "@ + model + "; its tokens are excluded from cost."@
}

/// What is said about events without an account.
pub open spec fn legacy_warning(count: nat) -> Seq<char> {
    text::decimal(count)
        + " legacy token events have no verified account identity and are excluded from this account report."@
}

/// What is said about the groups, in their order.
pub open spec fn group_warnings(groups: Seq<UsageGroup>) -> Seq<Seq<char>>
    decreases groups.len(),
{
    if groups.len() == 0 {
        Seq::empty()
    } else {
        let before = group_warnings(groups.drop_last());
        match group_warning(groups.last()) {
            Some(warning) => before.push(warning),
            None => before,
        }
    }
}

/// What is said about a report: first about the events without an account, if there are any.
pub open spec fn warnings_of(legacy: nat, groups: Seq<UsageGroup>) -> Seq<Seq<char>> {
    if legacy > 0 {
        seq![legacy_warning(legacy)] + group_warnings(groups)
    } else {
        group_warnings(groups)
    }
}

/// A usage report.
#[derive(Debug)]
pub struct UsageReport {
    pub from_ms: i64,
    pub to_ms: i64,
    pub files_scanned: u64,
    pub malformed_lines: u64,
    pub duplicate_events_skipped: u64,
    pub groups: Vec<UsageGroup>,
    pub totals: UsageTotals,
    pub pricing_source: &'static str,
    pub pricing_verified_on: &'static str,
    pub pricing_version: &'static str,
    pub warnings: Vec<String>,
}

/// A filtered list grows by an item exactly where the filter keeps it.
proof fn filter_of_push(
    events: Seq<TokenEventView>,
    event: TokenEventView,
    keep: spec_fn(TokenEventView) -> bool,
)
    ensures
        events.push(event).filter(keep) == if keep(event) {
            events.filter(keep).push(event)
        } else {
            events.filter(keep)
        },
{
    reveal(Seq::filter);
    assert(events.push(event).drop_last() =~= events);
}

/// A group's events grow by an event exactly where it belongs to the group.
proof fn group_events_of_push(events: Seq<TokenEventView>, event: TokenEventView, key: GroupKey)
    ensures
        group_events(events.push(event), key) == if group_key(event) == key {
            group_events(events, key).push(event)
        } else {
            group_events(events, key)
        },
{
    filter_of_push(events, event, |event: TokenEventView| group_key(event) == key);
}

/// The order of the groups decides between any two different keys, one way only.
pub proof fn group_order_is_total(left: GroupKey, right: GroupKey)
    ensures
        key_before(left, right) || key_before(right, left) || left == right,
        !(key_before(left, right) && key_before(right, left)),
        !key_before(left, left),
{
    text_order(left.model, right.model);
    optional_order(left.limit_id, right.limit_id);
    optional_order(left.service_tier, right.service_tier);
    text_order(left.model, left.model);
    optional_order(left.limit_id, left.limit_id);
    optional_order(left.service_tier, left.service_tier);
}

/// The order of texts decides between any two different ones, one way only.
proof fn text_order(left: Seq<char>, right: Seq<char>)
    ensures
        text::text_before(left, right) || text::text_before(right, left) || left == right,
        !(text::text_before(left, right) && text::text_before(right, left)),
        left == right ==> !text::text_before(left, right),
{
    text::text_order_is_total(left, right);
    text::text_order_is_irreflexive(left);
    if text::text_before(left, right) && text::text_before(right, left) {
        text::text_order_is_transitive(left, right, left);
    }
}

/// The order of optional texts decides between any two different ones, one way only.
proof fn optional_order(left: Option<Seq<char>>, right: Option<Seq<char>>)
    ensures
        optional_before(left, right) || optional_before(right, left) || left == right,
        !(optional_before(left, right) && optional_before(right, left)),
        left == right ==> !optional_before(left, right),
{
    if let (Some(left), Some(right)) = (left, right) {
        text_order(left, right);
    }
}

/// The order of the groups is transitive.
pub proof fn group_order_is_transitive(a: GroupKey, b: GroupKey, c: GroupKey)
    requires
        key_before(a, b),
        key_before(b, c),
    ensures
        key_before(a, c),
{
    if text::text_before(a.model, b.model) && text::text_before(b.model, c.model) {
        text::text_order_is_transitive(a.model, b.model, c.model);
    }
    if let (Some(x), Some(y), Some(z)) = (a.limit_id, b.limit_id, c.limit_id) {
        if text::text_before(x, y) && text::text_before(y, z) {
            text::text_order_is_transitive(x, y, z);
        }
    }
    if let (Some(x), Some(y), Some(z)) = (a.service_tier, b.service_tier, c.service_tier) {
        if text::text_before(x, y) && text::text_before(y, z) {
            text::text_order_is_transitive(x, y, z);
        }
    }
}

/// Whether an optional text comes before another.
fn is_optional_before(left: &Option<String>, right: &Option<String>) -> (before: bool)
    ensures
        before == optional_before(text::opt_view(*left), text::opt_view(*right)),
{
    match (left, right) {
        (Some(left), Some(right)) => is_before(left.as_str(), right.as_str()),
        (None, Some(_)) => true,
        _ => false,
    }
}

/// Whether a group comes before the one of an event.
fn comes_before(group: &UsageGroup, event: &TokenEvent) -> (before: bool)
    ensures
        before == key_before(group.key(), group_key(event@)),
{
    if !same_text(group.model.as_str(), event.model.as_str()) {
        proof {
            text_order(group.model@, event.model@);
        }
        return is_before(group.model.as_str(), event.model.as_str());
    }
    proof {
        text_order(group.model@, event.model@);
        optional_order(text::opt_view(group.limit_id), text::opt_view(event.limit_id));
    }
    if !text::same_optional_text(&group.limit_id, &event.limit_id) {
        return is_optional_before(&group.limit_id, &event.limit_id);
    }
    is_optional_before(&group.service_tier, &event.service_tier)
}

/// Whether a group is the one of an event.
fn is_group_of(group: &UsageGroup, event: &TokenEvent) -> (same: bool)
    ensures
        same == (group.key() == group_key(event@)),
{
    same_text(group.model.as_str(), event.model.as_str()) && text::same_optional_text(
        &group.limit_id,
        &event.limit_id,
    ) && text::same_optional_text(&group.service_tier, &event.service_tier)
}

/// The place of an event's group among ordered groups: the first one that does not come before
/// it.
fn place_of(groups: &Vec<UsageGroup>, event: &TokenEvent) -> (at: usize)
    ensures
        at <= groups@.len(),
        forall|i: int|
            0 <= i < at ==> key_before((#[trigger] groups@[i]).key(), group_key(event@)),
        at < groups@.len() ==> !key_before(groups@[at as int].key(), group_key(event@)),
{
    let mut at: usize = 0;
    while at < groups.len()
        invariant
            at <= groups@.len(),
            forall|i: int|
                0 <= i < at ==> key_before((#[trigger] groups@[i]).key(), group_key(event@)),
        decreases groups@.len() - at,
    {
        if !comes_before(&groups[at], event) {
            return at;
        }
        at += 1;
    }
    at
}

/// The price of an event, by its place in the list.
fn price_of_event(event: &TokenEvent, prices: &Vec<PriceRule>) -> (price: Option<usize>)
    ensures
        match price {
            Some(price) => event_price(event@, prices@) == Some(price as int) && price
                < prices@.len(),
            None => event_price(event@, prices@) is None,
        },
{
    let is_default_tier = match &event.service_tier {
        Some(tier) => same_text(tier.as_str(), "default"),
        None => true,
    };
    if is_default_tier {
        select_price(prices, event.model.as_str())
    } else {
        None
    }
}

/// Adds an event to its group.
fn add_to_group(
    group: &mut UsageGroup,
    event: &TokenEvent,
    prices: &Vec<PriceRule>,
    Ghost(mine): Ghost<Seq<TokenEventView>>,
)
    requires
        totals_of(old(group).totals, mine, prices@),
        old(group).charged() == charges_of(mine, prices@),
    ensures
        final(group).key() == old(group).key(),
        totals_of(final(group).totals, mine.push(event@), prices@),
        final(group).charged() == charges_of(mine.push(event@), prices@),
{
    let price = price_of_event(event, prices);
    proof {
        assert(mine.push(event@).drop_last() =~= mine);
    }
    let ghost before = group.charged();
    group.totals.add(event.usage, price.is_some());
    if let Some(price) = price {
        let charge = Charge {
            price,
            split: split_tokens(event.usage, prices[price].long_context_threshold),
        };
        group.charges.push(charge);
        assert(group.charged() =~= before.push((charge.price as int, charge.split)));
    }
}

/// Adds an event to ordered groups.
fn add_event(
    groups: &mut Vec<UsageGroup>,
    event: &TokenEvent,
    prices: &Vec<PriceRule>,
    Ghost(events): Ghost<Seq<TokenEventView>>,
)
    requires
        groups_of(old(groups)@, events, prices@),
    ensures
        groups_of(final(groups)@, events.push(event@), prices@),
{
    let ghost before = groups@;
    let ghost key = group_key(event@);
    let ghost after = events.push(event@);
    let at = place_of(groups, event);
    proof {
        assert forall|k: GroupKey| #[trigger]
            group_events(after, k) == if k == key {
                group_events(events, k).push(event@)
            } else {
                group_events(events, k)
            } by {
            group_events_of_push(events, event@, k);
        }
    }
    if at < groups.len() && is_group_of(&groups[at], event) {
        let mut group = groups.remove(at);
        let ghost held = group;
        assert(held == before[at as int]);
        assert(held.sums_up(events, prices@));
        add_to_group(&mut group, event, prices, Ghost(group_events(events, key)));
        groups.insert(at, group);
        proof {
            let now = groups@;
            assert(now.len() == before.len());
            assert forall|i: int| 0 <= i < now.len() implies (#[trigger] now[i]).key()
                == before[i].key() && now[i].sums_up(after, prices@) by {
                assert(before[i].sums_up(events, prices@));
                if i != at {
                    assert(now[i] == before[i]);
                    if i < at {
                        group_order_is_total(before[i].key(), before[at as int].key());
                    } else {
                        group_order_is_total(before[at as int].key(), before[i].key());
                    }
                }
            }
            assert forall|i: int| 0 <= i < after.len() implies has_group(
                now,
                group_key(#[trigger] after[i]),
            ) by {
                if i < events.len() {
                    assert(has_group(before, group_key(events[i])));
                    let j = choose|j: int|
                        0 <= j < before.len() && (#[trigger] before[j]).key() == group_key(
                            events[i],
                        );
                    assert(now[j].key() == group_key(after[i]));
                } else {
                    assert(now[at as int].key() == key);
                }
            }
            assert forall|i: int, j: int| 0 <= i < j < now.len() implies key_before(
                (#[trigger] now[i]).key(),
                (#[trigger] now[j]).key(),
            ) by {
                assert(key_before(before[i].key(), before[j].key()));
            }
        }
    } else {
        let mut group = UsageGroup {
            model: event.model.clone(),
            limit_id: copy_optional_text(&event.limit_id),
            service_tier: copy_optional_text(&event.service_tier),
            totals: UsageTotals::default(),
            charges: Vec::new(),
        };
        proof {
            no_events_of_a_missing_group(before, events, prices@, key, at as int);
            assert(group.charged() =~= Seq::empty());
        }
        add_to_group(&mut group, event, prices, Ghost(group_events(events, key)));
        groups.insert(at, group);
        proof {
            let now = groups@;
            assert(now =~= before.insert(at as int, now[at as int]));
            assert forall|i: int, j: int| 0 <= i < j < now.len() implies key_before(
                (#[trigger] now[i]).key(),
                (#[trigger] now[j]).key(),
            ) by {
                let left = if i < at {
                    i
                } else {
                    i - 1
                };
                let right = if j < at {
                    j
                } else {
                    j - 1
                };
                if i != at && j != at {
                    assert(key_before(before[left].key(), before[right].key()));
                } else if j == at {
                    assert(key_before(before[i].key(), key));
                } else {
                    missing_group_comes_before(before, key, at as int, right);
                }
            }
            assert forall|i: int| 0 <= i < now.len() implies (#[trigger] now[i]).sums_up(
                after,
                prices@,
            ) by {
                if i != at {
                    let old_place = if i < at {
                        i
                    } else {
                        i - 1
                    };
                    assert(now[i] == before[old_place]);
                    assert(before[old_place].sums_up(events, prices@));
                    if i < at {
                        group_order_is_total(before[old_place].key(), key);
                    } else {
                        missing_group_comes_before(before, key, at as int, old_place);
                        group_order_is_total(key, before[old_place].key());
                    }
                }
            }
            assert forall|i: int| 0 <= i < after.len() implies has_group(
                now,
                group_key(#[trigger] after[i]),
            ) by {
                if i < events.len() {
                    assert(has_group(before, group_key(events[i])));
                    let j = choose|j: int|
                        0 <= j < before.len() && (#[trigger] before[j]).key() == group_key(
                            events[i],
                        );
                    if j < at {
                        assert(now[j].key() == group_key(after[i]));
                    } else {
                        assert(now[j + 1].key() == group_key(after[i]));
                    }
                } else {
                    assert(now[at as int].key() == key);
                }
            }
        }
    }
}

/// A key that stands at a place between ordered groups comes before all groups from there on.
proof fn missing_group_comes_before(
    groups: Seq<UsageGroup>,
    key: GroupKey,
    at: int,
    i: int,
)
    requires
        forall|i: int, j: int|
            0 <= i < j < groups.len() ==> key_before(
                (#[trigger] groups[i]).key(),
                (#[trigger] groups[j]).key(),
            ),
        0 <= at <= i < groups.len(),
        !key_before(groups[at].key(), key),
        groups[at].key() != key,
    ensures
        key_before(key, groups[i].key()),
{
    group_order_is_total(groups[at].key(), key);
    if i > at {
        group_order_is_transitive(key, groups[at].key(), groups[i].key());
    }
}

/// Where ordered groups have none for a key, there are no events of it.
proof fn no_events_of_a_missing_group(
    groups: Seq<UsageGroup>,
    events: Seq<TokenEventView>,
    prices: Seq<PriceRule>,
    key: GroupKey,
    at: int,
)
    requires
        groups_of(groups, events, prices),
        0 <= at <= groups.len(),
        forall|i: int| 0 <= i < at ==> key_before((#[trigger] groups[i]).key(), key),
        at < groups.len() ==> !key_before(groups[at].key(), key) && groups[at].key() != key,
    ensures
        group_events(events, key) == Seq::<TokenEventView>::empty(),
{
    let keep = |event: TokenEventView| group_key(event) == key;
    let mine = group_events(events, key);
    if mine.len() > 0 {
        assert(mine.contains(mine[0]));
        events.lemma_filter_contains_rev(keep, mine[0]);
        let i = choose|i: int| 0 <= i < events.len() && events[i] == mine[0];
        events.lemma_filter_pred(keep, 0);
        assert(has_group(groups, group_key(events[i])));
        let j = choose|j: int|
            0 <= j < groups.len() && (#[trigger] groups[j]).key() == group_key(events[i]);
        if j < at {
            group_order_is_total(groups[j].key(), key);
        } else {
            missing_group_comes_before(groups, key, at, j);
            group_order_is_total(key, groups[j].key());
        }
    }
}

/// The sum of a quantity over the groups of a list of keys.
spec fn sum_by_key(
    keys: Seq<GroupKey>,
    events: Seq<TokenEventView>,
    prices: Seq<PriceRule>,
    measure: Measure,
) -> nat
    decreases keys.len(),
{
    if keys.len() == 0 {
        0
    } else {
        sum_by_key(keys.drop_last(), events, prices, measure) + sum(
            group_events(events, keys.last()),
            prices,
            measure,
        )
    }
}

/// An event adds to the group that it belongs to, and to no other.
proof fn event_counts_in_one_group(
    keys: Seq<GroupKey>,
    events: Seq<TokenEventView>,
    event: TokenEventView,
    prices: Seq<PriceRule>,
    measure: Measure,
)
    requires
        forall|i: int, j: int| 0 <= i < j < keys.len() ==> keys[i] != keys[j],
    ensures
        sum_by_key(keys, events.push(event), prices, measure) == sum_by_key(
            keys,
            events,
            prices,
            measure,
        ) + if keys.contains(group_key(event)) {
            amount(event.usage, event_price(event, prices) is Some, measure)
        } else {
            0
        },
    decreases keys.len(),
{
    if keys.len() > 0 {
        let key = keys.last();
        let rest = keys.drop_last();
        event_counts_in_one_group(rest, events, event, prices, measure);
        group_events_of_push(events, event, key);
        let mine = group_events(events, key);
        assert(mine.push(event).drop_last() =~= mine);
        if group_key(event) == key {
            assert(keys[keys.len() - 1] == key);
            assert(keys.contains(key));
            assert(!rest.contains(key)) by {
                if rest.contains(key) {
                    let i = choose|i: int| 0 <= i < rest.len() && rest[i] == key;
                    assert(keys[i] != keys[keys.len() - 1]);
                }
            }
        } else {
            assert(keys.contains(group_key(event)) == rest.contains(group_key(event))) by {
                if keys.contains(group_key(event)) {
                    let i = choose|i: int| 0 <= i < keys.len() && keys[i] == group_key(event);
                    assert(rest[i] == group_key(event));
                }
                if rest.contains(group_key(event)) {
                    let i = choose|i: int| 0 <= i < rest.len() && rest[i] == group_key(event);
                    assert(keys[i] == group_key(event));
                }
            }
        }
    }
}

/// Events are divided over their groups: the sums of the groups make up the sum of all events.
proof fn groups_make_up_the_whole(
    keys: Seq<GroupKey>,
    events: Seq<TokenEventView>,
    prices: Seq<PriceRule>,
    measure: Measure,
)
    requires
        forall|i: int, j: int| 0 <= i < j < keys.len() ==> keys[i] != keys[j],
        forall|i: int| 0 <= i < events.len() ==> keys.contains(group_key(#[trigger] events[i])),
    ensures
        sum_by_key(keys, events, prices, measure) == sum(events, prices, measure),
    decreases events.len(),
{
    if events.len() == 0 {
        nothing_in_no_events(keys, events, prices, measure);
    } else {
        let rest = events.drop_last();
        assert forall|i: int| 0 <= i < rest.len() implies keys.contains(
            group_key(#[trigger] rest[i]),
        ) by {
            assert(rest[i] == events[i]);
        }
        groups_make_up_the_whole(keys, rest, prices, measure);
        assert(rest.push(events.last()) =~= events);
        assert(keys.contains(group_key(events[events.len() - 1])));
        event_counts_in_one_group(keys, rest, events.last(), prices, measure);
    }
}

/// Without events every group is empty.
proof fn nothing_in_no_events(
    keys: Seq<GroupKey>,
    events: Seq<TokenEventView>,
    prices: Seq<PriceRule>,
    measure: Measure,
)
    requires
        events.len() == 0,
    ensures
        sum_by_key(keys, events, prices, measure) == 0,
    decreases keys.len(),
{
    if keys.len() > 0 {
        nothing_in_no_events(keys.drop_last(), events, prices, measure);
        reveal(Seq::filter);
    }
}

/// The keys of groups.
spec fn keys_of(groups: Seq<UsageGroup>) -> Seq<GroupKey> {
    groups.map_values(|group: UsageGroup| group.key())
}

/// The totals of all groups.
fn total_of_groups(
    groups: &Vec<UsageGroup>,
    Ghost(events): Ghost<Seq<TokenEventView>>,
    Ghost(prices): Ghost<Seq<PriceRule>>,
) -> (totals: UsageTotals)
    requires
        groups_of(groups@, events, prices),
    ensures
        totals_of(totals, events, prices),
{
    let mut totals = UsageTotals::default();
    let ghost keys = keys_of(groups@);
    let mut i: usize = 0;
    assert(keys.take(0) =~= Seq::<GroupKey>::empty());
    while i < groups.len()
        invariant
            groups_of(groups@, events, prices),
            keys == keys_of(groups@),
            i <= groups@.len(),
            forall|measure: Measure| #[trigger]
                totals.get(measure) == ingest::capped_sum(
                    0,
                    sum_by_key(keys.take(i as int), events, prices, measure) as int,
                ),
        decreases groups@.len() - i,
    {
        assert(groups@[i as int].sums_up(events, prices));
        assert(keys.take(i + 1).drop_last() =~= keys.take(i as int));
        assert(keys.take(i + 1).last() == groups@[i as int].key());
        merge_totals(&mut totals, &groups[i].totals);
        i += 1;
    }
    proof {
        assert(keys.take(keys.len() as int) =~= keys);
        assert forall|i: int, j: int| 0 <= i < j < keys.len() implies keys[i] != keys[j] by {
            assert(key_before(groups@[i].key(), groups@[j].key()));
            group_order_is_total(keys[i], keys[j]);
        }
        assert forall|i: int| 0 <= i < events.len() implies keys.contains(
            group_key(#[trigger] events[i]),
        ) by {
            assert(has_group(groups@, group_key(events[i])));
            let j = choose|j: int|
                0 <= j < groups@.len() && (#[trigger] groups@[j]).key() == group_key(events[i]);
            assert(keys[j] == group_key(events[i]));
        }
        assert forall|measure: Measure| #[trigger]
            totals.get(measure) == ingest::capped_sum(
                0,
                sum(events, prices, measure) as int,
            ) by {
            groups_make_up_the_whole(keys, events, prices, measure);
        }
    }
    totals
}

/// What is said about a group that has no price.
fn warning_of_group(group: &UsageGroup) -> (warning: Option<String>)
    ensures
        text::opt_view(warning) == group_warning(*group),
{
    if group.totals.priced_events > 0 {
        return None;
    }
    let mut warning = String::new();
    if let Some(tier) = &group.service_tier {
        if !same_text(tier.as_str(), "default") {
            warning.append("Model ");
            warning.append(group.model.as_str());
            warning.append(" service tier ");
            warning.append(tier.as_str());
            warning.append(
                " is not priced; its tokens remain visible and are excluded from cost.",
            );
            assert(warning@ =~= "Model "@ + group.model@ + " service tier "@ + tier@
                + " is not priced; its tokens remain visible and are excluded from cost."@);
            return Some(warning);
        }
    }
    warning.append("No active price for model ");
    warning.append(group.model.as_str());
    warning.append("; its tokens are excluded from cost.");
    assert(warning@ =~= unpriced_model(group.model@));
    Some(warning)
}

/// What is said about a report.
fn warnings_for(legacy: u64, groups: &Vec<UsageGroup>) -> (warnings: Vec<String>)
    ensures
        text::views(warnings@) == warnings_of(legacy as nat, groups@),
{
    let mut warnings: Vec<String> = Vec::new();
    let ghost mut head: Seq<Seq<char>> = Seq::empty();
    if legacy > 0 {
        let mut warning = decimal_text(legacy);
        warning.append(
            " legacy token events have no verified account identity and are excluded from this account report.",
        );
        warnings.push(warning);
        proof {
            head = seq![legacy_warning(legacy as nat)];
        }
    }
    assert(text::views(warnings@) =~= head);
    let mut i: usize = 0;
    assert(groups@.take(0) =~= Seq::<UsageGroup>::empty());
    assert(head + Seq::<Seq<char>>::empty() =~= head);
    while i < groups.len()
        invariant
            i <= groups@.len(),
            text::views(warnings@) == head + group_warnings(groups@.take(i as int)),
        decreases groups@.len() - i,
    {
        let ghost before = text::views(warnings@);
        assert(groups@.take(i + 1).drop_last() =~= groups@.take(i as int));
        if let Some(warning) = warning_of_group(&groups[i]) {
            let ghost said = warning@;
            warnings.push(warning);
            assert(text::views(warnings@) =~= before.push(said));
            assert(before.push(said) =~= head + group_warnings(groups@.take(i as int)).push(said));
        }
        i += 1;
    }
    assert(groups@.take(groups@.len() as int) =~= groups@);
    assert(Seq::<Seq<char>>::empty() + group_warnings(groups@) =~= group_warnings(groups@));
    warnings
}

/// Whether an event counts in a report.
pub fn is_in_scope(event: &TokenEvent, account: &str, from_ms: i64, to_ms: i64) -> (counts: bool)
    ensures
        counts == in_scope(event@, account@, from_ms, to_ms),
{
    event.is_from_own_log() && same_text(event.account_key.as_str(), account)
        && from_ms <= event.usage_at_ms && event.usage_at_ms < to_ms
}

/// The account that reports are about: the one that is confirmed, or the one that stands for
/// none.
pub fn reporting_account(account_key: Option<String>) -> (account: String)
    ensures
        account@ == match account_key {
            Some(key) => key@,
            None => LEGACY_ACCOUNT@,
        },
{
    match account_key {
        Some(key) => key,
        None => LEGACY_ACCOUNT.to_owned(),
    }
}

/// What events say.
pub open spec fn event_views(events: Seq<TokenEvent>) -> Seq<TokenEventView> {
    events.map_values(|event: TokenEvent| event@)
}

/// The report on an account's events in a window of time.
pub fn report_from_ledger(
    events: &Vec<TokenEvent>,
    account: &str,
    from_ms: i64,
    to_ms: i64,
    prices: &Vec<PriceRule>,
) -> (report: UsageReport)
    ensures
        report.from_ms == from_ms,
        report.to_ms == to_ms,
        report.files_scanned == 0,
        report.malformed_lines == 0,
        report.duplicate_events_skipped == 0,
        groups_of(
            report.groups@,
            scope(event_views(events@), account@, from_ms, to_ms),
            prices@,
        ),
        totals_of(
            report.totals,
            scope(event_views(events@), account@, from_ms, to_ms),
            prices@,
        ),
        report.pricing_source@ == PRICE_SOURCE@,
        report.pricing_verified_on@ == PRICE_VERIFIED_ON@,
        report.pricing_version@ == PRICE_VERSION@,
        text::views(report.warnings@) == warnings_of(
            legacy_events(event_views(events@), from_ms, to_ms),
            report.groups@,
        ),
{
    let ghost all = event_views(events@);
    let ghost mine = |event: TokenEventView| in_scope(event, account@, from_ms, to_ms);
    let ghost nobodys = |event: TokenEventView| in_scope(event, LEGACY_ACCOUNT@, from_ms, to_ms);
    let mut groups: Vec<UsageGroup> = Vec::new();
    let mut legacy: u64 = 0;
    let mut i: usize = 0;
    proof {
        reveal(Seq::filter);
        assert(all.take(0) =~= Seq::<TokenEventView>::empty());
        assert(all.take(0).filter(mine).len() == 0);
        assert(all.take(0).filter(nobodys).len() == 0);
    }
    while i < events.len()
        invariant
            all == event_views(events@),
            mine == (|event: TokenEventView| in_scope(event, account@, from_ms, to_ms)),
            nobodys == (|event: TokenEventView|
                in_scope(event, LEGACY_ACCOUNT@, from_ms, to_ms)),
            i <= events@.len(),
            legacy == all.take(i as int).filter(nobodys).len(),
            legacy <= i,
            groups_of(groups@, all.take(i as int).filter(mine), prices@),
        decreases events@.len() - i,
    {
        let event = &events[i];
        proof {
            assert(all[i as int] == event@);
            assert(all.take(i + 1) =~= all.take(i as int).push(event@));
            filter_of_push(all.take(i as int), event@, mine);
            filter_of_push(all.take(i as int), event@, nobodys);
        }
        if is_in_scope(event, LEGACY_ACCOUNT, from_ms, to_ms) {
            legacy += 1;
        }
        if is_in_scope(event, account, from_ms, to_ms) {
            add_event(&mut groups, event, prices, Ghost(all.take(i as int).filter(mine)));
        }
        i += 1;
    }
    assert(all.take(all.len() as int) =~= all);
    let totals = total_of_groups(
        &groups,
        Ghost(scope(all, account@, from_ms, to_ms)),
        Ghost(prices@),
    );
    let warnings = warnings_for(legacy, &groups);
    UsageReport {
        from_ms,
        to_ms,
        files_scanned: 0,
        malformed_lines: 0,
        duplicate_events_skipped: 0,
        groups,
        totals,
        pricing_source: PRICE_SOURCE,
        pricing_verified_on: PRICE_VERIFIED_ON,
        pricing_version: PRICE_VERSION,
        warnings,
    }
}

/// Windows that meet share no event and lose none: what two reports on adjoining windows count
/// makes up what one report on both together counts.
pub proof fn adjoining_windows_make_up_the_whole(
    events: Seq<TokenEventView>,
    account: Seq<char>,
    from_ms: i64,
    middle_ms: i64,
    to_ms: i64,
    prices: Seq<PriceRule>,
    measure: Measure,
)
    requires
        from_ms <= middle_ms <= to_ms,
    ensures
        sum(scope(events, account, from_ms, to_ms), prices, measure) == sum(
            scope(events, account, from_ms, middle_ms),
            prices,
            measure,
        ) + sum(scope(events, account, middle_ms, to_ms), prices, measure),
    decreases events.len(),
{
    reveal(Seq::filter);
    if events.len() > 0 {
        let rest = events.drop_last();
        let event = events.last();
        adjoining_windows_make_up_the_whole(
            rest,
            account,
            from_ms,
            middle_ms,
            to_ms,
            prices,
            measure,
        );
        assert(rest.push(event) =~= events);
        sum_of_scope_push(rest, event, account, from_ms, to_ms, prices, measure);
        sum_of_scope_push(rest, event, account, from_ms, middle_ms, prices, measure);
        sum_of_scope_push(rest, event, account, middle_ms, to_ms, prices, measure);
    }
}

/// What an event adds to the sum over a window.
proof fn sum_of_scope_push(
    events: Seq<TokenEventView>,
    event: TokenEventView,
    account: Seq<char>,
    from_ms: i64,
    to_ms: i64,
    prices: Seq<PriceRule>,
    measure: Measure,
)
    ensures
        sum(scope(events.push(event), account, from_ms, to_ms), prices, measure) == sum(
            scope(events, account, from_ms, to_ms),
            prices,
            measure,
        ) + if in_scope(event, account, from_ms, to_ms) {
            amount(event.usage, event_price(event, prices) is Some, measure)
        } else {
            0
        },
{
    let keep = |event: TokenEventView| in_scope(event, account, from_ms, to_ms);
    filter_of_push(events, event, keep);
    assert(events.filter(keep).push(event).drop_last() =~= events.filter(keep));
}

/// Storing a report of one account changes nothing in the reports on another.
pub proof fn recording_leaves_other_reports_alone(
    events: Seq<TokenEventView>,
    report: TokenEventView,
    account: Seq<char>,
    from_ms: i64,
    to_ms: i64,
)
    requires
        report.account_key != account,
    ensures
        scope(ledger::recorded(events, report), account, from_ms, to_ms) == scope(
            events,
            account,
            from_ms,
            to_ms,
        ),
{
    let keep = |event: TokenEventView| in_scope(event, account, from_ms, to_ms);
    ledger::position_is_first(events, report.key());
    if ledger::holds(events, report.key()) {
        let at = ledger::position(events, report.key()) as int;
        ledger::update_outside_a_filter(events, at, events[at].after(report), keep);
    } else {
        filter_of_push(events, report, keep);
    }
}

/// Events that were not read in the log of their own session, as replayed ones, never count.
pub proof fn replayed_events_never_count(
    event: TokenEventView,
    account: Seq<char>,
    from_ms: i64,
    to_ms: i64,
)
    requires
        !event.is_native(),
    ensures
        !in_scope(event, account, from_ms, to_ms),
{
}

/// Each event counts either as priced or as not, and an input token by exactly one of the three
/// kinds of input.
pub proof fn quantities_add_up(events: Seq<TokenEventView>, prices: Seq<PriceRule>)
    ensures
        sum(events, prices, Measure::PricedEvents) + sum(events, prices, Measure::UnpricedEvents)
            == sum(events, prices, Measure::Events),
        sum(events, prices, Measure::UncachedInput) + sum(events, prices, Measure::CachedInput)
            + sum(events, prices, Measure::CacheWriteInput) == sum(events, prices, Measure::Input),
        sum(events, prices, Measure::Events) == events.len(),
        sum(events, prices, Measure::ReasoningOutput) <= sum(events, prices, Measure::Output),
    decreases events.len(),
{
    if events.len() > 0 {
        quantities_add_up(events.drop_last(), prices);
    }
}

/// What one event counts: its own counters, its input once as cached, written to the cache or
/// neither, and itself once as an event with a price or without.
pub proof fn an_event_counts_its_own_tokens(event: TokenEventView, prices: Seq<PriceRule>)
    ensures
        ({
            let one = seq![event];
            let usage = event.usage;
            let priced = event_price(event, prices) is Some;
            &&& sum(one, prices, Measure::Input) == usage.input
            &&& sum(one, prices, Measure::Output) == usage.output
            &&& sum(one, prices, Measure::Events) == 1
            &&& sum(one, prices, Measure::PricedEvents) == (if priced { 1nat } else { 0 })
            &&& sum(one, prices, Measure::UnpricedEvents) == (if priced { 0nat } else { 1 })
            &&& sum(one, prices, Measure::UnpricedInput) == (if priced { 0nat } else {
                usage.input as nat
            })
            &&& sum(one, prices, Measure::UnpricedOutput) == (if priced { 0nat } else {
                usage.output as nat
            })
            &&& usage.reasoning_output <= usage.output ==> sum(
                one,
                prices,
                Measure::ReasoningOutput,
            ) == usage.reasoning_output
            &&& usage.cached_input <= usage.input ==> sum(one, prices, Measure::CachedInput)
                == usage.cached_input
            &&& usage.cached_input + usage.cache_write_input <= usage.input ==> {
                &&& sum(one, prices, Measure::CacheWriteInput) == usage.cache_write_input
                &&& sum(one, prices, Measure::UncachedInput) == usage.input - usage.cached_input
                    - usage.cache_write_input
            }
        }),
{
    let one = seq![event];
    assert(one.drop_last() =~= Seq::<TokenEventView>::empty());
    assert(one.last() == event);
    reveal_with_fuel(sum, 2);
}

/// Sums run over every event once: those of two lists together are the two sums together, and
/// without events there is nothing.
pub proof fn sums_run_over_every_event(
    first: Seq<TokenEventView>,
    second: Seq<TokenEventView>,
    prices: Seq<PriceRule>,
    measure: Measure,
)
    ensures
        sum(first + second, prices, measure) == sum(first, prices, measure) + sum(
            second,
            prices,
            measure,
        ),
        sum(Seq::empty(), prices, measure) == 0,
    decreases second.len(),
{
    if second.len() == 0 {
        assert(first + second =~= first);
    } else {
        sums_run_over_every_event(first, second.drop_last(), prices, measure);
        assert((first + second).drop_last() =~= first + second.drop_last());
    }
}

/// Which events a report counts: the native ones of its account from the first moment of its window
/// to right before the last.
pub proof fn a_report_counts_the_accounts_events_in_its_window(
    events: Seq<TokenEventView>,
    account: Seq<char>,
    from_ms: i64,
    to_ms: i64,
    event: TokenEventView,
)
    ensures
        scope(events, account, from_ms, to_ms).contains(event) <==> events.contains(event)
            && event.provenance == "native"@ && event.account_key == account && from_ms
            <= event.usage_at_ms && event.usage_at_ms < to_ms,
    decreases events.len(),
{
    let keep = |event: TokenEventView| in_scope(event, account, from_ms, to_ms);
    reveal(Seq::filter);
    if events.len() > 0 {
        let rest = events.drop_last();
        let last = events.last();
        a_report_counts_the_accounts_events_in_its_window(rest, account, from_ms, to_ms, event);
        let (before, all) = (rest.filter(keep), events.filter(keep));
        if events.contains(event) && !rest.contains(event) {
            let i = choose|i: int| 0 <= i < events.len() && events[i] == event;
            assert(i < rest.len() ==> rest[i] == event);
            assert(event == last);
        }
        if rest.contains(event) {
            let i = choose|i: int| 0 <= i < rest.len() && rest[i] == event;
            assert(events[i] == event);
        }
        assert(events[events.len() - 1] == last);
        if keep(last) {
            assert(all == before.push(last));
            if before.contains(event) {
                let i = choose|i: int| 0 <= i < before.len() && before[i] == event;
                assert(all[i] == event);
            }
            if all.contains(event) && !before.contains(event) {
                let i = choose|i: int| 0 <= i < all.len() && all[i] == event;
                assert(i < before.len() ==> before[i] == event);
                assert(event == last);
            }
            assert(all[before.len() as int] == last);
        }
    }
}

/// Only events of the default service tier have a price, and it is the one of their model; an event
/// of another tier has none, whatever its model.
pub proof fn only_the_default_tier_is_priced(event: TokenEventView, prices: Seq<PriceRule>)
    ensures
        event.service_tier is None ==> event_price(event, prices) == pricing::price_of(
            prices,
            event.model,
        ),
        event.service_tier == Some("default"@) ==> event_price(event, prices) == pricing::price_of(
            prices,
            event.model,
        ),
        event.service_tier matches Some(tier) ==> tier != "default"@ ==> event_price(
            event,
            prices,
        ) is None,
{
}

/// What is charged is what was used: there is a charge for each event with a price and for no other,
/// by that price, and the tokens of the charges are the input and output of those events.
pub proof fn charges_are_for_the_tokens_that_were_used(
    events: Seq<TokenEventView>,
    prices: Seq<PriceRule>,
)
    ensures
        charges_of(events, prices).len() == sum(events, prices, Measure::PricedEvents),
        charged_input(charges_of(events, prices)) + sum(events, prices, Measure::UnpricedInput)
            == sum(events, prices, Measure::Input),
        charged_output(charges_of(events, prices)) + sum(events, prices, Measure::UnpricedOutput)
            == sum(events, prices, Measure::Output),
    decreases events.len(),
{
    if events.len() > 0 {
        charges_are_for_the_tokens_that_were_used(events.drop_last(), prices);
        let before = charges_of(events.drop_last(), prices);
        if let Some(charge) = charge_of(events.last(), prices) {
            assert(before.push(charge).drop_last() =~= before);
        }
    }
}

/// The input of charges.
pub open spec fn charged_input(charges: Seq<(int, TokenSplit)>) -> nat
    decreases charges.len(),
{
    if charges.len() == 0 {
        0
    } else {
        let split = charges.last().1;
        charged_input(charges.drop_last()) + split.uncached as nat + split.cached as nat
            + split.cache_write as nat
    }
}

/// The output of charges.
pub open spec fn charged_output(charges: Seq<(int, TokenSplit)>) -> nat
    decreases charges.len(),
{
    if charges.len() == 0 {
        0
    } else {
        charged_output(charges.drop_last()) + charges.last().1.output as nat
    }
}

/// An event is charged by the price of its model, divided as its own counters say, and as long
/// context exactly where its input lies above the threshold of that price.
pub proof fn an_event_is_charged_by_its_own_price(event: TokenEventView, prices: Seq<PriceRule>)
    ensures
        match charge_of(event, prices) {
            Some((price, split)) => {
                &&& event_price(event, prices) == Some(price)
                &&& split.output == event.usage.output
                &&& split.uncached + split.cached + split.cache_write == event.usage.input
                &&& split.cached <= event.usage.cached_input
                &&& split.cache_write <= event.usage.cache_write_input
                &&& split.long_context <==> (prices[price].long_context_threshold matches Some(
                    threshold,
                ) && event.usage.input > threshold)
            },
            None => event_price(event, prices) is None,
        },
{
}

/// Events stand in one group exactly where they agree in model, limit and service tier, and groups
/// come in the order of their models.
pub proof fn groups_are_by_model_limit_and_tier(left: TokenEventView, right: TokenEventView)
    ensures
        group_key(left) == group_key(right) <==> left.model == right.model && left.limit_id
            == right.limit_id && left.service_tier == right.service_tier,
        text::text_before(left.model, right.model) ==> key_before(
            group_key(left),
            group_key(right),
        ),
        left.model == right.model && left.limit_id is None && right.limit_id is Some ==> key_before(
            group_key(left),
            group_key(right),
        ),
{
}

/// A group is warned about exactly where none of its events has a price, and the warning names the
/// model.
pub proof fn unpriced_groups_are_warned_about(group: UsageGroup)
    ensures
        group_warning(group) is None <==> group.totals.priced_events > 0,
        group_warning(group) matches Some(warning) ==> text::occurs(warning, group.model@),
{
    if let Some(warning) = group_warning(group) {
        let model = group.model@;
        let (head, rest) = match text::opt_view(group.service_tier) {
            Some(tier) => if tier != "default"@ {
                (
                    "Model "@,
                    " service tier "@ + tier
                        + " is not priced; its tokens remain visible and are excluded from cost."@,
                )
            } else {
                ("No active price for model "@, "; its tokens are excluded from cost."@)
            },
            None => ("No active price for model "@, "; its tokens are excluded from cost."@),
        };
        assert(warning =~= head + model + rest);
        assert(warning.subrange(head.len() as int, (head.len() + model.len()) as int) =~= model);
        assert(text::occurs_at(warning, model, head.len() as int));
    }
}

/// The warnings of a report are those of its groups, one for each group that has one, behind one
/// about events without an account wherever there are such events.
pub proof fn warnings_are_those_of_the_groups(legacy: nat, groups: Seq<UsageGroup>, i: int)
    requires
        0 <= i < groups.len(),
    ensures
        group_warning(groups[i]) matches Some(warning) ==> warnings_of(legacy, groups).contains(
            warning,
        ),
        group_warnings(groups).len() <= groups.len(),
        legacy > 0 ==> warnings_of(legacy, groups).len() == 1 + group_warnings(groups).len()
            && warnings_of(legacy, groups)[0] == legacy_warning(legacy),
        legacy == 0 ==> warnings_of(legacy, groups) == group_warnings(groups),
    decreases groups.len(),
{
    let rest = groups.drop_last();
    let before = group_warnings(rest);
    if rest.len() > 0 {
        let k = if i < rest.len() {
            i
        } else {
            0
        };
        warnings_are_those_of_the_groups(legacy, rest, k);
        warnings_are_those_of_the_groups(0, rest, k);
    }
    if let Some(warning) = group_warning(groups[i]) {
        let all = group_warnings(groups);
        let at = if i < rest.len() {
            assert(rest[i] == groups[i]);
            assert(before.contains(warning));
            choose|a: int| 0 <= a < before.len() && before[a] == warning
        } else {
            before.len() as int
        };
        assert(all[at] == warning);
        let list = warnings_of(legacy, groups);
        if legacy > 0 {
            assert(list[at + 1] == warning);
        } else {
            assert(list[at] == warning);
        }
    }
}

/// Totals hold each quantity in its own field: every one that fits is the sum over the events.
pub proof fn totals_hold_each_quantity(
    totals: UsageTotals,
    events: Seq<TokenEventView>,
    prices: Seq<PriceRule>,
)
    requires
        totals_of(totals, events, prices),
    ensures
        sum(events, prices, Measure::Input) <= u64::MAX ==> totals.input_tokens == sum(
            events,
            prices,
            Measure::Input,
        ),
        sum(events, prices, Measure::UncachedInput) <= u64::MAX ==> totals.uncached_input_tokens
            == sum(events, prices, Measure::UncachedInput),
        sum(events, prices, Measure::CachedInput) <= u64::MAX ==> totals.cached_input_tokens == sum(
            events,
            prices,
            Measure::CachedInput,
        ),
        sum(events, prices, Measure::CacheWriteInput) <= u64::MAX
            ==> totals.cache_write_input_tokens == sum(events, prices, Measure::CacheWriteInput),
        sum(events, prices, Measure::Output) <= u64::MAX ==> totals.output_tokens == sum(
            events,
            prices,
            Measure::Output,
        ),
        sum(events, prices, Measure::ReasoningOutput) <= u64::MAX
            ==> totals.reasoning_output_tokens == sum(events, prices, Measure::ReasoningOutput),
        sum(events, prices, Measure::Events) <= u64::MAX ==> totals.events == events.len(),
        sum(events, prices, Measure::PricedEvents) <= u64::MAX ==> totals.priced_events == sum(
            events,
            prices,
            Measure::PricedEvents,
        ),
        sum(events, prices, Measure::UnpricedEvents) <= u64::MAX ==> totals.unpriced_events == sum(
            events,
            prices,
            Measure::UnpricedEvents,
        ),
        sum(events, prices, Measure::UnpricedInput) <= u64::MAX ==> totals.unpriced_input_tokens
            == sum(events, prices, Measure::UnpricedInput),
        sum(events, prices, Measure::UnpricedOutput) <= u64::MAX ==> totals.unpriced_output_tokens
            == sum(events, prices, Measure::UnpricedOutput),
{
    quantities_add_up(events, prices);
    assert(totals.get(Measure::Input) == totals.input_tokens);
    assert(totals.get(Measure::UncachedInput) == totals.uncached_input_tokens);
    assert(totals.get(Measure::CachedInput) == totals.cached_input_tokens);
    assert(totals.get(Measure::CacheWriteInput) == totals.cache_write_input_tokens);
    assert(totals.get(Measure::Output) == totals.output_tokens);
    assert(totals.get(Measure::ReasoningOutput) == totals.reasoning_output_tokens);
    assert(totals.get(Measure::Events) == totals.events);
    assert(totals.get(Measure::PricedEvents) == totals.priced_events);
    assert(totals.get(Measure::UnpricedEvents) == totals.unpriced_events);
    assert(totals.get(Measure::UnpricedInput) == totals.unpriced_input_tokens);
    assert(totals.get(Measure::UnpricedOutput) == totals.unpriced_output_tokens);
}

/// The groups of a report leave out no event and count none twice: an event stands in the group of
/// its model, limit and tier, that group holds the sums of all its events, and no two groups are for
/// the same.
pub proof fn groups_hold_every_event_once(
    groups: Seq<UsageGroup>,
    events: Seq<TokenEventView>,
    prices: Seq<PriceRule>,
    i: int,
) -> (g: int)
    requires
        groups_of(groups, events, prices),
        0 <= i < events.len(),
    ensures
        0 <= g < groups.len(),
        groups[g].model@ == events[i].model,
        text::opt_view(groups[g].limit_id) == events[i].limit_id,
        text::opt_view(groups[g].service_tier) == events[i].service_tier,
        forall|h: int|
            0 <= h < groups.len() && (#[trigger] groups[h]).model@ == events[i].model
                && text::opt_view(groups[h].limit_id) == events[i].limit_id && text::opt_view(
                groups[h].service_tier,
            ) == events[i].service_tier ==> h == g,
        totals_of(
            groups[g].totals,
            events.filter(
                |event: TokenEventView|
                    event.model == events[i].model && event.limit_id == events[i].limit_id
                        && event.service_tier == events[i].service_tier,
            ),
            prices,
        ),
{
    let key = group_key(events[i]);
    assert(has_group(groups, key));
    let g = choose|g: int| 0 <= g < groups.len() && (#[trigger] groups[g]).key() == key;
    assert forall|h: int|
        0 <= h < groups.len() && (#[trigger] groups[h]).model@ == events[i].model && text::opt_view(
            groups[h].limit_id,
        ) == events[i].limit_id && text::opt_view(groups[h].service_tier)
            == events[i].service_tier implies h == g by {
        assert(groups[h].key() == key);
        if h < g {
            assert(key_before(groups[h].key(), groups[g].key()));
        }
        if g < h {
            assert(key_before(groups[g].key(), groups[h].key()));
        }
        group_order_is_total(key, key);
    }
    assert(groups[g].sums_up(events, prices));
    let mine = |event: TokenEventView| group_key(event) == key;
    let alike = |event: TokenEventView|
        event.model == events[i].model && event.limit_id == events[i].limit_id
            && event.service_tier == events[i].service_tier;
    assert forall|event: TokenEventView| #[trigger] mine(event) == alike(event) by {
        groups_are_by_model_limit_and_tier(event, events[i]);
    }
    filters_that_agree(events, mine, alike);
    assert(group_events(events, key) == events.filter(mine));
    g
}

/// Filters that keep the same items keep the same lists.
proof fn filters_that_agree(
    events: Seq<TokenEventView>,
    left: spec_fn(TokenEventView) -> bool,
    right: spec_fn(TokenEventView) -> bool,
)
    requires
        forall|event: TokenEventView| #[trigger] left(event) == right(event),
    ensures
        events.filter(left) == events.filter(right),
    decreases events.len(),
{
    reveal(Seq::filter);
    if events.len() > 0 {
        filters_that_agree(events.drop_last(), left, right);
        assert(left(events.last()) == right(events.last()));
    }
}

/// The warning about events without an account says how many there are.
pub proof fn the_legacy_warning_says_how_many(count: nat)
    ensures
        text::has_prefix(legacy_warning(count), text::decimal(count)),
{
    let head = text::decimal(count);
    assert(legacy_warning(count).subrange(0, head.len() as int) =~= head);
}

/// Without any event every total is zero.
pub proof fn no_events_no_totals(prices: Seq<PriceRule>)
    ensures
        totals_of(UsageTotals::zero(), Seq::empty(), prices),
        UsageTotals::zero().events == 0,
        UsageTotals::zero().input_tokens == 0,
        UsageTotals::zero().output_tokens == 0,
{
}

/// A group charges for each of its events that has a price, one after the other, and for no other.
pub proof fn a_group_charges_for_its_events(
    groups: Seq<UsageGroup>,
    events: Seq<TokenEventView>,
    prices: Seq<PriceRule>,
    g: int,
)
    requires
        groups_of(groups, events, prices),
        0 <= g < groups.len(),
    ensures
        ({
            let mine = group_events(events, groups[g].key());
            &&& mine.len() > 0
            &&& groups[g].charges@.len() == sum(mine, prices, Measure::PricedEvents)
            &&& groups[g].charged() == charges_of(mine, prices)
        }),
{
    let mine = group_events(events, groups[g].key());
    assert(groups[g].sums_up(events, prices));
    priced_events_are_charged(mine, prices);
    assert(groups[g].charged().len() == groups[g].charges@.len());
}

/// There are as many charges as there are events with a price.
pub proof fn priced_events_are_charged(events: Seq<TokenEventView>, prices: Seq<PriceRule>)
    ensures
        charges_of(events, prices).len() == sum(events, prices, Measure::PricedEvents),
    decreases events.len(),
{
    if events.len() > 0 {
        priced_events_are_charged(events.drop_last(), prices);
    }
}

} // verus!
