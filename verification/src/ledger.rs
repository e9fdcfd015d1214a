//! The token ledger: one event for each new token report of an account's session.
use vstd::prelude::*;

use crate::text;
use crate::text::same_text;
use crate::usage::TokenUsage;

verus! {

/// The account under which events stand whose account was never confirmed.
pub const LEGACY_ACCOUNT: &'static str = "legacy-unknown";

/// A token report in the ledger. Its provenance is the stored word: `native` where it was read in the
/// log of its own session, and `legacy_replay` where it was read in a replay of it.
#[derive(Debug)]
pub struct TokenEvent {
    pub account_key: String,
    pub session_id: String,
    pub usage_at_ms: i64,
    pub reported_at_ms: i64,
    pub model: String,
    pub limit_id: Option<String>,
    pub service_tier: Option<String>,
    pub usage: TokenUsage,
    pub total: TokenUsage,
    pub source_path: String,
    pub provenance: String,
    pub ingested_at_ms: i64,
}

/// What an event says.
#[verifier::ext_equal]
pub struct TokenEventView {
    pub account_key: Seq<char>,
    pub session_id: Seq<char>,
    pub usage_at_ms: i64,
    pub reported_at_ms: i64,
    pub model: Seq<char>,
    pub limit_id: Option<Seq<char>>,
    pub service_tier: Option<Seq<char>>,
    pub usage: TokenUsage,
    pub total: TokenUsage,
    pub source_path: Seq<char>,
    pub provenance: Seq<char>,
    pub ingested_at_ms: i64,
}

impl View for TokenEvent {
    type V = TokenEventView;

    open spec fn view(&self) -> TokenEventView {
        TokenEventView {
            account_key: self.account_key@,
            session_id: self.session_id@,
            usage_at_ms: self.usage_at_ms,
            reported_at_ms: self.reported_at_ms,
            model: self.model@,
            limit_id: text::opt_view(self.limit_id),
            service_tier: text::opt_view(self.service_tier),
            usage: self.usage,
            total: self.total,
            source_path: self.source_path@,
            provenance: self.provenance@,
            ingested_at_ms: self.ingested_at_ms,
        }
    }
}

impl TokenEvent {
    /// Whether the event was read in the log of its own session.
    pub fn is_from_own_log(&self) -> (native: bool)
        ensures
            native == self@.is_native(),
    {
        same_text(self.provenance.as_str(), "native")
    }
}

impl TokenEventView {
    /// What tells an event from every other: its account, its session and the running total that
    /// it reports.
    pub open spec fn key(self) -> (Seq<char>, Seq<char>, TokenUsage) {
        (self.account_key, self.session_id, self.total)
    }

    /// Whether the event was read in the log of its own session.
    pub open spec fn is_native(self) -> bool {
        self.provenance == "native"@
    }

    /// Whether a report of the same event brings better times: both were read in the session's
    /// own log, and they disagree.
    pub open spec fn retimed_by(self, report: TokenEventView) -> bool {
        &&& self.is_native()
        &&& report.is_native()
        &&& self.usage_at_ms != report.usage_at_ms || self.reported_at_ms != report.reported_at_ms
    }

    /// The event after another report of it: at most its times change.
    pub open spec fn after(self, report: TokenEventView) -> TokenEventView {
        if self.retimed_by(report) {
            TokenEventView {
                usage_at_ms: report.usage_at_ms,
                reported_at_ms: report.reported_at_ms,
                ingested_at_ms: report.ingested_at_ms,
                ..self
            }
        } else {
            self
        }
    }

    /// The event but for the times that a later report may correct.
    pub open spec fn untimed(self) -> TokenEventView {
        TokenEventView { usage_at_ms: 0, reported_at_ms: 0, ingested_at_ms: 0, ..self }
    }
}

/// What storing a report does to the ledger.
#[derive(Clone, Copy, Debug, PartialEq, Eq, Structural)]
pub enum StoreAction {
    /// It is a new event.
    Insert,
    /// It corrects the times of the event that is there.
    Retime,
    /// It changes nothing.
    Keep,
}

/// What storing a report does, where `known` is the event with the same key.
pub open spec fn action_of(known: Option<TokenEventView>, report: TokenEventView) -> StoreAction {
    match known {
        Some(known) => if known.retimed_by(report) {
            StoreAction::Retime
        } else {
            StoreAction::Keep
        },
        None => StoreAction::Insert,
    }
}

/// What storing a report does, where `known` is the event with the same key.
pub fn store_action(known: Option<&TokenEvent>, report: &TokenEvent) -> (action: StoreAction)
    ensures
        action == action_of(
            match known {
                Some(known) => Some(known@),
                None => None,
            },
            report@,
        ),
{
    match known {
        Some(known) => if known.is_from_own_log() && report.is_from_own_log() && (known.usage_at_ms
            != report.usage_at_ms || known.reported_at_ms != report.reported_at_ms) {
            StoreAction::Retime
        } else {
            StoreAction::Keep
        },
        None => StoreAction::Insert,
    }
}

/// Where the first event with a key stands; the number of events where there is none.
pub open spec fn position(
    events: Seq<TokenEventView>,
    key: (Seq<char>, Seq<char>, TokenUsage),
) -> nat
    decreases events.len(),
{
    if events.len() == 0 {
        0
    } else if events[0].key() == key {
        0
    } else {
        1 + position(events.drop_first(), key)
    }
}

/// The position of a key is that of the first event which has it.
pub proof fn position_is_first(
    events: Seq<TokenEventView>,
    key: (Seq<char>, Seq<char>, TokenUsage),
)
    ensures
        position(events, key) <= events.len(),
        position(events, key) < events.len() ==> events[position(events, key) as int].key() == key,
        forall|i: int| 0 <= i < position(events, key) ==> (#[trigger] events[i]).key() != key,
    decreases events.len(),
{
    if events.len() > 0 && events[0].key() != key {
        let rest = events.drop_first();
        position_is_first(rest, key);
        assert forall|i: int| 0 <= i < position(events, key) implies (#[trigger] events[i]).key()
            != key by {
            if i > 0 {
                assert(rest[i - 1] == events[i]);
            }
        }
        assert(position(events, key) < events.len() ==> rest[position(events, key) - 1]
            == events[position(events, key) as int]);
    }
}

/// Whether a ledger holds an event with a key.
pub open spec fn holds(
    events: Seq<TokenEventView>,
    key: (Seq<char>, Seq<char>, TokenUsage),
) -> bool {
    position(events, key) < events.len()
}

/// Whether no two events of a ledger have the same key.
pub open spec fn keys_differ(events: Seq<TokenEventView>) -> bool {
    forall|i: int, j: int|
        0 <= i < j < events.len() ==> (#[trigger] events[i]).key() != (#[trigger] events[j]).key()
}

/// The event with a key.
pub open spec fn known_event(
    events: Seq<TokenEventView>,
    key: (Seq<char>, Seq<char>, TokenUsage),
) -> Option<TokenEventView> {
    if holds(events, key) {
        Some(events[position(events, key) as int])
    } else {
        None
    }
}

/// The ledger after storing a report.
pub open spec fn recorded(events: Seq<TokenEventView>, report: TokenEventView) -> Seq<
    TokenEventView,
> {
    let at = position(events, report.key()) as int;
    if holds(events, report.key()) {
        events.update(at, events[at].after(report))
    } else {
        events.push(report)
    }
}

/// The ledger after storing reports one after the other.
pub open spec fn recorded_all(
    events: Seq<TokenEventView>,
    reports: Seq<TokenEventView>,
) -> Seq<TokenEventView>
    decreases reports.len(),
{
    if reports.len() == 0 {
        events
    } else {
        recorded(recorded_all(events, reports.drop_last()), reports.last())
    }
}

/// The events of one account.
pub open spec fn of_account(events: Seq<TokenEventView>, account: Seq<char>) -> Seq<TokenEventView> {
    events.filter(|event: TokenEventView| event.account_key == account)
}

/// The events of a ledger, in the order in which they came.
#[derive(Debug)]
pub struct Ledger {
    pub events: Vec<TokenEvent>,
}

impl View for Ledger {
    type V = Seq<TokenEventView>;

    open spec fn view(&self) -> Seq<TokenEventView> {
        self.events@.map_values(|event: TokenEvent| event@)
    }
}

impl Ledger {
    /// No two events of the ledger have the same key.
    pub open spec fn wf(self) -> bool {
        keys_differ(self@)
    }

    /// An empty ledger.
    pub fn new() -> (ledger: Ledger)
        ensures
            ledger.wf(),
            ledger@ == Seq::<TokenEventView>::empty(),
    {
        let ledger = Ledger { events: Vec::new() };
        assert(ledger@ =~= Seq::<TokenEventView>::empty());
        ledger
    }

    /// Where the event with the key of a report stands; the number of events where there is none.
    fn position_of(&self, report: &TokenEvent) -> (at: usize)
        ensures
            at == position(self@, report@.key()),
    {
        let ghost key = report@.key();
        let mut i: usize = 0;
        assert(self@.skip(0) =~= self@);
        while i < self.events.len()
            invariant
                key == report@.key(),
                i <= self.events@.len(),
                position(self@, key) == i + position(self@.skip(i as int), key),
            decreases self.events@.len() - i,
        {
            let ghost rest = self@.skip(i as int);
            proof {
                assert(rest[0] == self.events@[i as int]@);
                assert(rest.drop_first() =~= self@.skip(i + 1));
            }
            if same_event(&self.events[i], report) {
                return i;
            }
            i += 1;
        }
        i
    }

    /// Stores a report, and says whether that changed the ledger.
    pub fn record(&mut self, report: TokenEvent) -> (changed: bool)
        requires
            old(self).wf(),
        ensures
            final(self).wf(),
            final(self)@ == recorded(old(self)@, report@),
            changed == (action_of(known_event(old(self)@, report@.key()), report@)
                != StoreAction::Keep),
    {
        let ghost before = self@;
        let ghost key = report@.key();
        let i: usize = self.position_of(&report);
        proof {
            position_is_first(before, key);
            recording_keeps_keys_apart(before, report@);
        }
        if i == self.events.len() {
            self.events.push(report);
            assert(self@ =~= before.push(report@));
            return true;
        }
        match store_action(Some(&self.events[i]), &report) {
            StoreAction::Retime => {
                self.events[i].usage_at_ms = report.usage_at_ms;
                self.events[i].reported_at_ms = report.reported_at_ms;
                self.events[i].ingested_at_ms = report.ingested_at_ms;
                assert(self@ =~= before.update(i as int, before[i as int].after(report@)));
                true
            },
            _ => {
                assert(before.update(i as int, before[i as int]) =~= before);
                false
            },
        }
    }
}

/// Whether two events have the same key.
pub fn same_event(left: &TokenEvent, right: &TokenEvent) -> (same: bool)
    ensures
        same == (left@.key() == right@.key()),
{
    same_text(left.account_key.as_str(), right.account_key.as_str()) && same_text(
        left.session_id.as_str(),
        right.session_id.as_str(),
    ) && left.total == right.total
}

/// Storing a report keeps the keys of the ledger apart.
pub proof fn recording_keeps_keys_apart(events: Seq<TokenEventView>, report: TokenEventView)
    requires
        keys_differ(events),
    ensures
        keys_differ(recorded(events, report)),
{
    position_is_first(events, report.key());
    let after = recorded(events, report);
    assert forall|i: int, j: int| 0 <= i < j < after.len() implies (#[trigger] after[i]).key() != (
    #[trigger] after[j]).key() by {
        if j < events.len() {
            assert(events[i].key() != events[j].key());
        }
    }
}

/// A report that is stored leaves the ledger holding its event.
pub proof fn recorded_event_is_held(events: Seq<TokenEventView>, report: TokenEventView)
    ensures
        holds(recorded(events, report), report.key()),
{
    let after = recorded(events, report);
    position_is_first(events, report.key());
    position_is_first(after, report.key());
    if holds(events, report.key()) {
        let at = position(events, report.key()) as int;
        assert(after[at].key() == report.key());
    } else {
        assert(after[events.len() as int].key() == report.key());
    }
}

/// Storing a report never loses an event.
pub proof fn recording_loses_nothing(
    events: Seq<TokenEventView>,
    report: TokenEventView,
    key: (Seq<char>, Seq<char>, TokenUsage),
)
    requires
        holds(events, key),
    ensures
        holds(recorded(events, report), key),
{
    let after = recorded(events, report);
    position_is_first(events, key);
    position_is_first(events, report.key());
    position_is_first(after, key);
    assert(after[position(events, key) as int].key() == key);
}

/// Storing the same report a second time changes nothing.
pub proof fn recording_twice_is_recording_once(events: Seq<TokenEventView>, report: TokenEventView)
    ensures
        recorded(recorded(events, report), report) == recorded(events, report),
{
    let after = recorded(events, report);
    position_is_first(events, report.key());
    position_is_first(after, report.key());
    let at = position(after, report.key()) as int;
    if holds(events, report.key()) {
        let first = position(events, report.key()) as int;
        assert(after[first].key() == report.key());
        assert(at <= first);
        assert(at == first) by {
            if at < first {
                assert(events[at].key() != report.key());
                assert(after[at] == events[at]);
            }
        }
    } else {
        assert(after[events.len() as int].key() == report.key());
        assert(at == events.len()) by {
            if at < events.len() {
                assert(events[at].key() != report.key());
                assert(after[at] == events[at]);
            }
        }
    }
    assert(recorded(after, report) =~= after);
}

/// A report that was not read in the session's own log changes no event that the ledger holds.
pub proof fn replay_changes_no_known_event(events: Seq<TokenEventView>, report: TokenEventView)
    requires
        !report.is_native(),
        holds(events, report.key()),
    ensures
        recorded(events, report) == events,
{
    position_is_first(events, report.key());
    assert(recorded(events, report) =~= events);
}

/// Storing a report of one account changes nothing about the events of another.
pub proof fn recording_leaves_other_accounts_alone(
    events: Seq<TokenEventView>,
    report: TokenEventView,
    account: Seq<char>,
)
    requires
        report.account_key != account,
    ensures
        of_account(recorded(events, report), account) == of_account(events, account),
{
    let mine = |event: TokenEventView| event.account_key == account;
    position_is_first(events, report.key());
    if holds(events, report.key()) {
        let at = position(events, report.key()) as int;
        let changed = events[at].after(report);
        assert(!mine(events[at]) && !mine(changed));
        update_outside_a_filter(events, at, changed, mine);
    } else {
        reveal(Seq::filter);
        assert(events.push(report).drop_last() =~= events);
    }
}

/// Changing an item that a filter drops, to one that it drops too, keeps what the filter keeps.
pub proof fn update_outside_a_filter(
    events: Seq<TokenEventView>,
    at: int,
    event: TokenEventView,
    keep: spec_fn(TokenEventView) -> bool,
)
    requires
        0 <= at < events.len(),
        !keep(events[at]),
        !keep(event),
    ensures
        events.update(at, event).filter(keep) == events.filter(keep),
    decreases events.len(),
{
    reveal(Seq::filter);
    let after = events.update(at, event);
    if at == events.len() - 1 {
        assert(after.drop_last() =~= events.drop_last());
    } else {
        assert(after.drop_last() =~= events.drop_last().update(at, event));
        update_outside_a_filter(events.drop_last(), at, event, keep);
    }
}

/// Events that were stored once add nothing when they are all stored again, as when a log is read
/// anew from its start: the ledger has the same events in the same places, and at most their
/// times are corrected.
pub proof fn recording_all_again_adds_nothing(
    events: Seq<TokenEventView>,
    reports: Seq<TokenEventView>,
)
    ensures
        ({
            let once = recorded_all(events, reports);
            let again = recorded_all(once, reports);
            &&& again.len() == once.len()
            &&& forall|i: int|
                0 <= i < once.len() ==> (#[trigger] again[i]).untimed() == once[i].untimed()
        }),
{
    let once = recorded_all(events, reports);
    assert forall|i: int| 0 <= i < reports.len() implies holds(
        once,
        (#[trigger] reports[i]).key(),
    ) by {
        all_recorded_are_held(events, reports, i);
    }
    recording_held_events_adds_nothing(once, reports);
}

/// Every event that was stored is held afterwards.
pub proof fn all_recorded_are_held(events: Seq<TokenEventView>, reports: Seq<TokenEventView>, i: int)
    requires
        0 <= i < reports.len(),
    ensures
        holds(recorded_all(events, reports), reports[i].key()),
    decreases reports.len(),
{
    let before = recorded_all(events, reports.drop_last());
    if i == reports.len() - 1 {
        recorded_event_is_held(before, reports.last());
    } else {
        all_recorded_are_held(events, reports.drop_last(), i);
        recording_loses_nothing(before, reports.last(), reports[i].key());
    }
}

/// Storing reports of events that are all held adds none: at most their times are corrected.
pub proof fn recording_held_events_adds_nothing(
    events: Seq<TokenEventView>,
    reports: Seq<TokenEventView>,
)
    requires
        forall|i: int| 0 <= i < reports.len() ==> holds(events, (#[trigger] reports[i]).key()),
    ensures
        recorded_all(events, reports).len() == events.len(),
        forall|i: int|
            0 <= i < events.len() ==> (#[trigger] recorded_all(events, reports)[i]).untimed()
                == events[i].untimed(),
    decreases reports.len(),
{
    if reports.len() > 0 {
        let earlier = reports.drop_last();
        assert forall|i: int| 0 <= i < earlier.len() implies holds(
            events,
            (#[trigger] earlier[i]).key(),
        ) by {
            assert(earlier[i] == reports[i]);
        }
        recording_held_events_adds_nothing(events, earlier);
        let before = recorded_all(events, earlier);
        let key = reports.last().key();
        assert(holds(events, reports[reports.len() - 1].key()));
        position_is_first(events, key);
        position_is_first(before, key);
        let at = position(events, key) as int;
        assert(before[at].untimed() == events[at].untimed());
        assert(before[at].key() == before[at].untimed().key());
        assert(events[at].key() == events[at].untimed().key());
        assert(before[at].key() == key);
        let after = recorded_all(events, reports);
        let changed = position(before, key) as int;
        assert(before[changed].after(reports.last()).untimed() == before[changed].untimed());
        assert forall|i: int| 0 <= i < events.len() implies (#[trigger] after[i]).untimed()
            == events[i].untimed() by {
            assert(before[i].untimed() == events[i].untimed());
        }
    }
}

/// What storing a report does to each event. A report with a new account, session or total is added
/// behind all others, as it is. Else nothing is added, and of the event that it repeats at most the
/// times change, to those of the report, where both were read in the session's own log.
pub proof fn recording_adds_or_retimes(events: Seq<TokenEventView>, report: TokenEventView, i: int)
    requires
        keys_differ(events),
        0 <= i < events.len(),
    ensures
        ({
            let after = recorded(events, report);
            let repeats = |event: TokenEventView|
                event.account_key == report.account_key && event.session_id == report.session_id
                    && event.total == report.total;
            &&& (forall|j: int| 0 <= j < events.len() ==> !repeats(#[trigger] events[j]))
                ==> after.len() == events.len() + 1 && after[events.len() as int] == report
            &&& (exists|j: int| 0 <= j < events.len() && repeats(#[trigger] events[j]))
                ==> after.len() == events.len()
            &&& !repeats(events[i]) ==> after[i] == events[i]
            &&& repeats(events[i]) ==> {
                &&& after[i].account_key == events[i].account_key
                &&& after[i].session_id == events[i].session_id
                &&& after[i].model == events[i].model
                &&& after[i].limit_id == events[i].limit_id
                &&& after[i].service_tier == events[i].service_tier
                &&& after[i].usage == events[i].usage
                &&& after[i].total == events[i].total
                &&& after[i].source_path == events[i].source_path
                &&& after[i].provenance == events[i].provenance
                &&& if events[i].provenance == "native"@ && report.provenance == "native"@ {
                    &&& after[i].usage_at_ms == report.usage_at_ms
                    &&& after[i].reported_at_ms == report.reported_at_ms
                    &&& after[i].usage_at_ms != events[i].usage_at_ms || after[i].reported_at_ms
                        != events[i].reported_at_ms ==> after[i].ingested_at_ms
                        == report.ingested_at_ms
                    &&& after[i].usage_at_ms == events[i].usage_at_ms && after[i].reported_at_ms
                        == events[i].reported_at_ms ==> after[i].ingested_at_ms
                        == events[i].ingested_at_ms
                } else {
                    after[i] == events[i]
                }
            }
        }),
{
    let key = report.key();
    position_is_first(events, key);
    let at = position(events, key) as int;
    if events[i].key() == key && at < events.len() {
        assert(i == at) by {
            if i < at {
                assert(events[i].key() != key);
            } else if at < i {
                assert(events[at].key() != events[i].key());
            }
        }
    }
    assert forall|j: int|
        0 <= j < events.len() && (#[trigger] events[j]).account_key == report.account_key
            && events[j].session_id == report.session_id && events[j].total
            == report.total implies at < events.len() by {
        assert(events[j].key() == key);
        if at == events.len() {
            assert(events[j].key() != key);
        }
    }
    if at < events.len() {
        assert(events[at].account_key == report.account_key);
    }
}

/// The first report in an empty ledger is its only event, as it is.
pub proof fn first_report_is_the_only_event(report: TokenEventView)
    ensures
        recorded(Seq::empty(), report) == seq![report],
{
    assert(recorded(Seq::empty(), report) =~= seq![report]);
}

/// Storing a report is said to change the ledger exactly where it does.
pub proof fn a_change_is_told_where_there_is_one(
    events: Seq<TokenEventView>,
    report: TokenEventView,
)
    ensures
        action_of(known_event(events, report.key()), report) == StoreAction::Keep ==> recorded(
            events,
            report,
        ) == events,
        action_of(known_event(events, report.key()), report) != StoreAction::Keep ==> recorded(
            events,
            report,
        ) != events,
{
    let after = recorded(events, report);
    position_is_first(events, report.key());
    let at = position(events, report.key()) as int;
    if holds(events, report.key()) {
        if !events[at].retimed_by(report) {
            assert(after =~= events);
        } else {
            assert(after[at] != events[at]);
        }
    } else {
        assert(after.len() == events.len() + 1);
    }
}



} // verus!
