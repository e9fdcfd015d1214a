//! A session with the App Server: what each of its messages asks for, and how the session ends.
use vstd::prelude::*;

use crate::account;
use crate::account::account_identity;
use crate::account::AccountIdentity;
use crate::account::IdentityView;
use crate::history::Snapshot;
use crate::history::SnapshotView;
use crate::history::QUOTA_OBSERVATION_SCHEMA_VERSION;
use crate::json;
use crate::json::Document;
use crate::json::Json;
use crate::json::JsonView;
use crate::official;
use crate::official::official_usage;
use crate::official::OfficialUsage;
use crate::official::UsageView;
use crate::quota;
use crate::quota::select_weekly_window;
use crate::quota::weekly_candidates;
use crate::quota::ReadingView;
use crate::quota::WindowReading;
use crate::text;
use crate::text::contains_text;
use crate::text::decimal_text;
use crate::text::is_text;
use crate::text::lower;
use crate::text::trim;

verus! {

/// What an error of the App Server is about.
#[derive(Clone, Copy, Debug, PartialEq, Eq, Structural)]
pub enum RateLimitErrorClass {
    Authentication,
    RateLimited,
    Server,
    Other,
}

/// Whether a text speaks of an HTTP status, in quotes or after the word.
pub open spec fn speaks_of_status(text: Seq<char>, status: nat) -> bool {
    ||| text::occurs(text, "\""@ + text::decimal(status) + "\""@)
    ||| text::occurs(text, "status "@ + text::decimal(status))
}

/// Whether a text speaks of a rejected identity.
pub open spec fn speaks_of_authentication(text: Seq<char>) -> bool {
    ||| text::occurs(text, "token_invalidated"@)
    ||| text::occurs(text, "unauthorized"@)
    ||| text::occurs(text, "authentication"@)
    ||| text::occurs(text, "\"401\""@)
    ||| text::occurs(text, "status 401"@)
}

/// Whether a text speaks of too many requests.
pub open spec fn speaks_of_rate_limit(text: Seq<char>) -> bool {
    ||| text::occurs(text, "rate_limit"@)
    ||| text::occurs(text, "rate limit"@)
    ||| text::occurs(text, "too many requests"@)
    ||| text::occurs(text, "\"429\""@)
    ||| text::occurs(text, "status 429"@)
}

/// Whether a text speaks of a failing server.
pub open spec fn speaks_of_server(text: Seq<char>) -> bool {
    exists|status: nat| 500 <= status <= 599 && #[trigger] speaks_of_status(text, status)
}

/// What an error is about, by its text in any case.
pub open spec fn class_of(error: Seq<char>) -> RateLimitErrorClass {
    let text = text::lowered(error);
    if speaks_of_authentication(text) {
        RateLimitErrorClass::Authentication
    } else if speaks_of_rate_limit(text) {
        RateLimitErrorClass::RateLimited
    } else if speaks_of_server(text) {
        RateLimitErrorClass::Server
    } else {
        RateLimitErrorClass::Other
    }
}

/// Whether a text speaks of a failing server.
fn mentions_server(text: &str) -> (found: bool)
    ensures
        found == speaks_of_server(text@),
{
    let mut status: u64 = 500;
    while status <= 599
        invariant
            500 <= status <= 600,
            forall|earlier: nat|
                500 <= earlier < status ==> !#[trigger] speaks_of_status(text@, earlier),
        decreases 600 - status,
    {
        let number = decimal_text(status);
        let mut quoted = "\"".to_owned();
        quoted.append(number.as_str());
        quoted.append("\"");
        let mut spelled = "status ".to_owned();
        spelled.append(number.as_str());
        if contains_text(text, quoted.as_str()) || contains_text(text, spelled.as_str()) {
            assert(speaks_of_status(text@, status as nat));
            return true;
        }
        assert(!speaks_of_status(text@, status as nat));
        status += 1;
    }
    false
}

/// What an error is about, by its text.
pub fn classify_error_text(error: &str) -> (class: RateLimitErrorClass)
    ensures
        class == class_of(error@),
{
    let text = lower(error);
    let text = text.as_str();
    if contains_text(text, "token_invalidated") || contains_text(text, "unauthorized")
        || contains_text(text, "authentication") || contains_text(text, "\"401\"")
        || contains_text(text, "status 401") {
        RateLimitErrorClass::Authentication
    } else if contains_text(text, "rate_limit") || contains_text(text, "rate limit")
        || contains_text(text, "too many requests") || contains_text(text, "\"429\"")
        || contains_text(text, "status 429") {
        RateLimitErrorClass::RateLimited
    } else if mentions_server(text) {
        RateLimitErrorClass::Server
    } else {
        RateLimitErrorClass::Other
    }
}

/// What an error is about.
pub fn classify_rate_limit_error(error: &Document) -> (class: RateLimitErrorClass)
    ensures
        class == class_of(json::json_rendered(error@)),
{
    classify_error_text(error.text().as_str())
}

/// The seconds after which a value says to try again: its milliseconds rounded up, or else its
/// seconds.
pub open spec fn retry_in(value: JsonView) -> Option<u64> {
    match json::found_unsigned(
        json::either(value.member("retryAfterMs"@), value.member("retry_after_ms"@)),
    ) {
        Some(milliseconds) => Some(
            if milliseconds + 999 <= u64::MAX {
                ((milliseconds + 999) / 1000) as u64
            } else {
                (u64::MAX / 1000) as u64
            },
        ),
        None => json::found_unsigned(
            json::either(value.member("retryAfter"@), value.member("retry_after"@)),
        ),
    }
}

/// The seconds after which an error says to try again, itself or in its data.
pub open spec fn retry_after(error: JsonView) -> Option<u64> {
    match retry_in(error) {
        Some(seconds) => Some(seconds),
        None => match error.member("data"@) {
            Some(data) => retry_in(data),
            None => None,
        },
    }
}

/// The unsigned integer in a value.
fn unsigned_of(found: Option<&Json>) -> (number: Option<u64>)
    ensures
        number == json::found_unsigned(json::opt_json(found)),
{
    match found {
        Some(value) => value.as_u64(),
        None => None,
    }
}

/// The seconds after which a value says to try again.
fn seconds_in(value: &Json) -> (seconds: Option<u64>)
    ensures
        seconds == retry_in(value@),
{
    match unsigned_of(value.get_either("retryAfterMs", "retry_after_ms")) {
        Some(milliseconds) => Some(milliseconds.saturating_add(999) / 1000),
        None => unsigned_of(value.get_either("retryAfter", "retry_after")),
    }
}

/// The seconds after which an error says to try again.
pub fn retry_after_seconds(error: &Json) -> (seconds: Option<u64>)
    ensures
        seconds == retry_after(error@),
{
    match seconds_in(error) {
        Some(seconds) => Some(seconds),
        None => match error.get("data") {
            Some(data) => seconds_in(data),
            None => None,
        },
    }
}

/// Why a session ended.
#[derive(Clone, Copy, Debug, PartialEq, Eq, Structural)]
pub enum SessionFailureKind {
    Authentication,
    RateLimited,
    Transient,
}

/// How a session ended.
#[derive(Debug)]
pub struct SessionFailure {
    pub kind: SessionFailureKind,
    pub message: String,
    pub had_success: bool,
    pub suggested_retry_seconds: Option<u64>,
}

/// How a session ended.
#[verifier::ext_equal]
pub struct FailureView {
    pub kind: SessionFailureKind,
    pub message: Seq<char>,
    pub had_success: bool,
    pub suggested_retry_seconds: Option<u64>,
}

impl View for SessionFailure {
    type V = FailureView;

    open spec fn view(&self) -> FailureView {
        FailureView {
            kind: self.kind,
            message: self.message@,
            had_success: self.had_success,
            suggested_retry_seconds: self.suggested_retry_seconds,
        }
    }
}

/// A failure that suggests no time to try again.
pub open spec fn plain_failure(
    kind: SessionFailureKind,
    message: Seq<char>,
    had_success: bool,
) -> FailureView {
    FailureView { kind, message, had_success, suggested_retry_seconds: None }
}

/// A failure that suggests no time to try again.
pub fn session_failure(kind: SessionFailureKind, message: String, had_success: bool) -> (failure:
    SessionFailure)
    ensures
        failure@ == plain_failure(kind, message@, had_success),
{
    SessionFailure { kind, message, had_success, suggested_retry_seconds: None }
}

/// What made the session read the rate limits.
#[derive(Clone, Copy, Debug, PartialEq, Eq, Structural)]
pub enum ReadSource {
    Initial,
    Notification,
    Fallback,
}

impl ReadSource {
    /// The word that is stored for a source.
    pub open spec fn word(self) -> Seq<char> {
        match self {
            ReadSource::Initial => "initial"@,
            ReadSource::Notification => "notification"@,
            ReadSource::Fallback => "fallback"@,
        }
    }

    /// The word that is stored for a source.
    pub fn as_str(self) -> (word: &'static str)
        ensures
            word@ == self.word(),
    {
        match self {
            ReadSource::Initial => "initial",
            ReadSource::Notification => "notification",
            ReadSource::Fallback => "fallback",
        }
    }
}

/// Something to be done for the session.
#[derive(Debug)]
pub enum Action {
    /// Count a notification.
    CountNotification,
    /// Store an account and make it the active one.
    StoreAccount(AccountIdentity),
    /// Count a read and ask for the account's usage under this number.
    ReadUsage(u64),
    /// Count a read and ask for the rate limits under this number.
    ReadLimits(u64),
    /// Store the usage of an account.
    StoreUsage(String, OfficialUsage),
    /// Weigh the windows of a reply: measure how far they are from a week.
    Weigh(Vec<WindowReading>, ReadSource, String),
    /// Write a line to the log.
    Log(String),
}

/// Something to be done for the session.
#[verifier::ext_equal]
pub enum ActionView {
    CountNotification,
    StoreAccount(IdentityView),
    ReadUsage(u64),
    ReadLimits(u64),
    StoreUsage(Seq<char>, UsageView),
    Weigh(Seq<ReadingView>, ReadSource, Seq<char>),
    Log(Seq<char>),
}

impl View for Action {
    type V = ActionView;

    open spec fn view(&self) -> ActionView {
        match self {
            Action::CountNotification => ActionView::CountNotification,
            Action::StoreAccount(identity) => ActionView::StoreAccount(identity@),
            Action::ReadUsage(id) => ActionView::ReadUsage(*id),
            Action::ReadLimits(id) => ActionView::ReadLimits(*id),
            Action::StoreUsage(account, usage) => ActionView::StoreUsage(account@, usage@),
            Action::Weigh(windows, source, raw_json) => ActionView::Weigh(
                quota::reading_views(windows@),
                *source,
                raw_json@,
            ),
            Action::Log(line) => ActionView::Log(line@),
        }
    }
}

/// What is to be done: the actions in their order, and then the end of the session where it ends.
#[derive(Debug)]
pub struct Step {
    pub actions: Vec<Action>,
    pub failure: Option<SessionFailure>,
}

/// What is to be done.
#[verifier::ext_equal]
pub struct StepView {
    pub actions: Seq<ActionView>,
    pub failure: Option<FailureView>,
}

impl View for Step {
    type V = StepView;

    open spec fn view(&self) -> StepView {
        StepView {
            actions: self.actions@.map_values(|action: Action| action@),
            failure: match self.failure {
                Some(failure) => Some(failure@),
                None => None,
            },
        }
    }
}

/// A step that goes on with these actions.
pub open spec fn goes_on(actions: Seq<ActionView>) -> StepView {
    StepView { actions, failure: None }
}

/// A step that ends the session at once.
pub open spec fn ends(failure: FailureView) -> StepView {
    StepView { actions: Seq::empty(), failure: Some(failure) }
}

/// A session: which requests wait for their reply, and whose account it is.
#[derive(Debug)]
pub struct Session {
    pub next_id: u64,
    pub pending_account: Option<u64>,
    pub pending_usage: Option<u64>,
    pub pending_read: Option<(u64, ReadSource)>,
    pub current_account: Option<AccountIdentity>,
    pub successful_reads: u64,
}

/// What a session knows.
#[verifier::ext_equal]
pub struct SessionView {
    pub next_id: u64,
    pub pending_account: Option<u64>,
    pub pending_usage: Option<u64>,
    pub pending_read: Option<(u64, ReadSource)>,
    pub current_account: Option<IdentityView>,
    pub successful_reads: u64,
}

impl View for Session {
    type V = SessionView;

    open spec fn view(&self) -> SessionView {
        SessionView {
            next_id: self.next_id,
            pending_account: self.pending_account,
            pending_usage: self.pending_usage,
            pending_read: self.pending_read,
            current_account: account::opt_identity(self.current_account),
            successful_reads: self.successful_reads,
        }
    }
}

impl SessionView {
    /// The session right after it asked for the account.
    pub open spec fn begun() -> SessionView {
        SessionView {
            next_id: 3,
            pending_account: Some(2),
            pending_usage: None,
            pending_read: None,
            current_account: None,
            successful_reads: 0,
        }
    }

    /// Requests that wait have numbers of their own, nothing but the account is asked for before
    /// the account is known, and the account is not asked for once it is.
    pub open spec fn wf(self) -> bool {
        &&& self.current_account is Some ==> self.pending_account is None
        &&& self.pending_account matches Some(id) ==> id < self.next_id
        &&& self.pending_usage matches Some(id) ==> id < self.next_id
            && self.current_account is Some && self.pending_account != Some(id)
        &&& self.pending_read matches Some((id, _)) ==> id < self.next_id
            && self.current_account is Some && self.pending_account != Some(id)
            && self.pending_usage != Some(id)
    }

    /// Whether there are numbers left for the requests of one more step.
    pub open spec fn has_room(self) -> bool {
        self.next_id <= u64::MAX - 2
    }

    /// Whether the session has read the rate limits.
    pub open spec fn had_success(self) -> bool {
        self.successful_reads > 0
    }

    /// The session after asking for the rate limits.
    pub open spec fn reading_limits(self, source: ReadSource) -> SessionView {
        SessionView {
            pending_read: Some((self.next_id, source)),
            next_id: (self.next_id + 1) as u64,
            ..self
        }
    }

    /// The session after asking for the usage.
    pub open spec fn reading_usage(self) -> SessionView {
        SessionView {
            pending_usage: Some(self.next_id),
            next_id: (self.next_id + 1) as u64,
            ..self
        }
    }

    /// The failure of this session.
    pub open spec fn failing(self, kind: SessionFailureKind, message: Seq<char>) -> FailureView {
        plain_failure(kind, message, self.had_success())
    }
}

/// A notification that the rate limits changed: it is counted, and they are read unless a read is
/// waiting already.
pub open spec fn after_notification(state: SessionView) -> (SessionView, StepView) {
    if state.current_account is Some && state.pending_read is None {
        (
            state.reading_limits(ReadSource::Notification),
            goes_on(
                seq![ActionView::CountNotification, ActionView::ReadLimits(state.next_id)],
            ),
        )
    } else {
        (state, goes_on(seq![ActionView::CountNotification]))
    }
}

/// The reply to the question for the account: with the account known, its usage and its rate limits
/// are read.
pub open spec fn after_account_reply(state: SessionView, message: JsonView) -> (
    SessionView,
    StepView,
) {
    let asked = SessionView { pending_account: None, ..state };
    match message.member("error"@) {
        Some(error) => (
            asked,
            ends(
                state.failing(SessionFailureKind::Authentication, json::json_rendered(error)),
            ),
        ),
        None => match message.member("result"@) {
            Some(result) => match account::identity_of(result) {
                Ok(identity) => (
                    SessionView {
                        current_account: Some(identity),
                        ..asked
                    }.reading_usage().reading_limits(ReadSource::Initial),
                    goes_on(
                        seq![
                            ActionView::StoreAccount(identity),
                            ActionView::ReadUsage(state.next_id),
                            ActionView::ReadLimits((state.next_id + 1) as u64),
                        ],
                    ),
                ),
                Err(error) => (
                    asked,
                    ends(state.failing(SessionFailureKind::Authentication, error)),
                ),
            },
            None => (
                asked,
                ends(
                    state.failing(
                        SessionFailureKind::Authentication,
                        "account/read returned no result"@,
                    ),
                ),
            ),
        },
    }
}

/// The reply to the question for the usage: it is stored. An error ends the session only where it
/// rejects the identity.
pub open spec fn after_usage_reply(state: SessionView, message: JsonView) -> (
    SessionView,
    StepView,
) {
    let asked = SessionView { pending_usage: None, ..state };
    match message.member("error"@) {
        Some(error) => {
            let said = json::json_rendered(error);
            if class_of(said) == RateLimitErrorClass::Authentication {
                (asked, ends(state.failing(SessionFailureKind::Authentication, said)))
            } else {
                (
                    asked,
                    goes_on(seq![ActionView::Log("account usage read unavailable: "@ + said)]),
                )
            }
        },
        None => match (message.member("result"@), state.current_account) {
            (Some(result), Some(identity)) => (
                asked,
                goes_on(
                    seq![
                        ActionView::StoreUsage(
                            identity.account_key,
                            official::usage_of(result),
                        ),
                    ],
                ),
            ),
            _ => (asked, goes_on(Seq::empty())),
        },
    }
}

/// How a session ends on an error about the rate limits.
pub open spec fn kind_of(class: RateLimitErrorClass) -> SessionFailureKind {
    match class {
        RateLimitErrorClass::Authentication => SessionFailureKind::Authentication,
        RateLimitErrorClass::RateLimited => SessionFailureKind::RateLimited,
        _ => SessionFailureKind::Transient,
    }
}

/// The reply to the question for the rate limits: its windows are weighed. Any error ends the
/// session, and says when to try again where there were too many requests.
pub open spec fn after_limits_reply(
    state: SessionView,
    source: ReadSource,
    message: JsonView,
) -> (SessionView, StepView) {
    let asked = SessionView { pending_read: None, ..state };
    match message.member("error"@) {
        Some(error) => {
            let said = json::json_rendered(error);
            let kind = kind_of(class_of(said));
            (
                asked,
                StepView {
                    actions: seq![ActionView::Log("rate-limit read rejected: "@ + said)],
                    failure: Some(
                        FailureView {
                            suggested_retry_seconds: if kind == SessionFailureKind::RateLimited {
                                retry_after(error)
                            } else {
                                None
                            },
                            ..state.failing(kind, said)
                        },
                    ),
                },
            )
        },
        None => match message.member("result"@) {
            Some(result) => match quota::candidates_of(result) {
                Ok(windows) => (
                    asked,
                    goes_on(
                        seq![ActionView::Weigh(windows, source, json::json_rendered(result))],
                    ),
                ),
                Err(error) => (
                    asked,
                    goes_on(seq![ActionView::Log("unable to parse rate limits: "@ + error)]),
                ),
            },
            None => (
                asked,
                ends(
                    state.failing(
                        SessionFailureKind::Transient,
                        "rate-limit read returned no result"@,
                    ),
                ),
            ),
        },
    }
}

/// A message of the App Server.
pub open spec fn after_message(state: SessionView, message: JsonView) -> (SessionView, StepView) {
    let method = message.text_member("method"@);
    if method == Some("account/updated"@) {
        (
            state,
            ends(
                state.failing(
                    SessionFailureKind::Authentication,
                    "account identity changed; rebuilding the App Server session"@,
                ),
            ),
        )
    } else if method == Some("account/rateLimits/updated"@) {
        after_notification(state)
    } else {
        match message.unsigned_member("id"@) {
            Some(id) => if state.pending_account == Some(id) {
                after_account_reply(state, message)
            } else if state.pending_usage == Some(id) {
                after_usage_reply(state, message)
            } else {
                match state.pending_read {
                    Some((read, source)) => if read == id {
                        after_limits_reply(state, source, message)
                    } else {
                        (state, goes_on(Seq::empty()))
                    },
                    None => (state, goes_on(Seq::empty())),
                }
            },
            None => (state, goes_on(Seq::empty())),
        }
    }
}

/// A while without messages: what is not being read already is read again.
pub open spec fn after_timeout(state: SessionView) -> (SessionView, StepView) {
    let read = state.current_account is Some && state.pending_read is None;
    let middle = if read {
        state.reading_limits(ReadSource::Fallback)
    } else {
        state
    };
    let first = if read {
        seq![ActionView::ReadLimits(state.next_id)]
    } else {
        Seq::empty()
    };
    if state.current_account is Some && state.pending_usage is None {
        (middle.reading_usage(), goes_on(first.push(ActionView::ReadUsage(middle.next_id))))
    } else {
        (middle, goes_on(first))
    }
}

/// What comes of the windows of a reply once they are weighed.
#[derive(Debug)]
pub enum Weighed {
    /// A snapshot to store.
    Observed(Snapshot),
    /// A line for the log: the reply shows no weekly window.
    Unreadable(String),
    /// The end of the session.
    Failed(SessionFailure),
}

/// What comes of the windows of a reply.
#[verifier::ext_equal]
pub enum WeighedView {
    Observed(SnapshotView),
    Unreadable(Seq<char>),
    Failed(FailureView),
}

impl View for Weighed {
    type V = WeighedView;

    open spec fn view(&self) -> WeighedView {
        match self {
            Weighed::Observed(snapshot) => WeighedView::Observed(snapshot@),
            Weighed::Unreadable(line) => WeighedView::Unreadable(line@),
            Weighed::Failed(failure) => WeighedView::Failed(failure@),
        }
    }
}

/// The snapshot of a window, under the account of the session and with its plan where the window
/// names none.
pub open spec fn snapshot_of(
    window: ReadingView,
    identity: IdentityView,
    source: ReadSource,
    raw_json: Seq<char>,
    observed_at_ms: i64,
    collector_version: Seq<char>,
) -> SnapshotView {
    SnapshotView {
        account_key: identity.account_key,
        observed_at_ms,
        used_percent_bits: window.used_percent_bits,
        reset_at_ms: window.reset_at_ms,
        duration_minutes_bits: window.duration_minutes_bits,
        limit_id: window.limit_id,
        plan: quota::text_or(window.plan, identity.plan),
        source: source.word(),
        raw_json,
        observation_schema_version: QUOTA_OBSERVATION_SCHEMA_VERSION,
        collector_version,
    }
}

/// What comes of the weekly window of a reply, or of its lack.
pub open spec fn weighed(
    state: SessionView,
    window: Result<ReadingView, Seq<char>>,
    source: ReadSource,
    raw_json: Seq<char>,
    observed_at_ms: i64,
    collector_version: Seq<char>,
) -> WeighedView {
    match window {
        Ok(window) => match state.current_account {
            Some(identity) => WeighedView::Observed(
                snapshot_of(
                    window,
                    identity,
                    source,
                    raw_json,
                    observed_at_ms,
                    collector_version,
                ),
            ),
            None => WeighedView::Failed(
                state.failing(
                    SessionFailureKind::Authentication,
                    "quota read completed without an account partition"@,
                ),
            ),
        },
        Err(error) => WeighedView::Unreadable("unable to parse rate limits: "@ + error),
    }
}

/// A text in front of another.
fn prefixed(prefix: &str, text: &str) -> (line: String)
    ensures
        line@ == prefix@ + text@,
{
    let mut line = prefix.to_owned();
    line.append(text);
    line
}

/// A step without actions that goes on.
fn go_on() -> (step: Step)
    ensures
        step@ == goes_on(Seq::empty()),
{
    let step = Step { actions: Vec::new(), failure: None };
    assert(step@ =~= goes_on(Seq::empty()));
    step
}

/// A step with one action that goes on.
fn go_on_with(action: Action) -> (step: Step)
    ensures
        step@ == goes_on(seq![action@]),
{
    let ghost said = action@;
    let step = Step { actions: vec![action], failure: None };
    assert(step@ =~= goes_on(seq![said]));
    step
}

/// A step that ends the session at once.
fn end(failure: SessionFailure) -> (step: Step)
    ensures
        step@ == ends(failure@),
{
    let ghost said = failure@;
    let step = Step { actions: Vec::new(), failure: Some(failure) };
    assert(step@ =~= ends(said));
    step
}

impl Session {
    /// Begins a session: it asks for the account under the number that is returned.
    pub fn start() -> (begun: (Session, u64))
        ensures
            begun.0@ == SessionView::begun(),
            begun.0@.wf(),
            begun.1 == 2,
    {
        (
            Session {
                next_id: 3,
                pending_account: Some(2),
                pending_usage: None,
                pending_read: None,
                current_account: None,
                successful_reads: 0,
            },
            2,
        )
    }

    /// Whether there are numbers left for the requests of one more step.
    pub fn has_room(&self) -> (room: bool)
        ensures
            room == self@.has_room(),
    {
        self.next_id <= 18_446_744_073_709_551_613
    }

    /// The failure of this session.
    fn failure(&self, kind: SessionFailureKind, message: String) -> (failure: SessionFailure)
        ensures
            failure@ == self@.failing(kind, message@),
    {
        session_failure(kind, message, self.successful_reads > 0)
    }

    /// Takes a notification that the rate limits changed.
    fn on_notification(&mut self) -> (step: Step)
        requires
            old(self)@.wf(),
            old(self)@.has_room(),
        ensures
            final(self)@.wf(),
            (final(self)@, step@) == after_notification(old(self)@),
    {
        if self.current_account.is_some() && self.pending_read.is_none() {
            let id = self.next_id;
            self.pending_read = Some((id, ReadSource::Notification));
            self.next_id = id + 1;
            let step = Step {
                actions: vec![Action::CountNotification, Action::ReadLimits(id)],
                failure: None,
            };
            assert(step@ =~= goes_on(
                seq![ActionView::CountNotification, ActionView::ReadLimits(id)],
            ));
            step
        } else {
            go_on_with(Action::CountNotification)
        }
    }

    /// Takes the reply to the question for the account.
    fn on_account_reply(&mut self, message: &Document) -> (step: Step)
        requires
            old(self)@.wf(),
            old(self)@.has_room(),
        ensures
            final(self)@.wf(),
            (final(self)@, step@) == after_account_reply(old(self)@, message@),
    {
        self.pending_account = None;
        if let Some(error) = message.member_text("error") {
            return end(self.failure(SessionFailureKind::Authentication, error));
        }
        let result = match message.json().get("result") {
            Some(result) => result,
            None => {
                return end(
                    self.failure(
                        SessionFailureKind::Authentication,
                        "account/read returned no result".to_owned(),
                    ),
                );
            },
        };
        match account_identity(result) {
            Ok(identity) => {
                let id = self.next_id;
                let copy = identity.copy();
                let ghost said = identity@;
                self.current_account = Some(identity);
                self.pending_usage = Some(id);
                self.pending_read = Some((id + 1, ReadSource::Initial));
                self.next_id = id + 2;
                let step = Step {
                    actions: vec![
                        Action::StoreAccount(copy),
                        Action::ReadUsage(id),
                        Action::ReadLimits(id + 1),
                    ],
                    failure: None,
                };
                assert(step@ =~= goes_on(
                    seq![
                        ActionView::StoreAccount(said),
                        ActionView::ReadUsage(id),
                        ActionView::ReadLimits((id + 1) as u64),
                    ],
                ));
                step
            },
            Err(error) => end(self.failure(SessionFailureKind::Authentication, error)),
        }
    }

    /// Takes the reply to the question for the usage.
    fn on_usage_reply(&mut self, message: &Document) -> (step: Step)
        requires
            old(self)@.wf(),
        ensures
            final(self)@.wf(),
            (final(self)@, step@) == after_usage_reply(old(self)@, message@),
    {
        self.pending_usage = None;
        if let Some(error) = message.member_text("error") {
            if classify_error_text(error.as_str()) == RateLimitErrorClass::Authentication {
                return end(self.failure(SessionFailureKind::Authentication, error));
            }
            return go_on_with(
                Action::Log(prefixed("account usage read unavailable: ", error.as_str())),
            );
        }
        if let (Some(usage), Some(identity)) = (official_usage(message), &self.current_account) {
            return go_on_with(Action::StoreUsage(identity.account_key.clone(), usage));
        }
        go_on()
    }

    /// Takes the reply to the question for the rate limits.
    fn on_limits_reply(&mut self, source: ReadSource, message: &Document) -> (step: Step)
        requires
            old(self)@.wf(),
        ensures
            final(self)@.wf(),
            (final(self)@, step@) == after_limits_reply(old(self)@, source, message@),
    {
        self.pending_read = None;
        if let (Some(said), Some(error)) = (
            message.member_text("error"),
            message.json().get("error"),
        ) {
            let kind = match classify_error_text(said.as_str()) {
                RateLimitErrorClass::Authentication => SessionFailureKind::Authentication,
                RateLimitErrorClass::RateLimited => SessionFailureKind::RateLimited,
                _ => SessionFailureKind::Transient,
            };
            let line = prefixed("rate-limit read rejected: ", said.as_str());
            let ghost logged = line@;
            let mut failure = self.failure(kind, said);
            if kind == SessionFailureKind::RateLimited {
                failure.suggested_retry_seconds = retry_after_seconds(error);
            }
            let ghost expected = failure@;
            let step = Step { actions: vec![Action::Log(line)], failure: Some(failure) };
            assert(step@ =~= StepView {
                actions: seq![ActionView::Log(logged)],
                failure: Some(expected),
            });
            return step;
        }
        if let (Some(raw_json), Some(result)) = (
            message.member_text("result"),
            message.json().get("result"),
        ) {
            return match weekly_candidates(result) {
                Ok(windows) => go_on_with(Action::Weigh(windows, source, raw_json)),
                Err(error) => go_on_with(
                    Action::Log(prefixed("unable to parse rate limits: ", error.as_str())),
                ),
            };
        }
        end(
            self.failure(
                SessionFailureKind::Transient,
                "rate-limit read returned no result".to_owned(),
            ),
        )
    }

    /// Takes a message of the App Server.
    pub fn on_message(&mut self, message: &Document) -> (step: Step)
        requires
            old(self)@.wf(),
            old(self)@.has_room(),
        ensures
            final(self)@.wf(),
            (final(self)@, step@) == after_message(old(self)@, message@),
    {
        let method = message.json().get_str("method");
        if is_text(method, "account/updated") {
            return end(
                self.failure(
                    SessionFailureKind::Authentication,
                    "account identity changed; rebuilding the App Server session".to_owned(),
                ),
            );
        }
        if is_text(method, "account/rateLimits/updated") {
            return self.on_notification();
        }
        let id = match message.json().get_u64("id") {
            Some(id) => id,
            None => {
                return go_on();
            },
        };
        if self.pending_account == Some(id) {
            return self.on_account_reply(message);
        }
        if self.pending_usage == Some(id) {
            return self.on_usage_reply(message);
        }
        if let Some((read, source)) = self.pending_read {
            if read == id {
                return self.on_limits_reply(source, message);
            }
        }
        go_on()
    }

    /// Takes a while without messages.
    pub fn on_timeout(&mut self) -> (step: Step)
        requires
            old(self)@.wf(),
            old(self)@.has_room(),
        ensures
            final(self)@.wf(),
            (final(self)@, step@) == after_timeout(old(self)@),
    {
        let mut actions: Vec<Action> = Vec::new();
        let ghost mut said: Seq<ActionView> = Seq::empty();
        if self.current_account.is_some() && self.pending_read.is_none() {
            let id = self.next_id;
            self.pending_read = Some((id, ReadSource::Fallback));
            self.next_id = id + 1;
            actions.push(Action::ReadLimits(id));
            proof {
                said = seq![ActionView::ReadLimits(id)];
            }
        }
        if self.current_account.is_some() && self.pending_usage.is_none() {
            let id = self.next_id;
            self.pending_usage = Some(id);
            self.next_id = id + 1;
            actions.push(Action::ReadUsage(id));
            proof {
                said = said.push(ActionView::ReadUsage(id));
            }
        }
        let step = Step { actions, failure: None };
        assert(step@ =~= goes_on(said));
        step
    }

    /// Takes a line of the App Server that holds no message: it is logged, and nothing else.
    pub fn on_invalid(&self, error: &str) -> (step: Step)
        ensures
            step@ == goes_on(seq![ActionView::Log("invalid App Server message: "@ + error@)]),
    {
        go_on_with(Action::Log(prefixed("invalid App Server message: ", error)))
    }

    /// Takes the end of the connection.
    pub fn on_closed(&self) -> (failure: SessionFailure)
        ensures
            failure@ == self@.failing(
                SessionFailureKind::Transient,
                "App Server connection closed"@,
            ),
    {
        self.failure(SessionFailureKind::Transient, "App Server connection closed".to_owned())
    }

    /// Takes the end of the thread that reads the connection.
    pub fn on_disconnected(&self) -> (failure: SessionFailure)
        ensures
            failure@ == self@.failing(SessionFailureKind::Transient, "App Server reader stopped"@),
    {
        self.failure(SessionFailureKind::Transient, "App Server reader stopped".to_owned())
    }

    /// Takes the failure of an action.
    pub fn on_action_failed(&self, error: String) -> (failure: SessionFailure)
        ensures
            failure@ == self@.failing(SessionFailureKind::Transient, error@),
    {
        self.failure(SessionFailureKind::Transient, error)
    }

    /// Takes the windows of a reply once they are weighed: `distances` holds the bits of their
    /// distances from a week, and `gap` those of the difference between the two closest ones.
    pub fn on_weighed(
        &self,
        candidates: Vec<WindowReading>,
        distances: &Vec<u64>,
        gap: Option<u64>,
        source: ReadSource,
        raw_json: String,
        observed_at_ms: i64,
        collector_version: String,
    ) -> (outcome: Weighed)
        requires
            candidates@.len() == distances@.len(),
        ensures
            outcome@ == weighed(
                self@,
                quota::weekly_window(quota::reading_views(candidates@), distances@, gap),
                source,
                raw_json@,
                observed_at_ms,
                collector_version@,
            ),
    {
        match select_weekly_window(candidates, distances, gap) {
            Ok(window) => match &self.current_account {
                Some(identity) => Weighed::Observed(
                    Snapshot {
                        account_key: identity.account_key.clone(),
                        observed_at_ms,
                        used_percent_bits: window.used_percent_bits,
                        reset_at_ms: window.reset_at_ms,
                        duration_minutes_bits: window.duration_minutes_bits,
                        limit_id: window.limit_id,
                        plan: match window.plan {
                            Some(plan) => Some(plan),
                            None => text::copy_optional_text(&identity.plan),
                        },
                        source: source.as_str().to_owned(),
                        raw_json,
                        observation_schema_version: QUOTA_OBSERVATION_SCHEMA_VERSION,
                        collector_version,
                    },
                ),
                None => Weighed::Failed(
                    self.failure(
                        SessionFailureKind::Authentication,
                        "quota read completed without an account partition".to_owned(),
                    ),
                ),
            },
            Err(error) => Weighed::Unreadable(
                prefixed("unable to parse rate limits: ", error.as_str()),
            ),
        }
    }

    /// Counts a snapshot that was taken.
    pub fn on_snapshot_taken(&mut self)
        requires
            old(self)@.wf(),
        ensures
            final(self)@.wf(),
            final(self)@ == (SessionView {
                successful_reads: if old(self)@.successful_reads < u64::MAX {
                    (old(self)@.successful_reads + 1) as u64
                } else {
                    u64::MAX
                },
                ..old(self)@
            }),
            final(self)@.had_success(),
    {
        self.successful_reads = self.successful_reads.saturating_add(1);
    }
}

/// What a line of the App Server means while it is being initialized.
#[derive(Debug)]
pub enum Handshake {
    /// It is ready.
    Ready,
    /// The line is about something else.
    Waiting,
    /// It cannot be used.
    Failed(String),
}

/// Whether a message answers the initialization.
pub open spec fn answers_initialization(message: JsonView) -> bool {
    message.unsigned_member("id"@) == Some(1u64)
}

/// Takes a message while the App Server is being initialized.
pub fn on_handshake_message(message: &Document) -> (outcome: Handshake)
    ensures
        if !answers_initialization(message@) {
            outcome is Waiting
        } else if message@.member("error"@) is Some {
            outcome matches Handshake::Failed(error) && error@
                == "App Server rejected initialization: "@ + json::json_rendered(message@)
        } else {
            outcome is Ready
        },
{
    match message.json().get_u64("id") {
        Some(id) => if id != 1 {
            return Handshake::Waiting;
        },
        None => {
            return Handshake::Waiting;
        },
    }
    if message.json().get("error").is_some() {
        Handshake::Failed(
            prefixed("App Server rejected initialization: ", message.text().as_str()),
        )
    } else {
        Handshake::Ready
    }
}

/// Takes a line while the App Server is being initialized.
pub fn on_handshake_line(line: &str) -> (outcome: Handshake)
    ensures
        match json::json_parsed(text::trimmed(line@)) {
            Ok(message) => if !answers_initialization(message) {
                outcome is Waiting
            } else if message.member("error"@) is Some {
                outcome matches Handshake::Failed(error) && error@
                    == "App Server rejected initialization: "@ + json::json_rendered(message)
            } else {
                outcome is Ready
            },
            Err(why) => outcome matches Handshake::Failed(error) && error@
                == "invalid App Server initialization response: "@ + why,
        },
{
    match Document::parse(trim(line)) {
        Ok(message) => on_handshake_message(&message),
        Err(error) => Handshake::Failed(
            prefixed("invalid App Server initialization response: ", error.as_str()),
        ),
    }
}

/// The message that a line of the App Server holds, or why it holds none.
pub fn message_of_line(line: &str) -> (message: Result<Document, String>)
    ensures
        match message {
            Ok(message) => json::json_parsed(text::trimmed(line@)) == Ok::<
                JsonView,
                Seq<char>,
            >(message@),
            Err(error) => json::json_parsed(text::trimmed(line@)) == Err::<JsonView, Seq<char>>(
                error@,
            ),
        },
{
    Document::parse(trim(line))
}

/// The numbers under which actions ask.
pub open spec fn is_request(action: ActionView, id: u64) -> bool {
    action == ActionView::ReadUsage(id) || action == ActionView::ReadLimits(id)
}

/// Every request has a number that no earlier request of the session had, and no two requests of
/// one step have the same.
pub proof fn requests_have_new_numbers(state: SessionView, message: JsonView)
    requires
        state.wf(),
        state.has_room(),
    ensures
        ({
            let (after, step) = after_message(state, message);
            &&& after.wf()
            &&& state.next_id <= after.next_id
            &&& forall|i: int, id: u64|
                0 <= i < step.actions.len() && #[trigger] is_request(step.actions[i], id)
                    ==> state.next_id <= id < after.next_id
            &&& forall|i: int, j: int, id: u64|
                0 <= i < j < step.actions.len() && #[trigger] is_request(step.actions[i], id)
                    ==> !#[trigger] is_request(step.actions[j], id)
        }),
{
}

/// The same holds for the requests after a while without messages.
pub proof fn fallback_requests_have_new_numbers(state: SessionView)
    requires
        state.wf(),
        state.has_room(),
    ensures
        ({
            let (after, step) = after_timeout(state);
            &&& after.wf()
            &&& state.next_id <= after.next_id
            &&& forall|i: int, id: u64|
                0 <= i < step.actions.len() && #[trigger] is_request(step.actions[i], id)
                    ==> state.next_id <= id < after.next_id
            &&& forall|i: int, j: int, id: u64|
                0 <= i < j < step.actions.len() && #[trigger] is_request(step.actions[i], id)
                    ==> !#[trigger] is_request(step.actions[j], id)
        }),
{
}

/// Nothing is written for an account that is not known: windows are weighed and usage is stored
/// only under the account that the session has, and no session without one asks for more than the
/// account itself.
pub proof fn nothing_is_read_without_an_account(state: SessionView, message: JsonView)
    requires
        state.wf(),
        state.has_room(),
        state.current_account is None,
    ensures
        ({
            let (after, step) = after_message(state, message);
            forall|i: int|
                0 <= i < step.actions.len() ==> match #[trigger] step.actions[i] {
                    ActionView::StoreUsage(_, _) | ActionView::Weigh(_, _, _) => false,
                    ActionView::ReadUsage(_) | ActionView::ReadLimits(_) => after.current_account
                        is Some && step.actions[0] == ActionView::StoreAccount(
                        after.current_account->Some_0,
                    ),
                    _ => true,
                }
        }),
{
}

/// The account of a session never changes: a message that names another one ends the session.
pub proof fn account_stays_the_same(state: SessionView, message: JsonView)
    requires
        state.wf(),
        state.has_room(),
        state.current_account is Some,
    ensures
        ({
            let (after, _) = after_message(state, message);
            after.current_account == state.current_account && after.pending_account is None
        }),
{
}

/// A reply that nothing waits for is passed over, and so is every message that is neither a reply
/// nor one of the two notifications.
pub proof fn unasked_replies_are_passed_over(state: SessionView, message: JsonView)
    requires
        message.text_member("method"@) != Some("account/updated"@),
        message.text_member("method"@) != Some("account/rateLimits/updated"@),
        message.unsigned_member("id"@) matches Some(id) ==> state.pending_account != Some(id)
            && state.pending_usage != Some(id) && (state.pending_read matches Some((read, _))
            ==> read != id),
    ensures
        after_message(state, message) == (state, goes_on(Seq::empty())),
{
}

/// Errors are told apart by their words, in whatever case: a word about a rejected identity decides
/// first, then one about too many requests, then a status of a failing server; any other error is
/// about something else.
pub proof fn errors_are_told_apart_by_their_words(error: Seq<char>, status: nat)
    ensures
        ({
            let text = text::lowered(error);
            let rejected = text::occurs(text, "token_invalidated"@) || text::occurs(
                text,
                "unauthorized"@,
            ) || text::occurs(text, "authentication"@) || text::occurs(text, "\"401\""@)
                || text::occurs(text, "status 401"@);
            let too_many = text::occurs(text, "rate_limit"@) || text::occurs(text, "rate limit"@)
                || text::occurs(text, "too many requests"@) || text::occurs(text, "\"429\""@)
                || text::occurs(text, "status 429"@);
            &&& rejected <==> class_of(error) == RateLimitErrorClass::Authentication
            &&& !rejected && too_many <==> class_of(error) == RateLimitErrorClass::RateLimited
            &&& !rejected && !too_many && 500 <= status <= 599 && (text::occurs(
                text,
                "\""@ + text::decimal(status) + "\""@,
            ) || text::occurs(text, "status "@ + text::decimal(status))) ==> class_of(error)
                == RateLimitErrorClass::Server
            &&& class_of(error) == RateLimitErrorClass::Server ==> exists|code: nat|
                500 <= code <= 599 && #[trigger] speaks_of_status(text, code)
        }),
        speaks_of_status(error, status) <==> text::occurs(
            error,
            "\""@ + text::decimal(status) + "\""@,
        ) || text::occurs(error, "status "@ + text::decimal(status)),
{
    let text = text::lowered(error);
    if text::occurs(text, "\""@ + text::decimal(status) + "\""@) || text::occurs(
        text,
        "status "@ + text::decimal(status),
    ) {
        assert(speaks_of_status(text, status));
    }
}

/// Milliseconds to wait are rounded up to whole seconds, seconds are taken as they are, and
/// milliseconds go before seconds.
pub proof fn a_wait_is_never_rounded_down(value: JsonView)
    ensures
        ({
            let precise = match value.member("retryAfterMs"@) {
                Some(found) => found.unsigned(),
                None => value.unsigned_member("retry_after_ms"@),
            };
            let coarse = match value.member("retryAfter"@) {
                Some(found) => found.unsigned(),
                None => value.unsigned_member("retry_after"@),
            };
            &&& precise matches Some(milliseconds) ==> retry_in(value) matches Some(seconds) && (
            milliseconds <= u64::MAX - 999 ==> seconds * 1000 >= milliseconds && seconds * 1000
                < milliseconds + 1000)
            &&& precise is None ==> retry_in(value) == coarse
        }),
        retry_in(value) is Some ==> retry_after(value) == retry_in(value),
        retry_in(value) is None ==> match value.member("data"@) {
            Some(data) => retry_after(value) == retry_in(data),
            None => retry_after(value) is None,
        },
{
}

/// Whether a message is the reply to a request.
pub open spec fn is_reply(message: JsonView, id: u64) -> bool {
    &&& message.unsigned_member("id"@) == Some(id)
    &&& message.text_member("method"@) != Some("account/updated"@)
    &&& message.text_member("method"@) != Some("account/rateLimits/updated"@)
}

/// Whether a step ends the session for this reason and does nothing else.
pub open spec fn only_ends(step: StepView, kind: SessionFailureKind) -> bool {
    step.actions.len() == 0 && (step.failure matches Some(failure) && failure.kind == kind
        && failure.suggested_retry_seconds is None)
}

/// The account that the App Server names is stored before anything else is asked for: first its usage,
/// then its limits, each under a new number. Without an account the session ends as rejected, and
/// nothing is stored or asked for.
pub proof fn the_account_comes_first(state: SessionView, message: JsonView, id: u64)
    requires
        state.wf(),
        state.has_room(),
        state.pending_account == Some(id),
        is_reply(message, id),
    ensures
        ({
            let (after, step) = after_message(state, message);
            &&& after.pending_account is None
            &&& message.member("error"@) is Some || message.member("result"@) is None ==> only_ends(
                step,
                SessionFailureKind::Authentication,
            ) && after.current_account == state.current_account
            &&& message.member("error"@) is None ==> (message.member("result"@) matches Some(result)
                ==> match account::identity_of(result) {
                Ok(identity) => {
                    &&& step.failure is None
                    &&& step.actions.len() == 3
                    &&& step.actions[0] == ActionView::StoreAccount(identity)
                    &&& step.actions[1] == ActionView::ReadUsage(state.next_id)
                    &&& step.actions[2] == ActionView::ReadLimits((state.next_id + 1) as u64)
                    &&& after.current_account == Some(identity)
                    &&& after.pending_usage == Some(state.next_id)
                    &&& after.pending_read == Some(
                        ((state.next_id + 1) as u64, ReadSource::Initial),
                    )
                    &&& after.next_id == state.next_id + 2
                },
                Err(_) => only_ends(step, SessionFailureKind::Authentication)
                    && after.current_account == state.current_account,
            })
            &&& step.failure matches Some(failure) ==> failure.had_success == (
            state.successful_reads > 0)
            &&& after.successful_reads == state.successful_reads
        }),
{
}

/// Usage that was asked for is stored under the session's account as the reply states it. An error
/// ends the session only where it rejects the identity; else it is logged and nothing is stored.
pub proof fn usage_is_stored_for_the_sessions_account(
    state: SessionView,
    message: JsonView,
    id: u64,
)
    requires
        state.wf(),
        state.pending_usage == Some(id),
        is_reply(message, id),
    ensures
        ({
            let (after, step) = after_message(state, message);
            &&& after == (SessionView { pending_usage: None, ..state })
            &&& message.member("error"@) is None ==> step.failure is None && match message.member(
                "result"@,
            ) {
                Some(result) => step.actions.len() == 1 && step.actions[0]
                    == ActionView::StoreUsage(
                    state.current_account->Some_0.account_key,
                    official::usage_of(result),
                ),
                None => step.actions.len() == 0,
            }
            &&& message.member("error"@) matches Some(error) ==> if class_of(
                json::json_rendered(error),
            ) == RateLimitErrorClass::Authentication {
                only_ends(step, SessionFailureKind::Authentication)
            } else {
                step.failure is None && step.actions.len() == 1 && step.actions[0] is Log
            }
        }),
{
}

/// The limits that were asked for are weighed as the reply holds them, for the reason for which they
/// were asked. An error ends the session for what it is about, and only after too many requests it
/// says when to try again. A reply without windows is logged.
pub proof fn limits_are_weighed_as_they_come(
    state: SessionView,
    message: JsonView,
    id: u64,
    source: ReadSource,
)
    requires
        state.wf(),
        state.pending_read == Some((id, source)),
        is_reply(message, id),
    ensures
        ({
            let (after, step) = after_message(state, message);
            &&& after == (SessionView { pending_read: None, ..state })
            &&& message.member("error"@) is None ==> match message.member("result"@) {
                Some(result) => step.failure is None && step.actions.len() == 1
                    && match quota::candidates_of(result) {
                    Ok(windows) => step.actions[0] == ActionView::Weigh(
                        windows,
                        source,
                        json::json_rendered(result),
                    ),
                    Err(_) => step.actions[0] is Log,
                },
                None => only_ends(step, SessionFailureKind::Transient),
            }
            &&& message.member("error"@) matches Some(error) ==> {
                let class = class_of(json::json_rendered(error));
                &&& step.actions.len() == 1 && step.actions[0] is Log
                &&& step.failure matches Some(failure) && {
                    &&& class == RateLimitErrorClass::Authentication <==> failure.kind
                        == SessionFailureKind::Authentication
                    &&& class == RateLimitErrorClass::RateLimited <==> failure.kind
                        == SessionFailureKind::RateLimited
                    &&& failure.message == json::json_rendered(error)
                    &&& failure.kind == SessionFailureKind::RateLimited
                        ==> failure.suggested_retry_seconds == retry_after(error)
                    &&& failure.kind != SessionFailureKind::RateLimited
                        ==> failure.suggested_retry_seconds is None
                    &&& failure.had_success == (state.successful_reads > 0)
                }
            }
        }),
{
}

/// A change of account ends the session, whatever it waits for. A change of the limits is counted,
/// and the limits are read again unless there is no account or they are being read already.
pub proof fn notifications_are_followed(state: SessionView, message: JsonView)
    requires
        state.has_room(),
    ensures
        ({
            let (after, step) = after_message(state, message);
            &&& message.text_member("method"@) == Some("account/updated"@) ==> after == state
                && only_ends(step, SessionFailureKind::Authentication)
            &&& message.text_member("method"@) == Some("account/rateLimits/updated"@) ==> {
                &&& step.failure is None
                &&& step.actions.len() > 0 && step.actions[0] == ActionView::CountNotification
                &&& state.current_account is Some && state.pending_read is None
                    ==> step.actions.len() == 2 && step.actions[1] == ActionView::ReadLimits(
                    state.next_id,
                ) && after == (SessionView {
                    pending_read: Some((state.next_id, ReadSource::Notification)),
                    next_id: (state.next_id + 1) as u64,
                    ..state
                })
                &&& state.current_account is None || state.pending_read is Some
                    ==> step.actions.len() == 1 && after == state
            }
        }),
{
    reveal_strlit("account/updated");
    reveal_strlit("account/rateLimits/updated");
    assert("account/updated"@.len() == 15 && "account/rateLimits/updated"@.len() == 26);
}

/// After a while without messages the limits and the usage are read again, each unless it is being
/// read already, and nothing without an account.
pub proof fn a_quiet_session_reads_again(state: SessionView)
    requires
        state.has_room(),
    ensures
        ({
            let (after, step) = after_timeout(state);
            &&& step.failure is None
            &&& state.current_account is None ==> step.actions.len() == 0 && after == state
            &&& state.current_account is Some ==> {
                &&& (exists|i: int|
                    0 <= i < step.actions.len() && (#[trigger] step.actions[i]) is ReadLimits)
                    <==> state.pending_read is None
                &&& (exists|i: int|
                    0 <= i < step.actions.len() && (#[trigger] step.actions[i]) is ReadUsage)
                    <==> state.pending_usage is None
                &&& after.pending_read is Some && after.pending_usage is Some
                &&& state.pending_read matches Some(read) ==> after.pending_read == Some(read)
                &&& state.pending_usage matches Some(id) ==> after.pending_usage == Some(id)
                &&& state.pending_read is None ==> (after.pending_read matches Some((id, source))
                    && source == ReadSource::Fallback && step.actions[0] == ActionView::ReadLimits(
                    id,
                ))
            }
            &&& after.current_account == state.current_account
            &&& after.pending_account == state.pending_account
            &&& after.successful_reads == state.successful_reads
        }),
{
    let (after, step) = after_timeout(state);
    if state.current_account is Some {
        if state.pending_read is None {
            assert(step.actions[0] is ReadLimits);
            if state.pending_usage is None {
                assert(step.actions[1] is ReadUsage);
            }
        } else if state.pending_usage is None {
            assert(step.actions[0] is ReadUsage);
        }
    }
}

/// What is observed is the weekly window as it was read, under the session's account, at the time of
/// the reply, for the reason for which it was asked; the account's plan stands in where the window
/// names none. Without a window nothing is observed, and nothing is stored without an account.
pub proof fn an_observation_is_the_window_of_the_account(
    state: SessionView,
    window: ReadingView,
    identity: IdentityView,
    error: Seq<char>,
    source: ReadSource,
    raw_json: Seq<char>,
    observed_at_ms: i64,
    version: Seq<char>,
)
    ensures
        state.current_account == Some(identity) ==> (weighed(
            state,
            Ok(window),
            source,
            raw_json,
            observed_at_ms,
            version,
        ) matches WeighedView::Observed(snapshot) && {
            &&& snapshot.account_key == identity.account_key
            &&& snapshot.observed_at_ms == observed_at_ms
            &&& snapshot.used_percent_bits == window.used_percent_bits
            &&& snapshot.duration_minutes_bits == window.duration_minutes_bits
            &&& snapshot.reset_at_ms == window.reset_at_ms
            &&& snapshot.limit_id == window.limit_id
            &&& window.plan is Some ==> snapshot.plan == window.plan
            &&& window.plan is None ==> snapshot.plan == identity.plan
            &&& snapshot.raw_json == raw_json
            &&& snapshot.collector_version == version
            &&& snapshot.source == match source {
                ReadSource::Initial => "initial"@,
                ReadSource::Notification => "notification"@,
                ReadSource::Fallback => "fallback"@,
            }
        }),
        state.current_account is None ==> (weighed(
            state,
            Ok(window),
            source,
            raw_json,
            observed_at_ms,
            version,
        ) matches WeighedView::Failed(failure) && failure.kind
            == SessionFailureKind::Authentication),
        weighed(state, Err(error), source, raw_json, observed_at_ms, version) is Unreadable,
{
}

/// A session starts with nothing but the question for the account.
pub proof fn a_session_starts_with_the_account()
    ensures
        SessionView::begun().wf(),
        SessionView::begun().has_room(),
        SessionView::begun().pending_account is Some,
        SessionView::begun().pending_usage is None,
        SessionView::begun().pending_read is None,
        SessionView::begun().current_account is None,
        SessionView::begun().successful_reads == 0,
        SessionView::begun().pending_account matches Some(id) ==> id > 1,
{
}

/// A wait that is too long to be rounded up is the longest whole number of seconds.
pub proof fn the_longest_waits_are_cut(value: JsonView, milliseconds: u64)
    requires
        value.member("retryAfterMs"@) matches Some(found) && found.unsigned() == Some(milliseconds),
        milliseconds > u64::MAX - 999,
    ensures
        retry_in(value) == Some(18_446_744_073_709_551u64),
{
}

/// The requests of the handshake have the numbers before those that a session gives out: what waits
/// at its start has the last number that was given.
pub proof fn a_session_goes_on_from_the_handshake()
    ensures
        SessionView::begun().pending_account == Some((SessionView::begun().next_id - 1) as u64),
        SessionView::begun().next_id == 3,
{
}

} // verus!
