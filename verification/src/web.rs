//! The dashboard: which requests it answers, and what it passes on from the queries.
use vstd::prelude::*;

use crate::json;
use crate::json::Document;
use crate::json::Json;
use crate::json::JsonView;
use crate::query::SCHEMA;
use crate::query::SCHEMA_VERSION;
use crate::text;
use crate::text::is_text;
use crate::text::push_decimal;
use crate::text::same_ignoring_case;

verus! {

/// The authorities under which the dashboard is reached.
#[derive(Debug)]
pub struct RequestPolicy {
    pub loopback_authority: String,
    pub localhost_authority: String,
}

/// What a policy says.
#[verifier::ext_equal]
pub struct PolicyView {
    pub loopback_authority: Seq<char>,
    pub localhost_authority: Seq<char>,
}

impl View for RequestPolicy {
    type V = PolicyView;

    open spec fn view(&self) -> PolicyView {
        PolicyView {
            loopback_authority: self.loopback_authority@,
            localhost_authority: self.localhost_authority@,
        }
    }
}

/// Whether two texts differ at most in the case of ASCII letters.
pub open spec fn is_alike(left: Seq<char>, right: Seq<char>) -> bool {
    text::lowered(left) == text::lowered(right)
}

impl PolicyView {
    /// Whether a host is one of the authorities.
    pub open spec fn is_own_host(self, host: Seq<char>) -> bool {
        is_alike(host, self.loopback_authority) || is_alike(host, self.localhost_authority)
    }

    /// Whether an origin is one of the authorities.
    pub open spec fn is_own_origin(self, origin: Seq<char>) -> bool {
        is_alike(origin, "http://"@ + self.loopback_authority) || is_alike(
            origin,
            "http://"@ + self.localhost_authority,
        )
    }

    /// Whether a request is answered: it names a host of the dashboard, and comes from no other
    /// site. What a request does not say is not held against it, but for the host.
    pub open spec fn allows(
        self,
        host: Option<Seq<char>>,
        origin: Option<Seq<char>>,
        fetch_site: Option<Seq<char>>,
    ) -> bool {
        &&& host matches Some(host) && self.is_own_host(host)
        &&& origin matches Some(origin) ==> self.is_own_origin(origin)
        &&& fetch_site matches Some(site) ==> !is_alike(site, "cross-site"@)
    }
}

/// Whether an origin is the one of an authority.
fn is_origin_of(origin: &str, authority: &str) -> (same: bool)
    ensures
        same == is_alike(origin@, "http://"@ + authority@),
{
    let mut own = "http://".to_owned();
    own.append(authority);
    same_ignoring_case(origin, own.as_str())
}

impl RequestPolicy {
    /// The policy of a dashboard that is bound to an address with this port.
    pub fn new(address: &str, port: u16) -> (policy: RequestPolicy)
        ensures
            policy@ == (PolicyView {
                loopback_authority: address@,
                localhost_authority: "localhost:"@ + text::decimal(port as nat),
            }),
    {
        let mut localhost_authority = "localhost:".to_owned();
        push_decimal(&mut localhost_authority, port as u64);
        RequestPolicy { loopback_authority: address.to_owned(), localhost_authority }
    }

    /// Whether a request with these headers is answered.
    pub fn allows(
        &self,
        host: Option<&str>,
        origin: Option<&str>,
        fetch_site: Option<&str>,
    ) -> (allowed: bool)
        ensures
            allowed == self@.allows(
                text::opt_str_view(host),
                text::opt_str_view(origin),
                text::opt_str_view(fetch_site),
            ),
    {
        let host_allowed = match host {
            Some(host) => same_ignoring_case(host, self.loopback_authority.as_str())
                || same_ignoring_case(host, self.localhost_authority.as_str()),
            None => false,
        };
        let origin_allowed = match origin {
            Some(origin) => is_origin_of(origin, self.loopback_authority.as_str()) || is_origin_of(
                origin,
                self.localhost_authority.as_str(),
            ),
            None => true,
        };
        let site_allowed = match fetch_site {
            Some(site) => !same_ignoring_case(site, "cross-site"),
            None => true,
        };
        host_allowed && origin_allowed && site_allowed
    }
}

/// A request that names a foreign host, comes from a foreign origin or from another site, or names
/// no host, is refused, whatever else it says.
pub proof fn foreign_requests_are_refused(
    policy: PolicyView,
    host: Option<Seq<char>>,
    origin: Option<Seq<char>>,
    fetch_site: Option<Seq<char>>,
)
    requires
        host is None || !policy.is_own_host(host->Some_0) || (origin is Some
            && !policy.is_own_origin(origin->Some_0)) || (fetch_site is Some && is_alike(
            fetch_site->Some_0,
            "cross-site"@,
        )),
    ensures
        !policy.allows(host, origin, fetch_site),
{
}

/// What the dashboard's own page says is answered: its host and its origin are those of the policy.
pub proof fn own_requests_are_answered(policy: PolicyView, fetch_site: Option<Seq<char>>)
    requires
        fetch_site matches Some(site) ==> !is_alike(site, "cross-site"@),
    ensures
        policy.allows(
            Some(policy.loopback_authority),
            Some("http://"@ + policy.loopback_authority),
            fetch_site,
        ),
        policy.allows(
            Some(policy.localhost_authority),
            Some("http://"@ + policy.localhost_authority),
            fetch_site,
        ),
{
}

/// The headers that every answer carries.
pub fn security_headers() -> (headers: Vec<(&'static str, &'static str)>)
    ensures
        headers@.len() == 5,
        headers@[0].0@ == "content-security-policy"@,
        headers@[0].1@
            == "default-src 'none'; style-src 'self'; script-src 'self'; connect-src 'self'; img-src 'self'; base-uri 'none'; frame-ancestors 'none'; form-action 'none'"@,
        headers@[1].0@ == "x-content-type-options"@,
        headers@[1].1@ == "nosniff"@,
        headers@[2].0@ == "cache-control"@,
        headers@[2].1@ == "no-store"@,
        headers@[3].0@ == "referrer-policy"@,
        headers@[3].1@ == "no-referrer"@,
        headers@[4].0@ == "permissions-policy"@,
        headers@[4].1@ == "camera=(), microphone=(), geolocation=()"@,
{
    vec![
        (
            "content-security-policy",
            "default-src 'none'; style-src 'self'; script-src 'self'; connect-src 'self'; img-src 'self'; base-uri 'none'; frame-ancestors 'none'; form-action 'none'",
        ),
        ("x-content-type-options", "nosniff"),
        ("cache-control", "no-store"),
        ("referrer-policy", "no-referrer"),
        ("permissions-policy", "camera=(), microphone=(), geolocation=()"),
    ]
}

/// The queries whose answers the dashboard shows.
pub fn dashboard_commands() -> (commands: Vec<&'static str>)
    ensures
        commands@.len() == 4,
        commands@[0]@ == "status"@,
        commands@[1]@ == "estimate"@,
        commands@[2]@ == "capacity"@,
        commands@[3]@ == "reconcile"@,
{
    vec!["status", "estimate", "capacity", "reconcile"]
}

/// Whether a document is the answer to a command: it has the schema of the queries in the version
/// that the dashboard knows, and says that it answers the command.
pub open spec fn is_answer(answer: JsonView, command: Seq<char>) -> bool {
    &&& answer.text_member("schema"@) == Some(SCHEMA@)
    &&& answer.unsigned_member("schemaVersion"@) == Some(SCHEMA_VERSION as u64)
    &&& answer.text_member("command"@) == Some(command)
}

/// Whether a document is the answer to a command.
pub fn answers_command(answer: &Json, command: &str) -> (answers: bool)
    ensures
        answers == is_answer(answer@, command@),
{
    let known_version = match answer.get_u64("schemaVersion") {
        Some(version) => version == SCHEMA_VERSION as u64,
        None => false,
    };
    is_text(answer.get_str("schema"), SCHEMA) && known_version && is_text(
        answer.get_str("command"),
        command,
    )
}

/// The answer to a command that a query wrote; nothing where what it wrote is none.
pub fn dashboard_answer(written: &[u8], command: &str) -> (answer: Option<Document>)
    ensures
        match json::json_parsed_bytes(written@) {
            Some(document) => if is_answer(document, command@) {
                answer matches Some(answer) && answer@ == document
            } else {
                answer is None
            },
            None => answer is None,
        },
{
    match Document::parse_bytes(written) {
        Some(document) => if answers_command(document.json(), command) {
            Some(document)
        } else {
            None
        },
        None => None,
    }
}

/// An answer is taken for a command exactly where it says so itself, in the schema and the version
/// that are known; the answer to one command is never taken for that to another.
pub proof fn answers_are_taken_for_their_own_command(
    answer: JsonView,
    command: Seq<char>,
    other: Seq<char>,
)
    ensures
        is_answer(answer, command) <==> answer.text_member("schema"@) == Some(SCHEMA@)
            && answer.unsigned_member("schemaVersion"@) == Some(1u64) && answer.text_member(
            "command"@,
        ) == Some(command),
        is_answer(answer, command) && is_answer(answer, other) ==> command == other,
{
}

/// A request is answered only under an authority that is the dashboard's own, character by character
/// but for the case of ASCII letters: one that goes on behind it, or stops before its end, is foreign.
pub proof fn an_authority_is_matched_whole(
    policy: PolicyView,
    host: Seq<char>,
    origin: Option<Seq<char>>,
    fetch_site: Option<Seq<char>>,
)
    requires
        policy.allows(Some(host), origin, fetch_site),
    ensures
        host.len() == policy.loopback_authority.len() || host.len()
            == policy.localhost_authority.len(),
        (forall|i: int|
            0 <= i < host.len() ==> text::lower_char(#[trigger] host[i]) == text::lower_char(
                policy.loopback_authority[i],
            )) || (forall|i: int|
            0 <= i < host.len() ==> text::lower_char(#[trigger] host[i]) == text::lower_char(
                policy.localhost_authority[i],
            )),
        origin matches Some(origin) ==> origin.len() == 7 + policy.loopback_authority.len()
            || origin.len() == 7 + policy.localhost_authority.len(),
        policy.allows(Some(host), None, None),
{
    reveal_strlit("http://");
    assert(text::lowered(host).len() == host.len());
    assert(text::lowered(policy.loopback_authority).len() == policy.loopback_authority.len());
    assert(text::lowered(policy.localhost_authority).len() == policy.localhost_authority.len());
    if is_alike(host, policy.loopback_authority) {
        assert forall|i: int| 0 <= i < host.len() implies text::lower_char(#[trigger] host[i])
            == text::lower_char(policy.loopback_authority[i]) by {
            assert(text::lowered(host)[i] == text::lowered(policy.loopback_authority)[i]);
        }
    } else {
        assert forall|i: int| 0 <= i < host.len() implies text::lower_char(#[trigger] host[i])
            == text::lower_char(policy.localhost_authority[i]) by {
            assert(text::lowered(host)[i] == text::lowered(policy.localhost_authority)[i]);
        }
    }
    if let Some(origin) = origin {
        assert(text::lowered(origin).len() == origin.len());
        assert(text::lowered("http://"@ + policy.loopback_authority).len() == 7
            + policy.loopback_authority.len());
        assert(text::lowered("http://"@ + policy.localhost_authority).len() == 7
            + policy.localhost_authority.len());
    }
}

} // verus!
