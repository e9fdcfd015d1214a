//! Accounts: the key under which everything of an account is kept, made so that it does not hold
//! the address of its owner.
use vstd::prelude::*;

use crate::json::Json;
use crate::json::JsonView;
use crate::text;
use crate::text::lower;
use crate::text::own_optional_text;
use crate::text::push_hex;
use crate::text::trim;

verus! {

/// The hash of no bytes.
pub const HASH_OFFSET: u64 = 0xcbf2_9ce4_8422_2325;

/// What a hash is multiplied with for each byte.
pub const HASH_PRIME: u64 = 0x100_0000_01b3;

/// The 64-bit FNV-1a hash of bytes.
pub open spec fn fnv1a(bytes: Seq<u8>) -> u64
    decreases bytes.len(),
{
    if bytes.len() == 0 {
        HASH_OFFSET
    } else {
        (fnv1a(bytes.drop_last()) ^ (bytes.last() as u64)).wrapping_mul(HASH_PRIME)
    }
}

/// The fingerprint of a text, which takes no notice of the white space around it and of the case
/// of ASCII letters.
pub open spec fn fingerprint(value: Seq<char>) -> Seq<char> {
    "acct-"@ + text::hex(
        fnv1a(vstd::utf8::encode_utf8(text::lowered(text::trimmed(value)))) as nat,
        16,
    )
}

/// The fingerprint of a text.
pub fn stable_account_fingerprint(value: &str) -> (key: String)
    ensures
        key@ == fingerprint(value@),
{
    let normal = lower(trim(value));
    let bytes = normal.as_str().as_bytes();
    let mut hash: u64 = HASH_OFFSET;
    let mut i: usize = 0;
    assert(bytes@.take(0) =~= Seq::<u8>::empty());
    while i < bytes.len()
        invariant
            i <= bytes@.len(),
            hash == fnv1a(bytes@.take(i as int)),
        decreases bytes@.len() - i,
    {
        assert(bytes@.take(i + 1).drop_last() =~= bytes@.take(i as int));
        hash = (hash ^ (bytes[i] as u64)).wrapping_mul(HASH_PRIME);
        i += 1;
    }
    assert(bytes@.take(bytes@.len() as int) =~= bytes@);
    let mut key = "acct-".to_owned();
    push_hex(&mut key, hash, 16);
    key
}

/// An account as the App Server names it.
#[derive(Debug)]
pub struct AccountIdentity {
    pub account_key: String,
    pub auth_type: String,
    pub plan: Option<String>,
}

/// What an identity says.
#[verifier::ext_equal]
pub struct IdentityView {
    pub account_key: Seq<char>,
    pub auth_type: Seq<char>,
    pub plan: Option<Seq<char>>,
}

impl View for AccountIdentity {
    type V = IdentityView;

    open spec fn view(&self) -> IdentityView {
        IdentityView {
            account_key: self.account_key@,
            auth_type: self.auth_type@,
            plan: text::opt_view(self.plan),
        }
    }
}

impl AccountIdentity {
    /// The same identity once more.
    pub fn copy(&self) -> (identity: AccountIdentity)
        ensures
            identity@ == self@,
    {
        AccountIdentity {
            account_key: self.account_key.clone(),
            auth_type: self.auth_type.clone(),
            plan: text::copy_optional_text(&self.plan),
        }
    }
}

/// An optional identity.
pub open spec fn opt_identity(identity: Option<AccountIdentity>) -> Option<IdentityView> {
    match identity {
        Some(identity) => Some(identity@),
        None => None,
    }
}

/// The key of an account.
pub open spec fn account_key(auth_type: Seq<char>, email: Seq<char>) -> Seq<char> {
    fingerprint(auth_type + ":"@ + email)
}

/// The account that a reply names: it has to be an object with a type and an address.
pub open spec fn identity_of(reply: JsonView) -> Result<IdentityView, Seq<char>> {
    match reply.member("account"@) {
        Some(account) => if account is Object {
            match account.text_member("type"@) {
                Some(auth_type) => match account.text_member("email"@) {
                    Some(email) => if text::trimmed(email).len() > 0 {
                        Ok(
                            IdentityView {
                                account_key: account_key(auth_type, email),
                                auth_type,
                                plan: account.text_member("planType"@),
                            },
                        )
                    } else {
                        Err(
                            "App Server account identity is unavailable; refusing an unpartitioned write"@,
                        )
                    },
                    None => Err(
                        "App Server account identity is unavailable; refusing an unpartitioned write"@,
                    ),
                },
                None => Err("App Server account type is missing"@),
            }
        } else {
            Err("App Server returned no authenticated account"@)
        },
        None => Err("App Server returned no authenticated account"@),
    }
}

/// The account that a reply names.
pub fn account_identity(reply: &Json) -> (identity: Result<AccountIdentity, String>)
    ensures
        match identity_of(reply@) {
            Ok(expected) => identity matches Ok(found) && found@ == expected,
            Err(error) => identity matches Err(found) && found@ == error,
        },
{
    let account = match reply.get("account") {
        Some(account) => account,
        None => {
            return Err("App Server returned no authenticated account".to_owned());
        },
    };
    match account {
        Json::Object(_) => {},
        _ => {
            return Err("App Server returned no authenticated account".to_owned());
        },
    }
    let auth_type = match account.get_str("type") {
        Some(auth_type) => auth_type,
        None => {
            return Err("App Server account type is missing".to_owned());
        },
    };
    let email = match account.get_str("email") {
        Some(email) => email,
        None => {
            return Err(
                "App Server account identity is unavailable; refusing an unpartitioned write".to_owned(),
            );
        },
    };
    if trim(email).unicode_len() == 0 {
        return Err(
            "App Server account identity is unavailable; refusing an unpartitioned write".to_owned(),
        );
    }
    let mut owner = auth_type.to_owned();
    owner.append(":");
    owner.append(email);
    Ok(
        AccountIdentity {
            account_key: stable_account_fingerprint(owner.as_str()),
            auth_type: auth_type.to_owned(),
            plan: own_optional_text(account.get_str("planType")),
        },
    )
}

/// What is kept about an account.
#[derive(Debug)]
pub struct AccountPartition {
    pub account_key: String,
    pub auth_type: String,
    pub plan: Option<String>,
    pub first_seen_at_ms: i64,
    pub last_seen_at_ms: i64,
}

/// What an account's partition says.
#[verifier::ext_equal]
pub struct PartitionView {
    pub account_key: Seq<char>,
    pub auth_type: Seq<char>,
    pub plan: Option<Seq<char>>,
    pub first_seen_at_ms: i64,
    pub last_seen_at_ms: i64,
}

impl View for AccountPartition {
    type V = PartitionView;

    open spec fn view(&self) -> PartitionView {
        PartitionView {
            account_key: self.account_key@,
            auth_type: self.auth_type@,
            plan: text::opt_view(self.plan),
            first_seen_at_ms: self.first_seen_at_ms,
            last_seen_at_ms: self.last_seen_at_ms,
        }
    }
}

/// The partition of an account that was seen first at one time, where it was, and is seen at another.
pub open spec fn partition_of(
    first_seen_at_ms: Option<i64>,
    identity: IdentityView,
    observed_at_ms: i64,
) -> PartitionView {
    PartitionView {
        account_key: identity.account_key,
        auth_type: identity.auth_type,
        plan: identity.plan,
        first_seen_at_ms: match first_seen_at_ms {
            Some(first) => first,
            None => observed_at_ms,
        },
        last_seen_at_ms: observed_at_ms,
    }
}

/// What is kept about an account after it was seen, where `first_seen_at_ms` is when it was seen
/// first, if it was seen before.
pub fn partition_seen(
    first_seen_at_ms: Option<i64>,
    identity: &AccountIdentity,
    observed_at_ms: i64,
) -> (partition: AccountPartition)
    ensures
        partition.account_key@ == identity@.account_key,
        partition.auth_type@ == identity@.auth_type,
        text::opt_view(partition.plan) == identity@.plan,
        partition.first_seen_at_ms == match first_seen_at_ms {
            Some(first) => first,
            None => observed_at_ms,
        },
        partition.last_seen_at_ms == observed_at_ms,
        partition@ == partition_of(first_seen_at_ms, identity@, observed_at_ms),
{
    AccountPartition {
        account_key: identity.account_key.clone(),
        auth_type: identity.auth_type.clone(),
        plan: text::copy_optional_text(&identity.plan),
        first_seen_at_ms: first_seen_at_ms.unwrap_or(observed_at_ms),
        last_seen_at_ms: observed_at_ms,
    }
}

/// A small letter is as white as its capital: neither is white.
proof fn case_is_not_white(c: char)
    ensures
        text::is_white(text::lower_char(c)) == text::is_white(c),
{
    reveal(text::is_white);
}

/// It makes no difference whether a text loses its white space or its capitals first.
proof fn trimming_ignores_case(value: Seq<char>)
    ensures
        text::trimmed(text::lowered(value)) == text::lowered(text::trimmed(value)),
    decreases value.len(),
{
    let small = text::lowered(value);
    if value.len() > 0 {
        case_is_not_white(value[0]);
        case_is_not_white(value.last());
        assert(small[0] == text::lower_char(value[0]));
        assert(small.last() == text::lower_char(value.last()));
        if text::is_white(value[0]) {
            assert(small.drop_first() =~= text::lowered(value.drop_first()));
            trimming_ignores_case(value.drop_first());
        } else if text::is_white(value.last()) {
            assert(small.drop_last() =~= text::lowered(value.drop_last()));
            trimming_ignores_case(value.drop_last());
        }
    } else {
        assert(small =~= value);
    }
}

/// An account has one key, however the case of its address is written.
pub proof fn account_key_ignores_case(auth_type: Seq<char>, left: Seq<char>, right: Seq<char>)
    requires
        text::lowered(left) == text::lowered(right),
    ensures
        account_key(auth_type, left) == account_key(auth_type, right),
{
    let a = auth_type + ":"@ + left;
    let b = auth_type + ":"@ + right;
    assert(left.len() == text::lowered(left).len());
    assert(right.len() == text::lowered(right).len());
    assert(text::lowered(a) =~= text::lowered(b)) by {
        assert forall|i: int| 0 <= i < a.len() implies text::lowered(a)[i] == text::lowered(
            b,
        )[i] by {
            let start = auth_type.len() + ":"@.len();
            if i >= start {
                let k = i - start;
                assert(a[i] == left[k] && b[i] == right[k]);
                assert(text::lowered(left)[k] == text::lower_char(left[k]));
                assert(text::lowered(right)[k] == text::lower_char(right[k]));
            } else {
                assert(a[i] == (auth_type + ":"@)[i] && b[i] == (auth_type + ":"@)[i]);
            }
            assert(text::lowered(a)[i] == text::lower_char(a[i]));
            assert(text::lowered(b)[i] == text::lower_char(b[i]));
        }
    }
    trimming_ignores_case(a);
    trimming_ignores_case(b);
}

/// The digits of a fingerprint.
proof fn hex_has_its_width(n: nat, width: nat)
    ensures
        text::hex(n, width).len() == width,
        forall|i: int|
            0 <= i < width ==> exists|d: nat|
                d < 16 && (#[trigger] text::hex(n, width)[i]) == #[trigger] text::hex_char(d),
    decreases width,
{
    if width > 0 {
        hex_has_its_width(n / 16, (width - 1) as nat);
        let all = text::hex(n, width);
        let shorter = text::hex(n / 16, (width - 1) as nat);
        assert forall|i: int| 0 <= i < width implies exists|d: nat|
            d < 16 && (#[trigger] all[i]) == #[trigger] text::hex_char(d) by {
            if i < width - 1 {
                assert(all[i] == shorter[i]);
            } else {
                assert(all[i] == text::hex_char(n % 16));
            }
        }
    }
}

/// A key is a fixed word and sixteen hexadecimal digits, whatever the address: it has no room to
/// hold the address itself.
pub proof fn account_key_holds_no_address(auth_type: Seq<char>, email: Seq<char>)
    ensures
        ({
            let key = account_key(auth_type, email);
            &&& key.len() == 21
            &&& key.subrange(0, 5) == "acct-"@
            &&& forall|i: int|
                5 <= i < 21 ==> exists|d: nat|
                    d < 16 && (#[trigger] key[i]) == #[trigger] text::hex_char(d)
        }),
{
    reveal_strlit("acct-");
    let key = account_key(auth_type, email);
    let hash = fnv1a(
        vstd::utf8::encode_utf8(text::lowered(text::trimmed(auth_type + ":"@ + email))),
    ) as nat;
    hex_has_its_width(hash, 16);
    assert(key.subrange(0, 5) =~= "acct-"@);
    assert forall|i: int| 5 <= i < 21 implies exists|d: nat|
        d < 16 && (#[trigger] key[i]) == #[trigger] text::hex_char(d) by {
        assert(key[i] == text::hex(hash, 16)[i - 5]);
    }
}

/// An account is known exactly where the reply names one as an object with a type and an address that
/// is more than white space; it has the type and the plan that the reply names, and the key of its
/// type and address.
pub proof fn an_account_needs_a_type_and_an_address(reply: JsonView)
    ensures
        match identity_of(reply) {
            Ok(identity) => reply.member("account"@) matches Some(account) && account is Object && {
                &&& account.text_member("type"@) == Some(identity.auth_type)
                &&& identity.plan == account.text_member("planType"@)
                &&& account.text_member("email"@) matches Some(email) && text::trimmed(email).len()
                    > 0 && identity.account_key == fingerprint(identity.auth_type + ":"@ + email)
            },
            Err(_) => reply.member("account"@) matches Some(account) ==> !(account is Object)
                || account.text_member("type"@) is None || match account.text_member("email"@) {
                Some(email) => text::trimmed(email).len() == 0,
                None => true,
            },
        },
{
}

/// The hash of an account goes byte by byte: each byte is mixed in and the result multiplied.
pub proof fn the_hash_mixes_in_each_byte(bytes: Seq<u8>, byte: u8)
    ensures
        fnv1a(Seq::empty()) == 0xcbf2_9ce4_8422_2325,
        fnv1a(bytes.push(byte)) == (fnv1a(bytes) ^ (byte as u64)).wrapping_mul(0x100_0000_01b3),
{
    assert(bytes.push(byte).drop_last() =~= bytes);
}

/// White space in front of an address's owner, or behind it, makes no other account.
pub proof fn fingerprints_ignore_white_space_around(value: Seq<char>, c: char)
    requires
        text::is_white(c),
    ensures
        fingerprint(seq![c] + value) == fingerprint(value),
        value.len() > 0 && !text::is_white(value[0]) ==> fingerprint(value.push(c)) == fingerprint(
            value,
        ),
{
    let front = seq![c] + value;
    assert(front.drop_first() =~= value);
    assert(front[0] == c);
    let back = value.push(c);
    assert(back.drop_last() =~= value);
    assert(back.last() == c);
}

/// However often an account is seen, its partition keeps the time of the first sight and has the time
/// of the last one, and it says of the account what was said last.
pub proof fn a_partition_keeps_its_first_sight(
    first: IdentityView,
    first_at_ms: i64,
    later: IdentityView,
    later_at_ms: i64,
)
    ensures
        ({
            let before = partition_of(None, first, first_at_ms);
            let after = partition_of(Some(before.first_seen_at_ms), later, later_at_ms);
            &&& before.first_seen_at_ms == first_at_ms
            &&& before.last_seen_at_ms == first_at_ms
            &&& after.first_seen_at_ms == first_at_ms
            &&& after.last_seen_at_ms == later_at_ms
            &&& after.account_key == later.account_key
            &&& after.auth_type == later.auth_type
            &&& after.plan == later.plan
        }),
{
}

} // verus!
