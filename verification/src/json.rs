//! JSON documents: the library's own value type, what a document says, and the calls into
//! `serde_json` that read and write the text of one.
use vstd::prelude::*;

use crate::text;
use crate::text::same_text;

verus! {

/// A JSON number by the three readings that the library makes of it: as an unsigned and as a
/// signed integer, where it is one that fits, and as the bits of the nearest double.
#[derive(Clone, Copy, Debug, PartialEq, Eq, Structural)]
pub struct JsonNumber {
    pub unsigned: Option<u64>,
    pub signed: Option<i64>,
    pub double_bits: Option<u64>,
}

/// A JSON value.
#[derive(Debug, PartialEq, Eq)]
pub enum Json {
    Null,
    Bool(bool),
    Number(JsonNumber),
    Text(String),
    List(Vec<Json>),
    Object(Vec<JsonMember>),
}

/// One member of a JSON object.
#[derive(Debug, PartialEq, Eq)]
pub struct JsonMember {
    pub name: String,
    pub value: Json,
}

/// What a JSON value says. The members of an object are listed in the order in which they are
/// stored.
pub enum JsonView {
    Null,
    Bool(bool),
    Number(JsonNumber),
    Text(Seq<char>),
    List(Seq<JsonView>),
    Object(Seq<(Seq<char>, JsonView)>),
}

/// The value of the first member with this name.
pub open spec fn first_named(members: Seq<(Seq<char>, JsonView)>, name: Seq<char>) -> Option<
    JsonView,
>
    decreases members.len(),
{
    if members.len() == 0 {
        None
    } else if members[0].0 == name {
        Some(members[0].1)
    } else {
        first_named(members.drop_first(), name)
    }
}

/// The first of two lookups that found anything.
pub open spec fn either(first: Option<JsonView>, second: Option<JsonView>) -> Option<JsonView> {
    if first is Some {
        first
    } else {
        second
    }
}

/// The text that a lookup found, where it found one.
pub open spec fn found_text(found: Option<JsonView>) -> Option<Seq<char>> {
    match found {
        Some(value) => value.text(),
        None => None,
    }
}

/// The unsigned integer that a lookup found, where it found one.
pub open spec fn found_unsigned(found: Option<JsonView>) -> Option<u64> {
    match found {
        Some(value) => value.unsigned(),
        None => None,
    }
}

/// The member that a lookup leads on to.
pub open spec fn found_member(found: Option<JsonView>, name: Seq<char>) -> Option<JsonView> {
    match found {
        Some(value) => value.member(name),
        None => None,
    }
}

impl JsonView {
    /// The member of an object with this name; nothing where the value is no object.
    pub open spec fn member(self, name: Seq<char>) -> Option<JsonView> {
        match self {
            JsonView::Object(members) => first_named(members, name),
            _ => None,
        }
    }

    /// The text of a JSON string.
    pub open spec fn text(self) -> Option<Seq<char>> {
        match self {
            JsonView::Text(text) => Some(text),
            _ => None,
        }
    }

    /// The value of a JSON number as an unsigned integer.
    pub open spec fn unsigned(self) -> Option<u64> {
        match self {
            JsonView::Number(number) => number.unsigned,
            _ => None,
        }
    }

    /// The value of a JSON number as a signed integer.
    pub open spec fn signed(self) -> Option<i64> {
        match self {
            JsonView::Number(number) => number.signed,
            _ => None,
        }
    }

    /// The bits of the double nearest to a JSON number.
    pub open spec fn double_bits(self) -> Option<u64> {
        match self {
            JsonView::Number(number) => number.double_bits,
            _ => None,
        }
    }

    /// The text of a member.
    pub open spec fn text_member(self, name: Seq<char>) -> Option<Seq<char>> {
        found_text(self.member(name))
    }

    /// The unsigned integer in a member.
    pub open spec fn unsigned_member(self, name: Seq<char>) -> Option<u64> {
        found_unsigned(self.member(name))
    }
}

/// What a JSON value says.
pub open spec fn json_view(json: Json) -> JsonView
    decreases json,
{
    match json {
        Json::Null => JsonView::Null,
        Json::Bool(flag) => JsonView::Bool(flag),
        Json::Number(number) => JsonView::Number(number),
        Json::Text(text) => JsonView::Text(text@),
        Json::List(items) => JsonView::List(
            Seq::new(
                items@.len(),
                |i: int|
                    if 0 <= i < items@.len() {
                        json_view(items@[i])
                    } else {
                        JsonView::Null
                    },
            ),
        ),
        Json::Object(members) => JsonView::Object(
            Seq::new(
                members@.len(),
                |i: int|
                    if 0 <= i < members@.len() {
                        (members@[i].name@, json_view(members@[i].value))
                    } else {
                        (Seq::empty(), JsonView::Null)
                    },
            ),
        ),
    }
}

impl View for Json {
    type V = JsonView;

    open spec fn view(&self) -> JsonView {
        json_view(*self)
    }
}

/// What an optional value says.
pub open spec fn opt_json(value: Option<&Json>) -> Option<JsonView> {
    match value {
        Some(value) => Some(value@),
        None => None,
    }
}

impl Json {
    /// The member of an object with this name; nothing where the value is no object.
    pub fn get(&self, name: &str) -> (found: Option<&Json>)
        ensures
            opt_json(found) == self@.member(name@),
    {
        match self {
            Json::Object(members) => {
                let ghost all = self@->Object_0;
                let mut i: usize = 0;
                assert(all.skip(0) =~= all);
                while i < members.len()
                    invariant
                        i <= members@.len(),
                        self == Json::Object(*members),
                        all == self@->Object_0,
                        self@ is Object,
                        first_named(all.skip(i as int), name@) == self@.member(name@),
                    decreases members@.len() - i,
                {
                    let member = &members[i];
                    assert(all.skip(i as int)[0] == (member.name@, member.value@));
                    assert(all.skip(i as int).drop_first() =~= all.skip(i + 1));
                    if same_text(member.name.as_str(), name) {
                        return Some(&member.value);
                    }
                    i += 1;
                }
                None
            },
            _ => None,
        }
    }

    /// The text of a JSON string.
    pub fn as_str(&self) -> (text: Option<&str>)
        ensures
            text::opt_str_view(text) == self@.text(),
    {
        match self {
            Json::Text(text) => Some(text.as_str()),
            _ => None,
        }
    }

    /// The value of a JSON number as an unsigned integer.
    pub fn as_u64(&self) -> (number: Option<u64>)
        ensures
            number == self@.unsigned(),
    {
        match self {
            Json::Number(number) => number.unsigned,
            _ => None,
        }
    }

    /// The value of a JSON number as a signed integer.
    pub fn as_i64(&self) -> (number: Option<i64>)
        ensures
            number == self@.signed(),
    {
        match self {
            Json::Number(number) => number.signed,
            _ => None,
        }
    }

    /// The bits of the double nearest to a JSON number.
    pub fn as_double_bits(&self) -> (bits: Option<u64>)
        ensures
            bits == self@.double_bits(),
    {
        match self {
            Json::Number(number) => number.double_bits,
            _ => None,
        }
    }

    /// The text of a member.
    pub fn get_str(&self, name: &str) -> (text: Option<&str>)
        ensures
            text::opt_str_view(text) == self@.text_member(name@),
    {
        match self.get(name) {
            Some(value) => value.as_str(),
            None => None,
        }
    }

    /// The unsigned integer in a member.
    pub fn get_u64(&self, name: &str) -> (number: Option<u64>)
        ensures
            number == self@.unsigned_member(name@),
    {
        match self.get(name) {
            Some(value) => value.as_u64(),
            None => None,
        }
    }

    /// The member with the first name, or else the one with the second.
    pub fn get_either(&self, first: &str, second: &str) -> (found: Option<&Json>)
        ensures
            opt_json(found) == either(self@.member(first@), self@.member(second@)),
    {
        match self.get(first) {
            Some(value) => Some(value),
            None => self.get(second),
        }
    }
}

/// Declares `serde_json::Value` to the verifier.
#[verifier::external_type_specification]
#[verifier::external_body]
pub struct ExValue(serde_json::Value);

/// Declares `serde_json::Error` to the verifier.
#[verifier::external_type_specification]
#[verifier::external_body]
pub struct ExError(serde_json::Error);

/// What `serde_json::from_str` reads in a text: the document, or the text of the error that it
/// reports.
pub uninterp spec fn json_parsed(text: Seq<char>) -> Result<JsonView, Seq<char>>;

/// What a `serde_json::Value` holds. The members of an object stand in the order in which its map
/// is walked, which is the order of their names.
pub uninterp spec fn value_model(value: serde_json::Value) -> JsonView;

/// The text that a `serde_json::Error` displays.
pub uninterp spec fn error_message(error: serde_json::Error) -> Seq<char>;

/// The compact text that `serde_json` writes for a value.
pub uninterp spec fn json_rendered(value: JsonView) -> Seq<char>;

/// `serde_json::from_str` into a `Value`: whether it succeeds, and what the value then holds or
/// the error then says, depends on the text alone.
#[verifier::external_body]
fn value_of_text(text: &str) -> (parsed: Result<serde_json::Value, serde_json::Error>)
    ensures
        match parsed {
            Ok(value) => json_parsed(text@) == Ok::<JsonView, Seq<char>>(value_model(value)),
            Err(error) => json_parsed(text@) == Err::<JsonView, Seq<char>>(error_message(error)),
        },
{
    serde_json::from_str(text)
}

/// What `serde_json::from_slice` reads in bytes: the document, or nothing where it reports an
/// error.
pub uninterp spec fn json_parsed_bytes(bytes: Seq<u8>) -> Option<JsonView>;

/// `serde_json::from_slice` into a `Value`: whether it succeeds, and what the value then holds,
/// depends on the bytes alone.
#[verifier::external_body]
fn value_of_bytes(bytes: &[u8]) -> (parsed: Result<serde_json::Value, serde_json::Error>)
    ensures
        match parsed {
            Ok(value) => json_parsed_bytes(bytes@) == Some(value_model(value)),
            Err(_) => json_parsed_bytes(bytes@) is None,
        },
{
    serde_json::from_slice(bytes)
}

/// The `Display` of a `serde_json::Error`.
#[verifier::external_body]
fn error_text(error: &serde_json::Error) -> (text: String)
    ensures
        text@ == error_message(*error),
{
    error.to_string()
}

/// Copies what a `serde_json::Value` holds into the library's type, variant by variant; a number
/// is read by `as_u64`, `as_i64` and `as_f64`.
#[verifier::external_body]
fn json_of_value(value: &serde_json::Value) -> (json: Json)
    ensures
        json@ == value_model(*value),
{
    match value {
        serde_json::Value::Null => Json::Null,
        serde_json::Value::Bool(flag) => Json::Bool(*flag),
        serde_json::Value::Number(n) => Json::Number(
            JsonNumber { unsigned: n.as_u64(), signed: n.as_i64(), double_bits: n.as_f64().map(|n| n.to_bits()) },
        ),
        serde_json::Value::String(text) => Json::Text(text.clone()),
        serde_json::Value::Array(items) => Json::List(items.iter().map(json_of_value).collect()),
        serde_json::Value::Object(members) => Json::Object(
            members.iter().map(|(name, value)| JsonMember { name: name.clone(), value: json_of_value(value) }).collect(),
        ),
    }
}

/// `serde_json::Value::get` with a name: the member of an object that has it; nothing where there
/// is none, or where the value is no object.
#[verifier::external_body]
fn value_member<'a>(value: &'a serde_json::Value, name: &str) -> (found: Option<
    &'a serde_json::Value,
>)
    ensures
        match found {
            Some(member) => value_model(*value).member(name@) == Some(value_model(*member)),
            None => value_model(*value).member(name@) is None,
        },
{
    value.get(name)
}

/// `serde_json::Value::get` with a position: the item of an array that stands there.
#[verifier::external_body]
fn value_item<'a>(value: &'a serde_json::Value, at: usize) -> (found: Option<&'a serde_json::Value>)
    ensures
        match found {
            Some(item) => value_model(*value) matches JsonView::List(items) && at < items.len()
                && items[at as int] == value_model(*item),
            None => !(value_model(*value) matches JsonView::List(items) && at < items.len()),
        },
{
    value.get(at)
}

/// The `Display` of a `serde_json::Value`: its compact text, which depends on what it holds
/// alone.
#[verifier::external_body]
fn value_text(value: &serde_json::Value) -> (text: String)
    ensures
        text@ == json_rendered(value_model(*value)),
{
    value.to_string()
}

/// A JSON document together with the means to write out its parts.
pub struct Document {
    value: serde_json::Value,
    json: Json,
}

impl View for Document {
    type V = JsonView;

    closed spec fn view(&self) -> JsonView {
        self.json@
    }
}

impl Document {
    /// The value that the parts are written from is the one that the library reads.
    #[verifier::type_invariant]
    spec fn consistent(self) -> bool {
        value_model(self.value) == self.json@
    }

    /// The document that a text holds, or the reason why it holds none.
    pub fn parse(text: &str) -> (parsed: Result<Document, String>)
        ensures
            match parsed {
                Ok(document) => json_parsed(text@) == Ok::<JsonView, Seq<char>>(document@),
                Err(error) => json_parsed(text@) == Err::<JsonView, Seq<char>>(error@),
            },
    {
        match value_of_text(text) {
            Ok(value) => {
                let json = json_of_value(&value);
                Ok(Document { value, json })
            },
            Err(error) => Err(error_text(&error)),
        }
    }

    /// The document that bytes hold, or nothing where they hold none.
    pub fn parse_bytes(bytes: &[u8]) -> (parsed: Option<Document>)
        ensures
            match parsed {
                Some(document) => json_parsed_bytes(bytes@) == Some(document@),
                None => json_parsed_bytes(bytes@) is None,
            },
    {
        match value_of_bytes(bytes) {
            Ok(value) => {
                let json = json_of_value(&value);
                Some(Document { value, json })
            },
            Err(_) => None,
        }
    }

    /// The document as a value to read.
    pub fn json(&self) -> (json: &Json)
        ensures
            json@ == self@,
    {
        &self.json
    }

    /// The value that the document was read into.
    pub fn value(&self) -> (value: &serde_json::Value)
        ensures
            value_model(*value) == self@,
    {
        proof {
            use_type_invariant(self);
        }
        &self.value
    }

    /// The compact text of the whole document.
    pub fn text(&self) -> (text: String)
        ensures
            text@ == json_rendered(self@),
    {
        proof {
            use_type_invariant(self);
        }
        value_text(&self.value)
    }

    /// The compact text of a member of the document.
    pub fn member_text(&self, name: &str) -> (text: Option<String>)
        ensures
            text::opt_view(text) == member_rendered(self@, name@),
    {
        proof {
            use_type_invariant(self);
        }
        match value_member(&self.value, name) {
            Some(member) => Some(value_text(member)),
            None => None,
        }
    }

    /// The compact text of an item in a list that stands two members deep.
    pub fn item_text(&self, outer: &str, inner: &str, at: usize) -> (text: Option<String>)
        ensures
            text::opt_view(text) == item_rendered(
                found_member(self@.member(outer@), inner@),
                at as int,
            ),
    {
        proof {
            use_type_invariant(self);
        }
        match value_member(&self.value, outer) {
            Some(holder) => match value_member(holder, inner) {
                Some(list) => match value_item(list, at) {
                    Some(item) => Some(value_text(item)),
                    None => None,
                },
                None => None,
            },
            None => None,
        }
    }
}

/// The compact text of a member.
pub open spec fn member_rendered(value: JsonView, name: Seq<char>) -> Option<Seq<char>> {
    match value.member(name) {
        Some(member) => Some(json_rendered(member)),
        None => None,
    }
}

/// The compact text of an item of a list.
pub open spec fn item_rendered(list: Option<JsonView>, at: int) -> Option<Seq<char>> {
    match list {
        Some(JsonView::List(items)) => if 0 <= at < items.len() {
            Some(json_rendered(items[at]))
        } else {
            None
        },
        _ => None,
    }
}

/// A lookup by a name finds the first member that has it, and nothing exactly where no member has
/// it.
pub proof fn lookup_finds_the_first_of_its_name(
    members: Seq<(Seq<char>, JsonView)>,
    name: Seq<char>,
)
    ensures
        match JsonView::Object(members).member(name) {
            Some(value) => exists|i: int|
                0 <= i < members.len() && (#[trigger] members[i]) == (name, value) && forall|j: int|
                    0 <= j < i ==> (#[trigger] members[j]).0 != name,
            None => forall|i: int| 0 <= i < members.len() ==> (#[trigger] members[i]).0 != name,
        },
    decreases members.len(),
{
    if members.len() > 0 {
        if members[0].0 == name {
            assert(members[0] == (name, members[0].1));
        } else {
            let rest = members.drop_first();
            lookup_finds_the_first_of_its_name(rest, name);
            match JsonView::Object(rest).member(name) {
                Some(value) => {
                    let i = choose|i: int|
                        0 <= i < rest.len() && (#[trigger] rest[i]) == (name, value) && forall|
                            j: int,
                        |
                            0 <= j < i ==> (#[trigger] rest[j]).0 != name;
                    assert(members[i + 1] == (name, value));
                    assert forall|j: int| 0 <= j < i + 1 implies (#[trigger] members[j]).0
                        != name by {
                        if j > 0 {
                            assert(rest[j - 1] == members[j]);
                        }
                    }
                },
                None => {
                    assert forall|j: int| 0 <= j < members.len() implies (#[trigger] members[j]).0
                        != name by {
                        if j > 0 {
                            assert(rest[j - 1] == members[j]);
                        }
                    }
                },
            }
        }
    }
}

/// Every value is read by its own kind and by no other: a text as a text, a number as a number, and
/// only an object has members.
pub proof fn values_are_read_by_their_kind(value: JsonView, name: Seq<char>)
    ensures
        match value {
            JsonView::Text(text) => value.text() == Some(text) && value.unsigned() is None
                && value.signed() is None && value.double_bits() is None && value.member(
                name,
            ) is None,
            JsonView::Number(number) => value.text() is None && value.unsigned()
                == number.unsigned && value.signed() == number.signed && value.double_bits()
                == number.double_bits && value.member(name) is None,
            JsonView::Object(_) => value.text() is None && value.unsigned() is None
                && value.signed() is None && value.double_bits() is None,
            _ => value.text() is None && value.unsigned() is None && value.signed() is None
                && value.double_bits() is None && value.member(name) is None,
        },
        value.text_member(name) == match value.member(name) {
            Some(JsonView::Text(text)) => Some(text),
            _ => None,
        },
        value.unsigned_member(name) == match value.member(name) {
            Some(JsonView::Number(number)) => number.unsigned,
            _ => None,
        },
{
}

} // verus!
