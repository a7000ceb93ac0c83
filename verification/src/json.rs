//! JSON documents: the library's own tree, its mathematical content, and the parser that fills
//! it.
use crate::text::same;
use vstd::prelude::*;

verus! {

/// `serde_json::Number`: an integer or a float, carried through unread.
#[verifier::external_type_specification]
#[verifier::external_body]
pub struct ExNumber(serde_json::Number);

/// `serde_json::Value`: what the parser hands back.
#[verifier::external_type_specification]
#[verifier::external_body]
pub struct ExValue(serde_json::Value);

/// A JSON document. An object lists its members; one that was parsed, in the order in which the
/// parser's map walks them.
#[derive(Debug, PartialEq)]
pub enum JsonValue {
    Null,
    Bool(bool),
    Number(serde_json::Number),
    Text(String),
    Array(Vec<JsonValue>),
    Object(Vec<(String, JsonValue)>),
}

/// The content of a [`JsonValue`].
pub enum Json {
    Null,
    Bool(bool),
    Number(serde_json::Number),
    Text(Seq<char>),
    Array(Seq<Json>),
    Object(Seq<(Seq<char>, Json)>),
}

impl JsonValue {
    /// The tree that the value stands for.
    pub open spec fn content(self) -> Json
        decreases self,
    {
        match self {
            JsonValue::Null => Json::Null,
            JsonValue::Bool(b) => Json::Bool(b),
            JsonValue::Number(n) => Json::Number(n),
            JsonValue::Text(s) => Json::Text(s@),
            JsonValue::Array(items) => Json::Array(
                Seq::new(
                    items@.len(),
                    |i: int|
                        if 0 <= i < items@.len() {
                            items@[i].content()
                        } else {
                            Json::Null
                        },
                ),
            ),
            JsonValue::Object(members) => Json::Object(
                Seq::new(
                    members@.len(),
                    |i: int|
                        if 0 <= i < members@.len() {
                            (members@[i].0@, members@[i].1.content())
                        } else {
                            (Seq::<char>::empty(), Json::Null)
                        },
                ),
            ),
        }
    }
}

impl View for JsonValue {
    type V = Json;

    open spec fn view(&self) -> Json {
        self.content()
    }
}

/// The contents of a list of documents.
pub open spec fn item_views(items: Seq<JsonValue>) -> Seq<Json> {
    items.map_values(|v: JsonValue| v@)
}

/// The contents of an object's members.
pub open spec fn member_views(members: Seq<(String, JsonValue)>) -> Seq<(Seq<char>, Json)> {
    members.map_values(|m: (String, JsonValue)| (m.0@, m.1@))
}

/// The value of the first member under `key`.
pub open spec fn member(members: Seq<(Seq<char>, Json)>, key: Seq<char>) -> Option<Json>
    decreases members.len(),
{
    if members.len() == 0 {
        None
    } else if members.first().0 == key {
        Some(members.first().1)
    } else {
        member(members.drop_first(), key)
    }
}

/// No two members share a key.
pub open spec fn distinct_keys(members: Seq<(Seq<char>, Json)>) -> bool {
    forall|i: int, j: int|
        0 <= i < j < members.len() ==> (#[trigger] members[i]).0 != (#[trigger] members[j]).0
}

impl Json {
    /// In every object, at every depth, no two members share a key.
    pub open spec fn well_formed(self) -> bool
        decreases self,
    {
        match self {
            Json::Array(items) => forall|i: int|
                0 <= i < items.len() ==> (#[trigger] items[i]).well_formed(),
            Json::Object(members) => {
                &&& distinct_keys(members)
                &&& forall|i: int|
                    0 <= i < members.len() ==> (#[trigger] members[i]).1.well_formed()
            },
            _ => true,
        }
    }

    /// The member of an object under `key`.
    pub open spec fn get(self, key: Seq<char>) -> Option<Json> {
        match self {
            Json::Object(members) => member(members, key),
            _ => None,
        }
    }

    /// The characters of a text.
    pub open spec fn as_text(self) -> Option<Seq<char>> {
        match self {
            Json::Text(s) => Some(s),
            _ => None,
        }
    }

    /// The text under `key`.
    pub open spec fn text_under(self, key: Seq<char>) -> Option<Seq<char>> {
        match self.get(key) {
            Some(v) => v.as_text(),
            None => None,
        }
    }
}

/// In an object whose keys are distinct, each key leads to its own member.
pub proof fn law_each_key_leads_to_its_member(members: Seq<(Seq<char>, Json)>, i: int)
    requires
        distinct_keys(members),
        0 <= i < members.len(),
    ensures
        Json::Object(members).get(members[i].0) == Some(members[i].1),
    decreases members.len(),
{
    if i > 0 {
        assert(members[0].0 != members[i].0);
        let rest = members.drop_first();
        assert forall|a: int, b: int| 0 <= a < b < rest.len() implies (#[trigger] rest[a]).0 != (
        #[trigger] rest[b]).0 by {
            assert(rest[a] == members[a + 1] && rest[b] == members[b + 1]);
        }
        assert(rest[i - 1] == members[i]);
        law_each_key_leads_to_its_member(rest, i - 1);
    }
}

/// What `key` leads to depends on the members alone, not on their order, where their keys are
/// distinct.
pub proof fn law_member_order_is_immaterial(
    a: Seq<(Seq<char>, Json)>,
    b: Seq<(Seq<char>, Json)>,
    key: Seq<char>,
)
    requires
        distinct_keys(a),
        distinct_keys(b),
        a.to_set() == b.to_set(),
    ensures
        Json::Object(a).get(key) == Json::Object(b).get(key),
{
    lemma_member_found(a, key);
    lemma_member_found(b, key);
    if member(a, key) is Some {
        let i = choose|i: int| 0 <= i < a.len() && (#[trigger] a[i]).0 == key;
        assert(a.to_set().contains(a[i]));
        assert(b.contains(a[i]));
        let j = choose|j: int| 0 <= j < b.len() && b[j] == a[i];
        law_each_key_leads_to_its_member(a, i);
        law_each_key_leads_to_its_member(b, j);
    } else if member(b, key) is Some {
        let j = choose|j: int| 0 <= j < b.len() && (#[trigger] b[j]).0 == key;
        assert(b.to_set().contains(b[j]));
        assert(a.contains(b[j]));
    }
}

proof fn lemma_member_found(members: Seq<(Seq<char>, Json)>, key: Seq<char>)
    ensures
        member(members, key) is Some <==> exists|i: int|
            0 <= i < members.len() && (#[trigger] members[i]).0 == key,
    decreases members.len(),
{
    if members.len() > 0 {
        let rest = members.drop_first();
        lemma_member_found(rest, key);
        if members.first().0 == key {
            assert(members[0].0 == key);
        } else {
            if member(rest, key) is Some {
                let i = choose|i: int| 0 <= i < rest.len() && (#[trigger] rest[i]).0 == key;
                assert(members[i + 1].0 == key);
            }
            if exists|i: int| 0 <= i < members.len() && (#[trigger] members[i]).0 == key {
                let i = choose|i: int| 0 <= i < members.len() && (#[trigger] members[i]).0 == key;
                assert(rest[i - 1].0 == key);
            }
        }
    }
}

impl JsonValue {
    pub proof fn lemma_array_view(items: Vec<JsonValue>)
        ensures
            JsonValue::Array(items)@ == Json::Array(item_views(items@)),
    {
        assert(JsonValue::Array(items)@->Array_0 == item_views(items@));
    }

    pub proof fn lemma_object_view(members: Vec<(String, JsonValue)>)
        ensures
            JsonValue::Object(members)@ == Json::Object(member_views(members@)),
    {
        assert(JsonValue::Object(members)@->Object_0 == member_views(members@));
    }

    /// The member of an object under `key`.
    pub fn get(&self, key: &str) -> (value: Option<&JsonValue>)
        ensures
            match value {
                Some(v) => self@.get(key@) == Some(v@),
                None => self@.get(key@) is None,
            },
    {
        match self {
            JsonValue::Object(members) => {
                let ghost all = member_views(members@);
                proof {
                    JsonValue::lemma_object_view(*members);
                    assert(all.skip(0) == all);
                }
                let mut i: usize = 0;
                while i < members.len()
                    invariant
                        i <= members@.len(),
                        all == member_views(members@),
                        self@ == Json::Object(all),
                        member(all.skip(i as int), key@) == member(all, key@),
                    decreases members@.len() - i,
                {
                    proof {
                        assert(all.skip(i as int).first() == all[i as int]);
                        assert(all[i as int] == (members@[i as int].0@, members@[i as int].1@));
                        assert(all.skip(i as int).drop_first() == all.skip(i + 1));
                    }
                    if same(members[i].0.as_str(), key) {
                        return Some(&members[i].1);
                    }
                    i = i + 1;
                }
                None
            },
            _ => None,
        }
    }

    /// The characters of a text.
    pub fn as_text(&self) -> (text: Option<&String>)
        ensures
            match text {
                Some(s) => self@.as_text() == Some(s@),
                None => self@.as_text() is None,
            },
    {
        match self {
            JsonValue::Text(s) => Some(s),
            _ => None,
        }
    }

    /// The text under `key`.
    pub fn text_under(&self, key: &str) -> (text: Option<String>)
        ensures
            match text {
                Some(s) => self@.text_under(key@) == Some(s@),
                None => self@.text_under(key@) is None,
            },
    {
        match self.get(key) {
            Some(v) => match v.as_text() {
                Some(s) => Some(s.clone()),
                None => None,
            },
            None => None,
        }
    }
}

/// Names what `serde_json::from_str::<serde_json::Value>` makes of a text: the document, or the
/// message of the error.
pub uninterp spec fn json_text_value(text: Seq<char>) -> Result<serde_json::Value, Seq<char>>;

/// Names the tree that a parsed document holds.
pub uninterp spec fn json_content(value: serde_json::Value) -> Json;

/// Names the number that `serde_json::Number::from` makes of an integer.
pub uninterp spec fn json_integer(value: i64) -> serde_json::Number;

/// Calls `serde_json::from_str::<serde_json::Value>`. Whether a text is JSON, what it then holds
/// and how the error reads otherwise are functions of the text alone.
#[verifier::external_body]
fn value_from_text(text: &str) -> (value: Result<serde_json::Value, String>)
    ensures
        match value {
            Ok(v) => json_text_value(text@) == Ok::<serde_json::Value, Seq<char>>(v),
            Err(e) => json_text_value(text@) == Err::<serde_json::Value, Seq<char>>(e@),
        },
{
    serde_json::from_str::<serde_json::Value>(text).map_err(|e| e.to_string())
}

/// Moves the tree out of a `serde_json::Value`, variant by variant. Its objects are
/// `serde_json::Map`s, which hold one member for a key.
#[verifier::external_body]
fn value_content(value: serde_json::Value) -> (json: JsonValue)
    ensures
        json@ == json_content(value),
        json@.well_formed(),
{
    match value {
        serde_json::Value::Null => JsonValue::Null,
        serde_json::Value::Bool(b) => JsonValue::Bool(b),
        serde_json::Value::Number(n) => JsonValue::Number(n),
        serde_json::Value::String(s) => JsonValue::Text(s),
        serde_json::Value::Array(a) => JsonValue::Array(a.into_iter().map(value_content).collect()),
        serde_json::Value::Object(m) => JsonValue::Object(
            m.into_iter().map(|(key, v)| (key, value_content(v))).collect(),
        ),
    }
}

/// Calls `serde_json::Number::from` on a signed integer.
#[verifier::external_body]
pub(crate) fn integer(value: i64) -> (number: serde_json::Number)
    ensures
        number == json_integer(value),
{
    serde_json::Number::from(value)
}

/// What a text holds as JSON, or the message that refuses it.
pub open spec fn json_of_text(text: Seq<char>) -> Result<Json, Seq<char>> {
    match json_text_value(text) {
        Ok(value) => Ok(json_content(value)),
        Err(message) => Err(message),
    }
}

/// Parses a text as JSON; the error is the parser's message.
pub fn parse_json(text: &str) -> (json: Result<JsonValue, String>)
    ensures
        match json {
            Ok(v) => json_of_text(text@) == Ok::<Json, Seq<char>>(v@) && v@.well_formed(),
            Err(e) => json_of_text(text@) == Err::<Json, Seq<char>>(e@),
        },
{
    match value_from_text(text) {
        Ok(value) => Ok(value_content(value)),
        Err(message) => Err(message),
    }
}

/// A key leads to the first member that has it, and nowhere where no member has it or the
/// document is no object.
pub proof fn law_key_leads_to_its_first_member(
    members: Seq<(Seq<char>, Json)>,
    key: Seq<char>,
    i: int,
)
    ensures
        0 <= i < members.len() && members[i].0 == key && (forall|j: int|
            0 <= j < i ==> (#[trigger] members[j]).0 != key) ==> Json::Object(members).get(key)
            == Some(members[i].1),
        Json::Object(members).get(key) is None <==> forall|j: int|
            0 <= j < members.len() ==> (#[trigger] members[j]).0 != key,
    decreases members.len(),
{
    lemma_member_found(members, key);
    if 0 <= i < members.len() && members[i].0 == key && (forall|j: int|
        0 <= j < i ==> (#[trigger] members[j]).0 != key) && i > 0 {
        let rest = members.drop_first();
        assert(members[0].0 != key);
        assert forall|j: int| 0 <= j < i - 1 implies (#[trigger] rest[j]).0 != key by {
            assert(rest[j] == members[j + 1]);
        }
        assert(rest[i - 1] == members[i]);
        law_key_leads_to_its_first_member(rest, key, i - 1);
    }
}

/// Only an object has something under a key, and only a text has characters.
pub proof fn law_what_a_document_gives(value: Json, key: Seq<char>)
    ensures
        value.get(key) is Some ==> value is Object,
        forall|s: Seq<char>| value.as_text() == Some(s) <==> value == Json::Text(s),
        forall|s: Seq<char>|
            value.text_under(key) == Some(s) <==> value.get(key) == Some(Json::Text(s)),
{
}

/// The contents of lists of documents and of members go item by item.
pub proof fn law_contents_go_by_items(items: Seq<JsonValue>, members: Seq<(String, JsonValue)>)
    ensures
        item_views(items).len() == items.len(),
        forall|i: int| 0 <= i < items.len() ==> (#[trigger] item_views(items)[i]) == items[i]@,
        member_views(members).len() == members.len(),
        forall|i: int|
            0 <= i < members.len() ==> (#[trigger] member_views(members)[i]) == (
                members[i].0@,
                members[i].1@,
            ),
{
}

/// A text is JSON exactly where the parser takes it, and it holds what the parser hands back;
/// otherwise the message is the parser's.
pub proof fn law_text_holds_what_the_parser_makes_of_it(text: Seq<char>)
    ensures
        json_text_value(text) matches Ok(value) ==> json_of_text(text) == Ok::<Json, Seq<char>>(
            json_content(value),
        ),
        json_text_value(text) matches Err(message) ==> json_of_text(text) == Err::<Json, Seq<char>>(
            message,
        ),
{
}

} // verus!
