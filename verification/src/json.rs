//! JSON values as the library holds them.
use serde_json::Value;
use vstd::prelude::*;
use crate::text::chars::same;

verus! {

/// A JSON value. The members of an object stand in the order in which they
/// were read or added.
#[derive(Debug, PartialEq)]
pub enum Json {
    Null,
    Bool(bool),
    Unsigned(u64),
    /// A negative integer.
    Signed(i64),
    /// A number that is no 64-bit integer, in its decimal form.
    Float(String),
    Text(String),
    Array(Vec<Json>),
    Object(Vec<(String, Json)>),
}

/// A JSON value as a mathematical one.
pub enum JsonView {
    Null,
    Bool(bool),
    Unsigned(u64),
    Signed(i64),
    Float(Seq<char>),
    Text(Seq<char>),
    Array(Seq<JsonView>),
    Object(Seq<(Seq<char>, JsonView)>),
}

impl Json {
    pub open spec fn model(&self) -> JsonView
        decreases self,
    {
        match self {
            Json::Null => JsonView::Null,
            Json::Bool(b) => JsonView::Bool(*b),
            Json::Unsigned(n) => JsonView::Unsigned(*n),
            Json::Signed(n) => JsonView::Signed(*n),
            Json::Float(t) => JsonView::Float(t@),
            Json::Text(t) => JsonView::Text(t@),
            Json::Array(items) => JsonView::Array(
                Seq::new(
                    items@.len(),
                    |i: int|
                        if 0 <= i < items@.len() {
                            items@[i].model()
                        } else {
                            JsonView::Null
                        },
                ),
            ),
            Json::Object(members) => JsonView::Object(
                Seq::new(
                    members@.len(),
                    |i: int|
                        if 0 <= i < members@.len() {
                            (members@[i].0@, members@[i].1.model())
                        } else {
                            (Seq::empty(), JsonView::Null)
                        },
                ),
            ),
        }
    }
}

impl View for Json {
    type V = JsonView;

    open spec fn view(&self) -> JsonView {
        self.model()
    }
}

/// An object without members.
pub open spec fn obj() -> JsonView {
    JsonView::Object(Seq::empty())
}

/// A string value.
pub open spec fn txt(t: Seq<char>) -> JsonView {
    JsonView::Text(t)
}

pub open spec fn items_view(v: Seq<Json>) -> Seq<JsonView> {
    v.map_values(|j: Json| j@)
}

pub open spec fn members_view(v: Seq<(String, Json)>) -> Seq<(Seq<char>, JsonView)> {
    v.map_values(|m: (String, Json)| (m.0@, m.1@))
}

/// The value of the first member named `key`.
pub open spec fn member_of(members: Seq<(Seq<char>, JsonView)>, key: Seq<char>) -> Option<JsonView>
    decreases members.len(),
{
    if members.len() == 0 {
        None
    } else if members[0].0 == key {
        Some(members[0].1)
    } else {
        member_of(members.skip(1), key)
    }
}

impl JsonView {
    /// An object with one more member.
    pub open spec fn with(self, key: Seq<char>, value: JsonView) -> JsonView {
        match self {
            JsonView::Object(members) => JsonView::Object(members.push((key, value))),
            other => other,
        }
    }

    /// The member `key` of an object, where it has one.
    pub open spec fn field(self, key: Seq<char>) -> Option<JsonView> {
        match self {
            JsonView::Object(members) => member_of(members, key),
            _ => None,
        }
    }

    /// The member `key` of an object, `Null` where there is none.
    pub open spec fn at(self, key: Seq<char>) -> JsonView {
        match self.field(key) {
            Some(v) => v,
            None => JsonView::Null,
        }
    }

    pub open spec fn as_text(self) -> Option<Seq<char>> {
        match self {
            JsonView::Text(t) => Some(t),
            _ => None,
        }
    }

    pub open spec fn as_bool(self) -> Option<bool> {
        match self {
            JsonView::Bool(b) => Some(b),
            _ => None,
        }
    }

    pub open spec fn as_u64(self) -> Option<u64> {
        match self {
            JsonView::Unsigned(n) => Some(n),
            _ => None,
        }
    }

    pub open spec fn is_number(self) -> bool {
        self is Unsigned || self is Signed || self is Float
    }

    /// The items of an array, none of anything else.
    pub open spec fn items(self) -> Seq<JsonView> {
        match self {
            JsonView::Array(items) => items,
            _ => Seq::empty(),
        }
    }
}

pub proof fn lemma_array_view(v: Vec<Json>)
    ensures
        Json::Array(v)@ == JsonView::Array(items_view(v@)),
{
    assert(Json::Array(v)@->Array_0 =~= items_view(v@));
}

pub proof fn lemma_object_view(v: Vec<(String, Json)>)
    ensures
        Json::Object(v)@ == JsonView::Object(members_view(v@)),
{
    assert(Json::Object(v)@->Object_0 =~= members_view(v@));
}

impl Json {
    /// A string value.
    pub fn text(t: &str) -> (r: Json)
        ensures
            r@ == JsonView::Text(t@),
    {
        Json::Text(t.to_owned())
    }

    /// An array value.
    pub fn array(items: Vec<Json>) -> (r: Json)
        ensures
            r@ == JsonView::Array(items_view(items@)),
    {
        proof {
            lemma_array_view(items);
        }
        Json::Array(items)
    }

    /// An object value.
    pub fn object(members: Vec<(String, Json)>) -> (r: Json)
        ensures
            r@ == JsonView::Object(members_view(members@)),
    {
        proof {
            lemma_object_view(members);
        }
        Json::Object(members)
    }

    /// An object without members.
    pub fn empty() -> (r: Json)
        ensures
            r@ == obj(),
    {
        let members: Vec<(String, Json)> = Vec::new();
        let r = Json::object(members);
        assert(members_view(members@) =~= Seq::empty());
        r
    }

    /// An object with one more member.
    pub fn put(self, key: &str, value: Json) -> (r: Json)
        requires
            self@ is Object,
        ensures
            r@ == self@.with(key@, value@),
    {
        match self {
            Json::Object(members) => {
                proof {
                    lemma_object_view(members);
                }
                let ghost before = members@;
                let mut all = members;
                let member = (key.to_owned(), value);
                all.push(member);
                assert(members_view(before.push(member)) =~= members_view(before).push(
                    (key@, value@),
                ));
                Json::object(all)
            },
            other => other,
        }
    }

    /// The items of an array.
    pub fn as_array(&self) -> (r: Option<&Vec<Json>>)
        ensures
            match r {
                Some(v) => self@ == JsonView::Array(items_view(v@)),
                None => !(self@ is Array),
            },
    {
        match self {
            Json::Array(items) => {
                proof {
                    lemma_array_view(*items);
                }
                Some(items)
            },
            _ => None,
        }
    }

    /// A copy of the value.
    pub fn copy(&self) -> (r: Json)
        ensures
            r@ == self@,
        decreases self,
    {
        match self {
            Json::Null => Json::Null,
            Json::Bool(b) => Json::Bool(*b),
            Json::Unsigned(n) => Json::Unsigned(*n),
            Json::Signed(n) => Json::Signed(*n),
            Json::Float(t) => Json::Float(t.clone()),
            Json::Text(t) => Json::Text(t.clone()),
            Json::Array(items) => {
                let mut out: Vec<Json> = Vec::new();
                for i in 0..items.len()
                    invariant
                        *self == Json::Array(*items),
                        items_view(out@) == items_view(items@.take(i as int)),
                {
                    assert(decreases_to!(*self => self->Array_0));
                    assert(decreases_to!(items@ => items@[i as int]));
                    let item = items[i].copy();
                    assert(items_view(out@.push(item)) =~= items_view(out@).push(item@));
                    assert(items_view(items@.take(i + 1)) =~= items_view(
                        items@.take(i as int),
                    ).push(item@));
                    out.push(item);
                }
                assert(items@.take(items@.len() as int) =~= items@);
                proof {
                    lemma_array_view(*items);
                }
                Json::array(out)
            },
            Json::Object(members) => {
                let mut out: Vec<(String, Json)> = Vec::new();
                for i in 0..members.len()
                    invariant
                        *self == Json::Object(*members),
                        members_view(out@) == members_view(members@.take(i as int)),
                {
                    assert(decreases_to!(*self => self->Object_0));
                    assert(decreases_to!(members@ => members@[i as int]));
                    let member = (members[i].0.clone(), members[i].1.copy());
                    assert(members_view(out@.push(member)) =~= members_view(out@).push(
                        (member.0@, member.1@),
                    ));
                    assert(members_view(members@.take(i + 1)) =~= members_view(
                        members@.take(i as int),
                    ).push((member.0@, member.1@)));
                    out.push(member);
                }
                assert(members@.take(members@.len() as int) =~= members@);
                proof {
                    lemma_object_view(*members);
                }
                Json::object(out)
            },
        }
    }

    /// The member `key` of an object, where it has one.
    pub fn get(&self, key: &str) -> (r: Option<&Json>)
        ensures
            match r {
                Some(v) => self@.field(key@) == Some(v@),
                None => self@.field(key@) is None,
            },
    {
        match self {
            Json::Object(members) => {
                proof {
                    lemma_object_view(*members);
                }
                let ghost all = members_view(members@);
                assert(all.skip(0) =~= all);
                for i in 0..members.len()
                    invariant
                        *self == Json::Object(*members),
                        self@ == JsonView::Object(all),
                        all == members_view(members@),
                        member_of(all, key@) == member_of(all.skip(i as int), key@),
                {
                    if same(&members[i].0, key) {
                        return Some(&members[i].1);
                    }
                    assert(all.skip(i as int).skip(1) =~= all.skip(i + 1));
                }
                None
            },
            _ => None,
        }
    }

    /// The text of the member `key` of an object, where that is a string.
    pub fn text_at(&self, key: &str) -> (r: Option<&str>)
        ensures
            match r {
                Some(t) => self@.at(key@).as_text() == Some(t@),
                None => self@.at(key@).as_text() is None,
            },
    {
        match self.get(key) {
            Some(v) => v.as_str(),
            None => None,
        }
    }

    /// The text of a string value.
    pub fn as_str(&self) -> (r: Option<&str>)
        ensures
            match r {
                Some(t) => self@.as_text() == Some(t@),
                None => self@.as_text() is None,
            },
    {
        match self {
            Json::Text(t) => Some(t.as_str()),
            _ => None,
        }
    }

    /// The boolean of the member `key` of an object, where that is one.
    pub fn bool_at(&self, key: &str) -> (r: Option<bool>)
        ensures
            r == self@.at(key@).as_bool(),
    {
        match self.get(key) {
            Some(Json::Bool(b)) => Some(*b),
            _ => None,
        }
    }

    /// The unsigned integer of the member `key` of an object, where that is one.
    pub fn u64_at(&self, key: &str) -> (r: Option<u64>)
        ensures
            r == self@.at(key@).as_u64(),
    {
        match self.get(key) {
            Some(Json::Unsigned(n)) => Some(*n),
            _ => None,
        }
    }
}

/// What `serde_json` reads from a text: the value, or its error's message.
pub uninterp spec fn json_parse(text: Seq<char>) -> Result<JsonView, Seq<char>>;

/// The compact text that `serde_json` writes for a value.
pub uninterp spec fn json_text(value: JsonView) -> Seq<char>;

/// The indented text that `serde_json` writes for a value.
pub uninterp spec fn json_pretty(value: JsonView) -> Seq<char>;

/// The value type of `serde_json`, which only the conversions below handle.
#[verifier::external_type_specification]
#[verifier::external_body]
pub struct ExValue(serde_json::Value);

/// Converts a value of `serde_json`, variant by variant; a number keeps its
/// integer where it has one and its decimal form otherwise.
#[verifier::external_body]
pub(crate) fn json_of(value: &Value) -> Json {
    match value {
        Value::Null => Json::Null,
        Value::Bool(b) => Json::Bool(*b),
        Value::Number(n) => match (n.as_u64(), n.as_i64()) {
            (Some(u), _) => Json::Unsigned(u),
            (None, Some(i)) => Json::Signed(i),
            (None, None) => Json::Float(n.to_string()),
        },
        Value::String(t) => Json::Text(t.clone()),
        Value::Array(a) => Json::Array(a.iter().map(json_of).collect()),
        Value::Object(o) => Json::Object(
            o.iter().map(|(k, v)| (k.clone(), json_of(v))).collect(),
        ),
    }
}

/// Converts to a value of `serde_json`, variant by variant.
#[verifier::external_body]
pub(crate) fn value_of(json: &Json) -> Value {
    match json {
        Json::Null => Value::Null,
        Json::Bool(b) => Value::Bool(*b),
        Json::Unsigned(n) => Value::from(*n),
        Json::Signed(n) => Value::from(*n),
        Json::Float(t) => serde_json::from_str(t).unwrap_or_default(),
        Json::Text(t) => Value::String(t.clone()),
        Json::Array(a) => Value::Array(a.iter().map(value_of).collect()),
        Json::Object(o) => Value::Object(
            o.iter().map(|(k, v)| (k.clone(), value_of(v))).collect(),
        ),
    }
}

/// `serde_json::from_str`: the value that a text holds, or the message of the
/// error. Both depend on the text alone.
#[verifier::external_body]
fn read_value(text: &str) -> (r: Result<Json, String>)
    ensures
        match r {
            Ok(v) => json_parse(text@) == Ok::<JsonView, Seq<char>>(v@),
            Err(e) => json_parse(text@) == Err::<JsonView, Seq<char>>(e@),
        },
{
    serde_json::from_str::<Value>(text).map(|v| json_of(&v)).map_err(|e| e.to_string())
}

/// `serde_json::Value::to_string`: the compact text of a value.
#[verifier::external_body]
fn write_compact(json: &Json) -> (r: String)
    ensures
        r@ == json_text(json@),
{
    value_of(json).to_string()
}

/// `serde_json::to_string_pretty`: the indented text of a value. Writing a
/// value to memory does not fail.
#[verifier::external_body]
fn write_pretty(json: &Json) -> (r: String)
    ensures
        r@ == json_pretty(json@),
{
    serde_json::to_string_pretty(&value_of(json)).unwrap_or_default()
}

/// The value that a text holds, or the message of the error.
pub fn parse(text: &str) -> (r: Result<Json, String>)
    ensures
        match r {
            Ok(v) => json_parse(text@) == Ok::<JsonView, Seq<char>>(v@),
            Err(e) => json_parse(text@) == Err::<JsonView, Seq<char>>(e@),
        },
{
    read_value(text)
}

/// The compact text of a value.
pub fn compact(json: &Json) -> (r: String)
    ensures
        r@ == json_text(json@),
{
    write_compact(json)
}

/// The indented text of a value.
pub fn pretty(json: &Json) -> (r: String)
    ensures
        r@ == json_pretty(json@),
{
    write_pretty(json)
}

} // verus!
