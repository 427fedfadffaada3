use vstd::prelude::*;

use crate::counter::lex_lt;

verus! {

/// A JSON number as the JSON text reader classifies it: a non-negative
/// integer, a negative integer, or any other number (kept by its text).
#[derive(Debug, Clone)]
pub enum JsonNumber {
    PosInt(u64),
    NegInt(i64),
    Float(String),
}

/// A JSON document held as plain values.  Object members keep their order.
#[derive(Debug)]
pub enum JsonValue {
    Null,
    Bool(bool),
    Number(JsonNumber),
    Str(String),
    Array(Vec<JsonValue>),
    Object(Vec<(String, JsonValue)>),
}

/// The mathematical view of a [`JsonNumber`].
pub enum Num {
    PosInt(u64),
    NegInt(i64),
    Float(Seq<char>),
}

/// The mathematical view of a [`JsonValue`].
pub enum Json {
    Null,
    Bool(bool),
    Number(Num),
    Str(Seq<char>),
    Array(Seq<Json>),
    Object(Seq<(Seq<char>, Json)>),
}

impl View for JsonNumber {
    type V = Num;

    open spec fn view(&self) -> Num {
        match self {
            JsonNumber::PosInt(u) => Num::PosInt(*u),
            JsonNumber::NegInt(i) => Num::NegInt(*i),
            JsonNumber::Float(t) => Num::Float(t@),
        }
    }
}

pub open spec fn json_view(v: JsonValue) -> Json
    decreases v,
{
    match v {
        JsonValue::Null => Json::Null,
        JsonValue::Bool(b) => Json::Bool(b),
        JsonValue::Number(n) => Json::Number(n@),
        JsonValue::Str(s) => Json::Str(s@),
        JsonValue::Array(items) => Json::Array(
            Seq::new(
                items@.len(),
                |i: int|
                    if 0 <= i < items@.len() {
                        json_view(items@[i])
                    } else {
                        Json::Null
                    },
            ),
        ),
        JsonValue::Object(members) => Json::Object(
            Seq::new(
                members@.len(),
                |i: int|
                    if 0 <= i < members@.len() {
                        (members@[i].0@, json_view(members@[i].1))
                    } else {
                        (Seq::empty(), Json::Null)
                    },
            ),
        ),
    }
}

impl View for JsonValue {
    type V = Json;

    open spec fn view(&self) -> Json {
        json_view(*self)
    }
}


/// The value of the last member of `members` named `key`.
pub open spec fn member_value(members: Seq<(Seq<char>, Json)>, key: Seq<char>) -> Option<Json>
    decreases members.len(),
{
    if members.len() == 0 {
        None
    } else if members.last().0 == key {
        Some(members.last().1)
    } else {
        member_value(members.drop_last(), key)
    }
}

impl Json {
    /// Member `key` of an object; nothing for any other value.
    pub open spec fn get(self, key: Seq<char>) -> Option<Json> {
        match self {
            Json::Object(members) => member_value(members, key),
            _ => None,
        }
    }

    pub open spec fn as_str(self) -> Option<Seq<char>> {
        match self {
            Json::Str(s) => Some(s),
            _ => None,
        }
    }

    pub open spec fn as_bool(self) -> Option<bool> {
        match self {
            Json::Bool(b) => Some(b),
            _ => None,
        }
    }

    /// An integer number that fits in `i64`.
    pub open spec fn as_i64(self) -> Option<i64> {
        match self {
            Json::Number(Num::PosInt(u)) => if u <= i64::MAX {
                Some(u as i64)
            } else {
                None
            },
            Json::Number(Num::NegInt(i)) => Some(i),
            _ => None,
        }
    }

    /// A non-negative integer number.
    pub open spec fn as_u64(self) -> Option<u64> {
        match self {
            Json::Number(Num::PosInt(u)) => Some(u),
            _ => None,
        }
    }

    pub open spec fn as_array(self) -> Option<Seq<Json>> {
        match self {
            Json::Array(items) => Some(items),
            _ => None,
        }
    }

    pub open spec fn is_object(self) -> bool {
        self is Object
    }
}

/// The view of an optional borrowed value.
pub open spec fn opt_view(v: Option<&JsonValue>) -> Option<Json> {
    match v {
        Some(x) => Some(x@),
        None => None,
    }
}

/// Whether two strings hold the same characters.
#[verifier::external_body]
pub(crate) fn str_eq(a: &str, b: &str) -> (r: bool)
    ensures
        r == (a@ == b@),
{
    a == b
}

impl JsonValue {
    /// Looks up member `key` of an object (the last one, should a key repeat).
    pub fn get(&self, key: &str) -> (r: Option<&JsonValue>)
        ensures
            opt_view(r) == self@.get(key@),
    {
        match self {
            JsonValue::Object(members) => {
                let ghost mv = self@->Object_0;
                assert(mv.len() == members@.len());
                let mut i = members.len();
                assert(mv.take(i as int) =~= mv);
                while i > 0
                    invariant
                        i <= members@.len(),
                        mv.len() == members@.len(),
                        mv == self@->Object_0,
                        *self == JsonValue::Object(*members),
                        member_value(mv, key@) == member_value(mv.take(i as int), key@),
                    decreases i,
                {
                    let ghost pre = mv.take(i as int);
                    assert(pre.drop_last() =~= mv.take(i - 1));
                    assert(pre.last() == mv[i - 1]);
                    if str_eq(members[i - 1].0.as_str(), key) {
                        return Some(&members[i - 1].1);
                    }
                    i = i - 1;
                }
                assert(mv.take(0) =~= Seq::<(Seq<char>, Json)>::empty());
                None
            },
            _ => None,
        }
    }

    pub fn as_str(&self) -> (r: Option<&str>)
        ensures
            match r {
                Some(s) => self@.as_str() == Some(s@),
                None => self@.as_str() is None,
            },
    {
        match self {
            JsonValue::Str(s) => Some(s.as_str()),
            _ => None,
        }
    }

    pub fn as_bool(&self) -> (r: Option<bool>)
        ensures
            r == self@.as_bool(),
    {
        match self {
            JsonValue::Bool(b) => Some(*b),
            _ => None,
        }
    }

    pub fn as_i64(&self) -> (r: Option<i64>)
        ensures
            r == self@.as_i64(),
    {
        match self {
            JsonValue::Number(JsonNumber::PosInt(u)) => if *u <= i64::MAX as u64 {
                Some(*u as i64)
            } else {
                None
            },
            JsonValue::Number(JsonNumber::NegInt(i)) => Some(*i),
            _ => None,
        }
    }

    pub fn as_u64(&self) -> (r: Option<u64>)
        ensures
            r == self@.as_u64(),
    {
        match self {
            JsonValue::Number(JsonNumber::PosInt(u)) => Some(*u),
            _ => None,
        }
    }

    pub fn as_array(&self) -> (r: Option<&Vec<JsonValue>>)
        ensures
            match r {
                Some(items) => self@.as_array() == Some(
                    Seq::new(items@.len(), |i: int| items@[i]@),
                ),
                None => self@.as_array() is None,
            },
    {
        match self {
            JsonValue::Array(items) => {
                assert(self@->Array_0 =~= Seq::new(items@.len(), |i: int| items@[i]@));
                Some(items)
            },
            _ => None,
        }
    }

    pub fn is_object(&self) -> (r: bool)
        ensures
            r == self@.is_object(),
    {
        matches!(self, JsonValue::Object(_))
    }
}


/// The text of member `key`, where it is a string.
pub open spec fn str_member(v: Json, key: Seq<char>) -> Option<Seq<char>> {
    match v.get(key) {
        Some(x) => x.as_str(),
        None => None,
    }
}

/// Member `key`, where it is a boolean.
pub open spec fn bool_member(v: Json, key: Seq<char>) -> Option<bool> {
    match v.get(key) {
        Some(x) => x.as_bool(),
        None => None,
    }
}

/// Member `key`, where it is an integer that fits in `i64`.
pub open spec fn i64_member(v: Json, key: Seq<char>) -> Option<i64> {
    match v.get(key) {
        Some(x) => x.as_i64(),
        None => None,
    }
}

/// Member `key`, where it is a non-negative integer.
pub open spec fn u64_member(v: Json, key: Seq<char>) -> Option<u64> {
    match v.get(key) {
        Some(x) => x.as_u64(),
        None => None,
    }
}

impl JsonValue {
    /// The text of member `key`, where it is a string.
    pub fn str_member(&self, key: &str) -> (r: Option<&str>)
        ensures
            match r {
                Some(s) => str_member(self@, key@) == Some(s@),
                None => str_member(self@, key@) is None,
            },
    {
        match self.get(key) {
            Some(x) => x.as_str(),
            None => None,
        }
    }

    /// The text of member `key`, copied, where it is a string.
    pub fn string_member(&self, key: &str) -> (r: Option<String>)
        ensures
            crate::types::opt_chars(r) == str_member(self@, key@),
    {
        match self.str_member(key) {
            Some(s) => Some(s.to_owned()),
            None => None,
        }
    }

    pub fn bool_member(&self, key: &str) -> (r: Option<bool>)
        ensures
            r == bool_member(self@, key@),
    {
        match self.get(key) {
            Some(x) => x.as_bool(),
            None => None,
        }
    }

    pub fn i64_member(&self, key: &str) -> (r: Option<i64>)
        ensures
            r == i64_member(self@, key@),
    {
        match self.get(key) {
            Some(x) => x.as_i64(),
            None => None,
        }
    }

    pub fn u64_member(&self, key: &str) -> (r: Option<u64>)
        ensures
            r == u64_member(self@, key@),
    {
        match self.get(key) {
            Some(x) => x.as_u64(),
            None => None,
        }
    }
}

/// The views of object members.
pub open spec fn members_view(ms: Seq<(String, JsonValue)>) -> Seq<(Seq<char>, Json)> {
    Seq::new(ms.len(), |i: int| (ms[i].0@, ms[i].1@))
}

/// The views of array items.
pub open spec fn items_view(items: Seq<JsonValue>) -> Seq<Json> {
    Seq::new(items.len(), |i: int| items[i]@)
}

pub proof fn lemma_object_view(ms: Vec<(String, JsonValue)>)
    ensures
        JsonValue::Object(ms)@ == Json::Object(members_view(ms@)),
{
    assert(JsonValue::Object(ms)@->Object_0 =~= members_view(ms@));
}

pub proof fn lemma_array_view(items: Vec<JsonValue>)
    ensures
        JsonValue::Array(items)@ == Json::Array(items_view(items@)),
{
    assert(JsonValue::Array(items)@->Array_0 =~= items_view(items@));
}

/// The index of the last member named `key`, or -1.
pub open spec fn last_index_of(ms: Seq<(Seq<char>, Json)>, key: Seq<char>) -> int
    decreases ms.len(),
{
    if ms.len() == 0 {
        -1
    } else if ms.last().0 == key {
        ms.len() - 1
    } else {
        last_index_of(ms.drop_last(), key)
    }
}

pub proof fn lemma_last_index(ms: Seq<(Seq<char>, Json)>, key: Seq<char>)
    ensures
        -1 <= last_index_of(ms, key) < ms.len(),
        last_index_of(ms, key) >= 0 ==> ms[last_index_of(ms, key)].0 == key
            && member_value(ms, key) == Some(ms[last_index_of(ms, key)].1),
        last_index_of(ms, key) < 0 ==> member_value(ms, key) is None,
        forall|j: int| last_index_of(ms, key) < j < ms.len() ==> (#[trigger] ms[j]).0 != key,
    decreases ms.len(),
{
    if ms.len() > 0 && ms.last().0 != key {
        lemma_last_index(ms.drop_last(), key);
        assert forall|j: int| last_index_of(ms, key) < j < ms.len() implies (#[trigger] ms[j]).0 != key by {
            if j < ms.len() - 1 {
                assert(ms[j] == ms.drop_last()[j]);
            }
        }
    }
}

/// The members with `key` set to `v`: the last member of that name
/// replaced in place, or a new member at the end.
pub open spec fn put_member(ms: Seq<(Seq<char>, Json)>, key: Seq<char>, v: Json) -> Seq<(Seq<char>, Json)> {
    let i = last_index_of(ms, key);
    if i >= 0 {
        ms.update(i, (key, v))
    } else {
        ms.push((key, v))
    }
}

/// Finds the last member named `key`.
pub fn find_member(ms: &Vec<(String, JsonValue)>, key: &str) -> (r: Option<usize>)
    ensures
        match r {
            Some(i) => i as int == last_index_of(members_view(ms@), key@),
            None => last_index_of(members_view(ms@), key@) == -1,
        },
{
    let ghost mv = members_view(ms@);
    let mut i = ms.len();
    assert(mv.take(i as int) =~= mv);
    while i > 0
        invariant
            i <= ms@.len(),
            mv == members_view(ms@),
            last_index_of(mv, key@) == last_index_of(mv.take(i as int), key@),
        decreases i,
    {
        let ghost pre = mv.take(i as int);
        assert(pre.drop_last() =~= mv.take(i - 1));
        assert(pre.last() == mv[i - 1]);
        if str_eq(ms[i - 1].0.as_str(), key) {
            return Some(i - 1);
        }
        i = i - 1;
    }
    None
}

/// Declares `serde_json::Value`, the JSON tree of the `serde_json` crate.
#[verifier::external_type_specification]
#[verifier::external_body]
pub struct ExSerdeValue(serde_json::Value);

/// Declares `serde_json::Number`, a number of that tree.
#[verifier::external_type_specification]
#[verifier::external_body]
pub struct ExSerdeNumber(serde_json::Number);

/// What `serde_json::from_str::<serde_json::Value>` reads from a text, as a
/// plain value: `None` where the text is not one JSON document.
pub uninterp spec fn json_parse_result(text: Seq<char>) -> Option<Json>;

/// The compact text that `serde_json` writes for a document.
pub uninterp spec fn json_compact_text(v: Json) -> Seq<char>;

/// The indented text that `serde_json` writes for a document.
pub uninterp spec fn json_pretty_text(v: Json) -> Seq<char>;

/// The view of an optional owned document.
pub open spec fn opt_json(v: Option<JsonValue>) -> Option<Json> {
    match v {
        Some(x) => Some(x@),
        None => None,
    }
}

/// Moves a `serde_json` tree into the library's own tree, one node for one
/// node, object members in the map's order.
#[verifier::external_body]
fn from_serde(v: serde_json::Value) -> JsonValue {
    match v {
        serde_json::Value::Null => JsonValue::Null,
        serde_json::Value::Bool(b) => JsonValue::Bool(b),
        serde_json::Value::Number(n) => JsonValue::Number(number_from_serde(&n)),
        serde_json::Value::String(s) => JsonValue::Str(s),
        serde_json::Value::Array(a) => JsonValue::Array(a.into_iter().map(from_serde).collect()),
        serde_json::Value::Object(m) => JsonValue::Object(m.into_iter().map(|(k, x)| (k, from_serde(x))).collect()),
    }
}

/// A `serde_json` number by its `as_u64` reading, else its `as_i64`
/// reading, else its text.
#[verifier::external_body]
fn number_from_serde(n: &serde_json::Number) -> JsonNumber {
    match (n.as_u64(), n.as_i64()) {
        (Some(u), _) => JsonNumber::PosInt(u),
        (None, Some(i)) => JsonNumber::NegInt(i),
        (None, None) => JsonNumber::Float(n.to_string()),
    }
}

/// Builds the `serde_json` tree of the library's tree, one node for one
/// node (a repeated member name keeps its last value, as a map insert does).
#[verifier::external_body]
fn to_serde(v: &JsonValue) -> serde_json::Value {
    match v {
        JsonValue::Null => serde_json::Value::Null,
        JsonValue::Bool(b) => serde_json::Value::Bool(*b),
        JsonValue::Number(n) => number_to_serde(n),
        JsonValue::Str(s) => serde_json::Value::String(s.clone()),
        JsonValue::Array(a) => serde_json::Value::Array(a.iter().map(to_serde).collect()),
        JsonValue::Object(m) => serde_json::Value::Object(m.iter().map(|(k, x)| (k.clone(), to_serde(x))).collect()),
    }
}

/// The `serde_json` value of a number: an integer as such, other text read
/// back as a number (or `null` where it does not read as one).
#[verifier::external_body]
fn number_to_serde(n: &JsonNumber) -> serde_json::Value {
    match n {
        JsonNumber::PosInt(u) => serde_json::Value::from(*u),
        JsonNumber::NegInt(i) => serde_json::Value::from(*i),
        JsonNumber::Float(t) => t.parse::<serde_json::Number>().map(serde_json::Value::Number).unwrap_or(serde_json::Value::Null),
    }
}

/// Reads one JSON document with `serde_json::from_str`; the result is named
/// [`json_parse_result`] of the text and is not otherwise described here.
#[verifier::external_body]
pub(crate) fn parse_json(text: &str) -> (r: Option<JsonValue>)
    ensures
        opt_json(r) == json_parse_result(text@),
{
    serde_json::from_str::<serde_json::Value>(text).ok().map(from_serde)
}

/// A scalar that reads back as itself from its JSON text: not a number
/// with a fraction or exponent, and a negative integer only below zero.
pub open spec fn plain_scalar(v: Json) -> bool {
    match v {
        Json::Null => true,
        Json::Bool(_) => true,
        Json::Str(_) => true,
        Json::Number(Num::PosInt(_)) => true,
        Json::Number(Num::NegInt(i)) => i < 0,
        _ => false,
    }
}

/// An object of plain scalars whose member names are in strictly
/// increasing order (the order in which `serde_json`'s map keeps them).
pub open spec fn flat_record(v: Json) -> bool {
    match v {
        Json::Object(ms) => {
            &&& forall|i: int| 0 <= i < ms.len() ==> plain_scalar(#[trigger] ms[i].1)
            &&& forall|i: int, j: int| 0 <= i < j < ms.len() ==> lex_lt(#[trigger] ms[i].0, #[trigger] ms[j].0)
        },
        _ => false,
    }
}

/// Writes a document with `serde_json`'s compact `Display`; the text is named
/// [`json_compact_text`] of the document.  The text of a flat record reads
/// back as the same record: strings are escaped and read back unchanged,
/// integers are written in full, and the map writes members in key order.
#[verifier::external_body]
pub(crate) fn json_to_text(v: &JsonValue) -> (r: String)
    ensures
        r@ == json_compact_text(v@),
        flat_record(v@) ==> json_parse_result(r@) == Some(v@),
{
    to_serde(v).to_string()
}

/// Writes a document with `serde_json`'s indented `Display` (the `{:#}`
/// form, as `serde_json::to_string_pretty` does); the text is named
/// [`json_pretty_text`] of the document.
#[verifier::external_body]
pub(crate) fn json_to_pretty_text(v: &JsonValue) -> (r: String)
    ensures
        r@ == json_pretty_text(v@),
{
    format!("{:#}", to_serde(v))
}

} // verus!
