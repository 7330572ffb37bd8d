//! JSON documents as plain values, with reading and writing by `serde_json`.

use serde_json::{Number, Value};
use vstd::prelude::*;

use crate::text;

verus! {

/// A JSON document. An object holds its members in the order of their keys.
#[derive(Debug, PartialEq)]
pub enum Json {
    Null,
    Bool(bool),
    /// A number that fits a signed 64-bit integer.
    Int(i64),
    /// A number above the signed range that fits an unsigned 64-bit integer.
    UInt(u64),
    /// Any other number, by its JSON text.
    Float(String),
    Str(String),
    Array(Vec<Json>),
    Object(Vec<(String, Json)>),
}

/// The mathematical value of a JSON document.
#[verifier::ext_equal]
pub enum JsonV {
    Null,
    Bool(bool),
    Int(int),
    Float(Seq<char>),
    Str(Seq<char>),
    Array(Seq<JsonV>),
    Object(Seq<(Seq<char>, JsonV)>),
}

/// The mathematical value of `j`.
pub open spec fn json_model(j: Json) -> JsonV
    decreases j,
{
    match j {
        Json::Null => JsonV::Null,
        Json::Bool(b) => JsonV::Bool(b),
        Json::Int(i) => JsonV::Int(i as int),
        Json::UInt(u) => JsonV::Int(u as int),
        Json::Float(s) => JsonV::Float(s@),
        Json::Str(s) => JsonV::Str(s@),
        Json::Array(items) => JsonV::Array(
            Seq::new(items@.len(), |i: int| if 0 <= i < items@.len() { json_model(items@[i]) } else { JsonV::Null }),
        ),
        Json::Object(members) => JsonV::Object(
            Seq::new(
                members@.len(),
                |i: int| if 0 <= i < members@.len() {
                    (members@[i].0@, json_model(members@[i].1))
                } else {
                    (Seq::<char>::empty(), JsonV::Null)
                },
            ),
        ),
    }
}

impl View for Json {
    type V = JsonV;

    open spec fn view(&self) -> JsonV {
        json_model(*self)
    }
}

/// The values of a list of documents.
pub open spec fn items_view(v: Seq<Json>) -> Seq<JsonV> {
    v.map_values(|j: Json| j@)
}

/// The members of an object.
pub open spec fn members_view(v: Seq<(String, Json)>) -> Seq<(Seq<char>, JsonV)> {
    v.map_values(|m: (String, Json)| (m.0@, m.1@))
}

/// An array's and an object's values in terms of their parts.
pub proof fn lemma_json_parts(j: Json)
    ensures
        match j {
            Json::Array(items) => j@ == JsonV::Array(items_view(items@)),
            Json::Object(members) => j@ == JsonV::Object(members_view(members@)),
            _ => true,
        },
{
    match j {
        Json::Array(items) => {
            assert(j@->Array_0 =~= items_view(items@));
        },
        Json::Object(members) => {
            assert(j@->Object_0 =~= members_view(members@));
        },
        _ => {},
    }
}

// ---------------------------------------------------------------------------
// Objects
// ---------------------------------------------------------------------------

/// The value of the first member of `o` called `key`.
pub open spec fn member(o: Seq<(Seq<char>, JsonV)>, key: Seq<char>) -> Option<JsonV>
    decreases o.len(),
{
    if o.len() == 0 {
        None
    } else if o[0].0 == key {
        Some(o[0].1)
    } else {
        member(o.skip(1), key)
    }
}

/// The value of the member of a document called `key`; only objects have any.
pub open spec fn field(v: JsonV, key: Seq<char>) -> Option<JsonV> {
    match v {
        JsonV::Object(o) => member(o, key),
        _ => None,
    }
}

/// `o` with the member `key` set to `value`, in the order of the keys.
pub open spec fn with_member(
    o: Seq<(Seq<char>, JsonV)>,
    key: Seq<char>,
    value: JsonV,
) -> Seq<(Seq<char>, JsonV)>
    decreases o.len(),
{
    if o.len() == 0 {
        seq![(key, value)]
    } else if o[0].0 == key {
        seq![(key, value)] + o.skip(1)
    } else if text::before(key, o[0].0) {
        seq![(key, value)] + o
    } else {
        seq![o[0]] + with_member(o.skip(1), key, value)
    }
}

/// Whether the keys of `o` are strictly increasing.
pub open spec fn sorted_members(o: Seq<(Seq<char>, JsonV)>) -> bool {
    forall|i: int, j: int| 0 <= i < j < o.len() ==> text::before(#[trigger] o[i].0, #[trigger] o[j].0)
}

/// Setting a member makes it readable, leaves the other members, and keeps the
/// keys in order.
pub proof fn lemma_with_member(o: Seq<(Seq<char>, JsonV)>, key: Seq<char>, value: JsonV)
    requires
        sorted_members(o),
    ensures
        sorted_members(with_member(o, key, value)),
        member(with_member(o, key, value), key) == Some(value),
        forall|k: Seq<char>| k != key ==> #[trigger] member(with_member(o, key, value), k) == member(o, k),
        forall|i: int| 0 <= i < with_member(o, key, value).len() ==> {
            let m = #[trigger] with_member(o, key, value)[i];
            m == (key, value) || o.contains(m)
        },
    decreases o.len(),
{
    let w = with_member(o, key, value);
    if o.len() == 0 {
        assert(w.skip(1) =~= Seq::<(Seq<char>, JsonV)>::empty());
        assert forall|k: Seq<char>| k != key implies #[trigger] member(w, k) == member(o, k) by {
            assert(member(w.skip(1), k) is None);
        }
    } else if o[0].0 == key {
        assert(w.skip(1) =~= o.skip(1));
        assert forall|i: int| 0 <= i < w.len() implies #[trigger] w[i] == (key, value) || o.contains(w[i]) by {
            if i > 0 {
                assert(w[i] == o[i]);
            }
        }
        assert forall|i: int, j: int| 0 <= i < j < w.len() implies text::before(#[trigger] w[i].0, #[trigger] w[j].0) by {
            assert(w[j] == o[j]);
            if i > 0 {
                assert(w[i] == o[i]);
            }
            assert(o[i].0 == w[i].0);
        }
    } else if text::before(key, o[0].0) {
        assert(w.skip(1) =~= o);
        assert forall|i: int| 0 <= i < w.len() implies #[trigger] w[i] == (key, value) || o.contains(w[i]) by {
            if i > 0 {
                assert(w[i] == o[i - 1]);
            }
        }
        assert forall|i: int, j: int| 0 <= i < j < w.len() implies text::before(#[trigger] w[i].0, #[trigger] w[j].0) by {
            assert(w[j] == o[j - 1]);
            if i > 0 {
                assert(w[i] == o[i - 1]);
            } else if j > 1 {
                assert(text::before(o[0].0, o[j - 1].0));
                text::lemma_before_transitive(key, o[0].0, o[j - 1].0);
            }
        }
    } else {
        let t = o.skip(1);
        assert forall|i: int, j: int| 0 <= i < j < t.len() implies text::before(#[trigger] t[i].0, #[trigger] t[j].0) by {
            assert(t[i] == o[i + 1]);
            assert(t[j] == o[j + 1]);
        }
        lemma_with_member(t, key, value);
        let wt = with_member(t, key, value);
        assert(w.skip(1) =~= wt);
        text::lemma_before_total(key, o[0].0);
        assert forall|i: int| 0 <= i < w.len() implies #[trigger] w[i] == (key, value) || o.contains(w[i]) by {
            if i > 0 {
                assert(w[i] == wt[i - 1]);
                if w[i] != (key, value) {
                    let k = choose|k: int| 0 <= k < t.len() && t[k] == w[i];
                    assert(o[k + 1] == w[i]);
                }
            } else {
                assert(o[0] == w[0]);
            }
        }
        assert forall|i: int, j: int| 0 <= i < j < w.len() implies text::before(#[trigger] w[i].0, #[trigger] w[j].0) by {
            assert(w[j] == wt[j - 1]);
            if i > 0 {
                assert(w[i] == wt[i - 1]);
            } else {
                assert(wt[j - 1] == (key, value) || t.contains(wt[j - 1]));
                if wt[j - 1] != (key, value) {
                    let k = choose|k: int| 0 <= k < t.len() && t[k] == wt[j - 1];
                    assert(o[k + 1] == wt[j - 1]);
                    assert(text::before(o[0].0, o[k + 1].0));
                }
            }
        }
        assert forall|k: Seq<char>| k != key implies #[trigger] member(w, k) == member(o, k) by {
            assert(member(wt, k) == member(t, k));
        }
    }
}

/// Sets a member of an object.
pub fn put(members: &mut Vec<(String, Json)>, key: &str, value: Json)
    ensures
        members_view(final(members)@) == with_member(members_view(old(members)@), key@, value@),
{
    let ghost o = members_view(members@);
    let mut i: usize = 0;
    proof {
        assert(o.skip(0) =~= o);
        assert(o.take(0) + with_member(o, key@, value@) =~= with_member(o, key@, value@));
    }
    while i < members.len() && !text::same(members[i].0.as_str(), key) && !text::is_before(key, members[i].0.as_str())
        invariant
            i <= members@.len(),
            o == members_view(members@),
            with_member(o, key@, value@) == o.take(i as int) + with_member(o.skip(i as int), key@, value@),
        decreases members@.len() - i,
    {
        proof {
            let s = o.skip(i as int);
            assert(s[0] == o[i as int]);
            assert(s.skip(1) =~= o.skip(i + 1));
            assert(o.take(i as int) + (seq![s[0]] + with_member(s.skip(1), key@, value@)) =~= o.take(i + 1)
                + with_member(o.skip(i + 1), key@, value@));
        }
        i += 1;
    }
    let ghost s = o.skip(i as int);
    if i < members.len() && text::same(members[i].0.as_str(), key) {
        assert(s[0] == o[i as int]);
        let k = text::owned(key);
        members.set(i, (k, value));
        proof {
            assert(members_view(members@) =~= o.take(i as int) + (seq![(key@, value@)] + s.skip(1)));
        }
    } else {
        let k = text::owned(key);
        if i < members.len() {
            assert(s[0] == o[i as int]);
        }
        members.insert(i, (k, value));
        proof {
            assert(members_view(members@) =~= o.take(i as int) + (seq![(key@, value@)] + s));
            if s.len() == 0 {
                assert(seq![(key@, value@)] + s =~= seq![(key@, value@)]);
            }
        }
    }
}

/// The member of an object called `key`.
pub fn find<'a>(members: &'a Vec<(String, Json)>, key: &str) -> (r: Option<&'a Json>)
    ensures
        match r {
            Some(v) => member(members_view(members@), key@) == Some(v@),
            None => member(members_view(members@), key@) is None,
        },
{
    let ghost o = members_view(members@);
    let mut i: usize = 0;
    proof {
        assert(o.skip(0) =~= o);
    }
    while i < members.len()
        invariant
            i <= members@.len(),
            o == members_view(members@),
            member(o, key@) == member(o.skip(i as int), key@),
        decreases members@.len() - i,
    {
        proof {
            assert(o.skip(i as int)[0] == o[i as int]);
            assert(o.skip(i as int).skip(1) =~= o.skip(i + 1));
        }
        if text::same(members[i].0.as_str(), key) {
            return Some(&members[i].1);
        }
        i += 1;
    }
    None
}

impl Json {
    /// The member of an object called `key`.
    pub fn get(&self, key: &str) -> (r: Option<&Json>)
        ensures
            match r {
                Some(v) => field(self@, key@) == Some(v@),
                None => field(self@, key@) is None,
            },
    {
        proof {
            lemma_json_parts(*self);
        }
        match self {
            Json::Object(members) => find(members, key),
            _ => None,
        }
    }

    /// The text of a string.
    pub fn as_str(&self) -> (r: Option<&String>)
        ensures
            match r {
                Some(s) => self@ == JsonV::Str(s@),
                None => !(self@ is Str),
            },
    {
        match self {
            Json::Str(s) => Some(s),
            _ => None,
        }
    }

    /// The number, when it is an unsigned 64-bit integer.
    pub fn as_u64(&self) -> (r: Option<u64>)
        ensures
            r == unsigned_of(self@),
    {
        match self {
            Json::Int(i) => if *i >= 0 { Some(*i as u64) } else { None },
            Json::UInt(u) => Some(*u),
            _ => None,
        }
    }

    /// The number, when it is a signed 64-bit integer.
    pub fn as_i64(&self) -> (r: Option<i64>)
        ensures
            r == signed_of(self@),
    {
        match self {
            Json::Int(i) => Some(*i),
            Json::UInt(u) => if *u <= 9223372036854775807u64 { Some(*u as i64) } else { None },
            _ => None,
        }
    }
}

/// The number of a document, when it is an unsigned 64-bit integer.
pub open spec fn unsigned_of(v: JsonV) -> Option<u64> {
    match v {
        JsonV::Int(i) => if 0 <= i <= u64::MAX { Some(i as u64) } else { None },
        _ => None,
    }
}

/// The number of a document, when it is a signed 64-bit integer.
pub open spec fn signed_of(v: JsonV) -> Option<i64> {
    match v {
        JsonV::Int(i) => if i64::MIN <= i <= i64::MAX { Some(i as i64) } else { None },
        _ => None,
    }
}

/// A copy of a list of documents.
pub fn copy_items(items: &Vec<Json>) -> (r: Vec<Json>)
    ensures
        items_view(r@) == items_view(items@),
    decreases items,
{
    let mut out: Vec<Json> = Vec::new();
    let mut i: usize = 0;
    while i < items.len()
        invariant
            i <= items@.len(),
            out@.len() == i,
            forall|k: int| 0 <= k < i ==> #[trigger] out@[k]@ == items@[k]@,
        decreases items@.len() - i,
    {
        let item = items[i].copy();
        out.push(item);
        i += 1;
    }
    assert(items_view(out@) =~= items_view(items@));
    out
}

/// A copy of the members of an object.
pub fn copy_members(members: &Vec<(String, Json)>) -> (r: Vec<(String, Json)>)
    ensures
        members_view(r@) == members_view(members@),
    decreases members,
{
    let mut out: Vec<(String, Json)> = Vec::new();
    let mut i: usize = 0;
    while i < members.len()
        invariant
            i <= members@.len(),
            out@.len() == i,
            forall|k: int| 0 <= k < i ==> (#[trigger] out@[k]).0@ == members@[k].0@ && out@[k].1@ == members@[k].1@,
        decreases members@.len() - i,
    {
        let key = members[i].0.clone();
        let value = members[i].1.copy();
        out.push((key, value));
        i += 1;
    }
    assert(members_view(out@) =~= members_view(members@));
    out
}

impl Json {
    /// A copy of the document.
    pub fn copy(&self) -> (r: Json)
        ensures
            r@ == self@,
        decreases self,
    {
        let r = match self {
            Json::Null => Json::Null,
            Json::Bool(b) => Json::Bool(*b),
            Json::Int(i) => Json::Int(*i),
            Json::UInt(u) => Json::UInt(*u),
            Json::Float(s) => Json::Float(s.clone()),
            Json::Str(s) => Json::Str(s.clone()),
            Json::Array(items) => Json::Array(copy_items(items)),
            Json::Object(members) => Json::Object(copy_members(members)),
        };
        proof {
            lemma_json_parts(*self);
            lemma_json_parts(r);
        }
        r
    }
}


// ---------------------------------------------------------------------------
// Equality
// ---------------------------------------------------------------------------

/// Whether the text of a number that is no integer stands for zero, of either sign.
pub open spec fn is_zero(t: Seq<char>) -> bool {
    t == "0.0"@ || t == "-0.0"@
}

/// Whether two documents have the same value. The two zeros are one number; any other
/// double has one text.
pub open spec fn same_value(a: JsonV, b: JsonV) -> bool
    decreases a,
{
    match (a, b) {
        (JsonV::Float(x), JsonV::Float(y)) => x == y || is_zero(x) && is_zero(y),
        (JsonV::Array(x), JsonV::Array(y)) => x.len() == y.len() && forall|i: int|
            0 <= i < x.len() ==> same_value(#[trigger] x[i], y[i]),
        (JsonV::Object(x), JsonV::Object(y)) => x.len() == y.len() && forall|i: int|
            0 <= i < x.len() ==> (#[trigger] x[i]).0 == y[i].0 && same_value(x[i].1, y[i].1),
        _ => a == b,
    }
}

fn same_float(a: &str, b: &str) -> (r: bool)
    ensures
        r == same_value(JsonV::Float(a@), JsonV::Float(b@)),
{
    text::same(a, b) || (text::same(a, "0.0") || text::same(a, "-0.0")) && (text::same(b, "0.0") || text::same(b, "-0.0"))
}

fn same_items(a: &Vec<Json>, b: &Vec<Json>) -> (r: bool)
    ensures
        r == same_value(JsonV::Array(items_view(a@)), JsonV::Array(items_view(b@))),
    decreases a,
{
    let ghost x = items_view(a@);
    let ghost y = items_view(b@);
    if a.len() != b.len() {
        return false;
    }
    let mut i: usize = 0;
    while i < a.len()
        invariant
            i <= a@.len() == b@.len(),
            x == items_view(a@),
            y == items_view(b@),
            forall|k: int| 0 <= k < i ==> same_value(#[trigger] x[k], y[k]),
        decreases a@.len() - i,
    {
        assert(x[i as int] == a@[i as int]@ && y[i as int] == b@[i as int]@);
        if !a[i].same(&b[i]) {
            return false;
        }
        i += 1;
    }
    true
}

fn same_members(a: &Vec<(String, Json)>, b: &Vec<(String, Json)>) -> (r: bool)
    ensures
        r == same_value(JsonV::Object(members_view(a@)), JsonV::Object(members_view(b@))),
    decreases a,
{
    let ghost x = members_view(a@);
    let ghost y = members_view(b@);
    if a.len() != b.len() {
        return false;
    }
    let mut i: usize = 0;
    while i < a.len()
        invariant
            i <= a@.len() == b@.len(),
            x == members_view(a@),
            y == members_view(b@),
            forall|k: int| 0 <= k < i ==> (#[trigger] x[k]).0 == y[k].0 && same_value(x[k].1, y[k].1),
        decreases a@.len() - i,
    {
        assert(x[i as int] == (a@[i as int].0@, a@[i as int].1@));
        assert(y[i as int] == (b@[i as int].0@, b@[i as int].1@));
        if !text::same(a[i].0.as_str(), b[i].0.as_str()) || !a[i].1.same(&b[i].1) {
            return false;
        }
        i += 1;
    }
    true
}

impl Json {
    /// Whether two documents have the same value.
    pub fn same(&self, other: &Json) -> (r: bool)
        ensures
            r == same_value(self@, other@),
        decreases self,
    {
        proof {
            lemma_json_parts(*self);
            lemma_json_parts(*other);
        }
        match (self, other) {
            (Json::Null, Json::Null) => true,
            (Json::Bool(a), Json::Bool(b)) => *a == *b,
            (Json::Int(a), Json::Int(b)) => *a == *b,
            (Json::UInt(a), Json::UInt(b)) => *a == *b,
            (Json::Int(a), Json::UInt(b)) => *a >= 0 && *a as u64 == *b,
            (Json::UInt(a), Json::Int(b)) => *b >= 0 && *b as u64 == *a,
            (Json::Float(a), Json::Float(b)) => same_float(a.as_str(), b.as_str()),
            (Json::Str(a), Json::Str(b)) => text::same(a.as_str(), b.as_str()),
            (Json::Array(a), Json::Array(b)) => same_items(a, b),
            (Json::Object(a), Json::Object(b)) => same_members(a, b),
            _ => false,
        }
    }
}

// ---------------------------------------------------------------------------
// Reading and writing text
// ---------------------------------------------------------------------------

/// The outside JSON value, as `serde_json` holds it.
#[verifier::external_type_specification]
#[verifier::external_body]
pub struct ExJsonValue(serde_json::Value);

/// The outside JSON error.
#[verifier::external_type_specification]
#[verifier::external_body]
pub struct ExJsonError(serde_json::Error);

/// The document that `serde_json::from_slice` reads from `bytes`, if it
/// accepts them.
pub uninterp spec fn parsed_json(bytes: Seq<u8>) -> Option<JsonV>;

/// The document that a text holds.
pub open spec fn parsed_text(s: Seq<char>) -> Option<JsonV> {
    parsed_json(vstd::utf8::encode_utf8(s))
}

/// The bytes that `serde_json::to_vec` writes for a document.
pub uninterp spec fn json_bytes(v: JsonV) -> Seq<u8>;

/// The text that `serde_json::Value::to_string` writes for a document.
pub uninterp spec fn json_text(v: JsonV) -> Seq<char>;

/// How deeply arrays and objects nest, a plain value counting zero.
pub open spec fn nesting(v: JsonV) -> nat
    decreases v,
{
    match v {
        JsonV::Array(a) => 1 + deepest_item(a),
        JsonV::Object(o) => 1 + deepest_member(o),
        _ => 0,
    }
}

/// The deepest nesting among the items of an array.
pub open spec fn deepest_item(a: Seq<JsonV>) -> nat
    decreases a,
{
    if a.len() == 0 {
        0
    } else {
        let rest = deepest_item(a.drop_last());
        let here = nesting(a.last());
        if here > rest { here } else { rest }
    }
}

/// The deepest nesting among the members of an object.
pub open spec fn deepest_member(o: Seq<(Seq<char>, JsonV)>) -> nat
    decreases o,
{
    if o.len() == 0 {
        0
    } else {
        let rest = deepest_member(o.drop_last());
        let here = nesting(o.last().1);
        if here > rest { here } else { rest }
    }
}

/// Whether a document holds integers of at most 64 bits and no other numbers,
/// and every object in it has its keys in strictly increasing order.
pub open spec fn exact(v: JsonV) -> bool
    decreases v,
{
    match v {
        JsonV::Int(i) => i64::MIN <= i <= u64::MAX,
        JsonV::Float(_) => false,
        JsonV::Array(a) => forall|i: int| 0 <= i < a.len() ==> exact(#[trigger] a[i]),
        JsonV::Object(o) => sorted_members(o) && (forall|i: int|
            0 <= i < o.len() ==> exact((#[trigger] o[i]).1)),
        _ => true,
    }
}

/// Whether a document is read back as it was written.
pub open spec fn readable(v: JsonV) -> bool {
    exact(v) && nesting(v) <= 127
}

/// Turns the outside value into a [`Json`], part by part.
#[verifier::external_body]
fn json_of(value: Value) -> Json {
    match value {
        Value::Null => Json::Null,
        Value::Bool(b) => Json::Bool(b),
        Value::Number(n) => match (n.as_i64(), n.as_u64()) {
            (Some(i), _) => Json::Int(i),
            (None, Some(u)) => Json::UInt(u),
            (None, None) => Json::Float(n.to_string()),
        },
        Value::String(s) => Json::Str(s),
        Value::Array(a) => Json::Array(a.into_iter().map(json_of).collect()),
        Value::Object(o) => Json::Object(o.into_iter().map(|(k, v)| (k, json_of(v))).collect()),
    }
}

/// Turns a [`Json`] into the outside value, part by part. The text of a number that is
/// no integer is read by the standard library, which gives the nearest double: the one
/// that the text was written for.
#[verifier::external_body]
fn value_of(json: &Json) -> Value {
    match json {
        Json::Null => Value::Null,
        Json::Bool(b) => Value::Bool(*b),
        Json::Int(i) => Value::Number((*i).into()),
        Json::UInt(u) => Value::Number((*u).into()),
        Json::Float(s) => s.parse().ok().and_then(Number::from_f64).map(Value::Number).unwrap_or(Value::Null),
        Json::Str(s) => Value::String(s.clone()),
        Json::Array(a) => Value::Array(a.iter().map(value_of).collect()),
        Json::Object(o) => Value::Object(o.iter().map(|m| (m.0.clone(), value_of(&m.1))).collect()),
    }
}

/// Calls `serde_json::from_slice` for a JSON value. The result is a function of
/// the bytes alone; it is claimed of none of them here what it is (see
/// [`write_json`] for what was written).
#[verifier::external_body]
pub(crate) fn read_json(bytes: &[u8]) -> (r: Result<Json, serde_json::Error>)
    ensures
        match r {
            Ok(j) => parsed_json(bytes@) == Some(j@),
            Err(_) => parsed_json(bytes@) is None,
        },
{
    serde_json::from_slice::<serde_json::Value>(bytes).map(json_of)
}

/// Calls `serde_json::to_vec` on a JSON value, which succeeds on every value.
/// The bytes are a function of the value. Reading them gives the value back when
/// it holds only 64-bit integers for numbers, has its keys in order, and nests
/// less deeply than the 128 levels that the reader accepts.
#[verifier::external_body]
pub(crate) fn write_json(json: &Json) -> (r: Result<Vec<u8>, serde_json::Error>)
    ensures
        r is Ok,
        r->Ok_0@ == json_bytes(json@),
        readable(json@) ==> parsed_json(r->Ok_0@) == Some(json@),
{
    serde_json::to_vec(&value_of(json))
}

/// Calls `serde_json::Value::to_string`. The text is a function of the value and
/// never empty, and its UTF-8 bytes are read back as [`write_json`] states it.
#[verifier::external_body]
pub(crate) fn json_string(json: &Json) -> (r: String)
    ensures
        r@ == json_text(json@),
        r@.len() > 0,
        readable(json@) ==> parsed_text(r@) == Some(json@),
{
    value_of(json).to_string()
}

impl Json {
    /// The document that bytes hold.
    pub fn parse(bytes: &[u8]) -> (r: Result<Json, serde_json::Error>)
        ensures
            match r {
                Ok(j) => parsed_json(bytes@) == Some(j@),
                Err(_) => parsed_json(bytes@) is None,
            },
    {
        read_json(bytes)
    }
}

/// The value of an optional document.
pub open spec fn opt_json(j: Option<Json>) -> Option<JsonV> {
    match j {
        Some(d) => Some(d@),
        None => None,
    }
}

/// A copy of an optional document.
pub fn opt_json_copy(j: &Option<Json>) -> (r: Option<Json>)
    ensures
        opt_json(r) == opt_json(*j),
{
    match j {
        Some(d) => Some(d.copy()),
        None => None,
    }
}

/// The text that `serde_json::Value`'s `Debug` writes for a document.
pub uninterp spec fn json_debug_text(v: JsonV) -> Seq<char>;

/// Calls the `Debug` of `serde_json::Value`. The text is a function of the value.
#[verifier::external_body]
pub(crate) fn json_debug(json: &Json) -> (r: String)
    ensures
        r@ == json_debug_text(json@),
{
    format!("{:?}", value_of(json))
}

} // verus!
