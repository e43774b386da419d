//! JSON values: read with `serde_json`, held as plain values of this library.
use vstd::prelude::*;
use crate::text::equal;

verus! {

#[verifier::external_type_specification]
#[verifier::external_body]
pub struct ExValue(serde_json::Value);

/// A JSON value. A number is held only where it is a whole one that fits in 64 bits, and an object
/// as its keys and values.
#[derive(Debug)]
pub enum Json {
    Null,
    Bool(bool),
    Number(Option<u64>),
    Text(String),
    List(Vec<Json>),
    Object(Vec<(String, Json)>),
}

/// What a JSON value holds.
#[verifier::ext_equal]
pub enum JsonModel {
    Null,
    Bool(bool),
    Number(Option<u64>),
    Text(Seq<char>),
    List(Seq<JsonModel>),
    Object(Seq<(Seq<char>, JsonModel)>),
}

impl Json {
    /// What this value holds.
    pub open spec fn model(self) -> JsonModel
        decreases self,
    {
        match self {
            Json::Null => JsonModel::Null,
            Json::Bool(b) => JsonModel::Bool(b),
            Json::Number(n) => JsonModel::Number(n),
            Json::Text(s) => JsonModel::Text(s@),
            Json::List(items) => JsonModel::List(
                Seq::new(
                    items@.len(),
                    |i: int|
                        if 0 <= i < items@.len() {
                            items@[i].model()
                        } else {
                            JsonModel::Null
                        },
                ),
            ),
            Json::Object(entries) => JsonModel::Object(
                Seq::new(
                    entries@.len(),
                    |i: int|
                        if 0 <= i < entries@.len() {
                            (entries@[i].0@, entries@[i].1.model())
                        } else {
                            (Seq::empty(), JsonModel::Null)
                        },
                ),
            ),
        }
    }
}

// ---------------------------------------------------------------------------
// Looking into a value
// ---------------------------------------------------------------------------

/// The value under a key; `Null` where there is none or the value is no object.
pub open spec fn member(m: JsonModel, key: Seq<char>) -> JsonModel {
    match m {
        JsonModel::Object(entries) => entry(entries, key),
        _ => JsonModel::Null,
    }
}

/// The first value under a key.
pub open spec fn entry(entries: Seq<(Seq<char>, JsonModel)>, key: Seq<char>) -> JsonModel
    decreases entries.len(),
{
    if entries.len() == 0 {
        JsonModel::Null
    } else if entries[0].0 == key {
        entries[0].1
    } else {
        entry(entries.skip(1), key)
    }
}

/// The text of a value that is one.
pub open spec fn text_in(m: JsonModel) -> Option<Seq<char>> {
    match m {
        JsonModel::Text(s) => Some(s),
        _ => None,
    }
}

/// The items of a value that is a list.
pub open spec fn list_in(m: JsonModel) -> Option<Seq<JsonModel>> {
    match m {
        JsonModel::List(items) => Some(items),
        _ => None,
    }
}

/// The number of a value that is a whole one fitting in 64 bits.
pub open spec fn number_in(m: JsonModel) -> Option<u64> {
    match m {
        JsonModel::Number(n) => n,
        _ => None,
    }
}

/// What an optional value holds; an absent one is `Null`.
pub open spec fn model_of(v: Option<&Json>) -> JsonModel {
    match v {
        Some(j) => j.model(),
        None => JsonModel::Null,
    }
}

impl Json {
    /// The value under a key.
    pub fn get(&self, key: &str) -> (r: Option<&Json>)
        ensures
            model_of(r) == member(self.model(), key@),
    {
        match self {
            Json::Object(entries) => {
                let ghost all = self.model()->Object_0;
                let mut i: usize = 0;
                assert(all.skip(0) =~= all);
                while i < entries.len()
                    invariant
                        i <= entries.len(),
                        self matches Json::Object(e) && e == entries,
                        all == self.model()->Object_0,
                        entry(all.skip(i as int), key@) == entry(all, key@),
                    decreases entries.len() - i,
                {
                    assert(all[i as int] == (entries@[i as int].0@, entries@[i as int].1.model()));
                    assert(all.skip(i as int).skip(1) =~= all.skip(i + 1));
                    if equal(&entries[i].0, key) {
                        return Some(&entries[i].1);
                    }
                    i = i + 1;
                }
                None
            },
            _ => None,
        }
    }

    /// The text of this value, where it is one.
    pub fn text(&self) -> (r: Option<&String>)
        ensures
            r.deep_view() == text_in(self.model()),
    {
        match self {
            Json::Text(s) => Some(s),
            _ => None,
        }
    }

    /// The text under a key, where there is one.
    pub fn text_at(&self, key: &str) -> (r: Option<&String>)
        ensures
            r.deep_view() == text_in(member(self.model(), key@)),
    {
        match self.get(key) {
            Some(v) => v.text(),
            None => None,
        }
    }

    /// The number of this value, where it is a whole one fitting in 64 bits.
    pub fn number(&self) -> (r: Option<u64>)
        ensures
            r == number_in(self.model()),
    {
        match self {
            Json::Number(n) => *n,
            _ => None,
        }
    }

    /// The items of this value, where it is a list.
    pub fn list(&self) -> (r: Option<&Vec<Json>>)
        ensures
            r is Some <==> list_in(self.model()) is Some,
            r is Some ==> models(r->0@) == list_in(self.model())->0,
    {
        match self {
            Json::List(items) => {
                assert(models(items@) =~= self.model()->List_0);
                Some(items)
            },
            _ => None,
        }
    }
}

/// What each value of a sequence holds.
pub open spec fn models(s: Seq<Json>) -> Seq<JsonModel> {
    s.map_values(|j: Json| j.model())
}

// ---------------------------------------------------------------------------
// Reading with serde_json
// ---------------------------------------------------------------------------

/// The value that `serde_json` reads from a text, where the text is one JSON value.
pub uninterp spec fn json_read(text: Seq<char>) -> Option<JsonModel>;

/// What a `serde_json` value holds.
pub uninterp spec fn value_holds(v: serde_json::Value) -> JsonModel;

/// `serde_json::from_str::<Value>`: a value exactly where the text is JSON, and the same one for
/// the same text.
#[verifier::external_body]
fn read_value(text: &str) -> (r: Option<serde_json::Value>)
    ensures
        r is Some <==> json_read(text@) is Some,
        r is Some ==> value_holds(r->0) == json_read(text@)->0,
{
    serde_json::from_str::<serde_json::Value>(text).ok()
}

/// `Value::as_bool`: the truth value of a value that is one, and of no other.
pub assume_specification[ serde_json::Value::as_bool ](v: &serde_json::Value) -> (r: Option<bool>)
    ensures
        r is Some <==> value_holds(*v) is Bool,
        r is Some ==> value_holds(*v) == JsonModel::Bool(r->0),
;

/// `Value::is_number`: whether a value is a number.
pub assume_specification[ serde_json::Value::is_number ](v: &serde_json::Value) -> (r: bool)
    ensures
        r == (value_holds(*v) is Number),
;

/// `Value::as_u64`: the whole number of a value that is one and fits in 64 bits.
pub assume_specification[ serde_json::Value::as_u64 ](v: &serde_json::Value) -> (r: Option<u64>)
    ensures
        value_holds(*v) is Number ==> value_holds(*v) == JsonModel::Number(r),
        !(value_holds(*v) is Number) ==> r is None,
;

/// `Value::as_str`: the text of a value that is one, and of no other.
pub assume_specification[ serde_json::Value::as_str ](v: &serde_json::Value) -> (r: Option<&str>)
    ensures
        r is Some <==> value_holds(*v) is Text,
        r is Some ==> value_holds(*v) == JsonModel::Text(r->0@),
;

/// `Value::as_array`: the items of a value that is a list, and of no other.
pub assume_specification[ serde_json::Value::as_array ](v: &serde_json::Value) -> (r: Option<
    &Vec<serde_json::Value>,
>)
    ensures
        r is Some <==> value_holds(*v) is List,
        r is Some ==> value_holds(*v) == JsonModel::List(
            r->0@.map_values(|i: serde_json::Value| value_holds(i)),
        ),
;

/// `Value::as_object`, and `Map::iter` on what it gives: the keys and values of a value that is an
/// object, and of no other.
#[verifier::external_body]
fn object_entries(v: &serde_json::Value) -> (r: Option<Vec<(&String, &serde_json::Value)>>)
    ensures
        r is Some <==> value_holds(*v) is Object,
        r is Some ==> value_holds(*v) == JsonModel::Object(
            r->0@.map_values(|e: (&String, &serde_json::Value)| (e.0@, value_holds(*e.1))),
        ),
{
    v.as_object().map(|map| map.iter().collect())
}

/// The library's value for one of `serde_json`.
fn taken_over(v: &serde_json::Value) -> (r: Json)
    ensures
        r.model() == value_holds(*v),
    decreases value_holds(*v),
{
    if let Some(b) = v.as_bool() {
        return Json::Bool(b);
    }
    if let Some(s) = v.as_str() {
        return Json::Text(String::from_str(s));
    }
    if v.is_number() {
        return Json::Number(v.as_u64());
    }
    if let Some(items) = v.as_array() {
        let ghost held = value_holds(*v)->List_0;
        let mut out: Vec<Json> = Vec::new();
        let mut i: usize = 0;
        while i < items.len()
            invariant
                i <= items.len(),
                value_holds(*v) == JsonModel::List(held),
                held == items@.map_values(|i: serde_json::Value| value_holds(i)),
                models(out@) == held.take(i as int),
            decreases items.len() - i,
        {
            assert(held[i as int] == value_holds(items@[i as int]));
            assert(decreases_to!(value_holds(*v) => value_holds(*v)->List_0));
            assert(decreases_to!(held => held[i as int]));
            let ghost before = models(out@);
            let item = taken_over(&items[i]);
            let ghost m = item.model();
            out.push(item);
            assert(models(out@) =~= before.push(m));
            assert(before.push(m) =~= held.take(i + 1));
            i = i + 1;
        }
        let r = Json::List(out);
        assert(held.take(i as int) =~= held);
        assert(r.model()->List_0 =~= models(out@));
        return r;
    }
    if let Some(entries) = object_entries(v) {
        let ghost held = value_holds(*v)->Object_0;
        let mut out: Vec<(String, Json)> = Vec::new();
        let mut i: usize = 0;
        while i < entries.len()
            invariant
                i <= entries.len(),
                value_holds(*v) == JsonModel::Object(held),
                held == entries@.map_values(
                    |e: (&String, &serde_json::Value)| (e.0@, value_holds(*e.1)),
                ),
                out@.len() == i,
                forall|k: int|
                    0 <= k < i ==> ((#[trigger] out@[k]).0@, out@[k].1.model()) == held[k],
            decreases entries.len() - i,
        {
            assert(held[i as int] == (entries@[i as int].0@, value_holds(*entries@[i as int].1)));
            assert(decreases_to!(value_holds(*v) => value_holds(*v)->Object_0));
            assert(decreases_to!(held => held[i as int]));
            assert(decreases_to!(held[i as int] => held[i as int].1));
            let item = taken_over(entries[i].1);
            out.push((entries[i].0.clone(), item));
            i = i + 1;
        }
        let r = Json::Object(out);
        assert(r.model()->Object_0 =~= held) by {
            assert forall|k: int| 0 <= k < held.len() implies r.model()->Object_0[k] == held[k] by {
                assert((out@[k].0@, out@[k].1.model()) == held[k]);
            }
        }
        return r;
    }
    Json::Null
}

/// Reads a text as one JSON value; nothing where it is not JSON.
pub fn read_json(text: &str) -> (r: Option<Json>)
    ensures
        r is Some <==> json_read(text@) is Some,
        r is Some ==> r->0.model() == json_read(text@)->0,
{
    match read_value(text) {
        Some(v) => Some(taken_over(&v)),
        None => None,
    }
}

/// A value is found under its own key, the first one where several have it, and nothing under a key that
/// is not there.
pub proof fn values_are_found_under_their_keys(
    entries: Seq<(Seq<char>, JsonModel)>,
    key: Seq<char>,
    k: int,
)
    ensures
        0 <= k < entries.len() && entries[k].0 == key && (forall|j: int|
            0 <= j < k ==> (#[trigger] entries[j]).0 != key) ==> member(JsonModel::Object(entries), key)
            == entries[k].1,
        (forall|j: int| 0 <= j < entries.len() ==> (#[trigger] entries[j]).0 != key) ==> member(
            JsonModel::Object(entries),
            key,
        ) is Null,
    decreases entries.len(),
{
    if entries.len() > 0 && entries[0].0 != key {
        let rest = entries.skip(1);
        values_are_found_under_their_keys(rest, key, k - 1);
        if 0 <= k < entries.len() && entries[k].0 == key && (forall|j: int|
            0 <= j < k ==> (#[trigger] entries[j]).0 != key) {
            assert(rest[k - 1] == entries[k]);
            assert forall|j: int| 0 <= j < k - 1 implies (#[trigger] rest[j]).0 != key by {
                assert(rest[j] == entries[j + 1]);
            }
        }
        if forall|j: int| 0 <= j < entries.len() ==> (#[trigger] entries[j]).0 != key {
            assert forall|j: int| 0 <= j < rest.len() implies (#[trigger] rest[j]).0 != key by {
                assert(rest[j] == entries[j + 1]);
            }
        }
    } else if entries.len() > 0 {
        if 0 < k < entries.len() && (forall|j: int| 0 <= j < k ==> (#[trigger] entries[j]).0 != key) {
            assert(entries[0].0 != key);
        }
        if forall|j: int| 0 <= j < entries.len() ==> (#[trigger] entries[j]).0 != key {
            assert(entries[0].0 != key);
        }
    }
}

/// A value is read as what it is and as nothing else.
pub proof fn values_are_read_as_what_they_are(
    s: Seq<char>,
    items: Seq<JsonModel>,
    n: Option<u64>,
    b: bool,
)
    ensures
        text_in(JsonModel::Text(s)) == Some(s),
        list_in(JsonModel::List(items)) == Some(items),
        number_in(JsonModel::Number(n)) == n,
        text_in(JsonModel::Null) is None && list_in(JsonModel::Null) is None && number_in(
            JsonModel::Null,
        ) is None,
        text_in(JsonModel::Number(n)) is None && text_in(JsonModel::Bool(b)) is None && text_in(
            JsonModel::List(items),
        ) is None,
        number_in(JsonModel::Text(s)) is None && number_in(JsonModel::Bool(b)) is None && list_in(
            JsonModel::Text(s),
        ) is None,
{
}

} // verus!
