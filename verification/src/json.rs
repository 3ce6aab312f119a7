//! A JSON document held as plain values, in the order its members were read,
//! with its mathematical model and the object operations the schema code
//! uses: member lookup, insertion (replacing in place) and removal.

use vstd::prelude::*;
use vstd::string::*;

use crate::text::str_eq;

verus! {

broadcast use vstd::string::group_string_axioms;

/// A JSON value. Object members keep the order in which they were read;
/// a number keeps its text.
#[derive(Debug, PartialEq)]
pub enum JsonValue {
    Null,
    Bool(bool),
    Number(String),
    String(String),
    Array(Vec<JsonValue>),
    Object(Vec<(String, JsonValue)>),
}

/// The model of a JSON value.
pub enum JsonModel {
    Null,
    Bool(bool),
    Number(Seq<char>),
    String(Seq<char>),
    Array(Seq<JsonModel>),
    Object(Seq<(Seq<char>, JsonModel)>),
}

/// The model of a JSON value.
pub open spec fn json_model(v: JsonValue) -> JsonModel
    decreases v, 0nat,
{
    match v {
        JsonValue::Null => JsonModel::Null,
        JsonValue::Bool(b) => JsonModel::Bool(b),
        JsonValue::Number(n) => JsonModel::Number(n@),
        JsonValue::String(s) => JsonModel::String(s@),
        JsonValue::Array(items) => JsonModel::Array(item_models(items, 0)),
        JsonValue::Object(entries) => JsonModel::Object(entry_models(entries, 0)),
    }
}

/// The models of items `i..`.
pub open spec fn item_models(items: Vec<JsonValue>, i: nat) -> Seq<JsonModel>
    decreases items, items.len() - i,
{
    if i >= items.len() {
        Seq::<JsonModel>::empty()
    } else {
        seq![json_model(items[i as int])] + item_models(items, i + 1)
    }
}

/// The models of members `i..`.
pub open spec fn entry_models(entries: Vec<(String, JsonValue)>, i: nat) -> Seq<(Seq<char>, JsonModel)>
    decreases entries, entries.len() - i,
{
    if i >= entries.len() {
        Seq::<(Seq<char>, JsonModel)>::empty()
    } else {
        seq![(entries[i as int].0@, json_model(entries[i as int].1))] + entry_models(entries, i + 1)
    }
}

/// The position of the first member named `key`.
pub open spec fn member_index(entries: Seq<(Seq<char>, JsonModel)>, key: Seq<char>) -> Option<nat>
    decreases entries.len(),
{
    if entries.len() == 0 {
        None
    } else if entries.last().0 == key && member_index(entries.drop_last(), key) is None {
        Some((entries.len() - 1) as nat)
    } else {
        member_index(entries.drop_last(), key)
    }
}

/// The value of the first member named `key`.
pub open spec fn member(entries: Seq<(Seq<char>, JsonModel)>, key: Seq<char>) -> Option<JsonModel> {
    match member_index(entries, key) {
        Some(k) => Some(entries[k as int].1),
        None => None,
    }
}

/// The members with `key` set to `v`: in place when present, appended
/// otherwise.
pub open spec fn member_insert(entries: Seq<(Seq<char>, JsonModel)>, key: Seq<char>, v: JsonModel) -> Seq<
    (Seq<char>, JsonModel),
> {
    match member_index(entries, key) {
        Some(k) => entries.update(k as int, (key, v)),
        None => entries.push((key, v)),
    }
}

/// The members without the first one named `key`.
pub open spec fn member_remove(entries: Seq<(Seq<char>, JsonModel)>, key: Seq<char>) -> Seq<
    (Seq<char>, JsonModel),
> {
    match member_index(entries, key) {
        Some(k) => entries.remove(k as int),
        None => entries,
    }
}

/// The models of a sequence of values.
pub open spec fn models_of(v: Seq<JsonValue>) -> Seq<JsonModel> {
    v.map_values(|x: JsonValue| json_model(x))
}

/// The models of a sequence of members.
pub open spec fn member_models(v: Seq<(String, JsonValue)>) -> Seq<(Seq<char>, JsonModel)> {
    v.map_values(|e: (String, JsonValue)| (e.0@, json_model(e.1)))
}

pub proof fn lemma_item_models(items: Vec<JsonValue>, i: nat)
    requires
        i <= items.len(),
    ensures
        item_models(items, i) == models_of(items@.skip(i as int)),
    decreases items.len() - i,
{
    if i < items.len() {
        lemma_item_models(items, i + 1);
        assert(models_of(items@.skip(i as int)) =~= seq![json_model(items[i as int])] + models_of(
            items@.skip(i + 1int),
        ));
    } else {
        assert(models_of(items@.skip(i as int)) =~= Seq::<JsonModel>::empty());
    }
}

pub proof fn lemma_entry_models(entries: Vec<(String, JsonValue)>, i: nat)
    requires
        i <= entries.len(),
    ensures
        entry_models(entries, i) == member_models(entries@.skip(i as int)),
    decreases entries.len() - i,
{
    if i < entries.len() {
        lemma_entry_models(entries, i + 1);
        assert(member_models(entries@.skip(i as int)) =~= seq![
            (entries[i as int].0@, json_model(entries[i as int].1)),
        ] + member_models(entries@.skip(i + 1int)));
    } else {
        assert(member_models(entries@.skip(i as int)) =~= Seq::<(Seq<char>, JsonModel)>::empty());
    }
}

/// The model of an array value is the models of its items.
pub proof fn lemma_array_model(items: Vec<JsonValue>)
    ensures
        json_model(JsonValue::Array(items)) == JsonModel::Array(models_of(items@)),
{
    lemma_item_models(items, 0);
    assert(items@.skip(0) =~= items@);
}

/// The model of an object value is the models of its members.
pub proof fn lemma_object_model(entries: Vec<(String, JsonValue)>)
    ensures
        json_model(JsonValue::Object(entries)) == JsonModel::Object(member_models(entries@)),
{
    lemma_entry_models(entries, 0);
    assert(entries@.skip(0) =~= entries@);
}

/// The first member named `key` is the first position holding that name.
pub proof fn lemma_member_index_first(entries: Seq<(Seq<char>, JsonModel)>, key: Seq<char>)
    ensures
        match member_index(entries, key) {
            Some(k) => k < entries.len() && entries[k as int].0 == key && forall|j: int|
                0 <= j < k ==> #[trigger] entries[j].0 != key,
            None => forall|j: int| 0 <= j < entries.len() ==> #[trigger] entries[j].0 != key,
        },
    decreases entries.len(),
{
    if entries.len() > 0 {
        let d = entries.drop_last();
        lemma_member_index_first(d, key);
        match member_index(d, key) {
            Some(k) => {
                assert(entries[k as int] == d[k as int]);
                assert forall|j: int| 0 <= j < k implies #[trigger] entries[j].0 != key by {
                    assert(entries[j] == d[j]);
                }
            },
            None => {
                assert forall|j: int| 0 <= j < entries.len() - 1 implies #[trigger] entries[j].0
                    != key by {
                    assert(entries[j] == d[j]);
                }
            },
        }
    }
}

/// The position of the first member named `key`.
pub fn member_position(entries: &Vec<(String, JsonValue)>, key: &str) -> (r: Option<usize>)
    ensures
        match r {
            Some(i) => member_index(member_models(entries@), key@) == Some(i as nat) && i
                < entries@.len(),
            None => member_index(member_models(entries@), key@) is None,
        },
{
    let ghost ms = member_models(entries@);
    let mut i: usize = 0;
    while i < entries.len()
        invariant
            i <= entries@.len(),
            ms == member_models(entries@),
            forall|j: int| 0 <= j < i ==> #[trigger] ms[j].0 != key@,
        decreases entries.len() - i,
    {
        assert(ms[i as int].0 == entries@[i as int].0@);
        if str_eq(entries[i].0.as_str(), key) {
            proof {
                lemma_member_index_first(ms, key@);
                match member_index(ms, key@) {
                    Some(k) => {
                        if k < i {
                            assert(ms[k as int].0 != key@);
                        }
                        if k > i {
                            assert(ms[i as int].0 != key@);
                        }
                    },
                    None => {
                        assert(ms[i as int].0 != key@);
                    },
                }
            }
            return Some(i);
        }
        i = i + 1;
    }
    proof {
        lemma_member_index_first(ms, key@);
        match member_index(ms, key@) {
            Some(k) => {
                assert(ms[k as int].0 != key@);
            },
            None => {},
        }
    }
    None
}

/// Sets member `key` to `v`: in place when present, appended otherwise.
pub fn insert_member(entries: &mut Vec<(String, JsonValue)>, key: String, v: JsonValue)
    ensures
        member_models(final(entries)@) == member_insert(member_models(old(entries)@), key@, json_model(v)),
{
    let ghost ms = member_models(entries@);
    let ghost kv = (key@, json_model(v));
    match member_position(entries, key.as_str()) {
        Some(k) => {
            entries.set(k, (key, v));
            assert(member_models(entries@) =~= ms.update(k as int, kv));
        },
        None => {
            entries.push((key, v));
            assert(member_models(entries@) =~= ms.push(kv));
        },
    }
}

/// Removes the first member named `key`, if any.
pub fn remove_member(entries: &mut Vec<(String, JsonValue)>, key: &str)
    ensures
        member_models(final(entries)@) == member_remove(member_models(old(entries)@), key@),
{
    let ghost ms = member_models(entries@);
    match member_position(entries, key) {
        Some(k) => {
            entries.remove(k);
            assert(member_models(entries@) =~= ms.remove(k as int));
        },
        None => {},
    }
}

/// A copy of a JSON value.
pub fn json_clone(v: &JsonValue) -> (r: JsonValue)
    ensures
        json_model(r) == json_model(*v),
    decreases v, 0nat,
{
    match v {
        JsonValue::Null => JsonValue::Null,
        JsonValue::Bool(b) => JsonValue::Bool(*b),
        JsonValue::Number(n) => JsonValue::Number(n.clone()),
        JsonValue::String(s) => JsonValue::String(s.clone()),
        JsonValue::Array(items) => {
            let c = clone_items(items);
            proof {
                lemma_array_model(*items);
                lemma_array_model(c);
            }
            JsonValue::Array(c)
        },
        JsonValue::Object(entries) => {
            let c = clone_members(entries);
            proof {
                lemma_object_model(*entries);
                lemma_object_model(c);
            }
            JsonValue::Object(c)
        },
    }
}

/// A copy of a sequence of values.
pub fn clone_items(items: &Vec<JsonValue>) -> (r: Vec<JsonValue>)
    ensures
        models_of(r@) == models_of(items@),
    decreases items, 1nat,
{
    let mut out: Vec<JsonValue> = Vec::new();
    let mut i: usize = 0;
    while i < items.len()
        invariant
            i <= items@.len(),
            models_of(out@) == models_of(items@.take(i as int)),
        decreases items.len() - i,
    {
        let c = json_clone(&items[i]);
        let ghost before = out@;
        out.push(c);
        proof {
            assert(items@.take(i + 1) =~= items@.take(i as int).push(items@[i as int]));
            assert(models_of(out@) =~= models_of(before).push(json_model(c)));
            assert(models_of(items@.take(i + 1)) =~= models_of(items@.take(i as int)).push(
                json_model(items@[i as int]),
            ));
        }
        i = i + 1;
    }
    assert(items@.take(items@.len() as int) =~= items@);
    out
}

/// A copy of a slice of values.
pub fn clone_slice(items: &[JsonValue]) -> (r: Vec<JsonValue>)
    ensures
        models_of(r@) == models_of(items@),
{
    let mut out: Vec<JsonValue> = Vec::new();
    let mut i: usize = 0;
    while i < items.len()
        invariant
            i <= items@.len(),
            models_of(out@) == models_of(items@.take(i as int)),
        decreases items.len() - i,
    {
        let c = json_clone(&items[i]);
        let ghost before = out@;
        out.push(c);
        proof {
            assert(items@.take(i + 1) =~= items@.take(i as int).push(items@[i as int]));
            assert(models_of(out@) =~= models_of(before).push(json_model(c)));
            assert(models_of(items@.take(i + 1)) =~= models_of(items@.take(i as int)).push(
                json_model(items@[i as int]),
            ));
        }
        i = i + 1;
    }
    assert(items@.take(items@.len() as int) =~= items@);
    out
}

/// A copy of a sequence of members.
pub fn clone_members(entries: &Vec<(String, JsonValue)>) -> (r: Vec<(String, JsonValue)>)
    ensures
        member_models(r@) == member_models(entries@),
    decreases entries, 1nat,
{
    let mut out: Vec<(String, JsonValue)> = Vec::new();
    let mut i: usize = 0;
    while i < entries.len()
        invariant
            i <= entries@.len(),
            member_models(out@) == member_models(entries@.take(i as int)),
        decreases entries.len() - i,
    {
        let c = json_clone(&entries[i].1);
        let k = entries[i].0.clone();
        let ghost before = out@;
        out.push((k, c));
        proof {
            assert(entries@.take(i + 1) =~= entries@.take(i as int).push(entries@[i as int]));
            assert(member_models(out@) =~= member_models(before).push((k@, json_model(c))));
            assert(member_models(entries@.take(i + 1)) =~= member_models(entries@.take(i as int)).push(
                (entries@[i as int].0@, json_model(entries@[i as int].1)),
            ));
        }
        i = i + 1;
    }
    assert(entries@.take(entries@.len() as int) =~= entries@);
    out
}

} // verus!
