//! Schema traits (`x-gts-traits-schema` / `x-gts-traits`): the pure JSON
//! steps that build the effective trait schema and trait values of an
//! inheritance chain.
//!
//! Trait schemas found along the chain are composed with `allOf`; trait
//! values are merged per RFC 7396 JSON Merge Patch (scalars and arrays
//! replace, objects merge deeply, `null` deletes); absent trait properties
//! are then filled from the nearest `const`, else the nearest `default`.
//! Every walk is bounded by a maximum nesting depth.

use vstd::prelude::*;
use vstd::string::*;

use crate::json_pointer::pointer_target;
use crate::json::{
    clone_items, clone_members, clone_slice, insert_member, json_clone, json_model,
    lemma_array_model, lemma_object_model, member, member_index, member_insert, member_models,
    member_position, member_remove, models_of, remove_member, JsonModel, JsonValue,
};

verus! {

broadcast use vstd::string::group_string_axioms;

/// JSON Schema annotation keyword that defines the shape of the trait
/// properties available to a GTS type and its descendants.
pub const X_GTS_TRAITS_SCHEMA: &'static str = "x-gts-traits-schema";

/// JSON Schema annotation keyword that supplies concrete values for the
/// trait properties declared through [`X_GTS_TRAITS_SCHEMA`].
pub const X_GTS_TRAITS: &'static str = "x-gts-traits";

/// Nesting deeper than this is not walked.
const MAX_RECURSION_DEPTH: usize = 64;

// ---------------------------------------------------------------------------
// `false` sub-schemas
// ---------------------------------------------------------------------------

/// Whether a (possibly `allOf`-composed) schema contains the boolean schema
/// `false` along its `allOf` nesting, which makes it unsatisfiable.
pub open spec fn schema_is_false(m: JsonModel, depth: nat) -> bool
    decreases m, 0nat,
{
    if depth >= 64 {
        false
    } else {
        match m {
            JsonModel::Bool(b) => !b,
            JsonModel::Object(es) => match member_index(es, "allOf"@) {
                Some(k) => if k < es.len() {
                    match es[k as int].1 {
                        JsonModel::Array(items) => any_false(items, 0, depth),
                        _ => false,
                    }
                } else {
                    false
                },
                None => false,
            },
            _ => false,
        }
    }
}

/// Whether one of `items[i..]`, one level deeper, is `false`.
pub open spec fn any_false(items: Seq<JsonModel>, i: nat, depth: nat) -> bool
    decreases items, items.len() - i,
{
    if i >= items.len() {
        false
    } else {
        schema_is_false(items[i as int], depth + 1) || any_false(items, i + 1, depth)
    }
}

fn is_false_at(schema: &JsonValue, depth: usize) -> (r: bool)
    requires
        depth <= 64,
    ensures
        r == schema_is_false(json_model(*schema), depth as nat),
    decreases schema, 0nat,
{
    if depth >= MAX_RECURSION_DEPTH {
        return false;
    }
    match schema {
        JsonValue::Bool(b) => !*b,
        JsonValue::Object(entries) => {
            proof {
                lemma_object_model(*entries);
            }
            match member_position(entries, "allOf") {
                Some(k) => match &entries[k].1 {
                    JsonValue::Array(items) => {
                        proof {
                            lemma_array_model(*items);
                        }
                        any_false_in(items, depth)
                    },
                    _ => false,
                },
                None => false,
            }
        },
        _ => false,
    }
}

fn any_false_in(items: &Vec<JsonValue>, depth: usize) -> (r: bool)
    requires
        depth < 64,
    ensures
        r == any_false(models_of(items@), 0, depth as nat),
    decreases items, 1nat,
{
    let ghost ms = models_of(items@);
    let mut i: usize = 0;
    while i < items.len()
        invariant
            i <= items@.len(),
            depth < 64,
            ms == models_of(items@),
            any_false(ms, 0, depth as nat) == any_false(ms, i as nat, depth as nat),
        decreases items.len() - i,
    {
        assert(ms[i as int] == json_model(items@[i as int]));
        if is_false_at(&items[i], depth + 1) {
            return true;
        }
        i = i + 1;
    }
    false
}

/// Whether the effective trait schema is unsatisfiable: it is, or
/// `allOf`-composes, the boolean schema `false`.
pub fn effective_schema_is_false(schema: &JsonValue) -> (r: bool)
    ensures
        r == schema_is_false(json_model(*schema), 0),
{
    is_false_at(schema, 0)
}

// ---------------------------------------------------------------------------
// Composition
// ---------------------------------------------------------------------------

/// The effective trait schema of the collected trait schemas: `{}` for
/// none, the one schema itself, or an object schema that `allOf`-composes
/// them all.
pub open spec fn effective_traits_schema(ms: Seq<JsonModel>) -> JsonModel {
    if ms.len() == 0 {
        JsonModel::Object(Seq::<(Seq<char>, JsonModel)>::empty())
    } else if ms.len() == 1 {
        ms[0]
    } else {
        JsonModel::Object(seq![("type"@, JsonModel::String("object"@)), ("allOf"@, JsonModel::Array(ms))])
    }
}

/// Builds the effective trait schema by composing the collected trait
/// schemas with `allOf` (see [`effective_traits_schema`]).
pub fn build_effective_traits_schema(schemas: &[JsonValue]) -> (r: JsonValue)
    ensures
        json_model(r) == effective_traits_schema(models_of(schemas@)),
{
    if schemas.len() == 0 {
        let e: Vec<(String, JsonValue)> = Vec::new();
        proof {
            lemma_object_model(e);
            assert(member_models(e@) =~= Seq::<(Seq<char>, JsonModel)>::empty());
        }
        JsonValue::Object(e)
    } else if schemas.len() == 1 {
        json_clone(&schemas[0])
    } else {
        let items = clone_slice(schemas);
        let mut w: Vec<(String, JsonValue)> = Vec::new();
        let t = String::from_str("type");
        let o = String::from_str("object");
        let a = String::from_str("allOf");
        let tv = JsonValue::String(o);
        let av = JsonValue::Array(items);
        proof {
            lemma_array_model(items);
        }
        w.push((t, tv));
        w.push((a, av));
        proof {
            lemma_object_model(w);
            assert(member_models(w@) =~= seq![
                ("type"@, JsonModel::String("object"@)),
                ("allOf"@, JsonModel::Array(models_of(schemas@))),
            ]);
        }
        JsonValue::Object(w)
    }
}

// ---------------------------------------------------------------------------
// Collection along `allOf`
// ---------------------------------------------------------------------------

/// The `x-gts-traits-schema` sub-schemas of a schema, its own first, then
/// those of its `allOf` items, in order.
pub open spec fn trait_schemas_in(m: JsonModel, depth: nat) -> Seq<JsonModel>
    decreases m, 0nat,
{
    if depth >= 64 {
        Seq::<JsonModel>::empty()
    } else {
        match m {
            JsonModel::Object(es) => {
                let own = match member(es, "x-gts-traits-schema"@) {
                    Some(ts) => seq![ts],
                    None => Seq::<JsonModel>::empty(),
                };
                own + match member_index(es, "allOf"@) {
                    Some(k) => if k < es.len() {
                        match es[k as int].1 {
                            JsonModel::Array(items) => trait_schemas_in_items(items, 0, depth),
                            _ => Seq::<JsonModel>::empty(),
                        }
                    } else {
                        Seq::<JsonModel>::empty()
                    },
                    None => Seq::<JsonModel>::empty(),
                }
            },
            _ => Seq::<JsonModel>::empty(),
        }
    }
}

pub open spec fn trait_schemas_in_items(items: Seq<JsonModel>, i: nat, depth: nat) -> Seq<JsonModel>
    decreases items, items.len() - i,
{
    if i >= items.len() {
        Seq::<JsonModel>::empty()
    } else {
        trait_schemas_in(items[i as int], depth + 1) + trait_schemas_in_items(items, i + 1, depth)
    }
}

fn collect_trait_schema_at(value: &JsonValue, out: &mut Vec<JsonValue>, depth: usize)
    requires
        depth <= 64,
    ensures
        models_of(final(out)@) == models_of(old(out)@) + trait_schemas_in(
            json_model(*value),
            depth as nat,
        ),
    decreases value, 0nat,
{
    if depth >= MAX_RECURSION_DEPTH {
        assert(models_of(out@) =~= models_of(out@) + Seq::<JsonModel>::empty());
        return ;
    }
    match value {
        JsonValue::Object(entries) => {
            proof {
                lemma_object_model(*entries);
            }
            let ghost start = models_of(out@);
            match member_position(entries, "x-gts-traits-schema") {
                Some(p) => {
                    let c = json_clone(&entries[p].1);
                    let ghost before = out@;
                    out.push(c);
                    assert(models_of(out@) =~= models_of(before).push(json_model(c)));
                },
                None => {},
            }
            let ghost mid = models_of(out@);
            match member_position(entries, "allOf") {
                Some(k) => match &entries[k].1 {
                    JsonValue::Array(items) => {
                        proof {
                            lemma_array_model(*items);
                        }
                        collect_trait_schema_items(items, out, depth);
                    },
                    _ => {
                        assert(models_of(out@) =~= mid + Seq::<JsonModel>::empty());
                    },
                },
                None => {
                    assert(models_of(out@) =~= mid + Seq::<JsonModel>::empty());
                },
            }
            proof {
                let own = match member(member_models(entries@), "x-gts-traits-schema"@) {
                    Some(ts) => seq![ts],
                    None => Seq::<JsonModel>::empty(),
                };
                assert(mid =~= start + own);
            }
        },
        _ => {
            assert(models_of(out@) =~= models_of(out@) + Seq::<JsonModel>::empty());
        },
    }
}

fn collect_trait_schema_items(items: &Vec<JsonValue>, out: &mut Vec<JsonValue>, depth: usize)
    requires
        depth < 64,
    ensures
        models_of(final(out)@) == models_of(old(out)@) + trait_schemas_in_items(
            models_of(items@),
            0,
            depth as nat,
        ),
    decreases items, 1nat,
{
    let ghost ms = models_of(items@);
    let ghost start = models_of(out@);
    let ghost mut done: Seq<JsonModel> = Seq::empty();
    let mut i: usize = 0;
    assert(start + done =~= start);
    while i < items.len()
        invariant
            i <= items@.len(),
            depth < 64,
            ms == models_of(items@),
            models_of(out@) == start + done,
            trait_schemas_in_items(ms, 0, depth as nat) == done + trait_schemas_in_items(
                ms,
                i as nat,
                depth as nat,
            ),
        decreases items.len() - i,
    {
        assert(ms[i as int] == json_model(items@[i as int]));
        collect_trait_schema_at(&items[i], out, depth + 1);
        proof {
            let a = trait_schemas_in(ms[i as int], (depth + 1) as nat);
            let b = trait_schemas_in_items(ms, (i + 1) as nat, depth as nat);
            assert(done + (a + b) =~= (done + a) + b);
            done = done + a;
        }
        i = i + 1;
    }
    assert(done + Seq::<JsonModel>::empty() =~= done);
}

/// Collects the `x-gts-traits-schema` sub-schemas of a schema, including
/// those nested in `allOf` items, appending them to `out`.
pub fn collect_trait_schema_from_value(value: &JsonValue, out: &mut Vec<JsonValue>)
    ensures
        models_of(final(out)@) == models_of(old(out)@) + trait_schemas_in(json_model(*value), 0),
{
    collect_trait_schema_at(value, out, 0)
}

/// `acc` with every member of `traits` set in turn.
pub open spec fn insert_all(acc: Seq<(Seq<char>, JsonModel)>, traits: Seq<(Seq<char>, JsonModel)>) -> Seq<
    (Seq<char>, JsonModel),
>
    decreases traits.len(),
{
    if traits.len() == 0 {
        acc
    } else {
        member_insert(insert_all(acc, traits.drop_last()), traits.last().0, traits.last().1)
    }
}

/// `acc` with the `x-gts-traits` values of a schema set in, its own first,
/// then those of its `allOf` items in order (later entries win).
pub open spec fn traits_in(m: JsonModel, depth: nat, acc: Seq<(Seq<char>, JsonModel)>) -> Seq<
    (Seq<char>, JsonModel),
>
    decreases m, 0nat,
{
    if depth >= 64 {
        acc
    } else {
        match m {
            JsonModel::Object(es) => {
                let acc1 = match member(es, "x-gts-traits"@) {
                    Some(JsonModel::Object(t)) => insert_all(acc, t),
                    _ => acc,
                };
                match member_index(es, "allOf"@) {
                    Some(k) => if k < es.len() {
                        match es[k as int].1 {
                            JsonModel::Array(items) => traits_in_items(items, 0, depth, acc1),
                            _ => acc1,
                        }
                    } else {
                        acc1
                    },
                    None => acc1,
                }
            },
            _ => acc,
        }
    }
}

pub open spec fn traits_in_items(items: Seq<JsonModel>, i: nat, depth: nat, acc: Seq<(Seq<char>, JsonModel)>) -> Seq<
    (Seq<char>, JsonModel),
>
    decreases items, items.len() - i,
{
    if i >= items.len() {
        acc
    } else {
        traits_in_items(items, i + 1, depth, traits_in(items[i as int], depth + 1, acc))
    }
}

fn insert_all_members(merged: &mut Vec<(String, JsonValue)>, traits: &Vec<(String, JsonValue)>)
    ensures
        member_models(final(merged)@) == insert_all(member_models(old(merged)@), member_models(traits@)),
{
    let ghost start = member_models(merged@);
    let ghost ts = member_models(traits@);
    let mut i: usize = 0;
    assert(ts.take(0) =~= Seq::<(Seq<char>, JsonModel)>::empty());
    while i < traits.len()
        invariant
            i <= traits@.len(),
            ts == member_models(traits@),
            member_models(merged@) == insert_all(start, ts.take(i as int)),
        decreases traits.len() - i,
    {
        let k = traits[i].0.clone();
        let v = json_clone(&traits[i].1);
        insert_member(merged, k, v);
        proof {
            assert(ts.take(i + 1).drop_last() =~= ts.take(i as int));
            assert(ts.take(i + 1).last() == ts[i as int]);
        }
        i = i + 1;
    }
    assert(ts.take(ts.len() as int) =~= ts);
}

fn collect_traits_at(value: &JsonValue, merged: &mut Vec<(String, JsonValue)>, depth: usize)
    requires
        depth <= 64,
    ensures
        member_models(final(merged)@) == traits_in(
            json_model(*value),
            depth as nat,
            member_models(old(merged)@),
        ),
    decreases value, 0nat,
{
    if depth >= MAX_RECURSION_DEPTH {
        return ;
    }
    match value {
        JsonValue::Object(entries) => {
            proof {
                lemma_object_model(*entries);
            }
            match member_position(entries, "x-gts-traits") {
                Some(p) => match &entries[p].1 {
                    JsonValue::Object(traits) => {
                        proof {
                            lemma_object_model(*traits);
                        }
                        insert_all_members(merged, traits);
                    },
                    _ => {},
                },
                None => {},
            }
            match member_position(entries, "allOf") {
                Some(k) => match &entries[k].1 {
                    JsonValue::Array(items) => {
                        proof {
                            lemma_array_model(*items);
                        }
                        collect_traits_items(items, merged, depth);
                    },
                    _ => {},
                },
                None => {},
            }
        },
        _ => {},
    }
}

fn collect_traits_items(items: &Vec<JsonValue>, merged: &mut Vec<(String, JsonValue)>, depth: usize)
    requires
        depth < 64,
    ensures
        member_models(final(merged)@) == traits_in_items(
            models_of(items@),
            0,
            depth as nat,
            member_models(old(merged)@),
        ),
    decreases items, 1nat,
{
    let ghost ms = models_of(items@);
    let ghost start = member_models(merged@);
    let mut i: usize = 0;
    while i < items.len()
        invariant
            i <= items@.len(),
            depth < 64,
            ms == models_of(items@),
            traits_in_items(ms, 0, depth as nat, start) == traits_in_items(
                ms,
                i as nat,
                depth as nat,
                member_models(merged@),
            ),
        decreases items.len() - i,
    {
        assert(ms[i as int] == json_model(items@[i as int]));
        collect_traits_at(&items[i], merged, depth + 1);
        i = i + 1;
    }
}

/// Sets the `x-gts-traits` values of a schema, including those nested in
/// `allOf` items, into `merged`; later entries win. `null` values are kept:
/// they delete the key when the levels of a chain are merged.
pub fn collect_traits_from_value(value: &JsonValue, merged: &mut Vec<(String, JsonValue)>)
    ensures
        member_models(final(merged)@) == traits_in(json_model(*value), 0, member_models(old(merged)@)),
{
    collect_traits_at(value, merged, 0)
}

// ---------------------------------------------------------------------------
// RFC 7396 JSON Merge Patch
// ---------------------------------------------------------------------------

/// `target` merged with `patch` per RFC 7396: `null` deletes the key, an
/// object merges into an existing object (or into an empty one), any
/// other value replaces.
pub open spec fn merge_patch(target: Seq<(Seq<char>, JsonModel)>, patch: Seq<(Seq<char>, JsonModel)>, depth: nat) -> Seq<
    (Seq<char>, JsonModel),
>
    decreases patch, 1nat,
{
    if depth >= 64 {
        target
    } else {
        merge_from(target, patch, 0, depth)
    }
}

/// `target` merged with the members `i..` of `patch`.
pub open spec fn merge_from(target: Seq<(Seq<char>, JsonModel)>, patch: Seq<(Seq<char>, JsonModel)>, i: nat, depth: nat) -> Seq<
    (Seq<char>, JsonModel),
>
    decreases patch, 0nat, patch.len() - i,
{
    if i >= patch.len() || depth >= 64 {
        target
    } else {
        let key = patch[i as int].0;
        let t1 = match patch[i as int].1 {
            JsonModel::Null => member_remove(target, key),
            JsonModel::Object(po) => match member(target, key) {
                Some(JsonModel::Object(existing)) => member_insert(
                    target,
                    key,
                    JsonModel::Object(merge_patch(existing, po, depth + 1)),
                ),
                _ => member_insert(
                    target,
                    key,
                    JsonModel::Object(
                        merge_patch(Seq::<(Seq<char>, JsonModel)>::empty(), po, depth + 1),
                    ),
                ),
            },
            other => member_insert(target, key, other),
        };
        merge_from(t1, patch, i + 1, depth)
    }
}

fn merge_at(target: &mut Vec<(String, JsonValue)>, patch: &Vec<(String, JsonValue)>, depth: usize)
    requires
        depth <= 64,
    ensures
        member_models(final(target)@) == merge_patch(
            member_models(old(target)@),
            member_models(patch@),
            depth as nat,
        ),
    decreases patch, 1nat,
{
    if depth >= MAX_RECURSION_DEPTH {
        return ;
    }
    let ghost ps = member_models(patch@);
    let ghost start = member_models(target@);
    let mut i: usize = 0;
    while i < patch.len()
        invariant
            i <= patch@.len(),
            depth < 64,
            ps == member_models(patch@),
            merge_patch(start, ps, depth as nat) == merge_from(
                member_models(target@),
                ps,
                i as nat,
                depth as nat,
            ),
        decreases patch.len() - i,
    {
        let key = &patch[i].0;
        assert(ps[i as int].0 == key@);
        assert(ps[i as int].1 == json_model(patch@[i as int].1));
        match &patch[i].1 {
            JsonValue::Null => {
                remove_member(target, key.as_str());
            },
            JsonValue::Object(po) => {
                proof {
                    lemma_object_model(*po);
                }
                let ghost tm = member_models(target@);
                match member_position(target, key.as_str()) {
                    Some(pos) => {
                        let (kk, val) = target.remove(pos);
                        assert(tm[pos as int] == (kk@, json_model(val)));
                        match val {
                            JsonValue::Object(existing) => {
                                let mut ex = existing;
                                proof {
                                    lemma_object_model(ex);
                                }
                                merge_at(&mut ex, po, depth + 1);
                                let nv = JsonValue::Object(ex);
                                proof {
                                    lemma_object_model(ex);
                                }
                                target.insert(pos, (kk, nv));
                            },
                            _ => {
                                let mut fresh: Vec<(String, JsonValue)> = Vec::new();
                                assert(member_models(fresh@) =~= Seq::<(Seq<char>, JsonModel)>::empty());
                                merge_at(&mut fresh, po, depth + 1);
                                let nv = JsonValue::Object(fresh);
                                proof {
                                    lemma_object_model(fresh);
                                }
                                target.insert(pos, (kk, nv));
                            },
                        }
                        proof {
                            crate::json::lemma_member_index_first(tm, key@);
                            assert(member_models(target@) =~= tm.update(
                                pos as int,
                                member_models(target@)[pos as int],
                            ));
                        }
                    },
                    None => {
                        let mut fresh: Vec<(String, JsonValue)> = Vec::new();
                        assert(member_models(fresh@) =~= Seq::<(Seq<char>, JsonModel)>::empty());
                        merge_at(&mut fresh, po, depth + 1);
                        let nv = JsonValue::Object(fresh);
                        proof {
                            lemma_object_model(fresh);
                        }
                        insert_member(target, key.clone(), nv);
                    },
                }
            },
            other => {
                let c = json_clone(other);
                insert_member(target, key.clone(), c);
            },
        }
        i = i + 1;
    }
}

/// Merges `patch` into `target` per RFC 7396 JSON Merge Patch: scalar and
/// array values replace, objects merge recursively (keys the patch does not
/// restate are kept), and `null` deletes the key.
pub fn merge_rfc7396_into(target: &mut Vec<(String, JsonValue)>, patch: &Vec<(String, JsonValue)>)
    ensures
        member_models(final(target)@) == merge_patch(member_models(old(target)@), member_models(patch@), 0),
{
    merge_at(target, patch, 0)
}

// ---------------------------------------------------------------------------
// `required` and `properties` along `allOf`
// ---------------------------------------------------------------------------

/// The string items of an array, in order.
pub open spec fn string_items(items: Seq<JsonModel>) -> Seq<Seq<char>>
    decreases items.len(),
{
    if items.len() == 0 {
        Seq::<Seq<char>>::empty()
    } else {
        string_items(items.drop_last()) + match items.last() {
            JsonModel::String(s) => seq![s],
            _ => Seq::<Seq<char>>::empty(),
        }
    }
}

/// The `required` property names of a schema and of its `allOf` items, in
/// order (with repetitions).
pub open spec fn required_in(m: JsonModel, depth: nat) -> Seq<Seq<char>>
    decreases m, 0nat,
{
    if depth >= 64 {
        Seq::<Seq<char>>::empty()
    } else {
        match m {
            JsonModel::Object(es) => {
                let own = match member(es, "required"@) {
                    Some(JsonModel::Array(names)) => string_items(names),
                    _ => Seq::<Seq<char>>::empty(),
                };
                own + match member_index(es, "allOf"@) {
                    Some(k) => if k < es.len() {
                        match es[k as int].1 {
                            JsonModel::Array(items) => required_in_items(items, 0, depth),
                            _ => Seq::<Seq<char>>::empty(),
                        }
                    } else {
                        Seq::<Seq<char>>::empty()
                    },
                    None => Seq::<Seq<char>>::empty(),
                }
            },
            _ => Seq::<Seq<char>>::empty(),
        }
    }
}

pub open spec fn required_in_items(items: Seq<JsonModel>, i: nat, depth: nat) -> Seq<Seq<char>>
    decreases items, items.len() - i,
{
    if i >= items.len() {
        Seq::<Seq<char>>::empty()
    } else {
        required_in(items[i as int], depth + 1) + required_in_items(items, i + 1, depth)
    }
}

fn push_string_items(names: &Vec<JsonValue>, out: &mut Vec<String>)
    ensures
        crate::schema_refs::texts(final(out)@) == crate::schema_refs::texts(old(out)@) + string_items(
            models_of(names@),
        ),
{
    let ghost start = crate::schema_refs::texts(out@);
    let ghost ms = models_of(names@);
    let mut i: usize = 0;
    assert(ms.take(0) =~= Seq::<JsonModel>::empty());
    assert(start + Seq::<Seq<char>>::empty() =~= start);
    while i < names.len()
        invariant
            i <= names@.len(),
            ms == models_of(names@),
            crate::schema_refs::texts(out@) == start + string_items(ms.take(i as int)),
        decreases names.len() - i,
    {
        let ghost before = crate::schema_refs::texts(out@);
        proof {
            assert(ms.take(i + 1).drop_last() =~= ms.take(i as int));
            assert(ms.take(i + 1).last() == json_model(names@[i as int]));
        }
        match &names[i] {
            JsonValue::String(n) => {
                out.push(n.clone());
                assert(crate::schema_refs::texts(out@) =~= before.push(n@));
            },
            _ => {
                assert(crate::schema_refs::texts(out@) =~= before + Seq::<Seq<char>>::empty());
            },
        }
        i = i + 1;
    }
    assert(ms.take(ms.len() as int) =~= ms);
}

fn collect_required_at(schema: &JsonValue, out: &mut Vec<String>, depth: usize)
    requires
        depth <= 64,
    ensures
        crate::schema_refs::texts(final(out)@) == crate::schema_refs::texts(old(out)@) + required_in(
            json_model(*schema),
            depth as nat,
        ),
    decreases schema, 0nat,
{
    let ghost start = crate::schema_refs::texts(out@);
    if depth >= MAX_RECURSION_DEPTH {
        assert(start + Seq::<Seq<char>>::empty() =~= start);
        return ;
    }
    match schema {
        JsonValue::Object(entries) => {
            proof {
                lemma_object_model(*entries);
            }
            match member_position(entries, "required") {
                Some(p) => match &entries[p].1 {
                    JsonValue::Array(names) => {
                        proof {
                            lemma_array_model(*names);
                        }
                        push_string_items(names, out);
                    },
                    _ => {},
                },
                None => {},
            }
            let ghost mid = crate::schema_refs::texts(out@);
            match member_position(entries, "allOf") {
                Some(k) => match &entries[k].1 {
                    JsonValue::Array(items) => {
                        proof {
                            lemma_array_model(*items);
                        }
                        collect_required_items(items, out, depth);
                    },
                    _ => {},
                },
                None => {},
            }
            proof {
                let own = match member(member_models(entries@), "required"@) {
                    Some(JsonModel::Array(names)) => string_items(names),
                    _ => Seq::<Seq<char>>::empty(),
                };
                assert(mid =~= start + own);
                let rest = crate::schema_refs::texts(out@).skip(mid.len() as int);
                assert(crate::schema_refs::texts(out@) =~= start + own + rest);
            }
        },
        _ => {
            assert(start + Seq::<Seq<char>>::empty() =~= start);
        },
    }
}

fn collect_required_items(items: &Vec<JsonValue>, out: &mut Vec<String>, depth: usize)
    requires
        depth < 64,
    ensures
        crate::schema_refs::texts(final(out)@) == crate::schema_refs::texts(old(out)@)
            + required_in_items(models_of(items@), 0, depth as nat),
    decreases items, 1nat,
{
    let ghost ms = models_of(items@);
    let ghost start = crate::schema_refs::texts(out@);
    let ghost mut done: Seq<Seq<char>> = Seq::empty();
    let mut i: usize = 0;
    assert(start + done =~= start);
    while i < items.len()
        invariant
            i <= items@.len(),
            depth < 64,
            ms == models_of(items@),
            crate::schema_refs::texts(out@) == start + done,
            required_in_items(ms, 0, depth as nat) == done + required_in_items(
                ms,
                i as nat,
                depth as nat,
            ),
        decreases items.len() - i,
    {
        assert(ms[i as int] == json_model(items@[i as int]));
        collect_required_at(&items[i], out, depth + 1);
        proof {
            let a = required_in(ms[i as int], (depth + 1) as nat);
            let b = required_in_items(ms, (i + 1) as nat, depth as nat);
            assert(done + (a + b) =~= (done + a) + b);
            done = done + a;
        }
        i = i + 1;
    }
    assert(done + Seq::<Seq<char>>::empty() =~= done);
}

/// The names required at the top level of a schema or in any of its
/// `allOf` items, each listed once, in the order first met.
pub fn collect_all_required(schema: &JsonValue) -> (r: Vec<String>)
    ensures
        crate::schema_refs::texts(r@) == crate::schema_refs::dedup(required_in(json_model(*schema), 0)),
{
    let mut all: Vec<String> = Vec::new();
    let ghost e = crate::schema_refs::texts(all@);
    collect_required_at(schema, &mut all, 0);
    assert(e =~= Seq::<Seq<char>>::empty());
    assert(crate::schema_refs::texts(all@) =~= required_in(json_model(*schema), 0));
    crate::schema_refs::dedup_strings(&all)
}

/// A schema with every `required` constraint removed, at the top level and
/// in each `allOf` item.
pub open spec fn strip_required(m: JsonModel, depth: nat) -> JsonModel
    decreases m, 0nat,
{
    if depth >= 64 {
        m
    } else {
        match m {
            JsonModel::Object(es) => {
                let es1 = match member_index(es, "allOf"@) {
                    Some(k) => if k < es.len() {
                        match es[k as int].1 {
                            JsonModel::Array(items) => es.update(
                                k as int,
                                (es[k as int].0, JsonModel::Array(strip_items(items, 0, depth))),
                            ),
                            _ => es,
                        }
                    } else {
                        es
                    },
                    None => es,
                };
                JsonModel::Object(member_remove(es1, "required"@))
            },
            _ => m,
        }
    }
}

pub open spec fn strip_items(items: Seq<JsonModel>, i: nat, depth: nat) -> Seq<JsonModel>
    decreases items, items.len() - i,
{
    if i >= items.len() {
        Seq::<JsonModel>::empty()
    } else {
        seq![strip_required(items[i as int], depth + 1)] + strip_items(items, i + 1, depth)
    }
}

fn strip_at(v: &JsonValue, depth: usize) -> (r: JsonValue)
    requires
        depth <= 64,
    ensures
        json_model(r) == strip_required(json_model(*v), depth as nat),
    decreases v, 0nat,
{
    if depth >= MAX_RECURSION_DEPTH {
        return json_clone(v);
    }
    match v {
        JsonValue::Object(entries) => {
            proof {
                lemma_object_model(*entries);
            }
            let mut es = clone_members(entries);
            match member_position(entries, "allOf") {
                Some(k) => match &entries[k].1 {
                    JsonValue::Array(items) => {
                        proof {
                            lemma_array_model(*items);
                        }
                        let stripped = strip_items_at(items, depth);
                        let av = JsonValue::Array(stripped);
                        proof {
                            lemma_array_model(stripped);
                        }
                        let ghost before = member_models(es@);
                        es.set(k, (entries[k].0.clone(), av));
                        assert(member_models(es@) =~= before.update(
                            k as int,
                            (entries@[k as int].0@, json_model(av)),
                        ));
                    },
                    _ => {},
                },
                None => {},
            }
            remove_member(&mut es, "required");
            proof {
                lemma_object_model(es);
            }
            JsonValue::Object(es)
        },
        _ => json_clone(v),
    }
}

fn strip_items_at(items: &Vec<JsonValue>, depth: usize) -> (r: Vec<JsonValue>)
    requires
        depth < 64,
    ensures
        models_of(r@) == strip_items(models_of(items@), 0, depth as nat),
    decreases items, 1nat,
{
    let ghost ms = models_of(items@);
    let mut out: Vec<JsonValue> = Vec::new();
    let mut i: usize = 0;
    while i < items.len()
        invariant
            i <= items@.len(),
            depth < 64,
            ms == models_of(items@),
            strip_items(ms, 0, depth as nat) == models_of(out@) + strip_items(
                ms,
                i as nat,
                depth as nat,
            ),
        decreases items.len() - i,
    {
        assert(ms[i as int] == json_model(items@[i as int]));
        let c = strip_at(&items[i], depth + 1);
        let ghost before = out@;
        out.push(c);
        proof {
            assert(models_of(out@) =~= models_of(before).push(json_model(c)));
            let b = strip_items(ms, (i + 1) as nat, depth as nat);
            assert(models_of(before) + (seq![json_model(c)] + b) =~= models_of(out@) + b);
        }
        i = i + 1;
    }
    assert(models_of(out@) + Seq::<JsonModel>::empty() =~= models_of(out@));
    out
}

/// A copy of a schema without its `required` constraints (top level and
/// `allOf` items): the declared types of provided values still apply, the
/// completeness of required ones does not.
pub fn schema_without_required(schema: &JsonValue) -> (r: JsonValue)
    ensures
        json_model(r) == strip_required(json_model(*schema), 0),
{
    strip_at(schema, 0)
}

/// The property declarations of a schema and of its `allOf` items, in
/// order (a name may repeat).
pub open spec fn props_in(m: JsonModel, depth: nat) -> Seq<(Seq<char>, JsonModel)>
    decreases m, 0nat,
{
    if depth >= 64 {
        Seq::<(Seq<char>, JsonModel)>::empty()
    } else {
        match m {
            JsonModel::Object(es) => {
                let own = match member(es, "properties"@) {
                    Some(JsonModel::Object(p)) => p,
                    _ => Seq::<(Seq<char>, JsonModel)>::empty(),
                };
                own + match member_index(es, "allOf"@) {
                    Some(k) => if k < es.len() {
                        match es[k as int].1 {
                            JsonModel::Array(items) => props_in_items(items, 0, depth),
                            _ => Seq::<(Seq<char>, JsonModel)>::empty(),
                        }
                    } else {
                        Seq::<(Seq<char>, JsonModel)>::empty()
                    },
                    None => Seq::<(Seq<char>, JsonModel)>::empty(),
                }
            },
            _ => Seq::<(Seq<char>, JsonModel)>::empty(),
        }
    }
}

pub open spec fn props_in_items(items: Seq<JsonModel>, i: nat, depth: nat) -> Seq<(Seq<char>, JsonModel)>
    decreases items, items.len() - i,
{
    if i >= items.len() {
        Seq::<(Seq<char>, JsonModel)>::empty()
    } else {
        props_in(items[i as int], depth + 1) + props_in_items(items, i + 1, depth)
    }
}

fn collect_props_at(schema: &JsonValue, out: &mut Vec<(String, JsonValue)>, depth: usize)
    requires
        depth <= 64,
    ensures
        member_models(final(out)@) == member_models(old(out)@) + props_in(
            json_model(*schema),
            depth as nat,
        ),
    decreases schema, 0nat,
{
    let ghost start = member_models(out@);
    if depth >= MAX_RECURSION_DEPTH {
        assert(start + Seq::<(Seq<char>, JsonModel)>::empty() =~= start);
        return ;
    }
    match schema {
        JsonValue::Object(entries) => {
            proof {
                lemma_object_model(*entries);
            }
            match member_position(entries, "properties") {
                Some(p) => match &entries[p].1 {
                    JsonValue::Object(props) => {
                        proof {
                            lemma_object_model(*props);
                        }
                        let c = clone_members(props);
                        let mut j: usize = 0;
                        while j < c.len()
                            invariant
                                j <= c@.len(),
                                member_models(out@) == start + member_models(c@).take(j as int),
                            decreases c.len() - j,
                        {
                            let k = c[j].0.clone();
                            let v = json_clone(&c[j].1);
                            let ghost before = member_models(out@);
                            out.push((k, v));
                            assert(member_models(out@) =~= before.push((k@, json_model(v))));
                            assert(member_models(c@).take(j + 1) =~= member_models(c@).take(
                                j as int,
                            ).push(member_models(c@)[j as int]));
                            j = j + 1;
                        }
                        assert(member_models(c@).take(c@.len() as int) =~= member_models(c@));
                    },
                    _ => {
                        assert(start + Seq::<(Seq<char>, JsonModel)>::empty() =~= start);
                    },
                },
                None => {
                    assert(start + Seq::<(Seq<char>, JsonModel)>::empty() =~= start);
                },
            }
            let ghost mid = member_models(out@);
            match member_position(entries, "allOf") {
                Some(k) => match &entries[k].1 {
                    JsonValue::Array(items) => {
                        proof {
                            lemma_array_model(*items);
                        }
                        collect_props_items(items, out, depth);
                    },
                    _ => {
                        assert(mid + Seq::<(Seq<char>, JsonModel)>::empty() =~= mid);
                    },
                },
                None => {
                    assert(mid + Seq::<(Seq<char>, JsonModel)>::empty() =~= mid);
                },
            }
            proof {
                let own = match member(member_models(entries@), "properties"@) {
                    Some(JsonModel::Object(p)) => p,
                    _ => Seq::<(Seq<char>, JsonModel)>::empty(),
                };
                assert(mid =~= start + own);
                let rest = member_models(out@).skip(mid.len() as int);
                assert(member_models(out@) =~= start + own + rest);
            }
        },
        _ => {
            assert(start + Seq::<(Seq<char>, JsonModel)>::empty() =~= start);
        },
    }
}

fn collect_props_items(items: &Vec<JsonValue>, out: &mut Vec<(String, JsonValue)>, depth: usize)
    requires
        depth < 64,
    ensures
        member_models(final(out)@) == member_models(old(out)@) + props_in_items(
            models_of(items@),
            0,
            depth as nat,
        ),
    decreases items, 1nat,
{
    let ghost ms = models_of(items@);
    let ghost start = member_models(out@);
    let ghost mut done: Seq<(Seq<char>, JsonModel)> = Seq::empty();
    let mut i: usize = 0;
    assert(start + done =~= start);
    while i < items.len()
        invariant
            i <= items@.len(),
            depth < 64,
            ms == models_of(items@),
            member_models(out@) == start + done,
            props_in_items(ms, 0, depth as nat) == done + props_in_items(
                ms,
                i as nat,
                depth as nat,
            ),
        decreases items.len() - i,
    {
        assert(ms[i as int] == json_model(items@[i as int]));
        collect_props_at(&items[i], out, depth + 1);
        proof {
            let a = props_in(ms[i as int], (depth + 1) as nat);
            let b = props_in_items(ms, (i + 1) as nat, depth as nat);
            assert(done + (a + b) =~= (done + a) + b);
            done = done + a;
        }
        i = i + 1;
    }
    assert(done + Seq::<(Seq<char>, JsonModel)>::empty() =~= done);
}

/// Whether no later declaration in `s` has the name of declaration `i`.
pub open spec fn last_of_name(s: Seq<(Seq<char>, JsonModel)>, i: int) -> bool {
    forall|j: int| i < j < s.len() ==> #[trigger] s[j].0 != s[i].0
}

/// The declarations among the first `n` of `s` that are the last of their
/// name in `s`, in order.
pub open spec fn last_declarations(s: Seq<(Seq<char>, JsonModel)>, n: nat) -> Seq<(Seq<char>, JsonModel)>
    decreases n,
{
    if n == 0 {
        Seq::<(Seq<char>, JsonModel)>::empty()
    } else {
        last_declarations(s, (n - 1) as nat) + if last_of_name(s, n - 1) {
            seq![s[n - 1]]
        } else {
            Seq::<(Seq<char>, JsonModel)>::empty()
        }
    }
}

/// All property declarations of a schema, including those of its `allOf`
/// items; when a name is declared more than once, only its last
/// declaration is kept (rightmost wins), in place.
pub fn collect_all_properties(schema: &JsonValue) -> (r: Vec<(String, JsonValue)>)
    ensures
        member_models(r@) == last_declarations(
            props_in(json_model(*schema), 0),
            props_in(json_model(*schema), 0).len(),
        ),
{
    let mut all: Vec<(String, JsonValue)> = Vec::new();
    let ghost e = member_models(all@);
    collect_props_at(schema, &mut all, 0);
    assert(e =~= Seq::<(Seq<char>, JsonModel)>::empty());
    let ghost s = member_models(all@);
    assert(s =~= props_in(json_model(*schema), 0));
    let mut out: Vec<(String, JsonValue)> = Vec::new();
    let mut i: usize = 0;
    while i < all.len()
        invariant
            i <= all@.len(),
            s == member_models(all@),
            member_models(out@) == last_declarations(s, i as nat),
        decreases all.len() - i,
    {
        let mut later = false;
        let mut j: usize = i + 1;
        while j < all.len()
            invariant
                i < all@.len(),
                i + 1 <= j <= all@.len(),
                s == member_models(all@),
                later == exists|m: int| i < m < j && #[trigger] s[m].0 == s[i as int].0,
            decreases all.len() - j,
        {
            assert(s[j as int].0 == all@[j as int].0@);
            assert(s[i as int].0 == all@[i as int].0@);
            if crate::text::str_eq(all[j].0.as_str(), all[i].0.as_str()) {
                later = true;
            }
            j = j + 1;
        }
        let ghost before = member_models(out@);
        if !later {
            let k = all[i].0.clone();
            let v = json_clone(&all[i].1);
            out.push((k, v));
            assert(member_models(out@) =~= before.push(s[i as int]));
        }
        proof {
            if later {
                let m = choose|m: int| i < m < all@.len() && #[trigger] s[m].0 == s[i as int].0;
                assert(!last_of_name(s, i as int));
                assert(member_models(out@) =~= before + Seq::<(Seq<char>, JsonModel)>::empty());
            } else {
                assert(last_of_name(s, i as int));
            }
        }
        i = i + 1;
    }
    out
}

// ---------------------------------------------------------------------------
// Materialization of `const` / `default`
// ---------------------------------------------------------------------------

/// The value of `key` in the first declaration of `x` in `decls` whose
/// schema is an object holding `key`.
pub open spec fn nearest(decls: Seq<(Seq<char>, JsonModel)>, x: Seq<char>, key: Seq<char>) -> Option<JsonModel>
    decreases decls.len(),
{
    if decls.len() == 0 {
        None
    } else if decls[0].0 == x && match decls[0].1 {
        JsonModel::Object(o) => member(o, key) is Some,
        _ => false,
    } {
        member(decls[0].1->Object_0, key)
    } else {
        nearest(decls.drop_first(), x, key)
    }
}

/// Whether a property declaration is an object schema with properties of
/// its own (`"type": "object"` and `properties`).
pub open spec fn declared_object(decl: JsonModel) -> bool {
    match decl {
        JsonModel::Object(o) => member(o, "type"@) == Some(JsonModel::String("object"@)) && member(
            o,
            "properties"@,
        ) is Some,
        _ => false,
    }
}

/// The members of a value that is an object; none otherwise.
pub open spec fn object_members(t: JsonModel) -> Seq<(Seq<char>, JsonModel)> {
    match t {
        JsonModel::Object(m) => m,
        _ => Seq::<(Seq<char>, JsonModel)>::empty(),
    }
}

/// The declared property names, most derived first, each once.
pub open spec fn resolution_order(decls: Seq<(Seq<char>, JsonModel)>) -> Seq<Seq<char>> {
    crate::schema_refs::dedup(decls.map_values(|e: (Seq<char>, JsonModel)| e.0))
}

/// The trait values with every declared property that is absent filled
/// from its nearest `const`, else its nearest `default`; a present object
/// value whose most derived declaration is an object schema with
/// properties is filled the same way, one level deeper.
pub open spec fn materialized(schema: JsonModel, traits: JsonModel, depth: nat) -> JsonModel
    decreases 64 - depth, 1nat, 0nat,
{
    if depth >= 64 {
        traits
    } else {
        let decls = props_in(schema, 0).reverse();
        JsonModel::Object(
            materialize_from(decls, resolution_order(decls), object_members(traits), 0, depth),
        )
    }
}

/// `result` with the properties `order[i..]` resolved in turn.
pub open spec fn materialize_from(
    decls: Seq<(Seq<char>, JsonModel)>,
    order: Seq<Seq<char>>,
    result: Seq<(Seq<char>, JsonModel)>,
    i: nat,
    depth: nat,
) -> Seq<(Seq<char>, JsonModel)>
    decreases 64 - depth, 0nat, order.len() - i,
{
    if depth >= 64 || i >= order.len() {
        result
    } else {
        let x = order[i as int];
        let r1 = match member(result, x) {
            None => match nearest(decls, x, "const"@) {
                Some(c) => member_insert(result, x, c),
                None => match nearest(decls, x, "default"@) {
                    Some(d) => member_insert(result, x, d),
                    None => result,
                },
            },
            Some(cur) => match member(decls, x) {
                Some(decl) => if cur is Object && declared_object(decl) {
                    member_insert(result, x, materialized(decl, cur, depth + 1))
                } else {
                    result
                },
                None => result,
            },
        };
        materialize_from(decls, order, r1, i + 1, depth)
    }
}

fn nearest_value(decls: &Vec<(String, JsonValue)>, x: &str, key: &str) -> (r: Option<JsonValue>)
    ensures
        match nearest(member_models(decls@), x@, key@) {
            Some(v) => r is Some && json_model(r->Some_0) == v,
            None => r is None,
        },
{
    let ghost ms = member_models(decls@);
    let mut i: usize = 0;
    assert(ms.skip(0) =~= ms);
    while i < decls.len()
        invariant
            i <= decls@.len(),
            ms == member_models(decls@),
            nearest(ms, x@, key@) == nearest(ms.skip(i as int), x@, key@),
        decreases decls.len() - i,
    {
        assert(ms.skip(i as int)[0] == ms[i as int]);
        assert(ms.skip(i as int).drop_first() =~= ms.skip(i + 1));
        if crate::text::str_eq(decls[i].0.as_str(), x) {
            match &decls[i].1 {
                JsonValue::Object(o) => {
                    proof {
                        lemma_object_model(*o);
                    }
                    match member_position(o, key) {
                        Some(p) => {
                            return Some(json_clone(&o[p].1));
                        },
                        None => {},
                    }
                },
                _ => {},
            }
        }
        i = i + 1;
    }
    None
}

fn is_declared_object(decl: &JsonValue) -> (r: bool)
    ensures
        r == declared_object(json_model(*decl)),
{
    match decl {
        JsonValue::Object(o) => {
            proof {
                lemma_object_model(*o);
            }
            let has_type = match member_position(o, "type") {
                Some(t) => match &o[t].1 {
                    JsonValue::String(s) => crate::text::str_eq(s.as_str(), "object"),
                    _ => false,
                },
                None => false,
            };
            has_type && member_position(o, "properties").is_some()
        },
        _ => false,
    }
}

fn reverse_members(all: &Vec<(String, JsonValue)>) -> (r: Vec<(String, JsonValue)>)
    ensures
        member_models(r@) == member_models(all@).reverse(),
{
    let ghost ms = member_models(all@);
    let mut out: Vec<(String, JsonValue)> = Vec::new();
    let mut i: usize = all.len();
    while i > 0
        invariant
            i <= all@.len(),
            ms == member_models(all@),
            member_models(out@).len() == ms.len() - i,
            forall|j: int| 0 <= j < ms.len() - i ==> #[trigger] member_models(out@)[j] == ms[ms.len() - 1 - j],
        decreases i,
    {
        i = i - 1;
        let k = all[i].0.clone();
        let v = json_clone(&all[i].1);
        let ghost before = member_models(out@);
        out.push((k, v));
        assert(member_models(out@) =~= before.push(ms[i as int]));
    }
    assert(member_models(out@) =~= ms.reverse());
    out
}

fn member_names(decls: &Vec<(String, JsonValue)>) -> (r: Vec<String>)
    ensures
        crate::schema_refs::texts(r@) == member_models(decls@).map_values(
            |e: (Seq<char>, JsonModel)| e.0,
        ),
{
    let mut out: Vec<String> = Vec::new();
    let mut i: usize = 0;
    while i < decls.len()
        invariant
            i <= decls@.len(),
            out@.len() == i,
            forall|j: int| 0 <= j < i ==> (#[trigger] out@[j])@ == decls@[j].0@,
        decreases decls.len() - i,
    {
        out.push(decls[i].0.clone());
        i = i + 1;
    }
    assert(crate::schema_refs::texts(out@) =~= member_models(decls@).map_values(
        |e: (Seq<char>, JsonModel)| e.0,
    ));
    out
}

fn materialize_at(schema: &JsonValue, traits: &JsonValue, depth: usize) -> (r: JsonValue)
    requires
        depth <= 64,
    ensures
        json_model(r) == materialized(json_model(*schema), json_model(*traits), depth as nat),
    decreases 64 - depth,
{
    if depth >= MAX_RECURSION_DEPTH {
        return json_clone(traits);
    }
    let mut result: Vec<(String, JsonValue)> = match traits {
        JsonValue::Object(m) => {
            proof {
                lemma_object_model(*m);
            }
            clone_members(m)
        },
        _ => {
            let e: Vec<(String, JsonValue)> = Vec::new();
            assert(member_models(e@) =~= Seq::<(Seq<char>, JsonModel)>::empty());
            e
        },
    };
    let mut all: Vec<(String, JsonValue)> = Vec::new();
    let ghost e0 = member_models(all@);
    collect_props_at(schema, &mut all, 0);
    assert(e0 =~= Seq::<(Seq<char>, JsonModel)>::empty());
    assert(member_models(all@) =~= props_in(json_model(*schema), 0));
    let decls = reverse_members(&all);
    let names = member_names(&decls);
    let order = crate::schema_refs::dedup_strings(&names);
    let ghost ds = member_models(decls@);
    let ghost os = crate::schema_refs::texts(order@);
    assert(ds == props_in(json_model(*schema), 0).reverse());
    assert(os == resolution_order(ds));
    let mut i: usize = 0;
    while i < order.len()
        invariant
            i <= order@.len(),
            depth < 64,
            ds == member_models(decls@),
            os == crate::schema_refs::texts(order@),
            materialize_from(ds, os, object_members(json_model(*traits)), 0, depth as nat)
                == materialize_from(ds, os, member_models(result@), i as nat, depth as nat),
        decreases order.len() - i,
    {
        let x = order[i].as_str();
        assert(os[i as int] == x@);
        let ghost rm = member_models(result@);
        match member_position(&result, x) {
            None => match nearest_value(&decls, x, "const") {
                Some(c) => {
                    insert_member(&mut result, order[i].clone(), c);
                },
                None => match nearest_value(&decls, x, "default") {
                    Some(d) => {
                        insert_member(&mut result, order[i].clone(), d);
                    },
                    None => {},
                },
            },
            Some(pos) => {
                assert(rm[pos as int].1 == json_model(result@[pos as int].1));
                match member_position(&decls, x) {
                    Some(dp) => {
                        assert(ds[dp as int].1 == json_model(decls@[dp as int].1));
                        let is_obj = match &result[pos].1 {
                            JsonValue::Object(_) => true,
                            _ => false,
                        };
                        if is_obj && is_declared_object(&decls[dp].1) {
                            let nested = materialize_at(&decls[dp].1, &result[pos].1, depth + 1);
                            result.set(pos, (order[i].clone(), nested));
                            proof {
                                crate::json::lemma_member_index_first(rm, x@);
                                assert(member_models(result@) =~= rm.update(
                                    pos as int,
                                    (x@, json_model(nested)),
                                ));
                            }
                        }
                    },
                    None => {},
                }
            },
        }
        i = i + 1;
    }
    proof {
        lemma_object_model(result);
    }
    JsonValue::Object(result)
}

/// The trait values with their unresolved properties materialized from
/// the effective trait schema (see [`materialized`]): an absent property
/// takes its nearest `const`, else its nearest `default`; a value already
/// present is kept, and filled in one level deeper when it is an object
/// declared with properties of its own.
pub fn materialize_traits(trait_schema: &JsonValue, traits: &JsonValue) -> (r: JsonValue)
    ensures
        json_model(r) == materialized(json_model(*trait_schema), json_model(*traits), 0),
{
    materialize_at(trait_schema, traits, 0)
}

// ---------------------------------------------------------------------------
// Effective traits of a chain
// ---------------------------------------------------------------------------

/// The effective trait schema with the host document's dialect set as its
/// `$schema`, when there is a dialect and the schema is an object.
pub open spec fn with_dialect(m: JsonModel, dialect: Option<Seq<char>>) -> JsonModel {
    match dialect {
        Some(d) => match m {
            JsonModel::Object(es) => JsonModel::Object(member_insert(es, "$schema"@, JsonModel::String(d))),
            _ => m,
        },
        None => m,
    }
}

/// The effective trait artifacts of a chain: the composed trait schema,
/// the materialized trait values, and the inputs they were built from.
#[derive(Debug)]
pub struct EffectiveTraits {
    /// The `allOf`-composed effective trait schema, with its dialect.
    pub schema: JsonValue,
    /// The merged trait values, with `const` / `default` materialized.
    pub values: JsonValue,
    /// The trait schemas of the chain, root first.
    pub resolved_trait_schemas: Vec<JsonValue>,
    /// The merged trait values before materialization.
    pub merged_traits: JsonValue,
}

impl EffectiveTraits {
    /// Whether the chain contributed at least one trait schema.
    pub fn has_schema(&self) -> (r: bool)
        ensures
            r == (self.resolved_trait_schemas@.len() > 0),
    {
        self.resolved_trait_schemas.len() > 0
    }

    /// Whether the chain supplied at least one explicit trait value.
    pub fn has_explicit_values(&self) -> (r: bool)
        ensures
            r == (json_model(self.merged_traits) is Object && object_members(
                json_model(self.merged_traits),
            ).len() > 0),
    {
        match &self.merged_traits {
            JsonValue::Object(m) => {
                proof {
                    lemma_object_model(*m);
                }
                m.len() > 0
            },
            _ => false,
        }
    }
}

/// Builds the effective trait schema (with the host document's dialect,
/// re-injected because embedded trait fragments lose their `$schema`) and
/// the materialized trait values from the collected trait schemas and the
/// merged trait values.
pub fn build_effective_traits(
    resolved_trait_schemas: &[JsonValue],
    merged_traits: &JsonValue,
    dialect: Option<&str>,
) -> (r: EffectiveTraits)
    ensures
        json_model(r.schema) == with_dialect(
            effective_traits_schema(models_of(resolved_trait_schemas@)),
            match dialect {
                Some(d) => Some(d@),
                None => None,
            },
        ),
        json_model(r.values) == materialized(json_model(r.schema), json_model(*merged_traits), 0),
        models_of(r.resolved_trait_schemas@) == models_of(resolved_trait_schemas@),
        json_model(r.merged_traits) == json_model(*merged_traits),
{
    let base = build_effective_traits_schema(resolved_trait_schemas);
    let schema = match dialect {
        Some(d) => match base {
            JsonValue::Object(es) => {
                let mut es = es;
                proof {
                    lemma_object_model(es);
                }
                insert_member(&mut es, String::from_str("$schema"), JsonValue::String(d.to_owned()));
                proof {
                    lemma_object_model(es);
                }
                JsonValue::Object(es)
            },
            other => other,
        },
        None => base,
    };
    let values = materialize_traits(&schema, merged_traits);
    EffectiveTraits {
        schema,
        values,
        resolved_trait_schemas: clone_slice(resolved_trait_schemas),
        merged_traits: json_clone(merged_traits),
    }
}

// ---------------------------------------------------------------------------
// Inlining of local `$ref` pointers
// ---------------------------------------------------------------------------

/// The target, in `root`, of the local `$ref` (`#/...`) of object `m`,
/// when that pointer resolves.
pub open spec fn local_ref_target(m: JsonModel, root: JsonModel) -> Option<JsonModel> {
    match m {
        JsonModel::Object(es) => match member(es, "$ref"@) {
            Some(JsonModel::String(r)) => if r.len() >= 2 && r[0] == '#' && r[1] == '/' {
                pointer_target(root, r.skip(1))
            } else {
                None
            },
            _ => None,
        },
        _ => None,
    }
}

/// A value with every local `$ref` that resolves in `root` replaced by its
/// (itself inlined) target, the `$ref` object's other members laid over the
/// target when it is an object; the rest is walked member by member and
/// item by item. Nesting deeper than the limit is kept as it is.
pub open spec fn inlined(m: JsonModel, root: JsonModel, depth: nat) -> JsonModel
    decreases 64 - depth, 1nat, 0nat,
{
    if depth >= 64 {
        m
    } else {
        match m {
            JsonModel::Object(es) => match local_ref_target(m, root) {
                Some(t) => {
                    let resolved = inlined(t, root, depth + 1);
                    if es.len() > 1 {
                        match resolved {
                            JsonModel::Object(rs) => JsonModel::Object(
                                inlined_members(rs, es, es.len(), root, depth, true),
                            ),
                            _ => resolved,
                        }
                    } else {
                        resolved
                    }
                },
                None => JsonModel::Object(
                    inlined_members(Seq::<(Seq<char>, JsonModel)>::empty(), es, es.len(), root, depth, false),
                ),
            },
            JsonModel::Array(items) => JsonModel::Array(inlined_items(items, items.len(), root, depth)),
            _ => m,
        }
    }
}

/// `acc` with the first `n` members of `es` set, each value inlined (a
/// `$ref` member skipped when `skip_ref`).
pub open spec fn inlined_members(
    acc: Seq<(Seq<char>, JsonModel)>,
    es: Seq<(Seq<char>, JsonModel)>,
    n: nat,
    root: JsonModel,
    depth: nat,
    skip_ref: bool,
) -> Seq<(Seq<char>, JsonModel)>
    decreases 64 - depth, 0nat, n,
{
    if n == 0 || n > es.len() || depth >= 64 {
        acc
    } else {
        let prev = inlined_members(acc, es, (n - 1) as nat, root, depth, skip_ref);
        if skip_ref && es[n - 1].0 == "$ref"@ {
            prev
        } else {
            member_insert(prev, es[n - 1].0, inlined(es[n - 1].1, root, depth + 1))
        }
    }
}

/// The first `n` items, each inlined.
pub open spec fn inlined_items(items: Seq<JsonModel>, n: nat, root: JsonModel, depth: nat) -> Seq<JsonModel>
    decreases 64 - depth, 0nat, n,
{
    if n == 0 || n > items.len() || depth >= 64 {
        Seq::<JsonModel>::empty()
    } else {
        inlined_items(items, (n - 1) as nat, root, depth).push(inlined(items[n - 1], root, depth + 1))
    }
}

/// The target, in `root`, of the local `$ref` of `v`, when it resolves.
fn local_ref_target_of<'a>(v: &JsonValue, root: &'a JsonValue) -> (r: Option<&'a JsonValue>)
    ensures
        match r {
            Some(t) => local_ref_target(json_model(*v), json_model(*root)) == Some(json_model(*t)),
            None => local_ref_target(json_model(*v), json_model(*root)) is None,
        },
{
    match v {
        JsonValue::Object(es) => {
            proof {
                lemma_object_model(*es);
            }
            match member_position(es, "$ref") {
                Some(k) => {
                    assert(member_models(es@)[k as int] == (es@[k as int].0@, json_model(es@[k as int].1)));
                    match &es[k].1 {
                        JsonValue::String(r) => {
                            let n = r.as_str().unicode_len();
                            if n >= 2 && r.as_str().get_char(0) == '#' && r.as_str().get_char(1) == '/' {
                                root.pointer(r.as_str().substring_char(1, n))
                            } else {
                                None
                            }
                        },
                        _ => None,
                    }
                },
                None => None,
            }
        },
        _ => None,
    }
}

/// Sets each member of `es` (but a `$ref` one when `skip_ref`) in `out`,
/// its value inlined.
fn inline_members_into(
    out: &mut Vec<(String, JsonValue)>,
    es: &Vec<(String, JsonValue)>,
    root: &JsonValue,
    depth: usize,
    skip_ref: bool,
)
    requires
        depth < 64,
    ensures
        member_models(final(out)@) == inlined_members(
            member_models(old(out)@),
            member_models(es@),
            es@.len(),
            json_model(*root),
            depth as nat,
            skip_ref,
        ),
    decreases 64 - depth, 0nat, 0nat,
{
    let ghost start = member_models(out@);
    let ghost ms = member_models(es@);
    let mut i: usize = 0;
    while i < es.len()
        invariant
            i <= es@.len(),
            depth < 64,
            ms == member_models(es@),
            member_models(out@) == inlined_members(start, ms, i as nat, json_model(*root), depth as nat, skip_ref),
        decreases es.len() - i,
    {
        assert(ms[i as int] == (es@[i as int].0@, json_model(es@[i as int].1)));
        if skip_ref && crate::text::str_eq(es[i].0.as_str(), "$ref") {
        } else {
            let v = inline_at(&es[i].1, root, depth + 1);
            insert_member(out, es[i].0.clone(), v);
        }
        i = i + 1;
    }
}

/// The items of `items`, each inlined.
fn inline_items(items: &Vec<JsonValue>, root: &JsonValue, depth: usize) -> (r: Vec<JsonValue>)
    requires
        depth < 64,
    ensures
        models_of(r@) == inlined_items(models_of(items@), items@.len(), json_model(*root), depth as nat),
    decreases 64 - depth, 0nat, 0nat,
{
    let ghost ms = models_of(items@);
    let mut out: Vec<JsonValue> = Vec::new();
    let mut i: usize = 0;
    assert(models_of(out@) =~= Seq::<JsonModel>::empty());
    while i < items.len()
        invariant
            i <= items@.len(),
            depth < 64,
            ms == models_of(items@),
            models_of(out@) == inlined_items(ms, i as nat, json_model(*root), depth as nat),
        decreases items.len() - i,
    {
        let v = inline_at(&items[i], root, depth + 1);
        let ghost before = out@;
        out.push(v);
        assert(models_of(out@) =~= models_of(before).push(json_model(v)));
        i = i + 1;
    }
    out
}

fn inline_at(value: &JsonValue, root: &JsonValue, depth: usize) -> (r: JsonValue)
    ensures
        json_model(r) == inlined(json_model(*value), json_model(*root), depth as nat),
    decreases 64 - depth, 1nat, 0nat,
{
    if depth >= MAX_RECURSION_DEPTH {
        return json_clone(value);
    }
    match value {
        JsonValue::Object(es) => {
            proof {
                lemma_object_model(*es);
            }
            match local_ref_target_of(value, root) {
                Some(t) => {
                    let resolved = inline_at(t, root, depth + 1);
                    if es.len() > 1 {
                        match resolved {
                            JsonValue::Object(rs) => {
                                let mut rs = rs;
                                proof {
                                    lemma_object_model(rs);
                                }
                                inline_members_into(&mut rs, es, root, depth, true);
                                proof {
                                    lemma_object_model(rs);
                                }
                                JsonValue::Object(rs)
                            },
                            other => other,
                        }
                    } else {
                        resolved
                    }
                },
                None => {
                    let mut out: Vec<(String, JsonValue)> = Vec::new();
                    assert(member_models(out@) =~= Seq::<(Seq<char>, JsonModel)>::empty());
                    inline_members_into(&mut out, es, root, depth, false);
                    proof {
                        lemma_object_model(out);
                    }
                    JsonValue::Object(out)
                },
            }
        },
        JsonValue::Array(items) => {
            proof {
                lemma_array_model(*items);
            }
            let r = inline_items(items, root, depth);
            proof {
                lemma_array_model(r);
            }
            JsonValue::Array(r)
        },
        _ => json_clone(value),
    }
}

/// Inlines the local JSON Pointer `$ref`s (`#/...`) of a trait-schema
/// fragment by resolving them against `root`, the document the fragment was
/// lifted from, so that the fragment stays self-contained once composed
/// elsewhere. A pointer that does not resolve (a `gts://` reference, for
/// one) is left as it is; sibling members of a `$ref` are laid over its
/// target.
pub fn inline_local_pointers(fragment: &JsonValue, root: &JsonValue) -> (r: JsonValue)
    ensures
        json_model(r) == inlined(json_model(*fragment), json_model(*root), 0),
{
    inline_at(fragment, root, 0)
}

} // verus!
