//! JSON Schema checks of trait schemas and trait values: the form of each
//! collected trait schema, and the validation of the materialized trait
//! values against the effective trait schema, followed by the completeness
//! check of required trait properties. The JSON Schema work itself is done
//! by the `jsonschema` crate.

use vstd::prelude::*;
use vstd::string::*;

use crate::json::{json_model, lemma_object_model, member, member_models, member_position, models_of, JsonModel, JsonValue};
use crate::json_text::json_text;
use crate::schema_refs::{dedup, texts};
use crate::schema_traits::{
    collect_all_properties, collect_all_required, effective_schema_is_false, last_declarations,
    object_members, props_in, required_in, schema_is_false, schema_without_required, strip_required,
    EffectiveTraits,
};
use crate::text::{decimal, decimal_string, str_eq};

verus! {

broadcast use vstd::string::group_string_axioms;

/// What the `jsonschema` crate makes of a schema and an instance, both
/// given as JSON text: `Err` with a message when a text is not JSON or the
/// schema does not compile, else `Ok` with the message of each validation
/// error of the instance, in the order the validator reports them.
pub uninterp spec fn json_schema_outcome(schema_text: Seq<char>, instance_text: Seq<char>) -> Result<
    Seq<Seq<char>>,
    Seq<char>,
>;

/// Parses both texts with `serde_json::from_str`, compiles the schema with
/// `jsonschema::validator_for` and collects the display text of each error
/// of `Validator::iter_errors` on the instance (external references are not
/// fetched: the crate is built without its resolver features). The contract
/// claims only that the outcome is determined by the two texts; which
/// schemas compile and which instances pass is left unsaid.
#[verifier::external_body]
fn json_schema_check(schema_text: &str, instance_text: &str) -> (r: Result<Vec<String>, String>)
    ensures
        match r {
            Ok(errors) => json_schema_outcome(schema_text@, instance_text@) == Ok::<
                Seq<Seq<char>>,
                Seq<char>,
            >(texts(errors@)),
            Err(e) => json_schema_outcome(schema_text@, instance_text@) == Err::<
                Seq<Seq<char>>,
                Seq<char>,
            >(e@),
        },
{
    let schema: serde_json::Value = match serde_json::from_str(schema_text) {
        Ok(v) => v,
        Err(e) => return Err(e.to_string()),
    };
    let instance: serde_json::Value = match serde_json::from_str(instance_text) {
        Ok(v) => v,
        Err(e) => return Err(e.to_string()),
    };
    match jsonschema::validator_for(&schema) {
        Ok(validator) => Ok(validator.iter_errors(&instance).map(|e| e.to_string()).collect()),
        Err(e) => Err(e.to_string()),
    }
}

// ---------------------------------------------------------------------------
// Form of the collected trait schemas
// ---------------------------------------------------------------------------

/// `x-gts-traits-schema[i]`.
pub open spec fn indexed_keyword(i: nat) -> Seq<char> {
    "x-gts-traits-schema["@ + decimal(i) + "]"@
}

/// The complaint about trait schema `i`, given the message of its failed
/// compilation as a JSON Schema (`schema_failure`, which only an object
/// schema can have): a boolean passes, an object passes unless it failed
/// to compile, anything else is refused.
pub open spec fn form_complaint(m: JsonModel, i: nat, schema_failure: Option<Seq<char>>) -> Option<Seq<char>> {
    match m {
        JsonModel::Bool(_) => None,
        JsonModel::Object(_) => match schema_failure {
            Some(e) => Some(indexed_keyword(i) + " is not a valid JSON Schema: "@ + e),
            None => None,
        },
        _ => Some(indexed_keyword(i) + " must be an object subschema or a boolean; got "@ + json_text(m)),
    }
}

/// The message of the failed compilation of `m` as a JSON Schema, if it
/// fails.
pub open spec fn schema_failure_of(m: JsonModel) -> Option<Seq<char>> {
    match json_schema_outcome(json_text(m), "null"@) {
        Err(e) => Some(e),
        Ok(_) => None,
    }
}

/// The complaint about trait schema `i`, if its form is wrong: it must be
/// a boolean, or an object that compiles as a JSON Schema.
pub open spec fn schema_form_error(m: JsonModel, i: nat) -> Option<Seq<char>> {
    form_complaint(m, i, match m {
        JsonModel::Object(_) => schema_failure_of(m),
        _ => None,
    })
}

/// The complaint about the first trait schema, from index `i` on, whose
/// form is wrong.
pub open spec fn first_form_error(ms: Seq<JsonModel>, i: nat) -> Option<Seq<char>>
    decreases ms.len() - i,
{
    if i >= ms.len() {
        None
    } else {
        match schema_form_error(ms[i as int], i) {
            Some(e) => Some(e),
            None => first_form_error(ms, i + 1),
        }
    }
}

/// `x-gts-traits-schema[i]` followed by `suffix` and `rest`.
fn indexed_message(i: usize, suffix: &str, rest: &str) -> (r: String)
    ensures
        r@ == indexed_keyword(i as nat) + suffix@ + rest@,
{
    let mut m = String::from_str("x-gts-traits-schema[");
    m.append(decimal_string(i).as_str());
    m.append("]");
    m.append(suffix);
    m.append(rest);
    assert(m@ =~= indexed_keyword(i as nat) + suffix@ + rest@);
    m
}

/// The complaint about trait schema `i`, given the message of its failed
/// compilation as a JSON Schema, if any.
pub fn schema_form_complaint(i: usize, schema: &JsonValue, schema_failure: Option<&str>) -> (r: Option<String>)
    ensures
        match r {
            Some(m) => form_complaint(json_model(*schema), i as nat, match schema_failure {
                Some(e) => Some(e@),
                None => None,
            }) == Some(m@),
            None => form_complaint(json_model(*schema), i as nat, match schema_failure {
                Some(e) => Some(e@),
                None => None,
            }) is None,
        },
{
    match schema {
        JsonValue::Bool(_) => None,
        JsonValue::Object(_) => match schema_failure {
            Some(e) => Some(indexed_message(i, " is not a valid JSON Schema: ", e)),
            None => None,
        },
        _ => {
            let text = schema.to_json_text();
            Some(indexed_message(i, " must be an object subschema or a boolean; got ", text.as_str()))
        },
    }
}

/// Checks that each collected trait schema is a boolean or an object that
/// compiles as a JSON Schema; the first one that is not is reported, with
/// its index.
pub fn validate_trait_schema_integrity(resolved_trait_schemas: &[JsonValue]) -> (r: Result<(), Vec<String>>)
    ensures
        match first_form_error(models_of(resolved_trait_schemas@), 0) {
            None => r is Ok,
            Some(e) => r is Err && texts(r->Err_0@) == seq![e],
        },
{
    let ghost ms = models_of(resolved_trait_schemas@);
    let mut i: usize = 0;
    while i < resolved_trait_schemas.len()
        invariant
            i <= resolved_trait_schemas@.len(),
            ms == models_of(resolved_trait_schemas@),
            first_form_error(ms, 0) == first_form_error(ms, i as nat),
        decreases resolved_trait_schemas.len() - i,
    {
        let ts = &resolved_trait_schemas[i];
        assert(ms[i as int] == json_model(*ts));
        let complaint = match ts {
            JsonValue::Object(_) => {
                let text = ts.to_json_text();
                match json_schema_check(text.as_str(), "null") {
                    Err(e) => schema_form_complaint(i, ts, Some(e.as_str())),
                    Ok(_) => schema_form_complaint(i, ts, None),
                }
            },
            _ => schema_form_complaint(i, ts, None),
        };
        match complaint {
            Some(m) => {
                let out = vec![m];
                assert(texts(out@) =~= seq![m@]);
                return Err(out);
            },
            None => {},
        }
        i = i + 1;
    }
    Ok(())
}

// ---------------------------------------------------------------------------
// Trait values against the effective trait schema
// ---------------------------------------------------------------------------

/// Whether the trait values hold a member named `name`.
pub open spec fn has_value(traits: JsonModel, name: Seq<char>) -> bool {
    match traits {
        JsonModel::Object(es) => member(es, name) is Some,
        _ => false,
    }
}

/// Whether a property declaration carries a `default` or a `const`.
pub open spec fn has_default_or_const(decl: JsonModel) -> bool {
    match decl {
        JsonModel::Object(es) => member(es, "default"@) is Some || member(es, "const"@) is Some,
        _ => false,
    }
}

/// The declared `type` of a property when it is a string, `any` otherwise.
pub open spec fn declared_type(decl: JsonModel) -> Seq<char> {
    match decl {
        JsonModel::Object(es) => match member(es, "type"@) {
            Some(JsonModel::String(t)) => t,
            _ => "any"@,
        },
        _ => "any"@,
    }
}

/// The complaint about required trait property `name`, of declared type
/// `ty`, left without a value.
pub open spec fn unresolved_message(name: Seq<char>, ty: Seq<char>) -> Seq<char> {
    "trait property '"@ + name + "' (type: "@ + ty + UNRESOLVED_TAIL@
}

/// The complaints about the first `n` declarations that are required,
/// have no value and have neither a `default` nor a `const`.
pub open spec fn unresolved_messages(
    decls: Seq<(Seq<char>, JsonModel)>,
    required: Seq<Seq<char>>,
    traits: JsonModel,
    n: nat,
) -> Seq<Seq<char>>
    decreases n,
{
    if n == 0 || n > decls.len() {
        Seq::<Seq<char>>::empty()
    } else {
        let (name, decl) = decls[n - 1];
        unresolved_messages(decls, required, traits, (n - 1) as nat) + if required.contains(name)
            && !has_value(traits, name) && !has_default_or_const(decl) {
            seq![unresolved_message(name, declared_type(decl))]
        } else {
            Seq::<Seq<char>>::empty()
        }
    }
}

/// The completeness complaints of a trait schema and trait values: one
/// for each property (last declaration of each name) that the schema
/// requires and that neither a value, a `default` nor a `const` resolves.
pub open spec fn completeness_errors(schema: JsonModel, traits: JsonModel) -> Seq<Seq<char>> {
    let decls = props_in(schema, 0);
    let last = last_declarations(decls, decls.len());
    unresolved_messages(last, required_in(schema, 0), traits, last.len())
}

/// The messages of a JSON Schema outcome: each validation error, or the
/// compilation failure.
pub open spec fn outcome_messages(o: Result<Seq<Seq<char>>, Seq<char>>) -> Seq<Seq<char>> {
    match o {
        Ok(errors) => errors.map_values(|e: Seq<char>| "trait validation: "@ + e),
        Err(e) => seq!["failed to compile trait schema: "@ + e],
    }
}

/// The plain value of a JSON Schema outcome.
pub open spec fn outcome_view(o: Result<Vec<String>, String>) -> Result<Seq<Seq<char>>, Seq<char>> {
    match o {
        Ok(errors) => Ok(texts(errors@)),
        Err(e) => Err(e@),
    }
}

/// All complaints about trait values, given the outcome of their JSON
/// Schema validation: what that validation reports, then, when
/// completeness is checked, the completeness complaints.
pub open spec fn value_errors(
    outcome: Result<Seq<Seq<char>>, Seq<char>>,
    schema: JsonModel,
    traits: JsonModel,
    check_unresolved: bool,
) -> Seq<Seq<char>> {
    outcome_messages(outcome) + if check_unresolved {
        completeness_errors(schema, traits)
    } else {
        Seq::<Seq<char>>::empty()
    }
}

/// The schema that trait values are validated against: the trait schema,
/// without its `required` constraints when completeness is not checked.
pub open spec fn validation_schema(schema: JsonModel, check_unresolved: bool) -> JsonModel {
    if check_unresolved {
        schema
    } else {
        strip_required(schema, 0)
    }
}

/// All complaints about trait values: what JSON Schema validation reports
/// (against the schema without its `required` constraints when
/// completeness is not checked), then, when it is, the completeness
/// complaints.
pub open spec fn trait_value_errors(schema: JsonModel, traits: JsonModel, check_unresolved: bool) -> Seq<
    Seq<char>,
> {
    value_errors(
        json_schema_outcome(json_text(validation_schema(schema, check_unresolved)), json_text(traits)),
        schema,
        traits,
        check_unresolved,
    )
}

/// The end of the completeness complaint.
pub const UNRESOLVED_TAIL: &'static str = ") is not resolved: no value provided and no default or const defined in the trait schema. All traits must be resolved (via a x-gts-traits value in the chain or a `default`/`const` in the trait schema) on non-abstract types; otherwise mark the type abstract (x-gts-abstract: true)";

/// Whether `name` is among `names`.
fn contains_text(names: &Vec<String>, name: &str) -> (r: bool)
    ensures
        r == texts(names@).contains(name@),
{
    let mut i: usize = 0;
    while i < names.len()
        invariant
            i <= names@.len(),
            forall|j: int| 0 <= j < i ==> #[trigger] names@[j]@ != name@,
        decreases names.len() - i,
    {
        if str_eq(names[i].as_str(), name) {
            assert(texts(names@)[i as int] == name@);
            return true;
        }
        i = i + 1;
    }
    proof {
        if texts(names@).contains(name@) {
            let j = choose|j: int| 0 <= j < texts(names@).len() && texts(names@)[j] == name@;
            assert(names@[j]@ == name@);
        }
    }
    false
}

/// Whether the trait values are an object with a member named `name`.
fn value_present(traits: &JsonValue, name: &str) -> (r: bool)
    ensures
        r == has_value(json_model(*traits), name@),
{
    match traits {
        JsonValue::Object(es) => {
            proof {
                lemma_object_model(*es);
            }
            member_position(es, name).is_some()
        },
        _ => false,
    }
}

/// Whether a property declaration is an object with a `default` or a
/// `const` member.
fn declares_default_or_const(decl: &JsonValue) -> (r: bool)
    ensures
        r == has_default_or_const(json_model(*decl)),
{
    match decl {
        JsonValue::Object(es) => {
            proof {
                lemma_object_model(*es);
            }
            member_position(es, "default").is_some() || member_position(es, "const").is_some()
        },
        _ => false,
    }
}

/// The declared `type` of a property when it is a string, `any` otherwise.
fn declared_type_of(decl: &JsonValue) -> (r: String)
    ensures
        r@ == declared_type(json_model(*decl)),
{
    match decl {
        JsonValue::Object(es) => {
            proof {
                lemma_object_model(*es);
            }
            match member_position(es, "type") {
                Some(k) => {
                    assert(member_models(es@)[k as int] == (es@[k as int].0@, json_model(es@[k as int].1)));
                    match &es[k].1 {
                        JsonValue::String(t) => t.clone(),
                        _ => String::from_str("any"),
                    }
                },
                None => String::from_str("any"),
            }
        },
        _ => String::from_str("any"),
    }
}

/// The result of validating trait values, given the outcome of their JSON
/// Schema validation: each reported error (or the compilation failure),
/// then, when `check_unresolved` is on, a complaint for each required trait
/// property that no value, `default` or `const` resolves.
pub fn trait_value_result(
    outcome: Result<Vec<String>, String>,
    trait_schema: &JsonValue,
    effective_traits: &JsonValue,
    check_unresolved: bool,
) -> (r: Result<(), Vec<String>>)
    ensures
        ({
            let errors = value_errors(
                outcome_view(outcome),
                json_model(*trait_schema),
                json_model(*effective_traits),
                check_unresolved,
            );
            &&& errors.len() == 0 ==> r is Ok
            &&& errors.len() > 0 ==> r is Err && texts(r->Err_0@) == errors
        }),
{
    let ghost schema = json_model(*trait_schema);
    let ghost traits = json_model(*effective_traits);
    let ghost o = outcome_view(outcome);
    let mut errors: Vec<String> = Vec::new();
    match outcome {
        Ok(found) => {
            let ghost fs = texts(found@);
            let mut i: usize = 0;
            while i < found.len()
                invariant
                    i <= found@.len(),
                    fs == texts(found@),
                    texts(errors@) == fs.take(i as int).map_values(
                        |e: Seq<char>| "trait validation: "@ + e,
                    ),
                decreases found.len() - i,
            {
                let mut m = String::from_str("trait validation: ");
                m.append(found[i].as_str());
                let ghost before = texts(errors@);
                errors.push(m);
                proof {
                    assert(fs.take(i + 1) =~= fs.take(i as int).push(fs[i as int]));
                    assert(texts(errors@) =~= before.push(m@));
                    assert(fs.take(i + 1).map_values(|e: Seq<char>| "trait validation: "@ + e)
                        =~= fs.take(i as int).map_values(|e: Seq<char>| "trait validation: "@ + e).push(
                        "trait validation: "@ + fs[i as int],
                    ));
                }
                i = i + 1;
            }
            assert(fs.take(found@.len() as int) =~= fs);
        },
        Err(e) => {
            let mut m = String::from_str("failed to compile trait schema: ");
            m.append(e.as_str());
            errors.push(m);
            assert(texts(errors@) =~= seq![m@]);
        },
    }
    assert(texts(errors@) == outcome_messages(o));
    if check_unresolved {
        let all_props = collect_all_properties(trait_schema);
        let required = collect_all_required(trait_schema);
        let ghost decls = member_models(all_props@);
        let ghost req = required_in(schema, 0);
        let ghost start = texts(errors@);
        proof {
            crate::properties::lemma_dedup(req);
            assert forall|x: Seq<char>| texts(required@).contains(x) <==> req.contains(x) by {
                assert(dedup(req).to_set().contains(x) <==> req.to_set().contains(x));
            }
        }
        let mut i: usize = 0;
        assert(start + Seq::<Seq<char>>::empty() =~= start);
        while i < all_props.len()
            invariant
                i <= all_props@.len(),
                decls == member_models(all_props@),
                forall|x: Seq<char>| texts(required@).contains(x) <==> req.contains(x),
                traits == json_model(*effective_traits),
                texts(errors@) == start + unresolved_messages(decls, req, traits, i as nat),
            decreases all_props.len() - i,
        {
            let name = all_props[i].0.as_str();
            let decl = &all_props[i].1;
            assert(decls[i as int] == (name@, json_model(*decl)));
            let ghost before = texts(errors@);
            if contains_text(&required, name) && !value_present(effective_traits, name)
                && !declares_default_or_const(decl) {
                let ty = declared_type_of(decl);
                let mut m = String::from_str("trait property '");
                m.append(name);
                m.append("' (type: ");
                m.append(ty.as_str());
                m.append(UNRESOLVED_TAIL);
                errors.push(m);
                assert(m@ =~= unresolved_message(name@, declared_type(json_model(*decl))));
                assert(texts(errors@) =~= before.push(m@));
                assert(texts(errors@) =~= start + unresolved_messages(decls, req, traits, (i + 1) as nat));
            } else {
                assert(texts(errors@) =~= start + unresolved_messages(decls, req, traits, (i + 1) as nat));
            }
            i = i + 1;
        }
    } else {
        assert(texts(errors@) =~= texts(errors@) + Seq::<Seq<char>>::empty());
    }
    if errors.len() == 0 {
        Ok(())
    } else {
        Err(errors)
    }
}

/// Validates trait values against a trait schema: JSON Schema validation
/// (against the schema without its `required` constraints when
/// `check_unresolved` is off, since completeness is then left to
/// descendants), then, when `check_unresolved` is on, a complaint for each
/// required trait property that no value, `default` or `const` resolves.
pub fn validate_traits_against_schema(
    trait_schema: &JsonValue,
    effective_traits: &JsonValue,
    check_unresolved: bool,
) -> (r: Result<(), Vec<String>>)
    ensures
        trait_value_errors(json_model(*trait_schema), json_model(*effective_traits), check_unresolved).len()
            == 0 ==> r is Ok,
        trait_value_errors(json_model(*trait_schema), json_model(*effective_traits), check_unresolved).len()
            > 0 ==> r is Err && texts(r->Err_0@) == trait_value_errors(
            json_model(*trait_schema),
            json_model(*effective_traits),
            check_unresolved,
        ),
{
    let validation = if check_unresolved {
        crate::json::json_clone(trait_schema)
    } else {
        schema_without_required(trait_schema)
    };
    let schema_text = validation.to_json_text();
    let traits_text = effective_traits.to_json_text();
    let outcome = json_schema_check(schema_text.as_str(), traits_text.as_str());
    trait_value_result(outcome, trait_schema, effective_traits, check_unresolved)
}

// ---------------------------------------------------------------------------
// Validation of built trait artifacts
// ---------------------------------------------------------------------------

/// Refusal of trait values in a chain without any trait schema.
pub const VALUES_WITHOUT_SCHEMA: &'static str = "x-gts-traits values provided but no x-gts-traits-schema is defined in the inheritance chain";

/// Refusal of trait values under a trait schema that is `false`.
pub const VALUES_UNDER_FALSE: &'static str = "x-gts-traits-schema resolves to `false` in the chain \u{2014} x-gts-traits values are prohibited";

/// `trait x-gts-ref: ` before each reference complaint.
pub open spec fn xref_messages(xref: Seq<Seq<char>>) -> Seq<Seq<char>> {
    xref.map_values(|e: Seq<char>| "trait x-gts-ref: "@ + e)
}

/// The verdict on built trait artifacts, in the order the checks run: the
/// form of each trait schema, then the compatibility of each trait schema
/// with its ancestors (`compatibility`, computed elsewhere), then, without
/// any trait schema or under a `false` one, a refusal exactly when
/// explicit values were given, and otherwise the complaints about the
/// values (JSON Schema and completeness, then `x-gts-ref`, given as
/// `xref`).
pub open spec fn effective_traits_verdict(
    schemas: Seq<JsonModel>,
    schema: JsonModel,
    values: JsonModel,
    merged: JsonModel,
    compatibility: Result<(), Seq<Seq<char>>>,
    xref: Seq<Seq<char>>,
    check_unresolved: bool,
) -> Result<(), Seq<Seq<char>>> {
    let explicit = merged is Object && object_members(merged).len() > 0;
    match first_form_error(schemas, 0) {
        Some(e) => Err(seq![e]),
        None => match compatibility {
            Err(es) => Err(es),
            Ok(_) => if schemas.len() == 0 {
                if explicit {
                    Err(seq![VALUES_WITHOUT_SCHEMA@])
                } else {
                    Ok(())
                }
            } else if schema_is_false(schema, 0) {
                if explicit {
                    Err(seq![VALUES_UNDER_FALSE@])
                } else {
                    Ok(())
                }
            } else {
                let errs = trait_value_errors(schema, values, check_unresolved) + xref_messages(xref);
                if errs.len() == 0 {
                    Ok(())
                } else {
                    Err(errs)
                }
            },
        },
    }
}

/// Validates built trait artifacts: the form of each collected trait
/// schema, the result of the ancestor-compatibility check of the trait
/// schemas (`compatibility`), the guards for a chain without a trait schema
/// and for a `false` one, then the trait values against the effective trait
/// schema (with the completeness of required traits when `check_unresolved`),
/// followed by the `x-gts-ref` complaints about the values (`xref_errors`).
pub fn validate_effective_traits(
    t: &EffectiveTraits,
    compatibility: Result<(), Vec<String>>,
    xref_errors: Vec<String>,
    check_unresolved: bool,
) -> (r: Result<(), Vec<String>>)
    ensures
        match effective_traits_verdict(
            models_of(t.resolved_trait_schemas@),
            json_model(t.schema),
            json_model(t.values),
            json_model(t.merged_traits),
            match compatibility {
                Ok(_) => Ok(()),
                Err(es) => Err(texts(es@)),
            },
            texts(xref_errors@),
            check_unresolved,
        ) {
            Ok(_) => r is Ok,
            Err(es) => r is Err && texts(r->Err_0@) == es,
        },
{
    match validate_trait_schema_integrity(t.resolved_trait_schemas.as_slice()) {
        Err(e) => {
            return Err(e);
        },
        Ok(_) => {},
    }
    match compatibility {
        Err(es) => {
            return Err(es);
        },
        Ok(_) => {},
    }
    if !t.has_schema() {
        if t.has_explicit_values() {
            let out = vec![String::from_str(VALUES_WITHOUT_SCHEMA)];
            assert(texts(out@) =~= seq![VALUES_WITHOUT_SCHEMA@]);
            return Err(out);
        }
        return Ok(());
    }
    if effective_schema_is_false(&t.schema) {
        if t.has_explicit_values() {
            let out = vec![String::from_str(VALUES_UNDER_FALSE)];
            assert(texts(out@) =~= seq![VALUES_UNDER_FALSE@]);
            return Err(out);
        }
        return Ok(());
    }
    let mut errors: Vec<String> = match validate_traits_against_schema(&t.schema, &t.values, check_unresolved) {
        Ok(_) => Vec::new(),
        Err(es) => es,
    };
    let ghost base = texts(errors@);
    assert(base == trait_value_errors(json_model(t.schema), json_model(t.values), check_unresolved));
    let ghost xs = texts(xref_errors@);
    let mut i: usize = 0;
    assert(base + xref_messages(xs.take(0)) =~= base);
    while i < xref_errors.len()
        invariant
            i <= xref_errors@.len(),
            xs == texts(xref_errors@),
            texts(errors@) == base + xref_messages(xs.take(i as int)),
        decreases xref_errors.len() - i,
    {
        let mut m = String::from_str("trait x-gts-ref: ");
        m.append(xref_errors[i].as_str());
        let ghost before = texts(errors@);
        errors.push(m);
        proof {
            assert(xs.take(i + 1) =~= xs.take(i as int).push(xs[i as int]));
            assert(xref_messages(xs.take(i + 1)) =~= xref_messages(xs.take(i as int)).push(
                "trait x-gts-ref: "@ + xs[i as int],
            ));
            assert(texts(errors@) =~= before.push(m@));
        }
        i = i + 1;
    }
    assert(xs.take(xref_errors@.len() as int) =~= xs);
    if errors.len() == 0 {
        Ok(())
    } else {
        Err(errors)
    }
}

} // verus!
