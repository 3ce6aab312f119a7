use gts_id::json::{clone_members, json_clone, JsonValue};
use gts_id::schema_traits::{
    build_effective_traits, build_effective_traits_schema, collect_all_properties,
    collect_all_required, collect_trait_schema_from_value, collect_traits_from_value,
    effective_schema_is_false, inline_local_pointers, materialize_traits, merge_rfc7396_into,
    schema_without_required,
};
use gts_id::json_pointer::{parse_index, unescape};
use gts_id::schema_validation::{
    schema_form_complaint, trait_value_result, validate_trait_schema_integrity,
    validate_traits_against_schema,
};

fn to_json(v: &serde_json::Value) -> JsonValue {
    match v {
        serde_json::Value::Null => JsonValue::Null,
        serde_json::Value::Bool(b) => JsonValue::Bool(*b),
        serde_json::Value::Number(n) => JsonValue::Number(n.to_string()),
        serde_json::Value::String(s) => JsonValue::String(s.clone()),
        serde_json::Value::Array(items) => JsonValue::Array(items.iter().map(to_json).collect()),
        serde_json::Value::Object(map) => {
            JsonValue::Object(map.iter().map(|(k, v)| (k.clone(), to_json(v))).collect())
        }
    }
}

fn parse(text: &str) -> JsonValue {
    to_json(&serde_json::from_str::<serde_json::Value>(text).expect("valid json"))
}

fn members(text: &str) -> Vec<(String, JsonValue)> {
    match parse(text) {
        JsonValue::Object(m) => m,
        other => panic!("not an object: {other:?}"),
    }
}

fn get<'a>(v: &'a JsonValue, key: &str) -> Option<&'a JsonValue> {
    match v {
        JsonValue::Object(m) => m.iter().find(|(k, _)| k == key).map(|(_, v)| v),
        _ => None,
    }
}

fn string(s: &str) -> JsonValue {
    JsonValue::String(s.to_owned())
}

// ---------------------------------------------------------------------------
// JSON text
// ---------------------------------------------------------------------------

#[test]
fn json_text_is_compact_and_escaped() {
    let v = parse(r#"{"a": [1, true, null], "b": "x\"y\\z\n\u0001"}"#);
    assert_eq!(v.to_json_text(), r#"{"a":[1,true,null],"b":"x\"y\\z\n\u0001"}"#);
}

#[test]
fn json_text_matches_serde_json() {
    let text = r#"{"k": {"inner": [{"t": "tab\there"}, 2.5, -3]}, "e": {}, "l": []}"#;
    let sv: serde_json::Value = serde_json::from_str(text).unwrap();
    assert_eq!(to_json(&sv).to_json_text(), sv.to_string());
}

// ---------------------------------------------------------------------------
// Collection
// ---------------------------------------------------------------------------

#[test]
fn collect_trait_schemas_top_level_and_all_of() {
    let schema = parse(
        r#"{"x-gts-traits-schema": {"type": "object"},
            "allOf": [{"x-gts-traits-schema": true}, {"type": "object"}]}"#,
    );
    let mut out = Vec::new();
    collect_trait_schema_from_value(&schema, &mut out);
    assert_eq!(out, vec![parse(r#"{"type": "object"}"#), JsonValue::Bool(true)]);
}

#[test]
fn collect_trait_schemas_ignores_non_objects() {
    let mut out = Vec::new();
    collect_trait_schema_from_value(&parse("[1, 2]"), &mut out);
    assert!(out.is_empty());
}

#[test]
fn collect_traits_later_entries_win() {
    let schema = parse(
        r#"{"x-gts-traits": {"a": 1, "b": null},
            "allOf": [{"x-gts-traits": {"a": 2, "c": 3}}]}"#,
    );
    let mut merged = Vec::new();
    collect_traits_from_value(&schema, &mut merged);
    assert_eq!(merged.len(), 3);
    let m = JsonValue::Object(merged);
    assert_eq!(get(&m, "a"), Some(&parse("2")));
    assert_eq!(get(&m, "b"), Some(&JsonValue::Null));
    assert_eq!(get(&m, "c"), Some(&parse("3")));
}

// ---------------------------------------------------------------------------
// RFC 7396 merge
// ---------------------------------------------------------------------------

#[test]
fn merge_scalars_replace_objects_merge_null_deletes() {
    let mut target = members(r#"{"a": 1, "b": {"x": 1, "y": 2}, "c": [1, 2], "d": "keep"}"#);
    let patch = members(r#"{"a": 5, "b": {"y": null, "z": 3}, "c": [9], "e": null}"#);
    merge_rfc7396_into(&mut target, &patch);
    let t = JsonValue::Object(target);
    assert_eq!(get(&t, "a"), Some(&parse("5")));
    assert_eq!(get(&t, "b"), Some(&parse(r#"{"x": 1, "z": 3}"#)));
    assert_eq!(get(&t, "c"), Some(&parse("[9]")));
    assert_eq!(get(&t, "d"), Some(&string("keep")));
    assert_eq!(get(&t, "e"), None);
}

#[test]
fn merge_object_over_scalar_drops_inner_nulls() {
    let mut target = members(r#"{"a": 7}"#);
    let patch = members(r#"{"a": {"p": null, "q": 1}}"#);
    merge_rfc7396_into(&mut target, &patch);
    assert_eq!(get(&JsonValue::Object(target), "a"), Some(&parse(r#"{"q": 1}"#)));
}

#[test]
fn merge_empty_patch_keeps_target() {
    let mut target = members(r#"{"a": 1, "b": 2}"#);
    let before = clone_members(&target);
    merge_rfc7396_into(&mut target, &Vec::new());
    assert_eq!(target, before);
}

// ---------------------------------------------------------------------------
// Effective schema
// ---------------------------------------------------------------------------

#[test]
fn effective_schema_of_zero_one_and_many() {
    assert_eq!(build_effective_traits_schema(&[]), parse("{}"));
    let one = parse(r#"{"type": "object"}"#);
    assert_eq!(build_effective_traits_schema(std::slice::from_ref(&one)), one);
    let two = build_effective_traits_schema(&[json_clone(&one), JsonValue::Bool(true)]);
    assert_eq!(get(&two, "type"), Some(&string("object")));
    assert_eq!(get(&two, "allOf"), Some(&JsonValue::Array(vec![one, JsonValue::Bool(true)])));
}

#[test]
fn false_schema_detection() {
    assert!(effective_schema_is_false(&JsonValue::Bool(false)));
    assert!(!effective_schema_is_false(&JsonValue::Bool(true)));
    assert!(effective_schema_is_false(&parse(r#"{"allOf": [{"type": "object"}, false]}"#)));
    assert!(effective_schema_is_false(&parse(r#"{"allOf": [{"allOf": [false]}]}"#)));
    assert!(!effective_schema_is_false(&parse(r#"{"allOf": [{"type": "object"}]}"#)));
    assert!(!effective_schema_is_false(&parse(r#"{"not": false}"#)));
}

#[test]
fn required_names_are_collected_once() {
    let schema = parse(
        r#"{"required": ["a", "b"],
            "allOf": [{"required": ["b", "c"]}, {"required": "x"}]}"#,
    );
    assert_eq!(collect_all_required(&schema), vec!["a", "b", "c"]);
}

#[test]
fn properties_rightmost_declaration_wins() {
    let schema = parse(
        r#"{"allOf": [
            {"properties": {"p": {"type": "string"}, "q": {"type": "integer"}}},
            {"properties": {"p": {"enum": ["x"]}}}
        ]}"#,
    );
    let props = collect_all_properties(&schema);
    assert_eq!(props.len(), 2);
    assert_eq!(props[0].0, "q");
    assert_eq!(props[1].0, "p");
    assert_eq!(props[1].1, parse(r#"{"enum": ["x"]}"#));
}

#[test]
fn required_is_stripped_everywhere() {
    let schema = parse(
        r#"{"type": "object", "required": ["a"],
            "allOf": [{"required": ["b"], "type": "object"}]}"#,
    );
    let stripped = schema_without_required(&schema);
    assert_eq!(get(&stripped, "required"), None);
    assert_eq!(get(&stripped, "allOf"), Some(&parse(r#"[{"type": "object"}]"#)));
    assert_eq!(get(&stripped, "type"), Some(&string("object")));
}

// ---------------------------------------------------------------------------
// Materialization
// ---------------------------------------------------------------------------

#[test]
fn defaults_fill_absent_traits() {
    let schema = parse(
        r#"{"type": "object", "properties": {
            "retention": {"type": "string", "default": "P30D"},
            "topicRef": {"type": "string", "default": "default_topic"}}}"#,
    );
    let values = materialize_traits(&schema, &parse(r#"{"retention": "P1D"}"#));
    assert_eq!(get(&values, "retention"), Some(&string("P1D")));
    assert_eq!(get(&values, "topicRef"), Some(&string("default_topic")));
}

#[test]
fn test_const_takes_priority_over_default_in_materialization() {
    let schemas = vec![parse(
        r#"{"type": "object", "properties": {
            "mode": {"type": "string", "const": "locked", "default": "open"}}}"#,
    )];
    let traits = build_effective_traits(&schemas, &parse("{}"), None);
    assert_eq!(get(&traits.values, "mode"), Some(&string("locked")));
}

#[test]
fn ancestor_default_ripples_past_redeclaration() {
    let schemas = vec![
        parse(
            r#"{"type": "object", "properties": {"retention": {"type": "string", "default": "P30D"}},
                "required": ["retention"]}"#,
        ),
        parse(r#"{"type": "object", "properties": {"retention": {"type": "string"}}}"#),
    ];
    let traits = build_effective_traits(
        &schemas,
        &parse("{}"),
        Some("http://json-schema.org/draft-07/schema#"),
    );
    assert_eq!(get(&traits.values, "retention"), Some(&string("P30D")));
    assert_eq!(
        get(&traits.schema, "$schema"),
        Some(&string("http://json-schema.org/draft-07/schema#"))
    );
    assert!(validate_traits_against_schema(&traits.schema, &traits.values, true).is_ok());
}

#[test]
fn nested_object_defaults_are_materialized() {
    let schema = parse(
        r#"{"type": "object", "properties": {
            "limits": {"type": "object", "properties": {
                "max": {"type": "integer", "default": 10},
                "min": {"type": "integer", "default": 1}}}}}"#,
    );
    let values = materialize_traits(&schema, &parse(r#"{"limits": {"max": 5}}"#));
    assert_eq!(get(&values, "limits"), Some(&parse(r#"{"max": 5, "min": 1}"#)));
}

#[test]
fn explicit_value_is_not_overwritten_by_const() {
    let schema = parse(
        r#"{"type": "object", "properties": {"channel": {"type": "string", "const": "audit"}}}"#,
    );
    let values = materialize_traits(&schema, &parse(r#"{"channel": "events"}"#));
    assert_eq!(get(&values, "channel"), Some(&string("events")));
    let err = validate_traits_against_schema(&schema, &values, true).unwrap_err();
    assert!(err.iter().all(|m| m.starts_with("trait validation: ")), "{err:?}");
    assert_eq!(err.len(), 1);
}

// ---------------------------------------------------------------------------
// Validation
// ---------------------------------------------------------------------------

#[test]
fn test_trait_schema_integrity_rejects_non_object_non_boolean() {
    let schemas = vec![parse("[1, 2]")];
    let err = validate_trait_schema_integrity(&schemas).unwrap_err();
    assert!(
        err.iter().any(|m| m.contains("must be an object subschema or a boolean")),
        "expected the non-object/non-boolean arm, got: {err:?}"
    );
    assert_eq!(
        err,
        vec!["x-gts-traits-schema[0] must be an object subschema or a boolean; got [1,2]"]
    );
}

#[test]
fn integrity_accepts_booleans_and_objects() {
    let schemas = vec![JsonValue::Bool(true), parse(r#"{"type": "object"}"#), JsonValue::Bool(false)];
    assert!(validate_trait_schema_integrity(&schemas).is_ok());
    assert!(validate_trait_schema_integrity(&[]).is_ok());
}

#[test]
fn integrity_reports_first_bad_index() {
    let schemas = vec![JsonValue::Bool(true), string("oops"), parse("3")];
    let err = validate_trait_schema_integrity(&schemas).unwrap_err();
    assert_eq!(
        err,
        vec![r#"x-gts-traits-schema[1] must be an object subschema or a boolean; got "oops""#]
    );
}

#[test]
fn integrity_rejects_uncompilable_object_schema() {
    let schemas = vec![parse(r#"{"type": 12}"#)];
    let err = validate_trait_schema_integrity(&schemas).unwrap_err();
    assert_eq!(err.len(), 1);
    assert!(
        err[0].starts_with("x-gts-traits-schema[0] is not a valid JSON Schema: "),
        "{err:?}"
    );
}

#[test]
fn missing_required_trait_is_unresolved() {
    let schema = parse(
        r#"{"type": "object", "properties": {"topicRef": {"type": "string"}},
            "required": ["topicRef"]}"#,
    );
    let err = validate_traits_against_schema(&schema, &parse("{}"), true).unwrap_err();
    assert_eq!(err.len(), 2, "{err:?}");
    assert!(err[0].starts_with("trait validation: "));
    assert_eq!(
        err[1],
        "trait property 'topicRef' (type: string) is not resolved: no value provided and no \
         default or const defined in the trait schema. All traits must be resolved (via a \
         x-gts-traits value in the chain or a `default`/`const` in the trait schema) on \
         non-abstract types; otherwise mark the type abstract (x-gts-abstract: true)"
    );
}

#[test]
fn missing_required_trait_passes_when_completeness_is_deferred() {
    let schema = parse(
        r#"{"type": "object", "properties": {"topicRef": {"type": "string"}},
            "required": ["topicRef"]}"#,
    );
    assert!(validate_traits_against_schema(&schema, &parse("{}"), false).is_ok());
}

#[test]
fn optional_unresolved_trait_passes() {
    let schema = parse(r#"{"type": "object", "properties": {"note": {"type": "string"}}}"#);
    assert!(validate_traits_against_schema(&schema, &parse("{}"), true).is_ok());
}

#[test]
fn wrong_type_fails_validation() {
    let schema = parse(r#"{"type": "object", "properties": {"retention": {"type": "string"}}}"#);
    let err = validate_traits_against_schema(&schema, &parse(r#"{"retention": 5}"#), true).unwrap_err();
    assert_eq!(err.len(), 1);
    assert!(err[0].starts_with("trait validation: "), "{err:?}");
}

#[test]
fn unknown_property_fails_when_closed() {
    let schema = parse(
        r#"{"type": "object", "additionalProperties": false,
            "properties": {"retention": {"type": "string"}}}"#,
    );
    let err =
        validate_traits_against_schema(&schema, &parse(r#"{"retention": "P1D", "extra": 1}"#), false)
            .unwrap_err();
    assert_eq!(err.len(), 1);
}

#[test]
fn uncompilable_trait_schema_is_reported() {
    let schema = parse(r#"{"type": 12}"#);
    let err = validate_traits_against_schema(&schema, &parse("{}"), true).unwrap_err();
    assert_eq!(err.len(), 1);
    assert!(err[0].starts_with("failed to compile trait schema: "), "{err:?}");
}

#[test]
fn unresolved_type_defaults_to_any() {
    let schema = parse(r#"{"properties": {"p": {"enum": [1, 2]}}, "required": ["p"]}"#);
    let err = validate_traits_against_schema(&schema, &parse("{}"), true).unwrap_err();
    assert!(err.iter().any(|m| m.starts_with("trait property 'p' (type: any) is not resolved")));
}

#[test]
fn const_only_required_trait_resolves() {
    let schemas = vec![parse(
        r#"{"type": "object", "additionalProperties": false,
            "properties": {"channel": {"type": "string", "const": "audit"}},
            "required": ["channel"]}"#,
    )];
    let traits = build_effective_traits(
        &schemas,
        &parse("{}"),
        Some("http://json-schema.org/draft-07/schema#"),
    );
    assert_eq!(get(&traits.values, "channel"), Some(&string("audit")));
    assert!(validate_traits_against_schema(&traits.schema, &traits.values, true).is_ok());
}

// ---------------------------------------------------------------------------
// JSON Pointer and local `$ref` inlining
// ---------------------------------------------------------------------------

#[test]
fn pointer_follows_rfc6901_examples() {
    let doc = parse(
        r#"{"foo": ["bar", "baz"], "": 0, "a/b": 1, "c%d": 2, "e^f": 3, "g|h": 4,
            "i\\j": 5, "k\"l": 6, " ": 7, "m~n": 8}"#,
    );
    assert_eq!(doc.pointer(""), Some(&doc));
    assert_eq!(doc.pointer("/foo"), Some(&parse(r#"["bar", "baz"]"#)));
    assert_eq!(doc.pointer("/foo/0"), Some(&string("bar")));
    assert_eq!(doc.pointer("/"), Some(&parse("0")));
    assert_eq!(doc.pointer("/a~1b"), Some(&parse("1")));
    assert_eq!(doc.pointer("/c%d"), Some(&parse("2")));
    assert_eq!(doc.pointer("/e^f"), Some(&parse("3")));
    assert_eq!(doc.pointer("/g|h"), Some(&parse("4")));
    assert_eq!(doc.pointer("/i\\j"), Some(&parse("5")));
    assert_eq!(doc.pointer("/k\"l"), Some(&parse("6")));
    assert_eq!(doc.pointer("/ "), Some(&parse("7")));
    assert_eq!(doc.pointer("/m~0n"), Some(&parse("8")));
}

#[test]
fn pointer_rejects_bad_paths() {
    let doc = parse(r#"{"foo": ["bar", "baz"], "n": 1}"#);
    assert_eq!(doc.pointer("foo"), None);
    assert_eq!(doc.pointer("/missing"), None);
    assert_eq!(doc.pointer("/foo/2"), None);
    assert_eq!(doc.pointer("/foo/01"), None);
    assert_eq!(doc.pointer("/foo/+1"), None);
    assert_eq!(doc.pointer("/foo/-"), None);
    assert_eq!(doc.pointer("/n/0"), None);
}

#[test]
fn pointer_tokens_unescape_in_order() {
    assert_eq!(unescape("a~1b"), "a/b");
    assert_eq!(unescape("m~0n"), "m~n");
    assert_eq!(unescape("~01"), "~1");
    assert_eq!(unescape("~"), "~");
    assert_eq!(parse_index("0"), Some(0));
    assert_eq!(parse_index("42"), Some(42));
    assert_eq!(parse_index("007"), None);
    assert_eq!(parse_index(""), None);
    assert_eq!(parse_index("99999999999999999999999"), None);
}

#[test]
fn test_inline_local_pointers_ref_with_siblings_overlay() {
    let root = parse(r#"{"$defs": {"X": {"type": "string", "minLength": 1}}}"#);
    let fragment = parse(r##"{"$ref": "#/$defs/X", "description": "extra"}"##);
    let inlined = inline_local_pointers(&fragment, &root);
    assert_eq!(get(&inlined, "type"), Some(&string("string")));
    assert_eq!(get(&inlined, "minLength"), Some(&parse("1")));
    assert_eq!(get(&inlined, "description"), Some(&string("extra")));
    assert!(get(&inlined, "$ref").is_none());
}

#[test]
fn inline_resolves_nested_and_chained_refs() {
    let root = parse(
        r##"{"$defs": {
            "Retention": {"type": "string", "default": "P30D"},
            "Alias": {"$ref": "#/$defs/Retention"}}}"##,
    );
    let fragment = parse(
        r##"{"type": "object", "properties": {
            "retention": {"$ref": "#/$defs/Alias"},
            "items": {"type": "array", "items": [{"$ref": "#/$defs/Retention"}]}}}"##,
    );
    let inlined = inline_local_pointers(&fragment, &root);
    let expected = parse(
        r#"{"type": "object", "properties": {
            "retention": {"type": "string", "default": "P30D"},
            "items": {"type": "array", "items": [{"type": "string", "default": "P30D"}]}}}"#,
    );
    assert_eq!(inlined.to_json_text(), expected.to_json_text());
}

#[test]
fn inline_leaves_unresolved_refs() {
    let root = parse(r#"{"$defs": {}}"#);
    let fragment = parse(
        r##"{"a": {"$ref": "gts://gts.x.core.events.topic.v1~"}, "b": {"$ref": "#/$defs/Missing"}}"##,
    );
    let inlined = inline_local_pointers(&fragment, &root);
    assert_eq!(inlined, fragment);
}

#[test]
fn effective_traits_report_schema_and_values() {
    let none = build_effective_traits(&[], &parse("{}"), None);
    assert!(!none.has_schema());
    assert!(!none.has_explicit_values());
    assert_eq!(none.schema, parse("{}"));
    let some = build_effective_traits(
        &[parse(r#"{"type": "object"}"#)],
        &parse(r#"{"retention": "P1D"}"#),
        None,
    );
    assert!(some.has_schema());
    assert!(some.has_explicit_values());
    assert_eq!(get(&some.values, "retention"), Some(&string("P1D")));
}

fn chain_schema(default: &str) -> JsonValue {
    parse(&format!(
        r#"{{"$schema": "http://json-schema.org/draft-07/schema#", "type": "object",
            "properties": {{"retention": {{"type": "string", "default": "{default}"}}}}}}"#
    ))
}

#[test]
fn test_chain_default_leaf_wins_over_ancestor() {
    let effective = build_effective_traits_schema(&[
        chain_schema("P30D"),
        chain_schema("P90D"),
        chain_schema("P365D"),
    ]);
    let materialized = materialize_traits(&effective, &JsonValue::Object(Vec::new()));
    assert_eq!(get(&materialized, "retention"), Some(&string("P365D")));
}

#[test]
fn test_chain_default_explicit_value_wins_over_defaults() {
    let effective = build_effective_traits_schema(&[
        chain_schema("P30D"),
        chain_schema("P90D"),
        chain_schema("P365D"),
    ]);
    let merged = JsonValue::Object(vec![("retention".to_owned(), string("P42D"))]);
    let materialized = materialize_traits(&effective, &merged);
    assert_eq!(get(&materialized, "retention"), Some(&string("P42D")));
}

#[test]
fn test_chain_default_null_delete_restores_leaf_default() {
    let mut merged: Vec<(String, JsonValue)> = Vec::new();
    merge_rfc7396_into(&mut merged, &members(r#"{"retention": "P7D"}"#));
    merge_rfc7396_into(&mut merged, &members(r#"{"retention": null}"#));
    assert!(
        !merged.iter().any(|(k, _)| k == "retention"),
        "null patch should remove the key from merged"
    );
    let effective = build_effective_traits_schema(&[chain_schema("P30D"), chain_schema("P365D")]);
    let materialized = materialize_traits(&effective, &JsonValue::Object(merged));
    assert_eq!(get(&materialized, "retention"), Some(&string("P365D")));
}

#[test]
fn test_build_effective_traits_materializes_and_pins_dialect() {
    let ts = parse(
        r#"{"type": "object", "properties": {"retention": {"type": "string", "default": "P30D"}}}"#,
    );
    let merged = parse("{}");
    let traits = build_effective_traits(
        std::slice::from_ref(&ts),
        &merged,
        Some("http://json-schema.org/draft-07/schema#"),
    );
    assert_eq!(
        get(&traits.schema, "$schema"),
        Some(&string("http://json-schema.org/draft-07/schema#"))
    );
    assert_eq!(get(&traits.values, "retention"), Some(&string("P30D")));
}

#[test]
fn test_inline_local_pointers_resolves_against_root() {
    let root = parse(
        r##"{"$defs": {"Retention": {"type": "string", "enum": ["P30D"]}},
            "x-gts-traits-schema": {"type": "object",
                "properties": {"retention": {"$ref": "#/$defs/Retention"}}}}"##,
    );
    let fragment = get(&root, "x-gts-traits-schema").unwrap();
    let inlined = inline_local_pointers(fragment, &root);
    let retention = get(get(&inlined, "properties").unwrap(), "retention").unwrap();
    assert!(get(retention, "$ref").is_none(), "local pointer must be inlined: {retention:?}");
    assert_eq!(get(retention, "enum"), Some(&parse(r#"["P30D"]"#)));
}

#[test]
fn test_inline_local_pointers_leaves_unresolvable_and_gts_refs_untouched() {
    let root = parse(r#"{"type": "object"}"#);
    let fragment = parse(
        r##"{"allOf": [{"$ref": "gts://gts.x.a.b.v1~"}, {"$ref": "#/$defs/Missing"}]}"##,
    );
    let inlined = inline_local_pointers(&fragment, &root);
    let all_of = match get(&inlined, "allOf") {
        Some(JsonValue::Array(items)) => items,
        other => panic!("allOf expected, got {other:?}"),
    };
    assert_eq!(get(&all_of[0], "$ref"), Some(&string("gts://gts.x.a.b.v1~")));
    assert_eq!(get(&all_of[1], "$ref"), Some(&string("#/$defs/Missing")));
}

#[test]
fn trait_value_result_from_given_outcomes() {
    let schema = parse(
        r#"{"type": "object", "properties": {"a": {"type": "string"}, "b": {"default": 1}},
            "required": ["a", "b"]}"#,
    );
    let traits = parse("{}");
    let failed = trait_value_result(Err("bad schema".to_owned()), &schema, &traits, false);
    assert_eq!(failed.unwrap_err(), vec!["failed to compile trait schema: bad schema"]);
    let reported = trait_value_result(
        Ok(vec!["one".to_owned(), "two".to_owned()]),
        &schema,
        &traits,
        false,
    );
    assert_eq!(reported.unwrap_err(), vec!["trait validation: one", "trait validation: two"]);
    assert!(trait_value_result(Ok(Vec::new()), &schema, &traits, false).is_ok());
    let incomplete = trait_value_result(Ok(Vec::new()), &schema, &traits, true).unwrap_err();
    assert_eq!(incomplete.len(), 1);
    assert!(incomplete[0].starts_with("trait property 'a' (type: string) is not resolved"));
    let filled = parse(r#"{"a": "x"}"#);
    assert!(trait_value_result(Ok(Vec::new()), &schema, &filled, true).is_ok());
}

#[test]
fn schema_form_complaint_from_given_failure() {
    let object = parse(r#"{"type": "object"}"#);
    assert_eq!(
        schema_form_complaint(3, &object, Some("nope")),
        Some("x-gts-traits-schema[3] is not a valid JSON Schema: nope".to_owned())
    );
    assert_eq!(schema_form_complaint(3, &object, None), None);
    assert_eq!(schema_form_complaint(0, &JsonValue::Bool(false), Some("ignored")), None);
    assert_eq!(
        schema_form_complaint(12, &JsonValue::Null, None),
        Some("x-gts-traits-schema[12] must be an object subschema or a boolean; got null".to_owned())
    );
}
