use std::collections::BTreeSet;

use gts_id::json::JsonValue;
use gts_id::schema_refs::{classify_ref, extract_gts_refs, RefKind};
use gts_id::{ExtractRefsError, InvalidRefReason};

fn to_json(v: &serde_json::Value) -> JsonValue {
    match v {
        serde_json::Value::Null => JsonValue::Null,
        serde_json::Value::Bool(b) => JsonValue::Bool(*b),
        serde_json::Value::Number(n) => JsonValue::Number(n.to_string()),
        serde_json::Value::String(s) => JsonValue::String(s.clone()),
        serde_json::Value::Array(items) => JsonValue::Array(items.iter().map(to_json).collect()),
        serde_json::Value::Object(map) => {
            JsonValue::Object(map.iter().map(|(k, v)| (k.clone(), to_json(v))).collect())
        }
    }
}

fn parse(text: &str) -> JsonValue {
    to_json(&serde_json::from_str::<serde_json::Value>(text).expect("valid json"))
}

fn refs_of(text: &str) -> Result<BTreeSet<String>, ExtractRefsError> {
    extract_gts_refs(&parse(text)).map(|v| v.into_iter().collect())
}

#[test]
fn extract_gts_refs_body_traits_and_normalization() {
    let schema = r##"{
        "$schema": "http://json-schema.org/draft-07/schema#",
        "type": "object",
        "properties": {
            "a": {"$ref": "gts://gts.x.dep.ns.a.v1~"},
            "b": {"$ref": "gts://gts.x.dep.ns.b.v1~"},
            "c": {"$ref": "gts://gts.x.dep.ns.c.v1~#/properties/inner"},
            "d": {"$ref": "#/$defs/Local"},
            "e": {"type": "string", "x-gts-ref": "gts.x.notdep.ns.e.v1~"},
            "f": {"$ref": "gts://gts.x.dep.ns.a.v1~"}
        },
        "allOf": [{"$ref": "gts://gts.x.dep.ns.allof.v1~"}],
        "x-gts-traits-schema": {
            "type": "object",
            "properties": {"t": {"$ref": "gts://gts.x.dep.ns.trait.v1~"}}
        }
    }"##;

    let refs = refs_of(schema).unwrap();
    let expected: BTreeSet<String> = [
        "gts.x.dep.ns.a.v1~",
        "gts.x.dep.ns.b.v1~",
        "gts.x.dep.ns.c.v1~",
        "gts.x.dep.ns.allof.v1~",
        "gts.x.dep.ns.trait.v1~",
    ]
    .iter()
    .map(|s| (*s).to_owned())
    .collect();

    assert_eq!(refs, expected);
}

#[test]
fn extract_gts_refs_none() {
    let schema = r##"{
        "$schema": "http://json-schema.org/draft-07/schema#",
        "type": "object",
        "properties": {"id": {"type": "string"}},
        "x-gts-traits-schema": {"type": "object"}
    }"##;
    assert!(refs_of(schema).unwrap().is_empty());
}

#[test]
fn extract_gts_refs_ignores_data_valued_keywords() {
    let schema = r##"{
        "type": "object",
        "properties": {
            "a": {"const": {"$ref": "not-a-schema-ref"}},
            "b": {"default": {"nested": {"$ref": "also-not-a-ref"}}},
            "c": {"enum": [{"$ref": "still-data"}]},
            "d": {"examples": [{"$ref": "example-data"}]},
            "e": {"$ref": "gts://gts.x.dep.ns.real.v1~"}
        }
    }"##;
    let refs = refs_of(schema).unwrap();
    let expected: BTreeSet<String> = ["gts.x.dep.ns.real.v1~".to_owned()].into_iter().collect();
    assert_eq!(refs, expected);
}

#[test]
fn extract_gts_refs_rejects_bare_id() {
    let bare_ref = r##"{
        "type": "object",
        "properties": {"a": {"$ref": "gts.x.dep.ns.a.v1~"}}
    }"##;
    assert!(matches!(
        refs_of(bare_ref),
        Err(ExtractRefsError::InvalidRef {
            reason: InvalidRefReason::NotGtsUri,
            ..
        })
    ));
}

#[test]
fn extract_gts_refs_rejects_invalid() {
    let instance_ref = r##"{
        "type": "object",
        "properties": {"a": {"$ref": "gts://gts.x.dep.ns.a.v1"}}
    }"##;
    assert!(matches!(
        refs_of(instance_ref),
        Err(ExtractRefsError::InvalidRef {
            reason: InvalidRefReason::InvalidTypeId(_),
            ..
        })
    ));

    let garbage_ref = r##"{
        "type": "object",
        "properties": {"a": {"$ref": "gts://not a gts id"}}
    }"##;
    assert!(matches!(
        refs_of(garbage_ref),
        Err(ExtractRefsError::InvalidRef {
            reason: InvalidRefReason::InvalidTypeId(_),
            ..
        })
    ));
}

#[test]
fn extract_gts_refs_reports_path() {
    let schema = r##"{"properties": {"order": {"$ref": "invalid-ref"}}}"##;
    let err = refs_of(schema).unwrap_err();
    assert!(
        err.to_string().contains("properties.order.$ref"),
        "error should report the path, got: {}",
        err.to_string()
    );
}

#[test]
fn extract_gts_refs_rejects_unsupported_fragment() {
    let schema = r##"{"$ref": "gts://gts.x.dep.ns.a.v1~#bad"}"##;
    assert!(matches!(
        refs_of(schema),
        Err(ExtractRefsError::InvalidRef {
            reason: InvalidRefReason::UnsupportedFragment(_),
            ..
        })
    ));
}

#[test]
fn extract_gts_refs_rejects_too_deep() {
    let mut schema = JsonValue::Object(vec![(
        "type".to_owned(),
        JsonValue::String("object".to_owned()),
    )]);
    for _ in 0..70 {
        schema = JsonValue::Object(vec![(
            "properties".to_owned(),
            JsonValue::Object(vec![("nested".to_owned(), schema)]),
        )]);
    }
    assert_eq!(
        extract_gts_refs(&schema),
        Err(ExtractRefsError::TooDeep(64))
    );
}

#[test]
fn extract_gts_refs_found_in_arrays() {
    let schema = r##"{
        "oneOf": [
            {"$ref": "gts://gts.x.dep.ns.one.v1~"},
            {"$ref": "gts://gts.x.dep.ns.two.v1~"}
        ]
    }"##;
    let refs = refs_of(schema).unwrap();
    let expected: BTreeSet<String> = ["gts.x.dep.ns.one.v1~", "gts.x.dep.ns.two.v1~"]
        .iter()
        .map(|s| (*s).to_owned())
        .collect();
    assert_eq!(refs, expected);
}

#[test]
fn extract_gts_refs_empty_fragment_normalizes_to_id() {
    let schema = r##"{"$ref": "gts://gts.x.dep.ns.a.v1~#"}"##;
    let refs = refs_of(schema).unwrap();
    assert_eq!(refs, BTreeSet::from(["gts.x.dep.ns.a.v1~".to_owned()]));
}

#[test]
fn extract_gts_refs_internal_pointer_only_excluded() {
    let schema = r##"{
        "type": "object",
        "properties": {"a": {"$ref": "#/$defs/Local"}},
        "$defs": {"Local": {"type": "string"}}
    }"##;
    assert!(refs_of(schema).unwrap().is_empty());
}

#[test]
fn array_item_paths_are_reported() {
    let schema = JsonValue::Object(vec![(
        "anyOf".to_owned(),
        JsonValue::Array(vec![
            JsonValue::Null,
            JsonValue::Object(vec![(
                "$ref".to_owned(),
                JsonValue::String("bad".to_owned()),
            )]),
        ]),
    )]);
    let err = extract_gts_refs(&schema).unwrap_err();
    assert_eq!(
        err,
        ExtractRefsError::InvalidRef {
            path: "anyOf[1].$ref".to_owned(),
            ref_uri: "bad".to_owned(),
            reason: InvalidRefReason::NotGtsUri,
        }
    );
    assert_eq!(
        err.to_string(),
        "at 'anyOf[1].$ref': 'bad' must be a local ref (starting with '#') or a GTS URI (starting with 'gts://')"
    );
}

#[test]
fn too_deep_message() {
    assert_eq!(
        ExtractRefsError::TooDeep(64).to_string(),
        "schema nests deeper than the maximum scan depth of 64"
    );
}

#[test]
fn classify_ref_cases() {
    assert_eq!(classify_ref("#/$defs/Local"), Ok(RefKind::Local));
    assert_eq!(classify_ref("#"), Ok(RefKind::Local));
    assert_eq!(classify_ref("gts.x.a.b.c.v1~"), Err(InvalidRefReason::NotGtsUri));
    assert_eq!(
        classify_ref("gts://gts.x.a.b.c.v1~"),
        Ok(RefKind::External {
            id: "gts.x.a.b.c.v1~".to_owned()
        })
    );
    assert_eq!(
        classify_ref("gts://gts.x.a.b.c.v1~#/properties/p"),
        Ok(RefKind::External {
            id: "gts.x.a.b.c.v1~".to_owned()
        })
    );
    assert_eq!(
        classify_ref("gts://gts.x.a.b.c.v1~#frag"),
        Err(InvalidRefReason::UnsupportedFragment("frag".to_owned()))
    );
    assert_eq!(
        classify_ref("gts://gts.x.a.b.c.v1~d.e.f.g.v1"),
        Err(InvalidRefReason::InvalidTypeId(
            "gts.x.a.b.c.v1~d.e.f.g.v1".to_owned()
        ))
    );
    assert_eq!(
        InvalidRefReason::UnsupportedFragment("frag".to_owned()).to_string(),
        "has an unsupported fragment '#frag'; only an empty fragment or a '/'-prefixed JSON Pointer is allowed"
    );
    assert_eq!(
        InvalidRefReason::InvalidTypeId("x".to_owned()).to_string(),
        "must reference a GTS type id (a valid identifier ending with '~'), got 'x'"
    );
}

#[test]
fn extracted_refs_are_sorted_and_unique() {
    let schema = parse(
        r#"{"properties": {
            "z": {"$ref": "gts://gts.x.dep.ns.zeta.v1~"},
            "a": {"$ref": "gts://gts.x.dep.ns.alpha.v1~"},
            "b": {"$ref": "gts://gts.x.dep.ns.zeta.v1~"}
        }}"#,
    );
    assert_eq!(
        extract_gts_refs(&schema).unwrap(),
        vec!["gts.x.dep.ns.alpha.v1~".to_owned(), "gts.x.dep.ns.zeta.v1~".to_owned()]
    );
}
