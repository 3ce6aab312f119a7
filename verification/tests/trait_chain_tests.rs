use gts_id::json::JsonValue;
use gts_id::schema_traits::{
    build_effective_traits, collect_trait_schema_from_value, collect_traits_from_value,
};
use gts_id::schema_validation::validate_effective_traits;

fn to_json(v: &serde_json::Value) -> JsonValue {
    match v {
        serde_json::Value::Null => JsonValue::Null,
        serde_json::Value::Bool(b) => JsonValue::Bool(*b),
        serde_json::Value::Number(n) => JsonValue::Number(n.to_string()),
        serde_json::Value::String(s) => JsonValue::String(s.clone()),
        serde_json::Value::Array(items) => JsonValue::Array(items.iter().map(to_json).collect()),
        serde_json::Value::Object(map) => {
            JsonValue::Object(map.iter().map(|(k, v)| (k.clone(), to_json(v))).collect())
        }
    }
}

fn parse(text: &str) -> JsonValue {
    to_json(&serde_json::from_str::<serde_json::Value>(text).expect("valid json"))
}

/// Validates the trait artifacts of a chain of raw schemas (base first),
/// with every trait schema compatible with its ancestors and no
/// `x-gts-ref` complaint.
fn validate_traits_chain(chain: &[(String, JsonValue)]) -> Result<(), Vec<String>> {
    let mut trait_schemas = Vec::new();
    let mut merged = Vec::new();
    for (_id, content) in chain {
        collect_trait_schema_from_value(content, &mut trait_schemas);
        collect_traits_from_value(content, &mut merged);
    }
    let dialect = chain.last().and_then(|(_, c)| match c {
        JsonValue::Object(m) => m.iter().find(|(k, _)| k == "$schema").and_then(|(_, v)| match v {
            JsonValue::String(s) => Some(s.as_str()),
            _ => None,
        }),
        _ => None,
    });
    let traits = build_effective_traits(&trait_schemas, &JsonValue::Object(merged), dialect);
    validate_effective_traits(&traits, Ok(()), Vec::new(), true)
}

#[test]
fn test_no_traits_schema_passes() {
    let chain = vec![(
        "gts.x.test.base.v1~".to_owned(),
        parse(r##"{"$schema": "http://json-schema.org/draft-07/schema#", "type": "object", "properties": {"id": {"type": "string"}}}"##),
    )];
    assert!(validate_traits_chain(&chain).is_ok());
}

#[test]
fn test_traits_without_schema_in_derived_fails() {
    let chain = vec![
        (
            "base~".to_owned(),
            parse(r##"{"$schema": "http://json-schema.org/draft-07/schema#", "type": "object", "properties": {"id": {"type": "string"}}}"##),
        ),
        (
            "derived~".to_owned(),
            parse(r##"{"$schema": "http://json-schema.org/draft-07/schema#",
                "type": "object",
                "x-gts-traits": {"retention": "P30D"}
            }"##),
        ),
    ];
    let err = validate_traits_chain(&chain).unwrap_err();
    assert!(
        err.iter().any(|e| e.contains("no x-gts-traits-schema")),
        "should fail when traits provided without schema: {err:?}"
    );
}

#[test]
fn test_traits_without_schema_in_base_fails() {
    let chain = vec![(
        "base~".to_owned(),
        parse(r##"{"$schema": "http://json-schema.org/draft-07/schema#",
            "type": "object",
            "x-gts-traits": {"retention": "P30D"},
            "properties": {"id": {"type": "string"}}
        }"##),
    )];
    let err = validate_traits_chain(&chain).unwrap_err();
    assert!(
        err.iter().any(|e| e.contains("no x-gts-traits-schema")),
        "should fail when base has traits but no schema: {err:?}"
    );
}

#[test]
fn test_all_traits_resolved() {
    let chain = vec![
        (
            "gts.x.test.base.v1~".to_owned(),
            parse(r##"{"$schema": "http://json-schema.org/draft-07/schema#",
                "type": "object",
                "x-gts-traits-schema": {
                    "type": "object",
                    "properties": {
                        "retention": {"type": "string"},
                        "topicRef": {"type": "string"}
                    }
                }
            }"##),
        ),
        (
            "gts.x.test.base.v1~x.test._.derived.v1~".to_owned(),
            parse(r##"{"$schema": "http://json-schema.org/draft-07/schema#",
                "type": "object",
                "x-gts-traits": {
                    "retention": "P90D",
                    "topicRef": "gts.x.core.events.topic.v1~x.test._.orders.v1"
                }
            }"##),
        ),
    ];
    assert!(validate_traits_chain(&chain).is_ok());
}

#[test]
fn test_defaults_fill_traits() {
    let chain = vec![
        (
            "base~".to_owned(),
            parse(r##"{"$schema": "http://json-schema.org/draft-07/schema#",
                "type": "object",
                "x-gts-traits-schema": {
                    "type": "object",
                    "properties": {
                        "retention": {"type": "string", "default": "P30D"},
                        "topicRef": {"type": "string", "default": "default_topic"}
                    }
                }
            }"##),
        ),
        (
            "derived~".to_owned(),
            parse(r##"{"$schema": "http://json-schema.org/draft-07/schema#", "type": "object"}"##),
        ),
    ];
    assert!(validate_traits_chain(&chain).is_ok());
}

#[test]
fn test_explicit_value_conflicting_with_const_fails() {
    // An explicit x-gts-traits value is kept as-is (not silently overwritten
    // by const); JSON Schema validation then reports the conflict.
    let chain = vec![(
        "base~".to_owned(),
        parse(r##"{"$schema": "http://json-schema.org/draft-07/schema#",
            "type": "object",
            "x-gts-traits-schema": {
                "type": "object",
                "properties": {"channel": {"type": "string", "const": "audit"}}
            },
            "x-gts-traits": {"channel": "events"}
        }"##),
    )];
    let err = validate_traits_chain(&chain).unwrap_err();
    assert!(
        !err.is_empty(),
        "explicit value conflicting with const must fail validation"
    );
}

#[test]
fn test_missing_required_trait_fails() {
    let chain = vec![
        (
            "base~".to_owned(),
            parse(r##"{"$schema": "http://json-schema.org/draft-07/schema#",
                "type": "object",
                "x-gts-traits-schema": {
                    "type": "object",
                    "properties": {
                        "topicRef": {"type": "string"},
                        "retention": {"type": "string", "default": "P30D"}
                    },
                    "required": ["topicRef"]
                }
            }"##),
        ),
        (
            "derived~".to_owned(),
            parse(r##"{"$schema": "http://json-schema.org/draft-07/schema#",
                "type": "object",
                "x-gts-traits": {
                    "retention": "P90D"
                }
            }"##),
        ),
    ];
    let err = validate_traits_chain(&chain).unwrap_err();
    assert!(
        err.iter().any(|e| e.contains("topicRef")),
        "should mention missing topicRef: {err:?}"
    );
}

#[test]
fn test_optional_unresolved_trait_passes() {
    // Spec (README §9.7.5 / OP#13): only *required* trait properties must be
    // resolved. An optional declared property left unresolved is valid — it
    // simply stays absent and standard JSON Schema validation accepts it.
    let chain = vec![(
        "base~".to_owned(),
        parse(r##"{"$schema": "http://json-schema.org/draft-07/schema#",
            "type": "object",
            "x-gts-traits-schema": {
                "type": "object",
                "properties": {
                    "topicRef": {"type": "string"},
                    "note": {"type": "string"}
                },
                "required": ["topicRef"]
            },
            "x-gts-traits": {"topicRef": "events.orders"}
        }"##),
    )];
    assert!(
        validate_traits_chain(&chain).is_ok(),
        "optional unresolved trait property must not fail completeness"
    );
}

#[test]
fn test_wrong_type_fails() {
    let chain = vec![
        (
            "base~".to_owned(),
            parse(r##"{"$schema": "http://json-schema.org/draft-07/schema#",
                "type": "object",
                "x-gts-traits-schema": {
                    "type": "object",
                    "properties": {
                        "maxRetries": {"type": "integer", "minimum": 0, "default": 3}
                    }
                }
            }"##),
        ),
        (
            "derived~".to_owned(),
            parse(r##"{"$schema": "http://json-schema.org/draft-07/schema#",
                "type": "object",
                "x-gts-traits": {
                    "maxRetries": "not_a_number"
                }
            }"##),
        ),
    ];
    let err = validate_traits_chain(&chain).unwrap_err();
    assert!(!err.is_empty(), "wrong type should fail");
}

#[test]
fn test_unknown_property_fails() {
    let chain = vec![
        (
            "base~".to_owned(),
            parse(r##"{"$schema": "http://json-schema.org/draft-07/schema#",
                "type": "object",
                "x-gts-traits-schema": {
                    "type": "object",
                    "additionalProperties": false,
                    "properties": {
                        "retention": {"type": "string", "default": "P30D"}
                    }
                }
            }"##),
        ),
        (
            "derived~".to_owned(),
            parse(r##"{"$schema": "http://json-schema.org/draft-07/schema#",
                "type": "object",
                "x-gts-traits": {
                    "retention": "P90D",
                    "unknownTrait": "some_value"
                }
            }"##),
        ),
    ];
    let err = validate_traits_chain(&chain).unwrap_err();
    assert!(
        err.iter()
            .any(|e| e.contains("additional") || e.contains("unknownTrait")),
        "unknown property should fail: {err:?}"
    );
}

#[test]
fn test_abstract_valid_narrowing_trait_schema_passes_without_values() {
    // Guard against over-rejection: genuine narrowing (open string → enum
    // subset) plus a new optional property under an open ancestor must pass.
    let schemas = vec![
        parse(r##"{
            "type": "object",
            "properties": {"priority": {"type": "string"}}
        }"##),
        parse(r##"{
            "type": "object",
            "properties": {
                "priority": {"type": "string", "enum": ["low", "high"]},
                "note": {"type": "string"}
            }
        }"##),
    ];

    let traits = build_effective_traits(&schemas, &parse(r##"{}"##), None);
    assert!(
        validate_effective_traits(&traits, Ok(()), Vec::new(), false).is_ok(),
        "valid narrowing must pass without values: {:?}",
        validate_effective_traits(&traits, Ok(()), Vec::new(), false)
    );
}

#[test]
fn test_descendant_closed_trait_schema_restating_ancestor_property_passes() {
    // Escape hatch: closing the surface but restating the ancestor property
    // keeps it usable, so it must pass.
    let schemas = vec![
        parse(r##"{
            "type": "object",
            "properties": {"retention": {"type": "string"}}
        }"##),
        parse(r##"{
            "type": "object",
            "additionalProperties": false,
            "properties": {
                "retention": {"type": "string"},
                "topicRef": {"type": "string"}
            }
        }"##),
    ];

    let traits = build_effective_traits(&schemas, &parse(r##"{}"##), None);
    assert!(
        validate_effective_traits(&traits, Ok(()), Vec::new(), false).is_ok(),
        "restating the ancestor property keeps it usable: {:?}",
        validate_effective_traits(&traits, Ok(()), Vec::new(), false)
    );
}

#[test]
fn test_descendant_nested_closed_trait_schema_restating_ancestor_property_passes() {
    let schemas = vec![
        parse(r##"{
            "type": "object",
            "properties": {
                "routing": {
                    "type": "object",
                    "properties": {
                        "source": {"type": "string"}
                    }
                }
            }
        }"##),
        parse(r##"{
            "type": "object",
            "properties": {
                "routing": {
                    "type": "object",
                    "additionalProperties": false,
                    "properties": {
                        "source": {"type": "string"},
                        "target": {"type": "string"}
                    }
                }
            }
        }"##),
    ];

    let traits = build_effective_traits(&schemas, &parse(r##"{}"##), None);
    assert!(
        validate_effective_traits(&traits, Ok(()), Vec::new(), false).is_ok(),
        "restating the nested ancestor property keeps it usable: {:?}",
        validate_effective_traits(&traits, Ok(()), Vec::new(), false)
    );
}

#[test]
fn test_override_in_chain() {
    let chain = vec![
        (
            "base~".to_owned(),
            parse(r##"{"$schema": "http://json-schema.org/draft-07/schema#",
                "type": "object",
                "x-gts-traits-schema": {
                    "type": "object",
                    "properties": {
                        "retention": {"type": "string"}
                    }
                }
            }"##),
        ),
        (
            "mid~".to_owned(),
            parse(r##"{"$schema": "http://json-schema.org/draft-07/schema#",
                "type": "object",
                "x-gts-traits": {"retention": "P30D"}
            }"##),
        ),
        (
            "leaf~".to_owned(),
            parse(r##"{"$schema": "http://json-schema.org/draft-07/schema#",
                "type": "object",
                "x-gts-traits": {"retention": "P365D"}
            }"##),
        ),
    ];
    assert!(validate_traits_chain(&chain).is_ok());
}

#[test]
fn test_both_keywords_in_same_schema() {
    let chain = vec![
        (
            "base~".to_owned(),
            parse(r##"{"$schema": "http://json-schema.org/draft-07/schema#",
                "type": "object",
                "x-gts-traits-schema": {
                    "type": "object",
                    "properties": {
                        "topicRef": {"type": "string"},
                        "retention": {"type": "string", "default": "P30D"}
                    }
                }
            }"##),
        ),
        (
            "mid~".to_owned(),
            parse(r##"{"$schema": "http://json-schema.org/draft-07/schema#",
                "type": "object",
                "x-gts-traits-schema": {
                    "type": "object",
                    "properties": {
                        "auditRetention": {"type": "string", "default": "P365D"}
                    }
                },
                "x-gts-traits": {
                    "topicRef": "gts.x.core.events.topic.v1~x.test._.audit.v1"
                }
            }"##),
        ),
    ];
    assert!(validate_traits_chain(&chain).is_ok());
}

#[test]
fn test_three_level_chain_missing_in_leaf() {
    let chain = vec![
        (
            "base~".to_owned(),
            parse(r##"{"$schema": "http://json-schema.org/draft-07/schema#",
                "type": "object",
                "x-gts-traits-schema": {
                    "type": "object",
                    "properties": {
                        "retention": {"type": "string", "default": "P30D"}
                    }
                }
            }"##),
        ),
        (
            "mid~".to_owned(),
            parse(r##"{"$schema": "http://json-schema.org/draft-07/schema#",
                "type": "object",
                "x-gts-traits-schema": {
                    "type": "object",
                    "properties": {
                        "priority": {"type": "string"}
                    },
                    "required": ["priority"]
                }
            }"##),
        ),
        (
            "leaf~".to_owned(),
            parse(r##"{"$schema": "http://json-schema.org/draft-07/schema#",
                "type": "object",
                "x-gts-traits": {"retention": "P90D"}
            }"##),
        ),
    ];
    let err = validate_traits_chain(&chain).unwrap_err();
    assert!(
        err.iter().any(|e| e.contains("priority")),
        "should mention missing priority: {err:?}"
    );
}

#[test]
fn test_enum_constraint_violation() {
    let chain = vec![
        (
            "base~".to_owned(),
            parse(r##"{"$schema": "http://json-schema.org/draft-07/schema#",
                "type": "object",
                "x-gts-traits-schema": {
                    "type": "object",
                    "properties": {
                        "priority": {
                            "type": "string",
                            "enum": ["low", "medium", "high", "critical"],
                            "default": "medium"
                        }
                    }
                }
            }"##),
        ),
        (
            "derived~".to_owned(),
            parse(r##"{"$schema": "http://json-schema.org/draft-07/schema#",
                "type": "object",
                "x-gts-traits": {"priority": "ultra_high"}
            }"##),
        ),
    ];
    let err = validate_traits_chain(&chain).unwrap_err();
    assert!(!err.is_empty(), "enum violation should fail");
}

#[test]
fn test_minimum_violation() {
    let chain = vec![
        (
            "base~".to_owned(),
            parse(r##"{"$schema": "http://json-schema.org/draft-07/schema#",
                "type": "object",
                "x-gts-traits-schema": {
                    "type": "object",
                    "properties": {
                        "maxRetries": {
                            "type": "integer",
                            "minimum": 0,
                            "maximum": 10,
                            "default": 3
                        }
                    }
                }
            }"##),
        ),
        (
            "derived~".to_owned(),
            parse(r##"{"$schema": "http://json-schema.org/draft-07/schema#",
                "type": "object",
                "x-gts-traits": {"maxRetries": -1}
            }"##),
        ),
    ];
    let err = validate_traits_chain(&chain).unwrap_err();
    assert!(!err.is_empty(), "minimum violation should fail");
}

#[test]
fn test_narrowing_valid() {
    // Base: priority is open string
    // Mid: narrows to enum, provides valid value
    let chain = vec![
        (
            "base~".to_owned(),
            parse(r##"{"$schema": "http://json-schema.org/draft-07/schema#",
                "type": "object",
                "x-gts-traits-schema": {
                    "type": "object",
                    "properties": {
                        "priority": {"type": "string"},
                        "retention": {"type": "string", "default": "P30D"}
                    }
                }
            }"##),
        ),
        (
            "mid~".to_owned(),
            parse(r##"{"$schema": "http://json-schema.org/draft-07/schema#",
                "type": "object",
                "x-gts-traits-schema": {
                    "type": "object",
                    "properties": {
                        "priority": {
                            "type": "string",
                            "enum": ["low", "medium", "high", "critical"]
                        }
                    }
                },
                "x-gts-traits": {"priority": "high"}
            }"##),
        ),
    ];
    assert!(validate_traits_chain(&chain).is_ok());
}

#[test]
fn test_narrowing_violation() {
    let chain = vec![
        (
            "base~".to_owned(),
            parse(r##"{"$schema": "http://json-schema.org/draft-07/schema#",
                "type": "object",
                "x-gts-traits-schema": {
                    "type": "object",
                    "properties": {
                        "priority": {"type": "string"},
                        "retention": {"type": "string", "default": "P30D"}
                    }
                }
            }"##),
        ),
        (
            "mid~".to_owned(),
            parse(r##"{"$schema": "http://json-schema.org/draft-07/schema#",
                "type": "object",
                "x-gts-traits-schema": {
                    "type": "object",
                    "properties": {
                        "priority": {
                            "type": "string",
                            "enum": ["low", "medium", "high", "critical"]
                        }
                    }
                },
                "x-gts-traits": {"priority": "high"}
            }"##),
        ),
        (
            "leaf~".to_owned(),
            parse(r##"{"$schema": "http://json-schema.org/draft-07/schema#",
                "type": "object",
                "x-gts-traits": {"priority": "ultra_high"}
            }"##),
        ),
    ];
    let err = validate_traits_chain(&chain).unwrap_err();
    assert!(!err.is_empty(), "narrowing violation should fail");
}

#[test]
fn test_deep_inheritance_chain() {
    // Chain near MAX_RECURSION_DEPTH — exercises recursion guard boundary
    let mut chain = vec![(
        "base~".to_owned(),
        parse(r##"{"$schema": "http://json-schema.org/draft-07/schema#",
            "type": "object",
            "x-gts-traits-schema": {
                "type": "object",
                "properties": {
                    "retention": {"type": "string", "default": "P30D"}
                }
            }
        }"##),
    )];
    for i in 1..64 {
        chain.push((
            format!("level{i}~"),
            parse(r##"{"$schema": "http://json-schema.org/draft-07/schema#", "type": "object"}"##),
        ));
    }
    assert!(validate_traits_chain(&chain).is_ok());
}

#[test]
fn test_malformed_trait_schema_not_object() {
    // x-gts-traits-schema is a string, not an object
    let chain = vec![
        (
            "base~".to_owned(),
            parse(r##"{"$schema": "http://json-schema.org/draft-07/schema#",
                "type": "object",
                "x-gts-traits-schema": "not_an_object"
            }"##),
        ),
        (
            "derived~".to_owned(),
            parse(r##"{"$schema": "http://json-schema.org/draft-07/schema#",
                "type": "object",
                "x-gts-traits": {"foo": "bar"}
            }"##),
        ),
    ];
    // The string value should be collected but fail gracefully at validation
    let result = validate_traits_chain(&chain);
    // The trait schema "not_an_object" has no properties, so "foo" is undeclared.
    // The chain should fail because traits are provided without a valid schema.
    assert!(
        result.is_err(),
        "malformed trait schema should fail: {result:?}"
    );
}

#[test]
fn test_trait_values_as_object() {
    // Trait value is a nested object, not just a primitive
    let chain = vec![
        (
            "base~".to_owned(),
            parse(r##"{"$schema": "http://json-schema.org/draft-07/schema#",
                "type": "object",
                "x-gts-traits-schema": {
                    "type": "object",
                    "properties": {
                        "retry": {
                            "type": "object",
                            "properties": {
                                "maxAttempts": {"type": "integer", "default": 3},
                                "backoff": {"type": "string", "default": "exponential"}
                            }
                        }
                    }
                }
            }"##),
        ),
        (
            "derived~".to_owned(),
            parse(r##"{"$schema": "http://json-schema.org/draft-07/schema#",
                "type": "object",
                "x-gts-traits": {
                    "retry": {"maxAttempts": 5}
                }
            }"##),
        ),
    ];
    assert!(
        validate_traits_chain(&chain).is_ok(),
        "object trait values should be accepted"
    );
}

#[test]
fn test_trait_values_as_array() {
    // Trait value is an array
    let chain = vec![
        (
            "base~".to_owned(),
            parse(r##"{"$schema": "http://json-schema.org/draft-07/schema#",
                "type": "object",
                "x-gts-traits-schema": {
                    "type": "object",
                    "properties": {
                        "tags": {
                            "type": "array",
                            "items": {"type": "string"},
                            "default": []
                        }
                    }
                }
            }"##),
        ),
        (
            "derived~".to_owned(),
            parse(r##"{"$schema": "http://json-schema.org/draft-07/schema#",
                "type": "object",
                "x-gts-traits": {
                    "tags": ["audit", "compliance"]
                }
            }"##),
        ),
    ];
    assert!(
        validate_traits_chain(&chain).is_ok(),
        "array trait values should be accepted"
    );
}

#[test]
fn test_x_gts_keys_inside_trait_schema_are_tolerated() {
    // A trait-schema may contain GTS-extension keys as ordinary members —
    // this happens when an existing GTS type (which carries its own
    // `x-gts-traits-schema` / `x-gts-traits`) is reused as a trait-schema
    // source via $ref. Standard JSON Schema treats unknown keywords as
    // annotations, so these keys are inert at validation time and must
    // not cause registration to fail.
    //
    // To isolate this property from the unrelated completeness check, the
    // trait-schema below declares only optional properties and the chain
    // supplies a matching x-gts-traits value.
    let chain = vec![(
        "base~".to_owned(),
        parse(r##"{"$schema": "http://json-schema.org/draft-07/schema#",
            "type": "object",
            "x-gts-traits-schema": {
                "type": "object",
                "x-gts-traits-schema": {"type": "object"},
                "x-gts-traits": {"foo": "bar"},
                "properties": {
                    "retention": {"type": "string"}
                }
            },
            "x-gts-traits": {"retention": "P30D"}
        }"##),
    )];
    assert!(
        validate_traits_chain(&chain).is_ok(),
        "x-gts-traits / x-gts-traits-schema nested inside a trait-schema body \
         should be tolerated as unknown JSON Schema keywords"
    );
}

#[test]
fn test_nested_object_defaults_applied() {
    // Trait schema has nested object with defaults — verify they are applied
    let chain = vec![
        (
            "base~".to_owned(),
            parse(r##"{"$schema": "http://json-schema.org/draft-07/schema#",
                "type": "object",
                "x-gts-traits-schema": {
                    "type": "object",
                    "properties": {
                        "retry": {
                            "type": "object",
                            "properties": {
                                "maxAttempts": {"type": "integer", "default": 3},
                                "backoff": {"type": "string", "default": "exponential"}
                            }
                        }
                    }
                }
            }"##),
        ),
        (
            "derived~".to_owned(),
            parse(r##"{"$schema": "http://json-schema.org/draft-07/schema#",
                "type": "object",
                "x-gts-traits": {
                    "retry": {"maxAttempts": 5}
                }
            }"##),
        ),
    ];
    // Should pass because nested defaults fill in the missing "backoff"
    assert!(
        validate_traits_chain(&chain).is_ok(),
        "nested defaults should fill in missing sub-properties"
    );
}

#[test]
fn test_improved_error_message_includes_type() {
    let chain = vec![
        (
            "base~".to_owned(),
            parse(r##"{"$schema": "http://json-schema.org/draft-07/schema#",
                "type": "object",
                "x-gts-traits-schema": {
                    "type": "object",
                    "properties": {
                        "topicRef": {"type": "string"},
                        "retention": {"type": "string", "default": "P30D"}
                    },
                    "required": ["topicRef"]
                }
            }"##),
        ),
        (
            "derived~".to_owned(),
            parse(r##"{"$schema": "http://json-schema.org/draft-07/schema#",
                "type": "object",
                "x-gts-traits": {"retention": "P90D"}
            }"##),
        ),
    ];
    let err = validate_traits_chain(&chain).unwrap_err();
    assert!(
        err.iter().any(|e| e.contains("type: string")),
        "error message should include expected type: {err:?}"
    );
}

#[test]
fn test_empty_trait_schema_permits_any_traits() {
    // An empty x-gts-traits-schema: {} is unconstrained — any trait values pass
    let chain = vec![
        (
            "base~".to_owned(),
            parse(r##"{"$schema": "http://json-schema.org/draft-07/schema#",
                "type": "object",
                "x-gts-traits-schema": {}
            }"##),
        ),
        (
            "derived~".to_owned(),
            parse(r##"{"$schema": "http://json-schema.org/draft-07/schema#",
                "type": "object",
                "x-gts-traits": {"anything": "goes", "count": 42}
            }"##),
        ),
    ];
    assert!(
        validate_traits_chain(&chain).is_ok(),
        "empty trait schema should permit any traits"
    );
}

#[test]
fn test_duplicate_property_dedup_rightmost_wins() {
    // Base defines `priority: string`, mid narrows to enum.
    // The dedup should keep the enum definition (rightmost), not report
    // "priority" as unresolved twice.
    let chain = vec![
        (
            "base~".to_owned(),
            parse(r##"{"$schema": "http://json-schema.org/draft-07/schema#",
                "type": "object",
                "x-gts-traits-schema": {
                    "type": "object",
                    "properties": {
                        "priority": {"type": "string"},
                        "retention": {"type": "string", "default": "P30D"}
                    }
                }
            }"##),
        ),
        (
            "mid~".to_owned(),
            parse(r##"{"$schema": "http://json-schema.org/draft-07/schema#",
                "type": "object",
                "x-gts-traits-schema": {
                    "type": "object",
                    "properties": {
                        "priority": {
                            "type": "string",
                            "enum": ["low", "medium", "high"]
                        }
                    }
                }
            }"##),
        ),
        (
            "leaf~".to_owned(),
            parse(r##"{"$schema": "http://json-schema.org/draft-07/schema#",
                "type": "object",
                "x-gts-traits": {"priority": "high"}
            }"##),
        ),
    ];
    // Should pass: priority is provided, retention has default
    assert!(
        validate_traits_chain(&chain).is_ok(),
        "dedup should keep rightmost definition"
    );

    // Verify the unresolved-property check dedups: priority is declared in
    // two layers but the trait-specific "is not resolved" message must be
    // emitted only once (not per declaration). priority is required here so
    // the completeness check fires.
    let chain_missing = vec![
        (
            "base~".to_owned(),
            parse(r##"{"$schema": "http://json-schema.org/draft-07/schema#",
                "type": "object",
                "x-gts-traits-schema": {
                    "type": "object",
                    "properties": {
                        "priority": {"type": "string"},
                        "retention": {"type": "string", "default": "P30D"}
                    },
                    "required": ["priority"]
                }
            }"##),
        ),
        (
            "mid~".to_owned(),
            parse(r##"{"$schema": "http://json-schema.org/draft-07/schema#",
                "type": "object",
                "x-gts-traits-schema": {
                    "type": "object",
                    "properties": {
                        "priority": {
                            "type": "string",
                            "enum": ["low", "medium", "high"]
                        }
                    }
                }
            }"##),
        ),
        (
            "leaf~".to_owned(),
            parse(r##"{"$schema": "http://json-schema.org/draft-07/schema#", "type": "object"}"##),
        ),
    ];
    let err = validate_traits_chain(&chain_missing).unwrap_err();
    // Isolate the manual completeness message (the standard JSON Schema
    // validator separately reports the missing `required` member).
    let unresolved_priority: Vec<_> = err
        .iter()
        .filter(|e| e.contains("priority") && e.contains("is not resolved"))
        .collect();
    assert_eq!(
        unresolved_priority.len(),
        1,
        "priority should be reported as unresolved exactly once, got: {unresolved_priority:?}"
    );
}

#[test]
fn test_invalid_trait_schema_caught_early() {
    // x-gts-traits-schema with an invalid "type" value should fail early
    // with a clear message about being an invalid JSON Schema
    let chain = vec![(
        "base~".to_owned(),
        parse(r##"{"$schema": "http://json-schema.org/draft-07/schema#",
            "type": "object",
            "x-gts-traits-schema": {
                "type": "invalid_type_value"
            }
        }"##),
    )];
    let err = validate_traits_chain(&chain).unwrap_err();
    assert!(
        err.iter()
            .any(|e| e.contains("not a valid JSON Schema") || e.contains("failed to compile")),
        "should report invalid JSON Schema early: {err:?}"
    );
}

#[test]
fn effective_traits_pass_on_compatibility_and_reference_complaints() {
    let schemas = vec![parse(
        r#"{"type": "object", "properties": {"topicRef": {"type": "string"}}}"#,
    )];
    let traits = build_effective_traits(&schemas, &parse(r#"{"topicRef": "not-a-gts-id"}"#), None);
    assert!(validate_effective_traits(&traits, Ok(()), Vec::new(), true).is_ok());
    assert_eq!(
        validate_effective_traits(&traits, Err(vec!["incompatible".to_owned()]), Vec::new(), true),
        Err(vec!["incompatible".to_owned()])
    );
    assert_eq!(
        validate_effective_traits(&traits, Ok(()), vec!["bad prefix".to_owned()], true),
        Err(vec!["trait x-gts-ref: bad prefix".to_owned()])
    );
}

#[test]
fn false_trait_schema_prohibits_values() {
    let schemas = vec![JsonValue::Bool(false)];
    let with_values = build_effective_traits(&schemas, &parse(r#"{"a": 1}"#), None);
    assert_eq!(
        validate_effective_traits(&with_values, Ok(()), Vec::new(), true),
        Err(vec![
            "x-gts-traits-schema resolves to `false` in the chain \u{2014} x-gts-traits values are prohibited"
                .to_owned()
        ])
    );
    let without = build_effective_traits(&schemas, &parse("{}"), None);
    assert!(validate_effective_traits(&without, Ok(()), Vec::new(), true).is_ok());
}
