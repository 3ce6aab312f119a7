use gts_id::parse::{
    is_uuid, is_valid_segment_token, parse_id, parse_pattern, parse_u32_exact,
};
use gts_id::GTS_ID_PREFIX;

/// Prepend the configured prefix to a suffix, yielding a full GTS id string.
fn gts_id(suffix: &str) -> String {
    format!("{}{}", GTS_ID_PREFIX, suffix)
}

#[test]
fn test_valid_tokens() {
    assert!(is_valid_segment_token("abc"));
    assert!(is_valid_segment_token("a1b2"));
    assert!(is_valid_segment_token("_private"));
    assert!(is_valid_segment_token("a_b_c"));
}

#[test]
fn test_invalid_tokens() {
    assert!(!is_valid_segment_token(""));
    assert!(!is_valid_segment_token("1abc"));
    assert!(!is_valid_segment_token("ABC"));
    assert!(!is_valid_segment_token("a-b"));
    assert!(!is_valid_segment_token("a.b"));
}

// ---- parse_u32_exact ----

#[test]
fn test_parse_u32_exact_valid() {
    assert_eq!(parse_u32_exact("0"), Some(0));
    assert_eq!(parse_u32_exact("1"), Some(1));
    assert_eq!(parse_u32_exact("42"), Some(42));
}

#[test]
fn test_parse_u32_exact_rejects_leading_zeros() {
    assert_eq!(parse_u32_exact("01"), None);
    assert_eq!(parse_u32_exact("007"), None);
}

#[test]
fn test_parse_u32_exact_rejects_non_numeric() {
    assert_eq!(parse_u32_exact("abc"), None);
    assert_eq!(parse_u32_exact(""), None);
}

// ---- parse_id ----

#[test]
fn test_valid_gts_id() {
    let segments = parse_id(&gts_id("x.core.events.event.v1~")).unwrap();
    assert_eq!(segments.len(), 1);
    assert_eq!(segments[0].vendor(), "x");
    assert!(segments[0].is_type());
}

#[test]
fn test_valid_gts_id_chained() {
    let segments = parse_id(&gts_id(
        "x.core.events.type.v1~vendor.app._.custom_event.v1~",
    ))
    .unwrap();
    assert_eq!(segments.len(), 2);
    assert_eq!(segments[0].vendor(), "x");
    assert_eq!(segments[1].vendor(), "vendor");
}

#[test]
fn test_gts_id_missing_prefix() {
    let err = parse_id("x.core.events.event.v1~").unwrap_err();
    assert!(err.segment.is_none(), "expected id-level error, got: {err:?}");
    assert!(
        err.cause
            .contains(&format!("must start with '{GTS_ID_PREFIX}'")),
        "got: {err:?}"
    );
}

#[test]
fn test_gts_id_uppercase() {
    let err = parse_id(&gts_id("X.core.events.event.v1~")).unwrap_err();
    assert!(err.segment.is_none(), "expected id-level error, got: {err:?}");
    assert!(err.cause.contains("lowercase"), "got: {err:?}");
}

#[test]
fn test_gts_id_hyphen() {
    let err = parse_id(&gts_id("x-vendor.core.events.event.v1~")).unwrap_err();
    assert!(err.segment.is_none(), "expected id-level error, got: {err:?}");
    assert!(err.cause.contains("'-'"), "got: {err:?}");
}

#[test]
fn test_gts_id_segment_error_carries_num_and_offset() {
    let err = parse_id(&gts_id(
        "x.core.modkit.plugin.v1~x.core.license_enforcer.integration.plugin.v1~",
    ))
    .unwrap_err();
    let seg = err.segment.as_ref().expect("expected segment-level error");
    assert_eq!(seg.num, 2);
    // offset = prefix.len() + "x.core.modkit.plugin.v1~".len()
    let expected_offset = GTS_ID_PREFIX.len() + "x.core.modkit.plugin.v1~".len();
    assert_eq!(seg.offset, expected_offset);
    assert!(
        err.cause.contains("Too many name tokens before version"),
        "got: {err:?}"
    );
}

#[test]
fn test_gts_id_instance_no_tilde_end() {
    let segments = parse_id(&gts_id("x.core.events.event.v1~a.b.c.d.v1.0")).unwrap();
    assert_eq!(segments.len(), 2);
    assert!(segments[0].is_type());
    assert!(!segments[1].is_type());
}

#[test]
fn test_gts_id_double_tilde_rejected() {
    let err = parse_id(&gts_id("x.test1.events.type.v1.0~~")).unwrap_err();
    assert!(err.segment.is_none(), "expected id-level error, got: {err:?}");
    assert!(err.cause.contains("empty segment"), "got: {err:?}");
}

#[test]
fn test_gts_id_parser_expects_trimmed_input() {
    let err = parse_id(&format!("  {}  ", gts_id("x.core.events.event.v1~"))).unwrap_err();
    assert!(
        err.cause
            .contains(&format!("must start with '{GTS_ID_PREFIX}'")),
        "got: {err:?}"
    );
}

#[test]
fn test_gts_id_trimmed_input() {
    let segments = parse_id(&gts_id("x.core.events.event.v1~")).unwrap();
    assert_eq!(segments.len(), 1);
}

// ---- is_uuid ----

#[test]
fn test_is_uuid_valid() {
    assert!(is_uuid("7a1d2f34-5678-49ab-9012-abcdef123456"));
    assert!(is_uuid("00000000-0000-0000-0000-000000000000"));
    assert!(is_uuid("ffffffff-ffff-ffff-ffff-ffffffffffff"));
}

#[test]
fn test_is_uuid_invalid() {
    assert!(!is_uuid("not-a-uuid"));
    assert!(!is_uuid("7a1d2f34-5678-49ab-9012-abcdef12345")); // too short
    assert!(!is_uuid("7a1d2f34-5678-49ab-9012-abcdef1234567")); // too long
    assert!(!is_uuid("7a1d2f34-5678-49ab-9012-abcdef12345g")); // non-hex char
    assert!(!is_uuid("7a1d2f3405678-49ab-9012-abcdef123456")); // dash in wrong place
}

// ---- combined anonymous instance ----

#[test]
fn test_combined_anonymous_instance_valid() {
    let segments = parse_id(&gts_id("x.core.events.type.v1~x.commerce.orders.order_placed.v1.0~7a1d2f34-5678-49ab-9012-abcdef123456"))
    .unwrap();
    assert_eq!(segments.len(), 3);
    assert!(segments[0].is_type());
    assert!(segments[1].is_type());
    assert!(segments[2].uuid_tail().is_some());
    assert!(!segments[2].is_type());
    assert_eq!(segments[2].raw(), "7a1d2f34-5678-49ab-9012-abcdef123456");
}

#[test]
fn test_combined_anonymous_instance_single_prefix_valid() {
    let segments = parse_id(&gts_id(
        "x.core.events.type.v1~7a1d2f34-5678-49ab-9012-abcdef123456",
    ))
    .unwrap();
    assert_eq!(segments.len(), 2);
    assert!(segments[0].is_type());
    assert!(segments[1].uuid_tail().is_some());
}

#[test]
fn test_combined_anonymous_instance_hyphen_in_segments_rejected() {
    let err = parse_id(&gts_id("x-vendor.core.events.type.v1~x.commerce.orders.order_placed.v1.0~7a1d2f34-5678-49ab-9012-abcdef123456"))
    .unwrap_err();
    assert!(err.segment.is_none(), "expected id-level error, got: {err:?}");
    assert!(err.cause.contains("'-'"), "got: {err:?}");
}

#[test]
fn test_uuid_alone_without_prefix_rejected() {
    // A bare UUID with no GTS prefix is not a valid GTS ID
    let err = parse_id("7a1d2f34-5678-49ab-9012-abcdef123456").unwrap_err();
    assert!(err.segment.is_none(), "expected id-level error, got: {err:?}");
    assert!(
        err.cause
            .contains(&format!("must start with '{GTS_ID_PREFIX}'")),
        "got: {err:?}"
    );
}

#[test]
fn test_uuid_tail_without_preceding_tilde_rejected() {
    // UUID as the only segment (no preceding ~) must be rejected
    // prefix + UUID has no tilde_parts.len() >= 2
    let err = parse_id(&gts_id("7a1d2f34-5678-49ab-9012-abcdef123456")).unwrap_err();
    assert!(err.segment.is_none(), "expected id-level error, got: {err:?}");
    assert!(err.cause.contains("'-'"), "got: {err:?}");
}

// ---- issue #37: single-segment instance prohibition ----

#[test]
fn test_single_segment_instance_rejected() {
    // A lone instance segment (no '~', not a wildcard) is prohibited by #37.
    let err = parse_id(&gts_id("x.pkg.ns.type.v1.0")).unwrap_err();
    assert!(err.segment.is_none(), "expected id-level error, got: {err:?}");
    assert!(err.cause.contains("Single-segment instance"), "got: {err:?}");
}

#[test]
fn test_single_segment_wildcard_allowed() {
    // Wildcards are exempt from #37, so "prefix.a.b.*" is accepted.
    let segments = parse_pattern(&gts_id("a.b.*")).unwrap();
    assert_eq!(segments.len(), 1);
    assert!(segments[0].is_wildcard());
}

// ---- wildcard placement rules live in the parser (id-level errors) ----

#[test]
fn test_parse_pattern_multistar_rejected() {
    let err = parse_pattern(&gts_id("*.*.*.*")).unwrap_err();
    assert!(err.segment.is_none(), "expected id-level error, got: {err:?}");
    assert!(err.cause.contains("only once"), "got: {err:?}");
}

#[test]
fn test_parse_pattern_star_not_at_end_rejected() {
    let err = parse_pattern(&gts_id("*.core.events.event.v1~")).unwrap_err();
    assert!(err.segment.is_none(), "expected id-level error, got: {err:?}");
    assert!(err.cause.contains("only at the end"), "got: {err:?}");
}

#[test]
fn test_parse_pattern_version_wildcard_accepted() {
    // `v*` ends the string with `*`, so the structural gate admits it; the
    // segment parser turns it into a single wildcard segment.
    let segments = parse_pattern(&gts_id("x.llm.chat.message.v*")).unwrap();
    assert_eq!(segments.len(), 1);
    assert!(segments[0].is_wildcard());
}

#[test]
fn test_parse_pattern_star_then_tilde_rejected() {
    // A pattern ending in `*~` does not end with `*`, so it is refused as a
    // whole before any segment is parsed.
    let err = parse_pattern(&gts_id("x.llm.chat.message.v1.*~")).unwrap_err();
    assert!(err.segment.is_none(), "expected id-level error, got: {err:?}");
    assert!(err.cause.contains("only at the end"), "got: {err:?}");
}

#[test]
fn test_parse_pattern_midchain_wildcard_rejected() {
    // A wildcard that is the final token of a non-final chain segment is only
    // catchable structurally — the per-segment parser sees it as valid.
    let err = parse_pattern(&gts_id("x.*~a.b.c.d.v1~")).unwrap_err();
    assert!(err.segment.is_none(), "expected id-level error, got: {err:?}");
    assert!(err.cause.contains("only at the end"), "got: {err:?}");
}

#[test]
fn test_parse_pattern_wildcard_rules_off_without_flag() {
    // With wildcards disabled, '*' is just an invalid segment token,
    // reported as a segment-level error.
    let err = parse_id(&gts_id("*.*.*.*")).unwrap_err();
    assert!(
        err.segment.is_some(),
        "expected segment-level error, got: {err:?}"
    );
}

