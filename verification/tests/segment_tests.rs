use gts_id::{GtsIdPatternSegment, GtsIdSegment, GTS_ID_PREFIX};

#[test]
fn test_valid_segment_basic() {
    let parsed = GtsIdSegment::parse(1, "x.core.events.event.v1~").unwrap();
    assert_eq!(parsed.vendor(), "x");
    assert_eq!(parsed.package(), "core");
    assert_eq!(parsed.namespace(), "events");
    assert_eq!(parsed.type_token(), "event");
    assert_eq!(parsed.ver_major(), 1);
    assert_eq!(parsed.ver_minor(), None);
    assert!(parsed.is_type());
}

#[test]
fn test_valid_segment_with_minor() {
    let parsed = GtsIdSegment::parse(1, "x.core.events.event.v1.2~").unwrap();
    assert_eq!(parsed.ver_major(), 1);
    assert_eq!(parsed.ver_minor(), Some(2));
}

#[test]
fn test_segment_too_many_tildes() {
    let err = GtsIdSegment::parse(1, "x.core.events.event.v1~~").unwrap_err();
    assert!(err.contains("Too many '~' characters"), "got: {err}");
}

#[test]
fn test_segment_tilde_not_at_end() {
    let err = GtsIdSegment::parse(1, "x.core~mid.events.event.v1").unwrap_err();
    assert!(err.contains("'~' must be at the end"), "got: {err}");
}

#[test]
fn test_segment_too_many_tokens() {
    let err = GtsIdSegment::parse(1, "x.core.events.event.v1.2.extra~").unwrap_err();
    assert!(err.contains("Too many tokens"), "got: {err}");
}

#[test]
fn test_segment_too_few_tokens() {
    let err = GtsIdSegment::parse(1, "x.core.events.event~").unwrap_err();
    assert!(err.contains("Too few tokens"), "got: {err}");
}

#[test]
fn test_segment_too_many_name_tokens() {
    let err = GtsIdSegment::parse(2, "x.core.ns.type.extra.v1~").unwrap_err();
    assert!(
        err.contains("Too many name tokens before version"),
        "got: {err}"
    );
}

#[test]
fn test_segment_version_without_v() {
    let err = GtsIdSegment::parse(1, "x.core.events.event.1~").unwrap_err();
    assert!(
        err.contains("Major version must start with 'v'"),
        "got: {err}"
    );
}

#[test]
fn test_segment_version_not_integer() {
    let err = GtsIdSegment::parse(1, "x.core.events.event.vX~").unwrap_err();
    assert!(
        err.contains("Major version must be an integer"),
        "got: {err}"
    );
}

#[test]
fn test_segment_version_leading_zeros() {
    let err = GtsIdSegment::parse(1, "x.core.events.event.v01~").unwrap_err();
    assert!(
        err.contains("Major version must be an integer"),
        "got: {err}"
    );
}

#[test]
fn test_segment_invalid_vendor_token() {
    let err = GtsIdSegment::parse(1, "1bad.core.events.event.v1~").unwrap_err();
    assert!(err.contains("Invalid vendor token"), "got: {err}");
}

#[test]
fn test_concrete_parse_rejects_wildcard() {
    // `GtsIdSegment` is concrete only: a `*` is just an invalid token here.
    let err = GtsIdSegment::parse(1, "x.*").unwrap_err();
    assert!(err.contains("Too few tokens"), "got: {err}");
}

// ---- expected_format (surfaced through segment parsing) ----

#[test]
fn test_segment1_format_has_gts_prefix() {
    let err = GtsIdSegment::parse(1, "x.core.events.event~").unwrap_err();
    let expected = format!(
        "{}vendor.package.namespace.type.vMAJOR",
        GTS_ID_PREFIX
    );
    assert!(
        err.contains(&expected),
        "segment #1 format should include configured prefix, got: {err}"
    );
}

#[test]
fn test_segment2_format_no_gts_prefix() {
    let err = GtsIdSegment::parse(2, "x.core.events.event~").unwrap_err();
    assert!(
        !err.contains(&format!("{}vendor", GTS_ID_PREFIX)),
        "segment #2 format should NOT include configured prefix, got: {err}"
    );
    assert!(
        err.contains("vendor.package.namespace.type.vMAJOR"),
        "segment #2 should show vendor.package format, got: {err}"
    );
}

// ---- pattern segments / wildcards ----

#[test]
fn test_wildcard_at_vendor() {
    let parsed = GtsIdPatternSegment::parse(1, "*").unwrap();
    assert!(parsed.is_wildcard());
}

#[test]
fn test_wildcard_at_package() {
    let parsed = GtsIdPatternSegment::parse(1, "x.*").unwrap();
    assert!(parsed.is_wildcard());
    assert_eq!(parsed.vendor(), "x");
}

#[test]
fn test_pattern_concrete_segment_is_not_wildcard() {
    let parsed = GtsIdPatternSegment::parse(1, "x.core.events.event.v1~").unwrap();
    assert!(!parsed.is_wildcard());
    assert_eq!(parsed.vendor(), "x");
    assert!(parsed.is_type());
}

#[test]
fn test_wildcard_invalid_token_before_star() {
    // Tokens before '*' must still be validated
    let err = GtsIdPatternSegment::parse(1, "1bad.*").unwrap_err();
    assert!(err.contains("Invalid vendor token"), "got: {err}");
}

#[test]
fn test_wildcard_in_middle_rejected() {
    // '*' in a non-final position must be rejected
    let err = GtsIdPatternSegment::parse(1, "x.*.ns.type.v1").unwrap_err();
    assert!(
        err.contains("only allowed as the final token"),
        "got: {err}"
    );
}

#[test]
fn test_wildcard_at_version_position_not_final() {
    // '*' at version position (4) with extra token after it must be rejected
    let err = GtsIdPatternSegment::parse(1, "x.pkg.ns.type.*.extra").unwrap_err();
    assert!(
        err.contains("only allowed as the final token"),
        "got: {err}"
    );
}

#[test]
fn test_glued_version_wildcard() {
    // `v*` is the one wildcard form glued to a token: the version marker `v`
    // plus `*` means "any version". It parses as a wildcard segment carrying
    // the vendor..type prefix and no version.
    let parsed = GtsIdPatternSegment::parse(1, "x.pkg.ns.type.v*").unwrap();
    assert!(parsed.is_wildcard());
    assert_eq!(parsed.vendor(), "x");
    assert_eq!(parsed.package(), "pkg");
    assert_eq!(parsed.namespace(), "ns");
    assert_eq!(parsed.type_token(), "type");
    assert_eq!(parsed.ver_major(), 0);
    assert_eq!(parsed.ver_minor(), None);
}

#[test]
fn test_glued_version_wildcard_only_v_star() {
    // Only the bare `v*` is the glued form. A partial major like `v1*` is
    // not a wildcard — it fails as a malformed version.
    let err = GtsIdPatternSegment::parse(1, "x.pkg.ns.type.v1*").unwrap_err();
    assert!(
        err.contains("Major version must be an integer"),
        "got: {err}"
    );
}

#[test]
fn test_glued_version_wildcard_rejected_at_minor() {
    // `v*` is only the major-version wildcard; at the minor position it is a
    // malformed minor, not a wildcard.
    let err = GtsIdPatternSegment::parse(1, "x.pkg.ns.type.v1.v*").unwrap_err();
    assert!(
        err.contains("Minor version must be an integer"),
        "got: {err}"
    );
}

#[test]
fn test_glued_version_wildcard_rejected_for_concrete() {
    // A concrete segment never accepts `v*` — wildcards need `allow_wildcards`.
    let err = GtsIdSegment::parse(1, "x.pkg.ns.type.v*").unwrap_err();
    assert!(
        err.contains("Major version must be an integer"),
        "got: {err}"
    );
}

// ---- UUID tail ----

#[test]
fn test_uuid_tail_segment_accessors() {
    const UUID_TAIL: &str = "7a1d2f34-5678-49ab-9012-abcdef123456";

    let seg = GtsIdSegment::uuid_tail_segment(UUID_TAIL);
    assert_eq!(seg.uuid_tail(), Some(UUID_TAIL));
    assert_eq!(seg.raw(), UUID_TAIL);
    assert!(!seg.is_type());
    assert_eq!(seg.vendor(), "");
    assert_eq!(seg.ver_major(), 0);
    assert_eq!(seg.ver_minor(), None);

    {
        let expected = uuid::Uuid::parse_str(UUID_TAIL).ok().map(|u| *u.as_bytes());
        assert_eq!(seg.uuid().map(|u| u.as_bytes()), expected);

        let GtsIdSegment::UuidTail(tail) = &seg else {
            panic!("expected uuid-tail segment");
        };
        assert_eq!(tail.uuid().map(|u| u.as_bytes()), expected);
    }
}

#[test]
fn test_concrete_and_wildcard_have_no_uuid_tail() {
    let concrete = GtsIdSegment::parse(1, "x.core.events.event.v1~").unwrap();
    assert_eq!(concrete.uuid_tail(), None);
    assert_eq!(concrete.uuid(), None);

    let wildcard = GtsIdPatternSegment::parse(1, "x.*").unwrap();
    assert_eq!(wildcard.uuid_tail(), None);
}

#[test]
fn test_segment_parts_accessors() {
    let concrete = GtsIdSegment::parse(1, "x.core.events.event.v1.2~").unwrap();
    let GtsIdSegment::Concrete(parts) = concrete else {
        panic!("expected concrete segment");
    };

    assert_eq!(parts.raw(), "x.core.events.event.v1.2~");
    assert_eq!(parts.vendor(), "x");
    assert_eq!(parts.package(), "core");
    assert_eq!(parts.namespace(), "events");
    assert_eq!(parts.type_token(), "event");
    assert_eq!(parts.ver_major(), 1);
    assert_eq!(parts.ver_minor(), Some(2));
    assert!(parts.is_type());
}

