use gts_id::GtsOps;

#[test]
fn test_validate_id_valid() {
    let result =
        GtsOps::validate_id("gts.vendor.package.namespace.type.v1.0~abc.app.custom.event.v1.0");
    assert!(result.valid);
    assert_eq!(
        result.id,
        "gts.vendor.package.namespace.type.v1.0~abc.app.custom.event.v1.0"
    );
}

#[test]
fn test_validate_id_invalid() {
    let result = GtsOps::validate_id("invalid-id");
    assert!(!result.valid);
}

#[test]
fn test_validate_id_schema() {
    let result = GtsOps::validate_id("gts.vendor.package.namespace.type.v1.0~");
    assert!(result.valid);
}

#[test]
fn test_parse_id_valid() {
    let result =
        GtsOps::parse_id("gts.vendor.package.namespace.type.v1.0~abc.app.custom.event.v1.0");
    assert!(!result.segments.is_empty());
    assert_eq!(
        result.id,
        "gts.vendor.package.namespace.type.v1.0~abc.app.custom.event.v1.0"
    );
}

#[test]
fn test_parse_id_invalid() {
    let result = GtsOps::parse_id("invalid");
    assert!(result.segments.is_empty());
    assert!(!result.error.is_empty());
}

#[test]
fn test_parse_id_version_zero() {
    let result = GtsOps::parse_id("gts.x.pkg.ns.type.v0~");
    assert!(result.ok);
    assert_eq!(result.segments.len(), 1);
    assert_eq!(result.segments[0].ver_major, Some(0));
    assert_eq!(result.segments[0].ver_minor, None);
}

#[test]
fn test_gts_ops_uuid() {
    let result =
        GtsOps::uuid("gts.vendor.package.namespace.type.v1.0~abc.app.custom.event.v1.0");
    assert!(!result.uuid.is_empty());
}

#[test]
fn test_gts_ops_match_id_pattern_valid() {
    let result = GtsOps::match_id_pattern(
        "gts.vendor.package.namespace.type.v1.0~abc.app.custom.event.v1.0",
        "gts.vendor.*",
    );
    assert!(result.is_match);
}

#[test]
fn test_gts_ops_match_id_pattern_wildcard_candidate_directionality() {
    let broad_candidate = GtsOps::match_id_pattern("gts.vendor.*", "gts.vendor.package.*");
    assert!(
        !broad_candidate.is_match,
        "A broader candidate pattern must not match a narrower pattern"
    );

    let narrow_candidate = GtsOps::match_id_pattern("gts.vendor.package.*", "gts.vendor.*");
    assert!(
        narrow_candidate.is_match,
        "A narrower candidate pattern should match a broader pattern"
    );

    let disjoint_candidate = GtsOps::match_id_pattern("gts.vendor.package.*", "gts.other.*");
    assert!(!disjoint_candidate.is_match);
}

#[test]
fn test_gts_ops_match_id_pattern_invalid() {
    let result = GtsOps::match_id_pattern(
        "gts.vendor.package.namespace.type.v1.0~abc.app.custom.event.v1.0",
        "gts.other.*",
    );
    assert!(!result.is_match);
}

#[test]
fn test_gts_ops_match_id_pattern_invalid_candidate() {
    let result = GtsOps::match_id_pattern("invalid", "gts.vendor.*");
    assert!(!result.is_match);
    assert!(!result.error.is_empty());
}

#[test]
fn test_gts_ops_match_id_pattern_invalid_pattern() {
    let result = GtsOps::match_id_pattern("gts.vendor.package.namespace.type.v1.0", "invalid");
    assert!(!result.is_match);
    assert!(!result.error.is_empty());
}

#[test]
fn test_validate_id_with_wildcard_valid() {
    // Test wildcard validation for valid patterns
    let result = GtsOps::validate_id("gts.vendor.package.namespace.*");
    assert!(result.valid, "Wildcard at end should be valid");
    assert!(result.is_wildcard);
    assert_eq!(result.is_type, Some(false));
}

#[test]
fn test_validate_id_with_wildcard_schema() {
    // Test wildcard validation for pattern matching instances of a schema
    // Note: gts.vendor.package.namespace.type.v1~* matches instances, not schemas
    let result = GtsOps::validate_id("gts.vendor.package.namespace.type.v1~*");
    assert!(result.valid, "Wildcard at end of schema should be valid");
    assert!(result.is_wildcard);
    assert_eq!(
        result.is_type,
        Some(false),
        "Pattern matches instances, not schemas"
    );
}

#[test]
fn test_validate_id_with_wildcard_invalid() {
    // Test wildcard validation for invalid patterns (multiple wildcards)
    let result = GtsOps::validate_id("gts.*.vendor.*.package");
    assert!(!result.valid, "Multiple wildcards should be invalid");
    assert!(result.is_wildcard);
    assert!(
        result.error.contains("Unable to validate GTS ID"),
        "Error should mention validation failure"
    );
}

#[test]
fn test_validate_id_with_wildcard_middle() {
    // Test wildcard validation for invalid pattern (wildcard in middle)
    let result = GtsOps::validate_id("gts.vendor.*.package.type.v1");
    assert!(!result.valid, "Wildcard in middle should be invalid");
    assert!(result.is_wildcard);
}

#[test]
fn test_parse_id_with_wildcard_valid() {
    // Test parse_id with valid wildcard pattern
    let result = GtsOps::parse_id("gts.vendor.package.namespace.*");
    assert!(result.ok, "Parsing valid wildcard should succeed");
    assert!(result.is_wildcard);
    assert_eq!(result.segments.len(), 1);
    assert_eq!(result.segments[0].vendor, "vendor");
    assert_eq!(result.segments[0].package, "package");
    assert_eq!(result.segments[0].namespace, "namespace");
    assert_eq!(result.segments[0].type_token, "");
    assert_eq!(result.segments[0].ver_major, None);
    assert_eq!(result.segments[0].ver_minor, None);
    assert!(!result.segments[0].is_type);
    assert_eq!(result.is_type, Some(false));
}

#[test]
fn test_parse_id_with_version_wildcard_shape() {
    let result = GtsOps::parse_id("gts.vendor.package.namespace.type.v*");
    assert!(result.ok, "Parsing valid version wildcard should succeed");
    assert!(result.is_wildcard);
    assert_eq!(result.segments.len(), 1);
    assert_eq!(result.segments[0].vendor, "vendor");
    assert_eq!(result.segments[0].package, "package");
    assert_eq!(result.segments[0].namespace, "namespace");
    assert_eq!(result.segments[0].type_token, "type");
    assert_eq!(result.segments[0].ver_major, None);
    assert_eq!(result.segments[0].ver_minor, None);
    assert!(!result.segments[0].is_type);
    assert_eq!(result.is_type, Some(false));
}

#[test]
fn test_parse_id_with_wildcard_schema() {
    // Test parse_id with wildcard pattern matching instances of a schema
    // Note: gts.vendor.package.namespace.type.v1~* matches instances, not schemas
    let result = GtsOps::parse_id("gts.vendor.package.namespace.type.v1~*");
    assert!(result.ok, "Parsing valid wildcard should succeed");
    assert!(result.is_wildcard);
    assert_eq!(result.segments.len(), 2);
    assert_eq!(result.segments[0].vendor, "vendor");
    assert_eq!(result.segments[0].package, "package");
    assert_eq!(result.segments[0].namespace, "namespace");
    assert_eq!(result.segments[0].type_token, "type");
    assert_eq!(result.segments[0].ver_major, Some(1));
    assert_eq!(result.segments[0].ver_minor, None);
    assert!(result.segments[0].is_type);
    assert_eq!(result.segments[1].vendor, "");
    assert_eq!(result.segments[1].package, "");
    assert_eq!(result.segments[1].namespace, "");
    assert_eq!(result.segments[1].type_token, "");
    assert_eq!(result.segments[1].ver_major, None);
    assert_eq!(result.segments[1].ver_minor, None);
    assert!(!result.segments[1].is_type);
    assert_eq!(
        result.is_type,
        Some(false),
        "Pattern matches instances, not schemas"
    );
}

#[test]
fn test_parse_id_with_wildcard_invalid() {
    // Test parse_id with invalid wildcard pattern
    let result = GtsOps::parse_id("gts.*.vendor.*.package");
    assert!(!result.ok, "Parsing invalid wildcard should fail");
    assert!(result.is_wildcard);
    assert!(
        result.segments.is_empty(),
        "Should have no segments on error"
    );
    assert!(!result.error.is_empty(), "Should have error message");
}
