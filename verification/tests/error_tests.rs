use gts_id::error::expected_format;
use gts_id::parse::{parse_id, parse_pattern, structure_check};
use gts_id::{GtsId, GtsIdError, GtsIdSegment, GTS_ID_PREFIX};

fn gts_id(suffix: &str) -> String {
    format!("{}{}", GTS_ID_PREFIX, suffix)
}

fn id_error(text: &str) -> GtsIdError {
    parse_id(text).unwrap_err()
}

#[test]
fn id_level_error_messages() {
    assert_eq!(id_error("x.a.b.c.v1~").cause, "must start with 'gts.'");
    assert_eq!(id_error(&gts_id("A.b.c.d.v1~")).cause, "must be lowercase");
    assert_eq!(id_error(&gts_id("a-b.c.d.e.v1~")).cause, "must not contain '-'");
    assert_eq!(
        id_error(&gts_id("~a.b.c.d.v1~")).cause,
        "empty segment at tilde-part #1"
    );
    assert_eq!(id_error(&gts_id("")).cause, "no segments found");
    assert_eq!(
        id_error(&gts_id("a.b.c.d.v1")).cause,
        "Single-segment instance IDs are prohibited. Instance IDs must be chained with at least one type segment (e.g., 'type~instance')"
    );
    assert_eq!(
        parse_pattern(&gts_id("a.*.*")).unwrap_err().cause,
        "The wildcard '*' token is allowed only once"
    );
    assert_eq!(
        parse_pattern(&gts_id("a.*~")).unwrap_err().cause,
        "The wildcard '*' token is allowed only at the end of the pattern"
    );
}

#[test]
fn too_long_error_reports_the_byte_length() {
    let long = gts_id(&"a".repeat(1100));
    let err = id_error(&long);
    assert_eq!(err.cause, "too long (1104 chars, max 1024)");
    assert!(err.segment.is_none());
}

#[test]
fn segment_error_carries_number_offset_and_text() {
    let text = gts_id("x.core.events.event.v1~a.b.c.d.vx");
    let err = id_error(&text);
    let seg = err.segment.clone().expect("segment error");
    assert_eq!(seg.num, 2);
    assert_eq!(seg.offset, 4 + "x.core.events.event.v1~".len());
    assert_eq!(seg.segment, "a.b.c.d.vx");
    assert_eq!(err.cause, "Major version must be an integer, got 'x'");
    assert_eq!(
        err.to_string(),
        format!(
            "Invalid GTS ID '{}': segment #2 at byte 27 ('a.b.c.d.vx'): Major version must be an integer, got 'x'",
            text
        )
    );
}

#[test]
fn id_level_error_rendering() {
    let err = id_error("nope");
    assert_eq!(err.to_string(), "Invalid GTS ID 'nope': must start with 'gts.'");
    assert_eq!(err.id, "nope");
}

#[test]
fn segment_fault_messages() {
    assert_eq!(
        GtsIdSegment::parse(3, "a.b.c.d.v1.2.3").unwrap_err(),
        "Too many tokens (got 7, max 6). Expected format: vendor.package.namespace.type.vMAJOR[.MINOR]"
    );
    assert_eq!(
        GtsIdSegment::parse(1, "a.b").unwrap_err(),
        "Too few tokens (got 2, min 5). Expected format: gts.vendor.package.namespace.type.vMAJOR[.MINOR]"
    );
    assert_eq!(
        GtsIdSegment::parse(1, "a.b.c.D.v1").unwrap_err(),
        "Invalid type token 'D'. Must start with [a-z_] and contain only [a-z0-9_]"
    );
    assert_eq!(
        GtsIdSegment::parse(1, "a.b.c.d.v1.x").unwrap_err(),
        "Minor version must be an integer, got 'x'"
    );
    assert_eq!(
        GtsIdSegment::parse(1, "a.b.c.d.1").unwrap_err(),
        "Major version must start with 'v'"
    );
}

#[test]
fn expected_format_depends_on_segment_number() {
    assert_eq!(expected_format(1), "gts.vendor.package.namespace.type.vMAJOR[.MINOR]");
    assert_eq!(expected_format(2), "vendor.package.namespace.type.vMAJOR[.MINOR]");
}

#[test]
fn attribute_path_error() {
    let err = GtsId::split_at_path("gts.a.b.c.d.v1~@").unwrap_err();
    assert_eq!(err.cause, "Attribute path cannot be empty");
    assert_eq!(err.id, "gts.a.b.c.d.v1~@");
}

#[test]
fn uuid_tail_segment_uuid_is_parsed() {
    let seg = GtsIdSegment::uuid_tail_segment("7a1d2f34-5678-49ab-9012-abcdef123456");
    let u = seg.uuid().expect("uuid");
    assert_eq!(u.to_string(), "7a1d2f34-5678-49ab-9012-abcdef123456");
    assert_eq!(u.as_bytes()[0], 0x7a);
}

#[test]
fn structure_check_given_lowercase_mapping() {
    let id = gts_id("a.b.c.d.v1~");
    assert!(structure_check(&id, &id, false).is_ok());
    let err = structure_check(&id, "something else", false).unwrap_err();
    assert_eq!(err.cause, "must be lowercase");
    assert_eq!(err.id, id);
    let err = structure_check("x.a.b.c.v1~", "x.a.b.c.v1~", false).unwrap_err();
    assert_eq!(err.cause, "must start with 'gts.'");
    let star = gts_id("a.*.c");
    let err = structure_check(&star, &star, true).unwrap_err();
    assert_eq!(err.cause, "The wildcard '*' token is allowed only at the end of the pattern");
}

#[test]
fn non_ascii_uppercase_is_not_lowercase() {
    assert_eq!(id_error(&gts_id("\u{c9}.b.c.d.v1~")).cause, "must be lowercase");
}
