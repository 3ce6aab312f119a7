use gts_id::{GtsId, GtsIdPattern, GTS_ID_PREFIX};

/// Prepend the configured prefix to a suffix, yielding a full GTS id string.
fn gts_id(suffix: &str) -> String {
    format!("{}{}", GTS_ID_PREFIX, suffix)
}

#[test]
fn test_gts_id_valid() {
    let id = GtsId::try_new(&gts_id("x.core.events.event.v1~")).expect("test");
    assert_eq!(id.id(), gts_id("x.core.events.event.v1~"));
    assert!(id.is_type());
    assert_eq!(id.segments().len(), 1);
}

#[test]
fn test_gts_id_with_minor_version() {
    let id = GtsId::try_new(&gts_id("x.core.events.event.v1.2~")).expect("test");
    assert_eq!(id.id(), gts_id("x.core.events.event.v1.2~"));
    assert!(id.is_type());
    let seg = &id.segments()[0];
    assert_eq!(seg.vendor(), "x");
    assert_eq!(seg.package(), "core");
    assert_eq!(seg.namespace(), "events");
    assert_eq!(seg.type_token(), "event");
    assert_eq!(seg.ver_major(), 1);
    assert_eq!(seg.ver_minor(), Some(2));
}

#[test]
fn test_gts_id_instance() {
    let id = GtsId::try_new(&gts_id("x.core.events.event.v1~a.b.c.d.v1.0")).expect("test");
    assert_eq!(id.id(), gts_id("x.core.events.event.v1~a.b.c.d.v1.0"));
    assert!(!id.is_type());
}

#[test]
fn test_gts_id_invalid_uppercase() {
    let result = GtsId::try_new(&gts_id("X.core.events.event.v1~"));
    assert!(result.is_err());
}

#[test]
fn test_gts_id_invalid_no_prefix() {
    let result = GtsId::try_new("x.core.events.event.v1~");
    assert!(result.is_err());
}

#[test]
fn test_gts_id_invalid_hyphen() {
    let result = GtsId::try_new(&gts_id("x-vendor.core.events.event.v1~"));
    assert!(result.is_err());
}

#[test]
fn test_get_type_id() {
    let id = GtsId::try_new(&gts_id("x.core.events.event.v1~")).expect("test");
    let type_id = id.get_type_id();
    assert!(type_id.is_none());

    let chained =
        GtsId::try_new(&gts_id("x.core.events.type.v1~vendor.app._.custom.v1~")).expect("test");
    let base_type = chained.get_type_id();
    assert!(base_type.is_some());
    assert_eq!(base_type.expect("test"), gts_id("x.core.events.type.v1~"));
}

#[test]
fn test_split_at_path() {
    let (gts, path) =
        GtsId::split_at_path(&gts_id("x.core.events.event.v1~@field.subfield")).expect("test");
    assert_eq!(gts, gts_id("x.core.events.event.v1~"));
    assert_eq!(path, Some("field.subfield".to_owned()));
}

#[test]
fn test_split_at_path_no_path() {
    let (gts, path) = GtsId::split_at_path(&gts_id("x.core.events.event.v1~")).expect("test");
    assert_eq!(gts, gts_id("x.core.events.event.v1~"));
    assert_eq!(path, None);
}

#[test]
fn test_split_at_path_empty_path_error() {
    let result = GtsId::split_at_path(&gts_id("x.core.events.event.v1~@"));
    assert!(result.is_err());
}

#[test]
fn gts_id_test_is_valid() {
    assert!(GtsId::is_valid(&gts_id("x.core.events.event.v1~")));
    assert!(!GtsId::is_valid("invalid"));
    assert!(!GtsId::is_valid(&gts_id("X.core.events.event.v1~")));
}

#[test]
fn test_chained_identifiers() {
    let id = GtsId::try_new(&gts_id(
        "x.core.events.type.v1~vendor.app._.custom_event.v1~",
    ))
    .expect("test");
    assert_eq!(id.segments().len(), 2);
    assert_eq!(id.segments()[0].vendor(), "x");
    assert_eq!(id.segments()[1].vendor(), "vendor");
}

#[test]
fn test_gts_id_with_underscore() {
    let id = GtsId::try_new(&gts_id("x.core._.event.v1~")).expect("test");
    assert_eq!(id.segments()[0].namespace(), "_");
}

#[test]
fn test_gts_id_invalid_version_format() {
    let result = GtsId::try_new(&gts_id("x.core.events.event.vX~"));
    assert!(result.is_err());
}

#[test]
fn test_gts_id_missing_segments() {
    let result = GtsId::try_new(&gts_id("x.core~"));
    assert!(result.is_err());
}

#[test]
fn test_gts_id_empty_segment() {
    let result = GtsId::try_new(&gts_id("x..events.event.v1~"));
    assert!(result.is_err());
}

#[test]
fn test_split_at_path_multiple_at_signs() {
    let (gts, path) =
        GtsId::split_at_path(&gts_id("x.core.events.event.v1~@field@subfield")).expect("test");
    assert_eq!(gts, gts_id("x.core.events.event.v1~"));
    assert_eq!(path, Some("field@subfield".to_owned()));
}

#[test]
fn test_gts_id_whitespace_trimming() {
    let id = GtsId::try_new(&format!("  {}  ", gts_id("x.core.events.event.v1~"))).expect("test");
    assert_eq!(id.id(), gts_id("x.core.events.event.v1~"));
}

#[test]
fn test_gts_id_long_chain() {
    let id = GtsId::try_new(&gts_id("a.b.c.d.v1~e.f.g.h.v2~i.j.k.l.v3~")).expect("test");
    assert_eq!(id.segments().len(), 3);
}

#[test]
fn test_gts_id_version_without_minor() {
    let id = GtsId::try_new(&gts_id("x.core.events.event.v1~")).expect("test");
    assert_eq!(id.segments()[0].ver_major(), 1);
    assert_eq!(id.segments()[0].ver_minor(), None);
}

#[test]
fn test_gts_id_version_with_large_numbers() {
    let id = GtsId::try_new(&gts_id("x.core.events.event.v99.999~")).expect("test");
    assert_eq!(id.segments()[0].ver_major(), 99);
    assert_eq!(id.segments()[0].ver_minor(), Some(999));
}

#[test]
fn test_gts_id_invalid_double_tilde() {
    let result = GtsId::try_new(&gts_id("x.core.events.event.v1~~"));
    assert!(result.is_err());
}

#[test]
fn test_split_at_path_with_hash() {
    let (gts, path) = GtsId::split_at_path(&gts_id("x.core.events.event.v1~#field")).expect("test");
    assert_eq!(gts, gts_id("x.core.events.event.v1~#field"));
    assert_eq!(path, None);
}

#[test]
fn test_gts_id_display_trait() {
    let id = GtsId::try_new(&gts_id("x.core.events.event.v1~")).expect("test");
    assert_eq!(id.to_string(), gts_id("x.core.events.event.v1~"));
}

#[test]
fn test_gts_id_from_str_trait() {
    let id: GtsId = gts_id("x.core.events.event.v1~").parse().expect("test");
    assert_eq!(id.id(), gts_id("x.core.events.event.v1~"));
}

#[test]
fn test_gts_id_as_ref_trait() {
    let id = GtsId::try_new(&gts_id("x.core.events.event.v1~")).expect("test");
    let s: &str = id.as_ref();
    assert_eq!(s, gts_id("x.core.events.event.v1~"));
}

#[test]
fn test_gts_id_new_with_uri_prefix() {
    assert!(GtsId::try_new("gts://x.core.v1~").is_err());
    assert!(GtsId::try_new("gts:x.core.v1~").is_err());
    assert!(!GtsId::is_valid("gts://x.core.v1~"));
}

#[test]
fn test_gts_id_minimum_segments() {
    assert!(GtsId::try_new(&gts_id("~")).is_err());
    assert!(GtsId::try_new(&gts_id("x~")).is_err());
    assert!(GtsId::try_new(&gts_id("x.pkg~")).is_err());
    assert!(GtsId::try_new(&gts_id("x.pkg.ns~")).is_err());

    assert!(GtsId::try_new(&gts_id("x.pkg.ns.type.v1~")).is_ok());
}

#[test]
fn test_gts_id_invalid_characters() {
    assert!(GtsId::try_new(&gts_id("x.core.events.event!.v1~")).is_err());
    assert!(GtsId::try_new(&gts_id("x.core.events.ev$ent.v1~")).is_err());
    assert!(GtsId::try_new(&gts_id("x.core.events.ev ent.v1~")).is_err());
}

#[test]
fn test_gts_id_uppercase_rejected() {
    assert!(GtsId::try_new(&gts_id("x.core.events.Test.v1~")).is_err());
    assert!(GtsId::try_new(&gts_id("X.core.events.test.v1~")).is_err());
}

#[test]
fn test_gts_id_hyphen_rejected() {
    assert!(GtsId::try_new(&gts_id("x.core.events.test-name.v1~")).is_err());
}

#[test]
fn test_gts_id_digit_start_segment() {
    assert!(GtsId::try_new(&gts_id("x.core.events.9test.v1~")).is_err());
}

#[test]
fn test_gts_id_with_numbers_midword() {
    assert!(GtsId::try_new(&gts_id("x.test2name.ns.type.v1~")).is_ok());
    assert!(GtsId::try_new(&gts_id("x.pkg.item3.type.v1~")).is_ok());
}

#[test]
fn test_split_at_path_valid_json_pointer() {
    let (gts, path) = GtsId::split_at_path(&gts_id("x.test.v1~@/properties/field")).expect("test");
    assert_eq!(gts, gts_id("x.test.v1~"));
    assert_eq!(path, Some("/properties/field".to_owned()));
}

#[test]
fn test_gts_id_segment_start_underscore() {
    assert!(GtsId::try_new(&gts_id("x.core.events._private.v1~")).is_ok());
}

#[test]
fn test_gts_id_multi_digit_versions() {
    assert!(GtsId::try_new(&gts_id("x.pkg.ns.event.v10~")).is_ok());
    assert!(GtsId::try_new(&gts_id("x.pkg.ns.event.v1.20~")).is_ok());
}

#[test]
fn test_gts_id_rejects_wildcards() {
    assert!(GtsId::try_new(&gts_id("x.core.*")).is_err());
    assert!(GtsId::try_new(&gts_id("x.core.events.topic.v1~*")).is_err());
    assert!(!GtsId::is_valid(&gts_id("x.core.*")));
    assert!(!GtsId::is_valid(&gts_id("x.core.events.topic.v1~*")));

    assert!(GtsIdPattern::try_new(&gts_id("x.core.*")).is_ok());
    assert!(GtsIdPattern::try_new(&gts_id("x.core.events.topic.v1~*")).is_ok());
}

#[test]
fn test_wildcard_must_be_terminal_and_not_a_type() {
    for pattern in [
        gts_id("x.core.*~"),
        gts_id("x.core.events.topic.v1.*~"),
        gts_id("x.*.events.topic.v1~"),
    ] {
        assert!(
            GtsIdPattern::try_new(&pattern).is_err(),
            "pattern must be rejected: {pattern}"
        );
    }
}

#[test]
fn test_get_type_id_multi_segment_chain() {
    let id = GtsId::try_new(&gts_id(
        "x.core.events.topic.v1~vendor.app.orders.thing.v1~acme.shop.checkout.item.v1.0",
    ))
    .expect("valid three-segment chain");

    let parent = id.get_type_id().expect("chain has a parent type id");
    assert_eq!(
        parent,
        gts_id("x.core.events.topic.v1~vendor.app.orders.thing.v1~")
    );
    assert!(!parent.contains("~~"), "parent id must not contain '~~'");

    let id = GtsId::try_new(&gts_id(
        "x.core.events.topic.v1~vendor.app.orders.thing.v1.0",
    ))
    .expect("valid two-segment chain");
    assert_eq!(
        id.get_type_id().expect("parent"),
        gts_id("x.core.events.topic.v1~")
    );

    let id = GtsId::try_new(&gts_id("x.core.events.topic.v1~")).expect("single type segment");
    assert_eq!(id.get_type_id(), None);
}

#[test]
fn test_to_pattern_roundtrip() {
    let id = GtsId::try_new(&gts_id("x.core.events.event.v1~")).expect("test");
    let pattern = id.to_pattern();
    assert_eq!(pattern.pattern(), id.id());
    assert!(id.matches_pattern(&pattern));
}

#[test]
fn test_to_pattern_instance_id() {
    let id = GtsId::try_new(&gts_id("x.core.events.event.v1~a.b.c.d.v1.0")).expect("test");
    let pattern = id.to_pattern();
    assert_eq!(pattern.pattern(), id.id());
    assert_eq!(pattern.segments().len(), id.segments().len());
    assert!(id.matches_pattern(&pattern));
}

#[test]
fn test_uuid_generation() {
    let id = GtsId::try_new(&gts_id("x.core.events.event.v1~")).expect("test");
    let uuid1 = id.to_uuid();
    let uuid2 = id.to_uuid();
    assert_eq!(uuid1, uuid2);
    assert_eq!(uuid1.to_string(), "154302ad-df5c-56e6-97d4-f87c5faca44b");
}

#[test]
fn test_uuid_different_ids() {
    let id1 = GtsId::try_new(&gts_id("x.core.events.event.v1~")).expect("test");
    let id2 = GtsId::try_new(&gts_id("x.core.events.event.v2~")).expect("test");
    assert_ne!(id1.to_uuid(), id2.to_uuid());
}

#[test]
fn test_to_uuid_returns_uuid_tail() {
    const UUID_TAIL: &str = "7a1d2f34-5678-49ab-9012-abcdef123456";
    let id = GtsId::try_new(&gts_id(&format!("x.core.events.event.v1~{UUID_TAIL}"))).expect("test");
    assert_eq!(
        id.to_uuid().as_bytes(),
        *uuid::Uuid::parse_str(UUID_TAIL).expect("uuid").as_bytes()
    );
}

#[test]
fn test_to_uuid_returns_uuid_tail_after_chained_type() {
    const UUID_TAIL: &str = "446ef7e5-1a27-4abf-a7c4-f336505c7aa0";
    let id = GtsId::try_new(&gts_id(&format!(
        "x.core.events.event.v1~acme.orders.events.order.v1~{UUID_TAIL}"
    )))
    .expect("test");
    assert_eq!(
        id.to_uuid().as_bytes(),
        *uuid::Uuid::parse_str(UUID_TAIL).expect("uuid").as_bytes()
    );
}
