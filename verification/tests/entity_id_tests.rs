use gts_id::{GtsInstanceId, GtsTypeId};

#[test]
fn test_type_id_try_new_accepts_type_rejects_instance() {
    let id = GtsTypeId::try_new("gts.x.core.events.event.v1~").expect("test");
    assert_eq!(id.as_ref(), "gts.x.core.events.event.v1~");

    let err = GtsTypeId::try_new("gts.x.core.events.event.v1~a.b.c.d.v1.0")
        .expect_err("must reject instance id");
    assert!(err.to_string().contains("must end with '~'"));

    assert!(GtsTypeId::try_new("not a valid cti~").is_err());
}

#[test]
fn test_instance_id_try_new_accepts_instance_rejects_type() {
    let id = GtsInstanceId::try_new("gts.x.core.events.event.v1~a.b.c.d.v1.0").expect("test");
    assert_eq!(id.as_ref(), "gts.x.core.events.event.v1~a.b.c.d.v1.0");

    let err =
        GtsInstanceId::try_new("gts.x.core.events.event.v1~").expect_err("must reject type id");
    assert!(err.to_string().contains("must not end with '~'"));

    assert!(GtsInstanceId::try_new("not a valid cti").is_err());
}

#[test]
fn instance_id_new_concatenates_without_validation() {
    let id = GtsInstanceId::new("gts.x.core.events.topic.v1~", "vendor.app.orders.v1.0");
    assert_eq!(id.as_ref(), "gts.x.core.events.topic.v1~vendor.app.orders.v1.0");
    assert!(id.eq_str("gts.x.core.events.topic.v1~vendor.app.orders.v1.0"));
    let s: String = id.into();
    assert_eq!(s, "gts.x.core.events.topic.v1~vendor.app.orders.v1.0");
}

#[test]
fn type_id_new_keeps_text() {
    let id = GtsTypeId::new("gts.x.core.events.topic.v1~vendor.app.orders.v1.0~");
    assert_eq!(id.as_ref(), "gts.x.core.events.topic.v1~vendor.app.orders.v1.0~");
    assert_eq!(id.clone().into_string(), id.to_string());
}

#[test]
fn typed_ids_are_trimmed_and_single_segment_instance_rejected() {
    let id = GtsTypeId::try_new("  gts.x.core.events.event.v1~ ").expect("trimmed");
    assert_eq!(id.as_ref(), "gts.x.core.events.event.v1~");
    // A bare single-segment id is not a chained instance id.
    assert!(GtsInstanceId::try_new("gts.x.core.events.event.v1").is_err());
}
