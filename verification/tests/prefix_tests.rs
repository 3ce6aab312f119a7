use gts_id::prefix::{is_valid_gts_id_prefix, validate_gts_id_prefix};
use gts_id::{DEFAULT_GTS_ID_PREFIX, GTS_ID_PREFIX};

#[test]
fn test_valid_prefixes() {
    assert_eq!(validate_gts_id_prefix("gts."), "gts.");
    assert_eq!(validate_gts_id_prefix("a."), "a.");
    assert_eq!(validate_gts_id_prefix("acme."), "acme.");
    assert_eq!(validate_gts_id_prefix("a1."), "a1.");
    assert_eq!(validate_gts_id_prefix("a_b."), "a_b.");
    assert_eq!(validate_gts_id_prefix("abc123_."), "abc123_.");
}

#[test]
fn test_default_prefix_is_in_effect() {
    assert_eq!(GTS_ID_PREFIX, DEFAULT_GTS_ID_PREFIX);
    assert_eq!(GTS_ID_PREFIX, "gts.");
}

#[test]
fn test_invalid_prefixes_are_not_valid() {
    let invalid = ["", "acme", "Acme.", "acme-prod.", "my.org.", ".", "1bad.", "_."];
    for prefix in invalid {
        assert!(
            !is_valid_gts_id_prefix(prefix),
            "prefix {prefix:?} should be rejected but was accepted"
        );
    }
    for prefix in ["gts.", "a.", "acme.", "a1.", "a_b.", "abc123_."] {
        assert!(is_valid_gts_id_prefix(prefix), "prefix {prefix:?} should be accepted");
    }
}
