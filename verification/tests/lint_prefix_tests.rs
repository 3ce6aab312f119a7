use gts_id::lint_prefixes::{configured_prefixes, is_flagged_literal, str_starts_with};

#[test]
fn default_prefix_when_unset_or_blank() {
    assert_eq!(configured_prefixes(None), vec!["gts.".to_owned()]);
    assert_eq!(configured_prefixes(Some("")), vec!["gts.".to_owned()]);
    assert_eq!(configured_prefixes(Some("   ")), vec!["gts.".to_owned()]);
}

#[test]
fn comma_separated_prefixes_are_trimmed_and_empty_ones_dropped() {
    assert_eq!(
        configured_prefixes(Some("gts., acme.,,  x. ")),
        vec!["gts.".to_owned(), "acme.".to_owned(), "x.".to_owned()]
    );
    assert_eq!(configured_prefixes(Some(" , acme.")), vec!["acme.".to_owned()]);
}

#[test]
fn literals_starting_with_a_prefix_are_flagged() {
    let prefixes = vec!["gts.".to_owned(), "acme.".to_owned()];
    assert!(is_flagged_literal("gts.x.core.events.topic.v1~", &prefixes));
    assert!(is_flagged_literal("acme.a.b.c.d.v1~", &prefixes));
    assert!(!is_flagged_literal("gts", &prefixes));
    assert!(!is_flagged_literal("hello gts.", &prefixes));
    assert!(!is_flagged_literal("gts.x", &[]));
    assert!(str_starts_with("abc", ""));
    assert!(!str_starts_with("ab", "abc"));
}
