//! The identifier prefix that every GTS identifier starts with.

use vstd::prelude::*;

verus! {

/// The default identifier prefix for all GTS identifiers.
pub const DEFAULT_GTS_ID_PREFIX: &'static str = "gts.";

/// Environment variable through which a build may choose another prefix.
pub const GTS_ID_PREFIX_ENV: &'static str = "GTS_ID_PREFIX";

/// The configured prefix for all GTS identifiers.
pub const GTS_ID_PREFIX: &'static str = "gts.";

/// The prefix, as characters.
pub open spec fn gts_prefix() -> Seq<char> {
    seq!['g', 't', 's', '.']
}

pub proof fn lemma_prefix_chars()
    ensures
        GTS_ID_PREFIX@ == gts_prefix(),
        DEFAULT_GTS_ID_PREFIX@ == gts_prefix(),
        GTS_ID_PREFIX@.len() == 4,
{
    reveal_strlit("gts.");
    assert(GTS_ID_PREFIX@ =~= gts_prefix());
}

pub open spec fn is_prefix_token_char(c: char) -> bool {
    ('a' <= c && c <= 'z') || ('0' <= c && c <= '9') || c == '_'
}

/// A valid prefix is one lowercase ASCII letter, then lowercase letters,
/// digits or underscores, then a single final `.`.
pub open spec fn is_valid_prefix(p: Seq<char>) -> bool {
    &&& p.len() >= 2
    &&& p.last() == '.'
    &&& 'a' <= p[0] && p[0] <= 'z'
    &&& forall|i: int| 1 <= i < p.len() - 1 ==> is_prefix_token_char(#[trigger] p[i])
}

/// Checks a candidate identifier prefix.
pub fn is_valid_gts_id_prefix(prefix: &str) -> (r: bool)
    ensures
        r == is_valid_prefix(prefix@),
{
    let cs = crate::text::chars_of(prefix);
    let n = cs.len();
    if n < 2 || cs[n - 1] != '.' {
        return false;
    }
    if !('a' <= cs[0] && cs[0] <= 'z') {
        return false;
    }
    let mut i: usize = 1;
    while i < n - 1
        invariant
            2 <= n == cs@.len(),
            cs@ == prefix@,
            1 <= i <= n - 1,
            forall|k: int| 1 <= k < i ==> is_prefix_token_char(#[trigger] cs@[k]),
        decreases n - i,
    {
        let c = cs[i];
        if !(('a' <= c && c <= 'z') || ('0' <= c && c <= '9') || c == '_') {
            assert(!is_prefix_token_char(cs@[i as int]));
            return false;
        }
        i = i + 1;
    }
    true
}

/// Validates a configured identifier prefix, handing it back unchanged.
///
/// Only valid prefixes (see [`is_valid_prefix`]) are accepted.
pub fn validate_gts_id_prefix(prefix: &str) -> (r: &str)
    requires
        is_valid_prefix(prefix@),
    ensures
        r == prefix,
{
    prefix
}

/// The configured prefix is itself a valid prefix.
pub proof fn lemma_configured_prefix_is_valid()
    ensures
        is_valid_prefix(GTS_ID_PREFIX@),
{
    lemma_prefix_chars();
}

} // verus!
