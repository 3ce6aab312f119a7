//! The decisions of the lint that flags hard-coded identifier prefixes in
//! string literals: which prefixes a setting selects, and whether a literal
//! starts with one of them.

use vstd::prelude::*;
use vstd::string::*;

use crate::text::{chars_of, split_char, split_ranges, substring, trim, trimmed};

verus! {

broadcast use vstd::string::group_string_axioms;

/// The prefix flagged when no setting selects others.
pub open spec fn default_lint_prefix() -> Seq<char> {
    seq!['g', 't', 's', '.']
}

/// The trimmed pieces of `pieces`, empty ones left out.
pub open spec fn nonempty_trimmed(pieces: Seq<Seq<char>>) -> Seq<Seq<char>>
    decreases pieces.len(),
{
    if pieces.len() == 0 {
        Seq::<Seq<char>>::empty()
    } else {
        let rest = nonempty_trimmed(pieces.drop_last());
        let t = trim(pieces.last());
        if t.len() == 0 {
            rest
        } else {
            rest.push(t)
        }
    }
}

/// The prefixes that a setting selects: its comma-separated entries,
/// trimmed, empty ones left out; the default prefix when the setting is
/// absent or blank.
pub open spec fn setting_prefixes(setting: Option<Seq<char>>) -> Seq<Seq<char>> {
    match setting {
        Some(v) => if trim(v).len() > 0 {
            nonempty_trimmed(split_char(v, ','))
        } else {
            seq![default_lint_prefix()]
        },
        None => seq![default_lint_prefix()],
    }
}

/// Whether `p` is a prefix of `s`.
pub open spec fn starts_with(s: Seq<char>, p: Seq<char>) -> bool {
    p.len() <= s.len() && s.take(p.len() as int) == p
}

/// The default prefix, alone.
fn default_prefixes() -> (d: Vec<String>)
    ensures
        d@.map_values(|s: String| s@) == seq![default_lint_prefix()],
{
    let mut d: Vec<String> = Vec::new();
    let p = String::from_str("gts.");
    proof {
        reveal_strlit("gts.");
        assert(p@ =~= default_lint_prefix());
    }
    d.push(p);
    assert(d@.map_values(|s: String| s@) =~= seq![default_lint_prefix()]);
    d
}

/// The prefixes to flag for a setting (the value of the variable that
/// configures the lint, `None` when it is not set).
pub fn configured_prefixes(setting: Option<&str>) -> (r: Vec<String>)
    ensures
        r@.map_values(|s: String| s@) == setting_prefixes(
            match setting {
                Some(v) => Some(v@),
                None => None,
            },
        ),
{
    match setting {
        None => default_prefixes(),
        Some(v) => {
            let whole = trimmed(v);
            if whole.as_str().unicode_len() == 0 {
                return default_prefixes();
            }
            let cs = chars_of(v);
            assert(cs@.subrange(0, cs@.len() as int) =~= v@);
            let ranges = split_ranges(&cs, 0, cs.len(), ',');
            let ghost pieces = split_char(v@, ',');
            let mut out: Vec<String> = Vec::new();
            let mut k: usize = 0;
            while k < ranges.len()
                invariant
                    k <= ranges@.len() == pieces.len(),
                    pieces == split_char(cs@.subrange(0, cs@.len() as int), ','),
                    cs@ == v@,
                    forall|j: int|
                        0 <= j < ranges@.len() ==> {
                            &&& #[trigger] ranges@[j].0 <= ranges@[j].1 <= cs@.len()
                            &&& cs@.subrange(ranges@[j].0 as int, ranges@[j].1 as int) == pieces[j]
                        },
                    out@.map_values(|s: String| s@) == nonempty_trimmed(pieces.take(k as int)),
                decreases ranges.len() - k,
            {
                let (a, b) = ranges[k];
                let piece = substring(v, a, b);
                let t = trimmed(piece.as_str());
                let ghost before = out@;
                proof {
                    assert(pieces.take(k + 1).drop_last() =~= pieces.take(k as int));
                    assert(pieces.take(k + 1).last() == pieces[k as int]);
                }
                if t.as_str().unicode_len() > 0 {
                    out.push(t);
                    assert(out@.map_values(|s: String| s@) =~= before.map_values(|s: String| s@).push(
                        trim(pieces[k as int]),
                    ));
                }
                k = k + 1;
            }
            assert(pieces.take(pieces.len() as int) =~= pieces);
            out
        },
    }
}

/// Whether `s` starts with `p`.
pub fn str_starts_with(s: &str, p: &str) -> (r: bool)
    ensures
        r == starts_with(s@, p@),
{
    let sc = chars_of(s);
    let pc = chars_of(p);
    if pc.len() > sc.len() {
        return false;
    }
    let mut i: usize = 0;
    while i < pc.len()
        invariant
            i <= pc@.len() <= sc@.len(),
            sc@ == s@,
            pc@ == p@,
            forall|j: int| 0 <= j < i ==> sc@[j] == pc@[j],
        decreases pc.len() - i,
    {
        if sc[i] != pc[i] {
            assert(s@.take(p@.len() as int)[i as int] != p@[i as int]);
            return false;
        }
        i = i + 1;
    }
    assert(s@.take(p@.len() as int) =~= p@);
    true
}

/// Whether a string literal starts with one of the flagged prefixes.
pub fn is_flagged_literal(literal: &str, prefixes: &[String]) -> (r: bool)
    ensures
        r == exists|k: int| 0 <= k < prefixes@.len() && starts_with(literal@, #[trigger] prefixes@[k]@),
{
    let mut k: usize = 0;
    while k < prefixes.len()
        invariant
            k <= prefixes@.len(),
            forall|j: int| 0 <= j < k ==> !starts_with(literal@, #[trigger] prefixes@[j]@),
        decreases prefixes.len() - k,
    {
        if str_starts_with(literal, prefixes[k].as_str()) {
            return true;
        }
        k = k + 1;
    }
    false
}

} // verus!
