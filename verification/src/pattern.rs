//! GTS identifier match patterns.
//!
//! A [`GtsIdPattern`] is a validated GTS identifier that may end in a single
//! trailing `*` wildcard token, but may also be fully concrete. A pattern
//! without wildcard is not an exact match: a base type id used as a pattern
//! also matches everything derived from it down the chain, with
//! minor-version flexibility. Matching is decided segment by segment.

use vstd::prelude::*;
use vstd::string::*;

use crate::error::{fault_error, GtsIdError};
use crate::parse::{duplicate_pattern_segments, parse_pattern, pattern_views, spec_parse_pattern};
use crate::segment::{pattern_fields, GtsIdPatternSegment, PatternSegmentModel, SegmentFields, SegmentView};
use crate::text::{str_eq, str_is_empty, trim, trimmed};

verus! {

broadcast use vstd::string::group_string_axioms;

/// A wildcard segment accepts a candidate segment when every field it
/// specifies (a non-empty name, a non-zero major, a minor) agrees.
pub open spec fn wildcard_accepts(p: SegmentFields, c: SegmentFields) -> bool {
    &&& (p.vendor.len() == 0 || p.vendor == c.vendor)
    &&& (p.package.len() == 0 || p.package == c.package)
    &&& (p.namespace.len() == 0 || p.namespace == c.namespace)
    &&& (p.type_token.len() == 0 || p.type_token == c.type_token)
    &&& (p.ver_major == 0 || p.ver_major == c.ver_major)
    &&& (p.ver_minor is None || p.ver_minor == c.ver_minor)
}

/// A non-wildcard segment accepts a candidate segment when its UUID tail
/// (if any), names, major version and type marker agree, and its minor
/// version, when it has one, agrees too.
pub open spec fn segment_accepts(p: SegmentFields, c: SegmentFields) -> bool {
    &&& (p.uuid_tail is None || p.uuid_tail == c.uuid_tail)
    &&& p.vendor == c.vendor
    &&& p.package == c.package
    &&& p.namespace == c.namespace
    &&& p.type_token == c.type_token
    &&& p.ver_major == c.ver_major
    &&& (p.ver_minor is None || p.ver_minor == c.ver_minor)
    &&& p.is_type == c.is_type
}

/// Pattern segments `i..` accept the candidate segments at the same
/// positions; a wildcard segment accepts everything after it.
pub open spec fn matches_from(ps: Seq<PatternSegmentModel>, cs: Seq<SegmentFields>, i: nat) -> bool
    decreases ps.len() - i,
{
    if i >= ps.len() {
        true
    } else if ps[i as int] is Wildcard {
        wildcard_accepts(pattern_fields(ps[i as int]), cs[i as int])
    } else {
        segment_accepts(pattern_fields(ps[i as int]), cs[i as int]) && matches_from(ps, cs, i + 1)
    }
}

/// Whether the pattern segments `ps` match the candidate segments `cs`: the
/// pattern is no longer than the candidate and accepts it position by
/// position.
pub open spec fn spec_matches(ps: Seq<PatternSegmentModel>, cs: Seq<SegmentFields>) -> bool {
    ps.len() <= cs.len() && matches_from(ps, cs, 0)
}

/// The fields of a sequence of pattern segments, read as candidates.
pub open spec fn pattern_candidates(ps: Seq<PatternSegmentModel>) -> Seq<SegmentFields> {
    ps.map_values(|p: PatternSegmentModel| pattern_fields(p))
}

/// The fields of a sequence of candidate segments of any kind.
pub open spec fn view_fields<C: SegmentView>(cs: Seq<C>) -> Seq<SegmentFields> {
    cs.map_values(|c: C| c.fields())
}

/// The model of a pattern: its text and its segments.
pub struct GtsIdPatternModel {
    pub pattern: Seq<char>,
    pub segments: Seq<PatternSegmentModel>,
}

/// A GTS identifier match pattern (exact or trailing-`*` wildcard).
#[derive(Debug, PartialEq)]
pub struct GtsIdPattern {
    pattern: String,
    segments: Vec<GtsIdPatternSegment>,
}

impl View for GtsIdPattern {
    type V = GtsIdPatternModel;

    closed spec fn view(&self) -> GtsIdPatternModel {
        GtsIdPatternModel { pattern: self.pattern@, segments: pattern_views(self.segments@) }
    }
}

/// Whether `p` is what parsing its own text gives.
pub open spec fn pattern_wf(p: GtsIdPatternModel) -> bool {
    spec_parse_pattern(p.pattern) == Ok::<Seq<PatternSegmentModel>, crate::error::IdFault>(p.segments)
}

/// Whether `b` puts a wildcard only where `a` puts one too.
pub open spec fn wildcards_aligned(a: Seq<PatternSegmentModel>, b: Seq<PatternSegmentModel>) -> bool {
    forall|i: int|
        0 <= i < a.len() && i < b.len() && (#[trigger] b[i] is Wildcard) ==> a[i] is Wildcard
}

/// Whether pattern `a` covers pattern `b`: `a`, used as a pattern, matches
/// the segments of `b` taken as the candidate, and where `b` widens to a
/// wildcard, `a` widens at the same position too (a concrete segment of `a`
/// would reject some of the identifiers that the wildcard of `b` accepts).
pub open spec fn spec_covers(a: GtsIdPatternModel, b: GtsIdPatternModel) -> bool {
    &&& spec_matches(a.segments, pattern_candidates(b.segments))
    &&& wildcards_aligned(a.segments, b.segments)
}

/// Compares the fields that a wildcard segment specifies.
fn wildcard_check<C: SegmentView>(p: &GtsIdPatternSegment, c: &C) -> (r: bool)
    ensures
        r == wildcard_accepts(pattern_fields(p@), c.fields()),
{
    let pv = p.vendor();
    if !str_is_empty(pv) && !str_eq(pv, c.vendor()) {
        return false;
    }
    let pp = p.package();
    if !str_is_empty(pp) && !str_eq(pp, c.package()) {
        return false;
    }
    let pn = p.namespace();
    if !str_is_empty(pn) && !str_eq(pn, c.namespace()) {
        return false;
    }
    let pt = p.type_token();
    if !str_is_empty(pt) && !str_eq(pt, c.type_token()) {
        return false;
    }
    if p.ver_major() != 0 && p.ver_major() != c.ver_major() {
        return false;
    }
    match p.ver_minor() {
        Some(m) => match c.ver_minor() {
            Some(cm) => m == cm,
            None => false,
        },
        None => true,
    }
}

/// Compares every field of a non-wildcard segment.
fn segment_check<C: SegmentView>(p: &GtsIdPatternSegment, c: &C) -> (r: bool)
    ensures
        r == segment_accepts(pattern_fields(p@), c.fields()),
{
    match p.uuid_tail() {
        Some(pu) => match c.uuid_tail() {
            Some(cu) => {
                if !str_eq(pu, cu) {
                    return false;
                }
            },
            None => {
                return false;
            },
        },
        None => {},
    }
    if !str_eq(p.vendor(), c.vendor()) {
        return false;
    }
    if !str_eq(p.package(), c.package()) {
        return false;
    }
    if !str_eq(p.namespace(), c.namespace()) {
        return false;
    }
    if !str_eq(p.type_token(), c.type_token()) {
        return false;
    }
    if p.ver_major() != c.ver_major() {
        return false;
    }
    match p.ver_minor() {
        Some(m) => match c.ver_minor() {
            Some(cm) => {
                if m != cm {
                    return false;
                }
            },
            None => {
                return false;
            },
        },
        None => {},
    }
    p.is_type() == c.is_type()
}

impl GtsIdPattern {
    #[verifier::type_invariant]
    spec fn inv(self) -> bool {
        pattern_wf(self@)
    }

    /// Creates a match pattern from `pattern`, with surrounding whitespace
    /// removed. The pattern may be fully concrete or end in a single
    /// trailing `*` wildcard.
    pub fn try_new(pattern: &str) -> (r: Result<Self, GtsIdError>)
        ensures
            match spec_parse_pattern(trim(pattern@)) {
                Ok(segs) => r is Ok && r->Ok_0@ == (GtsIdPatternModel {
                    pattern: trim(pattern@),
                    segments: segs,
                }),
                Err(f) => r is Err && r->Err_0@ == fault_error(trim(pattern@), f),
            },
    {
        let p = trimmed(pattern);
        match parse_pattern(p.as_str()) {
            Ok(segments) => Ok(GtsIdPattern { pattern: p, segments }),
            Err(e) => Err(e),
        }
    }

    /// A pattern from its text and the segments that parsing the text gives.
    pub(crate) fn from_parsed(pattern: String, segments: Vec<GtsIdPatternSegment>) -> (r: Self)
        requires
            pattern_wf(GtsIdPatternModel { pattern: pattern@, segments: pattern_views(segments@) }),
        ensures
            r@ == (GtsIdPatternModel { pattern: pattern@, segments: pattern_views(segments@) }),
    {
        GtsIdPattern { pattern, segments }
    }

    /// The validated pattern text.
    pub fn pattern(&self) -> (r: &str)
        ensures
            r@ == self@.pattern,
    {
        self.pattern.as_str()
    }

    /// The parsed segments of this pattern.
    pub fn segments(&self) -> (r: &[GtsIdPatternSegment])
        ensures
            pattern_views(r@) == self@.segments,
    {
        self.segments.as_slice()
    }

    /// Consumes the pattern, returning its parsed segments.
    pub fn into_segments(self) -> (r: Vec<GtsIdPatternSegment>)
        ensures
            pattern_views(r@) == self@.segments,
    {
        self.segments
    }

    /// Whether this pattern matches the given candidate segments: a
    /// non-wildcard segment must match exactly (with minor-version
    /// flexibility), a wildcard segment accepts anything from that point
    /// on.
    pub fn matches_views<C: SegmentView>(&self, candidate: &[C]) -> (r: bool)
        ensures
            r == spec_matches(self@.segments, view_fields(candidate@)),
    {
        let ps = &self.segments;
        let ghost pm = self@.segments;
        let ghost cm = view_fields(candidate@);
        if ps.len() > candidate.len() {
            return false;
        }
        let mut i: usize = 0;
        while i < ps.len()
            invariant
                i <= ps@.len() <= candidate@.len(),
                pm == pattern_views(ps@),
                pm == self@.segments,
                ps == &self.segments,
                cm == view_fields(candidate@),
                spec_matches(pm, cm) == matches_from(pm, cm, i as nat),
            decreases ps.len() - i,
        {
            let p = &ps[i];
            let c = &candidate[i];
            assert(pm[i as int] == p@);
            assert(cm[i as int] == c.fields());
            if p.is_wildcard() {
                let w = wildcard_check(p, c);
                assert(matches_from(pm, cm, i as nat) == wildcard_accepts(
                    pattern_fields(pm[i as int]),
                    cm[i as int],
                ));
                return w;
            }
            if !segment_check(p, c) {
                assert(!matches_from(pm, cm, i as nat));
                return false;
            }
            i = i + 1;
        }
        true
    }

    /// Whether `self`, used as a candidate, matches `pattern`.
    pub fn matches_pattern(&self, pattern: &GtsIdPattern) -> (r: bool)
        ensures
            r == spec_matches(pattern@.segments, pattern_candidates(self@.segments)),
    {
        let r = pattern.matches_views(self.segments.as_slice());
        assert(view_fields(self.segments@) =~= pattern_candidates(self@.segments));
        r
    }

    /// Whether `self` covers `other`: every identifier that `other` matches
    /// is matched by `self` too. `self`, used as a pattern, must match the
    /// segments of `other`, and `self` must widen to a wildcard wherever
    /// `other` does.
    pub fn covers(&self, other: &GtsIdPattern) -> (r: bool)
        ensures
            r == spec_covers(self@, other@),
    {
        let matched = self.matches_views(other.segments.as_slice());
        assert(view_fields(other.segments@) =~= pattern_candidates(other@.segments));
        if !matched {
            return false;
        }
        let a = &self.segments;
        let b = &other.segments;
        let ghost am = self@.segments;
        let ghost bm = other@.segments;
        let mut i: usize = 0;
        while i < a.len() && i < b.len()
            invariant
                a == &self.segments,
                b == &other.segments,
                am == pattern_views(a@),
                bm == pattern_views(b@),
                am == self@.segments,
                bm == other@.segments,
                i <= a@.len(),
                forall|j: int| 0 <= j < i && j < bm.len() && (#[trigger] bm[j] is Wildcard) ==> am[j] is Wildcard,
            decreases a.len() - i,
        {
            assert(am[i as int] == a@[i as int]@);
            assert(bm[i as int] == b@[i as int]@);
            if b[i].is_wildcard() && !a[i].is_wildcard() {
                return false;
            }
            i = i + 1;
        }
        true
    }

    /// Whether `s` is a valid GTS identifier pattern.
    pub fn is_valid(s: &str) -> (r: bool)
        ensures
            r == (spec_parse_pattern(trim(s@)) is Ok),
    {
        Self::try_new(s).is_ok()
    }

    /// The pattern text.
    pub fn to_string(&self) -> (r: String)
        ensures
            r@ == self@.pattern,
    {
        self.pattern.clone()
    }

    /// The pattern text, borrowed.
    pub fn as_ref(&self) -> (r: &str)
        ensures
            r@ == self@.pattern,
    {
        self.pattern.as_str()
    }
}

impl Clone for GtsIdPattern {
    fn clone(&self) -> (r: Self)
        ensures
            r@ == self@,
    {
        proof {
            use_type_invariant(self);
        }
        GtsIdPattern {
            pattern: self.pattern.clone(),
            segments: duplicate_pattern_segments(self.segments.as_slice()),
        }
    }
}

impl std::str::FromStr for GtsIdPattern {
    type Err = GtsIdError;

    fn from_str(s: &str) -> (r: Result<Self, GtsIdError>)
        ensures
            match spec_parse_pattern(trim(s@)) {
                Ok(segs) => r is Ok && r->Ok_0@ == (GtsIdPatternModel { pattern: trim(s@), segments: segs }),
                Err(f) => r is Err && r->Err_0@ == fault_error(trim(s@), f),
            },
    {
        Self::try_new(s)
    }
}

} // verus!
