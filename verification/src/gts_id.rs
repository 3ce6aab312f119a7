//! The validated GTS identifier type.
//!
//! A [`GtsId`] holds a concrete GTS identifier together with the segments
//! the parser produced for it; it exists only for text that parses.

use vstd::prelude::*;
use vstd::string::*;

use crate::error::{fault_error, GtsIdError, IdFault};
use crate::parse::{duplicate_segments, parse_id, segment_views, spec_parse_id};
use crate::parse::pattern_views;
use crate::pattern::{spec_matches, GtsIdPattern, GtsIdPatternModel};
use crate::properties::{as_pattern_segments, lemma_id_is_pattern};
use crate::segment::GtsIdPatternSegment;
use crate::prefix::{gts_prefix, lemma_prefix_chars, GTS_ID_PREFIX};
use crate::segment::{segment_fields, segment_raw, GtsIdSegment, SegmentFields, SegmentModel};
use crate::text::{chars_of, substring, trim, trimmed};
use crate::uuid::{gts_namespace, gts_namespace_bytes, new_v5, uuid_text_bytes, uuid_v5_bytes, GtsUuid};

verus! {

broadcast use vstd::string::group_string_axioms;

/// The model of an identifier: its text and its segments.
pub struct GtsIdModel {
    pub id: Seq<char>,
    pub segments: Seq<SegmentModel>,
}

/// GTS ID: a validated Global Type System identifier.
///
/// GTS IDs follow the format
/// `gts.<vendor>.<package>.<namespace>.<type>.<version>[~]`, where a `~`
/// suffix marks a type definition; segments may be chained with `~`.
#[derive(Debug, PartialEq, Eq, Hash)]
pub struct GtsId {
    id: String,
    segments: Vec<GtsIdSegment>,
}

impl View for GtsId {
    type V = GtsIdModel;

    closed spec fn view(&self) -> GtsIdModel {
        GtsIdModel { id: self.id@, segments: segment_views(self.segments@) }
    }
}

/// Whether `m` is what parsing its own text gives.
pub open spec fn id_wf(m: GtsIdModel) -> bool {
    spec_parse_id(m.id) == Ok::<Seq<SegmentModel>, IdFault>(m.segments)
}

/// The concatenated raw texts of `segs` (each type segment keeps its `~`).
pub open spec fn raws_text(segs: Seq<SegmentModel>) -> Seq<char> {
    segs.map_values(|s: SegmentModel| segment_raw(s)).flatten()
}

/// The fields of the segments of an identifier, read as a candidate.
pub open spec fn id_candidates(segs: Seq<SegmentModel>) -> Seq<SegmentFields> {
    segs.map_values(|s: SegmentModel| segment_fields(s))
}

/// Whether identifier `id` matches pattern segments `ps`.
pub open spec fn spec_id_matches(id: GtsIdModel, ps: Seq<crate::segment::PatternSegmentModel>) -> bool {
    spec_matches(ps, id_candidates(id.segments))
}

/// The parent type identifier of a chained identifier: the prefix followed
/// by every segment but the last.
pub open spec fn spec_type_id(m: GtsIdModel) -> Option<Seq<char>> {
    if m.segments.len() < 2 {
        None
    } else {
        Some(gts_prefix() + raws_text(m.segments.drop_last()))
    }
}

/// The UUID of an identifier: that of its trailing UUID segment, else the
/// version 5 UUID of its text under the GTS namespace.
pub open spec fn spec_id_uuid(m: GtsIdModel) -> Seq<u8> {
    match m.segments.last() {
        SegmentModel::UuidTail(u) => uuid_text_bytes(u),
        SegmentModel::Concrete(_) => uuid_v5_bytes(gts_namespace_bytes(), vstd::utf8::encode_utf8(m.id)),
    }
}

/// The first position of `c` in `s`, if any.
pub open spec fn first_index_of(s: Seq<char>, c: char) -> Option<nat>
    decreases s.len(),
{
    if s.len() == 0 {
        None
    } else if s[0] == c {
        Some(0)
    } else {
        match first_index_of(s.drop_first(), c) {
            Some(k) => Some(k + 1),
            None => None,
        }
    }
}

/// An identifier text split at its first `@` into the identifier and the
/// attribute path; an empty path is refused.
pub open spec fn spec_split_at_path(s: Seq<char>) -> Result<(Seq<char>, Option<Seq<char>>), IdFault> {
    match first_index_of(s, '@') {
        None => Ok((s, None)),
        Some(k) => if k + 1 == s.len() {
            Err(IdFault::EmptyAttributePath)
        } else {
            Ok((s.take(k as int), Some(s.skip(k + 1int))))
        },
    }
}

pub proof fn lemma_first_index_of(s: Seq<char>, c: char, k: nat)
    requires
        k <= s.len(),
        forall|j: int| 0 <= j < k ==> s[j] != c,
    ensures
        k < s.len() && s[k as int] == c ==> first_index_of(s, c) == Some(k),
        k == s.len() ==> first_index_of(s, c) is None,
    decreases k,
{
    if k > 0 {
        lemma_first_index_of(s.drop_first(), c, (k - 1) as nat);
    }
}

proof fn lemma_raws_text_push(segs: Seq<SegmentModel>, s: SegmentModel)
    ensures
        raws_text(segs.push(s)) == raws_text(segs) + segment_raw(s),
{
    let f = |x: SegmentModel| segment_raw(x);
    assert(segs.push(s).map_values(f) =~= segs.map_values(f).push(segment_raw(s)));
    segs.map_values(f).lemma_flatten_push(segment_raw(s));
}

/// The pattern that an identifier stands for: its own text, each of its
/// segments taken as a pattern segment.
pub open spec fn id_pattern_model(m: GtsIdModel) -> GtsIdPatternModel {
    GtsIdPatternModel { pattern: m.id, segments: as_pattern_segments(m.segments) }
}

/// Each segment wrapped as a pattern segment.
fn wrap_segments(segs: &[GtsIdSegment]) -> (r: Vec<GtsIdPatternSegment>)
    ensures
        pattern_views(r@) == as_pattern_segments(segment_views(segs@)),
{
    let mut out: Vec<GtsIdPatternSegment> = Vec::new();
    let mut i: usize = 0;
    while i < segs.len()
        invariant
            i <= segs@.len(),
            pattern_views(out@) == as_pattern_segments(segment_views(segs@.take(i as int))),
        decreases segs.len() - i,
    {
        let ghost before = out@;
        let p = GtsIdPatternSegment::Segment(segs[i].duplicate());
        out.push(p);
        proof {
            assert(segs@.take(i + 1) =~= segs@.take(i as int).push(segs@[i as int]));
            assert(pattern_views(out@) =~= pattern_views(before).push(p@));
            assert(as_pattern_segments(segment_views(segs@.take(i + 1))) =~= as_pattern_segments(
                segment_views(segs@.take(i as int)),
            ).push(p@));
        }
        i = i + 1;
    }
    assert(segs@.take(segs@.len() as int) =~= segs@);
    out
}

/// Each segment moved into a pattern segment, in order.
fn wrap_owned(segs: Vec<GtsIdSegment>) -> (r: Vec<GtsIdPatternSegment>)
    ensures
        pattern_views(r@) == as_pattern_segments(segment_views(segs@)),
{
    let ghost orig = segs@;
    let mut rest = segs;
    let mut reversed: Vec<GtsIdSegment> = Vec::new();
    while rest.len() > 0
        invariant
            rest@.len() + reversed@.len() == orig.len(),
            rest@ == orig.take(rest@.len() as int),
            forall|k: int| 0 <= k < reversed@.len() ==> #[trigger] reversed@[k] == orig[orig.len() - 1 - k],
        decreases rest.len(),
    {
        let ghost n = rest@.len();
        let s = rest.pop().unwrap();
        reversed.push(s);
        assert(rest@ =~= orig.take(n - 1));
    }
    let mut out: Vec<GtsIdPatternSegment> = Vec::new();
    while reversed.len() > 0
        invariant
            reversed@.len() + out@.len() == orig.len(),
            forall|k: int| 0 <= k < reversed@.len() ==> #[trigger] reversed@[k] == orig[orig.len() - 1 - k],
            pattern_views(out@) == as_pattern_segments(segment_views(orig.take(out@.len() as int))),
        decreases reversed.len(),
    {
        let ghost m = out@.len();
        let ghost before = out@;
        let s = reversed.pop().unwrap();
        assert(s == orig[m as int]);
        let p = GtsIdPatternSegment::Segment(s);
        out.push(p);
        proof {
            assert(orig.take(m + 1int) =~= orig.take(m as int).push(orig[m as int]));
            assert(pattern_views(out@) =~= pattern_views(before).push(p@));
            assert(as_pattern_segments(segment_views(orig.take(m + 1int))) =~= as_pattern_segments(
                segment_views(orig.take(m as int)),
            ).push(p@));
        }
    }
    assert(orig.take(orig.len() as int) =~= orig);
    out
}

impl GtsId {
    #[verifier::type_invariant]
    spec fn inv(self) -> bool {
        id_wf(self@)
    }

    /// Parses and validates a concrete GTS identifier, with surrounding
    /// whitespace removed. Wildcards are not accepted: patterns are parsed
    /// by [`GtsIdPattern::try_new`].
    pub fn try_new(id: &str) -> (r: Result<Self, GtsIdError>)
        ensures
            match spec_parse_id(trim(id@)) {
                Ok(segs) => r is Ok && r->Ok_0@ == (GtsIdModel { id: trim(id@), segments: segs }),
                Err(f) => r is Err && r->Err_0@ == fault_error(trim(id@), f),
            },
    {
        let raw = trimmed(id);
        match parse_id(raw.as_str()) {
            Ok(segments) => Ok(GtsId { id: raw, segments }),
            Err(e) => Err(e),
        }
    }

    /// The validated identifier text.
    pub fn id(&self) -> (r: &str)
        ensures
            r@ == self@.id,
    {
        self.id.as_str()
    }

    /// The parsed segments of this identifier.
    pub fn segments(&self) -> (r: &[GtsIdSegment])
        ensures
            segment_views(r@) == self@.segments,
    {
        self.segments.as_slice()
    }

    /// Consumes the identifier, returning its parsed segments.
    pub fn into_segments(self) -> (r: Vec<GtsIdSegment>)
        ensures
            segment_views(r@) == self@.segments,
    {
        self.segments
    }

    /// Whether this identifier names a type: its text ends with `~`, which
    /// is the case exactly when its last segment is a type segment.
    pub fn is_type(&self) -> (r: bool)
        ensures
            r == (self@.id.len() > 0 && self@.id.last() == '~'),
            r == segment_fields(self@.segments.last()).is_type,
    {
        proof {
            use_type_invariant(self);
            crate::properties::lemma_is_type_agrees(self@);
        }
        let cs = chars_of(self.id.as_str());
        cs.len() > 0 && cs[cs.len() - 1] == '~'
    }

    /// The parent type identifier of a chained identifier: the prefix and
    /// every segment but the last. `None` for a single segment.
    pub fn get_type_id(&self) -> (r: Option<String>)
        ensures
            match spec_type_id(self@) {
                Some(t) => r is Some && r->Some_0@ == t,
                None => r is None,
            },
    {
        let n = self.segments.len();
        if n < 2 {
            return None;
        }
        proof {
            lemma_prefix_chars();
        }
        let mut s = String::from_str(GTS_ID_PREFIX);
        let ghost segs = self@.segments;
        let mut i: usize = 0;
        assert(segs.drop_last().take(0) =~= Seq::<SegmentModel>::empty());
        while i < n - 1
            invariant
                n == self.segments@.len() == segs.len(),
                segs == segment_views(self.segments@),
                i <= n - 1,
                s@ == gts_prefix() + raws_text(segs.drop_last().take(i as int)),
            decreases n - 1 - i,
        {
            let ghost before = s@;
            s.append(self.segments[i].raw());
            proof {
                let d = segs.drop_last();
                assert(d.take(i + 1) =~= d.take(i as int).push(d[i as int]));
                lemma_raws_text_push(d.take(i as int), d[i as int]);
                assert(s@ =~= gts_prefix() + raws_text(segs.drop_last().take(i + 1)));
            }
            i = i + 1;
        }
        assert(segs.drop_last().take((n - 1) as int) =~= segs.drop_last());
        Some(s)
    }

    /// This identifier's UUID: the trailing UUID when there is one, else the
    /// version 5 UUID of the identifier text under the GTS namespace, so the
    /// same identifier always maps to the same UUID.
    pub fn to_uuid(&self) -> (r: GtsUuid)
        ensures
            r@ == spec_id_uuid(self@),
    {
        proof {
            use_type_invariant(self);
            crate::properties::lemma_parsed_id_shape(self@.id);
        }
        let n = self.segments.len();
        match self.segments[n - 1].uuid() {
            Some(u) => {
                return u;
            },
            None => {},
        }
        let ns = gts_namespace();
        new_v5(&ns, self.id.as_str().as_bytes())
    }

    /// Whether `s` is a valid concrete GTS identifier.
    pub fn is_valid(s: &str) -> (r: bool)
        ensures
            r == (spec_parse_id(trim(s@)) is Ok),
    {
        Self::try_new(s).is_ok()
    }

    /// Whether this identifier matches `pattern`.
    pub fn matches_pattern(&self, pattern: &GtsIdPattern) -> (r: bool)
        ensures
            r == spec_id_matches(self@, pattern@.segments),
    {
        let r = pattern.matches_views(self.segments.as_slice());
        assert(crate::pattern::view_fields(self.segments@) =~= id_candidates(self@.segments));
        r
    }

    /// This identifier as a pattern without wildcard. It matches this
    /// identifier and everything derived from it down the chain (a base
    /// type `gts.a.b.c.d.v1~` behaves as `gts.a.b.c.d.v1~*`), with
    /// minor-version flexibility. The segments are reused, never re-parsed.
    pub fn to_pattern(&self) -> (r: GtsIdPattern)
        ensures
            r@ == id_pattern_model(self@),
    {
        proof {
            use_type_invariant(self);
            lemma_id_is_pattern(self@.id);
        }
        let segments = wrap_segments(self.segments.as_slice());
        GtsIdPattern::from_parsed(self.id.clone(), segments)
    }

    /// Splits an identifier text at its first `@` into the identifier and
    /// the attribute path that follows.
    pub fn split_at_path(gts_with_path: &str) -> (r: Result<(String, Option<String>), GtsIdError>)
        ensures
            match spec_split_at_path(gts_with_path@) {
                Ok((g, p)) => r is Ok && r->Ok_0.0@ == g && match p {
                    Some(t) => r->Ok_0.1 is Some && r->Ok_0.1->Some_0@ == t,
                    None => r->Ok_0.1 is None,
                },
                Err(f) => r is Err && r->Err_0@ == fault_error(gts_with_path@, f),
            },
    {
        let cs = chars_of(gts_with_path);
        let n = cs.len();
        let mut k: usize = 0;
        while k < n && cs[k] != '@'
            invariant
                k <= n == cs@.len(),
                cs@ == gts_with_path@,
                forall|j: int| 0 <= j < k ==> cs@[j] != '@',
            decreases n - k,
        {
            k = k + 1;
        }
        proof {
            lemma_first_index_of(gts_with_path@, '@', k as nat);
        }
        if k == n {
            return Ok((gts_with_path.to_owned(), None));
        }
        if k + 1 == n {
            return Err(
                GtsIdError::new(gts_with_path, String::from_str("Attribute path cannot be empty")),
            );
        }
        let g = substring(gts_with_path, 0, k);
        let p = substring(gts_with_path, k + 1, n);
        assert(g@ =~= gts_with_path@.take(k as int));
        assert(p@ =~= gts_with_path@.skip(k + 1));
        Ok((g, Some(p)))
    }

    /// The identifier text.
    pub fn to_string(&self) -> (r: String)
        ensures
            r@ == self@.id,
    {
        self.id.clone()
    }

    /// The identifier text, borrowed.
    pub fn as_ref(&self) -> (r: &str)
        ensures
            r@ == self@.id,
    {
        self.id.as_str()
    }
}

impl<'a> From<&'a GtsId> for GtsIdPattern {
    /// A concrete identifier is always a valid pattern without wildcard; its
    /// segments are reused, so the conversion cannot fail.
    fn from(id: &'a GtsId) -> (r: Self)
        ensures
            r@ == id_pattern_model(id@),
    {
        id.to_pattern()
    }
}

impl<'a> vstd::std_specs::convert::FromSpecImpl<&'a GtsId> for GtsIdPattern {
    open spec fn obeys_from_spec() -> bool {
        false
    }

    open spec fn from_spec(v: &'a GtsId) -> GtsIdPattern {
        arbitrary()
    }
}

impl From<GtsId> for GtsIdPattern {
    /// The consuming form of the conversion: the identifier's own segments
    /// are moved into the pattern.
    fn from(id: GtsId) -> (r: Self)
        ensures
            r@ == id_pattern_model(id@),
    {
        proof {
            use_type_invariant(&id);
            lemma_id_is_pattern(id@.id);
        }
        let GtsId { id: text, segments } = id;
        GtsIdPattern::from_parsed(text, wrap_owned(segments))
    }
}

impl vstd::std_specs::convert::FromSpecImpl<GtsId> for GtsIdPattern {
    open spec fn obeys_from_spec() -> bool {
        false
    }

    open spec fn from_spec(v: GtsId) -> GtsIdPattern {
        arbitrary()
    }
}

impl Clone for GtsId {
    fn clone(&self) -> (r: Self)
        ensures
            r@ == self@,
    {
        proof {
            use_type_invariant(self);
        }
        GtsId { id: self.id.clone(), segments: duplicate_segments(self.segments.as_slice()) }
    }
}

impl std::str::FromStr for GtsId {
    type Err = GtsIdError;

    fn from_str(s: &str) -> (r: Result<Self, GtsIdError>)
        ensures
            match spec_parse_id(trim(s@)) {
                Ok(segs) => r is Ok && r->Ok_0@ == (GtsIdModel { id: trim(s@), segments: segs }),
                Err(f) => r is Err && r->Err_0@ == fault_error(trim(s@), f),
            },
    {
        Self::try_new(s)
    }
}

} // verus!
