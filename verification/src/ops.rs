//! Identifier operations behind the GTS command line and service: validate,
//! parse, match and map to a UUID, each answering with a plain result record.

use vstd::prelude::*;
use vstd::string::*;

use crate::error::{error_text, fault_error, GtsIdErrorModel};
use crate::gts_id::{id_candidates, spec_id_uuid, GtsId, GtsIdModel};
use crate::parse::{spec_parse_id, spec_parse_pattern};
use crate::pattern::{pattern_candidates, spec_matches, GtsIdPattern};
use crate::segment::{
    pattern_fields, segment_fields, GtsIdPatternSegment, GtsIdSegment, PatternSegmentModel,
    SegmentModel,
};
use crate::text::{chars_of, count_char, count_in, trim};
use crate::uuid::hyphenated_text;

verus! {

broadcast use vstd::string::group_string_axioms;

/// The outcome of validating an identifier or pattern. `is_type` is
/// `Some(true)` for type identifiers (ending with `~`), `Some(false)` for
/// instance identifiers and wildcard patterns, and `None` when the input
/// could not be parsed.
#[derive(Debug, Clone)]
pub struct GtsIdValidationResult {
    pub id: String,
    pub valid: bool,
    pub error: String,
    pub is_type: Option<bool>,
    pub is_wildcard: bool,
}

/// One segment of a parsed identifier, as reported to callers.
#[derive(Debug, Clone)]
pub struct GtsIdSegmentInfo {
    pub vendor: String,
    pub package: String,
    pub namespace: String,
    pub type_token: String,
    pub ver_major: Option<u32>,
    pub ver_minor: Option<u32>,
    pub is_type: bool,
}

/// The model of a [`GtsIdSegmentInfo`].
pub struct SegmentInfoModel {
    pub vendor: Seq<char>,
    pub package: Seq<char>,
    pub namespace: Seq<char>,
    pub type_token: Seq<char>,
    pub ver_major: Option<u32>,
    pub ver_minor: Option<u32>,
    pub is_type: bool,
}

impl View for GtsIdSegmentInfo {
    type V = SegmentInfoModel;

    open spec fn view(&self) -> SegmentInfoModel {
        SegmentInfoModel {
            vendor: self.vendor@,
            package: self.package@,
            namespace: self.namespace@,
            type_token: self.type_token@,
            ver_major: self.ver_major,
            ver_minor: self.ver_minor,
            is_type: self.is_type,
        }
    }
}

/// The report of a concrete segment: its major version is always given
/// (a concrete segment always carries a real one, `v0` included).
pub open spec fn segment_info(s: SegmentModel) -> SegmentInfoModel {
    let f = segment_fields(s);
    SegmentInfoModel {
        vendor: f.vendor,
        package: f.package,
        namespace: f.namespace,
        type_token: f.type_token,
        ver_major: Some(f.ver_major),
        ver_minor: f.ver_minor,
        is_type: f.is_type,
    }
}

/// The report of a pattern segment: a wildcard segment's major version `0`
/// means "unspecified" and is reported as `None`.
pub open spec fn pattern_segment_info(p: PatternSegmentModel) -> SegmentInfoModel {
    let f = pattern_fields(p);
    SegmentInfoModel {
        vendor: f.vendor,
        package: f.package,
        namespace: f.namespace,
        type_token: f.type_token,
        ver_major: if p is Wildcard && f.ver_major == 0 {
            None
        } else {
            Some(f.ver_major)
        },
        ver_minor: f.ver_minor,
        is_type: f.is_type,
    }
}

pub open spec fn infos_view(v: Seq<GtsIdSegmentInfo>) -> Seq<SegmentInfoModel> {
    v.map_values(|i: GtsIdSegmentInfo| i@)
}

impl<'a> From<&'a GtsIdSegment> for GtsIdSegmentInfo {
    fn from(seg: &'a GtsIdSegment) -> (r: Self)
        ensures
            r@ == segment_info(seg@),
    {
        GtsIdSegmentInfo {
            vendor: seg.vendor().to_owned(),
            package: seg.package().to_owned(),
            namespace: seg.namespace().to_owned(),
            type_token: seg.type_token().to_owned(),
            ver_major: Some(seg.ver_major()),
            ver_minor: seg.ver_minor(),
            is_type: seg.is_type(),
        }
    }
}

impl<'a> vstd::std_specs::convert::FromSpecImpl<&'a GtsIdSegment> for GtsIdSegmentInfo {
    open spec fn obeys_from_spec() -> bool {
        false
    }

    open spec fn from_spec(v: &'a GtsIdSegment) -> GtsIdSegmentInfo {
        arbitrary()
    }
}

impl<'a> From<&'a GtsIdPatternSegment> for GtsIdSegmentInfo {
    fn from(seg: &'a GtsIdPatternSegment) -> (r: Self)
        ensures
            r@ == pattern_segment_info(seg@),
    {
        let major = seg.ver_major();
        GtsIdSegmentInfo {
            vendor: seg.vendor().to_owned(),
            package: seg.package().to_owned(),
            namespace: seg.namespace().to_owned(),
            type_token: seg.type_token().to_owned(),
            ver_major: if seg.is_wildcard() && major == 0 {
                None
            } else {
                Some(major)
            },
            ver_minor: seg.ver_minor(),
            is_type: seg.is_type(),
        }
    }
}

impl<'a> vstd::std_specs::convert::FromSpecImpl<&'a GtsIdPatternSegment> for GtsIdSegmentInfo {
    open spec fn obeys_from_spec() -> bool {
        false
    }

    open spec fn from_spec(v: &'a GtsIdPatternSegment) -> GtsIdSegmentInfo {
        arbitrary()
    }
}

/// The outcome of parsing an identifier or pattern into segments.
#[derive(Debug, Clone)]
pub struct GtsIdParseResult {
    pub id: String,
    pub ok: bool,
    pub segments: Vec<GtsIdSegmentInfo>,
    pub error: String,
    pub is_type: Option<bool>,
    pub is_wildcard: bool,
}

/// The outcome of matching a candidate against a pattern.
#[derive(Debug, Clone)]
pub struct GtsIdMatchResult {
    pub candidate: String,
    pub pattern: String,
    pub is_match: bool,
    pub error: String,
}

/// An identifier and its UUID (empty when the identifier is invalid).
#[derive(Debug, Clone)]
pub struct GtsUuidResult {
    pub id: String,
    pub uuid: String,
}

/// The outcome of validating a stored entity.
#[derive(Debug, Clone)]
pub struct GtsValidationResult {
    pub id: String,
    pub ok: bool,
    pub error: String,
}

/// The outcome of validating a stored entity, with its kind.
#[derive(Debug, Clone)]
pub struct GtsEntityValidationResult {
    pub id: String,
    pub ok: bool,
    pub entity_type: String,
    pub error: String,
}

/// A stored entity as listed: its identifier, its type and whether it is a
/// type schema.
#[derive(Debug, Clone)]
pub struct GtsEntityInfo {
    pub id: String,
    pub type_id: Option<String>,
    pub is_type_schema: bool,
}

/// A page of listed entities and the total count.
#[derive(Debug, Clone)]
pub struct GtsEntitiesListResult {
    pub entities: Vec<GtsEntityInfo>,
    pub count: usize,
    pub total: usize,
}

/// The outcome of adding one entity.
#[derive(Debug, Clone)]
pub struct GtsAddEntityResult {
    pub ok: bool,
    pub id: String,
    pub type_id: Option<String>,
    pub is_type_schema: bool,
    pub error: String,
}

/// The outcomes of adding several entities.
#[derive(Debug, Clone)]
pub struct GtsAddEntitiesResult {
    pub ok: bool,
    pub results: Vec<GtsAddEntityResult>,
}

/// The outcome of adding a schema.
#[derive(Debug, Clone)]
pub struct GtsAddSchemaResult {
    pub ok: bool,
    pub id: String,
    pub error: String,
}

/// The identifier and type found in an entity's content.
#[derive(Debug, Clone)]
pub struct GtsExtractIdResult {
    pub id: String,
    pub type_id: Option<String>,
    pub selected_entity_field: Option<String>,
    pub selected_type_id_field: Option<String>,
    pub is_type_schema: bool,
}

/// The identifier operations; the ones on identifiers alone need no state.
pub struct GtsOps {
    pub verbose: usize,
    pub path: Option<Vec<String>>,
}

/// Whether `s` contains a `*` anywhere.
pub open spec fn has_star(s: Seq<char>) -> bool {
    count_char(s, '*') > 0
}

/// Whether the (trimmed) identifier text is a type identifier.
pub open spec fn text_is_type(t: Seq<char>) -> bool {
    t.len() > 0 && t.last() == '~'
}

/// The message reported when `id` fails validation with error `e`.
pub open spec fn validation_error_text(id: Seq<char>, e: GtsIdErrorModel) -> Seq<char> {
    "Unable to validate GTS ID '"@ + id + "': "@ + error_text(e)
}

/// How a candidate parses for matching: as a pattern when it holds a `*`,
/// else as an identifier; the fields of its segments, or its error.
pub open spec fn candidate_fields(c: Seq<char>) -> Result<Seq<crate::segment::SegmentFields>, GtsIdErrorModel> {
    if has_star(c) {
        match spec_parse_pattern(trim(c)) {
            Ok(ps) => Ok(pattern_candidates(ps)),
            Err(f) => Err(fault_error(trim(c), f)),
        }
    } else {
        match spec_parse_id(trim(c)) {
            Ok(segs) => Ok(id_candidates(segs)),
            Err(f) => Err(fault_error(trim(c), f)),
        }
    }
}

/// The match outcome: whether the candidate matches, or the message for
/// the first of them (candidate first) that fails to parse.
pub open spec fn spec_match_outcome(c: Seq<char>, p: Seq<char>) -> Result<bool, Seq<char>> {
    match candidate_fields(c) {
        Err(e) => Err("Invalid candidate: "@ + error_text(e)),
        Ok(cs) => match spec_parse_pattern(trim(p)) {
            Err(f) => Err("Invalid pattern: "@ + error_text(fault_error(trim(p), f))),
            Ok(ps) => Ok(spec_matches(ps, cs)),
        },
    }
}

fn contains_star(s: &str) -> (r: bool)
    ensures
        r == has_star(s@),
{
    let cs = chars_of(s);
    assert(cs@.subrange(0, cs@.len() as int) =~= cs@);
    count_in(&cs, 0, cs.len(), '*') > 0
}

fn validation_error(id: &str, e: &crate::error::GtsIdError) -> (r: String)
    ensures
        r@ == validation_error_text(id@, e@),
{
    let mut s = String::from_str("Unable to validate GTS ID '");
    s.append(id);
    s.append("': ");
    let t = e.to_string();
    s.append(t.as_str());
    s
}

fn segment_infos(segs: &[GtsIdSegment]) -> (r: Vec<GtsIdSegmentInfo>)
    ensures
        infos_view(r@) == crate::parse::segment_views(segs@).map_values(|s: SegmentModel| segment_info(s)),
{
    let mut out: Vec<GtsIdSegmentInfo> = Vec::new();
    let mut i: usize = 0;
    while i < segs.len()
        invariant
            i <= segs@.len(),
            out@.len() == i,
            forall|k: int| 0 <= k < i ==> (#[trigger] out@[k])@ == segment_info(segs@[k]@),
        decreases segs.len() - i,
    {
        out.push(GtsIdSegmentInfo::from(&segs[i]));
        i = i + 1;
    }
    assert(infos_view(out@) =~= crate::parse::segment_views(segs@).map_values(
        |s: SegmentModel| segment_info(s),
    ));
    out
}

fn pattern_segment_infos(segs: &[GtsIdPatternSegment]) -> (r: Vec<GtsIdSegmentInfo>)
    ensures
        infos_view(r@) == crate::parse::pattern_views(segs@).map_values(
            |p: PatternSegmentModel| pattern_segment_info(p),
        ),
{
    let mut out: Vec<GtsIdSegmentInfo> = Vec::new();
    let mut i: usize = 0;
    while i < segs.len()
        invariant
            i <= segs@.len(),
            out@.len() == i,
            forall|k: int| 0 <= k < i ==> (#[trigger] out@[k])@ == pattern_segment_info(segs@[k]@),
        decreases segs.len() - i,
    {
        out.push(GtsIdSegmentInfo::from(&segs[i]));
        i = i + 1;
    }
    assert(infos_view(out@) =~= crate::parse::pattern_views(segs@).map_values(
        |p: PatternSegmentModel| pattern_segment_info(p),
    ));
    out
}

impl GtsOps {
    /// Validates an identifier, or a pattern when the text holds a `*`.
    pub fn validate_id(gts_id: &str) -> (r: GtsIdValidationResult)
        ensures
            r.id@ == gts_id@,
            r.is_wildcard == has_star(gts_id@),
            has_star(gts_id@) ==> match spec_parse_pattern(trim(gts_id@)) {
                Ok(_) => r.valid && r.error@.len() == 0 && r.is_type == Some(false),
                Err(f) => !r.valid && r.error@ == validation_error_text(
                    gts_id@,
                    fault_error(trim(gts_id@), f),
                ) && r.is_type is None,
            },
            !has_star(gts_id@) ==> match spec_parse_id(trim(gts_id@)) {
                Ok(_) => r.valid && r.error@.len() == 0 && r.is_type == Some(
                    text_is_type(trim(gts_id@)),
                ),
                Err(f) => !r.valid && r.error@ == validation_error_text(
                    gts_id@,
                    fault_error(trim(gts_id@), f),
                ) && r.is_type is None,
            },
    {
        if contains_star(gts_id) {
            match GtsIdPattern::try_new(gts_id) {
                Ok(_) => GtsIdValidationResult {
                    id: gts_id.to_owned(),
                    valid: true,
                    error: String::new(),
                    is_type: Some(false),
                    is_wildcard: true,
                },
                Err(e) => GtsIdValidationResult {
                    id: gts_id.to_owned(),
                    valid: false,
                    error: validation_error(gts_id, &e),
                    is_type: None,
                    is_wildcard: true,
                },
            }
        } else {
            match GtsId::try_new(gts_id) {
                Ok(id) => GtsIdValidationResult {
                    id: gts_id.to_owned(),
                    valid: true,
                    error: String::new(),
                    is_type: Some(id.is_type()),
                    is_wildcard: false,
                },
                Err(e) => GtsIdValidationResult {
                    id: gts_id.to_owned(),
                    valid: false,
                    error: validation_error(gts_id, &e),
                    is_type: None,
                    is_wildcard: false,
                },
            }
        }
    }

    /// Parses an identifier, or a pattern when the text holds a `*`, and
    /// reports its segments.
    pub fn parse_id(gts_id: &str) -> (r: GtsIdParseResult)
        ensures
            r.id@ == gts_id@,
            r.is_wildcard == has_star(gts_id@),
            has_star(gts_id@) ==> match spec_parse_pattern(trim(gts_id@)) {
                Ok(ps) => r.ok && r.error@.len() == 0 && r.is_type == Some(false) && infos_view(
                    r.segments@,
                ) == ps.map_values(|p: PatternSegmentModel| pattern_segment_info(p)),
                Err(f) => !r.ok && r.segments@.len() == 0 && r.error@ == error_text(
                    fault_error(trim(gts_id@), f),
                ) && r.is_type is None,
            },
            !has_star(gts_id@) ==> match spec_parse_id(trim(gts_id@)) {
                Ok(segs) => r.ok && r.error@.len() == 0 && r.is_type == Some(
                    text_is_type(trim(gts_id@)),
                ) && infos_view(r.segments@) == segs.map_values(
                    |s: SegmentModel| segment_info(s),
                ),
                Err(f) => !r.ok && r.segments@.len() == 0 && r.error@ == error_text(
                    fault_error(trim(gts_id@), f),
                ) && r.is_type is None,
            },
    {
        if contains_star(gts_id) {
            match GtsIdPattern::try_new(gts_id) {
                Ok(w) => GtsIdParseResult {
                    id: gts_id.to_owned(),
                    ok: true,
                    segments: pattern_segment_infos(w.segments()),
                    error: String::new(),
                    is_type: Some(false),
                    is_wildcard: true,
                },
                Err(e) => GtsIdParseResult {
                    id: gts_id.to_owned(),
                    ok: false,
                    segments: Vec::new(),
                    error: e.to_string(),
                    is_type: None,
                    is_wildcard: true,
                },
            }
        } else {
            match GtsId::try_new(gts_id) {
                Ok(id) => GtsIdParseResult {
                    id: gts_id.to_owned(),
                    ok: true,
                    segments: segment_infos(id.segments()),
                    error: String::new(),
                    is_type: Some(id.is_type()),
                    is_wildcard: false,
                },
                Err(e) => GtsIdParseResult {
                    id: gts_id.to_owned(),
                    ok: false,
                    segments: Vec::new(),
                    error: e.to_string(),
                    is_type: None,
                    is_wildcard: false,
                },
            }
        }
    }

    /// Matches `candidate` against `pattern`. The pattern side is always
    /// read as a pattern; the candidate is read as a pattern when it holds
    /// a `*`, else as an identifier, and is matched with the same field
    /// logic either way.
    pub fn match_id_pattern(candidate: &str, pattern: &str) -> (r: GtsIdMatchResult)
        ensures
            r.candidate@ == candidate@,
            r.pattern@ == pattern@,
            match spec_match_outcome(candidate@, pattern@) {
                Ok(b) => r.is_match == b && r.error@.len() == 0,
                Err(m) => !r.is_match && r.error@ == m,
            },
    {
        let pattern_result = GtsIdPattern::try_new(pattern);
        let outcome: Result<bool, String> = if contains_star(candidate) {
            match GtsIdPattern::try_new(candidate) {
                Err(e) => {
                    let mut m = String::from_str("Invalid candidate: ");
                    let t = e.to_string();
                    m.append(t.as_str());
                    Err(m)
                },
                Ok(cand) => match &pattern_result {
                    Ok(pat) => Ok(cand.matches_pattern(pat)),
                    Err(e) => {
                        let mut m = String::from_str("Invalid pattern: ");
                        let t = e.to_string();
                        m.append(t.as_str());
                        Err(m)
                    },
                },
            }
        } else {
            match GtsId::try_new(candidate) {
                Err(e) => {
                    let mut m = String::from_str("Invalid candidate: ");
                    let t = e.to_string();
                    m.append(t.as_str());
                    Err(m)
                },
                Ok(cand) => match &pattern_result {
                    Ok(pat) => Ok(cand.matches_pattern(pat)),
                    Err(e) => {
                        let mut m = String::from_str("Invalid pattern: ");
                        let t = e.to_string();
                        m.append(t.as_str());
                        Err(m)
                    },
                },
            }
        };
        match outcome {
            Ok(is_match) => GtsIdMatchResult {
                candidate: candidate.to_owned(),
                pattern: pattern.to_owned(),
                is_match,
                error: String::new(),
            },
            Err(m) => GtsIdMatchResult {
                candidate: candidate.to_owned(),
                pattern: pattern.to_owned(),
                is_match: false,
                error: m,
            },
        }
    }

    /// The UUID of an identifier (see [`GtsId::to_uuid`]), with the
    /// identifier text it was computed from; an invalid identifier gets an
    /// empty UUID.
    pub fn uuid(gts_id: &str) -> (r: GtsUuidResult)
        ensures
            match spec_parse_id(trim(gts_id@)) {
                Ok(segs) => r.id@ == trim(gts_id@) && r.uuid@ == hyphenated_text(
                    spec_id_uuid(GtsIdModel { id: trim(gts_id@), segments: segs }),
                ),
                Err(_) => r.id@ == gts_id@ && r.uuid@.len() == 0,
            },
    {
        match GtsId::try_new(gts_id) {
            Ok(g) => {
                let u = g.to_uuid();
                GtsUuidResult { id: g.id().to_owned(), uuid: u.to_string() }
            },
            Err(_) => GtsUuidResult { id: gts_id.to_owned(), uuid: String::new() },
        }
    }
}

} // verus!
