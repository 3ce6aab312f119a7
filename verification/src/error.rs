//! The error reported by every identifier parsing entry point, and the
//! model of the faults it describes.

use vstd::prelude::*;
use vstd::string::*;

use crate::prefix::{gts_prefix, lemma_prefix_chars, GTS_ID_PREFIX};
use crate::text::{decimal, decimal_string};

verus! {

broadcast use vstd::string::group_string_axioms;

/// Where in an identifier a segment-level failure was found.
#[derive(Debug, Clone, PartialEq, Eq)]
pub struct GtsIdSegmentError {
    /// 1-based number of the offending segment.
    pub num: usize,
    /// Byte offset of the offending segment within the identifier.
    pub offset: usize,
    /// The offending raw segment text.
    pub segment: String,
}

/// A GTS identifier that could not be parsed, with a human-readable cause
/// and, for segment-level failures, the location of the offending segment.
#[derive(Debug, Clone, PartialEq, Eq)]
pub struct GtsIdError {
    /// The identifier (or pattern) text that was rejected.
    pub id: String,
    /// Why it was rejected.
    pub cause: String,
    /// The offending segment, when the failure is local to one segment.
    pub segment: Option<GtsIdSegmentError>,
}

pub struct SegmentErrorModel {
    pub num: usize,
    pub offset: usize,
    pub segment: Seq<char>,
}

pub struct GtsIdErrorModel {
    pub id: Seq<char>,
    pub cause: Seq<char>,
    pub segment: Option<SegmentErrorModel>,
}

impl View for GtsIdSegmentError {
    type V = SegmentErrorModel;

    open spec fn view(&self) -> SegmentErrorModel {
        SegmentErrorModel { num: self.num, offset: self.offset, segment: self.segment@ }
    }
}

impl View for GtsIdError {
    type V = GtsIdErrorModel;

    open spec fn view(&self) -> GtsIdErrorModel {
        GtsIdErrorModel {
            id: self.id@,
            cause: self.cause@,
            segment: match self.segment {
                Some(s) => Some(s@),
                None => None,
            },
        }
    }
}

/// Why one segment of an identifier is malformed.
pub enum SegmentFault {
    TooManyTildes,
    TildeNotAtEnd,
    TooManyTokens(nat),
    TooFewTokens(nat),
    TooManyNameTokens,
    WildcardNotFinal,
    InvalidToken(nat, Seq<char>),
    MajorWithoutV,
    MajorNotInteger(Seq<char>),
    MinorNotInteger(Seq<char>),
}

/// Why an identifier is malformed.
pub enum IdFault {
    MissingPrefix,
    NotLowercase,
    TooLong(nat),
    MultipleWildcards,
    WildcardNotAtEnd,
    ContainsHyphen,
    EmptySegment(nat),
    NoSegments,
    SingleSegmentInstance,
    EmptyAttributePath,
    InstanceEndsWithTilde,
    TypeWithoutTilde,
    Segment { num: nat, offset: nat, segment: Seq<char>, fault: SegmentFault },
}

pub open spec fn format_tail() -> Seq<char> {
    "vendor.package.namespace.type.vMAJOR[.MINOR]"@
}

/// The format hint for segment `num`: segment #1 shows the prefix, later
/// segments (which follow a `~`) do not.
pub open spec fn expected_format_text(num: nat) -> Seq<char> {
    if num == 1 {
        gts_prefix() + format_tail()
    } else {
        format_tail()
    }
}

pub open spec fn token_name(i: nat) -> Seq<char> {
    if i == 0 {
        "vendor"@
    } else if i == 1 {
        "package"@
    } else if i == 2 {
        "namespace"@
    } else if i == 3 {
        "type"@
    } else {
        "token"@
    }
}

pub open spec fn single_segment_text() -> Seq<char> {
    "Single-segment instance IDs are prohibited. Instance IDs must be chained with at least one type segment (e.g., 'type~instance')"@
}

/// The message describing a segment fault in segment `num`.
pub open spec fn segment_fault_text(num: nat, f: SegmentFault) -> Seq<char> {
    match f {
        SegmentFault::TooManyTildes => "Too many '~' characters"@,
        SegmentFault::TildeNotAtEnd => "'~' must be at the end"@,
        SegmentFault::TooManyTokens(n) => "Too many tokens (got "@ + decimal(n)
            + ", max 6). Expected format: "@ + expected_format_text(num),
        SegmentFault::TooFewTokens(n) => "Too few tokens (got "@ + decimal(n)
            + ", min 5). Expected format: "@ + expected_format_text(num),
        SegmentFault::TooManyNameTokens => "Too many name tokens before version (got 5, expected 4). Expected format: "@
            + expected_format_text(num),
        SegmentFault::WildcardNotFinal => "Wildcard '*' is only allowed as the final token"@,
        SegmentFault::InvalidToken(i, t) => "Invalid "@ + token_name(i) + " token '"@ + t
            + "'. Must start with [a-z_] and contain only [a-z0-9_]"@,
        SegmentFault::MajorWithoutV => "Major version must start with 'v'"@,
        SegmentFault::MajorNotInteger(s) => "Major version must be an integer, got '"@ + s + "'"@,
        SegmentFault::MinorNotInteger(s) => "Minor version must be an integer, got '"@ + s + "'"@,
    }
}

/// The message describing an identifier fault.
pub open spec fn id_fault_text(f: IdFault) -> Seq<char> {
    match f {
        IdFault::MissingPrefix => "must start with '"@ + gts_prefix() + "'"@,
        IdFault::NotLowercase => "must be lowercase"@,
        IdFault::TooLong(n) => "too long ("@ + decimal(n) + " chars, max 1024)"@,
        IdFault::MultipleWildcards => "The wildcard '*' token is allowed only once"@,
        IdFault::WildcardNotAtEnd => "The wildcard '*' token is allowed only at the end of the pattern"@,
        IdFault::ContainsHyphen => "must not contain '-'"@,
        IdFault::EmptySegment(k) => "empty segment at tilde-part #"@ + decimal(k),
        IdFault::NoSegments => "no segments found"@,
        IdFault::SingleSegmentInstance => single_segment_text(),
        IdFault::EmptyAttributePath => "Attribute path cannot be empty"@,
        IdFault::InstanceEndsWithTilde => "GTS instance IDs must not end with '~' (a trailing '~' denotes a type id)"@,
        IdFault::TypeWithoutTilde => "GTS type IDs must end with '~'"@,
        IdFault::Segment { num, fault, .. } => segment_fault_text(num, fault),
    }
}

/// The error reported for identifier text `id` failing with fault `f`.
pub open spec fn fault_error(id: Seq<char>, f: IdFault) -> GtsIdErrorModel {
    GtsIdErrorModel {
        id,
        cause: id_fault_text(f),
        segment: match f {
            IdFault::Segment { num, offset, segment, .. } => Some(
                SegmentErrorModel { num: num as usize, offset: offset as usize, segment },
            ),
            _ => None,
        },
    }
}

/// The format hint shown in segment error messages.
///
/// Segment #1 shows the configured prefix because the user writes
/// `<prefix>vendor.package...`; segments #2+ omit it because they come after
/// a `~` delimiter.
pub fn expected_format(segment_num: usize) -> (r: String)
    ensures
        r@ == expected_format_text(segment_num as nat),
{
    if segment_num == 1 {
        proof {
            lemma_prefix_chars();
        }
        let mut s = String::from_str(GTS_ID_PREFIX);
        s.append("vendor.package.namespace.type.vMAJOR[.MINOR]");
        s
    } else {
        String::from_str("vendor.package.namespace.type.vMAJOR[.MINOR]")
    }
}

impl GtsIdError {
    /// An identifier-level error for `id` with the given cause.
    pub fn new(id: &str, cause: String) -> (r: Self)
        ensures
            r@ == (GtsIdErrorModel { id: id@, cause: cause@, segment: None }),
    {
        GtsIdError { id: id.to_owned(), cause, segment: None }
    }

    /// Attaches the location of the offending segment.
    pub fn with_segment(self, num: usize, offset: usize, segment: String) -> (r: Self)
        ensures
            r@ == (GtsIdErrorModel {
                id: self@.id,
                cause: self@.cause,
                segment: Some(SegmentErrorModel { num, offset, segment: segment@ }),
            }),
    {
        GtsIdError {
            id: self.id,
            cause: self.cause,
            segment: Some(GtsIdSegmentError { num, offset, segment }),
        }
    }

    /// The human-readable rendering of this error.
    pub fn to_string(&self) -> (r: String)
        ensures
            r@ == error_text(self@),
    {
        let mut s = String::from_str("Invalid GTS ID '");
        s.append(self.id.as_str());
        s.append("': ");
        match &self.segment {
            Some(seg) => {
                s.append("segment #");
                let n = decimal_string(seg.num);
                s.append(n.as_str());
                s.append(" at byte ");
                let o = decimal_string(seg.offset);
                s.append(o.as_str());
                s.append(" ('");
                s.append(seg.segment.as_str());
                s.append("'): ");
            },
            None => {},
        }
        s.append(self.cause.as_str());
        s
    }
}

/// The rendering of an error: the identifier, the segment location when
/// there is one, then the cause.
pub open spec fn error_text(e: GtsIdErrorModel) -> Seq<char> {
    "Invalid GTS ID '"@ + e.id + "': "@ + match e.segment {
        Some(s) => "segment #"@ + decimal(s.num as nat) + " at byte "@ + decimal(s.offset as nat)
            + " ('"@ + s.segment + "'): "@,
        None => Seq::<char>::empty(),
    } + e.cause
}

} // verus!
