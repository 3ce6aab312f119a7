//! Parsed segments of a GTS identifier.
//!
//! A segment is the part between `~` markers. A concrete identifier is made
//! of [`GtsIdSegment`]s (a `vendor.package.namespace.type.version` segment or
//! a trailing anonymous-instance UUID); a pattern is made of
//! [`GtsIdPatternSegment`]s, which may also be a trailing `*` wildcard.
//! Segments are only produced by the validating parser.

use vstd::prelude::*;
use vstd::string::*;

use crate::error::{
    expected_format, expected_format_text, segment_fault_text, token_name, SegmentFault,
};
use crate::parse::{parse_u32_in, spec_parse_u32_exact, token_valid_in, valid_token};
use crate::text::{chars_of, count_char, count_in, decimal_string, split_char, split_ranges, substring};

verus! {

broadcast use vstd::string::group_string_axioms;

/// The parsed name and version components shared by concrete and wildcard
/// segments. For a wildcard segment, empty names, a zero major version and
/// no minor version mean "unspecified".
#[derive(Debug, Clone, PartialEq, Eq, Hash)]
pub struct GtsIdSegmentParts {
    raw: String,
    vendor: String,
    package: String,
    namespace: String,
    type_token: String,
    ver_major: u32,
    ver_minor: Option<u32>,
}

pub struct PartsModel {
    pub raw: Seq<char>,
    pub vendor: Seq<char>,
    pub package: Seq<char>,
    pub namespace: Seq<char>,
    pub type_token: Seq<char>,
    pub ver_major: u32,
    pub ver_minor: Option<u32>,
}

impl View for GtsIdSegmentParts {
    type V = PartsModel;

    closed spec fn view(&self) -> PartsModel {
        PartsModel {
            raw: self.raw@,
            vendor: self.vendor@,
            package: self.package@,
            namespace: self.namespace@,
            type_token: self.type_token@,
            ver_major: self.ver_major,
            ver_minor: self.ver_minor,
        }
    }
}

/// Whether `s` ends with the type marker `~`.
pub open spec fn ends_with_tilde(s: Seq<char>) -> bool {
    s.len() > 0 && s.last() == '~'
}

impl GtsIdSegmentParts {
    /// The raw segment text, including any trailing `~` of a type segment.
    pub fn raw(&self) -> (r: &str)
        ensures
            r@ == self@.raw,
    {
        self.raw.as_str()
    }

    /// The vendor token, or `""` when unspecified in a wildcard segment.
    pub fn vendor(&self) -> (r: &str)
        ensures
            r@ == self@.vendor,
    {
        self.vendor.as_str()
    }

    /// The package token, or `""` when unspecified in a wildcard segment.
    pub fn package(&self) -> (r: &str)
        ensures
            r@ == self@.package,
    {
        self.package.as_str()
    }

    /// The namespace token, or `""` when unspecified in a wildcard segment.
    pub fn namespace(&self) -> (r: &str)
        ensures
            r@ == self@.namespace,
    {
        self.namespace.as_str()
    }

    /// The type token, or `""` when unspecified in a wildcard segment.
    pub fn type_token(&self) -> (r: &str)
        ensures
            r@ == self@.type_token,
    {
        self.type_token.as_str()
    }

    /// The major version, or `0` when unspecified in a wildcard segment.
    pub fn ver_major(&self) -> (r: u32)
        ensures
            r == self@.ver_major,
    {
        self.ver_major
    }

    /// The minor version, when present.
    pub fn ver_minor(&self) -> (r: Option<u32>)
        ensures
            r == self@.ver_minor,
    {
        self.ver_minor
    }

    /// `true` when the segment is a type definition (ends with `~`).
    pub fn is_type(&self) -> (r: bool)
        ensures
            r == ends_with_tilde(self@.raw),
    {
        let cs = chars_of(self.raw.as_str());
        cs.len() > 0 && cs[cs.len() - 1] == '~'
    }

    /// A copy of these parts.
    pub fn duplicate(&self) -> (r: Self)
        ensures
            r@ == self@,
    {
        GtsIdSegmentParts {
            raw: self.raw.clone(),
            vendor: self.vendor.clone(),
            package: self.package.clone(),
            namespace: self.namespace.clone(),
            type_token: self.type_token.clone(),
            ver_major: self.ver_major,
            ver_minor: self.ver_minor,
        }
    }
}


pub open spec fn star_text() -> Seq<char> {
    seq!['*']
}

pub open spec fn v_star_text() -> Seq<char> {
    seq!['v', '*']
}

pub open spec fn starts_with_v(t: Seq<char>) -> bool {
    t.len() > 0 && t[0] == 'v'
}

/// The segment text with its type marker removed, or the fault when the
/// marker is misplaced or repeated.
pub open spec fn segment_body(seg: Seq<char>) -> Result<Seq<char>, SegmentFault> {
    let tc = count_char(seg, '~');
    if tc > 1 {
        Err(SegmentFault::TooManyTildes)
    } else if tc == 1 {
        if seg.last() == '~' {
            Ok(seg.drop_last())
        } else {
            Err(SegmentFault::TildeNotAtEnd)
        }
    } else {
        Ok(seg)
    }
}

/// The name tokens (at most the first four) from index `i` on must be valid;
/// with wildcards allowed, a `*` token stops the check when it is the last.
pub open spec fn check_name_tokens(toks: Seq<Seq<char>>, allow: bool, i: nat) -> Result<
    (),
    SegmentFault,
>
    decreases 4 - i,
{
    if i >= 4 || i >= toks.len() {
        Ok(())
    } else if allow && toks[i as int] == star_text() {
        if i == toks.len() - 1 {
            Ok(())
        } else {
            Err(SegmentFault::WildcardNotFinal)
        }
    } else if !valid_token(toks[i as int]) {
        Err(SegmentFault::InvalidToken(i, toks[i as int]))
    } else {
        check_name_tokens(toks, allow, i + 1)
    }
}

pub open spec fn blank_parts(raw: Seq<char>) -> PartsModel {
    PartsModel {
        raw,
        vendor: Seq::<char>::empty(),
        package: Seq::<char>::empty(),
        namespace: Seq::<char>::empty(),
        type_token: Seq::<char>::empty(),
        ver_major: 0,
        ver_minor: None,
    }
}

/// The version part: the major token (index 4) and the minor token (index 5).
pub open spec fn version_parts(p: PartsModel, toks: Seq<Seq<char>>, allow: bool) -> Result<
    (PartsModel, bool),
    SegmentFault,
> {
    let n = toks.len();
    if n > 4 {
        if allow && (toks[4] == star_text() || toks[4] == v_star_text()) {
            if n != 5 {
                Err(SegmentFault::WildcardNotFinal)
            } else {
                Ok((p, true))
            }
        } else if !starts_with_v(toks[4]) {
            Err(SegmentFault::MajorWithoutV)
        } else {
            match spec_parse_u32_exact(toks[4].drop_first()) {
                None => Err(SegmentFault::MajorNotInteger(toks[4].drop_first())),
                Some(major) => {
                    let p = PartsModel { ver_major: major, ..p };
                    if n > 5 {
                        if allow && toks[5] == star_text() {
                            Ok((p, true))
                        } else {
                            match spec_parse_u32_exact(toks[5]) {
                                None => Err(SegmentFault::MinorNotInteger(toks[5])),
                                Some(minor) => Ok((PartsModel { ver_minor: Some(minor), ..p }, false)),
                            }
                        }
                    } else {
                        Ok((p, false))
                    }
                },
            }
        }
    } else {
        Ok((p, false))
    }
}

/// Fills the name fields token by token; a `*` token (when allowed) ends
/// the segment as a wildcard carrying the fields filled so far.
pub open spec fn build_parts(raw: Seq<char>, toks: Seq<Seq<char>>, allow: bool) -> Result<
    (PartsModel, bool),
    SegmentFault,
> {
    let n = toks.len();
    let p0 = blank_parts(raw);
    if allow && toks[0] == star_text() {
        Ok((p0, true))
    } else {
        let p1 = PartsModel { vendor: toks[0], ..p0 };
        if n > 1 && allow && toks[1] == star_text() {
            Ok((p1, true))
        } else {
            let p2 = if n > 1 {
                PartsModel { package: toks[1], ..p1 }
            } else {
                p1
            };
            if n > 2 && allow && toks[2] == star_text() {
                Ok((p2, true))
            } else {
                let p3 = if n > 2 {
                    PartsModel { namespace: toks[2], ..p2 }
                } else {
                    p2
                };
                if n > 3 && allow && toks[3] == star_text() {
                    Ok((p3, true))
                } else {
                    let p4 = if n > 3 {
                        PartsModel { type_token: toks[3], ..p3 }
                    } else {
                        p3
                    };
                    version_parts(p4, toks, allow)
                }
            }
        }
    }
}

/// The tokens of one segment (the text between `~` markers, with its own
/// trailing `~` if any), once the marker and the token count are checked.
pub open spec fn segment_tokens(seg: Seq<char>, allow: bool) -> Result<
    Seq<Seq<char>>,
    SegmentFault,
> {
    match segment_body(seg) {
        Err(f) => Err(f),
        Ok(body) => {
            let toks = split_char(body, '.');
            let n = toks.len();
            let ew = allow && body.len() > 0 && body.last() == '*';
            if n > 6 {
                Err(SegmentFault::TooManyTokens(n))
            } else if !ew && n < 5 {
                Err(SegmentFault::TooFewTokens(n))
            } else if !ew && n == 6 && !(allow && toks.contains(star_text())) && !starts_with_v(
                toks[4],
            ) && starts_with_v(toks[5]) && valid_token(toks[4]) {
                Err(SegmentFault::TooManyNameTokens)
            } else {
                Ok(toks)
            }
        },
    }
}

/// The parse of one segment: its parts and whether it is a wildcard, or
/// the fault. With `allow` false the wildcard flag is never set.
pub open spec fn spec_segment_parts(seg: Seq<char>, allow: bool) -> Result<
    (PartsModel, bool),
    SegmentFault,
> {
    match segment_tokens(seg, allow) {
        Err(f) => Err(f),
        Ok(toks) => match check_name_tokens(toks, allow, 0) {
            Err(f) => Err(f),
            Ok(_) => build_parts(seg, toks, allow),
        },
    }
}

fn is_star_in(cs: &Vec<char>, from: usize, to: usize) -> (r: bool)
    requires
        from <= to <= cs@.len(),
    ensures
        r == (cs@.subrange(from as int, to as int) == star_text()),
{
    let r = to - from == 1 && cs[from] == '*';
    proof {
        if to - from == 1 {
            let t = cs@.subrange(from as int, to as int);
            assert(t =~= seq![cs@[from as int]]);
            if cs@[from as int] == '*' {
                assert(t =~= star_text());
            } else {
                assert(t[0] != star_text()[0]);
            }
        } else {
            assert(cs@.subrange(from as int, to as int).len() != star_text().len());
        }
    }
    r
}

fn is_v_star_in(cs: &Vec<char>, from: usize, to: usize) -> (r: bool)
    requires
        from <= to <= cs@.len(),
    ensures
        r == (cs@.subrange(from as int, to as int) == v_star_text()),
{
    let r = to - from == 2 && cs[from] == 'v' && cs[from + 1] == '*';
    proof {
        if to - from == 2 {
            let t = cs@.subrange(from as int, to as int);
            assert(t =~= seq![cs@[from as int], cs@[from + 1]]);
            if r {
                assert(t =~= v_star_text());
            } else if cs@[from as int] != 'v' {
                assert(t[0] != v_star_text()[0]);
            } else {
                assert(t[1] != v_star_text()[1]);
            }
        } else {
            assert(cs@.subrange(from as int, to as int).len() != v_star_text().len());
        }
    }
    r
}

fn starts_v_in(cs: &Vec<char>, from: usize, to: usize) -> (r: bool)
    requires
        from <= to <= cs@.len(),
    ensures
        r == starts_with_v(cs@.subrange(from as int, to as int)),
{
    from < to && cs[from] == 'v'
}

fn token_name_string(i: usize) -> (r: String)
    ensures
        r@ == token_name(i as nat),
{
    if i == 0 {
        String::from_str("vendor")
    } else if i == 1 {
        String::from_str("package")
    } else if i == 2 {
        String::from_str("namespace")
    } else if i == 3 {
        String::from_str("type")
    } else {
        String::from_str("token")
    }
}

/// Whether any of the token ranges holds exactly `*`.
fn any_star(cs: &Vec<char>, toks: &Vec<(usize, usize)>, ts: Ghost<Seq<Seq<char>>>) -> (r: bool)
    requires
        toks@.len() == ts@.len(),
        forall|k: int|
            0 <= k < toks@.len() ==> {
                &&& #[trigger] toks@[k].0 <= toks@[k].1 <= cs@.len()
                &&& cs@.subrange(toks@[k].0 as int, toks@[k].1 as int) == ts@[k]
            },
    ensures
        r == ts@.contains(star_text()),
{
    let mut i: usize = 0;
    while i < toks.len()
        invariant
            i <= toks@.len() == ts@.len(),
            forall|k: int|
                0 <= k < toks@.len() ==> {
                    &&& #[trigger] toks@[k].0 <= toks@[k].1 <= cs@.len()
                    &&& cs@.subrange(toks@[k].0 as int, toks@[k].1 as int) == ts@[k]
                },
            forall|k: int| 0 <= k < i ==> ts@[k] != star_text(),
        decreases toks.len() - i,
    {
        let (a, b) = toks[i];
        assert(toks@[i as int].0 <= toks@[i as int].1);
        if is_star_in(cs, a, b) {
            assert(ts@[i as int] == star_text());
            return true;
        }
        i = i + 1;
    }
    false
}

/// Token ranges within the segment characters: each lies inside the
/// segment and holds the corresponding token text.
pub open spec fn ranges_hold(cs: Seq<char>, toks: Seq<(usize, usize)>, ts: Seq<Seq<char>>) -> bool {
    &&& toks.len() == ts.len()
    &&& forall|k: int|
        0 <= k < toks.len() ==> {
            &&& 0 <= #[trigger] toks[k].0 <= toks[k].1 <= cs.len()
            &&& cs.subrange(toks[k].0 as int, toks[k].1 as int) == ts[k]
        }
}

/// Checks the type marker and the token count, giving the token ranges.
fn segment_token_ranges(num: usize, cs: &Vec<char>, allow: bool) -> (r: Result<
    Vec<(usize, usize)>,
    String,
>)
    ensures
        match segment_tokens(cs@, allow) {
            Ok(ts) => r is Ok && ranges_hold(cs@, r->Ok_0@, ts) && ts.len() >= 1,
            Err(f) => r is Err && r->Err_0@ == segment_fault_text(num as nat, f),
        },
{
    let n = cs.len();
    assert(cs@.subrange(0, n as int) =~= cs@);
    let tc = count_in(cs, 0, n, '~');
    let mut end = n;
    if tc > 0 {
        if tc > 1 {
            return Err(String::from_str("Too many '~' characters"));
        }
        if cs[n - 1] == '~' {
            end = n - 1;
            assert(cs@.drop_last() =~= cs@.subrange(0, end as int));
        } else {
            return Err(String::from_str("'~' must be at the end"));
        }
    }
    let ghost body = cs@.subrange(0, end as int);
    assert(segment_body(cs@) == Ok::<Seq<char>, SegmentFault>(body));
    let toks = split_ranges(cs, 0, end, '.');
    let ghost ts = split_char(body, '.');
    let nt = toks.len();
    if nt > 6 {
        let mut m = String::from_str("Too many tokens (got ");
        let d = decimal_string(nt);
        m.append(d.as_str());
        m.append(", max 6). Expected format: ");
        let f = expected_format(num);
        m.append(f.as_str());
        return Err(m);
    }
    let ew = allow && end > 0 && cs[end - 1] == '*';
    assert(ew == (allow && body.len() > 0 && body.last() == '*'));
    if !ew && nt < 5 {
        let mut m = String::from_str("Too few tokens (got ");
        let d = decimal_string(nt);
        m.append(d.as_str());
        m.append(", min 5). Expected format: ");
        let f = expected_format(num);
        m.append(f.as_str());
        return Err(m);
    }
    assert(ranges_hold(cs@, toks@, ts));
    if !ew && nt == 6 {
        let has_wildcard = allow && any_star(cs, &toks, Ghost(ts));
        let (a4, b4) = toks[4];
        let (a5, b5) = toks[5];
        assert(toks@[4].0 <= toks@[4].1 && toks@[5].0 <= toks@[5].1);
        if !has_wildcard && !starts_v_in(cs, a4, b4) && starts_v_in(cs, a5, b5) && token_valid_in(
            cs,
            a4,
            b4,
        ) {
            let mut m = String::from_str(
                "Too many name tokens before version (got 5, expected 4). Expected format: ",
            );
            let f = expected_format(num);
            m.append(f.as_str());
            return Err(m);
        }
    }
    Ok(toks)
}

/// Checks the name tokens (see [`check_name_tokens`]).
fn check_names(num: usize, cs: &Vec<char>, segment: &str, toks: &Vec<(usize, usize)>, ts: Ghost<Seq<Seq<char>>>, allow: bool) -> (r: Result<(), String>)
    requires
        ranges_hold(cs@, toks@, ts@),
        cs@ == segment@,
    ensures
        match check_name_tokens(ts@, allow, 0) {
            Ok(_) => r is Ok,
            Err(f) => r is Err && r->Err_0@ == segment_fault_text(num as nat, f),
        },
{
    let nt = toks.len();
    let mut i: usize = 0;
    while i < 4 && i < nt
        invariant
            i <= 4,
            i <= nt,
            nt == toks@.len(),
            ranges_hold(cs@, toks@, ts@),
            cs@ == segment@,
            check_name_tokens(ts@, allow, 0) == check_name_tokens(ts@, allow, i as nat),
        ensures
            check_name_tokens(ts@, allow, 0) == Ok::<(), SegmentFault>(()),
        decreases 4 - i,
    {
        let (a, b) = toks[i];
        assert(toks@[i as int].0 <= toks@[i as int].1);
        if allow && is_star_in(cs, a, b) {
            if i == nt - 1 {
                break;
            }
            return Err(String::from_str("Wildcard '*' is only allowed as the final token"));
        }
        if !token_valid_in(cs, a, b) {
            let mut m = String::from_str("Invalid ");
            let tn = token_name_string(i);
            m.append(tn.as_str());
            m.append(" token '");
            let t = substring(segment, a, b);
            m.append(t.as_str());
            m.append("'. Must start with [a-z_] and contain only [a-z0-9_]");
            return Err(m);
        }
        i = i + 1;
    }
    Ok(())
}

/// Parses the version tokens into `parts` (see [`version_parts`]).
fn fill_version(num: usize, cs: &Vec<char>, segment: &str, toks: &Vec<(usize, usize)>, ts: Ghost<Seq<Seq<char>>>, allow: bool, parts: GtsIdSegmentParts) -> (r: Result<(GtsIdSegmentParts, bool), String>)
    requires
        ranges_hold(cs@, toks@, ts@),
        cs@ == segment@,
        toks@.len() <= 6,
    ensures
        match version_parts(parts@, ts@, allow) {
            Ok((p, w)) => r is Ok && r->Ok_0.0@ == p && r->Ok_0.1 == w,
            Err(f) => r is Err && r->Err_0@ == segment_fault_text(num as nat, f),
        },
{
    let mut parts = parts;
    let nt = toks.len();
    if nt > 4 {
        assert(toks@[4].0 <= toks@[4].1);
        let (a, b) = toks[4];
        if allow && (is_star_in(cs, a, b) || is_v_star_in(cs, a, b)) {
            if nt != 5 {
                return Err(String::from_str("Wildcard '*' is only allowed as the final token"));
            }
            return Ok((parts, true));
        }
        if !starts_v_in(cs, a, b) {
            return Err(String::from_str("Major version must start with 'v'"));
        }
        assert(ts@[4].drop_first() =~= cs@.subrange(a + 1, b as int));
        match parse_u32_in(cs, a + 1, b) {
            None => {
                let mut m = String::from_str("Major version must be an integer, got '");
                let t = substring(segment, a + 1, b);
                m.append(t.as_str());
                m.append("'");
                return Err(m);
            },
            Some(major) => {
                parts.ver_major = major;
            },
        }
        if nt > 5 {
            assert(toks@[5].0 <= toks@[5].1);
            let (a, b) = toks[5];
            if allow && is_star_in(cs, a, b) {
                return Ok((parts, true));
            }
            match parse_u32_in(cs, a, b) {
                None => {
                    let mut m = String::from_str("Minor version must be an integer, got '");
                    let t = substring(segment, a, b);
                    m.append(t.as_str());
                    m.append("'");
                    return Err(m);
                },
                Some(minor) => {
                    parts.ver_minor = Some(minor);
                },
            }
        }
    }
    Ok((parts, false))
}

/// Fills the parts token by token (see [`build_parts`]).
fn fill_parts(num: usize, cs: &Vec<char>, segment: &str, toks: &Vec<(usize, usize)>, ts: Ghost<Seq<Seq<char>>>, allow: bool) -> (r: Result<(GtsIdSegmentParts, bool), String>)
    requires
        ranges_hold(cs@, toks@, ts@),
        cs@ == segment@,
        1 <= toks@.len() <= 6,
    ensures
        match build_parts(segment@, ts@, allow) {
            Ok((p, w)) => r is Ok && r->Ok_0.0@ == p && r->Ok_0.1 == w,
            Err(f) => r is Err && r->Err_0@ == segment_fault_text(num as nat, f),
        },
{
    let nt = toks.len();
    let mut parts = GtsIdSegmentParts {
        raw: segment.to_owned(),
        vendor: String::new(),
        package: String::new(),
        namespace: String::new(),
        type_token: String::new(),
        ver_major: 0,
        ver_minor: None,
    };
    assert(toks@[0].0 <= toks@[0].1);
    let (a0, b0) = toks[0];
    if allow && is_star_in(cs, a0, b0) {
        return Ok((parts, true));
    }
    parts.vendor = substring(segment, a0, b0);
    if nt > 1 {
        assert(toks@[1].0 <= toks@[1].1);
        let (a, b) = toks[1];
        if allow && is_star_in(cs, a, b) {
            return Ok((parts, true));
        }
        parts.package = substring(segment, a, b);
    }
    if nt > 2 {
        assert(toks@[2].0 <= toks@[2].1);
        let (a, b) = toks[2];
        if allow && is_star_in(cs, a, b) {
            return Ok((parts, true));
        }
        parts.namespace = substring(segment, a, b);
    }
    if nt > 3 {
        assert(toks@[3].0 <= toks@[3].1);
        let (a, b) = toks[3];
        if allow && is_star_in(cs, a, b) {
            return Ok((parts, true));
        }
        parts.type_token = substring(segment, a, b);
    }
    fill_version(num, cs, segment, toks, ts, allow, parts)
}

/// Parses a segment's tokens into its parts, reporting whether it is a
/// wildcard. Shared by concrete (`allow_wildcards` false) and pattern
/// (`allow_wildcards` true) segments; the error is a human-readable message
/// that quotes the format hint for segment `num`.
pub fn parse_segment_parts(num: usize, segment: &str, allow_wildcards: bool) -> (r: Result<
    (GtsIdSegmentParts, bool),
    String,
>)
    ensures
        match spec_segment_parts(segment@, allow_wildcards) {
            Ok((p, w)) => r is Ok && r->Ok_0.0@ == p && r->Ok_0.1 == w,
            Err(f) => r is Err && r->Err_0@ == segment_fault_text(num as nat, f),
        },
{
    let cs = chars_of(segment);
    let toks = match segment_token_ranges(num, &cs, allow_wildcards) {
        Ok(t) => t,
        Err(m) => {
            return Err(m);
        },
    };
    let ghost ts = segment_tokens(cs@, allow_wildcards)->Ok_0;
    match check_names(num, &cs, segment, &toks, Ghost(ts), allow_wildcards) {
        Ok(_) => {},
        Err(m) => {
            return Err(m);
        },
    }
    fill_parts(num, &cs, segment, &toks, Ghost(ts), allow_wildcards)
}


/// A trailing anonymous-instance UUID (combined anonymous instance). Its
/// text always has the hyphenated UUID shape: only the parser creates one.
#[derive(Debug, PartialEq, Eq, Hash)]
pub struct GtsUuidTail(String);

impl View for GtsUuidTail {
    type V = Seq<char>;

    closed spec fn view(&self) -> Seq<char> {
        self.0@
    }
}

impl GtsUuidTail {
    #[verifier::type_invariant]
    spec fn uuid_shaped(self) -> bool {
        crate::parse::uuid_text(self.0@)
    }

    /// The UUID text.
    pub fn as_str(&self) -> (r: &str)
        ensures
            r@ == self@,
    {
        self.0.as_str()
    }

    /// The parsed UUID.
    pub fn uuid(&self) -> (r: Option<crate::uuid::GtsUuid>)
        ensures
            r is Some && r->Some_0@ == crate::uuid::uuid_text_bytes(self@),
    {
        proof {
            use_type_invariant(self);
        }
        crate::uuid::parse_uuid_text(self.0.as_str())
    }

    pub fn duplicate(&self) -> (r: Self)
        ensures
            r@ == self@,
    {
        proof {
            use_type_invariant(self);
        }
        GtsUuidTail(self.0.clone())
    }
}

impl Clone for GtsUuidTail {
    fn clone(&self) -> (r: Self)
        ensures
            r@ == self@,
    {
        self.duplicate()
    }
}

/// The model of a concrete segment.
pub enum SegmentModel {
    Concrete(PartsModel),
    UuidTail(Seq<char>),
}

/// The model of a pattern segment.
pub enum PatternSegmentModel {
    Segment(SegmentModel),
    Wildcard(PartsModel),
}

/// The fields that segment matching reads.
pub struct SegmentFields {
    pub vendor: Seq<char>,
    pub package: Seq<char>,
    pub namespace: Seq<char>,
    pub type_token: Seq<char>,
    pub ver_major: u32,
    pub ver_minor: Option<u32>,
    pub is_type: bool,
    pub uuid_tail: Option<Seq<char>>,
}

pub open spec fn parts_fields(p: PartsModel) -> SegmentFields {
    SegmentFields {
        vendor: p.vendor,
        package: p.package,
        namespace: p.namespace,
        type_token: p.type_token,
        ver_major: p.ver_major,
        ver_minor: p.ver_minor,
        is_type: ends_with_tilde(p.raw),
        uuid_tail: None,
    }
}

pub open spec fn segment_raw(m: SegmentModel) -> Seq<char> {
    match m {
        SegmentModel::Concrete(p) => p.raw,
        SegmentModel::UuidTail(u) => u,
    }
}

pub open spec fn segment_fields(m: SegmentModel) -> SegmentFields {
    match m {
        SegmentModel::Concrete(p) => parts_fields(p),
        SegmentModel::UuidTail(u) => SegmentFields {
            vendor: Seq::<char>::empty(),
            package: Seq::<char>::empty(),
            namespace: Seq::<char>::empty(),
            type_token: Seq::<char>::empty(),
            ver_major: 0,
            ver_minor: None,
            is_type: ends_with_tilde(u),
            uuid_tail: Some(u),
        },
    }
}

pub open spec fn pattern_raw(m: PatternSegmentModel) -> Seq<char> {
    match m {
        PatternSegmentModel::Segment(s) => segment_raw(s),
        PatternSegmentModel::Wildcard(p) => p.raw,
    }
}

pub open spec fn pattern_fields(m: PatternSegmentModel) -> SegmentFields {
    match m {
        PatternSegmentModel::Segment(s) => segment_fields(s),
        PatternSegmentModel::Wildcard(p) => parts_fields(p),
    }
}

/// A single concrete `~`-delimited segment of a parsed GTS identifier: a
/// `vendor.package.namespace.type.version` segment or a trailing UUID.
#[derive(Debug, Clone, PartialEq, Eq, Hash)]
pub enum GtsIdSegment {
    /// A concrete vendor.package.namespace.type.version segment.
    Concrete(GtsIdSegmentParts),
    /// A trailing anonymous-instance UUID.
    UuidTail(GtsUuidTail),
}

impl View for GtsIdSegment {
    type V = SegmentModel;

    open spec fn view(&self) -> SegmentModel {
        match self {
            GtsIdSegment::Concrete(p) => SegmentModel::Concrete(p@),
            GtsIdSegment::UuidTail(u) => SegmentModel::UuidTail(u@),
        }
    }
}

/// A read-only view of a segment's fields, shared by concrete and pattern
/// segments so that matching reads either kind the same way.
pub trait SegmentView {
    spec fn fields(&self) -> SegmentFields;

    fn vendor(&self) -> (r: &str)
        ensures
            r@ == self.fields().vendor,
    ;

    fn package(&self) -> (r: &str)
        ensures
            r@ == self.fields().package,
    ;

    fn namespace(&self) -> (r: &str)
        ensures
            r@ == self.fields().namespace,
    ;

    fn type_token(&self) -> (r: &str)
        ensures
            r@ == self.fields().type_token,
    ;

    fn ver_major(&self) -> (r: u32)
        ensures
            r == self.fields().ver_major,
    ;

    fn ver_minor(&self) -> (r: Option<u32>)
        ensures
            r == self.fields().ver_minor,
    ;

    fn is_type(&self) -> (r: bool)
        ensures
            r == self.fields().is_type,
    ;

    fn uuid_tail(&self) -> (r: Option<&str>)
        ensures
            match r {
                Some(t) => self.fields().uuid_tail == Some(t@),
                None => self.fields().uuid_tail is None,
            },
    ;
}

impl GtsIdSegment {
    /// The parsed parts of a concrete segment; `None` for a UUID tail.
    pub fn parts(&self) -> (r: Option<&GtsIdSegmentParts>)
        ensures
            match self@ {
                SegmentModel::Concrete(p) => r is Some && r->Some_0@ == p,
                SegmentModel::UuidTail(_) => r is None,
            },
    {
        match self {
            GtsIdSegment::Concrete(p) => Some(p),
            GtsIdSegment::UuidTail(_) => None,
        }
    }

    /// The raw segment text: with its trailing `~` for a type segment, the
    /// UUID itself for a UUID tail.
    pub fn raw(&self) -> (r: &str)
        ensures
            r@ == segment_raw(self@),
    {
        match self {
            GtsIdSegment::Concrete(p) => p.raw(),
            GtsIdSegment::UuidTail(u) => u.as_str(),
        }
    }

    /// The vendor token, or `""` for a UUID tail.
    pub fn vendor(&self) -> (r: &str)
        ensures
            r@ == segment_fields(self@).vendor,
    {
        match self {
            GtsIdSegment::Concrete(p) => p.vendor(),
            GtsIdSegment::UuidTail(_) => crate::text::empty_str(),
        }
    }

    /// The package token, or `""` for a UUID tail.
    pub fn package(&self) -> (r: &str)
        ensures
            r@ == segment_fields(self@).package,
    {
        match self {
            GtsIdSegment::Concrete(p) => p.package(),
            GtsIdSegment::UuidTail(_) => crate::text::empty_str(),
        }
    }

    /// The namespace token, or `""` for a UUID tail.
    pub fn namespace(&self) -> (r: &str)
        ensures
            r@ == segment_fields(self@).namespace,
    {
        match self {
            GtsIdSegment::Concrete(p) => p.namespace(),
            GtsIdSegment::UuidTail(_) => crate::text::empty_str(),
        }
    }

    /// The type token, or `""` for a UUID tail.
    pub fn type_token(&self) -> (r: &str)
        ensures
            r@ == segment_fields(self@).type_token,
    {
        match self {
            GtsIdSegment::Concrete(p) => p.type_token(),
            GtsIdSegment::UuidTail(_) => crate::text::empty_str(),
        }
    }

    /// The major version, or `0` for a UUID tail.
    pub fn ver_major(&self) -> (r: u32)
        ensures
            r == segment_fields(self@).ver_major,
    {
        match self {
            GtsIdSegment::Concrete(p) => p.ver_major(),
            GtsIdSegment::UuidTail(_) => 0,
        }
    }

    /// The minor version, when present.
    pub fn ver_minor(&self) -> (r: Option<u32>)
        ensures
            r == segment_fields(self@).ver_minor,
    {
        match self {
            GtsIdSegment::Concrete(p) => p.ver_minor(),
            GtsIdSegment::UuidTail(_) => None,
        }
    }

    /// `true` when the segment is a type definition (its raw text ends
    /// with `~`).
    pub fn is_type(&self) -> (r: bool)
        ensures
            r == segment_fields(self@).is_type,
            r == ends_with_tilde(segment_raw(self@)),
    {
        let cs = chars_of(self.raw());
        cs.len() > 0 && cs[cs.len() - 1] == '~'
    }

    /// The UUID text when this is a UUID-tail segment.
    pub fn uuid_tail(&self) -> (r: Option<&str>)
        ensures
            match r {
                Some(t) => segment_fields(self@).uuid_tail == Some(t@),
                None => segment_fields(self@).uuid_tail is None,
            },
    {
        match self {
            GtsIdSegment::UuidTail(u) => Some(u.as_str()),
            GtsIdSegment::Concrete(_) => None,
        }
    }

    /// The UUID of a UUID-tail segment; `None` for any other segment.
    pub fn uuid(&self) -> (r: Option<crate::uuid::GtsUuid>)
        ensures
            match self@ {
                SegmentModel::UuidTail(u) => r is Some && r->Some_0@ == crate::uuid::uuid_text_bytes(u),
                SegmentModel::Concrete(_) => r is None,
            },
    {
        match self {
            GtsIdSegment::UuidTail(u) => u.uuid(),
            GtsIdSegment::Concrete(_) => None,
        }
    }

    /// A UUID-tail segment holding `uuid`, already validated as a
    /// hyphenated UUID.
    pub fn uuid_tail_segment(uuid: &str) -> (r: Self)
        requires
            crate::parse::uuid_text(uuid@),
        ensures
            r@ == SegmentModel::UuidTail(uuid@),
    {
        GtsIdSegment::UuidTail(GtsUuidTail(uuid.to_owned()))
    }

    /// Parses a single concrete segment; `num` is its 1-based position,
    /// quoted in the format hint of the error message.
    pub fn parse(num: usize, segment: &str) -> (r: Result<Self, String>)
        ensures
            match spec_segment_parts(segment@, false) {
                Ok((p, _)) => r is Ok && r->Ok_0@ == SegmentModel::Concrete(p),
                Err(f) => r is Err && r->Err_0@ == segment_fault_text(num as nat, f),
            },
    {
        match parse_segment_parts(num, segment, false) {
            Ok((parts, _)) => Ok(GtsIdSegment::Concrete(parts)),
            Err(m) => Err(m),
        }
    }

    /// A copy of this segment.
    pub fn duplicate(&self) -> (r: Self)
        ensures
            r@ == self@,
    {
        match self {
            GtsIdSegment::Concrete(p) => GtsIdSegment::Concrete(p.duplicate()),
            GtsIdSegment::UuidTail(u) => GtsIdSegment::UuidTail(u.duplicate()),
        }
    }
}

/// A single segment of a parsed GTS identifier pattern: a concrete segment
/// or a trailing `*` wildcard with the (possibly partial) prefix before it.
#[derive(Debug, Clone, PartialEq, Eq, Hash)]
pub enum GtsIdPatternSegment {
    /// A concrete (non-wildcard) segment.
    Segment(GtsIdSegment),
    /// A trailing `*` wildcard with its prefix constraints.
    Wildcard(GtsIdSegmentParts),
}

impl View for GtsIdPatternSegment {
    type V = PatternSegmentModel;

    open spec fn view(&self) -> PatternSegmentModel {
        match self {
            GtsIdPatternSegment::Segment(s) => PatternSegmentModel::Segment(s@),
            GtsIdPatternSegment::Wildcard(p) => PatternSegmentModel::Wildcard(p@),
        }
    }
}

impl GtsIdPatternSegment {
    /// `true` when this is a wildcard segment.
    pub fn is_wildcard(&self) -> (r: bool)
        ensures
            r == (self@ is Wildcard),
    {
        match self {
            GtsIdPatternSegment::Wildcard(_) => true,
            GtsIdPatternSegment::Segment(_) => false,
        }
    }

    /// The raw segment text.
    pub fn raw(&self) -> (r: &str)
        ensures
            r@ == pattern_raw(self@),
    {
        match self {
            GtsIdPatternSegment::Segment(s) => s.raw(),
            GtsIdPatternSegment::Wildcard(p) => p.raw(),
        }
    }

    /// The vendor token, or `""` when unspecified.
    pub fn vendor(&self) -> (r: &str)
        ensures
            r@ == pattern_fields(self@).vendor,
    {
        match self {
            GtsIdPatternSegment::Segment(s) => s.vendor(),
            GtsIdPatternSegment::Wildcard(p) => p.vendor(),
        }
    }

    /// The package token, or `""` when unspecified.
    pub fn package(&self) -> (r: &str)
        ensures
            r@ == pattern_fields(self@).package,
    {
        match self {
            GtsIdPatternSegment::Segment(s) => s.package(),
            GtsIdPatternSegment::Wildcard(p) => p.package(),
        }
    }

    /// The namespace token, or `""` when unspecified.
    pub fn namespace(&self) -> (r: &str)
        ensures
            r@ == pattern_fields(self@).namespace,
    {
        match self {
            GtsIdPatternSegment::Segment(s) => s.namespace(),
            GtsIdPatternSegment::Wildcard(p) => p.namespace(),
        }
    }

    /// The type token, or `""` when unspecified.
    pub fn type_token(&self) -> (r: &str)
        ensures
            r@ == pattern_fields(self@).type_token,
    {
        match self {
            GtsIdPatternSegment::Segment(s) => s.type_token(),
            GtsIdPatternSegment::Wildcard(p) => p.type_token(),
        }
    }

    /// The major version, or `0` when unspecified.
    pub fn ver_major(&self) -> (r: u32)
        ensures
            r == pattern_fields(self@).ver_major,
    {
        match self {
            GtsIdPatternSegment::Segment(s) => s.ver_major(),
            GtsIdPatternSegment::Wildcard(p) => p.ver_major(),
        }
    }

    /// The minor version, when present.
    pub fn ver_minor(&self) -> (r: Option<u32>)
        ensures
            r == pattern_fields(self@).ver_minor,
    {
        match self {
            GtsIdPatternSegment::Segment(s) => s.ver_minor(),
            GtsIdPatternSegment::Wildcard(p) => p.ver_minor(),
        }
    }

    /// `true` when the segment is a type definition (ends with `~`).
    pub fn is_type(&self) -> (r: bool)
        ensures
            r == pattern_fields(self@).is_type,
            r == ends_with_tilde(pattern_raw(self@)),
    {
        let cs = chars_of(self.raw());
        cs.len() > 0 && cs[cs.len() - 1] == '~'
    }

    /// The UUID text when this wraps a UUID-tail segment.
    pub fn uuid_tail(&self) -> (r: Option<&str>)
        ensures
            match r {
                Some(t) => pattern_fields(self@).uuid_tail == Some(t@),
                None => pattern_fields(self@).uuid_tail is None,
            },
    {
        match self {
            GtsIdPatternSegment::Segment(s) => s.uuid_tail(),
            GtsIdPatternSegment::Wildcard(_) => None,
        }
    }

    /// A UUID-tail pattern segment holding `uuid`, already validated as a
    /// hyphenated UUID.
    pub fn uuid_tail_segment(uuid: &str) -> (r: Self)
        requires
            crate::parse::uuid_text(uuid@),
        ensures
            r@ == PatternSegmentModel::Segment(SegmentModel::UuidTail(uuid@)),
    {
        GtsIdPatternSegment::Segment(GtsIdSegment::uuid_tail_segment(uuid))
    }

    /// Parses a single pattern segment; a trailing `*` is accepted.
    pub fn parse(num: usize, segment: &str) -> (r: Result<Self, String>)
        ensures
            match spec_segment_parts(segment@, true) {
                Ok((p, w)) => r is Ok && r->Ok_0@ == (if w {
                    PatternSegmentModel::Wildcard(p)
                } else {
                    PatternSegmentModel::Segment(SegmentModel::Concrete(p))
                }),
                Err(f) => r is Err && r->Err_0@ == segment_fault_text(num as nat, f),
            },
    {
        match parse_segment_parts(num, segment, true) {
            Ok((parts, is_wildcard)) => {
                if is_wildcard {
                    Ok(GtsIdPatternSegment::Wildcard(parts))
                } else {
                    Ok(GtsIdPatternSegment::Segment(GtsIdSegment::Concrete(parts)))
                }
            },
            Err(m) => Err(m),
        }
    }

    /// A copy of this segment.
    pub fn duplicate(&self) -> (r: Self)
        ensures
            r@ == self@,
    {
        match self {
            GtsIdPatternSegment::Segment(s) => GtsIdPatternSegment::Segment(s.duplicate()),
            GtsIdPatternSegment::Wildcard(p) => GtsIdPatternSegment::Wildcard(p.duplicate()),
        }
    }
}

impl SegmentView for GtsIdSegment {
    open spec fn fields(&self) -> SegmentFields {
        segment_fields(self@)
    }

    fn vendor(&self) -> (r: &str) {
        GtsIdSegment::vendor(self)
    }

    fn package(&self) -> (r: &str) {
        GtsIdSegment::package(self)
    }

    fn namespace(&self) -> (r: &str) {
        GtsIdSegment::namespace(self)
    }

    fn type_token(&self) -> (r: &str) {
        GtsIdSegment::type_token(self)
    }

    fn ver_major(&self) -> (r: u32) {
        GtsIdSegment::ver_major(self)
    }

    fn ver_minor(&self) -> (r: Option<u32>) {
        GtsIdSegment::ver_minor(self)
    }

    fn is_type(&self) -> (r: bool) {
        GtsIdSegment::is_type(self)
    }

    fn uuid_tail(&self) -> (r: Option<&str>) {
        GtsIdSegment::uuid_tail(self)
    }
}

impl SegmentView for GtsIdPatternSegment {
    open spec fn fields(&self) -> SegmentFields {
        pattern_fields(self@)
    }

    fn vendor(&self) -> (r: &str) {
        GtsIdPatternSegment::vendor(self)
    }

    fn package(&self) -> (r: &str) {
        GtsIdPatternSegment::package(self)
    }

    fn namespace(&self) -> (r: &str) {
        GtsIdPatternSegment::namespace(self)
    }

    fn type_token(&self) -> (r: &str) {
        GtsIdPatternSegment::type_token(self)
    }

    fn ver_major(&self) -> (r: u32) {
        GtsIdPatternSegment::ver_major(self)
    }

    fn ver_minor(&self) -> (r: Option<u32>) {
        GtsIdPatternSegment::ver_minor(self)
    }

    fn is_type(&self) -> (r: bool) {
        GtsIdPatternSegment::is_type(self)
    }

    fn uuid_tail(&self) -> (r: Option<&str>) {
        GtsIdPatternSegment::uuid_tail(self)
    }
}

} // verus!
