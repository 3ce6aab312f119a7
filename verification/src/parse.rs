//! The GTS identifier grammar: token, numeral and UUID recognisers, the
//! structural split of an identifier into raw segments, and the
//! identifier and pattern parsers built on them.

use vstd::prelude::*;
use vstd::string::*;

use crate::error::{fault_error, id_fault_text, GtsIdError, IdFault};
use crate::prefix::{gts_prefix, lemma_prefix_chars, GTS_ID_PREFIX};
use crate::segment::{
    parse_segment_parts, segment_fields, spec_segment_parts, GtsIdPatternSegment, GtsIdSegment,
    GtsIdSegmentParts, PartsModel, PatternSegmentModel, SegmentModel,
};
use crate::error::SegmentFault;
use crate::text::{
    chars_of, count_char, count_in, decimal_string, digits_value, is_ascii_digit, is_ascii_hex,
    is_ascii_lower, is_canonical_numeral, lowercase_of, to_lowercase_outside, split_char,
    split_ranges, str_eq, substring, utf8_len,
};

verus! {

broadcast use vstd::string::group_string_axioms;

/// Maximum allowed length, in bytes, of a GTS identifier string.
pub const GTS_ID_MAX_LENGTH: usize = 1024;

pub open spec fn is_token_start(c: char) -> bool {
    is_ascii_lower(c) || c == '_'
}

pub open spec fn is_token_char(c: char) -> bool {
    is_ascii_lower(c) || is_ascii_digit(c) || c == '_'
}

/// A segment token: `[a-z_][a-z0-9_]*`.
pub open spec fn valid_token(t: Seq<char>) -> bool {
    &&& t.len() > 0
    &&& is_token_start(t[0])
    &&& forall|i: int| 1 <= i < t.len() ==> is_token_char(#[trigger] t[i])
}

pub open spec fn is_uuid_dash_position(i: int) -> bool {
    i == 8 || i == 13 || i == 18 || i == 23
}

/// The hyphenated UUID shape `xxxxxxxx-xxxx-xxxx-xxxx-xxxxxxxxxxxx`.
pub open spec fn uuid_text(s: Seq<char>) -> bool {
    &&& s.len() == 36
    &&& forall|i: int|
        0 <= i < 36 ==> if is_uuid_dash_position(i) {
            #[trigger] s[i] == '-'
        } else {
            is_ascii_hex(s[i])
        }
}

/// The value of `s` read as a `u32`, when `s` is its canonical numeral.
pub open spec fn spec_parse_u32_exact(s: Seq<char>) -> Option<u32> {
    if is_canonical_numeral(s) && digits_value(s) <= u32::MAX {
        Some(digits_value(s) as u32)
    } else {
        None
    }
}

pub fn is_token_start_char(c: char) -> (r: bool)
    ensures
        r == is_token_start(c),
{
    ('a' <= c && c <= 'z') || c == '_'
}

pub fn is_token_body_char(c: char) -> (r: bool)
    ensures
        r == is_token_char(c),
{
    ('a' <= c && c <= 'z') || ('0' <= c && c <= '9') || c == '_'
}

/// Whether `cs[from..to]` is a valid segment token.
pub fn token_valid_in(cs: &Vec<char>, from: usize, to: usize) -> (r: bool)
    requires
        from <= to <= cs@.len(),
    ensures
        r == valid_token(cs@.subrange(from as int, to as int)),
{
    let ghost t = cs@.subrange(from as int, to as int);
    if from == to {
        return false;
    }
    if !is_token_start_char(cs[from]) {
        return false;
    }
    let mut i = from + 1;
    while i < to
        invariant
            from < i <= to <= cs@.len(),
            t == cs@.subrange(from as int, to as int),
            forall|k: int| 1 <= k < i - from ==> is_token_char(#[trigger] t[k]),
        decreases to - i,
    {
        if !is_token_body_char(cs[i]) {
            assert(!is_token_char(t[i - from]));
            return false;
        }
        i = i + 1;
    }
    true
}

/// Validates a GTS segment token: it starts with `[a-z_]` and continues
/// with `[a-z0-9_]*`.
pub fn is_valid_segment_token(token: &str) -> (r: bool)
    ensures
        r == valid_token(token@),
{
    let cs = chars_of(token);
    assert(cs@.subrange(0, cs@.len() as int) =~= cs@);
    token_valid_in(&cs, 0, cs.len())
}

pub fn is_hex_char(c: char) -> (r: bool)
    ensures
        r == is_ascii_hex(c),
{
    ('0' <= c && c <= '9') || ('a' <= c && c <= 'f') || ('A' <= c && c <= 'F')
}

/// Whether `cs[from..to]` has the hyphenated UUID shape.
pub fn uuid_in(cs: &Vec<char>, from: usize, to: usize) -> (r: bool)
    requires
        from <= to <= cs@.len(),
    ensures
        r == uuid_text(cs@.subrange(from as int, to as int)),
{
    let ghost t = cs@.subrange(from as int, to as int);
    if to - from != 36 {
        return false;
    }
    let mut i: usize = 0;
    while i < 36
        invariant
            from + 36 == to <= cs@.len(),
            t == cs@.subrange(from as int, to as int),
            i <= 36,
            forall|k: int|
                0 <= k < i ==> if is_uuid_dash_position(k) {
                    #[trigger] t[k] == '-'
                } else {
                    is_ascii_hex(t[k])
                },
        decreases 36 - i,
    {
        let c = cs[from + i];
        assert(c == t[i as int]);
        if i == 8 || i == 13 || i == 18 || i == 23 {
            if c != '-' {
                return false;
            }
        } else if !is_hex_char(c) {
            return false;
        }
        i = i + 1;
    }
    true
}

/// Checks whether a string has the UUID shape
/// `xxxxxxxx-xxxx-xxxx-xxxx-xxxxxxxxxxxx` (hex digits and dashes only).
pub fn is_uuid(s: &str) -> (r: bool)
    ensures
        r == uuid_text(s@),
{
    let cs = chars_of(s);
    assert(cs@.subrange(0, cs@.len() as int) =~= cs@);
    uuid_in(&cs, 0, cs.len())
}

proof fn lemma_digits_value_prefix_mono(s: Seq<char>, j: int, k: int)
    requires
        0 <= j <= k <= s.len(),
    ensures
        digits_value(s.take(j)) <= digits_value(s.take(k)),
    decreases k - j,
{
    if j < k {
        lemma_digits_value_prefix_mono(s, j, k - 1);
        assert(s.take(k).drop_last() =~= s.take(k - 1));
    }
}

/// Reads `cs[from..to]` as a `u32`, accepting only its canonical numeral.
pub fn parse_u32_in(cs: &Vec<char>, from: usize, to: usize) -> (r: Option<u32>)
    requires
        from <= to <= cs@.len(),
    ensures
        r == spec_parse_u32_exact(cs@.subrange(from as int, to as int)),
{
    let ghost t = cs@.subrange(from as int, to as int);
    if from == to {
        return None;
    }
    if to - from > 1 && cs[from] == '0' {
        assert(t[0] == '0');
        return None;
    }
    let mut acc: u64 = 0;
    let mut i = from;
    assert(t.take(0) =~= Seq::<char>::empty());
    while i < to
        invariant
            from <= i <= to <= cs@.len(),
            from < to,
            t == cs@.subrange(from as int, to as int),
            t.len() == 1 || t[0] != '0',
            forall|k: int| 0 <= k < i - from ==> is_ascii_digit(#[trigger] t[k]),
            acc == digits_value(t.take(i - from)),
            acc <= u32::MAX,
        decreases to - i,
    {
        let c = cs[from + (i - from)];
        assert(c == t[i - from]);
        if !('0' <= c && c <= '9') {
            assert(!is_canonical_numeral(t));
            return None;
        }
        let d = (c as u64) - 48;
        proof {
            assert(t.take(i - from + 1).drop_last() =~= t.take(i - from));
        }
        acc = acc * 10 + d;
        if acc > 0xffff_ffff {
            proof {
                if is_canonical_numeral(t) {
                    lemma_digits_value_prefix_mono(t, i - from + 1, t.len() as int);
                    assert(t.take(t.len() as int) =~= t);
                }
            }
            return None;
        }
        i = i + 1;
    }
    assert(t.take(t.len() as int) =~= t);
    Some(acc as u32)
}

/// Parses a `u32`, rejecting any text other than its canonical numeral
/// (so leading zeros are refused, except for `"0"` itself).
pub fn parse_u32_exact(value: &str) -> (r: Option<u32>)
    ensures
        r == spec_parse_u32_exact(value@),
{
    let cs = chars_of(value);
    assert(cs@.subrange(0, cs@.len() as int) =~= cs@);
    parse_u32_in(&cs, 0, cs.len())
}

} // verus!

verus! {

/// Whether `id` starts with the identifier prefix.
pub open spec fn has_gts_prefix(id: Seq<char>) -> bool {
    id.len() >= 4 && id.take(4) == gts_prefix()
}

/// The trailing UUID of the tilde parts, if the last of at least two parts
/// has the UUID shape.
pub open spec fn uuid_tail_of(parts: Seq<Seq<char>>) -> Option<Seq<char>> {
    if parts.len() >= 2 && uuid_text(parts.last()) {
        Some(parts.last())
    } else {
        None
    }
}

/// The raw segment texts made from the tilde parts `i..count`: every part
/// but a final one without UUID tail regains its `~`; an empty part is only
/// allowed as that final one (it is then dropped). An empty part elsewhere
/// gives its 1-based number.
pub open spec fn raw_pieces(parts: Seq<Seq<char>>, i: nat, count: nat, has_uuid: bool) -> Result<
    Seq<Seq<char>>,
    nat,
>
    decreases count - i,
{
    if i >= count {
        Ok(Seq::<Seq<char>>::empty())
    } else if parts[i as int].len() == 0 {
        if i == count - 1 && !has_uuid {
            Ok(Seq::<Seq<char>>::empty())
        } else {
            Err(i + 1)
        }
    } else {
        let piece = if i == count - 1 && !has_uuid {
            parts[i as int]
        } else {
            parts[i as int].push('~')
        };
        match raw_pieces(parts, i + 1, count, has_uuid) {
            Ok(rest) => Ok(seq![piece] + rest),
            Err(e) => Err(e),
        }
    }
}

/// Length in bytes of the UTF-8 text `s`, as `str::len` reports it.
pub open spec fn byte_len(s: Seq<char>) -> nat {
    (utf8_len(s) as usize) as nat
}

/// The first structural check that `id` fails, if any: prefix, case,
/// length and (for patterns) wildcard count and placement.
pub open spec fn structure_fault(id: Seq<char>, allow: bool) -> Option<IdFault> {
    structure_fault_with(id, lowercase_of(id), allow)
}

/// The first structural check that `id` fails, given its lowercase mapping
/// `lower`: the prefix, then the case (`id` must equal `lower`), the length
/// and, for patterns, the wildcard count and placement.
pub open spec fn structure_fault_with(id: Seq<char>, lower: Seq<char>, allow: bool) -> Option<IdFault> {
    if !has_gts_prefix(id) {
        Some(IdFault::MissingPrefix)
    } else if id != lower {
        Some(IdFault::NotLowercase)
    } else if byte_len(id) > 1024 {
        Some(IdFault::TooLong(byte_len(id)))
    } else if allow && count_char(id, '*') > 1 {
        Some(IdFault::MultipleWildcards)
    } else if allow && count_char(id, '*') > 0 && id.last() != '*' {
        Some(IdFault::WildcardNotAtEnd)
    } else {
        None
    }
}

/// The `~`-parts of `id` after the prefix.
pub open spec fn tilde_parts(id: Seq<char>) -> Seq<Seq<char>> {
    split_char(id.skip(4), '~')
}

/// The raw segment texts and trailing UUID of an identifier that passed the
/// structural checks: no `-` outside the UUID tail, no misplaced empty part,
/// at least one segment.
pub open spec fn tilde_layout(id: Seq<char>) -> Result<(Seq<Seq<char>>, Option<Seq<char>>), IdFault> {
    let parts = tilde_parts(id);
    let uuid = uuid_tail_of(parts);
    let portion = match uuid {
        Some(u) => id.take(id.len() - u.len() - 1),
        None => id,
    };
    if count_char(portion, '-') > 0 {
        Err(IdFault::ContainsHyphen)
    } else {
        let count = (parts.len() - if uuid is Some {
            1int
        } else {
            0int
        }) as nat;
        pieces_layout(raw_pieces(parts, 0, count, uuid is Some), uuid)
    }
}

/// The layout given by the raw pieces: an empty part is reported by its
/// number, and at least one segment is needed.
pub open spec fn pieces_layout(pieces: Result<Seq<Seq<char>>, nat>, uuid: Option<Seq<char>>) -> Result<
    (Seq<Seq<char>>, Option<Seq<char>>),
    IdFault,
> {
    match pieces {
        Err(k) => Err(IdFault::EmptySegment(k)),
        Ok(raws) => if raws.len() == 0 {
            Err(IdFault::NoSegments)
        } else {
            Ok((raws, uuid))
        },
    }
}

/// The shared structural pass behind identifier and pattern parsing: the
/// raw segment texts (each with its `~` where it had one) and the trailing
/// UUID, or the first fault.
pub open spec fn spec_split_raw_segments(id: Seq<char>, allow: bool) -> Result<
    (Seq<Seq<char>>, Option<Seq<char>>),
    IdFault,
> {
    match structure_fault(id, allow) {
        Some(f) => Err(f),
        None => tilde_layout(id),
    }
}

/// Total length of the first `i` raw segment texts.
pub open spec fn chars_before(raws: Seq<Seq<char>>, i: nat) -> nat
    decreases i,
{
    if i == 0 {
        0
    } else {
        chars_before(raws, (i - 1) as nat) + raws[i - 1].len()
    }
}

pub proof fn lemma_chars_before_push(raws: Seq<Seq<char>>, x: Seq<char>, i: nat)
    requires
        i <= raws.len(),
    ensures
        chars_before(raws.push(x), i) == chars_before(raws, i),
    decreases i,
{
    if i > 0 {
        lemma_chars_before_push(raws, x, (i - 1) as nat);
    }
}


fn prefix_error(id: &str) -> (r: GtsIdError)
    ensures
        r@ == fault_error(id@, IdFault::MissingPrefix),
{
    proof {
        lemma_prefix_chars();
    }
    let mut m = String::from_str("must start with '");
    m.append(GTS_ID_PREFIX);
    m.append("'");
    GtsIdError::new(id, m)
}

/// The structural checks on the whole text (see [`structure_fault`]).
fn check_structure(id: &str, allow: bool) -> (r: Result<(), GtsIdError>)
    ensures
        match structure_fault(id@, allow) {
            Some(f) => r is Err && r->Err_0@ == fault_error(id@, f),
            None => r is Ok,
        },
{
    let lower = to_lowercase_outside(id);
    structure_check(id, lower.as_str(), allow)
}

/// The structural checks on the whole text of `id`, given its lowercase
/// mapping `lower` (see [`structure_fault_with`]).
pub fn structure_check(id: &str, lower: &str, allow: bool) -> (r: Result<(), GtsIdError>)
    ensures
        match structure_fault_with(id@, lower@, allow) {
            Some(f) => r is Err && r->Err_0@ == fault_error(id@, f),
            None => r is Ok,
        },
{
    let cs = chars_of(id);
    let cs = &cs;
    let n = cs.len();
    if !(n >= 4 && cs[0] == 'g' && cs[1] == 't' && cs[2] == 's' && cs[3] == '.') {
        proof {
            if n >= 4 && id@.take(4) == gts_prefix() {
                assert(id@.take(4)[0] == 'g' && id@.take(4)[1] == 't');
                assert(id@.take(4)[2] == 's' && id@.take(4)[3] == '.');
            }
        }
        return Err(prefix_error(id));
    }
    assert(id@.take(4) =~= gts_prefix());
    if !str_eq(id, lower) {
        return Err(GtsIdError::new(id, String::from_str("must be lowercase")));
    }
    let blen = id.len();
    if blen > 1024 {
        let mut m = String::from_str("too long (");
        let d = decimal_string(blen);
        m.append(d.as_str());
        m.append(" chars, max 1024)");
        return Err(GtsIdError::new(id, m));
    }
    if allow {
        assert(cs@.subrange(0, n as int) =~= cs@);
        let stars = count_in(cs, 0, n, '*');
        if stars > 1 {
            return Err(
                GtsIdError::new(id, String::from_str("The wildcard '*' token is allowed only once")),
            );
        }
        if stars > 0 && cs[n - 1] != '*' {
            return Err(
                GtsIdError::new(
                    id,
                    String::from_str(
                        "The wildcard '*' token is allowed only at the end of the pattern",
                    ),
                ),
            );
        }
    }
    Ok(())
}

/// Prepends `done` to the pieces of a partial result.
pub open spec fn prepend_pieces(done: Seq<Seq<char>>, r: Result<Seq<Seq<char>>, nat>) -> Result<
    Seq<Seq<char>>,
    nat,
> {
    match r {
        Ok(rest) => Ok(done + rest),
        Err(e) => Err(e),
    }
}

/// The raw segment texts (with their start positions in `id`) and the UUID
/// tail of an identifier that passed the structural checks.
#[verifier::rlimit(80)]
fn split_tilde_parts(id: &str, cs: &Vec<char>) -> (r: Result<
    (Vec<String>, Vec<usize>, Option<String>),
    GtsIdError,
>)
    requires
        cs@ == id@,
        has_gts_prefix(id@),
    ensures
        match tilde_layout(id@) {
            Ok((raws, uuid)) => r is Ok && {
                let (rs, starts, u) = r->Ok_0;
                &&& rs@.len() == raws.len() == starts@.len()
                &&& forall|k: int| 0 <= k < raws.len() ==> (#[trigger] rs@[k])@ == raws[k]
                &&& forall|k: int|
                    0 <= k < raws.len() ==> #[trigger] starts@[k] == 4 + chars_before(raws, k as nat)
                        && starts@[k] <= id@.len()
                &&& match uuid {
                    Some(t) => u is Some && u->Some_0@ == t,
                    None => u is None,
                }
            },
            Err(f) => r is Err && r->Err_0@ == fault_error(id@, f),
        },
{
    let n = cs.len();
    let ghost rem = id@.skip(4);
    assert(cs@.subrange(4, n as int) =~= rem);
    let parts = split_ranges(cs, 4, n, '~');
    let ghost ps = split_char(rem, '~');
    let np = parts.len();
    let (la, lb) = parts[np - 1];
    assert(parts@[np - 1].0 <= parts@[np - 1].1);
    let has_uuid = np >= 2 && uuid_in(cs, la, lb);
    assert(has_uuid == (uuid_tail_of(ps) is Some));
    let pend = if has_uuid {
        assert(parts@[np - 2].0 <= parts@[np - 2].1);
        n - (lb - la) - 1
    } else {
        n
    };
    proof {
        if has_uuid {
            assert(ps.last().len() == 36);
            assert(id@.take(pend as int) =~= cs@.subrange(0, pend as int));
        } else {
            assert(cs@.subrange(0, n as int) =~= id@);
        }
    }
    if count_in(cs, 0, pend, '-') > 0 {
        return Err(GtsIdError::new(id, String::from_str("must not contain '-'")));
    }
    let count = if has_uuid {
        np - 1
    } else {
        np
    };
    assert(id@.skip(4) =~= cs@.subrange(4, n as int));
    assert(tilde_layout(id@) == pieces_layout(
        raw_pieces(ps, 0, count as nat, has_uuid),
        uuid_tail_of(ps),
    ));
    let mut raws: Vec<String> = Vec::new();
    let mut starts: Vec<usize> = Vec::new();
    let ghost mut rv: Seq<Seq<char>> = Seq::empty();
    let mut j: usize = 0;
    while j < count
        invariant
            j <= count <= np == parts@.len() == ps.len(),
            ps == split_char(cs@.subrange(4, n as int), '~'),
            count == (np - if has_uuid { 1int } else { 0int }),
            n == cs@.len(),
            cs@ == id@,
            parts@[0].0 == 4,
            forall|k: int|
                0 <= k < parts@.len() ==> {
                    &&& 4 <= #[trigger] parts@[k].0 <= parts@[k].1 <= n
                    &&& cs@.subrange(parts@[k].0 as int, parts@[k].1 as int) == ps[k]
                },
            forall|k: int|
                0 <= k < parts@.len() - 1 ==> {
                    &&& cs@[#[trigger] parts@[k].1 as int] == '~'
                    &&& parts@[k + 1].0 == parts@[k].1 + 1
                },
            raws@.len() == rv.len() == starts@.len(),
            forall|k: int| 0 <= k < rv.len() ==> (#[trigger] raws@[k])@ == rv[k],
            forall|k: int|
                0 <= k < rv.len() ==> #[trigger] starts@[k] == 4 + chars_before(rv, k as nat)
                    && starts@[k] <= n,
            j < count ==> 4 + chars_before(rv, rv.len()) == parts@[j as int].0,
            tilde_layout(id@) == pieces_layout(
                raw_pieces(ps, 0, count as nat, has_uuid),
                uuid_tail_of(ps),
            ),
            raw_pieces(ps, 0, count as nat, has_uuid) == prepend_pieces(
                rv,
                raw_pieces(ps, j as nat, count as nat, has_uuid),
            ),
        decreases count - j,
    {
        let (a, b) = parts[j];
        assert(4 <= parts@[j as int].0 <= parts@[j as int].1 <= n);
        let is_final = j == count - 1 && !has_uuid;
        if a == b {
            if !is_final {
                let mut m = String::from_str("empty segment at tilde-part #");
                let d = decimal_string(j + 1);
                m.append(d.as_str());
                proof {
                    assert(ps[j as int].len() == 0);
                    assert(raw_pieces(ps, j as nat, count as nat, has_uuid) == Err::<
                        Seq<Seq<char>>,
                        nat,
                    >((j + 1) as nat));
                    assert(m@ == id_fault_text(IdFault::EmptySegment((j + 1) as nat)));
                }
                return Err(GtsIdError::new(id, m));
            }
            assert(raw_pieces(ps, j as nat, count as nat, has_uuid) == Ok::<
                Seq<Seq<char>>,
                nat,
            >(Seq::empty()));
            assert(raw_pieces(ps, (j + 1) as nat, count as nat, has_uuid) == Ok::<
                Seq<Seq<char>>,
                nat,
            >(Seq::empty()));
            assert(rv + Seq::<Seq<char>>::empty() =~= rv);
        } else {
            let ghost old_rv = rv;
            let piece = if is_final {
                substring(id, a, b)
            } else {
                assert(j < np - 1);
                assert(cs@[b as int] == '~');
                assert(cs@.subrange(a as int, b + 1) =~= ps[j as int].push('~'));
                substring(id, a, b + 1)
            };
            raws.push(piece);
            starts.push(a);
            proof {
                rv = rv.push(piece@);
                lemma_chars_before_push(old_rv, piece@, old_rv.len());
                assert forall|k: int| 0 <= k < rv.len() implies #[trigger] starts@[k] == 4
                    + chars_before(rv, k as nat) && starts@[k] <= n by {
                    if k < old_rv.len() {
                        lemma_chars_before_push(old_rv, piece@, k as nat);
                    }
                }
                assert forall|k: int| 0 <= k < rv.len() implies (#[trigger] raws@[k])@ == rv[k] by {
                }
                let tail = raw_pieces(ps, (j + 1) as nat, count as nat, has_uuid);
                match tail {
                    Ok(rest) => {
                        assert(old_rv + (seq![piece@] + rest) =~= rv + rest);
                    },
                    Err(_) => {},
                }
                if j + 1 < count {
                    assert(parts@[j + 1].0 == parts@[j as int].1 + 1);
                }
            }
        }
        j = j + 1;
    }
    assert(raw_pieces(ps, count as nat, count as nat, has_uuid) == Ok::<
        Seq<Seq<char>>,
        nat,
    >(Seq::empty()));
    assert(rv + Seq::<Seq<char>>::empty() =~= rv);
    if raws.len() == 0 {
        return Err(GtsIdError::new(id, String::from_str("no segments found")));
    }
    let uuid = if has_uuid {
        Some(substring(id, la, lb))
    } else {
        None
    };
    Ok((raws, starts, uuid))
}

/// Validates the shared structure of an identifier or pattern and splits it
/// into raw segment texts (with their start positions) and an optional
/// trailing UUID.
fn split_raw_segments(id: &str, allow_wildcards: bool) -> (r: Result<
    (Vec<String>, Vec<usize>, Option<String>),
    GtsIdError,
>)
    ensures
        match spec_split_raw_segments(id@, allow_wildcards) {
            Ok((raws, uuid)) => r is Ok && {
                let (rs, starts, u) = r->Ok_0;
                &&& rs@.len() == raws.len() == starts@.len()
                &&& forall|k: int| 0 <= k < raws.len() ==> (#[trigger] rs@[k])@ == raws[k]
                &&& forall|k: int|
                    0 <= k < raws.len() ==> #[trigger] starts@[k] == 4 + chars_before(raws, k as nat)
                        && starts@[k] <= id@.len()
                &&& match uuid {
                    Some(t) => u is Some && u->Some_0@ == t,
                    None => u is None,
                }
            },
            Err(f) => r is Err && r->Err_0@ == fault_error(id@, f),
        },
{
    let cs = chars_of(id);
    match check_structure(id, allow_wildcards) {
        Ok(_) => {},
        Err(e) => {
            return Err(e);
        },
    }
    split_tilde_parts(id, &cs)
}

} // verus!

verus! {

/// The parts of raw segments `i..`, in order, or the index of the first one
/// that fails with its fault.
pub open spec fn parse_raws(raws: Seq<Seq<char>>, allow: bool, i: nat) -> Result<
    Seq<(PartsModel, bool)>,
    (nat, SegmentFault),
>
    decreases raws.len() - i,
{
    if i >= raws.len() {
        Ok(Seq::<(PartsModel, bool)>::empty())
    } else {
        match spec_segment_parts(raws[i as int], allow) {
            Err(f) => Err((i, f)),
            Ok(pw) => match parse_raws(raws, allow, i + 1) {
                Ok(rest) => Ok(seq![pw] + rest),
                Err(e) => Err(e),
            },
        }
    }
}

/// Prepends `done` to the parts of a partial result.
pub open spec fn prepend_parsed(
    done: Seq<(PartsModel, bool)>,
    r: Result<Seq<(PartsModel, bool)>, (nat, SegmentFault)>,
) -> Result<Seq<(PartsModel, bool)>, (nat, SegmentFault)> {
    match r {
        Ok(rest) => Ok(done + rest),
        Err(e) => Err(e),
    }
}

/// The fault for raw segment `i` of `id` failing with `f`: its 1-based
/// number, its byte offset and its text.
pub open spec fn segment_fault_at(id: Seq<char>, raws: Seq<Seq<char>>, i: nat, f: SegmentFault) -> IdFault {
    IdFault::Segment {
        num: i + 1,
        offset: byte_len(id.take(4 + chars_before(raws, i) as int)),
        segment: raws[i as int],
        fault: f,
    }
}

/// The UUID-tail segment, if any, as a one-element sequence.
pub open spec fn tail_models(uuid: Option<Seq<char>>) -> Seq<SegmentModel> {
    match uuid {
        Some(u) => seq![SegmentModel::UuidTail(u)],
        None => Seq::<SegmentModel>::empty(),
    }
}

pub open spec fn concrete_models(pws: Seq<(PartsModel, bool)>) -> Seq<SegmentModel> {
    pws.map_values(|pw: (PartsModel, bool)| SegmentModel::Concrete(pw.0))
}

pub open spec fn pattern_model(pw: (PartsModel, bool)) -> PatternSegmentModel {
    if pw.1 {
        PatternSegmentModel::Wildcard(pw.0)
    } else {
        PatternSegmentModel::Segment(SegmentModel::Concrete(pw.0))
    }
}

pub open spec fn pattern_models(pws: Seq<(PartsModel, bool)>, uuid: Option<Seq<char>>) -> Seq<
    PatternSegmentModel,
> {
    pws.map_values(|pw: (PartsModel, bool)| pattern_model(pw)) + match uuid {
        Some(u) => seq![PatternSegmentModel::Segment(SegmentModel::UuidTail(u))],
        None => Seq::<PatternSegmentModel>::empty(),
    }
}

/// The segments of a concrete identifier, or the first fault: structural
/// faults, then the first malformed segment, then the rule that a lone
/// segment without UUID tail must be a type.
pub open spec fn spec_parse_id(id: Seq<char>) -> Result<Seq<SegmentModel>, IdFault> {
    match spec_split_raw_segments(id, false) {
        Err(f) => Err(f),
        Ok((raws, uuid)) => match parse_raws(raws, false, 0) {
            Err((i, f)) => Err(segment_fault_at(id, raws, i, f)),
            Ok(pws) => {
                let segs = concrete_models(pws) + tail_models(uuid);
                if uuid is None && segs.len() == 1 && !segment_fields(segs[0]).is_type {
                    Err(IdFault::SingleSegmentInstance)
                } else {
                    Ok(segs)
                }
            },
        },
    }
}

/// The segments of a pattern, or the first fault; a lone wildcard segment
/// is exempt from the single-segment rule.
pub open spec fn spec_parse_pattern(id: Seq<char>) -> Result<Seq<PatternSegmentModel>, IdFault> {
    match spec_split_raw_segments(id, true) {
        Err(f) => Err(f),
        Ok((raws, uuid)) => match parse_raws(raws, true, 0) {
            Err((i, f)) => Err(segment_fault_at(id, raws, i, f)),
            Ok(pws) => {
                let segs = pattern_models(pws, uuid);
                if uuid is None && segs.len() == 1 && !(segs[0] is Wildcard)
                    && !crate::segment::pattern_fields(segs[0]).is_type {
                    Err(IdFault::SingleSegmentInstance)
                } else {
                    Ok(segs)
                }
            },
        },
    }
}

/// The models of a sequence of concrete segments.
pub open spec fn segment_views(v: Seq<GtsIdSegment>) -> Seq<SegmentModel> {
    v.map_values(|s: GtsIdSegment| s@)
}

/// The models of a sequence of pattern segments.
pub open spec fn pattern_views(v: Seq<GtsIdPatternSegment>) -> Seq<PatternSegmentModel> {
    v.map_values(|s: GtsIdPatternSegment| s@)
}

/// A copy of a sequence of concrete segments.
pub fn duplicate_segments(v: &[GtsIdSegment]) -> (r: Vec<GtsIdSegment>)
    ensures
        segment_views(r@) == segment_views(v@),
{
    let mut out: Vec<GtsIdSegment> = Vec::new();
    let mut i: usize = 0;
    while i < v.len()
        invariant
            i <= v@.len(),
            segment_views(out@) == segment_views(v@.take(i as int)),
        decreases v.len() - i,
    {
        let ghost before = out@;
        let s = v[i].duplicate();
        out.push(s);
        proof {
            assert(v@.take(i + 1) =~= v@.take(i as int).push(v@[i as int]));
            assert(segment_views(out@) =~= segment_views(before).push(s@));
            assert(segment_views(v@.take(i + 1)) =~= segment_views(v@.take(i as int)).push(
                v@[i as int]@,
            ));
        }
        i = i + 1;
    }
    assert(v@.take(v@.len() as int) =~= v@);
    out
}

/// A copy of a sequence of pattern segments.
pub fn duplicate_pattern_segments(v: &[GtsIdPatternSegment]) -> (r: Vec<GtsIdPatternSegment>)
    ensures
        pattern_views(r@) == pattern_views(v@),
{
    let mut out: Vec<GtsIdPatternSegment> = Vec::new();
    let mut i: usize = 0;
    while i < v.len()
        invariant
            i <= v@.len(),
            pattern_views(out@) == pattern_views(v@.take(i as int)),
        decreases v.len() - i,
    {
        let ghost before = out@;
        let s = v[i].duplicate();
        out.push(s);
        proof {
            assert(v@.take(i + 1) =~= v@.take(i as int).push(v@[i as int]));
            assert(pattern_views(out@) =~= pattern_views(before).push(s@));
            assert(pattern_views(v@.take(i + 1)) =~= pattern_views(v@.take(i as int)).push(
                v@[i as int]@,
            ));
        }
        i = i + 1;
    }
    assert(v@.take(v@.len() as int) =~= v@);
    out
}

/// Parses every raw segment in order, stopping at the first malformed one
/// and reporting it with its number and byte offset within `id`.
fn parse_raw_parts(
    id: &str,
    raws: &Vec<String>,
    starts: &Vec<usize>,
    allow: bool,
    Ghost(rs): Ghost<Seq<Seq<char>>>,
) -> (r: Result<Vec<(GtsIdSegmentParts, bool)>, GtsIdError>)
    requires
        raws@.len() == rs.len() == starts@.len(),
        forall|k: int| 0 <= k < rs.len() ==> (#[trigger] raws@[k])@ == rs[k],
        forall|k: int|
            0 <= k < rs.len() ==> #[trigger] starts@[k] == 4 + chars_before(rs, k as nat)
                && starts@[k] <= id@.len(),
    ensures
        match parse_raws(rs, allow, 0) {
            Ok(pws) => r is Ok && r->Ok_0@.len() == pws.len() && forall|k: int|
                0 <= k < pws.len() ==> (#[trigger] r->Ok_0@[k]).0@ == pws[k].0 && r->Ok_0@[k].1
                    == pws[k].1,
            Err((i, f)) => r is Err && r->Err_0@ == fault_error(id@, segment_fault_at(id@, rs, i, f)),
        },
{
    let mut out: Vec<(GtsIdSegmentParts, bool)> = Vec::new();
    let ghost mut done: Seq<(PartsModel, bool)> = Seq::empty();
    let mut i: usize = 0;
    assert(done + Seq::<(PartsModel, bool)>::empty() =~= done);
    while i < raws.len()
        invariant
            i <= raws@.len() == rs.len() == starts@.len(),
            forall|k: int| 0 <= k < rs.len() ==> (#[trigger] raws@[k])@ == rs[k],
            forall|k: int|
                0 <= k < rs.len() ==> #[trigger] starts@[k] == 4 + chars_before(rs, k as nat)
                    && starts@[k] <= id@.len(),
            out@.len() == done.len() == i,
            forall|k: int|
                0 <= k < i ==> (#[trigger] out@[k]).0@ == done[k].0 && out@[k].1 == done[k].1,
            parse_raws(rs, allow, 0) == prepend_parsed(done, parse_raws(rs, allow, i as nat)),
        decreases raws.len() - i,
    {
        let seg = raws[i].as_str();
        match parse_segment_parts(i + 1, seg, allow) {
            Ok((parts, w)) => {
                let ghost pw = (parts@, w);
                proof {
                    let tail = parse_raws(rs, allow, (i + 1) as nat);
                    match tail {
                        Ok(rest) => {
                            assert(done + (seq![pw] + rest) =~= done.push(pw) + rest);
                        },
                        Err(_) => {},
                    }
                    done = done.push(pw);
                }
                out.push((parts, w));
            },
            Err(m) => {
                let before = id.substring_char(0, starts[i]);
                let offset = before.len();
                proof {
                    assert(before@ =~= id@.take(4 + chars_before(rs, i as nat) as int));
                }
                let e = GtsIdError::new(id, m).with_segment(i + 1, offset, raws[i].clone());
                return Err(e);
            },
        }
        i = i + 1;
    }
    assert(done + Seq::<(PartsModel, bool)>::empty() =~= done);
    Ok(out)
}

/// The error for a lone instance segment: an instance identifier must be
/// chained with at least one type segment.
fn single_segment_instance_error(id: &str) -> (r: GtsIdError)
    ensures
        r@ == fault_error(id@, IdFault::SingleSegmentInstance),
{
    GtsIdError::new(
        id,
        String::from_str(
            "Single-segment instance IDs are prohibited. Instance IDs must be chained with at least one type segment (e.g., 'type~instance')",
        ),
    )
}

/// Parses a **concrete** GTS identifier into its segments.
///
/// Wildcards are rejected (a `*` is an invalid segment token), and a lone
/// instance segment is prohibited: an instance must be chained with at
/// least one type segment (a trailing UUID tail is exempt). On failure the
/// error carries the 1-based number and byte offset of the offending
/// segment when the failure is local to one segment.
pub fn parse_id(id: &str) -> (r: Result<Vec<GtsIdSegment>, GtsIdError>)
    ensures
        match spec_parse_id(id@) {
            Ok(segs) => r is Ok && segment_views(r->Ok_0@) == segs,
            Err(f) => r is Err && r->Err_0@ == fault_error(id@, f),
        },
{
    let (raws, starts, uuid) = match split_raw_segments(id, false) {
        Ok(t) => t,
        Err(e) => {
            return Err(e);
        },
    };
    let ghost split = spec_split_raw_segments(id@, false)->Ok_0;
    let ghost rs = split.0;
    let pws = match parse_raw_parts(id, &raws, &starts, false, Ghost(rs)) {
        Ok(p) => p,
        Err(e) => {
            return Err(e);
        },
    };
    let ghost pm = parse_raws(rs, false, 0)->Ok_0;
    let mut segments: Vec<GtsIdSegment> = Vec::new();
    let mut k: usize = 0;
    while k < pws.len()
        invariant
            k <= pws@.len() == pm.len(),
            forall|j: int|
                0 <= j < pm.len() ==> (#[trigger] pws@[j]).0@ == pm[j].0 && pws@[j].1 == pm[j].1,
            segment_views(segments@) == concrete_models(pm.take(k as int)),
        decreases pws.len() - k,
    {
        let seg = GtsIdSegment::Concrete(pws[k].0.duplicate());
        let ghost before = segments@;
        segments.push(seg);
        proof {
            assert(pm.take(k + 1) =~= pm.take(k as int).push(pm[k as int]));
            assert(segment_views(segments@) =~= segment_views(before).push(seg@));
            assert(concrete_models(pm.take(k + 1)) =~= concrete_models(pm.take(k as int)).push(
                SegmentModel::Concrete(pm[k as int].0),
            ));
        }
        k = k + 1;
    }
    assert(pm.take(pm.len() as int) =~= pm);
    match &uuid {
        Some(u) => {
            segments.push(GtsIdSegment::uuid_tail_segment(u.as_str()));
        },
        None => {},
    }
    assert(segment_views(segments@) =~= concrete_models(pm) + tail_models(split.1));
    if uuid.is_none() && segments.len() == 1 && !segments[0].is_type() {
        return Err(single_segment_instance_error(id));
    }
    Ok(segments)
}

/// Parses a GTS identifier **pattern** into its segments.
///
/// A single trailing `*` wildcard is accepted. The single-segment rule
/// applies as for identifiers, with a wildcard segment (and a UUID tail)
/// exempt.
pub fn parse_pattern(id: &str) -> (r: Result<Vec<GtsIdPatternSegment>, GtsIdError>)
    ensures
        match spec_parse_pattern(id@) {
            Ok(segs) => r is Ok && pattern_views(r->Ok_0@) == segs,
            Err(f) => r is Err && r->Err_0@ == fault_error(id@, f),
        },
{
    let (raws, starts, uuid) = match split_raw_segments(id, true) {
        Ok(t) => t,
        Err(e) => {
            return Err(e);
        },
    };
    let ghost split = spec_split_raw_segments(id@, true)->Ok_0;
    let ghost rs = split.0;
    let pws = match parse_raw_parts(id, &raws, &starts, true, Ghost(rs)) {
        Ok(p) => p,
        Err(e) => {
            return Err(e);
        },
    };
    let ghost pm = parse_raws(rs, true, 0)->Ok_0;
    let mut segments: Vec<GtsIdPatternSegment> = Vec::new();
    let mut k: usize = 0;
    while k < pws.len()
        invariant
            k <= pws@.len() == pm.len(),
            forall|j: int|
                0 <= j < pm.len() ==> (#[trigger] pws@[j]).0@ == pm[j].0 && pws@[j].1 == pm[j].1,
            pattern_views(segments@) == pattern_models(pm.take(k as int), None),
        decreases pws.len() - k,
    {
        let parts = pws[k].0.duplicate();
        let seg = if pws[k].1 {
            GtsIdPatternSegment::Wildcard(parts)
        } else {
            GtsIdPatternSegment::Segment(GtsIdSegment::Concrete(parts))
        };
        let ghost before = segments@;
        segments.push(seg);
        proof {
            assert(pm.take(k + 1) =~= pm.take(k as int).push(pm[k as int]));
            assert(pattern_views(segments@) =~= pattern_views(before).push(seg@));
            assert(pattern_models(pm.take(k + 1), None) =~= pattern_models(pm.take(k as int), None).push(
                pattern_model(pm[k as int]),
            ));
        }
        k = k + 1;
    }
    assert(pm.take(pm.len() as int) =~= pm);
    match &uuid {
        Some(u) => {
            segments.push(GtsIdPatternSegment::uuid_tail_segment(u.as_str()));
        },
        None => {},
    }
    assert(pattern_views(segments@) =~= pattern_models(pm, split.1));
    if uuid.is_none() && segments.len() == 1 && !segments[0].is_type()
        && !segments[0].is_wildcard() {
        return Err(single_segment_instance_error(id));
    }
    Ok(segments)
}

} // verus!
