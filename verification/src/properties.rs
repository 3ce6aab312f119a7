//! Properties of the identifier grammar and of matching that hold across
//! functions: the shape of every parsed identifier, the relation between
//! identifiers and patterns, and the laws of matching and coverage.

use vstd::prelude::*;

use crate::parse::{
    concrete_models, has_gts_prefix, parse_raws, pattern_models, raw_pieces, spec_parse_id,
    spec_parse_pattern, spec_split_raw_segments, structure_fault, tail_models, tilde_layout,
    tilde_parts, uuid_tail_of, uuid_text, is_uuid_dash_position, pattern_model,
};
use crate::segment::{pattern_fields, segment_fields, PatternSegmentModel, SegmentFields};
use crate::pattern::{
    matches_from, pattern_candidates, segment_accepts, spec_covers, spec_matches, wildcard_accepts,
    wildcards_aligned,
    GtsIdPatternModel,
};
use crate::json::{
    lemma_member_index_first, member, member_index, member_insert, member_remove, JsonModel,
    JsonValue,
};
use crate::schema_traits::{
    declared_object, inlined, inlined_items, inlined_members, local_ref_target, materialize_from,
    materialized, merge_from, merge_patch, nearest, object_members, props_in, resolution_order,
};
use crate::schema_refs::{
    dedup, own_refs, prepend_refs, refs_in, refs_in_items, refs_in_members, spec_classify_ref,
    RefKindModel,
};
use crate::entity_ids::spec_typed_id;
use crate::text::{join_char, lemma_join_front, lemma_split_join};
use crate::gts_id::{raws_text, spec_type_id, id_candidates, id_pattern_model, spec_id_matches, spec_split_at_path, GtsIdModel};
use crate::parse::{spec_parse_u32_exact, valid_token, is_token_char};
use crate::segment::{
    build_parts, check_name_tokens, segment_body, segment_tokens, spec_segment_parts, star_text,
    v_star_text, version_parts, starts_with_v, PartsModel, SegmentModel,
};
use crate::text::{
    count_char, is_canonical_numeral, lacks, lemma_count_zero_lacks, lemma_split_lacks, split_char,
};
use crate::error::SegmentFault;

verus! {

/// Parsing raw segments `i..` yields one result per segment.
pub proof fn lemma_parse_raws_len(raws: Seq<Seq<char>>, allow: bool, i: nat)
    requires
        i <= raws.len(),
        parse_raws(raws, allow, i) is Ok,
    ensures
        parse_raws(raws, allow, i)->Ok_0.len() == raws.len() - i,
    decreases raws.len() - i,
{
    if i < raws.len() {
        lemma_parse_raws_len(raws, allow, i + 1);
    }
}

/// Every parsed identifier has at least one segment; all segments but the
/// last are name segments, and a trailing UUID segment has the UUID shape.
pub proof fn lemma_parsed_id_shape(id: Seq<char>)
    requires
        spec_parse_id(id) is Ok,
    ensures
        ({
            let segs = spec_parse_id(id)->Ok_0;
            &&& segs.len() >= 1
            &&& forall|i: int| 0 <= i < segs.len() - 1 ==> #[trigger] segs[i] is Concrete
            &&& segs.last() is UuidTail ==> uuid_text(segs.last()->UuidTail_0)
        }),
{
    let (raws, uuid) = spec_split_raw_segments(id, false)->Ok_0;
    assert(tilde_layout(id) is Ok);
    lemma_parse_raws_len(raws, false, 0);
    let pws = parse_raws(raws, false, 0)->Ok_0;
    let segs = concrete_models(pws) + tail_models(uuid);
    assert(segs == spec_parse_id(id)->Ok_0);
    match uuid {
        Some(u) => {
            assert(uuid == uuid_tail_of(tilde_parts(id)));
            assert(segs.last() == SegmentModel::UuidTail(u));
        },
        None => {
            assert(segs.last() == SegmentModel::Concrete(pws.last().0));
        },
    }
}

/// The name tokens checked from index `i` on are valid when the check
/// passes without wildcards.
proof fn lemma_name_tokens_valid(toks: Seq<Seq<char>>, i: nat)
    requires
        check_name_tokens(toks, false, i) is Ok,
    ensures
        forall|j: int| i <= j < 4 && j < toks.len() ==> valid_token(#[trigger] toks[j]),
    decreases 4 - i,
{
    if i < 4 && i < toks.len() {
        lemma_name_tokens_valid(toks, i + 1);
    }
}

proof fn lemma_valid_token_lacks_star(t: Seq<char>)
    requires
        valid_token(t),
    ensures
        lacks(t, '*'),
{
    assert forall|i: int| 0 <= i < t.len() implies t[i] != '*' by {
        if i > 0 {
            assert(is_token_char(t[i]));
        }
    }
}

proof fn lemma_numeral_lacks_star(t: Seq<char>)
    requires
        spec_parse_u32_exact(t) is Some,
    ensures
        lacks(t, '*'),
{
    assert(is_canonical_numeral(t));
    assert forall|i: int| 0 <= i < t.len() implies t[i] != '*' by {
        assert(crate::text::is_ascii_digit(t[i]));
    }
}

/// A segment that parses without wildcards contains no `*`, and is never
/// reported as a wildcard.
pub proof fn lemma_concrete_segment_lacks_star(seg: Seq<char>)
    requires
        spec_segment_parts(seg, false) is Ok,
    ensures
        lacks(seg, '*'),
        spec_segment_parts(seg, false)->Ok_0.1 == false,
{
    let body = segment_body(seg)->Ok_0;
    let toks = segment_tokens(seg, false)->Ok_0;
    assert(toks == split_char(body, '.'));
    let n = toks.len();
    lemma_name_tokens_valid(toks, 0);
    assert forall|k: int| 0 <= k < n implies lacks(#[trigger] toks[k], '*') by {
        if k < 4 {
            lemma_valid_token_lacks_star(toks[k]);
        } else if k == 4 {
            let t = toks[4];
            lemma_numeral_lacks_star(t.drop_first());
            assert forall|i: int| 0 <= i < t.len() implies t[i] != '*' by {
                if i > 0 {
                    assert(t[i] == t.drop_first()[i - 1]);
                }
            }
        } else {
            lemma_numeral_lacks_star(toks[5]);
        }
    }
    lemma_split_lacks(body, '.', '*');
    if count_char(seg, '~') == 1 {
        assert forall|i: int| 0 <= i < seg.len() implies seg[i] != '*' by {
            if i < seg.len() - 1 {
                assert(seg[i] == body[i]);
            }
        }
    }
}

proof fn lemma_check_names_same(toks: Seq<Seq<char>>, i: nat)
    requires
        forall|k: int| 0 <= k < toks.len() ==> #[trigger] toks[k] != star_text(),
    ensures
        check_name_tokens(toks, true, i) == check_name_tokens(toks, false, i),
    decreases 4 - i,
{
    if i < 4 && i < toks.len() {
        lemma_check_names_same(toks, i + 1);
    }
}

/// A segment without `*` parses the same with wildcards allowed or not.
pub proof fn lemma_segment_parts_without_star(seg: Seq<char>)
    requires
        lacks(seg, '*'),
    ensures
        spec_segment_parts(seg, true) == spec_segment_parts(seg, false),
{
    match segment_body(seg) {
        Err(_) => {},
        Ok(body) => {
            assert(lacks(body, '*')) by {
                assert forall|i: int| 0 <= i < body.len() implies body[i] != '*' by {
                    assert(body[i] == seg[i]);
                }
            }
            let toks = split_char(body, '.');
            lemma_split_lacks(body, '.', '*');
            assert forall|k: int| 0 <= k < toks.len() implies #[trigger] toks[k] != star_text()
                && toks[k] != v_star_text() by {
                assert(lacks(toks[k], '*'));
                if toks[k] == star_text() {
                    assert(toks[k][0] == '*');
                }
                if toks[k] == v_star_text() {
                    assert(toks[k][1] == '*');
                }
            }
            assert(!toks.contains(star_text()));
            if body.len() > 0 {
                assert(body[body.len() - 1] != '*');
            }
            assert(segment_tokens(seg, true) == segment_tokens(seg, false));
            lemma_check_names_same(toks, 0);
            if segment_tokens(seg, false) is Ok {
                let n = toks.len();
                if n > 4 {
                    assert(toks[4] != star_text() && toks[4] != v_star_text());
                }
                if n > 5 {
                    assert(toks[5] != star_text());
                }
                assert(build_parts(seg, toks, true) == build_parts(seg, toks, false));
            }
        },
    }
}

/// Each raw segment from `i` on parses, and the results are in order.
pub proof fn lemma_parse_raws_each(raws: Seq<Seq<char>>, allow: bool, i: nat)
    requires
        i <= raws.len(),
        parse_raws(raws, allow, i) is Ok,
    ensures
        parse_raws(raws, allow, i)->Ok_0.len() == raws.len() - i,
        forall|k: int|
            i <= k < raws.len() ==> spec_segment_parts(#[trigger] raws[k], allow) is Ok
                && parse_raws(raws, allow, i)->Ok_0[k - i] == spec_segment_parts(raws[k], allow)->Ok_0,
    decreases raws.len() - i,
{
    if i < raws.len() {
        lemma_parse_raws_each(raws, allow, i + 1);
    }
}

/// Raw segments without `*` parse the same with wildcards allowed or not.
proof fn lemma_parse_raws_without_star(raws: Seq<Seq<char>>, i: nat)
    requires
        forall|k: int| 0 <= k < raws.len() ==> lacks(#[trigger] raws[k], '*'),
    ensures
        parse_raws(raws, true, i) == parse_raws(raws, false, i),
    decreases raws.len() - i,
{
    if i < raws.len() {
        lemma_segment_parts_without_star(raws[i as int]);
        lemma_parse_raws_without_star(raws, i + 1);
    }
}

/// The tilde parts that the raw pieces come from have no `*` when the
/// pieces have none.
proof fn lemma_raw_pieces_lacks(parts: Seq<Seq<char>>, i: nat, count: nat, has_uuid: bool)
    requires
        count <= parts.len(),
        raw_pieces(parts, i, count, has_uuid) is Ok,
        forall|j: int|
            0 <= j < raw_pieces(parts, i, count, has_uuid)->Ok_0.len() ==> lacks(
                #[trigger] raw_pieces(parts, i, count, has_uuid)->Ok_0[j],
                '*',
            ),
    ensures
        forall|k: int| i <= k < count ==> lacks(#[trigger] parts[k], '*'),
    decreases count - i,
{
    if i < count {
        let p = parts[i as int];
        if p.len() > 0 {
            let rs = raw_pieces(parts, i, count, has_uuid)->Ok_0;
            let rest = raw_pieces(parts, i + 1, count, has_uuid)->Ok_0;
            assert(rs == seq![rs[0]] + rest);
            assert forall|j: int| 0 <= j < rest.len() implies lacks(#[trigger] rest[j], '*') by {
                assert(rest[j] == rs[j + 1]);
            }
            lemma_raw_pieces_lacks(parts, i + 1, count, has_uuid);
            assert(lacks(rs[0], '*'));
            assert forall|m: int| 0 <= m < p.len() implies p[m] != '*' by {
                assert(rs[0][m] == p[m]);
            }
        } else {
            assert forall|k: int| i <= k < count implies lacks(#[trigger] parts[k], '*') by {
                assert(k == i);
            }
        }
    }
}

proof fn lemma_uuid_lacks_star(u: Seq<char>)
    requires
        uuid_text(u),
    ensures
        lacks(u, '*'),
{
    assert forall|i: int| 0 <= i < u.len() implies u[i] != '*' by {
        if is_uuid_dash_position(i) {
            assert(u[i] == '-');
        } else {
            assert(crate::text::is_ascii_hex(u[i]));
        }
    }
}

/// A valid identifier contains no `*`.
pub proof fn lemma_valid_id_lacks_star(id: Seq<char>)
    requires
        spec_parse_id(id) is Ok,
    ensures
        lacks(id, '*'),
{
    let (raws, uuid) = spec_split_raw_segments(id, false)->Ok_0;
    assert(tilde_layout(id) is Ok);
    let parts = tilde_parts(id);
    crate::text::lemma_split_char_nonempty(id.skip(4), '~');
    let count = (parts.len() - if uuid is Some {
        1int
    } else {
        0int
    }) as nat;
    lemma_parse_raws_each(raws, false, 0);
    assert forall|j: int| 0 <= j < raws.len() implies lacks(#[trigger] raws[j], '*') by {
        lemma_concrete_segment_lacks_star(raws[j]);
    }
    lemma_raw_pieces_lacks(parts, 0, count, uuid is Some);
    assert forall|k: int| 0 <= k < parts.len() implies lacks(#[trigger] parts[k], '*') by {
        if k >= count {
            lemma_uuid_lacks_star(parts.last());
        }
    }
    lemma_split_lacks(id.skip(4), '~', '*');
    assert(id.take(4) == crate::prefix::gts_prefix());
    assert forall|i: int| 0 <= i < id.len() implies id[i] != '*' by {
        if i < 4 {
            assert(id[i] == id.take(4)[i]);
        } else {
            assert(id[i] == id.skip(4)[i - 4]);
        }
    }
}

/// The pattern segments that a concrete segment sequence stands for.
pub open spec fn as_pattern_segments(segs: Seq<SegmentModel>) -> Seq<PatternSegmentModel> {
    segs.map_values(|s: SegmentModel| PatternSegmentModel::Segment(s))
}

/// Every valid identifier is a valid pattern, with the same segments (none
/// of them a wildcard).
pub proof fn lemma_id_is_pattern(id: Seq<char>)
    requires
        spec_parse_id(id) is Ok,
    ensures
        spec_parse_pattern(id) == Ok::<Seq<PatternSegmentModel>, crate::error::IdFault>(
            as_pattern_segments(spec_parse_id(id)->Ok_0),
        ),
{
    lemma_valid_id_lacks_star(id);
    lemma_count_zero_lacks(id, '*');
    assert(structure_fault(id, true) == structure_fault(id, false));
    let (raws, uuid) = spec_split_raw_segments(id, false)->Ok_0;
    lemma_parse_raws_each(raws, false, 0);
    assert forall|j: int| 0 <= j < raws.len() implies lacks(#[trigger] raws[j], '*') by {
        lemma_concrete_segment_lacks_star(raws[j]);
    }
    lemma_parse_raws_without_star(raws, 0);
    let pws = parse_raws(raws, false, 0)->Ok_0;
    assert forall|k: int| 0 <= k < pws.len() implies #[trigger] pws[k].1 == false by {
        lemma_concrete_segment_lacks_star(raws[k]);
    }
    let segs = concrete_models(pws) + tail_models(uuid);
    assert(pattern_models(pws, uuid) =~= as_pattern_segments(segs));
}

proof fn lemma_matches_own_fields(ps: Seq<PatternSegmentModel>, i: nat)
    ensures
        matches_from(ps, pattern_candidates(ps), i),
    decreases ps.len() - i,
{
    if i < ps.len() {
        lemma_matches_own_fields(ps, i + 1);
    }
}

/// Every pattern covers itself.
pub proof fn lemma_covers_reflexive(p: GtsIdPatternModel)
    ensures
        spec_covers(p, p),
{
    lemma_matches_own_fields(p.segments, 0);
}

/// Every identifier matches the pattern made from it.
pub proof fn lemma_id_matches_own_pattern(id: GtsIdModel)
    ensures
        spec_id_matches(id, id_pattern_model(id).segments),
{
    let ps = as_pattern_segments(id.segments);
    lemma_matches_own_fields(ps, 0);
    assert(pattern_candidates(ps) =~= id_candidates(id.segments));
}

proof fn lemma_matches_from_extend(ps: Seq<PatternSegmentModel>, cs: Seq<SegmentFields>, more: Seq<SegmentFields>, i: nat)
    requires
        ps.len() <= cs.len(),
        matches_from(ps, cs, i),
    ensures
        matches_from(ps, cs + more, i),
    decreases ps.len() - i,
{
    if i < ps.len() {
        assert((cs + more)[i as int] == cs[i as int]);
        if !(ps[i as int] is Wildcard) {
            lemma_matches_from_extend(ps, cs, more, i + 1);
        }
    }
}

/// Matching reads only as many candidate segments as the pattern has: a
/// pattern that matches a candidate matches everything derived from it
/// down the chain.
pub proof fn lemma_matches_derived(ps: Seq<PatternSegmentModel>, cs: Seq<SegmentFields>, more: Seq<SegmentFields>)
    requires
        spec_matches(ps, cs),
    ensures
        spec_matches(ps, cs + more),
{
    lemma_matches_from_extend(ps, cs, more, 0);
}

/// An identifier whose segments extend those of a matched identifier is
/// matched too.
pub proof fn lemma_derived_id_matches(ps: Seq<PatternSegmentModel>, base: GtsIdModel, derived: GtsIdModel)
    requires
        spec_id_matches(base, ps),
        base.segments.len() <= derived.segments.len(),
        derived.segments.take(base.segments.len() as int) == base.segments,
    ensures
        spec_id_matches(derived, ps),
{
    let more = derived.segments.skip(base.segments.len() as int);
    assert(derived.segments =~= base.segments + more);
    lemma_matches_derived(ps, id_candidates(base.segments), id_candidates(more));
    assert(id_candidates(base.segments) + id_candidates(more) =~= id_candidates(derived.segments));
}

proof fn lemma_accepts_compose(pa: PatternSegmentModel, pb: PatternSegmentModel, c: SegmentFields)
    requires
        pb is Wildcard ==> pa is Wildcard,
        if pa is Wildcard {
            wildcard_accepts(pattern_fields(pa), pattern_fields(pb))
        } else {
            segment_accepts(pattern_fields(pa), pattern_fields(pb))
        },
        if pb is Wildcard {
            wildcard_accepts(pattern_fields(pb), c)
        } else {
            segment_accepts(pattern_fields(pb), c)
        },
    ensures
        if pa is Wildcard {
            wildcard_accepts(pattern_fields(pa), c)
        } else {
            segment_accepts(pattern_fields(pa), c)
        },
{
}

proof fn lemma_matches_from_compose(
    a: Seq<PatternSegmentModel>,
    b: Seq<PatternSegmentModel>,
    cs: Seq<SegmentFields>,
    i: nat,
)
    requires
        a.len() <= b.len() <= cs.len(),
        matches_from(a, pattern_candidates(b), i),
        matches_from(b, cs, i),
        wildcards_aligned(a, b),
    ensures
        matches_from(a, cs, i),
    decreases a.len() - i,
{
    if i < a.len() {
        let pa = a[i as int];
        let pb = b[i as int];
        assert(pattern_candidates(b)[i as int] == pattern_fields(pb));
        assert(pb is Wildcard ==> pa is Wildcard);
        lemma_accepts_compose(pa, pb, cs[i as int]);
        if !(pa is Wildcard) {
            lemma_matches_from_compose(a, b, cs, i + 1);
        }
    }
}

/// Coverage carries matching over: when `a` covers `b`, every candidate
/// that `b` matches is matched by `a`.
pub proof fn lemma_covers_sound(a: GtsIdPatternModel, b: GtsIdPatternModel, cs: Seq<SegmentFields>)
    requires
        spec_covers(a, b),
        spec_matches(b.segments, cs),
    ensures
        spec_matches(a.segments, cs),
{
    lemma_matches_from_compose(a.segments, b.segments, cs, 0);
}

/// Every identifier that pattern `b` matches is matched by a pattern `a`
/// that covers `b`.
pub proof fn lemma_covered_id_matches(a: GtsIdPatternModel, b: GtsIdPatternModel, id: GtsIdModel)
    requires
        spec_covers(a, b),
        spec_id_matches(id, b.segments),
    ensures
        spec_id_matches(id, a.segments),
{
    lemma_covers_sound(a, b, id_candidates(id.segments));
}

/// Coverage is transitive.
pub proof fn lemma_covers_transitive(a: GtsIdPatternModel, b: GtsIdPatternModel, c: GtsIdPatternModel)
    requires
        spec_covers(a, b),
        spec_covers(b, c),
    ensures
        spec_covers(a, c),
{
    lemma_covers_sound(a, b, pattern_candidates(c.segments));
    assert forall|i: int|
        0 <= i < a.segments.len() && i < c.segments.len() && (#[trigger] c.segments[i] is Wildcard)
        implies a.segments[i] is Wildcard by {
        assert(a.segments.len() <= b.segments.len());
        assert(b.segments[i] is Wildcard);
    }
}

/// A valid identifier never consists of a lone instance segment: it has
/// at least two segments, or its one segment is a type.
pub proof fn lemma_no_lone_instance(id: Seq<char>)
    requires
        spec_parse_id(id) is Ok,
    ensures
        ({
            let segs = spec_parse_id(id)->Ok_0;
            segs.len() >= 2 || segment_fields(segs[0]).is_type
        }),
{
    lemma_parsed_id_shape(id);
    let (raws, uuid) = spec_split_raw_segments(id, false)->Ok_0;
    let pws = parse_raws(raws, false, 0)->Ok_0;
    lemma_parse_raws_len(raws, false, 0);
    assert(tilde_layout(id) is Ok);
    if uuid is Some {
        assert(spec_parse_id(id)->Ok_0 == concrete_models(pws) + tail_models(uuid));
    }
}

/// Splitting at the attribute path loses nothing: the identifier, an `@`
/// and the path give back the text, and the identifier holds no `@`.
pub proof fn lemma_split_at_path_rejoins(s: Seq<char>)
    requires
        spec_split_at_path(s) is Ok,
    ensures
        ({
            let (g, p) = spec_split_at_path(s)->Ok_0;
            &&& lacks(g, '@')
            &&& match p {
                Some(t) => s == g + seq!['@'] + t && t.len() > 0,
                None => g == s,
            }
        }),
{
    lemma_first_index_facts(s, '@');
    match crate::gts_id::first_index_of(s, '@') {
        Some(k) => {
            assert(s =~= s.take(k as int) + seq!['@'] + s.skip(k + 1int));
        },
        None => {},
    }
}

proof fn lemma_first_index_facts(s: Seq<char>, c: char)
    ensures
        match crate::gts_id::first_index_of(s, c) {
            Some(k) => k < s.len() && s[k as int] == c && lacks(s.take(k as int), c),
            None => lacks(s, c),
        },
    decreases s.len(),
{
    if s.len() > 0 {
        lemma_first_index_facts(s.drop_first(), c);
        if s[0] != c {
            match crate::gts_id::first_index_of(s.drop_first(), c) {
                Some(k) => {
                    let t = s.take(k + 1int);
                    assert forall|i: int| 0 <= i < t.len() implies #[trigger] t[i] != c by {
                        if i > 0 {
                            assert(t[i] == s.drop_first().take(k as int)[i - 1]);
                        }
                    }
                },
                None => {
                    assert forall|i: int| 0 <= i < s.len() implies #[trigger] s[i] != c by {
                        if i > 0 {
                            assert(s[i] == s.drop_first()[i - 1]);
                        }
                    }
                },
            }
        }
    }
}

/// Removing repetitions leaves each element once and the same set of
/// elements.
pub proof fn lemma_dedup(s: Seq<Seq<char>>)
    ensures
        dedup(s).no_duplicates(),
        dedup(s).to_set() == s.to_set(),
    decreases s.len(),
{
    if s.len() > 0 {
        let d = s.drop_last();
        lemma_dedup(d);
        assert(s =~= d.push(s.last()));
        let r = dedup(s);
        assert forall|x: Seq<char>| r.contains(x) <==> s.contains(x) by {
            if r.contains(x) {
                let k = choose|k: int| 0 <= k < r.len() && r[k] == x;
                if k < dedup(d).len() {
                    assert(dedup(d).contains(x));
                    assert(dedup(d).to_set().contains(x));
                    let j = choose|j: int| 0 <= j < d.len() && d[j] == x;
                    assert(s[j] == x);
                } else {
                    assert(s[s.len() - 1] == x);
                }
            }
            if s.contains(x) {
                let k = choose|k: int| 0 <= k < s.len() && s[k] == x;
                if k < d.len() {
                    assert(d[k] == x);
                    assert(d.to_set().contains(x));
                    assert(dedup(d).to_set().contains(x));
                    let j = choose|j: int| 0 <= j < dedup(d).len() && dedup(d)[j] == x;
                    if !dedup(d).contains(s.last()) {
                        assert(r[j] == x);
                    }
                } else {
                    if !dedup(d).contains(s.last()) {
                        assert(r[r.len() - 1] == x);
                    }
                }
            }
        }
        assert(r.to_set() =~= s.to_set());
    } else {
        assert(dedup(s).to_set() =~= s.to_set());
    }
}

/// Every element of `s` is a valid type identifier.
pub open spec fn all_type_ids(s: Seq<Seq<char>>) -> bool {
    forall|k: int| 0 <= k < s.len() ==> spec_typed_id(#[trigger] s[k], true) is Ok
}

proof fn lemma_prepend_type_ids(a: Seq<Seq<char>>, r: Result<Seq<Seq<char>>, crate::schema_refs::RefsFault>)
    requires
        all_type_ids(a),
        r is Ok ==> all_type_ids(r->Ok_0),
    ensures
        prepend_refs(a, r) is Ok ==> all_type_ids(prepend_refs(a, r)->Ok_0),
{
    if r is Ok {
        let b = r->Ok_0;
        assert forall|k: int| 0 <= k < (a + b).len() implies spec_typed_id(#[trigger] (a + b)[k], true) is Ok by {
            if k < a.len() {
                assert((a + b)[k] == a[k]);
            } else {
                assert((a + b)[k] == b[k - a.len()]);
            }
        }
    }
}

/// Every reference found in a value is a valid type identifier.
pub proof fn lemma_refs_are_type_ids(v: JsonValue, path: Seq<char>, depth: nat)
    ensures
        refs_in(v, path, depth) is Ok ==> all_type_ids(refs_in(v, path, depth)->Ok_0),
    decreases v, 0nat,
{
    if depth <= 64 {
        match v {
            JsonValue::Object(entries) => {
                lemma_members_are_type_ids(entries, 0, path, depth);
                match own_refs(entries@, path) {
                    Ok(o) => {
                        lemma_prepend_type_ids(o, refs_in_members(entries, 0, path, depth));
                    },
                    Err(_) => {},
                }
            },
            JsonValue::Array(items) => {
                lemma_items_are_type_ids(items, 0, path, depth);
            },
            _ => {},
        }
    }
}

proof fn lemma_members_are_type_ids(entries: Vec<(String, JsonValue)>, i: nat, path: Seq<char>, depth: nat)
    ensures
        refs_in_members(entries, i, path, depth) is Ok ==> all_type_ids(
            refs_in_members(entries, i, path, depth)->Ok_0,
        ),
    decreases entries, entries.len() - i,
{
    if i < entries.len() {
        lemma_members_are_type_ids(entries, i + 1, path, depth);
        let key = entries[i as int].0@;
        if !crate::schema_refs::skipped_key(key) {
            let nested = crate::schema_refs::member_path(path, key);
            lemma_refs_are_type_ids(entries[i as int].1, nested, depth + 1);
            match refs_in(entries[i as int].1, nested, depth + 1) {
                Ok(a) => {
                    lemma_prepend_type_ids(a, refs_in_members(entries, i + 1, path, depth));
                },
                Err(_) => {},
            }
        }
    }
}

proof fn lemma_items_are_type_ids(items: Vec<JsonValue>, i: nat, path: Seq<char>, depth: nat)
    ensures
        refs_in_items(items, i, path, depth) is Ok ==> all_type_ids(
            refs_in_items(items, i, path, depth)->Ok_0,
        ),
    decreases items, items.len() - i,
{
    if i < items.len() {
        lemma_items_are_type_ids(items, i + 1, path, depth);
        let nested = crate::schema_refs::item_path(path, i);
        lemma_refs_are_type_ids(items[i as int], nested, depth + 1);
        match refs_in(items[i as int], nested, depth + 1) {
            Ok(a) => {
                lemma_prepend_type_ids(a, refs_in_items(items, i + 1, path, depth));
            },
            Err(_) => {},
        }
    }
}

/// The references extracted from a schema are valid type identifiers, each
/// listed once, and they are exactly the references met in the traversal.
pub proof fn lemma_extracted_refs(schema: JsonValue)
    requires
        refs_in(schema, Seq::<char>::empty(), 0) is Ok,
    ensures
        ({
            let s = refs_in(schema, Seq::<char>::empty(), 0)->Ok_0;
            &&& dedup(s).no_duplicates()
            &&& dedup(s).to_set() == s.to_set()
            &&& all_type_ids(dedup(s))
        }),
{
    let s = refs_in(schema, Seq::<char>::empty(), 0)->Ok_0;
    lemma_refs_are_type_ids(schema, Seq::<char>::empty(), 0);
    lemma_dedup(s);
    assert forall|k: int| 0 <= k < dedup(s).len() implies spec_typed_id(#[trigger] dedup(s)[k], true) is Ok by {
        let x = dedup(s)[k];
        assert(dedup(s).to_set().contains(x));
        assert(s.to_set().contains(x));
        let j = choose|j: int| 0 <= j < s.len() && s[j] == x;
        assert(spec_typed_id(s[j], true) is Ok);
    }
}

/// A parsed segment keeps the text it was parsed from.
proof fn lemma_parts_keep_raw(seg: Seq<char>, allow: bool)
    requires
        spec_segment_parts(seg, allow) is Ok,
    ensures
        spec_segment_parts(seg, allow)->Ok_0.0.raw == seg,
{
}

/// The raw pieces from part `i` on, flattened, give the tilde parts from
/// `i` on joined with `~` (the trailing UUID part excepted when there is
/// one).
proof fn lemma_raw_pieces_join(parts: Seq<Seq<char>>, i: nat, count: nat, has_uuid: bool)
    requires
        parts.len() >= 1,
        count == parts.len() - if has_uuid { 1int } else { 0int },
        i <= count,
        has_uuid ==> parts.len() >= 2,
        raw_pieces(parts, i, count, has_uuid) is Ok,
    ensures
        has_uuid ==> raw_pieces(parts, i, count, has_uuid)->Ok_0.flatten() + parts.last()
            == join_char(parts.skip(i as int), '~'),
        !has_uuid && i < parts.len() ==> raw_pieces(parts, i, count, has_uuid)->Ok_0.flatten()
            == join_char(parts.skip(i as int), '~'),
    decreases count - i,
{
    let rs = raw_pieces(parts, i, count, has_uuid)->Ok_0;
    if i == count {
        if has_uuid {
            assert(parts.skip(i as int) =~= seq![parts.last()]);
            assert(rs.len() == 0);
            assert(join_char(seq![parts.last()], '~') == parts.last());
            assert(rs.flatten() + parts.last() =~= parts.last());
        }
    } else {
        let p = parts[i as int];
        let tail = parts.skip(i + 1int);
        assert(parts.skip(i as int) =~= seq![p] + tail);
        if p.len() == 0 {
            // Only the final part without UUID may be empty.
            assert(!has_uuid && i == count - 1);
            assert(tail.len() == 0);
            assert(join_char(seq![p], '~') == p);
            assert(rs =~= Seq::<Seq<char>>::empty());
            assert(rs.flatten() =~= p);
        } else if i == count - 1 && !has_uuid {
            let rest = raw_pieces(parts, i + 1, count, has_uuid)->Ok_0;
            assert(rest.len() == 0);
            assert(rs =~= seq![p]);
            assert(join_char(seq![p], '~') == p);
            seq![p].lemma_flatten_one_element();
        } else {
            lemma_raw_pieces_join(parts, i + 1, count, has_uuid);
            let rest = raw_pieces(parts, i + 1, count, has_uuid)->Ok_0;
            assert(rs == seq![p.push('~')] + rest);
            vstd::seq_lib::lemma_flatten_concat(seq![p.push('~')], rest);
            seq![p.push('~')].lemma_flatten_one_element();
            assert(tail.len() > 0);
            lemma_join_front(p, tail, '~');
            if has_uuid {
                assert(rs.flatten() + parts.last() =~= p + seq!['~'] + (rest.flatten()
                    + parts.last()));
            } else {
                assert(rs.flatten() =~= p + seq!['~'] + rest.flatten());
            }
        }
    }
}

/// The raw texts of the UUID tail, if any, as a one-element sequence.
pub open spec fn tail_raws(uuid: Option<Seq<char>>) -> Seq<Seq<char>> {
    match uuid {
        Some(u) => seq![u],
        None => Seq::<Seq<char>>::empty(),
    }
}

/// The text that passed the structural pass is the prefix followed by its
/// raw segment texts and its UUID tail.
proof fn lemma_layout_text(id: Seq<char>, allow: bool)
    requires
        spec_split_raw_segments(id, allow) is Ok,
    ensures
        ({
            let (raws, uuid) = spec_split_raw_segments(id, allow)->Ok_0;
            id == crate::prefix::gts_prefix() + (raws + tail_raws(uuid)).flatten()
        }),
{
    let (raws, uuid) = spec_split_raw_segments(id, allow)->Ok_0;
    assert(tilde_layout(id) is Ok);
    let parts = tilde_parts(id);
    let rest = id.skip(4);
    crate::text::lemma_split_char_nonempty(rest, '~');
    lemma_split_join(rest, '~');
    let h = uuid is Some;
    let count = (parts.len() - if h {
        1int
    } else {
        0int
    }) as nat;
    assert(parts.skip(0) =~= parts);
    lemma_raw_pieces_join(parts, 0, count, h);
    vstd::seq_lib::lemma_flatten_concat(raws, tail_raws(uuid));
    match uuid {
        Some(u) => {
            seq![u].lemma_flatten_one_element();
            assert(u == parts.last());
        },
        None => {
            assert(tail_raws(uuid).flatten() =~= Seq::<char>::empty());
        },
    }
    assert((raws + tail_raws(uuid)).flatten() =~= rest);
    assert(id.take(4) == crate::prefix::gts_prefix());
    assert(id =~= id.take(4) + rest);
}

/// The text of a valid identifier is the prefix followed by the raw texts
/// of its segments, in order.
pub proof fn lemma_id_text_is_segments(id: Seq<char>)
    requires
        spec_parse_id(id) is Ok,
    ensures
        id == crate::prefix::gts_prefix() + raws_text(spec_parse_id(id)->Ok_0),
{
    let (raws, uuid) = spec_split_raw_segments(id, false)->Ok_0;
    lemma_layout_text(id, false);
    lemma_parse_raws_each(raws, false, 0);
    let pws = parse_raws(raws, false, 0)->Ok_0;
    let segs = concrete_models(pws) + tail_models(uuid);
    assert(segs == spec_parse_id(id)->Ok_0);
    let f = |x: SegmentModel| crate::segment::segment_raw(x);
    assert forall|k: int| 0 <= k < raws.len() implies #[trigger] concrete_models(pws).map_values(f)[k]
        == raws[k] by {
        lemma_parts_keep_raw(raws[k], false);
    }
    assert(concrete_models(pws).map_values(f) =~= raws);
    assert(tail_models(uuid).map_values(f) =~= tail_raws(uuid));
    assert(segs.map_values(f) =~= raws + tail_raws(uuid));
}

/// The raw texts of pattern segments, concatenated.
pub open spec fn pattern_raws_text(segs: Seq<PatternSegmentModel>) -> Seq<char> {
    segs.map_values(|s: PatternSegmentModel| crate::segment::pattern_raw(s)).flatten()
}

/// The text of a valid pattern is the prefix followed by the raw texts of
/// its segments, in order.
pub proof fn lemma_pattern_text_is_segments(p: Seq<char>)
    requires
        spec_parse_pattern(p) is Ok,
    ensures
        p == crate::prefix::gts_prefix() + pattern_raws_text(spec_parse_pattern(p)->Ok_0),
{
    let (raws, uuid) = spec_split_raw_segments(p, true)->Ok_0;
    lemma_layout_text(p, true);
    lemma_parse_raws_each(raws, true, 0);
    let pws = parse_raws(raws, true, 0)->Ok_0;
    let segs = pattern_models(pws, uuid);
    assert(segs == spec_parse_pattern(p)->Ok_0);
    let f = |x: PatternSegmentModel| crate::segment::pattern_raw(x);
    assert forall|k: int| 0 <= k < segs.len() implies #[trigger] segs.map_values(f)[k]
        == (raws + tail_raws(uuid))[k] by {
        if k < raws.len() {
            lemma_parts_keep_raw(raws[k], true);
        }
    }
    assert(segs.map_values(f) =~= raws + tail_raws(uuid));
}

/// The parent type identifier of a chained identifier, followed by the
/// identifier's last segment, gives the identifier back.
pub proof fn lemma_type_id_then_last_segment(m: GtsIdModel)
    requires
        crate::gts_id::id_wf(m),
        m.segments.len() >= 2,
    ensures
        spec_type_id(m) is Some,
        m.id == spec_type_id(m)->Some_0 + crate::segment::segment_raw(m.segments.last()),
{
    lemma_id_text_is_segments(m.id);
    let f = |x: SegmentModel| crate::segment::segment_raw(x);
    assert(m.segments =~= m.segments.drop_last().push(m.segments.last()));
    assert(m.segments.map_values(f) =~= m.segments.drop_last().map_values(f).push(
        crate::segment::segment_raw(m.segments.last()),
    ));
    m.segments.drop_last().map_values(f).lemma_flatten_push(crate::segment::segment_raw(m.segments.last()));
}

proof fn lemma_parsed_segment_nonempty(seg: Seq<char>, allow: bool)
    requires
        spec_segment_parts(seg, allow) is Ok,
    ensures
        seg.len() > 0,
{
    if seg.len() == 0 {
        assert(count_char(seg, '~') == 0);
        assert(segment_body(seg) == Ok::<Seq<char>, SegmentFault>(seg));
        assert(split_char(seg, '.') == seq![Seq::<char>::empty()]);
    }
}

/// An identifier is a type exactly when its last segment is one: its text
/// ends with `~` exactly when the last segment's text does.
pub proof fn lemma_is_type_agrees(m: GtsIdModel)
    requires
        crate::gts_id::id_wf(m),
    ensures
        m.segments.len() >= 1,
        (m.id.len() > 0 && m.id.last() == '~') == segment_fields(m.segments.last()).is_type,
{
    lemma_parsed_id_shape(m.id);
    lemma_id_text_is_segments(m.id);
    let segs = m.segments;
    let last = segs.last();
    let f = |x: SegmentModel| crate::segment::segment_raw(x);
    assert(segs =~= segs.drop_last().push(last));
    assert(segs.map_values(f) =~= segs.drop_last().map_values(f).push(crate::segment::segment_raw(last)));
    segs.drop_last().map_values(f).lemma_flatten_push(crate::segment::segment_raw(last));
    match last {
        SegmentModel::UuidTail(u) => {
            assert(u.len() == 36);
        },
        SegmentModel::Concrete(p) => {
            let (raws, uuid) = spec_split_raw_segments(m.id, false)->Ok_0;
            lemma_parse_raws_each(raws, false, 0);
            let pws = parse_raws(raws, false, 0)->Ok_0;
            assert(tilde_layout(m.id) is Ok);
            if uuid is Some {
                assert(segs.last() is UuidTail);
            }
            assert(segs == concrete_models(pws));
            let k = pws.len() - 1;
            assert(p == pws[k].0);
            lemma_parts_keep_raw(raws[k], false);
            lemma_parsed_segment_nonempty(raws[k], false);
        },
    }
}

/// A segment parsed as a wildcard holds a `*`.
proof fn lemma_wildcard_has_star(seg: Seq<char>)
    requires
        spec_segment_parts(seg, true) is Ok,
        spec_segment_parts(seg, true)->Ok_0.1,
    ensures
        !lacks(seg, '*'),
{
    if lacks(seg, '*') {
        lemma_segment_parts_without_star(seg);
        lemma_concrete_segment_lacks_star(seg);
    }
}

proof fn lemma_flatten_split(r: Seq<Seq<char>>, i: int)
    requires
        0 <= i < r.len(),
    ensures
        r.flatten() == r.take(i).flatten() + r[i] + r.skip(i + 1).flatten(),
{
    assert(r =~= r.take(i) + (seq![r[i]] + r.skip(i + 1)));
    vstd::seq_lib::lemma_flatten_concat(r.take(i), seq![r[i]] + r.skip(i + 1));
    vstd::seq_lib::lemma_flatten_concat(seq![r[i]], r.skip(i + 1));
    seq![r[i]].lemma_flatten_one_element();
}

proof fn lemma_flatten_nonempty(r: Seq<Seq<char>>)
    requires
        r.len() > 0,
        forall|k: int| 0 <= k < r.len() ==> (#[trigger] r[k]).len() > 0,
    ensures
        r.flatten().len() > 0,
{
    assert(r.flatten() == r.first() + r.drop_first().flatten());
}

/// In a valid pattern a wildcard segment is always the last one, and it
/// is never a type segment: the pattern's single `*` ends the text.
pub proof fn lemma_wildcard_is_last(p: Seq<char>)
    requires
        spec_parse_pattern(p) is Ok,
    ensures
        ({
            let segs = spec_parse_pattern(p)->Ok_0;
            forall|i: int|
                0 <= i < segs.len() && (#[trigger] segs[i] is Wildcard) ==> i == segs.len() - 1
                    && !pattern_fields(segs[i]).is_type
        }),
{
    let (raws, uuid) = spec_split_raw_segments(p, true)->Ok_0;
    assert(structure_fault(p, true) is None);
    lemma_layout_text(p, true);
    lemma_parse_raws_each(raws, true, 0);
    let pws = parse_raws(raws, true, 0)->Ok_0;
    let segs = pattern_models(pws, uuid);
    assert(segs == spec_parse_pattern(p)->Ok_0);
    let r = raws + tail_raws(uuid);
    assert forall|k: int| 0 <= k < r.len() implies (#[trigger] r[k]).len() > 0 by {
        if k < raws.len() {
            assert(r[k] == raws[k]);
            lemma_parsed_segment_nonempty(raws[k], true);
        } else {
            assert(uuid is Some);
            assert(uuid == uuid_tail_of(tilde_parts(p)));
            assert(r[k] == uuid->Some_0);
        }
    }
    assert forall|i: int| 0 <= i < segs.len() && (#[trigger] segs[i] is Wildcard) implies i == segs.len()
        - 1 && !pattern_fields(segs[i]).is_type by {
        assert(i < pws.len());
        assert(pws[i].1);
        lemma_wildcard_has_star(raws[i]);
        lemma_parts_keep_raw(raws[i], true);
        let raw = raws[i];
        let j = choose|j: int| 0 <= j < raw.len() && raw[j] == '*';
        lemma_flatten_split(r, i);
        let before = r.take(i).flatten();
        let after = r.skip(i + 1).flatten();
        let q = 4 + before.len() + j;
        assert(r[i] == raw);
        assert(p[q] == '*');
        // The pattern's one `*` is its last character.
        lemma_count_zero_lacks(p, '*');
        assert(count_char(p, '*') == 1);
        assert(p.last() == '*');
        assert(count_char(p.drop_last(), '*') == 0);
        lemma_count_zero_lacks(p.drop_last(), '*');
        if i < segs.len() - 1 {
            assert(r.skip(i + 1).len() > 0);
            assert forall|k: int| 0 <= k < r.skip(i + 1).len() implies (#[trigger] r.skip(
                i + 1,
            )[k]).len() > 0 by {
                assert(r.skip(i + 1)[k] == r[i + 1 + k]);
            }
            lemma_flatten_nonempty(r.skip(i + 1));
            assert(q < p.len() - 1);
            assert(p.drop_last()[q] == '*');
        } else {
            assert(after.len() == 0);
            assert(raw.last() == p.last());
        }
    }
}

/// No two members share a name.
pub open spec fn distinct_keys(s: Seq<(Seq<char>, JsonModel)>) -> bool {
    forall|i: int, j: int| 0 <= i < j < s.len() ==> #[trigger] s[i].0 != #[trigger] s[j].0
}

/// Whether some member of `s` is named `k`.
pub open spec fn has_key(s: Seq<(Seq<char>, JsonModel)>, k: Seq<char>) -> bool {
    exists|i: int| 0 <= i < s.len() && #[trigger] s[i].0 == k
}

proof fn lemma_member_same_keys(s: Seq<(Seq<char>, JsonModel)>, t: Seq<(Seq<char>, JsonModel)>, k: Seq<char>)
    requires
        s.len() == t.len(),
        forall|i: int| 0 <= i < s.len() ==> #[trigger] s[i].0 == t[i].0,
    ensures
        member_index(s, k) == member_index(t, k),
{
    lemma_member_index_first(s, k);
    lemma_member_index_first(t, k);
    match member_index(s, k) {
        Some(a) => {
            match member_index(t, k) {
                Some(b) => {
                    if a < b {
                        assert(t[a as int].0 == k);
                    }
                    if b < a {
                        assert(s[b as int].0 == k);
                    }
                },
                None => {
                    assert(t[a as int].0 == k);
                },
            }
        },
        None => {
            match member_index(t, k) {
                Some(b) => {
                    assert(s[b as int].0 == k);
                },
                None => {},
            }
        },
    }
}

/// Setting another member leaves member `k` as it was.
pub proof fn lemma_insert_other(s: Seq<(Seq<char>, JsonModel)>, k2: Seq<char>, v: JsonModel, k: Seq<char>)
    requires
        k2 != k,
    ensures
        member(member_insert(s, k2, v), k) == member(s, k),
{
    lemma_member_index_first(s, k2);
    lemma_member_index_first(s, k);
    let t = member_insert(s, k2, v);
    match member_index(s, k2) {
        Some(j) => {
            lemma_member_same_keys(s, t, k);
        },
        None => {
            lemma_member_index_first(t, k);
            match member_index(s, k) {
                Some(a) => {
                    match member_index(t, k) {
                        Some(b) => {
                            if a < b {
                                assert(t[a as int].0 == k);
                            }
                            if b < a {
                                assert(s[b as int].0 == k);
                            }
                        },
                        None => {
                            assert(t[a as int].0 == k);
                        },
                    }
                },
                None => {
                    match member_index(t, k) {
                        Some(b) => {
                            if b < s.len() {
                                assert(s[b as int].0 == k);
                            }
                        },
                        None => {},
                    }
                },
            }
        },
    }
}

/// Setting member `k` makes `v` its value.
pub proof fn lemma_insert_same(s: Seq<(Seq<char>, JsonModel)>, k: Seq<char>, v: JsonModel)
    ensures
        member(member_insert(s, k, v), k) == Some(v),
{
    lemma_member_index_first(s, k);
    let t = member_insert(s, k, v);
    match member_index(s, k) {
        Some(j) => {
            lemma_member_same_keys(s, t, k);
        },
        None => {
            lemma_member_index_first(t, k);
            match member_index(t, k) {
                Some(b) => {
                    if b < s.len() {
                        assert(s[b as int].0 == k);
                    }
                },
                None => {
                    assert(t[s.len() as int].0 == k);
                },
            }
        },
    }
}

/// Removing another member leaves member `k` as it was.
pub proof fn lemma_remove_other(s: Seq<(Seq<char>, JsonModel)>, k2: Seq<char>, k: Seq<char>)
    requires
        k2 != k,
    ensures
        member(member_remove(s, k2), k) == member(s, k),
{
    lemma_member_index_first(s, k2);
    lemma_member_index_first(s, k);
    match member_index(s, k2) {
        Some(j) => {
            let t = s.remove(j as int);
            lemma_member_index_first(t, k);
            assert forall|i: int| 0 <= i < t.len() implies #[trigger] t[i] == (if i < j {
                s[i]
            } else {
                s[i + 1]
            }) by {}
            match member_index(s, k) {
                Some(a) => {
                    assert(a != j);
                    let expect = if a < j {
                        a as int
                    } else {
                        a - 1
                    };
                    assert(t[expect] == s[a as int]);
                    match member_index(t, k) {
                        Some(b) => {
                            if b < expect {
                                let sb = if b < j {
                                    b as int
                                } else {
                                    b + 1int
                                };
                                assert(t[b as int] == s[sb]);
                                assert(s[sb].0 == k);
                            }
                            if b > expect {
                                assert(t[expect].0 == k);
                            }
                        },
                        None => {
                            assert(t[expect].0 == k);
                        },
                    }
                },
                None => {
                    match member_index(t, k) {
                        Some(b) => {
                            let sb = if b < j {
                                b as int
                            } else {
                                b + 1int
                            };
                            assert(t[b as int] == s[sb]);
                            assert(s[sb].0 == k);
                        },
                        None => {},
                    }
                },
            }
        },
        None => {},
    }
}

/// Removing member `k` from members with distinct names leaves no member
/// named `k`.
pub proof fn lemma_remove_same(s: Seq<(Seq<char>, JsonModel)>, k: Seq<char>)
    requires
        distinct_keys(s),
    ensures
        member(member_remove(s, k), k) is None,
{
    lemma_member_index_first(s, k);
    match member_index(s, k) {
        Some(j) => {
            let t = s.remove(j as int);
            lemma_member_index_first(t, k);
            match member_index(t, k) {
                Some(b) => {
                    if b < j {
                        assert(t[b as int] == s[b as int]);
                    } else {
                        assert(t[b as int] == s[b + 1int]);
                        assert(s[j as int].0 == s[b + 1int].0);
                    }
                },
                None => {},
            }
        },
        None => {
            lemma_member_index_first(s, k);
        },
    }
}

/// Setting and removing members keeps their names distinct.
pub proof fn lemma_edits_keep_distinct(s: Seq<(Seq<char>, JsonModel)>, k: Seq<char>, v: JsonModel)
    requires
        distinct_keys(s),
    ensures
        distinct_keys(member_insert(s, k, v)),
        distinct_keys(member_remove(s, k)),
{
    lemma_member_index_first(s, k);
    match member_index(s, k) {
        Some(j) => {
            let t = s.update(j as int, (k, v));
            assert forall|a: int, b: int| 0 <= a < b < t.len() implies #[trigger] t[a].0
                != #[trigger] t[b].0 by {
                assert(s[a].0 != s[b].0);
            }
            let u = s.remove(j as int);
            assert forall|a: int, b: int| 0 <= a < b < u.len() implies #[trigger] u[a].0
                != #[trigger] u[b].0 by {
                let sa = if a < j {
                    a
                } else {
                    a + 1
                };
                let sb = if b < j {
                    b
                } else {
                    b + 1
                };
                assert(u[a] == s[sa]);
                assert(u[b] == s[sb]);
                assert(s[sa].0 != s[sb].0);
            }
        },
        None => {
            let t = s.push((k, v));
            assert forall|a: int, b: int| 0 <= a < b < t.len() implies #[trigger] t[a].0
                != #[trigger] t[b].0 by {
                if b == s.len() {
                    assert(s[a].0 != k);
                } else {
                    assert(s[a].0 != s[b].0);
                }
            }
        },
    }
}

/// Members that the patch (from member `i` on) does not name keep their
/// values.
proof fn lemma_merge_from_untouched(
    t: Seq<(Seq<char>, JsonModel)>,
    p: Seq<(Seq<char>, JsonModel)>,
    i: nat,
    depth: nat,
    k: Seq<char>,
)
    requires
        forall|j: int| i <= j < p.len() ==> #[trigger] p[j].0 != k,
    ensures
        member(merge_from(t, p, i, depth), k) == member(t, k),
    decreases p.len() - i,
{
    if i < p.len() && depth < 64 {
        let key = p[i as int].0;
        let t1 = match p[i as int].1 {
            JsonModel::Null => member_remove(t, key),
            JsonModel::Object(po) => match member(t, key) {
                Some(JsonModel::Object(existing)) => member_insert(
                    t,
                    key,
                    JsonModel::Object(merge_patch(existing, po, depth + 1)),
                ),
                _ => member_insert(
                    t,
                    key,
                    JsonModel::Object(merge_patch(Seq::<(Seq<char>, JsonModel)>::empty(), po, depth + 1)),
                ),
            },
            other => member_insert(t, key, other),
        };
        match p[i as int].1 {
            JsonModel::Null => lemma_remove_other(t, key, k),
            JsonModel::Object(po) => {
                match member(t, key) {
                    Some(JsonModel::Object(existing)) => lemma_insert_other(
                        t,
                        key,
                        JsonModel::Object(merge_patch(existing, po, depth + 1)),
                        k,
                    ),
                    _ => lemma_insert_other(
                        t,
                        key,
                        JsonModel::Object(merge_patch(Seq::<(Seq<char>, JsonModel)>::empty(), po, depth + 1)),
                        k,
                    ),
                }
            },
            other => lemma_insert_other(t, key, other, k),
        }
        lemma_merge_from_untouched(t1, p, i + 1, depth, k);
    }
}

/// RFC 7396 merge, top level: a member that the patch does not name keeps
/// its value; a member the patch sets to a value that is neither `null`
/// nor an object takes that value; a member the patch sets to `null` is
/// removed. (Patch member names are distinct, as in any JSON object; for
/// removal the target's are too.)
pub proof fn lemma_merge_patch_members(
    t: Seq<(Seq<char>, JsonModel)>,
    p: Seq<(Seq<char>, JsonModel)>,
    k: Seq<char>,
)
    requires
        distinct_keys(p),
    ensures
        !has_key(p, k) ==> member(merge_patch(t, p, 0), k) == member(t, k),
        forall|j: int|
            0 <= j < p.len() && p[j].0 == k && !(p[j].1 is Null) && !(p[j].1 is Object) ==> member(
                merge_patch(t, p, 0),
                k,
            ) == Some(#[trigger] p[j].1),
        distinct_keys(t) ==> forall|j: int|
            0 <= j < p.len() && p[j].0 == k && (#[trigger] p[j].1 is Null) ==> member(
                merge_patch(t, p, 0),
                k,
            ) is None,
{
    if !has_key(p, k) {
        lemma_merge_from_untouched(t, p, 0, 0, k);
    }
    assert forall|j: int|
        0 <= j < p.len() && p[j].0 == k && !(p[j].1 is Null) && !(p[j].1 is Object) implies member(
        merge_patch(t, p, 0),
        k,
    ) == Some(#[trigger] p[j].1) by {
        lemma_merge_from_sets(t, p, 0, j as nat, k);
    }
    if distinct_keys(t) {
        assert forall|j: int|
            0 <= j < p.len() && p[j].0 == k && (#[trigger] p[j].1 is Null) implies member(
            merge_patch(t, p, 0),
            k,
        ) is None by {
            lemma_merge_from_deletes(t, p, 0, j as nat, k);
        }
    }
}

proof fn lemma_merge_from_sets(
    t: Seq<(Seq<char>, JsonModel)>,
    p: Seq<(Seq<char>, JsonModel)>,
    i: nat,
    j: nat,
    k: Seq<char>,
)
    requires
        distinct_keys(p),
        i <= j < p.len(),
        p[j as int].0 == k,
        !(p[j as int].1 is Null),
        !(p[j as int].1 is Object),
    ensures
        member(merge_from(t, p, i, 0), k) == Some(p[j as int].1),
    decreases p.len() - i,
{
    let key = p[i as int].0;
    if i == j {
        let t1 = member_insert(t, key, p[i as int].1);
        lemma_insert_same(t, key, p[i as int].1);
        assert forall|m: int| i + 1 <= m < p.len() implies #[trigger] p[m].0 != k by {
            assert(p[i as int].0 != p[m].0);
        }
        lemma_merge_from_untouched(t1, p, i + 1, 0, k);
    } else {
        assert(p[i as int].0 != p[j as int].0);
        let t1 = match p[i as int].1 {
            JsonModel::Null => member_remove(t, key),
            JsonModel::Object(po) => match member(t, key) {
                Some(JsonModel::Object(existing)) => member_insert(
                    t,
                    key,
                    JsonModel::Object(merge_patch(existing, po, 1)),
                ),
                _ => member_insert(
                    t,
                    key,
                    JsonModel::Object(merge_patch(Seq::<(Seq<char>, JsonModel)>::empty(), po, 1)),
                ),
            },
            other => member_insert(t, key, other),
        };
        lemma_merge_from_sets(t1, p, i + 1, j, k);
    }
}

proof fn lemma_merge_from_deletes(
    t: Seq<(Seq<char>, JsonModel)>,
    p: Seq<(Seq<char>, JsonModel)>,
    i: nat,
    j: nat,
    k: Seq<char>,
)
    requires
        distinct_keys(p),
        distinct_keys(t),
        i <= j < p.len(),
        p[j as int].0 == k,
        p[j as int].1 is Null,
    ensures
        member(merge_from(t, p, i, 0), k) is None,
    decreases p.len() - i,
{
    let key = p[i as int].0;
    if i == j {
        let t1 = member_remove(t, key);
        lemma_remove_same(t, key);
        assert forall|m: int| i + 1 <= m < p.len() implies #[trigger] p[m].0 != k by {
            assert(p[i as int].0 != p[m].0);
        }
        lemma_merge_from_untouched(t1, p, i + 1, 0, k);
    } else {
        let t1 = match p[i as int].1 {
            JsonModel::Null => member_remove(t, key),
            JsonModel::Object(po) => match member(t, key) {
                Some(JsonModel::Object(existing)) => member_insert(
                    t,
                    key,
                    JsonModel::Object(merge_patch(existing, po, 1)),
                ),
                _ => member_insert(
                    t,
                    key,
                    JsonModel::Object(merge_patch(Seq::<(Seq<char>, JsonModel)>::empty(), po, 1)),
                ),
            },
            other => member_insert(t, key, other),
        };
        match p[i as int].1 {
            JsonModel::Null => lemma_edits_keep_distinct(t, key, JsonModel::Null),
            JsonModel::Object(po) => {
                match member(t, key) {
                    Some(JsonModel::Object(existing)) => lemma_edits_keep_distinct(
                        t,
                        key,
                        JsonModel::Object(merge_patch(existing, po, 1)),
                    ),
                    _ => lemma_edits_keep_distinct(
                        t,
                        key,
                        JsonModel::Object(merge_patch(Seq::<(Seq<char>, JsonModel)>::empty(), po, 1)),
                    ),
                }
            },
            other => lemma_edits_keep_distinct(t, key, other),
        }
        lemma_merge_from_deletes(t1, p, i + 1, j, k);
    }
}

/// Whether no local `$ref` in `m` resolves against `root` (down to the
/// nesting limit), with the member names of each object distinct.
pub open spec fn no_resolving_refs(m: JsonModel, root: JsonModel, depth: nat) -> bool
    decreases 64 - depth, 1nat, 0nat,
{
    if depth >= 64 {
        true
    } else {
        match m {
            JsonModel::Object(es) => local_ref_target(m, root) is None && distinct_keys(es)
                && members_resolve_nowhere(es, es.len(), root, depth),
            JsonModel::Array(items) => items_resolve_nowhere(items, items.len(), root, depth),
            _ => true,
        }
    }
}

/// `no_resolving_refs` of the values of the first `n` members.
pub open spec fn members_resolve_nowhere(
    es: Seq<(Seq<char>, JsonModel)>,
    n: nat,
    root: JsonModel,
    depth: nat,
) -> bool
    decreases 64 - depth, 0nat, n,
{
    if n == 0 || n > es.len() || depth >= 64 {
        true
    } else {
        members_resolve_nowhere(es, (n - 1) as nat, root, depth) && no_resolving_refs(
            es[n - 1].1,
            root,
            depth + 1,
        )
    }
}

/// `no_resolving_refs` of the first `n` items.
pub open spec fn items_resolve_nowhere(items: Seq<JsonModel>, n: nat, root: JsonModel, depth: nat) -> bool
    decreases 64 - depth, 0nat, n,
{
    if n == 0 || n > items.len() || depth >= 64 {
        true
    } else {
        items_resolve_nowhere(items, (n - 1) as nat, root, depth) && no_resolving_refs(
            items[n - 1],
            root,
            depth + 1,
        )
    }
}

/// Inlining leaves a value whose local `$ref`s resolve nowhere in `root`
/// (a `gts://` reference, a dangling pointer) exactly as it is.
pub proof fn lemma_inline_without_targets(m: JsonModel, root: JsonModel, depth: nat)
    requires
        no_resolving_refs(m, root, depth),
    ensures
        inlined(m, root, depth) == m,
    decreases 64 - depth, 1nat, 0nat,
{
    if depth < 64 {
        match m {
            JsonModel::Object(es) => {
                lemma_inline_members_without_targets(es, es.len(), root, depth);
                assert(es.take(es.len() as int) =~= es);
            },
            JsonModel::Array(items) => {
                lemma_inline_items_without_targets(items, items.len(), root, depth);
                assert(items.take(items.len() as int) =~= items);
            },
            _ => {},
        }
    }
}

proof fn lemma_inline_members_without_targets(
    es: Seq<(Seq<char>, JsonModel)>,
    n: nat,
    root: JsonModel,
    depth: nat,
)
    requires
        depth < 64,
        n <= es.len(),
        distinct_keys(es),
        members_resolve_nowhere(es, es.len(), root, depth),
    ensures
        inlined_members(Seq::<(Seq<char>, JsonModel)>::empty(), es, n, root, depth, false) == es.take(
            n as int,
        ),
    decreases 64 - depth, 0nat, n,
{
    if n > 0 {
        lemma_inline_members_without_targets(es, (n - 1) as nat, root, depth);
        lemma_members_resolve_nowhere_at(es, es.len(), root, depth, n - 1);
        lemma_inline_without_targets(es[n - 1].1, root, depth + 1);
        let prev = es.take(n - 1);
        lemma_member_index_first(prev, es[n - 1].0);
        match member_index(prev, es[n - 1].0) {
            Some(k) => {
                assert(prev[k as int] == es[k as int]);
            },
            None => {},
        }
        assert(prev.push((es[n - 1].0, es[n - 1].1)) =~= es.take(n as int));
    } else {
        assert(es.take(0) =~= Seq::<(Seq<char>, JsonModel)>::empty());
    }
}

proof fn lemma_members_resolve_nowhere_at(
    es: Seq<(Seq<char>, JsonModel)>,
    n: nat,
    root: JsonModel,
    depth: nat,
    i: int,
)
    requires
        depth < 64,
        n <= es.len(),
        0 <= i < n,
        members_resolve_nowhere(es, n, root, depth),
    ensures
        no_resolving_refs(es[i].1, root, depth + 1),
    decreases n,
{
    if i < n - 1 {
        lemma_members_resolve_nowhere_at(es, (n - 1) as nat, root, depth, i);
    }
}

proof fn lemma_inline_items_without_targets(items: Seq<JsonModel>, n: nat, root: JsonModel, depth: nat)
    requires
        depth < 64,
        n <= items.len(),
        items_resolve_nowhere(items, items.len(), root, depth),
    ensures
        inlined_items(items, n, root, depth) == items.take(n as int),
    decreases 64 - depth, 0nat, n,
{
    if n > 0 {
        lemma_inline_items_without_targets(items, (n - 1) as nat, root, depth);
        lemma_items_resolve_nowhere_at(items, items.len(), root, depth, n - 1);
        lemma_inline_without_targets(items[n - 1], root, depth + 1);
        assert(items.take(n - 1).push(items[n - 1]) =~= items.take(n as int));
    } else {
        assert(items.take(0) =~= Seq::<JsonModel>::empty());
    }
}

proof fn lemma_items_resolve_nowhere_at(items: Seq<JsonModel>, n: nat, root: JsonModel, depth: nat, i: int)
    requires
        depth < 64,
        n <= items.len(),
        0 <= i < n,
        items_resolve_nowhere(items, n, root, depth),
    ensures
        no_resolving_refs(items[i], root, depth + 1),
    decreases n,
{
    if i < n - 1 {
        lemma_items_resolve_nowhere_at(items, (n - 1) as nat, root, depth, i);
    }
}

/// What resolving property `x` makes of its current value `cur`: an absent
/// value is filled from the nearest `const`, else the nearest `default`; a
/// present object value whose declaration is an object schema with
/// properties is materialized one level deeper; any other value is kept.
pub open spec fn resolved_value(
    decls: Seq<(Seq<char>, JsonModel)>,
    x: Seq<char>,
    cur: Option<JsonModel>,
    depth: nat,
) -> Option<JsonModel> {
    match cur {
        None => match nearest(decls, x, "const"@) {
            Some(c) => Some(c),
            None => nearest(decls, x, "default"@),
        },
        Some(v) => match member(decls, x) {
            Some(decl) => if v is Object && declared_object(decl) {
                Some(materialized(decl, v, depth + 1))
            } else {
                Some(v)
            },
            None => Some(v),
        },
    }
}

/// One resolution step of materialization, for property `x`.
pub open spec fn resolve_step(
    decls: Seq<(Seq<char>, JsonModel)>,
    x: Seq<char>,
    result: Seq<(Seq<char>, JsonModel)>,
    depth: nat,
) -> Seq<(Seq<char>, JsonModel)> {
    match member(result, x) {
        None => match nearest(decls, x, "const"@) {
            Some(c) => member_insert(result, x, c),
            None => match nearest(decls, x, "default"@) {
                Some(d) => member_insert(result, x, d),
                None => result,
            },
        },
        Some(cur) => match member(decls, x) {
            Some(decl) => if cur is Object && declared_object(decl) {
                member_insert(result, x, materialized(decl, cur, depth + 1))
            } else {
                result
            },
            None => result,
        },
    }
}

proof fn lemma_resolve_step(
    decls: Seq<(Seq<char>, JsonModel)>,
    x: Seq<char>,
    result: Seq<(Seq<char>, JsonModel)>,
    depth: nat,
    k: Seq<char>,
)
    ensures
        x != k ==> member(resolve_step(decls, x, result, depth), k) == member(result, k),
        member(resolve_step(decls, x, result, depth), x) == resolved_value(decls, x, member(result, x), depth),
{
    match member(result, x) {
        None => match nearest(decls, x, "const"@) {
            Some(c) => {
                lemma_insert_same(result, x, c);
                if x != k {
                    lemma_insert_other(result, x, c, k);
                }
            },
            None => match nearest(decls, x, "default"@) {
                Some(d) => {
                    lemma_insert_same(result, x, d);
                    if x != k {
                        lemma_insert_other(result, x, d, k);
                    }
                },
                None => {},
            },
        },
        Some(cur) => match member(decls, x) {
            Some(decl) => if cur is Object && declared_object(decl) {
                lemma_insert_same(result, x, materialized(decl, cur, depth + 1));
                if x != k {
                    lemma_insert_other(result, x, materialized(decl, cur, depth + 1), k);
                }
            },
            None => {},
        },
    }
}

proof fn lemma_materialize_from_step(
    decls: Seq<(Seq<char>, JsonModel)>,
    order: Seq<Seq<char>>,
    result: Seq<(Seq<char>, JsonModel)>,
    i: nat,
    depth: nat,
)
    requires
        depth < 64,
        i < order.len(),
    ensures
        materialize_from(decls, order, result, i, depth) == materialize_from(
            decls,
            order,
            resolve_step(decls, order[i as int], result, depth),
            i + 1,
            depth,
        ),
{
}

proof fn lemma_materialize_untouched(
    decls: Seq<(Seq<char>, JsonModel)>,
    order: Seq<Seq<char>>,
    result: Seq<(Seq<char>, JsonModel)>,
    i: nat,
    depth: nat,
    k: Seq<char>,
)
    requires
        depth < 64,
        forall|m: int| i <= m < order.len() ==> #[trigger] order[m] != k,
    ensures
        member(materialize_from(decls, order, result, i, depth), k) == member(result, k),
    decreases order.len() - i,
{
    if i < order.len() {
        lemma_materialize_from_step(decls, order, result, i, depth);
        lemma_resolve_step(decls, order[i as int], result, depth, k);
        lemma_materialize_untouched(
            decls,
            order,
            resolve_step(decls, order[i as int], result, depth),
            i + 1,
            depth,
            k,
        );
    }
}

proof fn lemma_materialize_hit(
    decls: Seq<(Seq<char>, JsonModel)>,
    order: Seq<Seq<char>>,
    result: Seq<(Seq<char>, JsonModel)>,
    i: nat,
    depth: nat,
    j: nat,
)
    requires
        depth < 64,
        i <= j < order.len(),
        order.no_duplicates(),
    ensures
        member(materialize_from(decls, order, result, i, depth), order[j as int]) == resolved_value(
            decls,
            order[j as int],
            member(result, order[j as int]),
            depth,
        ),
    decreases j - i,
{
    let k = order[j as int];
    lemma_materialize_from_step(decls, order, result, i, depth);
    let r1 = resolve_step(decls, order[i as int], result, depth);
    lemma_resolve_step(decls, order[i as int], result, depth, k);
    if i == j {
        assert forall|m: int| i + 1 <= m < order.len() implies #[trigger] order[m] != k by {
            assert(order[m] != order[j as int]);
        }
        lemma_materialize_untouched(decls, order, r1, i + 1, depth, k);
    } else {
        assert(order[i as int] != k);
        lemma_materialize_hit(decls, order, r1, i + 1, depth, j);
    }
}

proof fn lemma_nearest_declared(decls: Seq<(Seq<char>, JsonModel)>, x: Seq<char>, key: Seq<char>)
    ensures
        nearest(decls, x, key) is Some ==> exists|i: int| 0 <= i < decls.len() && #[trigger] decls[i].0 == x,
    decreases decls.len(),
{
    if decls.len() > 0 {
        lemma_nearest_declared(decls.drop_first(), x, key);
        if nearest(decls.drop_first(), x, key) is Some {
            let i = choose|i: int| 0 <= i < decls.drop_first().len() && #[trigger] decls.drop_first()[i].0 == x;
            assert(decls[i + 1].0 == x);
        }
    }
}

/// Materialization of trait values (at the top level, for any trait
/// schema): a value the chain supplied that is not an object is kept as it
/// is; an absent property takes its nearest `const`, else its nearest
/// `default` (nearest meaning the most derived declaration that has one),
/// and stays absent when neither exists.
pub proof fn lemma_materialize_member(schema: JsonModel, t: Seq<(Seq<char>, JsonModel)>, k: Seq<char>)
    ensures
        ({
            let decls = props_in(schema, 0).reverse();
            let out = object_members(materialized(schema, JsonModel::Object(t), 0));
            &&& forall|v: JsonModel| member(t, k) == Some(v) && !(v is Object) ==> member(out, k) == Some(v)
            &&& member(t, k) is None && nearest(decls, k, "const"@) is Some ==> member(out, k) == nearest(
                decls,
                k,
                "const"@,
            )
            &&& member(t, k) is None && nearest(decls, k, "const"@) is None ==> member(out, k) == nearest(
                decls,
                k,
                "default"@,
            )
        }),
{
    let decls = props_in(schema, 0).reverse();
    let names = decls.map_values(|e: (Seq<char>, JsonModel)| e.0);
    let order = resolution_order(decls);
    lemma_dedup(names);
    assert(order == dedup(names));
    if order.contains(k) {
        let j = choose|j: int| 0 <= j < order.len() && order[j] == k;
        lemma_materialize_hit(decls, order, t, 0, 0, j as nat);
    } else {
        assert forall|m: int| 0 <= m < order.len() implies #[trigger] order[m] != k by {
            assert(order.contains(order[m]));
        }
        lemma_materialize_untouched(decls, order, t, 0, 0, k);
        lemma_nearest_declared(decls, k, "const"@);
        lemma_nearest_declared(decls, k, "default"@);
        if nearest(decls, k, "const"@) is Some || nearest(decls, k, "default"@) is Some {
            let i = choose|i: int| 0 <= i < decls.len() && #[trigger] decls[i].0 == k;
            assert(names[i] == k);
            assert(names.to_set().contains(k));
            assert(order.to_set().contains(k));
        }
    }
}

/// The UUID of a valid identifier depends on its text alone: two valid
/// identifiers with the same text map to the same UUID.
pub proof fn lemma_uuid_deterministic(a: GtsIdModel, b: GtsIdModel)
    requires
        crate::gts_id::id_wf(a),
        crate::gts_id::id_wf(b),
        a.id == b.id,
    ensures
        crate::gts_id::spec_id_uuid(a) == crate::gts_id::spec_id_uuid(b),
{
    assert(a.segments == b.segments);
}

/// What merging a patch member `(key, value)` into `t` gives, one step of
/// the RFC 7396 merge.
pub open spec fn merge_step(t: Seq<(Seq<char>, JsonModel)>, key: Seq<char>, value: JsonModel, depth: nat) -> Seq<
    (Seq<char>, JsonModel),
> {
    match value {
        JsonModel::Null => member_remove(t, key),
        JsonModel::Object(po) => match member(t, key) {
            Some(JsonModel::Object(existing)) => member_insert(
                t,
                key,
                JsonModel::Object(merge_patch(existing, po, depth + 1)),
            ),
            _ => member_insert(
                t,
                key,
                JsonModel::Object(merge_patch(Seq::<(Seq<char>, JsonModel)>::empty(), po, depth + 1)),
            ),
        },
        other => member_insert(t, key, other),
    }
}

proof fn lemma_merge_step_other(t: Seq<(Seq<char>, JsonModel)>, key: Seq<char>, value: JsonModel, depth: nat, k: Seq<char>)
    requires
        key != k,
    ensures
        member(merge_step(t, key, value, depth), k) == member(t, k),
{
    match value {
        JsonModel::Null => lemma_remove_other(t, key, k),
        JsonModel::Object(po) => match member(t, key) {
            Some(JsonModel::Object(existing)) => lemma_insert_other(
                t,
                key,
                JsonModel::Object(merge_patch(existing, po, depth + 1)),
                k,
            ),
            _ => lemma_insert_other(
                t,
                key,
                JsonModel::Object(merge_patch(Seq::<(Seq<char>, JsonModel)>::empty(), po, depth + 1)),
                k,
            ),
        },
        other => lemma_insert_other(t, key, other, k),
    }
}

proof fn lemma_merge_from_objects(
    t: Seq<(Seq<char>, JsonModel)>,
    p: Seq<(Seq<char>, JsonModel)>,
    i: nat,
    j: nat,
    k: Seq<char>,
    po: Seq<(Seq<char>, JsonModel)>,
)
    requires
        distinct_keys(p),
        i <= j < p.len(),
        p[j as int].0 == k,
        p[j as int].1 == JsonModel::Object(po),
    ensures
        member(merge_from(t, p, i, 0), k) == Some(
            JsonModel::Object(
                merge_patch(
                    match member(t, k) {
                        Some(JsonModel::Object(existing)) => existing,
                        _ => Seq::<(Seq<char>, JsonModel)>::empty(),
                    },
                    po,
                    1,
                ),
            ),
        ),
    decreases p.len() - i,
{
    let key = p[i as int].0;
    let t1 = merge_step(t, key, p[i as int].1, 0);
    assert(merge_from(t, p, i, 0) == merge_from(t1, p, i + 1, 0));
    if i == j {
        match member(t, k) {
            Some(JsonModel::Object(existing)) => lemma_insert_same(
                t,
                k,
                JsonModel::Object(merge_patch(existing, po, 1)),
            ),
            _ => lemma_insert_same(
                t,
                k,
                JsonModel::Object(merge_patch(Seq::<(Seq<char>, JsonModel)>::empty(), po, 1)),
            ),
        }
        assert forall|m: int| i + 1 <= m < p.len() implies #[trigger] p[m].0 != k by {
            assert(p[i as int].0 != p[m].0);
        }
        lemma_merge_from_untouched(t1, p, i + 1, 0, k);
    } else {
        assert(p[i as int].0 != p[j as int].0);
        lemma_merge_step_other(t, key, p[i as int].1, 0, k);
        lemma_merge_from_objects(t1, p, i + 1, j, k, po);
    }
}

/// RFC 7396 merge, objects: a member that the patch sets to an object is
/// the target's object value (or, when the target has none, an empty
/// object) merged recursively with it, so names the patch does not restate
/// keep their values. (Patch member names are distinct, as in any JSON
/// object.)
pub proof fn lemma_merge_patch_objects(
    t: Seq<(Seq<char>, JsonModel)>,
    p: Seq<(Seq<char>, JsonModel)>,
    k: Seq<char>,
)
    requires
        distinct_keys(p),
    ensures
        forall|j: int|
            0 <= j < p.len() && p[j].0 == k && (#[trigger] p[j].1 is Object) ==> member(
                merge_patch(t, p, 0),
                k,
            ) == Some(
                JsonModel::Object(
                    merge_patch(
                        match member(t, k) {
                            Some(JsonModel::Object(existing)) => existing,
                            _ => Seq::<(Seq<char>, JsonModel)>::empty(),
                        },
                        p[j].1->Object_0,
                        1,
                    ),
                ),
            ),
{
    assert forall|j: int|
        0 <= j < p.len() && p[j].0 == k && (#[trigger] p[j].1 is Object) implies member(
        merge_patch(t, p, 0),
        k,
    ) == Some(
        JsonModel::Object(
            merge_patch(
                match member(t, k) {
                    Some(JsonModel::Object(existing)) => existing,
                    _ => Seq::<(Seq<char>, JsonModel)>::empty(),
                },
                p[j].1->Object_0,
                1,
            ),
        ),
    ) by {
        lemma_merge_from_objects(t, p, 0, j as nat, k, p[j].1->Object_0);
    }
}

/// ASCII text with no capital letter is its own lowercase mapping, so the
/// case check of parsing passes on it; ASCII text with a capital letter is
/// not.
pub proof fn lemma_ascii_lowercase_fixed(s: Seq<char>)
    requires
        crate::text::is_ascii_text(s),
    ensures
        (crate::text::lowercase_of(s) == s) <==> (forall|i: int| 0 <= i < s.len() ==> !('A' <= #[trigger] s[i] && s[i] <= 'Z')),
{
    let l = crate::text::lowercase_of(s);
    if forall|i: int| 0 <= i < s.len() ==> !('A' <= #[trigger] s[i] && s[i] <= 'Z') {
        assert(l =~= s);
    } else {
        let i = choose|i: int| 0 <= i < s.len() && 'A' <= #[trigger] s[i] && s[i] <= 'Z';
        assert(l[i] != s[i]);
    }
}

/// Every raw piece but a final one without UUID tail ends with `~`.
proof fn lemma_raw_pieces_tilde(parts: Seq<Seq<char>>, i: nat, count: nat, has_uuid: bool)
    requires
        raw_pieces(parts, i, count, has_uuid) is Ok,
    ensures
        ({
            let r = raw_pieces(parts, i, count, has_uuid)->Ok_0;
            &&& forall|j: int|
                0 <= j < r.len() && (has_uuid || j < r.len() - 1) ==> crate::segment::ends_with_tilde(
                    #[trigger] r[j],
                )
            &&& forall|j: int| 0 <= j < r.len() ==> (#[trigger] r[j]).len() > 0
        }),
    decreases count - i,
{
    if i < count && parts[i as int].len() > 0 {
        lemma_raw_pieces_tilde(parts, i + 1, count, has_uuid);
        let rest = raw_pieces(parts, i + 1, count, has_uuid)->Ok_0;
        let r = raw_pieces(parts, i, count, has_uuid)->Ok_0;
        assert forall|j: int|
            0 <= j < r.len() && (has_uuid || j < r.len() - 1) implies crate::segment::ends_with_tilde(
            #[trigger] r[j],
        ) by {
            if j > 0 {
                assert(r[j] == rest[j - 1]);
            } else if !(i == count - 1 && !has_uuid) {
                assert(r[0] == parts[i as int].push('~'));
            } else {
                assert(rest.len() == 0);
            }
        }
        assert forall|j: int| 0 <= j < r.len() implies (#[trigger] r[j]).len() > 0 by {
            if j > 0 {
                assert(r[j] == rest[j - 1]);
            }
        }
    }
}

/// The structural pass splits a text into its raw segments and UUID tail:
/// the prefix followed by the raw segments and the tail gives the text
/// back; every raw segment is non-empty; every raw segment but a final one
/// without tail ends with `~`; a tail has the UUID shape.
pub proof fn lemma_raw_segments_shape(id: Seq<char>, allow: bool)
    requires
        spec_split_raw_segments(id, allow) is Ok,
    ensures
        ({
            let (raws, uuid) = spec_split_raw_segments(id, allow)->Ok_0;
            &&& id == crate::prefix::gts_prefix() + (raws + tail_raws(uuid)).flatten()
            &&& raws.len() >= 1
            &&& forall|j: int| 0 <= j < raws.len() ==> (#[trigger] raws[j]).len() > 0
            &&& forall|j: int|
                0 <= j < raws.len() && (uuid is Some || j < raws.len() - 1) ==> crate::segment::ends_with_tilde(
                    #[trigger] raws[j],
                )
            &&& uuid is Some ==> uuid_text(uuid->Some_0)
        }),
{
    lemma_layout_text(id, allow);
    let (raws, uuid) = spec_split_raw_segments(id, allow)->Ok_0;
    assert(tilde_layout(id) is Ok);
    let parts = tilde_parts(id);
    let h = uuid is Some;
    let count = (parts.len() - if h {
        1int
    } else {
        0int
    }) as nat;
    assert(uuid == uuid_tail_of(parts));
    lemma_raw_pieces_tilde(parts, 0, count, h);
}

/// The segments of a valid identifier before the last are type segments
/// (their text ends with `~`), none of them a UUID tail; so when the
/// identifier is a type, every segment is a type segment.
pub proof fn lemma_chain_segments_are_types(id: Seq<char>)
    requires
        spec_parse_id(id) is Ok,
    ensures
        ({
            let segs = spec_parse_id(id)->Ok_0;
            &&& forall|i: int|
                0 <= i < segs.len() - 1 ==> (#[trigger] segment_fields(segs[i])).is_type
                    && segment_fields(segs[i]).uuid_tail is None
            &&& segment_fields(segs.last()).is_type ==> forall|i: int|
                0 <= i < segs.len() ==> (#[trigger] segment_fields(segs[i])).is_type
        }),
{
    let (raws, uuid) = spec_split_raw_segments(id, false)->Ok_0;
    assert(tilde_layout(id) is Ok);
    let parts = tilde_parts(id);
    let h = uuid is Some;
    let count = (parts.len() - if h {
        1int
    } else {
        0int
    }) as nat;
    assert(uuid == uuid_tail_of(parts));
    assert(raw_pieces(parts, 0, count, h)->Ok_0 == raws);
    lemma_raw_pieces_tilde(parts, 0, count, h);
    lemma_parse_raws_each(raws, false, 0);
    let pws = parse_raws(raws, false, 0)->Ok_0;
    let segs = concrete_models(pws) + tail_models(uuid);
    assert(segs == spec_parse_id(id)->Ok_0);
    lemma_parsed_id_shape(id);
    assert forall|i: int| 0 <= i < segs.len() - 1 implies (#[trigger] segment_fields(segs[i])).is_type
        && segment_fields(segs[i]).uuid_tail is None by {
        assert(i < pws.len());
        assert(segs[i] == SegmentModel::Concrete(pws[i].0));
        lemma_parts_keep_raw(raws[i], false);
        assert(h || i < raws.len() - 1);
        assert(crate::segment::ends_with_tilde(raws[i]));
    }
}

/// An accepted instance identifier always holds a `~`: it has a type
/// segment before its instance segment.
pub proof fn lemma_instance_id_has_tilde(text: Seq<char>)
    requires
        spec_typed_id(text, false) is Ok,
    ensures
        spec_typed_id(text, false)->Ok_0.contains('~'),
{
    let t = crate::text::trim(text);
    let segs = spec_parse_id(t)->Ok_0;
    lemma_is_type_agrees(GtsIdModel { id: t, segments: segs });
    lemma_no_lone_instance(t);
    lemma_chain_segments_are_types(t);
    lemma_id_text_is_segments(t);
    lemma_parsed_id_shape(t);
    let f = |x: SegmentModel| crate::segment::segment_raw(x);
    let m = segs.map_values(f);
    assert(segs.len() >= 2);
    assert(segment_fields(segs[0]).is_type);
    assert(segs[0] is Concrete);
    assert(m[0] == crate::segment::segment_raw(segs[0]));
    assert(crate::segment::ends_with_tilde(m[0]));
    assert(m.flatten() == m[0] + m.drop_first().flatten());
    assert(raws_text(segs) == m.flatten());
    let k = 4 + m[0].len() - 1;
    assert(t[k] == '~');
}

/// The canonical numeral of `n` is a canonical numeral of value `n`, and
/// starts with a non-zero digit when `n` is not zero.
proof fn lemma_decimal_canonical(n: nat)
    ensures
        is_canonical_numeral(crate::text::decimal(n)),
        crate::text::digits_value(crate::text::decimal(n)) == n,
        n >= 1 ==> crate::text::decimal(n)[0] != '0',
    decreases n,
{
    let d = crate::text::decimal(n);
    if n < 10 {
        assert(d == seq![crate::text::digit_char(n)]);
        assert(d.drop_last() =~= Seq::<char>::empty());
        assert((crate::text::digit_char(n) as nat) == n + 48);
        assert(crate::text::digits_value(d) == crate::text::digits_value(d.drop_last()) * 10 + (
        (d.last() as nat) - 48) as nat);
    } else {
        let q = n / 10;
        let r = n % 10;
        assert(q >= 1 && q < n && r < 10 && n == q * 10 + r) by (nonlinear_arith)
            requires
                n >= 10,
                q == n / 10,
                r == n % 10,
        ;
        lemma_decimal_canonical(q);
        let e = crate::text::decimal(q);
        assert(d == e.push(crate::text::digit_char(r)));
        assert(d.drop_last() =~= e);
        assert(d[0] == e[0]);
        assert((crate::text::digit_char(r) as nat) == r + 48);
        assert(crate::text::digits_value(d) == crate::text::digits_value(e) * 10 + r);
        assert forall|i: int| 0 <= i < d.len() implies crate::text::is_ascii_digit(#[trigger] d[i]) by {
            if i < e.len() {
                assert(d[i] == e[i]);
            }
        }
    }
}

/// A canonical numeral of value at least one starts with a non-zero digit
/// when longer than one character, so its value is at least one.
proof fn lemma_canonical_value_positive(s: Seq<char>)
    requires
        is_canonical_numeral(s),
        s.len() >= 2,
    ensures
        crate::text::digits_value(s.drop_last()) >= 1,
    decreases s.len(),
{
    let t = s.drop_last();
    if t.len() == 1 {
        assert(t.drop_last() =~= Seq::<char>::empty());
        assert(t[0] == s[0]);
    } else {
        assert(is_canonical_numeral(t)) by {
            assert(t[0] == s[0]);
            assert forall|i: int| 0 <= i < t.len() implies crate::text::is_ascii_digit(#[trigger] t[i]) by {
                assert(t[i] == s[i]);
            }
        }
        lemma_canonical_value_positive(t);
    }
}

/// A canonical numeral is the canonical numeral of its value.
proof fn lemma_canonical_is_decimal(s: Seq<char>)
    requires
        is_canonical_numeral(s),
    ensures
        crate::text::decimal(crate::text::digits_value(s)) == s,
    decreases s.len(),
{
    let v = crate::text::digits_value(s);
    let c = s.last();
    let dv = ((c as nat) - 48) as nat;
    assert(crate::text::is_ascii_digit(s[s.len() - 1]));
    assert(dv < 10);
    if s.len() == 1 {
        assert(s.drop_last() =~= Seq::<char>::empty());
        assert(v == dv);
        assert(crate::text::decimal(v) =~= s);
    } else {
        let t = s.drop_last();
        assert(is_canonical_numeral(t)) by {
            assert(t[0] == s[0]);
            assert forall|i: int| 0 <= i < t.len() implies crate::text::is_ascii_digit(#[trigger] t[i]) by {
                assert(t[i] == s[i]);
            }
        }
        lemma_canonical_is_decimal(t);
        lemma_canonical_value_positive(s);
        let w = crate::text::digits_value(t);
        assert(v == w * 10 + dv);
        assert(v >= 10 && v / 10 == w && v % 10 == dv) by (nonlinear_arith)
            requires
                v == w * 10 + dv,
                w >= 1,
                dv < 10,
        ;
        assert(crate::text::decimal(v) == crate::text::decimal(w).push(crate::text::digit_char(dv)));
        assert(crate::text::decimal(v) =~= s);
    }
}

/// Version numbers round-trip: a text reads as the `u32` `n` exactly when
/// it is the canonical decimal numeral of `n` (so `"01"`, `"+1"` and `""`
/// read as nothing).
pub proof fn lemma_u32_numeral_round_trip(s: Seq<char>, n: u32)
    ensures
        spec_parse_u32_exact(s) == Some(n) <==> s == crate::text::decimal(n as nat),
{
    lemma_decimal_canonical(n as nat);
    if is_canonical_numeral(s) {
        lemma_canonical_is_decimal(s);
    }
}

/// The pattern made from a valid identifier is what parsing the
/// identifier's text as a pattern gives: the same text, with its segments,
/// none a wildcard.
pub proof fn lemma_to_pattern_is_parse(m: GtsIdModel)
    requires
        crate::gts_id::id_wf(m),
    ensures
        id_pattern_model(m).pattern == m.id,
        spec_parse_pattern(m.id) == Ok::<Seq<PatternSegmentModel>, crate::error::IdFault>(
            id_pattern_model(m).segments,
        ),
        forall|i: int|
            0 <= i < id_pattern_model(m).segments.len() ==> !(#[trigger] id_pattern_model(m).segments[i] is Wildcard),
{
    lemma_id_is_pattern(m.id);
}

/// A character missing from a flattened sequence is missing from each of
/// its pieces.
proof fn lemma_flatten_lacks(s: Seq<Seq<char>>, c: char)
    requires
        lacks(s.flatten(), c),
    ensures
        forall|j: int| 0 <= j < s.len() ==> lacks(#[trigger] s[j], c),
    decreases s.len(),
{
    if s.len() > 0 {
        assert(s.flatten() == s[0] + s.drop_first().flatten());
        assert(lacks(s.drop_first().flatten(), c)) by {
            assert forall|i: int| 0 <= i < s.drop_first().flatten().len() implies s.drop_first().flatten()[i] != c by {
                assert(s.flatten()[s[0].len() + i] == s.drop_first().flatten()[i]);
            }
        }
        lemma_flatten_lacks(s.drop_first(), c);
        assert forall|j: int| 0 <= j < s.len() implies lacks(#[trigger] s[j], c) by {
            if j == 0 {
                assert forall|i: int| 0 <= i < s[0].len() implies s[0][i] != c by {
                    assert(s.flatten()[i] == s[0][i]);
                }
            } else {
                assert(s[j] == s.drop_first()[j - 1]);
            }
        }
    }
}

/// Without `*` in the text, parsing as a pattern and as an identifier
/// agree: one succeeds exactly when the other does, with the same segments.
pub proof fn lemma_pattern_without_star_is_id(id: Seq<char>)
    requires
        lacks(id, '*'),
    ensures
        (spec_parse_pattern(id) is Ok) == (spec_parse_id(id) is Ok),
        spec_parse_id(id) is Ok ==> spec_parse_pattern(id) == Ok::<Seq<PatternSegmentModel>, crate::error::IdFault>(
            as_pattern_segments(spec_parse_id(id)->Ok_0),
        ),
{
    if spec_parse_id(id) is Ok {
        lemma_id_is_pattern(id);
    } else if spec_parse_pattern(id) is Ok {
        lemma_count_zero_lacks(id, '*');
        assert(structure_fault(id, true) == structure_fault(id, false));
        let (raws, uuid) = spec_split_raw_segments(id, true)->Ok_0;
        lemma_layout_text(id, true);
        let all = raws + tail_raws(uuid);
        assert(lacks(all.flatten(), '*')) by {
            assert forall|i: int| 0 <= i < all.flatten().len() implies all.flatten()[i] != '*' by {
                assert(id[4 + i] == all.flatten()[i]);
            }
        }
        lemma_flatten_lacks(all, '*');
        assert forall|j: int| 0 <= j < raws.len() implies lacks(#[trigger] raws[j], '*') by {
            assert(raws[j] == all[j]);
        }
        lemma_parse_raws_without_star(raws, 0);
        lemma_parse_raws_each(raws, false, 0);
        let pws = parse_raws(raws, false, 0)->Ok_0;
        assert forall|k: int| 0 <= k < pws.len() implies #[trigger] pws[k].1 == false by {
            lemma_concrete_segment_lacks_star(raws[k]);
        }
        let segs = concrete_models(pws) + tail_models(uuid);
        assert(pattern_models(pws, uuid) =~= as_pattern_segments(segs));
        assert(false);
    }
}

/// The tokens that the fields of a concrete segment spell out: the four
/// names, `v` with the major version, and the minor version when there is
/// one.
pub open spec fn field_tokens(p: PartsModel) -> Seq<Seq<char>> {
    seq![p.vendor, p.package, p.namespace, p.type_token, seq!['v'] + crate::text::decimal(p.ver_major as nat)]
        + match p.ver_minor {
        Some(m) => seq![crate::text::decimal(m as nat)],
        None => Seq::<Seq<char>>::empty(),
    }
}

/// A concrete segment is spelled by its fields: its text is the four name
/// tokens (each a valid token), `v` and the canonical major version, and the
/// canonical minor version when present, joined by `.`, followed by `~`
/// exactly when it is a type segment.
pub proof fn lemma_segment_rebuilds(seg: Seq<char>)
    requires
        spec_segment_parts(seg, false) is Ok,
    ensures
        ({
            let p = spec_segment_parts(seg, false)->Ok_0.0;
            &&& p.raw == seg
            &&& valid_token(p.vendor) && valid_token(p.package) && valid_token(p.namespace)
                && valid_token(p.type_token)
            &&& seg == join_char(field_tokens(p), '.') + if crate::segment::ends_with_tilde(seg) {
                seq!['~']
            } else {
                Seq::<char>::empty()
            }
        }),
{
    let body = segment_body(seg)->Ok_0;
    let toks = segment_tokens(seg, false)->Ok_0;
    assert(toks == split_char(body, '.'));
    lemma_split_join(body, '.');
    crate::text::lemma_split_char_nonempty(body, '.');
    let n = toks.len();
    assert(n == 5 || n == 6);
    assert(check_name_tokens(toks, false, 0) is Ok);
    assert(check_name_tokens(toks, false, 1) is Ok);
    assert(check_name_tokens(toks, false, 2) is Ok);
    assert(check_name_tokens(toks, false, 3) is Ok);
    let p = spec_segment_parts(seg, false)->Ok_0.0;
    let major = spec_parse_u32_exact(toks[4].drop_first())->Some_0;
    lemma_u32_numeral_round_trip(toks[4].drop_first(), major);
    assert(toks[4] =~= seq!['v'] + toks[4].drop_first());
    if n == 6 {
        let minor = spec_parse_u32_exact(toks[5])->Some_0;
        lemma_u32_numeral_round_trip(toks[5], minor);
    }
    assert(field_tokens(p) =~= toks);
    let tc = count_char(seg, '~');
    if tc == 1 {
        assert(seg =~= body.push('~'));
    } else {
        if seg.len() > 0 && seg.last() == '~' {
            lemma_count_zero_lacks(seg, '~');
            assert(seg[seg.len() - 1] == '~');
        }
        assert(seg =~= body + Seq::<char>::empty());
    }
}

/// The pieces of `s` followed by `.` and `t` (which holds no `.`) are the
/// pieces of `s` and then `t`.
proof fn lemma_split_dot_suffix(s: Seq<char>, t: Seq<char>)
    requires
        lacks(t, '.'),
    ensures
        split_char(s + seq!['.'] + t, '.') == split_char(s, '.').push(t),
    decreases t.len(),
{
    let x = s + seq!['.'] + t;
    if t.len() == 0 {
        assert(x.drop_last() =~= s);
        assert(x.last() == '.');
        assert(split_char(x, '.') == split_char(x.drop_last(), '.').push(Seq::<char>::empty()));
        assert(t =~= Seq::<char>::empty());
    } else {
        let u = t.drop_last();
        lemma_split_dot_suffix(s, u);
        assert(x.drop_last() =~= s + seq!['.'] + u);
        assert(x.last() == t.last());
        assert(t.last() != '.');
        let p = split_char(x.drop_last(), '.');
        assert(p == split_char(s, '.').push(u));
        assert(split_char(x, '.') == p.update(p.len() - 1, p.last().push(x.last())));
        assert(t =~= u.push(t.last()));
        assert(p.update(p.len() - 1, p.last().push(x.last())) =~= split_char(s, '.').push(t));
    }
}

proof fn lemma_count_suffix(s: Seq<char>, t: Seq<char>, c: char)
    requires
        lacks(t, c),
    ensures
        count_char(s + t, c) == count_char(s, c),
    decreases t.len(),
{
    if t.len() == 0 {
        assert(s + t =~= s);
    } else {
        lemma_count_suffix(s, t.drop_last(), c);
        assert((s + t).drop_last() =~= s + t.drop_last());
    }
}

/// A failing name check at position `k` fails from every earlier position.
proof fn lemma_name_check_fails_from(toks: Seq<Seq<char>>, i: nat, k: nat)
    requires
        i <= k < 4,
        k < toks.len(),
        check_name_tokens(toks, true, k) is Err,
    ensures
        check_name_tokens(toks, true, i) is Err,
    decreases k - i,
{
    if i < k {
        lemma_name_check_fails_from(toks, i + 1, k);
    }
}

/// The version wildcard `v*` and a `*` in the version position are the
/// same wildcard: when both `names.v*` and `names.*` parse as pattern
/// segments, both are wildcards with the same fields, so they accept the
/// same candidate segments.
pub proof fn lemma_version_star_forms_agree(names: Seq<char>, c: SegmentFields)
    requires
        spec_segment_parts(names + seq!['.', 'v', '*'], true) is Ok,
        spec_segment_parts(names + seq!['.', '*'], true) is Ok,
    ensures
        spec_segment_parts(names + seq!['.', 'v', '*'], true)->Ok_0.1,
        spec_segment_parts(names + seq!['.', '*'], true)->Ok_0.1,
        wildcard_accepts(crate::segment::parts_fields(spec_segment_parts(names + seq!['.', 'v', '*'], true)->Ok_0.0), c)
            == wildcard_accepts(crate::segment::parts_fields(spec_segment_parts(names + seq!['.', '*'], true)->Ok_0.0), c),
{
    let vs = seq!['v', '*'];
    let st = seq!['*'];
    let a = names + seq!['.'] + vs;
    let b = names + seq!['.'] + st;
    assert(a =~= names + seq!['.', 'v', '*']);
    assert(b =~= names + seq!['.', '*']);
    assert(lacks(vs, '.') && lacks(st, '.') && lacks(seq!['.'] + vs, '~') && lacks(seq!['.'] + st, '~'));
    lemma_split_dot_suffix(names, vs);
    lemma_split_dot_suffix(names, st);
    lemma_count_suffix(names, seq!['.'] + vs, '~');
    lemma_count_suffix(names, seq!['.'] + st, '~');
    assert(names + (seq!['.'] + vs) =~= a);
    assert(names + (seq!['.'] + st) =~= b);
    let q = split_char(names, '.');
    let ta = q.push(vs);
    let tb = q.push(st);
    assert(a.last() == '*' && b.last() == '*');
    assert(segment_body(a) == Ok::<Seq<char>, SegmentFault>(a));
    assert(segment_body(b) == Ok::<Seq<char>, SegmentFault>(b));
    assert(segment_tokens(a, true) == Ok::<Seq<Seq<char>>, SegmentFault>(ta));
    assert(segment_tokens(b, true) == Ok::<Seq<Seq<char>>, SegmentFault>(tb));
    let n = ta.len();
    assert(!valid_token(vs)) by {
        assert(!is_token_char(vs[1]));
    }
    assert(vs != star_text()) by {
        assert(vs.len() != star_text().len());
    }
    // `v*` passes the name check only outside the four name positions.
    if n <= 4 {
        assert(ta[n - 1] == vs);
        let k = (n - 1) as nat;
        assert(check_name_tokens(ta, true, k) is Err);
        lemma_name_check_fails_from(ta, 0, k);
        assert(false);
    }
    assert(n == 5 || n == 6);
    if n == 6 {
        assert(ta[5] == vs);
        assert(spec_parse_u32_exact(vs) is None) by {
            assert(!crate::text::is_ascii_digit(vs[0]));
        }
        assert(check_name_tokens(ta, true, 0) is Ok);
        assert(false);
    }
    assert(check_name_tokens(ta, true, 0) is Ok);
    assert(check_name_tokens(ta, true, 1) is Ok);
    assert(check_name_tokens(ta, true, 2) is Ok);
    assert(check_name_tokens(ta, true, 3) is Ok);
    assert(ta[0] == tb[0] && ta[1] == tb[1] && ta[2] == tb[2] && ta[3] == tb[3]);
    assert(ta[4] == v_star_text() && tb[4] == star_text());
}

/// The canonical numeral of a number ends with a digit.
proof fn lemma_decimal_last_digit(n: nat)
    ensures
        crate::text::decimal(n).len() > 0,
        crate::text::is_ascii_digit(crate::text::decimal(n).last()),
    decreases n,
{
    if n >= 10 {
        lemma_decimal_last_digit(n / 10);
    }
    let d = if n < 10 { n } else { n % 10 };
    assert(d < 10);
    assert((crate::text::digit_char(d) as nat) == d + 48);
}

/// The text of a joined sequence ends with the last piece's last character.
proof fn lemma_join_last(ps: Seq<Seq<char>>, c: char)
    requires
        ps.len() > 0,
        ps.last().len() > 0,
    ensures
        join_char(ps, c).len() > 0,
        join_char(ps, c).last() == ps.last().last(),
{
}

/// A valid identifier has no surrounding whitespace: it starts with the
/// prefix and ends with `~`, a version digit or a UUID hex digit.
proof fn lemma_valid_id_trimmed(id: Seq<char>)
    requires
        spec_parse_id(id) is Ok,
    ensures
        crate::text::trim(id) == id,
{
    lemma_raw_segments_shape(id, false);
    let (raws, uuid) = spec_split_raw_segments(id, false)->Ok_0;
    let all = raws + tail_raws(uuid);
    let pre = crate::prefix::gts_prefix();
    assert(id == pre + all.flatten());
    crate::prefix::lemma_prefix_chars();
    assert(id[0] == pre[0]);
    let last = all.last();
    assert(all =~= all.drop_last().push(last));
    all.drop_last().lemma_flatten_push(last);
    assert(all.flatten() == all.drop_last().flatten() + last);
    match uuid {
        Some(u) => {
            assert(last == u);
            assert(crate::text::is_ascii_hex(u[35]));
        },
        None => {
            assert(last == raws.last());
            lemma_parse_raws_each(raws, false, 0);
            let seg = raws.last();
            assert(spec_segment_parts(seg, false) is Ok);
            lemma_segment_rebuilds(seg);
            if !crate::segment::ends_with_tilde(seg) {
                let p = spec_segment_parts(seg, false)->Ok_0.0;
                let ft = field_tokens(p);
                assert(seg =~= join_char(ft, '.'));
                match p.ver_minor {
                    Some(m) => {
                        lemma_decimal_last_digit(m as nat);
                        assert(ft.last() == crate::text::decimal(m as nat));
                    },
                    None => {
                        lemma_decimal_last_digit(p.ver_major as nat);
                        assert(ft.last() == seq!['v'] + crate::text::decimal(p.ver_major as nat));
                    },
                }
                lemma_join_last(ft, '.');
            }
        },
    }
    assert(id.last() == last.last());
    assert(!crate::text::is_unicode_whitespace(id[0]));
    assert(!crate::text::is_unicode_whitespace(id.last()));
    assert(crate::text::trim_start(id) == id);
    assert(crate::text::trim_end(id) == id);
}

/// Re-parsing the text of a valid identifier gives the identifier back:
/// the text needs no trimming and parses to the same segments.
pub proof fn lemma_reparse_id(m: GtsIdModel)
    requires
        crate::gts_id::id_wf(m),
    ensures
        crate::text::trim(m.id) == m.id,
        spec_parse_id(crate::text::trim(m.id)) == Ok::<Seq<SegmentModel>, crate::error::IdFault>(m.segments),
{
    lemma_valid_id_trimmed(m.id);
}

} // verus!

verus! {

/// No piece of a split holds the separator.
proof fn lemma_split_pieces_lack_sep(s: Seq<char>, c: char)
    ensures
        forall|k: int| 0 <= k < split_char(s, c).len() ==> lacks(#[trigger] split_char(s, c)[k], c),
    decreases s.len(),
{
    if s.len() > 0 {
        let d = s.drop_last();
        lemma_split_pieces_lack_sep(d, c);
        crate::text::lemma_split_char_nonempty(d, c);
        let p = split_char(d, c);
        let q = split_char(s, c);
        assert forall|k: int| 0 <= k < q.len() implies lacks(#[trigger] q[k], c) by {
            if s.last() == c {
                if k < p.len() {
                    assert(q[k] == p[k]);
                } else {
                    assert(q[k] =~= Seq::<char>::empty());
                }
            } else if k < p.len() - 1 {
                assert(q[k] == p[k]);
            } else {
                let l = p.last();
                assert(lacks(p[p.len() - 1], c));
                assert(q[k] == l.push(s.last()));
                assert forall|i: int| 0 <= i < q[k].len() implies q[k][i] != c by {
                    if i < l.len() {
                        assert(q[k][i] == l[i]);
                    }
                }
            }
        }
    }
}

/// A raw piece holds a `~` at most as its last character when the parts it
/// is made from hold none.
proof fn lemma_raw_pieces_tilde_last(parts: Seq<Seq<char>>, i: nat, count: nat, has_uuid: bool)
    requires
        count <= parts.len(),
        forall|k: int| 0 <= k < parts.len() ==> lacks(#[trigger] parts[k], '~'),
        raw_pieces(parts, i, count, has_uuid) is Ok,
    ensures
        ({
            let r = raw_pieces(parts, i, count, has_uuid)->Ok_0;
            forall|j: int, k: int| 0 <= j < r.len() && 0 <= k < r[j].len() - 1 ==> #[trigger] r[j][k] != '~'
        }),
    decreases count - i,
{
    if i < count && parts[i as int].len() > 0 {
        lemma_raw_pieces_tilde_last(parts, i + 1, count, has_uuid);
        let rest = raw_pieces(parts, i + 1, count, has_uuid)->Ok_0;
        let r = raw_pieces(parts, i, count, has_uuid)->Ok_0;
        let p = parts[i as int];
        assert(lacks(p, '~'));
        assert forall|j: int, k: int| 0 <= j < r.len() && 0 <= k < r[j].len() - 1 implies #[trigger] r[j][k]
            != '~' by {
            if j > 0 {
                assert(r[j] == rest[j - 1]);
            } else if i == count - 1 && !has_uuid {
                assert(r[0] == p);
            } else {
                assert(r[0] == p.push('~'));
                assert(r[0][k] == p[k]);
            }
        }
    }
}

/// The structural pass yields raw segments free of `-` (a `-` may only
/// stand in the UUID tail), each holding a `~` at most as its last
/// character.
pub proof fn lemma_raw_segments_marks(id: Seq<char>, allow: bool)
    requires
        spec_split_raw_segments(id, allow) is Ok,
    ensures
        ({
            let (raws, uuid) = spec_split_raw_segments(id, allow)->Ok_0;
            &&& forall|j: int| 0 <= j < raws.len() ==> lacks(#[trigger] raws[j], '-')
            &&& forall|j: int, k: int|
                0 <= j < raws.len() && 0 <= k < raws[j].len() - 1 ==> #[trigger] raws[j][k] != '~'
        }),
{
    lemma_raw_segments_shape(id, allow);
    let (raws, uuid) = spec_split_raw_segments(id, allow)->Ok_0;
    assert(structure_fault(id, allow) is None);
    assert(tilde_layout(id) is Ok);
    let parts = tilde_parts(id);
    let h = uuid is Some;
    let count = (parts.len() - if h {
        1int
    } else {
        0int
    }) as nat;
    assert(uuid == uuid_tail_of(parts));
    assert(raw_pieces(parts, 0, count, h)->Ok_0 == raws);
    lemma_split_pieces_lack_sep(id.skip(4), '~');
    lemma_raw_pieces_tilde_last(parts, 0, count, h);
    // The text outside the UUID tail has no `-`.
    let portion = match uuid {
        Some(u) => id.take(id.len() - u.len() - 1),
        None => id,
    };
    assert(count_char(portion, '-') == 0);
    lemma_count_zero_lacks(portion, '-');
    let f = raws.flatten();
    vstd::seq_lib::lemma_flatten_concat(raws, tail_raws(uuid));
    match uuid {
        Some(u) => {
            seq![u].lemma_flatten_one_element();
            assert(id =~= crate::prefix::gts_prefix() + f + u);
            let last = (raws.len() - 1) as int;
            lemma_flatten_split(raws, last);
            assert(raws.skip(last + 1).flatten() =~= Seq::<char>::empty()) by {
                assert(raws.skip(last + 1) =~= Seq::<Seq<char>>::empty());
            }
            assert(crate::segment::ends_with_tilde(raws[last]));
            assert(f.len() > 0);
            assert(f[f.len() - 1] == raws[last][raws[last].len() - 1]);
            assert forall|m: int| 0 <= m < f.len() implies f[m] != '-' by {
                if m < f.len() - 1 {
                    assert(portion[4 + m] == f[m]);
                }
            }
        },
        None => {
            assert(tail_raws(uuid).flatten() =~= Seq::<char>::empty());
            assert(raws + tail_raws(uuid) =~= raws);
            assert(id =~= crate::prefix::gts_prefix() + f);
            assert forall|m: int| 0 <= m < f.len() implies f[m] != '-' by {
                assert(portion[4 + m] == f[m]);
            }
        },
    }
    lemma_flatten_lacks(raws, '-');
}

} // verus!

verus! {

/// A segment that ends in `*` and parses with wildcards allowed is a
/// wildcard segment.
proof fn lemma_star_segment_is_wildcard(seg: Seq<char>)
    requires
        spec_segment_parts(seg, true) is Ok,
        seg.len() > 0,
        seg.last() == '*',
    ensures
        spec_segment_parts(seg, true)->Ok_0.1,
{
    assert(segment_body(seg) == Ok::<Seq<char>, SegmentFault>(seg));
    let toks = split_char(seg, '.');
    assert(segment_tokens(seg, true) == Ok::<Seq<Seq<char>>, SegmentFault>(toks));
    crate::text::lemma_split_char_nonempty(seg.drop_last(), '.');
    let n = toks.len();
    let t = toks[n - 1];
    assert(t.len() > 0 && t[t.len() - 1] == '*');
    assert(!valid_token(t)) by {
        if valid_token(t) {
            lemma_valid_token_lacks_star(t);
        }
    }
    assert(spec_parse_u32_exact(t) is None) by {
        if spec_parse_u32_exact(t) is Some {
            lemma_numeral_lacks_star(t);
        }
    }
    assert(check_name_tokens(toks, true, 0) is Ok);
    if n <= 4 {
        let k = (n - 1) as nat;
        if t != star_text() {
            assert(check_name_tokens(toks, true, k) is Err);
            lemma_name_check_fails_from(toks, 0, k);
        }
        assert(check_name_tokens(toks, true, 1) is Ok);
        assert(check_name_tokens(toks, true, 2) is Ok);
        assert(check_name_tokens(toks, true, 3) is Ok);
    } else {
        assert(check_name_tokens(toks, true, 1) is Ok);
        assert(check_name_tokens(toks, true, 2) is Ok);
        assert(check_name_tokens(toks, true, 3) is Ok);
        assert(toks[0] != star_text() && toks[1] != star_text() && toks[2] != star_text() && toks[3]
            != star_text());
        if n == 5 && !(t == star_text() || t == v_star_text()) && starts_with_v(t) {
            assert(t.len() >= 2);
            let d = t.drop_first();
            assert(d[d.len() - 1] == '*');
            assert(spec_parse_u32_exact(d) is None) by {
                if spec_parse_u32_exact(d) is Some {
                    lemma_numeral_lacks_star(d);
                }
            }
        }
    }
}

/// A valid pattern's segments are concrete up to the last, and the last is
/// a wildcard exactly when the text holds a `*`.
pub proof fn lemma_pattern_wildcard_iff_star(p: Seq<char>)
    requires
        spec_parse_pattern(p) is Ok,
    ensures
        ({
            let segs = spec_parse_pattern(p)->Ok_0;
            &&& segs.len() >= 1
            &&& forall|i: int| 0 <= i < segs.len() - 1 ==> !(#[trigger] segs[i] is Wildcard)
            &&& (segs.last() is Wildcard <==> !lacks(p, '*'))
        }),
{
    lemma_wildcard_is_last(p);
    let segs = spec_parse_pattern(p)->Ok_0;
    let (raws, uuid) = spec_split_raw_segments(p, true)->Ok_0;
    lemma_raw_segments_shape(p, true);
    lemma_parse_raws_each(raws, true, 0);
    let pws = parse_raws(raws, true, 0)->Ok_0;
    assert(segs == pattern_models(pws, uuid));
    assert(segs.len() >= 1);
    if lacks(p, '*') {
        lemma_pattern_without_star_is_id(p);
        let ids = spec_parse_id(p)->Ok_0;
        assert(segs == as_pattern_segments(ids));
        assert(!(segs.last() is Wildcard));
    } else {
        assert(structure_fault(p, true) is None);
        lemma_count_zero_lacks(p, '*');
        assert(p.last() == '*');
        vstd::seq_lib::lemma_flatten_concat(raws, tail_raws(uuid));
        let f = raws.flatten();
        let last = (raws.len() - 1) as int;
        lemma_flatten_split(raws, last);
        assert(raws.skip(last + 1).flatten() =~= Seq::<char>::empty()) by {
            assert(raws.skip(last + 1) =~= Seq::<Seq<char>>::empty());
        }
        match uuid {
            Some(u) => {
                seq![u].lemma_flatten_one_element();
                assert(p =~= crate::prefix::gts_prefix() + f + u);
                lemma_uuid_lacks_star(u);
                assert(p.last() == u[u.len() - 1]);
                assert(false);
            },
            None => {
                assert(tail_raws(uuid).flatten() =~= Seq::<char>::empty());
                assert(raws + tail_raws(uuid) =~= raws);
                assert(p =~= crate::prefix::gts_prefix() + f);
                let raw = raws[last];
                assert(raw.len() > 0);
                assert(p.last() == raw.last());
                lemma_star_segment_is_wildcard(raw);
                assert(pws[last] == spec_segment_parts(raw, true)->Ok_0);
                assert(segs.len() == pws.len());
                assert(segs.last() == pattern_model(pws[last]));
            },
        }
    }
}

} // verus!

verus! {

/// A segment that parses with wildcards allowed but is not a wildcard
/// holds no `*`.
proof fn lemma_plain_segment_lacks_star(seg: Seq<char>)
    requires
        spec_segment_parts(seg, true) is Ok,
        !spec_segment_parts(seg, true)->Ok_0.1,
    ensures
        lacks(seg, '*'),
{
    let body = segment_body(seg)->Ok_0;
    let toks = segment_tokens(seg, true)->Ok_0;
    assert(toks == split_char(body, '.'));
    crate::text::lemma_split_char_nonempty(body, '.');
    let n = toks.len();
    assert(check_name_tokens(toks, true, 0) is Ok);
    assert(toks[0] != star_text());
    if n > 1 {
        assert(check_name_tokens(toks, true, 1) is Ok);
        assert(toks[1] != star_text());
    }
    if n > 2 {
        assert(check_name_tokens(toks, true, 2) is Ok);
        assert(toks[2] != star_text());
    }
    if n > 3 {
        assert(check_name_tokens(toks, true, 3) is Ok);
        assert(toks[3] != star_text());
    }
    assert forall|k: int| 0 <= k < n implies lacks(#[trigger] toks[k], '*') by {
        if k < 4 {
            assert(valid_token(toks[k]));
            lemma_valid_token_lacks_star(toks[k]);
        } else if k == 4 {
            let t = toks[4];
            lemma_numeral_lacks_star(t.drop_first());
            assert forall|i: int| 0 <= i < t.len() implies t[i] != '*' by {
                if i > 0 {
                    assert(t[i] == t.drop_first()[i - 1]);
                }
            }
        } else {
            lemma_numeral_lacks_star(toks[5]);
        }
    }
    lemma_split_lacks(body, '.', '*');
    if count_char(seg, '~') == 1 {
        assert forall|i: int| 0 <= i < seg.len() implies seg[i] != '*' by {
            if i < seg.len() - 1 {
                assert(seg[i] == body[i]);
            }
        }
    }
}

/// A segment parsed with wildcards allowed that is not a wildcard is a
/// concrete segment spelled by its fields: it holds no `*`, parses the same
/// without wildcards, and its text is the four name tokens (each a valid
/// token), `v` and the canonical major version, and the canonical minor
/// version when present, joined by `.`, followed by `~` exactly when it is a
/// type segment.
pub proof fn lemma_pattern_segment_rebuilds(seg: Seq<char>)
    requires
        spec_segment_parts(seg, true) is Ok,
        !spec_segment_parts(seg, true)->Ok_0.1,
    ensures
        lacks(seg, '*'),
        spec_segment_parts(seg, true) == spec_segment_parts(seg, false),
        ({
            let p = spec_segment_parts(seg, true)->Ok_0.0;
            &&& p.raw == seg
            &&& valid_token(p.vendor) && valid_token(p.package) && valid_token(p.namespace)
                && valid_token(p.type_token)
            &&& seg == join_char(field_tokens(p), '.') + if crate::segment::ends_with_tilde(seg) {
                seq!['~']
            } else {
                Seq::<char>::empty()
            }
        }),
{
    lemma_plain_segment_lacks_star(seg);
    lemma_segment_parts_without_star(seg);
    lemma_segment_rebuilds(seg);
}

} // verus!

verus! {

/// Splitting a text that continues after a separator: the pieces of the
/// part up to and including the separator (without the empty piece that
/// follows it), then the pieces of the continuation.
proof fn lemma_split_after_sep(a: Seq<char>, b: Seq<char>, c: char)
    requires
        a.len() > 0,
        a.last() == c,
    ensures
        split_char(a + b, c) == split_char(a, c).drop_last() + split_char(b, c),
    decreases b.len(),
{
    crate::text::lemma_split_char_nonempty(a.drop_last(), c);
    if b.len() == 0 {
        assert(a + b =~= a);
        assert(split_char(a, c) == split_char(a.drop_last(), c).push(Seq::<char>::empty()));
        assert(split_char(a, c).drop_last() + split_char(b, c) =~= split_char(a, c));
    } else {
        let d = b.drop_last();
        lemma_split_after_sep(a, d, c);
        crate::text::lemma_split_char_nonempty(d, c);
        assert((a + b).drop_last() =~= a + d);
        assert((a + b).last() == b.last());
        let head = split_char(a, c).drop_last();
        let p = split_char(d, c);
        if b.last() == c {
            assert((head + p).push(Seq::<char>::empty()) =~= head + p.push(Seq::<char>::empty()));
        } else {
            let hp = head + p;
            assert(hp.update(hp.len() - 1, hp.last().push(b.last())) =~= head + p.update(
                p.len() - 1,
                p.last().push(b.last()),
            ));
        }
    }
}

/// The raw pieces made from the tilde parts `i..count`, one by one: every
/// part regains its `~` but a final one without UUID tail, and only such a
/// final part, when empty, is dropped.
proof fn lemma_raw_pieces_at(parts: Seq<Seq<char>>, i: nat, count: nat, has_uuid: bool)
    requires
        i <= count <= parts.len(),
        raw_pieces(parts, i, count, has_uuid) is Ok,
    ensures
        ({
            let r = raw_pieces(parts, i, count, has_uuid)->Ok_0;
            &&& r.len() + i <= count
            &&& r.len() + i + 1 >= count
            &&& (r.len() + i < count ==> !has_uuid && parts[count - 1].len() == 0)
            &&& forall|j: int|
                0 <= j < r.len() ==> #[trigger] r[j] == if i + j == count - 1 && !has_uuid {
                    parts[i + j]
                } else {
                    parts[i + j].push('~')
                }
        }),
    decreases count - i,
{
    if i < count && parts[i as int].len() > 0 {
        lemma_raw_pieces_at(parts, i + 1, count, has_uuid);
        let rest = raw_pieces(parts, i + 1, count, has_uuid)->Ok_0;
        let r = raw_pieces(parts, i, count, has_uuid)->Ok_0;
        assert forall|j: int| 0 <= j < r.len() implies #[trigger] r[j] == if i + j == count - 1
            && !has_uuid {
            parts[i + j]
        } else {
            parts[i + j].push('~')
        } by {
            if j > 0 {
                assert(r[j] == rest[j - 1]);
            }
        }
    }
}

/// The segments of a valid type identifier are the first segments of every
/// valid identifier whose text extends its text.
pub proof fn lemma_type_id_segments_prefix(g: GtsIdModel, h: GtsIdModel)
    requires
        crate::gts_id::id_wf(g),
        crate::gts_id::id_wf(h),
        g.id.len() > 0 && g.id.last() == '~',
        g.id.is_prefix_of(h.id),
    ensures
        g.segments.len() <= h.segments.len(),
        h.segments.take(g.segments.len() as int) == g.segments,
{
    let (rg, ug) = spec_split_raw_segments(g.id, false)->Ok_0;
    let (rh, uh) = spec_split_raw_segments(h.id, false)->Ok_0;
    lemma_raw_segments_shape(g.id, false);
    lemma_raw_segments_shape(h.id, false);
    assert(tilde_layout(g.id) is Ok);
    assert(tilde_layout(h.id) is Ok);
    let pg = tilde_parts(g.id);
    let ph = tilde_parts(h.id);
    let a = g.id.skip(4);
    let rest = h.id.skip(g.id.len() as int);
    assert(g.id.len() > 4) by {
        assert(rg[0].len() > 0);
        vstd::seq_lib::lemma_flatten_concat(rg, tail_raws(ug));
        lemma_flatten_split(rg, 0);
    }
    assert(h.id.skip(4) =~= a + rest) by {
        assert(h.id.take(g.id.len() as int) == g.id);
    }
    assert(a.last() == '~');
    lemma_split_after_sep(a, rest, '~');
    crate::text::lemma_split_char_nonempty(rest, '~');
    crate::text::lemma_split_char_nonempty(a.drop_last(), '~');
    assert(pg == split_char(a.drop_last(), '~').push(Seq::<char>::empty()));
    assert(pg.last().len() == 0);
    assert(ug is None);
    let k = (pg.len() - 1) as nat;
    assert(ph == pg.drop_last() + split_char(rest, '~'));
    assert(ph.len() >= pg.len());
    let hh = uh is Some;
    let count_h = (ph.len() - if hh {
        1int
    } else {
        0int
    }) as nat;
    assert(raw_pieces(pg, 0, pg.len(), false)->Ok_0 == rg);
    assert(raw_pieces(ph, 0, count_h, hh)->Ok_0 == rh);
    lemma_raw_pieces_at(pg, 0, pg.len(), false);
    lemma_raw_pieces_at(ph, 0, count_h, hh);
    // The last tilde part of `g` is empty, so it is dropped.
    assert(rg.len() == k) by {
        if rg.len() == pg.len() {
            assert(rg[k as int] == pg[k as int]);
            assert(rg[k as int].len() > 0);
        }
    }
    assert(rh.len() >= k);
    assert forall|j: int| 0 <= j < k implies #[trigger] rh[j] == rg[j] by {
        assert(ph[j] == pg[j]);
    }
    lemma_parse_raws_each(rg, false, 0);
    lemma_parse_raws_each(rh, false, 0);
    let wg = parse_raws(rg, false, 0)->Ok_0;
    let wh = parse_raws(rh, false, 0)->Ok_0;
    assert(g.segments == concrete_models(wg) + tail_models(ug));
    assert(h.segments == concrete_models(wh) + tail_models(uh));
    assert(g.segments.len() == k);
    assert forall|j: int| 0 <= j < k implies #[trigger] h.segments[j] == g.segments[j] by {
        assert(rh[j] == rg[j]);
        assert(wh[j] == wg[j]);
    }
    assert(h.segments.take(k as int) =~= g.segments);
}

/// A type identifier used as a pattern matches every valid identifier
/// whose text extends its text: the identifier itself and everything
/// derived from it down the chain.
pub proof fn lemma_type_pattern_matches_extensions(g: GtsIdModel, h: GtsIdModel)
    requires
        crate::gts_id::id_wf(g),
        crate::gts_id::id_wf(h),
        g.id.len() > 0 && g.id.last() == '~',
        g.id.is_prefix_of(h.id),
    ensures
        spec_id_matches(h, id_pattern_model(g).segments),
{
    lemma_type_id_segments_prefix(g, h);
    lemma_id_matches_own_pattern(g);
    lemma_derived_id_matches(id_pattern_model(g).segments, g, h);
}

} // verus!

verus! {

/// Appending text without the separator extends the last piece.
proof fn lemma_split_extend_last(s: Seq<char>, t: Seq<char>, c: char)
    requires
        lacks(t, c),
    ensures
        split_char(s + t, c).len() == split_char(s, c).len(),
        split_char(s + t, c) == split_char(s, c).update(
            split_char(s, c).len() - 1,
            split_char(s, c).last() + t,
        ),
    decreases t.len(),
{
    crate::text::lemma_split_char_nonempty(s, c);
    let q = split_char(s, c);
    if t.len() == 0 {
        assert(s + t =~= s);
        assert(q.update(q.len() - 1, q.last() + t) =~= q);
    } else {
        let d = t.drop_last();
        assert(lacks(d, c));
        lemma_split_extend_last(s, d, c);
        assert((s + t).drop_last() =~= s + d);
        assert((s + t).last() == t.last());
        assert(t[t.len() - 1] != c);
        let p = split_char(s + d, c);
        assert(p.last() == q.last() + d);
        assert(q.last() + t =~= (q.last() + d).push(t.last()));
        assert(p.update(p.len() - 1, p.last().push(t.last())) =~= q.update(q.len() - 1, q.last() + t));
    }
}

/// Patterns whose segments agree up to their last one, which is a wildcard
/// accepting the same candidate segment in both, match the same candidates.
proof fn lemma_matches_from_last_wildcard(
    a: Seq<PatternSegmentModel>,
    b: Seq<PatternSegmentModel>,
    cs: Seq<SegmentFields>,
    i: nat,
)
    requires
        a.len() == b.len() >= 1,
        forall|j: int| 0 <= j < a.len() - 1 ==> #[trigger] a[j] == b[j],
        a.last() is Wildcard,
        b.last() is Wildcard,
        a.len() <= cs.len() ==> wildcard_accepts(pattern_fields(a.last()), cs[a.len() - 1])
            == wildcard_accepts(pattern_fields(b.last()), cs[a.len() - 1]),
        i <= a.len(),
    ensures
        a.len() <= cs.len() ==> matches_from(a, cs, i) == matches_from(b, cs, i),
    decreases a.len() - i,
{
    if i < a.len() - 1 {
        lemma_matches_from_last_wildcard(a, b, cs, i + 1);
        assert(a[i as int] == b[i as int]);
    }
}

/// The version wildcard `v*` and a `*` in the version position are the
/// same pattern: when `p.v*` and `p.*` both parse as patterns, they match
/// exactly the same candidates.
pub proof fn lemma_version_star_patterns_agree(p: Seq<char>, cs: Seq<SegmentFields>)
    requires
        has_gts_prefix(p),
        spec_parse_pattern(p + seq!['.', 'v', '*']) is Ok,
        spec_parse_pattern(p + seq!['.', '*']) is Ok,
    ensures
        spec_matches(spec_parse_pattern(p + seq!['.', 'v', '*'])->Ok_0, cs) == spec_matches(
            spec_parse_pattern(p + seq!['.', '*'])->Ok_0,
            cs,
        ),
{
    let ev = seq!['.', 'v', '*'];
    let es = seq!['.', '*'];
    let x = p + ev;
    let y = p + es;
    let s = p.skip(4);
    assert(x.skip(4) =~= s + ev);
    assert(y.skip(4) =~= s + es);
    assert(lacks(ev, '~') && lacks(es, '~'));
    lemma_split_extend_last(s, ev, '~');
    lemma_split_extend_last(s, es, '~');
    let q = split_char(s, '~');
    let m = q.len() - 1;
    let names = q.last();
    let px = tilde_parts(x);
    let py = tilde_parts(y);
    assert(px == q.update(m, names + ev));
    assert(py == q.update(m, names + es));
    assert(px.last() == names + ev && py.last() == names + es);
    // Neither ends in a UUID: a UUID holds no `*`.
    assert(uuid_tail_of(px) is None) by {
        if uuid_text(px.last()) {
            lemma_uuid_lacks_star(px.last());
            assert(px.last()[px.last().len() - 1] == '*');
        }
    }
    assert(uuid_tail_of(py) is None) by {
        if uuid_text(py.last()) {
            lemma_uuid_lacks_star(py.last());
            assert(py.last()[py.last().len() - 1] == '*');
        }
    }
    assert(structure_fault(x, true) is None);
    assert(structure_fault(y, true) is None);
    let (rx, ux) = spec_split_raw_segments(x, true)->Ok_0;
    let (ry, uy) = spec_split_raw_segments(y, true)->Ok_0;
    assert(tilde_layout(x) is Ok && tilde_layout(y) is Ok);
    let count = px.len();
    assert(raw_pieces(px, 0, count, false)->Ok_0 == rx);
    assert(raw_pieces(py, 0, count, false)->Ok_0 == ry);
    lemma_raw_pieces_at(px, 0, count, false);
    lemma_raw_pieces_at(py, 0, count, false);
    assert(rx.len() == count && ry.len() == count);
    assert forall|j: int| 0 <= j < count - 1 implies #[trigger] rx[j] == ry[j] by {
        assert(px[j] == q[j] && py[j] == q[j]);
    }
    let last = count - 1;
    assert(rx[last] == names + ev && ry[last] == names + es);
    lemma_parse_raws_each(rx, true, 0);
    lemma_parse_raws_each(ry, true, 0);
    let wx = parse_raws(rx, true, 0)->Ok_0;
    let wy = parse_raws(ry, true, 0)->Ok_0;
    let a = spec_parse_pattern(x)->Ok_0;
    let b = spec_parse_pattern(y)->Ok_0;
    assert(a == pattern_models(wx, ux));
    assert(b == pattern_models(wy, uy));
    assert(names + ev =~= names + seq!['.', 'v', '*']);
    assert(names + es =~= names + seq!['.', '*']);
    assert(a.len() == count && b.len() == count);
    assert forall|j: int| 0 <= j < a.len() - 1 implies #[trigger] a[j] == b[j] by {
        assert(rx[j] == ry[j]);
        assert(wx[j] == spec_segment_parts(rx[j], true)->Ok_0);
        assert(wy[j] == spec_segment_parts(ry[j], true)->Ok_0);
    }
    let c = if a.len() <= cs.len() {
        cs[last]
    } else {
        pattern_fields(a[0])
    };
    lemma_version_star_forms_agree(names, c);
    assert(a.last() == pattern_model(wx[last]));
    assert(b.last() == pattern_model(wy[last]));
    lemma_matches_from_last_wildcard(a, b, cs, 0);
}

} // verus!

verus! {

/// A character that the lowercase check keeps: ASCII and not a capital.
pub open spec fn plain_char(c: char) -> bool {
    (c as u32) < 128 && !('A' <= c && c <= 'Z')
}

/// Whether every character of `s` is kept by the lowercase check.
pub open spec fn plain_text(s: Seq<char>) -> bool {
    forall|i: int| 0 <= i < s.len() ==> plain_char(#[trigger] s[i])
}

proof fn lemma_join_plain(ps: Seq<Seq<char>>, c: char)
    requires
        plain_char(c),
        forall|k: int| 0 <= k < ps.len() ==> plain_text(#[trigger] ps[k]),
    ensures
        plain_text(join_char(ps, c)),
    decreases ps.len(),
{
    if ps.len() > 1 {
        lemma_join_plain(ps.drop_last(), c);
        let a = join_char(ps.drop_last(), c);
        let j = a + seq![c] + ps.last();
        assert(plain_text(ps[ps.len() - 1]));
        assert forall|i: int| 0 <= i < j.len() implies plain_char(#[trigger] j[i]) by {
            if i < a.len() {
                assert(j[i] == a[i]);
            } else if i == a.len() {
                assert(j[i] == c);
            } else {
                assert(j[i] == ps.last()[i - a.len() - 1]);
            }
        }
    } else if ps.len() == 1 {
        assert(plain_text(ps[0]));
    }
}

proof fn lemma_flatten_plain(r: Seq<Seq<char>>)
    requires
        forall|k: int| 0 <= k < r.len() ==> plain_text(#[trigger] r[k]),
    ensures
        plain_text(r.flatten()),
    decreases r.len(),
{
    if r.len() > 0 {
        let t = r.drop_first();
        assert forall|k: int| 0 <= k < t.len() implies plain_text(#[trigger] t[k]) by {
            assert(t[k] == r[k + 1]);
        }
        lemma_flatten_plain(t);
        assert(plain_text(r[0]));
        let f = r.first() + t.flatten();
        assert forall|i: int| 0 <= i < f.len() implies plain_char(#[trigger] f[i]) by {
            if i < r[0].len() {
                assert(f[i] == r[0][i]);
            } else {
                assert(f[i] == t.flatten()[i - r[0].len()]);
            }
        }
    }
}

proof fn lemma_flatten_keeps_lacks(r: Seq<Seq<char>>, c: char)
    requires
        forall|k: int| 0 <= k < r.len() ==> lacks(#[trigger] r[k], c),
    ensures
        lacks(r.flatten(), c),
    decreases r.len(),
{
    if r.len() > 0 {
        let t = r.drop_first();
        assert forall|k: int| 0 <= k < t.len() implies lacks(#[trigger] t[k], c) by {
            assert(t[k] == r[k + 1]);
        }
        lemma_flatten_keeps_lacks(t, c);
        assert(lacks(r[0], c));
        let f = r.first() + t.flatten();
        assert forall|i: int| 0 <= i < f.len() implies f[i] != c by {
            if i < r[0].len() {
                assert(f[i] == r[0][i]);
            } else {
                assert(f[i] == t.flatten()[i - r[0].len()]);
            }
        }
    }
}

proof fn lemma_token_plain(t: Seq<char>)
    requires
        valid_token(t),
    ensures
        plain_text(t),
{
    assert forall|i: int| 0 <= i < t.len() implies plain_char(#[trigger] t[i]) by {
        if i > 0 {
            assert(is_token_char(t[i]));
        }
    }
}

proof fn lemma_decimal_plain(n: nat)
    ensures
        plain_text(crate::text::decimal(n)),
{
    lemma_decimal_canonical(n);
    let d = crate::text::decimal(n);
    assert forall|i: int| 0 <= i < d.len() implies plain_char(#[trigger] d[i]) by {
        assert(crate::text::is_ascii_digit(d[i]));
    }
}

/// A segment that parses without wildcards holds only characters that the
/// lowercase check keeps.
proof fn lemma_concrete_segment_plain(seg: Seq<char>)
    requires
        spec_segment_parts(seg, false) is Ok,
    ensures
        plain_text(seg),
{
    lemma_segment_rebuilds(seg);
    let p = spec_segment_parts(seg, false)->Ok_0.0;
    let ft = field_tokens(p);
    lemma_token_plain(p.vendor);
    lemma_token_plain(p.package);
    lemma_token_plain(p.namespace);
    lemma_token_plain(p.type_token);
    lemma_decimal_plain(p.ver_major as nat);
    let vt = seq!['v'] + crate::text::decimal(p.ver_major as nat);
    assert(plain_text(vt)) by {
        assert forall|i: int| 0 <= i < vt.len() implies plain_char(#[trigger] vt[i]) by {
            if i > 0 {
                assert(vt[i] == crate::text::decimal(p.ver_major as nat)[i - 1]);
            }
        }
    }
    if p.ver_minor is Some {
        lemma_decimal_plain(p.ver_minor->Some_0 as nat);
    }
    assert forall|k: int| 0 <= k < ft.len() implies plain_text(#[trigger] ft[k]) by {
        if k == 4 {
            assert(ft[4] == vt);
        }
    }
    lemma_join_plain(ft, '.');
    let j = join_char(ft, '.');
    assert forall|i: int| 0 <= i < seg.len() implies plain_char(#[trigger] seg[i]) by {
        if i < j.len() {
            assert(seg[i] == j[i]);
        } else {
            assert(seg[i] == '~');
        }
    }
}

/// The UTF-8 encoding of a concatenation is the concatenation of the
/// encodings.
proof fn lemma_encode_concat(a: Seq<char>, b: Seq<char>)
    ensures
        vstd::utf8::encode_utf8(a + b) == vstd::utf8::encode_utf8(a) + vstd::utf8::encode_utf8(b),
    decreases a.len(),
{
    if a.len() == 0 {
        assert(a + b =~= b);
        assert(vstd::utf8::encode_utf8(a) =~= Seq::<u8>::empty());
        assert(Seq::<u8>::empty() + vstd::utf8::encode_utf8(b) =~= vstd::utf8::encode_utf8(b));
    } else {
        lemma_encode_concat(a.drop_first(), b);
        assert((a + b).drop_first() =~= a.drop_first() + b);
        assert((a + b)[0] == a[0]);
        let e = vstd::utf8::encode_scalar(a[0] as u32);
        assert(e + (vstd::utf8::encode_utf8(a.drop_first()) + vstd::utf8::encode_utf8(b)) =~= (e
            + vstd::utf8::encode_utf8(a.drop_first())) + vstd::utf8::encode_utf8(b));
    }
}

/// Raw segments that each end with their only `~` split at `~` into their
/// texts without it, followed by an empty piece.
proof fn lemma_split_tilde_pieces(r: Seq<Seq<char>>)
    requires
        forall|k: int| 0 <= k < r.len() ==> crate::segment::ends_with_tilde(#[trigger] r[k]),
        forall|k: int, i: int| 0 <= k < r.len() && 0 <= i < r[k].len() - 1 ==> #[trigger] r[k][i] != '~',
    ensures
        split_char(r.flatten(), '~') == r.map_values(|x: Seq<char>| x.drop_last()).push(
            Seq::<char>::empty(),
        ),
    decreases r.len(),
{
    let e = Seq::<char>::empty();
    let qs = r.map_values(|x: Seq<char>| x.drop_last());
    if r.len() == 0 {
        assert(r.flatten() =~= e);
        assert(qs.push(e) =~= seq![e]);
    } else {
        let rp = r.drop_last();
        let x = r.last();
        assert(ends_with_tilde_at(r, r.len() - 1));
        lemma_split_tilde_pieces(rp);
        assert(r =~= rp.push(x));
        rp.lemma_flatten_push(x);
        let q = x.drop_last();
        assert(lacks(q, '~')) by {
            assert forall|i: int| 0 <= i < q.len() implies q[i] != '~' by {
                assert(q[i] == r[r.len() - 1][i]);
            }
        }
        lemma_split_extend_last(e, q, '~');
        assert(split_char(e, '~') == seq![e]);
        assert(e + q =~= q);
        assert(split_char(q, '~') =~= seq![q]);
        assert(x =~= q.push('~'));
        assert(split_char(x, '~') == split_char(q, '~').push(e));
        let qp = rp.map_values(|y: Seq<char>| y.drop_last());
        if rp.len() == 0 {
            assert(rp.flatten() =~= e);
            assert(r.flatten() =~= x);
            assert(qs.push(e) =~= seq![q, e]);
        } else {
            let a = rp.flatten();
            rp.drop_last().lemma_flatten_push(rp.last());
            assert(rp =~= rp.drop_last().push(rp.last()));
            assert(ends_with_tilde_at(r, rp.len() - 1));
            assert(rp.last() == r[rp.len() - 1]);
            assert(a.len() > 0 && a.last() == '~');
            lemma_split_after_sep(a, x, '~');
            assert(qs.push(e) =~= qp.push(e).drop_last() + seq![q, e]);
        }
    }
}

spec fn ends_with_tilde_at(r: Seq<Seq<char>>, k: int) -> bool {
    crate::segment::ends_with_tilde(r[k])
}

/// Tilde parts that each regain their `~` give back the raw segments, the
/// final empty part being dropped.
proof fn lemma_raw_pieces_rebuild(qs: Seq<Seq<char>>, r: Seq<Seq<char>>, i: nat)
    requires
        qs.len() == r.len(),
        i <= qs.len(),
        forall|k: int| 0 <= k < qs.len() ==> (#[trigger] qs[k]).len() > 0 && r[k] == qs[k].push('~'),
    ensures
        raw_pieces(qs.push(Seq::<char>::empty()), i, qs.len() + 1, false) == Ok::<Seq<Seq<char>>, nat>(
            r.skip(i as int),
        ),
    decreases qs.len() - i,
{
    let parts = qs.push(Seq::<char>::empty());
    if i == qs.len() {
        assert(parts[i as int].len() == 0);
        assert(r.skip(i as int) =~= Seq::<Seq<char>>::empty());
    } else {
        lemma_raw_pieces_rebuild(qs, r, i + 1);
        assert(parts[i as int] == qs[i as int]);
        assert(seq![r[i as int]] + r.skip(i + 1int) =~= r.skip(i as int));
    }
}

/// Parsing the first raw segments gives the first results.
proof fn lemma_parse_raws_take(raws: Seq<Seq<char>>, allow: bool, k: nat, i: nat)
    requires
        i <= k <= raws.len(),
        parse_raws(raws, allow, i) is Ok,
    ensures
        parse_raws(raws.take(k as int), allow, i) == Ok::<Seq<(PartsModel, bool)>, (nat, SegmentFault)>(
            parse_raws(raws, allow, i)->Ok_0.take(k - i),
        ),
    decreases k - i,
{
    if i < k {
        lemma_parse_raws_take(raws, allow, k, i + 1);
        lemma_parse_raws_each(raws, allow, i);
        assert(raws.take(k as int)[i as int] == raws[i as int]);
        let whole = parse_raws(raws, allow, i)->Ok_0;
        let rest = parse_raws(raws, allow, i + 1)->Ok_0;
        assert(whole == seq![spec_segment_parts(raws[i as int], allow)->Ok_0] + rest);
        assert(seq![spec_segment_parts(raws[i as int], allow)->Ok_0] + rest.take(k - (i + 1)) =~= whole.take(
            k - i,
        ));
    } else {
        assert(parse_raws(raws, allow, i)->Ok_0.take(0) =~= Seq::<(PartsModel, bool)>::empty());
    }
}

} // verus!

verus! {

/// The prefix followed by raw segments that each end with their only `~`,
/// hold no `-` and parse, within the length limit, passes the structural
/// pass with exactly those raw segments and no UUID tail.
#[verifier::spinoff_prover]
proof fn lemma_tilde_raws_layout(r: Seq<Seq<char>>)
    requires
        r.len() >= 1,
        forall|i: int|
            0 <= i < r.len() ==> crate::segment::ends_with_tilde(#[trigger] r[i]) && lacks(r[i], '-')
                && spec_segment_parts(r[i], false) is Ok,
        forall|j: int, i: int| 0 <= j < r.len() && 0 <= i < r[j].len() - 1 ==> #[trigger] r[j][i] != '~',
        crate::text::utf8_len(crate::prefix::gts_prefix() + r.flatten()) <= 1024,
    ensures
        ({
            let t = crate::prefix::gts_prefix() + r.flatten();
            &&& t.len() > 0 && t.last() == '~'
            &&& spec_split_raw_segments(t, false) == Ok::<(Seq<Seq<char>>, Option<Seq<char>>), crate::error::IdFault>(
                (r, None),
            )
        }),
{
    let pre = crate::prefix::gts_prefix();
    let t = pre + r.flatten();
    // The text ends with the `~` of its last raw segment.
    r.drop_last().lemma_flatten_push(r.last());
    assert(r =~= r.drop_last().push(r.last()));
    assert(t.len() > 0 && t.last() == '~') by {
        assert(crate::segment::ends_with_tilde(r[r.len() - 1]));
    }
    // Structural checks: prefix, case, length.
    assert(t.take(4) =~= pre);
    assert(has_gts_prefix(t));
    assert forall|i: int| 0 <= i < r.len() implies plain_text(#[trigger] r[i]) by {
        lemma_concrete_segment_plain(r[i]);
    }
    lemma_flatten_plain(r);
    assert(plain_text(t)) by {
        assert forall|i: int| 0 <= i < t.len() implies plain_char(#[trigger] t[i]) by {
            if i >= 4 {
                assert(t[i] == r.flatten()[i - 4]);
            }
        }
    }
    assert(crate::text::is_ascii_text(t)) by {
        assert forall|i: int| 0 <= i < t.len() implies (#[trigger] t[i] as u32) < 128 by {
            assert(plain_char(t[i]));
        }
    }
    lemma_ascii_lowercase_fixed(t);
    assert forall|i: int| 0 <= i < t.len() implies !('A' <= #[trigger] t[i] && t[i] <= 'Z') by {
        assert(plain_char(t[i]));
    }
    assert(crate::text::lowercase_of(t) == t);
    assert(crate::parse::byte_len(t) <= 1024);
    assert(structure_fault(t, false) is None);
    // The tilde parts: each raw segment without its `~`, then an empty part.
    lemma_split_tilde_pieces(r);
    let qs = r.map_values(|x: Seq<char>| x.drop_last());
    assert(t.skip(4) =~= r.flatten());
    let parts = tilde_parts(t);
    assert(parts == qs.push(Seq::<char>::empty()));
    assert(uuid_tail_of(parts) is None);
    lemma_flatten_keeps_lacks(r, '-');
    assert(lacks(t, '-')) by {
        assert forall|i: int| 0 <= i < t.len() implies t[i] != '-' by {
            if i >= 4 {
                assert(t[i] == r.flatten()[i - 4]);
            }
        }
    }
    lemma_count_zero_lacks(t, '-');
    assert forall|i: int| 0 <= i < qs.len() implies (#[trigger] qs[i]).len() > 0 && r[i] == qs[i].push('~') by {
        let x = r[i];
        assert(x =~= x.drop_last().push('~'));
        if x.drop_last().len() == 0 {
            assert(count_char(x, '~') == 1) by {
                assert(x =~= seq!['~']);
                assert(x.drop_last() =~= Seq::<char>::empty());
            }
            assert(segment_body(x) == Ok::<Seq<char>, SegmentFault>(Seq::<char>::empty()));
            assert(split_char(Seq::<char>::empty(), '.') == seq![Seq::<char>::empty()]);
            assert(spec_segment_parts(x, false) is Err);
        }
    }
    lemma_raw_pieces_rebuild(qs, r, 0);
    assert(r.skip(0) =~= r);
    assert(spec_split_raw_segments(t, false) == Ok::<(Seq<Seq<char>>, Option<Seq<char>>), crate::error::IdFault>(
        (r, None),
    ));
}

/// The parent type identifier of a chained identifier is itself a valid
/// type identifier, made of all the identifier's segments but the last:
/// it parses to exactly those segments, ends with `~`, is accepted as a
/// type identifier as it stands, and starts the identifier's text. (The
/// byte length of the text fits in `usize`, as that of every string does.)
#[verifier::spinoff_prover]
pub proof fn lemma_type_id_reparses(m: GtsIdModel)
    requires
        crate::gts_id::id_wf(m),
        m.segments.len() >= 2,
        crate::text::utf8_len(m.id) <= usize::MAX,
    ensures
        spec_type_id(m) is Some,
        ({
            let t = spec_type_id(m)->Some_0;
            &&& spec_parse_id(t) == Ok::<Seq<SegmentModel>, crate::error::IdFault>(m.segments.drop_last())
            &&& t.len() > 0 && t.last() == '~'
            &&& spec_typed_id(t, true) == Ok::<Seq<char>, crate::error::GtsIdErrorModel>(t)
            &&& t.is_prefix_of(m.id)
        }),
{
    let (raws, uuid) = spec_split_raw_segments(m.id, false)->Ok_0;
    lemma_raw_segments_shape(m.id, false);
    lemma_raw_segments_marks(m.id, false);
    lemma_parse_raws_each(raws, false, 0);
    let pws = parse_raws(raws, false, 0)->Ok_0;
    let segs = m.segments;
    assert(segs == concrete_models(pws) + tail_models(uuid));
    lemma_chain_segments_are_types(m.id);
    lemma_type_id_then_last_segment(m);
    let k = (segs.len() - 1) as nat;
    let r = raws.take(k as int);
    assert(k <= raws.len());
    assert(k >= 1);
    assert forall|i: int| 0 <= i < k implies #[trigger] segs[i] == SegmentModel::Concrete(pws[i].0) by {}
    // The parent text is the prefix followed by the first `k` raw segments.
    let f = |x: SegmentModel| crate::segment::segment_raw(x);
    assert(segs.drop_last().map_values(f) =~= r) by {
        assert forall|i: int| 0 <= i < k implies segs.drop_last().map_values(f)[i] == #[trigger] r[i] by {
            lemma_parts_keep_raw(raws[i], false);
        }
    }
    let pre = crate::prefix::gts_prefix();
    let t = pre + r.flatten();
    assert(spec_type_id(m) == Some(t));
    assert forall|i: int| 0 <= i < r.len() implies crate::segment::ends_with_tilde(#[trigger] r[i]) && lacks(
        r[i],
        '-',
    ) && spec_segment_parts(r[i], false) is Ok by {
        assert(r[i] == raws[i]);
    }
    assert forall|j: int, i: int| 0 <= j < r.len() && 0 <= i < r[j].len() - 1 implies #[trigger] r[j][i]
        != '~' by {
        assert(r[j] == raws[j]);
    }
    let last_raw = crate::segment::segment_raw(segs.last());
    lemma_encode_concat(t, last_raw);
    assert(structure_fault(m.id, false) is None);
    assert(crate::text::utf8_len(t) <= crate::text::utf8_len(m.id));
    lemma_tilde_raws_layout(r);
    // Parsing the raw segments.
    lemma_parse_raws_take(raws, false, k, 0);
    let pt = pws.take(k as int);
    assert(parse_raws(r, false, 0) == Ok::<Seq<(PartsModel, bool)>, (nat, SegmentFault)>(pt));
    assert(concrete_models(pt) + tail_models(None) =~= segs.drop_last()) by {
        assert forall|i: int| 0 <= i < k implies (concrete_models(pt) + tail_models(None))[i]
            == #[trigger] segs.drop_last()[i] by {
            assert(segs.drop_last()[i] == segs[i]);
        }
    }
    assert(segment_fields(segs[0]).is_type);
    assert(spec_parse_id(t) == Ok::<Seq<SegmentModel>, crate::error::IdFault>(segs.drop_last()));
    lemma_valid_id_trimmed(t);
    assert(t.is_prefix_of(m.id));
}

} // verus!

verus! {

/// Of the first `n` declarations, the ones kept are exactly those last of
/// their name, in order, so that the kept names are distinct and none of
/// them is declared again after the first `n`.
proof fn lemma_last_declarations_at(s: Seq<(Seq<char>, JsonModel)>, n: nat)
    requires
        n <= s.len(),
    ensures
        ({
            let l = crate::schema_traits::last_declarations(s, n);
            &&& forall|i: int, j: int| 0 <= i < j < l.len() ==> (#[trigger] l[i]).0 != (#[trigger] l[j]).0
            &&& forall|i: int, j: int|
                0 <= i < l.len() && n <= j < s.len() ==> (#[trigger] s[j]).0 != (#[trigger] l[i]).0
            &&& forall|i: int| 0 <= i < l.len() ==> s.contains(#[trigger] l[i])
            &&& forall|k: int|
                0 <= k < n && crate::schema_traits::last_of_name(s, k) ==> l.contains(#[trigger] s[k])
        }),
    decreases n,
{
    if n > 0 {
        let m = (n - 1) as nat;
        lemma_last_declarations_at(s, m);
        let p = crate::schema_traits::last_declarations(s, m);
        let l = crate::schema_traits::last_declarations(s, n);
        if crate::schema_traits::last_of_name(s, m as int) {
            assert(l == p + seq![s[m as int]]);
            assert forall|i: int, j: int| 0 <= i < j < l.len() implies (#[trigger] l[i]).0 != (
            #[trigger] l[j]).0 by {
                if j < p.len() {
                    assert(l[i] == p[i] && l[j] == p[j]);
                } else {
                    assert(l[i] == p[i]);
                    assert(s[m as int].0 != p[i].0);
                }
            }
            assert forall|i: int, j: int| 0 <= i < l.len() && n <= j < s.len() implies (
            #[trigger] s[j]).0 != (#[trigger] l[i]).0 by {
                if i < p.len() {
                    assert(l[i] == p[i]);
                } else {
                    assert(l[i] == s[m as int]);
                }
            }
            assert forall|i: int| 0 <= i < l.len() implies s.contains(#[trigger] l[i]) by {
                if i < p.len() {
                    assert(l[i] == p[i]);
                } else {
                    assert(l[i] == s[m as int]);
                }
            }
            assert forall|k: int| 0 <= k < n && crate::schema_traits::last_of_name(s, k) implies l.contains(
                #[trigger] s[k],
            ) by {
                if k < m {
                    let i = choose|i: int| 0 <= i < p.len() && p[i] == s[k];
                    assert(l[i] == p[i]);
                } else {
                    assert(l[p.len() as int] == s[k]);
                }
            }
        } else {
            assert(l =~= p);
            assert forall|i: int, j: int| 0 <= i < l.len() && n <= j < s.len() implies (
            #[trigger] s[j]).0 != (#[trigger] l[i]).0 by {
                assert(l[i] == p[i]);
            }
        }
    }
}

/// The completeness check of trait values reports each property at most
/// once: it reads one declaration per declared name, the last one (the
/// rightmost in the chain), so the names it reads are distinct, each is
/// a declaration of the schema, and every declared name is read.
pub proof fn lemma_last_declarations_distinct(s: Seq<(Seq<char>, JsonModel)>)
    ensures
        ({
            let l = crate::schema_traits::last_declarations(s, s.len());
            &&& forall|i: int, j: int| 0 <= i < j < l.len() ==> (#[trigger] l[i]).0 != (#[trigger] l[j]).0
            &&& forall|i: int| 0 <= i < l.len() ==> s.contains(#[trigger] l[i])
            &&& forall|k: int|
                0 <= k < s.len() && crate::schema_traits::last_of_name(s, k) ==> l.contains(#[trigger] s[k])
            &&& forall|k: int| 0 <= k < s.len() ==> exists|i: int| 0 <= i < l.len() && (#[trigger] l[i]).0 == (
            #[trigger] s[k]).0
        }),
{
    lemma_last_declarations_at(s, s.len());
    let l = crate::schema_traits::last_declarations(s, s.len());
    assert forall|k: int| 0 <= k < s.len() implies exists|i: int| 0 <= i < l.len() && (#[trigger] l[i]).0 == (
    #[trigger] s[k]).0 by {
        lemma_last_of_name_exists(s, k, k);
        let k2 = choose|k2: int| k <= k2 < s.len() && s[k2].0 == s[k].0 && crate::schema_traits::last_of_name(s, k2);
        assert(l.contains(s[k2]));
        let i = choose|i: int| 0 <= i < l.len() && l[i] == s[k2];
        assert(l[i].0 == s[k].0);
    }
}

/// Every declaration has a last declaration of its name at or after it.
proof fn lemma_last_of_name_exists(s: Seq<(Seq<char>, JsonModel)>, k: int, from: int)
    requires
        0 <= k <= from < s.len(),
        s[from].0 == s[k].0,
    ensures
        exists|k2: int| k <= k2 < s.len() && s[k2].0 == s[k].0 && crate::schema_traits::last_of_name(s, k2),
    decreases s.len() - from,
{
    if crate::schema_traits::last_of_name(s, from) {
        assert(k <= from < s.len() && s[from].0 == s[k].0 && crate::schema_traits::last_of_name(s, from));
    } else {
        let j = choose|j: int| from < j < s.len() && #[trigger] s[j].0 != s[from].0 == false;
        lemma_last_of_name_exists(s, k, j);
    }
}

} // verus!

verus! {

/// The member named `k` of `s` followed by one more member.
proof fn lemma_member_push(s: Seq<(Seq<char>, JsonModel)>, x: (Seq<char>, JsonModel), k: Seq<char>)
    ensures
        member(s.push(x), k) == if member(s, k) is Some {
            member(s, k)
        } else if x.0 == k {
            Some(x.1)
        } else {
            None::<JsonModel>
        },
{
    assert(s.push(x).drop_last() =~= s);
    lemma_member_index_first(s, k);
    match member_index(s, k) {
        Some(j) => {
            assert(s.push(x)[j as int] == s[j as int]);
        },
        None => {},
    }
}

/// Some item of `items[i..]` is `false` one level deeper.
proof fn lemma_any_false_exists(items: Seq<JsonModel>, i: nat, depth: nat)
    ensures
        crate::schema_traits::any_false(items, i, depth) <==> exists|j: int|
            i <= j < items.len() && #[trigger] crate::schema_traits::schema_is_false(items[j], depth + 1),
    decreases items.len() - i,
{
    if i < items.len() {
        lemma_any_false_exists(items, i + 1, depth);
        if crate::schema_traits::schema_is_false(items[i as int], depth + 1) {
            assert(crate::schema_traits::schema_is_false(items[i as int], depth + 1));
        }
    }
}

/// A schema is unsatisfiable exactly when it is the boolean schema `false`,
/// or an object whose `allOf` array holds, at any position, an item that
/// is itself unsatisfiable one level deeper.
pub proof fn lemma_schema_false_iff(m: JsonModel, depth: nat)
    requires
        depth < 64,
    ensures
        match m {
            JsonModel::Bool(b) => crate::schema_traits::schema_is_false(m, depth) == !b,
            JsonModel::Object(es) => crate::schema_traits::schema_is_false(m, depth) == match member(
                es,
                "allOf"@,
            ) {
                Some(JsonModel::Array(items)) => exists|j: int|
                    0 <= j < items.len() && #[trigger] crate::schema_traits::schema_is_false(items[j], depth + 1),
                _ => false,
            },
            _ => !crate::schema_traits::schema_is_false(m, depth),
        },
{
    match m {
        JsonModel::Object(es) => {
            lemma_member_index_first(es, "allOf"@);
            match member(es, "allOf"@) {
                Some(JsonModel::Array(items)) => {
                    lemma_any_false_exists(items, 0, depth);
                },
                _ => {},
            }
        },
        _ => {},
    }
}

/// An object schema whose `allOf` array holds the boolean schema `false` at
/// any position is unsatisfiable (within the nesting limit).
pub proof fn lemma_false_item_makes_schema_false(es: Seq<(Seq<char>, JsonModel)>, j: int, depth: nat)
    requires
        depth + 1 < 64,
        member(es, "allOf"@) matches Some(JsonModel::Array(items)) && 0 <= j < items.len() && items[j]
            == JsonModel::Bool(false),
    ensures
        crate::schema_traits::schema_is_false(JsonModel::Object(es), depth),
{
    let items = member(es, "allOf"@)->Some_0->Array_0;
    lemma_schema_false_iff(items[j], depth + 1);
    lemma_schema_false_iff(JsonModel::Object(es), depth);
}

} // verus!

verus! {

/// Laying the first `n` members of `es` over `acc`: every name among them
/// (but `$ref` when it is skipped) gets its own inlined value, every other
/// name keeps the value it has in `acc`.
proof fn lemma_inlined_members_at(
    acc: Seq<(Seq<char>, JsonModel)>,
    es: Seq<(Seq<char>, JsonModel)>,
    n: nat,
    root: JsonModel,
    depth: nat,
    skip_ref: bool,
    k: Seq<char>,
)
    requires
        n <= es.len(),
        depth < 64,
        distinct_keys(es),
    ensures
        member(crate::schema_traits::inlined_members(acc, es, n, root, depth, skip_ref), k) == if skip_ref
            && k == "$ref"@ {
            member(acc, k)
        } else {
            match member(es.take(n as int), k) {
                Some(v) => Some(crate::schema_traits::inlined(v, root, depth + 1)),
                None => member(acc, k),
            }
        },
    decreases n,
{
    if n == 0 {
        lemma_member_index_first(es.take(0), k);
    } else {
        let m = (n - 1) as nat;
        lemma_inlined_members_at(acc, es, m, root, depth, skip_ref, k);
        let prev = crate::schema_traits::inlined_members(acc, es, m, root, depth, skip_ref);
        let x = es[m as int];
        assert(es.take(n as int) =~= es.take(m as int).push(x));
        lemma_member_push(es.take(m as int), x, k);
        if x.0 == k {
            lemma_member_index_first(es.take(m as int), k);
            assert forall|j: int| 0 <= j < m implies #[trigger] es.take(m as int)[j].0 != k by {
                assert(es.take(m as int)[j] == es[j]);
            }
            if !(skip_ref && x.0 == "$ref"@) {
                lemma_insert_same(prev, x.0, crate::schema_traits::inlined(x.1, root, depth + 1));
            }
        } else if !(skip_ref && x.0 == "$ref"@) {
            lemma_insert_other(prev, x.0, crate::schema_traits::inlined(x.1, root, depth + 1), k);
        }
    }
}

/// A local `$ref` that resolves to an object is replaced by its (inlined)
/// target with the `$ref` object's sibling members laid over it: every
/// sibling other than `$ref` appears with its own inlined value, replacing
/// the target's member of that name, and every other member of the target
/// is kept.
pub proof fn lemma_ref_siblings_override(
    es: Seq<(Seq<char>, JsonModel)>,
    root: JsonModel,
    depth: nat,
    k: Seq<char>,
)
    requires
        depth < 64,
        distinct_keys(es),
        crate::schema_traits::local_ref_target(JsonModel::Object(es), root) matches Some(t)
            && crate::schema_traits::inlined(t, root, depth + 1) is Object,
    ensures
        ({
            let t = crate::schema_traits::local_ref_target(JsonModel::Object(es), root)->Some_0;
            let rs = crate::schema_traits::inlined(t, root, depth + 1)->Object_0;
            let r = crate::schema_traits::inlined(JsonModel::Object(es), root, depth);
            &&& r is Object
            &&& member(r->Object_0, k) == if k != "$ref"@ && member(es, k) is Some {
                Some(crate::schema_traits::inlined(member(es, k)->Some_0, root, depth + 1))
            } else {
                member(rs, k)
            }
        }),
{
    let t = crate::schema_traits::local_ref_target(JsonModel::Object(es), root)->Some_0;
    let rs = crate::schema_traits::inlined(t, root, depth + 1)->Object_0;
    assert(es.take(es.len() as int) =~= es);
    lemma_member_index_first(es, "$ref"@);
    lemma_member_index_first(es, k);
    if es.len() > 1 {
        lemma_inlined_members_at(rs, es, es.len(), root, depth, true, k);
    } else {
        // The one member is the `$ref`.
        assert(es[0].0 == "$ref"@);
    }
}

} // verus!

verus! {

/// Whether `m` has no `required` member at its top level nor in any
/// `allOf` item, down to the nesting limit.
pub open spec fn required_free(m: JsonModel, depth: nat) -> bool
    decreases 64 - depth,
{
    if depth >= 64 {
        true
    } else {
        match m {
            JsonModel::Object(es) => member(es, "required"@) is None && match member(es, "allOf"@) {
                Some(JsonModel::Array(items)) => forall|i: int|
                    0 <= i < items.len() ==> required_free(#[trigger] items[i], depth + 1),
                _ => true,
            },
            _ => true,
        }
    }
}

/// Whether `m` and its `allOf` items, down to the nesting limit, are
/// objects with distinct member names (as every parsed JSON object is).
pub open spec fn keys_distinct_deep(m: JsonModel, depth: nat) -> bool
    decreases 64 - depth,
{
    if depth >= 64 {
        true
    } else {
        match m {
            JsonModel::Object(es) => distinct_keys(es) && match member(es, "allOf"@) {
                Some(JsonModel::Array(items)) => forall|i: int|
                    0 <= i < items.len() ==> keys_distinct_deep(#[trigger] items[i], depth + 1),
                _ => true,
            },
            _ => true,
        }
    }
}

proof fn lemma_strip_items_at(items: Seq<JsonModel>, i: nat, depth: nat)
    requires
        i <= items.len(),
    ensures
        crate::schema_traits::strip_items(items, i, depth).len() == items.len() - i,
        forall|j: int|
            i <= j < items.len() ==> crate::schema_traits::strip_items(items, i, depth)[j - i]
                == crate::schema_traits::strip_required(#[trigger] items[j], depth + 1),
    decreases items.len() - i,
{
    if i < items.len() {
        lemma_strip_items_at(items, i + 1, depth);
        let rest = crate::schema_traits::strip_items(items, i + 1, depth);
        let all = crate::schema_traits::strip_items(items, i, depth);
        assert forall|j: int| i <= j < items.len() implies all[j - i]
            == crate::schema_traits::strip_required(#[trigger] items[j], depth + 1) by {
            if j > i {
                assert(all[j - i] == rest[j - (i + 1)]);
            }
        }
    }
}

/// Removing the `required` constraints from an object schema with
/// distinct member names: the result is an object without a `required`
/// member, every member other than `required` and `allOf` is kept as it
/// is, and an `allOf` array keeps its length, each item having its own
/// `required` constraints removed.
pub proof fn lemma_strip_required_level(es: Seq<(Seq<char>, JsonModel)>, depth: nat, k: Seq<char>)
    requires
        depth < 64,
        distinct_keys(es),
    ensures
        ({
            let r = crate::schema_traits::strip_required(JsonModel::Object(es), depth);
            &&& r is Object
            &&& distinct_keys(r->Object_0)
            &&& member(r->Object_0, "required"@) is None
            &&& (k != "required"@ && k != "allOf"@ ==> member(r->Object_0, k) == member(es, k))
            &&& match member(es, "allOf"@) {
                Some(JsonModel::Array(items)) => member(r->Object_0, "allOf"@) matches Some(
                    JsonModel::Array(out),
                ) && out.len() == items.len() && forall|i: int|
                    0 <= i < items.len() ==> out[i] == crate::schema_traits::strip_required(
                        #[trigger] items[i],
                        depth + 1,
                    ),
                other => member(r->Object_0, "allOf"@) == other,
            }
        }),
{
    lemma_member_index_first(es, "allOf"@);
    let es1 = match member_index(es, "allOf"@) {
        Some(ki) => match es[ki as int].1 {
            JsonModel::Array(items) => es.update(
                ki as int,
                (es[ki as int].0, JsonModel::Array(crate::schema_traits::strip_items(items, 0, depth))),
            ),
            _ => es,
        },
        None => es,
    };
    assert(es1.len() == es.len());
    assert forall|i: int| 0 <= i < es.len() implies #[trigger] es1[i].0 == es[i].0 by {}
    lemma_member_same_keys(es, es1, k);
    lemma_member_same_keys(es, es1, "allOf"@);
    assert(distinct_keys(es1)) by {
        assert forall|i: int, j: int| 0 <= i < j < es1.len() implies #[trigger] es1[i].0 != #[trigger] es1[j].0 by {
            assert(es1[i].0 == es[i].0 && es1[j].0 == es[j].0);
        }
    }
    reveal_strlit("required");
    reveal_strlit("allOf");
    assert("required"@ != "allOf"@) by {
        assert("required"@[0] != "allOf"@[0]);
    }
    lemma_member_index_first(es, k);
    lemma_remove_same(es1, "required"@);
    lemma_edits_keep_distinct(es1, "required"@, JsonModel::Null);
    lemma_remove_other(es1, "required"@, "allOf"@);
    if k != "required"@ {
        lemma_remove_other(es1, "required"@, k);
    }
    match member(es, "allOf"@) {
        Some(JsonModel::Array(items)) => {
            lemma_strip_items_at(items, 0, depth);
        },
        _ => {},
    }
}

/// Removing the `required` constraints leaves none, at the top level nor
/// in any `allOf` item down to the nesting limit.
pub proof fn lemma_strip_required_removes_all(m: JsonModel, depth: nat)
    requires
        keys_distinct_deep(m, depth),
    ensures
        required_free(crate::schema_traits::strip_required(m, depth), depth),
    decreases 64 - depth,
{
    if depth < 64 {
        match m {
            JsonModel::Object(es) => {
                lemma_strip_required_level(es, depth, "required"@);
                let r = crate::schema_traits::strip_required(m, depth);
                match member(es, "allOf"@) {
                    Some(JsonModel::Array(items)) => {
                        let out = member(r->Object_0, "allOf"@)->Some_0->Array_0;
                        assert forall|i: int| 0 <= i < out.len() implies required_free(
                            #[trigger] out[i],
                            depth + 1,
                        ) by {
                            assert(keys_distinct_deep(items[i], depth + 1));
                            lemma_strip_required_removes_all(items[i], depth + 1);
                        }
                    },
                    _ => {},
                }
            },
            _ => {},
        }
    }
}

} // verus!

verus! {

/// The segment text that a segment report spells: its four names, `v` and
/// its major version, its minor version when it has one, joined by `.`,
/// followed by `~` when it reports a type segment.
pub open spec fn info_text(i: crate::ops::SegmentInfoModel) -> Seq<char> {
    let major = match i.ver_major {
        Some(v) => v,
        None => 0u32,
    };
    join_char(
        seq![i.vendor, i.package, i.namespace, i.type_token, seq!['v'] + crate::text::decimal(major as nat)]
            + match i.ver_minor {
            Some(m) => seq![crate::text::decimal(m as nat)],
            None => Seq::<Seq<char>>::empty(),
        },
        '.',
    ) + if i.is_type {
        seq!['~']
    } else {
        Seq::<char>::empty()
    }
}

/// The report of a segment parsed from text spells that text back: its
/// names, its major version and its minor version (when the text gives
/// one) are those written in the text.
pub proof fn lemma_segment_info_spells_text(seg: Seq<char>)
    requires
        spec_segment_parts(seg, false) is Ok,
    ensures
        info_text(
            crate::ops::segment_info(SegmentModel::Concrete(spec_segment_parts(seg, false)->Ok_0.0)),
        ) == seg,
{
    lemma_segment_rebuilds(seg);
    let p = spec_segment_parts(seg, false)->Ok_0.0;
    let i = crate::ops::segment_info(SegmentModel::Concrete(p));
    assert(field_tokens(p) =~= seq![i.vendor, i.package, i.namespace, i.type_token, seq!['v'] + crate::text::decimal(p.ver_major as nat)]
        + match i.ver_minor {
        Some(m) => seq![crate::text::decimal(m as nat)],
        None => Seq::<Seq<char>>::empty(),
    });
}

/// The report of a non-wildcard pattern segment spells its text back too.
pub proof fn lemma_pattern_segment_info_spells_text(seg: Seq<char>)
    requires
        spec_segment_parts(seg, true) is Ok,
        !spec_segment_parts(seg, true)->Ok_0.1,
    ensures
        info_text(
            crate::ops::pattern_segment_info(
                crate::parse::pattern_model(spec_segment_parts(seg, true)->Ok_0),
            ),
        ) == seg,
{
    lemma_pattern_segment_rebuilds(seg);
    lemma_segment_info_spells_text(seg);
}

/// Every concrete segment that parsing an identifier reports spells the
/// text of that segment: reading the reports of a valid identifier gives
/// back its names and versions, minor versions included.
pub proof fn lemma_id_reports_spell_segments(m: GtsIdModel)
    requires
        crate::gts_id::id_wf(m),
    ensures
        forall|i: int|
            0 <= i < m.segments.len() && m.segments[i] is Concrete ==> info_text(
                crate::ops::segment_info(#[trigger] m.segments[i]),
            ) == crate::segment::segment_raw(m.segments[i]),
{
    let (raws, uuid) = spec_split_raw_segments(m.id, false)->Ok_0;
    assert(tilde_layout(m.id) is Ok);
    lemma_parse_raws_each(raws, false, 0);
    let pws = parse_raws(raws, false, 0)->Ok_0;
    assert(m.segments == concrete_models(pws) + tail_models(uuid));
    assert forall|i: int| 0 <= i < m.segments.len() && m.segments[i] is Concrete implies info_text(
        crate::ops::segment_info(#[trigger] m.segments[i]),
    ) == crate::segment::segment_raw(m.segments[i]) by {
        if i < pws.len() {
            assert(m.segments[i] == SegmentModel::Concrete(pws[i].0));
            lemma_segment_info_spells_text(raws[i]);
            lemma_parts_keep_raw(raws[i], false);
        } else {
            assert(uuid is Some);
            assert(m.segments[i] == SegmentModel::UuidTail(uuid->Some_0));
        }
    }
}

} // verus!

verus! {

/// Whether `key` names a member whose value is a schema to scan for
/// references: anything but the `$ref` itself and the keywords whose
/// values are instance data (`const`, `default`, `examples`, `enum`).
pub open spec fn schema_valued_key(key: Seq<char>) -> bool {
    key != "$ref"@ && key != "const"@ && key != "default"@ && key != "examples"@ && key != "enum"@
}

proof fn lemma_members_refs_contain(
    entries: Vec<(String, JsonValue)>,
    j: nat,
    path: Seq<char>,
    depth: nat,
    i: int,
)
    requires
        j <= i < entries.len(),
        refs_in_members(entries, j, path, depth) is Ok,
        schema_valued_key(entries[i].0@),
    ensures
        refs_in(entries[i].1, crate::schema_refs::member_path(path, entries[i].0@), depth + 1) is Ok,
        forall|x: Seq<char>|
            refs_in(entries[i].1, crate::schema_refs::member_path(path, entries[i].0@), depth + 1)->Ok_0.contains(
                x,
            ) ==> #[trigger] refs_in_members(entries, j, path, depth)->Ok_0.contains(x),
    decreases i - j,
{
    let key = entries[j as int].0@;
    let child = refs_in(entries[i].1, crate::schema_refs::member_path(path, entries[i].0@), depth + 1);
    let whole = refs_in_members(entries, j, path, depth)->Ok_0;
    if j < i {
        lemma_members_refs_contain(entries, j + 1, path, depth, i);
        let rest = refs_in_members(entries, j + 1, path, depth)->Ok_0;
        if crate::schema_refs::skipped_key(key) {
            assert(whole == rest);
        } else {
            let a = refs_in(entries[j as int].1, crate::schema_refs::member_path(path, key), depth + 1)->Ok_0;
            assert(whole == a + rest);
            assert forall|x: Seq<char>| child->Ok_0.contains(x) implies #[trigger] whole.contains(x) by {
                assert(rest.contains(x));
                let q = choose|q: int| 0 <= q < rest.len() && rest[q] == x;
                assert((a + rest)[a.len() + q] == x);
            }
        }
    } else {
        let a = refs_in(entries[j as int].1, crate::schema_refs::member_path(path, key), depth + 1)->Ok_0;
        let rest = refs_in_members(entries, j + 1, path, depth)->Ok_0;
        assert(whole == a + rest);
        assert forall|x: Seq<char>| child->Ok_0.contains(x) implies #[trigger] whole.contains(x) by {
            let q = choose|q: int| 0 <= q < a.len() && a[q] == x;
            assert((a + rest)[q] == x);
        }
    }
}

/// Every reference found inside a schema-valued member of an object (any
/// member but `$ref`, `const`, `default`, `examples` and `enum`; `$defs`,
/// `properties`, `allOf`, ... alike) is reported for the object too, and
/// scanning that member succeeds when scanning the object does.
pub proof fn lemma_member_refs_reported(entries: Vec<(String, JsonValue)>, path: Seq<char>, depth: nat, i: int)
    requires
        refs_in(JsonValue::Object(entries), path, depth) is Ok,
        0 <= i < entries.len(),
        schema_valued_key(entries[i].0@),
    ensures
        refs_in(entries[i].1, crate::schema_refs::member_path(path, entries[i].0@), depth + 1) is Ok,
        forall|x: Seq<char>|
            refs_in(entries[i].1, crate::schema_refs::member_path(path, entries[i].0@), depth + 1)->Ok_0.contains(
                x,
            ) ==> #[trigger] refs_in(JsonValue::Object(entries), path, depth)->Ok_0.contains(x),
{
    let o = own_refs(entries@, path)->Ok_0;
    lemma_members_refs_contain(entries, 0, path, depth, i);
    let b = refs_in_members(entries, 0, path, depth)->Ok_0;
    let child = refs_in(entries[i].1, crate::schema_refs::member_path(path, entries[i].0@), depth + 1)->Ok_0;
    let whole = refs_in(JsonValue::Object(entries), path, depth)->Ok_0;
    assert(whole == o + b);
    assert forall|x: Seq<char>| child.contains(x) implies #[trigger] whole.contains(x) by {
        assert(b.contains(x));
        let q = choose|q: int| 0 <= q < b.len() && b[q] == x;
        assert((o + b)[o.len() + q] == x);
    }
}

proof fn lemma_items_refs_contain(items: Vec<JsonValue>, j: nat, path: Seq<char>, depth: nat, i: int)
    requires
        j <= i < items.len(),
        refs_in_items(items, j, path, depth) is Ok,
    ensures
        refs_in(items[i], crate::schema_refs::item_path(path, i as nat), depth + 1) is Ok,
        forall|x: Seq<char>|
            refs_in(items[i], crate::schema_refs::item_path(path, i as nat), depth + 1)->Ok_0.contains(x)
                ==> #[trigger] refs_in_items(items, j, path, depth)->Ok_0.contains(x),
    decreases i - j,
{
    let a = refs_in(items[j as int], crate::schema_refs::item_path(path, j), depth + 1)->Ok_0;
    let rest = refs_in_items(items, j + 1, path, depth)->Ok_0;
    let child = refs_in(items[i], crate::schema_refs::item_path(path, i as nat), depth + 1)->Ok_0;
    let whole = refs_in_items(items, j, path, depth)->Ok_0;
    assert(whole == a + rest);
    if j < i {
        lemma_items_refs_contain(items, j + 1, path, depth, i);
        assert forall|x: Seq<char>| child.contains(x) implies #[trigger] whole.contains(x) by {
            assert(rest.contains(x));
            let q = choose|q: int| 0 <= q < rest.len() && rest[q] == x;
            assert((a + rest)[a.len() + q] == x);
        }
    } else {
        assert forall|x: Seq<char>| child.contains(x) implies #[trigger] whole.contains(x) by {
            let q = choose|q: int| 0 <= q < a.len() && a[q] == x;
            assert((a + rest)[q] == x);
        }
    }
}

/// Every reference found inside an item of an array is reported for the
/// array too.
pub proof fn lemma_item_refs_reported(items: Vec<JsonValue>, path: Seq<char>, depth: nat, i: int)
    requires
        refs_in(JsonValue::Array(items), path, depth) is Ok,
        0 <= i < items.len(),
    ensures
        refs_in(items[i], crate::schema_refs::item_path(path, i as nat), depth + 1) is Ok,
        forall|x: Seq<char>|
            refs_in(items[i], crate::schema_refs::item_path(path, i as nat), depth + 1)->Ok_0.contains(x)
                ==> #[trigger] refs_in(JsonValue::Array(items), path, depth)->Ok_0.contains(x),
{
    lemma_items_refs_contain(items, 0, path, depth, i);
}

/// An object's own `gts://` reference is reported: the identifier it names
/// is among the references found in the object.
pub proof fn lemma_own_ref_reported(entries: Vec<(String, JsonValue)>, path: Seq<char>, depth: nat, id: Seq<char>)
    requires
        refs_in(JsonValue::Object(entries), path, depth) is Ok,
        crate::schema_refs::first_ref_value(entries@) matches Some(r) && spec_classify_ref(r) == Ok::<
            RefKindModel,
            crate::schema_refs::RefReasonModel,
        >(RefKindModel::External(id)),
    ensures
        refs_in(JsonValue::Object(entries), path, depth)->Ok_0.contains(id),
{
    let b = refs_in_members(entries, 0, path, depth)->Ok_0;
    assert((seq![id] + b)[0] == id);
}

} // verus!

verus! {

/// Whether scanning `v` succeeds and finds reference `x`.
pub open spec fn found_ref(v: JsonValue, path: Seq<char>, depth: nat, x: Seq<char>) -> bool {
    refs_in(v, path, depth) is Ok && refs_in(v, path, depth)->Ok_0.contains(x)
}

/// An object without a resolving local `$ref` keeps its member names, each
/// member's value inlined in turn.
pub proof fn lemma_inline_plain_object(es: Seq<(Seq<char>, JsonModel)>, root: JsonModel, depth: nat, k: Seq<char>)
    requires
        depth < 64,
        distinct_keys(es),
        crate::schema_traits::local_ref_target(JsonModel::Object(es), root) is None,
    ensures
        ({
            let r = crate::schema_traits::inlined(JsonModel::Object(es), root, depth);
            &&& r is Object
            &&& member(r->Object_0, k) == match member(es, k) {
                Some(v) => Some(crate::schema_traits::inlined(v, root, depth + 1)),
                None => None::<JsonModel>,
            }
        }),
{
    assert(es.take(es.len() as int) =~= es);
    lemma_member_index_first(Seq::<(Seq<char>, JsonModel)>::empty(), k);
    lemma_inlined_members_at(Seq::<(Seq<char>, JsonModel)>::empty(), es, es.len(), root, depth, false, k);
}

/// An array is inlined item by item, keeping its length.
pub proof fn lemma_inline_array(items: Seq<JsonModel>, root: JsonModel, depth: nat)
    requires
        depth < 64,
    ensures
        crate::schema_traits::inlined(JsonModel::Array(items), root, depth) == JsonModel::Array(
            items.map_values(|x: JsonModel| crate::schema_traits::inlined(x, root, depth + 1)),
        ),
{
    lemma_inlined_items_all(items, items.len(), root, depth);
    assert(items.take(items.len() as int) =~= items);
}

proof fn lemma_inlined_items_all(items: Seq<JsonModel>, n: nat, root: JsonModel, depth: nat)
    requires
        depth < 64,
        n <= items.len(),
    ensures
        crate::schema_traits::inlined_items(items, n, root, depth) == items.take(n as int).map_values(
            |x: JsonModel| crate::schema_traits::inlined(x, root, depth + 1),
        ),
    decreases n,
{
    let f = |x: JsonModel| crate::schema_traits::inlined(x, root, depth + 1);
    if n == 0 {
        assert(items.take(0).map_values(f) =~= Seq::<JsonModel>::empty());
    } else {
        lemma_inlined_items_all(items, (n - 1) as nat, root, depth);
        assert(items.take(n as int).map_values(f) =~= items.take(n - 1).map_values(f).push(f(items[n - 1])));
    }
}

/// Removing `required` constraints leaves every value that is not an
/// object as it is.
pub proof fn lemma_strip_required_non_object(m: JsonModel, depth: nat)
    requires
        !(m is Object),
    ensures
        crate::schema_traits::strip_required(m, depth) == m,
{
}

/// Every reference reported for an object is its own `gts://` reference
/// or one found inside one of its schema-valued members (any member but
/// `$ref`, `const`, `default`, `examples` and `enum`); nothing is reported
/// from instance data.
pub proof fn lemma_object_refs_sources(entries: Vec<(String, JsonValue)>, path: Seq<char>, depth: nat, x: Seq<char>)
    requires
        refs_in(JsonValue::Object(entries), path, depth) is Ok,
        refs_in(JsonValue::Object(entries), path, depth)->Ok_0.contains(x),
    ensures
        own_refs(entries@, path) == Ok::<Seq<Seq<char>>, crate::schema_refs::RefsFault>(seq![x]) || exists|i: int|
            0 <= i < entries.len() && schema_valued_key(entries[i].0@) && found_ref(#[trigger] entries[i].1,
                crate::schema_refs::member_path(path, entries[i].0@),
                depth + 1, x),
{
    let o = own_refs(entries@, path)->Ok_0;
    let b = refs_in_members(entries, 0, path, depth)->Ok_0;
    assert(refs_in(JsonValue::Object(entries), path, depth)->Ok_0 == o + b);
    let q = choose|q: int| 0 <= q < (o + b).len() && (o + b)[q] == x;
    if q >= o.len() {
        assert(b[q - o.len()] == x);
        lemma_members_refs_sources(entries, 0, path, depth, x);
    } else {
        assert(o.len() <= 1);
        assert(o == seq![x]);
    }
}

proof fn lemma_members_refs_sources(entries: Vec<(String, JsonValue)>, j: nat, path: Seq<char>, depth: nat, x: Seq<char>)
    requires
        refs_in_members(entries, j, path, depth) is Ok,
        refs_in_members(entries, j, path, depth)->Ok_0.contains(x),
    ensures
        exists|i: int|
            j <= i < entries.len() && schema_valued_key(entries[i].0@) && found_ref(#[trigger] entries[i].1,
                crate::schema_refs::member_path(path, entries[i].0@),
                depth + 1, x),
    decreases entries.len() - j,
{
    let key = entries[j as int].0@;
    let whole = refs_in_members(entries, j, path, depth)->Ok_0;
    if j < entries.len() {
        if crate::schema_refs::skipped_key(key) {
            lemma_members_refs_sources(entries, j + 1, path, depth, x);
        } else {
            let a = refs_in(entries[j as int].1, crate::schema_refs::member_path(path, key), depth + 1)->Ok_0;
            let rest = refs_in_members(entries, j + 1, path, depth)->Ok_0;
            assert(whole == a + rest);
            let q = choose|q: int| 0 <= q < whole.len() && whole[q] == x;
            if q < a.len() {
                assert(a[q] == x);
                assert(a.contains(x));
                assert(schema_valued_key(key));
                let e = entries[j as int].1;
                assert(found_ref(e, crate::schema_refs::member_path(path, entries[j as int].0@), depth + 1, x));
            } else {
                assert(rest[q - a.len()] == x);
                lemma_members_refs_sources(entries, j + 1, path, depth, x);
            }
        }
    }
}

/// Every reference reported for an array is found inside one of its items.
pub proof fn lemma_array_refs_sources(items: Vec<JsonValue>, path: Seq<char>, depth: nat, x: Seq<char>)
    requires
        refs_in(JsonValue::Array(items), path, depth) is Ok,
        refs_in(JsonValue::Array(items), path, depth)->Ok_0.contains(x),
    ensures
        exists|i: int|
            0 <= i < items.len() && found_ref(#[trigger] items[i], crate::schema_refs::item_path(path, i as nat), depth + 1, x),
{
    lemma_items_refs_sources(items, 0, path, depth, x);
}

proof fn lemma_items_refs_sources(items: Vec<JsonValue>, j: nat, path: Seq<char>, depth: nat, x: Seq<char>)
    requires
        refs_in_items(items, j, path, depth) is Ok,
        refs_in_items(items, j, path, depth)->Ok_0.contains(x),
    ensures
        exists|i: int|
            j <= i < items.len() && found_ref(#[trigger] items[i], crate::schema_refs::item_path(path, i as nat), depth + 1, x),
    decreases items.len() - j,
{
    if j < items.len() {
        let a = refs_in(items[j as int], crate::schema_refs::item_path(path, j), depth + 1)->Ok_0;
        let rest = refs_in_items(items, j + 1, path, depth)->Ok_0;
        let whole = refs_in_items(items, j, path, depth)->Ok_0;
        assert(whole == a + rest);
        let q = choose|q: int| 0 <= q < whole.len() && whole[q] == x;
        if q < a.len() {
            assert(a[q] == x);
            assert(a.contains(x));
            assert(found_ref(items[j as int], crate::schema_refs::item_path(path, j as int as nat), depth + 1, x));
        } else {
            assert(rest[q - a.len()] == x);
            lemma_items_refs_sources(items, j + 1, path, depth, x);
        }
    }
}

} // verus!
