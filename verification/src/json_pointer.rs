//! JSON Pointer (RFC 6901) lookup in a JSON value: the pointer is split at
//! `/`, each token is unescaped (`~1` to `/`, then `~0` to `~`), objects
//! are entered by member name and arrays by a canonical decimal index.

use vstd::prelude::*;
use vstd::string::*;

use crate::json::{json_model, lemma_array_model, lemma_object_model, member, member_position, JsonModel, JsonValue};
use crate::text::{chars_of, digits_value, is_ascii_digit, is_canonical_numeral, split_char, split_ranges};

verus! {

broadcast use vstd::string::group_string_axioms;

/// `s` with each occurrence of the pair `a b`, read left to right without
/// overlap, replaced by `w`.
pub open spec fn replace_pair(s: Seq<char>, a: char, b: char, w: char) -> Seq<char>
    decreases s.len(),
{
    if s.len() < 2 {
        s
    } else if s[0] == a && s[1] == b {
        seq![w] + replace_pair(s.skip(2), a, b, w)
    } else {
        seq![s[0]] + replace_pair(s.skip(1), a, b, w)
    }
}

/// A pointer token with its escapes undone: `~1` becomes `/`, then `~0`
/// becomes `~`.
pub open spec fn unescape_token(t: Seq<char>) -> Seq<char> {
    replace_pair(replace_pair(t, '~', '1', '/'), '~', '0', '~')
}

/// The array index a token denotes: its canonical decimal numeral (no
/// sign, no redundant leading zero) of a value that fits in `usize`.
pub open spec fn token_index(t: Seq<char>) -> Option<nat> {
    if is_canonical_numeral(t) && digits_value(t) <= usize::MAX {
        Some(digits_value(t))
    } else {
        None
    }
}

/// The value that one token selects inside `m`.
pub open spec fn pointer_step(m: JsonModel, token: Seq<char>) -> Option<JsonModel> {
    match m {
        JsonModel::Object(es) => member(es, token),
        JsonModel::Array(items) => match token_index(token) {
            Some(i) => if i < items.len() {
                Some(items[i as int])
            } else {
                None
            },
            None => None,
        },
        _ => None,
    }
}

/// The value that the tokens select, one after another, from `m`.
pub open spec fn resolve_tokens(m: JsonModel, tokens: Seq<Seq<char>>) -> Option<JsonModel>
    decreases tokens.len(),
{
    if tokens.len() == 0 {
        Some(m)
    } else {
        match pointer_step(m, tokens[0]) {
            Some(n) => resolve_tokens(n, tokens.drop_first()),
            None => None,
        }
    }
}

/// The unescaped tokens of a pointer (the pieces after its leading `/`).
pub open spec fn pointer_tokens(p: Seq<char>) -> Seq<Seq<char>> {
    split_char(p, '/').drop_first().map_values(|t: Seq<char>| unescape_token(t))
}

/// The value that pointer `p` selects in `m`: `m` itself for the empty
/// pointer, nothing for a pointer that does not start with `/`.
pub open spec fn pointer_target(m: JsonModel, p: Seq<char>) -> Option<JsonModel> {
    if p.len() == 0 {
        Some(m)
    } else if p[0] != '/' {
        None
    } else {
        resolve_tokens(m, pointer_tokens(p))
    }
}

/// `s` with each pair `a b` replaced by `w_text` (the one character `w`).
fn replace_pair_str(s: &str, a: char, b: char, w: char, w_text: &str) -> (r: String)
    requires
        w_text@ == seq![w],
    ensures
        r@ == replace_pair(s@, a, b, w),
{
    let n = s.unicode_len();
    let mut out = String::new();
    let mut i: usize = 0;
    assert(s@.skip(0) =~= s@);
    while i < n
        invariant
            n == s@.len(),
            i <= n,
            w_text@ == seq![w],
            out@ + replace_pair(s@.skip(i as int), a, b, w) == replace_pair(s@, a, b, w),
        decreases n - i,
    {
        let ghost rest = s@.skip(i as int);
        let ghost before = out@;
        if i + 1 < n && s.get_char(i) == a && s.get_char(i + 1) == b {
            out.append(w_text);
            proof {
                assert(rest[0] == a && rest[1] == b);
                assert(rest.skip(2) =~= s@.skip(i + 2));
                assert(out@ + replace_pair(s@.skip(i + 2), a, b, w) =~= before + replace_pair(rest, a, b, w));
            }
            i = i + 2;
        } else {
            out.append(s.substring_char(i, i + 1));
            proof {
                assert(rest[0] == s@[i as int]);
                assert(rest.skip(1) =~= s@.skip(i + 1));
                if rest.len() < 2 {
                    assert(rest =~= seq![s@[i as int]]);
                    assert(s@.skip(i + 1) =~= Seq::<char>::empty());
                }
                assert(out@ + replace_pair(s@.skip(i + 1), a, b, w) =~= before + replace_pair(rest, a, b, w));
            }
            i = i + 1;
        }
    }
    assert(s@.skip(n as int) =~= Seq::<char>::empty());
    assert(out@ + Seq::<char>::empty() =~= out@);
    out
}

/// A pointer token with its escapes undone.
pub fn unescape(token: &str) -> (r: String)
    ensures
        r@ == unescape_token(token@),
{
    proof {
        reveal_strlit("/");
        reveal_strlit("~");
        assert("/"@ =~= seq!['/']);
        assert("~"@ =~= seq!['~']);
    }
    let once = replace_pair_str(token, '~', '1', '/', "/");
    replace_pair_str(once.as_str(), '~', '0', '~', "~")
}

proof fn lemma_digits_value_prefix_mono(s: Seq<char>, j: int, k: int)
    requires
        0 <= j <= k <= s.len(),
    ensures
        digits_value(s.take(j)) <= digits_value(s.take(k)),
    decreases k - j,
{
    if j < k {
        lemma_digits_value_prefix_mono(s, j, k - 1);
        assert(s.take(k).drop_last() =~= s.take(k - 1));
    }
}

/// The array index a token denotes, if any.
pub fn parse_index(token: &str) -> (r: Option<usize>)
    ensures
        match r {
            Some(i) => token_index(token@) == Some(i as nat),
            None => token_index(token@) is None,
        },
{
    let t = chars_of(token);
    let n = t.len();
    if n == 0 {
        return None;
    }
    if n > 1 && t[0] == '0' {
        return None;
    }
    let mut acc: u128 = 0;
    let mut i: usize = 0;
    assert(t@.take(0) =~= Seq::<char>::empty());
    while i < n
        invariant
            n == t@.len(),
            t@ == token@,
            0 < n,
            i <= n,
            n == 1 || t@[0] != '0',
            forall|k: int| 0 <= k < i ==> is_ascii_digit(#[trigger] t@[k]),
            acc == digits_value(t@.take(i as int)),
            acc <= usize::MAX,
        decreases n - i,
    {
        let c = t[i];
        if !('0' <= c && c <= '9') {
            assert(!is_canonical_numeral(t@));
            return None;
        }
        let d = (c as u128) - 48;
        proof {
            assert(t@.take(i + 1).drop_last() =~= t@.take(i as int));
        }
        acc = acc * 10 + d;
        if acc > usize::MAX as u128 {
            proof {
                if is_canonical_numeral(t@) {
                    lemma_digits_value_prefix_mono(t@, i + 1, n as int);
                    assert(t@.take(n as int) =~= t@);
                }
            }
            return None;
        }
        i = i + 1;
    }
    assert(t@.take(n as int) =~= t@);
    Some(acc as usize)
}

impl JsonValue {
    /// The value that JSON Pointer `p` selects in this value, if any.
    pub fn pointer(&self, p: &str) -> (r: Option<&JsonValue>)
        ensures
            match r {
                Some(v) => pointer_target(json_model(*self), p@) == Some(json_model(*v)),
                None => pointer_target(json_model(*self), p@) is None,
            },
    {
        let cs = chars_of(p);
        if cs.len() == 0 {
            return Some(self);
        }
        if cs[0] != '/' {
            return None;
        }
        let ranges = split_ranges(&cs, 0, cs.len(), '/');
        let ghost pieces = split_char(p@, '/');
        let ghost tokens = pointer_tokens(p@);
        assert(cs@.subrange(0, cs@.len() as int) =~= p@);
        assert(pieces.len() == ranges@.len());
        assert(tokens.len() == pieces.len() - 1);
        let mut cur: &JsonValue = self;
        let mut k: usize = 1;
        assert(tokens.skip(0) =~= tokens);
        while k < ranges.len()
            invariant
                1 <= k <= ranges@.len(),
                cs@ == p@,
                pieces == split_char(p@, '/'),
                tokens == pointer_tokens(p@),
                pieces.len() == ranges@.len(),
                tokens.len() == pieces.len() - 1,
                forall|j: int|
                    0 <= j < ranges@.len() ==> {
                        &&& 0 <= #[trigger] ranges@[j].0 <= ranges@[j].1 <= cs@.len()
                        &&& cs@.subrange(ranges@[j].0 as int, ranges@[j].1 as int) == pieces[j]
                    },
                pointer_target(json_model(*self), p@) == resolve_tokens(
                    json_model(*cur),
                    tokens.skip(k - 1),
                ),
            decreases ranges.len() - k,
        {
            let (from, to) = ranges[k];
            let raw = p.substring_char(from, to);
            let token = unescape(raw);
            let ghost rest = tokens.skip(k - 1);
            proof {
                assert(raw@ == pieces[k as int]);
                assert(tokens[k - 1] == unescape_token(pieces[k as int]));
                assert(rest[0] == token@);
                assert(rest.drop_first() =~= tokens.skip(k as int));
            }
            match cur {
                JsonValue::Object(es) => {
                    proof {
                        lemma_object_model(*es);
                    }
                    match member_position(es, token.as_str()) {
                        Some(i) => {
                            cur = &es[i].1;
                        },
                        None => {
                            return None;
                        },
                    }
                },
                JsonValue::Array(items) => {
                    proof {
                        lemma_array_model(*items);
                    }
                    match parse_index(token.as_str()) {
                        Some(i) => {
                            if i < items.len() {
                                cur = &items[i];
                            } else {
                                return None;
                            }
                        },
                        None => {
                            return None;
                        },
                    }
                },
                _ => {
                    return None;
                },
            }
            k = k + 1;
        }
        assert(tokens.skip(k - 1) =~= Seq::<Seq<char>>::empty());
        Some(cur)
    }
}

} // verus!
