//! Character-level building blocks: the models of splitting, counting,
//! trimming and decimal numerals that the identifier grammar is stated in,
//! and the executable helpers proved against them.

use vstd::prelude::*;
use vstd::std_specs::iter::IteratorSpec;
use vstd::string::*;

verus! {

broadcast use vstd::string::group_string_axioms;

pub open spec fn is_ascii_lower(c: char) -> bool {
    'a' <= c && c <= 'z'
}

pub open spec fn is_ascii_digit(c: char) -> bool {
    '0' <= c && c <= '9'
}

pub open spec fn is_ascii_hex(c: char) -> bool {
    is_ascii_digit(c) || ('a' <= c && c <= 'f') || ('A' <= c && c <= 'F')
}

/// Unicode `White_Space`, the set that `char::is_whitespace` tests.
pub open spec fn is_unicode_whitespace(c: char) -> bool {
    ||| ('\u{9}' <= c && c <= '\u{d}')
    ||| c == ' '
    ||| c == '\u{85}'
    ||| c == '\u{a0}'
    ||| c == '\u{1680}'
    ||| ('\u{2000}' <= c && c <= '\u{200a}')
    ||| c == '\u{2028}'
    ||| c == '\u{2029}'
    ||| c == '\u{202f}'
    ||| c == '\u{205f}'
    ||| c == '\u{3000}'
}

/// Number of occurrences of `c` in `s`.
pub open spec fn count_char(s: Seq<char>, c: char) -> nat
    decreases s.len(),
{
    if s.len() == 0 {
        0
    } else {
        count_char(s.drop_last(), c) + if s.last() == c {
            1nat
        } else {
            0nat
        }
    }
}

/// The pieces of `s` between occurrences of `c` (what `str::split` yields):
/// always at least one piece, possibly empty ones.
pub open spec fn split_char(s: Seq<char>, c: char) -> Seq<Seq<char>>
    decreases s.len(),
{
    if s.len() == 0 {
        seq![Seq::<char>::empty()]
    } else {
        let p = split_char(s.drop_last(), c);
        if s.last() == c {
            p.push(Seq::<char>::empty())
        } else {
            p.update(p.len() - 1, p.last().push(s.last()))
        }
    }
}

/// `s` with leading Unicode whitespace removed.
pub open spec fn trim_start(s: Seq<char>) -> Seq<char>
    decreases s.len(),
{
    if s.len() > 0 && is_unicode_whitespace(s[0]) {
        trim_start(s.drop_first())
    } else {
        s
    }
}

/// `s` with trailing Unicode whitespace removed.
pub open spec fn trim_end(s: Seq<char>) -> Seq<char>
    decreases s.len(),
{
    if s.len() > 0 && is_unicode_whitespace(s.last()) {
        trim_end(s.drop_last())
    } else {
        s
    }
}

/// What `str::trim` yields.
pub open spec fn trim(s: Seq<char>) -> Seq<char> {
    trim_end(trim_start(s))
}

pub open spec fn digit_char(d: nat) -> char {
    (d + 48) as char
}

/// Canonical base-ten numeral of `n` (no sign, no leading zeros).
pub open spec fn decimal(n: nat) -> Seq<char>
    decreases n,
{
    if n < 10 {
        seq![digit_char(n)]
    } else {
        decimal(n / 10).push(digit_char(n % 10))
    }
}

/// Value of a string of ASCII digits, read in base ten.
pub open spec fn digits_value(s: Seq<char>) -> nat
    decreases s.len(),
{
    if s.len() == 0 {
        0
    } else {
        digits_value(s.drop_last()) * 10 + ((s.last() as nat) - 48) as nat
    }
}

/// A non-empty run of ASCII digits without a redundant leading zero.
pub open spec fn is_canonical_numeral(s: Seq<char>) -> bool {
    &&& s.len() > 0
    &&& forall|i: int| 0 <= i < s.len() ==> is_ascii_digit(#[trigger] s[i])
    &&& (s.len() == 1 || s[0] != '0')
}

/// Length of the UTF-8 encoding of `s`.
pub open spec fn utf8_len(s: Seq<char>) -> nat {
    vstd::utf8::encode_utf8(s).len()
}

pub proof fn lemma_split_char_nonempty(s: Seq<char>, c: char)
    ensures
        split_char(s, c).len() >= 1,
    decreases s.len(),
{
    if s.len() > 0 {
        lemma_split_char_nonempty(s.drop_last(), c);
    }
}

/// The pieces joined back with `c` between consecutive ones.
pub open spec fn join_char(ps: Seq<Seq<char>>, c: char) -> Seq<char>
    decreases ps.len(),
{
    if ps.len() == 0 {
        Seq::<char>::empty()
    } else if ps.len() == 1 {
        ps[0]
    } else {
        join_char(ps.drop_last(), c) + seq![c] + ps.last()
    }
}

/// Splitting at `c` and joining back with `c` gives the text back.
pub proof fn lemma_split_join(s: Seq<char>, c: char)
    ensures
        join_char(split_char(s, c), c) == s,
    decreases s.len(),
{
    if s.len() == 0 {
    } else {
        let d = s.drop_last();
        lemma_split_join(d, c);
        lemma_split_char_nonempty(d, c);
        let p = split_char(d, c);
        let q = split_char(s, c);
        if s.last() == c {
            assert(q.drop_last() =~= p);
            assert(s =~= d + seq![c] + Seq::<char>::empty());
        } else if p.len() == 1 {
            assert(q[0] == p[0].push(s.last()));
            assert(s =~= d.push(s.last()));
        } else {
            assert(q.drop_last() =~= p.drop_last());
            assert(q.last() == p.last().push(s.last()));
            assert(join_char(q, c) =~= join_char(p.drop_last(), c) + seq![c] + p.last().push(s.last()));
            assert(s =~= (join_char(p.drop_last(), c) + seq![c] + p.last()).push(s.last()));
        }
    }
}

/// Joining a first piece in front of others puts `c` between them.
pub proof fn lemma_join_front(a: Seq<char>, rest: Seq<Seq<char>>, c: char)
    requires
        rest.len() > 0,
    ensures
        join_char(seq![a] + rest, c) == a + seq![c] + join_char(rest, c),
    decreases rest.len(),
{
    let all = seq![a] + rest;
    if rest.len() == 1 {
        assert(all.drop_last() =~= seq![a]);
        assert(all.last() == rest[0]);
        assert(join_char(seq![a], c) == a);
        assert(join_char(rest, c) == rest[0]);
    } else {
        lemma_join_front(a, rest.drop_last(), c);
        assert(all.drop_last() =~= seq![a] + rest.drop_last());
        assert(all.last() == rest.last());
        assert(join_char(rest, c) == join_char(rest.drop_last(), c) + seq![c] + rest.last());
        assert(join_char(all, c) == join_char(all.drop_last(), c) + seq![c] + all.last());
        assert(join_char(all, c) =~= a + seq![c] + (join_char(rest.drop_last(), c) + seq![c] + rest.last()));
    }
}

/// `c` does not occur in `s`.
pub open spec fn lacks(s: Seq<char>, c: char) -> bool {
    forall|i: int| 0 <= i < s.len() ==> #[trigger] s[i] != c
}

/// A character other than the separator occurs in no piece exactly when it
/// does not occur in the text.
pub proof fn lemma_split_lacks(s: Seq<char>, sep: char, c: char)
    requires
        c != sep,
    ensures
        lacks(s, c) <==> forall|k: int|
            0 <= k < split_char(s, sep).len() ==> lacks(#[trigger] split_char(s, sep)[k], c),
    decreases s.len(),
{
    lemma_split_char_nonempty(s, sep);
    if s.len() > 0 {
        let d = s.drop_last();
        let p = split_char(d, sep);
        lemma_split_lacks(d, sep, c);
        lemma_split_char_nonempty(d, sep);
        let q = split_char(s, sep);
        if lacks(s, c) {
            assert(lacks(d, c)) by {
                assert forall|i: int| 0 <= i < d.len() implies d[i] != c by {
                    assert(d[i] == s[i]);
                }
            }
            assert forall|k: int| 0 <= k < q.len() implies lacks(#[trigger] q[k], c) by {
                if s.last() == sep {
                    if k < p.len() {
                        assert(q[k] == p[k]);
                    } else {
                        assert(q[k] =~= Seq::<char>::empty());
                    }
                } else if k < p.len() - 1 {
                    assert(q[k] == p[k]);
                } else {
                    assert(q[k] == p.last().push(s.last()));
                    assert(lacks(p[p.len() - 1], c));
                    assert forall|i: int| 0 <= i < q[k].len() implies q[k][i] != c by {
                        if i < p.last().len() {
                            assert(q[k][i] == p.last()[i]);
                        } else {
                            assert(q[k][i] == s.last());
                        }
                    }
                }
            }
        } else if forall|k: int| 0 <= k < q.len() ==> lacks(#[trigger] q[k], c) {
            assert(lacks(d, c)) by {
                assert forall|k: int| 0 <= k < p.len() implies lacks(#[trigger] p[k], c) by {
                    if s.last() == sep || k < p.len() - 1 {
                        assert(q[k] == p[k]);
                    } else {
                        let l = q[k];
                        assert(l == p.last().push(s.last()));
                        assert(lacks(l, c));
                        assert forall|i: int| 0 <= i < p[k].len() implies p[k][i] != c by {
                            assert(l[i] == p[k][i]);
                        }
                    }
                }
            }
            if s.last() != sep {
                let l = q[p.len() - 1];
                assert(l == p.last().push(s.last()));
                assert(lacks(l, c));
                assert(l[l.len() - 1] == s.last());
            }
            assert forall|i: int| 0 <= i < s.len() implies s[i] != c by {
                if i < d.len() {
                    assert(s[i] == d[i]);
                }
            }
        }
    }
}

/// `c` occurs nowhere in `s` exactly when it is counted zero times.
pub proof fn lemma_count_zero_lacks(s: Seq<char>, c: char)
    ensures
        (count_char(s, c) == 0) <==> lacks(s, c),
    decreases s.len(),
{
    if s.len() > 0 {
        let d = s.drop_last();
        lemma_count_zero_lacks(d, c);
        if lacks(s, c) {
            assert forall|i: int| 0 <= i < d.len() implies d[i] != c by {
                assert(d[i] == s[i]);
            }
            assert(s[s.len() - 1] != c);
        }
        if count_char(s, c) == 0 {
            assert forall|i: int| 0 <= i < s.len() implies s[i] != c by {
                if i < d.len() {
                    assert(s[i] == d[i]);
                }
            }
        }
    }
}

/// Copies the characters of `s` into a vector, in order.
pub fn chars_of(s: &str) -> (r: Vec<char>)
    ensures
        r@ == s@,
{
    let mut v: Vec<char> = Vec::new();
    for c in iter: s.chars()
        invariant
            v@ == iter.seq().take(iter.index() as int),
    {
        v.push(c);
    }
    assert(v@ =~= s@);
    v
}

/// The characters of `s` from index `from` (inclusive) to `to` (exclusive),
/// as an owned string.
pub fn substring(s: &str, from: usize, to: usize) -> (r: String)
    requires
        from <= to <= s@.len(),
    ensures
        r@ == s@.subrange(from as int, to as int),
{
    s.substring_char(from, to).to_owned()
}

/// Number of occurrences of `c` among `cs[from..to]`.
pub fn count_in(cs: &Vec<char>, from: usize, to: usize, c: char) -> (r: usize)
    requires
        from <= to <= cs@.len(),
    ensures
        r == count_char(cs@.subrange(from as int, to as int), c),
{
    let mut n: usize = 0;
    let mut i = from;
    assert(cs@.subrange(from as int, from as int) =~= Seq::<char>::empty());
    while i < to
        invariant
            from <= i <= to <= cs@.len(),
            n == count_char(cs@.subrange(from as int, i as int), c),
            n <= i - from,
        decreases to - i,
    {
        assert(cs@.subrange(from as int, i + 1).drop_last() =~= cs@.subrange(from as int, i as int));
        if cs[i] == c {
            n = n + 1;
        }
        i = i + 1;
    }
    n
}

/// Splits `cs[from..to]` at every `c`, returning the index range of each
/// piece within `cs`.
pub fn split_ranges(cs: &Vec<char>, from: usize, to: usize, c: char) -> (r: Vec<(usize, usize)>)
    requires
        from <= to <= cs@.len(),
    ensures
        r@.len() == split_char(cs@.subrange(from as int, to as int), c).len(),
        r@.len() >= 1,
        r@[0].0 == from,
        r@.last().1 == to,
        forall|k: int|
            0 <= k < r@.len() ==> {
                &&& from <= #[trigger] r@[k].0 <= r@[k].1 <= to
                &&& cs@.subrange(r@[k].0 as int, r@[k].1 as int) == split_char(
                    cs@.subrange(from as int, to as int),
                    c,
                )[k]
            },
        forall|k: int|
            0 <= k < r@.len() - 1 ==> {
                &&& cs@[#[trigger] r@[k].1 as int] == c
                &&& r@[k + 1].0 == r@[k].1 + 1
            },
{
    let mut r: Vec<(usize, usize)> = Vec::new();
    let mut cur = from;
    let mut i = from;
    assert(cs@.subrange(from as int, from as int) =~= Seq::<char>::empty());
    assert(cs@.subrange(from as int, from as int) =~= Seq::<char>::empty());
    while i < to
        invariant
            from <= cur <= i <= to <= cs@.len(),
            r@.len() + 1 == split_char(cs@.subrange(from as int, i as int), c).len(),
            forall|k: int|
                0 <= k < r@.len() ==> {
                    &&& from <= #[trigger] r@[k].0 <= r@[k].1 < cur
                    &&& cs@.subrange(r@[k].0 as int, r@[k].1 as int) == split_char(
                        cs@.subrange(from as int, i as int),
                        c,
                    )[k]
                    &&& cs@[r@[k].1 as int] == c
                },
            cs@.subrange(cur as int, i as int) == split_char(
                cs@.subrange(from as int, i as int),
                c,
            )[r@.len() as int],
            r@.len() == 0 ==> cur == from,
            r@.len() > 0 ==> r@[0].0 == from && cur == r@.last().1 + 1,
            forall|k: int| 0 <= k < r@.len() - 1 ==> r@[k + 1].0 == #[trigger] r@[k].1 + 1,
        decreases to - i,
    {
        let ghost old_split = split_char(cs@.subrange(from as int, i as int), c);
        let ghost old_r = r@;
        proof {
            lemma_split_char_nonempty(cs@.subrange(from as int, i as int), c);
            assert(cs@.subrange(from as int, i + 1).drop_last() =~= cs@.subrange(
                from as int,
                i as int,
            ));
        }
        if cs[i] == c {
            r.push((cur, i));
            cur = i + 1;
            proof {
                let ns = split_char(cs@.subrange(from as int, i + 1), c);
                assert(ns == old_split.push(Seq::<char>::empty()));
                assert(cs@.subrange(cur as int, i + 1) =~= Seq::<char>::empty());
                assert forall|k: int| 0 <= k < r@.len() implies {
                    &&& from <= #[trigger] r@[k].0 <= r@[k].1 < cur
                    &&& cs@.subrange(r@[k].0 as int, r@[k].1 as int) == ns[k]
                    &&& cs@[r@[k].1 as int] == c
                } by {
                    if k < old_r.len() {
                        assert(r@[k] == old_r[k]);
                    }
                }
            }
        } else {
            proof {
                let ns = split_char(cs@.subrange(from as int, i + 1), c);
                assert(ns == old_split.update(
                    old_split.len() - 1,
                    old_split.last().push(cs@[i as int]),
                ));
                assert(cs@.subrange(cur as int, i + 1) =~= cs@.subrange(cur as int, i as int).push(
                    cs@[i as int],
                ));
            }
        }
        i = i + 1;
    }
    let ghost before = r@;
    r.push((cur, to));
    proof {
        assert forall|k: int| 0 <= k < r@.len() - 1 implies {
            &&& cs@[#[trigger] r@[k].1 as int] == c
            &&& r@[k + 1].0 == r@[k].1 + 1
        } by {
            assert(r@[k] == before[k]);
            assert(from <= before[k].0);
            if k < before.len() - 1 {
                assert(r@[k + 1] == before[k + 1]);
            }
        }
    }
    r
}

} // verus!

verus! {

/// The one-character string holding the digit `d`.
pub fn digit_str(d: usize) -> (r: &'static str)
    requires
        d < 10,
    ensures
        r@ == seq![digit_char(d as nat)],
{
    let digits = "0123456789";
    proof {
        reveal_strlit("0123456789");
        assert(digits@ =~= seq!['0', '1', '2', '3', '4', '5', '6', '7', '8', '9']);
    }
    let r = digits.substring_char(d, d + 1);
    proof {
        assert(r@ =~= seq![digits@[d as int]]);
        assert(digits@[d as int] == digit_char(d as nat)) by {
            if d == 0 {} else if d == 1 {} else if d == 2 {} else if d == 3 {} else if d == 4 {}
            else if d == 5 {} else if d == 6 {} else if d == 7 {} else if d == 8 {} else {}
        }
    }
    r
}

/// The canonical base-ten numeral of `n`.
pub fn decimal_string(n: usize) -> (r: String)
    ensures
        r@ == decimal(n as nat),
    decreases n,
{
    if n < 10 {
        String::from_str(digit_str(n))
    } else {
        let mut s = decimal_string(n / 10);
        s.append(digit_str(n % 10));
        s
    }
}

/// Index bounds of `cs` with leading and trailing Unicode whitespace removed.
pub fn trim_bounds(cs: &Vec<char>) -> (r: (usize, usize))
    ensures
        r.0 <= r.1 <= cs@.len(),
        cs@.subrange(r.0 as int, r.1 as int) == trim(cs@),
{
    let mut a: usize = 0;
    assert(cs@.subrange(0, cs@.len() as int) =~= cs@);
    while a < cs.len() && is_whitespace(cs[a])
        invariant
            a <= cs@.len(),
            trim_start(cs@) == trim_start(cs@.subrange(a as int, cs@.len() as int)),
        decreases cs.len() - a,
    {
        assert(cs@.subrange(a as int, cs@.len() as int).drop_first() =~= cs@.subrange(
            a + 1,
            cs@.len() as int,
        ));
        a = a + 1;
    }
    assert(trim_start(cs@) == cs@.subrange(a as int, cs@.len() as int));
    let mut b: usize = cs.len();
    while b > a && is_whitespace(cs[b - 1])
        invariant
            a <= b <= cs@.len(),
            trim_start(cs@) == cs@.subrange(a as int, cs@.len() as int),
            trim(cs@) == trim_end(cs@.subrange(a as int, b as int)),
        decreases b,
    {
        assert(cs@.subrange(a as int, b as int).drop_last() =~= cs@.subrange(a as int, b - 1));
        b = b - 1;
    }
    (a, b)
}

/// `s` without leading and trailing Unicode whitespace, as an owned string.
pub fn trimmed(s: &str) -> (r: String)
    ensures
        r@ == trim(s@),
{
    let cs = chars_of(s);
    let (a, b) = trim_bounds(&cs);
    substring(s, a, b)
}

/// Whether two strings hold the same characters.
pub fn str_eq(a: &str, b: &str) -> (r: bool)
    ensures
        r == (a@ == b@),
{
    let x = a.to_owned();
    let y = b.to_owned();
    x == y
}

/// Whether `s` holds no characters.
pub fn str_is_empty(s: &str) -> (r: bool)
    ensures
        r == (s@.len() == 0),
{
    s.unicode_len() == 0
}

/// `char::is_whitespace`.
pub fn is_whitespace(c: char) -> (r: bool)
    ensures
        r == is_unicode_whitespace(c),
{
    ('\u{9}' <= c && c <= '\u{d}') || c == ' ' || c == '\u{85}' || c == '\u{a0}' || c == '\u{1680}'
        || ('\u{2000}' <= c && c <= '\u{200a}') || c == '\u{2028}' || c == '\u{2029}' || c
        == '\u{202f}' || c == '\u{205f}' || c == '\u{3000}'
}


/// The empty string.
pub fn empty_str() -> (r: &'static str)
    ensures
        r@ == Seq::<char>::empty(),
{
    proof {
        reveal_strlit("");
    }
    ""
}


/// The Unicode lowercase mapping of a string, as `str::to_lowercase`
/// computes it.
pub uninterp spec fn lowercase_text(s: Seq<char>) -> Seq<char>;

/// Whether every character of `s` is ASCII.
pub open spec fn is_ascii_text(s: Seq<char>) -> bool {
    forall|i: int| 0 <= i < s.len() ==> (#[trigger] s[i] as u32) < 128
}

/// The ASCII lowercase of one character: `A`..=`Z` map to `a`..=`z`, any
/// other character is kept.
pub open spec fn ascii_lower_char(c: char) -> char {
    if 'A' <= c && c <= 'Z' {
        ((c as u32) + 32) as char
    } else {
        c
    }
}

/// `s` with each ASCII capital letter made small.
pub open spec fn ascii_lowercase(s: Seq<char>) -> Seq<char> {
    s.map_values(|c: char| ascii_lower_char(c))
}

/// The lowercase mapping of `s`: on ASCII text only the capital letters
/// change; on other text it is what `str::to_lowercase` gives.
pub open spec fn lowercase_of(s: Seq<char>) -> Seq<char> {
    if is_ascii_text(s) {
        ascii_lowercase(s)
    } else {
        lowercase_text(s)
    }
}

/// `str::to_lowercase`, named by [`lowercase_text`]. Of ASCII text it
/// claims what Unicode's lowercase mapping gives there: `A`..=`Z` become
/// `a`..=`z` and every other ASCII character is unchanged.
#[verifier::external_body]
pub(crate) fn to_lowercase_outside(s: &str) -> (r: String)
    ensures
        r@ == lowercase_text(s@),
        is_ascii_text(s@) ==> r@ == ascii_lowercase(s@),
{
    s.to_lowercase()
}

} // verus!
