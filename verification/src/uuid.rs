//! UUIDs of GTS identifiers: the bytes of an anonymous-instance UUID tail,
//! and the deterministic name-based (version 5) UUID of an identifier.

use vstd::prelude::*;
use vstd::string::*;

use crate::parse::uuid_text;
use crate::text::is_ascii_digit;

verus! {

broadcast use vstd::string::group_string_axioms;

/// A UUID, held as its 16 bytes (most significant first).
#[derive(Debug, Clone, Copy, PartialEq, Eq, Hash)]
pub struct GtsUuid {
    bytes: [u8; 16],
}

impl View for GtsUuid {
    type V = Seq<u8>;

    closed spec fn view(&self) -> Seq<u8> {
        self.bytes@
    }
}

/// Value of a hexadecimal digit.
pub open spec fn hex_value(c: char) -> nat {
    if is_ascii_digit(c) {
        (c as nat - 48) as nat
    } else if 'a' <= c && c <= 'f' {
        (c as nat - 87) as nat
    } else if 'A' <= c && c <= 'F' {
        (c as nat - 55) as nat
    } else {
        0
    }
}

/// The 32 hex digits of hyphenated UUID text, dashes removed.
pub open spec fn uuid_hex_digits(s: Seq<char>) -> Seq<char> {
    s.subrange(0, 8) + s.subrange(9, 13) + s.subrange(14, 18) + s.subrange(19, 23) + s.subrange(
        24,
        36,
    )
}

/// The bytes that hyphenated UUID text denotes: each pair of hex digits is
/// one byte, high nibble first.
pub open spec fn uuid_text_bytes(s: Seq<char>) -> Seq<u8> {
    let h = uuid_hex_digits(s);
    Seq::new(16, |i: int| (hex_value(h[2 * i]) * 16 + hex_value(h[2 * i + 1])) as u8)
}

/// The lowercase hex digit for `n < 16`.
pub open spec fn hex_digit_char(n: nat) -> char {
    if n < 10 {
        (n + 48) as char
    } else {
        (n + 87) as char
    }
}

/// Lowercase hex text of bytes, two digits per byte.
pub open spec fn hex_text(b: Seq<u8>) -> Seq<char>
    decreases b.len(),
{
    if b.len() == 0 {
        Seq::<char>::empty()
    } else {
        hex_text(b.drop_last()) + seq![
            hex_digit_char((b.last() / 16) as nat),
            hex_digit_char((b.last() % 16) as nat),
        ]
    }
}

/// The hyphenated lowercase text of a UUID: 8-4-4-4-12 hex digits.
pub open spec fn hyphenated_text(b: Seq<u8>) -> Seq<char> {
    hex_text(b.subrange(0, 4)) + seq!['-'] + hex_text(b.subrange(4, 6)) + seq!['-'] + hex_text(
        b.subrange(6, 8),
    ) + seq!['-'] + hex_text(b.subrange(8, 10)) + seq!['-'] + hex_text(b.subrange(10, 16))
}

/// The bytes of the RFC 4122 namespace for URLs.
pub open spec fn namespace_url_bytes() -> Seq<u8> {
    seq![
        0x6bu8,
        0xa7u8,
        0xb8u8,
        0x11u8,
        0x9du8,
        0xadu8,
        0x11u8,
        0xd1u8,
        0x80u8,
        0xb4u8,
        0x00u8,
        0xc0u8,
        0x4fu8,
        0xd4u8,
        0x30u8,
        0xc8u8,
    ]
}

/// The name-based (SHA-1, version 5) UUID that `uuid::Uuid::new_v5` derives
/// from a namespace UUID and a name.
pub uninterp spec fn uuid_v5_bytes(namespace: Seq<u8>, name: Seq<u8>) -> Seq<u8>;

/// `uuid::Uuid::parse_str` on hyphenated UUID text (8-4-4-4-12 hex digits
/// of either case): it succeeds with the bytes that the hex digits denote,
/// each pair one byte, high nibble first.
#[verifier::external_body]
fn parse_uuid_text_outside(s: &str) -> (r: Option<[u8; 16]>)
    requires
        uuid_text(s@),
    ensures
        r is Some && r->Some_0@ == uuid_text_bytes(s@),
{
    match uuid::Uuid::parse_str(s) {
        Ok(u) => Some(u.into_bytes()),
        Err(_) => None,
    }
}

/// `uuid::Uuid::new_v5`: the version 5 UUID of `name` under `namespace`,
/// named by [`uuid_v5_bytes`].
#[verifier::external_body]
fn new_v5_outside(namespace: [u8; 16], name: &[u8]) -> (r: [u8; 16])
    ensures
        r@ == uuid_v5_bytes(namespace@, name@),
{
    uuid::Uuid::new_v5(&uuid::Uuid::from_bytes(namespace), name).into_bytes()
}

/// `uuid::Uuid::NAMESPACE_URL`, as bytes.
#[verifier::external_body]
fn namespace_url_outside() -> (r: [u8; 16])
    ensures
        r@ == namespace_url_bytes(),
{
    uuid::Uuid::NAMESPACE_URL.into_bytes()
}

/// Parses hyphenated UUID text.
pub fn parse_uuid_text(s: &str) -> (r: Option<GtsUuid>)
    requires
        uuid_text(s@),
    ensures
        r is Some && r->Some_0@ == uuid_text_bytes(s@),
{
    match parse_uuid_text_outside(s) {
        Some(bytes) => Some(GtsUuid { bytes }),
        None => None,
    }
}

/// The bytes of `gts` in UTF-8.
pub open spec fn gts_name_bytes() -> Seq<u8> {
    seq![0x67u8, 0x74u8, 0x73u8]
}

/// The namespace under which GTS identifiers are mapped to UUIDs: the
/// version 5 UUID of the name `gts` in the URL namespace.
pub open spec fn gts_namespace_bytes() -> Seq<u8> {
    uuid_v5_bytes(namespace_url_bytes(), gts_name_bytes())
}

/// The UUID namespace for GTS identifiers.
pub fn gts_namespace() -> (r: GtsUuid)
    ensures
        r@ == gts_namespace_bytes(),
{
    let name: [u8; 3] = [0x67, 0x74, 0x73];
    assert(name@ =~= gts_name_bytes());
    let ns = namespace_url_outside();
    GtsUuid { bytes: new_v5_outside(ns, name.as_slice()) }
}

/// The version 5 UUID of `name` under `namespace`.
pub fn new_v5(namespace: &GtsUuid, name: &[u8]) -> (r: GtsUuid)
    ensures
        r@ == uuid_v5_bytes(namespace@, name@),
{
    GtsUuid { bytes: new_v5_outside(namespace.bytes, name) }
}

fn hex_digit_str(n: u8) -> (r: &'static str)
    requires
        n < 16,
    ensures
        r@ == seq![hex_digit_char(n as nat)],
{
    let digits = "0123456789abcdef";
    proof {
        reveal_strlit("0123456789abcdef");
        assert(digits@ =~= seq![
            '0',
            '1',
            '2',
            '3',
            '4',
            '5',
            '6',
            '7',
            '8',
            '9',
            'a',
            'b',
            'c',
            'd',
            'e',
            'f',
        ]);
    }
    let r = digits.substring_char(n as usize, n as usize + 1);
    proof {
        assert(r@ =~= seq![digits@[n as int]]);
        assert(digits@[n as int] == hex_digit_char(n as nat)) by {
            if n == 0 {
            } else if n == 1 {
            } else if n == 2 {
            } else if n == 3 {
            } else if n == 4 {
            } else if n == 5 {
            } else if n == 6 {
            } else if n == 7 {
            } else if n == 8 {
            } else if n == 9 {
            } else if n == 10 {
            } else if n == 11 {
            } else if n == 12 {
            } else if n == 13 {
            } else if n == 14 {
            } else {
            }
        }
    }
    r
}

impl GtsUuid {
    /// The UUID with the given bytes.
    pub fn from_bytes(bytes: [u8; 16]) -> (r: Self)
        ensures
            r@ == bytes@,
    {
        GtsUuid { bytes }
    }

    /// The 16 bytes of this UUID.
    pub fn as_bytes(&self) -> (r: [u8; 16])
        ensures
            r@ == self@,
    {
        self.bytes
    }

    /// The hyphenated lowercase text of this UUID.
    pub fn to_string(&self) -> (r: String)
        ensures
            r@ == hyphenated_text(self@),
    {
        let mut s = String::new();
        let mut i: usize = 0;
        let ghost b = self.bytes@;
        assert(b.len() == 16);
        while i < 16
            invariant
                i <= 16,
                b == self.bytes@,
                b.len() == 16,
                s@ == partial_hyphenated(b, i as nat),
            decreases 16 - i,
        {
            if i == 4 || i == 6 || i == 8 || i == 10 {
                proof {
                    reveal_strlit("-");
                }
                s.append("-");
            }
            let byte = self.bytes[i];
            s.append(hex_digit_str(byte / 16));
            s.append(hex_digit_str(byte % 16));
            proof {
                lemma_partial_hyphenated_step(b, i as nat);
            }
            i = i + 1;
        }
        proof {
            lemma_partial_hyphenated_full(b);
        }
        s
    }
}

/// The hyphenated text of the first `i` bytes.
pub open spec fn partial_hyphenated(b: Seq<u8>, i: nat) -> Seq<char>
    decreases i,
{
    if i == 0 {
        Seq::<char>::empty()
    } else {
        let k = (i - 1) as nat;
        partial_hyphenated(b, k) + (if k == 4 || k == 6 || k == 8 || k == 10 {
            seq!['-']
        } else {
            Seq::<char>::empty()
        }) + seq![hex_digit_char((b[k as int] / 16) as nat), hex_digit_char((b[k as int] % 16) as nat)]
    }
}

proof fn lemma_partial_hyphenated_step(b: Seq<u8>, i: nat)
    ensures
        partial_hyphenated(b, i + 1) == partial_hyphenated(b, i) + (if i == 4 || i == 6 || i == 8
            || i == 10 {
            seq!['-']
        } else {
            Seq::<char>::empty()
        }) + seq![hex_digit_char((b[i as int] / 16) as nat), hex_digit_char((b[i as int] % 16) as nat)],
{
}

proof fn lemma_hex_text_split(b: Seq<u8>, lo: int, hi: int)
    requires
        0 <= lo <= hi <= b.len(),
    ensures
        hex_text(b.subrange(lo, hi)) == partial_hex(b, lo, hi),
    decreases hi - lo,
{
    if hi > lo {
        lemma_hex_text_split(b, lo, hi - 1);
        assert(b.subrange(lo, hi).drop_last() =~= b.subrange(lo, hi - 1));
    } else {
        assert(b.subrange(lo, hi) =~= Seq::<u8>::empty());
    }
}

/// Hex text of `b[lo..hi]`, built byte by byte.
pub open spec fn partial_hex(b: Seq<u8>, lo: int, hi: int) -> Seq<char>
    decreases hi - lo,
{
    if hi <= lo {
        Seq::<char>::empty()
    } else {
        partial_hex(b, lo, hi - 1) + seq![
            hex_digit_char((b[hi - 1] / 16) as nat),
            hex_digit_char((b[hi - 1] % 16) as nat),
        ]
    }
}

proof fn lemma_partial_hyphenated_groups(b: Seq<u8>, lo: nat, hi: nat)
    requires
        lo < hi <= 16,
        lo == 0 || lo == 4 || lo == 6 || lo == 8 || lo == 10,
        lo == 0 ==> hi <= 4,
        lo == 4 ==> hi <= 6,
        lo == 6 ==> hi <= 8,
        lo == 8 ==> hi <= 10,
    ensures
        partial_hyphenated(b, hi) == partial_hyphenated(b, lo) + (if lo == 0 {
            Seq::<char>::empty()
        } else {
            seq!['-']
        }) + partial_hex(b, lo as int, hi as int),
    decreases hi - lo,
{
    if hi == lo + 1 {
        assert(partial_hex(b, lo as int, lo as int) == Seq::<char>::empty());
        assert(partial_hyphenated(b, hi) =~= partial_hyphenated(b, lo) + (if lo == 0 {
            Seq::<char>::empty()
        } else {
            seq!['-']
        }) + partial_hex(b, lo as int, hi as int));
    } else {
        lemma_partial_hyphenated_groups(b, lo, (hi - 1) as nat);
        assert(partial_hyphenated(b, hi) =~= partial_hyphenated(b, lo) + (if lo == 0 {
            Seq::<char>::empty()
        } else {
            seq!['-']
        }) + partial_hex(b, lo as int, hi as int));
    }
}

proof fn lemma_partial_hyphenated_full(b: Seq<u8>)
    requires
        b.len() == 16,
    ensures
        partial_hyphenated(b, 16) == hyphenated_text(b),
{
    lemma_partial_hyphenated_groups(b, 0, 4);
    lemma_partial_hyphenated_groups(b, 4, 6);
    lemma_partial_hyphenated_groups(b, 6, 8);
    lemma_partial_hyphenated_groups(b, 8, 10);
    lemma_partial_hyphenated_groups(b, 10, 16);
    lemma_hex_text_split(b, 0, 4);
    lemma_hex_text_split(b, 4, 6);
    lemma_hex_text_split(b, 6, 8);
    lemma_hex_text_split(b, 8, 10);
    lemma_hex_text_split(b, 10, 16);
    assert(partial_hyphenated(b, 0) == Seq::<char>::empty());
    assert(partial_hyphenated(b, 16) =~= hyphenated_text(b));
}

} // verus!
