//! The GTS interpretation of JSON Schema `$ref` strings: a local JSON
//! Pointer, or an external reference to a GTS type through a `gts://` URI.

use vstd::prelude::*;
use vstd::string::*;

use crate::entity_ids::{spec_typed_id, GtsTypeId, GTS_ID_URI_PREFIX};
use crate::gts_id::first_index_of;
use crate::json::JsonValue;
use crate::text::{chars_of, decimal, decimal_string, empty_str, str_eq, str_is_empty, substring};

verus! {

broadcast use vstd::string::group_string_axioms;

/// Why a single `$ref` string is not a valid GTS reference.
#[derive(Debug, Clone, PartialEq, Eq)]
pub enum InvalidRefReason {
    /// Neither a local ref (`#...`) nor a `gts://` URI.
    NotGtsUri,
    /// The identifier after `gts://` is not a valid type identifier.
    InvalidTypeId(String),
    /// The fragment is neither empty nor a `/`-prefixed JSON Pointer.
    UnsupportedFragment(String),
}

/// The model of an [`InvalidRefReason`].
pub enum RefReasonModel {
    NotGtsUri,
    InvalidTypeId(Seq<char>),
    UnsupportedFragment(Seq<char>),
}

impl View for InvalidRefReason {
    type V = RefReasonModel;

    open spec fn view(&self) -> RefReasonModel {
        match self {
            InvalidRefReason::NotGtsUri => RefReasonModel::NotGtsUri,
            InvalidRefReason::InvalidTypeId(s) => RefReasonModel::InvalidTypeId(s@),
            InvalidRefReason::UnsupportedFragment(s) => RefReasonModel::UnsupportedFragment(s@),
        }
    }
}

/// The message of a reason.
pub open spec fn reason_text(r: RefReasonModel) -> Seq<char> {
    match r {
        RefReasonModel::NotGtsUri => "must be a local ref (starting with '#') or a GTS URI (starting with 'gts://')"@,
        RefReasonModel::InvalidTypeId(id) => "must reference a GTS type id (a valid identifier ending with '~'), got '"@
            + id + "'"@,
        RefReasonModel::UnsupportedFragment(f) => "has an unsupported fragment '#"@ + f
            + "'; only an empty fragment or a '/'-prefixed JSON Pointer is allowed"@,
    }
}

impl InvalidRefReason {
    /// The human-readable message of this reason.
    pub fn to_string(&self) -> (r: String)
        ensures
            r@ == reason_text(self@),
    {
        match self {
            InvalidRefReason::NotGtsUri => String::from_str(
                "must be a local ref (starting with '#') or a GTS URI (starting with 'gts://')",
            ),
            InvalidRefReason::InvalidTypeId(id) => {
                let mut s = String::from_str(
                    "must reference a GTS type id (a valid identifier ending with '~'), got '",
                );
                s.append(id.as_str());
                s.append("'");
                s
            },
            InvalidRefReason::UnsupportedFragment(f) => {
                let mut s = String::from_str("has an unsupported fragment '#");
                s.append(f.as_str());
                s.append("'; only an empty fragment or a '/'-prefixed JSON Pointer is allowed");
                s
            },
        }
    }
}

/// Why the `$ref`s of a schema could not be extracted.
#[derive(Debug, Clone, PartialEq, Eq)]
pub enum ExtractRefsError {
    /// The `$ref` at `path` is not a valid GTS reference.
    InvalidRef { path: String, ref_uri: String, reason: InvalidRefReason },
    /// The schema nests deeper than the scan limit.
    TooDeep(usize),
}

impl ExtractRefsError {
    /// The human-readable message of this error.
    pub fn to_string(&self) -> (r: String)
        ensures
            r@ == match self {
                ExtractRefsError::InvalidRef { path, ref_uri, reason } => "at '"@ + path@ + "': '"@
                    + ref_uri@ + "' "@ + reason_text(reason@),
                ExtractRefsError::TooDeep(n) => "schema nests deeper than the maximum scan depth of "@
                    + decimal(*n as nat),
            },
    {
        match self {
            ExtractRefsError::InvalidRef { path, ref_uri, reason } => {
                let mut s = String::from_str("at '");
                s.append(path.as_str());
                s.append("': '");
                s.append(ref_uri.as_str());
                s.append("' ");
                let t = reason.to_string();
                s.append(t.as_str());
                s
            },
            ExtractRefsError::TooDeep(n) => {
                let mut s = String::from_str("schema nests deeper than the maximum scan depth of ");
                let d = decimal_string(*n);
                s.append(d.as_str());
                s
            },
        }
    }
}

/// How a single `$ref` is read under GTS rules.
#[derive(Debug, Clone, PartialEq, Eq)]
pub enum RefKind {
    /// A local JSON Pointer (`#`, `#/...`); not an external dependency.
    Local,
    /// An external GTS type dependency: the type identifier, with the
    /// scheme and any fragment removed.
    External { id: String },
}

/// The model of a [`RefKind`].
pub enum RefKindModel {
    Local,
    External(Seq<char>),
}

impl View for RefKind {
    type V = RefKindModel;

    open spec fn view(&self) -> RefKindModel {
        match self {
            RefKind::Local => RefKindModel::Local,
            RefKind::External { id } => RefKindModel::External(id@),
        }
    }
}

pub open spec fn uri_prefix() -> Seq<char> {
    seq!['g', 't', 's', ':', '/', '/']
}

/// The reading of a `$ref`: local when it starts with `#`; otherwise it
/// must be `gts://` followed by a type identifier, then optionally `#` and
/// a fragment that is empty or starts with `/`.
pub open spec fn spec_classify_ref(r: Seq<char>) -> Result<RefKindModel, RefReasonModel> {
    if r.len() > 0 && r[0] == '#' {
        Ok(RefKindModel::Local)
    } else if !(r.len() >= 6 && r.take(6) == uri_prefix()) {
        Err(RefReasonModel::NotGtsUri)
    } else {
        let rest = r.skip(6);
        let (id, frag) = match first_index_of(rest, '#') {
            Some(k) => (rest.take(k as int), Some(rest.skip(k + 1int))),
            None => (rest, None::<Seq<char>>),
        };
        if spec_typed_id(id, true) is Err {
            Err(RefReasonModel::InvalidTypeId(id))
        } else {
            match frag {
                Some(f) => if f.len() > 0 && f[0] != '/' {
                    Err(RefReasonModel::UnsupportedFragment(f))
                } else {
                    Ok(RefKindModel::External(id))
                },
                None => Ok(RefKindModel::External(id)),
            }
        }
    }
}

proof fn lemma_uri_prefix()
    ensures
        GTS_ID_URI_PREFIX@ == uri_prefix(),
{
    reveal_strlit("gts://");
    assert(GTS_ID_URI_PREFIX@ =~= uri_prefix());
}

/// The single, canonical reading of a `$ref` string, shared by schema
/// validation and dependency extraction so that the two cannot drift.
/// External references must use the `gts://` scheme; a bare identifier is
/// refused.
pub fn classify_ref(ref_uri: &str) -> (r: Result<RefKind, InvalidRefReason>)
    ensures
        match spec_classify_ref(ref_uri@) {
            Ok(k) => r is Ok && r->Ok_0@ == k,
            Err(e) => r is Err && r->Err_0@ == e,
        },
{
    let cs = chars_of(ref_uri);
    let n = cs.len();
    if n > 0 && cs[0] == '#' {
        return Ok(RefKind::Local);
    }
    proof {
        lemma_uri_prefix();
    }
    if !(n >= 6 && cs[0] == 'g' && cs[1] == 't' && cs[2] == 's' && cs[3] == ':' && cs[4] == '/'
        && cs[5] == '/') {
        proof {
            if n >= 6 && ref_uri@.take(6) == uri_prefix() {
                let t = ref_uri@.take(6);
                assert(t[0] == 'g' && t[1] == 't' && t[2] == 's');
                assert(t[3] == ':' && t[4] == '/' && t[5] == '/');
            }
        }
        return Err(InvalidRefReason::NotGtsUri);
    }
    assert(ref_uri@.take(6) =~= uri_prefix());
    let ghost rest = ref_uri@.skip(6);
    let mut k: usize = 6;
    while k < n && cs[k] != '#'
        invariant
            6 <= k <= n == cs@.len(),
            cs@ == ref_uri@,
            rest == ref_uri@.skip(6),
            forall|j: int| 6 <= j < k ==> cs@[j] != '#',
        decreases n - k,
    {
        k = k + 1;
    }
    proof {
        crate::gts_id::lemma_first_index_of(rest, '#', (k - 6) as nat);
    }
    let id = substring(ref_uri, 6, k);
    assert(id@ =~= if k < n {
        rest.take(k - 6)
    } else {
        rest
    });
    match GtsTypeId::try_new(id.as_str()) {
        Err(_) => {
            return Err(InvalidRefReason::InvalidTypeId(id));
        },
        Ok(_) => {},
    }
    if k < n {
        let frag = substring(ref_uri, k + 1, n);
        assert(frag@ =~= rest.skip(k - 6 + 1));
        if k + 1 < n && cs[k + 1] != '/' {
            return Err(InvalidRefReason::UnsupportedFragment(frag));
        }
    }
    Ok(RefKind::External { id })
}

/// The model of an [`ExtractRefsError`].
pub enum RefsFault {
    InvalidRef { path: Seq<char>, ref_uri: Seq<char>, reason: RefReasonModel },
    TooDeep(nat),
}

impl View for ExtractRefsError {
    type V = RefsFault;

    open spec fn view(&self) -> RefsFault {
        match self {
            ExtractRefsError::InvalidRef { path, ref_uri, reason } => RefsFault::InvalidRef {
                path: path@,
                ref_uri: ref_uri@,
                reason: reason@,
            },
            ExtractRefsError::TooDeep(n) => RefsFault::TooDeep(*n as nat),
        }
    }
}

/// Nesting deeper than this is refused rather than scanned.
const MAX_REF_SCAN_DEPTH: usize = 64;

/// The texts of a sequence of strings.
pub open spec fn texts(v: Seq<String>) -> Seq<Seq<char>> {
    v.map_values(|s: String| s@)
}

/// The text of the first `$ref` member, when that member is a string.
pub open spec fn first_ref_value(entries: Seq<(String, JsonValue)>) -> Option<Seq<char>>
    decreases entries.len(),
{
    if entries.len() == 0 {
        None
    } else if entries[0].0@ == "$ref"@ {
        match entries[0].1 {
            JsonValue::String(s) => Some(s@),
            _ => None,
        }
    } else {
        first_ref_value(entries.drop_first())
    }
}

/// The path of the `$ref` member of the node at `path`.
pub open spec fn ref_path(path: Seq<char>) -> Seq<char> {
    if path.len() == 0 {
        "$ref"@
    } else {
        path + ".$ref"@
    }
}

/// The path of member `key` of the node at `path`.
pub open spec fn member_path(path: Seq<char>, key: Seq<char>) -> Seq<char> {
    if path.len() == 0 {
        key
    } else {
        path + "."@ + key
    }
}

/// The path of item `idx` of the array at `path`.
pub open spec fn item_path(path: Seq<char>, idx: nat) -> Seq<char> {
    path + "["@ + decimal(idx) + "]"@
}

/// Members not scanned for nested references: the `$ref` itself, read
/// first, and the keywords whose values are instance data, not schemas.
pub open spec fn skipped_key(k: Seq<char>) -> bool {
    k == "$ref"@ || k == "const"@ || k == "default"@ || k == "examples"@ || k == "enum"@
}

pub open spec fn prepend_refs(a: Seq<Seq<char>>, r: Result<Seq<Seq<char>>, RefsFault>) -> Result<Seq<Seq<char>>, RefsFault> {
    match r {
        Ok(b) => Ok(a + b),
        Err(e) => Err(e),
    }
}

/// The reference held by an object's own `$ref` member, if external.
pub open spec fn own_refs(entries: Seq<(String, JsonValue)>, path: Seq<char>) -> Result<Seq<Seq<char>>, RefsFault> {
    match first_ref_value(entries) {
        None => Ok(Seq::<Seq<char>>::empty()),
        Some(r) => match spec_classify_ref(r) {
            Ok(RefKindModel::Local) => Ok(Seq::<Seq<char>>::empty()),
            Ok(RefKindModel::External(id)) => Ok(seq![id]),
            Err(reason) => Err(RefsFault::InvalidRef { path: ref_path(path), ref_uri: r, reason }),
        },
    }
}

/// The external references found in `v` (at `path`, nested `depth` deep),
/// in traversal order, or the first fault.
pub open spec fn refs_in(v: JsonValue, path: Seq<char>, depth: nat) -> Result<Seq<Seq<char>>, RefsFault>
    decreases v, 0nat,
{
    if depth > 64 {
        Err(RefsFault::TooDeep(64))
    } else {
        match v {
            JsonValue::Object(entries) => match own_refs(entries@, path) {
                Err(e) => Err(e),
                Ok(o) => prepend_refs(o, refs_in_members(entries, 0, path, depth)),
            },
            JsonValue::Array(items) => refs_in_items(items, 0, path, depth),
            _ => Ok(Seq::<Seq<char>>::empty()),
        }
    }
}

/// The references found in members `i..` of an object at `path`.
pub open spec fn refs_in_members(entries: Vec<(String, JsonValue)>, i: nat, path: Seq<char>, depth: nat) -> Result<
    Seq<Seq<char>>,
    RefsFault,
>
    decreases entries, entries.len() - i,
{
    if i >= entries.len() {
        Ok(Seq::<Seq<char>>::empty())
    } else {
        let key = entries[i as int].0@;
        if skipped_key(key) {
            refs_in_members(entries, i + 1, path, depth)
        } else {
            match refs_in(entries[i as int].1, member_path(path, key), depth + 1) {
                Err(e) => Err(e),
                Ok(a) => prepend_refs(a, refs_in_members(entries, i + 1, path, depth)),
            }
        }
    }
}

/// The references found in items `i..` of an array at `path`.
pub open spec fn refs_in_items(items: Vec<JsonValue>, i: nat, path: Seq<char>, depth: nat) -> Result<
    Seq<Seq<char>>,
    RefsFault,
>
    decreases items, items.len() - i,
{
    if i >= items.len() {
        Ok(Seq::<Seq<char>>::empty())
    } else {
        match refs_in(items[i as int], item_path(path, i), depth + 1) {
            Err(e) => Err(e),
            Ok(a) => prepend_refs(a, refs_in_items(items, i + 1, path, depth)),
        }
    }
}

/// `s` with later repetitions removed, first occurrences in order.
pub open spec fn dedup(s: Seq<Seq<char>>) -> Seq<Seq<char>>
    decreases s.len(),
{
    if s.len() == 0 {
        Seq::<Seq<char>>::empty()
    } else {
        let d = dedup(s.drop_last());
        if d.contains(s.last()) {
            d
        } else {
            d.push(s.last())
        }
    }
}

fn member_path_string(path: &str, key: &str) -> (r: String)
    ensures
        r@ == member_path(path@, key@),
{
    if str_is_empty(path) {
        key.to_owned()
    } else {
        let mut s = path.to_owned();
        s.append(".");
        s.append(key);
        s
    }
}

fn ref_path_string(path: &str) -> (r: String)
    ensures
        r@ == ref_path(path@),
{
    if str_is_empty(path) {
        String::from_str("$ref")
    } else {
        let mut s = path.to_owned();
        s.append(".$ref");
        s
    }
}

fn item_path_string(path: &str, idx: usize) -> (r: String)
    ensures
        r@ == item_path(path@, idx as nat),
{
    let mut s = path.to_owned();
    s.append("[");
    let d = decimal_string(idx);
    s.append(d.as_str());
    s.append("]");
    s
}

fn first_ref_member(entries: &Vec<(String, JsonValue)>) -> (r: Option<&String>)
    ensures
        match first_ref_value(entries@) {
            Some(t) => r is Some && r->Some_0@ == t,
            None => r is None,
        },
{
    let mut i: usize = 0;
    assert(entries@.skip(0) =~= entries@);
    while i < entries.len()
        invariant
            i <= entries@.len(),
            first_ref_value(entries@) == first_ref_value(entries@.skip(i as int)),
        decreases entries.len() - i,
    {
        assert(entries@.skip(i as int).drop_first() =~= entries@.skip(i + 1));
        if str_eq(entries[i].0.as_str(), "$ref") {
            return match &entries[i].1 {
                JsonValue::String(s) => Some(s),
                _ => None,
            };
        }
        i = i + 1;
    }
    None
}

fn is_skipped_key(key: &str) -> (r: bool)
    ensures
        r == skipped_key(key@),
{
    str_eq(key, "$ref") || str_eq(key, "const") || str_eq(key, "default") || str_eq(key, "examples")
        || str_eq(key, "enum")
}

proof fn lemma_prefix_append(a: Seq<Seq<char>>, s: Seq<Seq<char>>)
    ensures
        a.is_prefix_of(a + s),
{
    assert(a =~= (a + s).subrange(0, a.len() as int));
}

proof fn lemma_prefix_trans(a: Seq<Seq<char>>, b: Seq<Seq<char>>, c: Seq<Seq<char>>)
    requires
        a.is_prefix_of(b),
        b.is_prefix_of(c),
    ensures
        a.is_prefix_of(c),
{
    assert(a =~= c.subrange(0, a.len() as int));
}

/// Appends to `out` the external references in `value` (at `path`, nested
/// `depth` deep), in traversal order.
fn collect_refs(value: &JsonValue, path: &str, depth: usize, out: &mut Vec<String>) -> (r: Result<
    (),
    ExtractRefsError,
>)
    ensures
        match refs_in(*value, path@, depth as nat) {
            Ok(s) => r is Ok && texts(final(out)@) == texts(old(out)@) + s,
            Err(e) => r is Err && r->Err_0@ == e,
        },
        texts(old(out)@).is_prefix_of(texts(final(out)@)),
        depth > MAX_REF_SCAN_DEPTH ==> final(out)@ == old(out)@,
    decreases value, 0nat,
{
    if depth > MAX_REF_SCAN_DEPTH {
        return Err(ExtractRefsError::TooDeep(MAX_REF_SCAN_DEPTH));
    }
    match value {
        JsonValue::Object(entries) => {
            match first_ref_member(entries) {
                Some(ref_uri) => match classify_ref(ref_uri.as_str()) {
                    Ok(RefKind::Local) => {},
                    Ok(RefKind::External { id }) => {
                        let ghost before = out@;
                        out.push(id);
                        assert(texts(out@) =~= texts(before) + seq![texts(out@).last()]);
                        proof {
                            lemma_prefix_append(texts(before), seq![texts(out@).last()]);
                        }
                    },
                    Err(reason) => {
                        return Err(
                            ExtractRefsError::InvalidRef {
                                path: ref_path_string(path),
                                ref_uri: ref_uri.clone(),
                                reason,
                            },
                        );
                    },
                },
                None => {},
            }
            let ghost mid = out@;
            assert(texts(old(out)@).is_prefix_of(texts(mid)));
            let r = collect_members(entries, path, depth, out);
            proof {
                lemma_prefix_trans(texts(old(out)@), texts(mid), texts(out@));
                match own_refs(entries@, path@) {
                    Ok(o) => {
                        match refs_in_members(*entries, 0, path@, depth as nat) {
                            Ok(b) => {
                                assert(texts(old(out)@) + (o + b) =~= texts(mid) + b);
                            },
                            Err(_) => {},
                        }
                    },
                    Err(_) => {},
                }
            }
            r
        },
        JsonValue::Array(items) => collect_items(items, path, depth, out),
        _ => {
            assert(texts(out@) =~= texts(out@) + Seq::<Seq<char>>::empty());
            assert(texts(out@).is_prefix_of(texts(out@)));
            Ok(())
        },
    }
}

fn collect_members(entries: &Vec<(String, JsonValue)>, path: &str, depth: usize, out: &mut Vec<String>) -> (r: Result<
    (),
    ExtractRefsError,
>)
    requires
        depth <= 64,
    ensures
        match refs_in_members(*entries, 0, path@, depth as nat) {
            Ok(s) => r is Ok && texts(final(out)@) == texts(old(out)@) + s,
            Err(e) => r is Err && r->Err_0@ == e,
        },
        texts(old(out)@).is_prefix_of(texts(final(out)@)),
    decreases entries, 1nat,
{
    let ghost start = out@;
    let ghost mut done: Seq<Seq<char>> = Seq::empty();
    let mut i: usize = 0;
    assert(texts(start) + done =~= texts(start));
    while i < entries.len()
        invariant
            i <= entries@.len(),
            depth <= 64,
            texts(out@) == texts(start) + done,
            texts(start).is_prefix_of(texts(out@)),
            start == old(out)@,
            refs_in_members(*entries, 0, path@, depth as nat) == prepend_refs(
                done,
                refs_in_members(*entries, i as nat, path@, depth as nat),
            ),
        decreases entries.len() - i,
    {
        let key = entries[i].0.as_str();
        if !is_skipped_key(key) {
            let nested = member_path_string(path, key);
            let ghost before = out@;
            match collect_refs(&entries[i].1, nested.as_str(), depth + 1, out) {
                Err(e) => {
                    proof {
                        lemma_prefix_trans(texts(start), texts(before), texts(out@));
                    }
                    return Err(e);
                },
                Ok(_) => {},
            }
            proof {
                let a = refs_in(entries[i as int].1, member_path(path@, key@), (depth + 1) as nat)->Ok_0;
                match refs_in_members(*entries, (i + 1) as nat, path@, depth as nat) {
                    Ok(b) => {
                        assert(done + (a + b) =~= (done + a) + b);
                    },
                    Err(_) => {},
                }
                done = done + a;
                lemma_prefix_append(texts(start), done);
            }
        }
        i = i + 1;
    }
    assert(done + Seq::<Seq<char>>::empty() =~= done);
    Ok(())
}

fn collect_items(items: &Vec<JsonValue>, path: &str, depth: usize, out: &mut Vec<String>) -> (r: Result<
    (),
    ExtractRefsError,
>)
    requires
        depth <= 64,
    ensures
        match refs_in_items(*items, 0, path@, depth as nat) {
            Ok(s) => r is Ok && texts(final(out)@) == texts(old(out)@) + s,
            Err(e) => r is Err && r->Err_0@ == e,
        },
        texts(old(out)@).is_prefix_of(texts(final(out)@)),
    decreases items, 1nat,
{
    let ghost start = out@;
    let ghost mut done: Seq<Seq<char>> = Seq::empty();
    let mut i: usize = 0;
    assert(texts(start) + done =~= texts(start));
    while i < items.len()
        invariant
            i <= items@.len(),
            depth <= 64,
            texts(out@) == texts(start) + done,
            texts(start).is_prefix_of(texts(out@)),
            start == old(out)@,
            refs_in_items(*items, 0, path@, depth as nat) == prepend_refs(
                done,
                refs_in_items(*items, i as nat, path@, depth as nat),
            ),
        decreases items.len() - i,
    {
        let nested = item_path_string(path, i);
        let ghost before = out@;
        match collect_refs(&items[i], nested.as_str(), depth + 1, out) {
            Err(e) => {
                proof {
                    lemma_prefix_trans(texts(start), texts(before), texts(out@));
                }
                return Err(e);
            },
            Ok(_) => {},
        }
        proof {
            let a = refs_in(items[i as int], item_path(path@, i as nat), (depth + 1) as nat)->Ok_0;
            match refs_in_items(*items, (i + 1) as nat, path@, depth as nat) {
                Ok(b) => {
                    assert(done + (a + b) =~= (done + a) + b);
                },
                Err(_) => {},
            }
            done = done + a;
            lemma_prefix_append(texts(start), done);
        }
        i = i + 1;
    }
    assert(done + Seq::<Seq<char>>::empty() =~= done);
    Ok(())
}

// ---------------------------------------------------------------------------
// Ordering of identifiers
// ---------------------------------------------------------------------------

/// `a` comes before `b` in the lexicographic order of characters.
pub open spec fn char_seq_lt(a: Seq<char>, b: Seq<char>) -> bool
    decreases a.len(),
{
    if a.len() == 0 {
        b.len() > 0
    } else if b.len() == 0 {
        false
    } else if a[0] != b[0] {
        a[0] < b[0]
    } else {
        char_seq_lt(a.drop_first(), b.drop_first())
    }
}

/// Each element comes before every later one.
pub open spec fn strictly_sorted(s: Seq<Seq<char>>) -> bool {
    forall|i: int, j: int| 0 <= i < j < s.len() ==> char_seq_lt(#[trigger] s[i], #[trigger] s[j])
}

proof fn lemma_lt_total(a: Seq<char>, b: Seq<char>)
    ensures
        char_seq_lt(a, b) ==> !char_seq_lt(b, a) && a != b,
        a != b ==> char_seq_lt(a, b) || char_seq_lt(b, a),
    decreases a.len(),
{
    if a.len() > 0 && b.len() > 0 && a[0] == b[0] {
        lemma_lt_total(a.drop_first(), b.drop_first());
        if a.drop_first() == b.drop_first() {
            assert(a =~= seq![a[0]] + a.drop_first());
            assert(b =~= seq![b[0]] + b.drop_first());
        }
    }
    if a.len() == 0 && b.len() == 0 {
        assert(a =~= b);
    }
}

proof fn lemma_lt_trans(a: Seq<char>, b: Seq<char>, c: Seq<char>)
    requires
        char_seq_lt(a, b),
        char_seq_lt(b, c),
    ensures
        char_seq_lt(a, c),
    decreases a.len(),
{
    if a.len() > 0 && b.len() > 0 && c.len() > 0 && a[0] == b[0] && b[0] == c[0] {
        lemma_lt_trans(a.drop_first(), b.drop_first(), c.drop_first());
    }
}

proof fn lemma_lt_common_prefix(a: Seq<char>, b: Seq<char>, i: int)
    requires
        0 <= i <= a.len(),
        i <= b.len(),
        forall|k: int| 0 <= k < i ==> a[k] == b[k],
    ensures
        char_seq_lt(a, b) == char_seq_lt(a.skip(i), b.skip(i)),
    decreases i,
{
    if i > 0 {
        lemma_lt_common_prefix(a.drop_first(), b.drop_first(), i - 1);
        assert(a.drop_first().skip(i - 1) =~= a.skip(i));
        assert(b.drop_first().skip(i - 1) =~= b.skip(i));
    } else {
        assert(a.skip(0) =~= a);
        assert(b.skip(0) =~= b);
    }
}

/// Whether `a` comes before `b` character by character.
pub fn str_lt(a: &str, b: &str) -> (r: bool)
    ensures
        r == char_seq_lt(a@, b@),
{
    let x = crate::text::chars_of(a);
    let y = crate::text::chars_of(b);
    let mut i: usize = 0;
    while i < x.len() && i < y.len() && x[i] == y[i]
        invariant
            i <= x@.len(),
            i <= y@.len(),
            x@ == a@,
            y@ == b@,
            forall|k: int| 0 <= k < i ==> x@[k] == y@[k],
        decreases x.len() - i,
    {
        i = i + 1;
    }
    proof {
        lemma_lt_common_prefix(a@, b@, i as int);
    }
    if i == x.len() {
        i < y.len()
    } else if i == y.len() {
        false
    } else {
        assert(a@.skip(i as int)[0] == x@[i as int]);
        assert(b@.skip(i as int)[0] == y@[i as int]);
        x[i] < y[i]
    }
}

/// The strings of `v`, which holds none twice, in increasing order.
pub fn sort_strings(v: &Vec<String>) -> (r: Vec<String>)
    requires
        texts(v@).no_duplicates(),
    ensures
        strictly_sorted(texts(r@)),
        texts(r@).to_set() == texts(v@).to_set(),
        r@.len() == v@.len(),
{
    let ghost tv = texts(v@);
    let mut out: Vec<String> = Vec::new();
    let mut i: usize = 0;
    assert(texts(out@).to_set() =~= tv.take(0).to_set());
    while i < v.len()
        invariant
            i <= v@.len(),
            tv == texts(v@),
            tv.no_duplicates(),
            strictly_sorted(texts(out@)),
            texts(out@).to_set() == tv.take(i as int).to_set(),
            out@.len() == i,
        decreases v.len() - i,
    {
        let x = &v[i];
        assert(tv[i as int] == x@);
        let mut p: usize = 0;
        while p < out.len() && str_lt(out[p].as_str(), x.as_str())
            invariant
                p <= out@.len(),
                forall|k: int| 0 <= k < p ==> char_seq_lt(#[trigger] texts(out@)[k], x@),
            decreases out.len() - p,
        {
            assert(texts(out@)[p as int] == out@[p as int]@);
            p = p + 1;
        }
        let ghost before = texts(out@);
        proof {
            assert(!before.contains(x@)) by {
                if before.contains(x@) {
                    assert(before.to_set().contains(x@));
                    assert(tv.take(i as int).to_set().contains(x@));
                    let k = choose|k: int| 0 <= k < i && tv.take(i as int)[k] == x@;
                    assert(tv[k] == tv[i as int]);
                }
            }
            if p < before.len() {
                assert(before[p as int] == out@[p as int]@);
                assert(!char_seq_lt(before[p as int], x@));
                lemma_lt_total(before[p as int], x@);
                assert(before[p as int] != x@);
            }
        }
        out.insert(p, x.clone());
        proof {
            let after = texts(out@);
            assert(after =~= before.insert(p as int, x@));
            assert forall|a: int, b: int| 0 <= a < b < after.len() implies char_seq_lt(
                #[trigger] after[a],
                #[trigger] after[b],
            ) by {
                if b < p {
                    assert(after[a] == before[a] && after[b] == before[b]);
                } else if b == p {
                    assert(after[a] == before[a]);
                } else if a < p {
                    assert(after[a] == before[a] && after[b] == before[b - 1]);
                    assert(char_seq_lt(before[a], x@));
                    assert(char_seq_lt(x@, before[p as int]));
                    lemma_lt_trans(before[a], x@, before[p as int]);
                    if b - 1 > p {
                        lemma_lt_trans(before[a], before[p as int], before[b - 1]);
                    }
                } else if a == p {
                    assert(after[b] == before[b - 1]);
                    if b - 1 > p {
                        lemma_lt_trans(x@, before[p as int], before[b - 1]);
                    }
                } else {
                    assert(after[a] == before[a - 1] && after[b] == before[b - 1]);
                }
            }
            assert(tv.take(i + 1) =~= tv.take(i as int).push(x@));
            assert(after.to_set() =~= before.to_set().insert(x@)) by {
                assert forall|y: Seq<char>| after.to_set().contains(y) <==> before.to_set().insert(x@).contains(y) by {
                    if after.to_set().contains(y) {
                        let k = choose|k: int| 0 <= k < after.len() && after[k] == y;
                        if k < p {
                            assert(before[k] == y);
                        } else if k > p {
                            assert(before[k - 1] == y);
                        }
                    }
                    if before.to_set().contains(y) {
                        let k = choose|k: int| 0 <= k < before.len() && before[k] == y;
                        if k < p {
                            assert(after[k] == y);
                        } else {
                            assert(after[k + 1] == y);
                        }
                    }
                    if y == x@ {
                        assert(after[p as int] == y);
                    }
                }
            }
            let pre = tv.take(i as int);
            assert forall|y: Seq<char>| pre.push(x@).to_set().contains(y) <==> pre.to_set().insert(x@).contains(y) by {
                if pre.push(x@).to_set().contains(y) {
                    let k = choose|k: int| 0 <= k < pre.push(x@).len() && pre.push(x@)[k] == y;
                    if k < pre.len() {
                        assert(pre[k] == y);
                    }
                }
                if pre.to_set().contains(y) {
                    let k = choose|k: int| 0 <= k < pre.len() && pre[k] == y;
                    assert(pre.push(x@)[k] == y);
                }
                if y == x@ {
                    assert(pre.push(x@)[pre.len() as int] == y);
                }
            }
            assert(tv.take(i + 1).to_set() =~= tv.take(i as int).to_set().insert(x@));
        }
        i = i + 1;
    }
    assert(tv.take(v@.len() as int) =~= tv);
    out
}

/// The external type references of a raw schema: every `$ref` anywhere in
/// the document (data keywords `const`, `default`, `examples` and `enum`
/// excepted) is read with [`classify_ref`], and each external one gives
/// its type identifier, scheme and fragment removed. The identifiers are
/// listed once each, in increasing order (a set of identifiers).
///
/// Fails on the first `$ref` that is not a valid GTS reference, reporting
/// its path, and on nesting deeper than the scan limit.
pub fn extract_gts_refs(schema: &JsonValue) -> (r: Result<Vec<String>, ExtractRefsError>)
    ensures
        match refs_in(*schema, Seq::<char>::empty(), 0) {
            Ok(s) => r is Ok && strictly_sorted(texts(r->Ok_0@)) && texts(r->Ok_0@).to_set()
                == s.to_set(),
            Err(e) => r is Err && r->Err_0@ == e,
        },
{
    let mut all: Vec<String> = Vec::new();
    let ghost empty_all = all@;
    match collect_refs(schema, empty_str(), 0, &mut all) {
        Err(e) => {
            return Err(e);
        },
        Ok(_) => {},
    }
    assert(texts(empty_all) =~= Seq::<Seq<char>>::empty());
    let ghost s = refs_in(*schema, Seq::<char>::empty(), 0)->Ok_0;
    assert(texts(all@) =~= s);
    let once = dedup_strings(&all);
    proof {
        crate::properties::lemma_dedup(s);
    }
    Ok(sort_strings(&once))
}

/// The strings of `all` with later repetitions removed, first occurrences
/// in order.
pub fn dedup_strings(all: &Vec<String>) -> (r: Vec<String>)
    ensures
        texts(r@) == dedup(texts(all@)),
{
    let mut out: Vec<String> = Vec::new();
    let mut i: usize = 0;
    while i < all.len()
        invariant
            i <= all@.len(),
            texts(out@) == dedup(texts(all@).take(i as int)),
        decreases all.len() - i,
    {
        let mut seen = false;
        let mut j: usize = 0;
        while j < out.len()
            invariant
                j <= out@.len(),
                i < all@.len(),
                seen == exists|k: int| 0 <= k < j && #[trigger] texts(out@)[k] == all@[i as int]@,
            decreases out.len() - j,
        {
            assert(texts(out@)[j as int] == out@[j as int]@);
            if str_eq(out[j].as_str(), all[i].as_str()) {
                seen = true;
            }
            j = j + 1;
        }
        proof {
            let t = texts(all@);
            assert(t.take(i + 1).drop_last() =~= t.take(i as int));
            assert(t.take(i + 1).last() == all@[i as int]@);
            if seen {
                let k = choose|k: int| 0 <= k < out@.len() && #[trigger] texts(out@)[k] == all@[i as int]@;
                assert(texts(out@).contains(all@[i as int]@));
            } else {
                assert(!texts(out@).contains(all@[i as int]@));
            }
        }
        if !seen {
            let ghost before = out@;
            out.push(all[i].clone());
            assert(texts(out@) =~= texts(before).push(all@[i as int]@));
        }
        i = i + 1;
    }
    assert(texts(all@).take(all@.len() as int) =~= texts(all@));
    out
}

} // verus!
