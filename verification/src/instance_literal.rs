//! What the typed instance construction macro decides about a struct
//! literal, read as plain values: which field holds the instance id
//! (exactly one of `id`, `gts_id`, `gtsId`, holding a string literal, with
//! no `..rest`), that the id is a valid concrete identifier, its split at the
//! last `~` into type identifier and instance segment, and the type whose
//! identifier the instance must extend (the deepest non-generic type of the
//! literal's path).

use vstd::prelude::*;
use vstd::string::*;

use crate::error::{GtsIdErrorModel, fault_error};
use crate::parse::{parse_id, spec_parse_id};
use crate::text::{chars_of, decimal, decimal_string, str_eq};

verus! {

broadcast use vstd::string::group_string_axioms;

/// The position of the last `c` in `s`.
pub open spec fn last_index_of(s: Seq<char>, c: char) -> Option<nat>
    decreases s.len(),
{
    if s.len() == 0 {
        None
    } else if s.last() == c {
        Some((s.len() - 1) as nat)
    } else {
        last_index_of(s.drop_last(), c)
    }
}

/// Refusal of a literal that ends with `~`.
pub const ENDS_WITH_TILDE: &'static str = "instance id literal must not end with `~` (that denotes a schema, not an instance)";

/// Refusal of a literal without `~`.
pub const NO_TILDE: &'static str = "instance id literal must contain at least one `~` (chained form: gts.<type>~<instance>)";

/// A full instance-id literal split into its type identifier (through its
/// last `~`) and its instance segment (after it); a literal that ends with
/// `~` or holds none is refused.
pub open spec fn spec_split_instance_id(raw: Seq<char>) -> Result<(Seq<char>, Seq<char>), Seq<char>> {
    if raw.len() > 0 && raw.last() == '~' {
        Err(ENDS_WITH_TILDE@)
    } else {
        match last_index_of(raw, '~') {
            None => Err(NO_TILDE@),
            Some(k) => Ok((raw.take(k + 1int), raw.skip(k + 1int))),
        }
    }
}

/// Splits a full instance-id literal into `(type_id, segment)`: the type
/// identifier keeps its trailing `~`.
pub fn split_instance_id(raw: &str) -> (r: Result<(String, String), String>)
    ensures
        match spec_split_instance_id(raw@) {
            Ok((t, s)) => r is Ok && r->Ok_0.0@ == t && r->Ok_0.1@ == s,
            Err(e) => r is Err && r->Err_0@ == e,
        },
{
    let cs = chars_of(raw);
    let n = cs.len();
    if n > 0 && cs[n - 1] == '~' {
        return Err(String::from_str(ENDS_WITH_TILDE));
    }
    let mut i: usize = n;
    assert(raw@.take(n as int) =~= raw@);
    while i > 0
        invariant
            i <= n,
            n == cs@.len(),
            cs@ == raw@,
            !(n > 0 && raw@.last() == '~'),
            last_index_of(raw@, '~') == last_index_of(raw@.take(i as int), '~'),
        decreases i,
    {
        assert(raw@.take(i as int).drop_last() =~= raw@.take(i - 1));
        if cs[i - 1] == '~' {
            let t = raw.substring_char(0, i);
            let s = raw.substring_char(i, n);
            assert(last_index_of(raw@, '~') == Some((i - 1) as nat));
            assert(t@ == raw@.take(i as int));
            assert(s@ == raw@.skip(i as int));
            return Ok((t.to_owned(), s.to_owned()));
        }
        i = i - 1;
    }
    assert(raw@.take(0) =~= Seq::<char>::empty());
    Err(String::from_str(NO_TILDE))
}


// ---------------------------------------------------------------------------
// The instance-id field of a struct literal
// ---------------------------------------------------------------------------

/// A field of a struct literal: its name when the field is named, and the
/// text of its value when that value is a string literal.
#[derive(Debug)]
pub struct LiteralField {
    pub name: Option<String>,
    pub string_value: Option<String>,
}

/// A struct literal: its fields in order, and whether it ends with
/// struct update syntax (`..rest`).
#[derive(Debug)]
pub struct StructLiteral {
    pub fields: Vec<LiteralField>,
    pub has_rest: bool,
}

/// Why no instance-id field could be taken from a struct literal.
#[derive(Debug, PartialEq, Eq)]
pub enum IdFieldError {
    /// The literal uses `..rest`.
    StructUpdate,
    /// Two id fields: the first one's name, then the second one's.
    Ambiguous(String, String),
    /// The id field (named here) does not hold a string literal.
    NotStringLiteral(String),
    /// No id field.
    Missing,
}

pub struct LiteralFieldModel {
    pub name: Option<Seq<char>>,
    pub string_value: Option<Seq<char>>,
}

pub struct StructLiteralModel {
    pub fields: Seq<LiteralFieldModel>,
    pub has_rest: bool,
}

pub enum IdFieldErrorModel {
    StructUpdate,
    Ambiguous(Seq<char>, Seq<char>),
    NotStringLiteral(Seq<char>),
    Missing,
}

pub open spec fn opt_view(o: Option<String>) -> Option<Seq<char>> {
    match o {
        Some(s) => Some(s@),
        None => None,
    }
}

impl View for LiteralField {
    type V = LiteralFieldModel;

    open spec fn view(&self) -> LiteralFieldModel {
        LiteralFieldModel { name: opt_view(self.name), string_value: opt_view(self.string_value) }
    }
}

impl View for StructLiteral {
    type V = StructLiteralModel;

    open spec fn view(&self) -> StructLiteralModel {
        StructLiteralModel {
            fields: self.fields@.map_values(|f: LiteralField| f@),
            has_rest: self.has_rest,
        }
    }
}

impl View for IdFieldError {
    type V = IdFieldErrorModel;

    open spec fn view(&self) -> IdFieldErrorModel {
        match self {
            IdFieldError::StructUpdate => IdFieldErrorModel::StructUpdate,
            IdFieldError::Ambiguous(a, b) => IdFieldErrorModel::Ambiguous(a@, b@),
            IdFieldError::NotStringLiteral(n) => IdFieldErrorModel::NotStringLiteral(n@),
            IdFieldError::Missing => IdFieldErrorModel::Missing,
        }
    }
}

/// The names reserved for the instance-id field.
pub open spec fn is_id_field_name(n: Seq<char>) -> bool {
    n == "id"@ || n == "gts_id"@ || n == "gtsId"@
}

/// The id field among fields `i..`, given the one `found` before them:
/// the first failure in field order is reported.
pub open spec fn scan_id_field(
    fields: Seq<LiteralFieldModel>,
    i: nat,
    found: Option<(nat, Seq<char>, Seq<char>)>,
) -> Result<(nat, Seq<char>, Seq<char>), IdFieldErrorModel>
    decreases fields.len() - i,
{
    if i >= fields.len() {
        match found {
            Some(f) => Ok(f),
            None => Err(IdFieldErrorModel::Missing),
        }
    } else {
        match fields[i as int].name {
            Some(n) => if is_id_field_name(n) {
                match found {
                    Some(prev) => Err(IdFieldErrorModel::Ambiguous(prev.1, n)),
                    None => match fields[i as int].string_value {
                        Some(v) => scan_id_field(fields, i + 1, Some((i, n, v))),
                        None => Err(IdFieldErrorModel::NotStringLiteral(n)),
                    },
                }
            } else {
                scan_id_field(fields, i + 1, found)
            },
            None => scan_id_field(fields, i + 1, found),
        }
    }
}

/// The instance-id field of a struct literal: its position, its name and
/// its string value; refused when the literal uses `..rest`, when two
/// fields carry reserved id names, when the id field is not a string
/// literal, or when there is none.
pub open spec fn spec_id_field(lit: StructLiteralModel) -> Result<(nat, Seq<char>, Seq<char>), IdFieldErrorModel> {
    if lit.has_rest {
        Err(IdFieldErrorModel::StructUpdate)
    } else {
        scan_id_field(lit.fields, 0, None)
    }
}

/// The diagnostic of an id-field failure.
pub open spec fn id_field_message(e: IdFieldErrorModel) -> Seq<char> {
    match e {
        IdFieldErrorModel::StructUpdate => STRUCT_UPDATE_MSG@,
        IdFieldErrorModel::Ambiguous(a, b) => "ambiguous id field: both `"@ + a + "` and `"@ + b
            + AMBIGUOUS_TAIL@,
        IdFieldErrorModel::NotStringLiteral(n) => "`"@ + n + NOT_LITERAL_TAIL@,
        IdFieldErrorModel::Missing => MISSING_ID_MSG@,
    }
}

pub const STRUCT_UPDATE_MSG: &'static str = "struct update syntax (`..rest`) is not supported; list all fields explicitly";

pub const AMBIGUOUS_TAIL: &'static str = "` are reserved GTS instance-id field names; use exactly one";

pub const NOT_LITERAL_TAIL: &'static str = ":` must be a string literal containing the full GTS instance id (e.g. \"gts.acme.core.events.topic.v1~vendor.app.x.v1\")";

pub const MISSING_ID_MSG: &'static str = "missing GTS instance-id field; the struct literal must contain exactly one of: id, gts_id, gtsId";

/// Whether `n` is a reserved id-field name.
fn is_id_field_name_exec(n: &str) -> (r: bool)
    ensures
        r == is_id_field_name(n@),
{
    str_eq(n, "id") || str_eq(n, "gts_id") || str_eq(n, "gtsId")
}

/// Finds the instance-id field of a struct literal: its position, name and
/// string-literal value.
pub fn extract_id_field(lit: &StructLiteral) -> (r: Result<(usize, String, String), IdFieldError>)
    ensures
        match spec_id_field(lit@) {
            Ok((i, n, v)) => r is Ok && r->Ok_0.0 == i && r->Ok_0.1@ == n && r->Ok_0.2@ == v,
            Err(e) => r is Err && r->Err_0@ == e,
        },
{
    if lit.has_rest {
        return Err(IdFieldError::StructUpdate);
    }
    let ghost fs = lit@.fields;
    let mut found: Option<(usize, String, String)> = None;
    let mut i: usize = 0;
    while i < lit.fields.len()
        invariant
            i <= lit.fields@.len(),
            fs == lit@.fields,
            !lit.has_rest,
            spec_id_field(lit@) == scan_id_field(fs, i as nat, match found {
                Some(f) => Some((f.0 as nat, f.1@, f.2@)),
                None => None,
            }),
        decreases lit.fields.len() - i,
    {
        let field = &lit.fields[i];
        assert(fs[i as int] == field@);
        match &field.name {
            Some(n) => {
                if is_id_field_name_exec(n.as_str()) {
                    match &found {
                        Some(prev) => {
                            return Err(IdFieldError::Ambiguous(prev.1.clone(), n.clone()));
                        },
                        None => {},
                    }
                    match &field.string_value {
                        Some(v) => {
                            found = Some((i, n.clone(), v.clone()));
                        },
                        None => {
                            return Err(IdFieldError::NotStringLiteral(n.clone()));
                        },
                    }
                }
            },
            None => {},
        }
        i = i + 1;
    }
    match found {
        Some(f) => Ok(f),
        None => Err(IdFieldError::Missing),
    }
}

/// The diagnostic of an id-field failure.
pub fn id_field_error_message(e: &IdFieldError) -> (r: String)
    ensures
        r@ == id_field_message(e@),
{
    match e {
        IdFieldError::StructUpdate => String::from_str(STRUCT_UPDATE_MSG),
        IdFieldError::Ambiguous(a, b) => {
            let mut m = String::from_str("ambiguous id field: both `");
            m.append(a.as_str());
            m.append("` and `");
            m.append(b.as_str());
            m.append(AMBIGUOUS_TAIL);
            m
        },
        IdFieldError::NotStringLiteral(n) => {
            let mut m = String::from_str("`");
            m.append(n.as_str());
            m.append(NOT_LITERAL_TAIL);
            m
        },
        IdFieldError::Missing => String::from_str(MISSING_ID_MSG),
    }
}

// ---------------------------------------------------------------------------
// The rewrite plan of a typed instance literal
// ---------------------------------------------------------------------------

/// The diagnostic of an instance id that is not a valid concrete
/// identifier.
pub open spec fn invalid_instance_message(e: GtsIdErrorModel) -> Seq<char> {
    match e.segment {
        Some(s) => "Invalid GTS instance ID: segment #"@ + decimal(s.num as nat) + ": "@ + e.cause,
        None => "Invalid GTS instance ID: "@ + e.cause,
    }
}

/// What the typed instance macro makes of a struct literal: the position
/// of its id field, with the id split into type identifier and instance
/// segment; or the diagnostic of the first check it fails (the id field,
/// then the identifier's validity, then its split).
pub open spec fn spec_instance_plan(lit: StructLiteralModel) -> Result<(nat, Seq<char>, Seq<char>), Seq<char>> {
    match spec_id_field(lit) {
        Err(e) => Err(id_field_message(e)),
        Ok((i, _n, l)) => match spec_parse_id(l) {
            Err(f) => Err(invalid_instance_message(fault_error(l, f))),
            Ok(_) => match spec_split_instance_id(l) {
                Ok((p, s)) => Ok((i, p, s)),
                Err(m) => Err(m),
            },
        },
    }
}

/// The rewrite plan of a typed instance literal: the position of the id
/// field whose value becomes `GtsInstanceId::new(type_id, segment)`, with
/// those two texts; or the diagnostic that rejects the literal.
pub fn typed_instance_plan(lit: &StructLiteral) -> (r: Result<(usize, String, String), String>)
    ensures
        match spec_instance_plan(lit@) {
            Ok((i, p, s)) => r is Ok && r->Ok_0.0 == i && r->Ok_0.1@ == p && r->Ok_0.2@ == s,
            Err(m) => r is Err && r->Err_0@ == m,
        },
{
    let (idx, _name, raw) = match extract_id_field(lit) {
        Ok(t) => t,
        Err(e) => {
            return Err(id_field_error_message(&e));
        },
    };
    match parse_id(raw.as_str()) {
        Err(e) => {
            let m = match &e.segment {
                Some(seg) => {
                    let mut m = String::from_str("Invalid GTS instance ID: segment #");
                    m.append(decimal_string(seg.num).as_str());
                    m.append(": ");
                    m.append(e.cause.as_str());
                    assert(m@ =~= invalid_instance_message(e@));
                    m
                },
                None => {
                    let mut m = String::from_str("Invalid GTS instance ID: ");
                    m.append(e.cause.as_str());
                    assert(m@ =~= invalid_instance_message(e@));
                    m
                },
            };
            return Err(m);
        },
        Ok(_) => {},
    }
    match split_instance_id(raw.as_str()) {
        Ok((p, s)) => Ok((idx, p, s)),
        Err(m) => Err(m),
    }
}

// ---------------------------------------------------------------------------
// The schema target of a struct literal's path
// ---------------------------------------------------------------------------

/// A generic argument of a path segment: a path type, another type (such
/// as `()`), or no type at all (a lifetime or a constant).
#[derive(Debug)]
pub enum GenericArg {
    TypePath(TypePath),
    OtherType,
    NotAType,
}

/// A segment of a path: its name and, when it has them, its
/// angle-bracketed arguments.
#[derive(Debug)]
pub struct PathSegment {
    pub ident: String,
    pub angle_args: Option<Vec<GenericArg>>,
}

/// A type path, such as `BaseV1::<MiddleV1<LeafV1>>`.
#[derive(Debug)]
pub struct TypePath {
    pub segments: Vec<PathSegment>,
}

/// The position of the last argument that is a type.
pub open spec fn last_type_arg(args: Seq<GenericArg>, n: nat) -> Option<nat>
    decreases n,
{
    if n == 0 || n > args.len() {
        None
    } else if args[n - 1] is NotAType {
        last_type_arg(args, (n - 1) as nat)
    } else {
        Some((n - 1) as nat)
    }
}

/// The type an instance literal's path conforms to: when the path's last
/// segment has angle-bracketed arguments whose last type is a path, the
/// target of that path; otherwise the path itself.
pub open spec fn deepest_non_generic(p: TypePath) -> TypePath
    decreases p,
{
    if p.segments.len() == 0 {
        p
    } else {
        match p.segments[p.segments.len() - 1].angle_args {
            None => p,
            Some(args) => match last_type_arg(args@, args.len() as nat) {
                Some(k) => if k < args.len() {
                    match args[k as int] {
                        GenericArg::TypePath(q) => deepest_non_generic(q),
                        _ => p,
                    }
                } else {
                    p
                },
                None => p,
            },
        }
    }
}

/// The position of the last type argument among `args`.
fn last_type_arg_exec(args: &Vec<GenericArg>) -> (r: Option<usize>)
    ensures
        match last_type_arg(args@, args@.len()) {
            Some(k) => r == Some(k as usize) && k < args@.len(),
            None => r is None,
        },
{
    let mut n = args.len();
    while n > 0
        invariant
            n <= args@.len(),
            last_type_arg(args@, args@.len()) == last_type_arg(args@, n as nat),
        decreases n,
    {
        match &args[n - 1] {
            GenericArg::NotAType => {},
            _ => {
                return Some(n - 1);
            },
        }
        n = n - 1;
    }
    None
}

/// The type whose identifier an instance literal with path `path` must
/// extend: the deepest non-generic type along the last type arguments of
/// its last segment (`BaseV1::<MiddleV1<LeafV1>>` gives `LeafV1`,
/// `BaseV1::<()>` gives the path itself).
pub fn schema_target(path: &TypePath) -> (r: &TypePath)
    ensures
        *r == deepest_non_generic(*path),
    decreases path,
{
    let n = path.segments.len();
    if n == 0 {
        return path;
    }
    match &path.segments[n - 1].angle_args {
        None => path,
        Some(args) => match last_type_arg_exec(args) {
            Some(k) => match &args[k] {
                GenericArg::TypePath(q) => schema_target(q),
                _ => path,
            },
            None => path,
        },
    }
}

} // verus!
