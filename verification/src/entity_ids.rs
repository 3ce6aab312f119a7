//! Typed GTS entity identifiers: [`GtsTypeId`] for type identifiers (ending
//! with `~`) and [`GtsInstanceId`] for instance identifiers, both built on a
//! crate-private string newtype.

use vstd::prelude::*;
use vstd::string::*;

use crate::error::{fault_error, GtsIdError, GtsIdErrorModel, IdFault};
use crate::gts_id::GtsId;
use crate::parse::spec_parse_id;
use crate::text::{str_eq, trim};

verus! {

broadcast use vstd::string::group_string_axioms;

/// URI-compatible prefix for GTS identifiers in a JSON Schema `$id` field
/// (e.g. `gts://gts.x.y.z...`). Used only for JSON Schema references, not
/// for identifier parsing.
pub const GTS_ID_URI_PREFIX: &'static str = "gts://";

/// A GTS entity identifier string, held without validation; validation lives
/// in the constructors of the typed identifiers built on it.
#[derive(Debug, Clone, PartialEq, Eq, Hash)]
pub(crate) struct GtsEntityId(String);

impl View for GtsEntityId {
    type V = Seq<char>;

    closed spec fn view(&self) -> Seq<char> {
        self.0@
    }
}

impl GtsEntityId {
    /// An entity identifier holding `id`, unvalidated.
    pub(crate) fn new(id: &str) -> (r: Self)
        ensures
            r@ == id@,
    {
        GtsEntityId(id.to_owned())
    }

    /// The identifier text.
    pub(crate) fn into_string(self) -> (r: String)
        ensures
            r@ == self@,
    {
        self.0
    }

    pub(crate) fn as_str(&self) -> (r: &str)
        ensures
            r@ == self@,
    {
        self.0.as_str()
    }
}

/// The outcome of validating `text` as an identifier of the kind chosen by
/// `want_type`: the identifier text (trimmed) on success; a parse fault on
/// the trimmed text; or a classification fault reported on `text` itself.
pub open spec fn spec_typed_id(text: Seq<char>, want_type: bool) -> Result<Seq<char>, GtsIdErrorModel> {
    let t = trim(text);
    match spec_parse_id(t) {
        Err(f) => Err(fault_error(t, f)),
        Ok(_) => {
            let is_type = t.len() > 0 && t.last() == '~';
            if want_type && !is_type {
                Err(fault_error(text, IdFault::TypeWithoutTilde))
            } else if !want_type && is_type {
                Err(fault_error(text, IdFault::InstanceEndsWithTilde))
            } else {
                Ok(t)
            }
        },
    }
}

/// Parses `text` and checks its kind (type or instance).
fn classify(text: &str, want_type: bool) -> (r: Result<GtsEntityId, GtsIdError>)
    ensures
        match spec_typed_id(text@, want_type) {
            Ok(t) => r is Ok && r->Ok_0@ == t,
            Err(e) => r is Err && r->Err_0@ == e,
        },
{
    let parsed = match GtsId::try_new(text) {
        Ok(p) => p,
        Err(e) => {
            return Err(e);
        },
    };
    let is_type = parsed.is_type();
    if want_type && !is_type {
        return Err(GtsIdError::new(text, String::from_str("GTS type IDs must end with '~'")));
    }
    if !want_type && is_type {
        return Err(
            GtsIdError::new(
                text,
                String::from_str(
                    "GTS instance IDs must not end with '~' (a trailing '~' denotes a type id)",
                ),
            ),
        );
    }
    Ok(GtsEntityId::new(parsed.as_ref()))
}

/// A GTS instance identifier (e.g.
/// `gts.x.core.events.topic.v1~vendor.app.orders.v1.0`). It can be used as
/// a map key, compared for equality and hashed.
#[derive(Debug, Clone, PartialEq, Eq, Hash)]
pub struct GtsInstanceId(GtsEntityId);

impl View for GtsInstanceId {
    type V = Seq<char>;

    closed spec fn view(&self) -> Seq<char> {
        self.0@
    }
}

impl GtsInstanceId {
    /// An instance identifier made by appending the instance `segment` to
    /// the type identifier `schema_id`, without validation.
    pub fn new(schema_id: &str, segment: &str) -> (r: Self)
        ensures
            r@ == schema_id@ + segment@,
    {
        let mut s = schema_id.to_owned();
        s.append(segment);
        GtsInstanceId(GtsEntityId::new(s.as_str()))
    }

    /// Validates `instance_id` as an instance identifier: it must parse as
    /// a GTS identifier (see [`GtsId::try_new`]) and must not be a type
    /// identifier (no trailing `~`).
    pub fn try_new(instance_id: &str) -> (r: Result<Self, GtsIdError>)
        ensures
            match spec_typed_id(instance_id@, false) {
                Ok(t) => r is Ok && r->Ok_0@ == t,
                Err(e) => r is Err && r->Err_0@ == e,
            },
    {
        match classify(instance_id, false) {
            Ok(e) => Ok(GtsInstanceId(e)),
            Err(e) => Err(e),
        }
    }

    /// The identifier text.
    pub fn into_string(self) -> (r: String)
        ensures
            r@ == self@,
    {
        self.0.into_string()
    }

    /// The identifier text, borrowed.
    pub fn as_ref(&self) -> (r: &str)
        ensures
            r@ == self@,
    {
        self.0.as_str()
    }

    /// The identifier text, as an owned string.
    pub fn to_string(&self) -> (r: String)
        ensures
            r@ == self@,
    {
        self.0.as_str().to_owned()
    }

    /// Whether the identifier text equals `other`.
    pub fn eq_str(&self, other: &str) -> (r: bool)
        ensures
            r == (self@ == other@),
    {
        str_eq(self.0.as_str(), other)
    }
}

impl From<GtsInstanceId> for String {
    fn from(id: GtsInstanceId) -> (r: String)
        ensures
            r@ == id@,
    {
        id.into_string()
    }
}

impl vstd::std_specs::convert::FromSpecImpl<GtsInstanceId> for String {
    open spec fn obeys_from_spec() -> bool {
        false
    }

    open spec fn from_spec(v: GtsInstanceId) -> String {
        arbitrary()
    }
}

/// A GTS type identifier (e.g. `gts.x.core.events.topic.v1~`). It can be
/// used as a map key, compared for equality and hashed.
#[derive(Debug, Clone, PartialEq, Eq, Hash)]
pub struct GtsTypeId(GtsEntityId);

impl View for GtsTypeId {
    type V = Seq<char>;

    closed spec fn view(&self) -> Seq<char> {
        self.0@
    }
}

impl GtsTypeId {
    /// A type identifier holding `type_id`, without validation.
    pub fn new(type_id: &str) -> (r: Self)
        ensures
            r@ == type_id@,
    {
        GtsTypeId(GtsEntityId::new(type_id))
    }

    /// Validates `type_id` as a type identifier: it must parse as a GTS
    /// identifier (see [`GtsId::try_new`]) and end with `~`.
    pub fn try_new(type_id: &str) -> (r: Result<Self, GtsIdError>)
        ensures
            match spec_typed_id(type_id@, true) {
                Ok(t) => r is Ok && r->Ok_0@ == t,
                Err(e) => r is Err && r->Err_0@ == e,
            },
    {
        match classify(type_id, true) {
            Ok(e) => Ok(GtsTypeId(e)),
            Err(e) => Err(e),
        }
    }

    /// The identifier text.
    pub fn into_string(self) -> (r: String)
        ensures
            r@ == self@,
    {
        self.0.into_string()
    }

    /// The identifier text, borrowed.
    pub fn as_ref(&self) -> (r: &str)
        ensures
            r@ == self@,
    {
        self.0.as_str()
    }

    /// The identifier text, as an owned string.
    pub fn to_string(&self) -> (r: String)
        ensures
            r@ == self@,
    {
        self.0.as_str().to_owned()
    }

    /// Whether the identifier text equals `other`.
    pub fn eq_str(&self, other: &str) -> (r: bool)
        ensures
            r == (self@ == other@),
    {
        str_eq(self.0.as_str(), other)
    }
}

impl From<GtsTypeId> for String {
    fn from(id: GtsTypeId) -> (r: String)
        ensures
            r@ == id@,
    {
        id.into_string()
    }
}

impl vstd::std_specs::convert::FromSpecImpl<GtsTypeId> for String {
    open spec fn obeys_from_spec() -> bool {
        false
    }

    open spec fn from_spec(v: GtsTypeId) -> String {
        arbitrary()
    }
}

} // verus!
