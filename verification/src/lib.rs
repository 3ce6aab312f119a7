//! GTS identifiers: parsing, validation and matching of Global Type System
//! identifiers and patterns, with the typed identifiers and operations
//! built on them.

pub mod entity_ids;
pub mod error;
pub mod gts_id;
pub mod instance_literal;
pub mod json;
pub mod json_pointer;
pub mod json_text;
pub mod lint_prefixes;
pub mod ops;
pub mod parse;
pub mod pattern;
pub mod prefix;
pub mod properties;
pub mod schema_refs;
pub mod schema_traits;
pub mod schema_validation;
pub mod segment;
pub mod text;
pub mod uuid;

pub use entity_ids::{GtsInstanceId, GtsTypeId, GTS_ID_URI_PREFIX};
pub use error::{GtsIdError, GtsIdSegmentError};
pub use gts_id::GtsId;
pub use ops::GtsOps;
pub use parse::GTS_ID_MAX_LENGTH;
pub use pattern::GtsIdPattern;
pub use prefix::{DEFAULT_GTS_ID_PREFIX, GTS_ID_PREFIX, GTS_ID_PREFIX_ENV};
pub use schema_refs::{ExtractRefsError, InvalidRefReason};
pub use segment::{GtsIdPatternSegment, GtsIdSegment, GtsIdSegmentParts, GtsUuidTail, SegmentView};
pub use uuid::GtsUuid;
