# gts_id

Global Type System (GTS) identifiers and the JSON steps of GTS schema
traits, written in Verus. Every function in `src/` carries a contract that
Verus proves, except five small trusted wrappers around outside calls
(`str::to_lowercase`, `uuid::Uuid::parse_str`, `uuid::Uuid::new_v5`,
`uuid::Uuid::NAMESPACE_URL`, and `jsonschema` validation in
`schema_validation.rs`), whose contracts are believed.

## Layout

- `src/text.rs`, `src/prefix.rs`, `src/error.rs` — text helpers, the
  identifier prefix, and the error values with their messages.
- `src/parse.rs`, `src/segment.rs` — the identifier grammar: splitting at
  `~`, segment tokens, versions, UUID tails, wildcards.
- `src/gts_id.rs`, `src/pattern.rs`, `src/uuid.rs` — parsed identifiers and
  patterns, matching and coverage, name-based UUIDs.
- `src/entity_ids.rs`, `src/ops.rs`, `src/instance_literal.rs` — typed
  identifiers, the identifier operations and their result records, and what
  the typed instance macro decides about a struct literal (its id field, the
  split of the id, the schema target type), read as plain values.
- `src/json.rs`, `src/json_text.rs`, `src/json_pointer.rs` — a JSON value
  with its model, its compact text, and JSON Pointer lookup.
- `src/schema_refs.rs`, `src/schema_traits.rs`, `src/schema_validation.rs`
  — `$ref` extraction, trait-schema composition, RFC 7396 merging,
  `const`/`default` materialization, local `$ref` inlining, and trait
  validation through the `jsonschema` crate.
- `src/lint_prefixes.rs` — the decisions of the hard-coded-prefix lint.
- `src/properties.rs` — laws that relate several functions.
- `app/` — serde/schemars/thiserror copies of the library types, conversions
  from `serde_json` and `uuid`, and the environment read of the lint setting.
- `tests/` — executable tests of the library.

## Not included

- The entity store and everything built on it (adding, validating, casting,
  querying and listing entities), and the compatibility step of trait-chain
  validation, whose sources are not part of this project's material.
- The proc-macro entry points and their token generation (`syn`/`quote`), and
  the `rustc` lint pass itself: only the decisions they make are here.
