# takumi

OpenAPI → typed intermediate representation, verified with Verus.

`takumi` lowers an OpenAPI document into resolved, typed operations and
schemas for code generators: every operation with its parameters merged and
typed, its request body and response type resolved through `$ref`s, every
component schema as named, typed fields, and operations grouped into CRUD
sets per resource.

## Layout

- `src/` — the verified library.
  - `openapi.rs`: the parts of a document that resolution reads, as plain
    values, and `$ref` lookups into its components.
  - `field_type.rs`: `FieldType` and `EnumValue`, and the classifier from a
    schema to a field type, stated as a spec function and proved.
  - `ref_resolver.rs`: following `$ref` chains without looping, with the
    resolution path as the loop guard.
  - `resolve.rs`: resolving a whole document.
  - `crud.rs`: grouping operations into CRUD sets by resource.
  - `ordered_map.rs`: the `indexmap` map the resolver fills, behind trusted
    wrappers whose contracts follow the crate's documented behaviour.
  - `text.rs`: character-level string helpers.
- `tests/` — tests run against the compiled library.
- `app/` — unverified glue: converting a document parsed by `sekkei` into the
  library's model, and the serde-enabled forms of the field types.
