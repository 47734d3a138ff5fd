//! Lowers an OpenAPI document into a resolved, typed intermediate
//! representation suitable for code generation.

pub mod crud;
pub mod field_type;
pub mod openapi;
pub mod ordered_map;
pub mod ref_resolver;
pub mod resolve;
pub mod text;

pub use crud::{
    CrudGroup, CrudGrouper, PathBasedGrouper, extract_base_path, group_crud, path_to_resource_name,
};
pub use field_type::{DefaultTypeMapper, EnumValue, FieldType, TypeMapper, schema_to_field_type};
pub use openapi::{
    Components, JsonValue, MediaType, OpenApiSpec, Operation, Parameter, PathItem, RequestBody,
    Response, Schema,
};
pub use ref_resolver::{RefResolver, schema_to_field_type_in};
pub use resolve::{
    ResolvedBody, ResolvedField, ResolvedOp, ResolvedParam, ResolvedSchema, ResolvedSpec, resolve,
};
