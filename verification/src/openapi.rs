//! The parts of an OpenAPI document that resolution reads, held as plain
//! values.
//!
//! Keyed collections are held as `(key, value)` entries in key order, the way
//! an ordered map yields them. A lookup by key answers with the first entry
//! whose key matches.

use vstd::prelude::*;

use crate::text::{str_eq, after_last_slash};

verus! {

/// A JSON value as the resolver reads it.
///
/// A number carries its integer value when it is one that fits an `i64`, and
/// always its JSON text; an array or an object carries only its JSON text.
pub enum JsonValue {
    Null,
    Bool(bool),
    Number { as_i64: Option<i64>, text: String },
    String(String),
    Array(String),
    Object(String),
}

/// A schema node.
///
/// `schema_type` is the single base type with `"null"` folded into
/// `nullable`; `type_union` holds every name of a `type` array verbatim.
pub struct Schema {
    pub schema_type: Option<String>,
    pub type_union: Vec<String>,
    pub description: Option<String>,
    pub properties: Vec<(String, Schema)>,
    pub items: Option<Box<Schema>>,
    pub required: Vec<String>,
    pub enum_values: Option<Vec<JsonValue>>,
    pub const_value: Option<JsonValue>,
    pub ref_path: Option<String>,
    pub all_of: Vec<Schema>,
    pub one_of: Vec<Schema>,
    pub any_of: Vec<Schema>,
    pub nullable: bool,
    pub additional_properties: Option<Box<Schema>>,
    pub title: Option<String>,
}

impl Default for Schema {
    fn default() -> (r: Schema)
        ensures
            r.schema_type is None,
            r.type_union@.len() == 0,
            r.description is None,
            r.properties@.len() == 0,
            r.items is None,
            r.required@.len() == 0,
            r.enum_values is None,
            r.const_value is None,
            r.ref_path is None,
            r.all_of@.len() == 0,
            r.one_of@.len() == 0,
            r.any_of@.len() == 0,
            !r.nullable,
            r.additional_properties is None,
            r.title is None,
    {
        Schema {
            schema_type: None,
            type_union: Vec::new(),
            description: None,
            properties: Vec::new(),
            items: None,
            required: Vec::new(),
            enum_values: None,
            const_value: None,
            ref_path: None,
            all_of: Vec::new(),
            one_of: Vec::new(),
            any_of: Vec::new(),
            nullable: false,
            additional_properties: None,
            title: None,
        }
    }
}

/// An operation or path-level parameter.
pub struct Parameter {
    pub name: String,
    pub location: String,
    pub required: bool,
    pub description: Option<String>,
    pub schema: Option<Schema>,
    pub ref_path: Option<String>,
}

/// A media type entry of a body or a response.
pub struct MediaType {
    pub schema: Option<Schema>,
}

/// A request body, by media type.
pub struct RequestBody {
    pub required: bool,
    pub content: Vec<(String, MediaType)>,
    pub description: Option<String>,
    pub ref_path: Option<String>,
}

/// A response, by media type.
pub struct Response {
    pub content: Option<Vec<(String, MediaType)>>,
    pub ref_path: Option<String>,
}

/// One operation of a path.
pub struct Operation {
    pub operation_id: Option<String>,
    pub summary: Option<String>,
    pub description: Option<String>,
    pub parameters: Vec<Parameter>,
    pub request_body: Option<RequestBody>,
    pub responses: Vec<(String, Response)>,
    pub tags: Vec<String>,
}

/// The operations of one path, and its path-level parameters.
pub struct PathItem {
    pub get: Option<Operation>,
    pub post: Option<Operation>,
    pub put: Option<Operation>,
    pub delete: Option<Operation>,
    pub patch: Option<Operation>,
    pub parameters: Vec<Parameter>,
}

/// The reusable components of a document.
pub struct Components {
    pub schemas: Vec<(String, Schema)>,
    pub parameters: Vec<(String, Parameter)>,
    pub request_bodies: Vec<(String, RequestBody)>,
    pub responses: Vec<(String, Response)>,
}

/// An OpenAPI document: its paths in key order, and its components.
pub struct OpenApiSpec {
    pub paths: Vec<(String, PathItem)>,
    pub components: Option<Components>,
}

/// The index of the first entry whose key is `key`, if any.
pub open spec fn entry_index<V>(entries: Seq<(String, V)>, key: Seq<char>) -> Option<int>
    decreases entries.len(),
{
    if entries.len() == 0 {
        None
    } else {
        match entry_index(entries.drop_last(), key) {
            Some(i) => Some(i),
            None => if entries.last().0@ == key {
                Some(entries.len() - 1)
            } else {
                None
            },
        }
    }
}

/// `entry_index` finds the first match, and finds none only when no key matches.
pub proof fn lemma_entry_index<V>(entries: Seq<(String, V)>, key: Seq<char>)
    ensures
        match entry_index(entries, key) {
            Some(i) => 0 <= i < entries.len() && entries[i].0@ == key && forall|j: int|
                0 <= j < i ==> entries[j].0@ != key,
            None => forall|j: int| 0 <= j < entries.len() ==> entries[j].0@ != key,
        },
    decreases entries.len(),
{
    if entries.len() > 0 {
        lemma_entry_index(entries.drop_last(), key);
        assert forall|j: int| 0 <= j < entries.len() - 1 implies entries.drop_last()[j] == entries[j] by {}
    }
}

/// Whether no two entries share a key. Every keyed collection of a parsed
/// document has this property, its maps holding each key once; under it,
/// the first entry whose key matches is the only one.
pub open spec fn keys_distinct<V>(entries: Seq<(String, V)>) -> bool {
    forall|i: int, j: int| 0 <= i < j < entries.len() ==> entries[i].0@ != entries[j].0@
}

/// With distinct keys, looking up an entry's key finds that entry.
pub proof fn lemma_lookup_distinct<V>(entries: Seq<(String, V)>, k: int)
    requires
        keys_distinct(entries),
        0 <= k < entries.len(),
    ensures
        entry_index(entries, entries[k].0@) == Some(k),
        lookup(entries, entries[k].0@) == Some(entries[k].1),
{
    lemma_entry_index(entries, entries[k].0@);
}

/// The value of the first entry whose key is `key`, if any.
pub open spec fn lookup<V>(entries: Seq<(String, V)>, key: Seq<char>) -> Option<V> {
    match entry_index(entries, key) {
        Some(i) => Some(entries[i].1),
        None => None,
    }
}

/// Finds the first entry whose key is `key`.
pub fn find_entry<'a, V>(entries: &'a Vec<(String, V)>, key: &str) -> (r: Option<&'a V>)
    ensures
        match lookup(entries@, key@) {
            Some(v) => r is Some && *r->0 == v,
            None => r is None,
        },
{
    let mut i: usize = 0;
    proof {
        lemma_entry_index(entries@, key@);
    }
    while i < entries.len()
        invariant
            i <= entries@.len(),
            forall|j: int| 0 <= j < i ==> entries@[j].0@ != key@,
        decreases entries@.len() - i,
    {
        if str_eq(entries[i].0.as_str(), key) {
            proof {
                lemma_entry_index(entries@, key@);
                match entry_index(entries@, key@) {
                    Some(c) => {
                        if c < i {
                            assert(entries@[c].0@ != key@);
                        } else if c > i {
                            assert(entries@[i as int].0@ != key@);
                        }
                    },
                    None => {
                        assert(entries@[i as int].0@ != key@);
                    },
                }
            }
            return Some(&entries[i].1);
        }
        i = i + 1;
    }
    None
}



/// The component name a `$ref` pointer names: the text after its last `/`.
///
/// Trusted: `sekkei::ref_name`, whose body is
/// `ref_path.rsplit('/').next().unwrap_or(ref_path)`, which yields the text
/// after the last `/`, or the whole pointer when it holds none.
#[verifier::external_body]
pub(crate) fn ref_name(ref_path: &str) -> (r: String)
    ensures
        r@ == after_last_slash(ref_path@),
{
    sekkei::ref_name(ref_path).to_string()
}

impl OpenApiSpec {
    /// The component schemas, or none when there are no components.
    pub open spec fn component_schemas(self) -> Seq<(String, Schema)> {
        match self.components {
            Some(c) => c.schemas@,
            None => Seq::empty(),
        }
    }

    /// The component parameters, or none when there are no components.
    pub open spec fn component_parameters(self) -> Seq<(String, Parameter)> {
        match self.components {
            Some(c) => c.parameters@,
            None => Seq::empty(),
        }
    }

    /// The component request bodies, or none when there are no components.
    pub open spec fn component_request_bodies(self) -> Seq<(String, RequestBody)> {
        match self.components {
            Some(c) => c.request_bodies@,
            None => Seq::empty(),
        }
    }

    /// The component responses, or none when there are no components.
    pub open spec fn component_responses(self) -> Seq<(String, Response)> {
        match self.components {
            Some(c) => c.responses@,
            None => Seq::empty(),
        }
    }

    /// Whether the paths and each map of components hold every key once,
    /// as the maps of a parsed document do.
    pub open spec fn well_formed(self) -> bool {
        &&& keys_distinct(self.paths@)
        &&& keys_distinct(self.component_schemas())
        &&& keys_distinct(self.component_parameters())
        &&& keys_distinct(self.component_request_bodies())
        &&& keys_distinct(self.component_responses())
    }

    /// Looks up a schema by a `$ref` pointer such as `#/components/schemas/Foo`:
    /// the component schema named by the pointer's last segment.
    pub fn resolve_schema_ref(&self, ref_path: &str) -> (r: Option<&Schema>)
        ensures
            match lookup(self.component_schemas(), after_last_slash(ref_path@)) {
                Some(s) => r is Some && *r->0 == s,
                None => r is None,
            },
    {
        let name = ref_name(ref_path);
        match &self.components {
            Some(c) => find_entry(&c.schemas, name.as_str()),
            None => None,
        }
    }

    /// Looks up a parameter by a `$ref` pointer.
    pub fn resolve_parameter_ref(&self, ref_path: &str) -> (r: Option<&Parameter>)
        ensures
            match lookup(self.component_parameters(), after_last_slash(ref_path@)) {
                Some(p) => r is Some && *r->0 == p,
                None => r is None,
            },
    {
        let name = ref_name(ref_path);
        match &self.components {
            Some(c) => find_entry(&c.parameters, name.as_str()),
            None => None,
        }
    }

    /// Looks up a request body by a `$ref` pointer.
    pub fn resolve_request_body_ref(&self, ref_path: &str) -> (r: Option<&RequestBody>)
        ensures
            match lookup(self.component_request_bodies(), after_last_slash(ref_path@)) {
                Some(b) => r is Some && *r->0 == b,
                None => r is None,
            },
    {
        let name = ref_name(ref_path);
        match &self.components {
            Some(c) => find_entry(&c.request_bodies, name.as_str()),
            None => None,
        }
    }

    /// Looks up a response by a `$ref` pointer.
    pub fn resolve_response_ref(&self, ref_path: &str) -> (r: Option<&Response>)
        ensures
            match lookup(self.component_responses(), after_last_slash(ref_path@)) {
                Some(x) => r is Some && *r->0 == x,
                None => r is None,
            },
    {
        let name = ref_name(ref_path);
        match &self.components {
            Some(c) => find_entry(&c.responses, name.as_str()),
            None => None,
        }
    }
}

} // verus!
