//! Resolving a document into typed operations and schemas.

use vstd::prelude::*;

use crate::field_type::{FieldType, SpecFieldType, schema_field_type, schema_to_field_type};
use crate::openapi::{
    OpenApiSpec, Schema, Parameter, MediaType, Operation, PathItem, Response, lookup, find_entry,
    keys_distinct, lemma_lookup_distinct,
};
use crate::ordered_map::{
    schema_table, schema_table_clone, schema_table_new, schema_table_insert, schema_table_get, schema_table_len, map_insert,
    key_position, keys_unique, lemma_key_position, lemma_insert_keeps_keys_unique,
};
use crate::text::{str_eq, opt_text, texts, clone_opt_text, clone_texts, after_last_slash};

use indexmap::IndexMap;

verus! {

/// A resolved parameter with a typed field.
#[derive(Debug)]
pub struct ResolvedParam {
    pub name: String,
    pub location: String,
    pub required: bool,
    pub description: Option<String>,
    pub field_type: FieldType,
}

pub struct SpecResolvedParam {
    pub name: Seq<char>,
    pub location: Seq<char>,
    pub required: bool,
    pub description: Option<Seq<char>>,
    pub field_type: SpecFieldType,
}

impl View for ResolvedParam {
    type V = SpecResolvedParam;

    open spec fn view(&self) -> SpecResolvedParam {
        SpecResolvedParam {
            name: self.name@,
            location: self.location@,
            required: self.required,
            description: opt_text(self.description),
            field_type: self.field_type@,
        }
    }
}

/// A resolved request body.
#[derive(Debug)]
pub struct ResolvedBody {
    pub required: bool,
    pub field_type: FieldType,
    pub description: Option<String>,
}

pub struct SpecResolvedBody {
    pub required: bool,
    pub field_type: SpecFieldType,
    pub description: Option<Seq<char>>,
}

impl View for ResolvedBody {
    type V = SpecResolvedBody;

    open spec fn view(&self) -> SpecResolvedBody {
        SpecResolvedBody {
            required: self.required,
            field_type: self.field_type@,
            description: opt_text(self.description),
        }
    }
}

/// A fully resolved operation with typed parameters and response.
#[derive(Debug)]
pub struct ResolvedOp {
    pub id: Option<String>,
    pub method: String,
    pub path: String,
    pub summary: Option<String>,
    pub description: Option<String>,
    pub parameters: Vec<ResolvedParam>,
    pub request_body: Option<ResolvedBody>,
    pub response_type: Option<FieldType>,
    pub tags: Vec<String>,
}

pub struct SpecResolvedOp {
    pub id: Option<Seq<char>>,
    pub method: Seq<char>,
    pub path: Seq<char>,
    pub summary: Option<Seq<char>>,
    pub description: Option<Seq<char>>,
    pub parameters: Seq<SpecResolvedParam>,
    pub request_body: Option<SpecResolvedBody>,
    pub response_type: Option<SpecFieldType>,
    pub tags: Seq<Seq<char>>,
}

/// The view of each parameter.
pub open spec fn params_view(ps: Seq<ResolvedParam>) -> Seq<SpecResolvedParam> {
    ps.map_values(|p: ResolvedParam| p@)
}

impl View for ResolvedOp {
    type V = SpecResolvedOp;

    open spec fn view(&self) -> SpecResolvedOp {
        SpecResolvedOp {
            id: opt_text(self.id),
            method: self.method@,
            path: self.path@,
            summary: opt_text(self.summary),
            description: opt_text(self.description),
            parameters: params_view(self.parameters@),
            request_body: match self.request_body {
                Some(b) => Some(b@),
                None => None,
            },
            response_type: match self.response_type {
                Some(t) => Some(t@),
                None => None,
            },
            tags: texts(self.tags@),
        }
    }
}

/// A named, typed field in a resolved schema.
#[derive(Debug)]
pub struct ResolvedField {
    pub name: String,
    pub field_type: FieldType,
    pub required: bool,
    pub description: Option<String>,
}

pub struct SpecResolvedField {
    pub name: Seq<char>,
    pub field_type: SpecFieldType,
    pub required: bool,
    pub description: Option<Seq<char>>,
}

impl View for ResolvedField {
    type V = SpecResolvedField;

    open spec fn view(&self) -> SpecResolvedField {
        SpecResolvedField {
            name: self.name@,
            field_type: self.field_type@,
            required: self.required,
            description: opt_text(self.description),
        }
    }
}

/// A fully resolved schema with named fields.
#[derive(Debug)]
pub struct ResolvedSchema {
    pub name: String,
    pub fields: Vec<ResolvedField>,
    pub description: Option<String>,
}

pub struct SpecResolvedSchema {
    pub name: Seq<char>,
    pub fields: Seq<SpecResolvedField>,
    pub description: Option<Seq<char>>,
}

/// The view of each field.
pub open spec fn fields_view(fs: Seq<ResolvedField>) -> Seq<SpecResolvedField> {
    fs.map_values(|f: ResolvedField| f@)
}

impl View for ResolvedSchema {
    type V = SpecResolvedSchema;

    open spec fn view(&self) -> SpecResolvedSchema {
        SpecResolvedSchema {
            name: self.name@,
            fields: fields_view(self.fields@),
            description: opt_text(self.description),
        }
    }
}

impl Clone for ResolvedParam {
    fn clone(&self) -> (r: Self)
        ensures
            r@ == self@,
    {
        ResolvedParam {
            name: self.name.clone(),
            location: self.location.clone(),
            required: self.required,
            description: clone_opt_text(&self.description),
            field_type: self.field_type.duplicate(),
        }
    }
}

impl Clone for ResolvedBody {
    fn clone(&self) -> (r: Self)
        ensures
            r@ == self@,
    {
        ResolvedBody {
            required: self.required,
            field_type: self.field_type.duplicate(),
            description: clone_opt_text(&self.description),
        }
    }
}

impl Clone for ResolvedField {
    fn clone(&self) -> (r: Self)
        ensures
            r@ == self@,
    {
        ResolvedField {
            name: self.name.clone(),
            field_type: self.field_type.duplicate(),
            required: self.required,
            description: clone_opt_text(&self.description),
        }
    }
}

impl Clone for ResolvedOp {
    fn clone(&self) -> (r: Self)
        ensures
            r@ == self@,
    {
        let mut parameters: Vec<ResolvedParam> = Vec::new();
        let mut i: usize = 0;
        while i < self.parameters.len()
            invariant
                i <= self.parameters@.len(),
                parameters@.len() == i,
                forall|k: int| 0 <= k < i ==> #[trigger] parameters@[k]@ == self.parameters@[k]@,
            decreases self.parameters@.len() - i,
        {
            parameters.push(self.parameters[i].clone());
            i = i + 1;
        }
        assert(params_view(parameters@) =~= params_view(self.parameters@));
        let request_body = match &self.request_body {
            Some(b) => Some(b.clone()),
            None => None,
        };
        let response_type = match &self.response_type {
            Some(t) => Some(t.duplicate()),
            None => None,
        };
        ResolvedOp {
            id: clone_opt_text(&self.id),
            method: self.method.clone(),
            path: self.path.clone(),
            summary: clone_opt_text(&self.summary),
            description: clone_opt_text(&self.description),
            parameters,
            request_body,
            response_type,
            tags: clone_texts(&self.tags),
        }
    }
}

impl Clone for ResolvedSchema {
    fn clone(&self) -> (r: Self)
        ensures
            r@ == self@,
    {
        let mut fields: Vec<ResolvedField> = Vec::new();
        let mut i: usize = 0;
        while i < self.fields.len()
            invariant
                i <= self.fields@.len(),
                fields@.len() == i,
                forall|k: int| 0 <= k < i ==> #[trigger] fields@[k]@ == self.fields@[k]@,
            decreases self.fields@.len() - i,
        {
            fields.push(self.fields[i].clone());
            i = i + 1;
        }
        assert(fields_view(fields@) =~= fields_view(self.fields@));
        ResolvedSchema {
            name: self.name.clone(),
            fields,
            description: clone_opt_text(&self.description),
        }
    }
}

impl ResolvedOp {
    /// Returns `true` if the operation has a request body.
    #[must_use]
    pub fn has_body(&self) -> (r: bool)
        ensures
            r == self.request_body is Some,
    {
        self.request_body.is_some()
    }

    /// The parameters at a location (e.g. "path", "query", "header"), in order.
    pub fn params_by_location<'a>(&'a self, location: &str) -> (r: Vec<&'a ResolvedParam>)
        ensures
            r@.map_values(|p: &ResolvedParam| p@) == params_view(self.parameters@).filter(
                |p: SpecResolvedParam| p.location == location@,
            ),
    {
        let ghost pred = |p: SpecResolvedParam| p.location == location@;
        let mut out: Vec<&'a ResolvedParam> = Vec::new();
        let mut i: usize = 0;
        while i < self.parameters.len()
            invariant
                i <= self.parameters@.len(),
                pred == (|p: SpecResolvedParam| p.location == location@),
                out@.map_values(|p: &ResolvedParam| p@) == params_view(
                    self.parameters@.take(i as int),
                ).filter(pred),
            decreases self.parameters@.len() - i,
        {
            let ghost before = out@;
            proof {
                reveal_with_fuel(Seq::<_>::filter, 1);
                assert(params_view(self.parameters@.take(i + 1)).drop_last() =~= params_view(
                    self.parameters@.take(i as int),
                ));
                assert(params_view(self.parameters@.take(i + 1)).last() == self.parameters@[i as int]@);
            }
            let matched = str_eq(self.parameters[i].location.as_str(), location);
            if matched {
                out.push(&self.parameters[i]);
                assert(out@.map_values(|p: &ResolvedParam| p@) =~= before.map_values(|p: &ResolvedParam| p@).push(
                    self.parameters@[i as int]@,
                ));
            }
            proof {
                reveal_with_fuel(Seq::<_>::filter, 1);
                let whole = params_view(self.parameters@.take(i + 1));
                assert(whole.drop_last() =~= params_view(self.parameters@.take(i as int)));
                let prefix = params_view(self.parameters@.take(i as int));
                assert(whole.filter(pred) == (if pred(whole.last()) {
                    whole.drop_last().filter(pred).push(whole.last())
                } else {
                    whole.drop_last().filter(pred)
                }));
                assert(whole.drop_last().filter(pred) == prefix.filter(pred));
                assert(before.map_values(|p: &ResolvedParam| p@) == prefix.filter(pred));
                assert(whole.last() == self.parameters@[i as int]@);
                assert(pred(whole.last()) == matched);
                if matched {
                    assert(out@.map_values(|p: &ResolvedParam| p@) =~= whole.filter(pred));
                } else {
                    assert(out@ == before);
                }
            }
            i = i + 1;
        }
        assert(self.parameters@.take(self.parameters@.len() as int) =~= self.parameters@);
        out
    }
}

impl ResolvedSchema {
    /// The required fields, in order.
    pub fn required_fields(&self) -> (r: Vec<&ResolvedField>)
        ensures
            r@.map_values(|f: &ResolvedField| f@) == fields_view(self.fields@).filter(
                |f: SpecResolvedField| f.required,
            ),
    {
        let r = self.fields_where(true);
        assert((|f: SpecResolvedField| f.required == true) =~= (|f: SpecResolvedField| f.required));
        r
    }

    /// The optional fields, in order.
    pub fn optional_fields(&self) -> (r: Vec<&ResolvedField>)
        ensures
            r@.map_values(|f: &ResolvedField| f@) == fields_view(self.fields@).filter(
                |f: SpecResolvedField| !f.required,
            ),
    {
        let r = self.fields_where(false);
        assert((|f: SpecResolvedField| f.required == false) =~= (|f: SpecResolvedField| !f.required));
        r
    }

    fn fields_where(&self, required: bool) -> (r: Vec<&ResolvedField>)
        ensures
            r@.map_values(|f: &ResolvedField| f@) == fields_view(self.fields@).filter(
                |f: SpecResolvedField| f.required == required,
            ),
    {
        let ghost pred = |f: SpecResolvedField| f.required == required;
        let mut out: Vec<&ResolvedField> = Vec::new();
        let mut i: usize = 0;
        while i < self.fields.len()
            invariant
                i <= self.fields@.len(),
                pred == (|f: SpecResolvedField| f.required == required),
                out@.map_values(|f: &ResolvedField| f@) == fields_view(
                    self.fields@.take(i as int),
                ).filter(pred),
            decreases self.fields@.len() - i,
        {
            let ghost before = out@;
            proof {
                reveal_with_fuel(Seq::<_>::filter, 1);
                assert(fields_view(self.fields@.take(i + 1)).drop_last() =~= fields_view(
                    self.fields@.take(i as int),
                ));
                assert(fields_view(self.fields@.take(i + 1)).last() == self.fields@[i as int]@);
            }
            let matched = self.fields[i].required == required;
            if matched {
                out.push(&self.fields[i]);
                assert(out@.map_values(|f: &ResolvedField| f@) =~= before.map_values(|f: &ResolvedField| f@).push(
                    self.fields@[i as int]@,
                ));
            }
            proof {
                reveal_with_fuel(Seq::<_>::filter, 1);
                let whole = fields_view(self.fields@.take(i + 1));
                assert(whole.drop_last() =~= fields_view(self.fields@.take(i as int)));
                let prefix = fields_view(self.fields@.take(i as int));
                assert(whole.filter(pred) == (if pred(whole.last()) {
                    whole.drop_last().filter(pred).push(whole.last())
                } else {
                    whole.drop_last().filter(pred)
                }));
                assert(whole.drop_last().filter(pred) == prefix.filter(pred));
                assert(before.map_values(|f: &ResolvedField| f@) == prefix.filter(pred));
                assert(whole.last() == self.fields@[i as int]@);
                assert(pred(whole.last()) == matched);
                if matched {
                    assert(out@.map_values(|f: &ResolvedField| f@) =~= whole.filter(pred));
                } else {
                    assert(out@ == before);
                }
            }
            i = i + 1;
        }
        assert(self.fields@.take(self.fields@.len() as int) =~= self.fields@);
        out
    }
}


// ── Resolution ─────────────────────────────────────────────────────────

/// The field type of a parameter: its schema's, or `Any` without one.
pub open spec fn param_field_type(p: Parameter) -> SpecFieldType {
    match p.schema {
        Some(s) => schema_field_type(s),
        None => SpecFieldType::Any,
    }
}

/// A parameter resolved: a `$ref` is replaced by the component parameter
/// its last segment names (none when it dangles), and the result carries
/// that parameter's name, location, requiredness, description and type.
pub open spec fn resolved_param(doc: OpenApiSpec, p: Parameter) -> Option<SpecResolvedParam> {
    let target = match p.ref_path {
        Some(r) => lookup(doc.component_parameters(), after_last_slash(r@)),
        None => Some(p),
    };
    match target {
        Some(q) => Some(
            SpecResolvedParam {
                name: q.name@,
                location: q.location@,
                required: q.required,
                description: opt_text(q.description),
                field_type: param_field_type(q),
            },
        ),
        None => None,
    }
}

/// Whether a parameter with the same name and location is already listed.
pub open spec fn has_param(acc: Seq<SpecResolvedParam>, p: SpecResolvedParam) -> bool {
    exists|i: int| 0 <= i < acc.len() && acc[i].name == p.name && acc[i].location == p.location
}

/// The path-level parameters that resolve, in order.
pub open spec fn path_level_params(doc: OpenApiSpec, ps: Seq<Parameter>) -> Seq<SpecResolvedParam>
    decreases ps.len(),
{
    if ps.len() == 0 {
        Seq::empty()
    } else {
        let acc = path_level_params(doc, ps.drop_last());
        match resolved_param(doc, ps.last()) {
            Some(rp) => acc.push(rp),
            None => acc,
        }
    }
}

/// `acc` followed by the operation-level parameters that resolve, each
/// dropped when one with the same name and location is already listed.
pub open spec fn merged_params(
    doc: OpenApiSpec,
    acc: Seq<SpecResolvedParam>,
    ps: Seq<Parameter>,
) -> Seq<SpecResolvedParam>
    decreases ps.len(),
{
    if ps.len() == 0 {
        acc
    } else {
        let a = merged_params(doc, acc, ps.drop_last());
        match resolved_param(doc, ps.last()) {
            Some(rp) => if has_param(a, rp) {
                a
            } else {
                a.push(rp)
            },
            None => a,
        }
    }
}

/// The schema of the `application/json` entry of a content map, if any.
pub open spec fn json_schema(content: Seq<(String, MediaType)>) -> Option<Schema> {
    match lookup(content, "application/json"@) {
        Some(mt) => mt.schema,
        None => None,
    }
}

/// The request body resolved: a `$ref` is replaced by the component body it
/// names, and its `application/json` schema gives the type; none without
/// either.
pub open spec fn resolved_body(doc: OpenApiSpec, op: Operation) -> Option<SpecResolvedBody> {
    match op.request_body {
        None => None,
        Some(b) => {
            let actual = match b.ref_path {
                Some(r) => lookup(doc.component_request_bodies(), after_last_slash(r@)),
                None => Some(b),
            };
            match actual {
                None => None,
                Some(a) => match json_schema(a.content@) {
                    Some(s) => Some(
                        SpecResolvedBody {
                            required: a.required,
                            field_type: schema_field_type(s),
                            description: opt_text(a.description),
                        },
                    ),
                    None => None,
                },
            }
        },
    }
}

/// The response type: the `application/json` schema of the `200` response,
/// or of the `201` response when there is no `200`, with a `$ref` response
/// replaced by the component response it names.
pub open spec fn resolved_response_type(doc: OpenApiSpec, op: Operation) -> Option<SpecFieldType> {
    let response = match lookup(op.responses@, "200"@) {
        Some(r) => Some(r),
        None => lookup(op.responses@, "201"@),
    };
    match response {
        None => None,
        Some(r) => {
            let actual = match r.ref_path {
                Some(p) => lookup(doc.component_responses(), after_last_slash(p@)),
                None => Some(r),
            };
            match actual {
                None => None,
                Some(a) => match a.content {
                    None => None,
                    Some(c) => match json_schema(c@) {
                        Some(s) => Some(schema_field_type(s)),
                        None => None,
                    },
                },
            }
        },
    }
}

/// An operation resolved.
pub open spec fn resolved_op(
    doc: OpenApiSpec,
    method: Seq<char>,
    path: Seq<char>,
    item: PathItem,
    op: Operation,
) -> SpecResolvedOp {
    SpecResolvedOp {
        id: opt_text(op.operation_id),
        method,
        path,
        summary: opt_text(op.summary),
        description: opt_text(op.description),
        parameters: merged_params(doc, path_level_params(doc, item.parameters@), op.parameters@),
        request_body: resolved_body(doc, op),
        response_type: resolved_response_type(doc, op),
        tags: texts(op.tags@),
    }
}

/// The operation of one method, resolved, if the path has it.
pub open spec fn method_op(
    doc: OpenApiSpec,
    method: Seq<char>,
    path: Seq<char>,
    item: PathItem,
    op: Option<Operation>,
) -> Seq<SpecResolvedOp> {
    match op {
        Some(o) => seq![resolved_op(doc, method, path, item, o)],
        None => Seq::empty(),
    }
}

/// The operations of a path, in the order get, post, put, delete, patch.
#[verifier::opaque]
pub open spec fn path_ops(doc: OpenApiSpec, path: Seq<char>, item: PathItem) -> Seq<SpecResolvedOp> {
    method_op(doc, "get"@, path, item, item.get) + method_op(doc, "post"@, path, item, item.post)
        + method_op(doc, "put"@, path, item, item.put) + method_op(
        doc,
        "delete"@,
        path,
        item,
        item.delete,
    ) + method_op(doc, "patch"@, path, item, item.patch)
}

/// Every operation of the given paths, path by path.
pub open spec fn resolved_operations(doc: OpenApiSpec, paths: Seq<(String, PathItem)>) -> Seq<
    SpecResolvedOp,
>
    decreases paths.len(),
{
    if paths.len() == 0 {
        Seq::empty()
    } else {
        resolved_operations(doc, paths.drop_last()) + path_ops(
            doc,
            paths.last().0@,
            paths.last().1,
        )
    }
}

/// Whether a name is listed as required.
pub open spec fn is_listed(required: Seq<String>, name: Seq<char>) -> bool {
    exists|i: int| 0 <= i < required.len() && required[i]@ == name
}

/// A property resolved into a field.
pub open spec fn resolved_field(owner: Schema, prop: (String, Schema)) -> SpecResolvedField {
    SpecResolvedField {
        name: prop.0@,
        field_type: schema_field_type(prop.1),
        required: is_listed(owner.required@, prop.0@),
        description: opt_text(prop.1.description),
    }
}

/// A component schema resolved: one field per property, in order.
pub open spec fn resolved_schema(name: Seq<char>, s: Schema) -> SpecResolvedSchema {
    SpecResolvedSchema {
        name,
        fields: s.properties@.map_values(|prop: (String, Schema)| resolved_field(s, prop)),
        description: opt_text(s.description),
    }
}

/// The component schemas resolved, each inserted under its name in order.
pub open spec fn resolved_schemas(comps: Seq<(String, Schema)>) -> Seq<(Seq<char>, SpecResolvedSchema)>
    decreases comps.len(),
{
    if comps.len() == 0 {
        Seq::empty()
    } else {
        map_insert(
            resolved_schemas(comps.drop_last()),
            comps.last().0@,
            resolved_schema(comps.last().0@, comps.last().1),
        )
    }
}

fn resolve_param(spec: &OpenApiSpec, param: &Parameter) -> (r: Option<ResolvedParam>)
    ensures
        match resolved_param(*spec, *param) {
            Some(v) => r is Some && r->0@ == v,
            None => r is None,
        },
{
    let p = match &param.ref_path {
        Some(ref_path) => match spec.resolve_parameter_ref(ref_path.as_str()) {
            Some(p) => p,
            None => return None,
        },
        None => param,
    };
    let field_type = match &p.schema {
        Some(s) => schema_to_field_type(s),
        None => FieldType::Any,
    };
    Some(
        ResolvedParam {
            name: p.name.clone(),
            location: p.location.clone(),
            required: p.required,
            description: clone_opt_text(&p.description),
            field_type,
        },
    )
}

fn param_listed(acc: &Vec<ResolvedParam>, p: &ResolvedParam) -> (r: bool)
    ensures
        r == has_param(params_view(acc@), p@),
{
    let mut i: usize = 0;
    while i < acc.len()
        invariant
            i <= acc@.len(),
            forall|k: int|
                0 <= k < i ==> !(acc@[k].name@ == p.name@ && acc@[k].location@ == p.location@),
        decreases acc@.len() - i,
    {
        if str_eq(acc[i].name.as_str(), p.name.as_str()) && str_eq(
            acc[i].location.as_str(),
            p.location.as_str(),
        ) {
            assert(params_view(acc@)[i as int] == acc@[i as int]@);
            return true;
        }
        i = i + 1;
    }
    proof {
        if has_param(params_view(acc@), p@) {
            let k = choose|k: int|
                0 <= k < params_view(acc@).len() && params_view(acc@)[k].name == p@.name
                    && params_view(acc@)[k].location == p@.location;
            assert(params_view(acc@)[k] == acc@[k]@);
        }
    }
    false
}

fn resolve_params(spec: &OpenApiSpec, item: &PathItem, op: &Operation) -> (r: Vec<ResolvedParam>)
    ensures
        params_view(r@) == merged_params(
            *spec,
            path_level_params(*spec, item.parameters@),
            op.parameters@,
        ),
{
    let mut parameters: Vec<ResolvedParam> = Vec::new();
    let mut i: usize = 0;
    while i < item.parameters.len()
        invariant
            i <= item.parameters@.len(),
            params_view(parameters@) == path_level_params(*spec, item.parameters@.take(i as int)),
        decreases item.parameters@.len() - i,
    {
        proof {
            assert(item.parameters@.take(i + 1).drop_last() =~= item.parameters@.take(i as int));
        }
        let ghost before = parameters@;
        if let Some(rp) = resolve_param(spec, &item.parameters[i]) {
            parameters.push(rp);
            assert(params_view(parameters@) =~= params_view(before).push(rp@));
        }
        i = i + 1;
    }
    assert(item.parameters@.take(item.parameters@.len() as int) =~= item.parameters@);
    let ghost path_params = params_view(parameters@);
    let mut j: usize = 0;
    while j < op.parameters.len()
        invariant
            j <= op.parameters@.len(),
            path_params == path_level_params(*spec, item.parameters@),
            params_view(parameters@) == merged_params(
                *spec,
                path_params,
                op.parameters@.take(j as int),
            ),
        decreases op.parameters@.len() - j,
    {
        proof {
            assert(op.parameters@.take(j + 1).drop_last() =~= op.parameters@.take(j as int));
        }
        let ghost before = parameters@;
        if let Some(rp) = resolve_param(spec, &op.parameters[j]) {
            if !param_listed(&parameters, &rp) {
                parameters.push(rp);
                assert(params_view(parameters@) =~= params_view(before).push(rp@));
            }
        }
        j = j + 1;
    }
    assert(op.parameters@.take(op.parameters@.len() as int) =~= op.parameters@);
    parameters
}

fn json_content_schema(content: &Vec<(String, MediaType)>) -> (r: Option<&Schema>)
    ensures
        match json_schema(content@) {
            Some(s) => r is Some && *r->0 == s,
            None => r is None,
        },
{
    match find_entry(content, "application/json") {
        Some(mt) => match &mt.schema {
            Some(s) => Some(s),
            None => None,
        },
        None => None,
    }
}

fn resolve_request_body(spec: &OpenApiSpec, op: &Operation) -> (r: Option<ResolvedBody>)
    ensures
        match resolved_body(*spec, *op) {
            Some(v) => r is Some && r->0@ == v,
            None => r is None,
        },
{
    let body = match &op.request_body {
        Some(b) => b,
        None => return None,
    };
    let actual = match &body.ref_path {
        Some(ref_path) => match spec.resolve_request_body_ref(ref_path.as_str()) {
            Some(b) => b,
            None => return None,
        },
        None => body,
    };
    let schema = match json_content_schema(&actual.content) {
        Some(s) => s,
        None => return None,
    };
    Some(
        ResolvedBody {
            required: actual.required,
            field_type: schema_to_field_type(schema),
            description: clone_opt_text(&actual.description),
        },
    )
}

fn resolve_response_type(spec: &OpenApiSpec, op: &Operation) -> (r: Option<FieldType>)
    ensures
        match resolved_response_type(*spec, *op) {
            Some(t) => r is Some && r->0@ == t,
            None => r is None,
        },
{
    let response = match find_entry(&op.responses, "200") {
        Some(r) => r,
        None => match find_entry(&op.responses, "201") {
            Some(r) => r,
            None => return None,
        },
    };
    let actual = match &response.ref_path {
        Some(ref_path) => match spec.resolve_response_ref(ref_path.as_str()) {
            Some(r) => r,
            None => return None,
        },
        None => response,
    };
    let content = match &actual.content {
        Some(c) => c,
        None => return None,
    };
    match json_content_schema(content) {
        Some(s) => Some(schema_to_field_type(s)),
        None => None,
    }
}

fn push_op(
    spec: &OpenApiSpec,
    method: &str,
    path: &String,
    item: &PathItem,
    op: &Option<Operation>,
    out: &mut Vec<ResolvedOp>,
)
    ensures
        ops_view(final(out)@) == ops_view(old(out)@) + method_op(*spec, method@, path@, *item, *op),
{
    if let Some(o) = op {
        let resolved = ResolvedOp {
            id: clone_opt_text(&o.operation_id),
            method: method.to_owned(),
            path: path.clone(),
            summary: clone_opt_text(&o.summary),
            description: clone_opt_text(&o.description),
            parameters: resolve_params(spec, item, o),
            request_body: resolve_request_body(spec, o),
            response_type: resolve_response_type(spec, o),
            tags: clone_texts(&o.tags),
        };
        let ghost before = out@;
        out.push(resolved);
        assert(ops_view(out@) =~= ops_view(before) + method_op(*spec, method@, path@, *item, *op));
    } else {
        assert(ops_view(out@) =~= ops_view(old(out)@) + method_op(*spec, method@, path@, *item, *op));
    }
}

fn push_path_ops(spec: &OpenApiSpec, path: &String, item: &PathItem, out: &mut Vec<ResolvedOp>)
    ensures
        ops_view(final(out)@) == ops_view(old(out)@) + path_ops(*spec, path@, *item),
{
    push_op(spec, "get", path, item, &item.get, out);
    push_op(spec, "post", path, item, &item.post, out);
    push_op(spec, "put", path, item, &item.put, out);
    push_op(spec, "delete", path, item, &item.delete, out);
    push_op(spec, "patch", path, item, &item.patch, out);
    reveal(path_ops);
    assert(ops_view(out@) =~= ops_view(old(out)@) + path_ops(*spec, path@, *item));
}

/// The view of each operation.
pub open spec fn ops_view(ops: Seq<ResolvedOp>) -> Seq<SpecResolvedOp> {
    ops.map_values(|o: ResolvedOp| o@)
}

fn resolve_schema(name: &String, schema: &Schema) -> (r: ResolvedSchema)
    ensures
        r@ == resolved_schema(name@, *schema),
{
    let mut fields: Vec<ResolvedField> = Vec::new();
    let mut i: usize = 0;
    while i < schema.properties.len()
        invariant
            i <= schema.properties@.len(),
            fields@.len() == i,
            forall|k: int|
                0 <= k < i ==> #[trigger] fields@[k]@ == resolved_field(
                    *schema,
                    schema.properties@[k],
                ),
        decreases schema.properties@.len() - i,
    {
        let (field_name, field_schema) = &schema.properties[i];
        let mut required = false;
        let mut k: usize = 0;
        while k < schema.required.len()
            invariant
                k <= schema.required@.len(),
                required == exists|j: int|
                    0 <= j < k && schema.required@[j]@ == field_name@,
            decreases schema.required@.len() - k,
        {
            if str_eq(schema.required[k].as_str(), field_name.as_str()) {
                required = true;
            }
            k = k + 1;
        }
        fields.push(
            ResolvedField {
                name: field_name.clone(),
                field_type: schema_to_field_type(field_schema),
                required,
                description: clone_opt_text(&field_schema.description),
            },
        );
        i = i + 1;
    }
    let r = ResolvedSchema {
        name: name.clone(),
        fields,
        description: clone_opt_text(&schema.description),
    };
    assert(fields_view(r.fields@) =~= schema.properties@.map_values(
        |prop: (String, Schema)| resolved_field(*schema, prop),
    ));
    r
}

/// The resolved schemas of a document, by name.
fn resolve_schemas(spec: &OpenApiSpec) -> (r: IndexMap<String, ResolvedSchema>)
    ensures
        schema_table(r) == resolved_schemas(spec.component_schemas()),
{
    let mut schemas = schema_table_new();
    if let Some(components) = &spec.components {
        let mut i: usize = 0;
        while i < components.schemas.len()
            invariant
                i <= components.schemas@.len(),
                schema_table(schemas) == resolved_schemas(components.schemas@.take(i as int)),
            decreases components.schemas@.len() - i,
        {
            proof {
                assert(components.schemas@.take(i + 1).drop_last() =~= components.schemas@.take(
                    i as int,
                ));
            }
            let (name, schema) = &components.schemas[i];
            let resolved = resolve_schema(name, schema);
            schema_table_insert(&mut schemas, name.clone(), resolved);
            i = i + 1;
        }
        assert(components.schemas@.take(components.schemas@.len() as int) =~= components.schemas@);
    }
    schemas
}

/// The complete resolved form of a document.
#[derive(Debug)]
pub struct ResolvedSpec {
    pub operations: Vec<ResolvedOp>,
    pub schemas: IndexMap<String, ResolvedSchema>,
}

/// Resolves a document into typed operations and schemas: every operation
/// of every path, path by path in the document's order and, within a path,
/// in the order get, post, put, delete, patch; and every component schema,
/// keyed by its name.
#[must_use]
pub fn resolve(spec: &OpenApiSpec) -> (r: ResolvedSpec)
    ensures
        ops_view(r.operations@) == resolved_operations(*spec, spec.paths@),
        schema_table(r.schemas) == resolved_schemas(spec.component_schemas()),
{
    let mut operations: Vec<ResolvedOp> = Vec::new();
    let mut i: usize = 0;
    while i < spec.paths.len()
        invariant
            i <= spec.paths@.len(),
            ops_view(operations@) == resolved_operations(*spec, spec.paths@.take(i as int)),
        decreases spec.paths@.len() - i,
    {
        proof {
            assert(spec.paths@.take(i + 1).drop_last() =~= spec.paths@.take(i as int));
            assert(spec.paths@.take(i + 1).last() == spec.paths@[i as int]);
        }
        let (path, item) = &spec.paths[i];
        push_path_ops(spec, path, item, &mut operations);
        i = i + 1;
    }
    assert(spec.paths@.take(spec.paths@.len() as int) =~= spec.paths@);
    let schemas = resolve_schemas(spec);
    ResolvedSpec { operations, schemas }
}


/// The position of the first operation whose id is `id`, if any.
pub open spec fn op_position(ops: Seq<SpecResolvedOp>, id: Seq<char>) -> Option<int>
    decreases ops.len(),
{
    if ops.len() == 0 {
        None
    } else {
        match op_position(ops.drop_last(), id) {
            Some(i) => Some(i),
            None => if ops.last().id == Some(id) {
                Some(ops.len() - 1)
            } else {
                None
            },
        }
    }
}

impl ResolvedSpec {
    /// Finds the first operation whose `operation_id` is `operation_id`.
    #[must_use]
    pub fn find_operation(&self, operation_id: &str) -> (r: Option<&ResolvedOp>)
        ensures
            match op_position(ops_view(self.operations@), operation_id@) {
                Some(i) => r is Some && r->0@ == ops_view(self.operations@)[i],
                None => r is None,
            },
    {
        let mut i: usize = 0;
        while i < self.operations.len()
            invariant
                i <= self.operations@.len(),
                op_position(ops_view(self.operations@).take(i as int), operation_id@) is None,
            decreases self.operations@.len() - i,
        {
            proof {
                assert(ops_view(self.operations@).take(i + 1).drop_last() =~= ops_view(
                    self.operations@,
                ).take(i as int));
            }
            let hit = match &self.operations[i].id {
                Some(id) => str_eq(id.as_str(), operation_id),
                None => false,
            };
            if hit {
                proof {
                    lemma_op_position_prefix(ops_view(self.operations@), operation_id@, i as int);
                }
                return Some(&self.operations[i]);
            }
            i = i + 1;
        }
        proof {
            assert(ops_view(self.operations@).take(self.operations@.len() as int) =~= ops_view(
                self.operations@,
            ));
        }
        None
    }

    /// The operations whose HTTP method is `method`, in order.
    pub fn operations_by_method<'a>(&'a self, method: &str) -> (r: Vec<&'a ResolvedOp>)
        ensures
            r@.map_values(|o: &ResolvedOp| o@) == ops_view(self.operations@).filter(
                |o: SpecResolvedOp| o.method == method@,
            ),
    {
        let ghost pred = |o: SpecResolvedOp| o.method == method@;
        let mut out: Vec<&'a ResolvedOp> = Vec::new();
        let mut i: usize = 0;
        while i < self.operations.len()
            invariant
                i <= self.operations@.len(),
                pred == (|o: SpecResolvedOp| o.method == method@),
                out@.map_values(|o: &ResolvedOp| o@) == ops_view(self.operations@.take(i as int)).filter(
                    pred,
                ),
            decreases self.operations@.len() - i,
        {
            let ghost before = out@;
            let matched = str_eq(self.operations[i].method.as_str(), method);
            if matched {
                out.push(&self.operations[i]);
            }
            proof {
                reveal_with_fuel(Seq::<_>::filter, 1);
                let whole = ops_view(self.operations@.take(i + 1));
                let prefix = ops_view(self.operations@.take(i as int));
                assert(whole.drop_last() =~= prefix);
                assert(whole.last() == self.operations@[i as int]@);
                assert(pred(whole.last()) == matched);
                if matched {
                    assert(out@.map_values(|o: &ResolvedOp| o@) =~= before.map_values(
                        |o: &ResolvedOp| o@,
                    ).push(self.operations@[i as int]@));
                    assert(out@.map_values(|o: &ResolvedOp| o@) =~= whole.filter(pred));
                } else {
                    assert(out@ == before);
                }
            }
            i = i + 1;
        }
        assert(self.operations@.take(self.operations@.len() as int) =~= self.operations@);
        out
    }

    /// Finds a schema by name.
    #[must_use]
    pub fn find_schema(&self, name: &str) -> (r: Option<&ResolvedSchema>)
        ensures
            match key_position(schema_table(self.schemas), name@) {
                Some(i) => r is Some && r->0@ == schema_table(self.schemas)[i].1,
                None => r is None,
            },
    {
        schema_table_get(&self.schemas, name)
    }

    /// Returns `true` if the spec contains no operations and no schemas.
    #[must_use]
    pub fn is_empty(&self) -> (r: bool)
        ensures
            r == (self.operations@.len() == 0 && schema_table(self.schemas).len() == 0),
    {
        self.operations.len() == 0 && schema_table_len(&self.schemas) == 0
    }
}

/// A match at `i` after none before it is the first match.
pub proof fn lemma_op_position_prefix(ops: Seq<SpecResolvedOp>, id: Seq<char>, i: int)
    requires
        0 <= i < ops.len(),
        op_position(ops.take(i), id) is None,
        ops[i].id == Some(id),
    ensures
        op_position(ops, id) == Some(i),
    decreases ops.len(),
{
    if i < ops.len() - 1 {
        assert(ops.drop_last().take(i) =~= ops.take(i));
        lemma_op_position_prefix(ops.drop_last(), id, i);
    } else {
        assert(ops.drop_last() =~= ops.take(i));
    }
}


// ── Laws of resolution ──────────────────────────────────────────────────

/// Merging operation-level parameters keeps the path-level ones first and
/// unchanged, so a path-level parameter wins over an operation-level one
/// with the same name and location; adds no parameter whose name and
/// location are already listed; and lists every operation-level parameter
/// that resolves, by name and location.
pub proof fn lemma_merged_params(doc: OpenApiSpec, acc: Seq<SpecResolvedParam>, ps: Seq<Parameter>)
    ensures
        merged_params(doc, acc, ps).len() >= acc.len(),
        merged_params(doc, acc, ps).take(acc.len() as int) == acc,
        forall|i: int|
            acc.len() <= i < merged_params(doc, acc, ps).len() ==> !has_param(
                merged_params(doc, acc, ps).take(i),
                #[trigger] merged_params(doc, acc, ps)[i],
            ),
        forall|k: int|
            0 <= k < ps.len() && (#[trigger] resolved_param(doc, ps[k])) is Some ==> has_param(
                merged_params(doc, acc, ps),
                resolved_param(doc, ps[k])->0,
            ),
    decreases ps.len(),
{
    if ps.len() == 0 {
        assert(acc.take(acc.len() as int) =~= acc);
    } else {
        let prev = ps.drop_last();
        lemma_merged_params(doc, acc, prev);
        let a = merged_params(doc, acc, prev);
        let m = merged_params(doc, acc, ps);
        match resolved_param(doc, ps.last()) {
            Some(rp) => {
                if !has_param(a, rp) {
                    assert(m == a.push(rp));
                    assert(m.take(acc.len() as int) =~= a.take(acc.len() as int));
                    assert forall|i: int| acc.len() <= i < m.len() implies !has_param(
                        m.take(i),
                        #[trigger] m[i],
                    ) by {
                        if i < a.len() {
                            assert(m.take(i) =~= a.take(i));
                        } else {
                            assert(m.take(i) =~= a);
                        }
                    }
                    assert forall|k: int|
                        0 <= k < ps.len() && (#[trigger] resolved_param(doc, ps[k])) is Some implies has_param(
                        m,
                        resolved_param(doc, ps[k])->0,
                    ) by {
                        if k < ps.len() - 1 {
                            assert(prev[k] == ps[k]);
                            let q = resolved_param(doc, ps[k])->0;
                            let j = choose|j: int|
                                0 <= j < a.len() && a[j].name == q.name && a[j].location
                                    == q.location;
                            assert(m[j] == a[j]);
                        } else {
                            assert(m[a.len() as int] == rp);
                        }
                    }
                } else {
                    assert forall|k: int|
                        0 <= k < ps.len() && (#[trigger] resolved_param(doc, ps[k])) is Some implies has_param(
                        m,
                        resolved_param(doc, ps[k])->0,
                    ) by {
                        if k < ps.len() - 1 {
                            assert(prev[k] == ps[k]);
                        }
                    }
                }
            },
            None => {
                assert forall|k: int|
                    0 <= k < ps.len() && (#[trigger] resolved_param(doc, ps[k])) is Some implies has_param(
                    m,
                    resolved_param(doc, ps[k])->0,
                ) by {
                    if k < ps.len() - 1 {
                        assert(prev[k] == ps[k]);
                    }
                }
            },
        }
    }
}

/// Every resolved schema is keyed by its own name, no name is keyed twice,
/// and every component schema has an entry under its name.
pub proof fn lemma_resolved_schemas_keyed_by_name(comps: Seq<(String, Schema)>)
    ensures
        keys_unique(resolved_schemas(comps)),
        forall|i: int|
            0 <= i < resolved_schemas(comps).len() ==> (#[trigger] resolved_schemas(comps)[i]).1.name
                == resolved_schemas(comps)[i].0,
        forall|k: int|
            0 <= k < comps.len() ==> key_position(resolved_schemas(comps), (#[trigger] comps[k]).0@)
                is Some,
    decreases comps.len(),
{
    if comps.len() > 0 {
        let prev = comps.drop_last();
        lemma_resolved_schemas_keyed_by_name(prev);
        let t = resolved_schemas(prev);
        let name = comps.last().0@;
        let value = resolved_schema(name, comps.last().1);
        let t2 = resolved_schemas(comps);
        assert(t2 == map_insert(t, name, value));
        lemma_insert_keeps_keys_unique(t, name, value);
        lemma_key_position(t, name);
        assert forall|i: int| 0 <= i < t2.len() implies (#[trigger] t2[i]).1.name == t2[i].0 by {
            if t2[i].0 != name {
                assert(i < t.len() && t2[i] == t[i]);
            }
        }
        assert forall|k: int| 0 <= k < comps.len() implies key_position(t2, (#[trigger] comps[k]).0@)
            is Some by {
            let key = comps[k].0@;
            lemma_key_position(t2, key);
            if k == comps.len() - 1 {
                match key_position(t, name) {
                    Some(i) => { assert(t2[i].0 == key); },
                    None => { assert(t2[t.len() as int].0 == key); },
                }
            } else {
                assert(prev[k] == comps[k]);
                lemma_key_position(t, key);
                let i = key_position(t, key)->0;
                match key_position(t, name) {
                    Some(j) => {
                        if i == j {
                            assert(t2[i].0 == name && name == key);
                        } else {
                            assert(t2[i] == t[i]);
                        }
                    },
                    None => { assert(t2[i] == t[i]); },
                }
            }
        }
    }
}

/// The required and the optional fields of a schema split its fields: each
/// field is in exactly one of the two, so together they number the fields.
pub proof fn lemma_required_optional_split(fields: Seq<SpecResolvedField>)
    ensures
        fields.filter(|f: SpecResolvedField| f.required).len() + fields.filter(
            |f: SpecResolvedField| !f.required,
        ).len() == fields.len(),
    decreases fields.len(),
{
    reveal_with_fuel(Seq::<_>::filter, 1);
    if fields.len() > 0 {
        lemma_required_optional_split(fields.drop_last());
    }
}


/// One operation of a document, as it is enumerated: its method, its path,
/// the path's item and the operation.
pub type OperationEntry = (Seq<char>, Seq<char>, PathItem, Operation);

/// The entry of one method of a path, if the path has it.
pub open spec fn method_entry(method: Seq<char>, path: Seq<char>, item: PathItem, op: Option<Operation>) -> Seq<
    OperationEntry,
> {
    match op {
        Some(o) => seq![(method, path, item, o)],
        None => Seq::empty(),
    }
}

/// The operations of a path, in the order get, post, put, delete, patch.
pub open spec fn path_entries(path: Seq<char>, item: PathItem) -> Seq<OperationEntry> {
    method_entry("get"@, path, item, item.get) + method_entry("post"@, path, item, item.post)
        + method_entry("put"@, path, item, item.put) + method_entry(
        "delete"@,
        path,
        item,
        item.delete,
    ) + method_entry("patch"@, path, item, item.patch)
}

/// Every operation of the given paths, path by path, each path's in the
/// order get, post, put, delete, patch.
pub open spec fn all_operations(paths: Seq<(String, PathItem)>) -> Seq<OperationEntry>
    decreases paths.len(),
{
    if paths.len() == 0 {
        Seq::empty()
    } else {
        all_operations(paths.drop_last()) + path_entries(paths.last().0@, paths.last().1)
    }
}

/// An enumerated operation, resolved.
pub open spec fn resolved_entry(doc: OpenApiSpec, e: OperationEntry) -> SpecResolvedOp {
    resolved_op(doc, e.0, e.1, e.2, e.3)
}

proof fn lemma_path_ops_enumerated(doc: OpenApiSpec, path: Seq<char>, item: PathItem)
    ensures
        path_ops(doc, path, item) == path_entries(path, item).map_values(
            |e: OperationEntry| resolved_entry(doc, e),
        ),
{
    reveal(path_ops);
    let f = |e: OperationEntry| resolved_entry(doc, e);
    let g = method_entry("get"@, path, item, item.get);
    let po = method_entry("post"@, path, item, item.post);
    let pu = method_entry("put"@, path, item, item.put);
    let d = method_entry("delete"@, path, item, item.delete);
    let pa = method_entry("patch"@, path, item, item.patch);
    assert(g.map_values(f) =~= method_op(doc, "get"@, path, item, item.get));
    assert(po.map_values(f) =~= method_op(doc, "post"@, path, item, item.post));
    assert(pu.map_values(f) =~= method_op(doc, "put"@, path, item, item.put));
    assert(d.map_values(f) =~= method_op(doc, "delete"@, path, item, item.delete));
    assert(pa.map_values(f) =~= method_op(doc, "patch"@, path, item, item.patch));
    assert((g + po + pu + d + pa).map_values(f) =~= g.map_values(f) + po.map_values(f)
        + pu.map_values(f) + d.map_values(f) + pa.map_values(f));
}

proof fn lemma_operations_enumerated(doc: OpenApiSpec, paths: Seq<(String, PathItem)>)
    ensures
        resolved_operations(doc, paths) == all_operations(paths).map_values(
            |e: OperationEntry| resolved_entry(doc, e),
        ),
    decreases paths.len(),
{
    if paths.len() > 0 {
        let prev = paths.drop_last();
        lemma_operations_enumerated(doc, prev);
        let f = |e: OperationEntry| resolved_entry(doc, e);
        let last = paths.last();
        let a = all_operations(prev);
        let b = path_entries(last.0@, last.1);
        lemma_path_ops_enumerated(doc, last.0@, last.1);
        assert((a + b).map_values(f) =~= a.map_values(f) + b.map_values(f));
    }
}

proof fn lemma_operation_entries_from_paths(paths: Seq<(String, PathItem)>)
    ensures
        forall|i: int|
            0 <= i < all_operations(paths).len() ==> exists|k: int|
                0 <= k < paths.len() && paths[k].0@ == (#[trigger] all_operations(paths)[i]).1
                    && paths[k].1 == all_operations(paths)[i].2,
    decreases paths.len(),
{
    if paths.len() > 0 {
        let prev = paths.drop_last();
        lemma_operation_entries_from_paths(prev);
        let last = paths.last();
        let a = all_operations(prev);
        let b = path_entries(last.0@, last.1);
        assert(all_operations(paths) == a + b);
        assert forall|i: int| 0 <= i < (a + b).len() implies exists|k: int|
            0 <= k < paths.len() && paths[k].0@ == (#[trigger] (a + b)[i]).1 && paths[k].1 == (a
                + b)[i].2 by {
            if i < a.len() {
                let k = choose|k: int| 0 <= k < prev.len() && prev[k].0@ == (#[trigger] a[i]).1
                    && prev[k].1 == a[i].2;
                assert(paths[k] == prev[k]);
            } else {
                assert(forall|m: int| 0 <= m < b.len() ==> (#[trigger] b[m]).1 == last.0@ && b[m].2 == last.1);
                assert((a + b)[i] == b[i - a.len()]);
                assert(paths[paths.len() - 1] == last);
            }
        }
    }
}

/// The resolved operations line up, index by index, with the document's
/// operations enumerated path by path (each path's in the order get, post,
/// put, delete, patch): each carries its operation's id, method, path,
/// summary, description and tags, its resolved body and response type, and
/// as parameters the path item's resolved parameters first, then each of the
/// operation's that resolves and whose name and location are not yet listed.
pub proof fn lemma_operations_line_up(doc: OpenApiSpec, i: int)
    requires
        doc.well_formed(),
        0 <= i < all_operations(doc.paths@).len(),
    ensures
        resolved_operations(doc, doc.paths@).len() == all_operations(doc.paths@).len(),
        ({
            let (method, path, item, op) = all_operations(doc.paths@)[i];
            let r = resolved_operations(doc, doc.paths@)[i];
            &&& lookup(doc.paths@, path) == Some(item)
            &&& r.id == opt_text(op.operation_id)
            &&& r.method == method
            &&& r.path == path
            &&& r.summary == opt_text(op.summary)
            &&& r.description == opt_text(op.description)
            &&& r.tags == texts(op.tags@)
            &&& r.request_body == resolved_body(doc, op)
            &&& r.response_type == resolved_response_type(doc, op)
            &&& r.parameters == merged_params(
                doc,
                path_level_params(doc, lookup(doc.paths@, path)->0.parameters@),
                op.parameters@,
            )
        }),
{
    lemma_operations_enumerated(doc, doc.paths@);
    lemma_operation_entries_from_paths(doc.paths@);
    let e = all_operations(doc.paths@)[i];
    let k = choose|k: int| 0 <= k < doc.paths@.len() && doc.paths@[k].0@ == e.1 && doc.paths@[k].1 == e.2;
    lemma_lookup_distinct(doc.paths@, k);
}

/// With distinct component names, the resolved schemas are the component
/// schemas in order, each keyed by its name and holding that name, its
/// description, and one field per property, in order.
pub proof fn lemma_schemas_follow_components(comps: Seq<(String, Schema)>)
    requires
        keys_distinct(comps),
    ensures
        resolved_schemas(comps) == comps.map_values(
            |e: (String, Schema)| (e.0@, resolved_schema(e.0@, e.1)),
        ),
    decreases comps.len(),
{
    if comps.len() > 0 {
        let prev = comps.drop_last();
        assert(keys_distinct(prev));
        lemma_schemas_follow_components(prev);
        let t = resolved_schemas(prev);
        let name = comps.last().0@;
        lemma_key_position(t, name);
        if key_position(t, name) is Some {
            let j = key_position(t, name)->0;
            assert(t[j].0 == prev[j].0@);
            assert(prev[j] == comps[j]);
        }
        assert(resolved_schemas(comps) =~= comps.map_values(
            |e: (String, Schema)| (e.0@, resolved_schema(e.0@, e.1)),
        ));
    }
}

impl Clone for ResolvedSpec {
    fn clone(&self) -> (r: Self)
        ensures
            ops_view(r.operations@) == ops_view(self.operations@),
            schema_table(r.schemas) == schema_table(self.schemas),
    {
        let mut operations: Vec<ResolvedOp> = Vec::new();
        let mut i: usize = 0;
        while i < self.operations.len()
            invariant
                i <= self.operations@.len(),
                operations@.len() == i,
                forall|k: int| 0 <= k < i ==> #[trigger] operations@[k]@ == self.operations@[k]@,
            decreases self.operations@.len() - i,
        {
            operations.push(self.operations[i].clone());
            i = i + 1;
        }
        assert(ops_view(operations@) =~= ops_view(self.operations@));
        ResolvedSpec { operations, schemas: schema_table_clone(&self.schemas) }
    }
}


/// A parameter that is a `$ref` to a component parameter `q` resolves to
/// `q`'s name, location, requiredness, description and type, whatever the
/// referencing parameter itself says; one that is not a `$ref` resolves to
/// its own; and a `$ref` that names no component parameter is dropped.
pub proof fn lemma_param_takes_its_target(doc: OpenApiSpec, p: Parameter, q: Parameter)
    requires
        match p.ref_path {
            Some(r) => lookup(doc.component_parameters(), after_last_slash(r@)) == Some(q),
            None => q == p,
        },
    ensures
        resolved_param(doc, p) matches Some(rp) && rp.name == q.name@ && rp.location == q.location@
            && rp.required == q.required && rp.description == opt_text(q.description)
            && rp.field_type == match q.schema {
            Some(s) => schema_field_type(s),
            None => SpecFieldType::Any,
        },
{
}

/// A `$ref` parameter whose target is missing is dropped.
pub proof fn lemma_dangling_param_dropped(doc: OpenApiSpec, p: Parameter)
    requires
        p.ref_path matches Some(r) && lookup(doc.component_parameters(), after_last_slash(r@))
            is None,
    ensures
        resolved_param(doc, p) is None,
{
}

/// The type a response gives: that of the `application/json` schema of
/// its content, if it has one.
pub open spec fn response_json_type(r: Response) -> Option<SpecFieldType> {
    match r.content {
        Some(c) => match json_schema(c@) {
            Some(s) => Some(schema_field_type(s)),
            None => None,
        },
        None => None,
    }
}

/// The `200` response decides the response type whenever there is one, and
/// the `201` response only when there is none: an operation's response type
/// is that of its `200` response (a non-`$ref` one directly), or, without
/// a `200`, that of its `201`; and two operations with the same `200`
/// response have the same response type, whatever else they answer.
pub proof fn lemma_response_200_then_201(doc: OpenApiSpec, op: Operation, other: Operation, r: Response)
    ensures
        (lookup(op.responses@, "200"@) == Some(r) && r.ref_path is None) ==> resolved_response_type(
            doc,
            op,
        ) == response_json_type(r),
        (lookup(op.responses@, "200"@) is None && lookup(op.responses@, "201"@) == Some(r)
            && r.ref_path is None) ==> resolved_response_type(doc, op) == response_json_type(r),
        (lookup(op.responses@, "200"@) is Some && lookup(op.responses@, "200"@) == lookup(
            other.responses@,
            "200"@,
        )) ==> resolved_response_type(doc, op) == resolved_response_type(doc, other),
        (lookup(op.responses@, "200"@) is None && lookup(op.responses@, "201"@) is None)
            ==> resolved_response_type(doc, op) is None,
{
}
} // verus!
