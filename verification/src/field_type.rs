//! The platform-independent field type that code generators consume, and the
//! classifier that lowers a schema node into it.

use vstd::prelude::*;

use crate::openapi::{JsonValue, Schema, ref_name};
use crate::text::{str_eq, decimal_text, decimal, after_last_slash};

verus! {

/// One member of an `enum`, or of a `const` (a one-value enum).
///
/// The scalar arms cover every enum member and every `const` in practice;
/// `Other` keeps anything else (a non-integer number, an array, an object) as
/// its JSON text rather than discarding it.
#[derive(Debug, PartialEq, Eq, Hash)]
#[non_exhaustive]
pub enum EnumValue {
    Str(String),
    Int(i64),
    Bool(bool),
    Null,
    /// A value no other arm can hold, preserved as its JSON text.
    Other(String),
}

/// The mathematical value of an [`EnumValue`]: text is a sequence of characters.
pub enum SpecEnumValue {
    Str(Seq<char>),
    Int(i64),
    Bool(bool),
    Null,
    Other(Seq<char>),
}

impl View for EnumValue {
    type V = SpecEnumValue;

    open spec fn view(&self) -> SpecEnumValue {
        match self {
            EnumValue::Str(s) => SpecEnumValue::Str(s@),
            EnumValue::Int(i) => SpecEnumValue::Int(*i),
            EnumValue::Bool(b) => SpecEnumValue::Bool(*b),
            EnumValue::Null => SpecEnumValue::Null,
            EnumValue::Other(t) => SpecEnumValue::Other(t@),
        }
    }
}

/// The text a member renders as: a string verbatim, an integer in decimal,
/// a boolean as `true`/`false`, null as `null`, anything else as its JSON text.
pub open spec fn enum_value_text(v: SpecEnumValue) -> Seq<char> {
    match v {
        SpecEnumValue::Str(s) => s,
        SpecEnumValue::Int(i) => decimal(i as int),
        SpecEnumValue::Bool(b) => if b { "true"@ } else { "false"@ },
        SpecEnumValue::Null => "null"@,
        SpecEnumValue::Other(t) => t,
    }
}

impl EnumValue {
    /// The string content, when this member is a string.
    #[must_use]
    pub fn as_str(&self) -> (r: Option<&str>)
        ensures
            match self@ {
                SpecEnumValue::Str(s) => r is Some && r->0@ == s,
                _ => r is None,
            },
    {
        match self {
            EnumValue::Str(s) => Some(s.as_str()),
            _ => None,
        }
    }

    /// The integer content, when this member is an integer.
    #[must_use]
    pub fn as_i64(&self) -> (r: Option<i64>)
        ensures
            r == (match self@ {
                SpecEnumValue::Int(i) => Some(i),
                _ => None,
            }),
    {
        match self {
            EnumValue::Int(i) => Some(*i),
            _ => None,
        }
    }

    /// The member rendered as text (see [`enum_value_text`]).
    pub fn to_string(&self) -> (r: String)
        ensures
            r@ == enum_value_text(self@),
    {
        match self {
            EnumValue::Str(s) => s.clone(),
            EnumValue::Int(i) => decimal_text(*i),
            EnumValue::Bool(b) => {
                if *b {
                    "true".to_owned()
                } else {
                    "false".to_owned()
                }
            },
            EnumValue::Null => "null".to_owned(),
            EnumValue::Other(t) => t.clone(),
        }
    }
}

impl Clone for EnumValue {
    fn clone(&self) -> (r: Self)
        ensures
            r@ == self@,
    {
        match self {
            EnumValue::Str(s) => EnumValue::Str(s.clone()),
            EnumValue::Int(i) => EnumValue::Int(*i),
            EnumValue::Bool(b) => EnumValue::Bool(*b),
            EnumValue::Null => EnumValue::Null,
            EnumValue::Other(t) => EnumValue::Other(t.clone()),
        }
    }
}

impl From<&str> for EnumValue {
    fn from(s: &str) -> (r: Self)
        ensures
            r@ == SpecEnumValue::Str(s@),
    {
        EnumValue::Str(s.to_owned())
    }
}

impl vstd::std_specs::convert::FromSpecImpl<&str> for EnumValue {
    /// Text has no spec-level `String` constructor, so the conversion is
    /// described by the `ensures` of `from` itself, over the view.
    open spec fn obeys_from_spec() -> bool {
        false
    }

    open spec fn from_spec(s: &str) -> Self {
        EnumValue::Null
    }
}

impl From<String> for EnumValue {
    fn from(s: String) -> (r: Self) {
        EnumValue::Str(s)
    }
}

impl vstd::std_specs::convert::FromSpecImpl<String> for EnumValue {
    open spec fn obeys_from_spec() -> bool {
        true
    }

    open spec fn from_spec(s: String) -> Self {
        EnumValue::Str(s)
    }
}

impl From<i64> for EnumValue {
    fn from(i: i64) -> (r: Self) {
        EnumValue::Int(i)
    }
}

impl vstd::std_specs::convert::FromSpecImpl<i64> for EnumValue {
    open spec fn obeys_from_spec() -> bool {
        true
    }

    open spec fn from_spec(i: i64) -> Self {
        EnumValue::Int(i)
    }
}


/// Platform-independent field type for code generation.
#[derive(Debug, PartialEq, Eq, Hash)]
#[non_exhaustive]
pub enum FieldType {
    String,
    Integer,
    Number,
    Boolean,
    Array(Box<FieldType>),
    /// A map from string keys to values of the inner type.
    StringMap(Box<FieldType>),
    Object(std::string::String),
    Enum {
        /// Every declared member, in declaration order.
        values: Vec<EnumValue>,
        underlying: Box<FieldType>,
    },
    /// JSON `null` is the only inhabitant of this position.
    Null,
    /// `T`, widened to admit JSON `null` here. Nullability lives inside the
    /// type so that it composes at container boundaries.
    Nullable(Box<FieldType>),
    Any,
}

/// The mathematical value of a [`FieldType`].
pub enum SpecFieldType {
    String,
    Integer,
    Number,
    Boolean,
    Array(Box<SpecFieldType>),
    StringMap(Box<SpecFieldType>),
    Object(Seq<char>),
    Enum { values: Seq<SpecEnumValue>, underlying: Box<SpecFieldType> },
    Null,
    Nullable(Box<SpecFieldType>),
    Any,
}

/// The view of every member of an enum, in order.
pub open spec fn enum_values_view(values: Seq<EnumValue>) -> Seq<SpecEnumValue> {
    values.map_values(|v: EnumValue| v@)
}

pub open spec fn field_type_view(t: FieldType) -> SpecFieldType
    decreases t,
{
    match t {
        FieldType::String => SpecFieldType::String,
        FieldType::Integer => SpecFieldType::Integer,
        FieldType::Number => SpecFieldType::Number,
        FieldType::Boolean => SpecFieldType::Boolean,
        FieldType::Array(inner) => SpecFieldType::Array(Box::new(field_type_view(*inner))),
        FieldType::StringMap(inner) => SpecFieldType::StringMap(Box::new(field_type_view(*inner))),
        FieldType::Object(name) => SpecFieldType::Object(name@),
        FieldType::Enum { values, underlying } => SpecFieldType::Enum {
            values: enum_values_view(values@),
            underlying: Box::new(field_type_view(*underlying)),
        },
        FieldType::Null => SpecFieldType::Null,
        FieldType::Nullable(inner) => SpecFieldType::Nullable(Box::new(field_type_view(*inner))),
        FieldType::Any => SpecFieldType::Any,
    }
}

impl View for FieldType {
    type V = SpecFieldType;

    open spec fn view(&self) -> SpecFieldType {
        field_type_view(*self)
    }
}

/// The type with every `Nullable` wrapper removed.
pub open spec fn peeled(t: SpecFieldType) -> SpecFieldType
    decreases t,
{
    match t {
        SpecFieldType::Nullable(inner) => peeled(*inner),
        _ => t,
    }
}

/// Nesting depth: containers add one level, an enum is as deep as its
/// underlying type, nullability adds nothing.
pub open spec fn nesting_depth(t: SpecFieldType) -> nat
    decreases t,
{
    match t {
        SpecFieldType::Array(inner) => 1 + nesting_depth(*inner),
        SpecFieldType::StringMap(inner) => 1 + nesting_depth(*inner),
        SpecFieldType::Enum { underlying, .. } => nesting_depth(*underlying),
        SpecFieldType::Nullable(inner) => nesting_depth(*inner),
        _ => 0,
    }
}

impl FieldType {
    /// A copy of this type; the copy has the same view.
    pub fn duplicate(&self) -> (r: FieldType)
        ensures
            r@ == self@,
        decreases self,
    {
        match self {
            FieldType::String => FieldType::String,
            FieldType::Integer => FieldType::Integer,
            FieldType::Number => FieldType::Number,
            FieldType::Boolean => FieldType::Boolean,
            FieldType::Array(inner) => FieldType::Array(Box::new((**inner).duplicate())),
            FieldType::StringMap(inner) => FieldType::StringMap(Box::new((**inner).duplicate())),
            FieldType::Object(name) => FieldType::Object(name.clone()),
            FieldType::Enum { values, underlying } => {
                let mut copied: Vec<EnumValue> = Vec::new();
                let mut i: usize = 0;
                while i < values.len()
                    invariant
                        i <= values@.len(),
                        copied@.len() == i,
                        forall|k: int| 0 <= k < i ==> copied@[k]@ == values@[k]@,
                    decreases values@.len() - i,
                {
                    copied.push(values[i].clone());
                    i = i + 1;
                }
                assert(enum_values_view(copied@) =~= enum_values_view(values@));
                FieldType::Enum { values: copied, underlying: Box::new((**underlying).duplicate()) }
            },
            FieldType::Null => FieldType::Null,
            FieldType::Nullable(inner) => FieldType::Nullable(Box::new((**inner).duplicate())),
            FieldType::Any => FieldType::Any,
        }
    }

    /// This type with any `Nullable` wrapper removed.
    ///
    /// Every predicate below answers about the underlying type, because
    /// nullability is orthogonal to what a thing is.
    #[must_use]
    pub fn non_null(&self) -> (r: &FieldType)
        ensures
            r@ == peeled(self@),
        decreases self,
    {
        match self {
            FieldType::Nullable(inner) => (**inner).non_null(),
            other => other,
        }
    }

    /// Whether this position admits JSON `null`.
    #[must_use]
    pub fn is_nullable(&self) -> (r: bool)
        ensures
            r == (self@ is Nullable || self@ is Null),
    {
        match self {
            FieldType::Nullable(_) | FieldType::Null => true,
            _ => false,
        }
    }

    /// Whether the underlying type is a primitive (string, integer, number, boolean).
    #[must_use]
    pub fn is_primitive(&self) -> (r: bool)
        ensures
            r == (peeled(self@) is String || peeled(self@) is Integer || peeled(self@) is Number
                || peeled(self@) is Boolean),
    {
        match self.non_null() {
            FieldType::String | FieldType::Integer | FieldType::Number | FieldType::Boolean => true,
            _ => false,
        }
    }

    /// Whether the underlying type is a collection (array or map).
    #[must_use]
    pub fn is_collection(&self) -> (r: bool)
        ensures
            r == (peeled(self@) is Array || peeled(self@) is StringMap),
    {
        match self.non_null() {
            FieldType::Array(_) | FieldType::StringMap(_) => true,
            _ => false,
        }
    }

    /// The element type of an underlying array, or the value type of an
    /// underlying map.
    #[must_use]
    pub fn inner_type(&self) -> (r: Option<&FieldType>)
        ensures
            match peeled(self@) {
                SpecFieldType::Array(inner) => r is Some && r->0@ == *inner,
                SpecFieldType::StringMap(inner) => r is Some && r->0@ == *inner,
                _ => r is None,
            },
    {
        match self.non_null() {
            FieldType::Array(inner) | FieldType::StringMap(inner) => Some(&**inner),
            _ => None,
        }
    }

    /// The members, when the underlying type is an enum.
    #[must_use]
    pub fn enum_values(&self) -> (r: Option<&[EnumValue]>)
        ensures
            match peeled(self@) {
                SpecFieldType::Enum { values, .. } => r is Some && enum_values_view(r->0@)
                    == values,
                _ => r is None,
            },
    {
        match self.non_null() {
            FieldType::Enum { values, .. } => Some(values.as_slice()),
            _ => None,
        }
    }

    /// The single value this type is pinned to, if it is a one-member enum.
    ///
    /// A `const` and an `enum` of length one are the same thing to a
    /// generator; both are how a spec marks which variant of a union a
    /// schema is.
    #[must_use]
    pub fn pinned_value(&self) -> (r: Option<&EnumValue>)
        ensures
            match peeled(self@) {
                SpecFieldType::Enum { values, .. } => if values.len() == 1 {
                    r is Some && r->0@ == values[0]
                } else {
                    r is None
                },
                _ => r is None,
            },
    {
        match self.non_null() {
            FieldType::Enum { values, .. } => {
                if values.len() == 1 {
                    Some(&values[0])
                } else {
                    None
                }
            },
            _ => None,
        }
    }

    /// Whether the underlying type is a named object.
    #[must_use]
    pub fn is_object(&self) -> (r: bool)
        ensures
            r == (peeled(self@) is Object),
    {
        match self.non_null() {
            FieldType::Object(_) => true,
            _ => false,
        }
    }

    /// Whether the underlying type is an enum.
    #[must_use]
    pub fn is_enum(&self) -> (r: bool)
        ensures
            r == (peeled(self@) is Enum),
    {
        match self.non_null() {
            FieldType::Enum { .. } => true,
            _ => false,
        }
    }

    /// The object name, when the underlying type is a named object.
    #[must_use]
    pub fn object_name(&self) -> (r: Option<&str>)
        ensures
            match peeled(self@) {
                SpecFieldType::Object(name) => r is Some && r->0@ == name,
                _ => r is None,
            },
    {
        match self.non_null() {
            FieldType::Object(name) => Some(name.as_str()),
            _ => None,
        }
    }

    /// The nesting depth of the type (0 for scalars, 1+ for containers).
    #[must_use]
    pub fn depth(&self) -> (r: usize)
        requires
            nesting_depth(self@) <= usize::MAX,
        ensures
            r == nesting_depth(self@),
        decreases self,
    {
        match self {
            FieldType::Nullable(inner) => (**inner).depth(),
            FieldType::Array(inner) | FieldType::StringMap(inner) => 1 + (**inner).depth(),
            FieldType::Enum { underlying, .. } => (**underlying).depth(),
            _ => 0,
        }
    }
}

impl Clone for FieldType {
    fn clone(&self) -> (r: Self)
        ensures
            r@ == self@,
    {
        self.duplicate()
    }
}

impl Default for FieldType {
    fn default() -> (r: Self)
        ensures
            r@ == SpecFieldType::Any,
    {
        FieldType::Any
    }
}


// ── Classifying a schema ────────────────────────────────────────────────

/// The enum member a JSON value becomes: strings, booleans and null map to
/// their own arms, a number to `Int` when it is an `i64`, and everything
/// else to `Other` with its JSON text.
pub open spec fn json_enum_value(v: JsonValue) -> SpecEnumValue {
    match v {
        JsonValue::Null => SpecEnumValue::Null,
        JsonValue::Bool(b) => SpecEnumValue::Bool(b),
        JsonValue::Number { as_i64, text } => match as_i64 {
            Some(i) => SpecEnumValue::Int(i),
            None => SpecEnumValue::Other(text@),
        },
        JsonValue::String(s) => SpecEnumValue::Str(s@),
        JsonValue::Array(t) => SpecEnumValue::Other(t@),
        JsonValue::Object(t) => SpecEnumValue::Other(t@),
    }
}

impl EnumValue {
    /// The enum member a JSON value becomes (see [`json_enum_value`]).
    pub fn from_json(v: &JsonValue) -> (r: EnumValue)
        ensures
            r@ == json_enum_value(*v),
    {
        match v {
            JsonValue::Null => EnumValue::Null,
            JsonValue::Bool(b) => EnumValue::Bool(*b),
            JsonValue::Number { as_i64, text } => match as_i64 {
                Some(i) => EnumValue::Int(*i),
                None => EnumValue::Other(text.clone()),
            },
            JsonValue::String(s) => EnumValue::Str(s.clone()),
            JsonValue::Array(t) => EnumValue::Other(t.clone()),
            JsonValue::Object(t) => EnumValue::Other(t.clone()),
        }
    }
}

impl From<&JsonValue> for EnumValue {
    fn from(v: &JsonValue) -> (r: Self)
        ensures
            r@ == json_enum_value(*v),
    {
        EnumValue::from_json(v)
    }
}

impl vstd::std_specs::convert::FromSpecImpl<&JsonValue> for EnumValue {
    /// The conversion is stated over the view, by the `ensures` of `from`.
    open spec fn obeys_from_spec() -> bool {
        false
    }

    open spec fn from_spec(v: &JsonValue) -> Self {
        EnumValue::Null
    }
}

/// True when this schema's only inhabitant is JSON `null`: its base type is
/// `"null"`, its `const` is `null`, or its `type` array names only `"null"`.
pub open spec fn is_null_literal(s: Schema) -> bool {
    ||| (s.schema_type matches Some(t) && t@ == "null"@)
    ||| (s.const_value matches Some(JsonValue::Null))
    ||| (s.type_union@.len() > 0 && forall|i: int|
        0 <= i < s.type_union@.len() ==> #[trigger] s.type_union@[i]@ == "null"@)
}

/// The members of the schema's union: `oneOf` when it has any, else `anyOf`.
pub open spec fn union_members(s: Schema) -> Seq<Schema> {
    if s.one_of@.len() == 0 {
        s.any_of@
    } else {
        s.one_of@
    }
}

/// How many members are not null literals.
pub open spec fn real_count(ms: Seq<Schema>) -> nat
    decreases ms.len(),
{
    if ms.len() == 0 {
        0
    } else {
        real_count(ms.drop_last()) + if is_null_literal(ms.last()) {
            0nat
        } else {
            1nat
        }
    }
}

/// The index of the first member that is not a null literal.
pub open spec fn first_real(ms: Seq<Schema>) -> int {
    choose|k: int| 0 <= k < ms.len() && !is_null_literal(ms[k])
        && forall|j: int| 0 <= j < k ==> is_null_literal(ms[j])
}

/// The name of the first `allOf` member that is a `$ref`, if there is one.
pub open spec fn first_all_of_ref(all: Seq<Schema>) -> Option<Seq<char>> {
    if exists|k: int| 0 <= k < all.len() && all[k].ref_path is Some {
        let k = choose|k: int| 0 <= k < all.len() && all[k].ref_path is Some
            && forall|j: int| 0 <= j < k ==> all[j].ref_path is None;
        Some(after_last_slash(all[k].ref_path->0@))
    } else {
        None
    }
}

/// Whether `type` names one of the six types the classifier knows.
pub open spec fn is_known_type(t: Option<String>) -> bool {
    match t {
        Some(t) => t@ == "string"@ || t@ == "integer"@ || t@ == "number"@ || t@ == "boolean"@
            || t@ == "array"@ || t@ == "object"@,
        None => false,
    }
}

/// The enum members a schema pins: every `enum` member when it lists at
/// least one, else its `const` as an enum of one.
pub open spec fn pinned_members(s: Schema) -> Option<Seq<SpecEnumValue>> {
    if s.enum_values is Some && s.enum_values->0@.len() > 0 {
        Some(s.enum_values->0@.map_values(|v: JsonValue| json_enum_value(v)))
    } else if s.const_value is Some {
        Some(seq![json_enum_value(s.const_value->0)])
    } else {
        None
    }
}

/// The field type a schema denotes (the order of the tests below is
/// significant):
///
/// 1. a `$ref` is the object it names;
/// 2. a null literal is `Null`;
/// 3. a union whose members are all null is `Null`; a union with exactly one
///    non-null member is that member, made nullable when a null member was
///    dropped beside it;
/// 4. an unknown or absent `type` with a `$ref` among `allOf` is that object;
/// 5. otherwise the base type of `type`, pinned to its `enum` or `const`
///    members when it has any;
///
/// and the whole is made nullable when the schema itself is, unless it is
/// already `Null` or nullable.
pub open spec fn schema_field_type(s: Schema) -> SpecFieldType
    decreases s, 2int,
{
    let core = schema_core(s);
    if s.nullable && !(core is Null || core is Nullable) {
        SpecFieldType::Nullable(Box::new(core))
    } else {
        core
    }
}

/// The type ignoring any nullability the node itself declares.
pub open spec fn schema_core(s: Schema) -> SpecFieldType
    decreases s, 1int,
{
    let ms = union_members(s);
    if s.ref_path is Some {
        SpecFieldType::Object(after_last_slash(s.ref_path->0@))
    } else if is_null_literal(s) {
        SpecFieldType::Null
    } else if ms.len() > 0 && real_count(ms) == 0 {
        SpecFieldType::Null
    } else if ms.len() > 0 && real_count(ms) == 1 {
        proof {
            lemma_first_real(ms);
        }
        let inner = schema_field_type(ms[first_real(ms)]);
        if real_count(ms) < ms.len() && !(inner is Nullable || inner is Null) {
            SpecFieldType::Nullable(Box::new(inner))
        } else {
            inner
        }
    } else if !is_known_type(s.schema_type) && first_all_of_ref(s.all_of@) is Some {
        SpecFieldType::Object(first_all_of_ref(s.all_of@)->0)
    } else {
        let base = schema_base(s);
        match pinned_members(s) {
            Some(values) => SpecFieldType::Enum { values, underlying: Box::new(base) },
            None => base,
        }
    }
}

/// The base type `type` names.
pub open spec fn schema_base(s: Schema) -> SpecFieldType
    decreases s, 0int,
{
    match s.schema_type {
        Some(t) => if t@ == "string"@ {
            SpecFieldType::String
        } else if t@ == "integer"@ {
            SpecFieldType::Integer
        } else if t@ == "number"@ {
            SpecFieldType::Number
        } else if t@ == "boolean"@ {
            SpecFieldType::Boolean
        } else if t@ == "array"@ {
            match s.items {
                Some(items) => SpecFieldType::Array(Box::new(schema_field_type(*items))),
                None => SpecFieldType::Array(Box::new(SpecFieldType::Any)),
            }
        } else if t@ == "object"@ {
            match s.additional_properties {
                Some(a) => SpecFieldType::StringMap(Box::new(schema_field_type(*a))),
                None => if s.properties@.len() == 0 {
                    SpecFieldType::Any
                } else {
                    match s.title {
                        Some(title) => SpecFieldType::Object(title@),
                        None => SpecFieldType::Object("InlineObject"@),
                    }
                },
            }
        } else {
            SpecFieldType::Any
        },
        None => SpecFieldType::Any,
    }
}

/// A union with at least one non-null member has a first one.
#[verifier::spinoff_prover]
pub proof fn lemma_first_real(ms: Seq<Schema>)
    ensures
        real_count(ms) <= ms.len(),
        real_count(ms) > 0 ==> 0 <= first_real(ms) < ms.len() && !is_null_literal(
            ms[first_real(ms)],
        ) && forall|j: int| 0 <= j < first_real(ms) ==> is_null_literal(ms[j]),
    decreases ms.len(),
{
    if ms.len() > 0 {
        lemma_first_real(ms.drop_last());
        if real_count(ms) > 0 {
            if real_count(ms.drop_last()) > 0 {
                let k = first_real(ms.drop_last());
                assert(ms.drop_last()[k] == ms[k]);
                assert forall|j: int| 0 <= j < k implies is_null_literal(ms[j]) by {
                    assert(ms.drop_last()[j] == ms[j]);
                }
                assert(0 <= k < ms.len() && !is_null_literal(ms[k]) && forall|j: int|
                    0 <= j < k ==> is_null_literal(ms[j]));
            } else {
                let k = ms.len() - 1;
                assert forall|j: int| 0 <= j < k implies is_null_literal(ms[j]) by {
                    lemma_zero_count_all_null(ms.drop_last(), j);
                    assert(ms.drop_last()[j] == ms[j]);
                }
                assert(!is_null_literal(ms.last()));
                assert(0 <= k < ms.len() && !is_null_literal(ms[k]) && forall|j: int|
                    0 <= j < k ==> is_null_literal(ms[j]));
            }
        }
    }
}

/// When no member is real, every member is a null literal.
pub proof fn lemma_zero_count_all_null(ms: Seq<Schema>, j: int)
    requires
        real_count(ms) == 0,
        0 <= j < ms.len(),
    ensures
        is_null_literal(ms[j]),
    decreases ms.len(),
{
    if j < ms.len() - 1 {
        lemma_zero_count_all_null(ms.drop_last(), j);
    }
}


/// True when this schema's only inhabitant is JSON `null` (see [`is_null_literal`]).
fn null_literal(s: &Schema) -> (r: bool)
    ensures
        r == is_null_literal(*s),
{
    if let Some(t) = &s.schema_type {
        if str_eq(t.as_str(), "null") {
            return true;
        }
    }
    if let Some(JsonValue::Null) = &s.const_value {
        return true;
    }
    let n = s.type_union.len();
    if n == 0 {
        return false;
    }
    let mut i: usize = 0;
    while i < n
        invariant
            n == s.type_union@.len(),
            i <= n,
            !(s.schema_type matches Some(t) && t@ == "null"@),
            !(s.const_value matches Some(JsonValue::Null)),
            forall|k: int| 0 <= k < i ==> #[trigger] s.type_union@[k]@ == "null"@,
        decreases n - i,
    {
        if !str_eq(s.type_union[i].as_str(), "null") {
            return false;
        }
        i = i + 1;
    }
    true
}

/// How many members are real, and the index of the first real one.
fn count_real_members(ms: &Vec<Schema>) -> (r: (usize, Option<usize>))
    ensures
        r.0 == real_count(ms@),
        r.1 is Some <==> real_count(ms@) > 0,
        r.1 matches Some(k) ==> k == first_real(ms@),
{
    let mut count: usize = 0;
    let mut first: Option<usize> = None;
    let mut i: usize = 0;
    proof {
        lemma_first_real(ms@);
    }
    while i < ms.len()
        invariant
            i <= ms@.len(),
            count == real_count(ms@.take(i as int)),
            count <= i,
            first is Some <==> count > 0,
            first matches Some(k) ==> k < i && !is_null_literal(ms@[k as int]) && forall|j: int|
                0 <= j < k ==> is_null_literal(ms@[j]),
            first is None ==> forall|j: int| 0 <= j < i ==> is_null_literal(ms@[j]),
        decreases ms@.len() - i,
    {
        let is_real = !null_literal(&ms[i]);
        proof {
            assert(ms@.take(i + 1).drop_last() =~= ms@.take(i as int));
            assert(ms@.take(i + 1).last() == ms@[i as int]);
        }
        if is_real {
            if first.is_none() {
                first = Some(i);
            }
            count = count + 1;
        }
        i = i + 1;
    }
    proof {
        assert(ms@.take(ms@.len() as int) =~= ms@);
        lemma_first_real(ms@);
        if let Some(k) = first {
            let f = first_real(ms@);
            if f < k {
                assert(is_null_literal(ms@[f]));
            } else if f > k {
                assert(is_null_literal(ms@[k as int]));
            }
        }
    }
    (count, first)
}

/// The name of the first `allOf` member that is a `$ref`, if any.
fn all_of_ref_name(all: &Vec<Schema>) -> (r: Option<String>)
    ensures
        match first_all_of_ref(all@) {
            Some(n) => r is Some && r->0@ == n,
            None => r is None,
        },
{
    let mut i: usize = 0;
    while i < all.len()
        invariant
            i <= all@.len(),
            forall|j: int| 0 <= j < i ==> all@[j].ref_path is None,
        decreases all@.len() - i,
    {
        if let Some(p) = &all[i].ref_path {
            let ghost a = all@;
            let ghost c = choose|k: int| 0 <= k < a.len() && a[k].ref_path is Some
                && forall|j: int| 0 <= j < k ==> a[j].ref_path is None;
            assert(0 <= i < a.len() && a[i as int].ref_path is Some);
            assert(c == i) by {
                if c < i {
                    assert(a[c].ref_path is None);
                } else if c > i {
                    assert(a[i as int].ref_path is None);
                }
            }
            return Some(ref_name(p.as_str()));
        }
        i = i + 1;
    }
    None
}

/// Whether `type` names one of the six types the classifier knows.
fn known_type(t: &Option<String>) -> (r: bool)
    ensures
        r == is_known_type(*t),
{
    match t {
        Some(t) => {
            let t = t.as_str();
            str_eq(t, "string") || str_eq(t, "integer") || str_eq(t, "number") || str_eq(
                t,
                "boolean",
            ) || str_eq(t, "array") || str_eq(t, "object")
        },
        None => false,
    }
}

/// The enum members a schema pins (see [`pinned_members`]).
fn pinned_enum_members(s: &Schema) -> (r: Option<Vec<EnumValue>>)
    ensures
        match pinned_members(*s) {
            Some(values) => r is Some && enum_values_view(r->0@) == values,
            None => r is None,
        },
{
    if let Some(values) = &s.enum_values {
        if values.len() > 0 {
            let mut out: Vec<EnumValue> = Vec::new();
            let mut i: usize = 0;
            while i < values.len()
                invariant
                    i <= values@.len(),
                    out@.len() == i,
                    forall|k: int| 0 <= k < i ==> #[trigger] out@[k]@ == json_enum_value(values@[k]),
                decreases values@.len() - i,
            {
                out.push(EnumValue::from_json(&values[i]));
                i = i + 1;
            }
            assert(enum_values_view(out@) =~= values@.map_values(|v: JsonValue| json_enum_value(v)));
            return Some(out);
        }
    }
    match &s.const_value {
        Some(c) => {
            let mut out: Vec<EnumValue> = Vec::new();
            out.push(EnumValue::from_json(c));
            assert(enum_values_view(out@) =~= seq![json_enum_value(s.const_value->0)]);
            Some(out)
        },
        None => None,
    }
}

/// Resolves a schema node to a field type (see [`schema_field_type`]).
#[must_use]
pub fn schema_to_field_type(schema: &Schema) -> (r: FieldType)
    ensures
        r@ == schema_field_type(*schema),
    decreases schema, 2int,
{
    let core = schema_core_type(schema);
    if schema.nullable && !(matches!(core, FieldType::Null) || matches!(core, FieldType::Nullable(_))) {
        return FieldType::Nullable(Box::new(core));
    }
    core
}

/// The type ignoring any nullability the node itself declares.
fn schema_core_type(schema: &Schema) -> (r: FieldType)
    ensures
        r@ == schema_core(*schema),
    decreases schema, 1int,
{
    if let Some(ref_path) = &schema.ref_path {
        return FieldType::Object(ref_name(ref_path.as_str()));
    }
    if null_literal(schema) {
        return FieldType::Null;
    }
    let members = if schema.one_of.len() == 0 {
        &schema.any_of
    } else {
        &schema.one_of
    };
    if members.len() > 0 {
        let (count, first) = count_real_members(members);
        if count == 0 {
            return FieldType::Null;
        }
        if count == 1 {
            let k = first.unwrap();
            proof {
                lemma_first_real(members@);
            }
            let inner = schema_to_field_type(&members[k]);
            let had_null = count < members.len();
            return if had_null && !inner.is_nullable() {
                FieldType::Nullable(Box::new(inner))
            } else {
                inner
            };
        }
    }
    if !known_type(&schema.schema_type) {
        if let Some(name) = all_of_ref_name(&schema.all_of) {
            return FieldType::Object(name);
        }
    }
    let base = schema_base_type(schema);
    match pinned_enum_members(schema) {
        Some(values) => FieldType::Enum { values, underlying: Box::new(base) },
        None => base,
    }
}

/// The base type `type` names (see [`schema_base`]).
fn schema_base_type(schema: &Schema) -> (r: FieldType)
    ensures
        r@ == schema_base(*schema),
    decreases schema, 0int,
{
    match &schema.schema_type {
        Some(t) => {
            let t = t.as_str();
            if str_eq(t, "string") {
                FieldType::String
            } else if str_eq(t, "integer") {
                FieldType::Integer
            } else if str_eq(t, "number") {
                FieldType::Number
            } else if str_eq(t, "boolean") {
                FieldType::Boolean
            } else if str_eq(t, "array") {
                match &schema.items {
                    Some(items) => FieldType::Array(Box::new(schema_to_field_type(&**items))),
                    None => {
                        let any = FieldType::Any;
                        assert(any@ == SpecFieldType::Any);
                        FieldType::Array(Box::new(any))
                    },
                }
            } else if str_eq(t, "object") {
                match &schema.additional_properties {
                    Some(a) => FieldType::StringMap(Box::new(schema_to_field_type(&**a))),
                    None => {
                        if schema.properties.len() == 0 {
                            FieldType::Any
                        } else {
                            match &schema.title {
                                Some(title) => FieldType::Object(title.clone()),
                                None => FieldType::Object("InlineObject".to_owned()),
                            }
                        }
                    },
                }
            } else {
                FieldType::Any
            }
        },
        None => FieldType::Any,
    }
}

impl From<&Schema> for FieldType {
    fn from(schema: &Schema) -> (r: Self)
        ensures
            r@ == schema_field_type(*schema),
    {
        schema_to_field_type(schema)
    }
}

impl vstd::std_specs::convert::FromSpecImpl<&Schema> for FieldType {
    /// The conversion is stated over the view, by the `ensures` of `from`.
    open spec fn obeys_from_spec() -> bool {
        false
    }

    open spec fn from_spec(schema: &Schema) -> Self {
        FieldType::Any
    }
}


// ── Rendering and parsing ───────────────────────────────────────────────

/// The members' texts joined by `|`.
pub open spec fn joined_texts(vs: Seq<SpecEnumValue>) -> Seq<char>
    decreases vs.len(),
{
    if vs.len() == 0 {
        Seq::empty()
    } else if vs.len() == 1 {
        enum_value_text(vs[0])
    } else {
        joined_texts(vs.drop_last()) + "|"@ + enum_value_text(vs.last())
    }
}

/// How a field type renders: `Array<T>`, `Map<String, T>`, `Nullable<T>`,
/// an object by its name, an enum as `Enum(a|b|...)`, and every other type
/// by its variant name.
pub open spec fn rendered(t: SpecFieldType) -> Seq<char>
    decreases t,
{
    match t {
        SpecFieldType::String => "String"@,
        SpecFieldType::Integer => "Integer"@,
        SpecFieldType::Number => "Number"@,
        SpecFieldType::Boolean => "Boolean"@,
        SpecFieldType::Array(inner) => "Array<"@ + rendered(*inner) + ">"@,
        SpecFieldType::StringMap(inner) => "Map<String, "@ + rendered(*inner) + ">"@,
        SpecFieldType::Object(name) => name,
        SpecFieldType::Enum { values, .. } => "Enum("@ + joined_texts(values) + ")"@,
        SpecFieldType::Null => "Null"@,
        SpecFieldType::Nullable(inner) => "Nullable<"@ + rendered(*inner) + ">"@,
        SpecFieldType::Any => "Any"@,
    }
}

/// The type a name parses to: the five scalar names to their types, any
/// other text to the object of that name.
pub open spec fn parsed_type(s: Seq<char>) -> SpecFieldType {
    if s == "String"@ {
        SpecFieldType::String
    } else if s == "Integer"@ {
        SpecFieldType::Integer
    } else if s == "Number"@ {
        SpecFieldType::Number
    } else if s == "Boolean"@ {
        SpecFieldType::Boolean
    } else if s == "Any"@ {
        SpecFieldType::Any
    } else {
        SpecFieldType::Object(s)
    }
}

/// The type a type-override string denotes, if it is one that is known.
pub open spec fn override_type(s: Seq<char>) -> Option<SpecFieldType> {
    if s == "bool"@ || s == "boolean"@ {
        Some(SpecFieldType::Boolean)
    } else if s == "int"@ || s == "int64"@ || s == "integer"@ {
        Some(SpecFieldType::Integer)
    } else if s == "float"@ || s == "float64"@ || s == "number"@ {
        Some(SpecFieldType::Number)
    } else if s == "string"@ {
        Some(SpecFieldType::String)
    } else if s == "list"@ {
        Some(SpecFieldType::Array(Box::new(SpecFieldType::String)))
    } else {
        None
    }
}

fn append_values(out: &mut String, values: &Vec<EnumValue>)
    ensures
        final(out)@ == old(out)@ + joined_texts(enum_values_view(values@)),
{
    let ghost start = out@;
    let mut i: usize = 0;
    while i < values.len()
        invariant
            i <= values@.len(),
            out@ == start + joined_texts(enum_values_view(values@.take(i as int))),
        decreases values@.len() - i,
    {
        proof {
            assert(enum_values_view(values@.take(i + 1)).drop_last() =~= enum_values_view(
                values@.take(i as int),
            ));
        }
        if i > 0 {
            out.append("|");
        }
        let text = values[i].to_string();
        out.append(text.as_str());
        proof {
            let vs = enum_values_view(values@.take(i + 1));
            assert(vs.last() == values@[i as int]@);
            if i == 0 {
                assert(vs.len() == 1);
                assert(vs[0] == values@[0]@);
            }
        }
        i = i + 1;
    }
    assert(values@.take(values@.len() as int) =~= values@);
}

impl FieldType {
    fn render_into(&self, out: &mut String)
        ensures
            final(out)@ == old(out)@ + rendered(self@),
        decreases self,
    {
        let ghost start = out@;
        match self {
            FieldType::String => out.append("String"),
            FieldType::Integer => out.append("Integer"),
            FieldType::Number => out.append("Number"),
            FieldType::Boolean => out.append("Boolean"),
            FieldType::Array(inner) => {
                out.append("Array<");
                (**inner).render_into(out);
                out.append(">");
            },
            FieldType::StringMap(inner) => {
                out.append("Map<String, ");
                (**inner).render_into(out);
                out.append(">");
            },
            FieldType::Object(name) => out.append(name.as_str()),
            FieldType::Enum { values, .. } => {
                out.append("Enum(");
                append_values(out, values);
                out.append(")");
            },
            FieldType::Null => out.append("Null"),
            FieldType::Nullable(inner) => {
                out.append("Nullable<");
                (**inner).render_into(out);
                out.append(">");
            },
            FieldType::Any => out.append("Any"),
        }
        assert(out@ =~= start + rendered(self@));
    }

    /// The type rendered as text (see [`rendered`]).
    pub fn to_string(&self) -> (r: std::string::String)
        ensures
            r@ == rendered(self@),
    {
        let mut out = std::string::String::new();
        self.render_into(&mut out);
        assert(out@ =~= rendered(self@));
        out
    }
}

impl std::str::FromStr for FieldType {
    type Err = std::convert::Infallible;

    fn from_str(s: &str) -> (r: Result<Self, Self::Err>)
        ensures
            r matches Ok(t) && t@ == parsed_type(s@),
    {
        let t = if str_eq(s, "String") {
            FieldType::String
        } else if str_eq(s, "Integer") {
            FieldType::Integer
        } else if str_eq(s, "Number") {
            FieldType::Number
        } else if str_eq(s, "Boolean") {
            FieldType::Boolean
        } else if str_eq(s, "Any") {
            FieldType::Any
        } else {
            FieldType::Object(s.to_owned())
        };
        Ok(t)
    }
}

/// Customizes how schemas map to field types.
///
/// The provided methods give the standard mapping; implementors may
/// override them for platform-specific type handling.
pub trait TypeMapper: Send + Sync {
    /// Map a schema to a field type.
    #[must_use]
    fn map_schema(&self, schema: &Schema) -> (r: FieldType)
        default_ensures
            r@ == schema_field_type(*schema),
    {
        schema_to_field_type(schema)
    }

    /// Map a type override string to a field type, or `None` when the
    /// override is not recognized.
    #[must_use]
    fn map_override(&self, override_str: &str) -> (r: Option<FieldType>)
        default_ensures
            match override_type(override_str@) {
                Some(t) => r is Some && r->0@ == t,
                None => r is None,
            },
    {
        let s = override_str;
        if str_eq(s, "bool") || str_eq(s, "boolean") {
            Some(FieldType::Boolean)
        } else if str_eq(s, "int") || str_eq(s, "int64") || str_eq(s, "integer") {
            Some(FieldType::Integer)
        } else if str_eq(s, "float") || str_eq(s, "float64") || str_eq(s, "number") {
            Some(FieldType::Number)
        } else if str_eq(s, "string") {
            Some(FieldType::String)
        } else if str_eq(s, "list") {
            let inner = FieldType::String;
            assert(inner@ == SpecFieldType::String);
            Some(FieldType::Array(Box::new(inner)))
        } else {
            None
        }
    }
}

/// The standard mapping from schemas to field types.
pub struct DefaultTypeMapper;

impl TypeMapper for DefaultTypeMapper {}


/// Whether an enum member is the string `s`: only a string member can be.
pub open spec fn member_is_str(v: SpecEnumValue, s: Seq<char>) -> bool {
    v matches SpecEnumValue::Str(t) && t == s
}

impl EnumValue {
    fn eq_text(&self, other: &str) -> (r: bool)
        ensures
            r == member_is_str(self@, other@),
    {
        match self.as_str() {
            Some(s) => str_eq(s, other),
            None => false,
        }
    }
}

/// Compares directly against a string. A non-string member is never equal
/// to a string.
impl PartialEq<&str> for EnumValue {
    fn eq(&self, other: &&str) -> (r: bool) {
        self.eq_text(*other)
    }
}

impl vstd::std_specs::cmp::PartialEqSpecImpl<&str> for EnumValue {
    open spec fn obeys_eq_spec() -> bool {
        true
    }

    open spec fn eq_spec(&self, other: &&str) -> bool {
        member_is_str(self@, other@)
    }
}

impl PartialEq<EnumValue> for &str {
    fn eq(&self, other: &EnumValue) -> (r: bool) {
        other.eq_text(*self)
    }
}

impl vstd::std_specs::cmp::PartialEqSpecImpl<EnumValue> for &str {
    open spec fn obeys_eq_spec() -> bool {
        true
    }

    open spec fn eq_spec(&self, other: &EnumValue) -> bool {
        member_is_str(other@, self@)
    }
}


// ── Laws ────────────────────────────────────────────────────────────────

/// Whether nullability is stated at most once here: a `Nullable` never
/// wraps another `Nullable` or `Null`.
pub open spec fn nullable_flat(t: SpecFieldType) -> bool {
    match t {
        SpecFieldType::Nullable(inner) => !(*inner is Nullable || *inner is Null),
        _ => true,
    }
}

/// Peeling nullability leaves no `Nullable` behind, so peeling twice is
/// peeling once; and every accessor that answers about the underlying type
/// answers the same for `T` and `Nullable<T>`, depth included.
pub proof fn lemma_nullable_is_transparent(t: SpecFieldType)
    ensures
        !(peeled(t) is Nullable),
        peeled(peeled(t)) == peeled(t),
        peeled(SpecFieldType::Nullable(Box::new(t))) == peeled(t),
        nesting_depth(SpecFieldType::Nullable(Box::new(t))) == nesting_depth(t),
    decreases t,
{
    if let SpecFieldType::Nullable(inner) = t {
        lemma_nullable_is_transparent(*inner);
    }
}

/// Classifying a schema never produces `Nullable<Nullable<T>>` or
/// `Nullable<Null>`, however many of its spellings of nullability combine.
pub proof fn lemma_nullable_never_nests(s: Schema)
    ensures
        nullable_flat(schema_field_type(s)),
        nullable_flat(schema_core(s)),
    decreases s, 1int,
{
    let ms = union_members(s);
    if s.ref_path is None && !is_null_literal(s) && ms.len() > 0 && real_count(ms) == 1 {
        lemma_first_real(ms);
        lemma_nullable_never_nests(ms[first_real(ms)]);
    }
}

/// A `const` and an `enum` of that one value classify alike, unless the
/// value is `null` (a `const` of `null` makes the schema a null literal).
pub proof fn lemma_const_is_enum_of_one(with_const: Schema, with_enum: Schema, c: JsonValue)
    requires
        !(c is Null),
        with_enum.const_value is None,
        with_enum.enum_values matches Some(vs) && vs@ == seq![c],
        with_const == (Schema { const_value: Some(c), enum_values: None, ..with_enum }),
    ensures
        schema_field_type(with_const) == schema_field_type(with_enum),
{
    let vs = with_enum.enum_values->0@;
    assert(vs.map_values(|v: JsonValue| json_enum_value(v)) =~= seq![json_enum_value(c)]);
    assert(pinned_members(with_const) == pinned_members(with_enum));
    assert(is_null_literal(with_const) == is_null_literal(with_enum));
    assert(schema_core(with_const) == schema_core(with_enum));
}

/// Rendering a scalar type and parsing the text back gives the type again;
/// so does an object whose name is not one of the scalar names.
pub proof fn lemma_render_then_parse(t: SpecFieldType)
    requires
        t is String || t is Integer || t is Number || t is Boolean || t is Any || (t matches SpecFieldType::Object(
            name,
        ) && name != "String"@ && name != "Integer"@ && name != "Number"@ && name != "Boolean"@
            && name != "Any"@),
    ensures
        parsed_type(rendered(t)) == t,
{
    reveal_strlit("String");
    reveal_strlit("Integer");
    reveal_strlit("Number");
    reveal_strlit("Boolean");
    reveal_strlit("Any");
    assert("Number"@[0] != "String"@[0]);
    assert("Integer"@[0] != "Boolean"@[0]);
    assert("Any"@[0] != "String"@[0]);
    assert("Boolean"@.len() != "String"@.len());
}


// ── Laws of the classifier ──────────────────────────────────────────────

/// The members of a union that are not null literals, in order.
pub open spec fn non_null_members(ms: Seq<Schema>) -> Seq<Schema> {
    ms.filter(|m: Schema| !is_null_literal(m))
}

/// `real_count` counts the non-null members, and the first of them is the
/// one `first_real` finds.
pub proof fn lemma_non_null_members(ms: Seq<Schema>)
    ensures
        real_count(ms) == non_null_members(ms).len(),
        real_count(ms) > 0 ==> non_null_members(ms)[0] == ms[first_real(ms)],
    decreases ms.len(),
{
    reveal_with_fuel(Seq::<_>::filter, 1);
    if ms.len() > 0 {
        let d = ms.drop_last();
        lemma_non_null_members(d);
        lemma_first_real(ms);
        lemma_first_real(d);
        assert(non_null_members(ms) == (if !is_null_literal(ms.last()) {
            non_null_members(d).push(ms.last())
        } else {
            non_null_members(d)
        }));
        if real_count(ms) > 0 {
            let k1 = first_real(ms);
            if real_count(d) > 0 {
                let k2 = first_real(d);
                assert(d[k2] == ms[k2]);
                if k1 < k2 {
                    assert(d[k1] == ms[k1]);
                }
                assert(k1 == k2);
            } else {
                if k1 < ms.len() - 1 {
                    lemma_zero_count_all_null(d, k1);
                    assert(d[k1] == ms[k1]);
                }
                assert(k1 == ms.len() - 1);
            }
        }
    }
}

/// Whether a schema falls through every earlier step of the classifier to
/// its base type: no `$ref`, not a null literal, no union members, and no
/// `allOf` reference standing in for an unknown type.
pub open spec fn reaches_base(s: Schema) -> bool {
    &&& s.ref_path is None
    &&& !is_null_literal(s)
    &&& union_members(s).len() == 0
    &&& !(!is_known_type(s.schema_type) && first_all_of_ref(s.all_of@) is Some)
}

/// Enum and `const` pinning, with `bare` the schema without its `enum` and
/// `const`: a non-empty enum keeps every member, in order, over the base
/// type; without one, a `const` is an enum of that one value; and an empty
/// enum list is ignored.
pub proof fn lemma_enum_and_const_pinning(s: Schema, bare: Schema)
    requires
        reaches_base(s),
        bare == (Schema { enum_values: None, const_value: None, ..s }),
    ensures
        schema_core(bare) == schema_base(s),
        (s.enum_values matches Some(vs) && vs@.len() > 0) ==> schema_core(s) == (SpecFieldType::Enum {
            values: s.enum_values->0@.map_values(|v: JsonValue| json_enum_value(v)),
            underlying: Box::new(schema_core(bare)),
        }),
        (s.enum_values matches Some(vs) && vs@.len() > 0) ==> schema_core(s)->values.len()
            == s.enum_values->0@.len() && forall|i: int|
            0 <= i < s.enum_values->0@.len() ==> schema_core(s)->values[i] == json_enum_value(
                #[trigger] s.enum_values->0@[i],
            ),
        !(s.enum_values matches Some(vs) && vs@.len() > 0) ==> match s.const_value {
            Some(c) => schema_core(s) == (SpecFieldType::Enum {
                values: seq![json_enum_value(c)],
                underlying: Box::new(schema_core(bare)),
            }),
            None => schema_core(s) == schema_core(bare),
        },
{
    assert(!is_null_literal(bare));
    assert(union_members(bare) == union_members(s));
    assert(schema_base(bare) == schema_base(s));
}

/// Unions, over the members that are not null literals: when there are
/// none the type is `Null`; when there is one the union collapses to it,
/// made nullable when a null member was dropped beside it (unless it is
/// already nullable or `Null`); with two or more the union is not
/// classified and the schema maps as it would without its union, `flat`.
pub proof fn lemma_union_members(s: Schema, flat: Schema)
    requires
        s.ref_path is None,
        !is_null_literal(s),
        union_members(s).len() > 0,
        flat.one_of@.len() == 0,
        flat.any_of@.len() == 0,
        flat == (Schema { one_of: flat.one_of, any_of: flat.any_of, ..s }),
    ensures
        ({
            let ms = union_members(s);
            let live = non_null_members(ms);
            &&& live.len() == 0 ==> schema_core(s) == SpecFieldType::Null
            &&& live.len() == 1 ==> {
                let inner = schema_field_type(live[0]);
                schema_core(s) == if live.len() < ms.len() && !(inner is Nullable
                    || inner is Null) {
                    SpecFieldType::Nullable(Box::new(inner))
                } else {
                    inner
                }
            }
            &&& live.len() >= 2 ==> schema_core(s) == schema_core(flat)
        }),
{
    let ms = union_members(s);
    lemma_non_null_members(ms);
    lemma_first_real(ms);
    assert(!is_null_literal(flat));
    assert(union_members(flat).len() == 0);
    assert(schema_base(flat) == schema_base(s));
    assert(pinned_members(flat) == pinned_members(s));
}

/// Whether a type is free of `Nullable<Nullable<T>>` and `Nullable<Null>`
/// at every level, not only the outermost.
pub open spec fn nullable_flat_throughout(t: SpecFieldType) -> bool
    decreases t,
{
    match t {
        SpecFieldType::Array(inner) => nullable_flat_throughout(*inner),
        SpecFieldType::StringMap(inner) => nullable_flat_throughout(*inner),
        SpecFieldType::Enum { underlying, .. } => nullable_flat_throughout(*underlying),
        SpecFieldType::Nullable(inner) => !(*inner is Nullable || *inner is Null)
            && nullable_flat_throughout(*inner),
        _ => true,
    }
}

/// No type the classifier produces holds `Nullable<Nullable<T>>` or
/// `Nullable<Null>` anywhere inside it.
pub proof fn lemma_nullable_never_nests_throughout(s: Schema)
    ensures
        nullable_flat_throughout(schema_field_type(s)),
        nullable_flat_throughout(schema_core(s)),
        nullable_flat_throughout(schema_base(s)),
    decreases s, 2int,
{
    lemma_base_flat(s);
    lemma_core_flat(s);
}

proof fn lemma_core_flat(s: Schema)
    ensures
        nullable_flat_throughout(schema_core(s)),
    decreases s, 1int,
{
    let ms = union_members(s);
    if s.ref_path is None && !is_null_literal(s) && ms.len() > 0 && real_count(ms) == 1 {
        lemma_first_real(ms);
        lemma_nullable_never_nests_throughout(ms[first_real(ms)]);
    } else {
        lemma_base_flat(s);
    }
}

proof fn lemma_base_flat(s: Schema)
    ensures
        nullable_flat_throughout(schema_base(s)),
    decreases s, 0int,
{
    let b = schema_base(s);
    match b {
        SpecFieldType::Array(inner) => {
            if let Some(items) = s.items {
                lemma_nullable_never_nests_throughout(*items);
                assert(*inner == schema_field_type(*items));
                assert(nullable_flat_throughout(*inner));
            } else {
                assert(*inner == SpecFieldType::Any);
            }
            assert(b == SpecFieldType::Array(inner));
            assert(nullable_flat_throughout(SpecFieldType::Array(inner)) == nullable_flat_throughout(*inner));
            assert(nullable_flat_throughout(b));
        },
        SpecFieldType::StringMap(inner) => {
            let a = s.additional_properties->0;
            lemma_nullable_never_nests_throughout(*a);
            assert(*inner == schema_field_type(*a));
        },
        _ => {},
    }
}

// ── Laws of rendering and of nullable unions ────────────────────────────

/// Enum members render as their JSON literals: `true` and `false` for the
/// booleans (so the two differ), `null` for null, a string as itself; and an
/// enum of one member renders as `Enum(` that member's text `)`.
pub proof fn lemma_member_texts(v: SpecEnumValue, underlying: SpecFieldType)
    ensures
        enum_value_text(SpecEnumValue::Bool(true)) == "true"@,
        enum_value_text(SpecEnumValue::Bool(false)) == "false"@,
        enum_value_text(SpecEnumValue::Bool(true)) != enum_value_text(SpecEnumValue::Bool(false)),
        enum_value_text(SpecEnumValue::Null) == "null"@,
        forall|t: Seq<char>| #[trigger] enum_value_text(SpecEnumValue::Str(t)) == t,
        rendered(SpecFieldType::Enum { values: seq![v], underlying: Box::new(underlying) })
            == "Enum("@ + enum_value_text(v) + ")"@,
{
    reveal_strlit("true");
    reveal_strlit("false");
    assert("true"@.len() != "false"@.len());
}

/// The nullable-wrapper idiom: a schema with no `$ref` whose union (its
/// `oneOf`, or its `anyOf` when it has no `oneOf`) is one real member `t`
/// and one null literal `n`, in either order, is `t`'s type made nullable,
/// unless that is already nullable or `Null`.
pub proof fn lemma_nullable_wrapper_union(s: Schema, t: Schema, n: Schema)
    requires
        s.ref_path is None,
        !is_null_literal(s),
        !is_null_literal(t),
        is_null_literal(n),
        (s.one_of@ == seq![t, n] || s.one_of@ == seq![n, t]) || (s.one_of@.len() == 0 && (
        s.any_of@ == seq![t, n] || s.any_of@ == seq![n, t])),
    ensures
        ({
            let inner = schema_field_type(t);
            let expected = if inner is Nullable || inner is Null {
                inner
            } else {
                SpecFieldType::Nullable(Box::new(inner))
            };
            schema_core(s) == expected && schema_field_type(s) == expected
        }),
{
    let ms = union_members(s);
    assert(ms.len() == 2);
    let d = ms.drop_last();
    assert(d.drop_last() =~= Seq::<Schema>::empty());
    assert(real_count(d.drop_last()) == 0);
    assert(d.last() == ms[0]);
    assert(ms.last() == ms[1]);
    assert(real_count(d) == (if is_null_literal(ms[0]) { 0nat } else { 1nat }));
    assert(real_count(ms) == 1);
    lemma_first_real(ms);
    let k = first_real(ms);
    assert(ms[k] == t);
}
} // verus!
