//! The schema model and the type resolver: typed representation of a parsed
//! Swagger-style document, and the pure functions that turn a property,
//! parameter or response description into a TypeScript type expression.

use vstd::prelude::*;
use vstd::string::*;

use crate::text::{
    join_with_spec, lemma_join_with_push, replace_char, replace_char_spec, str_eq, strip_prefix,
    strip_prefix_spec,
};

verus! {

/// The status-code-to-response mapping of one operation, in document order.
pub type OperationResponseMap = Vec<(String, ResponsePayload)>;

/// The property-name-to-property mapping of one definition, in document order.
pub type DefinitionPropertyMap = Vec<(String, DefinitionProperty)>;

/// An inline field-name-to-type-name mapping, in document order.
pub type KV = Vec<(String, String)>;

/// A whole schema document: named type definitions and URL-template paths.
pub struct Schema {
    pub schemes: Vec<String>,
    pub host: String,
    pub base_path: String,
    pub paths: Vec<(String, Path)>,
    pub definitions: Vec<(String, Definition)>,
}

/// One URL template with at most one operation per HTTP method.
pub struct Path {
    pub get: Option<Operation>,
    pub post: Option<Operation>,
    pub put: Option<Operation>,
    pub delete: Option<Operation>,
    pub patch: Option<Operation>,
}

/// One HTTP-method handler: its parameters and its possible responses.
pub struct Operation {
    pub description: String,
    pub operation_id: String,
    pub parameters: Vec<OperationParameter>,
    pub responses: OperationResponseMap,
}

/// The declared primitive type of an operation parameter.
pub enum OperationParameterType {
    String,
    Integer,
    Boolean,
    Array,
    Object,
}

/// Where an operation parameter is carried.
pub enum OperationParameterField {
    Query,
    Body,
    Path,
}

/// One declared parameter of an operation.
pub struct OperationParameter {
    pub type_field: Option<OperationParameterType>,
    pub description: String,
    pub name: String,
    pub in_field: OperationParameterField,
    pub required: Option<bool>,
    pub ref_field: Option<SchemaRef>,
}

/// One declared response of an operation, keyed by status code in the
/// owning map.
pub struct ResponsePayload {
    pub description: String,
    pub schema: Option<SchemaRef>,
}

/// A schema reference: either a direct pointer into the definitions map or
/// an array of such pointers.
pub struct SchemaRef {
    pub type_ref: Option<String>,
    pub items: Option<SchemaRefItems>,
}

/// The item pointer of an array-shaped schema reference.
pub struct SchemaRefItems {
    pub _ref: Option<String>,
}

/// The declared kind of a definition.
pub enum DefinitionType {
    Object,
    String,
}

/// A named schema type: an object with properties, or an enumeration of
/// string literals.
pub struct Definition {
    pub type_field: DefinitionType,
    pub properties: Option<DefinitionPropertyMap>,
    pub _enum: Option<Vec<String>>,
}

/// The declared primitive type of a definition property.
pub enum DefinitionPropertyType {
    String,
    Array,
    Integer,
    Boolean,
    Object,
}

/// One field of an object definition.
pub struct DefinitionProperty {
    pub description: Option<String>,
    pub type_field: Option<DefinitionPropertyType>,
    pub _ref: Option<String>,
    pub items: Option<KV>,
    pub additional_properties: Option<KV>,
}

/// Every dot of a definition key replaced by an underscore.
pub open spec fn normalize_key_spec(s: Seq<char>) -> Seq<char> {
    replace_char_spec(s, '.', '_')
}

/// The fixed prefix that marks a reference into the definitions map.
pub open spec fn definitions_marker() -> Seq<char> {
    "#/definitions/"@
}

/// A reference string turned into a definition type name: a leading
/// definitions-map marker stripped, and the remaining identifier's dots
/// flattened to underscores.
pub open spec fn clear_ref_spec(s: Seq<char>) -> Seq<char> {
    normalize_key_spec(strip_prefix_spec(s, definitions_marker()))
}

pub fn normalize_key(key: &String) -> (r: String)
    ensures
        r@ == normalize_key_spec(key@),
{
    replace_char(key.as_str(), '.', '_')
}

pub fn clear_ref(ref_string: &String) -> (r: String)
    ensures
        r@ == clear_ref_spec(ref_string@),
{
    proof {
        reveal_strlit("#/definitions/");
    }
    let stripped = strip_prefix(ref_string.as_str(), "#/definitions/");
    normalize_key(&stripped)
}

/// The TypeScript keyword for a scalar parameter type; the two non-scalar
/// kinds resolve to nothing and are excluded by the resolver's precondition.
pub open spec fn param_prim_spec(t: OperationParameterType) -> Seq<char> {
    match t {
        OperationParameterType::String => "string"@,
        OperationParameterType::Integer => "number"@,
        OperationParameterType::Boolean => "boolean"@,
        OperationParameterType::Array => Seq::<char>::empty(),
        OperationParameterType::Object => Seq::<char>::empty(),
    }
}

/// True when the declared parameter type, if any, is one the resolver can
/// turn into a keyword (absent, string, integer or boolean).
pub open spec fn param_type_scalar(t: Option<OperationParameterType>) -> bool {
    match t {
        Option::None => true,
        Option::Some(tt) => match tt {
            OperationParameterType::Array => false,
            OperationParameterType::Object => false,
            _ => true,
        },
    }
}

/// The resolved type of one query or path parameter: the bottom type when no
/// primitive type is declared; otherwise the primitive keyword, widened by
/// the absent-or-null marker when `required` is declared false, and by both
/// that marker and an explicit undefined marker when `required` is absent.
pub open spec fn inner_type_spec(p: OperationParameter) -> Seq<char> {
    match p.type_field {
        Option::None => "never"@,
        Option::Some(t) => match p.required {
            Option::Some(true) => param_prim_spec(t),
            Option::Some(false) => param_prim_spec(t) + " | undefined | null"@,
            Option::None => param_prim_spec(t) + " | undefined | null | undefined"@,
        },
    }
}

pub open spec fn in_query_spec(p: OperationParameter) -> bool {
    match p.in_field {
        OperationParameterField::Query => true,
        _ => false,
    }
}

pub open spec fn in_path_spec(p: OperationParameter) -> bool {
    match p.in_field {
        OperationParameterField::Path => true,
        _ => false,
    }
}

pub open spec fn in_body_spec(p: OperationParameter) -> bool {
    match p.in_field {
        OperationParameterField::Body => true,
        _ => false,
    }
}

/// One `name: type` member of a parameters object literal.
pub open spec fn param_entry_spec(p: OperationParameter) -> Seq<char> {
    p.name@ + ": "@ + inner_type_spec(p)
}

/// The entries for the query parameters of `ps`, in order.
pub open spec fn query_entries_spec(ps: Seq<OperationParameter>) -> Seq<Seq<char>>
    decreases ps.len(),
{
    if ps.len() == 0 {
        Seq::<Seq<char>>::empty()
    } else if in_query_spec(ps.last()) {
        query_entries_spec(ps.drop_last()).push(param_entry_spec(ps.last()))
    } else {
        query_entries_spec(ps.drop_last())
    }
}

/// The entries for the path parameters of `ps`, in order.
pub open spec fn path_entries_spec(ps: Seq<OperationParameter>) -> Seq<Seq<char>>
    decreases ps.len(),
{
    if ps.len() == 0 {
        Seq::<Seq<char>>::empty()
    } else if in_path_spec(ps.last()) {
        path_entries_spec(ps.drop_last()).push(param_entry_spec(ps.last()))
    } else {
        path_entries_spec(ps.drop_last())
    }
}

/// True when every query parameter of the operation has a type the
/// resolver accepts; array- and object-typed parameters are not modeled.
pub open spec fn query_params_resolvable_spec(op: Operation) -> bool {
    forall|i: int|
        0 <= i < op.parameters@.len() ==> (in_query_spec(#[trigger] op.parameters@[i])
            ==> param_type_scalar(op.parameters@[i].type_field))
}

/// True when every path parameter of the operation has a type the resolver
/// accepts.
pub open spec fn path_params_resolvable_spec(op: Operation) -> bool {
    forall|i: int|
        0 <= i < op.parameters@.len() ==> (in_path_spec(#[trigger] op.parameters@[i])
            ==> param_type_scalar(op.parameters@[i].type_field))
}

/// True when every query and path parameter of the operation has a type the
/// resolver accepts.
pub open spec fn params_resolvable_spec(op: Operation) -> bool {
    query_params_resolvable_spec(op) && path_params_resolvable_spec(op)
}

impl Operation {
    /// The comma-separated `name: type` members for the query parameters.
    pub fn parse_query(&self) -> (r: String)
        requires
            query_params_resolvable_spec(*self),
        ensures
            r@ == join_with_spec(query_entries_spec(self.parameters@), ", "@),
    {
        let mut builder = String::new();
        let mut i: usize = 0;
        let mut first = true;
        proof {
            assert(self.parameters@.take(0) =~= Seq::<OperationParameter>::empty());
        }
        while i < self.parameters.len()
            invariant
                query_params_resolvable_spec(*self),
                i <= self.parameters@.len(),
                builder@ == join_with_spec(query_entries_spec(self.parameters@.take(i as int)), ", "@),
                first == (query_entries_spec(self.parameters@.take(i as int)).len() == 0),
            decreases self.parameters@.len() - i,
        {
            let ghost prefix = self.parameters@.take(i as int);
            proof {
                assert(self.parameters@.take(i + 1).drop_last() =~= prefix);
                assert(self.parameters@.take(i + 1).last() == self.parameters@[i as int]);
            }
            let param = &self.parameters[i];
            let is_query = match param.in_field {
                OperationParameterField::Query => true,
                _ => false,
            };
            if is_query {
                if !first {
                    builder.append(", ");
                }
                builder.append(param.name.as_str());
                builder.append(": ");
                let inner = self.parse_inner_type(param);
                builder.append(inner.as_str());
                first = false;
                proof {
                    lemma_join_with_push(
                        query_entries_spec(prefix),
                        param_entry_spec(self.parameters@[i as int]),
                        ", "@,
                    );
                    assert(builder@ =~= join_with_spec(
                        query_entries_spec(self.parameters@.take(i + 1)),
                        ", "@,
                    ));
                }
            }
            i = i + 1;
        }
        proof {
            assert(self.parameters@.take(self.parameters@.len() as int) =~= self.parameters@);
        }
        builder
    }

    /// The comma-separated `name: type` members for the path parameters.
    pub fn parse_path(&self) -> (r: String)
        requires
            path_params_resolvable_spec(*self),
        ensures
            r@ == join_with_spec(path_entries_spec(self.parameters@), ", "@),
    {
        let mut builder = String::new();
        let mut i: usize = 0;
        let mut first = true;
        proof {
            assert(self.parameters@.take(0) =~= Seq::<OperationParameter>::empty());
        }
        while i < self.parameters.len()
            invariant
                path_params_resolvable_spec(*self),
                i <= self.parameters@.len(),
                builder@ == join_with_spec(path_entries_spec(self.parameters@.take(i as int)), ", "@),
                first == (path_entries_spec(self.parameters@.take(i as int)).len() == 0),
            decreases self.parameters@.len() - i,
        {
            let ghost prefix = self.parameters@.take(i as int);
            proof {
                assert(self.parameters@.take(i + 1).drop_last() =~= prefix);
                assert(self.parameters@.take(i + 1).last() == self.parameters@[i as int]);
            }
            let param = &self.parameters[i];
            let is_path = match param.in_field {
                OperationParameterField::Path => true,
                _ => false,
            };
            if is_path {
                if !first {
                    builder.append(", ");
                }
                builder.append(param.name.as_str());
                builder.append(": ");
                let inner = self.parse_inner_type(param);
                builder.append(inner.as_str());
                first = false;
                proof {
                    lemma_join_with_push(
                        path_entries_spec(prefix),
                        param_entry_spec(self.parameters@[i as int]),
                        ", "@,
                    );
                    assert(builder@ =~= join_with_spec(
                        path_entries_spec(self.parameters@.take(i + 1)),
                        ", "@,
                    ));
                }
            }
            i = i + 1;
        }
        proof {
            assert(self.parameters@.take(self.parameters@.len() as int) =~= self.parameters@);
        }
        builder
    }

    /// The resolved type of one parameter, with the optionality widening of
    /// `inner_type_spec`.
    pub fn parse_inner_type(&self, operation: &OperationParameter) -> (r: String)
        requires
            param_type_scalar(operation.type_field),
        ensures
            r@ == inner_type_spec(*operation),
    {
        let mut builder = String::new();
        match &operation.type_field {
            Option::None => {
                builder.append("never");
            },
            Option::Some(field) => {
                match field {
                    OperationParameterType::String => builder.append("string"),
                    OperationParameterType::Integer => builder.append("number"),
                    OperationParameterType::Boolean => builder.append("boolean"),
                    OperationParameterType::Array => {
                        proof {
                            assert(false);
                        }
                    },
                    OperationParameterType::Object => {
                        proof {
                            assert(false);
                        }
                    },
                }
                match operation.required {
                    Option::Some(true) => {},
                    Option::Some(false) => {
                        builder.append(" | undefined | null");
                    },
                    Option::None => {
                        builder.append(" | undefined | null | undefined");
                    },
                }
            },
        }
        builder
    }
}

/// The resolved response type: the referenced definition wrapped in the
/// pending-result marker, or the pending-unknown marker when the response
/// declares no schema or no direct reference.
pub open spec fn response_type_spec(r: ResponsePayload) -> Seq<char> {
    match r.schema {
        Option::Some(sr) => match sr.type_ref {
            Option::Some(t) => "Promise<"@ + clear_ref_spec(t@) + ">"@,
            Option::None => "Promise<unknown>"@,
        },
        Option::None => "Promise<unknown>"@,
    }
}

impl ResponsePayload {
    pub fn parse_response(&self) -> (r: String)
        ensures
            r@ == response_type_spec(*self),
    {
        match &self.schema {
            Option::Some(schema) => {
                let mut builder = String::new();
                match &schema.type_ref {
                    Option::Some(type_ref) => {
                        builder.append("Promise<");
                        let cleared = clear_ref(type_ref);
                        builder.append(cleared.as_str());
                        builder.append(">");
                    },
                    Option::None => {
                        builder.append("Promise<unknown>");
                    },
                }
                builder
            },
            Option::None => String::from_str("Promise<unknown>"),
        }
    }
}

/// The resolved request-body type of a body parameter: the referenced
/// definition name, or the bottom type when no reference is declared.
pub open spec fn body_type_spec(p: OperationParameter) -> Seq<char> {
    match p.ref_field {
        Option::Some(sr) => match sr.type_ref {
            Option::Some(t) => clear_ref_spec(t@),
            Option::None => "never"@,
        },
        Option::None => "never"@,
    }
}

impl OperationParameter {
    pub fn parse_body(&self) -> (r: String)
        ensures
            r@ == body_type_spec(*self),
    {
        match &self.ref_field {
            Option::Some(schema) => match &schema.type_ref {
                Option::Some(type_ref) => clear_ref(type_ref),
                Option::None => String::from_str("never"),
            },
            Option::None => String::from_str("never"),
        }
    }
}

/// One enum value as a single-quoted string literal.
pub open spec fn quoted_spec(v: Seq<char>) -> Seq<char> {
    "'"@ + v + "'"@
}

/// The quoted enum values, in source order.
pub open spec fn enum_values_spec(vals: Seq<String>) -> Seq<Seq<char>>
    decreases vals.len(),
{
    if vals.len() == 0 {
        Seq::<Seq<char>>::empty()
    } else {
        enum_values_spec(vals.drop_last()).push(quoted_spec(vals.last()@))
    }
}

/// The resolved type of an enum definition: the union of its quoted values
/// in source order, or nothing when the definition declares no enum list.
pub open spec fn parse_enum_spec(d: Definition) -> Seq<char> {
    match d._enum {
        Option::Some(vals) => join_with_spec(enum_values_spec(vals@), " | "@),
        Option::None => Seq::<char>::empty(),
    }
}

proof fn lemma_enum_values_len(vals: Seq<String>)
    ensures
        enum_values_spec(vals).len() == vals.len(),
    decreases vals.len(),
{
    if vals.len() > 0 {
        lemma_enum_values_len(vals.drop_last());
    }
}

pub fn parse_enum(props: &Definition) -> (r: String)
    ensures
        r@ == parse_enum_spec(*props),
{
    match &props._enum {
        Option::Some(values) => {
            let mut builder = String::new();
            let mut i: usize = 0;
            proof {
                assert(values@.take(0) =~= Seq::<String>::empty());
            }
            while i < values.len()
                invariant
                    i <= values@.len(),
                    builder@ == join_with_spec(enum_values_spec(values@.take(i as int)), " | "@),
                decreases values@.len() - i,
            {
                let ghost prefix = values@.take(i as int);
                proof {
                    assert(values@.take(i + 1).drop_last() =~= prefix);
                    assert(values@.take(i + 1).last() == values@[i as int]);
                    lemma_enum_values_len(prefix);
                    lemma_join_with_push(
                        enum_values_spec(prefix),
                        quoted_spec(values@[i as int]@),
                        " | "@,
                    );
                }
                if i > 0 {
                    builder.append(" | ");
                }
                builder.append("'");
                builder.append(values[i].as_str());
                builder.append("'");
                proof {
                    assert(builder@ =~= join_with_spec(
                        enum_values_spec(values@.take(i + 1)),
                        " | "@,
                    ));
                }
                i = i + 1;
            }
            proof {
                assert(values@.take(values@.len() as int) =~= values@);
            }
            builder
        },
        Option::None => String::new(),
    }
}

/// True when some pair of the inline mapping has the given key.
pub open spec fn kv_has_key_spec(kv: Seq<(String, String)>, key: Seq<char>) -> bool
    decreases kv.len(),
{
    if kv.len() == 0 {
        false
    } else {
        kv[0].0@ == key || kv_has_key_spec(kv.drop_first(), key)
    }
}

/// The value of the first pair with the given key.
pub open spec fn kv_get_spec(kv: Seq<(String, String)>, key: Seq<char>) -> Seq<char>
    decreases kv.len(),
{
    if kv.len() == 0 {
        Seq::<char>::empty()
    } else if kv[0].0@ == key {
        kv[0].1@
    } else {
        kv_get_spec(kv.drop_first(), key)
    }
}

/// The value of the first pair whose key is `key`, or nothing.
fn kv_lookup(kv: &KV, key: &str) -> (r: Option<String>)
    ensures
        r is Some <==> kv_has_key_spec(kv@, key@),
        r is Some ==> r->0@ == kv_get_spec(kv@, key@),
{
    let mut i: usize = 0;
    proof {
        assert(kv@.skip(0) =~= kv@);
    }
    while i < kv.len()
        invariant
            i <= kv@.len(),
            kv_has_key_spec(kv@, key@) == kv_has_key_spec(kv@.skip(i as int), key@),
            kv_has_key_spec(kv@, key@) ==> kv_get_spec(kv@, key@) == kv_get_spec(
                kv@.skip(i as int),
                key@,
            ),
        decreases kv@.len() - i,
    {
        proof {
            assert(kv@.skip(i as int)[0] == kv@[i as int]);
            assert(kv@.skip(i as int).drop_first() =~= kv@.skip(i + 1));
        }
        if str_eq(kv[i].0.as_str(), key) {
            let v = kv[i].1.clone();
            return Some(v);
        }
        i = i + 1;
    }
    proof {
        assert(kv@.skip(kv@.len() as int) =~= Seq::<(String, String)>::empty());
    }
    None
}

/// The inline mapping rendered as TypeScript object members, each value
/// resolved as a reference: `key:value;` for each pair, in order.
pub open spec fn kv_pairs_spec(kv: Seq<(String, String)>) -> Seq<char>
    decreases kv.len(),
{
    if kv.len() == 0 {
        Seq::<char>::empty()
    } else {
        kv_pairs_spec(kv.drop_last()) + kv.last().0@ + ":"@ + clear_ref_spec(kv.last().1@) + ";"@
    }
}

pub fn encode_kv_to_ts_object(kv: &KV) -> (r: String)
    ensures
        r@ == kv_pairs_spec(kv@),
{
    let mut res = String::new();
    let mut i: usize = 0;
    proof {
        assert(kv@.take(0) =~= Seq::<(String, String)>::empty());
    }
    while i < kv.len()
        invariant
            i <= kv@.len(),
            res@ == kv_pairs_spec(kv@.take(i as int)),
        decreases kv@.len() - i,
    {
        proof {
            assert(kv@.take(i + 1).drop_last() =~= kv@.take(i as int));
            assert(kv@.take(i + 1).last() == kv@[i as int]);
        }
        res.append(kv[i].0.as_str());
        res.append(":");
        let cleared = clear_ref(&kv[i].1);
        res.append(cleared.as_str());
        res.append(";");
        proof {
            assert(res@ =~= kv_pairs_spec(kv@.take(i + 1)));
        }
        i = i + 1;
    }
    proof {
        assert(kv@.take(kv@.len() as int) =~= kv@);
    }
    res
}

/// The resolved member type of an array-typed property: a referenced type
/// wrapped in `[]` (a direct reference first, then an inline item
/// reference), an inline object literal wrapped in `[]`, or nothing when
/// the shape carries no information.
pub open spec fn array_shape_spec(p: DefinitionProperty) -> Seq<char> {
    match p._ref {
        Option::Some(r) => clear_ref_spec(r@) + "[];"@,
        Option::None => match p.items {
            Option::Some(items) => if kv_has_key_spec(items@, "$ref"@) {
                clear_ref_spec(kv_get_spec(items@, "$ref"@)) + "[];"@
            } else {
                "{"@ + kv_pairs_spec(items@) + "}[];"@
            },
            Option::None => Seq::<char>::empty(),
        },
    }
}

/// The resolved member type of an object-typed property: a direct
/// reference, an inline item literal, an additional-properties literal, or
/// the bottom type when none is present.
pub open spec fn object_shape_spec(p: DefinitionProperty) -> Seq<char> {
    match p._ref {
        Option::Some(r) => clear_ref_spec(r@) + ";"@,
        Option::None => match p.items {
            Option::Some(items) => "{"@ + kv_pairs_spec(items@) + "};"@,
            Option::None => match p.additional_properties {
                Option::Some(extra) => "{"@ + kv_pairs_spec(extra@) + "};"@,
                Option::None => "never;"@,
            },
        },
    }
}

/// The resolved type of one definition property, including its trailing
/// member terminator.
pub open spec fn property_type_spec(p: DefinitionProperty) -> Seq<char> {
    match p.type_field {
        Option::Some(t) => match t {
            DefinitionPropertyType::String => "string;"@,
            DefinitionPropertyType::Integer => "number;"@,
            DefinitionPropertyType::Boolean => "boolean;"@,
            DefinitionPropertyType::Array => array_shape_spec(p),
            DefinitionPropertyType::Object => object_shape_spec(p),
        },
        Option::None => match p._ref {
            Option::Some(r) => clear_ref_spec(r@) + ";"@,
            Option::None => "never;"@,
        },
    }
}

fn property_type(value: &DefinitionProperty) -> (r: String)
    ensures
        r@ == property_type_spec(*value),
{
    let mut inner = String::new();
    match &value.type_field {
        Option::Some(t) => match t {
            DefinitionPropertyType::String => inner.append("string;"),
            DefinitionPropertyType::Integer => inner.append("number;"),
            DefinitionPropertyType::Boolean => inner.append("boolean;"),
            DefinitionPropertyType::Array => match &value._ref {
                Option::Some(r) => {
                    let cleared = clear_ref(r);
                    inner.append(cleared.as_str());
                    inner.append("[];");
                },
                Option::None => match &value.items {
                    Option::Some(items) => match kv_lookup(items, "$ref") {
                        Option::Some(item_ref) => {
                            let cleared = clear_ref(&item_ref);
                            inner.append(cleared.as_str());
                            inner.append("[];");
                        },
                        Option::None => {
                            let encoded = encode_kv_to_ts_object(items);
                            inner.append("{");
                            inner.append(encoded.as_str());
                            inner.append("}[];");
                        },
                    },
                    Option::None => {},
                },
            },
            DefinitionPropertyType::Object => match &value._ref {
                Option::Some(r) => {
                    let cleared = clear_ref(r);
                    inner.append(cleared.as_str());
                    inner.append(";");
                },
                Option::None => match &value.items {
                    Option::Some(items) => {
                        let encoded = encode_kv_to_ts_object(items);
                        inner.append("{");
                        inner.append(encoded.as_str());
                        inner.append("};");
                    },
                    Option::None => match &value.additional_properties {
                        Option::Some(extra) => {
                            let encoded = encode_kv_to_ts_object(extra);
                            inner.append("{");
                            inner.append(encoded.as_str());
                            inner.append("};");
                        },
                        Option::None => inner.append("never;"),
                    },
                },
            },
        },
        Option::None => match &value._ref {
            Option::Some(r) => {
                let cleared = clear_ref(r);
                inner.append(cleared.as_str());
                inner.append(";");
            },
            Option::None => inner.append("never;"),
        },
    }
    inner
}

/// The members of an object literal: `key:` followed by the resolved
/// property type, for each property in order.
pub open spec fn raw_type_body_spec(props: Seq<(String, DefinitionProperty)>) -> Seq<char>
    decreases props.len(),
{
    if props.len() == 0 {
        Seq::<char>::empty()
    } else {
        raw_type_body_spec(props.drop_last()) + props.last().0@ + ":"@ + property_type_spec(
            props.last().1,
        )
    }
}

/// An object definition rendered as an inline TypeScript object literal.
pub open spec fn raw_type_spec(props: Seq<(String, DefinitionProperty)>) -> Seq<char> {
    "{"@ + raw_type_body_spec(props) + "}"@
}

pub fn create_raw_type_from_properties(props: &DefinitionPropertyMap) -> (r: String)
    ensures
        r@ == raw_type_spec(props@),
{
    let mut res = String::new();
    res.append("{");
    let mut i: usize = 0;
    proof {
        assert(props@.take(0) =~= Seq::<(String, DefinitionProperty)>::empty());
    }
    while i < props.len()
        invariant
            i <= props@.len(),
            res@ == "{"@ + raw_type_body_spec(props@.take(i as int)),
        decreases props@.len() - i,
    {
        proof {
            assert(props@.take(i + 1).drop_last() =~= props@.take(i as int));
            assert(props@.take(i + 1).last() == props@[i as int]);
        }
        res.append(props[i].0.as_str());
        res.append(":");
        let inner = property_type(&props[i].1);
        res.append(inner.as_str());
        proof {
            assert(res@ =~= "{"@ + raw_type_body_spec(props@.take(i + 1)));
        }
        i = i + 1;
    }
    res.append("}");
    proof {
        assert(props@.take(props@.len() as int) =~= props@);
        assert(res@ =~= raw_type_spec(props@));
    }
    res
}

/// The declared-false and undeclared `required` markings widen a scalar
/// parameter's resolved type in strictly increasing steps: declared-true
/// keeps the primitive keyword alone, declared-false adds the
/// absent-or-null marker, and an absent marking additionally adds an
/// explicit undefined marker.
pub proof fn lemma_parameter_optionality(p: OperationParameter, t: OperationParameterType)
    requires
        p.type_field == Option::Some(t),
        param_type_scalar(p.type_field),
    ensures
        p.required == Option::Some(true) ==> inner_type_spec(p) == param_prim_spec(t),
        p.required == Option::Some(false) ==> inner_type_spec(p) == param_prim_spec(t)
            + " | undefined | null"@,
        p.required is None ==> inner_type_spec(p) == param_prim_spec(t)
            + " | undefined | null | undefined"@,
{
}

} // verus!
