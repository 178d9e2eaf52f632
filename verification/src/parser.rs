//! The schema front end: classifying a file name as request, response or
//! standalone, and resolving one schema node to a Rust type, a validation
//! flag and the imports the type needs.

use vstd::prelude::*;
use vstd::string::*;
use crate::casing::{snake_of, to_snake_case};
use crate::dec::{DecNum, parse_dec, spec_dec_grammar_ok, spec_parse_dec};
use crate::fieldorder::{spec_field_order, extract_field_order_from_content};
use crate::jsonval::{json_get, json_as_string, json_as_u64, json_object_entries,
    json_array_items, json_number_text, json_get_of, json_string_of, json_u64_of,
    json_entries_of, json_items_of, json_number_text_of};
use crate::strutil::{ends_with_spec, starts_with_spec, str_eq, str_ends_with, str_starts_with,
    spec_add_unique, add_unique, contains_str, spec_clean_desc, clean_description};
use crate::types::{FieldInfo, FieldV, StructInfo, StructV};

verus! {

broadcast use vstd::string::group_string_axioms;

/// The parsed representation of one schema document or sub-node: exactly the
/// attributes the translation reads, as plain values.
pub struct SchemaNode {
    pub schema_type: Option<String>,
    pub format: Option<String>,
    pub reference: Option<String>,
    pub items: Option<Box<SchemaNode>>,
    pub properties: Vec<(String, SchemaNode)>,
    pub required: Vec<String>,
    pub description: Option<String>,
    pub min_length: Option<u64>,
    pub max_length: Option<u64>,
    pub minimum: Option<DecNum>,
    pub maximum: Option<DecNum>,
    pub min_items: Option<u64>,
    pub max_items: Option<u64>,
}

impl SchemaNode {
    /// A node carrying nothing: every attribute absent.
    pub fn empty() -> (r: SchemaNode)
        ensures
            r.schema_type is None,
            r.format is None,
            r.reference is None,
            r.items is None,
            r.properties@ == Seq::<(String, SchemaNode)>::empty(),
            r.required@ == Seq::<String>::empty(),
            r.description is None,
            r.min_length is None,
            r.max_length is None,
            r.minimum is None,
            r.maximum is None,
            r.min_items is None,
            r.max_items is None,
    {
        SchemaNode {
            schema_type: None,
            format: None,
            reference: None,
            items: None,
            properties: Vec::new(),
            required: Vec::new(),
            description: None,
            min_length: None,
            max_length: None,
            minimum: None,
            maximum: None,
            min_items: None,
            max_items: None,
        }
    }
}

/// The classification of one schema file name: the base name with any
/// `Request`/`Response` suffix stripped, and whether it was a request. A name
/// with no such suffix is a standalone message and is kept whole.
pub open spec fn spec_message_type(filename: Seq<char>) -> (Seq<char>, bool) {
    if ends_with_spec(filename, "Request"@) {
        (filename.take(filename.len() - 7), true)
    } else if ends_with_spec(filename, "Response"@) {
        (filename.take(filename.len() - 8), false)
    } else {
        (filename, false)
    }
}

/// Splits a schema file name into its base name and its request/response
/// classification.
pub fn parse_message_type(filename: &str) -> (r: (String, bool))
    ensures
        (r.0@, r.1) == spec_message_type(filename@),
{
    proof {
        reveal_strlit("Request");
        reveal_strlit("Response");
    }
    let len = filename.unicode_len();
    if str_ends_with(filename, "Request") {
        let base = filename.substring_char(0, len - 7).to_owned();
        proof {
            assert(base@ =~= filename@.take(filename@.len() - 7));
        }
        (base, true)
    } else if str_ends_with(filename, "Response") {
        let base = filename.substring_char(0, len - 8).to_owned();
        proof {
            assert(base@ =~= filename@.take(filename@.len() - 8));
        }
        (base, false)
    } else {
        (filename.to_owned(), false)
    }
}

/// The import that brings a shared data type into scope.
pub open spec fn dt_import(name: Seq<char>) -> Seq<char> {
    "use crate::v2_1::datatypes::"@ + name + ";"@
}

/// The import that brings a shared enumeration into scope.
pub open spec fn en_import(name: Seq<char>) -> Seq<char> {
    "use crate::v2_1::enumerations::"@ + name + ";"@
}

/// The names known to be shared data types.
pub open spec fn is_known_datatype(n: Seq<char>) -> bool {
    n == "CustomDataType"@ || n == "StatusInfoType"@ || n == "IdTokenType"@ || n
        == "IdTokenInfoType"@ || n == "EVSEType"@ || n == "TariffType"@ || n
        == "OCSPRequestDataType"@
}

/// The names known to be shared enumerations.
pub open spec fn is_known_enum(n: Seq<char>) -> bool {
    n == "GenericStatusEnumType"@ || n == "AuthorizeCertificateStatusEnumType"@ || n
        == "EnergyTransferModeEnumType"@ || n == "ResetEnumType"@ || n == "ResetStatusEnumType"@
        || n == "MessageTriggerEnumType"@ || n == "TriggerMessageStatusEnumType"@
}

/// The type and validation flag a referenced name resolves to: per-name
/// overrides first, then the known data-type and enumeration sets, then the
/// suffix rule, with plain text as the default.
pub open spec fn spec_ref_type(name: Seq<char>) -> (Seq<char>, bool) {
    if name == "DERControlStatusEnumType"@ {
        (name, false)
    } else if name == "EventDataType"@ {
        ("Value"@, false)
    } else if name == "AuthorizationData"@ {
        (name, true)
    } else if is_known_datatype(name) {
        (name, true)
    } else if is_known_enum(name) {
        (name, false)
    } else if ends_with_spec(name, "EnumType"@) {
        (name, false)
    } else if ends_with_spec(name, "Type"@) {
        (name, true)
    } else {
        ("String"@, true)
    }
}

/// The import a referenced name registers, if any.
pub open spec fn spec_ref_import(name: Seq<char>) -> Option<Seq<char>> {
    if name == "DERControlStatusEnumType"@ {
        Some("use crate::v2_1::enumerations::der_control::DERControlStatusEnumType;"@)
    } else if name == "EventDataType"@ {
        Some("use serde_json::Value;"@)
    } else if name == "AuthorizationData"@ {
        Some(dt_import(name))
    } else if is_known_datatype(name) {
        Some(dt_import(name))
    } else if is_known_enum(name) {
        Some(en_import(name))
    } else if ends_with_spec(name, "EnumType"@) {
        Some(en_import(name))
    } else if ends_with_spec(name, "Type"@) {
        Some(dt_import(name))
    } else {
        None
    }
}

/// What a whole `$ref` path resolves to: a local definition is looked up by
/// its name; anything else degrades to validated plain text.
pub open spec fn spec_handle_ref(ref_path: Seq<char>) -> (Seq<char>, bool, Option<Seq<char>>) {
    if starts_with_spec(ref_path, "#/definitions/"@) {
        let name = ref_path.skip("#/definitions/"@.len() as int);
        (spec_ref_type(name).0, spec_ref_type(name).1, spec_ref_import(name))
    } else {
        ("String"@, true, None)
    }
}

/// The import set after registering `imp`, when there is one.
pub open spec fn spec_add_opt(imports: Seq<Seq<char>>, imp: Option<Seq<char>>) -> Seq<Seq<char>> {
    match imp {
        Some(s) => spec_add_unique(imports, s),
        None => imports,
    }
}

fn dt_import_exec(name: &str) -> (r: String)
    ensures
        r@ == dt_import(name@),
{
    let mut s = ("use crate::v2_1::datatypes::").to_owned();
    s.append(name);
    s.append(";");
    s
}

fn en_import_exec(name: &str) -> (r: String)
    ensures
        r@ == en_import(name@),
{
    let mut s = ("use crate::v2_1::enumerations::").to_owned();
    s.append(name);
    s.append(";");
    s
}

/// Resolves a `$ref` path against the fixed categorization table and
/// registers the import the resolved type needs.
pub fn handle_ref_type(ref_path: &str, imports: &mut Vec<String>) -> (r: (String, bool))
    ensures
        r.0@ == spec_handle_ref(ref_path@).0,
        r.1 == spec_handle_ref(ref_path@).1,
        final(imports).deep_view() == spec_add_opt(
            old(imports).deep_view(),
            spec_handle_ref(ref_path@).2,
        ),
{
    if !str_starts_with(ref_path, "#/definitions/") {
        return (("String").to_owned(), true);
    }
    let prefix_len = ("#/definitions/").unicode_len();
    let len = ref_path.unicode_len();
    let name = ref_path.substring_char(prefix_len, len);
    proof {
        assert(name@ =~= ref_path@.skip("#/definitions/"@.len() as int));
    }
    if str_eq(name, "DERControlStatusEnumType") {
        add_unique(
            imports,
            ("use crate::v2_1::enumerations::der_control::DERControlStatusEnumType;").to_owned(),
        );
        (name.to_owned(), false)
    } else if str_eq(name, "EventDataType") {
        add_unique(imports, ("use serde_json::Value;").to_owned());
        (("Value").to_owned(), false)
    } else if str_eq(name, "AuthorizationData") {
        add_unique(imports, dt_import_exec(name));
        (name.to_owned(), true)
    } else if str_eq(name, "CustomDataType") || str_eq(name, "StatusInfoType") || str_eq(
        name,
        "IdTokenType",
    ) || str_eq(name, "IdTokenInfoType") || str_eq(name, "EVSEType") || str_eq(name, "TariffType")
        || str_eq(name, "OCSPRequestDataType") {
        add_unique(imports, dt_import_exec(name));
        (name.to_owned(), true)
    } else if str_eq(name, "GenericStatusEnumType") || str_eq(
        name,
        "AuthorizeCertificateStatusEnumType",
    ) || str_eq(name, "EnergyTransferModeEnumType") || str_eq(name, "ResetEnumType") || str_eq(
        name,
        "ResetStatusEnumType",
    ) || str_eq(name, "MessageTriggerEnumType") || str_eq(name, "TriggerMessageStatusEnumType") {
        add_unique(imports, en_import_exec(name));
        (name.to_owned(), false)
    } else if str_ends_with(name, "EnumType") {
        add_unique(imports, en_import_exec(name));
        (name.to_owned(), false)
    } else if str_ends_with(name, "Type") {
        add_unique(imports, dt_import_exec(name));
        (name.to_owned(), true)
    } else {
        (("String").to_owned(), true)
    }
}

/// The Rust type and validation flag one schema node resolves to.
pub open spec fn spec_node_type(n: SchemaNode) -> (Seq<char>, bool)
    decreases n,
{
    if n.reference is Some {
        (spec_handle_ref(n.reference.unwrap()@).0, spec_handle_ref(n.reference.unwrap()@).1)
    } else if n.schema_type is Some {
        let t = n.schema_type.unwrap()@;
        if t == "string"@ {
            if n.format is Some && n.format.unwrap()@ == "date-time"@ {
                ("DateTime<Utc>"@, false)
            } else {
                ("String"@, true)
            }
        } else if t == "integer"@ {
            ("i32"@, true)
        } else if t == "number"@ {
            ("Decimal"@, true)
        } else if t == "boolean"@ {
            ("bool"@, false)
        } else if t == "array"@ {
            if n.items is Some {
                ("Vec<"@ + spec_node_type(*n.items.unwrap()).0 + ">"@, true)
            } else {
                ("Vec<Value>"@, false)
            }
        } else if t == "object"@ {
            ("Value"@, false)
        } else {
            ("Value"@, false)
        }
    } else {
        ("Value"@, false)
    }
}

/// The import set after resolving one schema node.
pub open spec fn spec_node_imports(n: SchemaNode, imports: Seq<Seq<char>>) -> Seq<Seq<char>>
    decreases n,
{
    if n.reference is Some {
        spec_add_opt(imports, spec_handle_ref(n.reference.unwrap()@).2)
    } else if n.schema_type is Some {
        let t = n.schema_type.unwrap()@;
        if t == "string"@ {
            if n.format is Some && n.format.unwrap()@ == "date-time"@ {
                spec_add_unique(imports, "use chrono::{DateTime, Utc};"@)
            } else {
                imports
            }
        } else if t == "integer"@ {
            imports
        } else if t == "number"@ {
            spec_add_unique(imports, "use rust_decimal::Decimal;"@)
        } else if t == "boolean"@ {
            imports
        } else if t == "array"@ {
            if n.items is Some {
                spec_node_imports(*n.items.unwrap(), imports)
            } else {
                spec_add_unique(imports, "use serde_json::Value;"@)
            }
        } else if t == "object"@ {
            spec_add_unique(imports, "use serde_json::Value;"@)
        } else {
            spec_add_unique(imports, "use serde_json::Value;"@)
        }
    } else {
        spec_add_unique(imports, "use serde_json::Value;"@)
    }
}

/// Resolves one schema node to a Rust type and validation flag, registering
/// the imports the type needs: `$ref` nodes go through the categorization
/// table, primitives map directly, arrays resolve their item node
/// recursively, and unknown shapes degrade to a permissive default.
pub fn determine_rust_type(node: &SchemaNode, imports: &mut Vec<String>) -> (r: (String, bool))
    ensures
        r.0@ == spec_node_type(*node).0,
        r.1 == spec_node_type(*node).1,
        final(imports).deep_view() == spec_node_imports(*node, old(imports).deep_view()),
    decreases *node,
{
    if let Some(ref_path) = &node.reference {
        return handle_ref_type(ref_path.as_str(), imports);
    }
    if let Some(t) = &node.schema_type {
        if str_eq(t.as_str(), "string") {
            let is_date_time = match &node.format {
                Some(f) => str_eq(f.as_str(), "date-time"),
                None => false,
            };
            if is_date_time {
                add_unique(imports, ("use chrono::{DateTime, Utc};").to_owned());
                (("DateTime<Utc>").to_owned(), false)
            } else {
                (("String").to_owned(), true)
            }
        } else if str_eq(t.as_str(), "integer") {
            (("i32").to_owned(), true)
        } else if str_eq(t.as_str(), "number") {
            add_unique(imports, ("use rust_decimal::Decimal;").to_owned());
            (("Decimal").to_owned(), true)
        } else if str_eq(t.as_str(), "boolean") {
            (("bool").to_owned(), false)
        } else if str_eq(t.as_str(), "array") {
            if let Some(items) = &node.items {
                let inner = determine_rust_type(items, imports);
                let mut s = ("Vec<").to_owned();
                s.append(inner.0.as_str());
                s.append(">");
                proof {
                    assert(s@ =~= "Vec<"@ + spec_node_type(*node.items.unwrap()).0 + ">"@);
                }
                (s, true)
            } else {
                add_unique(imports, ("use serde_json::Value;").to_owned());
                (("Vec<Value>").to_owned(), false)
            }
        } else if str_eq(t.as_str(), "object") {
            add_unique(imports, ("use serde_json::Value;").to_owned());
            (("Value").to_owned(), false)
        } else {
            add_unique(imports, ("use serde_json::Value;").to_owned());
            (("Value").to_owned(), false)
        }
    } else {
        add_unique(imports, ("use serde_json::Value;").to_owned());
        (("Value").to_owned(), false)
    }
}

} // verus!

verus! {

/// The resolved field a schema property determines: the identifier is
/// snake-cased (with the reserved word `type` spelled `type_`), optionality
/// follows absence from the `required` set, and the constraint keywords are
/// carried through unchanged.
pub open spec fn spec_field_info(name: Seq<char>, node: SchemaNode, required: Seq<Seq<char>>) -> FieldV {
    FieldV {
        name: if name == "type"@ {
            "type_"@
        } else {
            snake_of(name)
        },
        original_name: name,
        rust_type: spec_node_type(node).0,
        is_optional: !required.contains(name),
        needs_validation: spec_node_type(node).1,
        description: match node.description {
            Some(d) => Some(spec_clean_desc(d@)),
            None => None,
        },
        min_length: node.min_length,
        max_length: node.max_length,
        min_value: node.minimum,
        max_value: node.maximum,
        min_items: node.min_items,
        max_items: node.max_items,
    }
}

/// Resolves one property to a [`FieldInfo`], registering the imports its
/// type needs.
pub fn extract_field_info(
    field_name: &str,
    field_schema: &SchemaNode,
    required: &Vec<String>,
    imports: &mut Vec<String>,
) -> (r: FieldInfo)
    ensures
        r@ == spec_field_info(field_name@, *field_schema, required.deep_view()),
        final(imports).deep_view() == spec_node_imports(*field_schema, old(imports).deep_view()),
{
    let is_optional = !contains_str(required, field_name);
    let name = if str_eq(field_name, "type") {
        ("type_").to_owned()
    } else {
        to_snake_case(field_name)
    };
    let resolved = determine_rust_type(field_schema, imports);
    let description = match &field_schema.description {
        Some(d) => Some(clean_description(d.as_str())),
        None => None,
    };
    FieldInfo {
        name,
        original_name: field_name.to_owned(),
        rust_type: resolved.0,
        is_optional,
        needs_validation: resolved.1,
        description,
        min_length: field_schema.min_length,
        max_length: field_schema.max_length,
        min_value: field_schema.minimum,
        max_value: field_schema.maximum,
        min_items: field_schema.min_items,
        max_items: field_schema.max_items,
    }
}

/// The first property under the given key, if any.
pub open spec fn spec_lookup_prop(props: Seq<(String, SchemaNode)>, name: Seq<char>) -> Option<
    SchemaNode,
>
    decreases props.len(),
{
    if props.len() == 0 {
        None
    } else if props[0].0@ == name {
        Some(props[0].1)
    } else {
        spec_lookup_prop(props.skip(1), name)
    }
}

fn lookup_prop<'a>(props: &'a Vec<(String, SchemaNode)>, name: &str) -> (r: Option<
    &'a SchemaNode,
>)
    ensures
        match r {
            Some(n) => spec_lookup_prop(props@, name@) == Some(*n),
            None => spec_lookup_prop(props@, name@) is None,
        },
{
    let mut i: usize = 0;
    proof {
        assert(props@.skip(0) =~= props@);
    }
    while i < props.len()
        invariant
            i <= props@.len(),
            spec_lookup_prop(props@, name@) == spec_lookup_prop(props@.skip(i as int), name@),
        decreases props@.len() - i,
    {
        proof {
            assert(props@.skip(i as int)[0] == props@[i as int]);
            assert(props@.skip(i as int).skip(1) =~= props@.skip(i + 1));
        }
        if str_eq(props[i].0.as_str(), name) {
            return Some(&props[i].1);
        }
        i = i + 1;
    }
    None
}

/// Fields and imports after resolving the first `i` properties in the parse
/// tree's own order: the fallback when the text gave no order.
pub open spec fn spec_fields_pass(
    props: Seq<(String, SchemaNode)>,
    required: Seq<Seq<char>>,
    imports: Seq<Seq<char>>,
    i: int,
) -> (Seq<FieldV>, Seq<Seq<char>>)
    decreases i,
{
    if i <= 0 {
        (Seq::empty(), imports)
    } else {
        let prev = spec_fields_pass(props, required, imports, i - 1);
        (
            prev.0.push(spec_field_info(props[i - 1].0@, props[i - 1].1, required)),
            spec_node_imports(props[i - 1].1, prev.1),
        )
    }
}

/// Fields and imports after visiting the first `i` names of the textual
/// order, resolving each name that the properties hold.
pub open spec fn spec_fields_ordered(
    props: Seq<(String, SchemaNode)>,
    required: Seq<Seq<char>>,
    order: Seq<Seq<char>>,
    imports: Seq<Seq<char>>,
    i: int,
) -> (Seq<FieldV>, Seq<Seq<char>>)
    decreases i,
{
    if i <= 0 {
        (Seq::empty(), imports)
    } else {
        let prev = spec_fields_ordered(props, required, order, imports, i - 1);
        match spec_lookup_prop(props, order[i - 1]) {
            Some(sub) => (
                prev.0.push(spec_field_info(order[i - 1], sub, required)),
                spec_node_imports(sub, prev.1),
            ),
            None => prev,
        }
    }
}

/// The imports every assembled struct starts from.
pub open spec fn spec_base_imports() -> Seq<Seq<char>> {
    seq!["use serde::{Deserialize, Serialize};"@, "use validator::Validate;"@]
}

/// The struct a schema node assembles to: fields in the order the raw text
/// determines (or the tree's own order when the text gave none), and the
/// imports their types accumulated.
pub open spec fn spec_assemble(node: SchemaNode, struct_name: Seq<char>, content: Seq<char>) -> StructV {
    let order = spec_field_order(content);
    let resolved = if order.len() == 0 {
        spec_fields_pass(
            node.properties@,
            node.required.deep_view(),
            spec_base_imports(),
            node.properties@.len() as int,
        )
    } else {
        spec_fields_ordered(
            node.properties@,
            node.required.deep_view(),
            order,
            spec_base_imports(),
            order.len() as int,
        )
    };
    StructV { name: struct_name, fields: resolved.0, imports: resolved.1 }
}

/// Assembles a [`StructInfo`] from a parsed schema node, using the raw text
/// to recover the field order.
#[verifier::loop_isolation(false)]
pub fn assemble_struct_info(node: &SchemaNode, struct_name: &str, content: &str) -> (r: StructInfo)
    ensures
        r@ == spec_assemble(*node, struct_name@, content@),
{
    let mut imports: Vec<String> = Vec::new();
    imports.push(("use serde::{Deserialize, Serialize};").to_owned());
    imports.push(("use validator::Validate;").to_owned());
    proof {
        assert(imports.deep_view() =~= spec_base_imports());
    }
    let order = extract_field_order_from_content(content);
    let mut fields: Vec<FieldInfo> = Vec::new();
    let ghost props = node.properties@;
    let ghost req = node.required.deep_view();
    if order.len() == 0 {
        proof {
            assert(order.deep_view().len() == 0);
        }
        let mut i: usize = 0;
        while i < node.properties.len()
            invariant
                i <= props.len(),
                fields.deep_view() == spec_fields_pass(props, req, spec_base_imports(), i as int).0,
                imports.deep_view() == spec_fields_pass(
                    props,
                    req,
                    spec_base_imports(),
                    i as int,
                ).1,
            decreases props.len() - i,
        {
            let f = extract_field_info(
                node.properties[i].0.as_str(),
                &node.properties[i].1,
                &node.required,
                &mut imports,
            );
            fields.push(f);
            i = i + 1;
        }
    } else {
        let mut i: usize = 0;
        while i < order.len()
            invariant
                i <= order.deep_view().len(),
                fields.deep_view() == spec_fields_ordered(
                    props,
                    req,
                    order.deep_view(),
                    spec_base_imports(),
                    i as int,
                ).0,
                imports.deep_view() == spec_fields_ordered(
                    props,
                    req,
                    order.deep_view(),
                    spec_base_imports(),
                    i as int,
                ).1,
            decreases order.deep_view().len() - i,
        {
            match lookup_prop(&node.properties, order[i].as_str()) {
                Some(sub) => {
                    let f = extract_field_info(order[i].as_str(), sub, &node.required, &mut imports);
                    fields.push(f);
                },
                None => {},
            }
            i = i + 1;
        }
    }
    let r = StructInfo { name: struct_name.to_owned(), fields, imports };
    r
}

/// The depth to which schema trees are read; schemas in practice are a
/// handful of levels deep, and anything beyond degrades to an empty node.
pub open spec fn spec_max_schema_depth() -> int {
    64
}

/// The depth to which schema trees are read.
pub fn max_schema_depth() -> (r: u32)
    ensures
        r == spec_max_schema_depth(),
{
    64
}

/// The text attribute a schema value holds under `key`, if any.
pub open spec fn spec_attr_string(v: serde_json::Value, key: Seq<char>) -> Option<Seq<char>> {
    match json_get_of(v, key) {
        Some(x) => json_string_of(x),
        None => None,
    }
}

/// The unsigned integer attribute a schema value holds under `key`, if any.
pub open spec fn spec_attr_u64(v: serde_json::Value, key: Seq<char>) -> Option<u64> {
    match json_get_of(v, key) {
        Some(x) => json_u64_of(x),
        None => None,
    }
}

/// The decimal bound a schema value holds under `key`: the number's text
/// read as a plain decimal; a number whose text falls outside that grammar
/// (an exponent form, or a magnitude beyond the representation) counts as
/// absent.
pub open spec fn spec_attr_dec(v: serde_json::Value, key: Seq<char>) -> Option<DecNum> {
    match json_get_of(v, key) {
        Some(x) => match json_number_text_of(x) {
            Some(s) => if spec_dec_grammar_ok(s) {
                Some(spec_parse_dec(s))
            } else {
                None
            },
            None => None,
        },
        None => None,
    }
}

/// The required-name list a `required` array yields: its first `i` items
/// that are strings, in order.
pub open spec fn spec_required_of(items: Seq<serde_json::Value>, i: int) -> Seq<Seq<char>>
    decreases i,
{
    if i <= 0 {
        Seq::empty()
    } else {
        let prev = spec_required_of(items, i - 1);
        match json_string_of(items[i - 1]) {
            Some(s) => prev.push(s),
            None => prev,
        }
    }
}

/// The node `n` is exactly what reading `v` to `depth` levels yields: every
/// plain attribute equals its named read, and the children match the
/// value's children one level shallower.
pub open spec fn node_matches(n: SchemaNode, v: serde_json::Value, depth: int) -> bool
    decreases depth, 0int,
{
    &&& (match n.schema_type {
        Some(s) => spec_attr_string(v, "type"@) == Some(s@),
        None => spec_attr_string(v, "type"@) is None,
    })
    &&& (match n.format {
        Some(s) => spec_attr_string(v, "format"@) == Some(s@),
        None => spec_attr_string(v, "format"@) is None,
    })
    &&& (match n.reference {
        Some(s) => spec_attr_string(v, "$ref"@) == Some(s@),
        None => spec_attr_string(v, "$ref"@) is None,
    })
    &&& (match n.description {
        Some(s) => spec_attr_string(v, "description"@) == Some(s@),
        None => spec_attr_string(v, "description"@) is None,
    })
    &&& n.min_length == spec_attr_u64(v, "minLength"@)
    &&& n.max_length == spec_attr_u64(v, "maxLength"@)
    &&& n.min_items == spec_attr_u64(v, "minItems"@)
    &&& n.max_items == spec_attr_u64(v, "maxItems"@)
    &&& n.minimum == spec_attr_dec(v, "minimum"@)
    &&& n.maximum == spec_attr_dec(v, "maximum"@)
    &&& (match json_get_of(v, "items"@) {
        Some(it) => if depth > 0 {
            n.items is Some && node_matches(*n.items.unwrap(), it, depth - 1)
        } else {
            n.items is None
        },
        None => n.items is None,
    })
    &&& (match json_get_of(v, "properties"@) {
        Some(p) => match json_entries_of(p) {
            Some(es) => if depth > 0 {
                props_match(n.properties@, es, depth - 1)
            } else {
                n.properties@.len() == 0
            },
            None => n.properties@.len() == 0,
        },
        None => n.properties@.len() == 0,
    })
    &&& (match json_get_of(v, "required"@) {
        Some(rq) => match json_items_of(rq) {
            Some(its) => n.required.deep_view() == spec_required_of(its, its.len() as int),
            None => n.required@.len() == 0,
        },
        None => n.required@.len() == 0,
    })
}

/// The property list matches the object entries pairwise: same length, same
/// keys, and each sub-node matches its entry's value.
pub open spec fn props_match(
    props: Seq<(String, SchemaNode)>,
    es: Seq<(Seq<char>, serde_json::Value)>,
    depth: int,
) -> bool
    decreases depth, 1int,
{
    props.len() == es.len() && forall|i: int|
        0 <= i < es.len() ==> (#[trigger] props[i]).0@ == es[i].0 && node_matches(
            props[i].1,
            es[i].1,
            depth,
        )
}

fn get_string_attr(v: &serde_json::Value, key: &str) -> (r: Option<String>)
    ensures
        match r {
            Some(s) => spec_attr_string(*v, key@) == Some(s@),
            None => spec_attr_string(*v, key@) is None,
        },
{
    match json_get(v, key) {
        Some(x) => json_as_string(x),
        None => None,
    }
}

fn get_u64_attr(v: &serde_json::Value, key: &str) -> (r: Option<u64>)
    ensures
        r == spec_attr_u64(*v, key@),
{
    match json_get(v, key) {
        Some(x) => json_as_u64(x),
        None => None,
    }
}

fn get_dec_attr(v: &serde_json::Value, key: &str) -> (r: Option<DecNum>)
    ensures
        r == spec_attr_dec(*v, key@),
{
    match json_get(v, key) {
        Some(x) => match json_number_text(x) {
            Some(s) => parse_dec(s.as_str()),
            None => None,
        },
        None => None,
    }
}

/// Reads the attributes the translation cares about out of a parsed JSON
/// value, recursing into `items` and `properties` up to `depth` levels.
#[verifier::loop_isolation(false)]
pub fn schema_node_from_value(v: &serde_json::Value, depth: u32) -> (r: SchemaNode)
    ensures
        node_matches(r, *v, depth as int),
    decreases depth,
{
    let mut node = SchemaNode::empty();
    node.schema_type = get_string_attr(v, "type");
    node.format = get_string_attr(v, "format");
    node.reference = get_string_attr(v, "$ref");
    node.description = get_string_attr(v, "description");
    node.min_length = get_u64_attr(v, "minLength");
    node.max_length = get_u64_attr(v, "maxLength");
    node.min_items = get_u64_attr(v, "minItems");
    node.max_items = get_u64_attr(v, "maxItems");
    node.minimum = get_dec_attr(v, "minimum");
    node.maximum = get_dec_attr(v, "maximum");
    if depth > 0 {
        if let Some(it) = json_get(v, "items") {
            node.items = Some(Box::new(schema_node_from_value(it, depth - 1)));
        }
        if let Some(p) = json_get(v, "properties") {
            if let Some(entries) = json_object_entries(p) {
                let ghost es = json_entries_of(*p).unwrap();
                let mut props: Vec<(String, SchemaNode)> = Vec::new();
                let mut i: usize = 0;
                while i < entries.len()
                    invariant
                        i <= es.len(),
                        props@.len() == i,
                        forall|j: int|
                            0 <= j < i ==> (#[trigger] props@[j]).0@ == es[j].0 && node_matches(
                                props@[j].1,
                                es[j].1,
                                depth - 1,
                            ),
                    decreases entries.len() - i,
                {
                    let sub = schema_node_from_value(&entries[i].1, depth - 1);
                    props.push((entries[i].0.clone(), sub));
                    i = i + 1;
                }
                node.properties = props;
            }
        }
    }
    if let Some(rq) = json_get(v, "required") {
        if let Some(items) = json_array_items(rq) {
            let ghost its = json_items_of(*rq).unwrap();
            let mut req: Vec<String> = Vec::new();
            let mut i: usize = 0;
            while i < items.len()
                invariant
                    i <= its.len(),
                    req.deep_view() == spec_required_of(its, i as int),
                decreases items.len() - i,
            {
                if let Some(x) = json_as_string(&items[i]) {
                    req.push(x);
                    proof {
                        assert(req.deep_view() =~= spec_required_of(its, i as int).push(
                            json_string_of(its[i as int]).unwrap(),
                        ));
                    }
                }
                i = i + 1;
            }
            node.required = req;
        }
    }
    proof {
        assert(match node.schema_type {
            Some(s) => spec_attr_string(*v, "type"@) == Some(s@),
            None => spec_attr_string(*v, "type"@) is None,
        });
        assert(node.min_length == spec_attr_u64(*v, "minLength"@));
        assert(node.minimum == spec_attr_dec(*v, "minimum"@));
        assert(match json_get_of(*v, "items"@) {
            Some(it) => if depth > 0 {
                node.items is Some && node_matches(*node.items.unwrap(), it, depth - 1)
            } else {
                node.items is None
            },
            None => node.items is None,
        });
        assert(match json_get_of(*v, "properties"@) {
            Some(p) => match json_entries_of(p) {
                Some(es) => if depth > 0 {
                    props_match(node.properties@, es, depth - 1)
                } else {
                    node.properties@.len() == 0
                },
                None => node.properties@.len() == 0,
            },
            None => node.properties@.len() == 0,
        });
        assert(match json_get_of(*v, "required"@) {
            Some(rq) => match json_items_of(rq) {
                Some(its) => node.required.deep_view() == spec_required_of(its, its.len() as int),
                None => node.required@.len() == 0,
            },
            None => node.required@.len() == 0,
        });
    }
    node
}

/// Extracts a struct description from a parsed schema tree, using the raw
/// text to recover the declared field order. The result is the assembly of
/// the node that reading the tree yields, so it is determined by the tree
/// and the text (see [`lemma_assemble_of_matching_nodes`]).
pub fn extract_struct_info_with_content(
    schema: &serde_json::Value,
    struct_name: &str,
    content: &str,
) -> (r: StructInfo)
    ensures
        exists|node: SchemaNode|
            #[trigger] node_matches(node, *schema, spec_max_schema_depth()) && r@ == spec_assemble(
                node,
                struct_name@,
                content@,
            ),
{
    let node = schema_node_from_value(schema, max_schema_depth());
    let r = assemble_struct_info(&node, struct_name, content);
    proof {
        assert(node_matches(node, *schema, spec_max_schema_depth()) && r@ == spec_assemble(
            node,
            struct_name@,
            content@,
        ));
    }
    r
}

/// Two nodes read from one schema value resolve to the same type, the same
/// validation flag, and the same import effect.
proof fn lemma_resolution_of_matching_nodes(
    n1: SchemaNode,
    n2: SchemaNode,
    v: serde_json::Value,
    depth: int,
    imports: Seq<Seq<char>>,
)
    requires
        node_matches(n1, v, depth),
        node_matches(n2, v, depth),
    ensures
        spec_node_type(n1) == spec_node_type(n2),
        spec_node_imports(n1, imports) == spec_node_imports(n2, imports),
    decreases depth,
{
    match json_get_of(v, "items"@) {
        Some(it) => {
            if depth > 0 {
                lemma_resolution_of_matching_nodes(
                    *n1.items.unwrap(),
                    *n2.items.unwrap(),
                    it,
                    depth - 1,
                    imports,
                );
            }
        },
        None => {},
    }
}

/// Two nodes read from one schema value yield the same resolved field.
proof fn lemma_field_of_matching_nodes(
    name: Seq<char>,
    n1: SchemaNode,
    n2: SchemaNode,
    v: serde_json::Value,
    depth: int,
    required: Seq<Seq<char>>,
)
    requires
        node_matches(n1, v, depth),
        node_matches(n2, v, depth),
    ensures
        spec_field_info(name, n1, required) == spec_field_info(name, n2, required),
{
    lemma_resolution_of_matching_nodes(n1, n2, v, depth, Seq::empty());
    assert forall|imp: Seq<Seq<char>>|
        #[trigger] spec_node_imports(n1, imp) == spec_node_imports(n2, imp) by {
        lemma_resolution_of_matching_nodes(n1, n2, v, depth, imp);
    }
}

/// Two property lists read from one object look a name up to matching
/// sub-nodes, or both miss.
proof fn lemma_lookup_of_matching_props(
    props1: Seq<(String, SchemaNode)>,
    props2: Seq<(String, SchemaNode)>,
    es: Seq<(Seq<char>, serde_json::Value)>,
    depth: int,
    name: Seq<char>,
)
    requires
        props_match(props1, es, depth),
        props_match(props2, es, depth),
    ensures
        spec_lookup_prop(props1, name) is Some <==> spec_lookup_prop(props2, name) is Some,
        spec_lookup_prop(props1, name) is Some ==> exists|w: serde_json::Value|
            #[trigger] node_matches(spec_lookup_prop(props1, name).unwrap(), w, depth)
                && node_matches(spec_lookup_prop(props2, name).unwrap(), w, depth),
    decreases es.len(),
{
    if props1.len() == 0 {
    } else if props1[0].0@ == name {
        assert(props2[0].0@ == name);
        let w = es[0].1;
        assert(node_matches(spec_lookup_prop(props1, name).unwrap(), w, depth) && node_matches(
            spec_lookup_prop(props2, name).unwrap(),
            w,
            depth,
        ));
    } else {
        assert(props2[0].0@ != name);
        assert forall|i: int|
            0 <= i < es.skip(1).len() implies (#[trigger] props1.skip(1)[i]).0@ == es.skip(
            1,
        )[i].0 && node_matches(props1.skip(1)[i].1, es.skip(1)[i].1, depth) by {
            assert(props1.skip(1)[i] == props1[i + 1]);
            assert(es.skip(1)[i] == es[i + 1]);
        }
        assert forall|i: int|
            0 <= i < es.skip(1).len() implies (#[trigger] props2.skip(1)[i]).0@ == es.skip(
            1,
        )[i].0 && node_matches(props2.skip(1)[i].1, es.skip(1)[i].1, depth) by {
            assert(props2.skip(1)[i] == props2[i + 1]);
            assert(es.skip(1)[i] == es[i + 1]);
        }
        lemma_lookup_of_matching_props(props1.skip(1), props2.skip(1), es.skip(1), depth, name);
    }
}

/// Two property lists read from one object drive the fallback field pass to
/// the same fields and imports.
proof fn lemma_pass_of_matching_props(
    props1: Seq<(String, SchemaNode)>,
    props2: Seq<(String, SchemaNode)>,
    es: Seq<(Seq<char>, serde_json::Value)>,
    depth: int,
    required: Seq<Seq<char>>,
    imports: Seq<Seq<char>>,
    i: int,
)
    requires
        props_match(props1, es, depth),
        props_match(props2, es, depth),
        0 <= i <= es.len(),
    ensures
        spec_fields_pass(props1, required, imports, i) == spec_fields_pass(
            props2,
            required,
            imports,
            i,
        ),
    decreases i,
{
    if i > 0 {
        lemma_pass_of_matching_props(props1, props2, es, depth, required, imports, i - 1);
        assert(props1[i - 1].0@ == es[i - 1].0 && props2[i - 1].0@ == es[i - 1].0);
        lemma_field_of_matching_nodes(
            es[i - 1].0,
            props1[i - 1].1,
            props2[i - 1].1,
            es[i - 1].1,
            depth,
            required,
        );
        lemma_resolution_of_matching_nodes(
            props1[i - 1].1,
            props2[i - 1].1,
            es[i - 1].1,
            depth,
            spec_fields_pass(props1, required, imports, i - 1).1,
        );
    }
}

/// Two property lists read from one object drive the ordered field pass to
/// the same fields and imports.
proof fn lemma_ordered_of_matching_props(
    props1: Seq<(String, SchemaNode)>,
    props2: Seq<(String, SchemaNode)>,
    es: Seq<(Seq<char>, serde_json::Value)>,
    depth: int,
    required: Seq<Seq<char>>,
    order: Seq<Seq<char>>,
    imports: Seq<Seq<char>>,
    i: int,
)
    requires
        props_match(props1, es, depth),
        props_match(props2, es, depth),
        0 <= i <= order.len(),
    ensures
        spec_fields_ordered(props1, required, order, imports, i) == spec_fields_ordered(
            props2,
            required,
            order,
            imports,
            i,
        ),
    decreases i,
{
    if i > 0 {
        lemma_ordered_of_matching_props(
            props1,
            props2,
            es,
            depth,
            required,
            order,
            imports,
            i - 1,
        );
        lemma_lookup_of_matching_props(props1, props2, es, depth, order[i - 1]);
        match spec_lookup_prop(props1, order[i - 1]) {
            Some(sub1) => {
                let sub2 = spec_lookup_prop(props2, order[i - 1]).unwrap();
                let w = choose|w: serde_json::Value|
                    #[trigger] node_matches(sub1, w, depth) && node_matches(sub2, w, depth);
                lemma_field_of_matching_nodes(order[i - 1], sub1, sub2, w, depth, required);
                lemma_resolution_of_matching_nodes(
                    sub1,
                    sub2,
                    w,
                    depth,
                    spec_fields_ordered(props1, required, order, imports, i - 1).1,
                );
            },
            None => {},
        }
    }
}

/// Assembly is determined by the schema value and the raw text: any two
/// nodes that reading one value yields assemble, under one name and one
/// text, to the same struct.
pub proof fn lemma_assemble_of_matching_nodes(
    n1: SchemaNode,
    n2: SchemaNode,
    v: serde_json::Value,
    depth: int,
    struct_name: Seq<char>,
    content: Seq<char>,
)
    requires
        node_matches(n1, v, depth),
        node_matches(n2, v, depth),
    ensures
        spec_assemble(n1, struct_name, content) == spec_assemble(n2, struct_name, content),
{
    assert(n1.required.deep_view() == n2.required.deep_view());
    let order = spec_field_order(content);
    match json_get_of(v, "properties"@) {
        Some(p) => match json_entries_of(p) {
            Some(es) => {
                if depth > 0 {
                    assert(props_match(n1.properties@, es, depth - 1));
                    assert(props_match(n2.properties@, es, depth - 1));
                    if order.len() == 0 {
                        lemma_pass_of_matching_props(
                            n1.properties@,
                            n2.properties@,
                            es,
                            depth - 1,
                            n1.required.deep_view(),
                            spec_base_imports(),
                            es.len() as int,
                        );
                        assert(n1.properties@.len() == es.len());
                        assert(n2.properties@.len() == es.len());
                        assert(spec_assemble(n1, struct_name, content) == spec_assemble(
                            n2,
                            struct_name,
                            content,
                        ));
                    } else {
                        lemma_ordered_of_matching_props(
                            n1.properties@,
                            n2.properties@,
                            es,
                            depth - 1,
                            n1.required.deep_view(),
                            order,
                            spec_base_imports(),
                            order.len() as int,
                        );
                        assert(spec_assemble(n1, struct_name, content) == spec_assemble(
                            n2,
                            struct_name,
                            content,
                        ));
                    }
                } else {
                    lemma_assemble_empty_props(n1, n2, struct_name, content);
                    assert(spec_assemble(n1, struct_name, content) == spec_assemble(
                        n2,
                        struct_name,
                        content,
                    ));
                }
            },
            None => {
                lemma_assemble_empty_props(n1, n2, struct_name, content);
            },
        },
        None => {
            lemma_assemble_empty_props(n1, n2, struct_name, content);
        },
    }
}

/// Two nodes with no properties and equal required lists assemble alike.
proof fn lemma_assemble_empty_props(
    n1: SchemaNode,
    n2: SchemaNode,
    struct_name: Seq<char>,
    content: Seq<char>,
)
    requires
        n1.properties@.len() == 0,
        n2.properties@.len() == 0,
        n1.required.deep_view() == n2.required.deep_view(),
    ensures
        spec_assemble(n1, struct_name, content) == spec_assemble(n2, struct_name, content),
{
    let order = spec_field_order(content);
    if order.len() > 0 {
        lemma_ordered_of_matching_props(
            n1.properties@,
            n2.properties@,
            Seq::empty(),
            0,
            n1.required.deep_view(),
            order,
            spec_base_imports(),
            order.len() as int,
        );
    }
}

} // verus!
