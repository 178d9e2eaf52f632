//! Tests of the schema front end: file-name classification, field-order
//! extraction from raw text, and type resolution.

use gen_messages::fieldorder::extract_field_order_from_content;
use gen_messages::parser::{SchemaNode, parse_message_type, handle_ref_type, determine_rust_type,
    extract_field_info, assemble_struct_info, schema_node_from_value, max_schema_depth,
    extract_struct_info_with_content};

#[test]
fn test_parse_message_type() {
    assert_eq!(parse_message_type("ResetRequest"), ("Reset".to_string(), true));
    assert_eq!(parse_message_type("ResetResponse"), ("Reset".to_string(), false));
    assert_eq!(
        parse_message_type("NotifyPeriodicEventStream"),
        ("NotifyPeriodicEventStream".to_string(), false)
    );
    assert_eq!(parse_message_type(""), ("".to_string(), false));
}

#[test]
fn test_extract_field_order() {
    let content = "{
        \"definitions\": {
            \"Inner\": { \"properties\": { \"x\": { \"type\": \"string\" } } }
        },
        \"properties\": {
            \"b\": { \"type\": \"integer\" },
            \"a\": { \"type\": \"string\" },
            \"c\": { \"type\": \"boolean\" }
        }
    }";
    let order = extract_field_order_from_content(content);
    assert_eq!(order, vec!["b".to_string(), "a".to_string(), "c".to_string()]);
}

#[test]
fn test_extract_field_order_empty() {
    assert_eq!(extract_field_order_from_content("no such key"), Vec::<String>::new());
    assert_eq!(extract_field_order_from_content("\"properties\" without brace"),
        Vec::<String>::new());
}

#[test]
fn test_determine_rust_type_primitives() {
    let mut imports: Vec<String> = Vec::new();

    let mut n = SchemaNode::empty();
    n.schema_type = Some("integer".to_string());
    assert_eq!(determine_rust_type(&n, &mut imports), ("i32".to_string(), true));

    let mut n = SchemaNode::empty();
    n.schema_type = Some("string".to_string());
    assert_eq!(determine_rust_type(&n, &mut imports), ("String".to_string(), true));

    let mut n = SchemaNode::empty();
    n.schema_type = Some("string".to_string());
    n.format = Some("date-time".to_string());
    assert_eq!(determine_rust_type(&n, &mut imports), ("DateTime<Utc>".to_string(), false));
    assert!(imports.contains(&"use chrono::{DateTime, Utc};".to_string()));

    let mut n = SchemaNode::empty();
    n.schema_type = Some("number".to_string());
    assert_eq!(determine_rust_type(&n, &mut imports), ("Decimal".to_string(), true));
    assert!(imports.contains(&"use rust_decimal::Decimal;".to_string()));

    let mut n = SchemaNode::empty();
    n.schema_type = Some("boolean".to_string());
    assert_eq!(determine_rust_type(&n, &mut imports), ("bool".to_string(), false));

    let mut n = SchemaNode::empty();
    n.schema_type = Some("object".to_string());
    assert_eq!(determine_rust_type(&n, &mut imports), ("Value".to_string(), false));

    // an unrecognized or absent type degrades to the dynamic placeholder
    let absent = SchemaNode::empty();
    assert_eq!(determine_rust_type(&absent, &mut imports), ("Value".to_string(), false));
    let mut unknown = SchemaNode::empty();
    unknown.schema_type = Some("fancy".to_string());
    assert_eq!(determine_rust_type(&unknown, &mut imports), ("Value".to_string(), false));
    assert!(imports.contains(&"use serde_json::Value;".to_string()));
}

#[test]
fn test_determine_rust_type_array() {
    let mut imports: Vec<String> = Vec::new();
    let mut item = SchemaNode::empty();
    item.schema_type = Some("integer".to_string());
    let mut n = SchemaNode::empty();
    n.schema_type = Some("array".to_string());
    n.items = Some(Box::new(item));
    assert_eq!(determine_rust_type(&n, &mut imports), ("Vec<i32>".to_string(), true));

    let mut bare = SchemaNode::empty();
    bare.schema_type = Some("array".to_string());
    assert_eq!(determine_rust_type(&bare, &mut imports), ("Vec<Value>".to_string(), false));
}

#[test]
fn test_handle_ref_type_tiers() {
    let mut imports: Vec<String> = Vec::new();
    assert_eq!(
        handle_ref_type("#/definitions/IdTokenType", &mut imports),
        ("IdTokenType".to_string(), true)
    );
    assert!(imports.contains(&"use crate::v2_1::datatypes::IdTokenType;".to_string()));

    assert_eq!(
        handle_ref_type("#/definitions/ResetEnumType", &mut imports),
        ("ResetEnumType".to_string(), false)
    );
    assert!(imports.contains(&"use crate::v2_1::enumerations::ResetEnumType;".to_string()));

    assert_eq!(
        handle_ref_type("#/definitions/EventDataType", &mut imports),
        ("Value".to_string(), false)
    );

    assert_eq!(
        handle_ref_type("#/definitions/SomethingEnumType", &mut imports),
        ("SomethingEnumType".to_string(), false)
    );
    assert_eq!(
        handle_ref_type("#/definitions/SomethingType", &mut imports),
        ("SomethingType".to_string(), true)
    );
    assert_eq!(
        handle_ref_type("#/definitions/Plain", &mut imports),
        ("String".to_string(), true)
    );
    assert_eq!(handle_ref_type("http://elsewhere", &mut imports), ("String".to_string(), true));
}

#[test]
fn test_extract_field_info_rename_and_bounds() {
    let content = "{\"properties\":{\"chargingProfileId\":{\"type\":\"integer\"}}}";
    let parsed: serde_json::Value = serde_json::from_str(content).unwrap();
    let si = extract_struct_info_with_content(&parsed, "TestMessage", content);
    assert_eq!(si.name, "TestMessage");
    assert_eq!(si.fields.len(), 1);
    let f = &si.fields[0];
    assert_eq!(f.name, "charging_profile_id");
    assert_eq!(f.original_name, "chargingProfileId");
    assert_eq!(f.rust_type, "i32");
    assert!(f.is_optional);
    assert!(f.needs_validation);
}

#[test]
fn test_reserved_word_field() {
    let mut imports: Vec<String> = Vec::new();
    let mut n = SchemaNode::empty();
    n.schema_type = Some("string".to_string());
    let required = vec!["type".to_string()];
    let f = extract_field_info("type", &n, &required, &mut imports);
    assert_eq!(f.name, "type_");
    assert_eq!(f.original_name, "type");
    assert!(!f.is_optional);
}

#[test]
fn test_description_cleaned() {
    let mut imports: Vec<String> = Vec::new();
    let mut n = SchemaNode::empty();
    n.schema_type = Some("string".to_string());
    n.description = Some("  first\r\nsecond  ".to_string());
    let required: Vec<String> = Vec::new();
    let f = extract_field_info("note", &n, &required, &mut imports);
    assert_eq!(f.description, Some("first second".to_string()));
}

#[test]
fn test_schema_node_from_value_reads_constraints() {
    let content = "{
        \"properties\": {
            \"name\": { \"type\": \"string\", \"minLength\": 5, \"maxLength\": 50 },
            \"level\": { \"type\": \"number\", \"minimum\": 0.5, \"maximum\": 99.9 }
        },
        \"required\": [\"name\"]
    }";
    let parsed: serde_json::Value = serde_json::from_str(content).unwrap();
    let node = schema_node_from_value(&parsed, max_schema_depth());
    assert_eq!(node.properties.len(), 2);
    assert_eq!(node.required, vec!["name".to_string()]);
    let si = assemble_struct_info(&node, "Sample", content);
    assert_eq!(si.fields.len(), 2);
    assert_eq!(si.fields[0].min_length, Some(5));
    assert_eq!(si.fields[0].max_length, Some(50));
    assert!(!si.fields[0].is_optional);
    assert!(si.fields[1].is_optional);
    let mn = si.fields[1].min_value.unwrap();
    assert!(mn.mag == 5 && mn.scale == 1 && !mn.neg);
    let mx = si.fields[1].max_value.unwrap();
    assert!(mx.mag == 999 && mx.scale == 1 && !mx.neg);
}

#[test]
fn test_fallback_to_tree_order() {
    let content = "{\"properties\":{\"zeta\":{\"type\":\"integer\"},\"alpha\":{\"type\":\"string\"}}}";
    let parsed: serde_json::Value = serde_json::from_str(content).unwrap();
    // hand the assembler text that determines no order: it falls back to the
    // parse tree's own order, with no order guarantee beyond the tree's
    let si = extract_struct_info_with_content(&parsed, "Fallback", "no order here");
    assert_eq!(si.fields.len(), 2);
    let mut names: Vec<String> = si.fields.iter().map(|f| f.original_name.clone()).collect();
    names.sort();
    assert_eq!(names, vec!["alpha".to_string(), "zeta".to_string()]);
}
