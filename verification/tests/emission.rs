//! Tests of the text back end: attribute emission, struct code, import
//! optimization and the aggregation file.

use gen_messages::dec::DecNum;
use gen_messages::generator::{add_validation_attributes, add_numeric_range_validation,
    add_serde_attrs, generate_struct_code, generate_new_method, generate_setter_method,
    generate_getter_method, generate_with_method, generate_impl_block, optimize_imports,
    generate_mod_file};
use gen_messages::types::{FieldInfo, StructInfo};

fn field(name: &str, original: &str, ty: &str, optional: bool, validated: bool) -> FieldInfo {
    FieldInfo {
        name: name.to_string(),
        original_name: original.to_string(),
        rust_type: ty.to_string(),
        is_optional: optional,
        needs_validation: validated,
        description: None,
        min_length: None,
        max_length: None,
        min_value: None,
        max_value: None,
        min_items: None,
        max_items: None,
    }
}

#[test]
fn test_length_constraints_both_bounds() {
    let mut f = field("name", "name", "String", false, true);
    f.min_length = Some(5);
    f.max_length = Some(50);
    let mut code = String::new();
    add_validation_attributes(&mut code, &f);
    assert_eq!(code, "    #[validate(length(min = 5, max = 50))]\n");
}

#[test]
fn test_length_constraint_default_max() {
    let f = field("name", "name", "String", false, true);
    let mut code = String::new();
    add_validation_attributes(&mut code, &f);
    assert_eq!(code, "    #[validate(length(max = 255))]\n");
}

#[test]
fn test_numeric_lower_bound_only() {
    let mut f = field("level", "level", "i32", false, true);
    f.min_value = Some(DecNum { neg: false, mag: 1, scale: 0 });
    let mut code = String::new();
    add_numeric_range_validation(&mut code, &f);
    assert_eq!(code, "    #[validate(range(min = 1))]\n");
}

#[test]
fn test_numeric_decimal_bounds() {
    let mut f = field("rate", "rate", "i32", false, true);
    f.min_value = Some(DecNum { neg: false, mag: 5, scale: 1 });
    f.max_value = Some(DecNum { neg: false, mag: 999, scale: 1 });
    let mut code = String::new();
    add_numeric_range_validation(&mut code, &f);
    assert_eq!(code, "    #[validate(range(min = 0.5, max = 99.9))]\n");
}

#[test]
fn test_implicit_id_bound() {
    let f = field("charging_profile_id", "chargingProfileId", "i32", false, true);
    let mut code = String::new();
    add_numeric_range_validation(&mut code, &f);
    assert_eq!(code, "    #[validate(range(min = 0))]\n");
}

#[test]
fn test_array_constraints_and_nested() {
    let mut f = field("items", "items", "Vec<IdTokenType>", false, true);
    f.min_items = Some(2);
    f.max_items = Some(10);
    let mut code = String::new();
    add_validation_attributes(&mut code, &f);
    assert_eq!(
        code,
        "    #[validate(length(min = 2, max = 10))]\n    #[validate(nested)]\n"
    );

    let mut g = field("modes", "modes", "Vec<ResetEnumType>", false, true);
    g.min_items = Some(1);
    let mut code2 = String::new();
    add_validation_attributes(&mut code2, &g);
    assert_eq!(code2, "    #[validate(length(min = 1))]\n");
}

#[test]
fn test_nested_type_validation() {
    let f = field("info", "info", "StatusInfoType", false, true);
    let mut code = String::new();
    add_validation_attributes(&mut code, &f);
    assert_eq!(code, "    #[validate(nested)]\n");

    let g = field("status", "status", "ResetEnumType", false, false);
    let mut code2 = String::new();
    add_validation_attributes(&mut code2, &g);
    assert_eq!(code2, "");
}

#[test]
fn test_serde_attrs_mechanical_conversion_unannotated() {
    let f = field("charging_profile_id", "chargingProfileId", "i32", false, true);
    let mut code = String::new();
    add_serde_attrs(&mut code, &f);
    assert_eq!(code, "");
}

#[test]
fn test_serde_attrs_rename_beyond_conversion() {
    let f = field("type_", "type", "String", false, true);
    let mut code = String::new();
    add_serde_attrs(&mut code, &f);
    assert_eq!(code, "    #[serde(rename = \"type\")]\n");
}

#[test]
fn test_serde_attrs_optional() {
    let f = field("note", "note", "String", true, true);
    let mut code = String::new();
    add_serde_attrs(&mut code, &f);
    assert_eq!(code, "    #[serde(skip_serializing_if = \"Option::is_none\")]\n");
}

#[test]
fn test_serde_attrs_rename_and_optional() {
    let f = field("type_", "type", "String", true, true);
    let mut code = String::new();
    add_serde_attrs(&mut code, &f);
    assert_eq!(
        code,
        "    #[serde(\n        rename = \"type\",\n        skip_serializing_if = \"Option::is_none\"\n    )]\n"
    );
}

#[test]
fn test_generate_methods() {
    let f = field("count", "count", "i32", false, true);
    assert_eq!(
        generate_setter_method(&f),
        [
            "    /// Sets the count field.",
            "    ///",
            "    /// * `count` - The count field",
            "    ///",
            "    /// # Returns",
            "    ///",
            "    /// A mutable reference to self for method chaining.",
            "    pub fn set_count(&mut self, count: i32) -> &mut Self {",
            "        self.count = count;",
            "        self",
            "    }",
            "",
        ].join("\n")
    );
    assert_eq!(
        generate_getter_method(&f),
        [
            "    /// Gets a reference to the count field.",
            "    ///",
            "    /// # Returns",
            "    ///",
            "    /// The count field",
            "    pub fn get_count(&self) -> &i32 {",
            "        &self.count",
            "    }",
            "",
        ].join("\n")
    );
    let o = field("note", "note", "String", true, true);
    assert_eq!(
        generate_with_method(&o),
        [
            "    /// Sets the note field and returns self for builder pattern.",
            "    ///",
            "    /// * `note` - The note field",
            "    ///",
            "    /// # Returns",
            "    ///",
            "    /// Self with the field set.",
            "    pub fn with_note(mut self, note: String) -> Self {",
            "        self.note = Some(note);",
            "        self",
            "    }",
            "",
        ].join("\n")
    );
}

#[test]
fn test_generate_struct_code_full() {
    let mut f = field("count", "count", "i32", false, true);
    f.min_value = Some(DecNum { neg: false, mag: 1, scale: 0 });
    let si = StructInfo {
        name: "Heartbeat".to_string(),
        fields: vec![f],
        imports: Vec::new(),
    };
    let code = generate_struct_code(&si, "message");
    let expected = [
        "/// Heartbeat message structure.",
        "#[derive(Debug, Clone, PartialEq, Deserialize, Serialize, Validate)]",
        "#[serde(rename_all = \"camelCase\")]",
        "pub struct Heartbeat {",
        "    #[validate(range(min = 1))]",
        "    pub count: i32,",
        "}",
        "",
        "impl Heartbeat {",
        "    /// Creates a new instance of the struct.",
        "    ///",
        "    /// * `count` - The count field",
        "    ///",
        "    /// # Returns",
        "    ///",
        "    /// A new instance of the struct with required fields set and optional fields as None.",
        "    pub fn new(count: i32) -> Self {",
        "        Self {",
        "            count,",
        "        }",
        "    }",
        "",
        "    /// Sets the count field.",
        "    ///",
        "    /// * `count` - The count field",
        "    ///",
        "    /// # Returns",
        "    ///",
        "    /// A mutable reference to self for method chaining.",
        "    pub fn set_count(&mut self, count: i32) -> &mut Self {",
        "        self.count = count;",
        "        self",
        "    }",
        "",
        "    /// Gets a reference to the count field.",
        "    ///",
        "    /// # Returns",
        "    ///",
        "    /// The count field",
        "    pub fn get_count(&self) -> &i32 {",
        "        &self.count",
        "    }",
        "",
        "}",
        "",
    ].join("\n");
    assert_eq!(code, expected);
}

#[test]
fn test_request_struct_comment() {
    let si = StructInfo {
        name: "ResetRequest".to_string(),
        fields: Vec::new(),
        imports: Vec::new(),
    };
    let code = generate_struct_code(&si, "request");
    assert!(code.starts_with("/// Request body for the Reset request.\n"));
    // any kind word gets its first letter raised
    let custom = generate_struct_code(&si, "custom");
    assert!(custom.starts_with("/// Custom body for the Reset custom.\n"));
}

#[test]
fn test_optimize_imports_grouping() {
    let imports = vec![
        "use crate::v2_1::datatypes::StatusInfoType;".to_string(),
        "use crate::v2_1::datatypes::IdTokenType;".to_string(),
        "use serde::{Deserialize, Serialize};".to_string(),
        "use validator::Validate;".to_string(),
        "use crate::v2_1::enumerations::ResetEnumType;".to_string(),
    ];
    let optimized = optimize_imports(&imports);
    assert_eq!(optimized, vec![
        "use crate::v2_1::datatypes::{IdTokenType, StatusInfoType};".to_string(),
        "use crate::v2_1::enumerations::ResetEnumType;".to_string(),
        "use serde::{Deserialize, Serialize};".to_string(),
        "use validator::Validate;".to_string(),
    ]);
}

#[test]
fn test_optimize_imports_deduplicates() {
    let imports = vec![
        "use crate::v2_1::datatypes::IdTokenType;".to_string(),
        "use crate::v2_1::datatypes::IdTokenType;".to_string(),
    ];
    let optimized = optimize_imports(&imports);
    assert_eq!(optimized, vec!["use crate::v2_1::datatypes::IdTokenType;".to_string()]);
}

#[test]
fn test_optimize_imports_multiline() {
    let imports = vec![
        "use crate::v2_1::datatypes::DType;".to_string(),
        "use crate::v2_1::datatypes::BType;".to_string(),
        "use crate::v2_1::datatypes::CType;".to_string(),
        "use crate::v2_1::datatypes::AType;".to_string(),
    ];
    let optimized = optimize_imports(&imports);
    let expected = [
        "use crate::v2_1::datatypes::{",
        "    AType, ",
        "    BType, ",
        "    CType, ",
        "    DType,",
        "};",
    ].join("\n");
    assert_eq!(optimized, vec![expected]);
}

#[test]
fn test_generate_mod_file() {
    let pairs = vec!["Reset".to_string(), "BootNotification".to_string()];
    let standalones = vec!["Heartbeat".to_string()];
    let code = generate_mod_file(&pairs, &standalones);
    let expected = [
        "pub mod boot_notification;",
        "pub mod heartbeat;",
        "pub mod reset;",
        "",
        "pub use boot_notification::{BootNotificationRequest, BootNotificationResponse};",
        "pub use reset::{ResetRequest, ResetResponse};",
        "pub use heartbeat::Heartbeat;",
        "",
    ].join("\n");
    assert_eq!(code, expected);
}

#[test]
fn test_impl_block_and_new_method_agree() {
    let si = StructInfo {
        name: "Sample".to_string(),
        fields: vec![field("a", "a", "String", false, false), field("b", "b", "i32", true, false)],
        imports: Vec::new(),
    };
    let block = generate_impl_block(&si);
    let new_method = generate_new_method(&si);
    assert!(block.contains(&new_method));
    assert!(new_method.contains("pub fn new(a: String) -> Self {"));
    assert!(new_method.contains("            b: None,\n"));
}
