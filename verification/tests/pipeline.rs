//! Tests of the whole run: collecting schema files, pairing, emission and
//! the configuration surface.

use gen_messages::config::{Config, ParsedArgs};
use gen_messages::processor::{SchemaProcessor, SchemaError};

fn config() -> Config {
    let mut c = Config::default();
    c.schema_dir = ".".to_string();
    c.output_dir = "out".to_string();
    c
}

const RESET_REQUEST: &str = "{
    \"properties\": {
        \"resetType\": { \"$ref\": \"#/definitions/ResetEnumType\" },
        \"evseId\": { \"type\": \"integer\" }
    },
    \"required\": [\"resetType\"]
}";

const RESET_RESPONSE: &str = "{
    \"properties\": {
        \"status\": { \"$ref\": \"#/definitions/ResetStatusEnumType\" }
    },
    \"required\": [\"status\"]
}";

const STANDALONE: &str = "{
    \"properties\": {
        \"data\": { \"type\": \"string\" }
    }
}";

#[test]
fn test_pairing_complete() {
    let mut p = SchemaProcessor::new(config());
    p.add_schema_file("ResetRequest", RESET_REQUEST).unwrap();
    p.add_schema_file("ResetResponse", RESET_RESPONSE).unwrap();
    let stats = p.get_stats();
    assert_eq!(stats.total_pairs, 1);
    assert_eq!(stats.complete_pairs, 1);
    assert_eq!(stats.incomplete_pairs, 0);
    let pair = &p.message_pairs()[0];
    assert_eq!(pair.base_name, "Reset");
    assert!(pair.request.is_some());
    assert!(pair.response.is_some());
    assert!(pair.is_complete());
}

#[test]
fn test_pairing_incomplete_excluded() {
    let mut p = SchemaProcessor::new(config());
    p.add_schema_file("ResetRequest", RESET_REQUEST).unwrap();
    let stats = p.get_stats();
    assert_eq!(stats.total_pairs, 1);
    assert_eq!(stats.complete_pairs, 0);
    assert_eq!(stats.incomplete_pairs, 1);
    let out = p.generate_all();
    assert!(out.files.is_empty());
    assert!(out.generated.is_empty());
    assert_eq!(out.incomplete, vec!["Reset".to_string()]);
}

#[test]
fn test_standalone_emitted_alone() {
    let mut p = SchemaProcessor::new(config());
    p.add_schema_file("NotifyPeriodicEventStream", STANDALONE).unwrap();
    let stats = p.get_stats();
    assert_eq!(stats.complete_pairs, 1);
    let out = p.generate_all();
    assert_eq!(out.files.len(), 1);
    assert_eq!(out.files[0].0, "notify_periodic_event_stream.rs");
    assert!(out.files[0].1.contains("/// NotifyPeriodicEventStream message structure.\n"));
    assert_eq!(out.generated, vec!["NotifyPeriodicEventStream".to_string()]);
    let mod_file = out.mod_file.unwrap();
    assert!(mod_file.contains("pub mod notify_periodic_event_stream;\n"));
    assert!(mod_file.contains(
        "pub use notify_periodic_event_stream::NotifyPeriodicEventStream;\n"
    ));
}

#[test]
fn test_regeneration_byte_identical() {
    let build = || {
        let mut p = SchemaProcessor::new(config());
        p.add_schema_file("ResetRequest", RESET_REQUEST).unwrap();
        p.add_schema_file("ResetResponse", RESET_RESPONSE).unwrap();
        p.add_schema_file("NotifyPeriodicEventStream", STANDALONE).unwrap();
        p.generate_all()
    };
    let a = build();
    let b = build();
    assert_eq!(a.files, b.files);
    assert_eq!(a.mod_file, b.mod_file);
    assert_eq!(a.generated, b.generated);
    assert_eq!(a.incomplete, b.incomplete);
}

#[test]
fn test_field_order_preserved() {
    let content = "{
        \"properties\": {
            \"b\": { \"type\": \"integer\" },
            \"a\": { \"type\": \"string\" },
            \"c\": { \"type\": \"boolean\" }
        }
    }";
    let mut p = SchemaProcessor::new(config());
    p.add_schema_file("OrderCheck", content).unwrap();
    let pair = &p.message_pairs()[0];
    let si = pair.response.as_ref().unwrap();
    let names: Vec<&str> = si.fields.iter().map(|f| f.original_name.as_str()).collect();
    assert_eq!(names, vec!["b", "a", "c"]);
}

#[test]
fn test_parse_error_fails_and_changes_nothing() {
    let mut p = SchemaProcessor::new(config());
    let r = p.add_schema_file("Broken", "{ not json");
    match r {
        Err(SchemaError::Parse(msg)) => assert!(!msg.is_empty()),
        Ok(()) => panic!("malformed text must be rejected"),
    }
    assert_eq!(p.get_stats().total_pairs, 0);
}

#[test]
fn test_last_write_wins() {
    let mut p = SchemaProcessor::new(config());
    p.add_schema_file("ResetRequest", RESET_REQUEST).unwrap();
    let second = "{\"properties\":{\"onlyField\":{\"type\":\"boolean\"}}}";
    p.add_schema_file("ResetRequest", second).unwrap();
    let stats = p.get_stats();
    assert_eq!(stats.total_pairs, 1);
    let pair = &p.message_pairs()[0];
    let req = pair.request.as_ref().unwrap();
    assert_eq!(req.fields.len(), 1);
    assert_eq!(req.fields[0].original_name, "onlyField");
}

#[test]
fn test_imports_collapse_in_emitted_file() {
    let content = "{
        \"properties\": {
            \"idToken\": { \"$ref\": \"#/definitions/IdTokenType\" },
            \"statusInfo\": { \"$ref\": \"#/definitions/StatusInfoType\" }
        }
    }";
    let mut p = SchemaProcessor::new(config());
    p.add_schema_file("AuthorizeData", content).unwrap();
    let out = p.generate_all();
    assert_eq!(out.files.len(), 1);
    let code = &out.files[0].1;
    assert!(code.contains("use crate::v2_1::datatypes::{IdTokenType, StatusInfoType};\n"));
    assert_eq!(code.matches("IdTokenType").count() >= 2, true);
    assert_eq!(code.matches("use crate::v2_1::datatypes::").count(), 1);
}

#[test]
fn test_rename_absent_for_mechanical_conversion() {
    let content = "{
        \"properties\": {
            \"chargingProfileId\": { \"type\": \"integer\" }
        }
    }";
    let mut p = SchemaProcessor::new(config());
    p.add_schema_file("ProfileCheck", content).unwrap();
    let out = p.generate_all();
    let code = &out.files[0].1;
    assert!(code.contains("pub charging_profile_id: Option<i32>,"));
    assert!(!code.contains("rename = "));
}

#[test]
fn test_date_time_not_length_validated() {
    let content = "{
        \"properties\": {
            \"timestamp\": { \"type\": \"string\", \"format\": \"date-time\" }
        },
        \"required\": [\"timestamp\"]
    }";
    let mut p = SchemaProcessor::new(config());
    p.add_schema_file("TimeCheck", content).unwrap();
    let out = p.generate_all();
    let code = &out.files[0].1;
    assert!(code.contains("pub timestamp: DateTime<Utc>,"));
    assert!(code.contains("use chrono::{DateTime, Utc};\n"));
    assert!(!code.contains("#[validate(length"));
}

#[test]
fn test_config_default_and_args() {
    let d = Config::default();
    assert_eq!(d.schema_dir, "../tests/schema_validation/schemas/v2.1");
    assert_eq!(d.output_dir, "../v2_1/messages");
    assert!(d.generate_mod_file);
    assert!(d.show_statistics);

    let args: Vec<String> = vec![
        "gen".to_string(),
        "--schema-dir".to_string(),
        "schemas".to_string(),
        "--no-mod-file".to_string(),
        "--no-stats".to_string(),
    ];
    match Config::from_args(&args) {
        ParsedArgs::Ready(c) => {
            assert_eq!(c.schema_dir, "schemas");
            assert_eq!(c.output_dir, "../v2_1/messages");
            assert!(!c.generate_mod_file);
            assert!(!c.show_statistics);
        },
        _ => panic!("arguments must parse"),
    }

    let help: Vec<String> = vec!["gen".to_string(), "-h".to_string()];
    assert!(matches!(Config::from_args(&help), ParsedArgs::Help));

    let unknown: Vec<String> = vec!["gen".to_string(), "--bogus".to_string()];
    assert!(matches!(Config::from_args(&unknown), ParsedArgs::UnknownArgument(_)));

    let missing: Vec<String> = vec!["gen".to_string(), "--output-dir".to_string()];
    assert!(matches!(Config::from_args(&missing), ParsedArgs::MissingValue(_)));
}

#[test]
fn test_validate_missing_dir() {
    let mut c = Config::default();
    c.schema_dir = "no/such/directory/anywhere".to_string();
    let r = c.validate();
    assert_eq!(
        r.unwrap_err(),
        "Schema directory does not exist: no/such/directory/anywhere"
    );

    let mut ok = Config::default();
    ok.schema_dir = ".".to_string();
    assert!(ok.validate().is_ok());
}

#[test]
fn test_mod_file_switch() {
    let mut c = config();
    c.generate_mod_file = false;
    let mut p = SchemaProcessor::new(c);
    p.add_schema_file("NotifyPeriodicEventStream", STANDALONE).unwrap();
    let out = p.generate_all();
    assert!(out.mod_file.is_none());
}
