//! Parameters in two forms.

use frama_c_mcp_server::error::McpErrorKind;
use frama_c_mcp_server::json::Json;
use frama_c_mcp_server::mcp::param_compat::{
    parse_json_object, parse_string_vec, value_or_string, vec_or_string,
};

fn json(text: &str) -> Json {
    Json::parse(text).unwrap()
}

fn field(text: &str, key: &str) -> Option<Json> {
    json(text).get(key).map(|j| j.clone())
}

fn parse_vec(text: &str) -> Result<Option<Vec<String>>, String> {
    let items = vec_or_string(field(text, "items"))?;
    Ok(items.map(|v| v.iter().map(|j| j.as_str().unwrap().to_string()).collect()))
}

fn parse_value(text: &str) -> Result<Option<serde_json::Value>, String> {
    Ok(value_or_string(field(text, "v"))?.map(|j| j.to_value()))
}

#[test]
fn parse_string_vec_from_array() {
    let v = json(r#"["a", "b", "c"]"#);
    let result = parse_string_vec(&v).unwrap();
    assert_eq!(result, vec!["a", "b", "c"]);
}

#[test]
fn parse_string_vec_from_stringify() {
    let v = Json::text("[\"a\", \"b\"]");
    let result = parse_string_vec(&v).unwrap();
    assert_eq!(result, vec!["a", "b"]);
}

#[test]
fn parse_string_vec_empty() {
    let v = json("[]");
    let result = parse_string_vec(&v).unwrap();
    assert!(result.is_empty());
}

#[test]
fn parse_string_vec_error_on_number() {
    let v = json("42");
    assert!(parse_string_vec(&v).is_err());
}

#[test]
fn parse_string_vec_error_on_bad_stringify() {
    let v = Json::text("not a json array");
    assert!(parse_string_vec(&v).is_err());
}

#[test]
fn parse_string_vec_error_on_mixed_array() {
    let v = json(r#"["a", 42]"#);
    assert!(parse_string_vec(&v).is_err());
}

#[test]
fn parse_json_object_from_object() {
    let v = json(r#"{"total": 6, "valid": 6}"#);
    let result = parse_json_object(&v).unwrap();
    assert_eq!(result.to_value()["total"], 6);
}

#[test]
fn parse_json_object_from_stringify() {
    let v = Json::text("{\"total\": 6}");
    let result = parse_json_object(&v).unwrap();
    assert_eq!(result.to_value()["total"], 6);
}

#[test]
fn parse_json_object_error_on_stringify_array() {
    let v = Json::text("[1, 2]");
    assert!(parse_json_object(&v).is_err());
}

#[test]
fn parse_json_object_error_on_number() {
    let v = json("42");
    assert!(parse_json_object(&v).is_err());
}

#[test]
fn vec_accepts_real_array() {
    assert_eq!(
        parse_vec(r#"{"items": ["a", "b"]}"#).unwrap(),
        Some(vec!["a".to_string(), "b".to_string()])
    );
}

#[test]
fn vec_accepts_stringified_array() {
    assert_eq!(
        parse_vec(r#"{"items": "[\"a\", \"b\"]"}"#).unwrap(),
        Some(vec!["a".to_string(), "b".to_string()])
    );
}

#[test]
fn vec_accepts_empty_string_as_none() {
    assert_eq!(parse_vec(r#"{"items": ""}"#).unwrap(), None);
}

#[test]
fn vec_accepts_null() {
    assert_eq!(parse_vec(r#"{"items": null}"#).unwrap(), None);
}

#[test]
fn vec_accepts_missing() {
    assert_eq!(parse_vec(r#"{}"#).unwrap(), None);
}

#[test]
fn vec_rejects_non_array_string() {
    let err = parse_vec(r#"{"items": "not json"}"#).unwrap_err();
    assert!(err.contains("not valid JSON"), "got: {}", err);
}

#[test]
fn vec_rejects_object_string() {
    let err = parse_vec(r#"{"items": "{}"}"#).unwrap_err();
    assert!(err.contains("not an array"), "got: {}", err);
}

#[test]
fn value_accepts_object() {
    let v = parse_value(r#"{"v": {"k": 1}}"#).unwrap();
    assert_eq!(v, Some(json(r#"{"k": 1}"#).to_value()));
}

#[test]
fn value_accepts_stringified_object() {
    let v = parse_value(r#"{"v": "{\"k\": 1}"}"#).unwrap();
    assert_eq!(v, Some(json(r#"{"k": 1}"#).to_value()));
}

#[test]
fn value_accepts_empty_string_as_none() {
    assert_eq!(parse_value(r#"{"v": ""}"#).unwrap(), None);
}

#[test]
fn refusals_say_why() {
    let e = parse_string_vec(&json("[\"a\", 1]")).unwrap_err();
    assert_eq!(e.kind, McpErrorKind::InvalidParams);
    assert_eq!(e.message, "array element is not a string");
    assert_eq!(parse_string_vec(&json("{}")).unwrap_err().message, "expected array or JSON string");
    assert!(parse_string_vec(&Json::text("[1]")).unwrap_err().message.starts_with(
        "string is not a valid JSON array: invalid type: integer `1`, expected a string"
    ));
    assert_eq!(
        parse_json_object(&json("[]")).unwrap_err().message,
        "expected object or JSON string"
    );
    assert_eq!(
        parse_json_object(&Json::text("[]")).unwrap_err().message,
        "parsed JSON is not an object"
    );
    assert!(parse_json_object(&Json::text("{"))
        .unwrap_err()
        .message
        .starts_with("string is not valid JSON: "));
}

#[test]
fn fields_of_other_kinds_are_refused() {
    for (text, kind) in [("{\"a\": 1}", "object"), ("3", "number"), ("true", "bool")] {
        assert_eq!(
            vec_or_string(Some(json(text))).unwrap_err(),
            format!("expected array or stringified JSON array, got {}", kind)
        );
    }
}

#[test]
fn blank_text_is_no_field() {
    assert!(vec_or_string(Some(Json::text(" \t\n"))).unwrap().is_none());
    assert!(value_or_string(Some(Json::text("  "))).unwrap().is_none());
    assert!(value_or_string(Some(Json::Null)).unwrap().is_none());
}

#[test]
fn both_forms_of_a_list_are_alike() {
    let list = json(r#"["a", "b\"c"]"#);
    let text = Json::text(&list.to_text());
    assert_eq!(parse_string_vec(&list).unwrap(), parse_string_vec(&text).unwrap());
}
