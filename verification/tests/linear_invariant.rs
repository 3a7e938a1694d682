//! The bridge to the linear-invariant tool.

use frama_c_mcp_server::json::Json;
use frama_c_mcp_server::linear_invariant::{
    format_constraint_in, json_to_in_format, parse_inv_output,
};

fn json(text: &str) -> Json {
    Json::parse(text).unwrap()
}

#[test]
fn test_format_constraint_geq() {
    let c = json(r#"{"coeffs": [["x", 1], ["y", -2]], "constant": 3, "kind": "geq"}"#);
    let result = format_constraint_in(&c).unwrap();
    assert_eq!(result, "1 * x -2 * y + 3 >= 0");
}

#[test]
fn test_format_constraint_primed() {
    let c = json(r#"{"coeffs": [["x'", 1], ["x", -1]], "constant": -1, "kind": "eq"}"#);
    let result = format_constraint_in(&c).unwrap();
    assert_eq!(result, "1 * 'x -1 * x -1 = 0");
}

#[test]
fn test_json_to_in_format() {
    let input = json(
        r#"{
        "variables": ["x", "n"],
        "locations": [{"name": "L", "init_constraints": [
            {"coeffs": [["x", 1]], "constant": 0, "kind": "geq"}
        ]}],
        "transitions": [{"name": "T1", "src": "L", "dst": "L",
            "guard": [{"coeffs": [["x", 1], ["n", -1]], "constant": 0, "kind": "geq"}],
            "update": [{"coeffs": [["x'", 1], ["x", -1]], "constant": -1, "kind": "eq"}],
            "preserved": ["n"]
        }]
    }"#,
    );
    let result = json_to_in_format(&input).unwrap();
    assert!(result.contains("Variable [x, n]"));
    assert!(result.contains("Location L:"));
    assert!(result.contains("Transition T1: L, L"));
    assert!(result.contains("preserve[n]"));
    assert!(result.contains("End"));
}

#[test]
fn test_parse_inv_single() {
    let text = "1 * x >= 0\n-1 * x + 10 >= 0\n";
    let result = parse_inv_output(text).to_value();
    let invs = result["invariants"].as_array().unwrap();
    assert_eq!(invs.len(), 2);
}

#[test]
fn test_parse_inv_multi() {
    let text = "Location:L1\n1 * x >= 0\n\nLocation:L2\n-1 * y >= 0\n";
    let result = parse_inv_output(text).to_value();
    let invs = &result["invariants"];
    assert!(invs["L1"].is_array());
    assert!(invs["L2"].is_array());
}

#[test]
fn smallest_coefficient_is_written_in_full() {
    let c = json(
        r#"{"coeffs": [["x", 1], ["y", -9223372036854775808]], "constant": 0, "kind": "geq"}"#,
    );
    assert!(format_constraint_in(&c).unwrap().contains("-9223372036854775808 * y"));
}

#[test]
fn missing_parts_are_errors() {
    assert!(format_constraint_in(&json("{}")).is_err());
    assert!(json_to_in_format(&json("{}")).is_err());
}
