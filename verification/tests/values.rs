//! JSON values, texts and errors.

use frama_c_mcp_server::error::{FramaCError, McpErrorKind};
use frama_c_mcp_server::ffi::{rust_add, rust_analyze, rust_greet, rust_query_ast};
use frama_c_mcp_server::json::{Json, JsonObject};
use frama_c_mcp_server::names::NameMap;
use frama_c_mcp_server::text;

#[test]
fn values_pass_through_unchanged() {
    let source = r#"{"b": [1, -2, 1.5, true, null, "x\ny"], "a": {"k": 18446744073709551615}}"#;
    let value: serde_json::Value = serde_json::from_str(source).unwrap();
    let json = Json::from_value(value.clone());
    assert_eq!(json.to_value(), value);
    assert_eq!(Json::parse(source).unwrap().to_value(), value);
    assert_eq!(json.clone().to_value(), value);
}

#[test]
fn printed_values_are_compact_or_indented() {
    let json = Json::object().with("b", Json::unsigned(1)).with("a", Json::text("t"));
    assert_eq!(json.to_text(), "{\"b\":1,\"a\":\"t\"}");
    assert_eq!(json.to_pretty_text(), "{\n  \"b\": 1,\n  \"a\": \"t\"\n}");
}

#[test]
fn bad_text_is_an_error() {
    assert_eq!(
        Json::parse("{").unwrap_err(),
        "EOF while parsing an object at line 1 column 1"
    );
}

#[test]
fn numbers_are_read_within_their_range() {
    let json = Json::parse("[18446744073709551615, -9223372036854775808, 1.5, 7]").unwrap();
    let items = json.as_array().unwrap();
    assert_eq!(items[0].as_u64(), Some(u64::MAX));
    assert_eq!(items[0].as_i64(), None);
    assert_eq!(items[1].as_i64(), Some(i64::MIN));
    assert_eq!(items[1].as_u64(), None);
    assert_eq!(items[2].as_i64(), None);
    assert_eq!(items[2].as_u64(), None);
    assert_eq!((items[3].as_u64(), items[3].as_i64()), (Some(7), Some(7)));
}

#[test]
fn fields_keep_their_place() {
    let mut o = JsonObject::new();
    o.insert("b".to_string(), Json::Bool(true));
    o.insert("a".to_string(), Json::Null);
    o.insert("b".to_string(), Json::Bool(false));
    assert_eq!(o.len(), 2);
    assert_eq!(o.key(0), "b");
    assert_eq!(o.get("b").unwrap().as_bool(), Some(false));
    assert!(o.contains_key("a") && !o.contains_key("c"));
    assert_eq!(Json::text("no object").with("a", Json::Null).to_text(), "\"no object\"");
}

#[test]
fn names_map_to_values() {
    let mut m: NameMap<u32> = NameMap::new();
    m.insert("x".to_string(), 1);
    m.insert("y".to_string(), 2);
    m.insert("x".to_string(), 3);
    assert_eq!(m.len(), 2);
    assert_eq!(m.get("x"), Some(&3));
    assert_eq!(m.take("x"), Some(3));
    assert_eq!(m.get("x"), None);
    assert_eq!(m.take("x"), None);
}

#[test]
fn errors_are_reported_by_kind() {
    let e = FramaCError::Rejected { id: "RQ.1".into() };
    assert_eq!(e.message(), "Request rejected [RQ.1]");
    assert_eq!(e.to_mcp().kind, McpErrorKind::InvalidRequest);
    assert_eq!(e.to_mcp().message, "rejected: RQ.1");
    let e = FramaCError::ServerError { id: "RQ.2".into(), msg: "bad".into() };
    assert_eq!(e.message(), "Frama-C server error [RQ.2]: bad");
    assert_eq!((e.to_mcp().kind, e.to_mcp().message.as_str()), (McpErrorKind::InternalError, "bad"));
    let e = FramaCError::FunctionNotFound("f".into());
    assert_eq!(e.message(), "Function not found: f");
    assert_eq!(e.to_mcp().kind, McpErrorKind::InvalidParams);
    assert_eq!(FramaCError::GlobalNotFound("g".into()).to_mcp().message, "global variable not found: g");
    assert_eq!(FramaCError::SymbolNotFound("s".into()).to_mcp().message, "symbol not found: s");
    assert_eq!(FramaCError::Killed { id: "RQ.3".into() }.to_mcp().message, "killed: RQ.3");
    assert_eq!(FramaCError::ConnectTimeout.to_mcp().message, "connection timeout");
    assert_eq!(FramaCError::Io("x".into()).to_mcp().message, "I/O error: x");
    assert_eq!(FramaCError::Json("x".into()).to_mcp().message, "JSON error: x");
    assert_eq!(FramaCError::InvalidFrame("x".into()).to_mcp().message, "Invalid frame: x");
    assert_eq!(
        FramaCError::UnexpectedResponse("x".into()).to_mcp().message,
        "Unexpected response: x"
    );
}

#[test]
fn time_limits_are_shown_as_durations() {
    let e = FramaCError::Timeout { secs: 30, nanos: 0 };
    assert_eq!(e.message(), "Operation timeout after 30s");
    assert_eq!(e.to_mcp().message, "timeout after 30s");
    let e = FramaCError::Timeout { secs: 1, nanos: 500_000_000 };
    assert_eq!(e.message(), "Operation timeout after 1.5s");
}

#[test]
fn texts_are_cut_and_replaced() {
    assert_eq!(text::split_once("a:b:c", ':'), Some(("a".to_string(), "b:c".to_string())));
    assert_eq!(text::split_once("abc", ':'), None);
    assert_eq!(text::replace("#F1 #F2", "#F", "#v"), "#v1 #v2");
    assert_eq!(text::replace("aaa", "aa", "b"), "ba");
    assert_eq!(text::trim("\u{3000} x \t"), "x");
    assert_eq!(text::lines("a\r\nb\n\nc\n"), vec!["a", "b", "", "c"]);
    assert_eq!(text::decimal_text(18446744073709551615), "18446744073709551615");
    assert_eq!(text::signed_decimal_text(i64::MIN), "-9223372036854775808");
}

#[test]
fn texts_are_sorted_by_code_points() {
    let mut v = vec!["b".to_string(), "é".to_string(), "a".to_string(), "".to_string(), "ab".to_string()];
    text::sort(&mut v);
    assert_eq!(v, vec!["", "a", "ab", "b", "é"]);
}

#[test]
fn texts_for_the_other_side() {
    assert_eq!(rust_add(2, 40), 42);
    assert_eq!(rust_greet(Some("C")), "Hello from Rust, C!");
    assert_eq!(rust_greet(None), "Hello from Rust, ???!");
    assert_eq!(
        rust_analyze(Some("f")),
        r#"{"function": "f", "status": "analyzed", "engine": "rust"}"#
    );
    assert_eq!(
        rust_query_ast(Some(2), Some("[\"a\",\"b\"]")),
        r#"{"source": "rust_via_ocaml_callback", "function_count": 2, "function_names": ["a","b"]}"#
    );
    assert_eq!(
        rust_query_ast(None, None),
        r#"{"source": "rust_via_ocaml_callback", "function_count": -1, "function_names": []}"#
    );
}
