//! Frames and messages on the wire.

use frama_c_mcp_server::error::FramaCError;
use frama_c_mcp_server::frama_c::codec::{
    decode_frame, decode_response, encode_command, encode_frame, FramaCCommand, FramaCResponse,
};
use frama_c_mcp_server::json::Json;

fn value(text: &str) -> serde_json::Value {
    serde_json::from_str(text).unwrap()
}

#[test]
fn frame_roundtrip_small() {
    let payload = r#"{"cmd":"GET","id":"RQ.0","request":"kernel.ast.getFiles","data":null}"#;
    let frame = encode_frame(payload);
    // S prefix for small payloads
    assert_eq!(frame[0], b'S');
    let decoded = decode_frame(&frame).unwrap().unwrap();
    assert_eq!(decoded.0, payload);
    assert_eq!(decoded.1, frame.len());
}

#[test]
fn frame_roundtrip_large() {
    // Create payload > 0xFFF bytes
    let payload = "x".repeat(0x1000);
    let frame = encode_frame(&payload);
    assert_eq!(frame[0], b'L');
    let decoded = decode_frame(&frame).unwrap().unwrap();
    assert_eq!(decoded.0, payload);
}

#[test]
fn decode_frame_incomplete() {
    // Empty buffer
    assert!(decode_frame(b"").unwrap().is_none());
    // Just prefix, no hex
    assert!(decode_frame(b"S").unwrap().is_none());
    // Header complete but payload incomplete
    assert!(decode_frame(b"S00ahel").unwrap().is_none());
}

#[test]
fn decode_frame_invalid_prefix() {
    let result = decode_frame(b"X000hello");
    assert!(result.is_err());
}

#[test]
fn encode_get_command() {
    let cmd = FramaCCommand::Get {
        id: "RQ.0".into(),
        request: "kernel.ast.getFiles".into(),
        data: Json::Null,
    };
    let json: serde_json::Value = serde_json::from_str(&encode_command(&cmd)).unwrap();
    assert_eq!(json["cmd"], "GET");
    assert_eq!(json["id"], "RQ.0");
    assert_eq!(json["request"], "kernel.ast.getFiles");
    assert!(json["data"].is_null());
}

#[test]
fn encode_poll_command() {
    assert_eq!(encode_command(&FramaCCommand::Poll), "\"POLL\"");
}

#[test]
fn encode_shutdown_command() {
    assert_eq!(encode_command(&FramaCCommand::Shutdown), "\"SHUTDOWN\"");
}

#[test]
fn encode_kill_command() {
    let cmd = FramaCCommand::Kill { id: "RQ.1".into() };
    let json: serde_json::Value = serde_json::from_str(&encode_command(&cmd)).unwrap();
    assert_eq!(json["cmd"], "KILL");
    assert_eq!(json["id"], "RQ.1");
}

#[test]
fn decode_cmdlineoff() {
    let resp = decode_response("\"CMDLINEOFF\"").unwrap();
    assert!(matches!(resp, FramaCResponse::CmdLineOff));
}

#[test]
fn decode_cmdlineon() {
    let resp = decode_response("\"CMDLINEON\"").unwrap();
    assert!(matches!(resp, FramaCResponse::CmdLineOn));
}

#[test]
fn decode_data_response() {
    let json = r#"{"res":"DATA","id":"RQ.0","data":["/tmp/test.c"]}"#;
    let resp = decode_response(json).unwrap();
    match resp {
        FramaCResponse::Data { id, data } => {
            assert_eq!(id, "RQ.0");
            assert_eq!(data.to_value(), value(r#"["/tmp/test.c"]"#));
        }
        other => panic!("expected Data, got {other:?}"),
    }
}

#[test]
fn decode_error_response() {
    let json = r#"{"res":"ERROR","id":"RQ.1","msg":"Expected object, got null: null"}"#;
    let resp = decode_response(json).unwrap();
    match resp {
        FramaCResponse::Error { id, msg } => {
            assert_eq!(id, "RQ.1");
            assert_eq!(msg, "Expected object, got null: null");
        }
        other => panic!("expected Error, got {other:?}"),
    }
}

#[test]
fn decode_signal_response() {
    let json = r#"{"res":"SIGNAL","id":"RQ.2"}"#;
    let resp = decode_response(json).unwrap();
    assert!(matches!(resp, FramaCResponse::Signal { id } if id == "RQ.2"));
}

#[test]
fn decode_rejected_response() {
    let json = r#"{"res":"REJECTED","id":"RQ.3"}"#;
    let resp = decode_response(json).unwrap();
    assert!(matches!(resp, FramaCResponse::Rejected { id } if id == "RQ.3"));
}

#[test]
fn decode_killed_response() {
    let json = r#"{"res":"KILLED","id":"RQ.4"}"#;
    let resp = decode_response(json).unwrap();
    assert!(matches!(resp, FramaCResponse::Killed { id } if id == "RQ.4"));
}

#[test]
fn decode_data_null() {
    let json = r#"{"res":"DATA","id":"RQ.5","data":null}"#;
    let resp = decode_response(json).unwrap();
    match resp {
        FramaCResponse::Data { data, .. } => assert!(data.is_null()),
        other => panic!("expected Data, got {other:?}"),
    }
}

#[test]
fn full_roundtrip_get() {
    let cmd = FramaCCommand::Get {
        id: "RQ.0".into(),
        request: "kernel.ast.getFiles".into(),
        data: Json::Null,
    };
    let json = encode_command(&cmd);
    let frame = encode_frame(&json);
    let (decoded_payload, consumed) = decode_frame(&frame).unwrap().unwrap();
    assert_eq!(consumed, frame.len());
    let decoded_resp_value: serde_json::Value = serde_json::from_str(&decoded_payload).unwrap();
    assert_eq!(decoded_resp_value["cmd"], "GET");
}

#[test]
fn full_roundtrip_poll() {
    let json = encode_command(&FramaCCommand::Poll);
    let frame = encode_frame(&json);
    let (decoded, _) = decode_frame(&frame).unwrap().unwrap();
    assert_eq!(decoded, "\"POLL\"");
}

#[test]
fn small_frame_has_three_digits() {
    assert_eq!(encode_frame("hello"), b"S005hello".to_vec());
    assert_eq!(encode_frame(""), b"S000".to_vec());
}

#[test]
fn length_is_counted_in_bytes() {
    assert_eq!(encode_frame("é"), [b"S002".to_vec(), vec![0xC3, 0xA9]].concat());
}

#[test]
fn largest_small_frame_and_smallest_large_frame() {
    let frame = encode_frame(&"y".repeat(0xFFF));
    assert_eq!(&frame[..4], b"Sfff");
    let frame = encode_frame(&"y".repeat(0x1000));
    assert_eq!(&frame[..8], b"L0001000");
}

#[test]
fn frame_leaves_what_follows() {
    let decoded = decode_frame(b"S002hiS003").unwrap().unwrap();
    assert_eq!(decoded, ("hi".to_string(), 6));
}

#[test]
fn every_cut_frame_is_incomplete() {
    let frame = encode_frame("hello");
    for n in 0..frame.len() {
        assert!(decode_frame(&frame[..n]).unwrap().is_none());
    }
}

#[test]
fn wide_prefix_and_upper_case_digits_are_read() {
    assert_eq!(
        decode_frame(b"W00000000000000Aabcdefghij").unwrap().unwrap(),
        ("abcdefghij".to_string(), 26)
    );
}

#[test]
fn bad_header_and_bad_payload_are_invalid_frames() {
    assert!(matches!(decode_frame(b"S0zzabc"), Err(FramaCError::InvalidFrame(_))));
    // A header holds digits alone: no sign, no space.
    match decode_frame(b"S+05hello") {
        Err(FramaCError::InvalidFrame(m)) => {
            assert_eq!(m, "invalid hex in frame header '+05': invalid digit found in string");
        }
        _ => panic!("a sign is no digit"),
    }
    assert!(matches!(decode_frame(b"S 05hello"), Err(FramaCError::InvalidFrame(_))));
    assert!(matches!(decode_frame(b"S-05hello"), Err(FramaCError::InvalidFrame(_))));
    // Digits of either case.
    let mut long = b"S00A".to_vec();
    long.extend_from_slice(b"0123456789");
    assert_eq!(decode_frame(&long).unwrap(), Some(("0123456789".to_string(), 14)));
    assert!(matches!(decode_frame(b"S001\xFF"), Err(FramaCError::InvalidFrame(_))));
    assert!(matches!(decode_frame(b"\xFF\xFF\xFF\xFFx"), Err(FramaCError::InvalidFrame(_))));
}

#[test]
fn set_exec_and_signal_commands() {
    let data = Json::parse("[1, {\"a\": true}]").unwrap();
    let set = FramaCCommand::SetParam {
        id: "RQ.7".into(),
        request: "kernel.ast.setFiles".into(),
        data: data.clone(),
    };
    assert_eq!(
        encode_command(&set),
        "{\"cmd\":\"SET\",\"id\":\"RQ.7\",\"request\":\"kernel.ast.setFiles\",\"data\":[1,{\"a\":true}]}"
    );
    let exec = FramaCCommand::Exec { id: "RQ.8".into(), request: "r".into(), data };
    assert_eq!(value(&encode_command(&exec))["cmd"], "EXEC");
}

#[test]
fn request_reads_back() {
    let data = Json::parse("{\"x\": [null, -3, \"t\"]}").unwrap();
    let cmd = FramaCCommand::Get { id: "RQ.1".into(), request: "q".into(), data: data.clone() };
    let back = Json::parse(&encode_command(&cmd)).unwrap();
    assert_eq!(back.get("data").unwrap().to_value(), data.to_value());
}

#[test]
fn text_that_is_no_json_is_a_json_error() {
    assert!(matches!(decode_response("{"), Err(FramaCError::Json(_))));
}

#[test]
fn unknown_messages_are_unexpected() {
    assert!(matches!(decode_response("\"WHAT\""), Err(FramaCError::UnexpectedResponse(_))));
    assert!(matches!(decode_response("17"), Err(FramaCError::UnexpectedResponse(_))));
    assert!(matches!(
        decode_response("{\"res\":\"WHAT\",\"id\":\"RQ.0\"}"),
        Err(FramaCError::UnexpectedResponse(_))
    ));
}
