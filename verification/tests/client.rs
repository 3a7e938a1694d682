//! Which reply ends which request.

use frama_c_mcp_server::error::FramaCError;
use frama_c_mcp_server::frama_c::client::{
    gather_page, handshake_expired, handshake_probe, handshake_reply, judge_reply, next_round,
    Handshake, Patience, RequestIds, Round, Verdict, Waiting,
};
use frama_c_mcp_server::frama_c::codec::{decode_response, FramaCCommand};
use frama_c_mcp_server::json::Json;

fn reply(text: &str) -> Option<frama_c_mcp_server::frama_c::codec::FramaCResponse> {
    Some(decode_response(text).unwrap())
}

#[test]
fn identifiers_count_up() {
    let mut ids = RequestIds::new();
    assert_eq!(ids.next_id(), "RQ.0");
    assert_eq!(ids.next_id(), "RQ.1");
    ids.counter = 10;
    assert_eq!(ids.next_id(), "RQ.10");
}

#[test]
fn own_reply_ends_the_request() {
    match judge_reply(Waiting::Direct, "RQ.1", 30, 0, reply(r#"{"res":"DATA","id":"RQ.1","data":7}"#)) {
        Verdict::Answered(j) => assert_eq!(j.as_u64(), Some(7)),
        _ => panic!("it answers"),
    }
    assert!(matches!(
        judge_reply(Waiting::Polling, "RQ.1", 30, 0, reply(r#"{"res":"ERROR","id":"RQ.1","msg":"m"}"#)),
        Verdict::Failed(FramaCError::ServerError { .. })
    ));
    assert!(matches!(
        judge_reply(Waiting::Direct, "RQ.1", 30, 0, reply(r#"{"res":"REJECTED","id":"RQ.1"}"#)),
        Verdict::Failed(FramaCError::Rejected { .. })
    ));
    for waiting in [Waiting::Direct, Waiting::BeforePolling, Waiting::Polling] {
        match judge_reply(waiting, "RQ.1", 30, 0, reply(r#"{"res":"KILLED","id":"RQ.1"}"#)) {
            Verdict::Failed(FramaCError::Killed { id }) => assert_eq!(id, "RQ.1"),
            _ => panic!("it was killed"),
        }
    }
}

#[test]
fn other_replies_are_passed_over() {
    for text in [
        r#"{"res":"DATA","id":"RQ.0","data":7}"#,
        r#"{"res":"KILLED","id":"RQ.0"}"#,
        r#"{"res":"SIGNAL","id":"RQ.1"}"#,
        r#""CMDLINEON""#,
        r#""CMDLINEOFF""#,
    ] {
        for (waiting, next) in [
            (Waiting::Direct, Waiting::Direct),
            (Waiting::BeforePolling, Waiting::Polling),
            (Waiting::Polling, Waiting::Polling),
        ] {
            match judge_reply(waiting, "RQ.1", 30, 0, reply(text)) {
                Verdict::KeepWaiting(w) => assert_eq!(w, next),
                _ => panic!("it is not the answer"),
            }
        }
    }
}

#[test]
fn silence_ends_only_a_direct_request() {
    assert!(matches!(
        judge_reply(Waiting::Direct, "RQ.1", 30, 5, None),
        Verdict::Failed(FramaCError::Timeout { secs: 30, nanos: 5 })
    ));
    for waiting in [Waiting::BeforePolling, Waiting::Polling] {
        assert!(matches!(
            judge_reply(waiting, "RQ.1", 30, 0, None),
            Verdict::KeepWaiting(Waiting::Polling)
        ));
    }
}

#[test]
fn expired_requests_are_given_up() {
    assert!(matches!(next_round(Waiting::Direct, false, "RQ.1", 1, 0), Round::Receive { patience: Patience::Remaining }));
    assert!(matches!(
        next_round(Waiting::Direct, true, "RQ.1", 1, 0),
        Round::GiveUp { last_command: None, error: FramaCError::Timeout { secs: 1, nanos: 0 } }
    ));
    assert!(matches!(
        next_round(Waiting::Polling, false, "RQ.1", 1, 0),
        Round::Ask {
            pause_millis: 100,
            command: FramaCCommand::Poll,
            patience: Patience::Millis(500)
        }
    ));
    match next_round(Waiting::Polling, true, "RQ.1", 1, 0) {
        Round::GiveUp { last_command: Some(FramaCCommand::Kill { id }), .. } => assert_eq!(id, "RQ.1"),
        _ => panic!("it is killed"),
    }
    for expired in [false, true] {
        assert!(matches!(
            next_round(Waiting::BeforePolling, expired, "RQ.1", 1, 0),
            Round::Receive { patience: Patience::Millis(500) }
        ));
    }
}

#[test]
fn handshake_waits_for_the_command_line() {
    assert_eq!(
        handshake_reply(&reply("\"CMDLINEOFF\"")),
        Handshake::Ready { cmdlineoff_seen: true }
    );
    assert_eq!(handshake_reply(&None), Handshake::Ready { cmdlineoff_seen: false });
    assert_eq!(handshake_reply(&reply("\"CMDLINEON\"")), Handshake::KeepReading);
    assert!(matches!(handshake_expired(false), Some(FramaCError::ConnectTimeout)));
    assert!(handshake_expired(true).is_none());
    match handshake_probe("RQ.0") {
        FramaCCommand::Get { id, request, data } => {
            assert_eq!((id.as_str(), request.as_str()), ("RQ.0", "kernel.ast.getFiles"));
            assert!(data.is_null());
        }
        _ => panic!("it is a GET"),
    }
}

#[test]
fn pages_are_gathered() {
    let mut entries: Vec<Json> = Vec::new();
    assert!(gather_page(&mut entries, &Json::parse(r#"{"updated": [1, 2], "pending": 1}"#).unwrap()));
    assert!(!gather_page(&mut entries, &Json::parse(r#"{"updated": [3], "pending": 0}"#).unwrap()));
    let all: Vec<u64> = entries.iter().map(|j| j.as_u64().unwrap()).collect();
    assert_eq!(all, vec![1, 2, 3]);
    assert!(!gather_page(&mut entries, &Json::parse(r#"{"reload": true, "updated": [4]}"#).unwrap()));
    let all: Vec<u64> = entries.iter().map(|j| j.as_u64().unwrap()).collect();
    assert_eq!(all, vec![4]);
}
