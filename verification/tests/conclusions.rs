//! Conclusions on disk, and what is said of them.

use frama_c_mcp_server::error::McpErrorKind;
use frama_c_mcp_server::json::Json;
use frama_c_mcp_server::mcp::conclusions::{
    conclusion_base_dir, conclusion_dir, conclusion_report, given_status, invalid_field,
    list_long_text_files, meta_with_manifest, meta_write, no_conclusion, no_project_state,
    parse_conclusion_status, program_write, project_report, project_update,
    read_long_texts_as_json, set_lock, status_name, stored_report, write_long_text_field,
    ProjectStored,
};
use frama_c_mcp_server::mcp::paths::join_path;
use frama_c_mcp_server::mcp::types::StoreProjectStateParams;
use frama_c_mcp_server::state::conclusion::VerificationStatus;
use frama_c_mcp_server::state::SessionState;

fn json(text: &str) -> Json {
    Json::parse(text).unwrap()
}

fn strings(v: &[&str]) -> Vec<String> {
    v.iter().map(|s| s.to_string()).collect()
}

#[test]
fn conclusions_have_their_directories() {
    assert_eq!(conclusion_base_dir(), ".frama-c-mcp");
    assert_eq!(conclusion_dir("factorial"), ".frama-c-mcp/factorial");
    assert_eq!(join_path("a/", "b"), "a/b");
    assert_eq!(join_path("", "b"), "b");
    assert_eq!(join_path("a", "/b"), "/b");
}

#[test]
fn long_texts_are_written_beside_the_meta_file() {
    let w = write_long_text_field("d/f", "semantic_proof", "# SP").unwrap();
    assert_eq!(w.path, "d/f/semantic_proof.md");
    assert_eq!(w.tmp, "d/f/semantic_proof.md.tmp");
    assert_eq!(w.content, "# SP");
    let w = write_long_text_field("d", "", "x").unwrap();
    assert_eq!((w.path.as_str(), w.tmp.as_str()), ("d/.md", "d/.md.md.tmp"));
    let w = meta_write("d", "f", "{}".to_string());
    assert_eq!((w.path.as_str(), w.tmp.as_str()), ("d/f/meta.json", "d/f/meta.json.tmp"));
    let w = program_write("d", "{}".to_string());
    assert_eq!((w.path.as_str(), w.tmp.as_str()), ("d/_program.json", "d/_program.json.tmp"));
}

#[test]
fn empty_text_is_not_written() {
    assert!(write_long_text_field("d", "semantic_proof", "").is_none());
}

#[test]
fn long_texts_are_read_as_fields() {
    let o = read_long_texts_as_json(Some("SP"), None, None);
    assert_eq!(o.len(), 2);
    assert_eq!(o.get("semantic_proof").unwrap().as_str().unwrap(), "SP");
    assert_eq!(o.get("semiformal_proof").unwrap().as_str().unwrap(), "");
    assert!(o.get("program_summary").is_none());
    assert!(o.get("analysis_summary").is_none());
    let o = read_long_texts_as_json(None, None, Some("sum"));
    assert_eq!(o.get("program_summary").unwrap().as_str().unwrap(), "sum");
}

#[test]
fn manifest_lists_only_what_there_is() {
    assert_eq!(
        list_long_text_files(),
        strings(&["semantic_proof.md", "semiformal_proof.md", "program_summary.md"])
    );
    let meta = json(r#"{"status": "verified"}"#);
    let plain = meta_with_manifest(meta.clone(), &vec![]);
    assert_eq!(plain.to_text(), "{\"status\":\"verified\"}");
    let noted = meta_with_manifest(meta, &strings(&["program_summary.md", "semantic_proof.md", "x"]));
    let noted = noted.to_value();
    assert_eq!(
        noted["_long_text_files"]["files"],
        json(r#"["semantic_proof.md", "program_summary.md"]"#).to_value()
    );
    assert!(noted["_long_text_files"]["_comment"].is_string());
}

#[test]
fn shown_conclusion_has_the_texts_on_disk() {
    let meta = json(r#"{"status": "verified", "notes": "ok", "semantic_proof": "stale"}"#);
    let texts = read_long_texts_as_json(Some("PROOF"), None, None);
    let shown = conclusion_report(meta, &texts).to_value();
    assert_eq!(shown["status"], "verified");
    assert_eq!(shown["notes"], "ok");
    assert_eq!(shown["semantic_proof"], "PROOF");
    assert_eq!(shown["semiformal_proof"], "");
    assert!(shown.get("analysis_summary").is_none());
}

#[test]
fn statuses_have_names() {
    for s in [
        VerificationStatus::InProgress,
        VerificationStatus::Verified,
        VerificationStatus::Failed,
        VerificationStatus::Unsound,
        VerificationStatus::BlockedOnCallee,
    ] {
        assert_eq!(parse_conclusion_status(&status_name(s)).unwrap(), s);
    }
    assert_eq!(
        parse_conclusion_status("done").unwrap_err(),
        "invalid status 'done', expected: verified|failed|unsound|blocked_on_callee|in_progress"
    );
    assert_eq!(given_status(&None).unwrap(), None);
    assert_eq!(
        given_status(&Some("unsound".to_string())).unwrap(),
        Some(VerificationStatus::Unsound)
    );
    assert_eq!(
        given_status(&Some("x".to_string())).unwrap_err().kind,
        McpErrorKind::InvalidParams
    );
}

#[test]
fn storing_is_reported() {
    assert_eq!(stored_report("f", None), "{\"stored\": \"f\"}");
    assert_eq!(
        stored_report("f", Some("disk full")),
        "{\"stored\": \"f\", \"persist_error\": \"disk full\"}"
    );
    assert_eq!(no_conclusion("f").message, "no conclusion stored for function 'f'");
    assert_eq!(invalid_field("specs", "missing").message, "invalid specs: missing");
}

#[test]
fn project_is_only_said_to_be_stored_when_it_is() {
    assert_eq!(project_report(&ProjectStored::Done), "{\"stored\": true}");
    let r = project_report(&ProjectStored::Unreadable("key must be a string".to_string()));
    let body = json(&r).to_value();
    assert_eq!(body["stored"], false);
    assert_eq!(body["error"], "state_json 解析失败: key must be a string");
    let r = project_report(&ProjectStored::NotWritten("denied".to_string()));
    assert_eq!(r, "{\"stored\":false,\"persist_error\":\"denied\"}");
    assert_eq!(no_project_state(), "{\"state\": null}");
}

#[test]
fn thin_update_changes_its_fields() {
    let update = project_update(StoreProjectStateParams {
        state_json: None,
        source_files: Some(strings(&["a.c"])),
        verification_order: None,
        current_index: Some(2),
        global_notes: None,
    });
    let mut state = SessionState::default();
    state.store_project_state(update);
    let p = state.get_project_state().unwrap();
    assert_eq!((p.source_files.len(), p.current_index), (1, 2));
    assert_eq!(p.global_notes, "");
}

#[test]
fn project_is_locked_and_unlocked() {
    let mut locked = false;
    assert!(set_lock(&mut locked, true).starts_with("{\"locked\": true"));
    assert!(locked);
    assert!(set_lock(&mut locked, false).starts_with("{\"locked\": false"));
    assert!(!locked);
}
