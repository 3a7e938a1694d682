//! The tools: where calls go, what is asked, and what is said.

use frama_c_mcp_server::error::{FramaCError, McpErrorKind};
use frama_c_mcp_server::frama_c::client::Waiting;
use frama_c_mcp_server::frama_c::codec::encode_command;
use frama_c_mcp_server::json::Json;
use frama_c_mcp_server::mcp::annotations::{
    clause_added, clauses_injected,
    add_annotation, add_reply, declarations_report, existing_clauses_request,
    extract_annotations_request, find_callers_request, function_ast_request,
    labelled_add_request, list_declarations_request, list_files_request, print_source_request,
    source_text, validate_request, vc_details_request, written_report,
};
use frama_c_mcp_server::mcp::chain::{parse_direction, Direction};
use frama_c_mcp_server::mcp::inspect::{
    callgraph_unread, function_report, functions_unread, globals_unread, list_functions,
    list_globals, lookup_symbol, program_connected, project_reloaded, reload_report, resolve_function_or_refresh,
    resolve_global_or_refresh, sandbox_declaration, sandbox_function_report, Lookup,
};
use frama_c_mcp_server::mcp::process::{
    launched, main_arguments, main_log, main_log_dir, main_not_started, main_socket,
    plan_launch, sandbox_arguments, sandbox_not_started, sandbox_paths, stderr_tail,
    step_failed, Launch, MainFramaCState,
};
use frama_c_mcp_server::mcp::properties::{
    annotations_in_scope, eva_alarms, eva_report, eva_value_request, label_goal, run_eva, wp_goals,
};
use frama_c_mcp_server::mcp::request::{
    read_callgraph, read_functions, read_globals, read_goals, read_properties,
    reload_files_in_place, Channel, Request,
};
use frama_c_mcp_server::mcp::routing::{
    check_add_main, check_add_sandbox, check_print_main, check_wp_main, check_wp_sandbox,
    current_files, experiment_id_of, files_to_load, function_of_sandbox, no_project_loaded_err,
    print_source_sandbox, require_client, require_project_loaded, require_sandbox,
    resolve_place, sandbox_not_found_err, wants_rte, Files, Place,
};
use frama_c_mcp_server::mcp::sandbox::{
    begin_creation, check_capacity, choose_experiment_id, created_report, delete_sandbox,
    deleted_report, experiments, extract_request, find_declaration, find_sandbox, pair_sids,
    plan_setup,
    read_extract, recreate_failed, register_sandbox, remove_sandbox, reset_target, sandbox_created,
    set_up,
};
use frama_c_mcp_server::mcp::scheduling::{order_functions, ready_functions};
use frama_c_mcp_server::mcp::script::Script;
use frama_c_mcp_server::mcp::status::{
    callers_request, find_property, investigation_depth, investigation_report,
    plan_needs_properties, status_report, suggest_verification_plan, values_request, Depth,
};
use frama_c_mcp_server::mcp::types::{
    AddAnnotationParams, CreateSandboxParams, GetEvaAlarmsParams, GetEvaValueParams,
    GetReadyFunctionsParams, InvestigateAlarmParams, PrintSourceParams, ReloadProjectParams,
    RunEvaParams, RunWpParams, ValidateAcslParams,
};
use frama_c_mcp_server::mcp::wp::{
    all_declarations, run_proofs, run_sandbox_proofs, wp_config, wp_settings,
};
use frama_c_mcp_server::names::NameMap;
use frama_c_mcp_server::state::{SandboxState, SessionState};

fn json(text: &str) -> Json {
    Json::parse(text).unwrap()
}

fn list(text: &str) -> Vec<Json> {
    json(text).as_array().unwrap().iter().map(|j| j.clone()).collect()
}

fn strings(v: &[&str]) -> Vec<String> {
    v.iter().map(|s| s.to_string()).collect()
}

fn shown(r: &Request) -> (Channel, String, String) {
    (r.channel, r.name.clone(), r.data.to_text())
}

fn wp(functions: Option<&[&str]>) -> RunWpParams {
    RunWpParams {
        functions: functions.map(strings),
        prover: None,
        timeout: None,
        model: None,
        prop: None,
    }
}

fn session() -> SessionState {
    let mut state = SessionState::default();
    state.project_loaded = true;
    state.update_functions(&list(
        r##"[{"name": "main", "key": "kf#1", "decl": "#F1", "signature": "int main(void)",
              "defined": true, "sloc": {"file": "a.c", "line": 3}},
             {"name": "f", "key": "kf#2", "decl": "#F2", "signature": "int f(void)",
              "defined": true, "sloc": {"file": "a.c", "line": 9}},
             {"name": "lib", "key": "kf#3", "decl": "#F3", "signature": "void lib(void)"}]"##,
    ));
    state.update_globals(&list(
        r##"[{"name": "g", "key": "vi#1", "decl": "#G1", "type": "int",
              "sloc": {"file": "a.c", "line": 1}}]"##,
    ));
    state.update_callgraph(&json(
        r##"{"edges": [{"src": "#F1", "dst": "#F2", "kind": "both"},
                       {"src": "#F2", "dst": "#F3", "kind": "both"}],
             "vertices": [{"name": "main", "decl": "#F1"}, {"name": "f", "decl": "#F2"},
                          {"name": "lib", "decl": "#F3"}]}"##,
    ));
    state
}

// --- where calls go ---------------------------------------------------------

#[test]
fn names_lead_to_their_place() {
    match resolve_place("exp42:foo:bar") {
        Place::Sandbox { experiment_id, function } => {
            assert_eq!((experiment_id.as_str(), function.as_str()), ("exp42", "foo:bar"));
        }
        _ => panic!("a sandbox"),
    }
    assert!(matches!(resolve_place("foo"), Place::Main { function } if function == "foo"));
    assert_eq!(experiment_id_of("exp42:foo"), "exp42");
    assert_eq!(experiment_id_of("exp42"), "exp42");
    assert_eq!(function_of_sandbox("exp42:foo:bar"), "foo");
    assert_eq!(function_of_sandbox("foo"), "");
}

#[test]
fn no_project_loaded_says_what_to_call() {
    let e = no_project_loaded_err();
    assert_eq!(e.kind, McpErrorKind::InvalidParams);
    let body = json(&e.message).to_value();
    assert_eq!(body["error"], "NoProjectLoaded");
    assert_eq!(body["suggestion"]["tool"], "reload_project");
    assert_eq!(body["suggestion"]["args_example"]["files"][0], "/path/to/source.c");
    assert!(require_client(true).is_ok());
    assert_eq!(require_client(false).unwrap_err().message, e.message);
    assert!(require_project_loaded(&session()).is_ok());
    assert!(require_project_loaded(&SessionState::default()).is_err());
}

#[test]
fn missing_sandbox_says_what_to_call_and_what_there_is() {
    let e = sandbox_not_found_err("exp9", &strings(&["exp1", "exp2"]));
    let body = json(&e.message).to_value();
    assert_eq!(body["error"], "SandboxNotFound");
    assert_eq!(
        body["message"],
        "Sandbox 'exp9' missing. Call create_sandbox(function=..., experiment_id='exp9') first."
    );
    assert_eq!(body["suggestion"]["tool"], "create_sandbox");
    assert_eq!(body["existing_sandboxes"][1], "exp2");
    assert!(require_sandbox("exp1", &strings(&["exp1"])).is_ok());
    assert!(require_sandbox("exp9", &strings(&["exp1"])).is_err());
}

#[test]
fn proofs_are_kept_to_their_instance() {
    assert_eq!(check_wp_sandbox(&wp(Some(&["e:f", "e:g"]))).unwrap(), "e:f");
    let e = check_wp_sandbox(&wp(Some(&[]))).unwrap_err();
    assert_eq!(e.kind, McpErrorKind::InvalidParams);
    assert!(e.message.starts_with("functions required"));
    assert!(check_wp_sandbox(&wp(Some(&["e:f", "g"])))
        .unwrap_err()
        .message
        .starts_with("function 'g' must include experiment_id prefix"));
    assert!(check_wp_sandbox(&wp(None)).unwrap_err().message.starts_with("functions required"));
    assert!(check_wp_main(&wp(None), false).is_ok());
    assert!(check_wp_main(&wp(Some(&["f", "e:g"])), false)
        .unwrap_err()
        .message
        .starts_with("function 'e:g' must not include ':'"));
    assert!(check_wp_main(&wp(Some(&["f"])), true)
        .unwrap_err()
        .message
        .starts_with("Project is locked. run_wp_main is blocked"));
}

#[test]
fn clauses_are_kept_to_their_instance() {
    assert!(check_add_sandbox("e:f").is_ok());
    assert!(check_add_sandbox("f").unwrap_err().message.contains("use add_annotation_main"));
    assert!(check_add_main("f").is_ok());
    assert!(check_add_main("e:f").unwrap_err().message.contains("use add_annotation_sandbox"));
}

#[test]
fn source_is_printed_from_its_instance() {
    let named = |s: Option<&str>| PrintSourceParams {
        output: None,
        sandbox_name: s.map(|t| t.to_string()),
    };
    let existing = strings(&["exp1"]);
    assert_eq!(print_source_sandbox(&named(Some("exp1:f")), &existing).unwrap(), "exp1");
    assert_eq!(
        print_source_sandbox(&named(Some("exp2:f")), &existing).unwrap_err().message,
        "sandbox 'exp2' not found"
    );
    assert!(print_source_sandbox(&named(Some("exp1")), &existing)
        .unwrap_err()
        .message
        .starts_with("sandbox_name 'exp1' must include experiment_id prefix"));
    assert!(print_source_sandbox(&named(None), &existing)
        .unwrap_err()
        .message
        .starts_with("sandbox_name is required"));
    assert!(check_print_main(&named(None)).is_ok());
    assert!(check_print_main(&named(Some("exp1:f"))).is_err());
}

#[test]
fn files_come_from_the_call_or_from_frama_c() {
    let with = |files: Option<&[&str]>| ReloadProjectParams {
        files: files.map(strings),
        rte: None,
    };
    assert!(matches!(
        files_to_load(with(Some(&["a.c"])), false, false),
        Ok(Files::Given(f)) if f == strings(&["a.c"])
    ));
    assert!(matches!(files_to_load(with(None), true, false), Ok(Files::Current)));
    assert!(files_to_load(with(None), false, false)
        .err()
        .unwrap()
        .message
        .contains("without files="));
    assert!(files_to_load(with(Some(&["a.c"])), true, true)
        .err()
        .unwrap()
        .message
        .starts_with("Project is locked. reload_project is blocked"));
    assert_eq!(current_files(&json(r#"["a.c", 3, "b.c"]"#)), strings(&["a.c", "b.c"]));
    assert!(current_files(&json("{}")).is_empty());
}

// --- processes --------------------------------------------------------------

#[test]
fn main_instance_restarts_on_a_new_setting() {
    assert_eq!(plan_launch(&None, false), Launch::Spawn);
    let running = Some(MainFramaCState {
        socket_path: "s".to_string(),
        files: strings(&["a.c"]),
        with_rte: false,
    });
    assert_eq!(plan_launch(&running, false), Launch::InPlace);
    assert_eq!(plan_launch(&running, true), Launch::Spawn);
    let mut state = SessionState::default();
    let after = launched(&mut state, running, strings(&["b.c"]), false, "new".to_string());
    assert!(state.project_loaded);
    assert_eq!(after.socket_path, "s");
    assert_eq!(after.files, strings(&["b.c"]));
    let after = launched(&mut state, Some(after), strings(&["b.c"]), true, "new".to_string());
    assert_eq!(after.socket_path, "new");
    assert!(after.with_rte);
}

#[test]
fn main_instance_is_started_with_its_arguments() {
    assert_eq!(
        main_arguments(&strings(&["a.c", "b.c"]), "/tmp/s", true),
        strings(&[
            "a.c", "b.c", "-load-module", "ast_utils_plugin", "-server-socket", "/tmp/s",
            "-wp-prover", "Alt-Ergo,CVC5,Z3", "-wp-model", "Typed+nocast", "-rte",
        ])
    );
    assert_eq!(main_arguments(&[], "/tmp/s", false).len(), 8);
    assert_eq!(main_socket(77), "/tmp/frama-c-mcp-77.sock");
    assert_eq!(main_log_dir(), "/tmp/frama-c-mcp-logs");
    assert_eq!(main_log(77, true), "/tmp/frama-c-mcp-logs/main-77.stderr.log");
    assert_eq!(main_log(77, false), "/tmp/frama-c-mcp-logs/main-77.stdout.log");
}

#[test]
fn sandbox_keeps_unused_functions() {
    let paths = sandbox_paths("exp1");
    assert_eq!(paths.dir, "/tmp/frama-c-sandbox-exp1");
    assert_eq!(paths.file, "/tmp/frama-c-sandbox-exp1/sandbox.c");
    assert_eq!(paths.socket, "/tmp/frama-c-sandbox-exp1/frama-c.sock");
    assert_eq!(paths.stdout_log, "/tmp/frama-c-sandbox-exp1/sandbox.stdout.log");
    assert_eq!(paths.stderr_log, "/tmp/frama-c-sandbox-exp1/sandbox.stderr.log");
    let args = sandbox_arguments(&paths.file, &paths.socket);
    assert_eq!(args[0], paths.file);
    assert_eq!(args[1..4], strings(&["-keep-unused-functions", "all", "-keep-unused-types"]));
    assert_eq!(args[10..], strings(&["-kernel-warn-key", "annot-error=feedback"]));
}

#[test]
fn failures_to_start_show_the_end_of_the_log() {
    let log: String = (0..30).map(|i| format!("line {}\n", i)).collect();
    let tail = stderr_tail(Some(&log));
    assert!(tail.starts_with("line 10\n") && tail.ends_with("line 29"));
    assert_eq!(stderr_tail(Some("one\ntwo")), "one\ntwo");
    assert_eq!(stderr_tail(None), "(no stderr log)");
    let e = sandbox_not_started("frama-c", "/tmp/x/sandbox.c", Some("boom"));
    assert_eq!(e.kind, McpErrorKind::InternalError);
    assert_eq!(
        e.message,
        "sandbox frama-c failed to start (socket not found after 10s).\nbinary: frama-c\n\
         sandbox_file: /tmp/x/sandbox.c\nstderr (last 20 lines):\nboom"
    );
    assert_eq!(
        main_not_started(None).message,
        "frama-c failed to start (socket missing after 10s)\nstderr:\n(no stderr log)"
    );
    assert_eq!(step_failed("spawn frama-c", "no such file").message, "spawn frama-c: no such file");
}

// --- requests ---------------------------------------------------------------

#[test]
fn tables_are_reloaded_before_they_are_fetched() {
    for (requests, reload, fetch) in [
        (read_functions(), "kernel.ast.reloadFunctions", "kernel.ast.fetchFunctions"),
        (read_globals(), "kernel.ast.reloadGlobals", "kernel.ast.fetchGlobals"),
        (read_properties(), "kernel.properties.reloadStatus", "kernel.properties.fetchStatus"),
        (read_goals(), "plugins.wp.reloadGoals", "plugins.wp.fetchGoals"),
    ] {
        let all: Vec<_> = requests.iter().map(shown).collect();
        assert_eq!(
            all,
            vec![
                (Channel::Get, reload.to_string(), "null".to_string()),
                (Channel::FetchAll, fetch.to_string(), "null".to_string()),
            ]
        );
    }
}

#[test]
fn files_are_emptied_before_they_are_set() {
    let all: Vec<_> = reload_files_in_place(&strings(&["a.c"])).iter().map(shown).collect();
    assert_eq!(
        all,
        vec![
            (Channel::Assign, "kernel.ast.setFiles".to_string(), "[]".to_string()),
            (Channel::Assign, "kernel.ast.setFiles".to_string(), "[\"a.c\"]".to_string()),
            (Channel::Exec { secs: 120 }, "kernel.ast.compute".to_string(), "null".to_string()),
        ]
    );
    let graph: Vec<_> = read_callgraph().iter().map(shown).collect();
    assert_eq!(graph[0].0, Channel::Exec { secs: 60 });
    assert_eq!(graph[1].1, "plugins.callgraph.getCallgraph");
}

#[test]
fn requests_become_commands() {
    let get = Request::get("a.b", json("{\"k\": 1}"));
    assert_eq!(
        encode_command(&get.command("RQ.7")),
        r#"{"cmd":"GET","id":"RQ.7","request":"a.b","data":{"k":1}}"#
    );
    assert_eq!((get.time_limit_secs(), get.waiting()), (10, Waiting::Direct));

    let assign = Request::assign("a.b", json("[]"));
    assert_eq!(
        encode_command(&assign.command("RQ.8")),
        r#"{"cmd":"SET","id":"RQ.8","request":"a.b","data":[]}"#
    );
    assert_eq!((assign.time_limit_secs(), assign.waiting()), (30, Waiting::BeforePolling));

    let exec = Request::exec("a.b", Json::Null, 600);
    assert_eq!(
        encode_command(&exec.command("RQ.9")),
        r#"{"cmd":"EXEC","id":"RQ.9","request":"a.b","data":null}"#
    );
    assert_eq!((exec.time_limit_secs(), exec.waiting()), (600, Waiting::BeforePolling));

    let fetch = Request::fetch_all("a.b");
    assert_eq!(
        encode_command(&fetch.command("RQ.10")),
        r#"{"cmd":"GET","id":"RQ.10","request":"a.b","data":20000}"#
    );
    assert_eq!((fetch.time_limit_secs(), fetch.waiting()), (10, Waiting::Direct));
}

#[test]
fn scripts_end_with_the_first_failure() {
    let mut script = Script::all_needed(read_functions());
    assert_eq!(script.next().unwrap().name, "kernel.ast.reloadFunctions");
    script.record(Ok(Json::Null));
    assert_eq!(script.next().unwrap().name, "kernel.ast.fetchFunctions");
    script.record(Err(FramaCError::Rejected { id: "RQ.1".to_string() }));
    assert!(script.next().is_none());
    let e = script.finish().err().unwrap();
    assert_eq!((e.kind, e.message.as_str()), (McpErrorKind::InvalidRequest, "rejected: RQ.1"));

    let mut script = Script::all_needed(read_functions());
    script.record(Err(FramaCError::ConnectTimeout));
    assert!(script.next().is_none());
    assert_eq!(script.finish().err().unwrap().message, "connection timeout");
}

#[test]
fn scripts_go_on_where_a_request_may_fail() {
    let mut script = Script::last_needed(read_globals());
    script.record(Err(FramaCError::ConnectTimeout));
    assert_eq!(script.next().unwrap().name, "kernel.ast.fetchGlobals");
    script.record(Ok(json("[1]")));
    assert!(script.next().is_none());
    let replies = script.finish().ok().unwrap();
    assert_eq!(replies.len(), 2);
    assert!(replies[0].is_none());
    assert_eq!(replies[1].as_ref().unwrap().to_text(), "[1]");

    let mut script = Script::last_needed(read_globals());
    script.record(Ok(Json::Null));
    script.record(Err(FramaCError::ConnectTimeout));
    assert!(script.finish().is_err());
}

#[test]
fn a_connection_knows_its_functions() {
    let mut state = SessionState::default();
    program_connected(&mut state, &list(r##"[{"name": "n", "decl": "#F1"}]"##));
    assert!(state.project_loaded && !state.eva_completed);
    assert_eq!(state.resolve_function("n").unwrap().declaration, "#F1");
}

#[test]
fn analysis_sets_what_is_given() {
    let none = RunEvaParams { precision: None, main_function: None, slevel: None };
    assert_eq!(run_eva(&none).len(), 3);
    let all = RunEvaParams {
        precision: Some(-1),
        main_function: Some("entry".to_string()),
        slevel: Some(7),
    };
    let sent: Vec<_> = run_eva(&all).iter().map(shown).collect();
    assert_eq!(sent.len(), 6);
    assert_eq!(sent[0].2, "-1");
    assert_eq!(sent[1], (Channel::Assign, "kernel.parameters.setMain".to_string(), "\"entry\"".to_string()));
    assert_eq!(sent[2].2, "7");
    assert_eq!(sent[3].0, Channel::Exec { secs: 600 });
    let mut state = SessionState::default();
    let report = eva_report(&mut state, json("\"computed\""), json("{}"));
    assert!(state.eva_completed);
    assert_eq!(report.to_text(), "{\"computation_state\":\"computed\",\"program_stats\":{}}");
}

#[test]
fn values_are_asked_with_or_without_a_call_stack() {
    let ask = |callstack: Option<u32>| {
        eva_value_request(&GetEvaValueParams { marker: "#e1".to_string(), callstack })
            .data
            .to_text()
    };
    assert_eq!(ask(None), "{\"target\":\"#e1\"}");
    assert_eq!(ask(Some(3)), "{\"target\":\"#e1\",\"callstack\":3}");
}

#[test]
fn proofs_are_set_up_and_started() {
    let mut params = wp(None);
    assert!(wp_settings(&params).is_empty());
    let config = wp_config(&params, true).unwrap();
    assert_eq!(
        shown(&config),
        (
            Channel::Exec { secs: 10 },
            "plugins.ast-utils.execSetWpConfig".to_string(),
            "{\"model\":\"Typed+nocast\"}".to_string()
        )
    );
    params.prover = Some("Z3".to_string());
    params.timeout = Some(20);
    params.model = Some("Bytes".to_string());
    params.prop = Some("re_1".to_string());
    let set: Vec<_> = wp_settings(&params).iter().map(shown).collect();
    assert_eq!(set[0].2, "[\"Z3\"]");
    assert_eq!(set[1].2, "20");
    assert_eq!(
        wp_config(&params, false).unwrap().data.to_text(),
        "{\"model\":\"Bytes\",\"prop\":\"re_1\"}"
    );
    params.model = Some("Hoare".to_string());
    assert_eq!(wp_config(&params, false).err().unwrap().message, "invalid model 'Hoare'");
    assert_eq!(
        wp_config(&params, true).err().unwrap().message,
        "invalid model 'Hoare', must be 'Bytes' or 'Typed+nocast'"
    );
    let proofs: Vec<_> = run_proofs(&strings(&["#F12", "#F3"])).iter().map(shown).collect();
    assert_eq!(proofs.len(), 5);
    assert_eq!(proofs[0].2, "\"#F12\"");
    assert_eq!(
        proofs[1],
        (Channel::Exec { secs: 600 }, "plugins.wp.startProofs".to_string(), "\"#v12\"".to_string())
    );
    assert_eq!(proofs[4].1, "plugins.wp.getScheduledTasks");
    assert_eq!(run_sandbox_proofs("").len(), 1);
    assert_eq!(run_sandbox_proofs("#F1").len(), 3);
}

#[test]
fn clauses_are_sent_with_their_labels() {
    let params = AddAnnotationParams {
        function: "exp:f".to_string(),
        kind: "requires".to_string(),
        acsl: "requires n >= 0;".to_string(),
        stmt: Some(-4),
        user_label: Some("bounds".to_string()),
    };
    let sent = labelled_add_request("f", &params, "re_0000000a");
    assert_eq!(
        shown(&sent),
        (
            Channel::Exec { secs: 30 },
            "plugins.ast-utils.execAddAnnotation".to_string(),
            "{\"function\":\"f\",\"kind\":\"requires\",\"acsl\":\"requires n >= 0;\",\
             \"label\":\"re_0000000a_bounds\",\"stmt\":-4}"
                .to_string()
        )
    );
    let (sent, label) = add_annotation("f", &params);
    assert!(label.starts_with("re_") && label.len() == 11);
    assert_eq!(sent.data.to_value()["label"], format!("{}_bounds", label));
    let reply = add_reply(json("{\"result\": {}}"), "re_1");
    assert_eq!(reply.to_text(), "{\"result\":{},\"hash_label\":\"re_1\"}");
    assert_eq!(add_reply(json("[]"), "re_1").to_text(), "[]");
}

#[test]
fn single_requests_carry_their_data() {
    let validate = validate_request(
        "f",
        &ValidateAcslParams {
            function: "e:f".to_string(),
            kind: "spec".to_string(),
            acsl: "P".to_string(),
            stmt: None,
        },
    );
    assert_eq!(validate.data.to_text(), "{\"function\":\"f\",\"kind\":\"spec\",\"acsl\":\"P\"}");
    assert_eq!(vc_details_request("f").data.to_text(), "{\"function\":\"f\"}");
    assert_eq!(existing_clauses_request("f").data.to_text(), "{\"function\":\"f\"}");
    assert_eq!(extract_annotations_request("f").data.to_text(), "\"f\"");
    assert_eq!(function_ast_request("f").name, "plugins.ast-utils.getFunctionAst");
    assert_eq!(find_callers_request("#F1").data.to_text(), "\"#F1\"");
    assert_eq!(list_files_request().name, "kernel.ast.getFiles");
    assert_eq!(list_declarations_request().name, "kernel.ast.getDeclarations");
    assert_eq!(print_source_request().data.to_text(), "\"\"");
    assert_eq!(extract_request("f").name, "plugins.ast-utils.extractFunctionWithDeps");
    assert!(declarations_report(None).is_err());
    assert_eq!(declarations_report(Some(json("[1]"))).unwrap().to_text(), "[1]");
}

#[test]
fn source_is_handed_out_or_written() {
    assert_eq!(source_text(&json("\"int x;\"")), "int x;");
    assert_eq!(source_text(&json("{}")), "");
    assert_eq!(written_report("/tmp/o.c", "é"), "{\"written\": \"/tmp/o.c\", \"bytes\": 2}");
}

// --- functions and variables --------------------------------------------------

#[test]
fn lookups_refresh_once() {
    let mut state = session();
    assert!(matches!(
        resolve_function_or_refresh(&mut state, "f", None),
        Lookup::Found(info) if info.declaration == "#F2"
    ));
    assert!(matches!(resolve_function_or_refresh(&mut state, "h", None), Lookup::Refresh));
    let fresh = list(r##"[{"name": "h", "decl": "#F9"}]"##);
    assert!(matches!(
        resolve_function_or_refresh(&mut state, "h", Some(&fresh)),
        Lookup::Found(info) if info.declaration == "#F9"
    ));
    assert!(state.resolve_function("f").is_none());
    match resolve_function_or_refresh(&mut state, "k", Some(&fresh)) {
        Lookup::Missing(e) => assert_eq!(e.message, "function not found: k"),
        _ => panic!("it is missing"),
    }
    assert!(matches!(resolve_global_or_refresh(&mut state, "g", None), Lookup::Found(_)));
    match resolve_global_or_refresh(&mut state, "k", Some(&[])) {
        Lookup::Missing(e) => assert_eq!(e.message, "global variable not found: k"),
        _ => panic!("it is missing"),
    }
}

#[test]
fn functions_and_variables_are_described() {
    let state = session();
    let f = state.resolve_function("f").unwrap();
    let g = state.resolve_global("g").unwrap();
    let report = function_report(f, json("\"int f();\"")).to_value();
    assert_eq!(report["marker"], "kf#2");
    assert_eq!(report["line"], 9);
    assert_eq!(report["declaration"], "int f();");
    let symbol = lookup_symbol("f", Some(f), Some(g)).unwrap().to_value();
    assert_eq!((symbol["kind"].as_str(), symbol["declaration"].as_str()), (Some("function"), Some("#F2")));
    let symbol = lookup_symbol("g", None, Some(g)).unwrap().to_value();
    assert_eq!((symbol["kind"].as_str(), symbol["type"].as_str()), (Some("global_variable"), Some("int")));
    assert_eq!(lookup_symbol("x", None, None).err().unwrap().message, "symbol not found: x");
    assert_eq!(
        sandbox_function_report("f", Json::Null).to_text(),
        "{\"name\":\"f\",\"declaration\":null}"
    );
    assert_eq!(sandbox_declaration("f", "#F7").unwrap().data.to_text(), "\"#F7\"");
    assert_eq!(sandbox_declaration("f", "").err().unwrap().message, "function not found: f");
    assert_eq!(list_functions(&state).to_value().as_array().unwrap().len(), 3);
    assert_eq!(
        list_globals(&state).to_text(),
        "[{\"name\":\"g\",\"type\":\"int\",\"file\":\"a.c\",\"line\":1}]"
    );
    assert!(!functions_unread(&state) && !globals_unread(&state) && !callgraph_unread(&state));
    let empty = SessionState::default();
    assert!(functions_unread(&empty) && globals_unread(&empty) && callgraph_unread(&empty));
}

#[test]
fn loading_a_project_forgets_the_old_one() {
    let mut state = session();
    state.eva_completed = true;
    state.on_sandbox_created("f", None);
    project_reloaded(&mut state, &list(r##"[{"name": "n", "decl": "#F1"}]"##));
    assert!(state.project_loaded && !state.eva_completed);
    assert!(state.resolve_function("n").is_some() && state.resolve_function("f").is_none());
    assert!(state.callgraph_edges.is_empty());
    assert!(state.get_conclusion("f").is_some());
    let report = reload_report(list("[{}]"), &strings(&["a.c"]), true);
    assert_eq!(report.to_text(), "{\"functions\":[{}],\"files\":[\"a.c\"],\"rte\":true}");
}

#[test]
fn functions_are_ordered_and_scheduled() {
    let mut state = session();
    let report = order_functions(&mut state).unwrap().to_value();
    // The library function has no body.
    assert_eq!(report["verification_order"].as_array().unwrap().len(), 2);
    assert_eq!(report["verification_order"][0], "f");
    assert_eq!(report["scc_groups"][0]["level"], 1);
    assert_eq!(report["scc_groups"][0]["is_cycle"], false);
    let p = state.get_project_state().unwrap();
    assert_eq!(p.verification_order, strings(&["f", "main"]));
    let ready = ready_functions(
        &state,
        &GetReadyFunctionsParams { done: strings(&["lib"]), in_progress: vec![] },
    );
    assert_eq!(
        ready.to_text(),
        "[{\"function\":\"f\",\"scc_id\":null,\"is_cycle\":false,\"scc_members\":[\"f\"]}]"
    );
}

#[test]
fn call_chains_go_level_by_level() {
    let state = session();
    let down = state.trace_call_chain("#F1", Direction::Callees, None, &vec![]).to_value();
    assert_eq!(down.as_array().unwrap().len(), 2);
    assert_eq!((down[0]["from"].as_str(), down[0]["to"].as_str()), (Some("main"), Some("f")));
    assert_eq!(down[0]["depth"], 0);
    assert_eq!((down[1]["to_marker"].as_str(), down[1]["depth"].as_u64()), (Some("#F3"), Some(1)));
    let near = state.trace_call_chain("#F1", Direction::Callees, Some(0), &vec![]);
    assert_eq!(near.as_array().unwrap().len(), 1);
    let stopped = state.trace_call_chain("#F1", Direction::Callees, None, &strings(&["#F2"]));
    assert_eq!(stopped.as_array().unwrap().len(), 1);
    let up = state.trace_call_chain("#F3", Direction::Callers, Some(99), &vec![]).to_value();
    assert_eq!(up.as_array().unwrap().len(), 2);
    assert!(matches!(parse_direction("callers"), Ok(Direction::Callers)));
    assert_eq!(
        parse_direction("up").err().unwrap().message,
        "direction must be \"callers\" or \"callees\""
    );
}

#[test]
fn circular_calls_are_followed_once() {
    let mut state = SessionState::default();
    state.update_callgraph(&json(
        r##"{"edges": [{"src": "#A", "dst": "#B", "kind": "both"},
                       {"src": "#B", "dst": "#A", "kind": "both"}],
             "vertices": [{"name": "a", "decl": "#A"}]}"##,
    ));
    let chain = state.trace_call_chain("#A", Direction::Callees, Some(20), &vec![]).to_value();
    assert_eq!(chain.as_array().unwrap().len(), 2);
    assert_eq!(chain[0]["to"], "?");
}

// --- properties ---------------------------------------------------------------

fn properties() -> Vec<Json> {
    list(
        r##"[{"key": "p1", "scope": "#F1", "kind": "ensures", "status": "valid"},
             {"key": "p2", "scope": "#F2", "kind": "ensures", "status": "unknown", "kinstr": "#s3"},
             {"key": "p3", "kind": "assert", "status": "invalid"},
             {"key": "p4", "scope": "#F2", "status": "unknown"}]"##,
    )
}

fn keys(j: &Json) -> Vec<String> {
    j.as_array().unwrap().iter().map(|p| p.get_str_or_empty("key")).collect()
}

#[test]
fn alarms_are_filtered() {
    let ask = |scope: Option<&str>, kind: Option<&str>, status: Option<&str>| {
        keys(&eva_alarms(
            &properties(),
            scope,
            &GetEvaAlarmsParams {
                function: None,
                alarm_kind: kind.map(|s| s.to_string()),
                status: status.map(|s| s.to_string()),
            },
        ))
    };
    assert_eq!(ask(None, None, None).len(), 4);
    assert_eq!(ask(Some("#F2"), None, None), strings(&["p2", "p4"]));
    assert_eq!(ask(Some("#F2"), Some("ensures"), None), strings(&["p2"]));
    assert_eq!(ask(None, Some(""), None), strings(&["p4"]));
    assert_eq!(ask(None, None, Some("invalid")), strings(&["p3"]));
}

#[test]
fn annotations_lie_in_their_scope() {
    assert_eq!(keys(&annotations_in_scope(&properties(), Some("#F2"))), strings(&["p2", "p4"]));
    assert_eq!(keys(&annotations_in_scope(&properties(), Some(""))).len(), 0);
    assert_eq!(keys(&annotations_in_scope(&properties(), None)).len(), 4);
}

#[test]
fn goals_are_filtered_and_labelled() {
    let goals = list(
        r##"[{"name": "Pre re_a3f2b1c8", "scope": "#F1", "status": "VALID"},
             {"name": "mem_access", "scope": "#F1", "status": "TIMEOUT"},
             {"name": "Post", "scope": "#F2", "status": "VALID"}]"##,
    );
    let valid = wp_goals(&goals, Some("#F1"), Some("valid")).to_value();
    assert_eq!(valid.as_array().unwrap().len(), 1);
    assert_eq!(valid[0]["goal_kind"], "spec");
    assert_eq!(valid[0]["hash_label"], "re_a3f2b1c8");
    let all = wp_goals(&goals, None, None).to_value();
    assert_eq!(all[1]["goal_kind"], "rte_pointer");
    assert!(all[1].get("hash_label").is_none());
    let labelled = label_goal(json(r#"{"name": "Post"}"#), Some("en_00000001".to_string()));
    assert_eq!(labelled.to_value()["hash_label"], "en_00000001");
}

#[test]
fn status_counts_and_lists() {
    let mut state = SessionState::default();
    let report = status_report(properties(), &state, None, None).to_value();
    assert_eq!(report["total_properties"], 4);
    assert_eq!(report["by_status"]["unknown"], 2);
    assert_eq!(report["by_status"]["valid"], 1);
    assert_eq!(report["by_kind"]["ensures"], 2);
    assert_eq!(report["by_kind"]["unknown"], 1);
    assert!(report.get("eva").is_none() && report.get("wp").is_none());
    assert_eq!(report["session"]["project_loaded"], false);
    assert_eq!(report["properties"].as_array().unwrap().len(), 4);
    state.eva_completed = true;
    state.wp_completed = true;
    let report = status_report(vec![], &state, Some(json("\"done\"")), None).to_value();
    assert_eq!(report["eva"], "done");
    assert!(report["wp"].is_null() && report.get("wp").is_some());
}

#[test]
fn a_property_is_looked_into() {
    let depth = |s: Option<&str>| {
        investigation_depth(&InvestigateAlarmParams {
            property_key: "p2".to_string(),
            depth: s.map(|t| t.to_string()),
        })
    };
    assert_eq!(depth(None), Depth::Normal);
    assert_eq!(depth(Some("quick")), Depth::Quick);
    assert_eq!(depth(Some("deep")), Depth::Deep);
    let all = properties();
    assert_eq!(find_property(&all, "p9").err().unwrap().message, "property not found: p9");
    let p = find_property(&all, "p2").unwrap();
    assert_eq!(values_request(&p, Depth::Normal).unwrap().data.to_text(), "{\"target\":\"#s3\"}");
    assert_eq!(callers_request(&p, Depth::Deep).unwrap().data.to_text(), "\"#F2\"");
    assert!(values_request(&p, Depth::Quick).is_none());
    assert!(callers_request(&all[2], Depth::Deep).is_none());
    let quick = investigation_report(&all, p.clone(), Depth::Quick, Some(Json::Null), None);
    assert!(quick.get("values").is_none());
    let normal =
        investigation_report(&all, p.clone(), Depth::Normal, Some(json("1")), None).to_value();
    assert_eq!(normal["values"], 1);
    assert!(normal.get("callers").is_none() && normal.get("function_annotations").is_none());
    let deep = investigation_report(&all, p, Depth::Deep, None, Some(json("[]"))).to_value();
    assert_eq!(deep["function_annotations"].as_array().unwrap().len(), 2);
    assert!(deep["callers"].is_array());
}

#[test]
fn next_steps_are_suggested() {
    let actions = |loaded: bool, eva: bool, wp: bool, props: &Vec<Json>| -> Vec<String> {
        let mut state = SessionState::default();
        state.project_loaded = loaded;
        state.eva_completed = eva;
        state.wp_completed = wp;
        assert_eq!(plan_needs_properties(&state), loaded && eva);
        suggest_verification_plan(&state, props)
            .as_array()
            .unwrap()
            .iter()
            .map(|s| s.get_str_or_empty("action"))
            .collect()
    };
    assert_eq!(actions(false, true, true, &properties()), strings(&["reload_project"]));
    assert_eq!(actions(true, false, false, &properties()), strings(&["run_eva"]));
    assert_eq!(
        actions(true, true, false, &properties()),
        strings(&["investigate invalid properties", "run_wp"])
    );
    assert_eq!(
        actions(true, true, true, &properties()),
        strings(&["investigate invalid properties", "review results"])
    );
    assert_eq!(actions(true, true, false, &vec![]), strings(&["get_verification_status"]));
    let mut state = SessionState::default();
    state.project_loaded = true;
    state.eva_completed = true;
    let plan = suggest_verification_plan(&state, &properties()).to_value();
    assert_eq!(plan[0]["reason"], "1 invalid properties need attention");
    assert_eq!(plan[1]["reason"], "2 unknown properties may be provable with WP");
}

// --- sandboxes ----------------------------------------------------------------

fn create(id: Option<&str>) -> CreateSandboxParams {
    CreateSandboxParams { function: "f".to_string(), experiment_id: id.map(|s| s.to_string()) }
}

fn one_sandbox() -> NameMap<SandboxState> {
    let mut sandboxes: NameMap<SandboxState> = NameMap::new();
    let marker = "#F5".to_string();
    register_sandbox(&mut sandboxes, "exp1", "f", sandbox_paths("exp1"), 12, vec![(4, 1)], marker);
    sandboxes
}

#[test]
fn sandboxes_are_limited() {
    let sandboxes = one_sandbox();
    assert!(check_capacity(&sandboxes, 2).is_ok());
    assert!(check_capacity(&sandboxes, 1)
        .unwrap_err()
        .message
        .starts_with("sandbox OS safety ceiling 1 reached"));
    assert_eq!(experiments(&sandboxes), strings(&["exp1"]));
}

#[test]
fn extracts_are_read() {
    let x = read_extract(&json(r#"{"success": true, "source": "int f;", "sids": [1, 2, 3]}"#)).unwrap();
    assert_eq!((x.source.as_str(), x.ast_stmt_count), ("int f;", Some(3)));
    assert_eq!(x.sids, Some(vec![1, 2, 3]));
    let x = read_extract(&json(r#"{"success": true, "source": "int f;"}"#)).unwrap();
    assert_eq!((x.sids, x.ast_stmt_count), (None, None));
    assert_eq!(
        read_extract(&json(r#"{"success": false, "error": "no"}"#)).err().unwrap().message,
        "extract failed: no"
    );
    assert_eq!(
        read_extract(&json("{}")).err().unwrap().message,
        "extract failed: unknown error"
    );
    assert_eq!(
        read_extract(&json(r#"{"success": true}"#)).err().unwrap().message,
        "extract returned no source"
    );
}

#[test]
fn experiment_ids_are_given_or_drawn() {
    let sandboxes = one_sandbox();
    assert_eq!(choose_experiment_id(&create(Some(" exp2 ")), &sandboxes, 0).unwrap(), "exp2");
    assert!(choose_experiment_id(&create(Some("exp1")), &sandboxes, 0)
        .unwrap_err()
        .message
        .starts_with("experiment_id 'exp1' already in use"));
    assert_eq!(choose_experiment_id(&create(None), &sandboxes, 255).unwrap(), "000000ff");
    assert_eq!(choose_experiment_id(&create(Some("  ")), &sandboxes, 1).unwrap(), "00000001");
    // A drawn id takes no other sandbox's place.
    let mut drawn: NameMap<SandboxState> = NameMap::new();
    let paths = sandbox_paths("000000ff");
    register_sandbox(&mut drawn, "000000ff", "g", paths, 7, vec![], String::new());
    assert!(choose_experiment_id(&create(None), &drawn, 255)
        .unwrap_err()
        .message
        .starts_with("experiment_id '000000ff' already in use"));
    assert_eq!(choose_experiment_id(&create(None), &drawn, 254).unwrap(), "000000fe");
    let reply = json(r#"{"success": true, "source": "int f;", "sids": [1]}"#);
    assert_eq!(set_up(&reply, &create(None), &sandboxes).ok().unwrap().experiment_id.len(), 8);
}

#[test]
fn sandboxes_are_registered_and_found() {
    let funcs = list(
        r##"[{"name": "g", "decl": "#F1"}, {"name": "f"}, {"name": "f", "decl": "#F2"}]"##,
    );
    assert_eq!(find_declaration(&funcs, "f"), "#F2");
    assert_eq!(find_declaration(&funcs, "h"), "");
    let sandboxes = one_sandbox();
    let s = find_sandbox(&sandboxes, "exp1").unwrap();
    assert_eq!((s.original_function.as_str(), s.sandbox_pid), ("f", 12));
    assert_eq!(s.declaration_marker, "#F5");
    assert!(find_sandbox(&sandboxes, "exp2").err().unwrap().message.contains("SandboxNotFound"));
    assert_eq!(s.sid_map, vec![(4, 1)]);
    let reply = json(r#"{"success": true, "source": "int f;", "sids": [4, 7]}"#);
    let x = read_extract(&reply).unwrap();
    assert_eq!(
        created_report("exp1", "f", &x, &vec![(4, 1), (7, 2)]).to_text(),
        "{\"sandbox_name\":\"exp1:f\",\"experiment_id\":\"exp1\",\"ast_stmt_count\":2,\
         \"sids\":[4,7],\"sid_map\":[[4,1],[7,2]]}"
    );
    let x = read_extract(&json(r#"{"success": true, "source": "int f;"}"#)).unwrap();
    let report = created_report("exp1", "f", &x, &vec![]);
    assert!(report.get("ast_stmt_count").unwrap().is_null());
    assert!(report.get("sids").unwrap().is_null());
    assert_eq!(report.get("sid_map").unwrap().to_text(), "[]");
}

#[test]
fn statements_are_mapped_in_source_order() {
    assert_eq!(pair_sids(&Some(vec![4, 5, 9]), &vec![1, 2, 3]), vec![(4, 1), (5, 2), (9, 3)]);
    assert_eq!(pair_sids(&Some(vec![4, 5]), &vec![1, 2, 3]), vec![]);
    assert_eq!(pair_sids(&None, &vec![1]), vec![]);
    assert_eq!(pair_sids(&Some(vec![]), &vec![]), vec![]);
}

#[test]
fn sandboxes_are_reset_and_deleted() {
    let mut sandboxes = one_sandbox();
    let again = reset_target(&sandboxes, "exp1:whatever").unwrap();
    assert_eq!((again.function.as_str(), again.experiment_id.as_deref()), ("f", Some("exp1")));
    assert!(reset_target(&sandboxes, "exp2")
        .err()
        .unwrap()
        .message
        .starts_with("sandbox 'exp2' not found"));
    let e = recreate_failed("exp1", "f", "mkdir failed");
    assert!(e.message.starts_with(
        "reset_sandbox: sandbox 'exp1' (function 'f') was deleted (cleanup step OK), \
         but recreate step FAILED: mkdir failed."
    ));
    assert_eq!(remove_sandbox(&mut sandboxes, "exp1:f").unwrap().original_function, "f");
    assert!(remove_sandbox(&mut sandboxes, "exp1:f").is_none());
    assert_eq!(deleted_report().to_text(), "{\"success\":true}");
}

#[test]
fn sandboxes_are_created_step_by_step() {
    let mut state = session();
    let mut sandboxes = one_sandbox();
    let params = create(Some("exp2"));
    let request = begin_creation(&state, &sandboxes, 8, &params).ok().unwrap();
    assert_eq!(shown(&request).2, "\"f\"");
    assert!(begin_creation(&state, &sandboxes, 1, &params).err().unwrap().message.contains("ceiling"));
    state.project_loaded = false;
    let refused = begin_creation(&state, &sandboxes, 1, &params).err().unwrap();
    assert!(refused.message.contains("NoProjectLoaded"));
    state.project_loaded = true;

    let reply = json(r#"{"success": true, "source": "int f;", "sids": [4, 5]}"#);
    assert_eq!(
        plan_setup(&json("{}"), &create(Some("exp1")), &sandboxes, 0).err().unwrap().kind,
        McpErrorKind::InternalError
    );
    assert_eq!(
        plan_setup(&reply, &create(Some("exp1")), &sandboxes, 0).err().unwrap().kind,
        McpErrorKind::InvalidParams
    );
    let drawn = plan_setup(&reply, &create(None), &sandboxes, 16).ok().unwrap();
    assert_eq!(drawn.paths.dir, "/tmp/frama-c-sandbox-00000010");
    let setup = plan_setup(&reply, &params, &sandboxes, 0).ok().unwrap();
    assert_eq!(setup.experiment_id, "exp2");
    assert_eq!(setup.extract.source, "int f;");
    assert_eq!(setup.arguments[0], "/tmp/frama-c-sandbox-exp2/sandbox.c");

    let functions = list(r##"[{"name": "f", "decl": "#F7"}]"##);
    let ast = json(
        r#"{"body": {"kind": "block", "stmts": [
            {"sid": 1, "kind": "loop", "body": {"stmts": [{"sid": 2, "kind": "instr"}]}}
        ]}}"#,
    );
    let report = sandbox_created(&mut state, &mut sandboxes, "f", setup, 99, &functions, &Some(ast));
    assert_eq!(
        report.to_text(),
        "{\"sandbox_name\":\"exp2:f\",\"experiment_id\":\"exp2\",\"ast_stmt_count\":2,\
         \"sids\":[4,5],\"sid_map\":[[4,1],[5,2]]}"
    );
    let s = find_sandbox(&sandboxes, "exp2").ok().unwrap();
    assert_eq!((s.declaration_marker.as_str(), s.sandbox_pid), ("#F7", 99));
    assert_eq!(s.sid_map, vec![(4, 1), (5, 2)]);
    assert_eq!(state.get_conclusion("f").unwrap().ast_stmt_count, Some(2));
}

#[test]
fn added_clauses_are_noted() {
    let mut state = session();
    state.on_sandbox_created("f", None);
    assert_eq!(clause_added(&mut state, "exp1:f"), Some("f".to_string()));
    assert_eq!(clause_added(&mut state, "exp1:"), None);
    assert_eq!(state.get_conclusion("f").unwrap().annotation_count, 1);

    let sandboxes = one_sandbox();
    assert_eq!(clauses_injected(&mut state, &sandboxes, "exp1:g"), Some("f".to_string()));
    assert_eq!(clauses_injected(&mut state, &sandboxes, "exp9:f"), None);
    assert_eq!(clauses_injected(&mut state, &sandboxes, "f"), None);
    let c = state.get_conclusion("f").unwrap();
    assert!(!c.sandbox_clean);
    assert_eq!(c.annotation_count, 2);
}

#[test]
fn deleting_twice_is_deleting_once() {
    let mut state = session();
    state.on_sandbox_created("f", None);
    let mut sandboxes = one_sandbox();
    let gone = delete_sandbox(&mut state, &mut sandboxes, "exp1:f").unwrap();
    assert_eq!(gone.sandbox_dir, "/tmp/frama-c-sandbox-exp1");
    assert!(state.get_conclusion("f").unwrap().sandbox_deleted);
    state.on_sandbox_created("f", None);
    assert!(delete_sandbox(&mut state, &mut sandboxes, "exp1:f").is_none());
    assert!(!state.get_conclusion("f").unwrap().sandbox_deleted);
    assert!(experiments(&sandboxes).is_empty());
}

#[test]
fn a_reset_sandbox_keeps_its_experiment() {
    let mut sandboxes = one_sandbox();
    let again = reset_target(&sandboxes, "exp1:f").ok().unwrap();
    remove_sandbox(&mut sandboxes, "exp1:f");
    let reply = json(r#"{"success": true, "source": ""}"#);
    assert_eq!(set_up(&reply, &again, &sandboxes).ok().unwrap().experiment_id, "exp1");
}

#[test]
fn all_functions_are_proved_by_default() {
    let mut all = all_declarations(&session());
    all.sort();
    assert_eq!(all, strings(&["#F1", "#F2", "#F3"]));
    let rte = |rte: Option<bool>| wants_rte(&ReloadProjectParams { files: None, rte });
    assert!(rte(Some(true)) && !rte(Some(false)) && !rte(None));
}
