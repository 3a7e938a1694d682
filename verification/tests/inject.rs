//! Adding the clauses of a proposal.

use frama_c_mcp_server::json::Json;
use frama_c_mcp_server::mcp::acsl::{Behavior, FailureType};
use frama_c_mcp_server::mcp::inject::{
    check_target, collect_loop_sids, collect_statement_sids, compute_status, existing_keys,
    injection_report,
    loop_annots_to_acsl, map_loop_sids, parse_plugin_error, parse_plugin_success,
    plan_annotations, AddReply, Injection, InjectionPlanEntry, NextClause, Outcome, Proposal,
};
use frama_c_mcp_server::mcp::types::InjectionFailure;

fn json(text: &str) -> Json {
    Json::parse(text).unwrap()
}

fn list(text: &str) -> Vec<Json> {
    json(text).as_array().unwrap().iter().map(|j| j.clone()).collect()
}

fn make_behaviors(pairs: &[(&str, &[&str])]) -> Vec<Behavior> {
    pairs
        .iter()
        .map(|(name, assumes)| Behavior {
            name: name.to_string(),
            assumes: assumes.iter().map(|s| s.to_string()).collect(),
        })
        .collect()
}

fn planned(o: Outcome) -> InjectionPlanEntry {
    match o {
        Outcome::Planned(e) => e,
        Outcome::Refused(f) => panic!("refused: {}", f.frama_c_error),
    }
}

fn nothing() -> Proposal {
    Proposal {
        behaviors: vec![],
        preconditions: vec![],
        postconditions: vec![],
        assigns: vec![],
        loop_annots: vec![],
        terminates: None,
    }
}

#[test]
fn collect_loop_sids_two_sequential_loops() {
    let ast = json(
        r#"{
        "name": "f",
        "body": { "sid": 1, "kind": "block", "stmts": [
            { "sid": 2, "kind": "instr" },
            { "sid": 4, "kind": "loop", "body": { "kind": "block", "stmts": [
                { "sid": 5, "kind": "instr" }
            ]}},
            { "sid": 13, "kind": "loop", "body": { "kind": "block", "stmts": [
                { "sid": 14, "kind": "instr" }
            ]}},
            { "sid": 20, "kind": "return" }
        ]}
    }"#,
    );
    let mut sids = Vec::new();
    collect_loop_sids(&ast, &mut sids);
    assert_eq!(sids, vec![4, 13]);
}

#[test]
fn collect_loop_sids_nested() {
    let ast = json(
        r#"{
        "body": { "sid": 1, "kind": "block", "stmts": [
            { "sid": 3, "kind": "loop", "body": { "kind": "block", "stmts": [
                { "sid": 7, "kind": "loop", "body": { "kind": "block", "stmts": [] }}
            ]}}
        ]}
    }"#,
    );
    let mut sids = Vec::new();
    collect_loop_sids(&ast, &mut sids);
    assert_eq!(sids, vec![3, 7]);
}

#[test]
fn collect_loop_sids_none() {
    let ast = json(
        r#"{ "body": { "sid": 1, "kind": "block", "stmts": [
        { "sid": 2, "kind": "return" }
    ]}}"#,
    );
    let mut sids = Vec::new();
    collect_loop_sids(&ast, &mut sids);
    assert!(sids.is_empty());
}

#[test]
fn collect_loop_sids_if_then_else_branches() {
    let ast = json(
        r#"{
        "name": "f",
        "body": { "sid": 1, "kind": "block", "stmts": [
            {
                "sid": 2, "kind": "if",
                "cond": "x > 0",
                "else_body": [
                    { "sid": 20, "kind": "loop", "body": { "kind": "block", "stmts": [
                        { "sid": 21, "kind": "instr" }
                    ]}}
                ],
                "then_body": [
                    { "sid": 10, "kind": "loop", "body": { "kind": "block", "stmts": [
                        { "sid": 11, "kind": "instr" }
                    ]}}
                ]
            }
        ]}
    }"#,
    );
    let mut sids = Vec::new();
    collect_loop_sids(&ast, &mut sids);
    assert_eq!(
        sids,
        vec![10, 20],
        "then-branch loop (sid 10) must precede else-branch loop (sid 20)"
    );
    let mut all = Vec::new();
    collect_statement_sids(&ast, &mut all);
    assert_eq!(all, vec![1, 2, 10, 11, 20, 21]);
}

#[test]
fn parse_plugin_success_wrapped_result() {
    let reply = json(
        r#"{
        "result": {"success": true, "error": null},
        "hash_label": "re_12345678"
    }"#,
    )
    .to_text();
    assert!(parse_plugin_success(Some(&reply)));
}

#[test]
fn parse_plugin_success_false_wrapped() {
    let reply = json(
        r#"{
        "result": {"success": false, "error": "ACSL syntax error in function contract"},
        "hash_label": "an_12345678"
    }"#,
    )
    .to_text();
    assert!(!parse_plugin_success(Some(&reply)));
}

#[test]
fn parse_plugin_error_wrapped_result() {
    let reply = json(
        r#"{
        "result": {"success": false, "error": "unbound logic variable i"},
        "hash_label": "an_12345678"
    }"#,
    )
    .to_text();
    assert_eq!(parse_plugin_error(Some(&reply)), Some("unbound logic variable i".to_string()));
}

#[test]
fn parse_plugin_success_empty_content() {
    assert!(!parse_plugin_success(None));
}

#[test]
fn loop_annots_to_acsl_basic() {
    let b = make_behaviors(&[]);
    let annot = json(
        r#"{
        "stmt_id": 2,
        "loop_label": "outer loop",
        "invariants": [
            {"acsl": "0 <= i <= n"},
            {"acsl": "\\forall k; 0 <= k <= j ==> a[k] <= a[j]"}
        ],
        "assigns": [
            {"acsl": "a, i, j, tmp"}
        ],
        "variant": {"acsl": "(n - 1) - i"}
    }"#,
    );
    let outcomes = loop_annots_to_acsl(&annot, 0, &b);
    // 2 invariants + 1 assigns + 1 variant = 4
    assert_eq!(outcomes.len(), 4);
    let entries: Vec<_> = outcomes.into_iter().map(planned).collect();

    assert_eq!(entries[0].acsl_text, "loop invariant 0 <= i <= n;");
    assert_eq!(entries[0].derived_from, "proposed_loop_annots[0].invariants[0]");
    assert_eq!(entries[0].stmt_id, Some(2i64));

    assert_eq!(
        entries[1].acsl_text,
        "loop invariant \\forall k; 0 <= k <= j ==> a[k] <= a[j];"
    );
    assert_eq!(entries[1].derived_from, "proposed_loop_annots[0].invariants[1]");

    assert_eq!(entries[2].acsl_text, "loop assigns a, i, j, tmp;");
    assert_eq!(entries[2].derived_from, "proposed_loop_annots[0].assigns[0]");

    assert_eq!(entries[3].acsl_text, "loop variant (n - 1) - i;");
    assert_eq!(entries[3].derived_from, "proposed_loop_annots[0].variant");
}

#[test]
fn loop_annots_to_acsl_with_behavior() {
    let b = make_behaviors(&[("pos", &["n > 0"])]);
    let annot = json(
        r#"{
        "stmt_id": 5,
        "loop_label": "outer",
        "invariants": [
            {"acsl": "0 <= i <= n"},
            {"acsl": "a[0] >= 0", "behavior": "pos"}
        ],
        "assigns": [{"acsl": "a, i", "behavior": "pos"}],
        "variant": null
    }"#,
    );
    let outcomes = loop_annots_to_acsl(&annot, 0, &b);
    assert_eq!(outcomes.len(), 3);
    let entries: Vec<_> = outcomes.into_iter().map(planned).collect();
    assert_eq!(entries[0].acsl_text, "loop invariant 0 <= i <= n;");
    assert_eq!(entries[1].acsl_text, "for pos: loop invariant a[0] >= 0;");
    assert_eq!(entries[2].acsl_text, "for pos: loop assigns a, i;");
}

#[test]
fn loop_annots_to_acsl_empty_arrays() {
    let b = make_behaviors(&[]);
    let annot = json(
        r#"{
        "stmt_id": 8,
        "loop_label": "inner",
        "invariants": [],
        "assigns": [],
        "variant": null
    }"#,
    );
    let entries = loop_annots_to_acsl(&annot, 1, &b);
    assert_eq!(entries.len(), 0);
}

#[test]
fn loop_annots_to_acsl_undeclared_behavior_errors() {
    let b = make_behaviors(&[]);
    let annot = json(
        r#"{
        "stmt_id": 3,
        "loop_label": "outer",
        "invariants": [{"acsl": "i >= 0", "behavior": "ghost"}],
        "assigns": [],
        "variant": null
    }"#,
    );
    let outcomes = loop_annots_to_acsl(&annot, 0, &b);
    assert_eq!(outcomes.len(), 1);
    match &outcomes[0] {
        Outcome::Refused(f) => {
            assert!(f.proposed_path.contains("invariants[0]"));
            assert!(f.frama_c_error.contains("'ghost'"));
        }
        Outcome::Planned(_) => panic!("should error"),
    }
}

#[test]
fn compute_status_no_failures() {
    assert_eq!(compute_status(&[]), "success");
}

#[test]
fn compute_status_all_syntax_errors() {
    let failures = vec![
        InjectionFailure {
            failure_type: FailureType::SyntaxError,
            proposed_path: "proposed_requires[0]".into(),
            acsl_text: "requires \\bad;".into(),
            frama_c_error: "syntax error".into(),
        },
        InjectionFailure {
            failure_type: FailureType::SyntaxError,
            proposed_path: "proposed_ensures[0]".into(),
            acsl_text: "ensures \\bad;".into(),
            frama_c_error: "parse error".into(),
        },
    ];
    assert_eq!(compute_status(&failures), "partial");
}

#[test]
fn compute_status_with_proposed_error() {
    let failures = vec![
        InjectionFailure {
            failure_type: FailureType::SyntaxError,
            proposed_path: "proposed_requires[0]".into(),
            acsl_text: "requires \\bad;".into(),
            frama_c_error: "syntax error".into(),
        },
        InjectionFailure {
            failure_type: FailureType::ProposedError,
            proposed_path: "proposed_assigns".into(),
            acsl_text: "assigns bogus;".into(),
            frama_c_error: "type error".into(),
        },
    ];
    assert_eq!(compute_status(&failures), "proposed_error");
}

#[test]
fn compute_status_self_referential() {
    let failures = vec![InjectionFailure {
        failure_type: FailureType::ProposedSelfReferential,
        proposed_path: "proposed_ensures[0]".into(),
        acsl_text: "ensures \\permutation{a}{\\old(a)};".into(),
        frama_c_error: "unknown identifier".into(),
    }];
    assert_eq!(compute_status(&failures), "proposed_error");
}

#[test]
fn undeclared_behavior_is_refused_and_the_rest_planned() {
    let p = Proposal {
        behaviors: list(r#"[{"name": "v2nonneg", "assumes": ["n >= 0"]}]"#),
        preconditions: list(
            r#"[{"acsl": "n >= 0", "necessity": "always required"},
                {"acsl": "n <= 1000", "behavior": "v2nonneg", "necessity": "for v2nonneg only"}]"#,
        ),
        postconditions: list(
            r#"[{"acsl": "n == \\old(n)", "from": "v2_test", "behavior": "v2nonneg"},
                {"acsl": "\\true", "from": "bug_test", "behavior": "undeclared_bhv"}]"#,
        ),
        assigns: list(r#"[{"acsl": "a[0..n-1]"}]"#),
        loop_annots: vec![],
        terminates: None,
    };
    let (plan, refused) = plan_annotations(&p);
    assert_eq!(plan.len(), 4);
    assert_eq!(refused.len(), 1);
    assert_eq!(refused[0].proposed_path, "proposed_ensures[1]");
    assert!(matches!(refused[0].failure_type, FailureType::ProposedError));
    assert!(refused[0].frama_c_error.contains("'undeclared_bhv'"));
    assert!(refused[0].frama_c_error.contains("not declared in proposed_behaviors"));
    assert_eq!(
        plan[1].acsl_text,
        "behavior v2nonneg: assumes n >= 0; requires n <= 1000;"
    );
    assert_eq!(plan[1].user_label.as_deref(), Some("beh_v2nonneg"));
    assert_eq!(plan[2].purpose, "v2_test");
    assert_eq!(plan[3].acsl_text, "assigns a[0..n-1];");
}

#[test]
fn a_run_from_start_to_report() {
    let p = Proposal {
        preconditions: list(r#"[{"acsl": "n >= 0"}, {"acsl": "m >= 0"}, {"acsl": "k >= 0"}]"#),
        ..nothing()
    };
    let (plan, refused) = plan_annotations(&p);
    let existing = existing_keys(&json(r#"[{"acsl": "requires m >= 0;"}, {"other": 1}]"#));
    let mut run = Injection::start(plan, refused);
    match run.next_clause(&existing, "exp:f") {
        NextClause::Add(q) => {
            assert_eq!(q.function, "exp:f");
            assert_eq!(q.kind, "spec");
            assert_eq!(q.acsl, "requires n >= 0;");
        }
        NextClause::AlreadyThere => panic!("it is new"),
    }
    run.record_reply(AddReply::Answered {
        reply: Some("{\"result\": {\"success\": true}}".to_string()),
        hash_label: "re_00000001".to_string(),
    });
    assert!(matches!(run.next_clause(&existing, "exp:f"), NextClause::AlreadyThere));
    run.record_existing();
    run.record_reply(AddReply::Answered {
        reply: Some(
            "{\"result\": {\"success\": false, \"error\": \"Unbound variable k\"}}".to_string(),
        ),
        hash_label: "re_00000002".to_string(),
    });
    let response = run.finish();
    assert_eq!(response.status, "proposed_error");
    let labels: Vec<&str> = response.successful.iter().map(|e| e.hash_label.as_str()).collect();
    assert_eq!(labels, vec!["re_00000001", "existing"]);
    let report = injection_report(&response).to_value();
    assert_eq!(report["summary"]["total_attempted"], 3);
    assert_eq!(report["summary"]["successful_count"], 2);
    assert_eq!(report["failures"][0]["type"], "proposed_self_referential");
    assert_eq!(report["failures"][0]["frama_c_error"], "Unbound variable k");
    assert!(report["successful"][0]["wp_prover"].is_null());
    assert_eq!(report["successful"][0]["source"], "generated");
}

#[test]
fn failed_calls_and_unreadable_replies_are_failures() {
    let p = Proposal {
        preconditions: list(r#"[{"acsl": "a"}, {"acsl": "b"}]"#),
        ..nothing()
    };
    let (plan, refused) = plan_annotations(&p);
    let mut run = Injection::start(plan, refused);
    run.record_reply(AddReply::CallFailed("timeout after 30s".to_string()));
    run.record_reply(AddReply::Answered { reply: None, hash_label: "re_1".to_string() });
    let response = run.finish();
    assert_eq!(response.failures.len(), 2);
    assert!(matches!(response.failures[0].failure_type, FailureType::ProposedError));
    assert_eq!(response.failures[0].frama_c_error, "timeout after 30s");
    assert_eq!(response.failures[1].frama_c_error, "unknown error");
}

#[test]
fn empty_proposal_succeeds() {
    let (plan, refused) = plan_annotations(&nothing());
    let response = Injection::start(plan, refused).finish();
    assert_eq!(response.status, "success");
    assert_eq!(response.summary.total_attempted, 0);
}

#[test]
fn targets_fit_their_tool() {
    assert!(check_target("exp42:f", true).is_ok());
    assert!(check_target("f", true).unwrap_err().contains("experiment_id prefix"));
    assert!(check_target("f", false).is_ok());
    assert!(check_target("exp42:f", false).unwrap_err().contains("bare main-instance name"));
}

#[test]
fn loop_ids_are_mapped_in_order_or_refused() {
    let mut loops = list(r#"[{"stmt_id": 1, "a": true}, {"stmt_id": 2}]"#);
    map_loop_sids(&mut loops, &vec![40, 50], "f").unwrap();
    assert_eq!(loops[0].to_text(), "{\"stmt_id\":40,\"a\":true}");
    assert_eq!(loops[1].to_text(), "{\"stmt_id\":50}");
    let e = map_loop_sids(&mut loops, &vec![1], "f").unwrap_err();
    assert!(e.contains("main function 'f' has 1 loop(s) but proposed_loop_annots has 2"));
}

#[test]
fn main_and_sandbox_plans_have_the_same_clauses() {
    let text = r#"[{"stmt_id": 1, "invariants": [{"acsl": "i >= 0"}], "variant": {"acsl": "n"}}]"#;
    let sandbox = Proposal { loop_annots: list(text), ..nothing() };
    let mut mapped = list(text);
    map_loop_sids(&mut mapped, &vec![99], "f").unwrap();
    let main = Proposal { loop_annots: mapped, ..nothing() };
    let a = plan_annotations(&sandbox).0;
    let b = plan_annotations(&main).0;
    assert_eq!(a.len(), b.len());
    for (x, y) in a.iter().zip(b.iter()) {
        assert_eq!(x.acsl_text, y.acsl_text);
        assert_eq!(y.stmt_id, Some(99));
    }
}

#[test]
fn termination_clause_is_planned_in_both_forms() {
    for text in ["{\"acsl\": \"\\\\false\"}", "\"\\\\false\""] {
        let p = Proposal { terminates: Some(json(text)), ..nothing() };
        let (plan, refused) = plan_annotations(&p);
        assert!(refused.is_empty());
        assert_eq!(plan[0].acsl_text, "terminates \\false;");
        assert_eq!(plan[0].purpose, "termination_waived");
        assert_eq!(plan[0].user_label.as_deref(), Some("termination_waived"));
    }
}
