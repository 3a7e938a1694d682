//! The state of a session.

use std::sync::Arc;

use frama_c_mcp_server::json::Json;
use frama_c_mcp_server::names::NameMap;
use frama_c_mcp_server::state::conclusion::{
    AnnotationEntry, AnnotationSource, CalleeInfo, CalleeRequest, CalleeSources, ExistingAssert,
    FailureEvidence, FunctionConclusionUpdate, FunctionVerificationState, ProposedAssigns,
    ProposedBehavior, ProposedEnsures, ProposedLoopAnnot, ProposedLoopAssigns,
    ProposedLoopInvariant, ProposedLoopVariant, ProposedRequires, UnsoundSpec,
    VerificationStatus, WpGoalSummary,
};
use frama_c_mcp_server::state::project::{
    ProjectStateUpdate, ProjectVerificationState, SccGroup,
};
use frama_c_mcp_server::state::{
    CallEdge, CallVertex, FunctionInfo, GlobalInfo, SessionState,
};
use tokio::sync::RwLock;

fn json(text: &str) -> Json {
    Json::parse(text).unwrap()
}

fn entry(i: usize, derived_from: String, acsl: String) -> AnnotationEntry {
    AnnotationEntry {
        hash_label: format!("h{:03}", i),
        user_label: None,
        kind: "spec".into(),
        acsl,
        stmt_id: None,
        derived_from,
        source: AnnotationSource::Generated,
        purpose: "test".into(),
        proof_target: None,
        wp_status: None,
        wp_time_ms: None,
        wp_prover: None,
    }
}

#[test]
fn update_and_resolve() {
    let mut state = SessionState::default();
    let entries = vec![json(
        r##"{
        "name": "main",
        "key": "kf#36",
        "decl": "#F36",
        "signature": "int main(void); /* main */",
        "defined": true,
        "sloc": {
            "file": "/tmp/test.c",
            "line": 10,
            "base": "test.c",
            "dir": ""
        }
    }"##,
    )];
    state.update_functions(&entries);
    assert_eq!(state.functions.len(), 1);
    let info = state.resolve_function("main").unwrap();
    assert_eq!(info.marker, "kf#36");
    assert_eq!(info.declaration, "#F36");
    assert_eq!(info.signature, "int main(void); /* main */");
    assert_eq!(info.file, "/tmp/test.c");
    assert_eq!(info.line, 10);
}

#[test]
fn resolve_missing() {
    let state = SessionState::default();
    assert!(state.resolve_function("nonexistent").is_none());
}

#[test]
fn invalidate_all() {
    let mut state = SessionState::default();
    state.project_loaded = true;
    state.eva_completed = true;
    state.wp_completed = true;
    state.functions.insert(
        "f".into(),
        FunctionInfo {
            name: "f".into(),
            marker: "kf#1".into(),
            declaration: "#F1".into(),
            signature: "void f(void);".into(),
            file: "a.c".into(),
            line: 1,
            defined: true,
        },
    );
    state.globals.insert(
        "g".into(),
        GlobalInfo {
            name: "g".into(),
            marker: "kv#1".into(),
            declaration: "#V1".into(),
            typ: "int".into(),
            file: "a.c".into(),
            line: 1,
        },
    );
    state.callgraph_edges.push(CallEdge {
        src: "#F1".into(),
        dst: "#F2".into(),
        kind: "both".into(),
    });
    state.callgraph_vertices.push(CallVertex { name: "f".into(), declaration: "#F1".into() });
    state.invalidate_all();
    assert!(!state.project_loaded);
    assert!(!state.eva_completed);
    assert!(!state.wp_completed);
    assert!(state.functions.len() == 0);
    assert!(state.globals.len() == 0);
    assert!(state.callgraph_edges.is_empty());
    assert!(state.callgraph_vertices.is_empty());
}

#[test]
fn skip_empty_name() {
    let mut state = SessionState::default();
    let entries = vec![json(
        r##"{
        "name": "",
        "key": "#F1"
    }"##,
    )];
    state.update_functions(&entries);
    assert!(state.functions.len() == 0);
}

#[test]
fn invariants() {
    let mut state = SessionState::default();
    state.set_eva_completed();
    assert!(state.eva_completed);
    state.set_wp_completed();
    assert!(state.wp_completed);
}

#[test]
fn update_and_resolve_globals() {
    let mut state = SessionState::default();
    let entries = vec![json(
        r##"{
        "name": "counter",
        "key": "vi#24",
        "decl": "#G24",
        "type": "int",
        "const": false,
        "volatile": false,
        "sloc": {
            "file": "/tmp/test.c",
            "line": 3
        }
    }"##,
    )];
    state.update_globals(&entries);
    assert_eq!(state.globals.len(), 1);
    let info = state.resolve_global("counter").unwrap();
    assert_eq!(info.marker, "vi#24");
    assert_eq!(info.declaration, "#G24");
    assert_eq!(info.typ, "int");
    assert_eq!(info.file, "/tmp/test.c");
    assert_eq!(info.line, 3);
}

#[test]
fn resolve_global_missing() {
    let state = SessionState::default();
    assert!(state.resolve_global("nonexistent").is_none());
}

#[test]
fn skip_empty_global_name() {
    let mut state = SessionState::default();
    let entries = vec![json(
        r##"{
        "name": "",
        "key": "kv#1",
        "decl": "#V1",
        "type": "int"
    }"##,
    )];
    state.update_globals(&entries);
    assert!(state.globals.len() == 0);
}

#[test]
fn update_callgraph_and_query() {
    let mut state = SessionState::default();
    // Uses actual Frama-C kinds: "both" and "inter_functions"
    let graph = json(
        r##"{
        "edges": [
            {"src": "#F44", "dst": "#F37", "kind": "both"},
            {"src": "#F37", "dst": "#F33", "kind": "inter_functions"},
            {"src": "#F37", "dst": "#F26", "kind": "inter_functions"}
        ],
        "vertices": [
            {"name": "main", "decl": "#F44"},
            {"name": "process", "decl": "#F37"},
            {"name": "increment", "decl": "#F33"},
            {"name": "clamp", "decl": "#F26"}
        ]
    }"##,
    );
    state.update_callgraph(&graph);

    assert_eq!(state.callgraph_edges.len(), 3);
    assert_eq!(state.callgraph_vertices.len(), 4);

    // main calls process
    let main_callees = state.get_callees("#F44");
    assert_eq!(main_callees.len(), 1);
    assert!(main_callees.contains(&"#F37".to_string()));

    // process calls clamp and increment
    let process_callees = state.get_callees("#F37");
    assert_eq!(process_callees.len(), 2);
    assert!(process_callees.contains(&"#F33".to_string()));
    assert!(process_callees.contains(&"#F26".to_string()));

    // clamp is called by process
    let clamp_callers = state.get_callers("#F26");
    assert_eq!(clamp_callers.len(), 1);
    assert!(clamp_callers.contains(&"#F37".to_string()));

    // process is called by main
    let process_callers = state.get_callers("#F37");
    assert_eq!(process_callers.len(), 1);
    assert!(process_callers.contains(&"#F44".to_string()));

    // resolve decl to name
    assert_eq!(state.resolve_decl_to_name("#F44").map(|s| s.as_str()), Some("main"));
    assert_eq!(state.resolve_decl_to_name("#F26").map(|s| s.as_str()), Some("clamp"));
    assert_eq!(state.resolve_decl_to_name("#F99"), None);
}

#[test]
fn callgraph_empty_edges() {
    let state = SessionState::default();
    assert!(state.get_callers("#F1").is_empty());
    assert!(state.get_callees("#F1").is_empty());
}

#[test]
fn store_and_get_conclusion() {
    let mut state = SessionState::default();
    state.store_conclusion(FunctionConclusionUpdate {
        function: "abs".into(),
        status: Some(VerificationStatus::InProgress),
        specs: None,
        reference_specs: None,
        wp_results: None,
        notes: None,
        wp_summary: None,
        ..Default::default()
    });
    let c = state.get_conclusion("abs").unwrap();
    assert_eq!(c.status, VerificationStatus::InProgress);
    assert!(c.specs.is_empty());

    state.store_conclusion(FunctionConclusionUpdate {
        function: "abs".into(),
        status: Some(VerificationStatus::Verified),
        specs: Some(vec![AnnotationEntry {
            hash_label: "re_001".into(),
            user_label: None,
            kind: "spec".into(),
            acsl: "val >= -2147483647".into(),
            stmt_id: None,
            derived_from: "proposed_requires[0]".into(),
            source: AnnotationSource::Generated,
            purpose: "avoid signed overflow on negation".into(),
            proof_target: None,
            wp_status: None,
            wp_time_ms: None,
            wp_prover: None,
        }]),
        reference_specs: None,
        wp_results: None,
        notes: None,
        wp_summary: Some(WpGoalSummary {
            total: 3,
            valid: 3,
            unknown: 0,
            timeout: 0,
            failed: 0,
            model: None,
            timeout_used: None,
            recorded_at_retry: None,
            failed_goal_labels: vec![],
            failed_source_asserts: vec![],
        }),
        ..Default::default()
    });
    let c = state.get_conclusion("abs").unwrap();
    assert_eq!(c.status, VerificationStatus::Verified);
    assert_eq!(c.specs.len(), 1);
    assert_eq!(c.specs[0].kind, "spec");
    assert_eq!(c.specs[0].derived_from, "proposed_requires[0]");
    assert_eq!(c.wp_summary.as_ref().unwrap().valid, 3);
}

#[test]
fn upsert_preserves_none_fields() {
    let mut state = SessionState::default();
    state.store_conclusion(FunctionConclusionUpdate {
        function: "f".into(),
        status: Some(VerificationStatus::InProgress),
        specs: Some(vec![AnnotationEntry {
            hash_label: "en_001".into(),
            user_label: None,
            kind: "spec".into(),
            acsl: "\\result >= 0".into(),
            stmt_id: None,
            derived_from: "proposed_ensures[0]".into(),
            source: AnnotationSource::Generated,
            purpose: "main postcondition".into(),
            proof_target: None,
            wp_status: Some("valid".into()),
            wp_time_ms: Some(100),
            wp_prover: Some("Qed".into()),
        }]),
        reference_specs: None,
        wp_results: None,
        notes: Some("some note".into()),
        wp_summary: None,
        ..Default::default()
    });
    state.store_conclusion(FunctionConclusionUpdate {
        function: "f".into(),
        status: Some(VerificationStatus::Verified),
        specs: None,
        reference_specs: None,
        wp_results: None,
        notes: None,
        wp_summary: None,
        ..Default::default()
    });
    let c = state.get_conclusion("f").unwrap();
    assert_eq!(c.status, VerificationStatus::Verified);
    assert_eq!(c.specs.len(), 1);
    assert_eq!(c.notes, "some note");
}

#[test]
fn list_conclusions_filter() {
    let mut state = SessionState::default();
    for (name, status) in [
        ("a", VerificationStatus::Verified),
        ("b", VerificationStatus::Unsound),
        ("c", VerificationStatus::Failed),
    ] {
        state.store_conclusion(FunctionConclusionUpdate {
            function: name.into(),
            status: Some(status),
            specs: None,
            reference_specs: None,
            wp_results: None,
            notes: None,
            wp_summary: None,
            ..Default::default()
        });
    }
    assert_eq!(state.list_conclusions(None).len(), 3);
    assert_eq!(state.list_conclusions(Some(VerificationStatus::Verified)).len(), 1);
    assert_eq!(state.list_conclusions(Some(VerificationStatus::InProgress)).len(), 0);
}

#[test]
fn store_and_get_project_state() {
    let mut state = SessionState::default();
    assert!(state.get_project_state().is_none());
    state.store_project_state(ProjectStateUpdate {
        source_files: Some(vec!["a.c".into()]),
        verification_order: Some(vec!["f".into(), "g".into()]),
        current_index: Some(0),
        global_notes: Some("test".into()),
        ..Default::default()
    });
    let ps = state.get_project_state().unwrap();
    assert_eq!(ps.source_files, vec!["a.c"]);
    assert_eq!(ps.current_index, 0);

    state.store_project_state(ProjectStateUpdate { current_index: Some(1), ..Default::default() });
    let ps = state.get_project_state().unwrap();
    assert_eq!(ps.current_index, 1);
    assert_eq!(ps.source_files, vec!["a.c"]);
}

#[test]
fn invalidate_all_preserves_conclusions() {
    let mut state = SessionState::default();
    state.store_conclusion(FunctionConclusionUpdate {
        function: "f".into(),
        status: Some(VerificationStatus::Verified),
        specs: None,
        reference_specs: None,
        wp_results: None,
        notes: None,
        wp_summary: None,
        ..Default::default()
    });
    state.store_project_state(ProjectStateUpdate {
        source_files: Some(vec!["a.c".into()]),
        ..Default::default()
    });
    state.invalidate_all();
    assert!(!state.project_loaded);
    assert!(state.functions.len() == 0);
    assert_eq!(state.conclusions.len(), 1);
    assert!(state.get_project_state().is_some());
}

#[test]
fn sandbox_must_not_clobber_main_state() {
    let main_state = Arc::new(RwLock::new(SessionState::default()));

    // Main instance loads 20 functions
    let main_entries: Vec<Json> = (0..20)
        .map(|i| {
            json(&format!(
                "{{\"name\": \"func_{0}\", \"key\": \"kf#{0}\", \"decl\": \"#F{0}\", \
                 \"signature\": \"int func_{0}(void);\", \"defined\": true, \
                 \"sloc\": {{\"file\": \"/tmp/main.c\", \"line\": {1}, \"base\": \"main.c\", \"dir\": \"\"}}}}",
                i,
                i + 1
            ))
        })
        .collect();

    {
        let mut st = main_state.blocking_write();
        st.update_functions(&main_entries);
    }
    assert_eq!(main_state.blocking_read().functions.len(), 20);

    // The sandbox gets an independent state.
    let sandbox_state = Arc::new(RwLock::new(SessionState::default()));

    // Sandbox fetches its own (smaller) function list
    let sandbox_entries = vec![
        json(
            r##"{
            "name": "func_15",
            "key": "kf#0",
            "decl": "#F0",
            "signature": "int func_15(void);",
            "defined": true,
            "sloc": {"file": "/tmp/sandbox.c", "line": 1, "base": "sandbox.c", "dir": ""}
        }"##,
        ),
        json(
            r##"{
            "name": "func_3",
            "key": "kf#1",
            "decl": "#F1",
            "signature": "int func_3(void);",
            "defined": true,
            "sloc": {"file": "/tmp/sandbox.c", "line": 5, "base": "sandbox.c", "dir": ""}
        }"##,
        ),
    ];

    {
        let mut st = sandbox_state.blocking_write();
        st.update_functions(&sandbox_entries);
    }

    // Main state must be unaffected
    assert_eq!(
        main_state.blocking_read().functions.len(),
        20,
        "Main state must not be clobbered by sandbox update_functions"
    );
    // Sandbox has its own state
    assert_eq!(sandbox_state.blocking_read().functions.len(), 2);
}

#[test]
fn verified_clears_stale_failure_evidence() {
    let mut state = SessionState::default();
    state.store_conclusion(FunctionConclusionUpdate {
        function: "F".into(),
        status: Some(VerificationStatus::Failed),
        failure_evidence: Some(FailureEvidence {
            failure_type: "termination_waiver_unapplied".into(),
            location: "WP 81/82".into(),
            acsl: "terminates \\false".into(),
            unsupported_predicate: None,
            attempted_reformulations: vec![],
            counterexample: None,
        }),
        ..Default::default()
    });
    assert!(state.get_conclusion("F").unwrap().failure_evidence.is_some());
    state.store_conclusion(FunctionConclusionUpdate {
        function: "F".into(),
        status: Some(VerificationStatus::Verified),
        ..Default::default()
    });
    assert!(state.get_conclusion("F").unwrap().failure_evidence.is_none());
}

#[test]
fn project_state_partial_update_keeps_unset_fields() {
    let mut session = SessionState::default();
    session.store_project_state(ProjectStateUpdate {
        current_level: Some(5),
        locked: Some(true),
        ..Default::default()
    });
    session.store_project_state(ProjectStateUpdate {
        current_level: Some(7),
        locked: None,
        ..Default::default()
    });
    let state = session.get_project_state().expect("project state set");
    assert_eq!(state.current_level, 7);
    assert!(state.locked, "locked must remain true after partial update with None");
}

#[test]
fn annotation_count_syncs_on_normal_flow() {
    let mut state = SessionState::default();
    state.on_sandbox_created("bubble_sort", Some(17));
    let c = state.get_conclusion("bubble_sort").unwrap();
    assert_eq!(c.annotation_count, 0);
    assert!(c.specs.is_empty());
    for i in 0..5 {
        state.on_annotation_added("bubble_sort");
        state.store_conclusion(FunctionConclusionUpdate {
            function: "bubble_sort".into(),
            specs: Some(
                (0..=i)
                    .map(|j| entry(j, format!("proposed_requires[{}]", j), format!("prop_{}", j)))
                    .collect(),
            ),
            ..Default::default()
        });
    }
    let c = state.get_conclusion("bubble_sort").unwrap();
    assert_eq!(c.specs.len(), 5);
    assert_eq!(c.annotation_count, 5);
}

#[test]
fn annotation_count_syncs_on_revision_reduce() {
    let mut state = SessionState::default();
    state.on_sandbox_created("bubble_sort", Some(17));
    for _ in 0..14 {
        state.on_annotation_added("bubble_sort");
    }
    let spec = |i: usize| entry(i, format!("proposed_ensures[{}]", i), format!("prop_{}", i));
    state.store_conclusion(FunctionConclusionUpdate {
        function: "bubble_sort".into(),
        specs: Some((0..14).map(spec).collect()),
        ..Default::default()
    });
    let c = state.get_conclusion("bubble_sort").unwrap();
    assert_eq!(c.specs.len(), 14);
    assert_eq!(c.annotation_count, 14);
    state.store_conclusion(FunctionConclusionUpdate {
        function: "bubble_sort".into(),
        specs: Some((0..14).filter(|&i| i != 1).map(spec).collect()),
        ..Default::default()
    });
    let c = state.get_conclusion("bubble_sort").unwrap();
    assert_eq!(c.specs.len(), 13);
    assert_eq!(c.annotation_count, 13);
}

#[test]
fn annotation_count_unchanged_when_specs_none() {
    let mut state = SessionState::default();
    state.on_sandbox_created("f", Some(5));
    for _ in 0..3 {
        state.on_annotation_added("f");
    }
    let specs: Vec<AnnotationEntry> = (0..3)
        .map(|i| entry(i, format!("proposed_requires[{}]", i), format!("p{}", i)))
        .collect();
    state.store_conclusion(FunctionConclusionUpdate {
        function: "f".into(),
        specs: Some(specs),
        ..Default::default()
    });
    assert_eq!(state.get_conclusion("f").unwrap().annotation_count, 3);
    state.store_conclusion(FunctionConclusionUpdate {
        function: "f".into(),
        status: Some(VerificationStatus::Verified),
        specs: None,
        ..Default::default()
    });
    let c = state.get_conclusion("f").unwrap();
    assert_eq!(c.status, VerificationStatus::Verified);
    assert_eq!(c.annotation_count, 3);
}

#[test]
fn annotation_count_zero_on_empty_specs() {
    let mut state = SessionState::default();
    state.on_sandbox_created("f", Some(5));
    for _ in 0..7 {
        state.on_annotation_added("f");
    }
    state.store_conclusion(FunctionConclusionUpdate {
        function: "f".into(),
        specs: Some(vec![]),
        ..Default::default()
    });
    assert_eq!(state.get_conclusion("f").unwrap().annotation_count, 0);
}

#[test]
fn test_function_not_found() {
    let state = Arc::new(RwLock::new(SessionState::default()));
    let st = state.blocking_read();
    assert!(st.resolve_function("nonexistent_func").is_none());
}

#[test]
fn test_state_invalidation() {
    let mut state = SessionState::default();
    state.project_loaded = true;
    state.eva_completed = true;
    state.wp_completed = true;
    state.update_functions(&[json(
        r##"{
        "name": "f",
        "key": "kf#1",
        "decl": "#F1",
        "signature": "void f(void);",
        "sloc": {"file": "a.c", "line": 1}
    }"##,
    )]);
    assert_eq!(state.functions.len(), 1);

    state.invalidate_all();
    assert!(!state.project_loaded);
    assert!(!state.eva_completed);
    assert!(!state.wp_completed);
    assert!(state.functions.len() == 0);
}

#[test]
fn test_update_functions_empty_clears_cache() {
    let mut state = SessionState::default();
    state.update_functions(&[
        json(
            r##"{
        "name": "abs_val", "key": "kf#24", "decl": "#F24",
        "signature": "int abs_val(int x);",
        "sloc": {"file": "test.c", "line": 6}
    }"##,
        ),
        json(
            r##"{
        "name": "main", "key": "kf#36", "decl": "#F36",
        "signature": "int main(void);",
        "sloc": {"file": "test.c", "line": 15}
    }"##,
        ),
    ]);
    assert_eq!(state.functions.len(), 2);
    state.update_functions(&[]);
    assert!(state.functions.len() == 0);
}

#[test]
fn all_fields_of_an_update_are_stored() {
    let mut state = SessionState::default();
    let mut callee_info: NameMap<CalleeInfo> = NameMap::new();
    callee_info.insert(
        "g".to_string(),
        CalleeInfo {
            status: "verified".into(),
            sources: CalleeSources {
                verified_spec: Some("/*@ ensures \\result >= 0; */".into()),
                semantic_proof: Some("g returns nonneg".into()),
                ..Default::default()
            },
        },
    );
    state.store_conclusion(FunctionConclusionUpdate {
        function: "F".into(),
        status: Some(VerificationStatus::Failed),
        callees: Some(vec!["g".into(), "h".into()]),
        callee_info: Some(callee_info),
        existing_asserts: Some(vec![ExistingAssert {
            stmt_id: 42,
            acsl: "assert n >= 0;".into(),
            origin: "source".into(),
        }]),
        proposed_behaviors: Some(vec![ProposedBehavior {
            name: "nonneg".into(),
            assumes: vec!["n >= 0".into()],
        }]),
        proposed_requires: Some(vec![ProposedRequires {
            acsl: "n >= 0".into(),
            behavior: None,
            necessity: "no undefined behavior".into(),
        }]),
        proposed_ensures: Some(vec![ProposedEnsures {
            acsl: "\\result == n + 1".into(),
            from: "step 8 path-1".into(),
            behavior: Some("nonneg".into()),
        }]),
        proposed_assigns: Some(vec![ProposedAssigns { acsl: "\\nothing".into(), behavior: None }]),
        proposed_loop_annots: Some(vec![ProposedLoopAnnot {
            stmt_id: 7,
            loop_label: "main loop".into(),
            invariants: vec![
                ProposedLoopInvariant { acsl: "i >= 0".into(), behavior: None },
                ProposedLoopInvariant { acsl: "i <= n".into(), behavior: None },
            ],
            assigns: vec![ProposedLoopAssigns { acsl: "i".into(), behavior: None }],
            variant: Some(ProposedLoopVariant { acsl: "n - i".into(), behavior: None }),
        }]),
        callee_requests: Some(vec![CalleeRequest {
            callee: "h".into(),
            required_property: "\\result > 0".into(),
            reason: "for the postcondition".into(),
        }]),
        sp_revision_count: Some(1),
        last_sp_error_analysis: Some("negative branch".into()),
        proposed_revision_count: Some(1),
        last_proposed_error_analysis: Some("wording".into()),
        failure_evidence: Some(FailureEvidence {
            failure_type: "rte_overflow".into(),
            location: "stmt#42".into(),
            acsl: "x + y <= INT_MAX".into(),
            unsupported_predicate: None,
            attempted_reformulations: vec!["x <= INT_MAX - y".into()],
            counterexample: Some("x=INT_MAX, y=1".into()),
        }),
        unsound_specs: Some(vec![UnsoundSpec {
            hash_label: "li_a3f2".into(),
            kind: "spec".into(),
            acsl: "\\result > 0".into(),
            stmt_id: None,
            counterexample: "n=0".into(),
            removed_at_retry: Some(2),
        }]),
        verified_source: Some("/tmp/F_verified.c".into()),
        ..Default::default()
    });
    let stored = state.get_conclusion("F").expect("conclusion stored");
    assert_eq!(stored.status, VerificationStatus::Failed);
    assert_eq!(stored.callees, vec!["g".to_string(), "h".to_string()]);
    assert_eq!(stored.callee_info.len(), 1);
    assert_eq!(stored.callee_info.get("g").unwrap().status, "verified");
    assert_eq!(stored.existing_asserts[0].stmt_id, 42);
    assert_eq!(stored.proposed_behaviors[0].name, "nonneg");
    assert_eq!(stored.proposed_behaviors[0].assumes, vec!["n >= 0".to_string()]);
    assert_eq!(stored.proposed_requires[0].acsl, "n >= 0");
    assert_eq!(stored.proposed_requires[0].behavior, None);
    assert_eq!(stored.proposed_ensures[0].behavior.as_deref(), Some("nonneg"));
    assert_eq!(stored.proposed_assigns[0].acsl, "\\nothing");
    assert_eq!(stored.proposed_loop_annots[0].invariants.len(), 2);
    assert_eq!(stored.proposed_loop_annots[0].invariants[0].acsl, "i >= 0");
    assert_eq!(stored.proposed_loop_annots[0].assigns[0].acsl, "i");
    assert_eq!(stored.proposed_loop_annots[0].variant.as_ref().unwrap().acsl, "n - i");
    assert_eq!(stored.callee_requests[0].callee, "h");
    assert_eq!(stored.sp_revision_count, 1);
    assert_eq!(stored.last_sp_error_analysis, "negative branch");
    assert_eq!(stored.proposed_revision_count, 1);
    assert_eq!(stored.last_proposed_error_analysis, "wording");
    assert_eq!(stored.failure_evidence.as_ref().unwrap().failure_type, "rte_overflow");
    assert_eq!(stored.unsound_specs[0].hash_label, "li_a3f2");
    assert_eq!(stored.verified_source.as_deref(), Some("/tmp/F_verified.c"));
}

#[test]
fn empty_update_keeps_all() {
    let mut state = SessionState::default();
    state.store_conclusion(FunctionConclusionUpdate {
        function: "f".into(),
        status: Some(VerificationStatus::Unsound),
        notes: Some("n".into()),
        ..Default::default()
    });
    state.store_conclusion(FunctionConclusionUpdate::of("f".to_string()));
    let c = state.get_conclusion("f").unwrap();
    assert_eq!(c.status, VerificationStatus::Unsound);
    assert_eq!(c.notes, "n");
    assert!(c.conclusion_history.is_empty());
}

#[test]
fn history_keeps_earlier_states() {
    let mut state = SessionState::default();
    state.store_conclusion(FunctionConclusionUpdate {
        function: "f".into(),
        notes: Some("one".into()),
        ..Default::default()
    });
    state.store_conclusion(FunctionConclusionUpdate {
        function: "f".into(),
        notes: Some("two".into()),
        push_history: true,
        ..Default::default()
    });
    state.store_conclusion(FunctionConclusionUpdate {
        function: "f".into(),
        notes: Some("three".into()),
        push_history: true,
        ..Default::default()
    });
    let c = state.get_conclusion("f").unwrap();
    assert_eq!(c.notes, "three");
    let notes: Vec<&str> = c.conclusion_history.iter().map(|s| s.notes.as_str()).collect();
    assert_eq!(notes, vec!["one", "two"]);
}

#[test]
fn life_of_a_sandbox() {
    let mut state = SessionState::default();
    state.on_sandbox_created("f", None);
    for _ in 0..3 {
        state.on_annotation_added("f");
    }
    let c = state.get_conclusion("f").unwrap();
    assert!(!c.sandbox_clean && c.annotation_count == 3 && c.ast_stmt_count.is_none());
    state.on_sandbox_reset("f");
    let c = state.get_conclusion("f").unwrap();
    assert!(c.sandbox_clean && c.annotation_count == 0);
    state.on_sandbox_deleted("f");
    assert!(state.get_conclusion("f").unwrap().sandbox_deleted);
    state.on_sandbox_created("f", Some(4));
    let c = state.get_conclusion("f").unwrap();
    assert!(!c.sandbox_deleted && c.ast_stmt_count == Some(4));
    // Of a function without a conclusion nothing is noted.
    state.on_annotation_added("other");
    state.on_sandbox_deleted("other");
    assert!(state.get_conclusion("other").is_none());
}

#[test]
fn restored_conclusions_do_not_replace_new_ones() {
    let mut state = SessionState::default();
    let mut old = FunctionVerificationState::blank("f");
    old.notes = "old".into();
    state.restore_conclusion("f", old);
    assert_eq!(state.get_conclusion("f").unwrap().notes, "old");
    let mut older = FunctionVerificationState::blank("f");
    older.notes = "older".into();
    state.restore_conclusion("f", older);
    assert_eq!(state.get_conclusion("f").unwrap().notes, "old");
}

#[test]
fn submission_keeps_order_and_lock() {
    let mut state = SessionState::default();
    let group =
        SccGroup { id: 1, members: vec!["a".to_string()], level: 0, is_cycle: false };
    state.seed_order(vec!["a".to_string()], vec![group]);
    let mut submitted = ProjectVerificationState::default();
    submitted.verification_order = vec!["x".to_string()];
    submitted.current_level = 9;
    submitted.locked = true;
    submitted.global_notes = "mine".to_string();
    state.submit_project_state(submitted);
    let p = state.get_project_state().unwrap();
    assert_eq!(p.verification_order, vec!["a".to_string()]);
    assert_eq!(p.scc_groups.len(), 1);
    assert_eq!(p.current_level, 0);
    assert!(!p.locked);
    assert_eq!(p.global_notes, "mine");
}

#[test]
fn whole_project_state_is_replaced() {
    let mut state = SessionState::default();
    state.store_project_state(ProjectStateUpdate {
        global_notes: Some("old".to_string()),
        current_index: Some(4),
        ..Default::default()
    });
    let mut replacement = ProjectVerificationState::default();
    replacement.locked = true;
    replacement.current_level = 2;
    state.set_project_state_full(replacement);
    let p = state.get_project_state().unwrap();
    assert!(p.locked);
    assert_eq!((p.current_level, p.current_index, p.global_notes.as_str()), (2, 0, ""));
}
