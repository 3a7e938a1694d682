//! ACSL clauses as text.

use frama_c_mcp_server::json::Json;
use frama_c_mcp_server::mcp::acsl::{
    acsl_kind_to_ast_kind, classify_failure, classify_wp_goal, comparison_key, full_label,
    generate_hash_label,
    hash_label, normalize_acsl, normalize_for_comparison, strip_leading_keyword,
    wrap_funspec_clause, wrap_loop_clause, Behavior, FailureType,
};

fn json(text: &str) -> Json {
    Json::parse(text).unwrap()
}

fn make_behaviors(pairs: &[(&str, &[&str])]) -> Vec<Behavior> {
    pairs
        .iter()
        .map(|(name, assumes)| Behavior {
            name: name.to_string(),
            assumes: assumes.iter().map(|s| s.to_string()).collect(),
        })
        .collect()
}

#[test]
fn classify_rte_overflow() {
    let g = json(r#"{"name": "signed_overflow at line 12"}"#);
    let (kind, hl) = classify_wp_goal(&g);
    assert_eq!(kind, "rte_overflow");
    assert!(hl.is_none());
}

#[test]
fn classify_rte_bound() {
    let g = json(r#"{"name": "index_in_bound at line 7"}"#);
    let (kind, _) = classify_wp_goal(&g);
    assert_eq!(kind, "rte_bound");
}

#[test]
fn classify_rte_division() {
    let g = json(r#"{"name": "division_by_zero"}"#);
    let (kind, _) = classify_wp_goal(&g);
    assert_eq!(kind, "rte_division");
}

#[test]
fn classify_rte_pointer() {
    let g = json(r#"{"name": "mem_access of *p"}"#);
    let (kind, _) = classify_wp_goal(&g);
    assert_eq!(kind, "rte_pointer");
}

#[test]
fn classify_rte_shift() {
    let g = json(r#"{"name": "shift overflow"}"#);
    let (kind, _) = classify_wp_goal(&g);
    assert_eq!(kind, "rte_shift");
}

#[test]
fn classify_user_assert() {
    let g = json(r#"{"name": "Assertion at stmt 42"}"#);
    let (kind, hl) = classify_wp_goal(&g);
    assert_eq!(kind, "user_assert");
    assert!(hl.is_none());
}

#[test]
fn classify_spec_with_hash_label() {
    let g = json(r#"{"name": "Pre re_a3f2b1c8"}"#);
    let (kind, hl) = classify_wp_goal(&g);
    assert_eq!(kind, "spec");
    assert_eq!(hl, Some("re_a3f2b1c8".to_string()));
}

#[test]
fn classify_spec_without_hash_label() {
    let g = json(r#"{"name": "Pre <some predicate>"}"#);
    let (kind, hl) = classify_wp_goal(&g);
    assert_eq!(kind, "spec");
    assert!(hl.is_none());
}

#[test]
fn classify_loop_invariant_with_hash_label() {
    let g = json(r#"{"name": "Invariant li_12ab34cd at stmt 42"}"#);
    let (kind, hl) = classify_wp_goal(&g);
    assert_eq!(kind, "spec");
    assert_eq!(hl, Some("li_12ab34cd".to_string()));
}

#[test]
fn normalize_acsl_adds_semicolon() {
    assert_eq!(normalize_acsl("n >= 0"), "n >= 0;");
}

#[test]
fn normalize_acsl_strips_extra_semicolons() {
    assert_eq!(normalize_acsl("n >= 0;"), "n >= 0;");
    assert_eq!(normalize_acsl("n >= 0;;"), "n >= 0;");
}

#[test]
fn normalize_acsl_trims_whitespace() {
    assert_eq!(normalize_acsl("  n >= 0  ;  "), "n >= 0;");
}

#[test]
fn normalize_acsl_empty_string() {
    assert_eq!(normalize_acsl(""), ";");
    assert_eq!(normalize_acsl("  ;  "), ";");
}

#[test]
fn wrap_funspec_clause_top_level() {
    let b = make_behaviors(&[]);
    let r = wrap_funspec_clause("requires", "n >= 0", None, &b, "proposed_requires[0]").unwrap();
    assert_eq!(r, "requires n >= 0;");
}

#[test]
fn wrap_funspec_clause_strips_trailing_semicolon() {
    let b = make_behaviors(&[]);
    let r = wrap_funspec_clause("ensures", "\\result == 0;", None, &b, "p").unwrap();
    assert_eq!(r, "ensures \\result == 0;");
}

#[test]
fn wrap_funspec_clause_with_behavior_no_assumes() {
    // Behavior declared with empty assumes list — still valid (named behavior, always applies).
    let b = make_behaviors(&[("sorted", &[])]);
    let r = wrap_funspec_clause("ensures", "\\result == 0", Some("sorted"), &b, "p").unwrap();
    assert_eq!(r, "behavior sorted: ensures \\result == 0;");
}

#[test]
fn wrap_funspec_clause_with_behavior_and_assumes() {
    let b = make_behaviors(&[("sorted", &["n >= 2", "a != \\null"])]);
    let r = wrap_funspec_clause("assigns", "a[0..n-1]", Some("sorted"), &b, "p").unwrap();
    assert_eq!(r, "behavior sorted: assumes n >= 2; assumes a != \\null; assigns a[0..n-1];");
}

#[test]
fn wrap_funspec_clause_undeclared_behavior_errors() {
    let b = make_behaviors(&[("known", &["n > 0"])]);
    let err =
        wrap_funspec_clause("requires", "p != \\null", Some("unknown"), &b, "proposed_requires[3]")
            .expect_err("undeclared behavior should error");
    assert!(err.contains("'unknown'"), "got: {}", err);
    assert!(err.contains("proposed_requires[3]"), "got: {}", err);
    assert!(err.contains("not declared in proposed_behaviors"), "got: {}", err);
}

#[test]
fn wrap_loop_clause_top_level() {
    let b = make_behaviors(&[]);
    let r = wrap_loop_clause("loop invariant", "0 <= i", None, &b, "p").unwrap();
    assert_eq!(r, "loop invariant 0 <= i;");
}

#[test]
fn wrap_loop_clause_with_behavior() {
    // Loop clauses use `for X: ...` syntax (NOT `behavior X: assumes ...; loop ...`)
    // — the behavior's assumes live in the funspec, the loop just references the name.
    let b = make_behaviors(&[("pos", &["n > 0"])]);
    let r = wrap_loop_clause("loop assigns", "a, i", Some("pos"), &b, "p").unwrap();
    assert_eq!(r, "for pos: loop assigns a, i;");
}

#[test]
fn wrap_loop_clause_undeclared_behavior_errors() {
    let b = make_behaviors(&[]);
    let err = wrap_loop_clause(
        "loop variant",
        "n - i",
        Some("missing"),
        &b,
        "proposed_loop_annots[0].variant",
    )
    .expect_err("undeclared should error");
    assert!(err.contains("'missing'"));
    assert!(err.contains("proposed_loop_annots[0].variant"));
}

#[test]
fn wrap_funspec_clause_strips_leading_keyword() {
    let b = make_behaviors(&[]);
    let r = wrap_funspec_clause("requires", "requires x < 2147483647;", None, &b, "p").unwrap();
    assert_eq!(r, "requires x < 2147483647;");
    let e = wrap_funspec_clause("ensures", "ensures \\result == x + 1;", None, &b, "p").unwrap();
    assert_eq!(e, "ensures \\result == x + 1;");
}

#[test]
fn wrap_funspec_clause_bare_unchanged() {
    let b = make_behaviors(&[]);
    let r = wrap_funspec_clause("requires", "x < 2147483647", None, &b, "p").unwrap();
    assert_eq!(r, "requires x < 2147483647;");
    let a = wrap_funspec_clause("assigns", "\\nothing", None, &b, "p").unwrap();
    assert_eq!(a, "assigns \\nothing;");
}

#[test]
fn wrap_funspec_clause_keyword_prefix_variable_not_stripped() {
    let b = make_behaviors(&[]);
    let r = wrap_funspec_clause("requires", "requires_foo > 0", None, &b, "p").unwrap();
    assert_eq!(r, "requires requires_foo > 0;");
}

#[test]
fn strip_leading_keyword_idempotent() {
    let once = strip_leading_keyword("requires x < 2;", "requires");
    assert_eq!(once, "x < 2;");
    let twice = strip_leading_keyword(&once, "requires");
    assert_eq!(twice, "x < 2;");
}

#[test]
fn wrap_loop_clause_strips_leading_keyword() {
    let b = make_behaviors(&[]);
    let r = wrap_loop_clause("loop invariant", "loop invariant 0 <= i", None, &b, "p").unwrap();
    assert_eq!(r, "loop invariant 0 <= i;");
}

#[test]
fn classify_failure_syntax_error() {
    assert!(matches!(classify_failure("syntax error in ACSL"), FailureType::SyntaxError));
    assert!(matches!(classify_failure("parse error: unexpected token"), FailureType::SyntaxError));
    assert!(matches!(classify_failure("unexpected identifier 'foo'"), FailureType::SyntaxError));
}

#[test]
fn classify_failure_self_referential() {
    assert!(matches!(
        classify_failure("unbound logic variable 'factorial'"),
        FailureType::ProposedSelfReferential
    ));
    assert!(matches!(
        classify_failure("unbound logic predicate unknown_pred"),
        FailureType::ProposedSelfReferential
    ));
    assert!(matches!(
        classify_failure("unbound logic function f"),
        FailureType::ProposedSelfReferential
    ));
    assert!(matches!(
        classify_failure("Unbound variable foo"),
        FailureType::ProposedSelfReferential
    ));
    assert!(matches!(
        classify_failure("no such enum E"),
        FailureType::ProposedSelfReferential
    ));
    assert!(matches!(
        classify_failure("no such predicate or logic function P(int)"),
        FailureType::ProposedSelfReferential
    ));
    assert!(matches!(
        classify_failure("logic label `L' not found"),
        FailureType::ProposedSelfReferential
    ));
    assert!(matches!(
        classify_failure("cannot find field x"),
        FailureType::ProposedSelfReferential
    ));
    assert!(matches!(
        classify_failure("reference to unknown behavior b"),
        FailureType::ProposedSelfReferential
    ));
    assert!(matches!(
        classify_failure("unknown identifier '\\permutation'"),
        FailureType::ProposedSelfReferential
    ));
    assert!(matches!(
        classify_failure("undeclared type 'my_type'"),
        FailureType::ProposedSelfReferential
    ));
}

#[test]
fn classify_failure_local_var_in_funspec() {
    assert!(matches!(
        classify_failure(
            "Variable 'i' is a function local; ACSL function-level contracts \
             may only reference caller-visible state (formals, globals, \
             \\result, \\old(formal)). Replace with the caller-visible state \
             being modified."
        ),
        FailureType::ProposedLocalVarInFunspec
    ));
}

#[test]
fn classify_failure_proposed_error() {
    assert!(matches!(
        classify_failure("comparison of incompatible types: int * and ℤ"),
        FailureType::ProposedError
    ));
    assert!(matches!(classify_failure("behavior b already defined"), FailureType::ProposedError));
    assert!(matches!(
        classify_failure("not an assignable left value: n + 1"),
        FailureType::ProposedError
    ));
    assert!(matches!(classify_failure("type mismatch in expression"), FailureType::ProposedError));
    assert!(matches!(classify_failure("some other error"), FailureType::ProposedError));
}

#[test]
fn normalize_for_comparison_strips_hash_label() {
    let with_label = "requires \\valid(a + (0 .. n - 1)), re_a3f2b1c8";
    let result = normalize_for_comparison(with_label);
    assert!(result.contains("\\valid"));
    assert!(!result.contains("re_a3f2b1c8"));
}

#[test]
fn acsl_kind_to_ast_kind_mapping() {
    // Function-level → "spec"
    assert_eq!(acsl_kind_to_ast_kind("requires P;"), "spec");
    assert_eq!(acsl_kind_to_ast_kind("ensures Q;"), "spec");
    assert_eq!(acsl_kind_to_ast_kind("assigns \\nothing;"), "spec");
    assert_eq!(acsl_kind_to_ast_kind("behavior foo:"), "spec");
    // Statement-level → "annot"
    assert_eq!(acsl_kind_to_ast_kind("loop invariant P;"), "annot");
    assert_eq!(acsl_kind_to_ast_kind("loop assigns a;"), "annot");
    assert_eq!(acsl_kind_to_ast_kind("loop variant e;"), "annot");
    assert_eq!(acsl_kind_to_ast_kind("assert x > 0;"), "annot");
}

#[test]
fn full_label_without_user_label() {
    assert_eq!(full_label("re_a3f2b1c8", None), "re_a3f2b1c8");
}

#[test]
fn full_label_with_user_label() {
    assert_eq!(full_label("as_af0e6de7", Some("assigns")), "as_af0e6de7_assigns");
}

#[test]
fn full_label_matches_add_annotation_impl_construction() {
    let hash_label = "li_44f10e5e";
    // Without user_label
    let inline = match None as Option<&str> {
        Some(ul) => format!("{}_{}", hash_label, ul),
        None => hash_label.to_string(),
    };
    assert_eq!(full_label(hash_label, None), inline);
    // With user_label
    let inline = match Some("assigns") as Option<&str> {
        Some(ul) => format!("{}_{}", hash_label, ul),
        None => hash_label.to_string(),
    };
    assert_eq!(full_label(hash_label, Some("assigns")), inline);
}

#[test]
fn full_label_rollback_would_find_assigns_behavior() {
    let hash_label = "as_af0e6de7";
    let user_label = Some("assigns");
    // The behavior name that the plugin creates:
    let behavior_name = format!("{}_{}__spec", hash_label, user_label.unwrap());
    assert_eq!(behavior_name, "as_af0e6de7_assigns__spec");
    // The rollback label (must match the full_label, not just hash_label):
    let rollback_label = full_label(hash_label, user_label);
    assert_eq!(rollback_label, "as_af0e6de7_assigns");
    let search_name = format!("{}__spec", rollback_label);
    assert_eq!(search_name, behavior_name);
    // The hash label alone would not find it:
    let short_search = format!("{}__spec", hash_label);
    assert_ne!(short_search, behavior_name);
}

#[test]
fn hash_labels_by_kind() {
    assert_eq!(hash_label("requires", 0xa3f2b1c8), "re_a3f2b1c8");
    assert_eq!(hash_label("ensures", 1), "en_00000001");
    assert_eq!(hash_label("assigns", 0), "as_00000000");
    assert_eq!(hash_label("loop_invariant", u32::MAX), "li_ffffffff");
    assert_eq!(hash_label("loop_assigns", 16), "la_00000010");
    assert_eq!(hash_label("loop_variant", 255), "lv_000000ff");
    assert_eq!(hash_label("assert", 2), "at_00000002");
    assert_eq!(hash_label("spec", 3), "an_00000003");
}

#[test]
fn drawn_labels_have_the_shape_and_differ() {
    let a = generate_hash_label("requires");
    assert!(a.starts_with("re_"));
    assert_eq!(a.len(), 11);
    assert!(a[3..].chars().all(|c| c.is_ascii_hexdigit() && !c.is_ascii_uppercase()));
    let others: Vec<String> = (0..20).map(|_| generate_hash_label("requires")).collect();
    assert!(others.iter().any(|b| *b != a));
}

#[test]
fn goal_label_is_found_as_a_word() {
    // A label inside another word is no label.
    let (kind, hl) = classify_wp_goal(&json(r#"{"name": "Post xre_a3f2b1c8"}"#));
    assert_eq!((kind.as_str(), hl), ("spec", None));
    // Nothing but a name: a specification goal without a label.
    let (kind, hl) = classify_wp_goal(&json("{}"));
    assert_eq!((kind.as_str(), hl), ("spec", None));
    // The kind of a run-time error comes before the label.
    let (kind, hl) = classify_wp_goal(&json(r#"{"name": "Signed_Overflow re_a3f2b1c8"}"#));
    assert_eq!((kind.as_str(), hl), ("rte_overflow", None));
}

#[test]
fn comparison_ignores_labels_and_spacing() {
    let a = normalize_for_comparison("requires n >= 0;");
    let b = normalize_for_comparison("requires n >= 0, re_a3f2b1c8;");
    assert_eq!(a, b);
    let c = normalize_for_comparison("assigns a, as_0011aabb");
    assert!(!c.contains("as_0011aabb"));
    // A user label is stripped with the hash label, up to the semicolon.
    assert_eq!(normalize_for_comparison("requires n >= 0, re_a3f2b1c8, size; "), "requires n >= 0");
}

#[test]
fn comparison_sees_every_part_of_a_behavior() {
    let p = normalize_for_comparison("behavior b: assumes n > 0; requires p > 0;");
    let q = normalize_for_comparison("behavior b: assumes n > 0; requires q > 0;");
    assert_ne!(p, q);
    assert_eq!(p, "behavior b: assumes n > 0; requires p > 0");
    // A label in the middle leaves what stands behind the next semicolon.
    let l = "behavior b: assumes n > 0, re_a3f2b1c8, size; requires q > 0;";
    assert_eq!(normalize_for_comparison(l), q);
}

#[test]
fn comparison_key_on_stripped_text() {
    assert_eq!(comparison_key("  ensures x; \n"), "ensures x");
    assert_eq!(comparison_key("a; b ; ;"), "a; b");
    assert_eq!(comparison_key(" ; "), "");
    for clause in ["  ensures x; ", "a; b ; ;", "", "requires p"] {
        assert_eq!(comparison_key(&normalize_acsl(clause)), comparison_key(clause));
    }
}

#[test]
fn normal_form_is_stable_on_a_clause() {
    let once = normalize_acsl("  requires P ; ; ");
    assert_eq!(once, "requires P;");
    assert_eq!(normalize_acsl(&once), once);
}

#[test]
fn repeated_keyword_is_stripped_once_at_a_time() {
    assert_eq!(strip_leading_keyword("requires requires x", "requires"), "requires x");
    assert_eq!(strip_leading_keyword("requires x", "requires"), "x");
}

#[test]
fn named_loop_clauses_belong_to_statements() {
    assert_eq!(acsl_kind_to_ast_kind("for pos: loop invariant P;"), "annot");
    assert_eq!(acsl_kind_to_ast_kind("for pos: assert P;"), "annot");
    assert_eq!(acsl_kind_to_ast_kind("LOOP INVARIANT P;"), "annot");
}

#[test]
fn last_declaration_of_a_behavior_counts() {
    let b = make_behaviors(&[("k", &["n > 0"]), ("k", &["n > 1"])]);
    let r = wrap_funspec_clause("ensures", "P", Some("k"), &b, "p").unwrap();
    assert_eq!(r, "behavior k: assumes n > 1; ensures P;");
}

#[test]
fn keyword_in_a_body_changes_nothing() {
    for body in ["n > 0", "n > 0;", " n > 0 ; ", "", "requires_foo(x)"] {
        let bare = wrap_funspec_clause("requires", body, None, &[], "p").unwrap();
        for borne in [format!("requires {}", body), format!("requires {};", body)] {
            assert_eq!(wrap_funspec_clause("requires", &borne, None, &[], "p").unwrap(), bare);
        }
        let bare = wrap_loop_clause("loop invariant", body, None, &[], "p").unwrap();
        let borne = format!("loop invariant {};", body);
        assert_eq!(wrap_loop_clause("loop invariant", &borne, None, &[], "p").unwrap(), bare);
    }
    // Semicolons in two places before white space: one more is taken off the bare body.
    assert_eq!(wrap_funspec_clause("requires", "x; ; ", None, &[], "p").unwrap(), "requires x;");
    assert_eq!(
        wrap_funspec_clause("requires", "requires x; ; ;", None, &[], "p").unwrap(),
        "requires x;;"
    );
}
