//! The order of verification.

use frama_c_mcp_server::topo::{
    compute_ready_functions, compute_topological_order, flatten_levels_to_vo_scc, ReadyFunc,
};

fn names(r: &[ReadyFunc]) -> Vec<String> {
    r.iter().map(|x| x.function.clone()).collect()
}

fn defset(fs: &[&str]) -> Vec<String> {
    fs.iter().map(|s| s.to_string()).collect()
}

#[test]
fn ready_chain() {
    // a→b→c
    let vs: Vec<String> = vec!["a".into(), "b".into(), "c".into()];
    let es = vec![("a".into(), "b".into()), ("b".into(), "c".into())];
    assert_eq!(names(&compute_ready_functions(&vs, &es, &["c".into()], &[])), vec!["b"]);
    assert_eq!(
        names(&compute_ready_functions(&vs, &es, &["b".into(), "c".into()], &[])),
        vec!["a"]
    );
}

#[test]
fn flatten_vo_bottom_up_all_defined() {
    let vs: Vec<String> = vec!["a".into(), "b".into(), "c".into()];
    let es = vec![("a".into(), "b".into()), ("b".into(), "c".into())];
    let levels = compute_topological_order(&vs, &es).unwrap();
    let (vo, scc) = flatten_levels_to_vo_scc(&levels, &defset(&["a", "b", "c"]));
    assert_eq!(vo.len(), 3);
    let pos = |x: &str| vo.iter().position(|v| v == x).unwrap();
    assert!(pos("c") < pos("a"));
    assert_eq!(scc.len(), 3);
    assert!(scc.iter().all(|g| !g.is_cycle && g.members.len() == 1));
}

#[test]
fn flatten_excludes_declared_only() {
    let vs: Vec<String> = vec!["a".into(), "lib".into()];
    let es = vec![("a".into(), "lib".into())];
    let levels = compute_topological_order(&vs, &es).unwrap();
    let (vo, scc) = flatten_levels_to_vo_scc(&levels, &defset(&["a"]));
    assert_eq!(vo, vec!["a".to_string()]);
    assert!(scc.iter().all(|g| !g.members.contains(&"lib".to_string())));
}

#[test]
fn flatten_scc_level_carried() {
    let vs: Vec<String> = vec!["a".into(), "b".into(), "c".into()];
    let es = vec![
        ("a".into(), "b".into()),
        ("b".into(), "a".into()),
        ("a".into(), "c".into()),
    ];
    let levels = compute_topological_order(&vs, &es).unwrap();
    let (vo, scc) = flatten_levels_to_vo_scc(&levels, &defset(&["a", "b", "c"]));
    assert_eq!(vo.len(), 3);
    let cyc = scc.iter().find(|g| g.is_cycle).expect("a and b form a circle");
    let mut m = cyc.members.clone();
    m.sort();
    assert_eq!(m, vec!["a".to_string(), "b".to_string()]);
    let c_lvl = scc.iter().find(|g| g.members == vec!["c".to_string()]).unwrap().level;
    assert!(cyc.level > c_lvl);
}

#[test]
fn scc_single_self_loop_is_cycle() {
    let vs: Vec<String> = vec!["f".into(), "g".into()];
    let es = vec![("f".into(), "f".into()), ("g".into(), "f".into())];
    let levels = compute_topological_order(&vs, &es).unwrap();
    let (_vo, scc) = flatten_levels_to_vo_scc(&levels, &defset(&["f", "g"]));
    let fg = scc.iter().find(|g| g.members == vec!["f".to_string()]).expect("group of f");
    assert!(fg.is_cycle);
    let gg = scc.iter().find(|g| g.members == vec!["g".to_string()]).expect("group of g");
    assert!(!gg.is_cycle);
}

#[test]
fn ready_scc_not_grouped() {
    let vs: Vec<String> = vec!["a".into(), "b".into(), "c".into()];
    let es = vec![
        ("a".into(), "b".into()),
        ("b".into(), "a".into()),
        ("a".into(), "c".into()),
        ("b".into(), "c".into()),
    ];
    let r = compute_ready_functions(&vs, &es, &["c".into()], &[]);
    assert_eq!(names(&r), vec!["a", "b"]);
    assert!(r.iter().all(|x| x.is_cycle));
    assert!(r.iter().all(|x| x.scc_members == vec!["a".to_string(), "b".to_string()]));
}

#[test]
fn ready_in_progress_excluded() {
    let vs: Vec<String> = vec!["a".into(), "b".into(), "c".into()];
    let es = vec![("a".into(), "b".into()), ("b".into(), "c".into())];
    assert!(compute_ready_functions(&vs, &es, &["c".into()], &["b".into()]).is_empty());
}

#[test]
fn empty_graph() {
    let levels = compute_topological_order(&[], &[]).unwrap();
    assert!(levels.is_empty());
}

#[test]
fn single_function_no_edges() {
    let levels = compute_topological_order(&["foo".into()], &[]).unwrap();
    assert_eq!(levels.len(), 1);
    assert_eq!(levels[0].level, 0);
    assert_eq!(levels[0].groups.len(), 1);
    assert_eq!(levels[0].groups[0].members, vec!["foo".to_string()]);
    assert!(!levels[0].groups[0].is_cycle);
}

#[test]
fn linear_chain() {
    // foo → bar → baz: level 0 = baz, level 1 = bar, level 2 = foo
    let levels = compute_topological_order(
        &["foo".into(), "bar".into(), "baz".into()],
        &[("foo".into(), "bar".into()), ("bar".into(), "baz".into())],
    )
    .unwrap();
    assert_eq!(levels.len(), 3);
    assert_eq!(levels[0].groups.len(), 1);
    assert_eq!(levels[0].groups[0].members, vec!["baz".to_string()]);
    assert_eq!(levels[1].groups[0].members, vec!["bar".to_string()]);
    assert_eq!(levels[2].groups[0].members, vec!["foo".to_string()]);
}

#[test]
fn two_function_scc() {
    let levels = compute_topological_order(
        &["foo".into(), "bar".into()],
        &[("foo".into(), "bar".into()), ("bar".into(), "foo".into())],
    )
    .unwrap();
    assert_eq!(levels.len(), 1);
    assert_eq!(levels[0].groups.len(), 1);
    let g = &levels[0].groups[0];
    assert_eq!(g.members.len(), 2);
    assert!(g.is_cycle);
    assert!(g.members.contains(&"foo".to_string()));
    assert!(g.members.contains(&"bar".to_string()));
}

#[test]
fn self_recursion() {
    let levels =
        compute_topological_order(&["foo".into()], &[("foo".into(), "foo".into())]).unwrap();
    let g = &levels[0].groups[0];
    assert_eq!(g.members, vec!["foo".to_string()]);
    assert!(g.is_cycle, "size=1 SCC with self-loop must be is_cycle=true");
}

#[test]
fn three_function_scc_plus_caller() {
    let levels = compute_topological_order(
        &["a".into(), "b".into(), "c".into(), "d".into()],
        &[
            ("a".into(), "b".into()),
            ("b".into(), "c".into()),
            ("c".into(), "a".into()),
            ("d".into(), "a".into()),
        ],
    )
    .unwrap();
    assert_eq!(levels.len(), 2);
    let scc_group = &levels[0].groups[0];
    assert!(scc_group.is_cycle);
    assert_eq!(scc_group.members.len(), 3);
    assert_eq!(levels[1].groups[0].members, vec!["d".to_string()]);
}

#[test]
fn determinism() {
    let input_v = vec!["foo".into(), "bar".into(), "baz".into()];
    let input_e = vec![("foo".into(), "bar".into()), ("foo".into(), "baz".into())];
    let r1 = compute_topological_order(&input_v, &input_e).unwrap();
    let r2 = compute_topological_order(&input_v, &input_e).unwrap();
    let s1 = format!("{:?}", r1);
    let s2 = format!("{:?}", r2);
    assert_eq!(s1, s2);
}

#[test]
fn isolated_and_chain_mixed() {
    let levels = compute_topological_order(
        &["foo".into(), "bar".into(), "baz".into()],
        &[("bar".into(), "baz".into())],
    )
    .unwrap();
    assert_eq!(levels.len(), 2);
    let level_0_members: Vec<String> =
        levels[0].groups.iter().flat_map(|g| g.members.clone()).collect();
    assert!(level_0_members.contains(&"foo".to_string()));
    assert!(level_0_members.contains(&"baz".to_string()));
    assert_eq!(levels[1].groups[0].members, vec!["bar".to_string()]);
}

#[test]
fn repeated_names_and_unknown_edges() {
    let levels = compute_topological_order(
        &["f".into(), "g".into(), "f".into()],
        &[("f".into(), "g".into()), ("f".into(), "g".into()), ("f".into(), "nowhere".into())],
    )
    .unwrap();
    let (vo, _) = flatten_levels_to_vo_scc(&levels, &defset(&["f", "g"]));
    assert_eq!(vo, vec!["g".to_string(), "f".to_string()]);
}

#[test]
fn members_are_sorted_and_groups_numbered() {
    let levels = compute_topological_order(
        &["z".into(), "y".into(), "b".into(), "a".into(), "top".into()],
        &[("z".into(), "b".into()), ("b".into(), "z".into()), ("top".into(), "z".into())],
    )
    .unwrap();
    assert_eq!(levels.len(), 2);
    let groups: Vec<_> = levels.iter().flat_map(|l| l.groups.iter()).collect();
    let ids: Vec<u32> = groups.iter().map(|g| g.id).collect();
    assert_eq!(ids, vec![0, 1, 2, 3]);
    let circle = groups.iter().find(|g| g.is_cycle).unwrap();
    assert_eq!(circle.members, defset(&["b", "z"]));
    assert_eq!(levels[1].groups[0].members, defset(&["top"]));
}

#[test]
fn functions_that_call_in_a_circle_report_it() {
    let vs: Vec<String> = vec!["b".into(), "a".into(), "c".into()];
    let es = vec![("a".into(), "b".into()), ("b".into(), "a".into())];
    let r = compute_ready_functions(&vs, &es, &[], &[]);
    assert_eq!(names(&r), vec!["a", "b", "c"]);
    assert_eq!(r[0].scc_id, r[1].scc_id);
    assert!(r[0].scc_id.is_some());
    assert_eq!(r[2].scc_id, None);
    assert_eq!(r[2].scc_members, vec!["c".to_string()]);
}

#[test]
fn work_goes_on_until_all_is_done() {
    let vs: Vec<String> = defset(&["main", "p", "q", "leaf", "alone"]);
    let es: Vec<(String, String)> = vec![
        ("main".into(), "p".into()),
        ("p".into(), "q".into()),
        ("q".into(), "p".into()),
        ("q".into(), "leaf".into()),
    ];
    let mut done: Vec<String> = Vec::new();
    while done.len() < vs.len() {
        let ready = names(&compute_ready_functions(&vs, &es, &done, &[]));
        assert!(!ready.is_empty());
        done.push(ready[0].clone());
    }
    assert_eq!(done, defset(&["alone", "leaf", "p", "main", "q"]));
    assert!(compute_ready_functions(&vs, &es, &done, &[]).is_empty());
}

/// The groups of a layout, level by level, without their numbers.
fn shape(vs: &[String], es: &[(String, String)]) -> Vec<Vec<(Vec<String>, bool)>> {
    let mut levels = Vec::new();
    for level in compute_topological_order(vs, es).unwrap() {
        let mut groups: Vec<(Vec<String>, bool)> =
            level.groups.iter().map(|g| (g.members.clone(), g.is_cycle)).collect();
        groups.sort();
        levels.push(groups);
    }
    levels
}

fn calls(pairs: &[(&str, &str)]) -> Vec<(String, String)> {
    pairs.iter().map(|(a, b)| (a.to_string(), b.to_string())).collect()
}

#[test]
fn layout_depends_on_the_graph_alone() {
    let vs = defset(&["a", "b", "c", "d", "e"]);
    let es = calls(&[("a", "b"), ("b", "a"), ("b", "c"), ("d", "c"), ("e", "e"), ("d", "a")]);
    let expected = shape(&vs, &es);
    assert_eq!(
        expected,
        vec![
            vec![(defset(&["c"]), false), (defset(&["e"]), true)],
            vec![(defset(&["a", "b"]), true)],
            vec![(defset(&["d"]), false)],
        ]
    );
    // Another order, repetitions, and calls of functions that are not listed.
    let vs = defset(&["e", "d", "c", "b", "a", "c", "e"]);
    let es = calls(&[
        ("d", "a"),
        ("e", "e"),
        ("d", "printf"),
        ("d", "c"),
        ("b", "c"),
        ("b", "a"),
        ("a", "b"),
        ("main", "d"),
        ("a", "b"),
    ]);
    assert_eq!(shape(&vs, &es), expected);
}

#[test]
fn flattened_groups_stand_together_by_level() {
    let vs = defset(&["main", "z", "f", "g", "lib", "h", "a"]);
    let es = calls(&[
        ("main", "f"),
        ("f", "g"),
        ("g", "f"),
        ("g", "h"),
        ("f", "lib"),
        ("main", "z"),
        ("z", "a"),
    ]);
    let defined = defset(&["main", "z", "f", "g", "h", "a"]);
    let levels = compute_topological_order(&vs, &es).unwrap();
    let (vo, scc) = flatten_levels_to_vo_scc(&levels, &defined);
    let in_turn: Vec<String> = scc.iter().flat_map(|g| g.members.clone()).collect();
    assert_eq!(vo, in_turn);
    let by_level: Vec<usize> = scc.iter().map(|g| g.level).collect();
    assert_eq!(by_level, vec![0, 0, 1, 1, 2]);
    let f = vo.iter().position(|v| v == "f").unwrap();
    assert_eq!(vo[f + 1], "g");
    assert_eq!(vo[5], "main");
}
