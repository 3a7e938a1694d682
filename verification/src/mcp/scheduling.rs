//! In which order functions are verified, and which are ready now.

use vstd::prelude::*;
use vstd::string::*;

use crate::components;
use crate::error::McpError;
use crate::json::{Json, JsonView};
use crate::mcp::inspect;
use crate::mcp::inspect::{order_report, ready_report};
use crate::mcp::process::internal_error;
use crate::mcp::reports;
use crate::mcp::types::GetReadyFunctionsParams;
use crate::state;
use crate::state::call_graph;
use crate::state::project::{GroupView, Level};
use crate::state::{CallVertexView, SessionState};
use crate::text;
use crate::topo;
use crate::topo::laws;
use crate::topo::{
    ReadyFunc, TopoError, compute_ready_functions, compute_topological_order,
    flatten_levels_to_vo_scc,
};

verus! {

/// The functions of the call graph, each once.
pub open spec fn graph_names(s: SessionState) -> Seq<Seq<char>> {
    topo::distinct(state::vertex_names(s.callgraph_vertices.deep_view()))
}

/// The calls between the functions of the call graph, by their places.
pub open spec fn graph_calls(s: SessionState) -> Seq<(usize, usize)> {
    topo::call_edges(
        graph_names(s),
        state::named_edges(s.callgraph_edges.deep_view(), s.callgraph_vertices.deep_view()),
    )
}

/// The levels are those of the call graph, counted from the leaves.
pub open spec fn are_levels(s: SessionState, levels: Seq<Level>) -> bool {
    let names = graph_names(s);
    let calls = graph_calls(s);
    let comps = components::condensation_order(names.len(), calls);
    if names.len() == 0 {
        levels.len() == 0
    } else {
        &&& components::are_components(comps, names.len(), calls)
        &&& topo::is_layout(levels, names, calls, comps)
    }
}

/// The names are those of the functions that have a body.
pub open spec fn are_defined(s: SessionState, names: Seq<Seq<char>>) -> bool {
    forall|x: Seq<char>| #[trigger]
        names.contains(x) <==> s.functions@.contains_key(x) && s.functions@[x].defined
}

/// The order and its groups go from the bottom up along the calls that were reported
/// of the program, of whatever kind: see [`laws::is_bottom_up`].
pub open spec fn goes_bottom_up(
    s: SessionState,
    order: Seq<Seq<char>>,
    groups: Seq<GroupView>,
) -> bool {
    let vertices = s.callgraph_vertices.deep_view();
    exists|calls: Seq<(Seq<char>, Seq<char>)>|
        {
            &&& #[trigger] call_graph::are_the_calls(
                s.callgraph_edges.deep_view(),
                vertices,
                calls,
            )
            &&& laws::is_bottom_up(
                vertices.map_values(|v: CallVertexView| v.name),
                calls,
                Set::new(
                    |x: Seq<char>| s.functions@.contains_key(x) && s.functions@[x].defined,
                ),
                order,
                groups,
            )
        }
}

/// The functions that have a body are ordered along the calls that were reported:
/// every call counts, whatever its kind, and nothing else does.
pub proof fn order_follows_the_reported_calls(
    s: SessionState,
    levels: Seq<Level>,
    defined: Seq<Seq<char>>,
)
    requires
        are_levels(s, levels),
        are_defined(s, defined),
    ensures
        goes_bottom_up(
            s,
            topo::verification_order(levels, defined),
            topo::flat_groups(levels, defined),
        ),
{
    let vertices = s.callgraph_vertices.deep_view();
    let edges = s.callgraph_edges.deep_view();
    let calls = state::named_edges(edges, vertices);
    let names = state::vertex_names(vertices);
    assert(names =~= vertices.map_values(|v: CallVertexView| v.name));
    assert(names.len() == s.callgraph_vertices@.len());
    assert(s.callgraph_vertices@.len() == s.callgraph_vertices.len());
    call_graph::every_call_is_taken(edges, vertices);
    let wanted = Set::new(
        |x: Seq<char>| s.functions@.contains_key(x) && s.functions@[x].defined,
    );
    assert(topo::lays_out(levels, names, calls));
    laws::flattened_levels_go_bottom_up(names, calls, levels, defined, wanted);
    assert(call_graph::are_the_calls(edges, vertices, calls));
}

/// For each call that was reported, whatever its kind, between two functions that
/// have a body: unless calls lead back from the one that is called, it comes first,
/// and its group is on a lower level.
pub proof fn callees_are_verified_first(
    s: SessionState,
    order: Seq<Seq<char>>,
    groups: Seq<GroupView>,
    i: int,
    caller: Seq<char>,
    callee: Seq<char>,
    calls: Seq<(Seq<char>, Seq<char>)>,
    p: int,
    q: int,
)
    requires
        goes_bottom_up(s, order, groups),
        0 <= i < s.callgraph_edges@.len(),
        call_graph::is_name_of(
            s.callgraph_vertices.deep_view(),
            s.callgraph_edges@[i].src@,
            caller,
        ),
        call_graph::is_name_of(
            s.callgraph_vertices.deep_view(),
            s.callgraph_edges@[i].dst@,
            callee,
        ),
        call_graph::are_the_calls(
            s.callgraph_edges.deep_view(),
            s.callgraph_vertices.deep_view(),
            calls,
        ),
        !laws::calls_lead(
            s.callgraph_vertices.deep_view().map_values(|v: CallVertexView| v.name),
            calls,
            callee,
            caller,
        ),
        0 <= p < groups.len(),
        0 <= q < groups.len(),
        groups[p].members.contains(caller),
        groups[q].members.contains(callee),
    ensures
        topo::comes_before(order, callee, caller),
        groups[q].level < groups[p].level,
{
    let vertices = s.callgraph_vertices.deep_view();
    let edges = s.callgraph_edges.deep_view();
    let names = vertices.map_values(|v: CallVertexView| v.name);
    let wanted = Set::new(
        |x: Seq<char>| s.functions@.contains_key(x) && s.functions@[x].defined,
    );
    let own = choose|own: Seq<(Seq<char>, Seq<char>)>|
        {
            &&& #[trigger] call_graph::are_the_calls(edges, vertices, own)
            &&& laws::is_bottom_up(names, own, wanted, order, groups)
        };
    assert(edges[i].src == s.callgraph_edges@[i].src@);
    assert(call_graph::is_call(edges, vertices, caller, callee));
    assert(own.contains((caller, callee)));
    assert forall|a: Seq<char>, b: Seq<char>| #[trigger] own.contains((a, b)) implies calls.contains(
        (a, b),
    ) by {
        assert(call_graph::is_call(edges, vertices, a, b));
    }
    if laws::calls_lead(names, own, callee, caller) {
        laws::more_calls_lead_further(names, own, calls, callee, caller);
    }
}

/// Orders the functions that have a body so that each comes after those it calls,
/// keeps the order with the project, and reports it.
pub fn order_functions(session: &mut SessionState) -> (r: Result<Json, McpError>)
    requires
        old(session).callgraph_vertices@.len() < u32::MAX,
        old(session).callgraph_edges@.len() < u32::MAX,
    ensures
        r is Ok,
        final(session).project_state is Some,
        exists|levels: Seq<Level>, defined: Seq<Seq<char>>|
            {
                let p = final(session).project_state->0;
                &&& #[trigger] are_levels(*old(session), levels)
                &&& #[trigger] are_defined(*old(session), defined)
                &&& text::texts(p.verification_order@) == topo::verification_order(levels, defined)
                &&& topo::group_views(p.scc_groups@) == topo::flat_groups(levels, defined)
                &&& old(session).seeds_order(p)
                &&& r->Ok_0@ == inspect::order_body(
                    topo::verification_order(levels, defined),
                    topo::flat_groups(levels, defined),
                )
            },
        ({
            let p = final(session).project_state->0;
            goes_bottom_up(
                *old(session),
                text::texts(p.verification_order@),
                topo::group_views(p.scc_groups@),
            )
        }),
        *final(session) == (SessionState {
            project_state: final(session).project_state,
            ..*old(session)
        }),
{
    let (vertices, edges) = session.call_graph();
    let defined = session.defined_functions();
    assert(are_defined(*session, text::texts(defined@)));
    match compute_topological_order(vertices.as_slice(), edges.as_slice()) {
        Ok(levels) => {
            assert(are_levels(*session, levels@));
            proof {
                order_follows_the_reported_calls(*session, levels@, text::texts(defined@));
            }
            let (order, groups) = flatten_levels_to_vo_scc(levels.as_slice(), defined.as_slice());
            let report = order_report(order.as_slice(), groups.as_slice());
            session.seed_order(order, groups);
            Ok(report)
        },
        Err(TopoError::Internal(e)) => Err(internal_error("topo: ".to_owned().concat(e.as_str()))),
    }
}

/// The order of verification holds the functions of the call graph that have a body,
/// each once, and no other. A function comes after each function that it calls, but
/// for those that call it back.
pub proof fn order_is_bottom_up(s: SessionState, levels: Seq<Level>, defined: Seq<Seq<char>>)
    requires
        are_levels(s, levels),
    ensures
        ({
            let order = topo::verification_order(levels, defined);
            let names = graph_names(s);
            let edges = state::named_edges(
                s.callgraph_edges.deep_view(),
                s.callgraph_vertices.deep_view(),
            );
            &&& order.no_duplicates()
            &&& forall|x: Seq<char>| #[trigger]
                order.contains(x) <==> names.contains(x) && defined.contains(x)
            &&& forall|caller: Seq<char>, callee: Seq<char>| #[trigger]
                edges.contains((caller, callee)) && defined.contains(caller) && defined.contains(
                    callee,
                ) && !components::mutual(
                    graph_calls(s),
                    names.index_of(caller) as usize,
                    names.index_of(callee) as usize,
                ) ==> topo::comes_before(order, callee, caller)
        }),
{
    let vertices = s.callgraph_vertices.deep_view();
    let edges = state::named_edges(s.callgraph_edges.deep_view(), vertices);
    let names = graph_names(s);
    let calls = graph_calls(s);
    let comps = components::condensation_order(names.len(), calls);
    topo::lemma_distinct(state::vertex_names(vertices));
    assert(names.len() <= usize::MAX) by {
        assert(vertices.len() == s.callgraph_vertices@.len());
        assert(s.callgraph_vertices@.len() <= usize::MAX) by {
            assert(s.callgraph_vertices@.len() == s.callgraph_vertices.len());
        }
    }
    if names.len() > 0 {
        topo::order_has_no_repetition(levels, names, calls, comps, defined);
        topo::order_is_complete(levels, names, calls, comps, defined);
    }
    assert forall|caller: Seq<char>, callee: Seq<char>| #[trigger]
        edges.contains((caller, callee)) && defined.contains(caller) && defined.contains(callee)
            && !components::mutual(
            calls,
            names.index_of(caller) as usize,
            names.index_of(callee) as usize,
        ) implies topo::comes_before(topo::verification_order(levels, defined), callee, caller) by {
        state::lemma_named_edges(s.callgraph_edges.deep_view(), vertices, caller, callee);
        assert(names.contains(caller) && names.contains(callee));
        topo::lemma_named_edge(names, edges, caller, callee);
        topo::callees_come_first(
            levels,
            names,
            calls,
            comps,
            defined,
            names.index_of(caller) as usize,
            names.index_of(callee) as usize,
        );
    }
}

/// The entries are the functions that are ready, in the order of their names.
pub open spec fn are_ready(
    s: SessionState,
    done: Seq<Seq<char>>,
    in_progress: Seq<Seq<char>>,
    entries: Seq<ReadyFunc>,
) -> bool {
    let names = graph_names(s);
    let calls = graph_calls(s);
    let order = components::tarjan_order(names.len(), calls);
    &&& components::are_components(order, names.len(), calls)
    &&& text::ordered(topo::functions_of(entries))
    &&& topo::functions_of(entries).to_multiset() == topo::ready_names(
        state::vertex_names(s.callgraph_vertices.deep_view()),
        names,
        calls,
        done,
        in_progress,
    ).to_multiset()
    &&& forall|k: int|
        0 <= k < entries.len() ==> topo::is_entry(
            #[trigger] entries[k],
            names,
            calls,
            order,
            names.index_of(entries[k].function@) as usize,
        )
}

/// The report names the functions of the call graph that can start, and no others: those
/// that are neither done nor under way, and to whose callees, by calls of whatever kind,
/// applies that they are done or lead back by calls.
pub open spec fn names_those_that_can_start(
    s: SessionState,
    done: Seq<Seq<char>>,
    in_progress: Seq<Seq<char>>,
    report: JsonView,
) -> bool {
    let vertices = s.callgraph_vertices.deep_view();
    let edges = s.callgraph_edges.deep_view();
    let names = vertices.map_values(|v: CallVertexView| v.name);
    &&& report is List
    &&& exists|calls: Seq<(Seq<char>, Seq<char>)>|
        {
            &&& #[trigger] call_graph::are_the_calls(edges, vertices, calls)
            &&& forall|x: Seq<char>|
                names_function(report->List_0, x) <==> {
                    &&& #[trigger] names.contains(x)
                    &&& !done.contains(x)
                    &&& !in_progress.contains(x)
                    &&& forall|c: Seq<char>| #[trigger]
                        call_graph::is_call(edges, vertices, x, c) ==> done.contains(c)
                            || laws::calls_lead(names, calls, c, x)
                }
        }
}

/// One of the entries is about the function.
pub open spec fn names_function(entries: Seq<JsonView>, x: Seq<char>) -> bool {
    exists|k: int|
        0 <= k < entries.len() && (#[trigger] entries[k]).at("function"@) == JsonView::Text(x)
}

/// The report of entries that are ready names the functions that can start.
#[verifier::rlimit(40)]
pub proof fn entries_name_those_that_can_start(
    s: SessionState,
    done: Seq<Seq<char>>,
    in_progress: Seq<Seq<char>>,
    entries: Seq<ReadyFunc>,
)
    requires
        are_ready(s, done, in_progress, entries),
    ensures
        names_those_that_can_start(
            s,
            done,
            in_progress,
            JsonView::List(entries.map_values(|f: ReadyFunc| inspect::ready_body(f))),
        ),
{
    let vertices = s.callgraph_vertices.deep_view();
    let edges = s.callgraph_edges.deep_view();
    let names = vertices.map_values(|v: CallVertexView| v.name);
    let calls = state::named_edges(edges, vertices);
    call_graph::every_call_is_taken(edges, vertices);
    assert(call_graph::are_the_calls(edges, vertices, calls));
    let list = entries.map_values(|f: ReadyFunc| inspect::ready_body(f));
    assert forall|x: Seq<char>|
        names_function(list, x) <==> {
            &&& #[trigger] names.contains(x)
            &&& !done.contains(x)
            &&& !in_progress.contains(x)
            &&& forall|c: Seq<char>| #[trigger]
                call_graph::is_call(edges, vertices, x, c) ==> done.contains(c)
                    || laws::calls_lead(names, calls, c, x)
        } by {
        readiness_follows_the_reported_calls(s, done, in_progress, entries, calls, x);
        if names_function(list, x) {
            let k = choose|k: int|
                0 <= k < list.len() && (#[trigger] list[k]).at("function"@) == JsonView::Text(x);
            reports::ready_report_says_the_entry(entries[k]);
            assert(entries[k].function@ == x);
        }
        if exists|k: int| 0 <= k < entries.len() && (#[trigger] entries[k]).function@ == x {
            let k = choose|k: int|
                0 <= k < entries.len() && (#[trigger] entries[k]).function@ == x;
            reports::ready_report_says_the_entry(entries[k]);
            assert(list[k].at("function"@) == JsonView::Text(x));
        }
    }
}

/// The functions that are ready: neither done nor being worked on, and calling no
/// function outside their own circle that is not done.
pub fn ready_functions(session: &SessionState, params: &GetReadyFunctionsParams) -> (r: Json)
    requires
        session.callgraph_vertices@.len() < u32::MAX,
        session.callgraph_edges@.len() < u32::MAX,
    ensures
        exists|entries: Seq<ReadyFunc>|
            {
                &&& #[trigger] are_ready(
                    *session,
                    text::texts(params.done@),
                    text::texts(params.in_progress@),
                    entries,
                )
                &&& r@ == JsonView::List(
                    entries.map_values(|f: ReadyFunc| inspect::ready_body(f)),
                )
            },
        names_those_that_can_start(
            *session,
            text::texts(params.done@),
            text::texts(params.in_progress@),
            r@,
        ),
{
    let (vertices, edges) = session.call_graph();
    let ready = compute_ready_functions(
        vertices.as_slice(),
        edges.as_slice(),
        params.done.as_slice(),
        params.in_progress.as_slice(),
    );
    assert(are_ready(
        *session,
        text::texts(params.done@),
        text::texts(params.in_progress@),
        ready@,
    ));
    proof {
        entries_name_those_that_can_start(
            *session,
            text::texts(params.done@),
            text::texts(params.in_progress@),
            ready@,
        );
    }
    ready_report(ready.as_slice())
}

/// A function of the call graph is reported as ready exactly where it is neither
/// done nor under way, and every function to which a call was reported from it,
/// whatever the kind of the call, is done or leads back to it by calls.
#[verifier::rlimit(40)]
pub proof fn readiness_follows_the_reported_calls(
    s: SessionState,
    done: Seq<Seq<char>>,
    in_progress: Seq<Seq<char>>,
    entries: Seq<ReadyFunc>,
    calls: Seq<(Seq<char>, Seq<char>)>,
    x: Seq<char>,
)
    requires
        are_ready(s, done, in_progress, entries),
        call_graph::are_the_calls(
            s.callgraph_edges.deep_view(),
            s.callgraph_vertices.deep_view(),
            calls,
        ),
    ensures
        ({
            let vertices = s.callgraph_vertices.deep_view();
            let names = vertices.map_values(|v: CallVertexView| v.name);
            (exists|k: int| 0 <= k < entries.len() && (#[trigger] entries[k]).function@ == x) <==> {
                &&& names.contains(x)
                &&& !done.contains(x)
                &&& !in_progress.contains(x)
                &&& forall|c: Seq<char>| #[trigger]
                    call_graph::is_call(s.callgraph_edges.deep_view(), vertices, x, c)
                        ==> done.contains(c) || laws::calls_lead(names, calls, c, x)
            }
        }),
{
    let vertices = s.callgraph_vertices.deep_view();
    let edges = s.callgraph_edges.deep_view();
    let names = vertices.map_values(|v: CallVertexView| v.name);
    let own = state::named_edges(edges, vertices);
    assert(names =~= state::vertex_names(vertices));
    assert(names.len() == s.callgraph_vertices@.len());
    assert(s.callgraph_vertices@.len() == s.callgraph_vertices.len());
    call_graph::every_call_is_taken(edges, vertices);
    assert(topo::are_ready_entries(names, own, done, in_progress, entries));
    laws::ready_exactly_when_callees_are_done(names, own, done, in_progress, entries, x);
    assert forall|a: Seq<char>, b: Seq<char>| #[trigger] own.contains((a, b)) <==> calls.contains(
        (a, b),
    ) by {
        assert(own.contains((a, b)) <==> call_graph::is_call(edges, vertices, a, b));
        assert(calls.contains((a, b)) <==> call_graph::is_call(edges, vertices, a, b));
    }
    assert forall|c: Seq<char>| #[trigger]
        own.contains((x, c)) && names.contains(c) implies laws::calls_lead(names, own, c, x)
        == laws::calls_lead(names, calls, c, x) by {
        if laws::calls_lead(names, own, c, x) {
            laws::more_calls_lead_further(names, own, calls, c, x);
        }
        if laws::calls_lead(names, calls, c, x) {
            laws::more_calls_lead_further(names, calls, own, c, x);
        }
    }
    assert forall|c: Seq<char>| #[trigger]
        call_graph::is_call(edges, vertices, x, c) <==> own.contains((x, c)) && names.contains(
        c,
    ) by {
        assert(own.contains((x, c)) <==> call_graph::is_call(edges, vertices, x, c));
        if own.contains((x, c)) {
            state::lemma_named_edges(edges, vertices, x, c);
        }
    }
}

} // verus!
