//! What the levels, the order of verification and the readiness of functions mean,
//! said of the functions and their calls by name.

use vstd::prelude::*;

use crate::components;
use crate::state::project::{GroupView, Level, SccGroup};
use crate::text;
use crate::topo;
use crate::topo::ReadyFunc;

verus! {

/// `path` goes along calls, from one listed function to the next.
pub open spec fn is_call_path(
    vertices: Seq<Seq<char>>,
    edges: Seq<(Seq<char>, Seq<char>)>,
    path: Seq<Seq<char>>,
) -> bool {
    &&& path.len() > 0
    &&& forall|i: int| 0 <= i < path.len() ==> vertices.contains(#[trigger] path[i])
    &&& forall|i: int|
        0 <= i < path.len() - 1 ==> #[trigger] edges.contains((path[i], path[i + 1]))
}

/// Calls lead from `a` to `b`, over any number of listed functions; a listed
/// function leads to itself.
pub open spec fn calls_lead(
    vertices: Seq<Seq<char>>,
    edges: Seq<(Seq<char>, Seq<char>)>,
    a: Seq<char>,
    b: Seq<char>,
) -> bool {
    exists|path: Seq<Seq<char>>| #[trigger]
        is_call_path(vertices, edges, path) && path[0] == a && path.last() == b
}

/// `a` and `b` call each other in a circle, or are the same listed function.
pub open spec fn in_a_circle(
    vertices: Seq<Seq<char>>,
    edges: Seq<(Seq<char>, Seq<char>)>,
    a: Seq<char>,
    b: Seq<char>,
) -> bool {
    calls_lead(vertices, edges, a, b) && calls_lead(vertices, edges, b, a)
}

proof fn lemma_leads(
    vertices: Seq<Seq<char>>,
    edges: Seq<(Seq<char>, Seq<char>)>,
    i: usize,
    j: usize,
)
    requires
        vertices.len() <= usize::MAX,
        i < topo::distinct(vertices).len(),
        j < topo::distinct(vertices).len(),
    ensures
        ({
            let names = topo::distinct(vertices);
            components::reaches(topo::call_edges(names, edges), i, j) <==> calls_lead(
                vertices,
                edges,
                names[i as int],
                names[j as int],
            )
        }),
{
    let names = topo::distinct(vertices);
    let calls = topo::call_edges(names, edges);
    topo::lemma_distinct(vertices);
    if components::reaches(calls, i, j) {
        let path = choose|path: Seq<usize>|
            path.len() > 0 && path[0] == i && path.last() == j && #[trigger] components::is_path(
                calls,
                path,
            );
        let moved = topo::names_at(names, path);
        assert forall|k: int| 0 <= k < path.len() implies #[trigger] path[k] < names.len() by {
            if k > 0 {
                assert(calls.contains((path[k - 1], path[k - 1 + 1])));
                topo::lemma_edge_names(names, edges, path[k - 1], path[k]);
            }
        }
        assert forall|k: int| 0 <= k < moved.len() implies vertices.contains(#[trigger] moved[k]) by {
            assert(path[k] < names.len());
            assert(names.contains(names[path[k] as int]));
        }
        assert forall|k: int| 0 <= k < moved.len() - 1 implies #[trigger] edges.contains(
            (moved[k], moved[k + 1]),
        ) by {
            assert(calls.contains((path[k], path[k + 1])));
            topo::lemma_edge_names(names, edges, path[k], path[k + 1]);
        }
        assert(is_call_path(vertices, edges, moved));
        assert(moved[0] == names[i as int]);
        assert(moved.last() == names[j as int]);
    }
    if calls_lead(vertices, edges, names[i as int], names[j as int]) {
        let path = choose|path: Seq<Seq<char>>| #[trigger]
            is_call_path(vertices, edges, path) && path[0] == names[i as int] && path.last()
                == names[j as int];
        let moved = path.map_values(|x: Seq<char>| names.index_of(x) as usize);
        assert forall|k: int| 0 <= k < moved.len() - 1 implies #[trigger] calls.contains(
            (moved[k], moved[k + 1]),
        ) by {
            let a = path[k];
            let b = path[k + 1];
            assert(vertices.contains(a) && vertices.contains(b));
            assert(names.contains(a) && names.contains(b));
            assert(edges.contains((path[k], path[k + 1])));
            topo::lemma_named_edge(names, edges, a, b);
        }
        assert(names.contains(names[i as int]) && names.contains(names[j as int]));
        assert(names.index_of(names[i as int]) == i);
        assert(names.index_of(names[j as int]) == j);
        assert(components::is_path(calls, moved));
        assert(moved[0] == i);
        assert(moved.last() == j);
    }
}

proof fn lemma_leads_to_itself(
    vertices: Seq<Seq<char>>,
    edges: Seq<(Seq<char>, Seq<char>)>,
    a: Seq<char>,
)
    requires
        vertices.contains(a),
    ensures
        calls_lead(vertices, edges, a, a),
{
    let path = seq![a];
    assert(is_call_path(vertices, edges, path));
    assert(path[0] == a && path.last() == a);
}

proof fn lemma_call_leads(
    vertices: Seq<Seq<char>>,
    edges: Seq<(Seq<char>, Seq<char>)>,
    a: Seq<char>,
    b: Seq<char>,
)
    requires
        vertices.contains(a),
        vertices.contains(b),
        edges.contains((a, b)),
    ensures
        calls_lead(vertices, edges, a, b),
{
    let path = seq![a, b];
    assert(is_call_path(vertices, edges, path));
    assert(path[0] == a && path.last() == b);
}

/// The names of a component are those that call each other with any one of them.
proof fn lemma_component_named(
    vertices: Seq<Seq<char>>,
    edges: Seq<(Seq<char>, Seq<char>)>,
    comps: Seq<Seq<usize>>,
    k: int,
    i: usize,
)
    requires
        vertices.len() <= usize::MAX,
        components::are_components(
            comps,
            topo::distinct(vertices).len(),
            topo::call_edges(topo::distinct(vertices), edges),
        ),
        0 <= k < comps.len(),
        comps[k].contains(i),
    ensures
        ({
            let names = topo::distinct(vertices);
            let own = topo::names_at(names, comps[k]);
            &&& i < names.len()
            &&& own.no_duplicates()
            &&& forall|y: Seq<char>| #[trigger]
                own.contains(y) <==> vertices.contains(y) && in_a_circle(
                    vertices,
                    edges,
                    names[i as int],
                    y,
                )
        }),
{
    let names = topo::distinct(vertices);
    let calls = topo::call_edges(names, edges);
    let own = topo::names_at(names, comps[k]);
    topo::lemma_distinct(vertices);
    assert forall|p: int, q: int| 0 <= p < own.len() && 0 <= q < own.len() && p != q implies own[p]
        != own[q] by {
        assert(comps[k].contains(comps[k][p]));
        assert(comps[k].contains(comps[k][q]));
    }
    assert forall|y: Seq<char>| #[trigger] own.contains(y) <==> vertices.contains(y) && in_a_circle(
        vertices,
        edges,
        names[i as int],
        y,
    ) by {
        if own.contains(y) {
            let b = comps[k][own.index_of(y)];
            assert(comps[k].contains(b));
            assert(names[b as int] == y);
            assert(names.contains(y));
            assert(components::mutual(calls, i, b));
            lemma_leads(vertices, edges, i, b);
            lemma_leads(vertices, edges, b, i);
        }
        if vertices.contains(y) && in_a_circle(vertices, edges, names[i as int], y) {
            assert(names.contains(y));
            let b = names.index_of(y) as usize;
            assert(names[b as int] == y);
            lemma_leads(vertices, edges, i, b);
            lemma_leads(vertices, edges, b, i);
            assert(components::mutual(calls, i, b));
            assert(comps[k].contains(b));
            assert(own[comps[k].index_of(b)] == y);
        }
    }
}

/// The component calls itself in a circle exactly where the function in it does.
proof fn lemma_circular(
    vertices: Seq<Seq<char>>,
    edges: Seq<(Seq<char>, Seq<char>)>,
    comps: Seq<Seq<usize>>,
    k: int,
    i: usize,
)
    requires
        vertices.len() <= usize::MAX,
        components::are_components(
            comps,
            topo::distinct(vertices).len(),
            topo::call_edges(topo::distinct(vertices), edges),
        ),
        0 <= k < comps.len(),
        comps[k].contains(i),
    ensures
        ({
            let names = topo::distinct(vertices);
            let f = names[i as int];
            topo::circular(comps[k], topo::call_edges(names, edges)) <==> edges.contains((f, f))
                || exists|y: Seq<char>|
                y != f && vertices.contains(y) && #[trigger] in_a_circle(vertices, edges, f, y)
        }),
{
    let names = topo::distinct(vertices);
    let calls = topo::call_edges(names, edges);
    let f = names[i as int];
    let comp = comps[k];
    let own = topo::names_at(names, comp);
    topo::lemma_distinct(vertices);
    lemma_component_named(vertices, edges, comps, k, i);
    let at = comp.index_of(i);
    assert(own[at] == f);
    assert(names.contains(f));
    assert(names.index_of(f) == i);
    if comp.len() >= 2 {
        let other: int = if at == 0 {
            1
        } else {
            0
        };
        let y = own[other];
        assert(own[other] != own[at]);
        assert(own.contains(y));
        assert(in_a_circle(vertices, edges, f, y));
    } else {
        assert(comp[0] == i);
        if calls.contains((i, i)) {
            topo::lemma_edge_names(names, edges, i, i);
        }
    }
    if exists|y: Seq<char>|
        y != f && vertices.contains(y) && #[trigger] in_a_circle(vertices, edges, f, y) {
        let y = choose|y: Seq<char>|
            y != f && vertices.contains(y) && #[trigger] in_a_circle(vertices, edges, f, y);
        assert(own.contains(y));
        let p = own.index_of(y);
        assert(p != at);
        assert(comp.len() >= 2);
    }
    if edges.contains((f, f)) {
        topo::lemma_named_edge(names, edges, f, f);
    }
}

/// Group `k` of level `l` is there.
pub open spec fn is_place(levels: Seq<Level>, l: int, k: int) -> bool {
    0 <= l < levels.len() && 0 <= k < levels[l].groups@.len()
}

/// Group `k` of level `l` holds the function `x`.
pub open spec fn in_group(levels: Seq<Level>, l: int, k: int, x: Seq<char>) -> bool {
    is_place(levels, l, k) && text::texts(levels[l].groups@[k].members@).contains(x)
}

/// The component behind a group of a layout.
proof fn lemma_place(
    vertices: Seq<Seq<char>>,
    edges: Seq<(Seq<char>, Seq<char>)>,
    levels: Seq<Level>,
    l: int,
    k: int,
) -> (i: int)
    requires
        vertices.len() <= usize::MAX,
        topo::lays_out(levels, vertices, edges),
        is_place(levels, l, k),
    ensures
        ({
            let names = topo::distinct(vertices);
            let calls = topo::call_edges(names, edges);
            let comps = components::condensation_order(names.len(), calls);
            let here = topo::at_level(comps, calls, l as nat, comps.len() as int);
            let g = levels[l].groups@[k];
            let members = text::texts(g.members@);
            &&& names.len() > 0
            &&& components::are_components(comps, names.len(), calls)
            &&& topo::is_layout(levels, names, calls, comps)
            &&& 0 <= k < here.len()
            &&& here[k] == i
            &&& 0 <= i < comps.len()
            &&& topo::level_of(comps, calls, i) == l
            &&& topo::is_group(
                g,
                names,
                calls,
                comps[i],
                topo::below_level(comps, calls, l as nat) + k as nat,
                l as nat,
            )
            &&& members.no_duplicates()
            &&& members.len() == comps[i].len()
            &&& forall|x: Seq<char>| #[trigger]
                members.contains(x) <==> topo::names_at(names, comps[i]).contains(x)
        }),
{
    let names = topo::distinct(vertices);
    let calls = topo::call_edges(names, edges);
    let comps = components::condensation_order(names.len(), calls);
    topo::lemma_distinct(vertices);
    assert(topo::is_level(levels[l], names, calls, comps, l as nat));
    let here = topo::at_level(comps, calls, l as nat, comps.len() as int);
    topo::lemma_at_level(comps, calls, l as nat, comps.len() as int);
    let i = here[k];
    let g = levels[l].groups@[k];
    let members = text::texts(g.members@);
    let own = topo::names_at(names, comps[i]);
    assert(topo::is_group(
        g,
        names,
        calls,
        comps[i],
        topo::below_level(comps, calls, l as nat) + k as nat,
        l as nat,
    ));
    topo::lemma_group_without_repetition(levels, names, calls, comps, l, k);
    broadcast use vstd::seq_lib::group_to_multiset_ensures;

    assert(members.len() == members.to_multiset().len());
    assert(own.len() == own.to_multiset().len());
    assert forall|x: Seq<char>| #[trigger] members.contains(x) <==> own.contains(x) by {
        vstd::seq_lib::to_multiset_contains(members, x);
        vstd::seq_lib::to_multiset_contains(own, x);
    }
    i
}

/// A function in a group, by the place of its name.
proof fn lemma_in_group(
    vertices: Seq<Seq<char>>,
    edges: Seq<(Seq<char>, Seq<char>)>,
    levels: Seq<Level>,
    l: int,
    k: int,
    x: Seq<char>,
) -> (r: (int, usize))
    requires
        vertices.len() <= usize::MAX,
        topo::lays_out(levels, vertices, edges),
        in_group(levels, l, k, x),
    ensures
        ({
            let names = topo::distinct(vertices);
            let calls = topo::call_edges(names, edges);
            let comps = components::condensation_order(names.len(), calls);
            let here = topo::at_level(comps, calls, l as nat, comps.len() as int);
            &&& names.len() > 0
            &&& components::are_components(comps, names.len(), calls)
            &&& 0 <= k < here.len()
            &&& here[k] == r.0
            &&& 0 <= r.0 < comps.len()
            &&& topo::level_of(comps, calls, r.0) == l
            &&& comps[r.0].contains(r.1)
            &&& r.1 < names.len()
            &&& names[r.1 as int] == x
            &&& names.contains(x)
            &&& names.index_of(x) == r.1
            &&& vertices.contains(x)
        }),
{
    let i = lemma_place(vertices, edges, levels, l, k);
    let names = topo::distinct(vertices);
    let calls = topo::call_edges(names, edges);
    let comps = components::condensation_order(names.len(), calls);
    let own = topo::names_at(names, comps[i]);
    topo::lemma_distinct(vertices);
    assert(own.contains(x));
    let a = comps[i][own.index_of(x)];
    assert(comps[i].contains(a));
    assert(names.contains(x));
    (i, a)
}

/// Each listed function is in a group, and no other is.
pub proof fn groups_hold_the_functions(
    vertices: Seq<Seq<char>>,
    edges: Seq<(Seq<char>, Seq<char>)>,
    levels: Seq<Level>,
    x: Seq<char>,
)
    requires
        vertices.len() <= usize::MAX,
        topo::lays_out(levels, vertices, edges),
    ensures
        vertices.contains(x) <==> exists|l: int, k: int| #[trigger] in_group(levels, l, k, x),
{
    let names = topo::distinct(vertices);
    let calls = topo::call_edges(names, edges);
    let comps = components::condensation_order(names.len(), calls);
    topo::lemma_distinct(vertices);
    if vertices.contains(x) {
        assert(names.contains(x));
        let a = names.index_of(x) as usize;
        assert(components::listed(comps, a));
        let i = choose|i: int| 0 <= i < comps.len() && #[trigger] comps[i].contains(a);
        topo::lemma_layout_members(levels, names, calls, comps, a, i);
        let l = topo::level_of(comps, calls, i) as int;
        let k = choose|k: int|
            0 <= k < levels[l].groups@.len() && #[trigger] text::texts(
                levels[l].groups@[k].members@,
            ).contains(x);
        assert(in_group(levels, l, k, x));
    }
    if exists|l: int, k: int| #[trigger] in_group(levels, l, k, x) {
        let (l, k) = choose|l: int, k: int| #[trigger] in_group(levels, l, k, x);
        let r = lemma_in_group(vertices, edges, levels, l, k, x);
    }
}

/// Two functions are in the same group exactly where calls lead from each to the
/// other.
pub proof fn groups_are_the_circles(
    vertices: Seq<Seq<char>>,
    edges: Seq<(Seq<char>, Seq<char>)>,
    levels: Seq<Level>,
    l: int,
    k: int,
    x: Seq<char>,
    m: int,
    n: int,
    y: Seq<char>,
)
    requires
        vertices.len() <= usize::MAX,
        topo::lays_out(levels, vertices, edges),
        in_group(levels, l, k, x),
        in_group(levels, m, n, y),
    ensures
        (l == m && k == n) <==> in_a_circle(vertices, edges, x, y),
{
    let (i, a) = lemma_in_group(vertices, edges, levels, l, k, x);
    let (j, b) = lemma_in_group(vertices, edges, levels, m, n, y);
    let names = topo::distinct(vertices);
    let calls = topo::call_edges(names, edges);
    let comps = components::condensation_order(names.len(), calls);
    lemma_leads(vertices, edges, a, b);
    lemma_leads(vertices, edges, b, a);
    assert(comps[i].contains(b) <==> components::mutual(calls, a, b));
    topo::component_has_one_place(comps, calls, i, l as nat);
}

/// A group stands above every group that one of its functions calls.
pub proof fn calls_lead_down(
    vertices: Seq<Seq<char>>,
    edges: Seq<(Seq<char>, Seq<char>)>,
    levels: Seq<Level>,
    l: int,
    k: int,
    caller: Seq<char>,
    m: int,
    n: int,
    callee: Seq<char>,
)
    requires
        vertices.len() <= usize::MAX,
        topo::lays_out(levels, vertices, edges),
        in_group(levels, l, k, caller),
        in_group(levels, m, n, callee),
        edges.contains((caller, callee)),
        !calls_lead(vertices, edges, callee, caller),
    ensures
        m < l,
{
    let (i, a) = lemma_in_group(vertices, edges, levels, l, k, caller);
    let (j, b) = lemma_in_group(vertices, edges, levels, m, n, callee);
    let names = topo::distinct(vertices);
    let calls = topo::call_edges(names, edges);
    let comps = components::condensation_order(names.len(), calls);
    topo::lemma_named_edge(names, edges, caller, callee);
    lemma_leads(vertices, edges, b, a);
    assert(comps[i].contains(b) <==> components::mutual(calls, a, b));
    assert(calls.contains((a, b)));
    assert(components::component_edge(comps, calls, i, j));
    topo::called_groups_are_lower(comps, names.len(), calls, i, j);
}

/// No group stands higher than its calls ask for: above the lowest level, it has a
/// call to a group of the level just below.
pub proof fn levels_are_no_higher_than_needed(
    vertices: Seq<Seq<char>>,
    edges: Seq<(Seq<char>, Seq<char>)>,
    levels: Seq<Level>,
    l: int,
    k: int,
)
    requires
        vertices.len() <= usize::MAX,
        topo::lays_out(levels, vertices, edges),
        is_place(levels, l, k),
        l > 0,
    ensures
        exists|caller: Seq<char>, callee: Seq<char>, n: int|
            {
                &&& #[trigger] in_group(levels, l, k, caller)
                &&& #[trigger] in_group(levels, l - 1, n, callee)
                &&& edges.contains((caller, callee))
            },
{
    let i = lemma_place(vertices, edges, levels, l, k);
    let names = topo::distinct(vertices);
    let calls = topo::call_edges(names, edges);
    let comps = components::condensation_order(names.len(), calls);
    topo::lemma_distinct(vertices);
    topo::lemma_level_above(comps, calls, i, i);
    assert(topo::level_of(comps, calls, i) == topo::level_above(comps, calls, i, i));
    let j = choose|j: int|
        0 <= j < i && #[trigger] components::component_edge(comps, calls, i, j) && l == 1
            + topo::level_of(comps, calls, j);
    let (a, b) = choose|a: usize, b: usize|
        #[trigger] comps[i].contains(a) && #[trigger] comps[j].contains(b) && calls.contains((a, b));
    let caller = names[a as int];
    let callee = names[b as int];
    topo::lemma_edge_names(names, edges, a, b);
    let own = topo::names_at(names, comps[i]);
    assert(own[comps[i].index_of(a)] == caller);
    assert(in_group(levels, l, k, caller));
    topo::lemma_layout_members(levels, names, calls, comps, b, j);
    let n = choose|n: int|
        0 <= n < levels[l - 1].groups@.len() && #[trigger] text::texts(
            levels[l - 1].groups@[n].members@,
        ).contains(callee);
    assert(in_group(levels, l - 1, n, callee));
}

/// How many groups stand on the first `l` levels.
pub open spec fn groups_below(levels: Seq<Level>, l: int) -> nat
    decreases l,
{
    if l <= 0 {
        0
    } else {
        groups_below(levels, l - 1) + levels[l - 1].groups@.len()
    }
}

/// What a group says of itself: its members are in order, each once; it is marked
/// as circular exactly where a member calls itself or another member calls it
/// back; it names its level; and the groups are numbered from the bottom.
pub proof fn group_describes_itself(
    vertices: Seq<Seq<char>>,
    edges: Seq<(Seq<char>, Seq<char>)>,
    levels: Seq<Level>,
    l: int,
    k: int,
)
    requires
        vertices.len() <= usize::MAX,
        topo::lays_out(levels, vertices, edges),
        is_place(levels, l, k),
    ensures
        levels[l].level == l,
        ({
            let g = levels[l].groups@[k];
            let members = text::texts(g.members@);
            &&& g.level == l
            &&& g.id == groups_below(levels, l) + k
            &&& members.len() > 0
            &&& members.no_duplicates()
            &&& forall|p: int, q: int|
                #![trigger members[p], members[q]]
                0 <= p <= q < members.len() ==> text::text_le(members[p], members[q])
            &&& g.is_cycle <==> members.len() >= 2 || edges.contains((members[0], members[0]))
        }),
{
    let i = lemma_place(vertices, edges, levels, l, k);
    let names = topo::distinct(vertices);
    let calls = topo::call_edges(names, edges);
    let comps = components::condensation_order(names.len(), calls);
    let g = levels[l].groups@[k];
    let members = text::texts(g.members@);
    topo::lemma_distinct(vertices);
    assert(topo::is_level(levels[l], names, calls, comps, l as nat));
    lemma_groups_below(names, calls, comps, levels, l);
    if members.len() == 1 {
        let own = topo::names_at(names, comps[i]);
        assert(members.contains(members[0]));
        assert(own.contains(members[0]));
        let a = comps[i][0];
        assert(comps[i].contains(a));
        assert(names[a as int] == members[0]);
        assert(names.contains(members[0]));
        if calls.contains((a, a)) {
            topo::lemma_edge_names(names, edges, a, a);
        }
        if edges.contains((members[0], members[0])) {
            topo::lemma_named_edge(names, edges, members[0], members[0]);
        }
    }
}

proof fn lemma_groups_below(
    names: Seq<Seq<char>>,
    calls: Seq<(usize, usize)>,
    comps: Seq<Seq<usize>>,
    levels: Seq<Level>,
    l: int,
)
    requires
        topo::is_layout(levels, names, calls, comps),
        0 <= l <= levels.len(),
    ensures
        groups_below(levels, l) == topo::below_level(comps, calls, l as nat),
    decreases l,
{
    if l > 0 {
        lemma_groups_below(names, calls, comps, levels, l - 1);
        assert(topo::is_level(levels[l - 1], names, calls, comps, (l - 1) as nat));
    }
}

/// The levels lay the functions out along their calls: each listed function is in one
/// group, and no other is; functions are in one group exactly where they are in a
/// circle; a group stands above all that it calls, and just above one of them; and each
/// group describes itself.
pub open spec fn are_levels_of(
    vertices: Seq<Seq<char>>,
    edges: Seq<(Seq<char>, Seq<char>)>,
    levels: Seq<Level>,
) -> bool {
    &&& forall|x: Seq<char>| #[trigger]
        vertices.contains(x) <==> exists|l: int, k: int| #[trigger] in_group(levels, l, k, x)
    &&& forall|l: int, k: int, x: Seq<char>, m: int, n: int, y: Seq<char>|
        #[trigger] in_group(levels, l, k, x) && #[trigger] in_group(levels, m, n, y) ==> ((l == m
            && k == n) <==> in_a_circle(vertices, edges, x, y))
    &&& forall|l: int, k: int, x: Seq<char>, m: int, n: int, y: Seq<char>|
        #[trigger] in_group(levels, l, k, x) && #[trigger] in_group(levels, m, n, y)
            && edges.contains((x, y)) && !calls_lead(vertices, edges, y, x) ==> m < l
    &&& forall|l: int, k: int| #[trigger]
        is_place(levels, l, k) && l > 0 ==> calls_the_level_below(edges, levels, l, k)
    &&& forall|l: int, k: int| #[trigger]
        is_place(levels, l, k) ==> {
            let g = levels[l].groups@[k];
            let members = text::texts(g.members@);
            &&& g.level == l && levels[l].level == l
            &&& g.id == groups_below(levels, l) + k
            &&& members.len() > 0 && members.no_duplicates() && text::ordered(members)
            &&& g.is_cycle <==> members.len() >= 2 || edges.contains((members[0], members[0]))
        }
}

/// Some function of the group calls one of the level just below.
pub open spec fn calls_the_level_below(
    edges: Seq<(Seq<char>, Seq<char>)>,
    levels: Seq<Level>,
    l: int,
    k: int,
) -> bool {
    exists|caller: Seq<char>, callee: Seq<char>, n: int|
        {
            &&& #[trigger] in_group(levels, l, k, caller)
            &&& #[trigger] in_group(levels, l - 1, n, callee)
            &&& edges.contains((caller, callee))
        }
}

/// A layout of the call graph lays the functions out along their calls.
pub proof fn layout_is_along_the_calls(
    vertices: Seq<Seq<char>>,
    edges: Seq<(Seq<char>, Seq<char>)>,
    levels: Seq<Level>,
)
    requires
        vertices.len() <= usize::MAX,
        topo::lays_out(levels, vertices, edges),
    ensures
        are_levels_of(vertices, edges, levels),
{
    assert forall|x: Seq<char>| #[trigger] vertices.contains(x) <==> exists|l: int, k: int|
     #[trigger]
        in_group(levels, l, k, x) by {
        groups_hold_the_functions(vertices, edges, levels, x);
    }
    assert forall|l: int, k: int, x: Seq<char>, m: int, n: int, y: Seq<char>|
        #[trigger] in_group(levels, l, k, x) && #[trigger] in_group(levels, m, n, y) implies ((l
        == m && k == n) <==> in_a_circle(vertices, edges, x, y)) by {
        groups_are_the_circles(vertices, edges, levels, l, k, x, m, n, y);
    }
    assert forall|l: int, k: int, x: Seq<char>, m: int, n: int, y: Seq<char>|
        #[trigger] in_group(levels, l, k, x) && #[trigger] in_group(levels, m, n, y)
            && edges.contains((x, y)) && !calls_lead(vertices, edges, y, x) implies m < l by {
        calls_lead_down(vertices, edges, levels, l, k, x, m, n, y);
    }
    assert forall|l: int, k: int| #[trigger]
        is_place(levels, l, k) && l > 0 implies calls_the_level_below(edges, levels, l, k) by {
        levels_are_no_higher_than_needed(vertices, edges, levels, l, k);
    }
    assert forall|l: int, k: int| #[trigger] is_place(levels, l, k) implies {
        let g = levels[l].groups@[k];
        let members = text::texts(g.members@);
        &&& g.level == l && levels[l].level == l
        &&& g.id == groups_below(levels, l) + k
        &&& members.len() > 0 && members.no_duplicates() && text::ordered(members)
        &&& g.is_cycle <==> members.len() >= 2 || edges.contains((members[0], members[0]))
    } by {
        group_describes_itself(vertices, edges, levels, l, k);
    }
}

/// Each function of the chain belongs to a circle that calls the circle of the next
/// one, from which no call leads back.
pub open spec fn descends(
    vertices: Seq<Seq<char>>,
    edges: Seq<(Seq<char>, Seq<char>)>,
    chain: Seq<Seq<char>>,
) -> bool {
    forall|i: int| 0 <= i < chain.len() - 1 ==> #[trigger] steps_down(vertices, edges, chain, i)
}

/// The circle of function `i` of the chain calls the circle of the next one, from
/// which no call leads back.
pub open spec fn steps_down(
    vertices: Seq<Seq<char>>,
    edges: Seq<(Seq<char>, Seq<char>)>,
    chain: Seq<Seq<char>>,
    i: int,
) -> bool {
    &&& !calls_lead(vertices, edges, chain[i + 1], chain[i])
    &&& exists|caller: Seq<char>, callee: Seq<char>|
        {
            &&& #[trigger] in_a_circle(vertices, edges, chain[i], caller)
            &&& #[trigger] in_a_circle(vertices, edges, callee, chain[i + 1])
            &&& edges.contains((caller, callee))
        }
}

/// The order and the groups go from the bottom up.
///
/// The order holds the listed functions that are wanted, each once, group by group.
/// Two of them are in one group exactly where they call each other in a circle. A
/// function comes behind each function that it calls, in a group of a higher level,
/// unless the two are in a circle. The level is the length of the longest way down
/// along calls, and a group is marked where its functions call themselves in a
/// circle.
pub open spec fn is_bottom_up(
    vertices: Seq<Seq<char>>,
    edges: Seq<(Seq<char>, Seq<char>)>,
    wanted: Set<Seq<char>>,
    order: Seq<Seq<char>>,
    groups: Seq<GroupView>,
) -> bool {
    &&& order.no_duplicates()
    &&& forall|x: Seq<char>| #[trigger]
        order.contains(x) <==> vertices.contains(x) && wanted.contains(x)
    &&& order == topo::members_in_turn(groups)
    &&& forall|p: int|
        0 <= p < groups.len() ==> (#[trigger] groups[p]).members.len() > 0 && text::ordered(
            groups[p].members,
        )
    &&& forall|p: int, q: int, x: Seq<char>, y: Seq<char>|
        0 <= p < groups.len() && 0 <= q < groups.len() && #[trigger] groups[p].members.contains(x)
            && #[trigger] groups[q].members.contains(y) ==> (p == q <==> in_a_circle(
            vertices,
            edges,
            x,
            y,
        ))
    &&& forall|p: int, q: int, x: Seq<char>, y: Seq<char>|
        0 <= p < groups.len() && 0 <= q < groups.len() && #[trigger] groups[p].members.contains(x)
            && #[trigger] groups[q].members.contains(y) && edges.contains((x, y)) && !calls_lead(
            vertices,
            edges,
            y,
            x,
        ) ==> groups[q].level < groups[p].level && topo::comes_before(order, y, x)
    &&& forall|p: int, x: Seq<char>, chain: Seq<Seq<char>>|
        0 <= p < groups.len() && #[trigger] groups[p].members.contains(x) && chain.len() > 0
            && chain[0] == x && #[trigger] descends(vertices, edges, chain) ==> chain.len() - 1
            <= groups[p].level
    &&& forall|p: int, x: Seq<char>|
        0 <= p < groups.len() && #[trigger] groups[p].members.contains(x) ==> {
            &&& exists|chain: Seq<Seq<char>>|
                chain.len() == groups[p].level + 1 && chain[0] == x && #[trigger] descends(
                    vertices,
                    edges,
                    chain,
                )
            &&& groups[p].is_cycle <==> edges.contains((x, x)) || exists|y: Seq<char>|
                y != x && vertices.contains(y) && #[trigger] in_a_circle(vertices, edges, x, y)
        }
}

proof fn lemma_joined_lead(
    vertices: Seq<Seq<char>>,
    edges: Seq<(Seq<char>, Seq<char>)>,
    a: Seq<char>,
    b: Seq<char>,
    c: Seq<char>,
)
    requires
        calls_lead(vertices, edges, a, b),
        calls_lead(vertices, edges, b, c),
    ensures
        calls_lead(vertices, edges, a, c),
{
    let p = choose|p: Seq<Seq<char>>| #[trigger]
        is_call_path(vertices, edges, p) && p[0] == a && p.last() == b;
    let q = choose|q: Seq<Seq<char>>| #[trigger]
        is_call_path(vertices, edges, q) && q[0] == b && q.last() == c;
    let path = p + q.drop_first();
    assert forall|i: int| 0 <= i < path.len() implies vertices.contains(#[trigger] path[i]) by {
        if i < p.len() {
            assert(path[i] == p[i]);
        } else {
            assert(path[i] == q[i - p.len() + 1]);
        }
    }
    assert forall|i: int| 0 <= i < path.len() - 1 implies #[trigger] edges.contains(
        (path[i], path[i + 1]),
    ) by {
        if i + 1 < p.len() {
            assert(edges.contains((p[i], p[i + 1])));
        } else if i + 1 == p.len() {
            assert(edges.contains((q[0], q[0int + 1])));
            assert(path[i] == q[0] && path[i + 1] == q[1]);
        } else {
            let j = i - p.len() + 1;
            assert(edges.contains((q[j], q[j + 1])));
            assert(path[i] == q[j] && path[i + 1] == q[j + 1]);
        }
    }
    assert(is_call_path(vertices, edges, path));
    assert(path[0] == a);
    if q.len() == 1 {
        assert(path =~= p);
    }
    assert(path.last() == c);
}

/// Where there are more calls, calls lead at least as far.
pub proof fn more_calls_lead_further(
    vertices: Seq<Seq<char>>,
    edges: Seq<(Seq<char>, Seq<char>)>,
    more: Seq<(Seq<char>, Seq<char>)>,
    a: Seq<char>,
    b: Seq<char>,
)
    requires
        forall|x: Seq<char>, y: Seq<char>| #[trigger]
            edges.contains((x, y)) ==> more.contains((x, y)),
        calls_lead(vertices, edges, a, b),
    ensures
        calls_lead(vertices, more, a, b),
{
    let p = choose|p: Seq<Seq<char>>| #[trigger]
        is_call_path(vertices, edges, p) && p[0] == a && p.last() == b;
    assert forall|i: int| 0 <= i < p.len() - 1 implies #[trigger] more.contains(
        (p[i], p[i + 1]),
    ) by {
        assert(edges.contains((p[i], p[i + 1])));
    }
    assert(is_call_path(vertices, more, p));
}

/// A path leads between listed functions.
proof fn lemma_lead_listed(
    vertices: Seq<Seq<char>>,
    edges: Seq<(Seq<char>, Seq<char>)>,
    a: Seq<char>,
    b: Seq<char>,
)
    requires
        calls_lead(vertices, edges, a, b),
    ensures
        vertices.contains(a),
        vertices.contains(b),
{
    let p = choose|p: Seq<Seq<char>>| #[trigger]
        is_call_path(vertices, edges, p) && p[0] == a && p.last() == b;
    assert(vertices.contains(p[0]));
    assert(vertices.contains(p[p.len() - 1]));
}

/// The way down from a function is no longer than its level is high.
#[verifier::rlimit(40)]
proof fn lemma_way_down(
    vertices: Seq<Seq<char>>,
    edges: Seq<(Seq<char>, Seq<char>)>,
    levels: Seq<Level>,
    l: int,
    k: int,
    chain: Seq<Seq<char>>,
)
    requires
        vertices.len() <= usize::MAX,
        topo::lays_out(levels, vertices, edges),
        chain.len() > 0,
        in_group(levels, l, k, chain[0]),
        descends(vertices, edges, chain),
    ensures
        chain.len() - 1 <= l,
    decreases chain.len(),
{
    if chain.len() > 1 {
        assert(steps_down(vertices, edges, chain, 0));
        let x = chain[0];
        let y = chain[1];
        let (caller, callee) = choose|caller: Seq<char>, callee: Seq<char>|
            {
                &&& #[trigger] in_a_circle(vertices, edges, chain[0], caller)
                &&& #[trigger] in_a_circle(vertices, edges, callee, chain[0int + 1])
                &&& edges.contains((caller, callee))
            };
        lemma_lead_listed(vertices, edges, x, caller);
        lemma_lead_listed(vertices, edges, callee, y);
        groups_hold_the_functions(vertices, edges, levels, caller);
        groups_hold_the_functions(vertices, edges, levels, callee);
        groups_hold_the_functions(vertices, edges, levels, y);
        let (l1, k1) = choose|l: int, k: int| #[trigger] in_group(levels, l, k, caller);
        let (l2, k2) = choose|l: int, k: int| #[trigger] in_group(levels, l, k, callee);
        let (l3, k3) = choose|l: int, k: int| #[trigger] in_group(levels, l, k, y);
        groups_are_the_circles(vertices, edges, levels, l, k, x, l1, k1, caller);
        groups_are_the_circles(vertices, edges, levels, l2, k2, callee, l3, k3, y);
        if calls_lead(vertices, edges, callee, caller) {
            lemma_joined_lead(vertices, edges, y, callee, caller);
            lemma_joined_lead(vertices, edges, y, caller, x);
        }
        calls_lead_down(vertices, edges, levels, l1, k1, caller, l2, k2, callee);
        let rest = chain.drop_first();
        assert forall|i: int| 0 <= i < rest.len() - 1 implies #[trigger] steps_down(
            vertices,
            edges,
            rest,
            i,
        ) by {
            assert(steps_down(vertices, edges, chain, i + 1));
            assert(rest[i] == chain[i + 1] && rest[i + 1] == chain[i + 2]);
        }
        lemma_way_down(vertices, edges, levels, l3, k3, rest);
    }
}

/// From each function, a way down is as long as its level is high.
#[verifier::rlimit(40)]
proof fn lemma_longest_way_down(
    vertices: Seq<Seq<char>>,
    edges: Seq<(Seq<char>, Seq<char>)>,
    levels: Seq<Level>,
    l: int,
    k: int,
    x: Seq<char>,
) -> (chain: Seq<Seq<char>>)
    requires
        vertices.len() <= usize::MAX,
        topo::lays_out(levels, vertices, edges),
        in_group(levels, l, k, x),
    ensures
        chain.len() == l + 1,
        chain[0] == x,
        descends(vertices, edges, chain),
    decreases l,
{
    if l == 0 {
        seq![x]
    } else {
        levels_are_no_higher_than_needed(vertices, edges, levels, l, k);
        let (caller, callee, n) = choose|caller: Seq<char>, callee: Seq<char>, n: int|
            {
                &&& #[trigger] in_group(levels, l, k, caller)
                &&& #[trigger] in_group(levels, l - 1, n, callee)
                &&& edges.contains((caller, callee))
            };
        let rest = lemma_longest_way_down(vertices, edges, levels, l - 1, n, callee);
        let chain = seq![x] + rest;
        groups_are_the_circles(vertices, edges, levels, l, k, x, l, k, caller);
        groups_are_the_circles(vertices, edges, levels, l - 1, n, callee, l - 1, n, callee);
        groups_are_the_circles(vertices, edges, levels, l, k, x, l - 1, n, callee);
        groups_hold_the_functions(vertices, edges, levels, caller);
        groups_hold_the_functions(vertices, edges, levels, callee);
        lemma_call_leads(vertices, edges, caller, callee);
        lemma_joined_lead(vertices, edges, x, caller, callee);
        assert(steps_down(vertices, edges, chain, 0)) by {
            assert(in_a_circle(vertices, edges, chain[0], caller));
            assert(in_a_circle(vertices, edges, callee, chain[0int + 1]));
        }
        assert forall|i: int| 0 <= i < chain.len() - 1 implies #[trigger] steps_down(
            vertices,
            edges,
            chain,
            i,
        ) by {
            if i > 0 {
                assert(steps_down(vertices, edges, rest, i - 1));
                assert(rest[i - 1] == chain[i] && rest[i - 1 + 1] == chain[i + 1]);
            }
        }
        chain
    }
}

/// The group of the layout that a group of a level comes from.
proof fn lemma_kept_place(
    groups: Seq<SccGroup>,
    level: usize,
    defined: Seq<Seq<char>>,
    p: int,
) -> (k: int)
    requires
        0 <= p < topo::kept_groups(groups, level, defined).len(),
    ensures
        0 <= k < groups.len(),
        topo::kept_groups(groups, level, defined)[p] == (GroupView {
            id: groups[k].id,
            members: topo::kept(text::texts(groups[k].members@), defined),
            level,
            is_cycle: groups[k].is_cycle,
        }),
        topo::kept_groups(groups, level, defined)[p].members.len() > 0,
    decreases groups.len(),
{
    let before = topo::kept_groups(groups.drop_last(), level, defined);
    if p < before.len() {
        lemma_kept_place(groups.drop_last(), level, defined, p)
    } else {
        groups.len() - 1
    }
}

proof fn lemma_flat_place(levels: Seq<Level>, defined: Seq<Seq<char>>, p: int) -> (r: (int, int))
    requires
        0 <= p < topo::flat_groups(levels, defined).len(),
    ensures
        is_place(levels, r.0, r.1),
        ({
            let g = levels[r.0].groups@[r.1];
            topo::flat_groups(levels, defined)[p] == (GroupView {
                id: g.id,
                members: topo::kept(text::texts(g.members@), defined),
                level: levels[r.0].level,
                is_cycle: g.is_cycle,
            })
        }),
        topo::flat_groups(levels, defined)[p].members.len() > 0,
    decreases levels.len(),
{
    let rest = levels.drop_last();
    let before = topo::flat_groups(rest, defined);
    if p < before.len() {
        lemma_flat_place(rest, defined, p)
    } else {
        let k = lemma_kept_place(
            levels.last().groups@,
            levels.last().level,
            defined,
            p - before.len(),
        );
        (levels.len() - 1, k)
    }
}

/// Members that are left out leave the others in order.
proof fn lemma_kept_ordered(members: Seq<Seq<char>>, defined: Seq<Seq<char>>)
    requires
        text::ordered(members),
    ensures
        text::ordered(topo::kept(members, defined)),
    decreases members.len(),
{
    if members.len() > 0 {
        let rest = members.drop_last();
        assert(text::ordered(rest)) by {
            assert forall|i: int, j: int|
                #![trigger rest[i], rest[j]]
                0 <= i <= j < rest.len() implies text::text_le(rest[i], rest[j]) by {
                assert(rest[i] == members[i] && rest[j] == members[j]);
            }
        }
        lemma_kept_ordered(rest, defined);
        topo::lemma_kept(rest, defined);
        let before = topo::kept(rest, defined);
        let now = topo::kept(members, defined);
        assert forall|i: int, j: int|
            #![trigger now[i], now[j]]
            0 <= i <= j < now.len() implies text::text_le(now[i], now[j]) by {
            if j < before.len() {
                assert(now[i] == before[i] && now[j] == before[j]);
            } else {
                assert(now[j] == members[members.len() - 1]);
                if i < before.len() {
                    assert(before.contains(now[i]));
                    let m = rest.index_of(now[i]);
                    assert(members[m] == now[i]);
                } else {
                    assert(members[members.len() - 1] == now[i]);
                }
            }
        }
    }
}

/// A function that stands in two of the groups stands twice in the order.
proof fn lemma_one_flat_group(
    levels: Seq<Level>,
    defined: Seq<Seq<char>>,
    p: int,
    q: int,
    x: Seq<char>,
)
    requires
        topo::verification_order(levels, defined).no_duplicates(),
        0 <= p < q < topo::flat_groups(levels, defined).len(),
        topo::flat_groups(levels, defined)[p].members.contains(x),
    ensures
        !topo::flat_groups(levels, defined)[q].members.contains(x),
{
    let groups = topo::flat_groups(levels, defined);
    let order = topo::verification_order(levels, defined);
    topo::members_stand_together(levels, defined, p);
    topo::members_stand_together(levels, defined, q);
    let front = groups.take(p + 1);
    assert(front.drop_last() =~= groups.take(p));
    assert(groups.take(q) =~= front + groups.subrange(p + 1, q));
    topo::lemma_members_in_turn(front, groups.subrange(p + 1, q));
    let first = topo::members_in_turn(groups.take(p)).len() as int;
    let second = topo::members_in_turn(groups.take(q)).len() as int;
    assert(first + groups[p].members.len() <= second);
    if groups[q].members.contains(x) {
        let i = groups[p].members.index_of(x);
        let j = groups[q].members.index_of(x);
        assert(order.subrange(first, first + groups[p].members.len())[i] == order[first + i]);
        assert(order.subrange(second, second + groups[q].members.len())[j] == order[second + j]);
    }
}

/// The order that levels are flattened to, and its groups, go from the bottom up.
#[verifier::rlimit(40)]
pub proof fn flattened_levels_go_bottom_up(
    vertices: Seq<Seq<char>>,
    edges: Seq<(Seq<char>, Seq<char>)>,
    levels: Seq<Level>,
    defined: Seq<Seq<char>>,
    wanted: Set<Seq<char>>,
)
    requires
        vertices.len() <= usize::MAX,
        topo::lays_out(levels, vertices, edges),
        forall|x: Seq<char>| #[trigger] wanted.contains(x) <==> defined.contains(x),
    ensures
        is_bottom_up(
            vertices,
            edges,
            wanted,
            topo::verification_order(levels, defined),
            topo::flat_groups(levels, defined),
        ),
{
    let names = topo::distinct(vertices);
    let calls = topo::call_edges(names, edges);
    let comps = components::condensation_order(names.len(), calls);
    let order = topo::verification_order(levels, defined);
    let groups = topo::flat_groups(levels, defined);
    topo::lemma_distinct(vertices);
    topo::lemma_order_in_turn(levels, defined);
    if names.len() > 0 {
        topo::order_has_no_repetition(levels, names, calls, comps, defined);
        topo::order_is_complete(levels, names, calls, comps, defined);
    }
    assert forall|x: Seq<char>| #[trigger] order.contains(x) <==> vertices.contains(x)
        && wanted.contains(x) by {
        assert(names.contains(x) <==> vertices.contains(x));
    }
    assert forall|p: int| 0 <= p < groups.len() implies (#[trigger] groups[p]).members.len() > 0
        && text::ordered(groups[p].members) by {
        let (l, k) = lemma_flat_place(levels, defined, p);
        group_describes_itself(vertices, edges, levels, l, k);
        lemma_kept_ordered(text::texts(levels[l].groups@[k].members@), defined);
    }
    assert forall|p: int, q: int, x: Seq<char>, y: Seq<char>|
        0 <= p < groups.len() && 0 <= q < groups.len() && #[trigger] groups[p].members.contains(x)
            && #[trigger] groups[q].members.contains(y) implies (p == q <==> in_a_circle(
        vertices,
        edges,
        x,
        y,
    )) by {
        let (l, k) = lemma_flat_place(levels, defined, p);
        let (m, n) = lemma_flat_place(levels, defined, q);
        topo::lemma_kept(text::texts(levels[l].groups@[k].members@), defined);
        topo::lemma_kept(text::texts(levels[m].groups@[n].members@), defined);
        assert(in_group(levels, l, k, x));
        assert(in_group(levels, m, n, y));
        groups_are_the_circles(vertices, edges, levels, l, k, x, m, n, y);
        if p == q {
            assert(in_group(levels, l, k, y));
            groups_are_the_circles(vertices, edges, levels, l, k, x, l, k, y);
        } else if in_a_circle(vertices, edges, x, y) {
            assert(groups[p].members.contains(y));
            if p < q {
                lemma_one_flat_group(levels, defined, p, q, y);
            } else {
                assert(groups[q].members.contains(x));
                lemma_one_flat_group(levels, defined, q, p, x);
            }
        }
    }
    assert forall|p: int, q: int, x: Seq<char>, y: Seq<char>|
        0 <= p < groups.len() && 0 <= q < groups.len() && #[trigger] groups[p].members.contains(x)
            && #[trigger] groups[q].members.contains(y) && edges.contains((x, y)) && !calls_lead(
            vertices,
            edges,
            y,
            x,
        ) implies groups[q].level < groups[p].level && topo::comes_before(order, y, x) by {
        let (l, k) = lemma_flat_place(levels, defined, p);
        let (m, n) = lemma_flat_place(levels, defined, q);
        topo::lemma_kept(text::texts(levels[l].groups@[k].members@), defined);
        topo::lemma_kept(text::texts(levels[m].groups@[n].members@), defined);
        assert(in_group(levels, l, k, x));
        assert(in_group(levels, m, n, y));
        calls_lead_down(vertices, edges, levels, l, k, x, m, n, y);
        group_describes_itself(vertices, edges, levels, l, k);
        group_describes_itself(vertices, edges, levels, m, n);
        let (i, a) = lemma_in_group(vertices, edges, levels, l, k, x);
        let (j, b) = lemma_in_group(vertices, edges, levels, m, n, y);
        topo::lemma_named_edge(names, edges, x, y);
        lemma_leads(vertices, edges, b, a);
        topo::callees_come_first(levels, names, calls, comps, defined, a, b);
    }
    assert forall|p: int, x: Seq<char>, chain: Seq<Seq<char>>|
        0 <= p < groups.len() && #[trigger] groups[p].members.contains(x) && chain.len() > 0
            && chain[0] == x && #[trigger] descends(vertices, edges, chain) implies chain.len() - 1
        <= groups[p].level by {
        let (l, k) = lemma_flat_place(levels, defined, p);
        topo::lemma_kept(text::texts(levels[l].groups@[k].members@), defined);
        assert(in_group(levels, l, k, x));
        group_describes_itself(vertices, edges, levels, l, k);
        lemma_way_down(vertices, edges, levels, l, k, chain);
    }
    assert forall|p: int, x: Seq<char>|
        0 <= p < groups.len() && #[trigger] groups[p].members.contains(x) implies {
        &&& exists|chain: Seq<Seq<char>>|
            chain.len() == groups[p].level + 1 && chain[0] == x && #[trigger] descends(
                vertices,
                edges,
                chain,
            )
        &&& groups[p].is_cycle <==> edges.contains((x, x)) || exists|y: Seq<char>|
            y != x && vertices.contains(y) && #[trigger] in_a_circle(vertices, edges, x, y)
    } by {
        let (l, k) = lemma_flat_place(levels, defined, p);
        topo::lemma_kept(text::texts(levels[l].groups@[k].members@), defined);
        assert(in_group(levels, l, k, x));
        group_describes_itself(vertices, edges, levels, l, k);
        let chain = lemma_longest_way_down(vertices, edges, levels, l, k, x);
        assert(descends(vertices, edges, chain));
        let (i, a) = lemma_in_group(vertices, edges, levels, l, k, x);
        let at = lemma_place(vertices, edges, levels, l, k);
        lemma_circular(vertices, edges, comps, i, a);
    }
}

/// The functions that entries are about are the ready ones among the vertices, as
/// often as they are listed there.
proof fn lemma_ready_count(
    vertices: Seq<Seq<char>>,
    names: Seq<Seq<char>>,
    calls: Seq<(usize, usize)>,
    done: Seq<Seq<char>>,
    in_progress: Seq<Seq<char>>,
    x: Seq<char>,
)
    ensures
        topo::ready_names(vertices, names, calls, done, in_progress).to_multiset().count(x) == (
        if topo::ready(names, calls, done, in_progress, names.index_of(x) as usize) {
            vertices.to_multiset().count(x)
        } else {
            0
        }),
    decreases vertices.len(),
{
    broadcast use vstd::multiset::group_multiset_axioms;

    if vertices.len() > 0 {
        let rest = vertices.drop_last();
        lemma_ready_count(rest, names, calls, done, in_progress, x);
        let before = topo::ready_names(rest, names, calls, done, in_progress);
        vstd::seq_lib::to_multiset_build(rest, vertices.last());
        vstd::seq_lib::to_multiset_build(before, vertices.last());
        assert(vertices =~= rest.push(vertices.last()));
    } else {
        vstd::seq_lib::to_multiset_contains(vertices, x);
        vstd::seq_lib::to_multiset_contains(
            topo::ready_names(vertices, names, calls, done, in_progress),
            x,
        );
    }
}

/// Being ready, said of names: the function is neither done nor under way, and each
/// listed function that it calls is done or leads back to it.
proof fn lemma_ready_means(
    vertices: Seq<Seq<char>>,
    edges: Seq<(Seq<char>, Seq<char>)>,
    done: Seq<Seq<char>>,
    in_progress: Seq<Seq<char>>,
    x: Seq<char>,
)
    requires
        vertices.len() <= usize::MAX,
        vertices.contains(x),
    ensures
        ({
            let names = topo::distinct(vertices);
            let calls = topo::call_edges(names, edges);
            topo::ready(names, calls, done, in_progress, names.index_of(x) as usize) <==> {
                &&& !done.contains(x)
                &&& !in_progress.contains(x)
                &&& forall|c: Seq<char>| #[trigger]
                    edges.contains((x, c)) && vertices.contains(c) ==> done.contains(c)
                        || calls_lead(vertices, edges, c, x)
            }
        }),
{
    let names = topo::distinct(vertices);
    let calls = topo::call_edges(names, edges);
    topo::lemma_distinct(vertices);
    assert(names.contains(x));
    let i = names.index_of(x) as usize;
    assert(names[i as int] == x);
    if topo::ready(names, calls, done, in_progress, i) {
        assert forall|c: Seq<char>| #[trigger]
            edges.contains((x, c)) && vertices.contains(c) implies done.contains(c) || calls_lead(
            vertices,
            edges,
            c,
            x,
        ) by {
            assert(names.contains(c));
            let j = names.index_of(c) as usize;
            assert(names[j as int] == c);
            topo::lemma_named_edge(names, edges, x, c);
            assert(calls.contains((i, j)));
            lemma_leads(vertices, edges, j, i);
        }
    }
    if !done.contains(x) && !in_progress.contains(x) && forall|c: Seq<char>| #[trigger]
        edges.contains((x, c)) && vertices.contains(c) ==> done.contains(c) || calls_lead(
            vertices,
            edges,
            c,
            x,
        ) {
        assert forall|j: usize| #[trigger] calls.contains((i, j)) implies done.contains(
            names[j as int],
        ) || components::mutual(calls, i, j) by {
            topo::lemma_edge_names(names, edges, i, j);
            let c = names[j as int];
            assert(names.contains(c));
            assert(edges.contains((x, c)) && vertices.contains(c));
            lemma_leads(vertices, edges, j, i);
            lemma_call_leads(vertices, edges, x, c);
            lemma_leads(vertices, edges, i, j);
        }
    }
}

/// Nothing starts too early, and nothing that can start is left out. A function is
/// reported as ready exactly where it is listed, is neither done nor under way, and
/// calls no listed function that is not done, but for those from which calls lead
/// back to it. It is reported as often as it is listed, in the order of the names.
pub proof fn ready_exactly_when_callees_are_done(
    vertices: Seq<Seq<char>>,
    edges: Seq<(Seq<char>, Seq<char>)>,
    done: Seq<Seq<char>>,
    in_progress: Seq<Seq<char>>,
    entries: Seq<ReadyFunc>,
    x: Seq<char>,
)
    requires
        vertices.len() <= usize::MAX,
        topo::are_ready_entries(vertices, edges, done, in_progress, entries),
    ensures
        (exists|k: int| 0 <= k < entries.len() && (#[trigger] entries[k]).function@ == x) <==> {
            &&& vertices.contains(x)
            &&& !done.contains(x)
            &&& !in_progress.contains(x)
            &&& forall|c: Seq<char>| #[trigger]
                edges.contains((x, c)) && vertices.contains(c) ==> done.contains(c) || calls_lead(
                    vertices,
                    edges,
                    c,
                    x,
                )
        },
        ({
            let functions = entries.map_values(|e: ReadyFunc| e.function@);
            &&& functions.contains(x) ==> functions.to_multiset().count(x)
                == vertices.to_multiset().count(x)
            &&& forall|i: int, j: int|
                #![trigger entries[i], entries[j]]
                0 <= i <= j < entries.len() ==> text::text_le(
                    entries[i].function@,
                    entries[j].function@,
                )
        }),
{
    let names = topo::distinct(vertices);
    let calls = topo::call_edges(names, edges);
    let functions = topo::functions_of(entries);
    assert(functions =~= entries.map_values(|e: ReadyFunc| e.function@));
    lemma_ready_count(vertices, names, calls, done, in_progress, x);
    vstd::seq_lib::to_multiset_contains(functions, x);
    vstd::seq_lib::to_multiset_contains(vertices, x);
    if vertices.contains(x) {
        lemma_ready_means(vertices, edges, done, in_progress, x);
    }
    if exists|k: int| 0 <= k < entries.len() && (#[trigger] entries[k]).function@ == x {
        let k = choose|k: int| 0 <= k < entries.len() && (#[trigger] entries[k]).function@ == x;
        assert(functions[k] == x);
    }
    if functions.contains(x) {
        let k = functions.index_of(x);
        assert(entries[k].function@ == x);
    }
    assert forall|i: int, j: int|
        #![trigger entries[i], entries[j]]
        0 <= i <= j < entries.len() implies text::text_le(
        entries[i].function@,
        entries[j].function@,
    ) by {
        assert(functions[i] == entries[i].function@ && functions[j] == entries[j].function@);
    }
}

/// The entries are about the functions that can start, and no others: each is listed
/// among the vertices, is neither done nor under way, and calls no listed function that
/// is not done, but for those from which calls lead back to it.
pub open spec fn are_those_that_can_start(
    vertices: Seq<Seq<char>>,
    edges: Seq<(Seq<char>, Seq<char>)>,
    done: Seq<Seq<char>>,
    in_progress: Seq<Seq<char>>,
    entries: Seq<ReadyFunc>,
) -> bool {
    forall|x: Seq<char>|
        (exists|k: int| 0 <= k < entries.len() && (#[trigger] entries[k]).function@ == x) <==> {
            &&& #[trigger] vertices.contains(x)
            &&& !done.contains(x)
            &&& !in_progress.contains(x)
            &&& forall|c: Seq<char>| #[trigger]
                edges.contains((x, c)) && vertices.contains(c) ==> done.contains(c) || calls_lead(
                    vertices,
                    edges,
                    c,
                    x,
                )
        }
}

/// Every function is judged as [`ready_exactly_when_callees_are_done`] says of one.
pub proof fn entries_are_those_that_can_start(
    vertices: Seq<Seq<char>>,
    edges: Seq<(Seq<char>, Seq<char>)>,
    done: Seq<Seq<char>>,
    in_progress: Seq<Seq<char>>,
    entries: Seq<ReadyFunc>,
)
    requires
        vertices.len() <= usize::MAX,
        topo::are_ready_entries(vertices, edges, done, in_progress, entries),
    ensures
        are_those_that_can_start(vertices, edges, done, in_progress, entries),
{
    assert forall|x: Seq<char>|
        (exists|k: int| 0 <= k < entries.len() && (#[trigger] entries[k]).function@ == x) <==> {
            &&& #[trigger] vertices.contains(x)
            &&& !done.contains(x)
            &&& !in_progress.contains(x)
            &&& forall|c: Seq<char>| #[trigger]
                edges.contains((x, c)) && vertices.contains(c) ==> done.contains(c) || calls_lead(
                    vertices,
                    edges,
                    c,
                    x,
                )
        } by {
        ready_exactly_when_callees_are_done(vertices, edges, done, in_progress, entries, x);
    }
}

/// What an entry says of the circle of its function: it is marked exactly where the
/// function calls itself or calls lead from another function to it and back. Then
/// it lists all functions of the circle in order, each once, and bears a number;
/// else it lists the function alone, and bears none.
#[verifier::rlimit(40)]
pub proof fn entry_describes_its_circle(
    vertices: Seq<Seq<char>>,
    edges: Seq<(Seq<char>, Seq<char>)>,
    done: Seq<Seq<char>>,
    in_progress: Seq<Seq<char>>,
    entries: Seq<ReadyFunc>,
    k: int,
)
    requires
        vertices.len() <= usize::MAX,
        topo::are_ready_entries(vertices, edges, done, in_progress, entries),
        0 <= k < entries.len(),
    ensures
        ({
            let e = entries[k];
            let f = e.function@;
            let members = text::texts(e.scc_members@);
            &&& e.is_cycle <==> edges.contains((f, f)) || exists|y: Seq<char>|
                y != f && vertices.contains(y) && #[trigger] in_a_circle(vertices, edges, f, y)
            &&& e.is_cycle <==> e.scc_id is Some
            &&& e.is_cycle ==> {
                &&& members.no_duplicates()
                &&& forall|i: int, j: int|
                    #![trigger members[i], members[j]]
                    0 <= i <= j < members.len() ==> text::text_le(members[i], members[j])
                &&& forall|y: Seq<char>| #[trigger]
                    members.contains(y) <==> vertices.contains(y) && in_a_circle(
                        vertices,
                        edges,
                        f,
                        y,
                    )
            }
            &&& !e.is_cycle ==> members == seq![f]
        }),
{
    let names = topo::distinct(vertices);
    let calls = topo::call_edges(names, edges);
    let order = components::tarjan_order(names.len(), calls);
    let e = entries[k];
    let f = e.function@;
    let members = text::texts(e.scc_members@);
    topo::lemma_distinct(vertices);
    ready_exactly_when_callees_are_done(vertices, edges, done, in_progress, entries, f);
    assert(vertices.contains(f));
    assert(names.contains(f));
    let i = names.index_of(f) as usize;
    assert(names[i as int] == f);
    assert(topo::is_entry(e, names, calls, order, i));
    let c = choose|c: int|
        {
            &&& #[trigger] topo::holds(order, c, i)
            &&& e.is_cycle == topo::circular(order[c], calls)
            &&& if e.is_cycle {
                &&& e.scc_id == Some(c as u32)
                &&& text::ordered(text::texts(e.scc_members@))
                &&& text::texts(e.scc_members@).to_multiset() == topo::names_at(
                    names,
                    order[c],
                ).to_multiset()
            } else {
                &&& e.scc_id is None
                &&& text::texts(e.scc_members@) == seq![names[i as int]]
            }
        };
    lemma_circular(vertices, edges, order, c, i);
    lemma_component_named(vertices, edges, order, c, i);
    let own = topo::names_at(names, order[c]);
    if e.is_cycle {
        own.lemma_multiset_has_no_duplicates();
        members.lemma_multiset_has_no_duplicates_conv();
        assert forall|y: Seq<char>| #[trigger] members.contains(y) <==> vertices.contains(y)
            && in_a_circle(vertices, edges, f, y) by {
            vstd::seq_lib::to_multiset_contains(members, y);
            vstd::seq_lib::to_multiset_contains(own, y);
        }
    }
}

/// Two marked entries bear the same number exactly where their functions are in one
/// circle.
pub proof fn entries_are_numbered_by_circle(
    vertices: Seq<Seq<char>>,
    edges: Seq<(Seq<char>, Seq<char>)>,
    done: Seq<Seq<char>>,
    in_progress: Seq<Seq<char>>,
    entries: Seq<ReadyFunc>,
    p: int,
    q: int,
)
    requires
        vertices.len() < u32::MAX,
        topo::are_ready_entries(vertices, edges, done, in_progress, entries),
        0 <= p < entries.len(),
        0 <= q < entries.len(),
        entries[p].is_cycle,
        entries[q].is_cycle,
    ensures
        entries[p].scc_id == entries[q].scc_id <==> in_a_circle(
            vertices,
            edges,
            entries[p].function@,
            entries[q].function@,
        ),
{
    let names = topo::distinct(vertices);
    let calls = topo::call_edges(names, edges);
    let order = components::tarjan_order(names.len(), calls);
    let f = entries[p].function@;
    let g = entries[q].function@;
    topo::lemma_distinct(vertices);
    topo::lemma_component_count(order, names.len(), calls);
    ready_exactly_when_callees_are_done(vertices, edges, done, in_progress, entries, f);
    ready_exactly_when_callees_are_done(vertices, edges, done, in_progress, entries, g);
    assert(vertices.contains(f) && vertices.contains(g));
    assert(names.contains(f) && names.contains(g));
    let i = names.index_of(f) as usize;
    let j = names.index_of(g) as usize;
    assert(topo::is_entry(entries[p], names, calls, order, i));
    assert(topo::is_entry(entries[q], names, calls, order, j));
    let c = choose|c: int| #[trigger]
        topo::holds(order, c, i) && entries[p].scc_id == Some(c as u32);
    let d = choose|d: int| #[trigger]
        topo::holds(order, d, j) && entries[q].scc_id == Some(d as u32);
    lemma_component_named(vertices, edges, order, c, i);
    let own = topo::names_at(names, order[c]);
    if c == d {
        assert(own[order[c].index_of(j)] == g);
    }
    if own.contains(g) {
        let b = order[c][own.index_of(g)];
        assert(order[c].contains(b));
        assert(b == j);
    }
}

} // verus!
