//! The order in which functions are verified: callees before callers, functions
//! that call each other in a circle together.

pub mod laws;

use vstd::prelude::*;

use crate::components;
use crate::state::project::{GroupView, Level, SccGroup};
use crate::text;

verus! {

/// An error of the ordering.
#[derive(Debug)]
pub enum TopoError {
    Internal(String),
}

/// The names without repetition, in the order in which they first occur.
pub open spec fn distinct(names: Seq<Seq<char>>) -> Seq<Seq<char>>
    decreases names.len(),
{
    if names.len() == 0 {
        Seq::empty()
    } else {
        let before = distinct(names.drop_last());
        if before.contains(names.last()) {
            before
        } else {
            before.push(names.last())
        }
    }
}

/// The call edges between known names, by the names' positions.
pub open spec fn call_edges(
    names: Seq<Seq<char>>,
    edges: Seq<(Seq<char>, Seq<char>)>,
) -> Seq<(usize, usize)>
    decreases edges.len(),
{
    if edges.len() == 0 {
        Seq::empty()
    } else {
        let before = call_edges(names, edges.drop_last());
        let (caller, callee) = edges.last();
        if names.contains(caller) && names.contains(callee) {
            before.push((names.index_of(caller) as usize, names.index_of(callee) as usize))
        } else {
            before
        }
    }
}

/// The contents of a list of edges.
pub open spec fn edge_texts(edges: Seq<(String, String)>) -> Seq<(Seq<char>, Seq<char>)> {
    edges.map_values(|e: (String, String)| (e.0@, e.1@))
}

/// The distinct names are the names, each once.
pub proof fn lemma_distinct(names: Seq<Seq<char>>)
    ensures
        distinct(names).no_duplicates(),
        distinct(names).len() <= names.len(),
        forall|x: Seq<char>| #[trigger] distinct(names).contains(x) <==> names.contains(x),
    decreases names.len(),
{
    if names.len() > 0 {
        let rest = names.drop_last();
        lemma_distinct(rest);
        let before = distinct(rest);
        assert(names =~= rest.push(names.last()));
        assert forall|x: Seq<char>| #[trigger] distinct(names).contains(x) <==> names.contains(
            x,
        ) by {
            if names.contains(x) {
                let k = names.index_of(x);
                if k < rest.len() {
                    assert(rest[k] == x);
                    assert(before.contains(x));
                    let m = before.index_of(x);
                    assert(distinct(names)[m] == x);
                } else {
                    assert(x == names.last());
                    if !before.contains(x) {
                        assert(distinct(names).last() == x);
                    }
                }
            }
            if distinct(names).contains(x) {
                let m = distinct(names).index_of(x);
                if m < before.len() {
                    assert(before[m] == x);
                    assert(before.contains(x));
                    assert(rest.contains(x));
                    let k = rest.index_of(x);
                    assert(names[k] == x);
                } else {
                    assert(names[names.len() - 1] == x);
                }
            }
        }
    }
}

/// An edge between known names is an edge between their places.
pub proof fn lemma_named_edge(
    names: Seq<Seq<char>>,
    edges: Seq<(Seq<char>, Seq<char>)>,
    a: Seq<char>,
    b: Seq<char>,
)
    requires
        edges.contains((a, b)),
        names.contains(a),
        names.contains(b),
    ensures
        call_edges(names, edges).contains(
            (names.index_of(a) as usize, names.index_of(b) as usize),
        ),
    decreases edges.len(),
{
    let e = (names.index_of(a) as usize, names.index_of(b) as usize);
    let all = call_edges(names, edges);
    if edges.last() == (a, b) {
        assert(all.last() == e);
    } else {
        let rest = edges.drop_last();
        let k = edges.index_of((a, b));
        assert(rest[k] == (a, b));
        lemma_named_edge(names, rest, a, b);
        let before = call_edges(names, rest);
        assert(all[before.index_of(e)] == e);
    }
}

proof fn lemma_call_edges(names: Seq<Seq<char>>, edges: Seq<(Seq<char>, Seq<char>)>)
    requires
        names.len() <= usize::MAX,
    ensures
        call_edges(names, edges).len() <= edges.len(),
        forall|k: int|
            0 <= k < call_edges(names, edges).len() ==> {
                let e = #[trigger] call_edges(names, edges)[k];
                e.0 < names.len() && e.1 < names.len()
            },
    decreases edges.len(),
{
    if edges.len() > 0 {
        lemma_call_edges(names, edges.drop_last());
        let (caller, callee) = edges.last();
        if names.contains(caller) && names.contains(callee) {
            let a = names.index_of(caller);
            let b = names.index_of(callee);
        }
    }
}

/// The position of `x` among `names`.
fn position(names: &Vec<String>, x: &str) -> (r: Option<usize>)
    requires
        text::texts(names@).no_duplicates(),
    ensures
        match r {
            Some(i) => text::texts(names@).contains(x@) && i == text::texts(names@).index_of(x@) && i
                < names@.len(),
            None => !text::texts(names@).contains(x@),
        },
{
    let ghost all = text::texts(names@);
    let mut i: usize = 0;
    while i < names.len()
        invariant
            i <= names@.len(),
            all == text::texts(names@),
            all.no_duplicates(),
            forall|j: int| 0 <= j < i ==> #[trigger] all[j] != x@,
        decreases names@.len() - i,
    {
        if text::same_text(names[i].as_str(), x) {
            assert(all[i as int] == x@);
            assert(all.index_of(x@) == i);
            return Some(i);
        }
        assert(all[i as int] != x@);
        i = i + 1;
    }
    None
}

/// The call graph: the distinct names, and the graph over their positions.
fn build_graph(vertices: &[String], edges: &[(String, String)]) -> (r: (
    Vec<String>,
    petgraph::graph::DiGraph<usize, ()>,
))
    requires
        vertices@.len() < u32::MAX,
        edges@.len() < u32::MAX,
    ensures
        text::texts(r.0@) == distinct(text::texts(vertices@)),
        text::texts(r.0@).no_duplicates(),
        r.0@.len() < u32::MAX,
        components::numbered(components::graph_nodes(r.1)),
        components::graph_nodes(r.1).len() == r.0@.len(),
        components::graph_edges(r.1) == call_edges(
            distinct(text::texts(vertices@)),
            edge_texts(edges@),
        ),
{
    let ghost all = text::texts(vertices@);
    let mut g = components::new_graph();
    let mut names: Vec<String> = Vec::new();
    let mut i: usize = 0;
    proof {
        assert(all.take(0) =~= Seq::<Seq<char>>::empty());
        assert(text::texts(names@) =~= distinct(all.take(0)));
    }
    while i < vertices.len()
        invariant
            vertices@.len() < u32::MAX,
            all == text::texts(vertices@),
            i <= vertices@.len(),
            text::texts(names@) == distinct(all.take(i as int)),
            text::texts(names@).no_duplicates(),
            names@.len() <= i,
            components::numbered(components::graph_nodes(g)),
            components::graph_nodes(g).len() == names@.len(),
            components::graph_edges(g) == Seq::<(usize, usize)>::empty(),
        decreases vertices@.len() - i,
    {
        let ghost before = distinct(all.take(i as int));
        proof {
            assert(all.take(i + 1).drop_last() =~= all.take(i as int));
            lemma_distinct(all.take(i + 1));
        }
        match position(&names, vertices[i].as_str()) {
            Some(_) => {},
            None => {
                let n = components::add_node(&mut g, names.len());
                let name = vertices[i].clone();
                assert(text::texts(names@.push(name)) =~= before.push(name@));
                names.push(name);
            },
        }
        i = i + 1;
    }
    let ghost known = text::texts(names@);
    let ghost calls = edge_texts(edges@);
    let mut k: usize = 0;
    proof {
        assert(all.take(i as int) =~= all);
        assert(calls.take(0) =~= Seq::<(Seq<char>, Seq<char>)>::empty());
        lemma_call_edges(known, calls.take(0));
    }
    while k < edges.len()
        invariant
            edges@.len() < u32::MAX,
            known == text::texts(names@),
            known.no_duplicates(),
            calls == edge_texts(edges@),
            k <= edges@.len(),
            components::numbered(components::graph_nodes(g)),
            components::graph_nodes(g).len() == names@.len(),
            components::graph_edges(g) == call_edges(known, calls.take(k as int)),
            components::graph_edges(g).len() <= k,
        decreases edges@.len() - k,
    {
        proof {
            assert(calls.take(k + 1).drop_last() =~= calls.take(k as int));
            assert(calls.take(k + 1).last() == calls[k as int]);
        }
        match (position(&names, edges[k].0.as_str()), position(&names, edges[k].1.as_str())) {
            (Some(c), Some(d)) => {
                components::add_edge(&mut g, c, d);
            },
            _ => {},
        }
        k = k + 1;
    }
    proof {
        assert(calls.take(k as int) =~= calls);
    }
    (names, g)
}

/// The level of group `i`: 0 where it calls no other group, else one more than
/// the highest level among the groups that it calls.
pub open spec fn level_of(comps: Seq<Seq<usize>>, edges: Seq<(usize, usize)>, i: int) -> nat
    decreases i, 2 + i,
{
    if i < 0 {
        0
    } else {
        level_above(comps, edges, i, i)
    }
}

/// The least level above those of the groups that group `i` calls among the
/// first `k`. Groups are listed callees first, so `i` calls none behind it.
pub open spec fn level_above(
    comps: Seq<Seq<usize>>,
    edges: Seq<(usize, usize)>,
    i: int,
    k: int,
) -> nat
    decreases i, 1 + k,
{
    if k <= 0 || k > i {
        0
    } else {
        let rest = level_above(comps, edges, i, k - 1);
        let here = 1 + level_of(comps, edges, k - 1);
        if components::component_edge(comps, edges, i, k - 1) && here > rest {
            here
        } else {
            rest
        }
    }
}

/// The number of levels: one more than the highest level of a group.
pub open spec fn height(comps: Seq<Seq<usize>>, edges: Seq<(usize, usize)>, n: int) -> nat
    decreases n,
{
    if n <= 0 {
        0
    } else {
        let rest = height(comps, edges, n - 1);
        let here = 1 + level_of(comps, edges, n - 1);
        if here > rest {
            here
        } else {
            rest
        }
    }
}

/// The groups of level `l` among the first `n`, in their order.
pub open spec fn at_level(
    comps: Seq<Seq<usize>>,
    edges: Seq<(usize, usize)>,
    l: nat,
    n: int,
) -> Seq<int>
    decreases n,
{
    if n <= 0 {
        Seq::empty()
    } else {
        let rest = at_level(comps, edges, l, n - 1);
        if level_of(comps, edges, n - 1) == l {
            rest.push(n - 1)
        } else {
            rest
        }
    }
}

/// How many groups stand on the levels below `l`.
pub open spec fn below_level(comps: Seq<Seq<usize>>, edges: Seq<(usize, usize)>, l: nat) -> nat
    decreases l,
{
    if l == 0 {
        0
    } else {
        below_level(comps, edges, (l - 1) as nat) + at_level(
            comps,
            edges,
            (l - 1) as nat,
            comps.len() as int,
        ).len()
    }
}

/// The names at the given positions.
pub open spec fn names_at(names: Seq<Seq<char>>, at: Seq<usize>) -> Seq<Seq<char>> {
    at.map_values(|i: usize| names[i as int])
}

/// The functions of a component call each other in a circle: there are several,
/// or the one calls itself.
pub open spec fn circular(comp: Seq<usize>, edges: Seq<(usize, usize)>) -> bool {
    comp.len() >= 2 || edges.contains((comp[0], comp[0]))
}

/// `g` is the group of component `comp`, with number `id`, on level `l`. Its
/// members stand in order.
pub open spec fn is_group(
    g: SccGroup,
    names: Seq<Seq<char>>,
    edges: Seq<(usize, usize)>,
    comp: Seq<usize>,
    id: nat,
    l: nat,
) -> bool {
    &&& g.id == id
    &&& g.level == l
    &&& g.is_cycle == circular(comp, edges)
    &&& text::ordered(text::texts(g.members@))
    &&& text::texts(g.members@).to_multiset() == names_at(names, comp).to_multiset()
}

/// `levels` lays the components out: level `l` holds the components of that
/// level, in their order, numbered across all levels.
pub open spec fn is_layout(
    levels: Seq<Level>,
    names: Seq<Seq<char>>,
    edges: Seq<(usize, usize)>,
    comps: Seq<Seq<usize>>,
) -> bool {
    &&& levels.len() == height(comps, edges, comps.len() as int)
    &&& forall|l: int|
        0 <= l < levels.len() ==> is_level(#[trigger] levels[l], names, edges, comps, l as nat)
}

/// `lv` is level `l` of the layout.
pub open spec fn is_level(
    lv: Level,
    names: Seq<Seq<char>>,
    edges: Seq<(usize, usize)>,
    comps: Seq<Seq<usize>>,
    l: nat,
) -> bool {
    let here = at_level(comps, edges, l, comps.len() as int);
    &&& lv.level == l
    &&& lv.groups@.len() == here.len()
    &&& forall|k: int|
        0 <= k < here.len() ==> is_group(
            #[trigger] lv.groups@[k],
            names,
            edges,
            comps[here[k]],
            below_level(comps, edges, l) + k as nat,
            l,
        )
}

/// `levels` lays out the call graph of these functions and calls.
pub open spec fn lays_out(
    levels: Seq<Level>,
    vertices: Seq<Seq<char>>,
    edges: Seq<(Seq<char>, Seq<char>)>,
) -> bool {
    let names = distinct(vertices);
    let calls = call_edges(names, edges);
    let comps = components::condensation_order(names.len(), calls);
    if names.len() == 0 {
        levels.len() == 0
    } else {
        &&& components::are_components(comps, names.len(), calls)
        &&& is_layout(levels, names, calls, comps)
    }
}

proof fn lemma_at_level(comps: Seq<Seq<usize>>, edges: Seq<(usize, usize)>, l: nat, n: int)
    requires
        0 <= n <= comps.len(),
    ensures
        forall|k: int|
            0 <= k < at_level(comps, edges, l, n).len() ==> {
                let i = #[trigger] at_level(comps, edges, l, n)[k];
                0 <= i < n && level_of(comps, edges, i) == l
            },
    decreases n,
{
    if n > 0 {
        lemma_at_level(comps, edges, l, n - 1);
        let here = at_level(comps, edges, l, n);
        let rest = at_level(comps, edges, l, n - 1);
        assert forall|k: int| 0 <= k < here.len() implies 0 <= #[trigger] here[k] < n && level_of(
            comps,
            edges,
            here[k],
        ) == l by {
            if k < rest.len() {
                assert(here[k] == rest[k]);
            }
        }
    }
}

/// How many groups of the first `n` stand below level `l`.
spec fn below(comps: Seq<Seq<usize>>, edges: Seq<(usize, usize)>, l: nat, n: int) -> nat
    decreases n,
{
    if n <= 0 {
        0
    } else {
        below(comps, edges, l, n - 1) + if level_of(comps, edges, n - 1) < l {
            1nat
        } else {
            0nat
        }
    }
}

proof fn lemma_below_step(comps: Seq<Seq<usize>>, edges: Seq<(usize, usize)>, l: nat, n: int)
    requires
        0 <= n,
    ensures
        below(comps, edges, l + 1, n) == below(comps, edges, l, n) + at_level(
            comps,
            edges,
            l,
            n,
        ).len(),
        below(comps, edges, l, n) <= n,
        below(comps, edges, 0, n) == 0,
    decreases n,
{
    if n > 0 {
        lemma_below_step(comps, edges, l, n - 1);
    }
}

proof fn lemma_below_level(comps: Seq<Seq<usize>>, edges: Seq<(usize, usize)>, l: nat)
    ensures
        below_level(comps, edges, l) == below(comps, edges, l, comps.len() as int),
        below_level(comps, edges, l) <= comps.len(),
    decreases l,
{
    lemma_below_step(comps, edges, l, comps.len() as int);
    if l > 0 {
        lemma_below_level(comps, edges, (l - 1) as nat);
        lemma_below_step(comps, edges, (l - 1) as nat, comps.len() as int);
    }
}

proof fn lemma_level_bound(comps: Seq<Seq<usize>>, edges: Seq<(usize, usize)>, i: int, k: int)
    requires
        0 <= k <= i,
    ensures
        level_above(comps, edges, i, k) <= k,
    decreases i, k,
{
    if k > 0 {
        lemma_level_bound(comps, edges, i, k - 1);
        lemma_level_bound(comps, edges, k - 1, k - 1);
        assert(level_of(comps, edges, k - 1) == level_above(comps, edges, k - 1, k - 1));
    }
}

/// `m` is one more than the level of a group that `i` calls.
spec fn above_some(
    comps: Seq<Seq<usize>>,
    edges: Seq<(usize, usize)>,
    i: int,
    k: int,
    m: nat,
) -> bool {
    exists|j: int|
        0 <= j < k && #[trigger] components::component_edge(comps, edges, i, j) && m == 1
            + level_of(comps, edges, j)
}

/// The level above the called groups is above each of them, and just above one.
proof fn lemma_level_above(comps: Seq<Seq<usize>>, edges: Seq<(usize, usize)>, i: int, k: int)
    requires
        0 <= k <= i,
    ensures
        forall|j: int|
            0 <= j < k && #[trigger] components::component_edge(comps, edges, i, j) ==> level_of(
                comps,
                edges,
                j,
            ) < level_above(comps, edges, i, k),
        level_above(comps, edges, i, k) == 0 || above_some(
            comps,
            edges,
            i,
            k,
            level_above(comps, edges, i, k),
        ),
    decreases k,
{
    if k > 0 {
        lemma_level_above(comps, edges, i, k - 1);
        let rest = level_above(comps, edges, i, k - 1);
        let here = 1 + level_of(comps, edges, k - 1);
        if components::component_edge(comps, edges, i, k - 1) && here > rest {
            assert(above_some(comps, edges, i, k, here));
        } else if rest > 0 {
            let j = choose|j: int|
                0 <= j < k - 1 && #[trigger] components::component_edge(comps, edges, i, j) && rest
                    == 1 + level_of(comps, edges, j);
            assert(components::component_edge(comps, edges, i, j));
            assert(above_some(comps, edges, i, k, rest));
        }
    }
}

proof fn lemma_height(comps: Seq<Seq<usize>>, edges: Seq<(usize, usize)>, n: int, i: int)
    requires
        0 <= i < n,
    ensures
        level_of(comps, edges, i) < height(comps, edges, n),
    decreases n,
{
    if i < n - 1 {
        lemma_height(comps, edges, n - 1, i);
    }
}

/// The level of each component.
fn component_levels(
    c: &petgraph::graph::DiGraph<Vec<usize>, ()>,
    Ghost(nodes): Ghost<nat>,
    Ghost(edges): Ghost<Seq<(usize, usize)>>,
) -> (r: Vec<usize>)
    requires
        components::are_components(components::condensed_nodes(*c), nodes, edges),
        forall|i: usize, j: usize|
            i < components::condensed_nodes(*c).len() && j < components::condensed_nodes(*c).len()
                ==> (#[trigger] components::condensed_edges(*c).contains((i, j))
                <==> components::component_edge(
                components::condensed_nodes(*c),
                edges,
                i as int,
                j as int,
            )),
    ensures
        r@.len() == components::condensed_nodes(*c).len(),
        forall|i: int|
            0 <= i < r@.len() ==> #[trigger] r@[i] == level_of(
                components::condensed_nodes(*c),
                edges,
                i,
            ),
{
    let ghost comps = components::condensed_nodes(*c);
    let n: usize = components::component_count(c);
    let mut levels: Vec<usize> = Vec::new();
    let mut i: usize = 0;
    while i < n
        invariant
            n == comps.len(),
            i <= n,
            comps == components::condensed_nodes(*c),
            components::are_components(comps, nodes, edges),
            forall|i: usize, j: usize|
                i < comps.len() && j < comps.len() ==> (#[trigger] components::condensed_edges(
                    *c,
                ).contains((i, j)) <==> components::component_edge(
                    comps,
                    edges,
                    i as int,
                    j as int,
                )),
            levels@.len() == i,
            forall|j: int| 0 <= j < i ==> #[trigger] levels@[j] == level_of(comps, edges, j),
        decreases n - i,
    {
        let called = components::component_callees(c, i);
        proof {
            components::lemma_targets(components::condensed_edges(*c), i);
            assert forall|j: usize| #[trigger] called@.contains(j) && j < n implies j < i by {
                assert(components::condensed_edges(*c).contains((i, j)));
                let (a, b) = choose|a: usize, b: usize|
                    #[trigger] comps[i as int].contains(a) && #[trigger] comps[j as int].contains(b)
                        && edges.contains((a, b));
                assert(j <= i);
            }
        }
        let mut level: usize = 0;
        let mut k: usize = 0;
        while k < called.len()
            invariant
                n == comps.len(),
                i < n,
                k <= called@.len(),
                comps == components::condensed_nodes(*c),
                forall|k: int| 0 <= k < called@.len() ==> #[trigger] called@[k] < n,
                forall|j: usize| #[trigger] called@.contains(j) && j < n ==> j < i,
                forall|j: usize|
                    #[trigger] called@.contains(j) <==> components::condensed_edges(*c).contains(
                        (i, j),
                    ),
                forall|i: usize, j: usize|
                    i < comps.len() && j < comps.len() ==> (#[trigger] components::condensed_edges(
                        *c,
                    ).contains((i, j)) <==> components::component_edge(
                        comps,
                        edges,
                        i as int,
                        j as int,
                    )),
                levels@.len() == i,
                forall|j: int| 0 <= j < i ==> #[trigger] levels@[j] == level_of(comps, edges, j),
                forall|m: int|
                    0 <= m < k ==> level_of(comps, edges, (#[trigger] called@[m]) as int) < level,
                level == 0 || above_some(comps, edges, i as int, i as int, level as nat),
            decreases called@.len() - k,
        {
            let j: usize = called[k];
            proof {
                assert(called@.contains(j));
                assert(components::component_edge(comps, edges, i as int, j as int));
                lemma_level_bound(comps, edges, j as int, j as int);
            }
            if levels[j] + 1 > level {
                level = levels[j] + 1;
            }
            k = k + 1;
        }
        proof {
            lemma_level_above(comps, edges, i as int, i as int);
            let exact = level_above(comps, edges, i as int, i as int);
            assert forall|j: int|
                0 <= j < i && #[trigger] components::component_edge(
                    comps,
                    edges,
                    i as int,
                    j,
                ) implies level_of(comps, edges, j) < level by {
                assert(components::condensed_edges(*c).contains((i, j as usize)));
                assert(called@.contains(j as usize));
                let m = called@.index_of(j as usize);
                assert(level_of(comps, edges, called@[m] as int) < level);
            }
            assert(exact == level);
            assert(level_of(comps, edges, i as int) == exact);
        }
        levels.push(level);
        i = i + 1;
    }
    levels
}

/// The names at the given positions, in order.
fn sorted_names(names: &Vec<String>, at: &Vec<usize>) -> (r: Vec<String>)
    requires
        forall|k: int| 0 <= k < at@.len() ==> #[trigger] at@[k] < names@.len(),
    ensures
        text::ordered(text::texts(r@)),
        text::texts(r@).to_multiset() == names_at(text::texts(names@), at@).to_multiset(),
{
    let mut r: Vec<String> = Vec::new();
    let mut k: usize = 0;
    while k < at.len()
        invariant
            forall|k: int| 0 <= k < at@.len() ==> #[trigger] at@[k] < names@.len(),
            k <= at@.len(),
            text::texts(r@) =~= names_at(text::texts(names@), at@).take(k as int),
        decreases at@.len() - k,
    {
        let i: usize = at[k];
        assert(at@[k as int] < names@.len());
        let name = names[i].clone();
        assert(text::texts(r@.push(name)) =~= text::texts(r@).push(name@));
        r.push(name);
        k = k + 1;
    }
    assert(text::texts(r@) =~= names_at(text::texts(names@), at@));
    text::sort(&mut r);
    r
}

/// The call graph in levels, bottom up: level 0 holds the groups that call no
/// other group, and every group stands above the groups that it calls.
///
/// A group is a strongly connected component of the call graph. It is marked as
/// circular where it has several members, or where its one member calls itself.
/// Names that occur in no edge are groups of one. Edges with a name that is not
/// among the vertices are passed over. Members stand in order, and groups are
/// numbered across the levels.
pub fn compute_topological_order(vertices: &[String], edges: &[(String, String)]) -> (r: Result<
    Vec<Level>,
    TopoError,
>)
    requires
        vertices@.len() < u32::MAX,
        edges@.len() < u32::MAX,
    ensures
        r is Ok,
        lays_out(r->Ok_0@, text::texts(vertices@), edge_texts(edges@)),
        laws::are_levels_of(text::texts(vertices@), edge_texts(edges@), r->Ok_0@),
{
    let (names, g) = build_graph(vertices, edges);
    if names.len() == 0 {
        let none: Vec<Level> = Vec::new();
        proof {
            laws::layout_is_along_the_calls(
                text::texts(vertices@),
                edge_texts(edges@),
                none@,
            );
        }
        return Ok(none);
    }
    let ghost known = text::texts(names@);
    let ghost calls = components::graph_edges(g);
    let mut self_loops: Vec<bool> = Vec::new();
    let mut i: usize = 0;
    while i < names.len()
        invariant
            names@.len() < u32::MAX,
            i <= names@.len(),
            calls == components::graph_edges(g),
            self_loops@.len() == i,
            forall|j: usize| j < i ==> #[trigger] self_loops@[j as int] == calls.contains((j, j)),
        decreases names@.len() - i,
    {
        self_loops.push(components::contains_edge(&g, i, i));
        i = i + 1;
    }
    let c = components::condensation(g);
    let ghost comps = components::condensed_nodes(c);
    let n: usize = components::component_count(&c);
    let levels_map = component_levels(&c, Ghost(names@.len()), Ghost(calls));
    let mut top: usize = 0;
    let mut i: usize = 0;
    while i < n
        invariant
            n == comps.len(),
            i <= n,
            levels_map@.len() == n,
            forall|j: int| 0 <= j < n ==> #[trigger] levels_map@[j] == level_of(comps, calls, j),
            top == height(comps, calls, i as int),
        decreases n - i,
    {
        proof {
            lemma_level_bound(comps, calls, i as int, i as int);
            assert(level_of(comps, calls, i as int) == level_above(
                comps,
                calls,
                i as int,
                i as int,
            ));
            assert(levels_map@[i as int] == level_of(comps, calls, i as int));
        }
        if levels_map[i] + 1 > top {
            top = levels_map[i] + 1;
        }
        i = i + 1;
    }
    proof {
        lemma_component_count(comps, names@.len(), calls);
    }
    let mut levels: Vec<Level> = Vec::new();
    let mut next_id: u32 = 0;
    let mut l: usize = 0;
    while l < top
        invariant
            n == comps.len(),
            n <= names@.len() < u32::MAX,
            known == text::texts(names@),
            comps == components::condensed_nodes(c),
            components::are_components(comps, names@.len(), calls),
            self_loops@.len() == names@.len(),
            forall|j: usize|
                j < names@.len() ==> #[trigger] self_loops@[j as int] == calls.contains((j, j)),
            levels_map@.len() == n,
            forall|j: int| 0 <= j < n ==> #[trigger] levels_map@[j] == level_of(comps, calls, j),
            top == height(comps, calls, n as int),
            l <= top,
            levels@.len() == l,
            next_id == below_level(comps, calls, l as nat),
            forall|k: int|
                0 <= k < l ==> is_level(#[trigger] levels@[k], known, calls, comps, k as nat),
        decreases top - l,
    {
        let ghost first = next_id as nat;
        let mut groups: Vec<SccGroup> = Vec::new();
        let mut i: usize = 0;
        while i < n
            invariant
                n == comps.len(),
                n <= names@.len() < u32::MAX,
                known == text::texts(names@),
                comps == components::condensed_nodes(c),
                components::are_components(comps, names@.len(), calls),
                self_loops@.len() == names@.len(),
                forall|j: usize|
                    j < names@.len() ==> #[trigger] self_loops@[j as int] == calls.contains((j, j)),
                levels_map@.len() == n,
                forall|j: int| 0 <= j < n ==> #[trigger] levels_map@[j] == level_of(comps, calls, j),
                i <= n,
                first == below_level(comps, calls, l as nat),
                next_id == first + groups@.len(),
                groups@.len() == at_level(comps, calls, l as nat, i as int).len(),
                forall|k: int|
                    0 <= k < groups@.len() ==> is_group(
                        #[trigger] groups@[k],
                        known,
                        calls,
                        comps[at_level(comps, calls, l as nat, i as int)[k]],
                        first + k as nat,
                        l as nat,
                    ),
            decreases n - i,
        {
            assert(levels_map@[i as int] == level_of(comps, calls, i as int));
            if levels_map[i] == l {
                let comp = components::component(&c, i);
                assert(comp@ == comps[i as int]);
                assert forall|k: int| 0 <= k < comp@.len() implies #[trigger] comp@[k]
                    < names@.len() by {
                    assert(comps[i as int].contains(comp@[k]));
                }
                let members = sorted_names(&names, &comp);
                let is_cycle = comp.len() >= 2 || self_loops[comp[0]];
                proof {
                    lemma_below_level(comps, calls, (l + 1) as nat);
                    lemma_at_level_len(comps, calls, l as nat, i as int + 1, n as int);
                }
                groups.push(SccGroup { id: next_id, members, level: l, is_cycle });
                next_id = next_id + 1;
            }
            i = i + 1;
        }
        levels.push(Level { level: l, groups });
        l = l + 1;
    }
    proof {
        laws::layout_is_along_the_calls(
            text::texts(vertices@),
            edge_texts(edges@),
            levels@,
        );
    }
    Ok(levels)
}

proof fn lemma_at_level_len(
    comps: Seq<Seq<usize>>,
    edges: Seq<(usize, usize)>,
    l: nat,
    m: int,
    n: int,
)
    requires
        0 <= m <= n,
    ensures
        at_level(comps, edges, l, m).len() <= at_level(comps, edges, l, n).len(),
    decreases n,
{
    if m < n {
        lemma_at_level_len(comps, edges, l, m, n - 1);
    }
}

/// There are no more components than nodes.
proof fn lemma_component_count(comps: Seq<Seq<usize>>, nodes: nat, edges: Seq<(usize, usize)>)
    requires
        components::are_components(comps, nodes, edges),
    ensures
        comps.len() <= nodes,
{
    let firsts = comps.map_values(|c: Seq<usize>| c[0] as int);
    assert forall|i: int, j: int| 0 <= i < j < firsts.len() implies firsts[i] != firsts[j] by {
        assert(comps[i].contains(comps[i][0]));
        assert(comps[j].contains(comps[j][0]));
    }
    assert(firsts.no_duplicates());
    firsts.unique_seq_to_set();
    let all = vstd::set_lib::set_int_range(0, nodes as int);
    vstd::set_lib::lemma_int_range(0, nodes as int);
    assert forall|x: int| #[trigger] firsts.to_set().contains(x) implies all.contains(x) by {
        let i = firsts.index_of(x);
        assert(comps[i].contains(comps[i][0]));
    }
    vstd::set_lib::lemma_len_subset(firsts.to_set(), all);
}

/// A function whose verification can start.
#[derive(Debug)]
pub struct ReadyFunc {
    pub function: String,
    /// The number of the function's group, where it is circular.
    pub scc_id: Option<u32>,
    pub is_cycle: bool,
    /// The members of the function's group in order, where it is circular; else
    /// the function alone.
    pub scc_members: Vec<String>,
}

/// The verification of the function at position `i` can start: it is neither
/// done nor under way, and each function that it calls is done or in its group.
pub open spec fn ready(
    names: Seq<Seq<char>>,
    calls: Seq<(usize, usize)>,
    done: Seq<Seq<char>>,
    in_progress: Seq<Seq<char>>,
    i: usize,
) -> bool {
    &&& !done.contains(names[i as int])
    &&& !in_progress.contains(names[i as int])
    &&& forall|j: usize| #[trigger]
        calls.contains((i, j)) ==> done.contains(names[j as int]) || components::mutual(calls, i, j)
}

/// The names among `vertices` whose verification can start.
pub open spec fn ready_names(
    vertices: Seq<Seq<char>>,
    names: Seq<Seq<char>>,
    calls: Seq<(usize, usize)>,
    done: Seq<Seq<char>>,
    in_progress: Seq<Seq<char>>,
) -> Seq<Seq<char>>
    decreases vertices.len(),
{
    if vertices.len() == 0 {
        Seq::empty()
    } else {
        let before = ready_names(vertices.drop_last(), names, calls, done, in_progress);
        if ready(names, calls, done, in_progress, names.index_of(vertices.last()) as usize) {
            before.push(vertices.last())
        } else {
            before
        }
    }
}

/// Component `k` holds node `i`.
pub open spec fn holds(order: Seq<Seq<usize>>, k: int, i: usize) -> bool {
    0 <= k < order.len() && order[k].contains(i)
}

/// `e` says of the function at position `i` what group it is in.
pub open spec fn is_entry(
    e: ReadyFunc,
    names: Seq<Seq<char>>,
    calls: Seq<(usize, usize)>,
    order: Seq<Seq<usize>>,
    i: usize,
) -> bool {
    exists|k: int|
        {
            &&& #[trigger] holds(order, k, i)
            &&& e.is_cycle == circular(order[k], calls)
            &&& if e.is_cycle {
                &&& e.scc_id == Some(k as u32)
                &&& text::ordered(text::texts(e.scc_members@))
                &&& text::texts(e.scc_members@).to_multiset() == names_at(
                    names,
                    order[k],
                ).to_multiset()
            } else {
                &&& e.scc_id is None
                &&& text::texts(e.scc_members@) == seq![names[i as int]]
            }
        }
}

/// The functions that entries are about.
pub open spec fn functions_of(entries: Seq<ReadyFunc>) -> Seq<Seq<char>> {
    entries.map_values(|e: ReadyFunc| e.function@)
}

/// The entries are about the functions whose verification can start, in order.
pub open spec fn are_ready_entries(
    vertices: Seq<Seq<char>>,
    edges: Seq<(Seq<char>, Seq<char>)>,
    done: Seq<Seq<char>>,
    in_progress: Seq<Seq<char>>,
    entries: Seq<ReadyFunc>,
) -> bool {
    let names = distinct(vertices);
    let calls = call_edges(names, edges);
    let order = components::tarjan_order(names.len(), calls);
    &&& components::are_components(order, names.len(), calls)
    &&& text::ordered(functions_of(entries))
    &&& functions_of(entries).to_multiset() == ready_names(
        vertices,
        names,
        calls,
        done,
        in_progress,
    ).to_multiset()
    &&& forall|k: int|
        0 <= k < entries.len() ==> is_entry(
            #[trigger] entries[k],
            names,
            calls,
            order,
            names.index_of(entries[k].function@) as usize,
        )
}

/// Whether `x` is among `all`.
fn is_among(all: &[String], x: &str) -> (r: bool)
    ensures
        r == text::texts(all@).contains(x@),
{
    let mut i: usize = 0;
    while i < all.len()
        invariant
            i <= all@.len(),
            forall|j: int| 0 <= j < i ==> #[trigger] text::texts(all@)[j] != x@,
        decreases all@.len() - i,
    {
        if text::same_text(all[i].as_str(), x) {
            assert(text::texts(all@)[i as int] == x@);
            return true;
        }
        i = i + 1;
    }
    false
}

/// The component that holds node `i`.
fn component_holding(
    sccs: &Vec<Vec<usize>>,
    i: usize,
    Ghost(nodes): Ghost<nat>,
    Ghost(calls): Ghost<Seq<(usize, usize)>>,
) -> (k: usize)
    requires
        components::are_components(components::component_lists(sccs@), nodes, calls),
        i < nodes,
    ensures
        holds(components::component_lists(sccs@), k as int, i),
{
    let ghost order = components::component_lists(sccs@);
    let mut k: usize = 0;
    proof {
        assert(components::listed(order, i));
    }
    while k < sccs.len()
        invariant
            k <= sccs@.len(),
            order == components::component_lists(sccs@),
            components::listed(order, i),
            forall|j: int| 0 <= j < k ==> !(#[trigger] order[j]).contains(i),
        decreases sccs@.len() - k,
    {
        let mut m: usize = 0;
        while m < sccs[k].len()
            invariant
                k < sccs@.len(),
                order == components::component_lists(sccs@),
                m <= sccs@[k as int]@.len(),
                forall|j: int| 0 <= j < m ==> #[trigger] order[k as int][j] != i,
            decreases sccs@[k as int]@.len() - m,
        {
            if sccs[k][m] == i {
                assert(order[k as int][m as int] == i);
                return k;
            }
            m = m + 1;
        }
        k = k + 1;
    }
    proof {
        let j = choose|j: int| 0 <= j < order.len() && #[trigger] order[j].contains(i);
        assert(!order[j].contains(i));
    }
    0
}

/// The functions whose verification can start: neither done nor under way, and
/// every function that they call done, or in their own group. They come in order,
/// each as often as it is among the vertices.
pub fn compute_ready_functions(
    vertices: &[String],
    edges: &[(String, String)],
    done: &[String],
    in_progress: &[String],
) -> (r: Vec<ReadyFunc>)
    requires
        vertices@.len() < u32::MAX,
        edges@.len() < u32::MAX,
    ensures
        are_ready_entries(
            text::texts(vertices@),
            edge_texts(edges@),
            text::texts(done@),
            text::texts(in_progress@),
            r@,
        ),
        laws::are_those_that_can_start(
            text::texts(vertices@),
            edge_texts(edges@),
            text::texts(done@),
            text::texts(in_progress@),
            r@,
        ),
{
    let (names, g) = build_graph(vertices, edges);
    let ghost known = text::texts(names@);
    let ghost all = text::texts(vertices@);
    let ghost calls = components::graph_edges(g);
    let ghost finished = text::texts(done@);
    let ghost started = text::texts(in_progress@);
    let sccs = components::tarjan_scc(&g);
    let ghost order = components::component_lists(sccs@);
    proof {
        lemma_distinct(all);
        lemma_call_edges(known, edge_texts(edges@));
        lemma_component_count(order, names@.len(), calls);
    }
    let mut held_by: Vec<usize> = Vec::new();
    let mut i: usize = 0;
    while i < names.len()
        invariant
            i <= names@.len(),
            components::are_components(order, names@.len(), calls),
            order == components::component_lists(sccs@),
            held_by@.len() == i,
            forall|j: usize| j < i ==> holds(order, (#[trigger] held_by@[j as int]) as int, j),
        decreases names@.len() - i,
    {
        held_by.push(component_holding(&sccs, i, Ghost(names@.len()), Ghost(calls)));
        i = i + 1;
    }
    let mut out: Vec<ReadyFunc> = Vec::new();
    let mut v: usize = 0;
    proof {
        assert(functions_of(out@) =~= ready_names(all.take(0), known, calls, finished, started));
    }
    while v < vertices.len()
        invariant
            names@.len() < u32::MAX,
            v <= vertices@.len(),
            all == text::texts(vertices@),
            known == text::texts(names@),
            known == distinct(all),
            known.no_duplicates(),
            forall|x: Seq<char>| #[trigger] known.contains(x) <==> all.contains(x),
            finished == text::texts(done@),
            started == text::texts(in_progress@),
            calls == components::graph_edges(g),
            forall|k: int|
                0 <= k < calls.len() ==> (#[trigger] calls[k]).0 < names@.len() && calls[k].1
                    < names@.len(),
            components::are_components(order, names@.len(), calls),
            order.len() <= names@.len(),
            order == components::component_lists(sccs@),
            held_by@.len() == names@.len(),
            forall|j: usize|
                j < names@.len() ==> holds(order, (#[trigger] held_by@[j as int]) as int, j),
            text::ordered(functions_of(out@)),
            functions_of(out@).to_multiset() == ready_names(
                all.take(v as int),
                known,
                calls,
                finished,
                started,
            ).to_multiset(),
            forall|k: int|
                0 <= k < out@.len() ==> is_entry(
                    #[trigger] out@[k],
                    known,
                    calls,
                    order,
                    known.index_of(out@[k].function@) as usize,
                ),
        decreases vertices@.len() - v,
    {
        let ghost f = all[v as int];
        proof {
            assert(all.take(v + 1).drop_last() =~= all.take(v as int));
            assert(all.take(v + 1).last() == f);
            assert(all.contains(f));
            assert(known.contains(f));
        }
        let i: usize = match position(&names, vertices[v].as_str()) {
            Some(i) => i,
            None => 0,
        };
        assert(known[i as int] == f);
        let k: usize = held_by[i];
        assert(holds(order, k as int, i));
        if !is_among(done, vertices[v].as_str()) && !is_among(in_progress, vertices[v].as_str()) {
            let called = components::callees(&g, i);
            proof {
                components::lemma_targets(calls, i);
            }
            let mut all_ready = true;
            let mut m: usize = 0;
            while m < called.len() && all_ready
                invariant
                    m <= called@.len(),
                    i < names@.len(),
                    k == held_by@[i as int],
                    known == text::texts(names@),
                    finished == text::texts(done@),
                    forall|b: usize| #[trigger]
                        called@.contains(b) <==> calls.contains((i, b)),
                    forall|k: int|
                        0 <= k < calls.len() ==> (#[trigger] calls[k]).0 < names@.len()
                            && calls[k].1 < names@.len(),
                    components::are_components(order, names@.len(), calls),
                    held_by@.len() == names@.len(),
                    forall|j: usize|
                        j < names@.len() ==> holds(
                            order,
                            (#[trigger] held_by@[j as int]) as int,
                            j,
                        ),
                    all_ready ==> forall|n: int|
                        0 <= n < m ==> finished.contains(known[(#[trigger] called@[n]) as int])
                            || components::mutual(calls, i, called@[n]),
                    !all_ready ==> !ready(known, calls, finished, started, i),
                decreases called@.len() - m,
            {
                let j: usize = called[m];
                proof {
                    assert(called@.contains(j));
                    assert(calls.contains((i, j)));
                    let e = calls.index_of((i, j));
                    assert(calls[e] == (i, j));
                    assert(holds(order, held_by@[j as int] as int, j));
                    assert(holds(order, k as int, i));
                    assert(order[k as int].contains(i));
                    assert(order[k as int].contains(j) <==> components::mutual(calls, i, j));
                }
                if held_by[j] != k && !is_among(done, names[j].as_str()) {
                    proof {
                        assert(!components::mutual(calls, i, j));
                        assert(!finished.contains(known[j as int]));
                    }
                    all_ready = false;
                }
                m = m + 1;
            }
            if all_ready {
                proof {
                    assert forall|j: usize| #[trigger] calls.contains((i, j)) implies (
                    finished.contains(known[j as int]) || components::mutual(calls, i, j)) by {
                        assert(called@.contains(j));
                        let n = called@.index_of(j);
                        assert(called@[n] == j);
                    }
                    assert(ready(known, calls, finished, started, i));
                }
                let comp = &sccs[k];
                assert(comp@ == order[k as int]);
                let is_cycle = comp.len() >= 2 || components::contains_edge(&g, comp[0], comp[0]);
                assert forall|m: int| 0 <= m < comp@.len() implies #[trigger] comp@[m]
                    < names@.len() by {
                    assert(order[k as int].contains(comp@[m]));
                }
                let scc_members = if is_cycle {
                    sorted_names(&names, comp)
                } else {
                    let mut alone: Vec<String> = Vec::new();
                    alone.push(vertices[v].clone());
                    assert(text::texts(alone@) =~= seq![f]);
                    alone
                };
                let entry = ReadyFunc {
                    function: vertices[v].clone(),
                    scc_id: if is_cycle {
                        Some(k as u32)
                    } else {
                        None
                    },
                    is_cycle,
                    scc_members,
                };
                proof {
                    assert(is_entry(entry, known, calls, order, i));
                }
                let mut p: usize = out.len();
                while p > 0 && !text::in_order(
                    out[p - 1].function.as_str(),
                    entry.function.as_str(),
                )
                    invariant
                        p <= out@.len(),
                        forall|j: int|
                            p <= j < out@.len() ==> !text::text_le(
                                (#[trigger] out@[j]).function@,
                                entry.function@,
                            ),
                    decreases p,
                {
                    p = p - 1;
                }
                proof {
                    let s = functions_of(out@);
                    if p < out@.len() {
                        text::text_order_is_total(f, s[p as int], f);
                        assert(!text::text_le(out@[p as int].function@, f));
                    }
                    text::lemma_ordered_insert(s, p as int, f);
                    assert(functions_of(out@.insert(p as int, entry)) =~= s.insert(p as int, f));
                    vstd::seq_lib::to_multiset_build(
                        ready_names(all.take(v as int), known, calls, finished, started),
                        f,
                    );
                }
                let ghost listed = out@;
                out.insert(p, entry);
                assert forall|q: int| 0 <= q < out@.len() implies is_entry(
                    #[trigger] out@[q],
                    known,
                    calls,
                    order,
                    known.index_of(out@[q].function@) as usize,
                ) by {
                    if q < p {
                        assert(out@[q] == listed[q]);
                    } else if q > p {
                        assert(out@[q] == listed[q - 1]);
                    }
                }
            }
        }
        v = v + 1;
    }
    proof {
        assert(all.take(v as int) =~= all);
        laws::entries_are_those_that_can_start(
            all,
            edge_texts(edges@),
            finished,
            started,
            out@,
        );
    }
    out
}

/// The members that are among the defined functions.
pub open spec fn kept(members: Seq<Seq<char>>, defined: Seq<Seq<char>>) -> Seq<Seq<char>>
    decreases members.len(),
{
    if members.len() == 0 {
        Seq::empty()
    } else {
        let before = kept(members.drop_last(), defined);
        if defined.contains(members.last()) {
            before.push(members.last())
        } else {
            before
        }
    }
}

/// The groups of a level with the members that are defined, but for those that
/// then have none.
pub open spec fn kept_groups(
    groups: Seq<SccGroup>,
    level: usize,
    defined: Seq<Seq<char>>,
) -> Seq<GroupView>
    decreases groups.len(),
{
    if groups.len() == 0 {
        Seq::empty()
    } else {
        let before = kept_groups(groups.drop_last(), level, defined);
        let g = groups.last();
        let members = kept(text::texts(g.members@), defined);
        if members.len() == 0 {
            before
        } else {
            before.push(GroupView { id: g.id, members, level, is_cycle: g.is_cycle })
        }
    }
}

/// The defined members of groups, one group after the other.
pub open spec fn kept_members(groups: Seq<SccGroup>, defined: Seq<Seq<char>>) -> Seq<Seq<char>>
    decreases groups.len(),
{
    if groups.len() == 0 {
        Seq::empty()
    } else {
        kept_members(groups.drop_last(), defined) + kept(
            text::texts(groups.last().members@),
            defined,
        )
    }
}

/// The groups of all levels, with the members that are defined.
pub open spec fn flat_groups(levels: Seq<Level>, defined: Seq<Seq<char>>) -> Seq<GroupView>
    decreases levels.len(),
{
    if levels.len() == 0 {
        Seq::empty()
    } else {
        flat_groups(levels.drop_last(), defined) + kept_groups(
            levels.last().groups@,
            levels.last().level,
            defined,
        )
    }
}

/// The verification order: the defined functions, level by level from the bottom.
pub open spec fn verification_order(levels: Seq<Level>, defined: Seq<Seq<char>>) -> Seq<Seq<char>>
    decreases levels.len(),
{
    if levels.len() == 0 {
        Seq::empty()
    } else {
        verification_order(levels.drop_last(), defined) + kept_members(
            levels.last().groups@,
            defined,
        )
    }
}

/// The views of groups.
pub open spec fn group_views(groups: Seq<SccGroup>) -> Seq<GroupView> {
    groups.map_values(|g: SccGroup| g@)
}

/// The defined functions of the levels, in verification order, and their groups.
///
/// Only functions among `defined` are taken: the call graph also holds library
/// functions that are declared and not defined. A group that has no defined
/// member is left out.
pub fn flatten_levels_to_vo_scc(levels: &[Level], defined: &[String]) -> (r: (
    Vec<String>,
    Vec<SccGroup>,
))
    ensures
        text::texts(r.0@) == verification_order(levels@, text::texts(defined@)),
        group_views(r.1@) == flat_groups(levels@, text::texts(defined@)),
{
    let ghost wanted = text::texts(defined@);
    let mut order: Vec<String> = Vec::new();
    let mut groups: Vec<SccGroup> = Vec::new();
    let mut l: usize = 0;
    proof {
        assert(text::texts(order@) =~= verification_order(levels@.take(0), wanted));
        assert(group_views(groups@) =~= flat_groups(levels@.take(0), wanted));
    }
    while l < levels.len()
        invariant
            l <= levels@.len(),
            wanted == text::texts(defined@),
            text::texts(order@) == verification_order(levels@.take(l as int), wanted),
            group_views(groups@) == flat_groups(levels@.take(l as int), wanted),
        decreases levels@.len() - l,
    {
        let level = &levels[l];
        let ghost order_before = text::texts(order@);
        let ghost groups_before = group_views(groups@);
        proof {
            assert(levels@.take(l + 1).drop_last() =~= levels@.take(l as int));
            assert(level.groups@.take(0) =~= Seq::<SccGroup>::empty());
            assert(text::texts(order@) =~= order_before + kept_members(
                level.groups@.take(0),
                wanted,
            ));
            assert(group_views(groups@) =~= groups_before + kept_groups(
                level.groups@.take(0),
                level.level,
                wanted,
            ));
        }
        let mut k: usize = 0;
        while k < level.groups.len()
            invariant
                k <= level.groups@.len(),
                wanted == text::texts(defined@),
                text::texts(order@) == order_before + kept_members(
                    level.groups@.take(k as int),
                    wanted,
                ),
                group_views(groups@) == groups_before + kept_groups(
                    level.groups@.take(k as int),
                    level.level,
                    wanted,
                ),
            decreases level.groups@.len() - k,
        {
            let group = &level.groups[k];
            let ghost so_far = text::texts(order@);
            let ghost listed = text::texts(group.members@);
            proof {
                assert(level.groups@.take(k + 1).drop_last() =~= level.groups@.take(k as int));
                assert(level.groups@.take(k + 1).last() == *group);
            }
            let mut members: Vec<String> = Vec::new();
            let mut m: usize = 0;
            proof {
                assert(text::texts(members@) =~= kept(listed.take(0), wanted));
                assert(so_far + kept(listed.take(0), wanted) =~= so_far);
            }
            while m < group.members.len()
                invariant
                    m <= group.members@.len(),
                    wanted == text::texts(defined@),
                    listed == text::texts(group.members@),
                    text::texts(members@) == kept(listed.take(m as int), wanted),
                    text::texts(order@) == so_far + kept(listed.take(m as int), wanted),
                decreases group.members@.len() - m,
            {
                proof {
                    assert(listed.take(m + 1).drop_last() =~= listed.take(m as int));
                    assert(listed.take(m + 1).last() == listed[m as int]);
                }
                if is_among(defined, group.members[m].as_str()) {
                    let ghost before = text::texts(members@);
                    let ghost order_now = text::texts(order@);
                    let a = group.members[m].clone();
                    let b = group.members[m].clone();
                    assert(text::texts(members@.push(a)) =~= before.push(a@));
                    assert(text::texts(order@.push(b)) =~= order_now.push(b@));
                    members.push(a);
                    order.push(b);
                    assert(text::texts(order@) =~= so_far + kept(listed.take(m + 1), wanted));
                }
                m = m + 1;
            }
            assert(listed.take(m as int) =~= listed);
            let ghost before = group_views(groups@);
            if members.len() > 0 {
                let g = SccGroup {
                    id: group.id,
                    members,
                    level: level.level,
                    is_cycle: group.is_cycle,
                };
                assert(group_views(groups@.push(g)) =~= before.push(g@));
                groups.push(g);
                assert(group_views(groups@) =~= groups_before + kept_groups(
                    level.groups@.take(k + 1),
                    level.level,
                    wanted,
                ));
            } else {
                assert(text::texts(members@).len() == 0);
            }
            assert(text::texts(order@) =~= order_before + kept_members(
                level.groups@.take(k + 1),
                wanted,
            ));
            k = k + 1;
        }
        assert(level.groups@.take(k as int) =~= level.groups@);
        l = l + 1;
    }
    assert(levels@.take(l as int) =~= levels@);
    (order, groups)
}

// ── Laws ────────────────────────────────────────────────────────────────

/// A group stands above each group that it calls.
pub proof fn called_groups_are_lower(
    comps: Seq<Seq<usize>>,
    nodes: nat,
    edges: Seq<(usize, usize)>,
    i: int,
    j: int,
)
    requires
        components::are_components(comps, nodes, edges),
        0 <= i < comps.len(),
        0 <= j < comps.len(),
        components::component_edge(comps, edges, i, j),
    ensures
        level_of(comps, edges, j) < level_of(comps, edges, i),
{
    let (a, b) = choose|a: usize, b: usize|
        #[trigger] comps[i].contains(a) && #[trigger] comps[j].contains(b) && edges.contains((a, b));
    assert(j <= i);
    lemma_level_above(comps, edges, i, i);
}

/// A component has one place in the layout: its own level, once.
pub proof fn component_has_one_place(
    comps: Seq<Seq<usize>>,
    edges: Seq<(usize, usize)>,
    i: int,
    l: nat,
)
    requires
        0 <= i < comps.len(),
    ensures
        level_of(comps, edges, i) < height(comps, edges, comps.len() as int),
        at_level(comps, edges, l, comps.len() as int).contains(i) <==> l == level_of(
            comps,
            edges,
            i,
        ),
        at_level(comps, edges, l, comps.len() as int).no_duplicates(),
{
    lemma_height(comps, edges, comps.len() as int, i);
    lemma_at_level_places(comps, edges, l, comps.len() as int);
}

proof fn lemma_at_level_places(comps: Seq<Seq<usize>>, edges: Seq<(usize, usize)>, l: nat, n: int)
    requires
        0 <= n <= comps.len(),
    ensures
        forall|i: int|
            0 <= i < comps.len() ==> (#[trigger] at_level(comps, edges, l, n).contains(i) <==> i < n
                && l == level_of(comps, edges, i)),
        at_level(comps, edges, l, n).no_duplicates(),
    decreases n,
{
    if n > 0 {
        lemma_at_level_places(comps, edges, l, n - 1);
        let rest = at_level(comps, edges, l, n - 1);
        let here = at_level(comps, edges, l, n);
        lemma_at_level(comps, edges, l, n - 1);
        assert forall|i: int| 0 <= i < comps.len() implies (#[trigger] here.contains(i) <==> i < n
            && l == level_of(comps, edges, i)) by {
            if rest.contains(i) {
                let k = rest.index_of(i);
                assert(here[k] == i);
            }
            if here.contains(i) {
                let k = here.index_of(i);
                if k < rest.len() {
                    assert(rest[k] == i);
                    assert(rest.contains(i));
                }
            }
            if i == n - 1 && l == level_of(comps, edges, i) {
                assert(here.last() == i);
            }
        }
    }
}

proof fn lemma_kept(members: Seq<Seq<char>>, defined: Seq<Seq<char>>)
    ensures
        forall|x: Seq<char>| #[trigger]
            kept(members, defined).contains(x) <==> members.contains(x) && defined.contains(x),
        members.no_duplicates() ==> kept(members, defined).no_duplicates(),
    decreases members.len(),
{
    if members.len() > 0 {
        let rest = members.drop_last();
        let last = members.last();
        lemma_kept(rest, defined);
        let before = kept(rest, defined);
        let now = kept(members, defined);
        assert forall|x: Seq<char>| #[trigger] now.contains(x) <==> members.contains(x)
            && defined.contains(x) by {
            if members.contains(x) && defined.contains(x) {
                let k = members.index_of(x);
                if k < rest.len() {
                    assert(rest[k] == x);
                    assert(before.contains(x));
                    let m = before.index_of(x);
                    assert(now[m] == x);
                } else {
                    assert(now.last() == x);
                }
            }
            if now.contains(x) {
                let m = now.index_of(x);
                if m < before.len() {
                    assert(before[m] == x);
                    assert(before.contains(x));
                    let k = rest.index_of(x);
                    assert(members[k] == x);
                } else {
                    assert(members[members.len() - 1] == x);
                }
            }
        }
        if members.no_duplicates() {
            assert(rest.no_duplicates());
            if before.contains(last) {
                let k = rest.index_of(last);
                assert(members[k] == members[members.len() - 1]);
            }
        }
    }
}

/// `x` is a member of one of the groups.
pub open spec fn grouped(groups: Seq<SccGroup>, x: Seq<char>) -> bool {
    exists|k: int| 0 <= k < groups.len() && #[trigger] text::texts(groups[k].members@).contains(x)
}

proof fn lemma_kept_members(groups: Seq<SccGroup>, defined: Seq<Seq<char>>)
    ensures
        forall|x: Seq<char>| #[trigger]
            kept_members(groups, defined).contains(x) <==> grouped(groups, x) && defined.contains(x),
    decreases groups.len(),
{
    if groups.len() > 0 {
        let rest = groups.drop_last();
        let members = text::texts(groups.last().members@);
        lemma_kept_members(rest, defined);
        lemma_kept(members, defined);
        let before = kept_members(rest, defined);
        let own = kept(members, defined);
        let now = kept_members(groups, defined);
        assert forall|x: Seq<char>| #[trigger] now.contains(x) <==> grouped(groups, x)
            && defined.contains(x) by {
            lemma_concat_contains(before, own, x);
            if grouped(rest, x) {
                let k = choose|k: int|
                    0 <= k < rest.len() && #[trigger] text::texts(rest[k].members@).contains(x);
                assert(text::texts(groups[k].members@).contains(x));
            }
            if members.contains(x) {
                assert(text::texts(groups[groups.len() - 1].members@).contains(x));
            }
            if grouped(groups, x) && !members.contains(x) {
                let k = choose|k: int|
                    0 <= k < groups.len() && #[trigger] text::texts(groups[k].members@).contains(x);
                assert(text::texts(rest[k].members@).contains(x));
            }
        }
    }
}

proof fn lemma_concat_contains<A>(a: Seq<A>, b: Seq<A>, x: A)
    ensures
        (a + b).contains(x) <==> a.contains(x) || b.contains(x),
{
    if a.contains(x) {
        let k = a.index_of(x);
        assert((a + b)[k] == x);
    }
    if b.contains(x) {
        let k = b.index_of(x);
        assert((a + b)[a.len() + k] == x);
    }
    if (a + b).contains(x) {
        let k = (a + b).index_of(x);
        if k < a.len() {
            assert(a[k] == x);
        } else {
            assert(b[k - a.len()] == x);
        }
    }
}

/// `x` is a member of a group on one of the levels.
pub open spec fn leveled(levels: Seq<Level>, x: Seq<char>) -> bool {
    exists|l: int| 0 <= l < levels.len() && #[trigger] grouped(levels[l].groups@, x)
}

proof fn lemma_verification_order(levels: Seq<Level>, defined: Seq<Seq<char>>)
    ensures
        forall|x: Seq<char>| #[trigger]
            verification_order(levels, defined).contains(x) <==> leveled(levels, x)
                && defined.contains(x),
    decreases levels.len(),
{
    if levels.len() > 0 {
        let rest = levels.drop_last();
        lemma_verification_order(rest, defined);
        lemma_kept_members(levels.last().groups@, defined);
        let before = verification_order(rest, defined);
        let own = kept_members(levels.last().groups@, defined);
        assert forall|x: Seq<char>| #[trigger] verification_order(levels, defined).contains(x)
            <==> leveled(levels, x) && defined.contains(x) by {
            lemma_concat_contains(before, own, x);
            if leveled(rest, x) {
                let l = choose|l: int| 0 <= l < rest.len() && #[trigger] grouped(rest[l].groups@, x);
                assert(grouped(levels[l].groups@, x));
            }
            if grouped(levels.last().groups@, x) {
                assert(grouped(levels[levels.len() - 1].groups@, x));
            }
            if leveled(levels, x) && !grouped(levels.last().groups@, x) {
                let l = choose|l: int|
                    0 <= l < levels.len() && #[trigger] grouped(levels[l].groups@, x);
                assert(grouped(rest[l].groups@, x));
            }
        }
    }
}

/// What stands on a lower level comes before what stands on a higher one.
proof fn lemma_lower_comes_first(
    levels: Seq<Level>,
    defined: Seq<Seq<char>>,
    low: int,
    high: int,
    x: Seq<char>,
    y: Seq<char>,
)
    requires
        0 <= low < high < levels.len(),
        grouped(levels[low].groups@, x),
        grouped(levels[high].groups@, y),
        defined.contains(x),
        defined.contains(y),
    ensures
        comes_before(verification_order(levels, defined), x, y),
    decreases levels.len(),
{
    let rest = levels.drop_last();
    let before = verification_order(rest, defined);
    let own = kept_members(levels.last().groups@, defined);
    let now = verification_order(levels, defined);
    if high < levels.len() - 1 {
        lemma_lower_comes_first(rest, defined, low, high, x, y);
        let (p, q) = choose|p: int, q: int|
            0 <= p < q < before.len() && #[trigger] before[p] == x && #[trigger] before[q] == y;
        assert(now[p] == x && now[q] == y);
    } else {
        lemma_verification_order(rest, defined);
        lemma_kept_members(levels.last().groups@, defined);
        assert(grouped(rest[low].groups@, x));
        assert(leveled(rest, x));
        assert(before.contains(x));
        assert(own.contains(y));
        let p = before.index_of(x);
        let q = own.index_of(y);
        assert(now[p] == x);
        assert(now[before.len() + q] == y);
    }
}

/// `x` stands before `y` in the order.
pub open spec fn comes_before(order: Seq<Seq<char>>, x: Seq<char>, y: Seq<char>) -> bool {
    exists|p: int, q: int|
        0 <= p < q < order.len() && #[trigger] order[p] == x && #[trigger] order[q] == y
}

/// The member lists of a layout hold the names of their components.
proof fn lemma_layout_members(
    levels: Seq<Level>,
    names: Seq<Seq<char>>,
    edges: Seq<(usize, usize)>,
    comps: Seq<Seq<usize>>,
    a: usize,
    i: int,
)
    requires
        is_layout(levels, names, edges, comps),
        0 <= i < comps.len(),
        comps[i].contains(a),
    ensures
        ({
            let l = level_of(comps, edges, i) as int;
            0 <= l < levels.len() && grouped(levels[l].groups@, names[a as int])
        }),
{
    let l = level_of(comps, edges, i);
    component_has_one_place(comps, edges, i, l);
    let here = at_level(comps, edges, l, comps.len() as int);
    let k = here.index_of(i);
    assert(is_level(levels[l as int], names, edges, comps, l));
    let g = levels[l as int].groups@[k];
    assert(is_group(g, names, edges, comps[here[k]], below_level(comps, edges, l) + k as nat, l));
    let own = names_at(names, comps[i]);
    let m = comps[i].index_of(a);
    assert(own[m] == names[a as int]);
    vstd::seq_lib::to_multiset_contains(own, names[a as int]);
    vstd::seq_lib::to_multiset_contains(text::texts(g.members@), names[a as int]);
    assert(text::texts(levels[l as int].groups@[k].members@).contains(names[a as int]));
}

/// The verification order holds every defined function of the call graph, and
/// no other name.
pub proof fn order_is_complete(
    levels: Seq<Level>,
    names: Seq<Seq<char>>,
    edges: Seq<(usize, usize)>,
    comps: Seq<Seq<usize>>,
    defined: Seq<Seq<char>>,
)
    requires
        names.len() <= usize::MAX,
        components::are_components(comps, names.len(), edges),
        is_layout(levels, names, edges, comps),
    ensures
        forall|x: Seq<char>| #[trigger]
            verification_order(levels, defined).contains(x) <==> names.contains(x)
                && defined.contains(x),
{
    lemma_verification_order(levels, defined);
    assert forall|x: Seq<char>| #[trigger]
        verification_order(levels, defined).contains(x) <==> names.contains(x) && defined.contains(
        x,
    ) by {
        if names.contains(x) {
            let a = names.index_of(x) as usize;
            assert(components::listed(comps, a));
            let i = choose|i: int| 0 <= i < comps.len() && #[trigger] comps[i].contains(a);
            lemma_layout_members(levels, names, edges, comps, a, i);
        }
        if leveled(levels, x) {
            let l = choose|l: int| 0 <= l < levels.len() && #[trigger] grouped(levels[l].groups@, x);
            let k = choose|k: int|
                0 <= k < levels[l].groups@.len() && #[trigger] text::texts(
                    levels[l].groups@[k].members@,
                ).contains(x);
            lemma_member_is_name(levels, names, edges, comps, l, k, x);
        }
    }
}

/// A member of a group of the layout is the name of a node of its component.
proof fn lemma_member_is_name(
    levels: Seq<Level>,
    names: Seq<Seq<char>>,
    edges: Seq<(usize, usize)>,
    comps: Seq<Seq<usize>>,
    l: int,
    k: int,
    x: Seq<char>,
)
    requires
        components::are_components(comps, names.len(), edges),
        is_layout(levels, names, edges, comps),
        0 <= l < levels.len(),
        0 <= k < levels[l].groups@.len(),
        text::texts(levels[l].groups@[k].members@).contains(x),
    ensures
        ({
            let i = at_level(comps, edges, l as nat, comps.len() as int)[k];
            &&& 0 <= i < comps.len()
            &&& level_of(comps, edges, i) == l
            &&& exists|a: usize| #[trigger] comps[i].contains(a) && names[a as int] == x
        }),
        names.contains(x),
{
    assert(is_level(levels[l], names, edges, comps, l as nat));
    let here = at_level(comps, edges, l as nat, comps.len() as int);
    lemma_at_level(comps, edges, l as nat, comps.len() as int);
    let i = here[k];
    let g = levels[l].groups@[k];
    assert(is_group(
        g,
        names,
        edges,
        comps[i],
        below_level(comps, edges, l as nat) + k as nat,
        l as nat,
    ));
    let own = names_at(names, comps[i]);
    vstd::seq_lib::to_multiset_contains(text::texts(g.members@), x);
    vstd::seq_lib::to_multiset_contains(own, x);
    let m = own.index_of(x);
    let a = comps[i][m];
    assert(comps[i].contains(a));
    assert(names[a as int] == x);
}

/// A function comes after every function that it calls, but for those in its own
/// group: the verification order is bottom up.
pub proof fn callees_come_first(
    levels: Seq<Level>,
    names: Seq<Seq<char>>,
    edges: Seq<(usize, usize)>,
    comps: Seq<Seq<usize>>,
    defined: Seq<Seq<char>>,
    caller: usize,
    callee: usize,
)
    requires
        components::are_components(comps, names.len(), edges),
        is_layout(levels, names, edges, comps),
        caller < names.len(),
        callee < names.len(),
        edges.contains((caller, callee)),
        !components::mutual(edges, caller, callee),
        defined.contains(names[caller as int]),
        defined.contains(names[callee as int]),
    ensures
        comes_before(
            verification_order(levels, defined),
            names[callee as int],
            names[caller as int],
        ),
{
    assert(components::listed(comps, caller));
    assert(components::listed(comps, callee));
    let i = choose|i: int| 0 <= i < comps.len() && #[trigger] comps[i].contains(caller);
    let j = choose|j: int| 0 <= j < comps.len() && #[trigger] comps[j].contains(callee);
    assert(comps[i].contains(callee) <==> components::mutual(edges, caller, callee));
    assert(components::component_edge(comps, edges, i, j));
    called_groups_are_lower(comps, names.len(), edges, i, j);
    lemma_layout_members(levels, names, edges, comps, caller, i);
    lemma_layout_members(levels, names, edges, comps, callee, j);
    lemma_lower_comes_first(
        levels,
        defined,
        level_of(comps, edges, j) as int,
        level_of(comps, edges, i) as int,
        names[callee as int],
        names[caller as int],
    );
}

/// The places of `x` in the layout: the level and the position of its group.
proof fn lemma_one_group(
    levels: Seq<Level>,
    names: Seq<Seq<char>>,
    edges: Seq<(usize, usize)>,
    comps: Seq<Seq<usize>>,
    l: int,
    k: int,
    l2: int,
    k2: int,
    x: Seq<char>,
)
    requires
        components::are_components(comps, names.len(), edges),
        names.no_duplicates(),
        is_layout(levels, names, edges, comps),
        0 <= l < levels.len(),
        0 <= k < levels[l].groups@.len(),
        text::texts(levels[l].groups@[k].members@).contains(x),
        0 <= l2 < levels.len(),
        0 <= k2 < levels[l2].groups@.len(),
        text::texts(levels[l2].groups@[k2].members@).contains(x),
    ensures
        l == l2,
        k == k2,
{
    lemma_member_is_name(levels, names, edges, comps, l, k, x);
    lemma_member_is_name(levels, names, edges, comps, l2, k2, x);
    let here = at_level(comps, edges, l as nat, comps.len() as int);
    let there = at_level(comps, edges, l2 as nat, comps.len() as int);
    let i = here[k];
    let j = there[k2];
    let a = choose|a: usize| #[trigger] comps[i].contains(a) && names[a as int] == x;
    let b = choose|b: usize| #[trigger] comps[j].contains(b) && names[b as int] == x;
    assert(a == b);
    assert(i == j);
    assert(is_level(levels[l], names, edges, comps, l as nat));
    component_has_one_place(comps, edges, i, l as nat);
}

proof fn lemma_group_without_repetition(
    levels: Seq<Level>,
    names: Seq<Seq<char>>,
    edges: Seq<(usize, usize)>,
    comps: Seq<Seq<usize>>,
    l: int,
    k: int,
)
    requires
        components::are_components(comps, names.len(), edges),
        names.no_duplicates(),
        is_layout(levels, names, edges, comps),
        0 <= l < levels.len(),
        0 <= k < levels[l].groups@.len(),
    ensures
        text::texts(levels[l].groups@[k].members@).no_duplicates(),
{
    assert(is_level(levels[l], names, edges, comps, l as nat));
    let here = at_level(comps, edges, l as nat, comps.len() as int);
    lemma_at_level(comps, edges, l as nat, comps.len() as int);
    let i = here[k];
    let members = text::texts(levels[l].groups@[k].members@);
    let own = names_at(names, comps[i]);
    assert(is_group(
        levels[l].groups@[k],
        names,
        edges,
        comps[i],
        below_level(comps, edges, l as nat) + k as nat,
        l as nat,
    ));
    assert forall|p: int, q: int| 0 <= p < own.len() && 0 <= q < own.len() && p != q implies own[p]
        != own[q] by {
        assert(comps[i].contains(comps[i][p]));
        assert(comps[i].contains(comps[i][q]));
    }
    own.lemma_multiset_has_no_duplicates();
    members.lemma_multiset_has_no_duplicates_conv();
}

proof fn lemma_level_without_repetition(
    levels: Seq<Level>,
    names: Seq<Seq<char>>,
    edges: Seq<(usize, usize)>,
    comps: Seq<Seq<usize>>,
    defined: Seq<Seq<char>>,
    l: int,
    n: int,
)
    requires
        components::are_components(comps, names.len(), edges),
        names.no_duplicates(),
        is_layout(levels, names, edges, comps),
        0 <= l < levels.len(),
        0 <= n <= levels[l].groups@.len(),
    ensures
        kept_members(levels[l].groups@.take(n), defined).no_duplicates(),
    decreases n,
{
    if n > 0 {
        let groups = levels[l].groups@;
        lemma_level_without_repetition(levels, names, edges, comps, defined, l, n - 1);
        lemma_group_without_repetition(levels, names, edges, comps, l, n - 1);
        assert(groups.take(n).drop_last() =~= groups.take(n - 1));
        assert(groups.take(n).last() == groups[n - 1]);
        let members = text::texts(groups[n - 1].members@);
        lemma_kept(members, defined);
        lemma_kept_members(groups.take(n - 1), defined);
        let before = kept_members(groups.take(n - 1), defined);
        let own = kept(members, defined);
        assert forall|p: int, q: int| 0 <= p < before.len() && 0 <= q < own.len() implies before[p]
            != own[q] by {
            let x = before[p];
            assert(before.contains(x));
            assert(own.contains(own[q]));
            if x == own[q] {
                let k = choose|k: int|
                    0 <= k < groups.take(n - 1).len() && #[trigger] text::texts(
                        groups.take(n - 1)[k].members@,
                    ).contains(x);
                assert(text::texts(groups[k].members@).contains(x));
                lemma_one_group(levels, names, edges, comps, l, k, l, n - 1, x);
            }
        }
        vstd::seq_lib::lemma_no_dup_in_concat(before, own);
    }
}

/// No function comes twice in the verification order.
pub proof fn order_has_no_repetition(
    levels: Seq<Level>,
    names: Seq<Seq<char>>,
    edges: Seq<(usize, usize)>,
    comps: Seq<Seq<usize>>,
    defined: Seq<Seq<char>>,
)
    requires
        components::are_components(comps, names.len(), edges),
        names.no_duplicates(),
        is_layout(levels, names, edges, comps),
    ensures
        verification_order(levels, defined).no_duplicates(),
{
    lemma_order_without_repetition(levels, names, edges, comps, defined, levels.len() as int);
    assert(levels.take(levels.len() as int) =~= levels);
}

proof fn lemma_order_without_repetition(
    levels: Seq<Level>,
    names: Seq<Seq<char>>,
    edges: Seq<(usize, usize)>,
    comps: Seq<Seq<usize>>,
    defined: Seq<Seq<char>>,
    n: int,
)
    requires
        components::are_components(comps, names.len(), edges),
        names.no_duplicates(),
        is_layout(levels, names, edges, comps),
        0 <= n <= levels.len(),
    ensures
        verification_order(levels.take(n), defined).no_duplicates(),
    decreases n,
{
    if n > 0 {
        lemma_order_without_repetition(levels, names, edges, comps, defined, n - 1);
        let groups = levels[n - 1].groups@;
        lemma_level_without_repetition(
            levels,
            names,
            edges,
            comps,
            defined,
            n - 1,
            groups.len() as int,
        );
        assert(groups.take(groups.len() as int) =~= groups);
        assert(levels.take(n).drop_last() =~= levels.take(n - 1));
        assert(levels.take(n).last() == levels[n - 1]);
        lemma_verification_order(levels.take(n - 1), defined);
        lemma_kept_members(groups, defined);
        let before = verification_order(levels.take(n - 1), defined);
        let own = kept_members(groups, defined);
        assert forall|p: int, q: int| 0 <= p < before.len() && 0 <= q < own.len() implies before[p]
            != own[q] by {
            let x = before[p];
            assert(before.contains(x));
            assert(own.contains(own[q]));
            if x == own[q] {
                let l = choose|l: int|
                    0 <= l < levels.take(n - 1).len() && #[trigger] grouped(
                        levels.take(n - 1)[l].groups@,
                        x,
                    );
                let k = choose|k: int|
                    0 <= k < levels[l].groups@.len() && #[trigger] text::texts(
                        levels[l].groups@[k].members@,
                    ).contains(x);
                let k2 = choose|k2: int|
                    0 <= k2 < groups.len() && #[trigger] text::texts(groups[k2].members@).contains(x);
                assert(text::texts(levels[n - 1].groups@[k2].members@).contains(x));
                lemma_one_group(levels, names, edges, comps, l, k, n - 1, k2, x);
            }
        }
        vstd::seq_lib::lemma_no_dup_in_concat(before, own);
    }
}

/// The members of groups, one group after the other.
pub open spec fn members_in_turn(groups: Seq<GroupView>) -> Seq<Seq<char>>
    decreases groups.len(),
{
    if groups.len() == 0 {
        Seq::empty()
    } else {
        members_in_turn(groups.drop_last()) + groups.last().members
    }
}

proof fn lemma_members_in_turn(a: Seq<GroupView>, b: Seq<GroupView>)
    ensures
        members_in_turn(a + b) == members_in_turn(a) + members_in_turn(b),
    decreases b.len(),
{
    if b.len() == 0 {
        assert(a + b =~= a);
        assert(members_in_turn(a) + members_in_turn(b) =~= members_in_turn(a));
    } else {
        lemma_members_in_turn(a, b.drop_last());
        assert((a + b).drop_last() =~= a + b.drop_last());
        assert(members_in_turn(a) + (members_in_turn(b.drop_last()) + b.last().members) =~= (
        members_in_turn(a) + members_in_turn(b.drop_last())) + b.last().members);
    }
}

proof fn lemma_kept_in_turn(groups: Seq<SccGroup>, level: usize, defined: Seq<Seq<char>>)
    ensures
        members_in_turn(kept_groups(groups, level, defined)) == kept_members(groups, defined),
        forall|i: int|
            0 <= i < kept_groups(groups, level, defined).len() ==> (#[trigger] kept_groups(
                groups,
                level,
                defined,
            )[i]).level == level,
    decreases groups.len(),
{
    if groups.len() > 0 {
        lemma_kept_in_turn(groups.drop_last(), level, defined);
        let before = kept_groups(groups.drop_last(), level, defined);
        let own = kept(text::texts(groups.last().members@), defined);
        if own.len() == 0 {
            assert(members_in_turn(before) + own =~= members_in_turn(before));
        } else {
            assert(kept_groups(groups, level, defined).drop_last() =~= before);
        }
    }
}

proof fn lemma_order_in_turn(levels: Seq<Level>, defined: Seq<Seq<char>>)
    ensures
        verification_order(levels, defined) == members_in_turn(flat_groups(levels, defined)),
    decreases levels.len(),
{
    if levels.len() > 0 {
        lemma_order_in_turn(levels.drop_last(), defined);
        lemma_kept_in_turn(levels.last().groups@, levels.last().level, defined);
        lemma_members_in_turn(
            flat_groups(levels.drop_last(), defined),
            kept_groups(levels.last().groups@, levels.last().level, defined),
        );
    }
}

/// The verification order goes through the groups one after the other: the members
/// of a group stand next to each other in it, in the group's own order, behind
/// those of all groups listed before it.
pub proof fn members_stand_together(levels: Seq<Level>, defined: Seq<Seq<char>>, k: int)
    requires
        0 <= k < flat_groups(levels, defined).len(),
    ensures
        verification_order(levels, defined) == members_in_turn(flat_groups(levels, defined)),
        ({
            let groups = flat_groups(levels, defined);
            let start = members_in_turn(groups.take(k)).len() as int;
            let end = start + groups[k].members.len();
            &&& end <= verification_order(levels, defined).len()
            &&& verification_order(levels, defined).subrange(start, end) == groups[k].members
        }),
{
    lemma_order_in_turn(levels, defined);
    let groups = flat_groups(levels, defined);
    let front = groups.take(k + 1);
    assert(front.drop_last() =~= groups.take(k));
    assert(groups =~= front + groups.skip(k + 1));
    lemma_members_in_turn(front, groups.skip(k + 1));
    let start = members_in_turn(groups.take(k)).len() as int;
    let end = start + groups[k].members.len();
    assert(verification_order(levels, defined).subrange(start, end) =~= groups[k].members);
}

/// The groups of a layout come with the levels from the bottom up: no group is
/// listed before one of a lower level.
pub proof fn groups_come_by_level(
    levels: Seq<Level>,
    names: Seq<Seq<char>>,
    edges: Seq<(usize, usize)>,
    comps: Seq<Seq<usize>>,
    defined: Seq<Seq<char>>,
)
    requires
        is_layout(levels, names, edges, comps),
    ensures
        forall|i: int, j: int|
            #![trigger flat_groups(levels, defined)[i], flat_groups(levels, defined)[j]]
            0 <= i <= j < flat_groups(levels, defined).len() ==> flat_groups(
                levels,
                defined,
            )[i].level <= flat_groups(levels, defined)[j].level,
{
    assert forall|l: int| 0 <= l < levels.len() implies (#[trigger] levels[l]).level == l by {
        assert(is_level(levels[l], names, edges, comps, l as nat));
    }
    lemma_by_level(levels, defined);
}

proof fn lemma_by_level(levels: Seq<Level>, defined: Seq<Seq<char>>)
    requires
        forall|l: int| 0 <= l < levels.len() ==> (#[trigger] levels[l]).level == l,
    ensures
        forall|i: int, j: int|
            #![trigger flat_groups(levels, defined)[i], flat_groups(levels, defined)[j]]
            0 <= i <= j < flat_groups(levels, defined).len() ==> flat_groups(
                levels,
                defined,
            )[i].level <= flat_groups(levels, defined)[j].level,
        forall|i: int|
            0 <= i < flat_groups(levels, defined).len() ==> (#[trigger] flat_groups(
                levels,
                defined,
            )[i]).level < levels.len(),
    decreases levels.len(),
{
    if levels.len() > 0 {
        let rest = levels.drop_last();
        lemma_by_level(rest, defined);
        let before = flat_groups(rest, defined);
        let own = kept_groups(levels.last().groups@, levels.last().level, defined);
        lemma_kept_in_turn(levels.last().groups@, levels.last().level, defined);
        let all = flat_groups(levels, defined);
        assert(all == before + own);
        assert forall|i: int| 0 <= i < all.len() implies (#[trigger] all[i]).level < levels.len()
            && (i >= before.len() ==> all[i].level == levels.len() - 1) && (i < before.len()
            ==> all[i] == before[i] && all[i].level < levels.len() - 1) by {
            if i >= before.len() {
                assert(all[i] == own[i - before.len()]);
            }
        }
        assert forall|i: int, j: int|
            #![trigger all[i], all[j]]
            0 <= i <= j < all.len() implies all[i].level <= all[j].level by {
            if j < before.len() {
                assert(before[i].level <= before[j].level);
            }
        }
    }
}

/// Two lists of functions and two lists of calls give the same call graph: the
/// functions are the same, and so are the calls between them. Order, repetitions
/// and calls of or by other functions may differ.
pub open spec fn same_graph(
    vertices: Seq<Seq<char>>,
    edges: Seq<(Seq<char>, Seq<char>)>,
    other_vertices: Seq<Seq<char>>,
    other_edges: Seq<(Seq<char>, Seq<char>)>,
) -> bool {
    &&& forall|x: Seq<char>| #[trigger] vertices.contains(x) <==> other_vertices.contains(x)
    &&& forall|a: Seq<char>, b: Seq<char>|
        vertices.contains(a) && vertices.contains(b) ==> (#[trigger] edges.contains((a, b))
            <==> other_edges.contains((a, b)))
}

/// Two groups have the same members, stand on the same level, and both are circular
/// or neither is.
pub open spec fn same_group(g: SccGroup, h: SccGroup) -> bool {
    &&& text::texts(g.members@) == text::texts(h.members@)
    &&& g.level == h.level
    &&& g.is_cycle == h.is_cycle
}

/// One of the groups is the same as `g`.
pub open spec fn has_group(groups: Seq<SccGroup>, g: SccGroup) -> bool {
    exists|m: int| 0 <= m < groups.len() && #[trigger] same_group(g, groups[m])
}

/// Each group of `levels` is on the same level of `others`.
pub open spec fn groups_among(levels: Seq<Level>, others: Seq<Level>) -> bool {
    forall|l: int, k: int|
        0 <= l < levels.len() && 0 <= k < levels[l].groups@.len() ==> l < others.len() && has_group(
            others[l].groups@,
            #[trigger] levels[l].groups@[k],
        )
}

/// The place of the name in place `i` among the other names.
spec fn renamed(names: Seq<Seq<char>>, others: Seq<Seq<char>>, i: usize) -> usize {
    others.index_of(names[i as int]) as usize
}

/// Two graphs over names are the same but for the places of the names.
spec fn same_calls(
    names: Seq<Seq<char>>,
    calls: Seq<(usize, usize)>,
    others: Seq<Seq<char>>,
    other_calls: Seq<(usize, usize)>,
) -> bool {
    &&& names.no_duplicates()
    &&& others.no_duplicates()
    &&& names.len() <= usize::MAX
    &&& others.len() <= usize::MAX
    &&& forall|x: Seq<char>| #[trigger] names.contains(x) <==> others.contains(x)
    &&& forall|i: usize, j: usize| #[trigger]
        calls.contains((i, j)) ==> i < names.len() && j < names.len() && other_calls.contains(
            (renamed(names, others, i), renamed(names, others, j)),
        )
    &&& forall|i: usize, j: usize| #[trigger]
        other_calls.contains((i, j)) ==> i < others.len() && j < others.len() && calls.contains(
            (renamed(others, names, i), renamed(others, names, j)),
        )
}

proof fn lemma_renamed(names: Seq<Seq<char>>, others: Seq<Seq<char>>, i: usize)
    requires
        names.no_duplicates(),
        others.no_duplicates(),
        others.len() <= usize::MAX,
        forall|x: Seq<char>| #[trigger] names.contains(x) <==> others.contains(x),
        i < names.len(),
    ensures
        renamed(names, others, i) < others.len(),
        others[renamed(names, others, i) as int] == names[i as int],
        renamed(others, names, renamed(names, others, i)) == i,
{
    let x = names[i as int];
    assert(names.contains(x));
    assert(others.contains(x));
    assert(others[others.index_of(x)] == x);
    assert(names[names.index_of(x)] == x);
}

/// An edge between places is a call between the names there.
proof fn lemma_edge_names(
    names: Seq<Seq<char>>,
    edges: Seq<(Seq<char>, Seq<char>)>,
    i: usize,
    j: usize,
)
    requires
        names.len() <= usize::MAX,
        call_edges(names, edges).contains((i, j)),
    ensures
        i < names.len(),
        j < names.len(),
        edges.contains((names[i as int], names[j as int])),
    decreases edges.len(),
{
    let all = call_edges(names, edges);
    let k = all.index_of((i, j));
    assert(all[k] == (i, j));
    let rest = edges.drop_last();
    let before = call_edges(names, rest);
    if k < before.len() {
        assert(before[k] == (i, j));
        lemma_edge_names(names, rest, i, j);
        let e = (names[i as int], names[j as int]);
        assert(edges[rest.index_of(e)] == e);
    } else {
        let (caller, callee) = edges.last();
        assert(names[names.index_of(caller)] == caller);
        assert(names[names.index_of(callee)] == callee);
        assert(edges[edges.len() - 1] == (caller, callee));
    }
}

proof fn lemma_same_calls(
    vertices: Seq<Seq<char>>,
    edges: Seq<(Seq<char>, Seq<char>)>,
    other_vertices: Seq<Seq<char>>,
    other_edges: Seq<(Seq<char>, Seq<char>)>,
)
    requires
        same_graph(vertices, edges, other_vertices, other_edges),
        vertices.len() <= usize::MAX,
        other_vertices.len() <= usize::MAX,
    ensures
        same_calls(
            distinct(vertices),
            call_edges(distinct(vertices), edges),
            distinct(other_vertices),
            call_edges(distinct(other_vertices), other_edges),
        ),
{
    let names = distinct(vertices);
    let others = distinct(other_vertices);
    let calls = call_edges(names, edges);
    let other_calls = call_edges(others, other_edges);
    lemma_distinct(vertices);
    lemma_distinct(other_vertices);
    assert forall|x: Seq<char>| #[trigger] names.contains(x) <==> others.contains(x) by {
        assert(vertices.contains(x) <==> other_vertices.contains(x));
    }
    assert forall|i: usize, j: usize| #[trigger] calls.contains((i, j)) implies i < names.len()
        && j < names.len() && other_calls.contains(
        (renamed(names, others, i), renamed(names, others, j)),
    ) by {
        lemma_edge_names(names, edges, i, j);
        let a = names[i as int];
        let b = names[j as int];
        assert(names.contains(a) && names.contains(b));
        assert(vertices.contains(a) && vertices.contains(b));
        assert(other_edges.contains((a, b)));
        lemma_named_edge(others, other_edges, a, b);
    }
    assert forall|i: usize, j: usize| #[trigger] other_calls.contains((i, j)) implies i
        < others.len() && j < others.len() && calls.contains(
        (renamed(others, names, i), renamed(others, names, j)),
    ) by {
        lemma_edge_names(others, other_edges, i, j);
        let a = others[i as int];
        let b = others[j as int];
        assert(others.contains(a) && others.contains(b));
        assert(vertices.contains(a) && vertices.contains(b));
        assert(edges.contains((a, b)));
        lemma_named_edge(names, edges, a, b);
    }
}

proof fn lemma_reaches_renamed(
    names: Seq<Seq<char>>,
    calls: Seq<(usize, usize)>,
    others: Seq<Seq<char>>,
    other_calls: Seq<(usize, usize)>,
    a: usize,
    b: usize,
)
    requires
        same_calls(names, calls, others, other_calls),
        components::reaches(calls, a, b),
    ensures
        components::reaches(other_calls, renamed(names, others, a), renamed(names, others, b)),
{
    let path = choose|path: Seq<usize>|
        path.len() > 0 && path[0] == a && path.last() == b && #[trigger] components::is_path(
            calls,
            path,
        );
    let moved = path.map_values(|i: usize| renamed(names, others, i));
    assert forall|i: int| 0 <= i < moved.len() - 1 implies #[trigger] other_calls.contains(
        (moved[i], moved[i + 1]),
    ) by {
        assert(calls.contains((path[i], path[i + 1])));
    }
    assert(components::is_path(other_calls, moved));
    assert(moved[0] == renamed(names, others, a));
    assert(moved.last() == renamed(names, others, b));
}

proof fn lemma_mutual_renamed(
    names: Seq<Seq<char>>,
    calls: Seq<(usize, usize)>,
    others: Seq<Seq<char>>,
    other_calls: Seq<(usize, usize)>,
    a: usize,
    b: usize,
)
    requires
        same_calls(names, calls, others, other_calls),
        a < names.len(),
        b < names.len(),
    ensures
        components::mutual(calls, a, b) <==> components::mutual(
            other_calls,
            renamed(names, others, a),
            renamed(names, others, b),
        ),
{
    let c = renamed(names, others, a);
    let d = renamed(names, others, b);
    lemma_renamed(names, others, a);
    lemma_renamed(names, others, b);
    if components::mutual(calls, a, b) {
        lemma_reaches_renamed(names, calls, others, other_calls, a, b);
        lemma_reaches_renamed(names, calls, others, other_calls, b, a);
    }
    if components::mutual(other_calls, c, d) {
        lemma_reaches_renamed(others, other_calls, names, calls, c, d);
        lemma_reaches_renamed(others, other_calls, names, calls, d, c);
    }
}

/// Two graphs are the same but for the places of the names, and these are their
/// components.
#[verifier::opaque]
spec fn twins(
    names: Seq<Seq<char>>,
    calls: Seq<(usize, usize)>,
    comps: Seq<Seq<usize>>,
    others: Seq<Seq<char>>,
    other_calls: Seq<(usize, usize)>,
    other_comps: Seq<Seq<usize>>,
) -> bool {
    &&& same_calls(names, calls, others, other_calls)
    &&& components::are_components(comps, names.len(), calls)
    &&& components::are_components(other_comps, others.len(), other_calls)
}

/// Component `i` of one graph is component `j` of the other.
#[verifier::opaque]
spec fn matching(
    names: Seq<Seq<char>>,
    comps: Seq<Seq<usize>>,
    others: Seq<Seq<char>>,
    other_comps: Seq<Seq<usize>>,
    i: int,
    j: int,
) -> bool {
    &&& 0 <= i < comps.len()
    &&& 0 <= j < other_comps.len()
    &&& forall|x: usize|
        x < names.len() ==> (#[trigger] comps[i].contains(x) <==> other_comps[j].contains(
            renamed(names, others, x),
        ))
}

/// The component that holds node `a` matches the one that holds it in the other
/// graph.
proof fn lemma_matching(
    names: Seq<Seq<char>>,
    calls: Seq<(usize, usize)>,
    comps: Seq<Seq<usize>>,
    others: Seq<Seq<char>>,
    other_calls: Seq<(usize, usize)>,
    other_comps: Seq<Seq<usize>>,
    i: int,
    a: usize,
) -> (j: int)
    requires
        twins(names, calls, comps, others, other_calls, other_comps),
        0 <= i < comps.len(),
        comps[i].contains(a),
    ensures
        matching(names, comps, others, other_comps, i, j),
        other_comps[j].contains(renamed(names, others, a)),
{
    reveal(twins);
    reveal(matching);
    let c = renamed(names, others, a);
    assert(a < names.len());
    lemma_renamed(names, others, a);
    assert(components::listed(other_comps, c));
    let j = choose|j: int| 0 <= j < other_comps.len() && #[trigger] other_comps[j].contains(c);
    assert forall|x: usize| x < names.len() implies (#[trigger] comps[i].contains(x)
        <==> other_comps[j].contains(renamed(names, others, x))) by {
        let y = renamed(names, others, x);
        lemma_renamed(names, others, x);
        lemma_mutual_renamed(names, calls, others, other_calls, a, x);
        assert(comps[i].contains(x) <==> components::mutual(calls, a, x));
        assert(other_comps[j].contains(y) <==> components::mutual(other_calls, c, y));
    }
    j
}

/// What is the same for one graph is the same for the other.
proof fn lemma_matching_back(
    names: Seq<Seq<char>>,
    calls: Seq<(usize, usize)>,
    comps: Seq<Seq<usize>>,
    others: Seq<Seq<char>>,
    other_calls: Seq<(usize, usize)>,
    other_comps: Seq<Seq<usize>>,
    i: int,
    j: int,
)
    requires
        twins(others, other_calls, other_comps, names, calls, comps),
        matching(others, other_comps, names, comps, j, i),
    ensures
        twins(names, calls, comps, others, other_calls, other_comps),
        matching(names, comps, others, other_comps, i, j),
{
    reveal(twins);
    reveal(matching);
    assert forall|x: usize| x < names.len() implies (#[trigger] comps[i].contains(x)
        <==> other_comps[j].contains(renamed(names, others, x))) by {
        lemma_renamed(names, others, x);
        let y = renamed(names, others, x);
        assert(other_comps[j].contains(y) <==> comps[i].contains(renamed(others, names, y)));
    }
}

/// Where a component calls another, the matching one calls the one that matches
/// the other.
proof fn lemma_matching_edge(
    names: Seq<Seq<char>>,
    calls: Seq<(usize, usize)>,
    comps: Seq<Seq<usize>>,
    others: Seq<Seq<char>>,
    other_calls: Seq<(usize, usize)>,
    other_comps: Seq<Seq<usize>>,
    i: int,
    j: int,
    p: int,
) -> (q: int)
    requires
        twins(names, calls, comps, others, other_calls, other_comps),
        matching(names, comps, others, other_comps, i, j),
        0 <= p < comps.len(),
        components::component_edge(comps, calls, i, p),
    ensures
        matching(names, comps, others, other_comps, p, q),
        components::component_edge(other_comps, other_calls, j, q),
        0 <= q < j,
{
    reveal(twins);
    reveal(matching);
    let (a, b) = choose|a: usize, b: usize|
        #[trigger] comps[i].contains(a) && #[trigger] comps[p].contains(b) && calls.contains((a, b));
    let q = lemma_matching(names, calls, comps, others, other_calls, other_comps, p, b);
    let c = renamed(names, others, a);
    let d = renamed(names, others, b);
    assert(other_comps[j].contains(c));
    assert(other_comps[q].contains(d));
    assert(other_calls.contains((c, d)));
    if q == j {
        assert(comps[p].contains(a));
    }
    q
}

/// Matching components are on the same level.
#[verifier::rlimit(40)]
proof fn lemma_matching_level(
    names: Seq<Seq<char>>,
    calls: Seq<(usize, usize)>,
    comps: Seq<Seq<usize>>,
    others: Seq<Seq<char>>,
    other_calls: Seq<(usize, usize)>,
    other_comps: Seq<Seq<usize>>,
    i: int,
    j: int,
)
    requires
        twins(names, calls, comps, others, other_calls, other_comps),
        matching(names, comps, others, other_comps, i, j),
    ensures
        level_of(comps, calls, i) == level_of(other_comps, other_calls, j),
    decreases i,
{
    assert(0 <= i < comps.len() && 0 <= j < other_comps.len()) by {
        reveal(matching);
    }
    let level = level_of(comps, calls, i);
    let other_level = level_of(other_comps, other_calls, j);
    assert(level == level_above(comps, calls, i, i));
    assert(other_level == level_above(other_comps, other_calls, j, j));
    lemma_level_above(comps, calls, i, i);
    lemma_level_above(other_comps, other_calls, j, j);
    assert(level <= other_level) by {
        if level > 0 {
            let p = choose|p: int|
                0 <= p < i && #[trigger] components::component_edge(comps, calls, i, p) && level
                    == 1 + level_of(comps, calls, p);
            let q = lemma_matching_edge(
                names,
                calls,
                comps,
                others,
                other_calls,
                other_comps,
                i,
                j,
                p,
            );
            lemma_matching_level(names, calls, comps, others, other_calls, other_comps, p, q);
        }
    }
    assert(other_level <= level) by {
        if other_level > 0 {
            let q = choose|q: int|
                0 <= q < j && #[trigger] components::component_edge(other_comps, other_calls, j, q)
                    && other_level == 1 + level_of(other_comps, other_calls, q);
            lemma_matching_back(others, other_calls, other_comps, names, calls, comps, j, i);
            let p = lemma_matching_edge(
                others,
                other_calls,
                other_comps,
                names,
                calls,
                comps,
                j,
                i,
                q,
            );
            lemma_matching_back(names, calls, comps, others, other_calls, other_comps, p, q);
            lemma_matching_level(names, calls, comps, others, other_calls, other_comps, p, q);
        }
    }
}

/// The names of matching components are the same.
proof fn lemma_matching_names(
    names: Seq<Seq<char>>,
    comps: Seq<Seq<usize>>,
    others: Seq<Seq<char>>,
    other_comps: Seq<Seq<usize>>,
    i: int,
    j: int,
)
    requires
        names.no_duplicates(),
        others.no_duplicates(),
        names.len() <= usize::MAX,
        others.len() <= usize::MAX,
        forall|x: Seq<char>| #[trigger] names.contains(x) <==> others.contains(x),
        matching(names, comps, others, other_comps, i, j),
        comps[i].no_duplicates(),
        other_comps[j].no_duplicates(),
        forall|a: usize| #[trigger] comps[i].contains(a) ==> a < names.len(),
        forall|a: usize| #[trigger] other_comps[j].contains(a) ==> a < others.len(),
    ensures
        names_at(names, comps[i]).to_multiset() == names_at(others, other_comps[j]).to_multiset(),
        comps[i].len() == other_comps[j].len(),
{
    reveal(matching);
    let own = names_at(names, comps[i]);
    let other = names_at(others, other_comps[j]);
    assert forall|p: int, q: int| 0 <= p < own.len() && 0 <= q < own.len() && p != q implies own[p]
        != own[q] by {
        assert(comps[i].contains(comps[i][p]));
        assert(comps[i].contains(comps[i][q]));
    }
    assert forall|p: int, q: int|
        0 <= p < other.len() && 0 <= q < other.len() && p != q implies other[p] != other[q] by {
        assert(other_comps[j].contains(other_comps[j][p]));
        assert(other_comps[j].contains(other_comps[j][q]));
    }
    assert forall|x: Seq<char>| #[trigger] own.contains(x) <==> other.contains(x) by {
        if own.contains(x) {
            let a = comps[i][own.index_of(x)];
            assert(comps[i].contains(a));
            lemma_renamed(names, others, a);
            let c = renamed(names, others, a);
            assert(other_comps[j].contains(c));
            assert(other[other_comps[j].index_of(c)] == x);
        }
        if other.contains(x) {
            let c = other_comps[j][other.index_of(x)];
            assert(other_comps[j].contains(c));
            lemma_renamed(others, names, c);
            let a = renamed(others, names, c);
            assert(comps[i].contains(a) <==> other_comps[j].contains(renamed(names, others, a)));
            assert(renamed(names, others, a) == c);
            assert(own[comps[i].index_of(a)] == x);
        }
    }
    own.lemma_multiset_has_no_duplicates();
    other.lemma_multiset_has_no_duplicates();
    broadcast use vstd::seq_lib::group_to_multiset_ensures;

    assert forall|x: Seq<char>| #[trigger] own.to_multiset().count(x) == other.to_multiset().count(
        x,
    ) by {
        assert(own.contains(x) <==> own.to_multiset().count(x) > 0);
        assert(other.contains(x) <==> other.to_multiset().count(x) > 0);
    }
    assert(own.to_multiset() =~= other.to_multiset());
    assert(own.len() == own.to_multiset().len());
    assert(other.len() == other.to_multiset().len());
}

/// Texts in order are determined by which they are.
proof fn lemma_ordered_unique(s: Seq<Seq<char>>, t: Seq<Seq<char>>)
    requires
        text::ordered(s),
        text::ordered(t),
        s.to_multiset() == t.to_multiset(),
    ensures
        s == t,
{
    let le = |a: Seq<char>, b: Seq<char>| text::text_le(a, b);
    assert(vstd::relations::total_ordering(le)) by {
        assert forall|a: Seq<char>, b: Seq<char>, c: Seq<char>| #[trigger]
            le(a, b) && #[trigger] le(b, c) implies le(a, c) by {
            text::text_order_is_total(a, b, c);
        }
        assert forall|a: Seq<char>| #[trigger] le(a, a) by {
            text::text_order_is_total(a, a, a);
        }
        assert forall|a: Seq<char>, b: Seq<char>| #[trigger] le(a, b) || #[trigger] le(b, a) by {
            text::text_order_is_total(a, b, b);
        }
        assert forall|a: Seq<char>, b: Seq<char>| #[trigger] le(a, b) && #[trigger] le(
            b,
            a,
        ) implies a == b by {
            text::text_order_is_total(a, b, b);
        }
    }
    vstd::seq_lib::lemma_sorted_unique(s, t, le);
}

/// A group of one layout is in the other.
#[verifier::rlimit(40)]
proof fn lemma_group_among(
    names: Seq<Seq<char>>,
    calls: Seq<(usize, usize)>,
    comps: Seq<Seq<usize>>,
    levels: Seq<Level>,
    others: Seq<Seq<char>>,
    other_calls: Seq<(usize, usize)>,
    other_comps: Seq<Seq<usize>>,
    other_levels: Seq<Level>,
    l: int,
    k: int,
)
    requires
        same_calls(names, calls, others, other_calls),
        components::are_components(comps, names.len(), calls),
        components::are_components(other_comps, others.len(), other_calls),
        is_layout(levels, names, calls, comps),
        is_layout(other_levels, others, other_calls, other_comps),
        0 <= l < levels.len(),
        0 <= k < levels[l].groups@.len(),
    ensures
        l < other_levels.len(),
        has_group(other_levels[l].groups@, levels[l].groups@[k]),
{
    assert(twins(names, calls, comps, others, other_calls, other_comps)) by {
        reveal(twins);
    }
    let g = levels[l].groups@[k];
    let here = at_level(comps, calls, l as nat, comps.len() as int);
    assert(is_level(levels[l], names, calls, comps, l as nat));
    lemma_at_level(comps, calls, l as nat, comps.len() as int);
    let i = here[k];
    let a = comps[i][0];
    assert(comps[i].contains(a));
    let j = lemma_matching(names, calls, comps, others, other_calls, other_comps, i, a);
    lemma_matching_level(names, calls, comps, others, other_calls, other_comps, i, j);
    assert(0 <= j < other_comps.len()) by {
        reveal(matching);
    }
    component_has_one_place(other_comps, other_calls, j, l as nat);
    let there = at_level(other_comps, other_calls, l as nat, other_comps.len() as int);
    let m = there.index_of(j);
    assert(there[m] == j);
    assert(is_level(other_levels[l], others, other_calls, other_comps, l as nat));
    let h = other_levels[l].groups@[m];
    assert(is_group(
        g,
        names,
        calls,
        comps[i],
        below_level(comps, calls, l as nat) + k as nat,
        l as nat,
    ));
    assert(is_group(
        h,
        others,
        other_calls,
        other_comps[j],
        below_level(other_comps, other_calls, l as nat) + m as nat,
        l as nat,
    ));
    lemma_matching_names(names, comps, others, other_comps, i, j);
    lemma_ordered_unique(text::texts(g.members@), text::texts(h.members@));
    let c = renamed(names, others, a);
    if comps[i].len() == 1 {
        let q = other_comps[j].index_of(c);
        assert(other_comps[j][q] == c);
        assert(other_comps[j][0] == c);
        lemma_renamed(names, others, a);
        assert(calls.contains((a, a)) <==> other_calls.contains((c, c)));
    }
    assert(same_group(g, h));
}

/// Some component is on the highest level.
proof fn lemma_height_reached(comps: Seq<Seq<usize>>, edges: Seq<(usize, usize)>, n: int) -> (i:
    int)
    requires
        n > 0,
    ensures
        0 <= i < n,
        level_of(comps, edges, i) + 1 == height(comps, edges, n),
    decreases n,
{
    if n == 1 || 1 + level_of(comps, edges, n - 1) > height(comps, edges, n - 1) {
        reveal_with_fuel(height, 2);
        n - 1
    } else {
        lemma_height_reached(comps, edges, n - 1)
    }
}

proof fn lemma_no_higher(
    names: Seq<Seq<char>>,
    calls: Seq<(usize, usize)>,
    comps: Seq<Seq<usize>>,
    others: Seq<Seq<char>>,
    other_calls: Seq<(usize, usize)>,
    other_comps: Seq<Seq<usize>>,
)
    requires
        same_calls(names, calls, others, other_calls),
        components::are_components(comps, names.len(), calls),
        components::are_components(other_comps, others.len(), other_calls),
    ensures
        height(comps, calls, comps.len() as int) <= height(
            other_comps,
            other_calls,
            other_comps.len() as int,
        ),
{
    assert(twins(names, calls, comps, others, other_calls, other_comps)) by {
        reveal(twins);
    }
    if comps.len() > 0 {
        let i = lemma_height_reached(comps, calls, comps.len() as int);
        let a = comps[i][0];
        assert(comps[i].contains(a));
        let j = lemma_matching(names, calls, comps, others, other_calls, other_comps, i, a);
        lemma_matching_level(names, calls, comps, others, other_calls, other_comps, i, j);
        assert(0 <= j < other_comps.len()) by {
            reveal(matching);
        }
        lemma_height(other_comps, other_calls, other_comps.len() as int, j);
    }
}

/// The layout depends on the call graph alone. Functions and calls in another
/// order, repeated, or with calls of or by functions that are not listed, give the
/// same levels: as many, and each with the same groups, which have the same members
/// and are circular or not alike. (Where groups of one level stand, and so how they
/// are numbered, may differ.)
pub proof fn layout_depends_on_the_graph_alone(
    vertices: Seq<Seq<char>>,
    edges: Seq<(Seq<char>, Seq<char>)>,
    levels: Seq<Level>,
    other_vertices: Seq<Seq<char>>,
    other_edges: Seq<(Seq<char>, Seq<char>)>,
    other_levels: Seq<Level>,
)
    requires
        vertices.len() <= usize::MAX,
        other_vertices.len() <= usize::MAX,
        lays_out(levels, vertices, edges),
        lays_out(other_levels, other_vertices, other_edges),
        same_graph(vertices, edges, other_vertices, other_edges),
    ensures
        levels.len() == other_levels.len(),
        groups_among(levels, other_levels),
        groups_among(other_levels, levels),
{
    let names = distinct(vertices);
    let others = distinct(other_vertices);
    let calls = call_edges(names, edges);
    let other_calls = call_edges(others, other_edges);
    lemma_same_calls(vertices, edges, other_vertices, other_edges);
    if names.len() == 0 {
        if others.len() > 0 {
            assert(others.contains(others[0]));
            assert(names.contains(others[0]));
        }
    } else {
        assert(names.contains(names[0]));
        assert(others.contains(names[0]));
        let comps = components::condensation_order(names.len(), calls);
        let other_comps = components::condensation_order(others.len(), other_calls);
        assert(same_calls(others, other_calls, names, calls));
        lemma_no_higher(names, calls, comps, others, other_calls, other_comps);
        lemma_no_higher(others, other_calls, other_comps, names, calls, comps);
        assert forall|l: int, k: int|
            0 <= l < levels.len() && 0 <= k < levels[l].groups@.len() implies l
            < other_levels.len() && has_group(
            other_levels[l].groups@,
            #[trigger] levels[l].groups@[k],
        ) by {
            lemma_group_among(
                names,
                calls,
                comps,
                levels,
                others,
                other_calls,
                other_comps,
                other_levels,
                l,
                k,
            );
        }
        assert forall|l: int, k: int|
            0 <= l < other_levels.len() && 0 <= k < other_levels[l].groups@.len() implies l
            < levels.len() && has_group(
            levels[l].groups@,
            #[trigger] other_levels[l].groups@[k],
        ) by {
            lemma_group_among(
                others,
                other_calls,
                other_comps,
                other_levels,
                names,
                calls,
                comps,
                levels,
                l,
                k,
            );
        }
    }
}

proof fn lemma_ready_names(
    vertices: Seq<Seq<char>>,
    names: Seq<Seq<char>>,
    calls: Seq<(usize, usize)>,
    done: Seq<Seq<char>>,
    in_progress: Seq<Seq<char>>,
    x: Seq<char>,
)
    requires
        vertices.contains(x),
        ready(names, calls, done, in_progress, names.index_of(x) as usize),
    ensures
        ready_names(vertices, names, calls, done, in_progress).contains(x),
    decreases vertices.len(),
{
    let all = ready_names(vertices, names, calls, done, in_progress);
    if vertices.last() == x {
        assert(all.last() == x);
    } else {
        let rest = vertices.drop_last();
        let k = vertices.index_of(x);
        assert(rest[k] == x);
        lemma_ready_names(rest, names, calls, done, in_progress, x);
        let before = ready_names(rest, names, calls, done, in_progress);
        assert(all[before.index_of(x)] == x);
    }
}

/// Some member of component `k` is not done.
spec fn unfinished(
    comps: Seq<Seq<usize>>,
    names: Seq<Seq<char>>,
    done: Seq<Seq<char>>,
    k: int,
) -> bool {
    exists|i: usize| #[trigger] comps[k].contains(i) && !done.contains(names[i as int])
}

/// The first component that is not finished, at `k` or before.
proof fn lemma_first_unfinished(
    comps: Seq<Seq<usize>>,
    names: Seq<Seq<char>>,
    done: Seq<Seq<char>>,
    k: int,
) -> (first: int)
    requires
        0 <= k < comps.len(),
        unfinished(comps, names, done, k),
    ensures
        0 <= first <= k,
        unfinished(comps, names, done, first),
        forall|j: int| 0 <= j < first ==> !unfinished(comps, names, done, j),
    decreases k,
{
    if exists|j: int| 0 <= j < k && unfinished(comps, names, done, j) {
        let j = choose|j: int| 0 <= j < k && unfinished(comps, names, done, j);
        lemma_first_unfinished(comps, names, done, j)
    } else {
        k
    }
}

/// The work never stops half-way: as long as a function is not done, some function
/// that is not done is under way or ready.
pub proof fn work_never_stops(
    vertices: Seq<Seq<char>>,
    edges: Seq<(Seq<char>, Seq<char>)>,
    comps: Seq<Seq<usize>>,
    done: Seq<Seq<char>>,
    in_progress: Seq<Seq<char>>,
    open: Seq<char>,
)
    requires
        vertices.len() <= usize::MAX,
        components::are_components(
            comps,
            distinct(vertices).len(),
            call_edges(distinct(vertices), edges),
        ),
        vertices.contains(open),
        !done.contains(open),
    ensures
        exists|x: Seq<char>| #[trigger]
            vertices.contains(x) && !done.contains(x) && (in_progress.contains(x) || ready_names(
                vertices,
                distinct(vertices),
                call_edges(distinct(vertices), edges),
                done,
                in_progress,
            ).contains(x)),
{
    let names = distinct(vertices);
    let calls = call_edges(names, edges);
    lemma_distinct(vertices);
    lemma_call_edges(names, edges);
    assert(names.contains(open));
    let o = names.index_of(open) as usize;
    assert(names[o as int] == open);
    assert(components::listed(comps, o));
    let k = choose|k: int| 0 <= k < comps.len() && #[trigger] comps[k].contains(o);
    assert(unfinished(comps, names, done, k));
    let first = lemma_first_unfinished(comps, names, done, k);
    let i = choose|i: usize| #[trigger]
        comps[first].contains(i) && !done.contains(names[i as int]);
    let x = names[i as int];
    assert(names.contains(x));
    assert(names.index_of(x) == i);
    assert forall|j: usize| #[trigger] calls.contains((i, j)) implies done.contains(
        names[j as int],
    ) || components::mutual(calls, i, j) by {
        let e = calls.index_of((i, j));
        assert(calls[e].1 < names.len());
        assert(components::listed(comps, j));
        let m = choose|m: int| 0 <= m < comps.len() && #[trigger] comps[m].contains(j);
        assert(m <= first);
        if m < first {
            assert(!unfinished(comps, names, done, m));
        } else {
            assert(comps[first].contains(j));
        }
    }
    assert(vertices.contains(x));
    if !in_progress.contains(x) {
        lemma_ready_names(vertices, names, calls, done, in_progress, x);
    }
}

} // verus!
