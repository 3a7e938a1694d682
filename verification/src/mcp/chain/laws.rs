//! What a call chain holds, said of the calls alone.

use vstd::prelude::*;

use crate::json;
use crate::json::{JsonView, NumberView};
use crate::mcp::chain;
use crate::mcp::chain::Direction;
use crate::state;
use crate::state::call_graph;
use crate::state::{CallEdgeView, CallVertexView};

verus! {

/// A call leads from `a` to `b`, in the direction that is followed.
pub open spec fn goes(
    edges: Seq<CallEdgeView>,
    direction: Direction,
    a: Seq<char>,
    b: Seq<char>,
) -> bool {
    exists|i: int|
        0 <= i < edges.len() && match direction {
            Direction::Callees => (#[trigger] edges[i]).src == a && edges[i].dst == b,
            Direction::Callers => edges[i].dst == a && edges[i].src == b,
        }
}

/// `path` follows calls, and passes no stop: none is set behind its start.
pub open spec fn is_walk(
    edges: Seq<CallEdgeView>,
    direction: Direction,
    stops: Set<Seq<char>>,
    path: Seq<Seq<char>>,
) -> bool {
    &&& path.len() > 0
    &&& forall|i: int|
        0 <= i < path.len() - 1 ==> #[trigger] goes(edges, direction, path[i], path[i + 1])
    &&& forall|i: int| 1 <= i < path.len() ==> !stops.contains(#[trigger] path[i])
}

/// `m` is reached from `start` in `d` steps.
pub open spec fn reached(
    edges: Seq<CallEdgeView>,
    direction: Direction,
    stops: Set<Seq<char>>,
    start: Seq<char>,
    m: Seq<char>,
    d: nat,
) -> bool {
    exists|path: Seq<Seq<char>>| #[trigger]
        is_walk(edges, direction, stops, path) && path.len() == d + 1 && path[0] == start
            && path.last() == m
}

/// `m` is reached from `start` in `d` steps, and not in fewer.
pub open spec fn first_reached(
    edges: Seq<CallEdgeView>,
    direction: Direction,
    stops: Set<Seq<char>>,
    start: Seq<char>,
    m: Seq<char>,
    d: nat,
) -> bool {
    &&& reached(edges, direction, stops, start, m, d)
    &&& forall|e: nat| e < d ==> !#[trigger] reached(edges, direction, stops, start, m, e)
}

/// The declaration is shown by `name`: that of the first vertex that bears it, or a
/// question mark where there is none.
pub open spec fn is_shown_as(
    vertices: Seq<CallVertexView>,
    decl: Seq<char>,
    name: JsonView,
) -> bool {
    match name {
        JsonView::Text(n) => call_graph::is_name_of(vertices, decl, n) || (n == "?"@ && forall|
            i: int,
        |
            0 <= i < vertices.len() ==> (#[trigger] vertices[i]).declaration != decl),
        _ => false,
    }
}

/// The value reports a step from `m` to `n`, at depth `d`.
pub open spec fn is_step(
    vertices: Seq<CallVertexView>,
    v: JsonView,
    m: Seq<char>,
    n: Seq<char>,
    d: nat,
) -> bool {
    &&& v.at("from_marker"@) == JsonView::Text(m)
    &&& v.at("to_marker"@) == JsonView::Text(n)
    &&& v.at("depth"@) == JsonView::Number(NumberView::Int(d as int))
    &&& is_shown_as(vertices, m, v.at("from"@))
    &&& is_shown_as(vertices, n, v.at("to"@))
}

/// The other ends of the calls at `m`, in the order of the calls.
pub open spec fn other_ends(
    edges: Seq<CallEdgeView>,
    direction: Direction,
    m: Seq<char>,
) -> Seq<Seq<char>> {
    match direction {
        Direction::Callees => edges.filter(|e: CallEdgeView| e.src == m).map_values(
            |e: CallEdgeView| e.dst,
        ),
        Direction::Callers => edges.filter(|e: CallEdgeView| e.dst == m).map_values(
            |e: CallEdgeView| e.src,
        ),
    }
}

/// The steps that start at `m`, in their order.
pub open spec fn steps_from(steps: Seq<JsonView>, m: Seq<char>) -> Seq<JsonView> {
    steps.filter(|v: JsonView| v.at("from_marker"@) == JsonView::Text(m))
}

proof fn lemma_next_to(edges: Seq<CallEdgeView>, direction: Direction, m: Seq<char>)
    ensures
        chain::next_to(edges, direction, m) == other_ends(edges, direction, m),
        forall|n: Seq<char>| #[trigger]
            chain::next_to(edges, direction, m).contains(n) <==> goes(edges, direction, m, n),
    decreases edges.len(),
{
    assert forall|n: Seq<char>| #[trigger]
        chain::next_to(edges, direction, m).contains(n) <==> goes(edges, direction, m, n) by {
        call_graph::neighbors_are_called_or_call(edges, m, n);
        match direction {
            Direction::Callees => {
                assert(goes(edges, direction, m, n) <==> exists|i: int|
                    0 <= i < edges.len() && (#[trigger] edges[i]).src == m && edges[i].dst == n);
            },
            Direction::Callers => {
                assert(goes(edges, direction, m, n) <==> exists|i: int|
                    0 <= i < edges.len() && (#[trigger] edges[i]).src == n && edges[i].dst == m);
            },
        }
    }
    reveal(Seq::filter);
    if edges.len() > 0 {
        lemma_next_to(edges.drop_last(), direction, m);
        assert(chain::next_to(edges, direction, m) =~= other_ends(edges, direction, m));
    } else {
        assert(chain::next_to(edges, direction, m) =~= other_ends(edges, direction, m));
    }
}

proof fn lemma_is_step(vertices: Seq<CallVertexView>, m: Seq<char>, n: Seq<char>, d: nat)
    ensures
        is_step(vertices, chain::hop(vertices, m, n, d), m, n, d),
{
    reveal_strlit("from");
    reveal_strlit("to");
    reveal_strlit("from_marker");
    reveal_strlit("to_marker");
    reveal_strlit("depth");
    let a = json::no_fields();
    let from = JsonView::Text(chain::shown_name(vertices, m));
    let to = JsonView::Text(chain::shown_name(vertices, n));
    json::set_field_reads_back(a, "from"@, from);
    let b = a.with("from"@, from);
    json::set_field_reads_back(b, "to"@, to);
    let c = b.with("to"@, to);
    json::set_field_reads_back(c, "from_marker"@, JsonView::Text(m));
    let e = c.with("from_marker"@, JsonView::Text(m));
    json::set_field_reads_back(e, "to_marker"@, JsonView::Text(n));
    let f = e.with("to_marker"@, JsonView::Text(n));
    json::set_field_reads_back(f, "depth"@, json::whole(d as int));
    let v = f.with("depth"@, json::whole(d as int));
    assert(v == chain::hop(vertices, m, n, d));
    assert("from"@.len() == 4 && "to"@.len() == 2 && "from_marker"@.len() == 11);
    assert("to_marker"@.len() == 9 && "depth"@.len() == 5);
    assert(v.at("to_marker"@) == f.at("to_marker"@));
    assert(v.at("from_marker"@) == f.at("from_marker"@) && f.at("from_marker"@) == e.at(
        "from_marker"@,
    ));
    assert(v.at("to"@) == f.at("to"@) && f.at("to"@) == e.at("to"@) && e.at("to"@) == c.at("to"@));
    assert(v.at("from"@) == f.at("from"@) && f.at("from"@) == e.at("from"@) && e.at("from"@) == c.at(
        "from"@,
    ) && c.at("from"@) == b.at("from"@));
    call_graph::first_vertex_gives_the_name(vertices, m, chain::shown_name(vertices, m));
    call_graph::first_vertex_gives_the_name(vertices, n, chain::shown_name(vertices, n));
}

/// A declaration of the level that is followed.
spec fn fresh(
    stops: Set<Seq<char>>,
    depth: nat,
    level: Seq<Seq<char>>,
    visited: Set<Seq<char>>,
    m: Seq<char>,
) -> bool {
    level.contains(m) && chain::followed(visited, stops, m, depth)
}

#[verifier::rlimit(40)]
proof fn lemma_level(
    edges: Seq<CallEdgeView>,
    vertices: Seq<CallVertexView>,
    direction: Direction,
    stops: Set<Seq<char>>,
    depth: nat,
    level: Seq<Seq<char>>,
    visited: Set<Seq<char>>,
)
    ensures
        ({
            let front = chain::level_followed(
                edges,
                vertices,
                direction,
                stops,
                depth,
                level,
                visited,
            );
            &&& forall|m: Seq<char>| #[trigger]
                front.visited.contains(m) <==> visited.contains(m) || fresh(
                    stops,
                    depth,
                    level,
                    visited,
                    m,
                )
            &&& forall|n: Seq<char>| #[trigger]
                front.next.contains(n) <==> exists|m: Seq<char>| #[trigger]
                    fresh(stops, depth, level, visited, m) && chain::next_to(
                        edges,
                        direction,
                        m,
                    ).contains(n)
            &&& forall|i: int|
                0 <= i < front.chain.len() ==> exists|m: Seq<char>, n: Seq<char>|
                    {
                        &&& #[trigger] front.chain[i] == #[trigger] chain::hop(
                            vertices,
                            m,
                            n,
                            depth,
                        )
                        &&& fresh(stops, depth, level, visited, m)
                        &&& chain::next_to(edges, direction, m).contains(n)
                    }
            &&& forall|m: Seq<char>| #[trigger]
                steps_from(front.chain, m) == if fresh(stops, depth, level, visited, m) {
                    chain::hops(vertices, m, chain::next_to(edges, direction, m), depth)
                } else {
                    Seq::empty()
                }
        }),
    decreases level.len(),
{
    reveal(Seq::filter);
    let front = chain::level_followed(edges, vertices, direction, stops, depth, level, visited);
    if level.len() > 0 {
        let rest = level.drop_last();
        let marker = level.last();
        lemma_level(edges, vertices, direction, stops, depth, rest, visited);
        let before = chain::level_followed(
            edges,
            vertices,
            direction,
            stops,
            depth,
            rest,
            visited,
        );
        let neighbors = chain::next_to(edges, direction, marker);
        let steps = chain::hops(vertices, marker, neighbors, depth);
        assert forall|m: Seq<char>| #[trigger] level.contains(m) <==> rest.contains(m) || m
            == marker by {
            if rest.contains(m) {
                assert(level[rest.index_of(m)] == m);
            }
            if level.contains(m) && m != marker {
                let i = level.index_of(m);
                assert(rest[i] == m);
            }
            assert(level[level.len() - 1] == marker);
        }
        let now = chain::followed(before.visited, stops, marker, depth);
        assert forall|m: Seq<char>| #[trigger]
            fresh(stops, depth, level, visited, m) <==> fresh(stops, depth, rest, visited, m) || (
        now && m == marker) by {
            assert(before.visited.contains(marker) <==> visited.contains(marker) || fresh(
                stops,
                depth,
                rest,
                visited,
                marker,
            ));
        }
        assert forall|m: Seq<char>| #[trigger] front.visited.contains(m) <==> visited.contains(m)
            || fresh(stops, depth, level, visited, m) by {
            assert(before.visited.contains(m) <==> visited.contains(m) || fresh(
                stops,
                depth,
                rest,
                visited,
                m,
            ));
        }
        assert forall|n: Seq<char>| #[trigger] front.next.contains(n) <==> exists|m: Seq<char>|
         #[trigger]
            fresh(stops, depth, level, visited, m) && chain::next_to(
                edges,
                direction,
                m,
            ).contains(n) by {
            if now {
                lemma_sum_contains(before.next, neighbors, n);
            }
            if before.next.contains(n) {
                let m = choose|m: Seq<char>| #[trigger]
                    fresh(stops, depth, rest, visited, m) && chain::next_to(
                        edges,
                        direction,
                        m,
                    ).contains(n);
                assert(fresh(stops, depth, level, visited, m));
            }
            if now && neighbors.contains(n) {
                assert(fresh(stops, depth, level, visited, marker));
            }
            if exists|m: Seq<char>| #[trigger]
                fresh(stops, depth, level, visited, m) && chain::next_to(
                    edges,
                    direction,
                    m,
                ).contains(n) {
                let m = choose|m: Seq<char>| #[trigger]
                    fresh(stops, depth, level, visited, m) && chain::next_to(
                        edges,
                        direction,
                        m,
                    ).contains(n);
                if fresh(stops, depth, rest, visited, m) {
                    assert(before.next.contains(n));
                }
            }
        }
        assert forall|i: int| 0 <= i < front.chain.len() implies exists|
            m: Seq<char>,
            n: Seq<char>,
        |
            {
                &&& #[trigger] front.chain[i] == #[trigger] chain::hop(vertices, m, n, depth)
                &&& fresh(stops, depth, level, visited, m)
                &&& chain::next_to(edges, direction, m).contains(n)
            } by {
            if i < before.chain.len() {
                assert(front.chain[i] == before.chain[i]);
                let (m, n) = choose|m: Seq<char>, n: Seq<char>|
                    {
                        &&& #[trigger] before.chain[i] == #[trigger] chain::hop(
                            vertices,
                            m,
                            n,
                            depth,
                        )
                        &&& fresh(stops, depth, rest, visited, m)
                        &&& chain::next_to(edges, direction, m).contains(n)
                    };
                assert(front.chain[i] == chain::hop(vertices, m, n, depth));
                assert(fresh(stops, depth, level, visited, m));
            } else {
                let j = i - before.chain.len();
                assert(front.chain[i] == steps[j]);
                assert(front.chain[i] == chain::hop(vertices, marker, neighbors[j], depth));
                assert(neighbors.contains(neighbors[j]));
                assert(fresh(stops, depth, level, visited, marker));
            }
        }
        assert forall|m: Seq<char>| #[trigger] steps_from(front.chain, m) == if fresh(
            stops,
            depth,
            level,
            visited,
            m,
        ) {
            chain::hops(vertices, m, chain::next_to(edges, direction, m), depth)
        } else {
            Seq::empty()
        } by {
            assert(steps_from(before.chain, m) == if fresh(stops, depth, rest, visited, m) {
                chain::hops(vertices, m, chain::next_to(edges, direction, m), depth)
            } else {
                Seq::empty()
            });
            if now {
                lemma_steps_of_sum(before.chain, steps, m);
                lemma_steps_of_hops(vertices, marker, neighbors, depth, m);
                if m == marker {
                    assert(!fresh(stops, depth, rest, visited, m));
                    assert(Seq::<JsonView>::empty() + steps =~= steps);
                } else {
                    assert(steps_from(before.chain, m) + Seq::<JsonView>::empty() =~= steps_from(
                        before.chain,
                        m,
                    ));
                }
            }
        }
    } else {
        assert forall|m: Seq<char>| #[trigger] steps_from(front.chain, m) == if fresh(
            stops,
            depth,
            level,
            visited,
            m,
        ) {
            chain::hops(vertices, m, chain::next_to(edges, direction, m), depth)
        } else {
            Seq::empty()
        } by {
            assert(steps_from(front.chain, m) =~= Seq::empty());
        }
    }
}

proof fn lemma_sum_contains(a: Seq<Seq<char>>, b: Seq<Seq<char>>, x: Seq<char>)
    ensures
        (a + b).contains(x) <==> a.contains(x) || b.contains(x),
{
    if a.contains(x) {
        assert((a + b)[a.index_of(x)] == x);
    }
    if b.contains(x) {
        assert((a + b)[a.len() + b.index_of(x)] == x);
    }
    if (a + b).contains(x) {
        let i = (a + b).index_of(x);
        if i < a.len() {
            assert(a[i] == x);
        } else {
            assert(b[i - a.len()] == x);
        }
    }
}

proof fn lemma_steps_of_sum(a: Seq<JsonView>, b: Seq<JsonView>, m: Seq<char>)
    ensures
        steps_from(a + b, m) == steps_from(a, m) + steps_from(b, m),
{
    Seq::filter_distributes_over_add(
        a,
        b,
        |v: JsonView| v.at("from_marker"@) == JsonView::Text(m),
    );
}

proof fn lemma_steps_of_hops(
    vertices: Seq<CallVertexView>,
    marker: Seq<char>,
    neighbors: Seq<Seq<char>>,
    depth: nat,
    m: Seq<char>,
)
    ensures
        steps_from(chain::hops(vertices, marker, neighbors, depth), m) == if m == marker {
            chain::hops(vertices, marker, neighbors, depth)
        } else {
            Seq::empty()
        },
    decreases neighbors.len(),
{
    reveal(Seq::filter);
    let all = chain::hops(vertices, marker, neighbors, depth);
    if neighbors.len() > 0 {
        lemma_steps_of_hops(vertices, marker, neighbors.drop_last(), depth, m);
        lemma_is_step(vertices, marker, neighbors.last(), depth);
        let rest = chain::hops(vertices, marker, neighbors.drop_last(), depth);
        assert(all.drop_last() =~= rest);
        assert(all.last() == chain::hop(vertices, marker, neighbors.last(), depth));
        assert(all =~= rest.push(all.last()));
    }
    assert(steps_from(all, m) =~= if m == marker {
        all
    } else {
        Seq::empty()
    });
}

/// How a chain stands at a depth: what was reached before was followed, and the
/// level holds what was just called.
spec fn stands(
    edges: Seq<CallEdgeView>,
    direction: Direction,
    stops: Set<Seq<char>>,
    start: Seq<char>,
    depth: nat,
    level: Seq<Seq<char>>,
    visited: Set<Seq<char>>,
) -> bool {
    &&& forall|m: Seq<char>| #[trigger]
        visited.contains(m) <==> exists|d: nat|
            d < depth && #[trigger] reached(edges, direction, stops, start, m, d)
    &&& forall|m: Seq<char>| #[trigger]
        level.contains(m) <==> if depth == 0 {
            m == start
        } else {
            exists|p: Seq<char>| #[trigger]
                first_reached(edges, direction, stops, start, p, (depth - 1) as nat) && goes(
                    edges,
                    direction,
                    p,
                    m,
                )
        }
}

/// One step more.
proof fn lemma_reached_next(
    edges: Seq<CallEdgeView>,
    direction: Direction,
    stops: Set<Seq<char>>,
    start: Seq<char>,
    p: Seq<char>,
    m: Seq<char>,
    d: nat,
)
    requires
        reached(edges, direction, stops, start, p, d),
        goes(edges, direction, p, m),
        !stops.contains(m),
    ensures
        reached(edges, direction, stops, start, m, d + 1),
{
    let path = choose|path: Seq<Seq<char>>| #[trigger]
        is_walk(edges, direction, stops, path) && path.len() == d + 1 && path[0] == start
            && path.last() == p;
    let longer = path.push(m);
    assert forall|i: int| 0 <= i < longer.len() - 1 implies #[trigger] goes(
        edges,
        direction,
        longer[i],
        longer[i + 1],
    ) by {
        if i < path.len() - 1 {
            assert(goes(edges, direction, path[i], path[i + 1]));
        }
    }
    assert(is_walk(edges, direction, stops, longer));
    assert(longer[0] == start && longer.last() == m);
}

/// What is followed at a depth is what is first reached there.
proof fn lemma_fresh(
    edges: Seq<CallEdgeView>,
    direction: Direction,
    stops: Set<Seq<char>>,
    start: Seq<char>,
    depth: nat,
    level: Seq<Seq<char>>,
    visited: Set<Seq<char>>,
    m: Seq<char>,
)
    requires
        stands(edges, direction, stops, start, depth, level, visited),
    ensures
        fresh(stops, depth, level, visited, m) <==> first_reached(
            edges,
            direction,
            stops,
            start,
            m,
            depth,
        ),
{
    if fresh(stops, depth, level, visited, m) {
        if depth == 0 {
            let path = seq![start];
            assert(is_walk(edges, direction, stops, path));
            assert(path[0] == start && path.last() == m);
        } else {
            let p = choose|p: Seq<char>| #[trigger]
                first_reached(edges, direction, stops, start, p, (depth - 1) as nat) && goes(
                    edges,
                    direction,
                    p,
                    m,
                );
            lemma_reached_next(edges, direction, stops, start, p, m, (depth - 1) as nat);
        }
        assert forall|e: nat| e < depth implies !#[trigger] reached(
            edges,
            direction,
            stops,
            start,
            m,
            e,
        ) by {
            assert(!visited.contains(m));
        }
    }
    if first_reached(edges, direction, stops, start, m, depth) {
        assert(!visited.contains(m));
        let path = choose|path: Seq<Seq<char>>| #[trigger]
            is_walk(edges, direction, stops, path) && path.len() == depth + 1 && path[0] == start
                && path.last() == m;
        if depth > 0 {
            let shorter = path.drop_last();
            let p = shorter.last();
            assert(p == path[depth - 1]);
            assert(path[depth as int] == m);
            assert(goes(edges, direction, path[depth - 1], path[depth - 1 + 1]));
            assert(!stops.contains(path[depth as int]));
            assert forall|i: int| 0 <= i < shorter.len() - 1 implies #[trigger] goes(
                edges,
                direction,
                shorter[i],
                shorter[i + 1],
            ) by {
                assert(goes(edges, direction, path[i], path[i + 1]));
            }
            assert(is_walk(edges, direction, stops, shorter));
            assert(shorter[0] == start);
            assert(reached(edges, direction, stops, start, p, (depth - 1) as nat));
            assert forall|e: nat| e < depth - 1 implies !#[trigger] reached(
                edges,
                direction,
                stops,
                start,
                p,
                e,
            ) by {
                if reached(edges, direction, stops, start, p, e) {
                    lemma_reached_next(edges, direction, stops, start, p, m, e);
                }
            }
            assert(first_reached(edges, direction, stops, start, p, (depth - 1) as nat));
        }
    }
}

/// A chain from a depth on holds, of each declaration that is first reached from
/// there within the limit, the steps to its neighbors, and nothing else.
#[verifier::rlimit(40)]
proof fn lemma_chain(
    edges: Seq<CallEdgeView>,
    vertices: Seq<CallVertexView>,
    direction: Direction,
    stops: Set<Seq<char>>,
    start: Seq<char>,
    limit: nat,
    depth: nat,
    level: Seq<Seq<char>>,
    visited: Set<Seq<char>>,
)
    requires
        stands(edges, direction, stops, start, depth, level, visited),
    ensures
        ({
            let steps = chain::chain_from(
                edges,
                vertices,
                direction,
                stops,
                limit,
                depth,
                level,
                visited,
            );
            &&& forall|m: Seq<char>, d: nat|
                depth <= d <= limit && #[trigger] first_reached(
                    edges,
                    direction,
                    stops,
                    start,
                    m,
                    d,
                ) ==> steps_from(steps, m) == chain::hops(
                    vertices,
                    m,
                    chain::next_to(edges, direction, m),
                    d,
                )
            &&& forall|m: Seq<char>|
                (forall|d: nat|
                    depth <= d <= limit ==> !#[trigger] first_reached(
                        edges,
                        direction,
                        stops,
                        start,
                        m,
                        d,
                    )) ==> #[trigger] steps_from(steps, m) == Seq::<JsonView>::empty()
            &&& forall|i: int|
                0 <= i < steps.len() ==> #[trigger] is_reached_step(
                    edges,
                    vertices,
                    direction,
                    stops,
                    start,
                    limit,
                    depth,
                    steps[i],
                )
            &&& forall|i: int, j: int|
                #![trigger steps[i], steps[j]]
                0 <= i <= j < steps.len() ==> depth_of(steps[i]) <= depth_of(steps[j])
        }),
    decreases limit + 1 - depth,
{
    let steps = chain::chain_from(
        edges,
        vertices,
        direction,
        stops,
        limit,
        depth,
        level,
        visited,
    );
    reveal(Seq::filter);
    if depth <= limit {
        let front = chain::level_followed(edges, vertices, direction, stops, depth, level, visited);
        lemma_level(edges, vertices, direction, stops, depth, level, visited);
        assert forall|m: Seq<char>| #[trigger]
            fresh(stops, depth, level, visited, m) <==> first_reached(
            edges,
            direction,
            stops,
            start,
            m,
            depth,
        ) by {
            lemma_fresh(edges, direction, stops, start, depth, level, visited, m);
        }
        lemma_stands_next(edges, vertices, direction, stops, start, depth, level, visited);
        lemma_chain(
            edges,
            vertices,
            direction,
            stops,
            start,
            limit,
            depth + 1,
            front.next,
            front.visited,
        );
        let rest = chain::chain_from(
            edges,
            vertices,
            direction,
            stops,
            limit,
            depth + 1,
            front.next,
            front.visited,
        );
        assert forall|m: Seq<char>, d: nat|
            depth <= d <= limit && #[trigger] first_reached(
                edges,
                direction,
                stops,
                start,
                m,
                d,
            ) implies steps_from(steps, m) == chain::hops(
            vertices,
            m,
            chain::next_to(edges, direction, m),
            d,
        ) by {
            lemma_steps_of_sum(front.chain, rest, m);
            let own = chain::hops(vertices, m, chain::next_to(edges, direction, m), d);
            if d == depth {
                assert(fresh(stops, depth, level, visited, m));
                assert forall|e: nat| depth + 1 <= e <= limit implies !#[trigger] first_reached(
                    edges,
                    direction,
                    stops,
                    start,
                    m,
                    e,
                ) by {
                    assert(reached(edges, direction, stops, start, m, d));
                }
                assert(steps_from(rest, m) == Seq::<JsonView>::empty());
                assert(own + Seq::<JsonView>::empty() =~= own);
            } else {
                assert(!first_reached(edges, direction, stops, start, m, depth)) by {
                    assert(!reached(edges, direction, stops, start, m, depth));
                }
                assert(!fresh(stops, depth, level, visited, m));
                assert(Seq::<JsonView>::empty() + own =~= own);
            }
        }
        assert forall|m: Seq<char>|
            (forall|d: nat|
                depth <= d <= limit ==> !#[trigger] first_reached(
                    edges,
                    direction,
                    stops,
                    start,
                    m,
                    d,
                )) implies #[trigger] steps_from(steps, m) == Seq::<JsonView>::empty() by {
            lemma_steps_of_sum(front.chain, rest, m);
            assert(!first_reached(edges, direction, stops, start, m, depth));
            assert(!fresh(stops, depth, level, visited, m));
            assert(steps_from(rest, m) == Seq::<JsonView>::empty());
            assert(Seq::<JsonView>::empty() + Seq::<JsonView>::empty() =~= Seq::<
                JsonView,
            >::empty());
        }
        assert forall|i: int| 0 <= i < steps.len() implies #[trigger] is_reached_step(
            edges,
            vertices,
            direction,
            stops,
            start,
            limit,
            depth,
            steps[i],
        ) && (i < front.chain.len() ==> depth_of(steps[i]) == depth) && (i >= front.chain.len()
            ==> depth_of(steps[i]) > depth) by {
            if i < front.chain.len() {
                assert(steps[i] == front.chain[i]);
                let (m, n) = choose|m: Seq<char>, n: Seq<char>|
                    {
                        &&& #[trigger] front.chain[i] == #[trigger] chain::hop(
                            vertices,
                            m,
                            n,
                            depth,
                        )
                        &&& fresh(stops, depth, level, visited, m)
                        &&& chain::next_to(edges, direction, m).contains(n)
                    };
                lemma_is_step(vertices, m, n, depth);
                lemma_next_to(edges, direction, m);
                assert(first_reached(edges, direction, stops, start, m, depth));
                assert(is_step(vertices, steps[i], m, n, depth));
            } else {
                let r = rest[i - front.chain.len()];
                assert(steps[i] == r);
                assert(is_reached_step(
                    edges,
                    vertices,
                    direction,
                    stops,
                    start,
                    limit,
                    depth + 1,
                    r,
                ));
            }
        }
        assert forall|i: int, j: int|
            #![trigger steps[i], steps[j]]
            0 <= i <= j < steps.len() implies depth_of(steps[i]) <= depth_of(steps[j]) by {
            assert(is_reached_step(
                edges,
                vertices,
                direction,
                stops,
                start,
                limit,
                depth,
                steps[i],
            ));
            assert(is_reached_step(
                edges,
                vertices,
                direction,
                stops,
                start,
                limit,
                depth,
                steps[j],
            ));
            if i >= front.chain.len() {
                assert(steps[i] == rest[i - front.chain.len()]);
                assert(steps[j] == rest[j - front.chain.len()]);
            }
        }
    } else {
        assert forall|m: Seq<char>| #[trigger] steps_from(steps, m) == Seq::<
            JsonView,
        >::empty() by {
            assert(steps_from(steps, m) =~= Seq::empty());
        }
    }
}

/// The depth that a step reports.
pub open spec fn depth_of(v: JsonView) -> int {
    match v.at("depth"@) {
        JsonView::Number(NumberView::Int(d)) => d,
        _ => -1,
    }
}

/// The value reports a step from a declaration that is first reached at the step's
/// depth, which lies between `depth` and the limit.
pub open spec fn is_reached_step(
    edges: Seq<CallEdgeView>,
    vertices: Seq<CallVertexView>,
    direction: Direction,
    stops: Set<Seq<char>>,
    start: Seq<char>,
    limit: nat,
    depth: nat,
    v: JsonView,
) -> bool {
    exists|m: Seq<char>, n: Seq<char>, d: nat|
        {
            &&& #[trigger] is_step(vertices, v, m, n, d)
            &&& depth <= d <= limit
            &&& goes(edges, direction, m, n)
            &&& first_reached(edges, direction, stops, start, m, d)
        }
}

proof fn lemma_stands_next(
    edges: Seq<CallEdgeView>,
    vertices: Seq<CallVertexView>,
    direction: Direction,
    stops: Set<Seq<char>>,
    start: Seq<char>,
    depth: nat,
    level: Seq<Seq<char>>,
    visited: Set<Seq<char>>,
)
    requires
        stands(edges, direction, stops, start, depth, level, visited),
    ensures
        ({
            let front = chain::level_followed(
                edges,
                vertices,
                direction,
                stops,
                depth,
                level,
                visited,
            );
            stands(edges, direction, stops, start, depth + 1, front.next, front.visited)
        }),
{
    let front = chain::level_followed(edges, vertices, direction, stops, depth, level, visited);
    lemma_level(edges, vertices, direction, stops, depth, level, visited);
    assert forall|m: Seq<char>| #[trigger] front.visited.contains(m) <==> exists|d: nat|
        d < depth + 1 && #[trigger] reached(edges, direction, stops, start, m, d) by {
        lemma_fresh(edges, direction, stops, start, depth, level, visited, m);
        if visited.contains(m) {
            let d = choose|d: nat|
                d < depth && #[trigger] reached(edges, direction, stops, start, m, d);
            assert(d < depth + 1 && reached(edges, direction, stops, start, m, d));
        }
        if exists|d: nat|
            d < depth + 1 && #[trigger] reached(edges, direction, stops, start, m, d) {
            let d = choose|d: nat|
                d < depth + 1 && #[trigger] reached(edges, direction, stops, start, m, d);
            if !visited.contains(m) {
                assert(d == depth);
                assert(first_reached(edges, direction, stops, start, m, depth));
            }
        }
    }
    assert forall|n: Seq<char>| #[trigger] front.next.contains(n) <==> exists|p: Seq<char>|
     #[trigger]
        first_reached(edges, direction, stops, start, p, (depth + 1 - 1) as nat) && goes(
            edges,
            direction,
            p,
            n,
        ) by {
        if front.next.contains(n) {
            let m = choose|m: Seq<char>| #[trigger]
                fresh(stops, depth, level, visited, m) && chain::next_to(
                    edges,
                    direction,
                    m,
                ).contains(n);
            lemma_fresh(edges, direction, stops, start, depth, level, visited, m);
            lemma_next_to(edges, direction, m);
            assert(first_reached(edges, direction, stops, start, m, (depth + 1 - 1) as nat));
        }
        if exists|p: Seq<char>| #[trigger]
            first_reached(edges, direction, stops, start, p, (depth + 1 - 1) as nat) && goes(
                edges,
                direction,
                p,
                n,
            ) {
            let p = choose|p: Seq<char>| #[trigger]
                first_reached(edges, direction, stops, start, p, (depth + 1 - 1) as nat) && goes(
                    edges,
                    direction,
                    p,
                    n,
                );
            lemma_fresh(edges, direction, stops, start, depth, level, visited, p);
            lemma_next_to(edges, direction, p);
            assert(fresh(stops, depth, level, visited, p));
        }
    }
}

/// How far calls are followed where nothing is said, and at most.
pub proof fn limit_is_five_unless_given_and_at_most_twenty(max_depth: Option<u32>)
    ensures
        max_depth is None ==> chain::depth_limit(max_depth) == 5,
        max_depth matches Some(d) ==> chain::depth_limit(max_depth) == if d <= 20 {
            d as nat
        } else {
            20
        },
{
}

/// The steps are those of the calls that can be followed, all of them and no others.
/// From each declaration that is reached from the start within the limit, without
/// passing a stop, there is one step for each of its calls, in the order of the calls,
/// at the depth of the shortest way to it. Every step is one of these. They are listed
/// by depth.
pub open spec fn are_the_steps(
    edges: Seq<CallEdgeView>,
    vertices: Seq<CallVertexView>,
    direction: Direction,
    stops: Set<Seq<char>>,
    limit: nat,
    start: Seq<char>,
    steps: Seq<JsonView>,
) -> bool {
    &&& forall|m: Seq<char>, d: nat|
        d <= limit && #[trigger] first_reached(edges, direction, stops, start, m, d) ==> {
            let own = steps_from(steps, m);
            let ends = other_ends(edges, direction, m);
            &&& own.len() == ends.len()
            &&& forall|i: int|
                0 <= i < ends.len() ==> is_step(vertices, #[trigger] own[i], m, ends[i], d)
        }
    &&& forall|i: int|
        0 <= i < steps.len() ==> #[trigger] is_reached_step(
            edges,
            vertices,
            direction,
            stops,
            start,
            limit,
            0,
            steps[i],
        )
    &&& forall|i: int, j: int|
        #![trigger steps[i], steps[j]]
        0 <= i <= j < steps.len() ==> depth_of(steps[i]) <= depth_of(steps[j])
}

/// A chain holds the steps of the calls that can be followed, all of them and no
/// others. From each declaration that is reached from the start within the limit,
/// without passing a stop, there is one step for each of its calls, in the order of
/// the calls, at the depth of the shortest way to it. Every step is one of these.
/// They are listed by depth.
pub proof fn chain_holds_every_call_in_reach(
    edges: Seq<CallEdgeView>,
    vertices: Seq<CallVertexView>,
    direction: Direction,
    stops: Set<Seq<char>>,
    limit: nat,
    start: Seq<char>,
)
    ensures
        ({
            let steps = chain::call_chain(edges, vertices, direction, stops, limit, start);
            &&& forall|m: Seq<char>, d: nat|
                d <= limit && #[trigger] first_reached(edges, direction, stops, start, m, d) ==> {
                    let own = steps_from(steps, m);
                    let ends = other_ends(edges, direction, m);
                    &&& own.len() == ends.len()
                    &&& forall|i: int|
                        0 <= i < ends.len() ==> is_step(
                            vertices,
                            #[trigger] own[i],
                            m,
                            ends[i],
                            d,
                        )
                }
            &&& forall|i: int|
                0 <= i < steps.len() ==> #[trigger] is_reached_step(
                    edges,
                    vertices,
                    direction,
                    stops,
                    start,
                    limit,
                    0,
                    steps[i],
                )
            &&& forall|i: int, j: int|
                #![trigger steps[i], steps[j]]
                0 <= i <= j < steps.len() ==> depth_of(steps[i]) <= depth_of(steps[j])
        }),
{
    let steps = chain::call_chain(edges, vertices, direction, stops, limit, start);
    let level = seq![start];
    assert forall|m: Seq<char>| #[trigger] level.contains(m) <==> m == start by {
        assert(level[0] == start);
    }
    assert(stands(edges, direction, stops, start, 0, level, Set::empty()));
    lemma_chain(edges, vertices, direction, stops, start, limit, 0, level, Set::empty());
    assert forall|m: Seq<char>, d: nat|
        d <= limit && #[trigger] first_reached(edges, direction, stops, start, m, d) implies {
        let own = steps_from(steps, m);
        let ends = other_ends(edges, direction, m);
        &&& own.len() == ends.len()
        &&& forall|i: int|
            0 <= i < ends.len() ==> is_step(vertices, #[trigger] own[i], m, ends[i], d)
    } by {
        lemma_next_to(edges, direction, m);
        let own = steps_from(steps, m);
        let ends = other_ends(edges, direction, m);
        assert(own == chain::hops(vertices, m, ends, d));
        assert forall|i: int| 0 <= i < ends.len() implies is_step(
            vertices,
            #[trigger] own[i],
            m,
            ends[i],
            d,
        ) by {
            lemma_is_step(vertices, m, ends[i], d);
        }
    }
}

/// Along a walk that ends within the limit, the last call is reported, at the depth
/// of the shortest way to the declaration it starts from.
pub proof fn every_call_along_a_walk_is_reported(
    edges: Seq<CallEdgeView>,
    vertices: Seq<CallVertexView>,
    direction: Direction,
    stops: Set<Seq<char>>,
    limit: nat,
    path: Seq<Seq<char>>,
    n: Seq<char>,
)
    requires
        is_walk(edges, direction, stops, path),
        path.len() - 1 <= limit,
        goes(edges, direction, path.last(), n),
    ensures
        ({
            let steps = chain::call_chain(edges, vertices, direction, stops, limit, path[0]);
            exists|i: int, d: nat|
                {
                    &&& 0 <= i < steps.len()
                    &&& d <= path.len() - 1
                    &&& first_reached(edges, direction, stops, path[0], path.last(), d)
                    &&& #[trigger] is_step(vertices, steps[i], path.last(), n, d)
                }
        }),
{
    let start = path[0];
    let m = path.last();
    let steps = chain::call_chain(edges, vertices, direction, stops, limit, start);
    assert(reached(edges, direction, stops, start, m, (path.len() - 1) as nat));
    let d = lemma_first_of(edges, direction, stops, start, m, (path.len() - 1) as nat);
    chain_holds_every_call_in_reach(edges, vertices, direction, stops, limit, start);
    lemma_next_to(edges, direction, m);
    let own = steps_from(steps, m);
    let ends = other_ends(edges, direction, m);
    assert(ends.contains(n));
    let k = ends.index_of(n);
    assert(is_step(vertices, own[k], m, ends[k], d));
    lemma_filtered_is_there(steps, m, k);
    let i = choose|i: int| 0 <= i < steps.len() && #[trigger] steps[i] == own[k];
    assert(is_step(vertices, steps[i], m, n, d));
}

proof fn lemma_filtered_is_there(steps: Seq<JsonView>, m: Seq<char>, k: int)
    requires
        0 <= k < steps_from(steps, m).len(),
    ensures
        exists|i: int| 0 <= i < steps.len() && #[trigger] steps[i] == steps_from(steps, m)[k],
    decreases steps.len(),
{
    reveal(Seq::filter);
    if steps.len() > 0 {
        let rest = steps.drop_last();
        if k < steps_from(rest, m).len() {
            lemma_filtered_is_there(rest, m, k);
            let i = choose|i: int|
                0 <= i < rest.len() && #[trigger] rest[i] == steps_from(rest, m)[k];
            assert(steps[i] == rest[i]);
        } else {
            assert(steps[steps.len() - 1] == steps_from(steps, m)[k]);
        }
    }
}

proof fn lemma_first_of(
    edges: Seq<CallEdgeView>,
    direction: Direction,
    stops: Set<Seq<char>>,
    start: Seq<char>,
    m: Seq<char>,
    d: nat,
) -> (first: nat)
    requires
        reached(edges, direction, stops, start, m, d),
    ensures
        first <= d,
        first_reached(edges, direction, stops, start, m, first),
    decreases d,
{
    if exists|e: nat| e < d && #[trigger] reached(edges, direction, stops, start, m, e) {
        let e = choose|e: nat| e < d && #[trigger] reached(edges, direction, stops, start, m, e);
        lemma_first_of(edges, direction, stops, start, m, e)
    } else {
        d
    }
}

/// The two ends of a call name the direction in which it is followed.
pub proof fn words_name_the_direction(s: Seq<char>)
    ensures
        chain::direction_of("callers"@) == Some(Direction::Callers),
        chain::direction_of("callees"@) == Some(Direction::Callees),
        s != "callers"@ && s != "callees"@ ==> chain::direction_of(s) is None,
{
    reveal_strlit("callers");
    reveal_strlit("callees");
    assert("callers"@[5] != "callees"@[5]);
}

/// The stops are the declarations of the list.
pub proof fn stops_are_those_listed(stops: Seq<String>, m: Seq<char>)
    ensures
        chain::text_set(stops).contains(m) <==> exists|i: int|
            0 <= i < stops.len() && (#[trigger] stops[i])@ == m,
{
    let all = crate::text::texts(stops);
    if chain::text_set(stops).contains(m) {
        let i = all.index_of(m);
        assert(stops[i]@ == m);
    }
    if exists|i: int| 0 <= i < stops.len() && (#[trigger] stops[i])@ == m {
        let i = choose|i: int| 0 <= i < stops.len() && (#[trigger] stops[i])@ == m;
        assert(all[i] == m);
    }
}

} // verus!
