//! What the call graph of a session says: which calls were reported, and which
//! functions they are between.

use vstd::prelude::*;

use crate::json::JsonView;
use crate::state;
use crate::state::{CallEdgeView, CallVertexView};

verus! {

/// `name` is the name of the first vertex with the declaration `decl`.
pub open spec fn is_name_of(
    vertices: Seq<CallVertexView>,
    decl: Seq<char>,
    name: Seq<char>,
) -> bool {
    exists|i: int|
        {
            &&& 0 <= i < vertices.len()
            &&& (#[trigger] vertices[i]).declaration == decl
            &&& vertices[i].name == name
            &&& forall|j: int| 0 <= j < i ==> (#[trigger] vertices[j]).declaration != decl
        }
}

/// A call is reported, of whatever kind, from the function named `a` to the one
/// named `b`.
pub open spec fn is_call(
    edges: Seq<CallEdgeView>,
    vertices: Seq<CallVertexView>,
    a: Seq<char>,
    b: Seq<char>,
) -> bool {
    exists|i: int|
        {
            &&& 0 <= i < edges.len()
            &&& is_name_of(vertices, (#[trigger] edges[i]).src, a)
            &&& is_name_of(vertices, edges[i].dst, b)
        }
}

/// The pairs are the reported calls by name, and no others.
pub open spec fn are_the_calls(
    edges: Seq<CallEdgeView>,
    vertices: Seq<CallVertexView>,
    pairs: Seq<(Seq<char>, Seq<char>)>,
) -> bool {
    forall|a: Seq<char>, b: Seq<char>| #[trigger]
        pairs.contains((a, b)) <==> is_call(edges, vertices, a, b)
}

/// A declaration has the name of the first vertex that bears it, and none where no
/// vertex does.
pub proof fn first_vertex_gives_the_name(
    vertices: Seq<CallVertexView>,
    decl: Seq<char>,
    name: Seq<char>,
)
    ensures
        state::name_of(vertices, decl) == Some(name) <==> is_name_of(vertices, decl, name),
        state::name_of(vertices, decl) is None <==> forall|i: int|
            0 <= i < vertices.len() ==> (#[trigger] vertices[i]).declaration != decl,
    decreases vertices.len(),
{
    if vertices.len() > 0 {
        let rest = vertices.drop_first();
        first_vertex_gives_the_name(rest, decl, name);
        if vertices[0].declaration == decl {
            assert(is_name_of(vertices, decl, vertices[0].name));
            if is_name_of(vertices, decl, name) {
                let i = choose|i: int|
                    {
                        &&& 0 <= i < vertices.len()
                        &&& (#[trigger] vertices[i]).declaration == decl
                        &&& vertices[i].name == name
                        &&& forall|j: int|
                            0 <= j < i ==> (#[trigger] vertices[j]).declaration != decl
                    };
                assert(i == 0);
            }
        } else {
            if is_name_of(rest, decl, name) {
                let i = choose|i: int|
                    {
                        &&& 0 <= i < rest.len()
                        &&& (#[trigger] rest[i]).declaration == decl
                        &&& rest[i].name == name
                        &&& forall|j: int| 0 <= j < i ==> (#[trigger] rest[j]).declaration != decl
                    };
                assert(vertices[i + 1] == rest[i]);
                assert forall|j: int| 0 <= j < i + 1 implies (
                #[trigger] vertices[j]).declaration != decl by {
                    if j > 0 {
                        assert(rest[j - 1] == vertices[j]);
                    }
                }
                assert(is_name_of(vertices, decl, name));
            }
            if is_name_of(vertices, decl, name) {
                let i = choose|i: int|
                    {
                        &&& 0 <= i < vertices.len()
                        &&& (#[trigger] vertices[i]).declaration == decl
                        &&& vertices[i].name == name
                        &&& forall|j: int|
                            0 <= j < i ==> (#[trigger] vertices[j]).declaration != decl
                    };
                assert(rest[i - 1] == vertices[i]);
                assert forall|j: int| 0 <= j < i - 1 implies (
                #[trigger] rest[j]).declaration != decl by {
                    assert(vertices[j + 1] == rest[j]);
                }
                assert(is_name_of(rest, decl, name));
            }
            if forall|i: int| 0 <= i < rest.len() ==> (#[trigger] rest[i]).declaration != decl {
                assert forall|i: int| 0 <= i < vertices.len() implies (
                #[trigger] vertices[i]).declaration != decl by {
                    if i > 0 {
                        assert(rest[i - 1] == vertices[i]);
                    }
                }
            }
            if forall|i: int| 0 <= i < vertices.len() ==> (
            #[trigger] vertices[i]).declaration != decl {
                assert forall|i: int| 0 <= i < rest.len() implies (
                #[trigger] rest[i]).declaration != decl by {
                    assert(vertices[i + 1] == rest[i]);
                }
            }
        }
    }
}

/// The pairs of names that are ordered are the reported calls between functions of
/// the graph, of whatever kind, and no others.
pub proof fn every_call_is_taken(edges: Seq<CallEdgeView>, vertices: Seq<CallVertexView>)
    ensures
        are_the_calls(edges, vertices, state::named_edges(edges, vertices)),
    decreases edges.len(),
{
    let pairs = state::named_edges(edges, vertices);
    if edges.len() > 0 {
        let rest = edges.drop_last();
        let e = edges.last();
        let before = state::named_edges(rest, vertices);
        every_call_is_taken(rest, vertices);
        assert forall|a: Seq<char>, b: Seq<char>| #[trigger] pairs.contains((a, b)) <==> is_call(
            edges,
            vertices,
            a,
            b,
        ) by {
            first_vertex_gives_the_name(vertices, e.src, a);
            first_vertex_gives_the_name(vertices, e.dst, b);
            if pairs.contains((a, b)) {
                let k = pairs.index_of((a, b));
                if k < before.len() {
                    assert(before[k] == (a, b));
                    assert(before.contains((a, b)));
                    let i = choose|i: int|
                        {
                            &&& 0 <= i < rest.len()
                            &&& is_name_of(vertices, (#[trigger] rest[i]).src, a)
                            &&& is_name_of(vertices, rest[i].dst, b)
                        };
                    assert(edges[i] == rest[i]);
                } else {
                    assert(edges[edges.len() - 1] == e);
                }
            }
            if is_call(edges, vertices, a, b) {
                let i = choose|i: int|
                    {
                        &&& 0 <= i < edges.len()
                        &&& is_name_of(vertices, (#[trigger] edges[i]).src, a)
                        &&& is_name_of(vertices, edges[i].dst, b)
                    };
                if i < rest.len() {
                    assert(rest[i] == edges[i]);
                    assert(is_call(rest, vertices, a, b));
                    assert(before.contains((a, b)));
                    assert(pairs[before.index_of((a, b))] == (a, b));
                } else {
                    assert(pairs.last() == (a, b));
                }
            }
        }
    } else {
        assert forall|a: Seq<char>, b: Seq<char>| #[trigger] pairs.contains((a, b)) <==> is_call(
            edges,
            vertices,
            a,
            b,
        ) by {}
    }
}

/// What is read of one reported call: it is kept, whatever its kind, where it has a
/// source and a target.
pub open spec fn reported_call(e: JsonView) -> Seq<CallEdgeView> {
    match (e.at("src"@), e.at("dst"@)) {
        (JsonView::Text(src), JsonView::Text(dst)) => if src.len() > 0 && dst.len() > 0 {
            seq![
                CallEdgeView {
                    src,
                    dst,
                    kind: match e.at("kind"@) {
                        JsonView::Text(k) => k,
                        _ => Seq::empty(),
                    },
                },
            ]
        } else {
            Seq::empty()
        },
        _ => Seq::empty(),
    }
}

/// What is read of one reported function: it is kept where it has a name.
pub open spec fn reported_function(v: JsonView) -> Seq<CallVertexView> {
    match v.at("name"@) {
        JsonView::Text(name) => if name.len() > 0 {
            seq![
                CallVertexView {
                    name,
                    declaration: match v.at("decl"@) {
                        JsonView::Text(d) => d,
                        _ => Seq::empty(),
                    },
                },
            ]
        } else {
            Seq::empty()
        },
        _ => Seq::empty(),
    }
}

/// The reports of a call graph are read one by one: what is read of a list is what
/// is read of its parts, in their order, and of each report everything is kept.
pub proof fn reports_are_read_one_by_one(a: Seq<JsonView>, b: Seq<JsonView>, e: JsonView)
    ensures
        state::edge_list(a + b) == state::edge_list(a) + state::edge_list(b),
        state::vertex_list(a + b) == state::vertex_list(a) + state::vertex_list(b),
        state::edge_list(seq![e]) == reported_call(e),
        state::vertex_list(seq![e]) == reported_function(e),
    decreases b.len(),
{
    let one = seq![e];
    assert(one.drop_last() =~= Seq::<JsonView>::empty());
    reveal_with_fuel(state::edge_list, 2);
    reveal_with_fuel(state::vertex_list, 2);
    assert(state::edge_list(one) =~= reported_call(e));
    assert(state::vertex_list(one) =~= reported_function(e));
    if b.len() == 0 {
        assert(a + b =~= a);
        assert(state::edge_list(a) + state::edge_list(b) =~= state::edge_list(a));
        assert(state::vertex_list(a) + state::vertex_list(b) =~= state::vertex_list(a));
    } else {
        reports_are_read_one_by_one(a, b.drop_last(), e);
        assert((a + b).drop_last() =~= a + b.drop_last());
        assert(state::edge_list(a + b) =~= state::edge_list(a) + state::edge_list(b));
        assert(state::vertex_list(a + b) =~= state::vertex_list(a) + state::vertex_list(b));
    }
}

/// The callers of a declaration are the sources of the calls to it, and its callees
/// the targets of the calls from it: of each call, and in the order of the calls.
pub proof fn neighbors_are_the_ends_of_calls(
    a: Seq<CallEdgeView>,
    b: Seq<CallEdgeView>,
    e: CallEdgeView,
    decl: Seq<char>,
)
    ensures
        state::callers_in(a + b, decl) == state::callers_in(a, decl) + state::callers_in(b, decl),
        state::callees_in(a + b, decl) == state::callees_in(a, decl) + state::callees_in(b, decl),
        state::callers_in(seq![e], decl) == if e.dst == decl {
            seq![e.src]
        } else {
            Seq::empty()
        },
        state::callees_in(seq![e], decl) == if e.src == decl {
            seq![e.dst]
        } else {
            Seq::empty()
        },
    decreases b.len(),
{
    let one = seq![e];
    assert(one.drop_last() =~= Seq::<CallEdgeView>::empty());
    reveal_with_fuel(state::callers_in, 2);
    reveal_with_fuel(state::callees_in, 2);
    assert(state::callers_in(one, decl) =~= if e.dst == decl {
        seq![e.src]
    } else {
        Seq::empty()
    });
    assert(state::callees_in(one, decl) =~= if e.src == decl {
        seq![e.dst]
    } else {
        Seq::empty()
    });
    if b.len() == 0 {
        assert(a + b =~= a);
        assert(state::callers_in(a, decl) + state::callers_in(b, decl) =~= state::callers_in(
            a,
            decl,
        ));
        assert(state::callees_in(a, decl) + state::callees_in(b, decl) =~= state::callees_in(
            a,
            decl,
        ));
    } else {
        neighbors_are_the_ends_of_calls(a, b.drop_last(), e, decl);
        assert((a + b).drop_last() =~= a + b.drop_last());
        assert(state::callers_in(a + b, decl) =~= state::callers_in(a, decl) + state::callers_in(
            b,
            decl,
        ));
        assert(state::callees_in(a + b, decl) =~= state::callees_in(a, decl) + state::callees_in(
            b,
            decl,
        ));
    }
}

/// Who calls a declaration, and whom it calls, by the calls themselves.
pub proof fn neighbors_are_called_or_call(
    edges: Seq<CallEdgeView>,
    decl: Seq<char>,
    other: Seq<char>,
)
    ensures
        state::callers_in(edges, decl).contains(other) <==> exists|i: int|
            0 <= i < edges.len() && (#[trigger] edges[i]).src == other && edges[i].dst == decl,
        state::callees_in(edges, decl).contains(other) <==> exists|i: int|
            0 <= i < edges.len() && (#[trigger] edges[i]).src == decl && edges[i].dst == other,
    decreases edges.len(),
{
    if edges.len() > 0 {
        let rest = edges.drop_last();
        let e = edges.last();
        neighbors_are_called_or_call(rest, decl, other);
        let callers = state::callers_in(rest, decl);
        let callees = state::callees_in(rest, decl);
        assert(callers.push(e.src).contains(other) <==> callers.contains(other) || e.src == other)
            by {
            lemma_push_contains(callers, e.src, other);
        }
        assert(callees.push(e.dst).contains(other) <==> callees.contains(other) || e.dst == other)
            by {
            lemma_push_contains(callees, e.dst, other);
        }
        assert(edges[edges.len() - 1] == e);
        if exists|i: int|
            0 <= i < rest.len() && (#[trigger] rest[i]).src == other && rest[i].dst == decl {
            let i = choose|i: int|
                0 <= i < rest.len() && (#[trigger] rest[i]).src == other && rest[i].dst == decl;
            assert(edges[i] == rest[i]);
        }
        if exists|i: int|
            0 <= i < rest.len() && (#[trigger] rest[i]).src == decl && rest[i].dst == other {
            let i = choose|i: int|
                0 <= i < rest.len() && (#[trigger] rest[i]).src == decl && rest[i].dst == other;
            assert(edges[i] == rest[i]);
        }
        if exists|i: int|
            0 <= i < edges.len() && (#[trigger] edges[i]).src == other && edges[i].dst == decl {
            let i = choose|i: int|
                0 <= i < edges.len() && (#[trigger] edges[i]).src == other && edges[i].dst == decl;
            if i < rest.len() {
                assert(rest[i] == edges[i]);
            }
        }
        if exists|i: int|
            0 <= i < edges.len() && (#[trigger] edges[i]).src == decl && edges[i].dst == other {
            let i = choose|i: int|
                0 <= i < edges.len() && (#[trigger] edges[i]).src == decl && edges[i].dst == other;
            if i < rest.len() {
                assert(rest[i] == edges[i]);
            }
        }
    }
}

proof fn lemma_push_contains(s: Seq<Seq<char>>, x: Seq<char>, y: Seq<char>)
    ensures
        s.push(x).contains(y) <==> s.contains(y) || x == y,
{
    if s.contains(y) {
        assert(s.push(x)[s.index_of(y)] == y);
    }
    assert(s.push(x)[s.len() as int] == x);
    if s.push(x).contains(y) {
        let i = s.push(x).index_of(y);
        if i < s.len() {
            assert(s[i] == y);
        }
    }
}

/// A graph is read from its two lists: the calls under `edges`, the functions under
/// `vertices`.
pub proof fn graph_is_read_from_its_lists(graph: JsonView, key: Seq<char>)
    ensures
        graph.at(key) matches JsonView::List(l) ==> state::list_or_empty(graph, key) == l,
        !(graph.at(key) is List) ==> state::list_or_empty(graph, key) == Seq::<JsonView>::empty(),
{
}

} // verus!
