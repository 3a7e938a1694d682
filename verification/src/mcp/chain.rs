//! Call chains: who calls a function, who calls those, and so on; or whom it calls.

pub mod laws;

use vstd::prelude::*;

use crate::error::{McpError, McpErrorKind};
use crate::json;
use crate::json::{Json, JsonView};
use crate::mcp::param_compat::invalid_params;
use crate::state;
use crate::state::{CallEdgeView, CallVertexView, SessionState};
use crate::text;

verus! {

/// Which way calls are followed.
#[derive(Debug, Clone, Copy, PartialEq, Eq, Structural)]
pub enum Direction {
    Callers,
    Callees,
}

/// The direction that a text stands for.
pub open spec fn direction_of(s: Seq<char>) -> Option<Direction> {
    if s == "callers"@ {
        Some(Direction::Callers)
    } else if s == "callees"@ {
        Some(Direction::Callees)
    } else {
        None
    }
}

/// The direction that a text stands for.
pub fn parse_direction(s: &str) -> (r: Result<Direction, McpError>)
    ensures
        match direction_of(s@) {
            Some(d) => r matches Ok(x) && x == d,
            None => r matches Err(e) && e.kind == McpErrorKind::InvalidParams && e.message@
                == "direction must be \"callers\" or \"callees\""@,
        },
{
    if text::same_text(s, "callers") {
        Ok(Direction::Callers)
    } else if text::same_text(s, "callees") {
        Ok(Direction::Callees)
    } else {
        Err(invalid_params("direction must be \"callers\" or \"callees\"".to_owned()))
    }
}

/// How far calls are followed: 5 levels where nothing is said, and 20 at most.
pub open spec fn depth_limit(max_depth: Option<u32>) -> nat {
    match max_depth {
        Some(d) => if d < 20 {
            d as nat
        } else {
            20
        },
        None => 5,
    }
}

/// The declarations next to a declaration, in the direction that is followed.
pub open spec fn next_to(
    edges: Seq<CallEdgeView>,
    direction: Direction,
    marker: Seq<char>,
) -> Seq<Seq<char>> {
    match direction {
        Direction::Callers => state::callers_in(edges, marker),
        Direction::Callees => state::callees_in(edges, marker),
    }
}

/// The name of a declaration, or a question mark.
pub open spec fn shown_name(vertices: Seq<CallVertexView>, marker: Seq<char>) -> Seq<char> {
    match state::name_of(vertices, marker) {
        Some(n) => n,
        None => "?"@,
    }
}

/// One step of a chain.
pub open spec fn hop(
    vertices: Seq<CallVertexView>,
    marker: Seq<char>,
    neighbor: Seq<char>,
    depth: nat,
) -> JsonView {
    json::no_fields().with("from"@, JsonView::Text(shown_name(vertices, marker))).with(
        "to"@,
        JsonView::Text(shown_name(vertices, neighbor)),
    ).with("from_marker"@, JsonView::Text(marker)).with(
        "to_marker"@,
        JsonView::Text(neighbor),
    ).with("depth"@, json::whole(depth as int))
}

/// The steps from a declaration to its neighbors.
pub open spec fn hops(
    vertices: Seq<CallVertexView>,
    marker: Seq<char>,
    neighbors: Seq<Seq<char>>,
    depth: nat,
) -> Seq<JsonView> {
    neighbors.map_values(|n: Seq<char>| hop(vertices, marker, n, depth))
}

/// How far a chain has come: its steps, the declarations that were followed, and
/// those that come next.
pub struct Front {
    pub chain: Seq<JsonView>,
    pub visited: Set<Seq<char>>,
    pub next: Seq<Seq<char>>,
}

/// A declaration is followed where it was not before, and no stop is set at it. A
/// stop at the start has no effect.
pub open spec fn followed(
    visited: Set<Seq<char>>,
    stops: Set<Seq<char>>,
    marker: Seq<char>,
    depth: nat,
) -> bool {
    !visited.contains(marker) && !(depth > 0 && stops.contains(marker))
}

/// The chain once the declarations of one level are followed, in order.
pub open spec fn level_followed(
    edges: Seq<CallEdgeView>,
    vertices: Seq<CallVertexView>,
    direction: Direction,
    stops: Set<Seq<char>>,
    depth: nat,
    level: Seq<Seq<char>>,
    visited: Set<Seq<char>>,
) -> Front
    decreases level.len(),
{
    if level.len() == 0 {
        Front { chain: Seq::empty(), visited, next: Seq::empty() }
    } else {
        let before = level_followed(
            edges,
            vertices,
            direction,
            stops,
            depth,
            level.drop_last(),
            visited,
        );
        let marker = level.last();
        if followed(before.visited, stops, marker, depth) {
            let neighbors = next_to(edges, direction, marker);
            Front {
                chain: before.chain + hops(vertices, marker, neighbors, depth),
                visited: before.visited.insert(marker),
                next: before.next + neighbors,
            }
        } else {
            before
        }
    }
}

/// The steps of a chain from the declarations of one level on: level by level, as
/// far as the limit.
pub open spec fn chain_from(
    edges: Seq<CallEdgeView>,
    vertices: Seq<CallVertexView>,
    direction: Direction,
    stops: Set<Seq<char>>,
    limit: nat,
    depth: nat,
    level: Seq<Seq<char>>,
    visited: Set<Seq<char>>,
) -> Seq<JsonView>
    decreases limit + 1 - depth,
{
    if depth > limit {
        Seq::empty()
    } else {
        let front = level_followed(edges, vertices, direction, stops, depth, level, visited);
        front.chain + chain_from(
            edges,
            vertices,
            direction,
            stops,
            limit,
            depth + 1,
            front.next,
            front.visited,
        )
    }
}

/// The chain from a declaration.
pub open spec fn call_chain(
    edges: Seq<CallEdgeView>,
    vertices: Seq<CallVertexView>,
    direction: Direction,
    stops: Set<Seq<char>>,
    limit: nat,
    start: Seq<char>,
) -> Seq<JsonView> {
    chain_from(edges, vertices, direction, stops, limit, 0, seq![start], Set::empty())
}

/// The texts of a list, without order.
pub open spec fn text_set(v: Seq<String>) -> Set<Seq<char>> {
    Set::new(|s: Seq<char>| text::texts(v).contains(s))
}

fn is_in(list: &Vec<String>, s: &str) -> (r: bool)
    ensures
        r == text_set(list@).contains(s@),
{
    let ghost all = text::texts(list@);
    let mut i: usize = 0;
    while i < list.len()
        invariant
            i <= list@.len(),
            all == text::texts(list@),
            forall|j: int| 0 <= j < i ==> #[trigger] all[j] != s@,
        decreases list@.len() - i,
    {
        assert(all[i as int] == list@[i as int]@);
        if text::same_text(list[i].as_str(), s) {
            return true;
        }
        i = i + 1;
    }
    false
}

impl SessionState {
    fn name_shown(&self, marker: &str) -> (r: Json)
        ensures
            r@ == JsonView::Text(shown_name(self.callgraph_vertices.deep_view(), marker@)),
    {
        match self.resolve_decl_to_name(marker) {
            Some(n) => Json::text(n.as_str()),
            None => Json::text("?"),
        }
    }

    fn neighbors(&self, direction: Direction, marker: &str) -> (r: Vec<String>)
        ensures
            text::texts(r@) == next_to(self.callgraph_edges.deep_view(), direction, marker@),
    {
        match direction {
            Direction::Callers => self.get_callers(marker),
            Direction::Callees => self.get_callees(marker),
        }
    }

    fn add_hops(&self, chain: &mut Vec<Json>, marker: &str, neighbors: &Vec<String>, depth: u32)
        ensures
            json::json_views(final(chain)@) == json::json_views(old(chain)@) + hops(
                self.callgraph_vertices.deep_view(),
                marker@,
                text::texts(neighbors@),
                depth as nat,
            ),
    {
        let ghost wanted = hops(
            self.callgraph_vertices.deep_view(),
            marker@,
            text::texts(neighbors@),
            depth as nat,
        );
        let ghost before = json::json_views(chain@);
        let mut i: usize = 0;
        assert(json::json_views(chain@) =~= before + wanted.take(0));
        while i < neighbors.len()
            invariant
                i <= neighbors@.len(),
                wanted == hops(
                    self.callgraph_vertices.deep_view(),
                    marker@,
                    text::texts(neighbors@),
                    depth as nat,
                ),
                json::json_views(chain@) == before + wanted.take(i as int),
            decreases neighbors@.len() - i,
        {
            let neighbor = neighbors[i].as_str();
            let step = Json::object().with("from", self.name_shown(marker)).with(
                "to",
                self.name_shown(neighbor),
            ).with("from_marker", Json::text(marker)).with("to_marker", Json::text(neighbor)).with(
                "depth",
                Json::unsigned(depth as u64),
            );
            proof {
                assert(wanted[i as int] == step@);
                assert(json::json_views(chain@.push(step)) =~= json::json_views(chain@).push(
                    step@,
                ));
                assert((before + wanted.take(i as int)).push(step@) =~= before + wanted.take(
                    i + 1,
                ));
            }
            chain.push(step);
            i = i + 1;
        }
        assert(wanted.take(i as int) =~= wanted);
    }

    /// Follows the calls from a declaration, level by level, up to the limit, and
    /// lists every step. Each declaration is followed once; where a stop is set at
    /// it, the step to it is listed and it is not followed.
    pub fn trace_call_chain(
        &self,
        start: &str,
        direction: Direction,
        max_depth: Option<u32>,
        stops: &Vec<String>,
    ) -> (r: Json)
        ensures
            r@ == JsonView::List(
                call_chain(
                    self.callgraph_edges.deep_view(),
                    self.callgraph_vertices.deep_view(),
                    direction,
                    text_set(stops@),
                    depth_limit(max_depth),
                    start@,
                ),
            ),
            r@ matches JsonView::List(steps) && laws::are_the_steps(
                self.callgraph_edges.deep_view(),
                self.callgraph_vertices.deep_view(),
                direction,
                text_set(stops@),
                (match max_depth {
                    None => 5,
                    Some(d) => if d <= 20 {
                        d as nat
                    } else {
                        20
                    },
                }),
                start@,
                steps,
            ),
    {
        proof {
            laws::chain_holds_every_call_in_reach(
                self.callgraph_edges.deep_view(),
                self.callgraph_vertices.deep_view(),
                direction,
                text_set(stops@),
                depth_limit(max_depth),
                start@,
            );
        }
        let ghost edges = self.callgraph_edges.deep_view();
        let ghost vertices = self.callgraph_vertices.deep_view();
        let ghost stop_set = text_set(stops@);
        let limit: u32 = match max_depth {
            Some(d) => if d < 20 {
                d
            } else {
                20
            },
            None => 5,
        };
        let mut chain: Vec<Json> = Vec::new();
        let mut visited: Vec<String> = Vec::new();
        let mut level: Vec<String> = Vec::new();
        level.push(start.to_owned());
        let mut depth: u32 = 0;
        let ghost whole_chain = call_chain(
            edges,
            vertices,
            direction,
            stop_set,
            limit as nat,
            start@,
        );
        proof {
            assert(text::texts(level@) =~= seq![start@]);
            assert(text_set(visited@) =~= Set::empty());
            assert(json::json_views(chain@) + whole_chain =~= whole_chain);
        }
        while depth <= limit
            invariant
                depth <= limit + 1,
                limit <= 20,
                edges == self.callgraph_edges.deep_view(),
                vertices == self.callgraph_vertices.deep_view(),
                stop_set == text_set(stops@),
                whole_chain == json::json_views(chain@) + chain_from(
                    edges,
                    vertices,
                    direction,
                    stop_set,
                    limit as nat,
                    depth as nat,
                    text::texts(level@),
                    text_set(visited@),
                ),
            decreases limit + 1 - depth,
        {
            let ghost done = json::json_views(chain@);
            let ghost names = text::texts(level@);
            let ghost seen = text_set(visited@);
            let mut next: Vec<String> = Vec::new();
            let mut i: usize = 0;
            proof {
                assert(text::texts(next@) =~= Seq::<Seq<char>>::empty());
                assert(done + Seq::<JsonView>::empty() =~= done);
            }
            while i < level.len()
                invariant
                    i <= level@.len(),
                    edges == self.callgraph_edges.deep_view(),
                    vertices == self.callgraph_vertices.deep_view(),
                    stop_set == text_set(stops@),
                    names == text::texts(level@),
                    ({
                        let front = level_followed(
                            edges,
                            vertices,
                            direction,
                            stop_set,
                            depth as nat,
                            names.take(i as int),
                            seen,
                        );
                        &&& json::json_views(chain@) == done + front.chain
                        &&& text_set(visited@) == front.visited
                        &&& text::texts(next@) == front.next
                    }),
                decreases level@.len() - i,
            {
                let marker = level[i].as_str();
                proof {
                    assert(names.take(i + 1).drop_last() =~= names.take(i as int));
                    assert(names.take(i + 1).last() == marker@);
                }
                if !is_in(&visited, marker) && !(depth > 0 && is_in(stops, marker)) {
                    let neighbors = self.neighbors(direction, marker);
                    let ghost before = level_followed(
                        edges,
                        vertices,
                        direction,
                        stop_set,
                        depth as nat,
                        names.take(i as int),
                        seen,
                    );
                    self.add_hops(&mut chain, marker, &neighbors, depth);
                    let ghost steps = hops(
                        vertices,
                        marker@,
                        text::texts(neighbors@),
                        depth as nat,
                    );
                    assert((done + before.chain) + steps =~= done + (before.chain + steps));
                    let owned = marker.to_owned();
                    proof {
                        lemma_text_set_push(visited@, owned);
                    }
                    visited.push(owned);
                    append_all(&mut next, &neighbors);
                }
                i = i + 1;
            }
            assert(names.take(i as int) =~= names);
            let ghost front = level_followed(
                edges,
                vertices,
                direction,
                stop_set,
                depth as nat,
                names,
                seen,
            );
            let ghost rest = chain_from(
                edges,
                vertices,
                direction,
                stop_set,
                limit as nat,
                (depth + 1) as nat,
                front.next,
                front.visited,
            );
            assert(done + (front.chain + rest) =~= (done + front.chain) + rest);
            level = next;
            depth = depth + 1;
        }
        assert(json::json_views(chain@) + Seq::<JsonView>::empty() =~= json::json_views(chain@));
        Json::list(chain)
    }
}

proof fn lemma_text_set_push(v: Seq<String>, s: String)
    ensures
        text_set(v.push(s)) == text_set(v).insert(s@),
{
    assert(text::texts(v.push(s)) =~= text::texts(v).push(s@));
    let a = text::texts(v);
    assert forall|x: Seq<char>| #[trigger]
        text_set(v.push(s)).contains(x) <==> text_set(v).insert(s@).contains(x) by {
        if a.contains(x) {
            let i = choose|i: int| 0 <= i < a.len() && a[i] == x;
            assert(a.push(s@)[i] == x);
        }
        if x == s@ {
            assert(a.push(s@)[a.len() as int] == x);
        }
    }
    assert(text_set(v.push(s)) =~= text_set(v).insert(s@));
}

/// The value is a step of at most the given depth, from a declaration to one next
/// to it; a step deeper than the first level does not start at a stop.
pub open spec fn is_hop(
    edges: Seq<CallEdgeView>,
    vertices: Seq<CallVertexView>,
    direction: Direction,
    stops: Set<Seq<char>>,
    limit: nat,
    v: JsonView,
) -> bool {
    exists|marker: Seq<char>, neighbor: Seq<char>, depth: nat|
        {
            &&& v == #[trigger] hop(vertices, marker, neighbor, depth)
            &&& depth <= limit
            &&& next_to(edges, direction, marker).contains(neighbor)
            &&& depth > 0 ==> !stops.contains(marker)
        }
}

proof fn lemma_level_hops(
    edges: Seq<CallEdgeView>,
    vertices: Seq<CallVertexView>,
    direction: Direction,
    stops: Set<Seq<char>>,
    limit: nat,
    depth: nat,
    level: Seq<Seq<char>>,
    visited: Set<Seq<char>>,
)
    requires
        depth <= limit,
    ensures
        ({
            let chain = level_followed(
                edges,
                vertices,
                direction,
                stops,
                depth,
                level,
                visited,
            ).chain;
            forall|i: int|
                0 <= i < chain.len() ==> is_hop(
                    edges,
                    vertices,
                    direction,
                    stops,
                    limit,
                    #[trigger] chain[i],
                )
        }),
    decreases level.len(),
{
    if level.len() > 0 {
        lemma_level_hops(
            edges,
            vertices,
            direction,
            stops,
            limit,
            depth,
            level.drop_last(),
            visited,
        );
        let before = level_followed(
            edges,
            vertices,
            direction,
            stops,
            depth,
            level.drop_last(),
            visited,
        );
        let marker = level.last();
        if followed(before.visited, stops, marker, depth) {
            let neighbors = next_to(edges, direction, marker);
            let chain = before.chain + hops(vertices, marker, neighbors, depth);
            assert forall|i: int| 0 <= i < chain.len() implies is_hop(
                edges,
                vertices,
                direction,
                stops,
                limit,
                #[trigger] chain[i],
            ) by {
                if i < before.chain.len() {
                    assert(chain[i] == before.chain[i]);
                } else {
                    let j = i - before.chain.len();
                    assert(chain[i] == hop(vertices, marker, neighbors[j], depth));
                    assert(neighbors.contains(neighbors[j]));
                }
            }
        }
    }
}

proof fn lemma_chain_hops(
    edges: Seq<CallEdgeView>,
    vertices: Seq<CallVertexView>,
    direction: Direction,
    stops: Set<Seq<char>>,
    limit: nat,
    depth: nat,
    level: Seq<Seq<char>>,
    visited: Set<Seq<char>>,
)
    ensures
        ({
            let chain = chain_from(
                edges,
                vertices,
                direction,
                stops,
                limit,
                depth,
                level,
                visited,
            );
            forall|i: int|
                0 <= i < chain.len() ==> is_hop(
                    edges,
                    vertices,
                    direction,
                    stops,
                    limit,
                    #[trigger] chain[i],
                )
        }),
    decreases limit + 1 - depth,
{
    if depth <= limit {
        lemma_level_hops(edges, vertices, direction, stops, limit, depth, level, visited);
        let front = level_followed(edges, vertices, direction, stops, depth, level, visited);
        lemma_chain_hops(
            edges,
            vertices,
            direction,
            stops,
            limit,
            depth + 1,
            front.next,
            front.visited,
        );
        let rest = chain_from(
            edges,
            vertices,
            direction,
            stops,
            limit,
            depth + 1,
            front.next,
            front.visited,
        );
        let chain = front.chain + rest;
        assert forall|i: int| 0 <= i < chain.len() implies is_hop(
            edges,
            vertices,
            direction,
            stops,
            limit,
            #[trigger] chain[i],
        ) by {
            if i < front.chain.len() {
                assert(chain[i] == front.chain[i]);
            } else {
                assert(chain[i] == rest[i - front.chain.len()]);
            }
        }
    }
}

/// Every step of a call chain is a call of the program, lies within the limit, and
/// does not lead on from a stop.
pub proof fn every_hop_is_a_call(
    edges: Seq<CallEdgeView>,
    vertices: Seq<CallVertexView>,
    direction: Direction,
    stops: Set<Seq<char>>,
    max_depth: Option<u32>,
    start: Seq<char>,
)
    ensures
        depth_limit(max_depth) <= 20,
        ({
            let chain = call_chain(
                edges,
                vertices,
                direction,
                stops,
                depth_limit(max_depth),
                start,
            );
            forall|i: int|
                0 <= i < chain.len() ==> is_hop(
                    edges,
                    vertices,
                    direction,
                    stops,
                    depth_limit(max_depth),
                    #[trigger] chain[i],
                )
        }),
{
    lemma_chain_hops(
        edges,
        vertices,
        direction,
        stops,
        depth_limit(max_depth),
        0,
        seq![start],
        Set::empty(),
    );
}

fn append_all(list: &mut Vec<String>, more: &Vec<String>)
    ensures
        text::texts(final(list)@) == text::texts(old(list)@) + text::texts(more@),
{
    let ghost before = text::texts(list@);
    let ghost add = text::texts(more@);
    let mut i: usize = 0;
    assert(text::texts(list@) =~= before + add.take(0));
    while i < more.len()
        invariant
            i <= more@.len(),
            add == text::texts(more@),
            text::texts(list@) == before + add.take(i as int),
        decreases more@.len() - i,
    {
        let s = more[i].clone();
        proof {
            assert(text::texts(list@.push(s)) =~= text::texts(list@).push(s@));
            assert((before + add.take(i as int)).push(s@) =~= before + add.take(i + 1));
        }
        list.push(s);
        i = i + 1;
    }
    assert(add.take(i as int) =~= add);
}

} // verus!
