//! The state of a verification session: what is known of the program, of its
//! functions and of the project.

pub mod call_graph;
pub mod conclusion;
pub mod laws;
pub mod project;
pub mod records;

use vstd::prelude::*;

use crate::json;
use crate::json::{Json, JsonView};
use crate::names::NameMap;
use crate::state::conclusion::{
    ConclusionSummary, FunctionConclusionUpdate, FunctionVerificationState, SummaryView,
    VerificationStatus,
};
use crate::state::project::{ProjectStateUpdate, ProjectVerificationState, SccGroup};
use crate::text;

verus! {

/// A function of the program.
#[derive(Debug)]
pub struct FunctionInfo {
    pub name: String,
    pub marker: String,
    pub declaration: String,
    pub signature: String,
    pub file: String,
    pub line: u32,
    /// The function has a body, and can be verified.
    pub defined: bool,
}

/// What is known of a function.
pub struct FunctionInfoView {
    pub name: Seq<char>,
    pub marker: Seq<char>,
    pub declaration: Seq<char>,
    pub signature: Seq<char>,
    pub file: Seq<char>,
    pub line: u32,
    pub defined: bool,
}

impl DeepView for FunctionInfo {
    type V = FunctionInfoView;

    open spec fn deep_view(&self) -> FunctionInfoView {
        FunctionInfoView {
            name: self.name@,
            marker: self.marker@,
            declaration: self.declaration@,
            signature: self.signature@,
            file: self.file@,
            line: self.line,
            defined: self.defined,
        }
    }
}

/// A global variable of the program.
#[derive(Debug)]
pub struct GlobalInfo {
    pub name: String,
    pub marker: String,
    pub declaration: String,
    pub typ: String,
    pub file: String,
    pub line: u32,
}

/// What is known of a global variable.
pub struct GlobalInfoView {
    pub name: Seq<char>,
    pub marker: Seq<char>,
    pub declaration: Seq<char>,
    pub typ: Seq<char>,
    pub file: Seq<char>,
    pub line: u32,
}

impl DeepView for GlobalInfo {
    type V = GlobalInfoView;

    open spec fn deep_view(&self) -> GlobalInfoView {
        GlobalInfoView {
            name: self.name@,
            marker: self.marker@,
            declaration: self.declaration@,
            typ: self.typ@,
            file: self.file@,
            line: self.line,
        }
    }
}

/// A call, from one declaration to another.
#[derive(Debug)]
pub struct CallEdge {
    pub src: String,
    pub dst: String,
    pub kind: String,
}

pub struct CallEdgeView {
    pub src: Seq<char>,
    pub dst: Seq<char>,
    pub kind: Seq<char>,
}

impl DeepView for CallEdge {
    type V = CallEdgeView;

    open spec fn deep_view(&self) -> CallEdgeView {
        CallEdgeView { src: self.src@, dst: self.dst@, kind: self.kind@ }
    }
}

/// A function in the call graph.
#[derive(Debug)]
pub struct CallVertex {
    pub name: String,
    pub declaration: String,
}

pub struct CallVertexView {
    pub name: Seq<char>,
    pub declaration: Seq<char>,
}

impl DeepView for CallVertex {
    type V = CallVertexView;

    open spec fn deep_view(&self) -> CallVertexView {
        CallVertexView { name: self.name@, declaration: self.declaration@ }
    }
}

/// A sandbox, in which a function is verified on its own.
#[derive(Debug)]
pub struct SandboxState {
    pub experiment_id: String,
    /// The function's name in the main project.
    pub original_function: String,
    pub sandbox_dir: String,
    pub sandbox_socket: String,
    pub sandbox_pid: u32,
    /// Statement ids: the original one, and the one in the sandbox.
    pub sid_map: Vec<(i64, i64)>,
    /// The marker of the function's declaration in the sandbox.
    pub declaration_marker: String,
}

/// The state of a session.
#[derive(Debug)]
pub struct SessionState {
    pub project_loaded: bool,
    pub eva_completed: bool,
    pub wp_completed: bool,
    pub functions: NameMap<FunctionInfo>,
    pub globals: NameMap<GlobalInfo>,
    pub callgraph_edges: Vec<CallEdge>,
    pub callgraph_vertices: Vec<CallVertex>,
    pub conclusions: NameMap<FunctionVerificationState>,
    pub project_state: Option<ProjectVerificationState>,
}

/// The conclusions once a clause was added to the sandbox of a function. A function
/// without a conclusion gets none.
pub open spec fn clause_noted(
    conclusions: Map<Seq<char>, FunctionVerificationState>,
    function: Seq<char>,
) -> Map<Seq<char>, FunctionVerificationState> {
    if conclusions.contains_key(function) {
        conclusions.insert(function, conclusions[function].with_clause_added())
    } else {
        conclusions
    }
}

/// The conclusions once the sandbox of a function was deleted. A function without a
/// conclusion gets none.
pub open spec fn deletion_noted(
    conclusions: Map<Seq<char>, FunctionVerificationState>,
    function: Seq<char>,
) -> Map<Seq<char>, FunctionVerificationState> {
    if conclusions.contains_key(function) {
        conclusions.insert(function, conclusions[function].with_sandbox_deleted())
    } else {
        conclusions
    }
}

/// A line number, cut to 32 bits.
pub open spec fn line_number(v: JsonView) -> u32 {
    match v.unsigned() {
        Some(n) => (n % 0x1_0000_0000) as u32,
        None => 0,
    }
}

/// The function that an entry of the list of functions describes.
pub open spec fn function_entry(e: JsonView) -> FunctionInfoView {
    FunctionInfoView {
        name: e.text_or_empty("name"@),
        marker: e.text_or_empty("key"@),
        declaration: e.text_or_empty("decl"@),
        signature: e.text_or_empty("signature"@),
        file: e.at("sloc"@).text_or_empty("file"@),
        line: line_number(e.at("sloc"@).at("line"@)),
        defined: e.at("defined"@).truth() == Some(true),
    }
}

/// The global variable that an entry of the list of globals describes.
pub open spec fn global_entry(e: JsonView) -> GlobalInfoView {
    GlobalInfoView {
        name: e.text_or_empty("name"@),
        marker: e.text_or_empty("key"@),
        declaration: e.text_or_empty("decl"@),
        typ: e.text_or_empty("type"@),
        file: e.at("sloc"@).text_or_empty("file"@),
        line: line_number(e.at("sloc"@).at("line"@)),
    }
}

/// The functions that a list describes, by name; of two of one name, the later.
/// Entries without a name are passed over.
pub open spec fn function_table(list: Seq<JsonView>) -> Map<Seq<char>, FunctionInfoView>
    decreases list.len(),
{
    if list.len() == 0 {
        Map::empty()
    } else {
        let before = function_table(list.drop_last());
        let f = function_entry(list.last());
        if f.name.len() == 0 {
            before
        } else {
            before.insert(f.name, f)
        }
    }
}

/// The global variables that a list describes, by name; of two of one name, the
/// later. Entries without a name are passed over.
pub open spec fn global_table(list: Seq<JsonView>) -> Map<Seq<char>, GlobalInfoView>
    decreases list.len(),
{
    if list.len() == 0 {
        Map::empty()
    } else {
        let before = global_table(list.drop_last());
        let g = global_entry(list.last());
        if g.name.len() == 0 {
            before
        } else {
            before.insert(g.name, g)
        }
    }
}

/// The calls that a list describes; one without a source or a target is none.
pub open spec fn edge_list(list: Seq<JsonView>) -> Seq<CallEdgeView>
    decreases list.len(),
{
    if list.len() == 0 {
        Seq::empty()
    } else {
        let before = edge_list(list.drop_last());
        let e = list.last();
        let src = e.text_or_empty("src"@);
        let dst = e.text_or_empty("dst"@);
        if src.len() == 0 || dst.len() == 0 {
            before
        } else {
            before.push(CallEdgeView { src, dst, kind: e.text_or_empty("kind"@) })
        }
    }
}

/// The vertices that a list describes; one without a name is none.
pub open spec fn vertex_list(list: Seq<JsonView>) -> Seq<CallVertexView>
    decreases list.len(),
{
    if list.len() == 0 {
        Seq::empty()
    } else {
        let before = vertex_list(list.drop_last());
        let v = list.last();
        let name = v.text_or_empty("name"@);
        if name.len() == 0 {
            before
        } else {
            before.push(CallVertexView { name, declaration: v.text_or_empty("decl"@) })
        }
    }
}

/// The list under `key`, or the empty list.
pub open spec fn list_or_empty(v: JsonView, key: Seq<char>) -> Seq<JsonView> {
    match v.at(key).list() {
        Some(l) => l,
        None => Seq::empty(),
    }
}

/// The sources of the calls to a declaration.
pub open spec fn callers_in(edges: Seq<CallEdgeView>, decl: Seq<char>) -> Seq<Seq<char>>
    decreases edges.len(),
{
    if edges.len() == 0 {
        Seq::empty()
    } else if edges.last().dst == decl {
        callers_in(edges.drop_last(), decl).push(edges.last().src)
    } else {
        callers_in(edges.drop_last(), decl)
    }
}

/// The targets of the calls from a declaration.
pub open spec fn callees_in(edges: Seq<CallEdgeView>, decl: Seq<char>) -> Seq<Seq<char>>
    decreases edges.len(),
{
    if edges.len() == 0 {
        Seq::empty()
    } else if edges.last().src == decl {
        callees_in(edges.drop_last(), decl).push(edges.last().dst)
    } else {
        callees_in(edges.drop_last(), decl)
    }
}

/// The name of the first vertex with the given declaration.
pub open spec fn name_of(vertices: Seq<CallVertexView>, decl: Seq<char>) -> Option<Seq<char>>
    decreases vertices.len(),
{
    if vertices.len() == 0 {
        None
    } else if vertices[0].declaration == decl {
        Some(vertices[0].name)
    } else {
        name_of(vertices.drop_first(), decl)
    }
}

/// A name that a declaration has is the name of a vertex.
pub proof fn lemma_name_of(vertices: Seq<CallVertexView>, decl: Seq<char>)
    ensures
        name_of(vertices, decl) matches Some(n) ==> vertex_names(vertices).contains(n),
    decreases vertices.len(),
{
    if vertices.len() > 0 {
        let rest = vertices.drop_first();
        lemma_name_of(rest, decl);
        assert(vertex_names(vertices)[0] == vertices[0].name);
        match name_of(rest, decl) {
            Some(n) => {
                if vertices[0].declaration != decl {
                    let k = vertex_names(rest).index_of(n);
                    assert(vertex_names(vertices)[k + 1] == n);
                }
            },
            None => {},
        }
    }
}

/// Calls between named functions are calls between vertices.
pub proof fn lemma_named_edges(
    edges: Seq<CallEdgeView>,
    vertices: Seq<CallVertexView>,
    a: Seq<char>,
    b: Seq<char>,
)
    requires
        named_edges(edges, vertices).contains((a, b)),
    ensures
        vertex_names(vertices).contains(a),
        vertex_names(vertices).contains(b),
    decreases edges.len(),
{
    let all = named_edges(edges, vertices);
    let before = named_edges(edges.drop_last(), vertices);
    lemma_name_of(vertices, edges.last().src);
    lemma_name_of(vertices, edges.last().dst);
    let k = all.index_of((a, b));
    if k < before.len() {
        assert(before[k] == (a, b));
        lemma_named_edges(edges.drop_last(), vertices, a, b);
    }
}

/// The calls between named functions.
pub open spec fn named_edges(
    edges: Seq<CallEdgeView>,
    vertices: Seq<CallVertexView>,
) -> Seq<(Seq<char>, Seq<char>)>
    decreases edges.len(),
{
    if edges.len() == 0 {
        Seq::empty()
    } else {
        let before = named_edges(edges.drop_last(), vertices);
        match (name_of(vertices, edges.last().src), name_of(vertices, edges.last().dst)) {
            (Some(a), Some(b)) => before.push((a, b)),
            _ => before,
        }
    }
}

fn read_line(v: Option<&Json>) -> (r: u32)
    ensures
        r == line_number(
            (match v {
                Some(j) => j@,
                None => JsonView::Null,
            }),
        ),
{
    match v {
        Some(j) => match j.as_u64() {
            Some(n) => (n % 0x1_0000_0000) as u32,
            None => 0,
        },
        None => 0,
    }
}

fn read_place(e: &Json) -> (r: (String, u32))
    ensures
        r.0@ == e@.at("sloc"@).text_or_empty("file"@),
        r.1 == line_number(e@.at("sloc"@).at("line"@)),
{
    match e.get("sloc") {
        Some(s) => (s.get_str_or_empty("file"), read_line(s.get("line"))),
        None => (String::new(), 0),
    }
}

fn read_function(e: &Json) -> (r: FunctionInfo)
    ensures
        r.deep_view() == function_entry(e@),
{
    let (file, line) = read_place(e);
    FunctionInfo {
        name: e.get_str_or_empty("name"),
        marker: e.get_str_or_empty("key"),
        declaration: e.get_str_or_empty("decl"),
        signature: e.get_str_or_empty("signature"),
        file,
        line,
        defined: match e.get("defined") {
            Some(d) => match d.as_bool() {
                Some(b) => b,
                None => false,
            },
            None => false,
        },
    }
}

fn read_global(e: &Json) -> (r: GlobalInfo)
    ensures
        r.deep_view() == global_entry(e@),
{
    let (file, line) = read_place(e);
    GlobalInfo {
        name: e.get_str_or_empty("name"),
        marker: e.get_str_or_empty("key"),
        declaration: e.get_str_or_empty("decl"),
        typ: e.get_str_or_empty("type"),
        file,
        line,
    }
}

impl Default for SessionState {
    fn default() -> (r: Self)
        ensures
            !r.project_loaded && !r.eva_completed && !r.wp_completed,
            r.functions@ == Map::<Seq<char>, FunctionInfo>::empty(),
            r.globals@ == Map::<Seq<char>, GlobalInfo>::empty(),
            r.callgraph_edges@.len() == 0 && r.callgraph_vertices@.len() == 0,
            r.conclusions@ == Map::<Seq<char>, FunctionVerificationState>::empty(),
            r.project_state is None,
    {
        SessionState {
            project_loaded: false,
            eva_completed: false,
            wp_completed: false,
            functions: NameMap::new(),
            globals: NameMap::new(),
            callgraph_edges: Vec::new(),
            callgraph_vertices: Vec::new(),
            conclusions: NameMap::new(),
            project_state: None,
        }
    }
}

impl SessionState {
    /// Fills the table of functions from the entries of a fetch; what was there is
    /// dropped.
    pub fn update_functions(&mut self, entries: &[Json])
        ensures
            final(self).functions.deep_view() == function_table(json::json_views(entries@)),
            *final(self) == (SessionState { functions: final(self).functions, ..*old(self) }),
    {
        let ghost views = json::json_views(entries@);
        let mut table: NameMap<FunctionInfo> = NameMap::new();
        let mut i: usize = 0;
        proof {
            assert(table.deep_view() =~= function_table(views.take(0)));
        }
        while i < entries.len()
            invariant
                i <= entries@.len(),
                views == json::json_views(entries@),
                table.deep_view() == function_table(views.take(i as int)),
            decreases entries@.len() - i,
        {
            proof {
                assert(views.take(i + 1).drop_last() =~= views.take(i as int));
                assert(views.take(i + 1).last() == entries@[i as int]@);
            }
            let info = read_function(&entries[i]);
            if !info.name.as_str().is_empty() {
                let name = info.name.clone();
                let ghost before = table.deep_view();
                let ghost known = info.deep_view();
                table.insert(name, info);
                assert(table.deep_view() =~= before.insert(known.name, known));
            }
            i = i + 1;
        }
        assert(views.take(i as int) =~= views);
        self.functions = table;
    }

    /// The function of the given name.
    pub fn resolve_function(&self, name: &str) -> (r: Option<&FunctionInfo>)
        ensures
            match r {
                Some(f) => self.functions@.contains_key(name@) && *f == self.functions@[name@],
                None => !self.functions@.contains_key(name@),
            },
    {
        self.functions.get(name)
    }

    /// Fills the table of global variables from the entries of a fetch; what was
    /// there is dropped.
    pub fn update_globals(&mut self, entries: &[Json])
        ensures
            final(self).globals.deep_view() == global_table(json::json_views(entries@)),
            *final(self) == (SessionState { globals: final(self).globals, ..*old(self) }),
    {
        let ghost views = json::json_views(entries@);
        let mut table: NameMap<GlobalInfo> = NameMap::new();
        let mut i: usize = 0;
        proof {
            assert(table.deep_view() =~= global_table(views.take(0)));
        }
        while i < entries.len()
            invariant
                i <= entries@.len(),
                views == json::json_views(entries@),
                table.deep_view() == global_table(views.take(i as int)),
            decreases entries@.len() - i,
        {
            proof {
                assert(views.take(i + 1).drop_last() =~= views.take(i as int));
                assert(views.take(i + 1).last() == entries@[i as int]@);
            }
            let info = read_global(&entries[i]);
            if !info.name.as_str().is_empty() {
                let name = info.name.clone();
                let ghost before = table.deep_view();
                let ghost known = info.deep_view();
                table.insert(name, info);
                assert(table.deep_view() =~= before.insert(known.name, known));
            }
            i = i + 1;
        }
        assert(views.take(i as int) =~= views);
        self.globals = table;
    }

    /// The global variable of the given name.
    pub fn resolve_global(&self, name: &str) -> (r: Option<&GlobalInfo>)
        ensures
            match r {
                Some(g) => self.globals@.contains_key(name@) && *g == self.globals@[name@],
                None => !self.globals@.contains_key(name@),
            },
    {
        self.globals.get(name)
    }

    /// Fills the call graph; what was there is dropped.
    pub fn update_callgraph(&mut self, graph: &Json)
        ensures
            final(self).callgraph_edges.deep_view() == edge_list(
                list_or_empty(graph@, "edges"@),
            ),
            final(self).callgraph_vertices.deep_view() == vertex_list(
                list_or_empty(graph@, "vertices"@),
            ),
            *final(self) == (SessionState {
                callgraph_edges: final(self).callgraph_edges,
                callgraph_vertices: final(self).callgraph_vertices,
                ..*old(self)
            }),
    {
        let mut edges: Vec<CallEdge> = Vec::new();
        assert(edges.deep_view() =~= Seq::<CallEdgeView>::empty());
        match graph.get_array("edges") {
            Some(list) => {
                let ghost views = crate::json::json_views(list@);
                let mut i: usize = 0;
                assert(views.take(0) =~= Seq::<JsonView>::empty());
                while i < list.len()
                    invariant
                        i <= list@.len(),
                        views == crate::json::json_views(list@),
                        edges.deep_view() == edge_list(views.take(i as int)),
                    decreases list@.len() - i,
                {
                    proof {
                        assert(views.take(i + 1).drop_last() =~= views.take(i as int));
                        assert(views.take(i + 1).last() == list@[i as int]@);
                    }
                    let src = list[i].get_str_or_empty("src");
                    let dst = list[i].get_str_or_empty("dst");
                    if !src.as_str().is_empty() && !dst.as_str().is_empty() {
                        let e = CallEdge { src, dst, kind: list[i].get_str_or_empty("kind") };
                        let ghost before = edges.deep_view();
                        edges.push(e);
                        assert(edges.deep_view() =~= before.push(e.deep_view()));
                    }
                    i = i + 1;
                }
                assert(views.take(i as int) =~= views);
            },
            None => {},
        }
        let mut vertices: Vec<CallVertex> = Vec::new();
        assert(vertices.deep_view() =~= Seq::<CallVertexView>::empty());
        match graph.get_array("vertices") {
            Some(list) => {
                let ghost views = crate::json::json_views(list@);
                let mut i: usize = 0;
                assert(views.take(0) =~= Seq::<JsonView>::empty());
                while i < list.len()
                    invariant
                        i <= list@.len(),
                        views == crate::json::json_views(list@),
                        vertices.deep_view() == vertex_list(views.take(i as int)),
                    decreases list@.len() - i,
                {
                    proof {
                        assert(views.take(i + 1).drop_last() =~= views.take(i as int));
                        assert(views.take(i + 1).last() == list@[i as int]@);
                    }
                    let name = list[i].get_str_or_empty("name");
                    if !name.as_str().is_empty() {
                        let v = CallVertex { name, declaration: list[i].get_str_or_empty("decl") };
                        let ghost before = vertices.deep_view();
                        vertices.push(v);
                        assert(vertices.deep_view() =~= before.push(v.deep_view()));
                    }
                    i = i + 1;
                }
                assert(views.take(i as int) =~= views);
            },
            None => {},
        }
        self.callgraph_edges = edges;
        self.callgraph_vertices = vertices;
    }

    /// The declarations that call the given one.
    pub fn get_callers(&self, decl_marker: &str) -> (r: Vec<String>)
        ensures
            text::texts(r@) == callers_in(self.callgraph_edges.deep_view(), decl_marker@),
    {
        let ghost all = self.callgraph_edges.deep_view();
        let mut r: Vec<String> = Vec::new();
        let mut i: usize = 0;
        proof {
            assert(text::texts(r@) =~= callers_in(all.take(0), decl_marker@));
        }
        while i < self.callgraph_edges.len()
            invariant
                i <= self.callgraph_edges@.len(),
                all == self.callgraph_edges.deep_view(),
                text::texts(r@) == callers_in(all.take(i as int), decl_marker@),
            decreases self.callgraph_edges@.len() - i,
        {
            proof {
                assert(all.take(i + 1).drop_last() =~= all.take(i as int));
                assert(all.take(i + 1).last() == self.callgraph_edges@[i as int].deep_view());
            }
            let e = &self.callgraph_edges[i];
            if text::same_text(e.dst.as_str(), decl_marker) {
                let s = e.src.clone();
                assert(text::texts(r@.push(s)) =~= text::texts(r@).push(s@));
                r.push(s);
            }
            i = i + 1;
        }
        assert(all.take(i as int) =~= all);
        r
    }

    /// The declarations that the given one calls.
    pub fn get_callees(&self, decl_marker: &str) -> (r: Vec<String>)
        ensures
            text::texts(r@) == callees_in(self.callgraph_edges.deep_view(), decl_marker@),
    {
        let ghost all = self.callgraph_edges.deep_view();
        let mut r: Vec<String> = Vec::new();
        let mut i: usize = 0;
        proof {
            assert(text::texts(r@) =~= callees_in(all.take(0), decl_marker@));
        }
        while i < self.callgraph_edges.len()
            invariant
                i <= self.callgraph_edges@.len(),
                all == self.callgraph_edges.deep_view(),
                text::texts(r@) == callees_in(all.take(i as int), decl_marker@),
            decreases self.callgraph_edges@.len() - i,
        {
            proof {
                assert(all.take(i + 1).drop_last() =~= all.take(i as int));
                assert(all.take(i + 1).last() == self.callgraph_edges@[i as int].deep_view());
            }
            let e = &self.callgraph_edges[i];
            if text::same_text(e.src.as_str(), decl_marker) {
                let s = e.dst.clone();
                assert(text::texts(r@.push(s)) =~= text::texts(r@).push(s@));
                r.push(s);
            }
            i = i + 1;
        }
        assert(all.take(i as int) =~= all);
        r
    }

    /// The name of the function with the given declaration.
    pub fn resolve_decl_to_name(&self, decl_marker: &str) -> (r: Option<&String>)
        ensures
            match r {
                Some(s) => name_of(self.callgraph_vertices.deep_view(), decl_marker@) == Some(s@),
                None => name_of(self.callgraph_vertices.deep_view(), decl_marker@) is None,
            },
    {
        let ghost all = self.callgraph_vertices.deep_view();
        let mut i: usize = 0;
        proof {
            assert(all.subrange(0, all.len() as int) =~= all);
        }
        while i < self.callgraph_vertices.len()
            invariant
                i <= self.callgraph_vertices@.len(),
                all == self.callgraph_vertices.deep_view(),
                name_of(all, decl_marker@) == name_of(
                    all.subrange(i as int, all.len() as int),
                    decl_marker@,
                ),
            decreases self.callgraph_vertices@.len() - i,
        {
            let v = &self.callgraph_vertices[i];
            proof {
                let rest = all.subrange(i as int, all.len() as int);
                assert(rest[0] == v.deep_view());
                assert(rest.drop_first() =~= all.subrange(i + 1, all.len() as int));
            }
            if text::same_text(v.declaration.as_str(), decl_marker) {
                return Some(&v.name);
            }
            i = i + 1;
        }
        None
    }

    /// Forgets what is known of the program. What is known of the verification of
    /// its functions, and of the project, stays.
    pub fn invalidate_all(&mut self)
        ensures
            !final(self).project_loaded,
            !final(self).eva_completed,
            !final(self).wp_completed,
            final(self).functions@ == Map::<Seq<char>, FunctionInfo>::empty(),
            final(self).globals@ == Map::<Seq<char>, GlobalInfo>::empty(),
            final(self).callgraph_edges@.len() == 0,
            final(self).callgraph_vertices@.len() == 0,
            final(self).conclusions == old(self).conclusions,
            final(self).project_state == old(self).project_state,
    {
        self.project_loaded = false;
        self.eva_completed = false;
        self.wp_completed = false;
        self.functions = NameMap::new();
        self.globals = NameMap::new();
        self.callgraph_edges = Vec::new();
        self.callgraph_vertices = Vec::new();
    }

    /// The names of the call graph's functions, and the calls between them by name.
    pub fn call_graph(&self) -> (r: (Vec<String>, Vec<(String, String)>))
        ensures
            text::texts(r.0@) == vertex_names(self.callgraph_vertices.deep_view()),
            crate::topo::edge_texts(r.1@) == named_edges(
                self.callgraph_edges.deep_view(),
                self.callgraph_vertices.deep_view(),
            ),
            r.0@.len() == self.callgraph_vertices@.len(),
            r.1@.len() <= self.callgraph_edges@.len(),
    {
        let ghost vs = self.callgraph_vertices.deep_view();
        let ghost es = self.callgraph_edges.deep_view();
        let mut names: Vec<String> = Vec::new();
        let mut i: usize = 0;
        while i < self.callgraph_vertices.len()
            invariant
                i <= self.callgraph_vertices@.len(),
                vs == self.callgraph_vertices.deep_view(),
                names@.len() == i,
                text::texts(names@) =~= vertex_names(vs).take(i as int),
            decreases self.callgraph_vertices@.len() - i,
        {
            let name = self.callgraph_vertices[i].name.clone();
            assert(text::texts(names@.push(name)) =~= text::texts(names@).push(name@));
            assert(vertex_names(vs)[i as int] == name@);
            names.push(name);
            i = i + 1;
        }
        let mut edges: Vec<(String, String)> = Vec::new();
        let mut k: usize = 0;
        proof {
            assert(crate::topo::edge_texts(edges@) =~= named_edges(es.take(0), vs));
        }
        while k < self.callgraph_edges.len()
            invariant
                k <= self.callgraph_edges@.len(),
                vs == self.callgraph_vertices.deep_view(),
                es == self.callgraph_edges.deep_view(),
                edges@.len() <= k,
                crate::topo::edge_texts(edges@) == named_edges(es.take(k as int), vs),
            decreases self.callgraph_edges@.len() - k,
        {
            let e = &self.callgraph_edges[k];
            proof {
                assert(es.take(k + 1).drop_last() =~= es.take(k as int));
                assert(es.take(k + 1).last() == e.deep_view());
            }
            match (
                self.resolve_decl_to_name(e.src.as_str()),
                self.resolve_decl_to_name(e.dst.as_str()),
            ) {
                (Some(a), Some(b)) => {
                    let pair = (a.clone(), b.clone());
                    assert(crate::topo::edge_texts(edges@.push(pair)) =~= crate::topo::edge_texts(
                        edges@,
                    ).push((pair.0@, pair.1@)));
                    edges.push(pair);
                },
                _ => {},
            }
            k = k + 1;
        }
        assert(es.take(k as int) =~= es);
        (names, edges)
    }

    /// The names of the functions that have a body.
    pub fn defined_functions(&self) -> (r: Vec<String>)
        ensures
            forall|n: Seq<char>| #[trigger]
                text::texts(r@).contains(n) <==> self.functions@.contains_key(n)
                    && self.functions@[n].defined,
    {
        let mut r: Vec<String> = Vec::new();
        let n: usize = self.functions.len();
        let ghost order = self.functions.order();
        let mut i: usize = 0;
        while i < n
            invariant
                n == order.len(),
                order == self.functions.order(),
                order.no_duplicates(),
                i <= n,
                forall|x: Seq<char>| #[trigger]
                    text::texts(r@).contains(x) <==> exists|j: int|
                        0 <= j < i && #[trigger] order[j] == x && self.functions@[order[j]].defined,
            decreases n - i,
        {
            let ghost before = r@;
            if self.functions.value_at(i).defined {
                let name = self.functions.name_at(i).clone();
                let ghost was = text::texts(r@);
                assert(text::texts(r@.push(name)) =~= was.push(name@));
                r.push(name);
                assert forall|x: Seq<char>| #[trigger]
                    text::texts(r@).contains(x) <==> was.contains(x) || x == name@ by {
                    let now = text::texts(r@);
                    if was.contains(x) {
                        let j = was.index_of(x);
                        assert(now[j] == x);
                    }
                    if x == name@ {
                        assert(now[now.len() - 1] == x);
                    }
                    if now.contains(x) && x != name@ {
                        let j = now.index_of(x);
                        assert(was[j] == x);
                    }
                }
            }
            assert forall|x: Seq<char>| #[trigger]
                text::texts(r@).contains(x) <==> exists|j: int|
                    0 <= j < i + 1 && #[trigger] order[j] == x
                        && self.functions@[order[j]].defined by {
                if order[i as int] == x && self.functions@[order[i as int]].defined {
                    assert(text::texts(r@).contains(x));
                }
                if text::texts(before).contains(x) {
                    let j = choose|j: int|
                        0 <= j < i && #[trigger] order[j] == x && self.functions@[order[j]].defined;
                    assert(order[j] == x);
                }
            }
            i = i + 1;
        }
        proof {
            assert(self.functions.order() == order);
            assert forall|x: Seq<char>| #[trigger]
                text::texts(r@).contains(x) <==> self.functions@.contains_key(x)
                    && self.functions@[x].defined by {
                if self.functions@.contains_key(x) && self.functions@[x].defined {
                    assert(order.contains(x));
                    let j = order.index_of(x);
                    assert(order[j] == x);
                }
            }
        }
        r
    }

    // ── Conclusions ─────────────────────────────────────────────────────

    /// `base` is what is known of the function, or the blank state where nothing is.
    pub open spec fn known_or_blank(self, function: Seq<char>, base: FunctionVerificationState) -> bool {
        if self.conclusions@.contains_key(function) {
            base == self.conclusions@[function]
        } else {
            base.is_blank(function)
        }
    }

    /// Merges an update into what is known of its function; a function of which
    /// nothing was known starts from the blank state.
    pub fn store_conclusion(&mut self, update: FunctionConclusionUpdate)
        ensures
            exists|base: FunctionVerificationState, after: FunctionVerificationState|
                {
                    &&& #[trigger] old(self).known_or_blank(update.function@, base)
                    &&& #[trigger] base.merged(update, after)
                    &&& final(self).conclusions@ == old(self).conclusions@.insert(
                        update.function@,
                        after,
                    )
                },
            *final(self) == (SessionState { conclusions: final(self).conclusions, ..*old(self) }),
    {
        let name = update.function.clone();
        let ghost before = self.conclusions@;
        let base = match self.conclusions.take(name.as_str()) {
            Some(c) => c,
            None => FunctionVerificationState::blank(name.as_str()),
        };
        let ghost kept = self.conclusions@;
        let after = base.merge(update);
        let ghost known = name@;
        self.conclusions.insert(name, after);
        proof {
            assert(old(self).known_or_blank(known, base));
            assert(self.conclusions@ =~= before.insert(known, after));
        }
    }

    /// What is known of a function.
    pub fn get_conclusion(&self, function: &str) -> (r: Option<&FunctionVerificationState>)
        ensures
            match r {
                Some(c) => self.conclusions@.contains_key(function@) && *c
                    == self.conclusions@[function@],
                None => !self.conclusions@.contains_key(function@),
            },
    {
        self.conclusions.get(function)
    }

    /// Takes up a conclusion that was stored in an earlier session, unless there is
    /// one of the function already.
    pub fn restore_conclusion(&mut self, function: &str, conclusion: FunctionVerificationState)
        ensures
            final(self).conclusions@ == (if old(self).conclusions@.contains_key(function@) {
                old(self).conclusions@
            } else {
                old(self).conclusions@.insert(function@, conclusion)
            }),
            *final(self) == (SessionState { conclusions: final(self).conclusions, ..*old(self) }),
    {
        if !self.conclusions.contains_key(function) {
            self.conclusions.insert(function.to_owned(), conclusion);
        }
    }

    /// `after` is this state once a sandbox was made for a function: its conclusion,
    /// or a blank one where it has none, says so, and nothing else changes.
    pub open spec fn notes_sandbox(
        self,
        function: Seq<char>,
        ast_stmt_count: Option<u32>,
        after: SessionState,
    ) -> bool {
        &&& exists|base: FunctionVerificationState, c: FunctionVerificationState|
            {
                &&& #[trigger] self.known_or_blank(function, base)
                &&& c == base.with_sandbox(ast_stmt_count)
                &&& after.conclusions@ == #[trigger] self.conclusions@.insert(function, c)
            }
        &&& after == (SessionState { conclusions: after.conclusions, ..self })
    }

    /// Notes that a sandbox was made for a function: it is clean, nothing is added,
    /// and a verification that had come to an end is under way again.
    pub fn on_sandbox_created(&mut self, function: &str, ast_stmt_count: Option<u32>)
        ensures
            old(self).notes_sandbox(function@, ast_stmt_count, *final(self)),
    {
        let ghost before = self.conclusions@;
        let base = match self.conclusions.take(function) {
            Some(c) => c,
            None => FunctionVerificationState::blank(function),
        };
        let after = FunctionVerificationState {
            ast_stmt_count,
            sandbox_clean: true,
            annotation_count: 0,
            sandbox_deleted: false,
            status: VerificationStatus::InProgress,
            ..base
        };
        self.conclusions.insert(function.to_owned(), after);
        proof {
            assert(old(self).known_or_blank(function@, base));
            assert(self.conclusions@ =~= before.insert(function@, after));
        }
    }

    /// Notes that a clause was added to a function's sandbox: it is no longer clean.
    pub fn on_annotation_added(&mut self, function: &str)
        ensures
            final(self).conclusions@ == clause_noted(old(self).conclusions@, function@),
            *final(self) == (SessionState { conclusions: final(self).conclusions, ..*old(self) }),
    {
        let ghost before = self.conclusions@;
        match self.conclusions.take(function) {
            Some(c) => {
                let after = FunctionVerificationState {
                    sandbox_clean: false,
                    annotation_count: if c.annotation_count < u32::MAX {
                        c.annotation_count + 1
                    } else {
                        u32::MAX
                    },
                    ..c
                };
                self.conclusions.insert(function.to_owned(), after);
                assert(self.conclusions@ =~= before.insert(function@, after));
            },
            None => {
                assert(self.conclusions@ =~= before);
            },
        }
    }

    /// Notes that a function's sandbox was reset: it is clean, nothing is added.
    pub fn on_sandbox_reset(&mut self, function: &str)
        ensures
            final(self).conclusions@ == (if old(self).conclusions@.contains_key(function@) {
                old(self).conclusions@.insert(
                    function@,
                    old(self).conclusions@[function@].with_sandbox_reset(),
                )
            } else {
                old(self).conclusions@
            }),
            *final(self) == (SessionState { conclusions: final(self).conclusions, ..*old(self) }),
    {
        let ghost before = self.conclusions@;
        match self.conclusions.take(function) {
            Some(c) => {
                let after = FunctionVerificationState {
                    sandbox_clean: true,
                    annotation_count: 0,
                    ..c
                };
                self.conclusions.insert(function.to_owned(), after);
                assert(self.conclusions@ =~= before.insert(function@, after));
            },
            None => {
                assert(self.conclusions@ =~= before);
            },
        }
    }

    /// Notes that a function's sandbox was deleted. Everything else stays.
    pub fn on_sandbox_deleted(&mut self, function: &str)
        ensures
            final(self).conclusions@ == deletion_noted(old(self).conclusions@, function@),
            *final(self) == (SessionState { conclusions: final(self).conclusions, ..*old(self) }),
    {
        let ghost before = self.conclusions@;
        match self.conclusions.take(function) {
            Some(c) => {
                let after = FunctionVerificationState { sandbox_deleted: true, ..c };
                self.conclusions.insert(function.to_owned(), after);
                assert(self.conclusions@ =~= before.insert(function@, after));
            },
            None => {
                assert(self.conclusions@ =~= before);
            },
        }
    }

    /// A line for each function whose status passes the filter, each function once.
    pub fn list_conclusions(&self, status_filter: Option<VerificationStatus>) -> (r: Vec<
        ConclusionSummary,
    >)
        ensures
            r.deep_view() == summary_list(
                self.conclusions@,
                self.conclusions.order(),
                status_filter,
            ),
            self.conclusions.order().no_duplicates(),
            forall|k: Seq<char>| #[trigger]
                self.conclusions@.contains_key(k) <==> self.conclusions.order().contains(k),
    {
        let n: usize = self.conclusions.len();
        let ghost order = self.conclusions.order();
        let mut r: Vec<ConclusionSummary> = Vec::new();
        let mut i: usize = 0;
        proof {
            assert(r.deep_view() =~= summary_list(self.conclusions@, order.take(0), status_filter));
        }
        while i < n
            invariant
                n == order.len(),
                order == self.conclusions.order(),
                i <= n,
                r.deep_view() == summary_list(
                    self.conclusions@,
                    order.take(i as int),
                    status_filter,
                ),
            decreases n - i,
        {
            proof {
                assert(order.take(i + 1).drop_last() =~= order.take(i as int));
            }
            let c = self.conclusions.value_at(i);
            let wanted = match status_filter {
                Some(s) => c.status == s,
                None => true,
            };
            if wanted {
                let ghost before = r.deep_view();
                let line = c.summary();
                r.push(line);
                assert(r.deep_view() =~= before.push(line.deep_view()));
            }
            i = i + 1;
        }
        assert(order.take(i as int) =~= order);
        r
    }

    // ── The project ─────────────────────────────────────────────────────

    /// Merges an update into what is known of the project.
    pub fn store_project_state(&mut self, update: ProjectStateUpdate)
        ensures
            exists|base: ProjectVerificationState|
                {
                    &&& old(self).project_or_blank(base)
                    &&& final(self).project_state is Some
                    &&& #[trigger] base.merged(update, final(self).project_state->0)
                },
            *final(self) == (SessionState {
                project_state: final(self).project_state,
                ..*old(self)
            }),
    {
        let base = match self.project_state.take() {
            Some(p) => p,
            None => ProjectVerificationState::default(),
        };
        self.project_state = Some(base.merge(update));
        assert(base.merged(update, self.project_state->0));
    }

    /// What is known of the project.
    pub fn get_project_state(&self) -> (r: Option<&ProjectVerificationState>)
        ensures
            match r {
                Some(p) => self.project_state == Some(*p),
                None => self.project_state is None,
            },
    {
        match &self.project_state {
            Some(p) => Some(p),
            None => None,
        }
    }

    /// Replaces what is known of the project.
    pub fn set_project_state_full(&mut self, new_state: ProjectVerificationState)
        ensures
            *final(self) == (SessionState { project_state: Some(new_state), ..*old(self) }),
    {
        self.project_state = Some(new_state);
    }

    /// Replaces what is known of the project by what a client submitted, but for
    /// what the server owns.
    pub fn submit_project_state(&mut self, submitted: ProjectVerificationState)
        ensures
            final(self).project_state is Some,
            ProjectVerificationState::accepted(
                submitted,
                old(self).project_state,
                final(self).project_state->0,
            ),
            *final(self) == (SessionState {
                project_state: final(self).project_state,
                ..*old(self)
            }),
    {
        let current = self.project_state.take();
        self.project_state = Some(ProjectVerificationState::accept(submitted, current));
    }

    /// `after` is the state of the project with an order in it: the level starts at
    /// 0, and the rest is as it was, or blank where nothing was known.
    pub open spec fn seeds_order(self, after: ProjectVerificationState) -> bool {
        exists|base: ProjectVerificationState|
            {
                &&& #[trigger] self.project_or_blank(base)
                &&& after == (ProjectVerificationState {
                    verification_order: after.verification_order,
                    scc_groups: after.scc_groups,
                    current_level: 0,
                    ..base
                })
            }
    }

    /// `base` is what is known of the project, or blank where nothing is.
    pub open spec fn project_or_blank(self, base: ProjectVerificationState) -> bool {
        match self.project_state {
            Some(p) => base == p,
            None => base.is_blank(),
        }
    }

    /// Sets the verification order and its groups, and starts at level 0.
    pub fn seed_order(&mut self, verification_order: Vec<String>, scc_groups: Vec<SccGroup>)
        ensures
            final(self).project_state matches Some(p) && p.verification_order == verification_order
                && p.scc_groups == scc_groups && old(self).seeds_order(p),
            *final(self) == (SessionState {
                project_state: final(self).project_state,
                ..*old(self)
            }),
    {
        let base = match self.project_state.take() {
            Some(p) => p,
            None => ProjectVerificationState::default(),
        };
        assert(old(self).project_or_blank(base));
        self.project_state =
        Some(
            ProjectVerificationState { verification_order, scc_groups, current_level: 0, ..base },
        );
    }

    /// Notes that the value analysis has run.
    pub fn set_eva_completed(&mut self)
        ensures
            *final(self) == (SessionState { eva_completed: true, ..*old(self) }),
    {
        self.eva_completed = true;
    }

    /// Notes that the proofs have run.
    pub fn set_wp_completed(&mut self)
        ensures
            *final(self) == (SessionState { wp_completed: true, ..*old(self) }),
    {
        self.wp_completed = true;
    }
}

/// The names of vertices.
pub open spec fn vertex_names(vertices: Seq<CallVertexView>) -> Seq<Seq<char>> {
    vertices.map_values(|v: CallVertexView| v.name)
}

/// The lines of the functions whose status passes the filter.
pub open spec fn summary_list(
    conclusions: Map<Seq<char>, FunctionVerificationState>,
    order: Seq<Seq<char>>,
    filter: Option<VerificationStatus>,
) -> Seq<SummaryView>
    decreases order.len(),
{
    if order.len() == 0 {
        Seq::empty()
    } else {
        let before = summary_list(conclusions, order.drop_last(), filter);
        let c = conclusions[order.last()];
        if filter matches Some(s) && c.status != s {
            before
        } else {
            before.push(c.summarized())
        }
    }
}

} // verus!
