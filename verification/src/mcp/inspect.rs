//! What is said of the functions and global variables of the program.

use vstd::prelude::*;

use crate::error::{FramaCError, McpError, McpErrorKind};
use crate::json;
use crate::json::{Json, JsonView};
use crate::mcp::request;
use crate::mcp::request::Request;
use crate::state;
use crate::state::{FunctionInfo, FunctionInfoView, GlobalInfo, GlobalInfoView, SessionState};
use crate::state::project::{GroupView, SccGroup};
use crate::text;
use crate::topo;
use crate::topo::ReadyFunc;

verus! {

impl FunctionInfo {
    /// The same, once more.
    pub fn duplicate(&self) -> (r: FunctionInfo)
        ensures
            r.deep_view() == self.deep_view(),
    {
        FunctionInfo {
            name: self.name.clone(),
            marker: self.marker.clone(),
            declaration: self.declaration.clone(),
            signature: self.signature.clone(),
            file: self.file.clone(),
            line: self.line,
            defined: self.defined,
        }
    }
}

impl GlobalInfo {
    /// The same, once more.
    pub fn duplicate(&self) -> (r: GlobalInfo)
        ensures
            r.deep_view() == self.deep_view(),
    {
        GlobalInfo {
            name: self.name.clone(),
            marker: self.marker.clone(),
            declaration: self.declaration.clone(),
            typ: self.typ.clone(),
            file: self.file.clone(),
            line: self.line,
        }
    }
}

/// What came of looking up a name.
pub enum Lookup<T> {
    /// It is known.
    Found(T),
    /// It is not known yet: the table is to be read again.
    Refresh,
    /// It is not known, though the table was just read.
    Missing(McpError),
}

/// What came of looking up `name` in a table that was (or was not) just read.
pub open spec fn is_lookup<T: DeepView>(
    r: Lookup<T>,
    table: Map<Seq<char>, T::V>,
    name: Seq<char>,
    refreshed: bool,
    message: Seq<char>,
) -> bool {
    if table.contains_key(name) {
        r matches Lookup::Found(t) && t.deep_view() == table[name]
    } else if refreshed {
        r matches Lookup::Missing(e) && e.kind == McpErrorKind::InvalidParams && e.message@
            == message
    } else {
        r is Refresh
    }
}

/// Looks up a function, first in what is known. `refreshed` holds the entries of
/// the program's functions where they were read on account of this lookup: they
/// replace what was known before.
pub fn resolve_function_or_refresh(
    state: &mut SessionState,
    name: &str,
    refreshed: Option<&[Json]>,
) -> (r: Lookup<FunctionInfo>)
    ensures
        refreshed is None ==> *final(state) == *old(state),
        refreshed matches Some(entries) ==> final(state).functions.deep_view()
            == state::function_table(json::json_views(entries@)),
        *final(state) == (SessionState { functions: final(state).functions, ..*old(state) }),
        is_lookup(
            r,
            final(state).functions.deep_view(),
            name@,
            refreshed is Some,
            "function not found: "@ + name@,
        ),
{
    match refreshed {
        Some(entries) => {
            state.update_functions(entries);
        },
        None => {},
    }
    match state.resolve_function(name) {
        Some(f) => Lookup::Found(f.duplicate()),
        None => if refreshed.is_some() {
            Lookup::Missing(FramaCError::FunctionNotFound(name.to_owned()).to_mcp())
        } else {
            Lookup::Refresh
        },
    }
}

/// Looks up a global variable, first in what is known. `refreshed` holds the
/// entries of the program's variables where they were read on account of this
/// lookup: they replace what was known before.
pub fn resolve_global_or_refresh(
    state: &mut SessionState,
    name: &str,
    refreshed: Option<&[Json]>,
) -> (r: Lookup<GlobalInfo>)
    ensures
        refreshed is None ==> *final(state) == *old(state),
        refreshed matches Some(entries) ==> final(state).globals.deep_view()
            == state::global_table(json::json_views(entries@)),
        *final(state) == (SessionState { globals: final(state).globals, ..*old(state) }),
        is_lookup(
            r,
            final(state).globals.deep_view(),
            name@,
            refreshed is Some,
            "global variable not found: "@ + name@,
        ),
{
    match refreshed {
        Some(entries) => {
            state.update_globals(entries);
        },
        None => {},
    }
    match state.resolve_global(name) {
        Some(f) => Lookup::Found(f.duplicate()),
        None => if refreshed.is_some() {
            Lookup::Missing(FramaCError::GlobalNotFound(name.to_owned()).to_mcp())
        } else {
            Lookup::Refresh
        },
    }
}

/// The request for the text of a declaration, with its annotations.
pub fn declaration_request(declaration: &str) -> (r: Request)
    ensures
        r@ == request::to_get("kernel.ast.printDeclaration"@, JsonView::Text(declaration@)),
{
    Request::get("kernel.ast.printDeclaration", Json::text(declaration))
}

/// The declaration of a sandbox's function, or an error where it was not found when
/// the sandbox was created.
pub fn sandbox_declaration(function: &str, declaration_marker: &str) -> (r: Result<
    Request,
    McpError,
>)
    ensures
        if declaration_marker@.len() == 0 {
            r matches Err(e) && e.kind == McpErrorKind::InvalidParams && e.message@
                == "function not found: "@ + function@
        } else {
            r matches Ok(q) && q@ == request::to_get(
                "kernel.ast.printDeclaration"@,
                JsonView::Text(declaration_marker@),
            )
        },
{
    if declaration_marker.is_empty() {
        Err(FramaCError::FunctionNotFound(function.to_owned()).to_mcp())
    } else {
        Ok(declaration_request(declaration_marker))
    }
}

/// What is said of the function of a sandbox.
pub fn sandbox_function_report(function: &str, declaration: Json) -> (r: Json)
    ensures
        r@ == json::no_fields().with("name"@, JsonView::Text(function@)).with(
            "declaration"@,
            declaration@,
        ),
{
    Json::object().with("name", Json::text(function)).with("declaration", declaration)
}

/// What is said of a function, with the text of its declaration.
pub open spec fn function_body(f: FunctionInfoView, declaration: JsonView) -> JsonView {
    json::no_fields().with("name"@, JsonView::Text(f.name)).with(
        "marker"@,
        JsonView::Text(f.marker),
    ).with("signature"@, JsonView::Text(f.signature)).with("file"@, JsonView::Text(f.file)).with(
        "line"@,
        json::whole(f.line as int),
    ).with("declaration"@, declaration)
}

/// What is said of a function of the main instance.
pub fn function_report(info: &FunctionInfo, declaration: Json) -> (r: Json)
    ensures
        r@ == function_body(info.deep_view(), declaration@),
{
    Json::object().with("name", Json::text(info.name.as_str())).with(
        "marker",
        Json::text(info.marker.as_str()),
    ).with("signature", Json::text(info.signature.as_str())).with(
        "file",
        Json::text(info.file.as_str()),
    ).with("line", Json::unsigned(info.line as u64)).with("declaration", declaration)
}

/// What is said of a symbol that is a function.
pub open spec fn function_symbol_body(f: FunctionInfoView) -> JsonView {
    json::no_fields().with("kind"@, JsonView::Text("function"@)).with(
        "name"@,
        JsonView::Text(f.name),
    ).with("signature"@, JsonView::Text(f.signature)).with("file"@, JsonView::Text(f.file)).with(
        "line"@,
        json::whole(f.line as int),
    ).with("marker"@, JsonView::Text(f.marker)).with("declaration"@, JsonView::Text(f.declaration))
}

/// What is said of a symbol that is a global variable.
pub open spec fn global_symbol_body(g: GlobalInfoView) -> JsonView {
    json::no_fields().with("kind"@, JsonView::Text("global_variable"@)).with(
        "name"@,
        JsonView::Text(g.name),
    ).with("type"@, JsonView::Text(g.typ)).with("file"@, JsonView::Text(g.file)).with(
        "line"@,
        json::whole(g.line as int),
    ).with("marker"@, JsonView::Text(g.marker)).with("declaration"@, JsonView::Text(g.declaration))
}

/// What is said of a symbol, given what came of looking it up as a function and,
/// where that failed, as a global variable.
pub fn lookup_symbol(
    name: &str,
    function: Option<&FunctionInfo>,
    global: Option<&GlobalInfo>,
) -> (r: Result<Json, McpError>)
    ensures
        match (function, global) {
            (Some(f), _) => r matches Ok(j) && j@ == function_symbol_body(f.deep_view()),
            (None, Some(g)) => r matches Ok(j) && j@ == global_symbol_body(g.deep_view()),
            (None, None) => r matches Err(e) && e.kind == McpErrorKind::InvalidParams && e.message@
                == "symbol not found: "@ + name@,
        },
{
    match function {
        Some(f) => Ok(
            Json::object().with("kind", Json::text("function")).with(
                "name",
                Json::text(f.name.as_str()),
            ).with("signature", Json::text(f.signature.as_str())).with(
                "file",
                Json::text(f.file.as_str()),
            ).with("line", Json::unsigned(f.line as u64)).with(
                "marker",
                Json::text(f.marker.as_str()),
            ).with("declaration", Json::text(f.declaration.as_str())),
        ),
        None => match global {
            Some(g) => Ok(
                Json::object().with("kind", Json::text("global_variable")).with(
                    "name",
                    Json::text(g.name.as_str()),
                ).with("type", Json::text(g.typ.as_str())).with(
                    "file",
                    Json::text(g.file.as_str()),
                ).with("line", Json::unsigned(g.line as u64)).with(
                    "marker",
                    Json::text(g.marker.as_str()),
                ).with("declaration", Json::text(g.declaration.as_str())),
            ),
            None => Err(FramaCError::SymbolNotFound(name.to_owned()).to_mcp()),
        },
    }
}

/// The line of a function in the list of functions.
pub open spec fn function_line(f: FunctionInfoView) -> JsonView {
    json::no_fields().with("name"@, JsonView::Text(f.name)).with(
        "signature"@,
        JsonView::Text(f.signature),
    ).with("file"@, JsonView::Text(f.file)).with("line"@, json::whole(f.line as int))
}

/// The line of a global variable in the list of variables.
pub open spec fn global_line(g: GlobalInfoView) -> JsonView {
    json::no_fields().with("name"@, JsonView::Text(g.name)).with(
        "type"@,
        JsonView::Text(g.typ),
    ).with("file"@, JsonView::Text(g.file)).with("line"@, json::whole(g.line as int))
}

/// Whether the functions are still to be read from Frama-C.
pub fn functions_unread(state: &SessionState) -> (r: bool)
    ensures
        r == state.functions@.dom().is_empty(),
{
    let n = state.functions.len();
    proof {
        if n > 0 {
            assert(state.functions.order().contains(state.functions.order()[0]));
            assert(state.functions@.dom().contains(state.functions.order()[0]));
        } else {
            assert forall|k: Seq<char>| !state.functions@.dom().contains(k) by {
                assert(!state.functions.order().contains(k));
                assert(!state.functions@.contains_key(k));
            }
            assert(state.functions@.dom() =~= Set::empty());
        }
    }
    n == 0
}

/// Whether the global variables are still to be read from Frama-C.
pub fn globals_unread(state: &SessionState) -> (r: bool)
    ensures
        r == state.globals@.dom().is_empty(),
{
    let n = state.globals.len();
    proof {
        if n > 0 {
            assert(state.globals.order().contains(state.globals.order()[0]));
            assert(state.globals@.dom().contains(state.globals.order()[0]));
        } else {
            assert forall|k: Seq<char>| !state.globals@.dom().contains(k) by {
                assert(!state.globals.order().contains(k));
                assert(!state.globals@.contains_key(k));
            }
            assert(state.globals@.dom() =~= Set::empty());
        }
    }
    n == 0
}

/// The list of all functions, each once.
pub fn list_functions(state: &SessionState) -> (r: Json)
    ensures
        r@ == JsonView::List(
            state.functions.order().map_values(
                |n: Seq<char>| function_line(state.functions.deep_view()[n]),
            ),
        ),
        state.functions.order().no_duplicates(),
        forall|n: Seq<char>| #[trigger]
            state.functions@.contains_key(n) <==> state.functions.order().contains(n),
{
    let ghost order = state.functions.order();
    let ghost wanted = order.map_values(
        |n: Seq<char>| function_line(state.functions.deep_view()[n]),
    );
    let mut lines: Vec<Json> = Vec::new();
    let n = state.functions.len();
    let mut i: usize = 0;
    while i < n
        invariant
            n == order.len(),
            order == state.functions.order(),
            i <= n,
            wanted == order.map_values(
                |n: Seq<char>| function_line(state.functions.deep_view()[n]),
            ),
            json::json_views(lines@) =~= wanted.take(i as int),
            forall|k: Seq<char>| #[trigger]
                state.functions@.contains_key(k) <==> order.contains(k),
        decreases n - i,
    {
        let f = state.functions.value_at(i);
        proof {
            assert(order.contains(order[i as int]));
            assert(state.functions@.contains_key(order[i as int]));
            assert(wanted[i as int] == function_line(f.deep_view()));
        }
        let line = Json::object().with("name", Json::text(f.name.as_str())).with(
            "signature",
            Json::text(f.signature.as_str()),
        ).with("file", Json::text(f.file.as_str())).with("line", Json::unsigned(f.line as u64));
        assert(json::json_views(lines@.push(line)) =~= json::json_views(lines@).push(line@));
        lines.push(line);
        i = i + 1;
    }
    assert(wanted.take(i as int) =~= wanted);
    Json::list(lines)
}

/// The list of all global variables, each once.
pub fn list_globals(state: &SessionState) -> (r: Json)
    ensures
        r@ == JsonView::List(
            state.globals.order().map_values(
                |n: Seq<char>| global_line(state.globals.deep_view()[n]),
            ),
        ),
        state.globals.order().no_duplicates(),
        forall|n: Seq<char>| #[trigger]
            state.globals@.contains_key(n) <==> state.globals.order().contains(n),
{
    let ghost order = state.globals.order();
    let ghost wanted = order.map_values(|n: Seq<char>| global_line(state.globals.deep_view()[n]));
    let mut lines: Vec<Json> = Vec::new();
    let n = state.globals.len();
    let mut i: usize = 0;
    while i < n
        invariant
            n == order.len(),
            order == state.globals.order(),
            i <= n,
            wanted == order.map_values(
                |n: Seq<char>| global_line(state.globals.deep_view()[n]),
            ),
            json::json_views(lines@) =~= wanted.take(i as int),
            forall|k: Seq<char>| #[trigger] state.globals@.contains_key(k) <==> order.contains(k),
        decreases n - i,
    {
        let g = state.globals.value_at(i);
        proof {
            assert(order.contains(order[i as int]));
            assert(state.globals@.contains_key(order[i as int]));
            assert(wanted[i as int] == global_line(g.deep_view()));
        }
        let line = Json::object().with("name", Json::text(g.name.as_str())).with(
            "type",
            Json::text(g.typ.as_str()),
        ).with("file", Json::text(g.file.as_str())).with("line", Json::unsigned(g.line as u64));
        assert(json::json_views(lines@.push(line)) =~= json::json_views(lines@).push(line@));
        lines.push(line);
        i = i + 1;
    }
    assert(wanted.take(i as int) =~= wanted);
    Json::list(lines)
}

/// What is said once the project is loaded.
pub fn reload_report(entries: Vec<Json>, files: &[String], rte: bool) -> (r: Json)
    ensures
        r@ == json::no_fields().with(
            "functions"@,
            JsonView::List(json::json_views(entries@)),
        ).with("files"@, json::text_list(text::texts(files@))).with("rte"@, JsonView::Bool(rte)),
{
    Json::object().with("functions", Json::list(entries)).with("files", Json::texts(files)).with(
        "rte",
        Json::Bool(rte),
    )
}

/// What is known once the project is loaded: the functions that were read, and
/// nothing else of the program. Conclusions and the state of the project stay.
pub fn project_reloaded(state: &mut SessionState, entries: &[Json])
    ensures
        final(state).project_loaded,
        !final(state).eva_completed && !final(state).wp_completed,
        final(state).functions.deep_view() == state::function_table(json::json_views(entries@)),
        final(state).globals@.dom().is_empty(),
        final(state).callgraph_edges@.len() == 0 && final(state).callgraph_vertices@.len() == 0,
        final(state).conclusions == old(state).conclusions,
        final(state).project_state == old(state).project_state,
{
    state.invalidate_all();
    state.update_functions(entries);
    state.project_loaded = true;
}

/// What is known once a connection is made: the functions that were read.
pub fn program_connected(state: &mut SessionState, entries: &[Json])
    ensures
        final(state).functions.deep_view() == state::function_table(json::json_views(entries@)),
        *final(state) == (SessionState {
            project_loaded: true,
            functions: final(state).functions,
            ..*old(state)
        }),
{
    state.update_functions(entries);
    state.project_loaded = true;
}

/// A group of functions as a value.
pub open spec fn group_body(g: GroupView) -> JsonView {
    json::no_fields().with("id"@, json::whole(g.id as int)).with(
        "members"@,
        json::text_list(g.members),
    ).with("level"@, json::whole(g.level as int)).with("is_cycle"@, JsonView::Bool(g.is_cycle))
}

/// The order of verification as a value.
pub open spec fn order_body(order: Seq<Seq<char>>, groups: Seq<GroupView>) -> JsonView {
    json::no_fields().with("verification_order"@, json::text_list(order)).with(
        "scc_groups"@,
        JsonView::List(groups.map_values(|g: GroupView| group_body(g))),
    )
}

/// What is said of the order in which the functions are verified.
pub fn order_report(verification_order: &[String], scc_groups: &[SccGroup]) -> (r: Json)
    ensures
        r@ == order_body(
            text::texts(verification_order@),
            topo::group_views(scc_groups@),
        ),
{
    let ghost wanted = topo::group_views(scc_groups@).map_values(|g: GroupView| group_body(g));
    let mut groups: Vec<Json> = Vec::new();
    let mut i: usize = 0;
    while i < scc_groups.len()
        invariant
            i <= scc_groups@.len(),
            wanted == topo::group_views(scc_groups@).map_values(|g: GroupView| group_body(g)),
            json::json_views(groups@) =~= wanted.take(i as int),
        decreases scc_groups@.len() - i,
    {
        let g = &scc_groups[i];
        let line = Json::object().with("id", Json::unsigned(g.id as u64)).with(
            "members",
            Json::texts(g.members.as_slice()),
        ).with("level", Json::unsigned(g.level as u64)).with("is_cycle", Json::Bool(g.is_cycle));
        assert(wanted[i as int] == line@);
        assert(json::json_views(groups@.push(line)) =~= json::json_views(groups@).push(line@));
        groups.push(line);
        i = i + 1;
    }
    assert(wanted.take(i as int) =~= wanted);
    Json::object().with("verification_order", Json::texts(verification_order)).with(
        "scc_groups",
        Json::list(groups),
    )
}

/// A function that is ready, as a value.
pub open spec fn ready_body(f: ReadyFunc) -> JsonView {
    json::no_fields().with("function"@, JsonView::Text(f.function@)).with(
        "scc_id"@,
        match f.scc_id {
            Some(n) => json::whole(n as int),
            None => JsonView::Null,
        },
    ).with("is_cycle"@, JsonView::Bool(f.is_cycle)).with(
        "scc_members"@,
        json::text_list(text::texts(f.scc_members@)),
    )
}

/// What is said of the functions that are ready.
pub fn ready_report(ready: &[ReadyFunc]) -> (r: Json)
    ensures
        r@ == JsonView::List(ready@.map_values(|f: ReadyFunc| ready_body(f))),
{
    let ghost wanted = ready@.map_values(|f: ReadyFunc| ready_body(f));
    let mut lines: Vec<Json> = Vec::new();
    let mut i: usize = 0;
    while i < ready.len()
        invariant
            i <= ready@.len(),
            wanted == ready@.map_values(|f: ReadyFunc| ready_body(f)),
            json::json_views(lines@) =~= wanted.take(i as int),
        decreases ready@.len() - i,
    {
        let f = &ready[i];
        let id = match f.scc_id {
            Some(n) => Json::unsigned(n as u64),
            None => Json::Null,
        };
        let line = Json::object().with("function", Json::text(f.function.as_str())).with(
            "scc_id",
            id,
        ).with("is_cycle", Json::Bool(f.is_cycle)).with(
            "scc_members",
            Json::texts(f.scc_members.as_slice()),
        );
        assert(wanted[i as int] == line@);
        assert(json::json_views(lines@.push(line)) =~= json::json_views(lines@).push(line@));
        lines.push(line);
        i = i + 1;
    }
    assert(wanted.take(i as int) =~= wanted);
    Json::list(lines)
}

/// Whether the call graph is still to be computed.
pub fn callgraph_unread(state: &SessionState) -> (r: bool)
    ensures
        r == (state.callgraph_edges@.len() == 0 && state.callgraph_vertices@.len() == 0),
{
    state.callgraph_edges.len() == 0 && state.callgraph_vertices.len() == 0
}

} // verus!
