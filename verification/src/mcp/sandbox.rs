//! Sandboxes: a function is cut out of the program, with what it depends on, and
//! verified in a Frama-C of its own.

use vstd::prelude::*;
use vstd::string::*;

use crate::error::{McpError, McpErrorKind};
use crate::frama_c::codec;
use crate::json;
use crate::json::{Json, JsonView};
use crate::mcp::acsl;
use crate::mcp::acsl::{clock_nanos, hex_text};
use crate::mcp::inject;
use crate::mcp::param_compat::invalid_params;
use crate::mcp::process;
use crate::mcp::process::{SandboxPaths, internal_error, sandbox_arguments, sandbox_paths};
use crate::mcp::request;
use crate::mcp::request::Request;
use crate::mcp::routing;
use crate::mcp::routing::{experiment_id_of, require_project_loaded};
use crate::mcp::types::CreateSandboxParams;
use crate::names::NameMap;
use crate::state;
use crate::state::conclusion::FunctionVerificationState;
use crate::state::{SandboxState, SessionState};
use crate::text;

verus! {

/// The experiments that have a sandbox.
pub fn experiments(sandboxes: &NameMap<SandboxState>) -> (r: Vec<String>)
    ensures
        text::texts(r@) == sandboxes.order(),
        sandboxes.order().no_duplicates(),
        forall|k: Seq<char>| #[trigger]
            sandboxes@.contains_key(k) <==> sandboxes.order().contains(k),
{
    let n = sandboxes.len();
    let mut r: Vec<String> = Vec::new();
    let mut i: usize = 0;
    assert(text::texts(r@) =~= sandboxes.order().take(0));
    while i < n
        invariant
            n == sandboxes.order().len(),
            i <= n,
            text::texts(r@) == sandboxes.order().take(i as int),
        decreases n - i,
    {
        let name = sandboxes.name_at(i).clone();
        proof {
            assert(text::texts(r@.push(name)) =~= text::texts(r@).push(name@));
            assert(sandboxes.order().take(i as int).push(name@) =~= sandboxes.order().take(i + 1));
        }
        r.push(name);
        i = i + 1;
    }
    assert(sandboxes.order().take(i as int) =~= sandboxes.order());
    r
}

/// The sandbox of an experiment, or an error that says how to make it.
pub fn find_sandbox<'a>(sandboxes: &'a NameMap<SandboxState>, experiment_id: &str) -> (r: Result<
    &'a SandboxState,
    McpError,
>)
    ensures
        if sandboxes@.contains_key(experiment_id@) {
            r matches Ok(s) && *s == sandboxes@[experiment_id@]
        } else {
            r matches Err(e) && e.kind == McpErrorKind::InvalidParams && e.message@
                == json::json_pretty_text(
                routing::no_sandbox_body(experiment_id@, sandboxes.order()),
            )
        },
{
    match sandboxes.get(experiment_id) {
        Some(s) => Ok(s),
        None => {
            let names = experiments(sandboxes);
            Err(routing::sandbox_not_found_err(experiment_id, names.as_slice()))
        },
    }
}

// ----------------------------------------------------------------------------
// Creation
// ----------------------------------------------------------------------------

/// Why no more sandboxes are created: there are as many as the limit allows.
pub open spec fn capacity_refusal(count: nat, max_sandboxes: usize) -> Option<Seq<char>> {
    if count >= max_sandboxes {
        Some(
            "sandbox OS safety ceiling "@ + text::decimal(max_sandboxes as nat)
                + " reached (raise via --max-sandboxes; scheduling concurrency is controlled by v-p-fsm max_sandboxes var, not this)"@,
        )
    } else {
        None
    }
}

/// Whether one more sandbox may be created.
pub fn check_capacity(sandboxes: &NameMap<SandboxState>, max_sandboxes: usize) -> (r: Result<
    (),
    McpError,
>)
    ensures
        routing::lets_through(r, capacity_refusal(sandboxes.order().len(), max_sandboxes)),
{
    if sandboxes.len() >= max_sandboxes {
        Err(
            invalid_params(
                "sandbox OS safety ceiling ".to_owned().concat(
                    text::decimal_text(max_sandboxes as u64).as_str(),
                ).concat(
                    " reached (raise via --max-sandboxes; scheduling concurrency is controlled by v-p-fsm max_sandboxes var, not this)",
                ),
            ),
        )
    } else {
        Ok(())
    }
}

/// Why no sandbox is created, before anything is asked of Frama-C: no project is
/// loaded, or there are too many.
pub open spec fn creation_refusal(loaded: bool, count: nat, max_sandboxes: usize) -> Option<
    Seq<char>,
> {
    if loaded {
        capacity_refusal(count, max_sandboxes)
    } else {
        Some(json::json_pretty_text(routing::no_project_body()))
    }
}

/// The request that begins the creation of a sandbox: its function is cut out of
/// the program.
pub fn begin_creation(
    session: &SessionState,
    sandboxes: &NameMap<SandboxState>,
    max_sandboxes: usize,
    params: &CreateSandboxParams,
) -> (r: Result<Request, McpError>)
    ensures
        match creation_refusal(
            session.project_loaded,
            sandboxes.order().len(),
            max_sandboxes,
        ) {
            Some(m) => r matches Err(e) && e.kind == McpErrorKind::InvalidParams && e.message@ == m,
            None => r matches Ok(q) && q@ == request::to_get(
                "plugins.ast-utils.extractFunctionWithDeps"@,
                JsonView::Text(params.function@),
            ),
        },
{
    match require_project_loaded(session) {
        Err(e) => Err(e),
        Ok(_) => match check_capacity(sandboxes, max_sandboxes) {
            Err(e) => Err(e),
            Ok(_) => Ok(extract_request(params.function.as_str())),
        },
    }
}

/// The request that cuts a function out of the program.
pub fn extract_request(function: &str) -> (r: Request)
    ensures
        r@ == request::to_get(
            "plugins.ast-utils.extractFunctionWithDeps"@,
            JsonView::Text(function@),
        ),
{
    Request::get("plugins.ast-utils.extractFunctionWithDeps", Json::text(function))
}

/// A function that was cut out: its source, the ids that its statements have in
/// the program, and how many they are, where they were listed.
pub struct Extract {
    pub source: String,
    pub sids: Option<Vec<i64>>,
    pub ast_stmt_count: Option<u32>,
}

/// What was cut out.
pub struct ExtractView {
    pub source: Seq<char>,
    pub sids: Option<Seq<i64>>,
    pub ast_stmt_count: Option<u32>,
}

impl View for Extract {
    type V = ExtractView;

    open spec fn view(&self) -> ExtractView {
        ExtractView {
            source: self.source@,
            sids: match self.sids {
                Some(v) => Some(v@),
                None => None,
            },
            ast_stmt_count: self.ast_stmt_count,
        }
    }
}

/// The whole numbers of a list, in its order.
pub open spec fn numbers_in(items: Seq<JsonView>) -> Seq<i64>
    decreases items.len(),
{
    if items.len() == 0 {
        Seq::empty()
    } else {
        match items.last().signed() {
            Some(n) => numbers_in(items.drop_last()).push(n as i64),
            None => numbers_in(items.drop_last()),
        }
    }
}

fn numbers_of(items: &Vec<Json>) -> (r: Vec<i64>)
    ensures
        r@ == numbers_in(json::json_views(items@)),
{
    let ghost views = json::json_views(items@);
    let mut r: Vec<i64> = Vec::new();
    let mut i: usize = 0;
    assert(r@ =~= numbers_in(views.take(0)));
    while i < items.len()
        invariant
            i <= items@.len(),
            views == json::json_views(items@),
            r@ == numbers_in(views.take(i as int)),
        decreases items@.len() - i,
    {
        proof {
            assert(views.take(i + 1).drop_last() =~= views.take(i as int));
            assert(views.take(i + 1).last() == items@[i as int]@);
        }
        match items[i].as_i64() {
            Some(n) => {
                r.push(n);
            },
            None => {},
        }
        i = i + 1;
    }
    assert(views.take(i as int) =~= views);
    r
}

/// What a reply says was cut out, or why nothing was.
pub open spec fn extracted(reply: JsonView) -> Result<ExtractView, Seq<char>> {
    if reply.at("success"@).truth() != Some(true) {
        Err(
            "extract failed: "@ + (match reply.text_field("error"@) {
                Some(e) => e,
                None => "unknown error"@,
            }),
        )
    } else {
        match reply.text_field("source"@) {
            Some(source) => Ok(
                ExtractView {
                    source,
                    sids: match reply.at("sids"@).list() {
                        Some(l) => Some(numbers_in(l)),
                        None => None,
                    },
                    ast_stmt_count: match reply.at("sids"@).list() {
                        Some(l) => Some((l.len() % 0x1_0000_0000) as u32),
                        None => None,
                    },
                },
            ),
            None => Err("extract returned no source"@),
        }
    }
}

/// Reads what was cut out from the reply.
pub fn read_extract(reply: &Json) -> (r: Result<Extract, McpError>)
    ensures
        match extracted(reply@) {
            Ok(x) => r matches Ok(e) && e@ == x,
            Err(m) => r matches Err(e) && e.kind == McpErrorKind::InternalError && e.message@ == m,
        },
{
    let success = match reply.get("success") {
        Some(v) => match v.as_bool() {
            Some(b) => b,
            None => false,
        },
        None => false,
    };
    if !success {
        let error: String = match reply.get_str("error") {
            Some(e) => e.clone(),
            None => "unknown error".to_owned(),
        };
        return Err(internal_error("extract failed: ".to_owned().concat(error.as_str())));
    }
    let mut sids: Option<Vec<i64>> = None;
    let mut ast_stmt_count: Option<u32> = None;
    match reply.get_array("sids") {
        Some(l) => {
            let n: u64 = l.len() as u64;
            sids = Some(numbers_of(l));
            ast_stmt_count = Some((n % 0x1_0000_0000) as u32);
        },
        None => {},
    }
    match reply.get_str("source") {
        Some(source) => Ok(Extract { source: source.clone(), sids, ast_stmt_count }),
        None => Err(internal_error("extract returned no source".to_owned())),
    }
}

/// The id that a new experiment is to have: the one that is given, without white
/// space around it; where none is given, the one that was drawn.
pub open spec fn wanted_id(given: Option<Seq<char>>, drawn: Seq<char>) -> Seq<char> {
    match given {
        Some(s) if text::trimmed(s).len() > 0 => text::trimmed(s),
        _ => drawn,
    }
}

/// The id of a new experiment, unless it is in use.
pub open spec fn chosen_id(
    given: Option<Seq<char>>,
    in_use: spec_fn(Seq<char>) -> bool,
    drawn: Seq<char>,
) -> Result<Seq<char>, Seq<char>> {
    let id = wanted_id(given, drawn);
    if in_use(id) {
        Err(
            "experiment_id '"@ + id
                + "' already in use; call delete_sandbox first or pick a different ID"@,
        )
    } else {
        Ok(id)
    }
}

/// The id of a new experiment, given the nanoseconds from which one is drawn.
pub fn choose_experiment_id(
    params: &CreateSandboxParams,
    sandboxes: &NameMap<SandboxState>,
    nanos: u32,
) -> (r: Result<String, McpError>)
    ensures
        match chosen_id(
            text::opt_string(params.experiment_id),
            |s: Seq<char>| sandboxes@.contains_key(s),
            acsl::hex_digits(nanos),
        ) {
            Ok(id) => r matches Ok(s) && s@ == id,
            Err(m) => r matches Err(e) && e.kind == McpErrorKind::InvalidParams && e.message@ == m,
        },
{
    let id: String = match &params.experiment_id {
        Some(s) => {
            let given = text::trim(s.as_str());
            if given.as_str().is_empty() {
                hex_text(nanos)
            } else {
                given
            }
        },
        None => hex_text(nanos),
    };
    if sandboxes.contains_key(id.as_str()) {
        Err(
            invalid_params(
                "experiment_id '".to_owned().concat(id.as_str()).concat(
                    "' already in use; call delete_sandbox first or pick a different ID",
                ),
            ),
        )
    } else {
        Ok(id)
    }
}

/// A sandbox that is about to be set up.
pub struct Setup {
    pub experiment_id: String,
    pub extract: Extract,
    pub paths: SandboxPaths,
    /// What its Frama-C is started with.
    pub arguments: Vec<String>,
}

/// The id of a sandbox and what is put into it, or why none is set up, given the
/// reply that holds what was cut out.
pub open spec fn planned(
    reply: JsonView,
    given: Option<Seq<char>>,
    in_use: spec_fn(Seq<char>) -> bool,
    drawn: Seq<char>,
) -> Result<(Seq<char>, ExtractView), (McpErrorKind, Seq<char>)> {
    match extracted(reply) {
        Err(m) => Err((McpErrorKind::InternalError, m)),
        Ok(x) => match chosen_id(given, in_use, drawn) {
            Err(m) => Err((McpErrorKind::InvalidParams, m)),
            Ok(id) => Ok((id, x)),
        },
    }
}

/// The result is as planned: the files are those of the experiment, and its Frama-C
/// is started on them.
pub open spec fn follows_plan(
    r: Result<Setup, McpError>,
    plan: Result<(Seq<char>, ExtractView), (McpErrorKind, Seq<char>)>,
) -> bool {
    match plan {
        Ok(p) => r matches Ok(s) && s.experiment_id@ == p.0 && s.extract@ == p.1
            && process::are_paths_of(s.paths, p.0) && text::texts(s.arguments@)
            == process::sandbox_args(s.paths.file@, s.paths.socket@),
        Err(m) => r matches Err(e) && (e.kind, e.message@) == m,
    }
}

/// How a sandbox is set up, given the nanoseconds from which an id is drawn where
/// none is given.
pub fn plan_setup(
    reply: &Json,
    params: &CreateSandboxParams,
    sandboxes: &NameMap<SandboxState>,
    nanos: u32,
) -> (r: Result<Setup, McpError>)
    ensures
        follows_plan(
            r,
            planned(
                reply@,
                text::opt_string(params.experiment_id),
                |s: Seq<char>| sandboxes@.contains_key(s),
                acsl::hex_digits(nanos),
            ),
        ),
{
    match read_extract(reply) {
        Err(e) => Err(e),
        Ok(extract) => match choose_experiment_id(params, sandboxes, nanos) {
            Err(e) => Err(e),
            Ok(experiment_id) => {
                let paths = sandbox_paths(experiment_id.as_str());
                let arguments = sandbox_arguments(paths.file.as_str(), paths.socket.as_str());
                Ok(Setup { experiment_id, extract, paths, arguments })
            },
        },
    }
}

/// How a sandbox is set up. Where no id is given, one is drawn from the clock.
pub fn set_up(
    reply: &Json,
    params: &CreateSandboxParams,
    sandboxes: &NameMap<SandboxState>,
) -> (r: Result<Setup, McpError>)
    ensures
        exists|nanos: u32|
            nanos < 1_000_000_000 && follows_plan(
                r,
                planned(
                    reply@,
                    text::opt_string(params.experiment_id),
                    |s: Seq<char>| sandboxes@.contains_key(s),
                    #[trigger] acsl::hex_digits(nanos),
                ),
            ),
{
    let nanos: u32 = (clock_nanos() % 1_000_000_000) as u32;
    let r = plan_setup(reply, params, sandboxes, nanos);
    r
}

/// The marker of the first declaration of a function that has one, or the empty
/// text.
pub open spec fn declaration_of(funcs: Seq<JsonView>, function: Seq<char>) -> Seq<char>
    decreases funcs.len(),
{
    if funcs.len() == 0 {
        Seq::empty()
    } else if funcs[0].text_field("name"@) == Some(function) && funcs[0].text_field("decl"@) is Some {
        funcs[0].text_field("decl"@)->0
    } else {
        declaration_of(funcs.drop_first(), function)
    }
}

/// The marker of a function's declaration, among the functions of its sandbox.
pub fn find_declaration(funcs: &Vec<Json>, function: &str) -> (r: String)
    ensures
        r@ == declaration_of(json::json_views(funcs@), function@),
{
    let ghost views = json::json_views(funcs@);
    let mut i: usize = 0;
    assert(views.skip(0) =~= views);
    while i < funcs.len()
        invariant
            i <= funcs@.len(),
            views == json::json_views(funcs@),
            declaration_of(views, function@) == declaration_of(views.skip(i as int), function@),
        decreases funcs@.len() - i,
    {
        proof {
            assert(views.skip(i as int)[0] == funcs@[i as int]@);
            assert(views.skip(i as int).drop_first() =~= views.skip(i + 1));
        }
        match funcs[i].get_str("name") {
            Some(n) => if text::same_text(n.as_str(), function) {
                match funcs[i].get_str("decl") {
                    Some(d) => {
                        return d.clone();
                    },
                    None => {},
                }
            },
            None => {},
        }
        i = i + 1;
    }
    String::new()
}

/// Which statement of the program is which statement of the sandbox: the ids in
/// the program with those in the sandbox, in source order. Nothing is paired where
/// the two do not have the same number of statements.
pub open spec fn sid_pairs(program: Option<Seq<i64>>, sandbox: Seq<i64>) -> Seq<(i64, i64)> {
    match program {
        Some(p) if p.len() == sandbox.len() => Seq::new(p.len(), |i: int| (p[i], sandbox[i])),
        _ => Seq::empty(),
    }
}

/// Pairs the ids that the statements of a function have in the program with those
/// that they have in the sandbox.
pub fn pair_sids(program: &Option<Vec<i64>>, sandbox: &Vec<i64>) -> (r: Vec<(i64, i64)>)
    ensures
        r@ == sid_pairs(
            (match program {
                Some(v) => Some(v@),
                None => None,
            }),
            sandbox@,
        ),
{
    let mut r: Vec<(i64, i64)> = Vec::new();
    match program {
        Some(p) => if p.len() == sandbox.len() {
            let mut i: usize = 0;
            while i < p.len()
                invariant
                    i <= p@.len(),
                    p@.len() == sandbox@.len(),
                    r@ =~= Seq::new(i as nat, |j: int| (p@[j], sandbox@[j])),
                decreases p@.len() - i,
            {
                r.push((p[i], sandbox[i]));
                i = i + 1;
            }
        },
        None => {},
    }
    assert(r@ =~= sid_pairs(
        (match program {
            Some(v) => Some(v@),
            None => None,
        }),
        sandbox@,
    ));
    r
}

/// What a value says, where there is one.
pub open spec fn opt_json(v: Option<Json>) -> Option<JsonView> {
    match v {
        Some(x) => Some(x@),
        None => None,
    }
}

/// The ids that the statements of a function have in the sandbox, given what its
/// Frama-C says of the function's AST.
pub open spec fn sandbox_sids(ast: Option<JsonView>) -> Seq<i64> {
    match ast {
        Some(a) => inject::statement_sids(a),
        None => Seq::empty(),
    }
}

/// A sandbox as it is registered.
pub open spec fn is_record(
    s: SandboxState,
    experiment_id: Seq<char>,
    function: Seq<char>,
    paths: SandboxPaths,
    sandbox_pid: u32,
    sid_map: Seq<(i64, i64)>,
    declaration_marker: Seq<char>,
) -> bool {
    &&& s.experiment_id@ == experiment_id
    &&& s.original_function@ == function
    &&& s.sandbox_dir == paths.dir
    &&& s.sandbox_socket == paths.socket
    &&& s.sandbox_pid == sandbox_pid
    &&& s.sid_map@ == sid_map
    &&& s.declaration_marker@ == declaration_marker
}

/// Registers a sandbox under its experiment.
pub fn register_sandbox(
    sandboxes: &mut NameMap<SandboxState>,
    experiment_id: &str,
    function: &str,
    paths: SandboxPaths,
    sandbox_pid: u32,
    sid_map: Vec<(i64, i64)>,
    declaration_marker: String,
)
    ensures
        exists|s: SandboxState| #[trigger]
            is_record(
                s,
                experiment_id@,
                function@,
                paths,
                sandbox_pid,
                sid_map@,
                declaration_marker@,
            ) && final(sandboxes)@ == old(sandboxes)@.insert(experiment_id@, s),
{
    let s = SandboxState {
        experiment_id: experiment_id.to_owned(),
        original_function: function.to_owned(),
        sandbox_dir: paths.dir,
        sandbox_socket: paths.socket,
        sandbox_pid,
        sid_map,
        declaration_marker,
    };
    assert(is_record(
        s,
        experiment_id@,
        function@,
        paths,
        sandbox_pid,
        sid_map@,
        declaration_marker@,
    ));
    sandboxes.insert(experiment_id.to_owned(), s);
}

/// Statement ids as a value.
pub open spec fn sid_list(sids: Seq<i64>) -> JsonView {
    JsonView::List(sids.map_values(|n: i64| json::whole(n as int)))
}

/// Pairs of statement ids as a value: each is a list of two.
pub open spec fn sid_pair_list(pairs: Seq<(i64, i64)>) -> JsonView {
    JsonView::List(pairs.map_values(|p: (i64, i64)| sid_list(seq![p.0, p.1])))
}

fn sids_as_json(sids: &Vec<i64>) -> (r: Json)
    ensures
        r@ == sid_list(sids@),
{
    let mut r: Vec<Json> = Vec::new();
    let mut i: usize = 0;
    while i < sids.len()
        invariant
            i <= sids@.len(),
            r@.len() == i,
            forall|j: int| 0 <= j < i ==> (#[trigger] r@[j])@ == json::whole(sids@[j] as int),
        decreases sids@.len() - i,
    {
        r.push(Json::signed(sids[i]));
        i = i + 1;
    }
    assert(json::json_views(r@) =~= sids@.map_values(|n: i64| json::whole(n as int)));
    Json::list(r)
}

fn sid_pairs_as_json(pairs: &Vec<(i64, i64)>) -> (r: Json)
    ensures
        r@ == sid_pair_list(pairs@),
{
    let mut r: Vec<Json> = Vec::new();
    let mut i: usize = 0;
    while i < pairs.len()
        invariant
            i <= pairs@.len(),
            r@.len() == i,
            forall|j: int|
                0 <= j < i ==> (#[trigger] r@[j])@ == sid_list(seq![pairs@[j].0, pairs@[j].1]),
        decreases pairs@.len() - i,
    {
        let pair: Vec<i64> = vec![pairs[i].0, pairs[i].1];
        assert(pair@ =~= seq![pairs@[i as int].0, pairs@[i as int].1]);
        r.push(sids_as_json(&pair));
        i = i + 1;
    }
    assert(json::json_views(r@) =~= pairs@.map_values(
        |p: (i64, i64)| sid_list(seq![p.0, p.1]),
    ));
    Json::list(r)
}

/// What is said of a sandbox that was created: its name, its experiment, and the
/// statements of its function: how many they are, their ids in the program, and
/// which id each has in the sandbox.
pub open spec fn created_body(
    experiment_id: Seq<char>,
    function: Seq<char>,
    extract: ExtractView,
    sid_map: Seq<(i64, i64)>,
) -> JsonView {
    json::no_fields().with(
        "sandbox_name"@,
        JsonView::Text(routing::sandbox_name(experiment_id, function)),
    ).with("experiment_id"@, JsonView::Text(experiment_id)).with(
        "ast_stmt_count"@,
        match extract.ast_stmt_count {
            Some(n) => json::whole(n as int),
            None => JsonView::Null,
        },
    ).with(
        "sids"@,
        match extract.sids {
            Some(l) => sid_list(l),
            None => JsonView::Null,
        },
    ).with("sid_map"@, sid_pair_list(sid_map))
}

/// What is said of a sandbox that was created.
pub fn created_report(
    experiment_id: &str,
    function: &str,
    extract: &Extract,
    sid_map: &Vec<(i64, i64)>,
) -> (r: Json)
    ensures
        r@ == created_body(experiment_id@, function@, extract@, sid_map@),
{
    let name = experiment_id.to_owned().concat(":").concat(function);
    let count = match extract.ast_stmt_count {
        Some(n) => Json::unsigned(n as u64),
        None => Json::Null,
    };
    let sids = match &extract.sids {
        Some(v) => sids_as_json(v),
        None => Json::Null,
    };
    Json::object().with("sandbox_name", Json::Text(name)).with(
        "experiment_id",
        Json::text(experiment_id),
    ).with("ast_stmt_count", count).with("sids", sids).with("sid_map", sid_pairs_as_json(sid_map))
}

/// Ends the creation of a sandbox whose Frama-C runs, given the functions that it
/// knows and what it says of the function's AST: the sandbox is registered, and the
/// conclusion of its function says so.
pub fn sandbox_created(
    session: &mut SessionState,
    sandboxes: &mut NameMap<SandboxState>,
    function: &str,
    setup: Setup,
    sandbox_pid: u32,
    funcs: &Vec<Json>,
    ast: &Option<Json>,
) -> (r: Json)
    ensures
        ({
            let sid_map = sid_pairs(setup.extract@.sids, sandbox_sids(opt_json(*ast)));
            &&& r@ == created_body(setup.experiment_id@, function@, setup.extract@, sid_map)
            &&& exists|s: SandboxState| #[trigger]
                is_record(
                    s,
                    setup.experiment_id@,
                    function@,
                    setup.paths,
                    sandbox_pid,
                    sid_map,
                    declaration_of(json::json_views(funcs@), function@),
                ) && final(sandboxes)@ == old(sandboxes)@.insert(setup.experiment_id@, s)
        }),
        old(session).notes_sandbox(function@, setup.extract.ast_stmt_count, *final(session)),
{
    let marker = find_declaration(funcs, function);
    let mut sids: Vec<i64> = Vec::new();
    match ast {
        Some(a) => inject::collect_statement_sids(a, &mut sids),
        None => {},
    }
    assert(sids@ =~= sandbox_sids(opt_json(*ast)));
    let sid_map = pair_sids(&setup.extract.sids, &sids);
    session.on_sandbox_created(function, setup.extract.ast_stmt_count);
    let r = created_report(setup.experiment_id.as_str(), function, &setup.extract, &sid_map);
    register_sandbox(
        sandboxes,
        setup.experiment_id.as_str(),
        function,
        setup.paths,
        sandbox_pid,
        sid_map,
        marker,
    );
    r
}

/// Each statement that the program lists for a function is paired with one of the
/// sandbox, where both list equally many: the mapping says for the statement in
/// place `i` of the program that it is the one in place `i` of the sandbox.
pub proof fn every_statement_is_mapped(program: Seq<i64>, sandbox: Seq<i64>)
    requires
        program.len() == sandbox.len(),
    ensures
        ({
            let pairs = sid_pairs(Some(program), sandbox);
            &&& pairs.map_values(|p: (i64, i64)| p.0) == program
            &&& pairs.map_values(|p: (i64, i64)| p.1) == sandbox
        }),
{
    let pairs = sid_pairs(Some(program), sandbox);
    assert(pairs.map_values(|p: (i64, i64)| p.0) =~= program);
    assert(pairs.map_values(|p: (i64, i64)| p.1) =~= sandbox);
}

// ----------------------------------------------------------------------------
// Reset and deletion
// ----------------------------------------------------------------------------

/// The experiment to create anew, and its function, or an error where it has no
/// sandbox.
pub fn reset_target(sandboxes: &NameMap<SandboxState>, sandbox_name: &str) -> (r: Result<
    CreateSandboxParams,
    McpError,
>)
    ensures
        ({
            let id = routing::experiment_of(sandbox_name@);
            if sandboxes@.contains_key(id) {
                r matches Ok(p) && p.function@ == sandboxes@[id].original_function@
                    && text::opt_string(p.experiment_id) == Some(id)
            } else {
                r matches Err(e) && e.kind == McpErrorKind::InvalidParams && e.message@
                    == "sandbox '"@ + id
                    + "' not found — already deleted (perhaps prior reset_sandbox failed mid-way). Call create_sandbox(function=<func>, experiment_id=\""@
                    + id + "\") to recreate fresh."@
            }
        }),
{
    let id = experiment_id_of(sandbox_name);
    match sandboxes.get(id.as_str()) {
        Some(s) => {
            let function = s.original_function.clone();
            Ok(CreateSandboxParams { function, experiment_id: Some(id) })
        },
        None => Err(
            invalid_params(
                "sandbox '".to_owned().concat(id.as_str()).concat(
                    "' not found — already deleted (perhaps prior reset_sandbox failed mid-way). Call create_sandbox(function=<func>, experiment_id=\"",
                ).concat(id.as_str()).concat("\") to recreate fresh."),
            ),
        ),
    }
}

/// The error where a sandbox was deleted to be created anew, and could not be.
pub fn recreate_failed(experiment_id: &str, function: &str, cause: &str) -> (r: McpError)
    ensures
        r.kind == McpErrorKind::InternalError,
        r.message@ == "reset_sandbox: sandbox '"@ + experiment_id@ + "' (function '"@ + function@
            + "') was deleted (cleanup step OK), but recreate step FAILED: "@ + cause@
            + ". The sandbox is now in DELETED state — to recover, call create_sandbox(function=\""@
            + function@ + "\", experiment_id=\""@ + experiment_id@
            + "\") explicitly. Retrying reset_sandbox will fail with 'sandbox not found'."@,
{
    internal_error(
        "reset_sandbox: sandbox '".to_owned().concat(experiment_id).concat(
            "' (function '",
        ).concat(function).concat(
            "') was deleted (cleanup step OK), but recreate step FAILED: ",
        ).concat(cause).concat(
            ". The sandbox is now in DELETED state — to recover, call create_sandbox(function=\"",
        ).concat(function).concat("\", experiment_id=\"").concat(experiment_id).concat(
            "\") explicitly. Retrying reset_sandbox will fail with 'sandbox not found'.",
        ),
    )
}

/// Takes the sandbox of an experiment out of the register, where it is in it.
pub fn remove_sandbox(sandboxes: &mut NameMap<SandboxState>, sandbox_name: &str) -> (r: Option<
    SandboxState,
>)
    ensures
        final(sandboxes)@ == old(sandboxes)@.remove(routing::experiment_of(sandbox_name@)),
        match r {
            Some(s) => old(sandboxes)@.contains_key(routing::experiment_of(sandbox_name@)) && s
                == old(sandboxes)@[routing::experiment_of(sandbox_name@)],
            None => !old(sandboxes)@.contains_key(routing::experiment_of(sandbox_name@)),
        },
{
    let id = experiment_id_of(sandbox_name);
    sandboxes.take(id.as_str())
}

/// What is said of a sandbox that was deleted, or was not there.
pub fn deleted_report() -> (r: Json)
    ensures
        r@ == json::no_fields().with("success"@, JsonView::Bool(true)),
{
    Json::object().with("success", Json::Bool(true))
}

/// The conclusions and the register once a sandbox was deleted, or was not there.
pub open spec fn deleted(
    conclusions: Map<Seq<char>, FunctionVerificationState>,
    sandboxes: Map<Seq<char>, SandboxState>,
    sandbox_name: Seq<char>,
) -> (Map<Seq<char>, FunctionVerificationState>, Map<Seq<char>, SandboxState>) {
    let id = routing::experiment_of(sandbox_name);
    if sandboxes.contains_key(id) {
        (
            state::deletion_noted(conclusions, sandboxes[id].original_function@),
            sandboxes.remove(id),
        )
    } else {
        (conclusions, sandboxes)
    }
}

/// Deletes the sandbox of an experiment, where it has one, and gives it out: its
/// process is to be ended, and its files are to be removed.
pub fn delete_sandbox(
    session: &mut SessionState,
    sandboxes: &mut NameMap<SandboxState>,
    sandbox_name: &str,
) -> (r: Option<SandboxState>)
    ensures
        (final(session).conclusions@, final(sandboxes)@) == deleted(
            old(session).conclusions@,
            old(sandboxes)@,
            sandbox_name@,
        ),
        *final(session) == (SessionState {
            conclusions: final(session).conclusions,
            ..*old(session)
        }),
        ({
            let id = routing::experiment_of(sandbox_name@);
            match r {
                Some(s) => old(sandboxes)@.contains_key(id) && s == old(sandboxes)@[id],
                None => !old(sandboxes)@.contains_key(id),
            }
        }),
{
    let r = remove_sandbox(sandboxes, sandbox_name);
    match &r {
        Some(s) => session.on_sandbox_deleted(s.original_function.as_str()),
        None => {
            assert(sandboxes@ =~= old(sandboxes)@);
        },
    }
    r
}

/// Deleting a sandbox twice is the same as deleting it once, and it is gone.
pub proof fn deletion_is_idempotent(
    conclusions: Map<Seq<char>, FunctionVerificationState>,
    sandboxes: Map<Seq<char>, SandboxState>,
    sandbox_name: Seq<char>,
)
    ensures
        ({
            let once = deleted(conclusions, sandboxes, sandbox_name);
            &&& deleted(once.0, once.1, sandbox_name) == once
            &&& !once.1.contains_key(routing::experiment_of(sandbox_name))
        }),
{
}

/// An id, given or drawn, is refused exactly when it is in use: no sandbox is ever
/// put in the place of another.
pub proof fn chosen_id_is_new(
    given: Option<Seq<char>>,
    sandboxes: Map<Seq<char>, SandboxState>,
    drawn: Seq<char>,
)
    ensures
        ({
            let r = chosen_id(given, |s: Seq<char>| sandboxes.contains_key(s), drawn);
            &&& r is Err <==> sandboxes.contains_key(wanted_id(given, drawn))
            &&& r matches Ok(id) ==> id == wanted_id(given, drawn) && !sandboxes.contains_key(id)
        }),
{
}

proof fn lemma_hex_is_trimmed(nanos: u32)
    ensures
        acsl::hex_digits(nanos).len() > 0,
        text::trimmed(acsl::hex_digits(nanos)) == acsl::hex_digits(nanos),
{
    lemma_hex(nanos as nat, 8);
    let digits = codec::hex(nanos as nat, 8);
    let h = acsl::hex_digits(nanos);
    assert(h.len() == digits.len());
    assert(h[0] == digits[0] as char && h.last() == digits.last() as char);
    assert(text::trim_start(h) == h);
    assert(text::trim_end(h) == h);
}

proof fn lemma_hex(n: nat, width: nat)
    ensures
        codec::hex(n, width).len() >= width,
        forall|i: int|
            0 <= i < codec::hex(n, width).len() ==> 48 <= #[trigger] codec::hex(n, width)[i] <= 102,
    decreases n, width,
{
    if n != 0 || width != 0 {
        lemma_hex(
            n / 16,
            if width == 0 {
                0
            } else {
                (width - 1) as nat
            },
        );
    }
}

/// A sandbox that is reset keeps its experiment: its name leads to the experiment's
/// id, and once the old sandbox is gone, the same id is chosen again. This needs an
/// id without a colon.
pub proof fn reset_keeps_the_experiment(
    given: Option<Seq<char>>,
    in_use: spec_fn(Seq<char>) -> bool,
    nanos: u32,
    function: Seq<char>,
    sandboxes: Map<Seq<char>, SandboxState>,
    drawn: Seq<char>,
)
    requires
        chosen_id(given, in_use, acsl::hex_digits(nanos)) matches Ok(id) && !id.contains(':'),
    ensures
        ({
            let id = chosen_id(given, in_use, acsl::hex_digits(nanos))->Ok_0;
            &&& routing::experiment_of(routing::sandbox_name(id, function)) == id
            &&& chosen_id(
                Some(id),
                |s: Seq<char>| sandboxes.remove(id).contains_key(s),
                drawn,
            ) == Ok::<Seq<char>, Seq<char>>(id)
        }),
{
    let id = chosen_id(given, in_use, acsl::hex_digits(nanos))->Ok_0;
    routing::sandbox_name_leads_back(id, function);
    lemma_hex_is_trimmed(nanos);
    match given {
        Some(s) => {
            text::lemma_trimmed(s);
        },
        None => {},
    }
}

} // verus!
