//! Which calls are let through, where they go, and what is sent for them.

use vstd::prelude::*;

use crate::frama_c::client::Waiting;
use crate::frama_c::codec::CommandView;
use crate::json;
use crate::json::{JsonView, NumberView};
use crate::mcp::annotations;
use crate::mcp::process;
use crate::mcp::process::Launch;
use crate::mcp::request;
use crate::mcp::routing;
use crate::mcp::routing::PlaceView;
use crate::mcp::sandbox;
use crate::text;

verus! {

/// A colon stands in the name.
pub open spec fn has_colon(name: Seq<char>) -> bool {
    exists|i: int| 0 <= i < name.len() && #[trigger] name[i] == ':'
}

// ── Names ───────────────────────────────────────────────────────────────

/// A name without a colon is that of a function of the main instance; one with a
/// colon is that of the function behind its first colon, in the sandbox of the
/// experiment before it.
pub proof fn first_colon_parts_the_name(experiment: Seq<char>, function: Seq<char>)
    requires
        !has_colon(experiment),
    ensures
        routing::place(experiment) == (PlaceView::Main { function: experiment }),
        routing::place(experiment + ":"@ + function) == (PlaceView::Sandbox {
            experiment_id: experiment,
            function,
        }),
        routing::experiment_of(experiment) == experiment,
        routing::experiment_of(experiment + ":"@ + function) == experiment,
        !has_colon(function) ==> routing::recorded_function(experiment + ":"@ + function)
            == function,
        routing::recorded_function(experiment) == Seq::<char>::empty(),
{
    assert(!experiment.contains(':'));
    routing::sandbox_name_leads_back(experiment, function);
    text::lemma_split_where_contained(experiment, ':');
    if !has_colon(function) {
        text::lemma_split_where_contained(function, ':');
    }
}

/// A clause for a sandbox is refused exactly where the name has no colon, and one for
/// the main instance exactly where it has one.
pub proof fn clauses_are_refused_by_name(function: Seq<char>)
    ensures
        routing::add_sandbox_refusal(function) is None <==> has_colon(function),
        routing::add_main_refusal(function) is None <==> !has_colon(function),
{
    if has_colon(function) {
        let i = choose|i: int| 0 <= i < function.len() && #[trigger] function[i] == ':';
        assert(function.contains(':'));
    }
}

proof fn lemma_first_name(names: Seq<Seq<char>>, sandbox: bool)
    ensures
        routing::first_name(names, sandbox) is None <==> forall|i: int|
            0 <= i < names.len() ==> has_colon(#[trigger] names[i]) != sandbox,
        routing::first_name(names, sandbox) matches Some(n) ==> exists|i: int|
            0 <= i < names.len() && #[trigger] names[i] == n,
    decreases names.len(),
{
    if names.len() > 0 {
        let rest = names.drop_first();
        lemma_first_name(rest, sandbox);
        clauses_are_refused_by_name(names[0]);
        assert(routing::names_sandbox(names[0]) <==> has_colon(names[0]));
        if routing::names_sandbox(names[0]) == sandbox {
            assert(has_colon(names[0]) == sandbox);
        } else {
            if forall|i: int| 0 <= i < rest.len() ==> has_colon(#[trigger] rest[i]) != sandbox {
                assert forall|i: int| 0 <= i < names.len() implies has_colon(#[trigger] names[i])
                    != sandbox by {
                    if i > 0 {
                        assert(rest[i - 1] == names[i]);
                    }
                }
            }
            if forall|i: int| 0 <= i < names.len() ==> has_colon(#[trigger] names[i]) != sandbox {
                assert forall|i: int| 0 <= i < rest.len() implies has_colon(#[trigger] rest[i])
                    != sandbox by {
                    assert(names[i + 1] == rest[i]);
                }
            }
            match routing::first_name(rest, sandbox) {
                Some(n) => {
                    let i = choose|i: int| 0 <= i < rest.len() && #[trigger] rest[i] == n;
                    assert(names[i + 1] == n);
                },
                None => {},
            }
        }
    }
}

/// A proof in a sandbox may start exactly where functions are named, and each with a
/// colon. One on the main instance may start exactly where the project is not locked
/// and no function is named with a colon; all functions are proved where none is
/// named.
pub proof fn proofs_start_where_names_fit(functions: Option<Seq<Seq<char>>>, locked: bool)
    ensures
        routing::wp_sandbox_refusal(functions) is None <==> {
            &&& functions is Some
            &&& functions->0.len() > 0
            &&& forall|i: int| 0 <= i < functions->0.len() ==> has_colon(#[trigger] functions->0[i])
        },
        routing::wp_main_refusal(functions, locked) is None <==> {
            &&& !locked
            &&& functions matches Some(names) ==> forall|i: int|
                0 <= i < names.len() ==> !has_colon(#[trigger] names[i])
        },
{
    match functions {
        Some(names) => {
            lemma_first_name(names, false);
            lemma_first_name(names, true);
        },
        None => {},
    }
}

/// A locked project is not loaded anew. Else the files that are given are loaded; or
/// those that are loaded already, where there is a Frama-C to ask.
pub proof fn reload_takes_the_given_files(
    files: Option<Seq<Seq<char>>>,
    connected: bool,
    locked: bool,
)
    ensures
        locked ==> routing::reload_plan(files, connected, locked) is Err,
        !locked && files is Some ==> routing::reload_plan(files, connected, locked) == Ok::<
            Option<Seq<Seq<char>>>,
            Seq<char>,
        >(files),
        !locked && files is None && connected ==> routing::reload_plan(files, connected, locked)
            == Ok::<Option<Seq<Seq<char>>>, Seq<char>>(None),
        !locked && files is None && !connected ==> routing::reload_plan(
            files,
            connected,
            locked,
        ) is Err,
{
}

/// The source of a sandbox is printed exactly where it is named with a colon and its
/// experiment is there; that of the main instance exactly where no sandbox is named.
pub proof fn sources_are_printed_by_name(
    experiment: Seq<char>,
    function: Seq<char>,
    existing: Seq<Seq<char>>,
)
    requires
        !has_colon(experiment),
    ensures
        routing::print_sandbox(Some(experiment + ":"@ + function), existing) is Ok
            <==> existing.contains(experiment),
        existing.contains(experiment) ==> routing::print_sandbox(
            Some(experiment + ":"@ + function),
            existing,
        ) == Ok::<Seq<char>, Seq<char>>(experiment),
        routing::print_sandbox(Some(experiment), existing) is Err,
        routing::print_sandbox(None, existing) is Err,
        routing::print_main_refusal(None) is None,
        routing::print_main_refusal(Some(experiment)) is Some,
{
    reveal_strlit(":");
    first_colon_parts_the_name(experiment, function);
    let s = experiment + ":"@ + function;
    assert(s[experiment.len() as int] == ':');
    assert(s.contains(':'));
    assert(!experiment.contains(':'));
}

// ── Starting Frama-C ────────────────────────────────────────────────────

/// Files are loaded into the Frama-C that runs exactly where one runs with the wanted
/// setting; else one is started.
pub proof fn running_instance_is_used_where_it_fits(setting: Option<bool>, with_rte: bool)
    ensures
        process::launch(setting, with_rte) == Launch::InPlace <==> (setting is Some && setting->0
            == with_rte),
        process::launch(setting, with_rte) == Launch::Spawn <==> setting != Some(with_rte),
{
}

/// The argument stands in the list, with the value right behind it.
pub open spec fn is_set(args: Seq<Seq<char>>, name: Seq<char>, value: Seq<char>) -> bool {
    exists|i: int| 0 <= i < args.len() - 1 && #[trigger] args[i] == name && args[i + 1] == value
}

/// The main instance is started on the files, in their order, and listens at the
/// socket. It generates run-time-error annotations exactly where this is asked for.
#[verifier::rlimit(40)]
pub proof fn main_instance_gets_files_and_socket(
    files: Seq<Seq<char>>,
    socket: Seq<char>,
    rte: bool,
)
    requires
        !files.contains("-rte"@),
        socket != "-rte"@,
    ensures
        files.is_prefix_of(process::main_args(files, socket, rte)),
        is_set(process::main_args(files, socket, rte), "-server-socket"@, socket),
        is_set(process::main_args(files, socket, rte), "-wp-model"@, "Typed+nocast"@),
        is_set(process::main_args(files, socket, rte), "-load-module"@, "ast_utils_plugin"@),
        process::main_args(files, socket, rte).contains("-rte"@) <==> rte,
{
    reveal_strlit("-rte");
    reveal_strlit("-load-module");
    reveal_strlit("ast_utils_plugin");
    reveal_strlit("-server-socket");
    reveal_strlit("-wp-prover");
    reveal_strlit("Alt-Ergo,CVC5,Z3");
    reveal_strlit("-wp-model");
    reveal_strlit("Typed+nocast");
    let args = process::main_args(files, socket, rte);
    let n = files.len() as int;
    assert(args.take(n) =~= files);
    assert(args[n] == "-load-module"@ && args[n + 1] == "ast_utils_plugin"@);
    assert(args[n + 2] == "-server-socket"@ && args[n + 3] == socket);
    assert(args[n + 4] == "-wp-prover"@ && args[n + 5] == "Alt-Ergo,CVC5,Z3"@);
    assert(args[n + 6] == "-wp-model"@ && args[n + 7] == "Typed+nocast"@);
    assert("-rte"@.len() == 4);
    if rte {
        assert(args[n + 8] == "-rte"@);
    } else if args.contains("-rte"@) {
        let i = args.index_of("-rte"@);
        if i < n {
            assert(files[i] == "-rte"@);
        }
        assert(i == n || i == n + 1 || i == n + 2 || i == n + 3 || i == n + 4 || i == n + 5 || i
            == n + 6 || i == n + 7);
    }
}

/// A sandbox is started on its file, listens at its socket, and keeps the functions
/// that look unused.
pub proof fn sandbox_gets_its_file_and_socket(file: Seq<char>, socket: Seq<char>)
    ensures
        process::sandbox_args(file, socket)[0] == file,
        is_set(process::sandbox_args(file, socket), "-server-socket"@, socket),
        is_set(process::sandbox_args(file, socket), "-keep-unused-functions"@, "all"@),
        is_set(process::sandbox_args(file, socket), "-wp-model"@, "Typed+nocast"@),
{
    let args = process::sandbox_args(file, socket);
    assert(args[1] == "-keep-unused-functions"@ && args[2] == "all"@);
    assert(args[4] == "-server-socket"@ && args[5] == socket);
    assert(args[8] == "-wp-model"@ && args[9] == "Typed+nocast"@);
}

/// The end of a log is its last twenty lines, or all where there are fewer.
pub proof fn log_ends_with_its_last_lines(log: Seq<char>)
    ensures
        ({
            let lines = text::lines_of(log);
            let from: int = if lines.len() > 20 {
                lines.len() - 20
            } else {
                0
            };
            process::log_tail(Some(log)) == text::joined(
                lines.subrange(from, lines.len() as int),
                "\n"@,
            )
        }),
{
    let lines = text::lines_of(log);
    if lines.len() > 20 {
        assert(lines.skip(lines.len() - 20) =~= lines.subrange(
            lines.len() - 20,
            lines.len() as int,
        ));
    } else {
        assert(lines.subrange(0, lines.len() as int) =~= lines);
    }
}

// ── Requests ────────────────────────────────────────────────────────────

/// A request is sent under its identifier, with its name and its data: asked for with
/// GET, set with SET, run with EXEC. A whole table is asked for page by page. What is
/// set or run is queued, and polled for; what is run has its own time.
pub proof fn request_is_sent_as_it_is(name: Seq<char>, data: JsonView, secs: u64, id: Seq<char>)
    ensures
        request::command_of(request::to_get(name, data), id) == (CommandView::Get {
            id,
            request: name,
            data,
        }),
        request::command_of(request::to_assign(name, data), id) == (CommandView::SetParam {
            id,
            request: name,
            data,
        }),
        request::command_of(request::to_exec(name, data, secs), id) == (CommandView::Exec {
            id,
            request: name,
            data,
        }),
        request::command_of(request::to_fetch(name), id) == (CommandView::Get {
            id,
            request: name,
            data: JsonView::Number(NumberView::Int(20000)),
        }),
        request::waiting_for(request::to_get(name, data).channel) == Waiting::Direct,
        request::waiting_for(request::to_fetch(name).channel) == Waiting::Direct,
        request::waiting_for(request::to_assign(name, data).channel) == Waiting::BeforePolling,
        request::waiting_for(request::to_exec(name, data, secs).channel) == Waiting::BeforePolling,
        request::time_limit(request::to_get(name, data).channel) == 10,
        request::time_limit(request::to_fetch(name).channel) == 10,
        request::time_limit(request::to_assign(name, data).channel) == 30,
        request::time_limit(request::to_exec(name, data, secs).channel) == secs,
{
}

/// The request for a clause holds the function, the kind, the clause and its label,
/// each under its name, and the statement where there is one.
pub proof fn clause_is_sent_whole(
    function: Seq<char>,
    kind: Seq<char>,
    clause: Seq<char>,
    stmt: Option<i64>,
    label: Seq<char>,
)
    ensures
        ({
            let r = annotations::add_request_of(function, kind, clause, stmt, label);
            &&& r.name == "plugins.ast-utils.execAddAnnotation"@
            &&& r.channel is Exec
            &&& r.data.at("function"@) == JsonView::Text(function)
            &&& r.data.at("kind"@) == JsonView::Text(kind)
            &&& r.data.at("acsl"@) == JsonView::Text(clause)
            &&& r.data.at("label"@) == JsonView::Text(label)
            &&& r.data.field("stmt"@) == match stmt {
                Some(n) => Some(JsonView::Number(NumberView::Int(n as int))),
                None => None,
            }
        }),
{
    reveal_strlit("function");
    reveal_strlit("kind");
    reveal_strlit("acsl");
    reveal_strlit("label");
    reveal_strlit("stmt");
    assert("function"@.len() == 8 && "label"@.len() == 5);
    assert("kind"@[0] != "acsl"@[0] && "kind"@[0] != "stmt"@[0] && "acsl"@[0] != "stmt"@[0]);
    let a = json::no_fields();
    json::set_field_reads_back(a, "function"@, JsonView::Text(function));
    let b = a.with("function"@, JsonView::Text(function));
    json::set_field_reads_back(b, "kind"@, JsonView::Text(kind));
    let c = b.with("kind"@, JsonView::Text(kind));
    json::set_field_reads_back(c, "acsl"@, JsonView::Text(clause));
    let d = c.with("acsl"@, JsonView::Text(clause));
    json::set_field_reads_back(d, "label"@, JsonView::Text(label));
    let e = d.with("label"@, JsonView::Text(label));
    assert(a.field("stmt"@) is None);
    assert(e.field("stmt"@) == d.field("stmt"@) && d.field("stmt"@) == c.field("stmt"@));
    assert(c.field("stmt"@) == b.field("stmt"@) && b.field("stmt"@) == a.field("stmt"@));
    assert(e.at("function"@) == d.at("function"@) && d.at("function"@) == c.at("function"@));
    assert(e.at("kind"@) == d.at("kind"@));
    match stmt {
        Some(n) => {
            json::set_field_reads_back(e, "stmt"@, json::whole(n as int));
        },
        None => {},
    }
}

// ── Sandboxes ───────────────────────────────────────────────────────────

/// One more sandbox may be made exactly where a project is loaded and there are fewer
/// than the limit.
pub proof fn sandboxes_are_made_up_to_the_limit(loaded: bool, count: nat, limit: usize)
    ensures
        sandbox::creation_refusal(loaded, count, limit) is None <==> loaded && count < limit,
{
}

/// What was cut out is taken from a reply that says it succeeded and has a source:
/// that source, the ids that it lists, and how many they are.
pub proof fn extract_is_taken_from_the_reply(reply: JsonView, source: Seq<char>)
    requires
        reply.at("success"@) == JsonView::Bool(true),
        reply.at("source"@) == JsonView::Text(source),
    ensures
        sandbox::extracted(reply) is Ok,
        sandbox::extracted(reply)->Ok_0.source == source,
        match reply.at("sids"@) {
            JsonView::List(l) => {
                let x = sandbox::extracted(reply)->Ok_0;
                &&& l.len() <= u32::MAX ==> x.ast_stmt_count == Some(l.len() as u32)
                &&& x.sids == Some(
                    l.filter(|v: JsonView| v.signed() is Some).map_values(
                        |v: JsonView| v.signed()->0 as i64,
                    ),
                )
            },
            _ => sandbox::extracted(reply)->Ok_0.ast_stmt_count is None && sandbox::extracted(
                reply,
            )->Ok_0.sids is None,
        },
{
    match reply.at("sids"@) {
        JsonView::List(l) => {
            lemma_numbers(l);
        },
        _ => {},
    }
}

proof fn lemma_numbers(items: Seq<JsonView>)
    ensures
        sandbox::numbers_in(items) == items.filter(|v: JsonView| v.signed() is Some).map_values(
            |v: JsonView| v.signed()->0 as i64,
        ),
    decreases items.len(),
{
    reveal(Seq::filter);
    let p = |v: JsonView| v.signed() is Some;
    let f = |v: JsonView| v.signed()->0 as i64;
    if items.len() > 0 {
        let rest = items.drop_last();
        lemma_numbers(rest);
        assert(rest.filter(p).push(items.last()).map_values(f) =~= rest.filter(p).map_values(f).push(
            f(items.last()),
        ));
    }
    assert(sandbox::numbers_in(items) =~= items.filter(p).map_values(f));
}

/// Nothing is taken from a reply that does not say that it succeeded, or that has no
/// source.
pub proof fn nothing_is_taken_from_a_failure(reply: JsonView)
    ensures
        sandbox::extracted(reply) is Ok <==> reply.at("success"@) == JsonView::Bool(true)
            && reply.at("source"@) is Text,
{
}

/// The declaration of a function is that of the first entry of its name that has one.
pub proof fn declaration_is_the_first(funcs: Seq<JsonView>, function: Seq<char>, i: int)
    requires
        0 <= i < funcs.len(),
        funcs[i].at("name"@) == JsonView::Text(function),
        funcs[i].at("decl"@) is Text,
        forall|j: int|
            0 <= j < i ==> (#[trigger] funcs[j]).at("name"@) != JsonView::Text(function)
                || !(funcs[j].at("decl"@) is Text),
    ensures
        JsonView::Text(sandbox::declaration_of(funcs, function)) == funcs[i].at("decl"@),
    decreases i,
{
    if i > 0 {
        let rest = funcs.drop_first();
        assert(funcs[0].at("name"@) != JsonView::Text(function) || !(funcs[0].at("decl"@) is Text));
        assert forall|j: int| 0 <= j < i - 1 implies (#[trigger] rest[j]).at("name"@)
            != JsonView::Text(function) || !(rest[j].at("decl"@) is Text) by {
            assert(rest[j] == funcs[j + 1]);
        }
        declaration_is_the_first(rest, function, i - 1);
    }
}

/// The answer to a new sandbox names it: its experiment, a colon and its function;
/// and it tells which statement is which.
#[verifier::rlimit(40)]
pub proof fn answer_names_the_sandbox(
    experiment: Seq<char>,
    function: Seq<char>,
    extract: sandbox::ExtractView,
    sid_map: Seq<(i64, i64)>,
    i: int,
)
    ensures
        ({
            let r = sandbox::created_body(experiment, function, extract, sid_map);
            &&& r.at("sandbox_name"@) == JsonView::Text(experiment + ":"@ + function)
            &&& r.at("experiment_id"@) == JsonView::Text(experiment)
            &&& r.at("ast_stmt_count"@) == match extract.ast_stmt_count {
                Some(n) => JsonView::Number(NumberView::Int(n as int)),
                None => JsonView::Null,
            }
            &&& r.at("sid_map"@) is List
            &&& r.at("sid_map"@)->List_0.len() == sid_map.len()
            &&& 0 <= i < sid_map.len() ==> r.at("sid_map"@)->List_0[i] == JsonView::List(
                seq![
                    JsonView::Number(NumberView::Int(sid_map[i].0 as int)),
                    JsonView::Number(NumberView::Int(sid_map[i].1 as int)),
                ],
            )
            &&& extract.sids matches Some(l) ==> r.at("sids"@) == JsonView::List(
                l.map_values(|n: i64| JsonView::Number(NumberView::Int(n as int))),
            )
        }),
{
    reveal_strlit("sandbox_name");
    reveal_strlit("experiment_id");
    reveal_strlit("ast_stmt_count");
    reveal_strlit("sids");
    reveal_strlit("sid_map");
    assert("sandbox_name"@.len() == 12 && "experiment_id"@.len() == 13 && "ast_stmt_count"@.len()
        == 14 && "sids"@.len() == 4 && "sid_map"@.len() == 7);
    let a = json::no_fields();
    let name = JsonView::Text(routing::sandbox_name(experiment, function));
    json::set_field_reads_back(a, "sandbox_name"@, name);
    let b = a.with("sandbox_name"@, name);
    json::set_field_reads_back(b, "experiment_id"@, JsonView::Text(experiment));
    let c = b.with("experiment_id"@, JsonView::Text(experiment));
    let count = match extract.ast_stmt_count {
        Some(n) => json::whole(n as int),
        None => JsonView::Null,
    };
    json::set_field_reads_back(c, "ast_stmt_count"@, count);
    let d = c.with("ast_stmt_count"@, count);
    let sids = match extract.sids {
        Some(l) => sandbox::sid_list(l),
        None => JsonView::Null,
    };
    json::set_field_reads_back(d, "sids"@, sids);
    let e = d.with("sids"@, sids);
    json::set_field_reads_back(e, "sid_map"@, sandbox::sid_pair_list(sid_map));
    let r = e.with("sid_map"@, sandbox::sid_pair_list(sid_map));
    assert(r.at("sandbox_name"@) == e.at("sandbox_name"@) && e.at("sandbox_name"@) == d.at(
        "sandbox_name"@,
    ) && d.at("sandbox_name"@) == c.at("sandbox_name"@));
    assert(r.at("experiment_id"@) == e.at("experiment_id"@) && e.at("experiment_id"@) == d.at(
        "experiment_id"@,
    ));
    assert(r.at("ast_stmt_count"@) == e.at("ast_stmt_count"@));
    assert(r.at("sids"@) == e.at("sids"@));
    if 0 <= i < sid_map.len() {
        let pair = r.at("sid_map"@)->List_0[i];
        assert(pair == sandbox::sid_list(seq![sid_map[i].0, sid_map[i].1]));
        assert(seq![sid_map[i].0, sid_map[i].1].map_values(|n: i64| json::whole(n as int)) =~= seq![
            JsonView::Number(NumberView::Int(sid_map[i].0 as int)),
            JsonView::Number(NumberView::Int(sid_map[i].1 as int)),
        ]);
    }
    match extract.sids {
        Some(l) => {
            assert(l.map_values(|n: i64| json::whole(n as int)) =~= l.map_values(
                |n: i64| JsonView::Number(NumberView::Int(n as int)),
            ));
        },
        None => {},
    }
}

/// A sandbox is set up exactly where something was cut out and its id is free: under
/// that id, with what was cut out. A failure to cut out comes first.
pub proof fn setup_takes_the_extract_and_a_free_id(
    reply: JsonView,
    given: Option<Seq<char>>,
    in_use: spec_fn(Seq<char>) -> bool,
    drawn: Seq<char>,
)
    ensures
        sandbox::planned(reply, given, in_use, drawn) is Ok <==> sandbox::extracted(reply) is Ok
            && !in_use(sandbox::wanted_id(given, drawn)),
        sandbox::planned(reply, given, in_use, drawn) matches Ok(p) ==> p.0 == sandbox::wanted_id(
            given,
            drawn,
        ) && sandbox::extracted(reply) == Ok::<sandbox::ExtractView, Seq<char>>(p.1),
        sandbox::extracted(reply) is Err ==> sandbox::planned(reply, given, in_use, drawn)->Err_0.0
            == crate::error::McpErrorKind::InternalError,
        given is None ==> sandbox::wanted_id(given, drawn) == drawn,
        given matches Some(s) ==> (text::trimmed(s).len() > 0 ==> sandbox::wanted_id(given, drawn)
            == text::trimmed(s)),
        given matches Some(s) ==> (text::is_blank(s) ==> sandbox::wanted_id(given, drawn) == drawn),
{
    match given {
        Some(s) => {
            text::trimming_takes_white_space_only(s);
            if text::is_blank(s) && text::trimmed(s).len() > 0 {
                let (a, b) = choose|a: Seq<char>, b: Seq<char>|
                    #![trigger text::is_blank(a), text::is_blank(b)]
                    text::is_blank(a) && text::is_blank(b) && s == a + text::trimmed(s) + b;
                assert(s[a.len() as int] == text::trimmed(s)[0]);
            }
        },
        None => {},
    }
}

/// The prover and the time limit are set exactly where they are given, the prover
/// first.
pub proof fn settings_are_sent_where_given(prover: Seq<char>, timeout: u32)
    ensures
        crate::mcp::wp::setting_requests(None, None).len() == 0,
        ({
            let r = crate::mcp::wp::setting_requests(Some(prover), Some(timeout));
            &&& r.len() == 2
            &&& r[0].name == "plugins.wp.setProvers"@
            &&& r[0].data == JsonView::List(seq![JsonView::Text(prover)])
            &&& r[1].name == "plugins.wp.setTimeout"@
            &&& r[1].data == JsonView::Number(NumberView::Int(timeout as int))
            &&& crate::mcp::wp::setting_requests(Some(prover), None) == seq![r[0]]
            &&& crate::mcp::wp::setting_requests(None, Some(timeout)) == seq![r[1]]
        }),
{
    let r = crate::mcp::wp::setting_requests(Some(prover), Some(timeout));
    assert(seq![prover].map_values(|s: Seq<char>| JsonView::Text(s)) =~= seq![
        JsonView::Text(prover),
    ]);
    assert(crate::mcp::wp::setting_requests(Some(prover), None) =~= seq![r[0]]);
    assert(crate::mcp::wp::setting_requests(None, Some(timeout)) =~= seq![r[1]]);
}

/// The record of a sandbox holds what it was made with: its experiment, its function,
/// its directory and its socket, its process, its statements and its declaration.
pub proof fn record_holds_what_was_given(
    s: crate::state::SandboxState,
    experiment: Seq<char>,
    function: Seq<char>,
    paths: process::SandboxPaths,
    pid: u32,
    sid_map: Seq<(i64, i64)>,
    declaration: Seq<char>,
)
    requires
        sandbox::is_record(s, experiment, function, paths, pid, sid_map, declaration),
    ensures
        s.experiment_id@ == experiment,
        s.original_function@ == function,
        s.sandbox_dir@ == paths.dir@,
        s.sandbox_socket@ == paths.socket@,
        s.sandbox_pid == pid,
        s.sid_map@ == sid_map,
        s.declaration_marker@ == declaration,
{
}

/// The files of an experiment stand in a directory of its own, under fixed names.
pub proof fn files_stand_in_their_directory(p: process::SandboxPaths, experiment: Seq<char>)
    requires
        process::are_paths_of(p, experiment),
        experiment.len() > 0,
        experiment.last() != '/',
    ensures
        p.dir@ == "/tmp/frama-c-sandbox-"@ + experiment,
        p.file@ == p.dir@ + "/sandbox.c"@,
        p.socket@ == p.dir@ + "/frama-c.sock"@,
        p.stdout_log@ == p.dir@ + "/sandbox.stdout.log"@,
        p.stderr_log@ == p.dir@ + "/sandbox.stderr.log"@,
{
    reveal_strlit("/tmp/frama-c-sandbox-");
    reveal_strlit("/");
    reveal_strlit("sandbox.c");
    reveal_strlit("/sandbox.c");
    reveal_strlit("frama-c.sock");
    reveal_strlit("/frama-c.sock");
    reveal_strlit("sandbox.stdout.log");
    reveal_strlit("/sandbox.stdout.log");
    reveal_strlit("sandbox.stderr.log");
    reveal_strlit("/sandbox.stderr.log");
    let dir = "/tmp/frama-c-sandbox-"@ + experiment;
    assert(dir.last() == experiment.last());
    assert(dir + "/"@ + "sandbox.c"@ =~= dir + "/sandbox.c"@);
    assert(dir + "/"@ + "frama-c.sock"@ =~= dir + "/frama-c.sock"@);
    assert(dir + "/"@ + "sandbox.stdout.log"@ =~= dir + "/sandbox.stdout.log"@);
    assert(dir + "/"@ + "sandbox.stderr.log"@ =~= dir + "/sandbox.stderr.log"@);
}

/// Deleting a sandbox takes it out of the register, and no other; the conclusion of its
/// function says that it is gone, and no other conclusion changes. Where there is no
/// such sandbox, nothing changes.
pub proof fn deletion_takes_one_sandbox(
    conclusions: Map<Seq<char>, crate::state::conclusion::FunctionVerificationState>,
    sandboxes: Map<Seq<char>, crate::state::SandboxState>,
    experiment: Seq<char>,
    rest: Seq<char>,
    other: Seq<char>,
    function: Seq<char>,
)
    requires
        !has_colon(experiment),
    ensures
        ({
            let r = sandbox::deleted(conclusions, sandboxes, experiment + ":"@ + rest);
            &&& !r.1.contains_key(experiment)
            &&& other != experiment ==> (r.1.contains_key(other) <==> sandboxes.contains_key(other))
            &&& other != experiment && sandboxes.contains_key(other) ==> r.1[other]
                == sandboxes[other]
            &&& r.0.dom() == conclusions.dom()
            &&& sandboxes.contains_key(experiment) && conclusions.contains_key(
                sandboxes[experiment].original_function@,
            ) ==> r.0[sandboxes[experiment].original_function@].sandbox_deleted
            &&& sandboxes.contains_key(experiment) && function
                != sandboxes[experiment].original_function@ && conclusions.contains_key(function)
                ==> r.0[function] == conclusions[function]
            &&& !sandboxes.contains_key(experiment) ==> r == (conclusions, sandboxes)
        }),
{
    first_colon_parts_the_name(experiment, rest);
    if sandboxes.contains_key(experiment) {
        crate::state::records::sandbox_events_touch_one_function(
            conclusions,
            sandboxes[experiment].original_function@,
            function,
        );
    }
}

/// A call is let through exactly where nothing speaks against it; else it is refused as
/// one with bad parameters, with the reason.
pub proof fn refusals_are_passed_on(
    r: Result<(), crate::error::McpError>,
    refusal: Option<Seq<char>>,
)
    requires
        routing::lets_through(r, refusal),
    ensures
        r is Ok <==> refusal is None,
        r matches Err(e) ==> e.kind == crate::error::McpErrorKind::InvalidParams && Some(e.message@)
            == refusal,
{
}

/// The setup follows the plan: its id, what was cut out, its own files, and a Frama-C
/// on its file and socket; or the error that was planned.
pub proof fn setup_follows_the_plan(
    r: Result<sandbox::Setup, crate::error::McpError>,
    plan: Result<
        (Seq<char>, sandbox::ExtractView),
        (crate::error::McpErrorKind, Seq<char>),
    >,
)
    requires
        sandbox::follows_plan(r, plan),
    ensures
        r is Ok <==> plan is Ok,
        r matches Ok(s) ==> s.experiment_id@ == plan->Ok_0.0 && s.extract@ == plan->Ok_0.1
            && s.paths.dir@ == "/tmp/frama-c-sandbox-"@ + plan->Ok_0.0 && text::texts(
            s.arguments@,
        )[0] == s.paths.file@ && is_set(
            text::texts(s.arguments@),
            "-server-socket"@,
            s.paths.socket@,
        ),
        r matches Err(e) ==> e.kind == plan->Err_0.0 && e.message@ == plan->Err_0.1,
{
    match r {
        Ok(s) => {
            sandbox_gets_its_file_and_socket(s.paths.file@, s.paths.socket@);
        },
        Err(_) => {},
    }
}

/// The files that are loaded are the texts of the reply, in their order.
pub proof fn loaded_files_are_those_of_the_reply(files: Seq<Seq<char>>, reply: JsonView)
    ensures
        routing::listed_files(JsonView::List(files.map_values(|s: Seq<char>| JsonView::Text(s))))
            == files,
        !(reply is List) ==> routing::listed_files(reply) == Seq::<Seq<char>>::empty(),
{
    lemma_texts(files);
}

proof fn lemma_texts(files: Seq<Seq<char>>)
    ensures
        json::texts_in(files.map_values(|s: Seq<char>| JsonView::Text(s))) == files,
    decreases files.len(),
{
    let f = |s: Seq<char>| JsonView::Text(s);
    let items = files.map_values(f);
    if files.len() > 0 {
        lemma_texts(files.drop_last());
        assert(items.drop_last() =~= files.drop_last().map_values(f));
        assert(items.last() == JsonView::Text(files.last()));
        assert(files.drop_last().push(files.last()) =~= files);
    } else {
        assert(json::texts_in(items) =~= files);
    }
}

/// A table is read from its start: it is reloaded, and then fetched whole.
pub proof fn tables_are_reloaded_and_fetched(reload: Seq<char>, fetch: Seq<char>)
    ensures
        ({
            let r = request::table_requests(reload, fetch);
            &&& r.len() == 2
            &&& r[0].name == reload && r[0].channel is Get
            &&& r[1].name == fetch && r[1].channel is FetchAll
        }),
{
}

} // verus!
