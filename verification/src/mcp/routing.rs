//! Where a call goes, and what keeps it from going there.
//!
//! A function is named plainly on the main instance of Frama-C, and with the
//! experiment in front, as in `exp42:foo`, in a sandbox. Each tool serves one of
//! the two, and refuses names of the other.

use vstd::prelude::*;
use vstd::string::*;

use crate::error::{McpError, McpErrorKind};
use crate::json;
use crate::json::{Json, JsonView};
use crate::mcp::param_compat::invalid_params;
use crate::mcp::types::{PrintSourceParams, ReloadProjectParams, RunWpParams};
use crate::state::SessionState;
use crate::text;

verus! {

/// A call is let through, or refused for bad parameters with a message.
pub open spec fn lets_through(r: Result<(), McpError>, refusal: Option<Seq<char>>) -> bool {
    match refusal {
        None => r is Ok,
        Some(m) => r matches Err(e) && e.kind == McpErrorKind::InvalidParams && e.message@ == m,
    }
}

/// Lets a call through, or refuses it with the message.
fn refuse(refusal: Option<String>) -> (r: Result<(), McpError>)
    ensures
        match refusal {
            None => r is Ok,
            Some(m) => r matches Err(e) && e.kind == McpErrorKind::InvalidParams && e.message
                == m,
        },
{
    match refusal {
        None => Ok(()),
        Some(m) => Err(invalid_params(m)),
    }
}

/// Where a function is to be found.
pub enum Place {
    /// On the main instance.
    Main { function: String },
    /// In the sandbox of an experiment.
    Sandbox { experiment_id: String, function: String },
}

/// Where a function is to be found.
pub enum PlaceView {
    Main { function: Seq<char> },
    Sandbox { experiment_id: Seq<char>, function: Seq<char> },
}

impl View for Place {
    type V = PlaceView;

    open spec fn view(&self) -> PlaceView {
        match self {
            Place::Main { function } => PlaceView::Main { function: function@ },
            Place::Sandbox { experiment_id, function } => PlaceView::Sandbox {
                experiment_id: experiment_id@,
                function: function@,
            },
        }
    }
}

/// The name has an experiment in front.
pub open spec fn names_sandbox(function: Seq<char>) -> bool {
    function.contains(':')
}

/// The place that a name stands for: what is before the first colon is the
/// experiment, the rest is the function.
pub open spec fn place(function: Seq<char>) -> PlaceView {
    match text::split_at_first(function, ':') {
        Some(p) => PlaceView::Sandbox { experiment_id: p.0, function: p.1 },
        None => PlaceView::Main { function },
    }
}

/// The place that a name stands for.
pub fn resolve_place(function: &str) -> (r: Place)
    ensures
        r@ == place(function@),
{
    match text::split_once(function, ':') {
        Some((experiment_id, function)) => Place::Sandbox { experiment_id, function },
        None => Place::Main { function: function.to_owned() },
    }
}

/// Exactly the names with a colon stand for a sandbox.
pub proof fn colon_names_a_sandbox(function: Seq<char>)
    ensures
        place(function) is Sandbox <==> names_sandbox(function),
{
    text::lemma_split_where_contained(function, ':');
}

/// The name of a function in a sandbox.
pub open spec fn sandbox_name(experiment_id: Seq<char>, function: Seq<char>) -> Seq<char> {
    experiment_id + ":"@ + function
}

/// The name that a sandbox is given leads back to it, where the experiment itself
/// has no colon.
pub proof fn sandbox_name_leads_back(experiment_id: Seq<char>, function: Seq<char>)
    requires
        !experiment_id.contains(':'),
    ensures
        place(sandbox_name(experiment_id, function)) == (PlaceView::Sandbox {
            experiment_id,
            function,
        }),
        experiment_of(sandbox_name(experiment_id, function)) == experiment_id,
{
    reveal_strlit(":");
    let s = sandbox_name(experiment_id, function);
    let n = experiment_id.len() as int;
    text::lemma_place_of(s, ':', 0);
    let i = text::place_of(s, ':', 0);
    assert(s[n] == ':');
    assert forall|j: int| 0 <= j < n implies s[j] != ':' by {
        assert(s[j] == experiment_id[j]);
        assert(experiment_id.contains(experiment_id[j]));
    }
    assert(i == n);
    assert(s.take(n) =~= experiment_id);
    assert(s.skip(n + 1) =~= function);
}

/// The experiment in front of a sandbox name, or the whole name where it has no
/// colon.
pub open spec fn experiment_of(name: Seq<char>) -> Seq<char> {
    match text::split_at_first(name, ':') {
        Some(p) => p.0,
        None => name,
    }
}

/// The experiment that a sandbox name stands for.
pub fn experiment_id_of(name: &str) -> (r: String)
    ensures
        r@ == experiment_of(name@),
{
    match text::split_once(name, ':') {
        Some((experiment_id, _)) => experiment_id,
        None => name.to_owned(),
    }
}

/// The part of a sandbox name between its first colon and the next, the name of
/// the function whose conclusion follows the sandbox.
pub open spec fn recorded_function(name: Seq<char>) -> Seq<char> {
    match text::split_at_first(name, ':') {
        Some(p) => experiment_of(p.1),
        None => Seq::empty(),
    }
}

/// The function whose conclusion follows what is done under a sandbox name.
pub fn function_of_sandbox(name: &str) -> (r: String)
    ensures
        r@ == recorded_function(name@),
{
    match text::split_once(name, ':') {
        Some((_, function)) => experiment_id_of(function.as_str()),
        None => String::new(),
    }
}

/// What is answered where no project is loaded.
pub open spec fn no_project_body() -> JsonView {
    json::no_fields().with("error"@, JsonView::Text("NoProjectLoaded"@)).with(
        "message"@,
        JsonView::Text(
            "No project loaded. Call reload_project(files=[...]) first to spawn main frama-c."@,
        ),
    ).with(
        "suggestion"@,
        json::no_fields().with("tool"@, JsonView::Text("reload_project"@)).with(
            "args_example"@,
            json::no_fields().with("files"@, json::text_list(seq!["/path/to/source.c"@])),
        ),
    )
}

/// The error for a call that needs a project where none is loaded. Its message is
/// a JSON text that says what to call first.
pub fn no_project_loaded_err() -> (r: McpError)
    ensures
        r.kind == McpErrorKind::InvalidParams,
        r.message@ == json::json_pretty_text(no_project_body()),
{
    let mut files: Vec<String> = Vec::new();
    files.push("/path/to/source.c".to_owned());
    proof {
        assert(text::texts(files@) =~= seq!["/path/to/source.c"@]);
    }
    let example = Json::object().with("files", Json::texts(files.as_slice()));
    let suggestion = Json::object().with("tool", Json::text("reload_project")).with(
        "args_example",
        example,
    );
    let body = Json::object().with("error", Json::text("NoProjectLoaded")).with(
        "message",
        Json::text(
            "No project loaded. Call reload_project(files=[...]) first to spawn main frama-c.",
        ),
    ).with("suggestion", suggestion);
    invalid_params(body.to_pretty_text())
}

/// What is answered where a sandbox is missing.
pub open spec fn no_sandbox_body(
    experiment_id: Seq<char>,
    existing: Seq<Seq<char>>,
) -> JsonView {
    json::no_fields().with("error"@, JsonView::Text("SandboxNotFound"@)).with(
        "message"@,
        JsonView::Text(
            "Sandbox '"@ + experiment_id
                + "' missing. Call create_sandbox(function=..., experiment_id='"@ + experiment_id
                + "') first."@,
        ),
    ).with(
        "suggestion"@,
        json::no_fields().with("tool"@, JsonView::Text("create_sandbox"@)).with(
            "args_example"@,
            json::no_fields().with("function"@, JsonView::Text("<func_name>"@)).with(
                "experiment_id"@,
                JsonView::Text(experiment_id),
            ),
        ),
    ).with("existing_sandboxes"@, json::text_list(existing))
}

/// The error for a call that needs a sandbox which is not there. Its message is a
/// JSON text that says what to call first, and which sandboxes there are.
pub fn sandbox_not_found_err(experiment_id: &str, existing: &[String]) -> (r: McpError)
    ensures
        r.kind == McpErrorKind::InvalidParams,
        r.message@ == json::json_pretty_text(
            no_sandbox_body(experiment_id@, text::texts(existing@)),
        ),
{
    let message = "Sandbox '".to_owned().concat(experiment_id).concat(
        "' missing. Call create_sandbox(function=..., experiment_id='",
    ).concat(experiment_id).concat("') first.");
    let example = Json::object().with("function", Json::text("<func_name>")).with(
        "experiment_id",
        Json::text(experiment_id),
    );
    let suggestion = Json::object().with("tool", Json::text("create_sandbox")).with(
        "args_example",
        example,
    );
    let body = Json::object().with("error", Json::text("SandboxNotFound")).with(
        "message",
        Json::Text(message),
    ).with("suggestion", suggestion).with("existing_sandboxes", Json::texts(existing));
    invalid_params(body.to_pretty_text())
}

/// A call to the main instance goes through where there is one.
pub fn require_client(connected: bool) -> (r: Result<(), McpError>)
    ensures
        lets_through(
            r,
            (if connected {
                None
            } else {
                Some(json::json_pretty_text(no_project_body()))
            }),
        ),
{
    if connected {
        Ok(())
    } else {
        Err(no_project_loaded_err())
    }
}

/// A call that needs a project goes through where one is loaded.
pub fn require_project_loaded(state: &SessionState) -> (r: Result<(), McpError>)
    ensures
        lets_through(
            r,
            (if state.project_loaded {
                None
            } else {
                Some(json::json_pretty_text(no_project_body()))
            }),
        ),
{
    require_client(state.project_loaded)
}

/// A call to a sandbox goes through where it exists.
pub fn require_sandbox(experiment_id: &str, existing: &[String]) -> (r: Result<(), McpError>)
    ensures
        lets_through(
            r,
            (if text::texts(existing@).contains(experiment_id@) {
                None
            } else {
                Some(
                    json::json_pretty_text(
                        no_sandbox_body(experiment_id@, text::texts(existing@)),
                    ),
                )
            }),
        ),
{
    let ghost names = text::texts(existing@);
    let mut i: usize = 0;
    while i < existing.len()
        invariant
            i <= existing@.len(),
            names == text::texts(existing@),
            forall|j: int| 0 <= j < i ==> #[trigger] names[j] != experiment_id@,
        decreases existing@.len() - i,
    {
        assert(names[i as int] == existing@[i as int]@);
        if text::same_text(existing[i].as_str(), experiment_id) {
            return Ok(());
        }
        i = i + 1;
    }
    Err(sandbox_not_found_err(experiment_id, existing))
}

/// The first of the names that stands for a sandbox (or, for `false`, that does
/// not).
pub open spec fn first_name(names: Seq<Seq<char>>, sandbox: bool) -> Option<Seq<char>>
    decreases names.len(),
{
    if names.len() == 0 {
        None
    } else if names_sandbox(names[0]) == sandbox {
        Some(names[0])
    } else {
        first_name(names.drop_first(), sandbox)
    }
}

fn find_name(names: &[String], sandbox: bool) -> (r: Option<String>)
    ensures
        match first_name(text::texts(names@), sandbox) {
            Some(n) => r matches Some(s) && s@ == n,
            None => r is None,
        },
{
    let ghost all = text::texts(names@);
    let mut i: usize = 0;
    assert(all.skip(0) =~= all);
    while i < names.len()
        invariant
            i <= names@.len(),
            all == text::texts(names@),
            first_name(all, sandbox) == first_name(all.skip(i as int), sandbox),
        decreases names@.len() - i,
    {
        let ghost rest = all.skip(i as int);
        assert(rest[0] == names@[i as int]@);
        assert(rest.drop_first() =~= all.skip(i + 1));
        if text::has_char(names[i].as_str(), ':') == sandbox {
            return Some(names[i].clone());
        }
        i = i + 1;
    }
    None
}

/// Why a proof in a sandbox is refused: at least one function must be named, and
/// each in a sandbox.
pub open spec fn wp_sandbox_refusal(functions: Option<Seq<Seq<char>>>) -> Option<Seq<char>> {
    match functions {
        Some(names) if names.len() > 0 => match first_name(names, false) {
            Some(name) => Some(
                "function '"@ + name
                    + "' must include experiment_id prefix (e.g. 'exp42:foo'); use run_wp_main for main instance"@,
            ),
            None => None,
        },
        _ => Some(
            "functions required for run_wp_sandbox (must include experiment_id prefix, e.g. 'exp42:foo')"@,
        ),
    }
}

/// The names in a list of functions, where one is given.
pub open spec fn given_names(functions: Option<Vec<String>>) -> Option<Seq<Seq<char>>> {
    match functions {
        Some(v) => Some(text::texts(v@)),
        None => None,
    }
}

/// Whether a proof in a sandbox may start, and the function whose sandbox it starts
/// in: the first that is named.
pub fn check_wp_sandbox(params: &RunWpParams) -> (r: Result<String, McpError>)
    ensures
        match wp_sandbox_refusal(given_names(params.functions)) {
            Some(m) => r matches Err(e) && e.kind == McpErrorKind::InvalidParams && e.message@ == m,
            None => r matches Ok(name) && given_names(params.functions) matches Some(names)
                && names.len() > 0 && name@ == names[0],
        },
{
    match &params.functions {
        Some(names) if names.len() > 0 => match find_name(names.as_slice(), false) {
            Some(name) => Err(
                invalid_params(
                    "function '".to_owned().concat(name.as_str()).concat(
                        "' must include experiment_id prefix (e.g. 'exp42:foo'); use run_wp_main for main instance",
                    ),
                ),
            ),
            None => Ok(names[0].clone()),
        },
        _ => Err(
            invalid_params(
                "functions required for run_wp_sandbox (must include experiment_id prefix, e.g. 'exp42:foo')".to_owned(),
            ),
        ),
    }
}

/// Why a proof on the main instance is refused: a function in a sandbox is named,
/// or the project is locked.
pub open spec fn wp_main_refusal(
    functions: Option<Seq<Seq<char>>>,
    locked: bool,
) -> Option<Seq<char>> {
    match functions {
        Some(names) if first_name(names, true) is Some => Some(
            "function '"@ + first_name(names, true)->0
                + "' must not include ':'; use run_wp_sandbox for sandbox operations"@,
        ),
        _ => if locked {
            Some(
                "Project is locked. run_wp_main is blocked during Phase 2 to prevent state pollution. If you are in verify-function, use run_wp_sandbox. Do NOT touch the main Frama-C instance. Call unlock_project first if this is Phase 3 final gate."@,
            )
        } else {
            None
        },
    }
}

/// Whether a proof on the main instance may start.
pub fn check_wp_main(params: &RunWpParams, locked: bool) -> (r: Result<(), McpError>)
    ensures
        lets_through(r, wp_main_refusal(given_names(params.functions), locked)),
{
    match &params.functions {
        Some(names) => match find_name(names.as_slice(), true) {
            Some(name) => {
                return refuse(
                    Some(
                        "function '".to_owned().concat(name.as_str()).concat(
                            "' must not include ':'; use run_wp_sandbox for sandbox operations",
                        ),
                    ),
                );
            },
            None => {},
        },
        None => {},
    }
    if locked {
        refuse(
            Some(
                "Project is locked. run_wp_main is blocked during Phase 2 to prevent state pollution. If you are in verify-function, use run_wp_sandbox. Do NOT touch the main Frama-C instance. Call unlock_project first if this is Phase 3 final gate.".to_owned(),
            ),
        )
    } else {
        Ok(())
    }
}

/// Why a clause for a sandbox is refused.
pub open spec fn add_sandbox_refusal(function: Seq<char>) -> Option<Seq<char>> {
    if names_sandbox(function) {
        None
    } else {
        Some(
            "function '"@ + function
                + "' must include experiment_id prefix (e.g. 'exp42:foo'); use add_annotation_main for main instance"@,
        )
    }
}

/// Whether a clause may be added in a sandbox.
pub fn check_add_sandbox(function: &str) -> (r: Result<(), McpError>)
    ensures
        lets_through(r, add_sandbox_refusal(function@)),
{
    if text::has_char(function, ':') {
        Ok(())
    } else {
        refuse(
            Some(
                "function '".to_owned().concat(function).concat(
                    "' must include experiment_id prefix (e.g. 'exp42:foo'); use add_annotation_main for main instance",
                ),
            ),
        )
    }
}

/// Why a clause for the main instance is refused.
pub open spec fn add_main_refusal(function: Seq<char>) -> Option<Seq<char>> {
    if names_sandbox(function) {
        Some(
            "function '"@ + function
                + "' must not include ':'; use add_annotation_sandbox for sandbox operations"@,
        )
    } else {
        None
    }
}

/// Whether a clause may be added on the main instance.
pub fn check_add_main(function: &str) -> (r: Result<(), McpError>)
    ensures
        lets_through(r, add_main_refusal(function@)),
{
    if text::has_char(function, ':') {
        refuse(
            Some(
                "function '".to_owned().concat(function).concat(
                    "' must not include ':'; use add_annotation_sandbox for sandbox operations",
                ),
            ),
        )
    } else {
        Ok(())
    }
}

/// The experiment whose source is printed, or why the call is refused: a sandbox
/// must be named, with its experiment, and exist.
pub open spec fn print_sandbox(
    name: Option<Seq<char>>,
    existing: Seq<Seq<char>>,
) -> Result<Seq<char>, Seq<char>> {
    match name {
        None => Err(
            "sandbox_name is required for print_source_sandbox (must include experiment_id, e.g. 'exp42:foo'); use print_source_main for main instance"@,
        ),
        Some(n) => if !names_sandbox(n) {
            Err(
                "sandbox_name '"@ + n
                    + "' must include experiment_id prefix (e.g. 'exp42:foo'); use print_source_main for main instance"@,
            )
        } else if existing.contains(experiment_of(n)) {
            Ok(experiment_of(n))
        } else {
            Err("sandbox '"@ + experiment_of(n) + "' not found"@)
        },
    }
}

/// The experiment whose source is printed.
pub fn print_source_sandbox(params: &PrintSourceParams, existing: &[String]) -> (r: Result<
    String,
    McpError,
>)
    ensures
        match print_sandbox(text::opt_string(params.sandbox_name), text::texts(existing@)) {
            Ok(id) => r matches Ok(s) && s@ == id,
            Err(m) => r matches Err(e) && e.kind == McpErrorKind::InvalidParams && e.message@ == m,
        },
{
    match &params.sandbox_name {
        None => Err(
            invalid_params(
                "sandbox_name is required for print_source_sandbox (must include experiment_id, e.g. 'exp42:foo'); use print_source_main for main instance".to_owned(),
            ),
        ),
        Some(n) => if !text::has_char(n.as_str(), ':') {
            Err(
                invalid_params(
                    "sandbox_name '".to_owned().concat(n.as_str()).concat(
                        "' must include experiment_id prefix (e.g. 'exp42:foo'); use print_source_main for main instance",
                    ),
                ),
            )
        } else {
            let id = experiment_id_of(n.as_str());
            match require_sandbox(id.as_str(), existing) {
                Ok(_) => Ok(id),
                Err(_) => Err(
                    invalid_params(
                        "sandbox '".to_owned().concat(id.as_str()).concat("' not found"),
                    ),
                ),
            }
        },
    }
}

/// Why the source of the main instance is not printed: a sandbox is named.
pub open spec fn print_main_refusal(name: Option<Seq<char>>) -> Option<Seq<char>> {
    match name {
        Some(n) => Some(
            "sandbox_name '"@ + n
                + "' provided but print_source_main targets the main instance; use print_source_sandbox for sandbox operations"@,
        ),
        None => None,
    }
}

/// Whether the source of the main instance is printed.
pub fn check_print_main(params: &PrintSourceParams) -> (r: Result<(), McpError>)
    ensures
        lets_through(r, print_main_refusal(text::opt_string(params.sandbox_name))),
{
    match &params.sandbox_name {
        Some(n) => refuse(
            Some(
                "sandbox_name '".to_owned().concat(n.as_str()).concat(
                    "' provided but print_source_main targets the main instance; use print_source_sandbox for sandbox operations",
                ),
            ),
        ),
        None => Ok(()),
    }
}

/// No name is served by both the sandbox tools and the main tools, and each name
/// by one of them.
pub proof fn each_name_has_one_tool(function: Seq<char>)
    ensures
        add_sandbox_refusal(function) is None <==> add_main_refusal(function) is Some,
        wp_sandbox_refusal(Some(seq![function])) is None <==> wp_main_refusal(
            Some(seq![function]),
            false,
        ) is Some,
{
    let one = seq![function];
    assert(one[0] == function);
    assert(one.drop_first() =~= Seq::<Seq<char>>::empty());
    reveal_with_fuel(first_name, 2);
}

/// A locked project keeps every proof and every reload away from the main
/// instance, and no proof of functions in a sandbox away from it.
pub proof fn lock_blocks_main_only(functions: Option<Seq<Seq<char>>>, connected: bool)
    ensures
        wp_main_refusal(functions, true) is Some,
        reload_plan(functions, connected, true) is Err,
        functions is Some && functions->0.len() > 0 && first_name(functions->0, false) is None
            ==> wp_sandbox_refusal(functions) is None,
{
}

/// Where the list of files to load comes from.
pub enum Files {
    /// The call gives it.
    Given(Vec<String>),
    /// It is asked for, from the running Frama-C.
    Current,
}

/// The files that a call to reload gives, or `None` where they are to be asked
/// for; or why the call is refused.
pub open spec fn reload_plan(
    files: Option<Seq<Seq<char>>>,
    connected: bool,
    locked: bool,
) -> Result<Option<Seq<Seq<char>>>, Seq<char>> {
    if locked {
        Err(
            "Project is locked. reload_project is blocked during Phase 2 to prevent annotation loss. If you are in verify-function, do NOT call reload_project — use create_sandbox/reset_sandbox instead. Only verify-program should call unlock_project for Phase 3 final gate."@,
        )
    } else {
        match files {
            Some(f) => Ok(Some(f)),
            None => if connected {
                Ok(None)
            } else {
                Err(
                    "reload_project called without files= and no project loaded; pass files=[\"...\"]"@,
                )
            },
        }
    }
}

/// Whether run-time-error annotations are wanted; not by default.
pub fn wants_rte(params: &ReloadProjectParams) -> (r: bool)
    ensures
        r == (params.rte == Some(true)),
{
    match params.rte {
        Some(b) => b,
        None => false,
    }
}

/// Where the files to load come from: the call, or else the running Frama-C.
pub fn files_to_load(params: ReloadProjectParams, connected: bool, locked: bool) -> (r: Result<
    Files,
    McpError,
>)
    ensures
        match reload_plan(given_names(params.files), connected, locked) {
            Ok(Some(f)) => r matches Ok(Files::Given(v)) && text::texts(v@) == f,
            Ok(None) => r matches Ok(Files::Current),
            Err(m) => r matches Err(e) && e.kind == McpErrorKind::InvalidParams && e.message@ == m,
        },
{
    if locked {
        return Err(
            invalid_params(
                "Project is locked. reload_project is blocked during Phase 2 to prevent annotation loss. If you are in verify-function, do NOT call reload_project — use create_sandbox/reset_sandbox instead. Only verify-program should call unlock_project for Phase 3 final gate.".to_owned(),
            ),
        );
    }
    match params.files {
        Some(f) => Ok(Files::Given(f)),
        None => if connected {
            Ok(Files::Current)
        } else {
            Err(
                invalid_params(
                    "reload_project called without files= and no project loaded; pass files=[\"...\"]".to_owned(),
                ),
            )
        },
    }
}

/// The files in the reply of a running Frama-C; none where it is no list.
pub open spec fn listed_files(reply: JsonView) -> Seq<Seq<char>> {
    match reply.list() {
        Some(items) => json::texts_in(items),
        None => Seq::empty(),
    }
}

/// The files that a running Frama-C says it has loaded.
pub fn current_files(reply: &Json) -> (r: Vec<String>)
    ensures
        text::texts(r@) == listed_files(reply@),
{
    match reply.as_array() {
        Some(items) => json::texts_of(items),
        None => {
            let r: Vec<String> = Vec::new();
            assert(text::texts(r@) =~= Seq::<Seq<char>>::empty());
            r
        },
    }
}

} // verus!
