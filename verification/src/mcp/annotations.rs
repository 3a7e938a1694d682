//! Requests about one function: its clauses, its syntax tree, its source.

use vstd::prelude::*;
use vstd::string::*;
use vstd::utf8::*;

use crate::error::{McpError, McpErrorKind};
use crate::json;
use crate::json::{Json, JsonView};
use crate::mcp::acsl;
use crate::mcp::acsl::{full_label, generate_hash_label};
use crate::mcp::process::internal_error;
use crate::mcp::request;
use crate::mcp::request::{Request, RequestView};
use crate::mcp::routing;
use crate::mcp::routing::{Place, PlaceView, function_of_sandbox, resolve_place};
use crate::mcp::types::{AddAnnotationParams, ValidateAcslParams};
use crate::names::NameMap;
use crate::state;
use crate::state::{SandboxState, SessionState};
use crate::text;

verus! {

/// The data with the statement that a clause belongs to, where it belongs to one.
pub open spec fn with_stmt(data: JsonView, stmt: Option<i64>) -> JsonView {
    match stmt {
        Some(n) => data.with("stmt"@, json::whole(n as int)),
        None => data,
    }
}

fn put_stmt(data: Json, stmt: Option<i64>) -> (r: Json)
    ensures
        r@ == with_stmt(data@, stmt),
{
    match stmt {
        Some(n) => data.with("stmt", Json::signed(n)),
        None => data,
    }
}

/// The request that checks a clause without adding it.
pub fn validate_request(function: &str, params: &ValidateAcslParams) -> (r: Request)
    ensures
        r@ == request::to_get(
            "plugins.ast-utils.getAcslValidation"@,
            with_stmt(
                json::no_fields().with("function"@, JsonView::Text(function@)).with(
                    "kind"@,
                    JsonView::Text(params.kind@),
                ).with("acsl"@, JsonView::Text(params.acsl@)),
                params.stmt,
            ),
        ),
{
    let data = Json::object().with("function", Json::text(function)).with(
        "kind",
        Json::text(params.kind.as_str()),
    ).with("acsl", Json::text(params.acsl.as_str()));
    Request::get("plugins.ast-utils.getAcslValidation", put_stmt(data, params.stmt))
}

/// The request that adds a clause under a label.
pub open spec fn add_request_of(
    function: Seq<char>,
    kind: Seq<char>,
    acsl: Seq<char>,
    stmt: Option<i64>,
    label: Seq<char>,
) -> RequestView {
    request::to_exec(
        "plugins.ast-utils.execAddAnnotation"@,
        with_stmt(
            json::no_fields().with("function"@, JsonView::Text(function)).with(
                "kind"@,
                JsonView::Text(kind),
            ).with("acsl"@, JsonView::Text(acsl)).with("label"@, JsonView::Text(label)),
            stmt,
        ),
        30,
    )
}

/// The request that adds a clause under the given hash label: to the function of
/// the given name, under the full label.
pub fn labelled_add_request(function: &str, params: &AddAnnotationParams, hash_label: &str) -> (r:
    Request)
    ensures
        r@ == add_request_of(
            function@,
            params.kind@,
            params.acsl@,
            params.stmt,
            acsl::full_label_text(hash_label@, text::opt_string(params.user_label)),
        ),
{
    let label = full_label(hash_label, text::opt_str(&params.user_label));
    let data = Json::object().with("function", Json::text(function)).with(
        "kind",
        Json::text(params.kind.as_str()),
    ).with("acsl", Json::text(params.acsl.as_str())).with("label", Json::Text(label));
    Request::exec("plugins.ast-utils.execAddAnnotation", put_stmt(data, params.stmt), 30)
}

/// The request that adds a clause, and the hash label that was drawn for it.
pub fn add_annotation(function: &str, params: &AddAnnotationParams) -> (r: (Request, String))
    ensures
        exists|hash: u32|
            {
                &&& r.1@ == #[trigger] acsl::hash_label_text(params.kind@, hash)
                &&& r.0@ == add_request_of(
                    function@,
                    params.kind@,
                    params.acsl@,
                    params.stmt,
                    acsl::full_label_text(
                        acsl::hash_label_text(params.kind@, hash),
                        text::opt_string(params.user_label),
                    ),
                )
            },
{
    let hash_label = generate_hash_label(params.kind.as_str());
    let r = labelled_add_request(function, params, hash_label.as_str());
    (r, hash_label)
}

/// The reply on a clause that was to be added, with its hash label.
pub fn add_reply(reply: Json, hash_label: &str) -> (r: Json)
    ensures
        r@ == reply@.with("hash_label"@, JsonView::Text(hash_label@)),
{
    reply.with("hash_label", Json::text(hash_label))
}

/// The label of a clause in the program starts with the hash label that is
/// returned, whatever label the caller gives besides.
pub proof fn hash_label_leads_the_label(hash_label: Seq<char>, user_label: Option<Seq<char>>)
    ensures
        text::begins_with(acsl::full_label_text(hash_label, user_label), hash_label),
{
    let full = acsl::full_label_text(hash_label, user_label);
    assert(full.subrange(0, hash_label.len() as int) =~= hash_label);
}

/// Notes that a clause was added under the name of a sandbox, and gives the function
/// whose conclusion follows. A name without a function changes nothing.
pub fn clause_added(session: &mut SessionState, sandbox_name: &str) -> (r: Option<String>)
    ensures
        ({
            let function = routing::recorded_function(sandbox_name@);
            if function.len() == 0 {
                r is None && *final(session) == *old(session)
            } else {
                &&& r matches Some(f) && f@ == function
                &&& final(session).conclusions@ == state::clause_noted(
                    old(session).conclusions@,
                    function,
                )
                &&& *final(session) == (SessionState {
                    conclusions: final(session).conclusions,
                    ..*old(session)
                })
            }
        }),
{
    let function = function_of_sandbox(sandbox_name);
    if function.as_str().is_empty() {
        None
    } else {
        session.on_annotation_added(function.as_str());
        Some(function)
    }
}

/// Notes that clauses were added to the function of a sandbox, and gives the function
/// whose conclusion follows. However many there were, they count as one. What is
/// added on the main instance, or to a sandbox that is gone, is not noted.
pub fn clauses_injected(
    session: &mut SessionState,
    sandboxes: &NameMap<SandboxState>,
    target: &str,
) -> (r: Option<String>)
    ensures
        match routing::place(target@) {
            PlaceView::Sandbox { experiment_id, .. } if sandboxes@.contains_key(experiment_id) => {
                let function = sandboxes@[experiment_id].original_function@;
                &&& r matches Some(f) && f@ == function
                &&& final(session).conclusions@ == state::clause_noted(
                    old(session).conclusions@,
                    function,
                )
                &&& *final(session) == (SessionState {
                    conclusions: final(session).conclusions,
                    ..*old(session)
                })
            },
            _ => r is None && *final(session) == *old(session),
        },
{
    match resolve_place(target) {
        Place::Main { .. } => None,
        Place::Sandbox { experiment_id, .. } => match sandboxes.get(experiment_id.as_str()) {
            Some(s) => {
                session.on_annotation_added(s.original_function.as_str());
                Some(s.original_function.clone())
            },
            None => None,
        },
    }
}

/// The request for the clauses that a function already has.
pub fn existing_clauses_request(function: &str) -> (r: Request)
    ensures
        r@ == request::to_get(
            "kernel.properties.fetchStatus"@,
            json::no_fields().with("function"@, JsonView::Text(function@)),
        ),
{
    Request::get(
        "kernel.properties.fetchStatus",
        Json::object().with("function", Json::text(function)),
    )
}

/// The request for the verification conditions of a function.
pub fn vc_details_request(function: &str) -> (r: Request)
    ensures
        r@ == request::to_get(
            "plugins.ast-utils.getVcDetails"@,
            json::no_fields().with("function"@, JsonView::Text(function@)),
        ),
{
    Request::get(
        "plugins.ast-utils.getVcDetails",
        Json::object().with("function", Json::text(function)),
    )
}

/// The request for the clauses that were added to a function.
pub fn extract_annotations_request(function: &str) -> (r: Request)
    ensures
        r@ == request::to_get(
            "plugins.ast-utils.execExtractAnnotations"@,
            JsonView::Text(function@),
        ),
{
    Request::get("plugins.ast-utils.execExtractAnnotations", Json::text(function))
}

/// The request for the syntax tree of a function.
pub fn function_ast_request(function: &str) -> (r: Request)
    ensures
        r@ == request::to_get("plugins.ast-utils.getFunctionAst"@, JsonView::Text(function@)),
{
    Request::get("plugins.ast-utils.getFunctionAst", Json::text(function))
}

/// The request for the callers of a function, by its declaration.
pub fn find_callers_request(declaration: &str) -> (r: Request)
    ensures
        r@ == request::to_get("plugins.eva.general.getCallers"@, JsonView::Text(declaration@)),
{
    Request::get("plugins.eva.general.getCallers", Json::text(declaration))
}

/// The request for the files that are loaded.
pub fn list_files_request() -> (r: Request)
    ensures
        r@ == request::to_get("kernel.ast.getFiles"@, JsonView::Null),
{
    Request::get("kernel.ast.getFiles", Json::Null)
}

/// The request for the types of the program.
pub fn list_declarations_request() -> (r: Request)
    ensures
        r@ == request::to_get("kernel.ast.getDeclarations"@, JsonView::Null),
{
    Request::get("kernel.ast.getDeclarations", Json::Null)
}

/// What is said of the types: the reply, or that Frama-C does not offer them.
pub fn declarations_report(reply: Option<Json>) -> (r: Result<Json, McpError>)
    ensures
        match reply {
            Some(j) => r matches Ok(x) && x@ == j@,
            None => r matches Err(e) && e.kind == McpErrorKind::InternalError && e.message@
                == "kernel.ast.getDeclarations not available in this Frama-C version"@,
        },
{
    match reply {
        Some(j) => Ok(j),
        None => Err(
            internal_error(
                "kernel.ast.getDeclarations not available in this Frama-C version".to_owned(),
            ),
        ),
    }
}

/// The request for the source of the program.
pub fn print_source_request() -> (r: Request)
    ensures
        r@ == request::to_get("plugins.ast-utils.printSource"@, JsonView::Text(""@)),
{
    Request::get("plugins.ast-utils.printSource", Json::text(""))
}

/// The source in a reply; the empty text where it is none.
pub fn source_text(reply: &Json) -> (r: String)
    ensures
        r@ == (match reply@.text() {
            Some(s) => s,
            None => Seq::empty(),
        }),
{
    match reply.as_str() {
        Some(s) => s.clone(),
        None => String::new(),
    }
}

/// What is said of source that was written to a file: where, and how many bytes.
pub fn written_report(path: &str, source: &str) -> (r: String)
    ensures
        r@ == "{\"written\": \""@ + path@ + "\", \"bytes\": "@ + text::decimal(
            encode_utf8(source@).len(),
        ) + "}"@,
{
    let bytes = source.as_bytes();
    "{\"written\": \"".to_owned().concat(path).concat("\", \"bytes\": ").concat(
        text::decimal_text(bytes.len() as u64).as_str(),
    ).concat("}")
}

} // verus!
