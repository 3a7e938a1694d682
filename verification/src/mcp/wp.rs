//! Proofs: what is set before them, what is asked for, and in which order.

use vstd::prelude::*;
use vstd::string::*;

use crate::error::{McpError, McpErrorKind};
use crate::json;
use crate::json::{Json, JsonView};
use crate::mcp::param_compat::invalid_params;
use crate::mcp::request;
use crate::mcp::request::{Request, RequestView, add_request};
use crate::mcp::types::RunWpParams;
use crate::state::SessionState;
use crate::text;

verus! {

/// The requests that set the prover and the time limit, where they are given.
pub open spec fn setting_requests(prover: Option<Seq<char>>, timeout: Option<u32>) -> Seq<
    RequestView,
> {
    let set_prover = match prover {
        Some(p) => seq![request::to_assign("plugins.wp.setProvers"@, json::text_list(seq![p]))],
        None => Seq::empty(),
    };
    let set_timeout = match timeout {
        Some(n) => seq![request::to_assign("plugins.wp.setTimeout"@, json::whole(n as int))],
        None => Seq::empty(),
    };
    set_prover + set_timeout
}

/// The requests that set the prover and the time limit.
pub fn wp_settings(params: &RunWpParams) -> (r: Vec<Request>)
    ensures
        request::request_views(r@) == setting_requests(
            text::opt_string(params.prover),
            params.timeout,
        ),
{
    let mut r: Vec<Request> = Vec::new();
    match &params.prover {
        Some(p) => {
            let mut provers: Vec<String> = Vec::new();
            provers.push(p.clone());
            assert(text::texts(provers@) =~= seq![p@]);
            add_request(
                &mut r,
                Request::assign("plugins.wp.setProvers", Json::texts(provers.as_slice())),
            );
        },
        None => {},
    }
    match params.timeout {
        Some(n) => add_request(
            &mut r,
            Request::assign("plugins.wp.setTimeout", Json::unsigned(n as u64)),
        ),
        None => {},
    }
    assert(request::request_views(r@) =~= setting_requests(
        text::opt_string(params.prover),
        params.timeout,
    ));
    r
}

/// The memory model: `Typed+nocast` where none is given.
pub open spec fn model_of(model: Option<Seq<char>>) -> Seq<char> {
    match model {
        Some(m) => m,
        None => "Typed+nocast"@,
    }
}

/// A memory model that can be chosen.
pub open spec fn is_model(model: Seq<char>) -> bool {
    model == "Bytes"@ || model == "Typed+nocast"@
}

/// The configuration of the proofs.
pub open spec fn config_body(model: Seq<char>, prop: Option<Seq<char>>) -> JsonView {
    let with_model = json::no_fields().with("model"@, JsonView::Text(model));
    match prop {
        Some(p) => with_model.with("prop"@, JsonView::Text(p)),
        None => with_model,
    }
}

/// Why a memory model is refused, on the main instance or in a sandbox.
pub open spec fn model_refusal(model: Seq<char>, main: bool) -> Seq<char> {
    if main {
        "invalid model '"@ + model + "', must be 'Bytes' or 'Typed+nocast'"@
    } else {
        "invalid model '"@ + model + "'"@
    }
}

/// The request that sets the memory model and the properties to prove.
pub fn wp_config(params: &RunWpParams, main: bool) -> (r: Result<Request, McpError>)
    ensures
        ({
            let model = model_of(text::opt_string(params.model));
            if is_model(model) {
                r matches Ok(q) && q@ == request::to_exec(
                    "plugins.ast-utils.execSetWpConfig"@,
                    config_body(model, text::opt_string(params.prop)),
                    10,
                )
            } else {
                r matches Err(e) && e.kind == McpErrorKind::InvalidParams && e.message@
                    == model_refusal(model, main)
            }
        }),
{
    let model: String = match &params.model {
        Some(m) => m.clone(),
        None => "Typed+nocast".to_owned(),
    };
    if text::same_text(model.as_str(), "Bytes") || text::same_text(model.as_str(), "Typed+nocast") {
        let with_model = Json::object().with("model", Json::Text(model));
        let config = match &params.prop {
            Some(p) => with_model.with("prop", Json::text(p.as_str())),
            None => with_model,
        };
        Ok(Request::exec("plugins.ast-utils.execSetWpConfig", config, 10))
    } else {
        let refused = "invalid model '".to_owned().concat(model.as_str());
        Err(
            invalid_params(
                if main {
                    refused.concat("', must be 'Bytes' or 'Typed+nocast'")
                } else {
                    refused.concat("'")
                },
            ),
        )
    }
}

/// The marker under which the proofs of a declaration are started.
pub open spec fn proof_marker(declaration: Seq<char>) -> Seq<char> {
    text::replaced(declaration, "#F"@, "#v"@)
}

/// The requests that prove the given declarations, in order: each is printed, so
/// that Frama-C knows its markers, then its proofs are started.
pub open spec fn proof_requests(declarations: Seq<Seq<char>>) -> Seq<RequestView>
    decreases declarations.len(),
{
    if declarations.len() == 0 {
        Seq::empty()
    } else {
        proof_requests(declarations.drop_last()) + seq![
            request::to_get(
                "kernel.ast.printDeclaration"@,
                JsonView::Text(declarations.last()),
            ),
            request::to_exec(
                "plugins.wp.startProofs"@,
                JsonView::Text(proof_marker(declarations.last())),
                600,
            ),
        ]
    }
}

/// The request for what became of the proofs.
pub open spec fn tasks_request() -> RequestView {
    request::to_get("plugins.wp.getScheduledTasks"@, JsonView::Null)
}

/// The declarations of all functions that are known.
pub fn all_declarations(session: &SessionState) -> (r: Vec<String>)
    ensures
        text::texts(r@) == session.functions.order().map_values(
            |n: Seq<char>| session.functions@[n].declaration@,
        ),
        session.functions.order().no_duplicates(),
        forall|n: Seq<char>| #[trigger]
            session.functions@.contains_key(n) <==> session.functions.order().contains(n),
{
    let n = session.functions.len();
    let ghost all = session.functions.order().map_values(
        |n: Seq<char>| session.functions@[n].declaration@,
    );
    let mut r: Vec<String> = Vec::new();
    let mut i: usize = 0;
    assert(text::texts(r@) =~= all.take(0));
    while i < n
        invariant
            n == session.functions.order().len(),
            all == session.functions.order().map_values(
                |n: Seq<char>| session.functions@[n].declaration@,
            ),
            i <= n,
            text::texts(r@) == all.take(i as int),
        decreases n - i,
    {
        let d = session.functions.value_at(i).declaration.clone();
        proof {
            assert(text::texts(r@.push(d)) =~= text::texts(r@).push(d@));
            assert(all.take(i as int).push(d@) =~= all.take(i + 1));
        }
        r.push(d);
        i = i + 1;
    }
    assert(all.take(i as int) =~= all);
    r
}

/// The requests that prove the given declarations and ask what became of the
/// proofs. The last reply is reported.
pub fn run_proofs(declarations: &[String]) -> (r: Vec<Request>)
    ensures
        request::request_views(r@) == proof_requests(text::texts(declarations@)).push(
            tasks_request(),
        ),
{
    let ghost all = text::texts(declarations@);
    let mut r: Vec<Request> = Vec::new();
    let mut i: usize = 0;
    assert(request::request_views(r@) =~= proof_requests(all.take(0)));
    while i < declarations.len()
        invariant
            i <= declarations@.len(),
            all == text::texts(declarations@),
            request::request_views(r@) == proof_requests(all.take(i as int)),
        decreases declarations@.len() - i,
    {
        let d = declarations[i].as_str();
        proof {
            reveal_strlit("#F");
            assert(all.take(i + 1).drop_last() =~= all.take(i as int));
            assert(all.take(i + 1).last() == d@);
        }
        let ghost before = request::request_views(r@);
        add_request(&mut r, Request::get("kernel.ast.printDeclaration", Json::text(d)));
        let marker = text::replace(d, "#F", "#v");
        add_request(&mut r, Request::exec("plugins.wp.startProofs", Json::Text(marker), 600));
        assert(request::request_views(r@) =~= proof_requests(all.take(i + 1)));
        i = i + 1;
    }
    assert(all.take(i as int) =~= all);
    add_request(&mut r, Request::get("plugins.wp.getScheduledTasks", Json::Null));
    r
}

/// The requests that prove the function of a sandbox: none, but for what became of
/// the proofs, where its declaration was not found.
pub fn run_sandbox_proofs(declaration_marker: &str) -> (r: Vec<Request>)
    ensures
        request::request_views(r@) == (if declaration_marker@.len() == 0 {
            seq![tasks_request()]
        } else {
            proof_requests(seq![declaration_marker@]).push(tasks_request())
        }),
{
    let mut declarations: Vec<String> = Vec::new();
    if !declaration_marker.is_empty() {
        declarations.push(declaration_marker.to_owned());
        assert(text::texts(declarations@) =~= seq![declaration_marker@]);
    } else {
        assert(text::texts(declarations@) =~= Seq::<Seq<char>>::empty());
        assert(proof_requests(Seq::<Seq<char>>::empty()).push(tasks_request()) =~= seq![
            tasks_request(),
        ]);
    }
    run_proofs(declarations.as_slice())
}

/// The marker of a declaration, `#F` and a number, is proved under `#v` and that
/// number; a text without `#` stays as it is.
pub proof fn proof_marker_of_declaration(number: Seq<char>)
    requires
        !number.contains('#'),
    ensures
        proof_marker("#F"@ + number) == "#v"@ + number,
        proof_marker(number) == number,
    decreases number.len(),
{
    reveal_strlit("#F");
    reveal_strlit("#v");
    lemma_nothing_replaced(number, "#F"@, "#v"@);
    let s = "#F"@ + number;
    assert(s.take(2) =~= "#F"@);
    assert(s.skip(2) =~= number);
    assert(text::begins_with(s, "#F"@));
}

proof fn lemma_nothing_replaced(s: Seq<char>, p: Seq<char>, q: Seq<char>)
    requires
        p.len() > 0,
        !s.contains(p[0]),
    ensures
        text::replaced(s, p, q) == s,
    decreases s.len(),
{
    if s.len() >= p.len() {
        assert(s.contains(s[0]));
        assert(s.take(p.len() as int)[0] == s[0]);
        assert(!text::begins_with(s, p));
        assert forall|c: char| s.drop_first().contains(c) implies s.contains(c) by {
            let i = choose|i: int| 0 <= i < s.drop_first().len() && s.drop_first()[i] == c;
            assert(s[i + 1] == c);
        }
        lemma_nothing_replaced(s.drop_first(), p, q);
        assert(seq![s[0]] + s.drop_first() =~= s);
    }
}

} // verus!
