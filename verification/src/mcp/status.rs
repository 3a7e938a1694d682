//! The state of the verification as a whole: counts, one property in depth, and
//! what to do next.

use vstd::prelude::*;
use vstd::string::*;

use crate::error::{McpError, McpErrorKind};
use crate::json;
use crate::json::{Json, JsonObject, JsonView};
use crate::mcp::param_compat::invalid_params;
use crate::mcp::properties;
use crate::mcp::properties::annotations_in_scope;
use crate::mcp::request;
use crate::mcp::request::Request;
use crate::mcp::types::InvestigateAlarmParams;
use crate::state::SessionState;
use crate::text;

verus! {

// ----------------------------------------------------------------------------
// Counts
// ----------------------------------------------------------------------------

/// The text under `key`, or `unknown` where it is none.
pub open spec fn label_of(v: JsonView, key: Seq<char>) -> Seq<char> {
    match v.text_field(key) {
        Some(s) => s,
        None => "unknown"@,
    }
}

/// The texts under `key`.
pub open spec fn labels_of(list: Seq<JsonView>, key: Seq<char>) -> Seq<Seq<char>> {
    list.map_values(|v: JsonView| label_of(v, key))
}

/// How often a text occurs in a list.
pub open spec fn occurrences(l: Seq<Seq<char>>, s: Seq<char>) -> nat {
    l.filter(|t: Seq<char>| t == s).len()
}

/// How often each text occurs: one field for each, in the order of their first
/// occurrences.
pub open spec fn tally(l: Seq<Seq<char>>) -> Seq<(Seq<char>, JsonView)>
    decreases l.len(),
{
    if l.len() == 0 {
        Seq::empty()
    } else {
        json::with_field(
            tally(l.drop_last()),
            l.last(),
            json::whole(occurrences(l, l.last()) as int),
        )
    }
}

proof fn lemma_occurrences(l: Seq<Seq<char>>, s: Seq<char>)
    requires
        l.len() > 0,
    ensures
        occurrences(l, s) == occurrences(l.drop_last(), s) + (if l.last() == s {
            1nat
        } else {
            0nat
        }),
        occurrences(l, s) <= l.len(),
{
    reveal(Seq::filter);
    let pred = |t: Seq<char>| t == s;
    lemma_filter_len(l.drop_last(), pred);
}

proof fn lemma_filter_len(l: Seq<Seq<char>>, pred: spec_fn(Seq<char>) -> bool)
    ensures
        l.filter(pred).len() <= l.len(),
    decreases l.len(),
{
    reveal(Seq::filter);
    if l.len() > 0 {
        lemma_filter_len(l.drop_last(), pred);
    }
}

/// The tally says of each text how often it occurs, and has no field for a text
/// that does not occur.
pub proof fn tally_counts(l: Seq<Seq<char>>, s: Seq<char>)
    ensures
        json::lookup(tally(l), s) == (if occurrences(l, s) > 0 {
            Some(json::whole(occurrences(l, s) as int))
        } else {
            None
        }),
    decreases l.len(),
{
    if l.len() == 0 {
        reveal(Seq::filter);
    } else {
        tally_counts(l.drop_last(), s);
        lemma_occurrences(l, s);
        json::field_set_is_field_found(
            tally(l.drop_last()),
            l.last(),
            json::whole(occurrences(l, l.last()) as int),
            s,
        );
    }
}

fn count_labels(list: &Vec<Json>, key: &str) -> (r: JsonObject)
    ensures
        r@ == tally(labels_of(json::json_views(list@), key@)),
{
    let ghost all = labels_of(json::json_views(list@), key@);
    let mut counts = JsonObject::new();
    let mut i: usize = 0;
    while i < list.len()
        invariant
            i <= list@.len(),
            all == labels_of(json::json_views(list@), key@),
            counts@ == tally(all.take(i as int)),
        decreases list@.len() - i,
    {
        let label: String = match list[i].get_str(key) {
            Some(s) => s.clone(),
            None => "unknown".to_owned(),
        };
        proof {
            assert(all[i as int] == label_of(list@[i as int]@, key@));
            assert(all.take(i + 1).drop_last() =~= all.take(i as int));
            assert(all.take(i + 1).last() == label@);
            tally_counts(all.take(i as int), label@);
            lemma_occurrences(all.take(i + 1), label@);
        }
        let so_far: u64 = match counts.get(label.as_str()) {
            Some(n) => match n.as_u64() {
                Some(k) => k,
                None => 0,
            },
            None => 0,
        };
        assert(so_far == occurrences(all.take(i as int), label@));
        counts.insert(label, Json::unsigned(so_far + 1));
        i = i + 1;
    }
    assert(all.take(i as int) =~= all);
    counts
}

/// The request for the state of the value analysis.
pub fn eva_state_request() -> (r: Request)
    ensures
        r@ == request::to_get("plugins.eva.general.getComputationState"@, JsonView::Null),
{
    Request::get("plugins.eva.general.getComputationState", Json::Null)
}

/// The request for the state of the proofs.
pub fn wp_tasks_request() -> (r: Request)
    ensures
        r@ == request::to_get("plugins.wp.getScheduledTasks"@, JsonView::Null),
{
    Request::get("plugins.wp.getScheduledTasks", Json::Null)
}

/// A reply, or null where there was none.
pub open spec fn reply_or_null(reply: Option<Json>) -> JsonView {
    match reply {
        Some(j) => j@,
        None => JsonView::Null,
    }
}

fn or_null(reply: Option<Json>) -> (r: Json)
    ensures
        r@ == reply_or_null(reply),
{
    match reply {
        Some(j) => j,
        None => Json::Null,
    }
}

/// What is said of the verification as a whole: how many properties there are, how
/// many of each status and kind, what the analyses that have run say, what the
/// session knows, and the properties themselves.
pub open spec fn status_body(
    properties: Seq<JsonView>,
    project_loaded: bool,
    eva_completed: bool,
    wp_completed: bool,
    eva: JsonView,
    wp: JsonView,
) -> JsonView {
    let counts = json::no_fields().with(
        "total_properties"@,
        json::whole(properties.len() as int),
    ).with("by_status"@, JsonView::Record(tally(labels_of(properties, "status"@)))).with(
        "by_kind"@,
        JsonView::Record(tally(labels_of(properties, "kind"@))),
    );
    let with_eva = if eva_completed {
        counts.with("eva"@, eva)
    } else {
        counts
    };
    let with_wp = if wp_completed {
        with_eva.with("wp"@, wp)
    } else {
        with_eva
    };
    with_wp.with(
        "session"@,
        json::no_fields().with("project_loaded"@, JsonView::Bool(project_loaded)).with(
            "eva_completed"@,
            JsonView::Bool(eva_completed),
        ).with("wp_completed"@, JsonView::Bool(wp_completed)),
    ).with("properties"@, JsonView::List(properties))
}

/// What is said of the verification as a whole. `eva` and `wp` are the replies on
/// the analyses that have run; none where the request failed.
pub fn status_report(
    properties: Vec<Json>,
    state: &SessionState,
    eva: Option<Json>,
    wp: Option<Json>,
) -> (r: Json)
    ensures
        r@ == status_body(
            json::json_views(properties@),
            state.project_loaded,
            state.eva_completed,
            state.wp_completed,
            reply_or_null(eva),
            reply_or_null(wp),
        ),
{
    let by_status = count_labels(&properties, "status");
    let by_kind = count_labels(&properties, "kind");
    let counts = Json::object().with(
        "total_properties",
        Json::unsigned(properties.len() as u64),
    ).with("by_status", Json::Record(by_status)).with("by_kind", Json::Record(by_kind));
    let with_eva = if state.eva_completed {
        counts.with("eva", or_null(eva))
    } else {
        counts
    };
    let with_wp = if state.wp_completed {
        with_eva.with("wp", or_null(wp))
    } else {
        with_eva
    };
    with_wp.with(
        "session",
        Json::object().with("project_loaded", Json::Bool(state.project_loaded)).with(
            "eva_completed",
            Json::Bool(state.eva_completed),
        ).with("wp_completed", Json::Bool(state.wp_completed)),
    ).with("properties", Json::list(properties))
}

// ----------------------------------------------------------------------------
// One property in depth
// ----------------------------------------------------------------------------

/// The first property of the given key.
pub open spec fn property_of(list: Seq<JsonView>, key: Seq<char>) -> Option<JsonView>
    decreases list.len(),
{
    if list.len() == 0 {
        None
    } else if list[0].text_field("key"@) == Some(key) {
        Some(list[0])
    } else {
        property_of(list.drop_first(), key)
    }
}

/// The property to investigate.
pub fn find_property(properties: &Vec<Json>, key: &str) -> (r: Result<Json, McpError>)
    ensures
        match property_of(json::json_views(properties@), key@) {
            Some(p) => r matches Ok(j) && j@ == p,
            None => r matches Err(e) && e.kind == McpErrorKind::InvalidParams && e.message@
                == "property not found: "@ + key@,
        },
{
    let ghost views = json::json_views(properties@);
    let mut i: usize = 0;
    assert(views.skip(0) =~= views);
    while i < properties.len()
        invariant
            i <= properties@.len(),
            views == json::json_views(properties@),
            property_of(views, key@) == property_of(views.skip(i as int), key@),
        decreases properties@.len() - i,
    {
        let ghost rest = views.skip(i as int);
        proof {
            assert(rest[0] == properties@[i as int]@);
            assert(rest.drop_first() =~= views.skip(i + 1));
        }
        match properties[i].get_str("key") {
            Some(s) => if text::same_text(s.as_str(), key) {
                return Ok(properties[i].clone());
            },
            None => {},
        }
        i = i + 1;
    }
    Err(invalid_params("property not found: ".to_owned().concat(key)))
}

/// How deep a property is looked into. What is neither `quick` nor `normal` is
/// deep.
#[derive(Debug, Clone, Copy, PartialEq, Eq, Structural)]
pub enum Depth {
    Quick,
    Normal,
    Deep,
}

/// The depth that a text stands for; `normal` where none is given.
pub open spec fn depth_of(s: Option<Seq<char>>) -> Depth {
    match s {
        None => Depth::Normal,
        Some(t) => if t == "quick"@ {
            Depth::Quick
        } else if t == "normal"@ {
            Depth::Normal
        } else {
            Depth::Deep
        },
    }
}

/// How deep the property is to be looked into.
pub fn investigation_depth(params: &InvestigateAlarmParams) -> (r: Depth)
    ensures
        r == depth_of(text::opt_string(params.depth)),
{
    match &params.depth {
        None => Depth::Normal,
        Some(t) => if text::same_text(t.as_str(), "quick") {
            Depth::Quick
        } else if text::same_text(t.as_str(), "normal") {
            Depth::Normal
        } else {
            Depth::Deep
        },
    }
}

/// The request for the values at the instruction of the property, where it has one
/// and is looked into at all.
pub fn values_request(property: &Json, depth: Depth) -> (r: Option<Request>)
    ensures
        match property@.text_field("kinstr"@) {
            Some(k) if depth != Depth::Quick => r matches Some(q) && q@ == request::to_get(
                "plugins.eva.values.getValues"@,
                json::no_fields().with("target"@, JsonView::Text(k)),
            ),
            _ => r is None,
        },
{
    match property.get_str("kinstr") {
        Some(k) => if depth != Depth::Quick {
            Some(
                Request::get(
                    "plugins.eva.values.getValues",
                    Json::object().with("target", Json::text(k.as_str())),
                ),
            )
        } else {
            None
        },
        None => None,
    }
}

/// The request for the callers of the function that the property lies in, where it
/// lies in one and is looked into at all.
pub fn callers_request(property: &Json, depth: Depth) -> (r: Option<Request>)
    ensures
        match property@.text_field("scope"@) {
            Some(s) if depth != Depth::Quick => r matches Some(q) && q@ == request::to_get(
                "plugins.eva.general.getCallers"@,
                JsonView::Text(s),
            ),
            _ => r is None,
        },
{
    match property.get_str("scope") {
        Some(s) => if depth != Depth::Quick {
            Some(Request::get("plugins.eva.general.getCallers", Json::text(s.as_str())))
        } else {
            None
        },
        None => None,
    }
}

/// What is said of a property: quickly, only the property itself; else also the
/// values and the callers, as far as they could be had; and in depth also the
/// properties of the same function.
pub open spec fn investigation_body(
    properties: Seq<JsonView>,
    property: JsonView,
    depth: Depth,
    values: Option<JsonView>,
    callers: Option<JsonView>,
) -> JsonView {
    let alone = json::no_fields().with("property"@, property);
    if depth == Depth::Quick {
        alone
    } else {
        let with_values = match values {
            Some(v) => alone.with("values"@, v),
            None => alone,
        };
        let with_callers = match callers {
            Some(c) => with_values.with("callers"@, c),
            None => with_values,
        };
        match property.text_field("scope"@) {
            Some(s) if depth == Depth::Deep => with_callers.with(
                "function_annotations"@,
                JsonView::List(
                    properties.filter(|p: JsonView| properties::in_scope(p, Some(s))),
                ),
            ),
            _ => with_callers,
        }
    }
}

/// The value that may be given.
pub open spec fn given_json(j: Option<Json>) -> Option<JsonView> {
    match j {
        Some(v) => Some(v@),
        None => None,
    }
}

/// What is said of a property. `values` and `callers` are the replies to the
/// requests, where they were sent and answered.
pub fn investigation_report(
    properties: &Vec<Json>,
    property: Json,
    depth: Depth,
    values: Option<Json>,
    callers: Option<Json>,
) -> (r: Json)
    ensures
        r@ == investigation_body(
            json::json_views(properties@),
            property@,
            depth,
            given_json(values),
            given_json(callers),
        ),
{
    let scope: Option<String> = match property.get_str("scope") {
        Some(s) => Some(s.clone()),
        None => None,
    };
    let alone = Json::object().with("property", property);
    if depth == Depth::Quick {
        return alone;
    }
    let with_values = match values {
        Some(v) => alone.with("values", v),
        None => alone,
    };
    let with_callers = match callers {
        Some(c) => with_values.with("callers", c),
        None => with_values,
    };
    match scope {
        Some(s) => if depth == Depth::Deep {
            let near = annotations_in_scope(properties, Some(s.as_str()));
            with_callers.with("function_annotations", near)
        } else {
            with_callers
        },
        None => with_callers,
    }
}

// ----------------------------------------------------------------------------
// What to do next
// ----------------------------------------------------------------------------

/// A suggestion: what to do, why, and how urgently.
pub open spec fn suggestion(action: Seq<char>, reason: Seq<char>, priority: Seq<char>) -> JsonView {
    json::no_fields().with("action"@, JsonView::Text(action)).with(
        "reason"@,
        JsonView::Text(reason),
    ).with("priority"@, JsonView::Text(priority))
}

fn suggest(list: &mut Vec<Json>, action: &str, reason: &str, priority: &str)
    ensures
        json::json_views(final(list)@) == json::json_views(old(list)@).push(
            suggestion(action@, reason@, priority@),
        ),
{
    let s = Json::object().with("action", Json::text(action)).with(
        "reason",
        Json::text(reason),
    ).with("priority", Json::text(priority));
    list.push(s);
    assert(json::json_views(list@) =~= json::json_views(old(list)@).push(s@));
}

/// How many of the properties have the given status.
pub open spec fn with_status(properties: Seq<JsonView>, status: Seq<char>) -> nat {
    properties.filter(|p: JsonView| p.text_field("status"@) == Some(status)).len()
}

fn count_status(properties: &Vec<Json>, status: &str) -> (r: usize)
    ensures
        r == with_status(json::json_views(properties@), status@),
{
    let ghost views = json::json_views(properties@);
    let ghost pred = |p: JsonView| p.text_field("status"@) == Some(status@);
    let mut n: usize = 0;
    let mut i: usize = 0;
    proof {
        reveal(Seq::filter);
        assert(views.take(0).filter(pred).len() == 0);
    }
    while i < properties.len()
        invariant
            n <= i <= properties@.len(),
            views == json::json_views(properties@),
            pred == (|p: JsonView| p.text_field("status"@) == Some(status@)),
            n == views.take(i as int).filter(pred).len(),
        decreases properties@.len() - i,
    {
        proof {
            reveal(Seq::filter);
            assert(views.take(i + 1).drop_last() =~= views.take(i as int));
            assert(views.take(i + 1).last() == properties@[i as int]@);
        }
        match properties[i].get_str("status") {
            Some(s) => if text::same_text(s.as_str(), status) {
                n = n + 1;
            },
            None => {},
        }
        i = i + 1;
    }
    assert(views.take(i as int) =~= views);
    n
}

/// What to do next. Without a project, load one. Else run the value analysis, if
/// it has not run; if it has, look at invalid properties, and prove unknown ones
/// unless the proofs have run; review once they have. Where there is nothing of
/// all this, look at the state.
pub open spec fn plan(
    project_loaded: bool,
    eva_completed: bool,
    wp_completed: bool,
    properties: Seq<JsonView>,
) -> Seq<JsonView> {
    if !project_loaded {
        seq![
            suggestion(
                "reload_project"@,
                "No project loaded. Load C source files first with reload_project."@,
                "high"@,
            ),
        ]
    } else {
        let invalid = with_status(properties, "invalid"@);
        let unknown = with_status(properties, "unknown"@);
        let analyse = if eva_completed {
            Seq::empty()
        } else {
            seq![
                suggestion(
                    "run_eva"@,
                    "EVA analysis not yet run. Run EVA first to identify potential runtime errors."@,
                    "high"@,
                ),
            ]
        };
        let look = if eva_completed && invalid > 0 {
            seq![
                suggestion(
                    "investigate invalid properties"@,
                    text::decimal(invalid) + " invalid properties need attention"@,
                    "high"@,
                ),
            ]
        } else {
            Seq::empty()
        };
        let prove = if eva_completed && unknown > 0 && !wp_completed {
            seq![
                suggestion(
                    "run_wp"@,
                    text::decimal(unknown) + " unknown properties may be provable with WP"@,
                    "medium"@,
                ),
            ]
        } else {
            Seq::empty()
        };
        let review = if wp_completed {
            seq![
                suggestion(
                    "review results"@,
                    "Both EVA and WP completed. Review get_verification_status for summary."@,
                    "low"@,
                ),
            ]
        } else {
            Seq::empty()
        };
        let all = analyse + look + prove + review;
        if all.len() == 0 {
            seq![
                suggestion(
                    "get_verification_status"@,
                    "Check current verification state for details."@,
                    "info"@,
                ),
            ]
        } else {
            all
        }
    }
}

/// Whether a plan depends on the properties, so that they are to be read first.
pub fn plan_needs_properties(state: &SessionState) -> (r: bool)
    ensures
        r == (state.project_loaded && state.eva_completed),
        !r ==> forall|a: Seq<JsonView>, b: Seq<JsonView>|
            plan(state.project_loaded, state.eva_completed, state.wp_completed, a) == plan(
                state.project_loaded,
                state.eva_completed,
                state.wp_completed,
                b,
            ),
{
    state.project_loaded && state.eva_completed
}

/// What to do next.
pub fn suggest_verification_plan(state: &SessionState, properties: &Vec<Json>) -> (r: Json)
    ensures
        r@ == JsonView::List(
            plan(
                state.project_loaded,
                state.eva_completed,
                state.wp_completed,
                json::json_views(properties@),
            ),
        ),
{
    let ghost wanted = plan(
        state.project_loaded,
        state.eva_completed,
        state.wp_completed,
        json::json_views(properties@),
    );
    let mut list: Vec<Json> = Vec::new();
    if !state.project_loaded {
        suggest(
            &mut list,
            "reload_project",
            "No project loaded. Load C source files first with reload_project.",
            "high",
        );
        assert(json::json_views(list@) =~= wanted);
        return Json::list(list);
    }
    if !state.eva_completed {
        suggest(
            &mut list,
            "run_eva",
            "EVA analysis not yet run. Run EVA first to identify potential runtime errors.",
            "high",
        );
    }
    if state.eva_completed {
        let unknown = count_status(properties, "unknown");
        let invalid = count_status(properties, "invalid");
        if invalid > 0 {
            let reason = text::decimal_text(invalid as u64).concat(
                " invalid properties need attention",
            );
            suggest(&mut list, "investigate invalid properties", reason.as_str(), "high");
        }
        if unknown > 0 && !state.wp_completed {
            let reason = text::decimal_text(unknown as u64).concat(
                " unknown properties may be provable with WP",
            );
            suggest(&mut list, "run_wp", reason.as_str(), "medium");
        }
    }
    if state.wp_completed {
        suggest(
            &mut list,
            "review results",
            "Both EVA and WP completed. Review get_verification_status for summary.",
            "low",
        );
    }
    if list.len() == 0 {
        suggest(
            &mut list,
            "get_verification_status",
            "Check current verification state for details.",
            "info",
        );
    }
    assert(json::json_views(list@) =~= wanted);
    Json::list(list)
}

/// There is always something to do, and a program that is not loaded or not yet
/// analysed is what is taken up first.
pub proof fn plan_is_never_empty(
    project_loaded: bool,
    eva_completed: bool,
    wp_completed: bool,
    properties: Seq<JsonView>,
)
    ensures
        plan(project_loaded, eva_completed, wp_completed, properties).len() > 0,
        project_loaded && !eva_completed ==> plan(
            project_loaded,
            eva_completed,
            wp_completed,
            properties,
        )[0] == suggestion(
            "run_eva"@,
            "EVA analysis not yet run. Run EVA first to identify potential runtime errors."@,
            "high"@,
        ),
{
}

} // verus!
