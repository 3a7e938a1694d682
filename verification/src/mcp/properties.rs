//! The properties of the program and their status: alarms, annotations and proof
//! goals.

use vstd::prelude::*;

use crate::json;
use crate::json::{Json, JsonView};
use crate::mcp::acsl;
use crate::mcp::acsl::{classify_goal_name, classify_wp_goal, to_ascii_lowercase};
use crate::mcp::request;
use crate::mcp::request::{Request, add_request};
use crate::mcp::types::{GetEvaAlarmsParams, GetEvaValueParams, RunEvaParams};
use crate::state::SessionState;
use crate::text;

verus! {

/// The text under `key` is the wanted one, where one is wanted; what is no text
/// counts as the empty text.
pub open spec fn says(v: JsonView, key: Seq<char>, wanted: Option<Seq<char>>) -> bool {
    match wanted {
        Some(w) => v.text_or_empty(key) == w,
        None => true,
    }
}

fn is_said(v: &Json, key: &str, wanted: Option<&str>) -> (r: bool)
    ensures
        r == says(v@, key@, text::opt_text(wanted)),
{
    match wanted {
        Some(w) => {
            let s = v.get_str_or_empty(key);
            text::same_text(s.as_str(), w)
        },
        None => true,
    }
}

/// The value lies in the scope, where one is wanted: what has no scope lies in none.
pub open spec fn in_scope(v: JsonView, scope: Option<Seq<char>>) -> bool {
    match scope {
        Some(m) => v.text_field("scope"@) == Some(m),
        None => true,
    }
}

fn is_in_scope(v: &Json, scope: Option<&str>) -> (r: bool)
    ensures
        r == in_scope(v@, text::opt_text(scope)),
{
    match scope {
        Some(m) => match v.get_str("scope") {
            Some(s) => text::same_text(s.as_str(), m),
            None => false,
        },
        None => true,
    }
}

// ----------------------------------------------------------------------------
// Alarms and values
// ----------------------------------------------------------------------------

/// The alarm is one of those asked for.
pub open spec fn alarm_matches(
    v: JsonView,
    scope: Option<Seq<char>>,
    kind: Option<Seq<char>>,
    status: Option<Seq<char>>,
) -> bool {
    says(v, "scope"@, scope) && says(v, "kind"@, kind) && says(v, "status"@, status)
}

/// The alarms that are asked for, in the order in which they come.
pub open spec fn alarms_among(
    properties: Seq<JsonView>,
    scope: Option<Seq<char>>,
    kind: Option<Seq<char>>,
    status: Option<Seq<char>>,
) -> Seq<JsonView> {
    properties.filter(|p: JsonView| alarm_matches(p, scope, kind, status))
}

/// The alarms that are asked for: those of a function (by the marker of its
/// declaration), of a kind, of a status, in the order in which they come.
pub fn eva_alarms(properties: &Vec<Json>, scope: Option<&str>, params: &GetEvaAlarmsParams) -> (r:
    Json)
    ensures
        r@ == JsonView::List(
            alarms_among(
                json::json_views(properties@),
                text::opt_text(scope),
                text::opt_string(params.alarm_kind),
                text::opt_string(params.status),
            ),
        ),
{
    let kind = text::opt_str(&params.alarm_kind);
    let status = text::opt_str(&params.status);
    let ghost views = json::json_views(properties@);
    let ghost pred = |p: JsonView|
        alarm_matches(
            p,
            text::opt_text(scope),
            text::opt_string(params.alarm_kind),
            text::opt_string(params.status),
        );
    let mut kept: Vec<Json> = Vec::new();
    let mut i: usize = 0;
    proof {
        reveal(Seq::filter);
        assert(json::json_views(kept@) =~= views.take(0).filter(pred));
    }
    while i < properties.len()
        invariant
            i <= properties@.len(),
            views == json::json_views(properties@),
            pred == (|p: JsonView|
                alarm_matches(
                    p,
                    text::opt_text(scope),
                    text::opt_string(params.alarm_kind),
                    text::opt_string(params.status),
                )),
            text::opt_text(kind) == text::opt_string(params.alarm_kind),
            text::opt_text(status) == text::opt_string(params.status),
            json::json_views(kept@) == views.take(i as int).filter(pred),
        decreases properties@.len() - i,
    {
        proof {
            reveal(Seq::filter);
            assert(views.take(i + 1).drop_last() =~= views.take(i as int));
            assert(views.take(i + 1).last() == properties@[i as int]@);
        }
        let p = &properties[i];
        if is_said(p, "scope", scope) && is_said(p, "kind", kind) && is_said(p, "status", status) {
            let q = p.clone();
            assert(json::json_views(kept@.push(q)) =~= json::json_views(kept@).push(q@));
            kept.push(q);
        }
        i = i + 1;
    }
    assert(views.take(i as int) =~= views);
    Json::list(kept)
}

/// The request for the values at a program point. A call stack that is not given
/// is left out.
pub fn eva_value_request(params: &GetEvaValueParams) -> (r: Request)
    ensures
        r@ == request::to_get(
            "plugins.eva.values.getValues"@,
            ({
                let target = json::no_fields().with("target"@, JsonView::Text(params.marker@));
                match params.callstack {
                    Some(n) => target.with("callstack"@, json::whole(n as int)),
                    None => target,
                }
            }),
        ),
{
    let target = Json::object().with("target", Json::text(params.marker.as_str()));
    let data = match params.callstack {
        Some(n) => target.with("callstack", Json::unsigned(n as u64)),
        None => target,
    };
    Request::get("plugins.eva.values.getValues", data)
}

/// The requests that run the value analysis: the parameters that are given are
/// set, in order, then the analysis runs, then its state and its statistics are
/// asked for.
pub open spec fn eva_requests(
    precision: Option<i32>,
    main_function: Option<Seq<char>>,
    slevel: Option<u32>,
) -> Seq<request::RequestView> {
    let set_precision = match precision {
        Some(n) => seq![
            request::to_assign("kernel.parameters.setEvaPrecision"@, json::whole(n as int)),
        ],
        None => Seq::empty(),
    };
    let set_main = match main_function {
        Some(f) => seq![request::to_assign("kernel.parameters.setMain"@, JsonView::Text(f))],
        None => Seq::empty(),
    };
    let set_slevel = match slevel {
        Some(n) => seq![request::to_assign("kernel.parameters.setEvaSlevel"@, json::whole(n as int))],
        None => Seq::empty(),
    };
    set_precision + set_main + set_slevel + seq![
        request::to_exec("plugins.eva.general.compute"@, JsonView::Null, 600),
        request::to_get("plugins.eva.general.getComputationState"@, JsonView::Null),
        request::to_get("plugins.eva.general.getProgramStats"@, JsonView::Null),
    ]
}

/// The requests that run the value analysis. The last two replies are reported.
pub fn run_eva(params: &RunEvaParams) -> (r: Vec<Request>)
    ensures
        request::request_views(r@) == eva_requests(
            params.precision,
            text::opt_string(params.main_function),
            params.slevel,
        ),
{
    let mut r: Vec<Request> = Vec::new();
    match params.precision {
        Some(n) => add_request(
            &mut r,
            Request::assign("kernel.parameters.setEvaPrecision", Json::signed(n as i64)),
        ),
        None => {},
    }
    match &params.main_function {
        Some(f) => add_request(
            &mut r,
            Request::assign("kernel.parameters.setMain", Json::text(f.as_str())),
        ),
        None => {},
    }
    match params.slevel {
        Some(n) => add_request(
            &mut r,
            Request::assign("kernel.parameters.setEvaSlevel", Json::unsigned(n as u64)),
        ),
        None => {},
    }
    add_request(&mut r, Request::exec("plugins.eva.general.compute", Json::Null, 600));
    add_request(&mut r, Request::get("plugins.eva.general.getComputationState", Json::Null));
    add_request(&mut r, Request::get("plugins.eva.general.getProgramStats", Json::Null));
    assert(request::request_views(r@) =~= eva_requests(
        params.precision,
        text::opt_string(params.main_function),
        params.slevel,
    ));
    r
}

/// What is said once the value analysis has run. The session remembers that it
/// has.
pub fn eva_report(state: &mut SessionState, computation_state: Json, program_stats: Json) -> (r:
    Json)
    ensures
        *final(state) == (SessionState { eva_completed: true, ..*old(state) }),
        r@ == json::no_fields().with("computation_state"@, computation_state@).with(
            "program_stats"@,
            program_stats@,
        ),
{
    state.set_eva_completed();
    Json::object().with("computation_state", computation_state).with(
        "program_stats",
        program_stats,
    )
}

// ----------------------------------------------------------------------------
// Annotations and proof goals
// ----------------------------------------------------------------------------

/// The properties in a scope, in the order in which they come.
pub open spec fn properties_among(
    properties: Seq<JsonView>,
    scope: Option<Seq<char>>,
) -> Seq<JsonView> {
    properties.filter(|p: JsonView| in_scope(p, scope))
}

/// The properties in a scope, in the order in which they come; all where no scope
/// is given.
pub fn annotations_in_scope(properties: &Vec<Json>, scope: Option<&str>) -> (r: Json)
    ensures
        r@ == JsonView::List(
            properties_among(json::json_views(properties@), text::opt_text(scope)),
        ),
{
    let ghost views = json::json_views(properties@);
    let ghost pred = |p: JsonView| in_scope(p, text::opt_text(scope));
    let mut kept: Vec<Json> = Vec::new();
    let mut i: usize = 0;
    proof {
        reveal(Seq::filter);
        assert(json::json_views(kept@) =~= views.take(0).filter(pred));
    }
    while i < properties.len()
        invariant
            i <= properties@.len(),
            views == json::json_views(properties@),
            pred == (|p: JsonView| in_scope(p, text::opt_text(scope))),
            json::json_views(kept@) == views.take(i as int).filter(pred),
        decreases properties@.len() - i,
    {
        proof {
            reveal(Seq::filter);
            assert(views.take(i + 1).drop_last() =~= views.take(i as int));
            assert(views.take(i + 1).last() == properties@[i as int]@);
        }
        let p = &properties[i];
        if is_in_scope(p, scope) {
            let q = p.clone();
            assert(json::json_views(kept@.push(q)) =~= json::json_views(kept@).push(q@));
            kept.push(q);
        }
        i = i + 1;
    }
    assert(views.take(i as int) =~= views);
    Json::list(kept)
}

/// The goal is one of those asked for. The case of letters in the status does not
/// matter.
pub open spec fn goal_matches(
    g: JsonView,
    scope: Option<Seq<char>>,
    status: Option<Seq<char>>,
) -> bool {
    &&& in_scope(g, scope)
    &&& match status {
        Some(s) => acsl::ascii_lowercased(g.text_or_empty("status"@)) == acsl::ascii_lowercased(s),
        None => true,
    }
}

fn is_goal_wanted(g: &Json, scope: Option<&str>, status: Option<&str>) -> (r: bool)
    ensures
        r == goal_matches(g@, text::opt_text(scope), text::opt_text(status)),
{
    if !is_in_scope(g, scope) {
        return false;
    }
    match status {
        Some(s) => {
            let own = to_ascii_lowercase(g.get_str_or_empty("status").as_str());
            let wanted = to_ascii_lowercase(s);
            text::same_text(own.as_str(), wanted.as_str())
        },
        None => true,
    }
}

/// The goal with its kind and, where it has one, its hash label.
pub open spec fn labelled_goal(g: JsonView, label: Option<Seq<char>>) -> JsonView {
    let k = acsl::goal_kind(g.text_or_empty("name"@), label);
    let with_kind = g.with("goal_kind"@, JsonView::Text(k.0));
    match k.1 {
        Some(h) => with_kind.with("hash_label"@, JsonView::Text(h)),
        None => with_kind,
    }
}

fn put_kind(g: Json, kind: String, hash_label: Option<String>) -> (r: Json)
    ensures
        r@ == (match hash_label {
            Some(h) => g@.with("goal_kind"@, JsonView::Text(kind@)).with(
                "hash_label"@,
                JsonView::Text(h@),
            ),
            None => g@.with("goal_kind"@, JsonView::Text(kind@)),
        }),
{
    let with_kind = g.with("goal_kind", Json::Text(kind));
    match hash_label {
        Some(h) => with_kind.with("hash_label", Json::Text(h)),
        None => with_kind,
    }
}

/// The goal with its kind and its hash label, given the label that was found in
/// its name.
pub fn label_goal(goal: Json, label: Option<String>) -> (r: Json)
    ensures
        r@ == labelled_goal(goal@, text::opt_string(label)),
{
    let (kind, hash_label) = classify_goal_name(goal.get_str_or_empty("name").as_str(), label);
    put_kind(goal, kind, hash_label)
}

/// The label that is found in the name of a goal.
pub open spec fn label_in(g: JsonView) -> Option<Seq<char>> {
    acsl::regex_found(acsl::HASH_LABEL_PATTERN@, g.text_or_empty("name"@))
}

/// The goals that are asked for, in the order in which they come, each with its
/// kind and its label.
pub open spec fn goals_among(
    goals: Seq<JsonView>,
    scope: Option<Seq<char>>,
    status: Option<Seq<char>>,
) -> Seq<JsonView> {
    goals.filter(|g: JsonView| goal_matches(g, scope, status)).map_values(
        |g: JsonView| labelled_goal(g, label_in(g)),
    )
}

/// The goals that are asked for, in the order in which they come, each with its
/// kind and its label.
pub fn wp_goals(goals: &Vec<Json>, scope: Option<&str>, status: Option<&str>) -> (r: Json)
    ensures
        r@ == JsonView::List(
            goals_among(json::json_views(goals@), text::opt_text(scope), text::opt_text(status)),
        ),
{
    let ghost views = json::json_views(goals@);
    let ghost pred = |g: JsonView| goal_matches(g, text::opt_text(scope), text::opt_text(status));
    let ghost enriched = |g: JsonView| labelled_goal(g, label_in(g));
    let mut kept: Vec<Json> = Vec::new();
    let mut i: usize = 0;
    proof {
        reveal(Seq::filter);
        assert(json::json_views(kept@) =~= views.take(0).filter(pred).map_values(enriched));
    }
    while i < goals.len()
        invariant
            i <= goals@.len(),
            views == json::json_views(goals@),
            pred == (|g: JsonView| goal_matches(g, text::opt_text(scope), text::opt_text(status))),
            enriched == (|g: JsonView| labelled_goal(g, label_in(g))),
            json::json_views(kept@) == views.take(i as int).filter(pred).map_values(enriched),
        decreases goals@.len() - i,
    {
        let ghost before = views.take(i as int).filter(pred);
        proof {
            reveal(Seq::filter);
            assert(views.take(i + 1).drop_last() =~= views.take(i as int));
            assert(views.take(i + 1).last() == goals@[i as int]@);
        }
        let g = &goals[i];
        if is_goal_wanted(g, scope, status) {
            let (kind, hash_label) = classify_wp_goal(g);
            let labelled = put_kind(g.clone(), kind, hash_label);
            proof {
                assert(labelled@ == enriched(g@));
                assert(json::json_views(kept@.push(labelled)) =~= json::json_views(kept@).push(
                    labelled@,
                ));
                assert(before.push(g@).map_values(enriched) =~= before.map_values(enriched).push(enriched(g@)));
            }
            kept.push(labelled);
        }
        i = i + 1;
    }
    assert(views.take(i as int) =~= views);
    Json::list(kept)
}

} // verus!
