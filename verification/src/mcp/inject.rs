//! Adding the clauses of a proposal to a function: from the proposal to a plan,
//! and from Frama-C's replies to the result.
//!
//! The plan is a function of the proposal alone, so that a contract merged into
//! the main instance is the one that was verified in the sandbox.

pub mod laws;

use vstd::prelude::*;
use vstd::string::*;

use crate::json;
use crate::json::{Json, JsonObject, JsonView};
use crate::mcp::acsl;
use crate::mcp::acsl::{Behavior, BehaviorView, FailureType};
use crate::mcp::types::{
    AddAnnotationParams, InjectAllAnnotationsSandboxResponse, InjectedAnnotationEntry,
    InjectionFailure, InjectionSummary,
};
use crate::text;

verus! {

// ── Statements of a function ────────────────────────────────────────────

/// The ids of the loop statements in an AST, in source order.
pub open spec fn loop_sids(node: JsonView) -> Seq<i64> {
    sids(node, true)
}

/// The ids of all statements in an AST, in source order.
pub open spec fn statement_sids(node: JsonView) -> Seq<i64> {
    sids(node, false)
}

/// The ids of the statements in an AST, or of its loops only, in source order: a
/// statement before those inside it, lists in their order, the condition and then
/// the branches of an `if` before its other parts.
pub open spec fn sids(node: JsonView, loops_only: bool) -> Seq<i64>
    decreases node,
{
    match node {
        JsonView::Record(fields) => own_sid(node, loops_only) + if node.field("then_body"@) is Some
            && node.field("else_body"@) is Some {
            sids_under(fields, "cond"@, loops_only) + sids_under(fields, "then_body"@, loops_only) + sids_under(
                fields,
                "else_body"@,
                loops_only,
            ) + sids_elsewhere(fields, loops_only)
        } else {
            sids_of_fields(fields, loops_only)
        },
        JsonView::List(items) => sids_of_items(items, loops_only),
        _ => Seq::empty(),
    }
}

/// The id of the node itself, where it is a statement of those asked for.
pub open spec fn own_sid(node: JsonView, loops_only: bool) -> Seq<i64> {
    if !loops_only || node.text_field("kind"@) == Some("loop"@) {
        match node.at("sid"@).signed() {
            Some(n) => seq![n as i64],
            None => Seq::empty(),
        }
    } else {
        Seq::empty()
    }
}

/// The ids of the statements in a list of nodes.
pub open spec fn sids_of_items(items: Seq<JsonView>, loops_only: bool) -> Seq<i64>
    decreases items,
{
    if items.len() == 0 {
        Seq::empty()
    } else {
        sids_of_items(items.drop_last(), loops_only) + sids(items.last(), loops_only)
    }
}

/// The ids of the statements in all fields.
pub open spec fn sids_of_fields(
    fields: Seq<(Seq<char>, JsonView)>,
    loops_only: bool,
) -> Seq<i64>
    decreases fields,
{
    if fields.len() == 0 {
        Seq::empty()
    } else {
        sids_of_fields(fields.drop_last(), loops_only) + sids(fields.last().1, loops_only)
    }
}

/// The ids of the statements in the fields named `key`.
pub open spec fn sids_under(
    fields: Seq<(Seq<char>, JsonView)>,
    key: Seq<char>,
    loops_only: bool,
) -> Seq<i64>
    decreases fields,
{
    if fields.len() == 0 {
        Seq::empty()
    } else if fields.last().0 == key {
        sids_under(fields.drop_last(), key, loops_only) + sids(fields.last().1, loops_only)
    } else {
        sids_under(fields.drop_last(), key, loops_only)
    }
}

/// The ids of the statements in the fields other than the condition and the branches.
pub open spec fn sids_elsewhere(
    fields: Seq<(Seq<char>, JsonView)>,
    loops_only: bool,
) -> Seq<i64>
    decreases fields,
{
    if fields.len() == 0 {
        Seq::empty()
    } else {
        let name = fields.last().0;
        if name == "cond"@ || name == "then_body"@ || name == "else_body"@ {
            sids_elsewhere(fields.drop_last(), loops_only)
        } else {
            sids_elsewhere(fields.drop_last(), loops_only) + sids(fields.last().1, loops_only)
        }
    }
}

/// Collects the ids of the loop statements of an AST, in source order.
pub fn collect_loop_sids(node: &Json, out: &mut Vec<i64>)
    ensures
        final(out)@ == old(out)@ + loop_sids(node@),
{
    collect_sids(node, true, out);
}

/// Collects the ids of all statements of an AST, in source order.
pub fn collect_statement_sids(node: &Json, out: &mut Vec<i64>)
    ensures
        final(out)@ == old(out)@ + statement_sids(node@),
{
    collect_sids(node, false, out);
}

fn collect_sids(node: &Json, loops_only: bool, out: &mut Vec<i64>)
    ensures
        final(out)@ == old(out)@ + sids(node@, loops_only),
    decreases node@, 1int,
{
    match node {
        Json::Record(o) => {
            let ghost start = out@;
            let is_loop = match node.get_str("kind") {
                Some(k) => text::same_text(k.as_str(), "loop"),
                None => false,
            };
            if !loops_only || is_loop {
                match node.get("sid") {
                    Some(s) => match s.as_i64() {
                        Some(n) => {
                            out.push(n);
                        },
                        None => {},
                    },
                    None => {},
                }
            }
            assert(out@ =~= start + own_sid(node@, loops_only));
            if o.contains_key("then_body") && o.contains_key("else_body") {
                collect_under(node, o, "cond", loops_only, out);
                collect_under(node, o, "then_body", loops_only, out);
                collect_under(node, o, "else_body", loops_only, out);
                let ghost before = out@;
                let mut i: usize = 0;
                while i < o.len()
                    invariant
                        node@ == JsonView::Record(o@),
                        i <= o@.len(),
                        out@ =~= before + sids_elsewhere(o@.take(i as int), loops_only),
                    decreases o@.len() - i,
                {
                    proof {
                        lemma_field_decreases(node@, i as int);
                        assert(o@.take(i + 1).drop_last() =~= o@.take(i as int));
                        assert(o@.take(i + 1).last() == o@[i as int]);
                    }
                    let name = o.key(i).as_str();
                    if !text::same_text(name, "cond") && !text::same_text(name, "then_body")
                        && !text::same_text(name, "else_body") {
                        collect_sids(o.value(i), loops_only, out);
                    }
                    i = i + 1;
                }
                assert(o@.take(i as int) =~= o@);
                assert(out@ =~= start + sids(node@, loops_only));
            } else {
                let ghost before = out@;
                let mut i: usize = 0;
                while i < o.len()
                    invariant
                        node@ == JsonView::Record(o@),
                        i <= o@.len(),
                        out@ =~= before + sids_of_fields(o@.take(i as int), loops_only),
                    decreases o@.len() - i,
                {
                    proof {
                        lemma_field_decreases(node@, i as int);
                        assert(o@.take(i + 1).drop_last() =~= o@.take(i as int));
                    }
                    collect_sids(o.value(i), loops_only, out);
                    i = i + 1;
                }
                assert(o@.take(i as int) =~= o@);
                assert(out@ =~= start + sids(node@, loops_only));
            }
        },
        Json::List(items) => {
            let ghost start = out@;
            let ghost views = json::json_views(items@);
            proof {
                json::lemma_list_view(*items);
            }
            let mut i: usize = 0;
            while i < items.len()
                invariant
                    node@ == JsonView::List(views),
                    views == json::json_views(items@),
                    i <= items@.len(),
                    out@ =~= start + sids_of_items(views.take(i as int), loops_only),
                decreases items@.len() - i,
            {
                proof {
                    let whole = node@->List_0;
                    assert(decreases_to!(node@ => node@->List_0));
                    assert(decreases_to!(whole => whole[i as int]));
                    assert(views.take(i + 1).drop_last() =~= views.take(i as int));
                }
                collect_sids(&items[i], loops_only, out);
                i = i + 1;
            }
            assert(views.take(i as int) =~= views);
        },
        _ => {
            assert(out@ =~= out@ + sids(node@, loops_only));
        },
    }
}

/// The value of a field is smaller than the record.
proof fn lemma_field_decreases(node: JsonView, i: int)
    requires
        node is Record,
        0 <= i < node->Record_0.len(),
    ensures
        decreases_to!(node => node->Record_0[i].1),
{
    let fields = node->Record_0;
    let field = fields[i];
    assert(decreases_to!(node => node->Record_0));
    assert(decreases_to!(fields => fields[i]));
    assert(decreases_to!(field => field.1));
}

fn collect_under(node: &Json, o: &JsonObject, key: &str, loops_only: bool, out: &mut Vec<i64>)
    requires
        node@ == JsonView::Record(o@),
    ensures
        final(out)@ == old(out)@ + sids_under(o@, key@, loops_only),
    decreases node@, 0int,
{
    let ghost before = out@;
    let mut i: usize = 0;
    while i < o.len()
        invariant
            node@ == JsonView::Record(o@),
            i <= o@.len(),
            out@ =~= before + sids_under(o@.take(i as int), key@, loops_only),
        decreases o@.len() - i,
    {
        proof {
            lemma_field_decreases(node@, i as int);
            assert(o@.take(i + 1).drop_last() =~= o@.take(i as int));
            assert(o@.take(i + 1).last() == o@[i as int]);
        }
        if text::same_text(o.key(i).as_str(), key) {
            collect_sids(o.value(i), loops_only, out);
        }
        i = i + 1;
    }
    assert(o@.take(i as int) =~= o@);
}

// ── The plan ────────────────────────────────────────────────────────────

/// The clauses that a proposal lists, as JSON. A part that is absent is empty.
pub struct Proposal {
    /// `{name, assumes}` each.
    pub behaviors: Vec<Json>,
    /// `{acsl, behavior, necessity}` each.
    pub preconditions: Vec<Json>,
    /// `{acsl, from, behavior}` each.
    pub postconditions: Vec<Json>,
    /// `{acsl, behavior}` each.
    pub assigns: Vec<Json>,
    /// `{stmt_id, loop_label, invariants, assigns, variant}` each.
    pub loop_annots: Vec<Json>,
    /// `{acsl}`, or the clause itself.
    pub terminates: Option<Json>,
}

/// A clause to add.
pub struct InjectionPlanEntry {
    pub acsl_text: String,
    pub kind: String,
    pub derived_from: String,
    pub stmt_id: Option<i64>,
    pub purpose: String,
    pub user_label: Option<String>,
}

/// What becomes of a proposed clause: it is planned, or refused at once.
pub enum Outcome {
    Planned(InjectionPlanEntry),
    Refused(InjectionFailure),
}

/// What a planned clause says.
pub struct PlanView {
    pub acsl_text: Seq<char>,
    pub kind: Seq<char>,
    pub derived_from: Seq<char>,
    pub stmt_id: Option<i64>,
    pub purpose: Seq<char>,
    pub user_label: Option<Seq<char>>,
}

/// What a failure says.
pub struct FailureView {
    pub failure_type: FailureType,
    pub proposed_path: Seq<char>,
    pub acsl_text: Seq<char>,
    pub frama_c_error: Seq<char>,
}

pub enum OutcomeView {
    Planned(PlanView),
    Refused(FailureView),
}

impl View for InjectionPlanEntry {
    type V = PlanView;

    open spec fn view(&self) -> PlanView {
        PlanView {
            acsl_text: self.acsl_text@,
            kind: self.kind@,
            derived_from: self.derived_from@,
            stmt_id: self.stmt_id,
            purpose: self.purpose@,
            user_label: text::opt_string(self.user_label),
        }
    }
}

impl View for InjectionFailure {
    type V = FailureView;

    open spec fn view(&self) -> FailureView {
        FailureView {
            failure_type: self.failure_type,
            proposed_path: self.proposed_path@,
            acsl_text: self.acsl_text@,
            frama_c_error: self.frama_c_error@,
        }
    }
}

impl View for Outcome {
    type V = OutcomeView;

    open spec fn view(&self) -> OutcomeView {
        match self {
            Outcome::Planned(e) => OutcomeView::Planned(e@),
            Outcome::Refused(f) => OutcomeView::Refused(f@),
        }
    }
}

pub open spec fn outcome_views(v: Seq<Outcome>) -> Seq<OutcomeView> {
    v.map_values(|o: Outcome| o@)
}

pub open spec fn plan_views(v: Seq<InjectionPlanEntry>) -> Seq<PlanView> {
    v.map_values(|e: InjectionPlanEntry| e@)
}

pub open spec fn failure_views(v: Seq<InjectionFailure>) -> Seq<FailureView> {
    v.map_values(|f: InjectionFailure| f@)
}

/// The behaviors that a proposal declares; an entry without a name is none.
pub open spec fn declared(list: Seq<JsonView>) -> Seq<BehaviorView>
    decreases list.len(),
{
    if list.len() == 0 {
        Seq::empty()
    } else {
        let v = list.last();
        let name = v.text_or_empty("name"@);
        if name.len() == 0 {
            declared(list.drop_last())
        } else {
            declared(list.drop_last()).push(
                BehaviorView {
                    name,
                    assumes: match v.at("assumes"@).list() {
                        Some(items) => json::texts_in(items),
                        None => Seq::empty(),
                    },
                },
            )
        }
    }
}

/// The text with a number in brackets behind it.
pub open spec fn indexed(name: Seq<char>, i: int) -> Seq<char> {
    name + "["@ + text::decimal(i as nat) + "]"@
}

/// What becomes of a clause, given the text that it is wrapped into.
pub open spec fn outcome_of(
    wrapped: Result<Seq<char>, Seq<char>>,
    kind: Seq<char>,
    path: Seq<char>,
    stmt_id: Option<i64>,
    purpose: Seq<char>,
    user_label: Option<Seq<char>>,
    attempted: Seq<char>,
) -> OutcomeView {
    match wrapped {
        Ok(acsl_text) => OutcomeView::Planned(
            PlanView { acsl_text, kind, derived_from: path, stmt_id, purpose, user_label },
        ),
        Err(m) => OutcomeView::Refused(
            FailureView {
                failure_type: FailureType::ProposedError,
                proposed_path: path,
                acsl_text: attempted,
                frama_c_error: m,
            },
        ),
    }
}

/// The label of a clause that belongs to a behavior.
pub open spec fn behavior_label(behavior: Option<Seq<char>>) -> Option<Seq<char>> {
    match behavior {
        Some(b) => Some("beh_"@ + b),
        None => None,
    }
}

/// What becomes of precondition `i`.
pub open spec fn precondition_outcome(
    v: JsonView,
    i: int,
    behaviors: Seq<BehaviorView>,
) -> OutcomeView {
    let body = v.text_or_empty("acsl"@);
    let behavior = v.text_field("behavior"@);
    let path = indexed("proposed_requires"@, i);
    outcome_of(
        acsl::funspec_clause("requires"@, body, behavior, behaviors, path),
        "spec"@,
        path,
        None,
        v.text_or_empty("necessity"@),
        behavior_label(behavior),
        body,
    )
}

/// What becomes of postcondition `i`. Its purpose is where it comes from or, where
/// that is not said, how it begins.
pub open spec fn postcondition_outcome(
    v: JsonView,
    i: int,
    behaviors: Seq<BehaviorView>,
) -> OutcomeView {
    let body = v.text_or_empty("acsl"@);
    let behavior = v.text_field("behavior"@);
    let origin = v.text_or_empty("from"@);
    let path = indexed("proposed_ensures"@, i);
    outcome_of(
        acsl::funspec_clause("ensures"@, body, behavior, behaviors, path),
        "spec"@,
        path,
        None,
        if origin.len() > 0 {
            origin
        } else {
            first_80(body)
        },
        behavior_label(behavior),
        body,
    )
}

/// The first eighty characters.
pub open spec fn first_80(s: Seq<char>) -> Seq<char> {
    if s.len() <= 80 {
        s
    } else {
        s.take(80)
    }
}

/// What becomes of assigns clause `i`.
pub open spec fn assigns_outcome(v: JsonView, i: int, behaviors: Seq<BehaviorView>) -> OutcomeView {
    let body = v.text_or_empty("acsl"@);
    let behavior = v.text_field("behavior"@);
    let path = indexed("proposed_assigns"@, i);
    outcome_of(
        match acsl::funspec_clause("assigns"@, body, behavior, behaviors, path) {
            Ok(t) => Ok(acsl::normalized(t)),
            Err(m) => Err(m),
        },
        "spec"@,
        path,
        None,
        "Function-level modifies clause"@,
        Some(
            match behavior {
                Some(b) => "beh_"@ + b + "_assigns"@,
                None => "assigns_"@ + text::decimal(i as nat),
            },
        ),
        body,
    )
}

/// The clause says nothing.
pub open spec fn is_blank(v: JsonView) -> bool {
    text::trimmed(v.text_or_empty("acsl"@)).len() == 0
}

/// What becomes of the first `n` preconditions.
pub open spec fn precondition_plan(
    list: Seq<JsonView>,
    n: int,
    behaviors: Seq<BehaviorView>,
) -> Seq<OutcomeView>
    decreases n,
{
    if n <= 0 {
        Seq::empty()
    } else {
        precondition_plan(list, n - 1, behaviors).push(
            precondition_outcome(list[n - 1], n - 1, behaviors),
        )
    }
}

/// What becomes of the first `n` postconditions.
pub open spec fn postcondition_plan(
    list: Seq<JsonView>,
    n: int,
    behaviors: Seq<BehaviorView>,
) -> Seq<OutcomeView>
    decreases n,
{
    if n <= 0 {
        Seq::empty()
    } else {
        postcondition_plan(list, n - 1, behaviors).push(
            postcondition_outcome(list[n - 1], n - 1, behaviors),
        )
    }
}

/// What becomes of the first `n` assigns clauses; blank ones are passed over.
pub open spec fn assigns_plan(list: Seq<JsonView>, n: int, behaviors: Seq<BehaviorView>) -> Seq<
    OutcomeView,
>
    decreases n,
{
    if n <= 0 {
        Seq::empty()
    } else if is_blank(list[n - 1]) {
        assigns_plan(list, n - 1, behaviors)
    } else {
        assigns_plan(list, n - 1, behaviors).push(assigns_outcome(list[n - 1], n - 1, behaviors))
    }
}

/// What becomes of a clause of loop `annot`, whose place and label are given.
pub open spec fn loop_outcome(
    annot: JsonView,
    keyword: Seq<char>,
    clause: JsonView,
    path: Seq<char>,
    purpose: Seq<char>,
    label: Seq<char>,
    behaviors: Seq<BehaviorView>,
) -> OutcomeView {
    outcome_of(
        acsl::loop_clause(
            keyword,
            clause.text_or_empty("acsl"@),
            clause.text_field("behavior"@),
            behaviors,
            path,
        ),
        "annot"@,
        path,
        match annot.at("stmt_id"@).signed() {
            Some(n) => Some(n as i64),
            None => None,
        },
        annot.text_or_empty("loop_label"@) + purpose,
        Some(
            "loop_"@ + text::with_char_replaced(annot.text_or_empty("loop_label"@), ' ', '_')
                + label,
        ),
        Seq::empty(),
    )
}

/// The place of loop `i` in the proposal.
pub open spec fn loop_path(i: int) -> Seq<char> {
    indexed("proposed_loop_annots"@, i)
}

/// What becomes of the first `n` invariants of loop `i`.
pub open spec fn invariant_plan(
    annot: JsonView,
    i: int,
    list: Seq<JsonView>,
    n: int,
    behaviors: Seq<BehaviorView>,
) -> Seq<OutcomeView>
    decreases n,
{
    if n <= 0 {
        Seq::empty()
    } else {
        invariant_plan(annot, i, list, n - 1, behaviors).push(
            loop_outcome(
                annot,
                "loop invariant"@,
                list[n - 1],
                indexed(loop_path(i) + ".invariants"@, n - 1),
                " invariant "@ + text::decimal((n - 1) as nat),
                "_inv_"@ + text::decimal((n - 1) as nat),
                behaviors,
            ),
        )
    }
}

/// What becomes of the first `n` assigns clauses of loop `i`; blank ones are
/// passed over.
pub open spec fn loop_assigns_plan(
    annot: JsonView,
    i: int,
    list: Seq<JsonView>,
    n: int,
    behaviors: Seq<BehaviorView>,
) -> Seq<OutcomeView>
    decreases n,
{
    if n <= 0 {
        Seq::empty()
    } else if is_blank(list[n - 1]) {
        loop_assigns_plan(annot, i, list, n - 1, behaviors)
    } else {
        loop_assigns_plan(annot, i, list, n - 1, behaviors).push(
            loop_outcome(
                annot,
                "loop assigns"@,
                list[n - 1],
                indexed(loop_path(i) + ".assigns"@, n - 1),
                " assigns "@ + text::decimal((n - 1) as nat),
                "_assigns_"@ + text::decimal((n - 1) as nat),
                behaviors,
            ),
        )
    }
}

/// What becomes of the variant of loop `i`, where it has one.
pub open spec fn variant_plan(annot: JsonView, i: int, behaviors: Seq<BehaviorView>) -> Seq<
    OutcomeView,
> {
    if is_blank(annot.at("variant"@)) {
        Seq::empty()
    } else {
        seq![
            loop_outcome(
                annot,
                "loop variant"@,
                annot.at("variant"@),
                loop_path(i) + ".variant"@,
                " variant"@,
                "_variant"@,
                behaviors,
            ),
        ]
    }
}

/// The list under `key`, or the empty list.
pub open spec fn list_under(v: JsonView, key: Seq<char>) -> Seq<JsonView> {
    match v.at(key).list() {
        Some(l) => l,
        None => Seq::empty(),
    }
}

/// What becomes of the clauses of loop `i`.
pub open spec fn loop_plan(annot: JsonView, i: int, behaviors: Seq<BehaviorView>) -> Seq<
    OutcomeView,
> {
    let invariants = list_under(annot, "invariants"@);
    let assigns = list_under(annot, "assigns"@);
    invariant_plan(annot, i, invariants, invariants.len() as int, behaviors) + loop_assigns_plan(
        annot,
        i,
        assigns,
        assigns.len() as int,
        behaviors,
    ) + variant_plan(annot, i, behaviors)
}

/// What becomes of the clauses of the first `n` loops.
pub open spec fn loops_plan(list: Seq<JsonView>, n: int, behaviors: Seq<BehaviorView>) -> Seq<
    OutcomeView,
>
    decreases n,
{
    if n <= 0 {
        Seq::empty()
    } else {
        loops_plan(list, n - 1, behaviors) + loop_plan(list[n - 1], n - 1, behaviors)
    }
}

/// The text of the termination clause: under `acsl`, or the value itself.
pub open spec fn terminates_body(v: JsonView) -> Seq<char> {
    match v.text_field("acsl"@) {
        Some(s) => s,
        None => match v.text() {
            Some(s) => s,
            None => Seq::empty(),
        },
    }
}

/// What becomes of the termination clause.
pub open spec fn terminates_plan(v: Option<JsonView>, behaviors: Seq<BehaviorView>) -> Seq<
    OutcomeView,
> {
    match v {
        Some(t) => if text::trimmed(terminates_body(t)).len() == 0 {
            Seq::empty()
        } else {
            seq![
                outcome_of(
                    acsl::funspec_clause(
                        "terminates"@,
                        terminates_body(t),
                        None,
                        behaviors,
                        "proposed_terminates"@,
                    ),
                    "spec"@,
                    "proposed_terminates"@,
                    None,
                    "termination_waived"@,
                    Some("termination_waived"@),
                    terminates_body(t),
                ),
            ]
        },
        None => Seq::empty(),
    }
}

/// What a proposal says.
pub struct ProposalView {
    pub behaviors: Seq<JsonView>,
    pub preconditions: Seq<JsonView>,
    pub postconditions: Seq<JsonView>,
    pub assigns: Seq<JsonView>,
    pub loop_annots: Seq<JsonView>,
    pub terminates: Option<JsonView>,
}

impl View for Proposal {
    type V = ProposalView;

    open spec fn view(&self) -> ProposalView {
        ProposalView {
            behaviors: json::json_views(self.behaviors@),
            preconditions: json::json_views(self.preconditions@),
            postconditions: json::json_views(self.postconditions@),
            assigns: json::json_views(self.assigns@),
            loop_annots: json::json_views(self.loop_annots@),
            terminates: match self.terminates {
                Some(t) => Some(t@),
                None => None,
            },
        }
    }
}

/// What becomes of the clauses of a proposal, in the order in which they are
/// taken: preconditions, postconditions, assigns, loops, termination.
pub open spec fn outcomes(p: ProposalView) -> Seq<OutcomeView> {
    let b = declared(p.behaviors);
    precondition_plan(p.preconditions, p.preconditions.len() as int, b) + postcondition_plan(
        p.postconditions,
        p.postconditions.len() as int,
        b,
    ) + assigns_plan(p.assigns, p.assigns.len() as int, b) + loops_plan(
        p.loop_annots,
        p.loop_annots.len() as int,
        b,
    ) + terminates_plan(p.terminates, b)
}

/// The planned clauses among outcomes.
pub open spec fn planned(o: Seq<OutcomeView>) -> Seq<PlanView>
    decreases o.len(),
{
    if o.len() == 0 {
        Seq::empty()
    } else {
        match o.last() {
            OutcomeView::Planned(e) => planned(o.drop_last()).push(e),
            OutcomeView::Refused(_) => planned(o.drop_last()),
        }
    }
}

/// The refused clauses among outcomes.
pub open spec fn refused(o: Seq<OutcomeView>) -> Seq<FailureView>
    decreases o.len(),
{
    if o.len() == 0 {
        Seq::empty()
    } else {
        match o.last() {
            OutcomeView::Planned(_) => refused(o.drop_last()),
            OutcomeView::Refused(f) => refused(o.drop_last()).push(f),
        }
    }
}

/// The behaviors that a proposal declares.
pub fn declared_behaviors(list: &Vec<Json>) -> (r: Vec<Behavior>)
    ensures
        acsl::behavior_views(r@) == declared(json::json_views(list@)),
{
    let ghost views = json::json_views(list@);
    let mut r: Vec<Behavior> = Vec::new();
    let mut i: usize = 0;
    proof {
        assert(acsl::behavior_views(r@) =~= declared(views.take(0)));
    }
    while i < list.len()
        invariant
            i <= list@.len(),
            views == json::json_views(list@),
            acsl::behavior_views(r@) == declared(views.take(i as int)),
        decreases list@.len() - i,
    {
        proof {
            assert(views.take(i + 1).drop_last() =~= views.take(i as int));
            assert(views.take(i + 1).last() == list@[i as int]@);
        }
        let name = list[i].get_str_or_empty("name");
        if !name.as_str().is_empty() {
            let assumes = match list[i].get_array("assumes") {
                Some(items) => json::texts_of(items),
                None => {
                    let none: Vec<String> = Vec::new();
                    assert(text::texts(none@) =~= Seq::<Seq<char>>::empty());
                    none
                },
            };
            let b = Behavior { name, assumes };
            assert(acsl::behavior_views(r@.push(b)) =~= acsl::behavior_views(r@).push(b@));
            r.push(b);
        }
        i = i + 1;
    }
    assert(views.take(i as int) =~= views);
    r
}

fn indexed_text(name: &str, i: usize) -> (r: String)
    ensures
        r@ == indexed(name@, i as int),
{
    name.to_owned().concat("[").concat(text::decimal_text(i as u64).as_str()).concat("]")
}

fn make_outcome(
    wrapped: Result<String, String>,
    kind: &str,
    path: String,
    stmt_id: Option<i64>,
    purpose: String,
    user_label: Option<String>,
    attempted: String,
) -> (r: Outcome)
    ensures
        r@ == outcome_of(
            (match wrapped {
                Ok(t) => Ok(t@),
                Err(m) => Err(m@),
            }),
            kind@,
            path@,
            stmt_id,
            purpose@,
            text::opt_string(user_label),
            attempted@,
        ),
{
    match wrapped {
        Ok(acsl_text) => Outcome::Planned(
            InjectionPlanEntry {
                acsl_text,
                kind: kind.to_owned(),
                derived_from: path,
                stmt_id,
                purpose,
                user_label,
            },
        ),
        Err(m) => Outcome::Refused(
            InjectionFailure {
                failure_type: FailureType::ProposedError,
                proposed_path: path,
                acsl_text: attempted,
                frama_c_error: m,
            },
        ),
    }
}

fn behavior_of(v: &Json) -> (r: Option<&str>)
    ensures
        text::opt_text(r) == v@.text_field("behavior"@),
{
    match v.get_str("behavior") {
        Some(s) => Some(s.as_str()),
        None => None,
    }
}

fn behavior_label_text(behavior: Option<&str>) -> (r: Option<String>)
    ensures
        text::opt_string(r) == behavior_label(text::opt_text(behavior)),
{
    match behavior {
        Some(b) => Some("beh_".to_owned().concat(b)),
        None => None,
    }
}

/// Adds an outcome behind the others.
fn add_outcome(out: &mut Vec<Outcome>, o: Outcome)
    ensures
        outcome_views(final(out)@) == outcome_views(old(out)@).push(o@),
{
    proof {
        assert(outcome_views(out@.push(o)) =~= outcome_views(out@).push(o@));
    }
    out.push(o);
}

fn plan_preconditions(list: &Vec<Json>, behaviors: &[Behavior], out: &mut Vec<Outcome>)
    ensures
        outcome_views(final(out)@) == outcome_views(old(out)@) + precondition_plan(
            json::json_views(list@),
            list@.len() as int,
            acsl::behavior_views(behaviors@),
        ),
{
    let ghost views = json::json_views(list@);
    let ghost b = acsl::behavior_views(behaviors@);
    let ghost before = outcome_views(out@);
    let mut i: usize = 0;
    while i < list.len()
        invariant
            i <= list@.len(),
            views == json::json_views(list@),
            b == acsl::behavior_views(behaviors@),
            outcome_views(out@) =~= before + precondition_plan(views, i as int, b),
        decreases list@.len() - i,
    {
        let v = &list[i];
        assert(views[i as int] == v@);
        let body = v.get_str_or_empty("acsl");
        let behavior = behavior_of(v);
        let path = indexed_text("proposed_requires", i);
        let wrapped = acsl::wrap_funspec_clause(
            "requires",
            body.as_str(),
            behavior,
            behaviors,
            path.as_str(),
        );
        add_outcome(
            out,
            make_outcome(
                wrapped,
                "spec",
                path,
                None,
                v.get_str_or_empty("necessity"),
                behavior_label_text(behavior),
                body,
            ),
        );
        i = i + 1;
    }
}

fn plan_postconditions(list: &Vec<Json>, behaviors: &[Behavior], out: &mut Vec<Outcome>)
    ensures
        outcome_views(final(out)@) == outcome_views(old(out)@) + postcondition_plan(
            json::json_views(list@),
            list@.len() as int,
            acsl::behavior_views(behaviors@),
        ),
{
    let ghost views = json::json_views(list@);
    let ghost b = acsl::behavior_views(behaviors@);
    let ghost before = outcome_views(out@);
    let mut i: usize = 0;
    while i < list.len()
        invariant
            i <= list@.len(),
            views == json::json_views(list@),
            b == acsl::behavior_views(behaviors@),
            outcome_views(out@) =~= before + postcondition_plan(views, i as int, b),
        decreases list@.len() - i,
    {
        let v = &list[i];
        assert(views[i as int] == v@);
        let body = v.get_str_or_empty("acsl");
        let behavior = behavior_of(v);
        let origin = v.get_str_or_empty("from");
        let path = indexed_text("proposed_ensures", i);
        let purpose = if !origin.as_str().is_empty() {
            origin
        } else {
            let chars = text::chars_of(body.as_str());
            let n: usize = if chars.len() <= 80 {
                chars.len()
            } else {
                80
            };
            proof {
                assert(chars@.subrange(0, n as int) =~= first_80(body@));
            }
            text::text_of(&chars, 0, n)
        };
        let wrapped = acsl::wrap_funspec_clause(
            "ensures",
            body.as_str(),
            behavior,
            behaviors,
            path.as_str(),
        );
        add_outcome(
            out,
            make_outcome(wrapped, "spec", path, None, purpose, behavior_label_text(behavior), body),
        );
        i = i + 1;
    }
}

fn plan_assigns(list: &Vec<Json>, behaviors: &[Behavior], out: &mut Vec<Outcome>)
    ensures
        outcome_views(final(out)@) == outcome_views(old(out)@) + assigns_plan(
            json::json_views(list@),
            list@.len() as int,
            acsl::behavior_views(behaviors@),
        ),
{
    let ghost views = json::json_views(list@);
    let ghost b = acsl::behavior_views(behaviors@);
    let ghost before = outcome_views(out@);
    let mut i: usize = 0;
    while i < list.len()
        invariant
            i <= list@.len(),
            views == json::json_views(list@),
            b == acsl::behavior_views(behaviors@),
            outcome_views(out@) =~= before + assigns_plan(views, i as int, b),
        decreases list@.len() - i,
    {
        let v = &list[i];
        assert(views[i as int] == v@);
        let body = v.get_str_or_empty("acsl");
        if !text::trim(body.as_str()).as_str().is_empty() {
            let behavior = behavior_of(v);
            let path = indexed_text("proposed_assigns", i);
            let wrapped = match acsl::wrap_funspec_clause(
                "assigns",
                body.as_str(),
                behavior,
                behaviors,
                path.as_str(),
            ) {
                Ok(t) => Ok(acsl::normalize_acsl(t.as_str())),
                Err(m) => Err(m),
            };
            let label = match behavior {
                Some(b) => "beh_".to_owned().concat(b).concat("_assigns"),
                None => "assigns_".to_owned().concat(text::decimal_text(i as u64).as_str()),
            };
            add_outcome(
                out,
                make_outcome(
                    wrapped,
                    "spec",
                    path,
                    None,
                    "Function-level modifies clause".to_owned(),
                    Some(label),
                    body,
                ),
            );
        }
        i = i + 1;
    }
}

/// The parts of a loop's entry that its clauses share.
struct LoopHead {
    stmt_id: Option<i64>,
    loop_label: String,
    base_label: String,
}

impl LoopHead {
    spec fn of(self, annot: JsonView) -> bool {
        &&& self.stmt_id == (match annot.at("stmt_id"@).signed() {
            Some(n) => Some(n as i64),
            None => None::<i64>,
        })
        &&& self.loop_label@ == annot.text_or_empty("loop_label"@)
        &&& self.base_label@ == "loop_"@ + text::with_char_replaced(
            annot.text_or_empty("loop_label"@),
            ' ',
            '_',
        )
    }
}

fn loop_clause_outcome(
    head: &LoopHead,
    keyword: &str,
    clause: &Json,
    path: String,
    purpose: &str,
    label: &str,
    behaviors: &[Behavior],
    Ghost(annot): Ghost<JsonView>,
) -> (r: Outcome)
    requires
        head.of(annot),
    ensures
        r@ == loop_outcome(
            annot,
            keyword@,
            clause@,
            path@,
            purpose@,
            label@,
            acsl::behavior_views(behaviors@),
        ),
{
    let body = clause.get_str_or_empty("acsl");
    let wrapped = acsl::wrap_loop_clause(
        keyword,
        body.as_str(),
        behavior_of(clause),
        behaviors,
        path.as_str(),
    );
    make_outcome(
        wrapped,
        "annot",
        path,
        head.stmt_id,
        head.loop_label.clone().concat(purpose),
        Some(head.base_label.clone().concat(label)),
        String::new(),
    )
}

fn plan_loop_lists(
    annot: &Json,
    i: usize,
    head: &LoopHead,
    behaviors: &[Behavior],
    out: &mut Vec<Outcome>,
)
    requires
        head.of(annot@),
    ensures
        outcome_views(final(out)@) == outcome_views(old(out)@) + (invariant_plan(
            annot@,
            i as int,
            list_under(annot@, "invariants"@),
            list_under(annot@, "invariants"@).len() as int,
            acsl::behavior_views(behaviors@),
        ) + loop_assigns_plan(
            annot@,
            i as int,
            list_under(annot@, "assigns"@),
            list_under(annot@, "assigns"@).len() as int,
            acsl::behavior_views(behaviors@),
        )),
{
    let ghost b = acsl::behavior_views(behaviors@);
    let ghost before = outcome_views(out@);
    let base = indexed_text("proposed_loop_annots", i);
    let ghost invs = list_under(annot@, "invariants"@);
    match annot.get_array("invariants") {
        Some(list) => {
            let mut j: usize = 0;
            while j < list.len()
                invariant
                    head.of(annot@),
                    base@ == loop_path(i as int),
                    j <= list@.len(),
                    invs == json::json_views(list@),
                    b == acsl::behavior_views(behaviors@),
                    outcome_views(out@) =~= before + invariant_plan(
                        annot@,
                        i as int,
                        invs,
                        j as int,
                        b,
                    ),
                decreases list@.len() - j,
            {
                assert(invs[j as int] == list@[j as int]@);
                let path = indexed_text(base.clone().concat(".invariants").as_str(), j);
                let number = text::decimal_text(j as u64);
                let purpose = " invariant ".to_owned().concat(number.as_str());
                let label = "_inv_".to_owned().concat(number.as_str());
                add_outcome(
                    out,
                    loop_clause_outcome(
                        head,
                        "loop invariant",
                        &list[j],
                        path,
                        purpose.as_str(),
                        label.as_str(),
                        behaviors,
                        Ghost(annot@),
                    ),
                );
                j = j + 1;
            }
        },
        None => {},
    }
    let ghost middle = outcome_views(out@);
    assert(middle =~= before + invariant_plan(annot@, i as int, invs, invs.len() as int, b));
    let ghost las = list_under(annot@, "assigns"@);
    match annot.get_array("assigns") {
        Some(list) => {
            let mut j: usize = 0;
            while j < list.len()
                invariant
                    head.of(annot@),
                    base@ == loop_path(i as int),
                    j <= list@.len(),
                    las == json::json_views(list@),
                    b == acsl::behavior_views(behaviors@),
                    outcome_views(out@) =~= middle + loop_assigns_plan(
                        annot@,
                        i as int,
                        las,
                        j as int,
                        b,
                    ),
                decreases list@.len() - j,
            {
                assert(las[j as int] == list@[j as int]@);
                if !text::trim(list[j].get_str_or_empty("acsl").as_str()).as_str().is_empty() {
                    let path = indexed_text(base.clone().concat(".assigns").as_str(), j);
                    let number = text::decimal_text(j as u64);
                    let purpose = " assigns ".to_owned().concat(number.as_str());
                    let label = "_assigns_".to_owned().concat(number.as_str());
                    add_outcome(
                        out,
                        loop_clause_outcome(
                            head,
                            "loop assigns",
                            &list[j],
                            path,
                            purpose.as_str(),
                            label.as_str(),
                            behaviors,
                            Ghost(annot@),
                        ),
                    );
                }
                j = j + 1;
            }
        },
        None => {},
    }
    assert(outcome_views(out@) =~= middle + loop_assigns_plan(
        annot@,
        i as int,
        las,
        las.len() as int,
        b,
    ));
}

/// The clauses of loop `i` of a proposal: its invariants, its assigns clauses and
/// its variant, each planned or refused.
pub fn loop_annots_to_acsl(annot: &Json, i: usize, behaviors: &[Behavior]) -> (r: Vec<Outcome>)
    ensures
        outcome_views(r@) == loop_plan(annot@, i as int, acsl::behavior_views(behaviors@)),
{
    let loop_label = annot.get_str_or_empty("loop_label");
    let head = LoopHead {
        stmt_id: match annot.get("stmt_id") {
            Some(v) => v.as_i64(),
            None => None,
        },
        base_label: "loop_".to_owned().concat(
            text::replace_char(loop_label.as_str(), ' ', '_').as_str(),
        ),
        loop_label,
    };
    let mut out: Vec<Outcome> = Vec::new();
    plan_loop_lists(annot, i, &head, behaviors, &mut out);
    let ghost lists = outcome_views(out@);
    match annot.get("variant") {
        Some(variant) => {
            if !text::trim(variant.get_str_or_empty("acsl").as_str()).as_str().is_empty() {
                let path = indexed_text("proposed_loop_annots", i).concat(".variant");
                add_outcome(
                    &mut out,
                    loop_clause_outcome(
                        &head,
                        "loop variant",
                        variant,
                        path,
                        " variant",
                        "_variant",
                        behaviors,
                        Ghost(annot@),
                    ),
                );
            }
        },
        None => {
            proof {
                lemma_blank_null(annot@.at("variant"@));
            }
        },
    }
    assert(outcome_views(out@) =~= loop_plan(
        annot@,
        i as int,
        acsl::behavior_views(behaviors@),
    ));
    out
}

/// Null is a blank clause.
proof fn lemma_blank_null(v: JsonView)
    requires
        v is Null,
    ensures
        is_blank(v),
{
    assert(v.text_or_empty("acsl"@) =~= Seq::<char>::empty());
}

fn plan_loops(list: &Vec<Json>, behaviors: &[Behavior], out: &mut Vec<Outcome>)
    ensures
        outcome_views(final(out)@) == outcome_views(old(out)@) + loops_plan(
            json::json_views(list@),
            list@.len() as int,
            acsl::behavior_views(behaviors@),
        ),
{
    let ghost views = json::json_views(list@);
    let ghost b = acsl::behavior_views(behaviors@);
    let ghost before = outcome_views(out@);
    let mut i: usize = 0;
    while i < list.len()
        invariant
            i <= list@.len(),
            views == json::json_views(list@),
            b == acsl::behavior_views(behaviors@),
            outcome_views(out@) =~= before + loops_plan(views, i as int, b),
        decreases list@.len() - i,
    {
        assert(views[i as int] == list@[i as int]@);
        let mut more = loop_annots_to_acsl(&list[i], i, behaviors);
        proof {
            assert(outcome_views(out@ + more@) =~= outcome_views(out@) + outcome_views(more@));
        }
        out.append(&mut more);
        i = i + 1;
    }
}

/// The plan of a proposal: the clauses to add, and those that are refused because
/// they name a behavior that is not declared.
pub fn plan_annotations(p: &Proposal) -> (r: (Vec<InjectionPlanEntry>, Vec<InjectionFailure>))
    ensures
        plan_views(r.0@) == planned(outcomes(p@)),
        failure_views(r.1@) == refused(outcomes(p@)),
{
    let behaviors = declared_behaviors(&p.behaviors);
    let mut all: Vec<Outcome> = Vec::new();
    assert(outcome_views(all@) =~= Seq::<OutcomeView>::empty());
    plan_preconditions(&p.preconditions, &behaviors, &mut all);
    plan_postconditions(&p.postconditions, &behaviors, &mut all);
    plan_assigns(&p.assigns, &behaviors, &mut all);
    plan_loops(&p.loop_annots, &behaviors, &mut all);
    match &p.terminates {
        Some(t) => {
            let body = match t.get_str("acsl") {
                Some(s) => s.clone(),
                None => match t.as_str() {
                    Some(s) => s.clone(),
                    None => String::new(),
                },
            };
            if !text::trim(body.as_str()).as_str().is_empty() {
                let path = "proposed_terminates".to_owned();
                let wrapped = acsl::wrap_funspec_clause(
                    "terminates",
                    body.as_str(),
                    None,
                    &behaviors,
                    path.as_str(),
                );
                add_outcome(
                    &mut all,
                    make_outcome(
                        wrapped,
                        "spec",
                        path,
                        None,
                        "termination_waived".to_owned(),
                        Some("termination_waived".to_owned()),
                        body,
                    ),
                );
            }
        },
        None => {},
    }
    assert(outcome_views(all@) =~= outcomes(p@));
    split_outcomes(all)
}

/// Parts outcomes into planned and refused clauses.
fn split_outcomes(all: Vec<Outcome>) -> (r: (Vec<InjectionPlanEntry>, Vec<InjectionFailure>))
    ensures
        plan_views(r.0@) == planned(outcome_views(all@)),
        failure_views(r.1@) == refused(outcome_views(all@)),
{
    let ghost views = outcome_views(all@);
    let mut rest: Vec<Outcome> = Vec::new();
    let mut all = all;
    while all.len() > 0
        invariant
            all@.len() + rest@.len() == views.len(),
            forall|j: int| 0 <= j < all@.len() ==> (#[trigger] all@[j])@ == views[j],
            forall|j: int|
                0 <= j < rest@.len() ==> (#[trigger] rest@[j])@ == views[views.len() - 1 - j],
        decreases all@.len(),
    {
        match all.pop() {
            Some(o) => {
                rest.push(o);
            },
            None => {},
        }
    }
    let mut plan: Vec<InjectionPlanEntry> = Vec::new();
    let mut failures: Vec<InjectionFailure> = Vec::new();
    proof {
        assert(plan_views(plan@) =~= planned(views.take(0)));
        assert(failure_views(failures@) =~= refused(views.take(0)));
    }
    while rest.len() > 0
        invariant
            rest@.len() <= views.len(),
            forall|j: int|
                0 <= j < rest@.len() ==> (#[trigger] rest@[j])@ == views[views.len() - 1 - j],
            plan_views(plan@) == planned(views.take(views.len() - rest@.len())),
            failure_views(failures@) == refused(views.take(views.len() - rest@.len())),
        decreases rest@.len(),
    {
        let ghost n = views.len() - rest@.len();
        proof {
            assert(views.take(n + 1).drop_last() =~= views.take(n));
            assert(views.take(n + 1).last() == rest@[rest@.len() - 1]@);
        }
        match rest.pop() {
            Some(Outcome::Planned(e)) => {
                assert(plan_views(plan@.push(e)) =~= plan_views(plan@).push(e@));
                plan.push(e);
            },
            Some(Outcome::Refused(f)) => {
                assert(failure_views(failures@.push(f)) =~= failure_views(failures@).push(f@));
                failures.push(f);
            },
            None => {},
        }
    }
    assert(views.take(views.len() as int) =~= views);
    (plan, failures)
}

// ── The target ──────────────────────────────────────────────────────────

/// Why the target does not fit the tool, if it does not: a sandbox is named with
/// its experiment in front of a colon, a function of the main instance without.
pub open spec fn target_complaint(target: Seq<char>, in_sandbox: bool) -> Option<Seq<char>> {
    if in_sandbox && !target.contains(':') {
        Some("sandbox_name must include experiment_id prefix (e.g. 'exp42:func')"@)
    } else if !in_sandbox && target.contains(':') {
        Some(
            "function must be a bare main-instance name (no ':'); use inject_all_annotations_sandbox for sandboxes"@,
        )
    } else {
        None
    }
}

/// Checks that the target fits the tool.
pub fn check_target(target: &str, in_sandbox: bool) -> (r: Result<(), String>)
    ensures
        match target_complaint(target@, in_sandbox) {
            Some(m) => r matches Err(e) && e@ == m,
            None => r is Ok,
        },
{
    let has_colon = text::has_char(target, ':');
    if in_sandbox && !has_colon {
        Err("sandbox_name must include experiment_id prefix (e.g. 'exp42:func')".to_owned())
    } else if !in_sandbox && has_colon {
        Err(
            "function must be a bare main-instance name (no ':'); use inject_all_annotations_sandbox for sandboxes".to_owned(),
        )
    } else {
        Ok(())
    }
}

/// A loop's entry with the statement id of the main instance in it.
pub open spec fn with_stmt_id(annot: JsonView, sid: i64) -> JsonView {
    match annot {
        JsonView::Record(fields) => JsonView::Record(
            json::with_field(fields, "stmt_id"@, json::whole(sid as int)),
        ),
        _ => annot,
    }
}

/// Puts the statement ids of the main instance into the loops of a proposal, in
/// source order. The sandbox has other ids; the number of loops must agree.
pub fn map_loop_sids(loops: &mut Vec<Json>, sids: &Vec<i64>, function: &str) -> (r: Result<
    (),
    String,
>)
    ensures
        match r {
            Ok(_) => {
                &&& old(loops)@.len() == 0 || old(loops)@.len() == sids@.len()
                &&& final(loops)@.len() == old(loops)@.len()
                &&& forall|i: int|
                    0 <= i < final(loops)@.len() ==> (#[trigger] final(loops)@[i])@ == with_stmt_id(
                        old(loops)@[i]@,
                        sids@[i],
                    )
            },
            Err(e) => {
                &&& old(loops)@.len() > 0 && old(loops)@.len() != sids@.len()
                &&& *final(loops) == *old(loops)
                &&& e@ == "main function '"@ + function@ + "' has "@ + text::decimal(
                    sids@.len() as nat,
                ) + " loop(s) but proposed_loop_annots has "@ + text::decimal(
                    old(loops)@.len() as nat,
                ) + " — cannot map loop sids (O3)"@
            },
        },
{
    if loops.len() == 0 {
        return Ok(());
    }
    if sids.len() != loops.len() {
        let m = "main function '".to_owned().concat(function).concat("' has ").concat(
            text::decimal_text(sids.len() as u64).as_str(),
        ).concat(" loop(s) but proposed_loop_annots has ").concat(
            text::decimal_text(loops.len() as u64).as_str(),
        ).concat(" — cannot map loop sids (O3)");
        return Err(m);
    }
    let ghost before = loops@;
    let mut i: usize = 0;
    while i < loops.len()
        invariant
            i <= loops@.len(),
            loops@.len() == before.len(),
            sids@.len() == before.len(),
            forall|j: int|
                0 <= j < i ==> (#[trigger] loops@[j])@ == with_stmt_id(before[j]@, sids@[j]),
            forall|j: int| i <= j < loops@.len() ==> #[trigger] loops@[j] == before[j],
        decreases loops@.len() - i,
    {
        let changed = match &loops[i] {
            Json::Record(o) => {
                let mut o = o.clone();
                o.insert("stmt_id".to_owned(), Json::signed(sids[i]));
                Some(Json::Record(o))
            },
            _ => None,
        };
        match changed {
            Some(j) => {
                loops.set(i, j);
            },
            None => {},
        }
        i = i + 1;
    }
    Ok(())
}

// ── The run ─────────────────────────────────────────────────────────────

/// The success of an addition, in the reply of the plugin: under `result`.
pub open spec fn plugin_success(v: JsonView) -> bool {
    v.at("result"@).at("success"@).truth() == Some(true)
}

/// The error of an addition, in the reply of the plugin: under `result`.
pub open spec fn plugin_error(v: JsonView) -> Option<Seq<char>> {
    v.at("result"@).text_field("error"@)
}

/// The JSON value of a reply's text, where it is there and is JSON.
pub open spec fn reply_json(reply: Option<Seq<char>>) -> Option<JsonView> {
    match reply {
        Some(t) => match json::json_parsed(t) {
            Ok(v) => Some(v),
            Err(_) => None,
        },
        None => None,
    }
}

/// Whether the plugin's reply, given as JSON, says that the addition succeeded.
pub fn reply_succeeded(v: &Json) -> (r: bool)
    ensures
        r == plugin_success(v@),
{
    match v.get("result") {
        Some(x) => match x.get("success") {
            Some(s) => match s.as_bool() {
                Some(b) => b,
                None => false,
            },
            None => false,
        },
        None => false,
    }
}

/// The error in the plugin's reply, given as JSON.
pub fn reply_error(v: &Json) -> (r: Option<String>)
    ensures
        text::opt_string(r) == plugin_error(v@),
{
    match v.get("result") {
        Some(x) => match x.get_str("error") {
            Some(s) => Some(s.clone()),
            None => None,
        },
        None => None,
    }
}

/// Whether the text of the plugin's reply says that the addition succeeded.
pub fn parse_plugin_success(reply: Option<&str>) -> (r: bool)
    ensures
        r == (match reply_json(text::opt_text(reply)) {
            Some(v) => plugin_success(v),
            None => false,
        }),
{
    match reply {
        Some(t) => match Json::parse(t) {
            Ok(v) => reply_succeeded(&v),
            Err(_) => false,
        },
        None => false,
    }
}

/// The error in the text of the plugin's reply.
pub fn parse_plugin_error(reply: Option<&str>) -> (r: Option<String>)
    ensures
        text::opt_string(r) == (match reply_json(text::opt_text(reply)) {
            Some(v) => plugin_error(v),
            None => None,
        }),
{
    match reply {
        Some(t) => match Json::parse(t) {
            Ok(v) => reply_error(&v),
            Err(_) => None,
        },
        None => None,
    }
}

/// The comparison keys of the clauses that a function already has.
pub open spec fn existing_keys_of(props: Seq<JsonView>) -> Seq<Seq<char>>
    decreases props.len(),
{
    if props.len() == 0 {
        Seq::empty()
    } else {
        match props.last().text_field("acsl"@) {
            Some(a) => existing_keys_of(props.drop_last()).push(comparison_key_of(a)),
            None => existing_keys_of(props.drop_last()),
        }
    }
}

/// The key by which a clause is compared with others.
pub open spec fn comparison_key_of(clause: Seq<char>) -> Seq<char> {
    acsl::comparison_key_text(
        match acsl::regex_replaced(acsl::LABEL_SUFFIX_PATTERN@, clause, ""@) {
            Some(s) => s,
            None => clause,
        },
    )
}

/// The comparison keys of the clauses among the properties of a function.
pub fn existing_keys(props: &Json) -> (r: Vec<String>)
    ensures
        text::texts(r@) == (match props@.list() {
            Some(l) => existing_keys_of(l),
            None => Seq::empty(),
        }),
{
    let mut r: Vec<String> = Vec::new();
    match props.as_array() {
        Some(list) => {
            let ghost views = json::json_views(list@);
            let mut i: usize = 0;
            proof {
                assert(text::texts(r@) =~= existing_keys_of(views.take(0)));
            }
            while i < list.len()
                invariant
                    i <= list@.len(),
                    views == json::json_views(list@),
                    text::texts(r@) == existing_keys_of(views.take(i as int)),
                decreases list@.len() - i,
            {
                proof {
                    assert(views.take(i + 1).drop_last() =~= views.take(i as int));
                    assert(views.take(i + 1).last() == list@[i as int]@);
                }
                match list[i].get_str("acsl") {
                    Some(a) => {
                        let key = acsl::normalize_for_comparison(a.as_str());
                        assert(text::texts(r@.push(key)) =~= text::texts(r@).push(key@));
                        r.push(key);
                    },
                    None => {},
                }
                i = i + 1;
            }
            assert(views.take(i as int) =~= views);
        },
        None => {
            assert(text::texts(r@) =~= Seq::<Seq<char>>::empty());
        },
    }
    r
}

/// What an added clause says.
pub struct InjectedView {
    pub hash_label: Seq<char>,
    pub user_label: Option<Seq<char>>,
    pub kind: Seq<char>,
    pub acsl: Seq<char>,
    pub stmt_id: Option<i64>,
    pub derived_from: Seq<char>,
    pub source: Seq<char>,
    pub purpose: Seq<char>,
    pub proof_target: Option<Seq<char>>,
    pub wp_status: Option<JsonView>,
    pub wp_time_ms: Option<u64>,
    pub wp_prover: Option<Seq<char>>,
}

impl View for InjectedAnnotationEntry {
    type V = InjectedView;

    open spec fn view(&self) -> InjectedView {
        InjectedView {
            hash_label: self.hash_label@,
            user_label: text::opt_string(self.user_label),
            kind: self.kind@,
            acsl: self.acsl@,
            stmt_id: self.stmt_id,
            derived_from: self.derived_from@,
            source: self.source@,
            purpose: self.purpose@,
            proof_target: text::opt_string(self.proof_target),
            wp_status: match self.wp_status {
                Some(j) => Some(j@),
                None => None,
            },
            wp_time_ms: self.wp_time_ms,
            wp_prover: text::opt_string(self.wp_prover),
        }
    }
}

pub open spec fn injected_views(v: Seq<InjectedAnnotationEntry>) -> Seq<InjectedView> {
    v.map_values(|e: InjectedAnnotationEntry| e@)
}

/// The planned clause, added under the given label.
pub open spec fn injected(e: PlanView, hash_label: Seq<char>) -> InjectedView {
    InjectedView {
        hash_label,
        user_label: e.user_label,
        kind: e.kind,
        acsl: e.acsl_text,
        stmt_id: e.stmt_id,
        derived_from: e.derived_from,
        source: "generated"@,
        purpose: e.purpose,
        proof_target: None,
        wp_status: None,
        wp_time_ms: None,
        wp_prover: None,
    }
}

/// The planned clause, refused with the given message.
pub open spec fn failed(e: PlanView, failure_type: FailureType, message: Seq<char>) -> FailureView {
    FailureView {
        failure_type,
        proposed_path: e.derived_from,
        acsl_text: e.acsl_text,
        frama_c_error: message,
    }
}

/// What came back from adding a clause.
pub enum AddReply {
    /// The call failed, with a message.
    CallFailed(String),
    /// The plugin replied with this text; the clause was sent under this label.
    Answered { reply: Option<String>, hash_label: String },
}

pub enum AddReplyView {
    CallFailed(Seq<char>),
    Answered { reply: Option<Seq<char>>, hash_label: Seq<char> },
}

impl View for AddReply {
    type V = AddReplyView;

    open spec fn view(&self) -> AddReplyView {
        match self {
            AddReply::CallFailed(m) => AddReplyView::CallFailed(m@),
            AddReply::Answered { reply, hash_label } => AddReplyView::Answered {
                reply: text::opt_string(*reply),
                hash_label: hash_label@,
            },
        }
    }
}

/// What a reply to the addition of clause `e` means: added, or why not.
pub open spec fn reply_outcome(e: PlanView, reply: AddReplyView) -> Result<
    InjectedView,
    FailureView,
> {
    match reply {
        AddReplyView::CallFailed(m) => Err(failed(e, FailureType::ProposedError, m)),
        AddReplyView::Answered { reply, hash_label } => {
            let v = reply_json(reply);
            if v matches Some(x) && plugin_success(x) {
                Ok(injected(e, hash_label))
            } else {
                let message = match v {
                    Some(x) => match plugin_error(x) {
                        Some(m) => m,
                        None => "unknown error"@,
                    },
                    None => "unknown error"@,
                };
                Err(failed(e, acsl::failure_of(acsl::lowercased(message)), message))
            }
        },
    }
}

/// What to do with the next clause of the plan.
pub enum NextClause {
    /// The function already has it.
    AlreadyThere,
    /// Send it.
    Add(AddAnnotationParams),
}

/// The adding of planned clauses, under way: the first `next` are dealt with.
pub struct Injection {
    pub plan: Vec<InjectionPlanEntry>,
    pub next: usize,
    pub successful: Vec<InjectedAnnotationEntry>,
    pub failures: Vec<InjectionFailure>,
    /// How many clauses were refused before anything was sent.
    pub refused: usize,
}

impl Injection {
    /// Each clause that was dealt with is either among the successes or among the
    /// failures.
    pub open spec fn valid(self) -> bool {
        &&& self.next <= self.plan@.len()
        &&& self.successful@.len() + self.failures@.len() == self.refused + self.next
        &&& self.refused + self.plan@.len() <= usize::MAX
    }

    /// The run on a plan, with the clauses that were refused at once.
    pub fn start(plan: Vec<InjectionPlanEntry>, refused: Vec<InjectionFailure>) -> (r: Self)
        requires
            plan@.len() + refused@.len() <= usize::MAX,
        ensures
            r.valid(),
            r.plan == plan,
            r.next == 0,
            r.successful@.len() == 0,
            r.failures == refused,
            r.refused == refused@.len(),
    {
        let n: usize = refused.len();
        Injection { plan, next: 0, successful: Vec::new(), failures: refused, refused: n }
    }

    /// What to do with the next clause, given the keys of the clauses that the
    /// function already has.
    pub fn next_clause(&self, existing: &Vec<String>, target: &str) -> (r: NextClause)
        requires
            self.next < self.plan@.len(),
        ensures
            ({
                let e = self.plan@[self.next as int]@;
                if text::texts(existing@).contains(comparison_key_of(e.acsl_text)) {
                    r is AlreadyThere
                } else {
                    r matches NextClause::Add(p) && p.function@ == target@ && p.acsl@ == e.acsl_text
                        && p.kind@ == (if acsl::is_statement_clause(
                        acsl::lowercased(text::trimmed(e.acsl_text)),
                    ) {
                        "annot"@
                    } else {
                        "spec"@
                    }) && p.stmt == e.stmt_id && text::opt_string(p.user_label) == e.user_label
                }
            }),
    {
        let e = &self.plan[self.next];
        let key = acsl::normalize_for_comparison(e.acsl_text.as_str());
        let mut i: usize = 0;
        while i < existing.len()
            invariant
                self.next < self.plan@.len(),
                key@ == comparison_key_of(self.plan@[self.next as int]@.acsl_text),
                i <= existing@.len(),
                forall|j: int| 0 <= j < i ==> #[trigger] text::texts(existing@)[j] != key@,
            decreases existing@.len() - i,
        {
            if text::same_text(existing[i].as_str(), key.as_str()) {
                assert(text::texts(existing@)[i as int] == key@);
                return NextClause::AlreadyThere;
            }
            i = i + 1;
        }
        NextClause::Add(
            AddAnnotationParams {
                function: target.to_owned(),
                kind: acsl::acsl_kind_to_ast_kind(e.acsl_text.as_str()),
                acsl: e.acsl_text.clone(),
                stmt: e.stmt_id,
                user_label: clone_opt(&e.user_label),
            },
        )
    }

    fn push_success(&mut self, hash_label: String)
        requires
            old(self).valid(),
            old(self).next < old(self).plan@.len(),
        ensures
            final(self).valid(),
            final(self).plan == old(self).plan,
            final(self).next == old(self).next + 1,
            final(self).failures == old(self).failures,
            final(self).refused == old(self).refused,
            injected_views(final(self).successful@) == injected_views(old(self).successful@).push(
                injected(old(self).plan@[old(self).next as int]@, hash_label@),
            ),
    {
        let e = &self.plan[self.next];
        let entry = InjectedAnnotationEntry {
            hash_label,
            user_label: clone_opt(&e.user_label),
            kind: e.kind.clone(),
            acsl: e.acsl_text.clone(),
            stmt_id: e.stmt_id,
            derived_from: e.derived_from.clone(),
            source: "generated".to_owned(),
            purpose: e.purpose.clone(),
            proof_target: None,
            wp_status: None,
            wp_time_ms: None,
            wp_prover: None,
        };
        proof {
            assert(injected_views(self.successful@.push(entry)) =~= injected_views(
                self.successful@,
            ).push(entry@));
        }
        self.successful.push(entry);
        self.next = self.next + 1;
    }

    fn push_failure(&mut self, failure_type: FailureType, message: String)
        requires
            old(self).valid(),
            old(self).next < old(self).plan@.len(),
        ensures
            final(self).valid(),
            final(self).plan == old(self).plan,
            final(self).next == old(self).next + 1,
            final(self).successful == old(self).successful,
            final(self).refused == old(self).refused,
            failure_views(final(self).failures@) == failure_views(old(self).failures@).push(
                failed(old(self).plan@[old(self).next as int]@, failure_type, message@),
            ),
    {
        let e = &self.plan[self.next];
        let failure = InjectionFailure {
            failure_type,
            proposed_path: e.derived_from.clone(),
            acsl_text: e.acsl_text.clone(),
            frama_c_error: message,
        };
        proof {
            assert(failure_views(self.failures@.push(failure)) =~= failure_views(
                self.failures@,
            ).push(failure@));
        }
        self.failures.push(failure);
        self.next = self.next + 1;
    }

    /// Records that the function already has the next clause: it counts as added.
    pub fn record_existing(&mut self)
        requires
            old(self).valid(),
            old(self).next < old(self).plan@.len(),
        ensures
            final(self).valid(),
            final(self).plan == old(self).plan,
            final(self).next == old(self).next + 1,
            final(self).failures == old(self).failures,
            final(self).refused == old(self).refused,
            injected_views(final(self).successful@) == injected_views(old(self).successful@).push(
                injected(old(self).plan@[old(self).next as int]@, "existing"@),
            ),
    {
        self.push_success("existing".to_owned());
    }

    /// Records the reply to the addition of the next clause.
    pub fn record_reply(&mut self, reply: AddReply)
        requires
            old(self).valid(),
            old(self).next < old(self).plan@.len(),
        ensures
            final(self).valid(),
            final(self).plan == old(self).plan,
            final(self).next == old(self).next + 1,
            final(self).refused == old(self).refused,
            match reply_outcome(old(self).plan@[old(self).next as int]@, reply@) {
                Ok(added) => {
                    &&& injected_views(final(self).successful@) == injected_views(
                        old(self).successful@,
                    ).push(added)
                    &&& final(self).failures == old(self).failures
                },
                Err(f) => {
                    &&& failure_views(final(self).failures@) == failure_views(
                        old(self).failures@,
                    ).push(f)
                    &&& final(self).successful == old(self).successful
                },
            },
    {
        match reply {
            AddReply::CallFailed(m) => {
                self.push_failure(FailureType::ProposedError, m);
            },
            AddReply::Answered { reply, hash_label } => {
                let answer: Option<&str> = match &reply {
                    Some(s) => Some(s.as_str()),
                    None => None,
                };
                if parse_plugin_success(answer) {
                    self.push_success(hash_label);
                } else {
                    let message = match parse_plugin_error(answer) {
                        Some(m) => m,
                        None => "unknown error".to_owned(),
                    };
                    self.push_failure(acsl::classify_failure(message.as_str()), message);
                }
            },
        }
    }

    /// The result, once all clauses are dealt with.
    pub fn finish(self) -> (r: InjectAllAnnotationsSandboxResponse)
        requires
            self.valid(),
            self.next == self.plan@.len(),
        ensures
            r.successful == self.successful,
            r.failures == self.failures,
            r.status@ == status_of(self.failures@),
            r.summary.successful_count == self.successful@.len(),
            r.summary.failure_count == self.failures@.len(),
            r.summary.total_attempted == r.summary.successful_count + r.summary.failure_count,
            r.summary.total_attempted == self.refused + self.plan@.len(),
    {
        let status = compute_status(&self.failures);
        let summary = InjectionSummary {
            total_attempted: self.successful.len() + self.failures.len(),
            successful_count: self.successful.len(),
            failure_count: self.failures.len(),
        };
        InjectAllAnnotationsSandboxResponse {
            status,
            successful: self.successful,
            failures: self.failures,
            summary,
        }
    }
}

/// A copy of an optional text.
pub fn clone_opt(s: &Option<String>) -> (r: Option<String>)
    ensures
        r == *s,
{
    match s {
        Some(t) => Some(t.clone()),
        None => None,
    }
}

/// The overall status: `success` without failures, `partial` where all failures
/// are syntax errors, else `proposed_error`.
pub open spec fn status_of(failures: Seq<InjectionFailure>) -> Seq<char> {
    if failures.len() == 0 {
        "success"@
    } else if forall|i: int|
        0 <= i < failures.len() ==> (#[trigger] failures[i]).failure_type
            == FailureType::SyntaxError {
        "partial"@
    } else {
        "proposed_error"@
    }
}

/// The overall status of a run with these failures.
pub fn compute_status(failures: &[InjectionFailure]) -> (r: String)
    ensures
        r@ == status_of(failures@),
{
    if failures.len() == 0 {
        return "success".to_owned();
    }
    let mut i: usize = 0;
    while i < failures.len()
        invariant
            i <= failures@.len(),
            failures@.len() > 0,
            forall|j: int|
                0 <= j < i ==> (#[trigger] failures@[j]).failure_type == FailureType::SyntaxError,
        decreases failures@.len() - i,
    {
        if failures[i].failure_type != FailureType::SyntaxError {
            assert(failures@[i as int].failure_type != FailureType::SyntaxError);
            return "proposed_error".to_owned();
        }
        i = i + 1;
    }
    "partial".to_owned()
}

// ── Laws ────────────────────────────────────────────────────────────────

/// The outcome without its statement id.
pub open spec fn without_stmt(o: OutcomeView) -> OutcomeView {
    match o {
        OutcomeView::Planned(e) => OutcomeView::Planned(PlanView { stmt_id: None, ..e }),
        OutcomeView::Refused(f) => OutcomeView::Refused(f),
    }
}

/// The outcomes without their statement ids.
pub open spec fn without_stmts(o: Seq<OutcomeView>) -> Seq<OutcomeView> {
    o.map_values(|x: OutcomeView| without_stmt(x))
}

/// The same loops, with the statement ids of the main instance.
pub open spec fn with_stmt_ids(list: Seq<JsonView>, sids: Seq<i64>) -> Seq<JsonView> {
    Seq::new(list.len(), |i: int| with_stmt_id(list[i], sids[i]))
}

proof fn lemma_stmt_id_only(annot: JsonView, sid: i64, key: Seq<char>)
    requires
        key != "stmt_id"@,
    ensures
        with_stmt_id(annot, sid).at(key) == annot.at(key),
{
    match annot {
        JsonView::Record(fields) => {
            json::field_set_is_field_found(fields, "stmt_id"@, json::whole(sid as int), key);
        },
        _ => {},
    }
}

proof fn lemma_loop_keys()
    ensures
        "loop_label"@ != "stmt_id"@,
        "invariants"@ != "stmt_id"@,
        "assigns"@ != "stmt_id"@,
        "variant"@ != "stmt_id"@,
{
    reveal_strlit("loop_label");
    reveal_strlit("invariants");
    reveal_strlit("assigns");
    reveal_strlit("variant");
    reveal_strlit("stmt_id");
    assert("loop_label"@[0] != "stmt_id"@[0]);
    assert("invariants"@[0] != "stmt_id"@[0]);
    assert("assigns"@[0] != "stmt_id"@[0]);
    assert("variant"@[0] != "stmt_id"@[0]);
}

proof fn lemma_same_invariants(
    annot: JsonView,
    sid: i64,
    i: int,
    list: Seq<JsonView>,
    n: int,
    b: Seq<BehaviorView>,
)
    ensures
        without_stmts(invariant_plan(with_stmt_id(annot, sid), i, list, n, b)) == without_stmts(
            invariant_plan(annot, i, list, n, b),
        ),
        without_stmts(loop_assigns_plan(with_stmt_id(annot, sid), i, list, n, b)) == without_stmts(
            loop_assigns_plan(annot, i, list, n, b),
        ),
    decreases n,
{
    let other = with_stmt_id(annot, sid);
    lemma_loop_keys();
    lemma_stmt_id_only(annot, sid, "loop_label"@);
    if n > 0 {
        lemma_same_invariants(annot, sid, i, list, n - 1, b);
        assert(without_stmts(invariant_plan(other, i, list, n, b)) =~= without_stmts(
            invariant_plan(other, i, list, n - 1, b),
        ).push(without_stmt(invariant_plan(other, i, list, n, b).last())));
        assert(without_stmts(invariant_plan(annot, i, list, n, b)) =~= without_stmts(
            invariant_plan(annot, i, list, n - 1, b),
        ).push(without_stmt(invariant_plan(annot, i, list, n, b).last())));
        if !is_blank(list[n - 1]) {
            assert(without_stmts(loop_assigns_plan(other, i, list, n, b)) =~= without_stmts(
                loop_assigns_plan(other, i, list, n - 1, b),
            ).push(without_stmt(loop_assigns_plan(other, i, list, n, b).last())));
            assert(without_stmts(loop_assigns_plan(annot, i, list, n, b)) =~= without_stmts(
                loop_assigns_plan(annot, i, list, n - 1, b),
            ).push(without_stmt(loop_assigns_plan(annot, i, list, n, b).last())));
        }
    } else {
        assert(without_stmts(invariant_plan(other, i, list, n, b)) =~= without_stmts(
            invariant_plan(annot, i, list, n, b),
        ));
        assert(without_stmts(loop_assigns_plan(other, i, list, n, b)) =~= without_stmts(
            loop_assigns_plan(annot, i, list, n, b),
        ));
    }
}

proof fn lemma_same_loop(annot: JsonView, sid: i64, i: int, b: Seq<BehaviorView>)
    ensures
        without_stmts(loop_plan(with_stmt_id(annot, sid), i, b)) == without_stmts(
            loop_plan(annot, i, b),
        ),
{
    let other = with_stmt_id(annot, sid);
    lemma_loop_keys();
    lemma_stmt_id_only(annot, sid, "loop_label"@);
    lemma_stmt_id_only(annot, sid, "invariants"@);
    lemma_stmt_id_only(annot, sid, "assigns"@);
    lemma_stmt_id_only(annot, sid, "variant"@);
    let invs = list_under(annot, "invariants"@);
    let las = list_under(annot, "assigns"@);
    let n = invs.len() as int;
    let m = las.len() as int;
    lemma_same_invariants(annot, sid, i, invs, n, b);
    lemma_same_invariants(annot, sid, i, las, m, b);
    let x1 = invariant_plan(other, i, invs, n, b);
    let x2 = loop_assigns_plan(other, i, las, m, b);
    let x3 = variant_plan(other, i, b);
    let y1 = invariant_plan(annot, i, invs, n, b);
    let y2 = loop_assigns_plan(annot, i, las, m, b);
    let y3 = variant_plan(annot, i, b);
    assert(without_stmts(x1 + x2 + x3) =~= without_stmts(x1) + without_stmts(x2) + without_stmts(
        x3,
    ));
    assert(without_stmts(y1 + y2 + y3) =~= without_stmts(y1) + without_stmts(y2) + without_stmts(
        y3,
    ));
    assert(without_stmts(x3) =~= without_stmts(y3));
}

proof fn lemma_same_loops(list: Seq<JsonView>, sids: Seq<i64>, n: int, b: Seq<BehaviorView>)
    requires
        0 <= n <= list.len(),
    ensures
        without_stmts(loops_plan(with_stmt_ids(list, sids), n, b)) == without_stmts(
            loops_plan(list, n, b),
        ),
    decreases n,
{
    let other = with_stmt_ids(list, sids);
    if n > 0 {
        lemma_same_loops(list, sids, n - 1, b);
        lemma_same_loop(list[n - 1], sids[n - 1], n - 1, b);
        assert(without_stmts(loops_plan(other, n, b)) =~= without_stmts(
            loops_plan(other, n - 1, b),
        ) + without_stmts(loop_plan(other[n - 1], n - 1, b)));
        assert(without_stmts(loops_plan(list, n, b)) =~= without_stmts(loops_plan(list, n - 1, b))
            + without_stmts(loop_plan(list[n - 1], n - 1, b)));
    } else {
        assert(without_stmts(loops_plan(other, n, b)) =~= without_stmts(loops_plan(list, n, b)));
    }
}

/// A proposal whose loops carry the statement ids of the main instance yields the
/// same clauses as in the sandbox, text by text: only the ids differ. What is
/// merged is what was verified.
pub proof fn main_plan_has_the_same_clauses(p: ProposalView, sids: Seq<i64>)
    ensures
        without_stmts(
            outcomes(ProposalView { loop_annots: with_stmt_ids(p.loop_annots, sids), ..p }),
        ) == without_stmts(outcomes(p)),
{
    let b = declared(p.behaviors);
    let n = p.loop_annots.len() as int;
    let other = with_stmt_ids(p.loop_annots, sids);
    lemma_same_loops(p.loop_annots, sids, n, b);
    let x = precondition_plan(p.preconditions, p.preconditions.len() as int, b)
        + postcondition_plan(p.postconditions, p.postconditions.len() as int, b) + assigns_plan(
        p.assigns,
        p.assigns.len() as int,
        b,
    );
    let z = terminates_plan(p.terminates, b);
    let y1 = loops_plan(p.loop_annots, n, b);
    let y2 = loops_plan(other, n, b);
    assert(without_stmts(x + y1 + z) =~= without_stmts(x) + without_stmts(y1) + without_stmts(z));
    assert(without_stmts(x + y2 + z) =~= without_stmts(x) + without_stmts(y2) + without_stmts(z));
}

proof fn lemma_split_counts(o: Seq<OutcomeView>)
    ensures
        planned(o).len() + refused(o).len() == o.len(),
    decreases o.len(),
{
    if o.len() > 0 {
        lemma_split_counts(o.drop_last());
    }
}

/// Every clause of a proposal that says something is accounted for: it is planned
/// or refused, never both and never neither.
pub proof fn every_clause_is_accounted_for(p: ProposalView)
    ensures
        planned(outcomes(p)).len() + refused(outcomes(p)).len() == outcomes(p).len(),
{
    lemma_split_counts(outcomes(p));
}

// ── The report ──────────────────────────────────────────────────────────

/// The name of a kind of failure.
pub open spec fn failure_name(t: FailureType) -> Seq<char> {
    match t {
        FailureType::SyntaxError => "syntax_error"@,
        FailureType::ProposedSelfReferential => "proposed_self_referential"@,
        FailureType::ProposedLocalVarInFunspec => "proposed_local_var_in_funspec"@,
        FailureType::ProposedError => "proposed_error"@,
    }
}

/// A text that may be there, as a value.
pub open spec fn text_or_null(s: Option<Seq<char>>) -> JsonView {
    match s {
        Some(t) => JsonView::Text(t),
        None => JsonView::Null,
    }
}

fn or_null(s: &Option<String>) -> (r: Json)
    ensures
        r@ == text_or_null(text::opt_string(*s)),
{
    match s {
        Some(t) => Json::text(t.as_str()),
        None => Json::Null,
    }
}

/// A clause that was added, as a value.
pub open spec fn injected_body(e: InjectedView) -> JsonView {
    json::no_fields().with("hash_label"@, JsonView::Text(e.hash_label)).with(
        "user_label"@,
        text_or_null(e.user_label),
    ).with("kind"@, JsonView::Text(e.kind)).with("acsl"@, JsonView::Text(e.acsl)).with(
        "stmt_id"@,
        match e.stmt_id {
            Some(n) => json::whole(n as int),
            None => JsonView::Null,
        },
    ).with("derived_from"@, JsonView::Text(e.derived_from)).with(
        "source"@,
        JsonView::Text(e.source),
    ).with("purpose"@, JsonView::Text(e.purpose)).with(
        "proof_target"@,
        text_or_null(e.proof_target),
    ).with(
        "wp_status"@,
        match e.wp_status {
            Some(v) => v,
            None => JsonView::Null,
        },
    ).with(
        "wp_time_ms"@,
        match e.wp_time_ms {
            Some(n) => json::whole(n as int),
            None => JsonView::Null,
        },
    ).with("wp_prover"@, text_or_null(e.wp_prover))
}

fn injected_json(e: &InjectedAnnotationEntry) -> (r: Json)
    ensures
        r@ == injected_body(e@),
{
    let stmt_id = match e.stmt_id {
        Some(n) => Json::signed(n),
        None => Json::Null,
    };
    let wp_status = match &e.wp_status {
        Some(v) => v.clone(),
        None => Json::Null,
    };
    let wp_time_ms = match e.wp_time_ms {
        Some(n) => Json::unsigned(n),
        None => Json::Null,
    };
    Json::object().with("hash_label", Json::text(e.hash_label.as_str())).with(
        "user_label",
        or_null(&e.user_label),
    ).with("kind", Json::text(e.kind.as_str())).with("acsl", Json::text(e.acsl.as_str())).with(
        "stmt_id",
        stmt_id,
    ).with("derived_from", Json::text(e.derived_from.as_str())).with(
        "source",
        Json::text(e.source.as_str()),
    ).with("purpose", Json::text(e.purpose.as_str())).with(
        "proof_target",
        or_null(&e.proof_target),
    ).with("wp_status", wp_status).with("wp_time_ms", wp_time_ms).with(
        "wp_prover",
        or_null(&e.wp_prover),
    )
}

/// A clause that was not added, as a value.
pub open spec fn failure_body(f: FailureView) -> JsonView {
    json::no_fields().with("type"@, JsonView::Text(failure_name(f.failure_type))).with(
        "proposed_path"@,
        JsonView::Text(f.proposed_path),
    ).with("acsl_text"@, JsonView::Text(f.acsl_text)).with(
        "frama_c_error"@,
        JsonView::Text(f.frama_c_error),
    )
}

fn failure_json(f: &InjectionFailure) -> (r: Json)
    ensures
        r@ == failure_body(f@),
{
    let name = match f.failure_type {
        FailureType::SyntaxError => Json::text("syntax_error"),
        FailureType::ProposedSelfReferential => Json::text("proposed_self_referential"),
        FailureType::ProposedLocalVarInFunspec => Json::text("proposed_local_var_in_funspec"),
        FailureType::ProposedError => Json::text("proposed_error"),
    };
    Json::object().with("type", name).with(
        "proposed_path",
        Json::text(f.proposed_path.as_str()),
    ).with("acsl_text", Json::text(f.acsl_text.as_str())).with(
        "frama_c_error",
        Json::text(f.frama_c_error.as_str()),
    )
}

/// What is said of adding the clauses of a proposal.
pub open spec fn injection_body(
    status: Seq<char>,
    successful: Seq<InjectedView>,
    failures: Seq<FailureView>,
    summary: InjectionSummary,
) -> JsonView {
    json::no_fields().with("status"@, JsonView::Text(status)).with(
        "successful"@,
        JsonView::List(successful.map_values(|e: InjectedView| injected_body(e))),
    ).with(
        "failures"@,
        JsonView::List(failures.map_values(|f: FailureView| failure_body(f))),
    ).with(
        "summary"@,
        json::no_fields().with(
            "total_attempted"@,
            json::whole(summary.total_attempted as int),
        ).with("successful_count"@, json::whole(summary.successful_count as int)).with(
            "failure_count"@,
            json::whole(summary.failure_count as int),
        ),
    )
}

/// What is said of adding the clauses of a proposal.
pub fn injection_report(response: &InjectAllAnnotationsSandboxResponse) -> (r: Json)
    ensures
        r@ == injection_body(
            response.status@,
            injected_views(response.successful@),
            failure_views(response.failures@),
            response.summary,
        ),
{
    let ghost wanted = injected_views(response.successful@).map_values(
        |e: InjectedView| injected_body(e),
    );
    let mut successful: Vec<Json> = Vec::new();
    let mut i: usize = 0;
    while i < response.successful.len()
        invariant
            i <= response.successful@.len(),
            wanted == injected_views(response.successful@).map_values(
                |e: InjectedView| injected_body(e),
            ),
            json::json_views(successful@) =~= wanted.take(i as int),
        decreases response.successful@.len() - i,
    {
        let line = injected_json(&response.successful[i]);
        assert(wanted[i as int] == line@);
        assert(json::json_views(successful@.push(line)) =~= json::json_views(successful@).push(
            line@,
        ));
        successful.push(line);
        i = i + 1;
    }
    assert(wanted.take(i as int) =~= wanted);
    let ghost wanted_failures = failure_views(response.failures@).map_values(
        |f: FailureView| failure_body(f),
    );
    let mut failures: Vec<Json> = Vec::new();
    let mut k: usize = 0;
    while k < response.failures.len()
        invariant
            k <= response.failures@.len(),
            wanted_failures == failure_views(response.failures@).map_values(
                |f: FailureView| failure_body(f),
            ),
            json::json_views(failures@) =~= wanted_failures.take(k as int),
        decreases response.failures@.len() - k,
    {
        let line = failure_json(&response.failures[k]);
        assert(wanted_failures[k as int] == line@);
        assert(json::json_views(failures@.push(line)) =~= json::json_views(failures@).push(line@));
        failures.push(line);
        k = k + 1;
    }
    assert(wanted_failures.take(k as int) =~= wanted_failures);
    let summary = Json::object().with(
        "total_attempted",
        Json::unsigned(response.summary.total_attempted as u64),
    ).with(
        "successful_count",
        Json::unsigned(response.summary.successful_count as u64),
    ).with("failure_count", Json::unsigned(response.summary.failure_count as u64));
    Json::object().with("status", Json::text(response.status.as_str())).with(
        "successful",
        Json::list(successful),
    ).with("failures", Json::list(failures)).with("summary", summary)
}

} // verus!
