//! What is kept of functions and of the project: which field an update touches, and
//! which it leaves alone.

use vstd::prelude::*;

use crate::json::JsonView;
use crate::state;
use crate::state::conclusion::{
    FunctionConclusionUpdate, FunctionVerificationState, SummaryView, VerificationStatus,
};
use crate::state::project::{ProjectStateUpdate, ProjectVerificationState};
use crate::state::{FunctionInfoView, GlobalInfoView};

verus! {

// ── Conclusions ─────────────────────────────────────────────────────────

/// A snapshot in the history tells the whole state: two states with the same
/// snapshot agree in every field, but for the history.
pub proof fn snapshot_tells_the_state(a: FunctionVerificationState, b: FunctionVerificationState)
    requires
        a.current() == b.current(),
    ensures
        a.function.deep_view() == b.function.deep_view(),
        a.status.deep_view() == b.status.deep_view(),
        a.specs.deep_view() == b.specs.deep_view(),
        a.reference_specs.deep_view() == b.reference_specs.deep_view(),
        a.unsound_specs.deep_view() == b.unsound_specs.deep_view(),
        a.wp_results.deep_view() == b.wp_results.deep_view(),
        a.wp_summary.deep_view() == b.wp_summary.deep_view(),
        a.notes.deep_view() == b.notes.deep_view(),
        a.callees.deep_view() == b.callees.deep_view(),
        a.callee_info.deep_view() == b.callee_info.deep_view(),
        a.existing_asserts.deep_view() == b.existing_asserts.deep_view(),
        a.proposed_behaviors.deep_view() == b.proposed_behaviors.deep_view(),
        a.proposed_requires.deep_view() == b.proposed_requires.deep_view(),
        a.proposed_ensures.deep_view() == b.proposed_ensures.deep_view(),
        a.proposed_assigns.deep_view() == b.proposed_assigns.deep_view(),
        a.proposed_loop_annots.deep_view() == b.proposed_loop_annots.deep_view(),
        a.proposed_terminates.deep_view() == b.proposed_terminates.deep_view(),
        a.callee_requests.deep_view() == b.callee_requests.deep_view(),
        a.sp_revision_count.deep_view() == b.sp_revision_count.deep_view(),
        a.last_sp_error_analysis.deep_view() == b.last_sp_error_analysis.deep_view(),
        a.proposed_revision_count.deep_view() == b.proposed_revision_count.deep_view(),
        a.last_proposed_error_analysis.deep_view() == b.last_proposed_error_analysis.deep_view(),
        a.failure_evidence.deep_view() == b.failure_evidence.deep_view(),
        a.verified_source.deep_view() == b.verified_source.deep_view(),
        a.unsound_reason_type.deep_view() == b.unsound_reason_type.deep_view(),
        a.blocking_callee_requires.deep_view() == b.blocking_callee_requires.deep_view(),
        a.infeasible_requests.deep_view() == b.infeasible_requests.deep_view(),
        a.ast_stmt_count.deep_view() == b.ast_stmt_count.deep_view(),
        a.sandbox_clean.deep_view() == b.sandbox_clean.deep_view(),
        a.annotation_count.deep_view() == b.annotation_count.deep_view(),
        a.sandbox_deleted.deep_view() == b.sandbox_deleted.deep_view(),
{
}

/// An update sets each field that it holds, and leaves each other field as it was.
pub proof fn update_sets_what_it_holds(
    before: FunctionVerificationState,
    u: FunctionConclusionUpdate,
    after: FunctionVerificationState,
)
    requires
        before.merged(u, after),
    ensures
        after.function == before.function,
        u.status matches Some(x) ==> after.status == x,
        u.status is None ==> after.status == before.status,
        u.specs matches Some(x) ==> after.specs == x,
        u.specs is None ==> after.specs == before.specs,
        u.reference_specs matches Some(x) ==> after.reference_specs == x,
        u.reference_specs is None ==> after.reference_specs == before.reference_specs,
        u.unsound_specs matches Some(x) ==> after.unsound_specs == x,
        u.unsound_specs is None ==> after.unsound_specs == before.unsound_specs,
        u.wp_results matches Some(x) ==> after.wp_results == x,
        u.wp_results is None ==> after.wp_results == before.wp_results,
        u.notes matches Some(x) ==> after.notes == x,
        u.notes is None ==> after.notes == before.notes,
        u.callees matches Some(x) ==> after.callees == x,
        u.callees is None ==> after.callees == before.callees,
        u.callee_info matches Some(x) ==> after.callee_info == x,
        u.callee_info is None ==> after.callee_info == before.callee_info,
        u.existing_asserts matches Some(x) ==> after.existing_asserts == x,
        u.existing_asserts is None ==> after.existing_asserts == before.existing_asserts,
        u.proposed_behaviors matches Some(x) ==> after.proposed_behaviors == x,
        u.proposed_behaviors is None ==> after.proposed_behaviors == before.proposed_behaviors,
        u.proposed_requires matches Some(x) ==> after.proposed_requires == x,
        u.proposed_requires is None ==> after.proposed_requires == before.proposed_requires,
        u.proposed_ensures matches Some(x) ==> after.proposed_ensures == x,
        u.proposed_ensures is None ==> after.proposed_ensures == before.proposed_ensures,
        u.proposed_assigns matches Some(x) ==> after.proposed_assigns == x,
        u.proposed_assigns is None ==> after.proposed_assigns == before.proposed_assigns,
        u.proposed_loop_annots matches Some(x) ==> after.proposed_loop_annots == x,
        u.proposed_loop_annots is None ==> after.proposed_loop_annots == before.proposed_loop_annots,
        u.callee_requests matches Some(x) ==> after.callee_requests == x,
        u.callee_requests is None ==> after.callee_requests == before.callee_requests,
        u.sp_revision_count matches Some(x) ==> after.sp_revision_count == x,
        u.sp_revision_count is None ==> after.sp_revision_count == before.sp_revision_count,
        u.last_sp_error_analysis matches Some(x) ==> after.last_sp_error_analysis == x,
        u.last_sp_error_analysis is None ==> after.last_sp_error_analysis == before.last_sp_error_analysis,
        u.proposed_revision_count matches Some(x) ==> after.proposed_revision_count == x,
        u.proposed_revision_count is None ==> after.proposed_revision_count == before.proposed_revision_count,
        u.last_proposed_error_analysis matches Some(x) ==> after.last_proposed_error_analysis == x,
        u.last_proposed_error_analysis is None ==> after.last_proposed_error_analysis == before.last_proposed_error_analysis,
        u.infeasible_requests matches Some(x) ==> after.infeasible_requests == x,
        u.infeasible_requests is None ==> after.infeasible_requests == before.infeasible_requests,
        u.wp_summary is Some ==> after.wp_summary == u.wp_summary,
        u.wp_summary is None ==> after.wp_summary == before.wp_summary,
        u.proposed_terminates is Some ==> after.proposed_terminates == u.proposed_terminates,
        u.proposed_terminates is None ==> after.proposed_terminates == before.proposed_terminates,
        u.verified_source is Some ==> after.verified_source == u.verified_source,
        u.verified_source is None ==> after.verified_source == before.verified_source,
        u.unsound_reason_type is Some ==> after.unsound_reason_type == u.unsound_reason_type,
        u.unsound_reason_type is None ==> after.unsound_reason_type == before.unsound_reason_type,
        u.blocking_callee_requires is Some ==> after.blocking_callee_requires == u.blocking_callee_requires,
        u.blocking_callee_requires is None ==> after.blocking_callee_requires == before.blocking_callee_requires,
        u.failure_evidence is Some && after.status != VerificationStatus::Verified
            ==> after.failure_evidence == u.failure_evidence,
        after.ast_stmt_count == before.ast_stmt_count,
        after.sandbox_clean == before.sandbox_clean,
        after.sandbox_deleted == before.sandbox_deleted,
        u.specs is None ==> after.annotation_count == before.annotation_count,
        u.specs matches Some(x) ==> (x@.len() <= u32::MAX ==> after.annotation_count == x@.len()),
        !u.push_history ==> after.conclusion_history == before.conclusion_history,
{
}

/// A new sandbox is clean and counts no clause, its function is under way, whatever
/// the verification had come to before, and all else that is known stays.
pub proof fn new_sandbox_starts_over(c: FunctionVerificationState, count: Option<u32>)
    ensures
        ({
            let r = c.with_sandbox(count);
            &&& r.status == VerificationStatus::InProgress
            &&& r.sandbox_clean
            &&& !r.sandbox_deleted
            &&& r.annotation_count == 0
            &&& r.ast_stmt_count == count
            &&& r == (FunctionVerificationState {
                status: r.status,
                sandbox_clean: r.sandbox_clean,
                sandbox_deleted: r.sandbox_deleted,
                annotation_count: r.annotation_count,
                ast_stmt_count: r.ast_stmt_count,
                ..c
            })
        }),
{
}

/// A clause that is added is counted, and makes the sandbox unclean; a reset makes it
/// clean, with nothing counted; a deletion only marks it as deleted. None of them
/// touches anything else.
pub proof fn sandbox_events_touch_the_sandbox_only(c: FunctionVerificationState)
    ensures
        c.with_clause_added() == (FunctionVerificationState {
            sandbox_clean: false,
            annotation_count: c.with_clause_added().annotation_count,
            ..c
        }),
        c.annotation_count < u32::MAX ==> c.with_clause_added().annotation_count
            == c.annotation_count + 1,
        c.annotation_count == u32::MAX ==> c.with_clause_added().annotation_count == u32::MAX,
        c.with_sandbox_reset() == (FunctionVerificationState {
            sandbox_clean: true,
            annotation_count: 0,
            ..c
        }),
        c.with_sandbox_deleted() == (FunctionVerificationState { sandbox_deleted: true, ..c }),
{
}

/// What happens to the sandbox of one function leaves the conclusions of all others
/// alone, and makes none.
pub proof fn sandbox_events_touch_one_function(
    conclusions: Map<Seq<char>, FunctionVerificationState>,
    function: Seq<char>,
    other: Seq<char>,
)
    ensures
        state::clause_noted(conclusions, function).dom() == conclusions.dom(),
        state::deletion_noted(conclusions, function).dom() == conclusions.dom(),
        other != function && conclusions.contains_key(other) ==> state::clause_noted(
            conclusions,
            function,
        )[other] == conclusions[other] && state::deletion_noted(conclusions, function)[other]
            == conclusions[other],
        conclusions.contains_key(function) ==> !state::clause_noted(
            conclusions,
            function,
        )[function].sandbox_clean && state::deletion_noted(
            conclusions,
            function,
        )[function].sandbox_deleted,
{
    assert(state::clause_noted(conclusions, function).dom() =~= conclusions.dom());
    assert(state::deletion_noted(conclusions, function).dom() =~= conclusions.dom());
}

/// The list of conclusions has a line for each function of the asked status, or for
/// each where none is asked, in order; the line tells its name, its status and its
/// proofs.
pub proof fn list_has_the_asked_functions(
    conclusions: Map<Seq<char>, FunctionVerificationState>,
    order: Seq<Seq<char>>,
    filter: Option<VerificationStatus>,
)
    ensures
        state::summary_list(conclusions, order, filter) == order.filter(
            |n: Seq<char>| filter is None || conclusions[n].status == filter->0,
        ).map_values(
            |n: Seq<char>|
                SummaryView {
                    function: conclusions[n].function@,
                    status: conclusions[n].status,
                    wp_summary: conclusions[n].wp_summary.deep_view(),
                },
        ),
    decreases order.len(),
{
    reveal(Seq::filter);
    let p = |n: Seq<char>| filter is None || conclusions[n].status == filter->0;
    let f = |n: Seq<char>|
        SummaryView {
            function: conclusions[n].function@,
            status: conclusions[n].status,
            wp_summary: conclusions[n].wp_summary.deep_view(),
        };
    if order.len() > 0 {
        let rest = order.drop_last();
        list_has_the_asked_functions(conclusions, rest, filter);
        assert(rest.filter(p).push(order.last()).map_values(f) =~= rest.filter(p).map_values(f).push(
            f(order.last()),
        ));
    }
    assert(state::summary_list(conclusions, order, filter) =~= order.filter(p).map_values(f));
}

// ── The project ─────────────────────────────────────────────────────────

/// An update of the project sets each field that it holds, and leaves each other
/// field as it was.
pub proof fn project_update_sets_what_it_holds(
    before: ProjectVerificationState,
    u: ProjectStateUpdate,
    after: ProjectVerificationState,
)
    requires
        before.merged(u, after),
    ensures
        u.source_files matches Some(x) ==> after.source_files == x,
        u.source_files is None ==> after.source_files == before.source_files,
        u.verification_order matches Some(x) ==> after.verification_order == x,
        u.verification_order is None ==> after.verification_order == before.verification_order,
        u.current_index matches Some(x) ==> after.current_index == x,
        u.current_index is None ==> after.current_index == before.current_index,
        u.global_notes matches Some(x) ==> after.global_notes == x,
        u.global_notes is None ==> after.global_notes == before.global_notes,
        u.current_level matches Some(x) ==> after.current_level == x,
        u.current_level is None ==> after.current_level == before.current_level,
        u.scc_groups matches Some(x) ==> after.scc_groups == x,
        u.scc_groups is None ==> after.scc_groups == before.scc_groups,
        u.completion_map matches Some(x) ==> after.completion_map == x,
        u.completion_map is None ==> after.completion_map == before.completion_map,
        u.feedback_pending matches Some(x) ==> after.feedback_pending == x,
        u.feedback_pending is None ==> after.feedback_pending == before.feedback_pending,
        u.scc_iteration_counters matches Some(x) ==> after.scc_iteration_counters == x,
        u.scc_iteration_counters is None ==> after.scc_iteration_counters == before.scc_iteration_counters,
        u.scc_spec_hashes matches Some(x) ==> after.scc_spec_hashes == x,
        u.scc_spec_hashes is None ==> after.scc_spec_hashes == before.scc_spec_hashes,
        u.last_spec_hash matches Some(x) ==> after.last_spec_hash == x,
        u.last_spec_hash is None ==> after.last_spec_hash == before.last_spec_hash,
        u.last_progress_snapshot matches Some(x) ==> after.last_progress_snapshot == x,
        u.last_progress_snapshot is None ==> after.last_progress_snapshot == before.last_progress_snapshot,
        u.locked matches Some(x) ==> after.locked == x,
        u.locked is None ==> after.locked == before.locked,
        u.failure_evidence is Some ==> after.failure_evidence == u.failure_evidence,
        u.failure_evidence is None ==> after.failure_evidence == before.failure_evidence,
        u.final_gate_result is Some ==> after.final_gate_result == u.final_gate_result,
        u.final_gate_result is None ==> after.final_gate_result == before.final_gate_result,
        u.merged_source is Some ==> after.merged_source == u.merged_source,
        u.merged_source is None ==> after.merged_source == before.merged_source,
{
}

/// What a client submits is taken as it is, but for the lock and, once there is a
/// state, for the order, its groups and its level. The first state is not locked,
/// whatever is submitted.
pub proof fn submission_is_taken_as_it_is(
    submitted: ProjectVerificationState,
    current: Option<ProjectVerificationState>,
    after: ProjectVerificationState,
)
    requires
        ProjectVerificationState::accepted(submitted, current, after),
    ensures
        after.source_files == submitted.source_files,
        after.current_index == submitted.current_index,
        after.global_notes == submitted.global_notes,
        after.completion_map == submitted.completion_map,
        after.feedback_pending == submitted.feedback_pending,
        after.scc_iteration_counters == submitted.scc_iteration_counters,
        after.scc_spec_hashes == submitted.scc_spec_hashes,
        after.last_spec_hash == submitted.last_spec_hash,
        after.last_progress_snapshot == submitted.last_progress_snapshot,
        after.failure_evidence == submitted.failure_evidence,
        after.final_gate_result == submitted.final_gate_result,
        after.merged_source == submitted.merged_source,
        current is None ==> after.verification_order == submitted.verification_order
            && after.scc_groups == submitted.scc_groups && after.current_level
            == submitted.current_level && !after.locked,
        current matches Some(c) ==> after.locked == c.locked && after.verification_order
            == c.verification_order && after.scc_groups == c.scc_groups && after.current_level
            == c.current_level,
{
}

// ── Functions and variables ─────────────────────────────────────────────

/// The text of a field, or the empty text.
pub open spec fn said(v: JsonView, key: Seq<char>) -> Seq<char> {
    match v.at(key) {
        JsonView::Text(s) => s,
        _ => Seq::empty(),
    }
}

/// What an entry says of a function or of a variable: each field under its own key,
/// the place under `sloc`.
pub proof fn entry_says_each_field(e: JsonView)
    ensures
        ({
            let f = state::function_entry(e);
            &&& f.name == said(e, "name"@)
            &&& f.marker == said(e, "key"@)
            &&& f.declaration == said(e, "decl"@)
            &&& f.signature == said(e, "signature"@)
            &&& f.file == said(e.at("sloc"@), "file"@)
            &&& f.defined <==> e.at("defined"@) == JsonView::Bool(true)
            &&& e.at("sloc"@).at("line"@).unsigned() matches Some(n) ==> (n <= u32::MAX ==> f.line
                == n)
        }),
        ({
            let g = state::global_entry(e);
            &&& g.name == said(e, "name"@)
            &&& g.marker == said(e, "key"@)
            &&& g.declaration == said(e, "decl"@)
            &&& g.typ == said(e, "type"@)
            &&& g.file == said(e.at("sloc"@), "file"@)
            &&& e.at("sloc"@).at("line"@).unsigned() matches Some(n) ==> (n <= u32::MAX ==> g.line
                == n)
        }),
{
}

/// The table of functions has an entry for each name in the list: what the last
/// entry of that name says. Entries without a name are passed over.
pub proof fn table_has_the_last_entry_of_each_name(list: Seq<JsonView>, name: Seq<char>, i: int)
    ensures
        state::function_table(list).contains_key(name) <==> name.len() > 0 && exists|j: int|
            0 <= j < list.len() && said(#[trigger] list[j], "name"@) == name,
        state::global_table(list).contains_key(name) <==> name.len() > 0 && exists|j: int|
            0 <= j < list.len() && said(#[trigger] list[j], "name"@) == name,
        name.len() > 0 && 0 <= i < list.len() && said(list[i], "name"@) == name && (forall|j: int|
            i < j < list.len() ==> said(#[trigger] list[j], "name"@) != name)
            ==> state::function_table(list)[name] == state::function_entry(list[i])
            && state::global_table(list)[name] == state::global_entry(list[i]),
    decreases list.len(),
{
    if list.len() > 0 {
        let rest = list.drop_last();
        table_has_the_last_entry_of_each_name(rest, name, i);
        assert(list[list.len() - 1] == list.last());
        let now = exists|j: int| 0 <= j < list.len() && said(#[trigger] list[j], "name"@) == name;
        let before = exists|j: int|
            0 <= j < rest.len() && said(#[trigger] rest[j], "name"@) == name;
        assert(now <==> before || said(list.last(), "name"@) == name) by {
            if before {
                let j = choose|j: int|
                    0 <= j < rest.len() && said(#[trigger] rest[j], "name"@) == name;
                assert(list[j] == rest[j]);
            }
            if now {
                let j = choose|j: int|
                    0 <= j < list.len() && said(#[trigger] list[j], "name"@) == name;
                if j < rest.len() {
                    assert(rest[j] == list[j]);
                }
            }
        }
        if name.len() > 0 && 0 <= i < list.len() && said(list[i], "name"@) == name && (forall|
            j: int,
        |
            i < j < list.len() ==> said(#[trigger] list[j], "name"@) != name) {
            if i < rest.len() {
                assert(rest[i] == list[i]);
                assert forall|j: int| i < j < rest.len() implies said(#[trigger] rest[j], "name"@)
                    != name by {
                    assert(rest[j] == list[j]);
                }
                assert(said(list[list.len() - 1], "name"@) != name);
            }
        }
    }
}

/// A sandbox that was made is noted with its function: under way, clean, with nothing
/// counted; with all else that was known of it, or from the blank state. No other
/// conclusion changes, and nothing else of the session.
pub proof fn new_sandbox_is_noted(
    before: state::SessionState,
    function: Seq<char>,
    count: Option<u32>,
    after: state::SessionState,
    other: Seq<char>,
)
    requires
        before.notes_sandbox(function, count, after),
    ensures
        after.conclusions@.contains_key(function),
        ({
            let c = after.conclusions@[function];
            &&& c.status == VerificationStatus::InProgress
            &&& c.sandbox_clean && !c.sandbox_deleted
            &&& c.annotation_count == 0
            &&& c.ast_stmt_count == count
            &&& before.conclusions@.contains_key(function) ==> c.specs
                == before.conclusions@[function].specs && c.conclusion_history
                == before.conclusions@[function].conclusion_history && c.notes
                == before.conclusions@[function].notes && c.function
                == before.conclusions@[function].function
            &&& !before.conclusions@.contains_key(function) ==> c.function@ == function
                && c.specs@.len() == 0
        }),
        other != function ==> (after.conclusions@.contains_key(other)
            <==> before.conclusions@.contains_key(other)),
        other != function && before.conclusions@.contains_key(other) ==> after.conclusions@[other]
            == before.conclusions@[other],
        after.project_state == before.project_state && after.functions == before.functions,
{
}

/// The order that was computed becomes the project's, from its lowest level on; all
/// else of the project stays.
pub proof fn order_is_seeded_at_the_bottom(
    before: state::SessionState,
    p: ProjectVerificationState,
    after: ProjectVerificationState,
)
    requires
        before.project_state == Some(p),
        before.seeds_order(after),
    ensures
        after.current_level == 0,
        after.source_files == p.source_files,
        after.current_index == p.current_index,
        after.global_notes == p.global_notes,
        after.completion_map == p.completion_map,
        after.locked == p.locked,
        after.merged_source == p.merged_source,
        after.final_gate_result == p.final_gate_result,
{
}

} // verus!
