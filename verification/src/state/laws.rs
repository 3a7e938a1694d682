//! What holds of a session whatever is done in it.

use vstd::prelude::*;

use crate::state::conclusion::{
    FunctionConclusionUpdate, FunctionVerificationState, VerificationStatus,
};
use crate::state::project::{ProjectStateUpdate, ProjectVerificationState, SccGroup};

verus! {

/// A verified function has no evidence of a failure.
pub open spec fn is_consistent(c: FunctionVerificationState) -> bool {
    c.status == VerificationStatus::Verified ==> c.failure_evidence is None
}

/// Each conclusion is filed under the name of its function, and is consistent.
pub open spec fn well_filed(conclusions: Map<Seq<char>, FunctionVerificationState>) -> bool {
    forall|name: Seq<char>| #[trigger]
        conclusions.contains_key(name) ==> conclusions[name].function@ == name && is_consistent(
            conclusions[name],
        )
}

/// An update without contents changes nothing.
pub proof fn empty_update_changes_nothing(
    before: FunctionVerificationState,
    u: FunctionConclusionUpdate,
    after: FunctionVerificationState,
)
    requires
        u.is_nothing(),
        before.merged(u, after),
        is_consistent(before),
    ensures
        after == before,
{
}

/// What one update sets and the next leaves out stays as the first one set it; the
/// evidence of a failure only as long as the function is not verified.
pub proof fn later_updates_keep_what_they_leave_out(
    before: FunctionVerificationState,
    first: FunctionConclusionUpdate,
    between: FunctionVerificationState,
    second: FunctionConclusionUpdate,
    after: FunctionVerificationState,
)
    requires
        before.merged(first, between),
        between.merged(second, after),
    ensures
        first.status is Some && second.status is None ==> after.status
            == first.status->0,
        first.specs is Some && second.specs is None ==> after.specs
            == first.specs->0,
        first.reference_specs is Some && second.reference_specs is None ==> after.reference_specs
            == first.reference_specs->0,
        first.unsound_specs is Some && second.unsound_specs is None ==> after.unsound_specs
            == first.unsound_specs->0,
        first.wp_results is Some && second.wp_results is None ==> after.wp_results
            == first.wp_results->0,
        first.notes is Some && second.notes is None ==> after.notes
            == first.notes->0,
        first.callees is Some && second.callees is None ==> after.callees
            == first.callees->0,
        first.callee_info is Some && second.callee_info is None ==> after.callee_info
            == first.callee_info->0,
        first.existing_asserts is Some && second.existing_asserts is None ==> after.existing_asserts
            == first.existing_asserts->0,
        first.proposed_behaviors is Some && second.proposed_behaviors is None ==> after.proposed_behaviors
            == first.proposed_behaviors->0,
        first.proposed_requires is Some && second.proposed_requires is None ==> after.proposed_requires
            == first.proposed_requires->0,
        first.proposed_ensures is Some && second.proposed_ensures is None ==> after.proposed_ensures
            == first.proposed_ensures->0,
        first.proposed_assigns is Some && second.proposed_assigns is None ==> after.proposed_assigns
            == first.proposed_assigns->0,
        first.proposed_loop_annots is Some && second.proposed_loop_annots is None ==> after.proposed_loop_annots
            == first.proposed_loop_annots->0,
        first.callee_requests is Some && second.callee_requests is None ==> after.callee_requests
            == first.callee_requests->0,
        first.sp_revision_count is Some && second.sp_revision_count is None ==> after.sp_revision_count
            == first.sp_revision_count->0,
        first.last_sp_error_analysis is Some && second.last_sp_error_analysis is None ==> after.last_sp_error_analysis
            == first.last_sp_error_analysis->0,
        first.proposed_revision_count is Some && second.proposed_revision_count is None ==> after.proposed_revision_count
            == first.proposed_revision_count->0,
        first.last_proposed_error_analysis is Some && second.last_proposed_error_analysis is None ==> after.last_proposed_error_analysis
            == first.last_proposed_error_analysis->0,
        first.infeasible_requests is Some && second.infeasible_requests is None ==> after.infeasible_requests
            == first.infeasible_requests->0,
        first.wp_summary is Some && second.wp_summary is None ==> after.wp_summary
            == first.wp_summary,
        first.proposed_terminates is Some && second.proposed_terminates is None ==> after.proposed_terminates
            == first.proposed_terminates,
        first.verified_source is Some && second.verified_source is None ==> after.verified_source
            == first.verified_source,
        first.unsound_reason_type is Some && second.unsound_reason_type is None ==> after.unsound_reason_type
            == first.unsound_reason_type,
        first.blocking_callee_requires is Some && second.blocking_callee_requires is None ==> after.blocking_callee_requires
            == first.blocking_callee_requires,
        first.specs is Some && second.specs is None ==> after.annotation_count == (
        first.specs->0@.len() % 0x1_0000_0000) as u32,
        first.failure_evidence is Some && second.failure_evidence is None && between.status
            != VerificationStatus::Verified && after.status != VerificationStatus::Verified
            ==> after.failure_evidence == first.failure_evidence,
{
}

/// The history only grows, at its end, by the state from before an update, and only
/// where the update asks for it.
pub proof fn history_only_grows(
    before: FunctionVerificationState,
    u: FunctionConclusionUpdate,
    after: FunctionVerificationState,
)
    requires
        before.merged(u, after),
    ensures
        before.conclusion_history@.len() <= after.conclusion_history@.len(),
        forall|i: int|
            0 <= i < before.conclusion_history@.len() ==> #[trigger] after.conclusion_history@[i]
                == before.conclusion_history@[i],
        after.conclusion_history@.len() == before.conclusion_history@.len() + (if u.push_history {
            1int
        } else {
            0int
        }),
        u.push_history ==> after.conclusion_history@.last().deep_view() == before.current(),
{
    if u.push_history {
        assert forall|i: int| 0 <= i < before.conclusion_history@.len() implies
            #[trigger] after.conclusion_history@[i] == before.conclusion_history@[i] by {
            assert(after.conclusion_history@.drop_last()[i] == after.conclusion_history@[i]);
        }
    }
}

/// A function that is verified loses the evidence of its failures, and keeps it
/// lost until it fails anew.
pub proof fn verified_clears_the_evidence(
    before: FunctionVerificationState,
    u: FunctionConclusionUpdate,
    after: FunctionVerificationState,
)
    requires
        before.merged(u, after),
    ensures
        is_consistent(after),
        u.status == Some(VerificationStatus::Verified) ==> after.failure_evidence is None,
        after.status != VerificationStatus::Verified && u.failure_evidence is None
            ==> after.failure_evidence == before.failure_evidence,
{
}

/// Conclusions stay filed under their functions' names, and consistent, whatever is
/// stored.
pub proof fn storing_keeps_order(
    before: Map<Seq<char>, FunctionVerificationState>,
    base: FunctionVerificationState,
    u: FunctionConclusionUpdate,
    after: FunctionVerificationState,
)
    requires
        well_filed(before),
        if before.contains_key(u.function@) {
            base == before[u.function@]
        } else {
            base.is_blank(u.function@)
        },
        base.merged(u, after),
    ensures
        well_filed(before.insert(u.function@, after)),
        forall|name: Seq<char>|
            name != u.function@ ==> (#[trigger] before.insert(u.function@, after).contains_key(name)
                <==> before.contains_key(name)),
        forall|name: Seq<char>|
            name != u.function@ && before.contains_key(name) ==> (#[trigger] before.insert(
                u.function@,
                after,
            )[name]) == before[name],
{
}

/// Conclusions stay filed under their functions' names, and consistent, whatever
/// happens to a sandbox.
pub proof fn sandboxes_keep_order(
    before: Map<Seq<char>, FunctionVerificationState>,
    name: Seq<char>,
    base: FunctionVerificationState,
    ast_stmt_count: Option<u32>,
)
    requires
        well_filed(before),
        if before.contains_key(name) {
            base == before[name]
        } else {
            base.is_blank(name)
        },
    ensures
        well_filed(before.insert(name, base.with_sandbox(ast_stmt_count))),
        well_filed(before.insert(name, base.with_clause_added())),
        well_filed(before.insert(name, base.with_sandbox_reset())),
        well_filed(before.insert(name, base.with_sandbox_deleted())),
{
}

/// The state once `n` clauses were added, one after the other.
pub open spec fn with_clauses_added(c: FunctionVerificationState, n: nat) -> FunctionVerificationState
    decreases n,
{
    if n == 0 {
        c
    } else {
        with_clauses_added(c, (n - 1) as nat).with_clause_added()
    }
}

/// The count of a new sandbox is the number of clauses that were added to it, and
/// it is clean as long as there are none. A reset takes it back to where it was.
pub proof fn sandbox_counts_its_clauses(
    c: FunctionVerificationState,
    ast_stmt_count: Option<u32>,
    n: nat,
)
    requires
        n <= u32::MAX,
    ensures
        ({
            let made = c.with_sandbox(ast_stmt_count);
            let used = with_clauses_added(made, n);
            &&& used.annotation_count == n
            &&& used.sandbox_clean <==> n == 0
            &&& used.with_sandbox_reset() == made
            &&& used == (FunctionVerificationState {
                annotation_count: used.annotation_count,
                sandbox_clean: used.sandbox_clean,
                ..made
            })
        }),
    decreases n,
{
    if n > 0 {
        sandbox_counts_its_clauses(c, ast_stmt_count, (n - 1) as nat);
    }
}

/// A sandbox that is deleted is there again once it is created again.
pub proof fn creation_undoes_deletion(c: FunctionVerificationState, ast_stmt_count: Option<u32>)
    ensures
        c.with_sandbox_deleted().sandbox_deleted,
        !c.with_sandbox_deleted().with_sandbox(ast_stmt_count).sandbox_deleted,
        c.with_sandbox_deleted().with_sandbox(ast_stmt_count) == c.with_sandbox(ast_stmt_count),
        c.with_sandbox_deleted().with_sandbox_deleted() == c.with_sandbox_deleted(),
{
}

/// What a client submits changes neither the lock nor, once there is one, the order
/// of verification, its groups and its level.
pub proof fn submission_leaves_the_servers_fields(
    submitted: ProjectVerificationState,
    current: Option<ProjectVerificationState>,
    after: ProjectVerificationState,
)
    requires
        ProjectVerificationState::accepted(submitted, current, after),
    ensures
        after.locked == (current is Some && current->0.locked),
        current matches Some(c) ==> after.verification_order == c.verification_order
            && after.scc_groups == c.scc_groups && after.current_level == c.current_level,
{
}

/// The order that was computed is still the order after any submission.
pub proof fn seeded_order_survives_submission(
    base: ProjectVerificationState,
    verification_order: Vec<String>,
    scc_groups: Vec<SccGroup>,
    submitted: ProjectVerificationState,
    after: ProjectVerificationState,
)
    requires
        ProjectVerificationState::accepted(
            submitted,
            Some(
                (ProjectVerificationState {
                    verification_order,
                    scc_groups,
                    current_level: 0,
                    ..base
                }),
            ),
            after,
        ),
    ensures
        after.verification_order == verification_order,
        after.scc_groups == scc_groups,
        after.current_level == 0,
{
}

/// An update of the project without contents changes nothing.
pub proof fn empty_project_update_changes_nothing(
    before: ProjectVerificationState,
    u: ProjectStateUpdate,
    after: ProjectVerificationState,
)
    requires
        u.is_nothing(),
        before.merged(u, after),
    ensures
        after == before,
{
}

} // verus!
