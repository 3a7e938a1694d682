//! What is known of a function that is verified.

use vstd::prelude::*;

use crate::duplicate::Duplicate;
use crate::json::{Json, JsonView};
use crate::names::NameMap;

verus! {

/// How far the verification of a function has come.
#[derive(Debug, Clone, Copy, PartialEq, Eq, Structural)]
pub enum VerificationStatus {
    InProgress,
    Verified,
    /// The tool could not prove what holds.
    Failed,
    /// What was to be proved does not hold.
    Unsound,
    /// A callee promises too little.
    BlockedOnCallee,
}

impl DeepView for VerificationStatus {
    type V = VerificationStatus;

    open spec fn deep_view(&self) -> VerificationStatus {
        *self
    }
}

impl Duplicate for VerificationStatus {
    fn duplicate(&self) -> (r: Self) {
        *self
    }
}

/// Where a clause comes from.
#[derive(Debug, Clone, Copy, PartialEq, Eq, Structural)]
pub enum AnnotationSource {
    /// The source code.
    Original,
    /// It was generated and committed.
    Generated,
    /// It is a candidate that is not proved.
    Reference,
}

impl DeepView for AnnotationSource {
    type V = AnnotationSource;

    open spec fn deep_view(&self) -> AnnotationSource {
        *self
    }
}

impl Duplicate for AnnotationSource {
    fn duplicate(&self) -> (r: Self) {
        *self
    }
}

impl DeepView for Json {
    type V = JsonView;

    open spec fn deep_view(&self) -> JsonView {
        self@
    }
}

impl Duplicate for Json {
    fn duplicate(&self) -> (r: Self) {
        self.clone()
    }
}

/// A clause that was committed for a function.
#[derive(Debug)]
pub struct AnnotationEntry {
    /// The label that the server generated.
    pub hash_label: String,
    /// The label that the caller chose.
    pub user_label: Option<String>,
    /// `spec` for a clause of the function, `annot` for one of a statement.
    pub kind: String,
    pub acsl: String,
    /// The statement, for a clause of one.
    pub stmt_id: Option<i64>,
    /// Where the clause comes from: a place in the proposal, or a remediation.
    pub derived_from: String,
    pub source: AnnotationSource,
    pub purpose: String,
    /// The label of the clause that this one helps to prove.
    pub proof_target: Option<String>,
    pub wp_status: Option<String>,
    pub wp_time_ms: Option<u32>,
    pub wp_prover: Option<String>,
}

/// What an [`AnnotationEntry`] says.
pub struct AnnotationEntryView {
    pub hash_label: Seq<char>,
    pub user_label: Option<Seq<char>>,
    pub kind: Seq<char>,
    pub acsl: Seq<char>,
    pub stmt_id: Option<i64>,
    pub derived_from: Seq<char>,
    pub source: AnnotationSource,
    pub purpose: Seq<char>,
    pub proof_target: Option<Seq<char>>,
    pub wp_status: Option<Seq<char>>,
    pub wp_time_ms: Option<u32>,
    pub wp_prover: Option<Seq<char>>,
}

impl DeepView for AnnotationEntry {
    type V = AnnotationEntryView;

    open spec fn deep_view(&self) -> AnnotationEntryView {
        AnnotationEntryView {
            hash_label: self.hash_label.deep_view(),
            user_label: self.user_label.deep_view(),
            kind: self.kind.deep_view(),
            acsl: self.acsl.deep_view(),
            stmt_id: self.stmt_id.deep_view(),
            derived_from: self.derived_from.deep_view(),
            source: self.source.deep_view(),
            purpose: self.purpose.deep_view(),
            proof_target: self.proof_target.deep_view(),
            wp_status: self.wp_status.deep_view(),
            wp_time_ms: self.wp_time_ms.deep_view(),
            wp_prover: self.wp_prover.deep_view(),
        }
    }
}

impl Duplicate for AnnotationEntry {
    fn duplicate(&self) -> (r: Self) {
        AnnotationEntry {
            hash_label: self.hash_label.duplicate(),
            user_label: self.user_label.duplicate(),
            kind: self.kind.duplicate(),
            acsl: self.acsl.duplicate(),
            stmt_id: self.stmt_id.duplicate(),
            derived_from: self.derived_from.duplicate(),
            source: self.source.duplicate(),
            purpose: self.purpose.duplicate(),
            proof_target: self.proof_target.duplicate(),
            wp_status: self.wp_status.duplicate(),
            wp_time_ms: self.wp_time_ms.duplicate(),
            wp_prover: self.wp_prover.duplicate(),
        }
    }
}

/// The result of one proof goal.
#[derive(Debug)]
pub struct WpGoalResult {
    pub name: String,
    pub status: String,
    pub prover: Option<String>,
    pub time_ms: Option<u32>,
    /// The label of the clause that the goal is about.
    pub related_spec: Option<String>,
}

/// What a [`WpGoalResult`] says.
pub struct WpGoalResultView {
    pub name: Seq<char>,
    pub status: Seq<char>,
    pub prover: Option<Seq<char>>,
    pub time_ms: Option<u32>,
    pub related_spec: Option<Seq<char>>,
}

impl DeepView for WpGoalResult {
    type V = WpGoalResultView;

    open spec fn deep_view(&self) -> WpGoalResultView {
        WpGoalResultView {
            name: self.name.deep_view(),
            status: self.status.deep_view(),
            prover: self.prover.deep_view(),
            time_ms: self.time_ms.deep_view(),
            related_spec: self.related_spec.deep_view(),
        }
    }
}

impl Duplicate for WpGoalResult {
    fn duplicate(&self) -> (r: Self) {
        WpGoalResult {
            name: self.name.duplicate(),
            status: self.status.duplicate(),
            prover: self.prover.duplicate(),
            time_ms: self.time_ms.duplicate(),
            related_spec: self.related_spec.duplicate(),
        }
    }
}

/// An assertion of the source, or a runtime-error goal, that was not proved.
#[derive(Debug)]
pub struct FailedSourceAssert {
    pub stmt_id: u32,
    pub acsl: String,
    pub kind: String,
}

/// What a [`FailedSourceAssert`] says.
pub struct FailedSourceAssertView {
    pub stmt_id: u32,
    pub acsl: Seq<char>,
    pub kind: Seq<char>,
}

impl DeepView for FailedSourceAssert {
    type V = FailedSourceAssertView;

    open spec fn deep_view(&self) -> FailedSourceAssertView {
        FailedSourceAssertView {
            stmt_id: self.stmt_id.deep_view(),
            acsl: self.acsl.deep_view(),
            kind: self.kind.deep_view(),
        }
    }
}

impl Duplicate for FailedSourceAssert {
    fn duplicate(&self) -> (r: Self) {
        FailedSourceAssert {
            stmt_id: self.stmt_id.duplicate(),
            acsl: self.acsl.duplicate(),
            kind: self.kind.duplicate(),
        }
    }
}

/// How many goals came out how.
#[derive(Debug)]
pub struct WpGoalSummary {
    pub total: u32,
    pub valid: u32,
    pub unknown: u32,
    pub timeout: u32,
    pub failed: u32,
    pub model: Option<String>,
    /// The time limit, in seconds.
    pub timeout_used: Option<u32>,
    pub recorded_at_retry: Option<u32>,
    pub failed_goal_labels: Vec<String>,
    pub failed_source_asserts: Vec<FailedSourceAssert>,
}

/// What a [`WpGoalSummary`] says.
pub struct WpGoalSummaryView {
    pub total: u32,
    pub valid: u32,
    pub unknown: u32,
    pub timeout: u32,
    pub failed: u32,
    pub model: Option<Seq<char>>,
    pub timeout_used: Option<u32>,
    pub recorded_at_retry: Option<u32>,
    pub failed_goal_labels: Seq<Seq<char>>,
    pub failed_source_asserts: Seq<FailedSourceAssertView>,
}

impl DeepView for WpGoalSummary {
    type V = WpGoalSummaryView;

    open spec fn deep_view(&self) -> WpGoalSummaryView {
        WpGoalSummaryView {
            total: self.total.deep_view(),
            valid: self.valid.deep_view(),
            unknown: self.unknown.deep_view(),
            timeout: self.timeout.deep_view(),
            failed: self.failed.deep_view(),
            model: self.model.deep_view(),
            timeout_used: self.timeout_used.deep_view(),
            recorded_at_retry: self.recorded_at_retry.deep_view(),
            failed_goal_labels: self.failed_goal_labels.deep_view(),
            failed_source_asserts: self.failed_source_asserts.deep_view(),
        }
    }
}

impl Duplicate for WpGoalSummary {
    fn duplicate(&self) -> (r: Self) {
        WpGoalSummary {
            total: self.total.duplicate(),
            valid: self.valid.duplicate(),
            unknown: self.unknown.duplicate(),
            timeout: self.timeout.duplicate(),
            failed: self.failed.duplicate(),
            model: self.model.duplicate(),
            timeout_used: self.timeout_used.duplicate(),
            recorded_at_retry: self.recorded_at_retry.duplicate(),
            failed_goal_labels: self.failed_goal_labels.duplicate(),
            failed_source_asserts: self.failed_source_asserts.duplicate(),
        }
    }
}

/// A clause that was removed because it does not hold.
#[derive(Debug)]
pub struct UnsoundSpec {
    pub hash_label: String,
    pub kind: String,
    pub acsl: String,
    pub stmt_id: Option<u32>,
    pub counterexample: String,
    pub removed_at_retry: Option<u32>,
}

/// What an [`UnsoundSpec`] says.
pub struct UnsoundSpecView {
    pub hash_label: Seq<char>,
    pub kind: Seq<char>,
    pub acsl: Seq<char>,
    pub stmt_id: Option<u32>,
    pub counterexample: Seq<char>,
    pub removed_at_retry: Option<u32>,
}

impl DeepView for UnsoundSpec {
    type V = UnsoundSpecView;

    open spec fn deep_view(&self) -> UnsoundSpecView {
        UnsoundSpecView {
            hash_label: self.hash_label.deep_view(),
            kind: self.kind.deep_view(),
            acsl: self.acsl.deep_view(),
            stmt_id: self.stmt_id.deep_view(),
            counterexample: self.counterexample.deep_view(),
            removed_at_retry: self.removed_at_retry.deep_view(),
        }
    }
}

impl Duplicate for UnsoundSpec {
    fn duplicate(&self) -> (r: Self) {
        UnsoundSpec {
            hash_label: self.hash_label.duplicate(),
            kind: self.kind.duplicate(),
            acsl: self.acsl.duplicate(),
            stmt_id: self.stmt_id.duplicate(),
            counterexample: self.counterexample.duplicate(),
            removed_at_retry: self.removed_at_retry.duplicate(),
        }
    }
}

/// Why the verification of a function came to a dead end.
#[derive(Debug)]
pub struct FailureEvidence {
    pub failure_type: String,
    pub location: String,
    pub acsl: String,
    pub unsupported_predicate: Option<String>,
    pub attempted_reformulations: Vec<String>,
    pub counterexample: Option<String>,
}

/// What a [`FailureEvidence`] says.
pub struct FailureEvidenceView {
    pub failure_type: Seq<char>,
    pub location: Seq<char>,
    pub acsl: Seq<char>,
    pub unsupported_predicate: Option<Seq<char>>,
    pub attempted_reformulations: Seq<Seq<char>>,
    pub counterexample: Option<Seq<char>>,
}

impl DeepView for FailureEvidence {
    type V = FailureEvidenceView;

    open spec fn deep_view(&self) -> FailureEvidenceView {
        FailureEvidenceView {
            failure_type: self.failure_type.deep_view(),
            location: self.location.deep_view(),
            acsl: self.acsl.deep_view(),
            unsupported_predicate: self.unsupported_predicate.deep_view(),
            attempted_reformulations: self.attempted_reformulations.deep_view(),
            counterexample: self.counterexample.deep_view(),
        }
    }
}

impl Duplicate for FailureEvidence {
    fn duplicate(&self) -> (r: Self) {
        FailureEvidence {
            failure_type: self.failure_type.duplicate(),
            location: self.location.duplicate(),
            acsl: self.acsl.duplicate(),
            unsupported_predicate: self.unsupported_predicate.duplicate(),
            attempted_reformulations: self.attempted_reformulations.duplicate(),
            counterexample: self.counterexample.duplicate(),
        }
    }
}

/// What is known of a callee, by kind of source.
#[derive(Debug)]
pub struct CalleeSources {
    pub verified_spec: Option<String>,
    pub semantic_proof: Option<String>,
    pub semiformal_proof: Option<String>,
    pub verified_source: Option<String>,
    pub program_summary: Option<String>,
    pub ast: Option<String>,
}

/// What a [`CalleeSources`] says.
pub struct CalleeSourcesView {
    pub verified_spec: Option<Seq<char>>,
    pub semantic_proof: Option<Seq<char>>,
    pub semiformal_proof: Option<Seq<char>>,
    pub verified_source: Option<Seq<char>>,
    pub program_summary: Option<Seq<char>>,
    pub ast: Option<Seq<char>>,
}

impl Default for CalleeSources {
    fn default() -> (r: Self)
        ensures
            r.verified_spec is None && r.semantic_proof is None && r.semiformal_proof is None,
            r.verified_source is None && r.program_summary is None && r.ast is None,
    {
        CalleeSources {
            verified_spec: None,
            semantic_proof: None,
            semiformal_proof: None,
            verified_source: None,
            program_summary: None,
            ast: None,
        }
    }
}

impl DeepView for CalleeSources {
    type V = CalleeSourcesView;

    open spec fn deep_view(&self) -> CalleeSourcesView {
        CalleeSourcesView {
            verified_spec: self.verified_spec.deep_view(),
            semantic_proof: self.semantic_proof.deep_view(),
            semiformal_proof: self.semiformal_proof.deep_view(),
            verified_source: self.verified_source.deep_view(),
            program_summary: self.program_summary.deep_view(),
            ast: self.ast.deep_view(),
        }
    }
}

impl Duplicate for CalleeSources {
    fn duplicate(&self) -> (r: Self) {
        CalleeSources {
            verified_spec: self.verified_spec.duplicate(),
            semantic_proof: self.semantic_proof.duplicate(),
            semiformal_proof: self.semiformal_proof.duplicate(),
            verified_source: self.verified_source.duplicate(),
            program_summary: self.program_summary.duplicate(),
            ast: self.ast.duplicate(),
        }
    }
}

/// The state of a callee.
#[derive(Debug)]
pub struct CalleeInfo {
    pub status: String,
    pub sources: CalleeSources,
}

/// What a [`CalleeInfo`] says.
pub struct CalleeInfoView {
    pub status: Seq<char>,
    pub sources: CalleeSourcesView,
}

impl DeepView for CalleeInfo {
    type V = CalleeInfoView;

    open spec fn deep_view(&self) -> CalleeInfoView {
        CalleeInfoView {
            status: self.status.deep_view(),
            sources: self.sources.deep_view(),
        }
    }
}

impl Duplicate for CalleeInfo {
    fn duplicate(&self) -> (r: Self) {
        CalleeInfo {
            status: self.status.duplicate(),
            sources: self.sources.duplicate(),
        }
    }
}

/// A property that a caller needs of a callee.
#[derive(Debug)]
pub struct CalleeRequest {
    pub callee: String,
    pub required_property: String,
    pub reason: String,
}

/// What a [`CalleeRequest`] says.
pub struct CalleeRequestView {
    pub callee: Seq<char>,
    pub required_property: Seq<char>,
    pub reason: Seq<char>,
}

impl DeepView for CalleeRequest {
    type V = CalleeRequestView;

    open spec fn deep_view(&self) -> CalleeRequestView {
        CalleeRequestView {
            callee: self.callee.deep_view(),
            required_property: self.required_property.deep_view(),
            reason: self.reason.deep_view(),
        }
    }
}

impl Duplicate for CalleeRequest {
    fn duplicate(&self) -> (r: Self) {
        CalleeRequest {
            callee: self.callee.duplicate(),
            required_property: self.required_property.duplicate(),
            reason: self.reason.duplicate(),
        }
    }
}

/// A precondition of a callee that the caller cannot meet.
#[derive(Debug)]
pub struct BlockingCalleeRequires {
    pub callee: String,
    pub blocking_requires: String,
    pub caller_state_at_site: String,
    pub strengthening_attempt: String,
    pub evidence: String,
}

/// What a [`BlockingCalleeRequires`] says.
pub struct BlockingCalleeRequiresView {
    pub callee: Seq<char>,
    pub blocking_requires: Seq<char>,
    pub caller_state_at_site: Seq<char>,
    pub strengthening_attempt: Seq<char>,
    pub evidence: Seq<char>,
}

impl DeepView for BlockingCalleeRequires {
    type V = BlockingCalleeRequiresView;

    open spec fn deep_view(&self) -> BlockingCalleeRequiresView {
        BlockingCalleeRequiresView {
            callee: self.callee.deep_view(),
            blocking_requires: self.blocking_requires.deep_view(),
            caller_state_at_site: self.caller_state_at_site.deep_view(),
            strengthening_attempt: self.strengthening_attempt.deep_view(),
            evidence: self.evidence.deep_view(),
        }
    }
}

impl Duplicate for BlockingCalleeRequires {
    fn duplicate(&self) -> (r: Self) {
        BlockingCalleeRequires {
            callee: self.callee.duplicate(),
            blocking_requires: self.blocking_requires.duplicate(),
            caller_state_at_site: self.caller_state_at_site.duplicate(),
            strengthening_attempt: self.strengthening_attempt.duplicate(),
            evidence: self.evidence.duplicate(),
        }
    }
}

/// A request of a caller that the callee had to refuse.
#[derive(Debug)]
pub struct InfeasibleRequest {
    pub caller: String,
    pub rejected_request_type: String,
    pub rejected_requires: String,
    pub infeasibility_reason: String,
}

/// What an [`InfeasibleRequest`] says.
pub struct InfeasibleRequestView {
    pub caller: Seq<char>,
    pub rejected_request_type: Seq<char>,
    pub rejected_requires: Seq<char>,
    pub infeasibility_reason: Seq<char>,
}

impl DeepView for InfeasibleRequest {
    type V = InfeasibleRequestView;

    open spec fn deep_view(&self) -> InfeasibleRequestView {
        InfeasibleRequestView {
            caller: self.caller.deep_view(),
            rejected_request_type: self.rejected_request_type.deep_view(),
            rejected_requires: self.rejected_requires.deep_view(),
            infeasibility_reason: self.infeasibility_reason.deep_view(),
        }
    }
}

impl Duplicate for InfeasibleRequest {
    fn duplicate(&self) -> (r: Self) {
        InfeasibleRequest {
            caller: self.caller.duplicate(),
            rejected_request_type: self.rejected_request_type.duplicate(),
            rejected_requires: self.rejected_requires.duplicate(),
            infeasibility_reason: self.infeasibility_reason.duplicate(),
        }
    }
}

/// An assertion that the source already has.
#[derive(Debug)]
pub struct ExistingAssert {
    pub stmt_id: u32,
    pub acsl: String,
    pub origin: String,
}

/// What an [`ExistingAssert`] says.
pub struct ExistingAssertView {
    pub stmt_id: u32,
    pub acsl: Seq<char>,
    pub origin: Seq<char>,
}

impl DeepView for ExistingAssert {
    type V = ExistingAssertView;

    open spec fn deep_view(&self) -> ExistingAssertView {
        ExistingAssertView {
            stmt_id: self.stmt_id.deep_view(),
            acsl: self.acsl.deep_view(),
            origin: self.origin.deep_view(),
        }
    }
}

impl Duplicate for ExistingAssert {
    fn duplicate(&self) -> (r: Self) {
        ExistingAssert {
            stmt_id: self.stmt_id.duplicate(),
            acsl: self.acsl.duplicate(),
            origin: self.origin.duplicate(),
        }
    }
}

/// A named behavior with its assumptions. Without assumptions it always applies.
#[derive(Debug)]
pub struct ProposedBehavior {
    pub name: String,
    pub assumes: Vec<String>,
}

/// What a [`ProposedBehavior`] says.
pub struct ProposedBehaviorView {
    pub name: Seq<char>,
    pub assumes: Seq<Seq<char>>,
}

impl DeepView for ProposedBehavior {
    type V = ProposedBehaviorView;

    open spec fn deep_view(&self) -> ProposedBehaviorView {
        ProposedBehaviorView {
            name: self.name.deep_view(),
            assumes: self.assumes.deep_view(),
        }
    }
}

impl Duplicate for ProposedBehavior {
    fn duplicate(&self) -> (r: Self) {
        ProposedBehavior {
            name: self.name.duplicate(),
            assumes: self.assumes.duplicate(),
        }
    }
}

/// A proposed precondition.
#[derive(Debug)]
pub struct ProposedRequires {
    pub acsl: String,
    /// The behavior that the clause belongs to.
    pub behavior: Option<String>,
    pub necessity: String,
}

/// What a [`ProposedRequires`] says.
pub struct ProposedRequiresView {
    pub acsl: Seq<char>,
    pub behavior: Option<Seq<char>>,
    pub necessity: Seq<char>,
}

impl DeepView for ProposedRequires {
    type V = ProposedRequiresView;

    open spec fn deep_view(&self) -> ProposedRequiresView {
        ProposedRequiresView {
            acsl: self.acsl.deep_view(),
            behavior: self.behavior.deep_view(),
            necessity: self.necessity.deep_view(),
        }
    }
}

impl Duplicate for ProposedRequires {
    fn duplicate(&self) -> (r: Self) {
        ProposedRequires {
            acsl: self.acsl.duplicate(),
            behavior: self.behavior.duplicate(),
            necessity: self.necessity.duplicate(),
        }
    }
}

/// A proposed postcondition.
#[derive(Debug)]
pub struct ProposedEnsures {
    pub acsl: String,
    pub from: String,
    /// The behavior that the clause belongs to.
    pub behavior: Option<String>,
}

/// What a [`ProposedEnsures`] says.
pub struct ProposedEnsuresView {
    pub acsl: Seq<char>,
    pub from: Seq<char>,
    pub behavior: Option<Seq<char>>,
}

impl DeepView for ProposedEnsures {
    type V = ProposedEnsuresView;

    open spec fn deep_view(&self) -> ProposedEnsuresView {
        ProposedEnsuresView {
            acsl: self.acsl.deep_view(),
            from: self.from.deep_view(),
            behavior: self.behavior.deep_view(),
        }
    }
}

impl Duplicate for ProposedEnsures {
    fn duplicate(&self) -> (r: Self) {
        ProposedEnsures {
            acsl: self.acsl.duplicate(),
            from: self.from.duplicate(),
            behavior: self.behavior.duplicate(),
        }
    }
}

/// A proposed assigns clause.
#[derive(Debug)]
pub struct ProposedAssigns {
    pub acsl: String,
    /// The behavior that the clause belongs to.
    pub behavior: Option<String>,
}

/// What a [`ProposedAssigns`] says.
pub struct ProposedAssignsView {
    pub acsl: Seq<char>,
    pub behavior: Option<Seq<char>>,
}

impl DeepView for ProposedAssigns {
    type V = ProposedAssignsView;

    open spec fn deep_view(&self) -> ProposedAssignsView {
        ProposedAssignsView {
            acsl: self.acsl.deep_view(),
            behavior: self.behavior.deep_view(),
        }
    }
}

impl Duplicate for ProposedAssigns {
    fn duplicate(&self) -> (r: Self) {
        ProposedAssigns {
            acsl: self.acsl.duplicate(),
            behavior: self.behavior.duplicate(),
        }
    }
}

/// A proposed loop invariant.
#[derive(Debug)]
pub struct ProposedLoopInvariant {
    pub acsl: String,
    pub behavior: Option<String>,
}

/// What a [`ProposedLoopInvariant`] says.
pub struct ProposedLoopInvariantView {
    pub acsl: Seq<char>,
    pub behavior: Option<Seq<char>>,
}

impl DeepView for ProposedLoopInvariant {
    type V = ProposedLoopInvariantView;

    open spec fn deep_view(&self) -> ProposedLoopInvariantView {
        ProposedLoopInvariantView {
            acsl: self.acsl.deep_view(),
            behavior: self.behavior.deep_view(),
        }
    }
}

impl Duplicate for ProposedLoopInvariant {
    fn duplicate(&self) -> (r: Self) {
        ProposedLoopInvariant {
            acsl: self.acsl.duplicate(),
            behavior: self.behavior.duplicate(),
        }
    }
}

/// A proposed loop assigns clause.
#[derive(Debug)]
pub struct ProposedLoopAssigns {
    pub acsl: String,
    pub behavior: Option<String>,
}

/// What a [`ProposedLoopAssigns`] says.
pub struct ProposedLoopAssignsView {
    pub acsl: Seq<char>,
    pub behavior: Option<Seq<char>>,
}

impl DeepView for ProposedLoopAssigns {
    type V = ProposedLoopAssignsView;

    open spec fn deep_view(&self) -> ProposedLoopAssignsView {
        ProposedLoopAssignsView {
            acsl: self.acsl.deep_view(),
            behavior: self.behavior.deep_view(),
        }
    }
}

impl Duplicate for ProposedLoopAssigns {
    fn duplicate(&self) -> (r: Self) {
        ProposedLoopAssigns {
            acsl: self.acsl.duplicate(),
            behavior: self.behavior.duplicate(),
        }
    }
}

/// A proposed loop variant.
#[derive(Debug)]
pub struct ProposedLoopVariant {
    pub acsl: String,
    pub behavior: Option<String>,
}

/// What a [`ProposedLoopVariant`] says.
pub struct ProposedLoopVariantView {
    pub acsl: Seq<char>,
    pub behavior: Option<Seq<char>>,
}

impl DeepView for ProposedLoopVariant {
    type V = ProposedLoopVariantView;

    open spec fn deep_view(&self) -> ProposedLoopVariantView {
        ProposedLoopVariantView {
            acsl: self.acsl.deep_view(),
            behavior: self.behavior.deep_view(),
        }
    }
}

impl Duplicate for ProposedLoopVariant {
    fn duplicate(&self) -> (r: Self) {
        ProposedLoopVariant {
            acsl: self.acsl.duplicate(),
            behavior: self.behavior.duplicate(),
        }
    }
}

/// The proposed clauses of a loop.
#[derive(Debug)]
pub struct ProposedLoopAnnot {
    pub stmt_id: u32,
    pub loop_label: String,
    pub invariants: Vec<ProposedLoopInvariant>,
    pub assigns: Vec<ProposedLoopAssigns>,
    pub variant: Option<ProposedLoopVariant>,
}

/// What a [`ProposedLoopAnnot`] says.
pub struct ProposedLoopAnnotView {
    pub stmt_id: u32,
    pub loop_label: Seq<char>,
    pub invariants: Seq<ProposedLoopInvariantView>,
    pub assigns: Seq<ProposedLoopAssignsView>,
    pub variant: Option<ProposedLoopVariantView>,
}

impl DeepView for ProposedLoopAnnot {
    type V = ProposedLoopAnnotView;

    open spec fn deep_view(&self) -> ProposedLoopAnnotView {
        ProposedLoopAnnotView {
            stmt_id: self.stmt_id.deep_view(),
            loop_label: self.loop_label.deep_view(),
            invariants: self.invariants.deep_view(),
            assigns: self.assigns.deep_view(),
            variant: self.variant.deep_view(),
        }
    }
}

impl Duplicate for ProposedLoopAnnot {
    fn duplicate(&self) -> (r: Self) {
        ProposedLoopAnnot {
            stmt_id: self.stmt_id.duplicate(),
            loop_label: self.loop_label.duplicate(),
            invariants: self.invariants.duplicate(),
            assigns: self.assigns.duplicate(),
            variant: self.variant.duplicate(),
        }
    }
}

/// What was known of a function at some earlier time.
#[derive(Debug)]
pub struct ConclusionSnapshot {
    pub function: String,
    pub status: VerificationStatus,
    /// The committed clauses.
    pub specs: Vec<AnnotationEntry>,
    /// Clauses kept for reference only.
    pub reference_specs: Vec<AnnotationEntry>,
    /// Clauses removed because they do not hold.
    pub unsound_specs: Vec<UnsoundSpec>,
    pub wp_results: Vec<WpGoalResult>,
    pub wp_summary: Option<WpGoalSummary>,
    pub notes: String,
    pub callees: Vec<String>,
    pub callee_info: NameMap<CalleeInfo>,
    pub existing_asserts: Vec<ExistingAssert>,
    pub proposed_behaviors: Vec<ProposedBehavior>,
    pub proposed_requires: Vec<ProposedRequires>,
    pub proposed_ensures: Vec<ProposedEnsures>,
    pub proposed_assigns: Vec<ProposedAssigns>,
    pub proposed_loop_annots: Vec<ProposedLoopAnnot>,
    /// The termination clause, where there is one.
    pub proposed_terminates: Option<Json>,
    pub callee_requests: Vec<CalleeRequest>,
    pub sp_revision_count: u32,
    pub last_sp_error_analysis: String,
    pub proposed_revision_count: u32,
    pub last_proposed_error_analysis: String,
    pub failure_evidence: Option<FailureEvidence>,
    pub verified_source: Option<String>,
    pub unsound_reason_type: Option<String>,
    pub blocking_callee_requires: Option<BlockingCalleeRequires>,
    pub infeasible_requests: Vec<InfeasibleRequest>,
    /// How many statements the sandbox has.
    pub ast_stmt_count: Option<u32>,
    /// Nothing was added to the sandbox since it was made or reset.
    pub sandbox_clean: bool,
    /// How many clauses were added to the sandbox.
    pub annotation_count: u32,
    pub sandbox_deleted: bool,
}

/// What a [`ConclusionSnapshot`] says.
pub struct ConclusionSnapshotView {
    pub function: Seq<char>,
    pub status: VerificationStatus,
    pub specs: Seq<AnnotationEntryView>,
    pub reference_specs: Seq<AnnotationEntryView>,
    pub unsound_specs: Seq<UnsoundSpecView>,
    pub wp_results: Seq<WpGoalResultView>,
    pub wp_summary: Option<WpGoalSummaryView>,
    pub notes: Seq<char>,
    pub callees: Seq<Seq<char>>,
    pub callee_info: Map<Seq<char>, CalleeInfoView>,
    pub existing_asserts: Seq<ExistingAssertView>,
    pub proposed_behaviors: Seq<ProposedBehaviorView>,
    pub proposed_requires: Seq<ProposedRequiresView>,
    pub proposed_ensures: Seq<ProposedEnsuresView>,
    pub proposed_assigns: Seq<ProposedAssignsView>,
    pub proposed_loop_annots: Seq<ProposedLoopAnnotView>,
    pub proposed_terminates: Option<JsonView>,
    pub callee_requests: Seq<CalleeRequestView>,
    pub sp_revision_count: u32,
    pub last_sp_error_analysis: Seq<char>,
    pub proposed_revision_count: u32,
    pub last_proposed_error_analysis: Seq<char>,
    pub failure_evidence: Option<FailureEvidenceView>,
    pub verified_source: Option<Seq<char>>,
    pub unsound_reason_type: Option<Seq<char>>,
    pub blocking_callee_requires: Option<BlockingCalleeRequiresView>,
    pub infeasible_requests: Seq<InfeasibleRequestView>,
    pub ast_stmt_count: Option<u32>,
    pub sandbox_clean: bool,
    pub annotation_count: u32,
    pub sandbox_deleted: bool,
}

impl DeepView for ConclusionSnapshot {
    type V = ConclusionSnapshotView;

    open spec fn deep_view(&self) -> ConclusionSnapshotView {
        ConclusionSnapshotView {
            function: self.function.deep_view(),
            status: self.status.deep_view(),
            specs: self.specs.deep_view(),
            reference_specs: self.reference_specs.deep_view(),
            unsound_specs: self.unsound_specs.deep_view(),
            wp_results: self.wp_results.deep_view(),
            wp_summary: self.wp_summary.deep_view(),
            notes: self.notes.deep_view(),
            callees: self.callees.deep_view(),
            callee_info: self.callee_info.deep_view(),
            existing_asserts: self.existing_asserts.deep_view(),
            proposed_behaviors: self.proposed_behaviors.deep_view(),
            proposed_requires: self.proposed_requires.deep_view(),
            proposed_ensures: self.proposed_ensures.deep_view(),
            proposed_assigns: self.proposed_assigns.deep_view(),
            proposed_loop_annots: self.proposed_loop_annots.deep_view(),
            proposed_terminates: self.proposed_terminates.deep_view(),
            callee_requests: self.callee_requests.deep_view(),
            sp_revision_count: self.sp_revision_count.deep_view(),
            last_sp_error_analysis: self.last_sp_error_analysis.deep_view(),
            proposed_revision_count: self.proposed_revision_count.deep_view(),
            last_proposed_error_analysis: self.last_proposed_error_analysis.deep_view(),
            failure_evidence: self.failure_evidence.deep_view(),
            verified_source: self.verified_source.deep_view(),
            unsound_reason_type: self.unsound_reason_type.deep_view(),
            blocking_callee_requires: self.blocking_callee_requires.deep_view(),
            infeasible_requests: self.infeasible_requests.deep_view(),
            ast_stmt_count: self.ast_stmt_count.deep_view(),
            sandbox_clean: self.sandbox_clean.deep_view(),
            annotation_count: self.annotation_count.deep_view(),
            sandbox_deleted: self.sandbox_deleted.deep_view(),
        }
    }
}

/// What is known of a function that is verified.
#[derive(Debug)]
pub struct FunctionVerificationState {
    pub function: String,
    pub status: VerificationStatus,
    /// The committed clauses.
    pub specs: Vec<AnnotationEntry>,
    /// Clauses kept for reference only.
    pub reference_specs: Vec<AnnotationEntry>,
    /// Clauses removed because they do not hold.
    pub unsound_specs: Vec<UnsoundSpec>,
    pub wp_results: Vec<WpGoalResult>,
    pub wp_summary: Option<WpGoalSummary>,
    pub notes: String,
    pub callees: Vec<String>,
    pub callee_info: NameMap<CalleeInfo>,
    pub existing_asserts: Vec<ExistingAssert>,
    pub proposed_behaviors: Vec<ProposedBehavior>,
    pub proposed_requires: Vec<ProposedRequires>,
    pub proposed_ensures: Vec<ProposedEnsures>,
    pub proposed_assigns: Vec<ProposedAssigns>,
    pub proposed_loop_annots: Vec<ProposedLoopAnnot>,
    /// The termination clause, where there is one.
    pub proposed_terminates: Option<Json>,
    pub callee_requests: Vec<CalleeRequest>,
    pub sp_revision_count: u32,
    pub last_sp_error_analysis: String,
    pub proposed_revision_count: u32,
    pub last_proposed_error_analysis: String,
    pub failure_evidence: Option<FailureEvidence>,
    pub verified_source: Option<String>,
    pub unsound_reason_type: Option<String>,
    pub blocking_callee_requires: Option<BlockingCalleeRequires>,
    pub infeasible_requests: Vec<InfeasibleRequest>,
    /// How many statements the sandbox has.
    pub ast_stmt_count: Option<u32>,
    /// Nothing was added to the sandbox since it was made or reset.
    pub sandbox_clean: bool,
    /// How many clauses were added to the sandbox.
    pub annotation_count: u32,
    pub sandbox_deleted: bool,
    /// Earlier states, taken before a revision.
    pub conclusion_history: Vec<ConclusionSnapshot>,
}

impl FunctionVerificationState {
    /// What the state says, but for its history.
    pub open spec fn current(self) -> ConclusionSnapshotView {
        ConclusionSnapshotView {
            function: self.function.deep_view(),
            status: self.status.deep_view(),
            specs: self.specs.deep_view(),
            reference_specs: self.reference_specs.deep_view(),
            unsound_specs: self.unsound_specs.deep_view(),
            wp_results: self.wp_results.deep_view(),
            wp_summary: self.wp_summary.deep_view(),
            notes: self.notes.deep_view(),
            callees: self.callees.deep_view(),
            callee_info: self.callee_info.deep_view(),
            existing_asserts: self.existing_asserts.deep_view(),
            proposed_behaviors: self.proposed_behaviors.deep_view(),
            proposed_requires: self.proposed_requires.deep_view(),
            proposed_ensures: self.proposed_ensures.deep_view(),
            proposed_assigns: self.proposed_assigns.deep_view(),
            proposed_loop_annots: self.proposed_loop_annots.deep_view(),
            proposed_terminates: self.proposed_terminates.deep_view(),
            callee_requests: self.callee_requests.deep_view(),
            sp_revision_count: self.sp_revision_count.deep_view(),
            last_sp_error_analysis: self.last_sp_error_analysis.deep_view(),
            proposed_revision_count: self.proposed_revision_count.deep_view(),
            last_proposed_error_analysis: self.last_proposed_error_analysis.deep_view(),
            failure_evidence: self.failure_evidence.deep_view(),
            verified_source: self.verified_source.deep_view(),
            unsound_reason_type: self.unsound_reason_type.deep_view(),
            blocking_callee_requires: self.blocking_callee_requires.deep_view(),
            infeasible_requests: self.infeasible_requests.deep_view(),
            ast_stmt_count: self.ast_stmt_count.deep_view(),
            sandbox_clean: self.sandbox_clean.deep_view(),
            annotation_count: self.annotation_count.deep_view(),
            sandbox_deleted: self.sandbox_deleted.deep_view(),
        }
    }

    /// The state as it is now, for the history. A history is no part of it.
    pub fn snapshot(&self) -> (r: ConclusionSnapshot)
        ensures
            r.deep_view() == self.current(),
    {
        ConclusionSnapshot {
            function: self.function.duplicate(),
            status: self.status.duplicate(),
            specs: self.specs.duplicate(),
            reference_specs: self.reference_specs.duplicate(),
            unsound_specs: self.unsound_specs.duplicate(),
            wp_results: self.wp_results.duplicate(),
            wp_summary: self.wp_summary.duplicate(),
            notes: self.notes.duplicate(),
            callees: self.callees.duplicate(),
            callee_info: self.callee_info.duplicate(),
            existing_asserts: self.existing_asserts.duplicate(),
            proposed_behaviors: self.proposed_behaviors.duplicate(),
            proposed_requires: self.proposed_requires.duplicate(),
            proposed_ensures: self.proposed_ensures.duplicate(),
            proposed_assigns: self.proposed_assigns.duplicate(),
            proposed_loop_annots: self.proposed_loop_annots.duplicate(),
            proposed_terminates: self.proposed_terminates.duplicate(),
            callee_requests: self.callee_requests.duplicate(),
            sp_revision_count: self.sp_revision_count.duplicate(),
            last_sp_error_analysis: self.last_sp_error_analysis.duplicate(),
            proposed_revision_count: self.proposed_revision_count.duplicate(),
            last_proposed_error_analysis: self.last_proposed_error_analysis.duplicate(),
            failure_evidence: self.failure_evidence.duplicate(),
            verified_source: self.verified_source.duplicate(),
            unsound_reason_type: self.unsound_reason_type.duplicate(),
            blocking_callee_requires: self.blocking_callee_requires.duplicate(),
            infeasible_requests: self.infeasible_requests.duplicate(),
            ast_stmt_count: self.ast_stmt_count.duplicate(),
            sandbox_clean: self.sandbox_clean.duplicate(),
            annotation_count: self.annotation_count.duplicate(),
            sandbox_deleted: self.sandbox_deleted.duplicate(),
        }
    }

    /// The state is that of a function of which nothing is known yet.
    pub open spec fn is_blank(self, function: Seq<char>) -> bool {
        &&& self.function@ == function
        &&& self.status == VerificationStatus::InProgress
        &&& self.specs@.len() == 0
        &&& self.reference_specs@.len() == 0
        &&& self.unsound_specs@.len() == 0
        &&& self.wp_results@.len() == 0
        &&& self.wp_summary is None
        &&& self.notes@.len() == 0
        &&& self.callees@.len() == 0
        &&& self.callee_info@ == Map::<Seq<char>, CalleeInfo>::empty()
        &&& self.existing_asserts@.len() == 0
        &&& self.proposed_behaviors@.len() == 0
        &&& self.proposed_requires@.len() == 0
        &&& self.proposed_ensures@.len() == 0
        &&& self.proposed_assigns@.len() == 0
        &&& self.proposed_loop_annots@.len() == 0
        &&& self.proposed_terminates is None
        &&& self.callee_requests@.len() == 0
        &&& self.sp_revision_count == 0
        &&& self.last_sp_error_analysis@.len() == 0
        &&& self.proposed_revision_count == 0
        &&& self.last_proposed_error_analysis@.len() == 0
        &&& self.failure_evidence is None
        &&& self.verified_source is None
        &&& self.unsound_reason_type is None
        &&& self.blocking_callee_requires is None
        &&& self.infeasible_requests@.len() == 0
        &&& self.ast_stmt_count is None
        &&& self.sandbox_clean
        &&& self.annotation_count == 0
        &&& !self.sandbox_deleted
        &&& self.conclusion_history@.len() == 0
    }

    /// The state of a function of which nothing is known yet.
    pub fn blank(function: &str) -> (r: Self)
        ensures
            r.is_blank(function@),
    {
        FunctionVerificationState {
            function: function.to_owned(),
            status: VerificationStatus::InProgress,
            specs: Vec::new(),
            reference_specs: Vec::new(),
            unsound_specs: Vec::new(),
            wp_results: Vec::new(),
            wp_summary: None,
            notes: String::new(),
            callees: Vec::new(),
            callee_info: NameMap::new(),
            existing_asserts: Vec::new(),
            proposed_behaviors: Vec::new(),
            proposed_requires: Vec::new(),
            proposed_ensures: Vec::new(),
            proposed_assigns: Vec::new(),
            proposed_loop_annots: Vec::new(),
            proposed_terminates: None,
            callee_requests: Vec::new(),
            sp_revision_count: 0,
            last_sp_error_analysis: String::new(),
            proposed_revision_count: 0,
            last_proposed_error_analysis: String::new(),
            failure_evidence: None,
            verified_source: None,
            unsound_reason_type: None,
            blocking_callee_requires: None,
            infeasible_requests: Vec::new(),
            ast_stmt_count: None,
            sandbox_clean: true,
            annotation_count: 0,
            sandbox_deleted: false,
            conclusion_history: Vec::new(),
        }
    }
}

/// A change to what is known of a function: what is absent stays as it is.
pub struct FunctionConclusionUpdate {
    pub function: String,
    pub status: Option<VerificationStatus>,
    pub specs: Option<Vec<AnnotationEntry>>,
    pub reference_specs: Option<Vec<AnnotationEntry>>,
    pub unsound_specs: Option<Vec<UnsoundSpec>>,
    pub wp_results: Option<Vec<WpGoalResult>>,
    pub wp_summary: Option<WpGoalSummary>,
    pub notes: Option<String>,
    pub callees: Option<Vec<String>>,
    pub callee_info: Option<NameMap<CalleeInfo>>,
    pub existing_asserts: Option<Vec<ExistingAssert>>,
    pub proposed_behaviors: Option<Vec<ProposedBehavior>>,
    pub proposed_requires: Option<Vec<ProposedRequires>>,
    pub proposed_ensures: Option<Vec<ProposedEnsures>>,
    pub proposed_assigns: Option<Vec<ProposedAssigns>>,
    pub proposed_loop_annots: Option<Vec<ProposedLoopAnnot>>,
    pub proposed_terminates: Option<Json>,
    pub callee_requests: Option<Vec<CalleeRequest>>,
    pub sp_revision_count: Option<u32>,
    pub last_sp_error_analysis: Option<String>,
    pub proposed_revision_count: Option<u32>,
    pub last_proposed_error_analysis: Option<String>,
    pub failure_evidence: Option<FailureEvidence>,
    pub verified_source: Option<String>,
    pub unsound_reason_type: Option<String>,
    pub blocking_callee_requires: Option<BlockingCalleeRequires>,
    pub infeasible_requests: Option<Vec<InfeasibleRequest>>,
    /// Keep the present state in the history before the change.
    pub push_history: bool,
}

impl FunctionConclusionUpdate {
    /// The change that changes nothing.
    pub open spec fn is_nothing(self) -> bool {
        &&& self.status is None
        &&& self.specs is None
        &&& self.reference_specs is None
        &&& self.unsound_specs is None
        &&& self.wp_results is None
        &&& self.wp_summary is None
        &&& self.notes is None
        &&& self.callees is None
        &&& self.callee_info is None
        &&& self.existing_asserts is None
        &&& self.proposed_behaviors is None
        &&& self.proposed_requires is None
        &&& self.proposed_ensures is None
        &&& self.proposed_assigns is None
        &&& self.proposed_loop_annots is None
        &&& self.proposed_terminates is None
        &&& self.callee_requests is None
        &&& self.sp_revision_count is None
        &&& self.last_sp_error_analysis is None
        &&& self.proposed_revision_count is None
        &&& self.last_proposed_error_analysis is None
        &&& self.failure_evidence is None
        &&& self.verified_source is None
        &&& self.unsound_reason_type is None
        &&& self.blocking_callee_requires is None
        &&& self.infeasible_requests is None
        &&& !self.push_history
    }

    /// The change of the given function that changes nothing.
    pub fn of(function: String) -> (r: Self)
        ensures
            r.function == function,
            r.is_nothing(),
    {
        FunctionConclusionUpdate {
            function,
            status: None,
            specs: None,
            reference_specs: None,
            unsound_specs: None,
            wp_results: None,
            wp_summary: None,
            notes: None,
            callees: None,
            callee_info: None,
            existing_asserts: None,
            proposed_behaviors: None,
            proposed_requires: None,
            proposed_ensures: None,
            proposed_assigns: None,
            proposed_loop_annots: None,
            proposed_terminates: None,
            callee_requests: None,
            sp_revision_count: None,
            last_sp_error_analysis: None,
            proposed_revision_count: None,
            last_proposed_error_analysis: None,
            failure_evidence: None,
            verified_source: None,
            unsound_reason_type: None,
            blocking_callee_requires: None,
            infeasible_requests: None,
            push_history: false,
        }
    }
}

impl Default for FunctionConclusionUpdate {
    fn default() -> (r: Self)
        ensures
            r.function@.len() == 0,
            r.is_nothing(),
    {
        FunctionConclusionUpdate::of(String::new())
    }
}

/// `new` where it is there, else `old`.
pub open spec fn replaced<T>(new: Option<T>, old: T) -> T {
    match new {
        Some(v) => v,
        None => old,
    }
}

/// `new` where it is there, else `old`.
pub open spec fn kept_or<T>(new: Option<T>, old: Option<T>) -> Option<T> {
    match new {
        Some(v) => Some(v),
        None => old,
    }
}

impl FunctionVerificationState {
    /// The state once a sandbox was made: the sandbox is clean, and the verification
    /// is under way.
    pub open spec fn with_sandbox(self, ast_stmt_count: Option<u32>) -> Self {
        FunctionVerificationState {
            ast_stmt_count,
            sandbox_clean: true,
            annotation_count: 0,
            sandbox_deleted: false,
            status: VerificationStatus::InProgress,
            ..self
        }
    }

    /// The state once a clause was added: the sandbox is no longer clean, and one
    /// more clause is counted.
    pub open spec fn with_clause_added(self) -> Self {
        FunctionVerificationState {
            sandbox_clean: false,
            annotation_count: if self.annotation_count < u32::MAX {
                (self.annotation_count + 1) as u32
            } else {
                u32::MAX
            },
            ..self
        }
    }

    /// The state once the sandbox was reset: it is clean, and no clause is counted.
    pub open spec fn with_sandbox_reset(self) -> Self {
        FunctionVerificationState { sandbox_clean: true, annotation_count: 0, ..self }
    }

    /// The state once the sandbox was deleted.
    pub open spec fn with_sandbox_deleted(self) -> Self {
        FunctionVerificationState { sandbox_deleted: true, ..self }
    }

    /// `after` is this state with the update merged in: what the update holds
    /// replaces what was there, the rest stays. The count of clauses follows the
    /// clauses when they are replaced. A verified function has no evidence of a
    /// failure. The history grows by the state from before, where that is asked.
    pub open spec fn merged(self, u: FunctionConclusionUpdate, after: Self) -> bool {
        &&& after.function == self.function
        &&& after.status == replaced(u.status, self.status)
        &&& after.specs == replaced(u.specs, self.specs)
        &&& after.reference_specs == replaced(u.reference_specs, self.reference_specs)
        &&& after.unsound_specs == replaced(u.unsound_specs, self.unsound_specs)
        &&& after.wp_results == replaced(u.wp_results, self.wp_results)
        &&& after.wp_summary == kept_or(u.wp_summary, self.wp_summary)
        &&& after.notes == replaced(u.notes, self.notes)
        &&& after.callees == replaced(u.callees, self.callees)
        &&& after.callee_info == replaced(u.callee_info, self.callee_info)
        &&& after.existing_asserts == replaced(u.existing_asserts, self.existing_asserts)
        &&& after.proposed_behaviors == replaced(u.proposed_behaviors, self.proposed_behaviors)
        &&& after.proposed_requires == replaced(u.proposed_requires, self.proposed_requires)
        &&& after.proposed_ensures == replaced(u.proposed_ensures, self.proposed_ensures)
        &&& after.proposed_assigns == replaced(u.proposed_assigns, self.proposed_assigns)
        &&& after.proposed_loop_annots == replaced(u.proposed_loop_annots, self.proposed_loop_annots)
        &&& after.proposed_terminates == kept_or(u.proposed_terminates, self.proposed_terminates)
        &&& after.callee_requests == replaced(u.callee_requests, self.callee_requests)
        &&& after.sp_revision_count == replaced(u.sp_revision_count, self.sp_revision_count)
        &&& after.last_sp_error_analysis == replaced(u.last_sp_error_analysis, self.last_sp_error_analysis)
        &&& after.proposed_revision_count == replaced(u.proposed_revision_count, self.proposed_revision_count)
        &&& after.last_proposed_error_analysis == replaced(u.last_proposed_error_analysis, self.last_proposed_error_analysis)
        &&& after.verified_source == kept_or(u.verified_source, self.verified_source)
        &&& after.unsound_reason_type == kept_or(u.unsound_reason_type, self.unsound_reason_type)
        &&& after.blocking_callee_requires == kept_or(u.blocking_callee_requires, self.blocking_callee_requires)
        &&& after.infeasible_requests == replaced(u.infeasible_requests, self.infeasible_requests)
        &&& after.failure_evidence == (if after.status == VerificationStatus::Verified {
            None
        } else {
            kept_or(u.failure_evidence, self.failure_evidence)
        })
        &&& after.ast_stmt_count == self.ast_stmt_count
        &&& after.sandbox_clean == self.sandbox_clean
        &&& after.sandbox_deleted == self.sandbox_deleted
        &&& after.annotation_count == (match u.specs {
            Some(v) => (v@.len() % 0x1_0000_0000) as u32,
            None => self.annotation_count,
        })
        &&& if u.push_history {
            &&& after.conclusion_history@.len() == self.conclusion_history@.len() + 1
            &&& after.conclusion_history@.drop_last() == self.conclusion_history@
            &&& after.conclusion_history@.last().deep_view() == self.current()
        } else {
            after.conclusion_history == self.conclusion_history
        }
    }

    /// The state with an update merged in.
    pub fn merge(self, u: FunctionConclusionUpdate) -> (r: Self)
        ensures
            self.merged(u, r),
    {
        let annotation_count: u32 = match &u.specs {
            Some(v) => (v.len() as u64 % 0x1_0000_0000) as u32,
            None => self.annotation_count,
        };
        let present = if u.push_history {
            Some(self.snapshot())
        } else {
            None
        };
        let status: VerificationStatus = take_or(u.status, self.status);
        let mut conclusion_history = self.conclusion_history;
        match present {
            Some(s) => {
                conclusion_history.push(s);
                assert(conclusion_history@.drop_last() =~= self.conclusion_history@);
            },
            None => {},
        }
        FunctionVerificationState {
            function: self.function,
            status,
            specs: take_or(u.specs, self.specs),
            reference_specs: take_or(u.reference_specs, self.reference_specs),
            unsound_specs: take_or(u.unsound_specs, self.unsound_specs),
            wp_results: take_or(u.wp_results, self.wp_results),
            wp_summary: some_or(u.wp_summary, self.wp_summary),
            notes: take_or(u.notes, self.notes),
            callees: take_or(u.callees, self.callees),
            callee_info: take_or(u.callee_info, self.callee_info),
            existing_asserts: take_or(u.existing_asserts, self.existing_asserts),
            proposed_behaviors: take_or(u.proposed_behaviors, self.proposed_behaviors),
            proposed_requires: take_or(u.proposed_requires, self.proposed_requires),
            proposed_ensures: take_or(u.proposed_ensures, self.proposed_ensures),
            proposed_assigns: take_or(u.proposed_assigns, self.proposed_assigns),
            proposed_loop_annots: take_or(u.proposed_loop_annots, self.proposed_loop_annots),
            proposed_terminates: some_or(u.proposed_terminates, self.proposed_terminates),
            callee_requests: take_or(u.callee_requests, self.callee_requests),
            sp_revision_count: take_or(u.sp_revision_count, self.sp_revision_count),
            last_sp_error_analysis: take_or(u.last_sp_error_analysis, self.last_sp_error_analysis),
            proposed_revision_count: take_or(u.proposed_revision_count, self.proposed_revision_count),
            last_proposed_error_analysis: take_or(u.last_proposed_error_analysis, self.last_proposed_error_analysis),
            verified_source: some_or(u.verified_source, self.verified_source),
            unsound_reason_type: some_or(u.unsound_reason_type, self.unsound_reason_type),
            blocking_callee_requires: some_or(u.blocking_callee_requires, self.blocking_callee_requires),
            infeasible_requests: take_or(u.infeasible_requests, self.infeasible_requests),
            failure_evidence: if status == VerificationStatus::Verified {
                None
            } else {
                some_or(u.failure_evidence, self.failure_evidence)
            },
            ast_stmt_count: self.ast_stmt_count,
            sandbox_clean: self.sandbox_clean,
            annotation_count,
            sandbox_deleted: self.sandbox_deleted,
            conclusion_history,
        }
    }
}

/// `new` where it is there, else `old`.
pub fn take_or<T>(new: Option<T>, old: T) -> (r: T)
    ensures
        r == replaced(new, old),
{
    match new {
        Some(v) => v,
        None => old,
    }
}

/// `new` where it is there, else `old`.
pub fn some_or<T>(new: Option<T>, old: Option<T>) -> (r: Option<T>)
    ensures
        r == kept_or(new, old),
{
    match new {
        Some(v) => Some(v),
        None => old,
    }
}

/// A line of the list of conclusions.
#[derive(Debug)]
pub struct ConclusionSummary {
    pub function: String,
    pub status: VerificationStatus,
    pub wp_summary: Option<WpGoalSummary>,
}

/// What a line of the list of conclusions says.
pub struct SummaryView {
    pub function: Seq<char>,
    pub status: VerificationStatus,
    pub wp_summary: Option<WpGoalSummaryView>,
}

impl DeepView for ConclusionSummary {
    type V = SummaryView;

    open spec fn deep_view(&self) -> SummaryView {
        SummaryView {
            function: self.function@,
            status: self.status,
            wp_summary: self.wp_summary.deep_view(),
        }
    }
}

impl FunctionVerificationState {
    /// The line of the list of conclusions for this function.
    pub open spec fn summarized(self) -> SummaryView {
        SummaryView {
            function: self.function@,
            status: self.status,
            wp_summary: self.wp_summary.deep_view(),
        }
    }

    /// The line of the list of conclusions for this function.
    pub fn summary(&self) -> (r: ConclusionSummary)
        ensures
            r.deep_view() == self.summarized(),
    {
        ConclusionSummary {
            function: self.function.clone(),
            status: self.status,
            wp_summary: self.wp_summary.duplicate(),
        }
    }
}

} // verus!
