//! The parameters and results of the tools.

use vstd::prelude::*;

use crate::json::Json;
use crate::mcp::acsl::FailureType;

verus! {

/// The source files to load, and how.
pub struct ReloadProjectParams {
    /// The files; none to load again those that are loaded.
    pub files: Option<Vec<String>>,
    /// Whether run-time-error annotations are generated; no by default.
    pub rte: Option<bool>,
}

/// The function to describe.
pub struct GetFunctionInfoParams {
    pub function: String,
}

/// Which alarms to list.
pub struct GetEvaAlarmsParams {
    pub function: Option<String>,
    pub alarm_kind: Option<String>,
    pub status: Option<String>,
}

/// The program point whose values are asked for.
pub struct GetEvaValueParams {
    pub marker: String,
    pub callstack: Option<u32>,
}

/// How to run the value analysis.
pub struct RunEvaParams {
    pub precision: Option<i32>,
    pub main_function: Option<String>,
    pub slevel: Option<u32>,
}

/// What to prove, and how.
pub struct RunWpParams {
    pub functions: Option<Vec<String>>,
    pub prover: Option<String>,
    pub timeout: Option<u32>,
    /// The memory model, `Typed+nocast` by default.
    pub model: Option<String>,
    pub prop: Option<String>,
}

/// Which proof goals to list.
pub struct GetWpGoalsParams {
    pub function: Option<String>,
    pub status: Option<String>,
}

/// The function whose annotations are listed.
pub struct GetAnnotationsParams {
    pub function: String,
}

/// The function whose callers are asked for.
pub struct FindCallersParams {
    pub function: String,
}

/// The identifier to look up.
pub struct LookupSymbolParams {
    pub name: String,
}

/// A call chain to follow.
pub struct TraceCallChainParams {
    pub function: String,
    /// `callers` or `callees`.
    pub direction: String,
    /// How far to go: 5 levels by default, 20 at most.
    pub max_depth: Option<u32>,
    /// The functions to stop at.
    pub stop_at: Option<Vec<String>>,
}

/// The property to investigate.
pub struct InvestigateAlarmParams {
    pub property_key: String,
    /// `quick`, `normal` (the default) or `deep`.
    pub depth: Option<String>,
}

/// What a plan is asked for.
pub struct SuggestPlanParams {
    pub target: Option<String>,
}

/// The transition system to find invariants of.
pub struct RunLinearInvariantParams {
    pub input: Json,
}

pub struct ListFunctionsParams {}

pub struct ListFilesParams {}

pub struct ListGlobalsParams {}

pub struct ListDeclarationsParams {}

/// The function whose syntax tree is asked for.
pub struct GetFunctionAstParams {
    pub function: String,
}

/// A clause to check without adding it.
pub struct ValidateAcslParams {
    pub function: String,
    pub kind: String,
    pub acsl: String,
    pub stmt: Option<i64>,
}

/// The function to take the annotations of away.
pub struct RemoveAnnotationParams {
    pub function: String,
}

/// The function whose verification conditions are asked for.
pub struct GetVcDetailsParams {
    pub function: String,
}

pub struct HoareAnalyzeParams {
    pub function: String,
    pub callee_context: Option<Json>,
}

pub struct GetHoareTraceParams {
    pub function: String,
}

/// What is to be stored of a function. What is not given keeps its value.
pub struct StoreFunctionConclusionParams {
    pub function: String,
    pub status: Option<String>,
    pub specs: Option<Vec<Json>>,
    pub reference_specs: Option<Vec<Json>>,
    pub wp_results: Option<Vec<Json>>,
    pub notes: Option<String>,
    pub wp_summary: Option<Json>,
    pub callees: Option<Vec<String>>,
    pub callee_info: Option<Json>,
    pub existing_asserts: Option<Vec<Json>>,
    pub proposed_behaviors: Option<Vec<Json>>,
    pub proposed_requires: Option<Vec<Json>>,
    pub proposed_ensures: Option<Vec<Json>>,
    pub proposed_assigns: Option<Vec<Json>>,
    pub proposed_loop_annots: Option<Vec<Json>>,
    pub proposed_terminates: Option<Json>,
    pub callee_requests: Option<Vec<Json>>,
    pub sp_revision_count: Option<u32>,
    pub last_sp_error_analysis: Option<String>,
    pub proposed_revision_count: Option<u32>,
    pub last_proposed_error_analysis: Option<String>,
    pub failure_evidence: Option<Json>,
    pub unsound_specs: Option<Vec<Json>>,
    pub verified_source: Option<String>,
    pub unsound_reason_type: Option<String>,
    pub blocking_callee_requires: Option<Json>,
    pub infeasible_requests: Option<Vec<Json>>,
    /// Whether the conclusion so far is kept in the history.
    pub push_history: bool,
}

/// The function whose conclusion is asked for.
pub struct GetFunctionConclusionParams {
    pub function: String,
}

/// Which conclusions to list.
pub struct ListConclusionsParams {
    pub status: Option<String>,
}

/// What is to be stored of the project: the whole state as JSON text, or some of
/// its fields.
pub struct StoreProjectStateParams {
    pub state_json: Option<String>,
    pub source_files: Option<Vec<String>>,
    pub verification_order: Option<Vec<String>>,
    pub current_index: Option<usize>,
    pub global_notes: Option<String>,
}

pub struct GetProjectStateParams {}

pub struct LockProjectParams {}

pub struct UnlockProjectParams {}

/// Where the source is printed from, and to.
pub struct PrintSourceParams {
    pub output: Option<String>,
    pub sandbox_name: Option<String>,
}

/// The sandbox to create.
pub struct CreateSandboxParams {
    pub function: String,
    pub experiment_id: Option<String>,
}

/// The sandbox to create anew.
pub struct ResetSandboxParams {
    pub sandbox_name: String,
}

/// The sandbox to delete.
pub struct DeleteSandboxParams {
    pub sandbox_name: String,
}

/// The sandbox whose annotations are asked for.
pub struct ExtractAnnotationsParams {
    pub sandbox_name: String,
}

/// The clauses to add to the function of a sandbox.
pub struct InjectAllAnnotationsSandboxParams {
    pub sandbox_name: String,
    pub proposed_behaviors: Option<Vec<Json>>,
    pub proposed_requires: Option<Vec<Json>>,
    pub proposed_ensures: Option<Vec<Json>>,
    pub proposed_assigns: Option<Vec<Json>>,
    pub proposed_loop_annots: Option<Vec<Json>>,
    pub proposed_terminates: Option<Json>,
}

/// The clauses to add to a function of the main instance.
pub struct InjectAllAnnotationsMainParams {
    pub function: String,
    pub proposed_behaviors: Option<Vec<Json>>,
    pub proposed_requires: Option<Vec<Json>>,
    pub proposed_ensures: Option<Vec<Json>>,
    pub proposed_assigns: Option<Vec<Json>>,
    pub proposed_loop_annots: Option<Vec<Json>>,
    pub proposed_terminates: Option<Json>,
}

pub struct ComputeTopologicalOrderParams {}

/// Which functions are done, and which are being worked on.
pub struct GetReadyFunctionsParams {
    pub done: Vec<String>,
    pub in_progress: Vec<String>,
}

/// A clause to add to a function or to one of its statements.
pub struct AddAnnotationParams {
    pub function: String,
    pub kind: String,
    pub acsl: String,
    pub stmt: Option<i64>,
    pub user_label: Option<String>,
}

/// A clause that was added, in the shape in which a conclusion lists it.
pub struct InjectedAnnotationEntry {
    pub hash_label: String,
    pub user_label: Option<String>,
    /// `spec` for a clause of the function, `annot` for one of a statement.
    pub kind: String,
    pub acsl: String,
    pub stmt_id: Option<i64>,
    /// The place of the proposal that the clause comes from.
    pub derived_from: String,
    pub source: String,
    pub purpose: String,
    pub proof_target: Option<String>,
    pub wp_status: Option<Json>,
    pub wp_time_ms: Option<u64>,
    pub wp_prover: Option<String>,
}

/// A clause that could not be added.
pub struct InjectionFailure {
    pub failure_type: FailureType,
    /// The place of the proposal that the clause comes from.
    pub proposed_path: String,
    pub acsl_text: String,
    pub frama_c_error: String,
}

/// How many clauses were tried, added and refused.
#[derive(Debug, Clone, Copy, PartialEq, Eq, Structural)]
pub struct InjectionSummary {
    pub total_attempted: usize,
    pub successful_count: usize,
    pub failure_count: usize,
}

/// What came of adding the clauses of a proposal.
pub struct InjectAllAnnotationsSandboxResponse {
    pub status: String,
    pub successful: Vec<InjectedAnnotationEntry>,
    pub failures: Vec<InjectionFailure>,
    pub summary: InjectionSummary,
}

} // verus!
