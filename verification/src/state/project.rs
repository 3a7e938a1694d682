//! What is known of the project as a whole.

use std::collections::HashMap;

use vstd::prelude::*;

use crate::json::Json;
use crate::names::NameMap;
use crate::state::conclusion;
use crate::state::conclusion::{some_or, take_or};
use crate::text;

verus! {

/// A group of functions that call each other in a circle, or a single function.
#[derive(Debug)]
pub struct SccGroup {
    pub id: u32,
    pub members: Vec<String>,
    pub level: usize,
    pub is_cycle: bool,
}

/// What a group says.
pub struct GroupView {
    pub id: u32,
    pub members: Seq<Seq<char>>,
    pub level: usize,
    pub is_cycle: bool,
}

impl View for SccGroup {
    type V = GroupView;

    open spec fn view(&self) -> GroupView {
        GroupView {
            id: self.id,
            members: text::texts(self.members@),
            level: self.level,
            is_cycle: self.is_cycle,
        }
    }
}

/// The groups of one level of the call graph, counted from the leaves.
#[derive(Debug)]
pub struct Level {
    pub level: usize,
    pub groups: Vec<SccGroup>,
}

/// How far a function of the project has come.
#[derive(Debug)]
pub struct FunctionCompletion {
    /// One of `pending`, `pending_redispatch`, `completed`, `failed_merged`, `unsound`,
    /// `extraction_issue`, `permanent_blocked`, `not_reached`.
    pub status: String,
    /// The time of the last attempt, in RFC 3339.
    pub last_attempt_at: Option<String>,
    pub verified_source: Option<String>,
}

/// A postcondition that a caller needs.
#[derive(Debug)]
pub struct ProgramCallerRequest {
    pub caller: String,
    pub required_ensures: String,
    pub reason: String,
}

/// A precondition that a caller asks to weaken.
#[derive(Debug)]
pub struct WeakRequiresRequest {
    pub caller: String,
    pub blocking_requires: String,
    pub caller_state_at_site: String,
    pub evidence: String,
}

/// What callers ask of a function.
#[derive(Debug)]
pub struct FeedbackPayload {
    pub caller_requests: Vec<ProgramCallerRequest>,
    pub weak_requires_request: Option<WeakRequiresRequest>,
}

/// How far the project was when progress was last measured.
#[derive(Debug)]
pub struct ProgressSnapshot {
    pub completion_counts: NameMap<usize>,
    pub pending_redispatch_specs: NameMap<String>,
    pub feedback_queue_size: usize,
}

/// A function whose clauses do not hold.
#[derive(Debug)]
pub struct UnsoundRecord {
    pub function: String,
    pub unsound_specs: Vec<Json>,
    pub counterexample: String,
    pub unsound_reason_type: String,
}

/// A request that a callee had to refuse.
#[derive(Debug)]
pub struct InfeasibleRecord {
    pub caller: String,
    pub callee: String,
    pub rejected_request_type: String,
    pub rejected_requires: String,
    pub infeasibility_reason: String,
}

/// A circular group whose contracts do not settle.
#[derive(Debug)]
pub struct SccOscillatingRecord {
    pub scc_id: u32,
    pub members: Vec<String>,
    pub hash_history: Vec<String>,
}

/// A request between a caller and a callee that leads nowhere.
#[derive(Debug)]
pub struct StuckTriple {
    pub caller: String,
    pub callee: String,
    pub request_type: String,
    pub blocking_requires_or_required_ensures: String,
}

/// A function that failed in the final run.
#[derive(Debug)]
pub struct FinalGateFailedFunc {
    pub function: String,
    pub goals_failed: Vec<Json>,
    pub goals_timeout: Vec<Json>,
    pub goals_unknown: Vec<Json>,
}

/// How the goals of the final run came out.
#[derive(Debug, Clone, Copy, PartialEq, Eq, Structural)]
pub struct FinalGateResult {
    pub total: usize,
    pub valid: usize,
    pub unknown: usize,
    pub timeout: usize,
    pub failed: usize,
    pub passed: bool,
}

/// Why the verification of the project came to a dead end.
#[derive(Debug)]
pub struct ProgramFailureEvidence {
    /// One of `load_failed`, `dispatch_failed`, `level_unrecoverable`, `global_stuck`,
    /// `unlock_export_failed`, `final_gate_failed`.
    pub failure_type: String,
    pub details: String,
    pub attempted_operations: Vec<String>,
    pub unsound_specs: Vec<UnsoundRecord>,
    pub caller_request_infeasible: Vec<InfeasibleRecord>,
    pub scc_oscillating: Vec<SccOscillatingRecord>,
    pub stuck_triples: Vec<StuckTriple>,
    pub failed_funcs: Vec<FinalGateFailedFunc>,
    pub wp_invocation_errors: Vec<String>,
    pub last_completed_level: Option<usize>,
}

/// What is known of the project as a whole.
#[derive(Debug)]
pub struct ProjectVerificationState {
    pub source_files: Vec<String>,
    /// The defined functions, callees first. The server computes it.
    pub verification_order: Vec<String>,
    pub current_index: usize,
    pub global_notes: String,
    /// The server owns it.
    pub current_level: usize,
    /// The groups of the call graph. The server computes them.
    pub scc_groups: Vec<SccGroup>,
    pub completion_map: NameMap<FunctionCompletion>,
    pub feedback_pending: NameMap<FeedbackPayload>,
    pub scc_iteration_counters: HashMap<u32, u32>,
    pub scc_spec_hashes: HashMap<u32, Vec<String>>,
    pub last_spec_hash: NameMap<String>,
    pub last_progress_snapshot: ProgressSnapshot,
    pub failure_evidence: Option<ProgramFailureEvidence>,
    pub final_gate_result: Option<FinalGateResult>,
    pub merged_source: Option<String>,
    /// The server owns it.
    pub locked: bool,
}

impl ProgressSnapshot {
    /// Nothing was measured yet.
    pub open spec fn is_blank(self) -> bool {
        &&& self.completion_counts@ == Map::<Seq<char>, usize>::empty()
        &&& self.pending_redispatch_specs@ == Map::<Seq<char>, String>::empty()
        &&& self.feedback_queue_size == 0
    }
}

impl Default for ProgressSnapshot {
    fn default() -> (r: Self)
        ensures
            r.is_blank(),
    {
        ProgressSnapshot {
            completion_counts: NameMap::new(),
            pending_redispatch_specs: NameMap::new(),
            feedback_queue_size: 0,
        }
    }
}

impl Default for FeedbackPayload {
    fn default() -> (r: Self)
        ensures
            r.caller_requests@.len() == 0,
            r.weak_requires_request is None,
    {
        FeedbackPayload { caller_requests: Vec::new(), weak_requires_request: None }
    }
}

impl Default for ProgramFailureEvidence {
    fn default() -> (r: Self)
        ensures
            r.failure_type@.len() == 0 && r.details@.len() == 0,
            r.attempted_operations@.len() == 0 && r.unsound_specs@.len() == 0,
            r.caller_request_infeasible@.len() == 0 && r.scc_oscillating@.len() == 0,
            r.stuck_triples@.len() == 0 && r.failed_funcs@.len() == 0,
            r.wp_invocation_errors@.len() == 0,
            r.last_completed_level is None,
    {
        ProgramFailureEvidence {
            failure_type: String::new(),
            details: String::new(),
            attempted_operations: Vec::new(),
            unsound_specs: Vec::new(),
            caller_request_infeasible: Vec::new(),
            scc_oscillating: Vec::new(),
            stuck_triples: Vec::new(),
            failed_funcs: Vec::new(),
            wp_invocation_errors: Vec::new(),
            last_completed_level: None,
        }
    }
}

impl ProjectVerificationState {
    /// Nothing is known of the project yet.
    pub open spec fn is_blank(self) -> bool {
        &&& self.source_files@.len() == 0
        &&& self.verification_order@.len() == 0
        &&& self.current_index == 0
        &&& self.global_notes@.len() == 0
        &&& self.current_level == 0
        &&& self.scc_groups@.len() == 0
        &&& self.completion_map@ == Map::<Seq<char>, FunctionCompletion>::empty()
        &&& self.feedback_pending@ == Map::<Seq<char>, FeedbackPayload>::empty()
        &&& self.scc_iteration_counters@ == Map::<u32, u32>::empty()
        &&& self.scc_spec_hashes@ == Map::<u32, Vec<String>>::empty()
        &&& self.last_spec_hash@ == Map::<Seq<char>, String>::empty()
        &&& self.last_progress_snapshot.is_blank()
        &&& self.failure_evidence is None
        &&& self.final_gate_result is None
        &&& self.merged_source is None
        &&& !self.locked
    }
}

impl Default for ProjectVerificationState {
    fn default() -> (r: Self)
        ensures
            r.is_blank(),
    {
        ProjectVerificationState {
            source_files: Vec::new(),
            verification_order: Vec::new(),
            current_index: 0,
            global_notes: String::new(),
            current_level: 0,
            scc_groups: Vec::new(),
            completion_map: NameMap::new(),
            feedback_pending: NameMap::new(),
            scc_iteration_counters: HashMap::new(),
            scc_spec_hashes: HashMap::new(),
            last_spec_hash: NameMap::new(),
            last_progress_snapshot: ProgressSnapshot::default(),
            failure_evidence: None,
            final_gate_result: None,
            merged_source: None,
            locked: false,
        }
    }
}

/// A change to what is known of the project: what is absent stays as it is.
pub struct ProjectStateUpdate {
    pub source_files: Option<Vec<String>>,
    pub verification_order: Option<Vec<String>>,
    pub current_index: Option<usize>,
    pub global_notes: Option<String>,
    pub current_level: Option<usize>,
    pub scc_groups: Option<Vec<SccGroup>>,
    pub completion_map: Option<NameMap<FunctionCompletion>>,
    pub feedback_pending: Option<NameMap<FeedbackPayload>>,
    pub scc_iteration_counters: Option<HashMap<u32, u32>>,
    pub scc_spec_hashes: Option<HashMap<u32, Vec<String>>>,
    pub last_spec_hash: Option<NameMap<String>>,
    pub last_progress_snapshot: Option<ProgressSnapshot>,
    pub failure_evidence: Option<ProgramFailureEvidence>,
    pub final_gate_result: Option<FinalGateResult>,
    pub merged_source: Option<String>,
    pub locked: Option<bool>,
}

impl ProjectStateUpdate {
    /// The change changes nothing.
    pub open spec fn is_nothing(self) -> bool {
        &&& self.source_files is None
        &&& self.verification_order is None
        &&& self.current_index is None
        &&& self.global_notes is None
        &&& self.current_level is None
        &&& self.scc_groups is None
        &&& self.completion_map is None
        &&& self.feedback_pending is None
        &&& self.scc_iteration_counters is None
        &&& self.scc_spec_hashes is None
        &&& self.last_spec_hash is None
        &&& self.last_progress_snapshot is None
        &&& self.failure_evidence is None
        &&& self.final_gate_result is None
        &&& self.merged_source is None
        &&& self.locked is None
    }
}

impl Default for ProjectStateUpdate {
    fn default() -> (r: Self)
        ensures
            r.is_nothing(),
    {
        ProjectStateUpdate {
            source_files: None,
            verification_order: None,
            current_index: None,
            global_notes: None,
            current_level: None,
            scc_groups: None,
            completion_map: None,
            feedback_pending: None,
            scc_iteration_counters: None,
            scc_spec_hashes: None,
            last_spec_hash: None,
            last_progress_snapshot: None,
            failure_evidence: None,
            final_gate_result: None,
            merged_source: None,
            locked: None,
        }
    }
}

impl ProjectVerificationState {
    /// `after` is this state with the update merged in: what the update holds
    /// replaces what was there, the rest stays.
    pub open spec fn merged(self, u: ProjectStateUpdate, after: Self) -> bool {
        &&& after.source_files == conclusion::replaced(u.source_files, self.source_files)
        &&& after.verification_order == conclusion::replaced(u.verification_order, self.verification_order)
        &&& after.current_index == conclusion::replaced(u.current_index, self.current_index)
        &&& after.global_notes == conclusion::replaced(u.global_notes, self.global_notes)
        &&& after.current_level == conclusion::replaced(u.current_level, self.current_level)
        &&& after.scc_groups == conclusion::replaced(u.scc_groups, self.scc_groups)
        &&& after.completion_map == conclusion::replaced(u.completion_map, self.completion_map)
        &&& after.feedback_pending == conclusion::replaced(u.feedback_pending, self.feedback_pending)
        &&& after.scc_iteration_counters == conclusion::replaced(u.scc_iteration_counters, self.scc_iteration_counters)
        &&& after.scc_spec_hashes == conclusion::replaced(u.scc_spec_hashes, self.scc_spec_hashes)
        &&& after.last_spec_hash == conclusion::replaced(u.last_spec_hash, self.last_spec_hash)
        &&& after.last_progress_snapshot == conclusion::replaced(u.last_progress_snapshot, self.last_progress_snapshot)
        &&& after.failure_evidence == conclusion::kept_or(u.failure_evidence, self.failure_evidence)
        &&& after.final_gate_result == conclusion::kept_or(u.final_gate_result, self.final_gate_result)
        &&& after.merged_source == conclusion::kept_or(u.merged_source, self.merged_source)
        &&& after.locked == conclusion::replaced(u.locked, self.locked)
    }

    /// The state with an update merged in.
    pub fn merge(self, u: ProjectStateUpdate) -> (r: Self)
        ensures
            self.merged(u, r),
    {
        ProjectVerificationState {
            source_files: take_or(u.source_files, self.source_files),
            verification_order: take_or(u.verification_order, self.verification_order),
            current_index: take_or(u.current_index, self.current_index),
            global_notes: take_or(u.global_notes, self.global_notes),
            current_level: take_or(u.current_level, self.current_level),
            scc_groups: take_or(u.scc_groups, self.scc_groups),
            completion_map: take_or(u.completion_map, self.completion_map),
            feedback_pending: take_or(u.feedback_pending, self.feedback_pending),
            scc_iteration_counters: take_or(u.scc_iteration_counters, self.scc_iteration_counters),
            scc_spec_hashes: take_or(u.scc_spec_hashes, self.scc_spec_hashes),
            last_spec_hash: take_or(u.last_spec_hash, self.last_spec_hash),
            last_progress_snapshot: take_or(u.last_progress_snapshot, self.last_progress_snapshot),
            failure_evidence: some_or(u.failure_evidence, self.failure_evidence),
            final_gate_result: some_or(u.final_gate_result, self.final_gate_result),
            merged_source: some_or(u.merged_source, self.merged_source),
            locked: take_or(u.locked, self.locked),
        }
    }

    /// `after` is what a client submitted as the whole state, with what the server
    /// owns taken from the state that it replaces: the lock and, where there was a
    /// state, the order, the groups and the level.
    pub open spec fn accepted(submitted: Self, current: Option<Self>, after: Self) -> bool {
        &&& after.source_files == submitted.source_files
        &&& after.current_index == submitted.current_index
        &&& after.global_notes == submitted.global_notes
        &&& after.completion_map == submitted.completion_map
        &&& after.feedback_pending == submitted.feedback_pending
        &&& after.scc_iteration_counters == submitted.scc_iteration_counters
        &&& after.scc_spec_hashes == submitted.scc_spec_hashes
        &&& after.last_spec_hash == submitted.last_spec_hash
        &&& after.last_progress_snapshot == submitted.last_progress_snapshot
        &&& after.failure_evidence == submitted.failure_evidence
        &&& after.final_gate_result == submitted.final_gate_result
        &&& after.merged_source == submitted.merged_source
        &&& match current {
            Some(c) => {
                &&& after.verification_order == c.verification_order
                &&& after.current_level == c.current_level
                &&& after.scc_groups == c.scc_groups
                &&& after.locked == c.locked
            },
            None => {
                &&& after.verification_order == submitted.verification_order
                &&& after.current_level == submitted.current_level
                &&& after.scc_groups == submitted.scc_groups
                &&& !after.locked
            },
        }
    }

    /// What a client submitted as the whole state, with what the server owns taken
    /// from the state that it replaces.
    pub fn accept(submitted: Self, current: Option<Self>) -> (r: Self)
        ensures
            ProjectVerificationState::accepted(submitted, current, r),
    {
        match current {
            Some(c) => ProjectVerificationState {
                verification_order: c.verification_order,
                current_level: c.current_level,
                scc_groups: c.scc_groups,
                locked: c.locked,
                ..submitted
            },
            None => ProjectVerificationState { locked: false, ..submitted },
        }
    }
}

} // verus!
