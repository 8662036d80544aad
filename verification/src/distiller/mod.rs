//! The session-level intent layer ("the distiller").
//!
//! Normalized events are buffered for the current session. When a
//! `session_boundary` event arrives, the buffered events describe a session
//! that just ended:
//!
//! 1. **Session summarizer** ([`summary`]): compresses the buffered events
//!    into a [`SessionIntent`] - a structured summary of what happened
//!    (projects touched, commands run, friction encountered, inferred work
//!    phases, ...).
//! 2. **Aggregation + decay/promotion** ([`aggregate`]): folds the
//!    `SessionIntent` into the long-term profile using the strategy
//!    documented on each profile field (recency-weighted frequency, rolling
//!    average, or pattern accumulation).

pub mod aggregate;
pub mod features;
pub mod layer;
pub mod sessions;
pub mod summary;

use crate::quantity::Quantity;
use crate::table::Table;
use crate::text::opt_view;
use vstd::prelude::*;

verus! {

/// A structured summary of one session, built by compressing its normalized
/// event stream. This is the "session intent object" - the middle of the
/// three intent levels (long-term profile, session, immediate).
#[derive(Debug, Clone)]
pub struct SessionIntent {
    pub session_id: u64,
    pub start_ts: u64,
    pub end_ts: u64,
    pub duration_min: Quantity,
    /// Why this session ended: `"inactivity_gap"`, `"project_switch"`,
    /// `"git_commit"`, or `"unclassified"` if the daemon stopped mid-session.
    pub end_reason: String,
    pub event_count: u64,
    /// Project name (not full path) -> number of normalized events that
    /// referenced it.
    pub project_event_counts: Table<u64>,
    /// Project name -> branches seen during the session, most recent last.
    pub project_branches: Table<Vec<String>>,
    /// The project with the most events this session, if any.
    pub primary_project: Option<String>,
    /// Canonical app name -> number of focus/launch events.
    pub app_focus_counts: Table<u64>,
    /// Distinct local hours-of-day (0-23) touched by any event.
    pub active_hours: Vec<u8>,
    pub commands_run: u64,
    pub commands_failed: u64,
    /// Tool name -> number of commands run with that tool.
    pub tool_counts: Table<u64>,
    /// Ordered `"tool subcommand"` (or just `"tool"`) tokens.
    pub command_sequence: Vec<String>,
    pub files_changed: u64,
    /// Domain -> number of navigations.
    pub browser_domain_counts: Table<u64>,
    /// Domain -> number of navigations categorized `"documentation"` or
    /// `"error_lookup"` to that domain.
    pub doc_domain_counts: Table<u64>,
    /// Browser category -> count.
    pub browser_category_counts: Table<u64>,
    pub search_queries: Vec<String>,
    pub clipboard_events: u64,
    /// Failed test-command runs, and which tool ran them.
    pub test_failures: u64,
    pub test_failure_tools: Table<u64>,
    /// One entry per test failure: `"doc_lookup"`, `"trial_error"`, or
    /// `"step_away"`, based on what happened next in the session.
    pub friction_resolutions: Vec<String>,
    /// `Some(true)` if the first "research" navigation (search query, or a
    /// documentation/error-lookup page) came before the first failed
    /// command, `Some(false)` if a failed command came first, `None` if the
    /// session doesn't contain both signals.
    pub search_before_try: Option<bool>,
    /// Inferred work phase (`"implementation"`, `"debugging"`,
    /// `"research"`, `"exploration"`) -> number of events classified into
    /// it.
    pub phase_counts: Table<u64>,
    /// The phase with the most events this session.
    pub dominant_phase: String,
    // --- Enrichment from the immediate intent layer ---
    /// Signal -> number of times it was the dominant signal in an emitted
    /// state this session. `"none"` is excluded.
    pub immediate_signal_counts: Table<u64>,
    /// One entry per distinct tool that triggered an `error_loop` signal,
    /// keeping the longest-running episode observed for that tool.
    pub error_loops: Vec<ErrorLoopSummary>,
    /// Highest `blocking_score` observed across the session.
    pub max_blocking_score: Quantity,
    /// `blocking_score` of the last emitted state.
    pub final_blocking_score: Quantity,
    /// `final_blocking_score` minus the first observed `blocking_score`.
    /// Positive means things looked worse by session end (likely
    /// unresolved); negative or zero means the situation eased.
    pub blocking_score_trend: Quantity,
    /// Number of emitted states whose gate was `"open:*"` - how many moments
    /// this session were flagged as good intervention opportunities.
    pub gate_open_count: u64,
}

/// A distinct error-loop episode (failure -> search -> retry of the same
/// tool) detected by the immediate intent layer during a session.
#[derive(Debug, Clone)]
pub struct ErrorLoopSummary {
    pub tool: String,
    pub subcommand: Option<String>,
    pub failure_count: u64,
    pub search_count: u64,
    pub duration_sec: u64,
    pub domain: Option<String>,
}

#[verifier::ext_equal]
pub struct ErrorLoopView {
    pub tool: Seq<char>,
    pub subcommand: Option<Seq<char>>,
    pub failure_count: u64,
    pub search_count: u64,
    pub duration_sec: u64,
    pub domain: Option<Seq<char>>,
}

impl View for ErrorLoopSummary {
    type V = ErrorLoopView;

    open spec fn view(&self) -> ErrorLoopView {
        ErrorLoopView {
            tool: self.tool@,
            subcommand: opt_view(self.subcommand),
            failure_count: self.failure_count,
            search_count: self.search_count,
            duration_sec: self.duration_sec,
            domain: opt_view(self.domain),
        }
    }
}

pub open spec fn loop_views(loops: Seq<ErrorLoopSummary>) -> Seq<ErrorLoopView> {
    Seq::new(loops.len(), |i: int| loops[i]@)
}

impl SessionIntent {
    /// No table of the session holds a name twice.
    pub open spec fn wf(&self) -> bool {
        &&& self.project_event_counts.wf()
        &&& self.project_branches.wf()
        &&& self.app_focus_counts.wf()
        &&& self.tool_counts.wf()
        &&& self.browser_domain_counts.wf()
        &&& self.doc_domain_counts.wf()
        &&& self.browser_category_counts.wf()
        &&& self.test_failure_tools.wf()
        &&& self.phase_counts.wf()
        &&& self.immediate_signal_counts.wf()
    }
}

} // verus!
