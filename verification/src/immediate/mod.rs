//! The immediate intent layer ("immediate state builder") - the fastest
//! moving tier of the three-level intent system.
//!
//! Individual normalized events are nearly meaningless in isolation: a
//! single failing `pytest` invocation tells you nothing. Three failures in
//! nine minutes with interleaved browser searches tells you the user is
//! stuck. This module turns the live normalized event stream into that kind
//! of classified signal.

pub mod buffer;
pub mod gate;
pub mod laws;
pub mod layer;
pub mod moments;
pub mod recognizers;
pub mod score;

use crate::quantity::Quantity;
use crate::text::opt_view;
use vstd::prelude::*;

verus! {

/// The classified, point-in-time output of the immediate intent layer.
/// Emitted on signal change, gate transition, or a large jump of
/// `blocking_score`.
#[derive(Debug, Clone)]
pub struct ImmediateState {
    pub ts: u64,
    /// The session this state belongs to (from the triggering normalized
    /// event's `session_id`), so the distiller can group emissions by
    /// session.
    pub session_id: u64,
    /// `"error_loop"`, `"context_switch"`, `"repetition"`, `"idle"`, or
    /// `"none"`.
    pub signal: String,
    pub error_context: Option<ErrorContext>,
    pub repetition_context: Option<RepetitionContext>,
    pub context_switch: Option<ContextSwitchContext>,
    pub blocking_score: Quantity,
    pub blocking_score_delta: Quantity,
    /// `"closed:<reason>"` or `"open:<reason>"`.
    pub gate: String,
    pub gate_open_at: Option<u64>,
}

#[derive(Debug, Clone)]
pub struct ErrorContext {
    pub tool: String,
    pub subcommand: Option<String>,
    pub failure_count: u64,
    pub search_count: u64,
    pub duration_sec: u64,
    /// Domain of the first search after the initial failure that has one -
    /// the most likely place a knowledge-bridge recommendation should link to.
    pub domain: Option<String>,
}

#[derive(Debug, Clone)]
pub struct RepetitionContext {
    pub sequence: Vec<String>,
    pub count: u32,
}

#[derive(Debug, Clone)]
pub struct ContextSwitchContext {
    pub from_project: Option<String>,
    pub to_project: Option<String>,
    /// True if the previous state's blocking score was above 0.4 - i.e. the
    /// switch happened while the user looked stuck, which is a much stronger
    /// state-preserver trigger than a clean switch after a commit.
    pub mid_task: bool,
}

#[verifier::ext_equal]
pub struct ErrorContextView {
    pub tool: Seq<char>,
    pub subcommand: Option<Seq<char>>,
    pub failure_count: nat,
    pub search_count: nat,
    pub duration_sec: u64,
    pub domain: Option<Seq<char>>,
}

impl View for ErrorContext {
    type V = ErrorContextView;

    open spec fn view(&self) -> ErrorContextView {
        ErrorContextView {
            tool: self.tool@,
            subcommand: opt_view(self.subcommand),
            failure_count: self.failure_count as nat,
            search_count: self.search_count as nat,
            duration_sec: self.duration_sec,
            domain: opt_view(self.domain),
        }
    }
}

#[verifier::ext_equal]
pub struct ContextSwitchView {
    pub from_project: Option<Seq<char>>,
    pub to_project: Option<Seq<char>>,
    pub mid_task: bool,
}

impl View for ContextSwitchContext {
    type V = ContextSwitchView;

    open spec fn view(&self) -> ContextSwitchView {
        ContextSwitchView {
            from_project: opt_view(self.from_project),
            to_project: opt_view(self.to_project),
            mid_task: self.mid_task,
        }
    }
}

pub open spec fn opt_error(c: Option<ErrorContext>) -> Option<ErrorContextView> {
    match c {
        Some(c) => Some(c@),
        None => None,
    }
}

pub open spec fn opt_switch(c: Option<ContextSwitchContext>) -> Option<ContextSwitchView> {
    match c {
        Some(c) => Some(c@),
        None => None,
    }
}

} // verus!
