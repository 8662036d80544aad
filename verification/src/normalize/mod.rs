//! The normalization pipeline: turns raw collector events into a session
//! timeline of structured, sequenced and correlated events.

pub mod entities;
pub mod laws;
pub mod pipeline;
pub mod reading;
pub mod session;
pub mod timeline;

use crate::text::{opt_view, views};
use vstd::prelude::*;

verus! {

/// Structured entities pulled out of a raw event by Stage 3 (entity
/// extraction) and Stage 4 (cross-source correlation). Fields that don't
/// apply to a given event are omitted from the JSON output.
#[derive(Debug, Clone)]
pub struct Entities {
    pub app: Option<String>,
    pub project: Option<String>,
    pub branch: Option<String>,
    pub file: Option<String>,
    pub domain: Option<String>,
    pub category: Option<String>,
    pub search_query: Option<String>,
    pub tool: Option<String>,
    pub subcommand: Option<String>,
    pub exit_code: Option<i32>,
    pub duration_secs: Option<u64>,
    pub content_type: Option<String>,
}

/// What [`Entities`] hold.
#[verifier::ext_equal]
pub struct EntitiesView {
    pub app: Option<Seq<char>>,
    pub project: Option<Seq<char>>,
    pub branch: Option<Seq<char>>,
    pub file: Option<Seq<char>>,
    pub domain: Option<Seq<char>>,
    pub category: Option<Seq<char>>,
    pub search_query: Option<Seq<char>>,
    pub tool: Option<Seq<char>>,
    pub subcommand: Option<Seq<char>>,
    pub exit_code: Option<i32>,
    pub duration_secs: Option<u64>,
    pub content_type: Option<Seq<char>>,
}

impl View for Entities {
    type V = EntitiesView;

    open spec fn view(&self) -> EntitiesView {
        EntitiesView {
            app: opt_view(self.app),
            project: opt_view(self.project),
            branch: opt_view(self.branch),
            file: opt_view(self.file),
            domain: opt_view(self.domain),
            category: opt_view(self.category),
            search_query: opt_view(self.search_query),
            tool: opt_view(self.tool),
            subcommand: opt_view(self.subcommand),
            exit_code: self.exit_code,
            duration_secs: self.duration_secs,
            content_type: opt_view(self.content_type),
        }
    }
}

impl EntitiesView {
    /// No entity at all.
    pub open spec fn none() -> EntitiesView {
        EntitiesView {
            app: None,
            project: None,
            branch: None,
            file: None,
            domain: None,
            category: None,
            search_query: None,
            tool: None,
            subcommand: None,
            exit_code: None,
            duration_secs: None,
            content_type: None,
        }
    }
}

impl Entities {
    /// No entity at all.
    pub fn none() -> (r: Self)
        ensures
            r@ == EntitiesView::none(),
    {
        Entities {
            app: None,
            project: None,
            branch: None,
            file: None,
            domain: None,
            category: None,
            search_query: None,
            tool: None,
            subcommand: None,
            exit_code: None,
            duration_secs: None,
            content_type: None,
        }
    }

    /// Whether no entity is set.
    pub fn is_empty(&self) -> (r: bool)
        ensures
            r == (self@ == EntitiesView::none()),
    {
        self.app.is_none() && self.project.is_none() && self.branch.is_none()
            && self.file.is_none() && self.domain.is_none() && self.category.is_none()
            && self.search_query.is_none() && self.tool.is_none() && self.subcommand.is_none()
            && self.exit_code.is_none() && self.duration_secs.is_none()
            && self.content_type.is_none()
    }
}

/// A single event on the normalized session timeline, ready for inference:
/// monotonically sequenced, structured entities, session-scoped, and
/// annotated with cross-source correlations.
#[derive(Debug, Clone)]
pub struct NormalizedEvent {
    /// Monotonic sequence number - use this for ordering, not `timestamp`.
    pub seq: u64,
    pub timestamp: u64,
    pub session_id: u64,
    pub source: String,
    pub kind: String,
    pub summary: String,
    pub entities: Entities,
    pub correlated_with: Vec<String>,
}

/// What a [`NormalizedEvent`] holds.
#[verifier::ext_equal]
pub struct NormalizedEventView {
    pub seq: nat,
    pub timestamp: u64,
    pub session_id: nat,
    pub source: Seq<char>,
    pub kind: Seq<char>,
    pub summary: Seq<char>,
    pub entities: EntitiesView,
    pub correlated_with: Seq<Seq<char>>,
}

impl View for NormalizedEvent {
    type V = NormalizedEventView;

    open spec fn view(&self) -> NormalizedEventView {
        NormalizedEventView {
            seq: self.seq as nat,
            timestamp: self.timestamp,
            session_id: self.session_id as nat,
            source: self.source@,
            kind: self.kind@,
            summary: self.summary@,
            entities: self.entities@,
            correlated_with: views(self.correlated_with@),
        }
    }
}

} // verus!
