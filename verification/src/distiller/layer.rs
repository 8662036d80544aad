//! The distiller as a state machine: it buffers the events of the current
//! session and hands them out when the session closes.

use super::features::kind_of;
use crate::immediate::buffer::{event_ts, kept, kept_to, share, time_of};
use crate::json::Json;
use crate::text::same;
use std::sync::Arc;
use vstd::prelude::*;

verus! {

/// A session that has just ended.
pub struct ClosedSession {
    pub session_id: u64,
    pub events: Vec<Arc<Json>>,
    pub end_ts: u64,
    pub end_reason: String,
    /// The immediate states of the session.
    pub immediate: Vec<Arc<Json>>,
}

pub struct DistillerState {
    pub events: Vec<Arc<Json>>,
    pub immediate: Vec<Arc<Json>>,
    pub session_id: Option<u64>,
}

/// The event marks the end of a session.
pub open spec fn boundary(event: Json) -> bool {
    kind_of(event) == "session_boundary"@
}

/// Why a session ended, as its boundary says.
pub open spec fn reason_of(event: Json) -> Seq<char> {
    match event.field("entities"@) {
        Some(entities) => match entities.text_at("category"@) {
            Some(reason) => reason,
            None => "unclassified"@,
        },
        None => "unclassified"@,
    }
}

/// The states that belong to a session.
pub open spec fn of_session(session_id: u64) -> spec_fn(Json) -> bool {
    |s: Json| s.natural_at("session_id"@) == Some(session_id)
}

/// What a [`DistillerState`] holds.
#[verifier::ext_equal]
pub struct DistillerView {
    pub events: Seq<Arc<Json>>,
    pub immediate: Seq<Arc<Json>>,
    pub session_id: Option<u64>,
}

impl View for DistillerState {
    type V = DistillerView;

    open spec fn view(&self) -> DistillerView {
        DistillerView {
            events: self.events@,
            immediate: self.immediate@,
            session_id: self.session_id,
        }
    }
}

impl DistillerView {
    /// Nothing has been seen yet.
    pub open spec fn fresh() -> DistillerView {
        DistillerView { events: Seq::empty(), immediate: Seq::empty(), session_id: None }
    }

    /// After a normalized event: a boundary empties the buffers and begins
    /// the next session; any other event is buffered.
    pub open spec fn after(self, event: Json, shared: Arc<Json>) -> DistillerView {
        let id = event.natural_at("session_id"@);
        if !boundary(event) {
            DistillerView {
                events: self.events.push(shared),
                session_id: match self.session_id {
                    Some(id) => Some(id),
                    None => id,
                },
                ..self
            }
        } else if self.session_id is Some {
            DistillerView { events: Seq::empty(), immediate: Seq::empty(), session_id: id }
        } else {
            DistillerView { session_id: id, ..self }
        }
    }
}

/// After the first `n` of some events.
pub open spec fn after_events(events: Seq<Arc<Json>>, n: int) -> DistillerView
    decreases n,
{
    if n <= 0 {
        DistillerView::fresh()
    } else {
        after_events(events, n - 1).after(*events[n - 1], events[n - 1])
    }
}

/// Those of the first `n` events that follow the last boundary.
pub open spec fn since_boundary(events: Seq<Arc<Json>>, n: int) -> Seq<Arc<Json>>
    decreases n,
{
    if n <= 0 || boundary(*events[n - 1]) {
        Seq::empty()
    } else {
        since_boundary(events, n - 1).push(events[n - 1])
    }
}

/// The buffered events are those since the last boundary, so that each event
/// but the boundaries belongs to one session, and none is lost.
pub proof fn law_session_is_what_follows_a_boundary(events: Seq<Arc<Json>>, n: int)
    requires
        0 <= n <= events.len(),
        forall|i: int|
            0 <= i < events.len() ==> (#[trigger] events[i]).natural_at("session_id"@) is Some,
    ensures
        after_events(events, n).events == since_boundary(events, n),
        n > 0 ==> after_events(events, n).session_id is Some,
    decreases n,
{
    if n > 0 {
        law_session_is_what_follows_a_boundary(events, n - 1);
        assert(events[n - 1].natural_at("session_id"@) is Some);
    }
}

fn select_session(states: &Vec<Arc<Json>>, session_id: u64) -> (r: Vec<Arc<Json>>)
    ensures
        r@ == kept(states@, of_session(session_id)),
{
    let mut out: Vec<Arc<Json>> = Vec::new();
    for i in 0..states.len()
        invariant
            out@ == kept_to(states@, of_session(session_id), i as int),
    {
        if let Some(id) = states[i].get_natural("session_id") {
            if id == session_id {
                out.push(share(&states[i]));
            }
        }
    }
    out
}

impl DistillerState {
    pub fn new() -> (r: Self)
        ensures
            r@ == DistillerView::fresh(),
    {
        DistillerState { events: Vec::new(), immediate: Vec::new(), session_id: None }
    }

    /// A state of the immediate layer.
    pub fn on_immediate(&mut self, state: Arc<Json>)
        ensures
            final(self).immediate@ == old(self).immediate@.push(state),
            final(self).events@ == old(self).events@,
            final(self).session_id == old(self).session_id,
    {
        self.immediate.push(state);
    }

    /// A normalized event. A session boundary closes the current session,
    /// which is returned unless nothing happened in it, and begins the next
    /// one; any other event is buffered.
    pub fn on_normalized(&mut self, event: Arc<Json>) -> (r: Option<ClosedSession>)
        ensures
            final(self)@ == old(self)@.after(*event, event),
            !boundary(*event) ==> r is None,
            boundary(*event) ==> {
                &&& r is Some <==> old(self).session_id is Some && old(self).events@.len() > 0
                &&& r matches Some(closed) ==> {
                    &&& old(self).session_id == Some(closed.session_id)
                    &&& closed.events@ == old(self).events@
                    &&& closed.end_ts == time_of(*event)
                    &&& closed.end_reason@ == reason_of(*event)
                    &&& closed.immediate@ == kept(
                        old(self).immediate@,
                        of_session(closed.session_id),
                    )
                }
            },
    {
        let session_id = event.get_natural("session_id");
        let is_boundary = match event.get_text("kind") {
            Some(kind) => same(kind.as_str(), "session_boundary"),
            None => {
                proof {
                    reveal_strlit("session_boundary");
                    assert(kind_of(*event).len() == 0);
                }
                false
            },
        };
        if !is_boundary {
            if self.session_id.is_none() {
                self.session_id = session_id;
            }
            self.events.push(event);
            return None;
        }
        let mut closed: Option<ClosedSession> = None;
        if let Some(id) = self.session_id {
            let immediate = select_session(&self.immediate, id);
            let mut events: Vec<Arc<Json>> = Vec::new();
            std::mem::swap(&mut events, &mut self.events);
            self.immediate = Vec::new();
            if events.len() > 0 {
                let end_reason = match event.get("entities") {
                    Some(entities) => entities.get_text_or("category", "unclassified"),
                    None => "unclassified".to_owned(),
                };
                closed = Some(
                    ClosedSession {
                        session_id: id,
                        events,
                        end_ts: event_ts(&event),
                        end_reason,
                        immediate,
                    },
                );
            }
        }
        self.session_id = session_id;
        closed
    }
}

} // verus!
