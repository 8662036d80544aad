//! The immediate intent layer as a state machine: it takes in normalized
//! events, raw events and the ticks of a clock, and says which states to
//! emit.

use super::buffer::{
    cutoff, event_ts, from_source, kept, lemma_kept_holds, since, time_of, SlidingWindowBuffer,
};
use super::gate::{
    command_running, cooling_down, evaluate_gate, extended_block, gate, in_call,
    is_command_running, is_open, opens, should_emit, worth_emitting,
};
use super::recognizers::{
    detect_context_switch, detect_error_loop, detect_idle, detect_repetition, error_loop,
    idle_secs, is_repetition, project_switch, switch_view, tokens,
};
use super::score::{
    classify, compute_blocking_score, counted_secs, dominant, loop_secs, score, window_factors,
};
use super::{opt_error, opt_switch, ImmediateState};
use crate::arithmetic::{difference, minus, reliable, Calculator};
use crate::json::Json;
use crate::profile::UserProfile;
use crate::quantity::{Quantity, POINT_4, ZERO};
use crate::text::same;
use std::sync::Arc;
use vstd::prelude::*;

verus! {

/// How far back the sliding window buffer looks.
pub const WINDOW_TTL_SECS: u64 = 300;

/// How long all "meaningful" sources must be quiet before `idle` fires.
pub const IDLE_THRESHOLD_SECS: u64 = 30;

/// How often to re-evaluate the buffer when no new event has arrived - the
/// only way `idle` and cooldown expiry are detected without new input.
pub const TICK_INTERVAL_SECS: u64 = 10;

pub struct ImmediateLayer {
    pub window: SlidingWindowBuffer,
    pub previous: Option<ImmediateState>,
    pub last_gate_open_ts: Option<u64>,
    /// When the most recent terminal `phase: "start"` was seen, if its
    /// matching `phase: "end"` hasn't arrived yet.
    pub command_running_since: Option<u64>,
}

/// The score of the state before.
pub open spec fn previous_score(previous: Option<ImmediateState>) -> Quantity {
    match previous {
        Some(prev) => prev.blocking_score,
        None => Quantity { bits: ZERO },
    }
}

/// The intervention gate was open in the state before.
pub open spec fn was_open(previous: Option<ImmediateState>) -> bool {
    previous matches Some(prev) && opens(prev.gate@)
}

/// The session of the state before.
pub open spec fn previous_session(previous: Option<ImmediateState>) -> u64 {
    match previous {
        Some(prev) => prev.session_id,
        None => 0,
    }
}

/// The session that an event belongs to.
pub open spec fn session_of(event: Json) -> u64 {
    match event.natural_at("session_id"@) {
        Some(id) => id,
        None => 0,
    }
}

/// The command that runs, after a raw event at `now`.
pub open spec fn running_after(raw: &Json, now: u64, before: Option<u64>) -> Option<u64> {
    match raw.field("Terminal"@) {
        Some(term) => match term.text_at("phase"@) {
            Some(phase) => if phase == "start"@ {
                match term.natural_at("timestamp"@) {
                    Some(ts) => Some(ts),
                    None => Some(now),
                }
            } else if phase == "end"@ {
                None
            } else {
                before
            },
            None => before,
        },
        None => before,
    }
}

/// `s` is the state of the window at `now`, for the user of the profile.
pub open spec fn is_state<C: Calculator>(
    calc: C,
    window: &SlidingWindowBuffer,
    previous: Option<ImmediateState>,
    last_gate_open_ts: Option<u64>,
    profile: &UserProfile,
    now: u64,
    session_id: u64,
    command_running: bool,
    s: ImmediateState,
) -> bool {
    let idle = idle_secs(window.events@, now, IDLE_THRESHOLD_SECS);
    let (signal, duration) = dominant(
        loop_secs(s.error_context),
        s.context_switch is Some,
        s.repetition_context is Some,
        idle,
    );
    &&& s.ts == now
    &&& s.session_id == session_id
    &&& opt_error(s.error_context) == error_loop(
        window.by_source.terminal@,
        window.by_source.browser@,
    )
    &&& is_repetition(tokens(window.by_source.terminal@), s.repetition_context)
    &&& opt_switch(s.context_switch) == switch_view(
        project_switch(window.events@),
        (Quantity { bits: POINT_4 }).rank() < previous_score(previous).rank(),
    )
    &&& s.signal@ == signal
    &&& s.blocking_score == score(
        calc,
        window_factors(window, counted_secs(s.error_context, duration)),
    )
    &&& s.blocking_score_delta == difference(calc, s.blocking_score, previous_score(previous))
    &&& s.gate@ == gate(
        in_call(window.by_source.window@),
        command_running,
        cooling_down(last_gate_open_ts, now, profile.rhythm.interruption_gap_threshold_min),
        idle is Some,
        signal,
        s.error_context matches Some(ctx) && extended_block(calc, ctx.duration_sec, profile),
    )
    &&& s.gate_open_at == if opens(s.gate@) {
        if was_open(previous) {
            match previous {
                Some(prev) => prev.gate_open_at,
                None => None,
            }
        } else {
            Some(now)
        }
    } else {
        None
    }
}

/// The state that is kept for the next comparison: the new one if it is
/// emitted; else the old one, with the new time and score.
pub open spec fn kept_state(
    previous: Option<ImmediateState>,
    current: ImmediateState,
    emitted: bool,
) -> ImmediateState {
    match previous {
        Some(prev) => if emitted {
            current
        } else {
            ImmediateState {
                ts: current.ts,
                blocking_score: current.blocking_score,
                blocking_score_delta: current.blocking_score_delta,
                ..prev
            }
        },
        None => current,
    }
}

/// `after` is what becomes of a layer when the window is looked at.
pub open spec fn processed<C: Calculator>(
    calc: C,
    before: ImmediateLayer,
    window: SlidingWindowBuffer,
    profile: &UserProfile,
    now: u64,
    session_id: u64,
    emitted: bool,
    after: ImmediateLayer,
) -> bool {
    exists|s: ImmediateState|
        {
            &&& #[trigger] is_state(
                calc,
                &window,
                before.previous,
                before.last_gate_open_ts,
                profile,
                now,
                session_id,
                command_running(before.command_running_since, now),
                s,
            )
            &&& emitted == worth_emitting(
                calc,
                s.signal@,
                s.gate@,
                s.blocking_score,
                before.previous,
            )
            &&& after.previous == Some(kept_state(before.previous, s, emitted))
            &&& after.last_gate_open_ts == if opens(s.gate@) && !was_open(before.previous) {
                Some(now)
            } else {
                before.last_gate_open_ts
            }
            &&& after.command_running_since == before.command_running_since
            &&& after.window == window
        }
}

impl ImmediateLayer {
    pub open spec fn wf(&self) -> bool {
        self.window.wf()
    }

    pub fn new() -> (r: Self)
        ensures
            r.wf(),
            r.window.ttl_secs == WINDOW_TTL_SECS,
            r.window.ttl_secs == 300,
            r.window.events@.len() == 0,
            r.previous is None,
            r.last_gate_open_ts is None,
            r.command_running_since is None,
    {
        ImmediateLayer {
            window: SlidingWindowBuffer::new(WINDOW_TTL_SECS),
            previous: None,
            last_gate_open_ts: None,
            command_running_since: None,
        }
    }

    /// A raw event: tracks whether a command is currently running. (Of the
    /// terminal events only "end" reports, which carry the exit code, reach
    /// the normalized stream.)
    pub fn on_raw(&mut self, raw: &Json, now: u64)
        ensures
            final(self).window == old(self).window,
            final(self).previous == old(self).previous,
            final(self).last_gate_open_ts == old(self).last_gate_open_ts,
            final(self).command_running_since == running_after(
                raw,
                now,
                old(self).command_running_since,
            ),
    {
        if let Some(term) = raw.get("Terminal") {
            if let Some(phase) = term.get_text("phase") {
                if same(phase.as_str(), "start") {
                    self.command_running_since = match term.get_natural("timestamp") {
                        Some(ts) => Some(ts),
                        None => Some(now),
                    };
                } else if same(phase.as_str(), "end") {
                    self.command_running_since = None;
                }
            }
        }
    }

    /// Runs the recognizers, classifies the dominant signal, scores it and
    /// evaluates the intervention gate. Returns whether the state, which is
    /// then `previous`, is to be emitted.
    fn process<C: Calculator>(
        &mut self,
        profile: &UserProfile,
        now: u64,
        session_id: u64,
        calc: C,
    ) -> (r: bool)
        requires
            old(self).wf(),
            old(self).window.events@.len() <= u32::MAX,
            reliable(calc),
        ensures
            processed(
                calc,
                *old(self),
                old(self).window,
                profile,
                now,
                session_id,
                r,
                *final(self),
            ),
    {
        proof {
            let events = self.window.events@;
            lemma_kept_holds(events, from_source("terminal"@), events.len() as int);
            lemma_kept_holds(events, from_source("browser"@), events.len() as int);
            lemma_kept_holds(events, from_source("filesystem"@), events.len() as int);
        }
        let running = is_command_running(self.command_running_since, now);
        let error_context = detect_error_loop(&self.window);
        let repetition_context = detect_repetition(&self.window);
        let idle = detect_idle(&self.window, now, IDLE_THRESHOLD_SECS);
        let mut context_switch = detect_context_switch(&self.window);
        let prev_score = match &self.previous {
            Some(prev) => prev.blocking_score,
            None => Quantity { bits: ZERO },
        };
        // Was the situation already looking blocked when this switch happened?
        if let Some(switch) = &mut context_switch {
            switch.mid_task = (Quantity { bits: POINT_4 }).less(prev_score);
        }
        let (signal, duration) = classify(
            &error_context,
            &context_switch,
            &repetition_context,
            &idle,
        );
        let blocking_score = compute_blocking_score(&self.window, &error_context, duration, calc);
        let blocking_score_delta = minus(calc, blocking_score, prev_score);
        let gate = evaluate_gate(
            signal,
            &error_context,
            &idle,
            &self.window,
            now,
            self.last_gate_open_ts,
            profile,
            running,
            calc,
        );
        let prev_open = match &self.previous {
            Some(prev) => is_open(prev.gate.as_str()),
            None => false,
        };
        let open_now = is_open(gate.as_str());
        let gate_open_at = if open_now {
            if prev_open {
                match &self.previous {
                    Some(prev) => prev.gate_open_at,
                    None => None,
                }
            } else {
                Some(now)
            }
        } else {
            None
        };
        if open_now && !prev_open {
            self.last_gate_open_ts = Some(now);
        }
        let current = ImmediateState {
            ts: now,
            session_id,
            signal: signal.to_owned(),
            error_context,
            repetition_context,
            context_switch,
            blocking_score,
            blocking_score_delta,
            gate,
            gate_open_at,
        };
        let emit = should_emit(&current, &self.previous, calc);
        let ghost s = current;
        assert(is_state(
            calc,
            &old(self).window,
            old(self).previous,
            old(self).last_gate_open_ts,
            profile,
            now,
            session_id,
            command_running(old(self).command_running_since, now),
            s,
        ));
        if emit {
            self.previous = Some(current);
        } else if let Some(prev) = &mut self.previous {
            // Keep time and score fresh for the next delta comparison even
            // when nothing is emitted.
            prev.ts = current.ts;
            prev.blocking_score = current.blocking_score;
            prev.blocking_score_delta = current.blocking_score_delta;
        }
        emit
    }

    /// A normalized event, which arrived at `wall`. Returns whether the
    /// state, which is then `previous`, is to be emitted.
    pub fn on_normalized<C: Calculator>(
        &mut self,
        event: Arc<Json>,
        wall: u64,
        profile: &UserProfile,
        calc: C,
    ) -> (r: bool)
        requires
            old(self).wf(),
            old(self).window.events@.len() < u32::MAX,
            reliable(calc),
        ensures
            final(self).wf(),
            ({
                let now = if time_of(*event) > wall {
                    time_of(*event)
                } else {
                    wall
                };
                &&& final(self).window.ttl_secs == old(self).window.ttl_secs
                &&& final(self).window.events@ == kept(
                    old(self).window.events@.push(event),
                    since(cutoff(now, old(self).window.ttl_secs)),
                )
                &&& processed(
                    calc,
                    *old(self),
                    final(self).window,
                    profile,
                    now,
                    session_of(*event),
                    r,
                    *final(self),
                )
            }),
    {
        let ts = event_ts(&event);
        let now = if ts > wall {
            ts
        } else {
            wall
        };
        let session_id = match event.get_natural("session_id") {
            Some(id) => id,
            None => 0,
        };
        proof {
            let all = self.window.events@.push(event);
            lemma_kept_holds(
                all,
                since(cutoff(now, self.window.ttl_secs)),
                all.len() as int,
            );
        }
        self.window.push(event, now);
        self.process(profile, now, session_id, calc)
    }

    /// A tick of the clock, so that idling and the end of a cooldown are
    /// noticed without new events.
    pub fn on_tick<C: Calculator>(&mut self, now: u64, profile: &UserProfile, calc: C) -> (r: bool)
        requires
            old(self).wf(),
            old(self).window.events@.len() <= u32::MAX,
            reliable(calc),
        ensures
            final(self).wf(),
            final(self).window.ttl_secs == old(self).window.ttl_secs,
            final(self).window.events@ == kept(
                old(self).window.events@,
                since(cutoff(now, old(self).window.ttl_secs)),
            ),
            processed(
                calc,
                *old(self),
                final(self).window,
                profile,
                now,
                previous_session(old(self).previous),
                r,
                *final(self),
            ),
    {
        proof {
            let all = self.window.events@;
            lemma_kept_holds(
                all,
                since(cutoff(now, self.window.ttl_secs)),
                all.len() as int,
            );
        }
        self.window.evict(now);
        let session_id = match &self.previous {
            Some(prev) => prev.session_id,
            None => 0,
        };
        self.process(profile, now, session_id, calc)
    }
}

// ---------------------------------------------------------------------
// Laws
// ---------------------------------------------------------------------

/// The first state is always emitted.
pub proof fn law_first_state_is_emitted<C: Calculator>(
    calc: C,
    before: ImmediateLayer,
    window: SlidingWindowBuffer,
    profile: &UserProfile,
    now: u64,
    session_id: u64,
    emitted: bool,
    after: ImmediateLayer,
)
    requires
        processed(calc, before, window, profile, now, session_id, emitted, after),
        before.previous is None,
    ensures
        emitted,
{
}

/// The intervention gate does not stay open, and does not open again, before
/// the user's interruption gap has passed since it opened.
pub proof fn law_gate_is_closed_during_cooldown<C: Calculator>(
    calc: C,
    before: ImmediateLayer,
    window: SlidingWindowBuffer,
    profile: &UserProfile,
    now: u64,
    session_id: u64,
    emitted: bool,
    after: ImmediateLayer,
)
    requires
        processed(calc, before, window, profile, now, session_id, emitted, after),
        cooling_down(
            before.last_gate_open_ts,
            now,
            profile.rhythm.interruption_gap_threshold_min,
        ),
    ensures
        after.previous matches Some(s) && !opens(s.gate@),
        after.last_gate_open_ts == before.last_gate_open_ts,
{
    let s = choose|s: ImmediateState| #[trigger]
        is_state(
            calc,
            &window,
            before.previous,
            before.last_gate_open_ts,
            profile,
            now,
            session_id,
            command_running(before.command_running_since, now),
            s,
        ) && emitted == worth_emitting(calc, s.signal@, s.gate@, s.blocking_score, before.previous)
            && after.previous == Some(kept_state(before.previous, s, emitted))
            && after.last_gate_open_ts == if opens(s.gate@) && !was_open(before.previous) {
            Some(now)
        } else {
            before.last_gate_open_ts
        };
    super::gate::law_the_cooldown_closes_the_gate(
        in_call(window.by_source.window@),
        command_running(before.command_running_since, now),
        idle_secs(window.events@, now, IDLE_THRESHOLD_SECS) is Some,
        s.signal@,
        s.error_context matches Some(ctx) && extended_block(calc, ctx.duration_sec, profile),
    );
}

/// Whether or not it is emitted, the state that is kept has the current
/// time, and nothing is kept back: a state with another signal or another
/// gate than the kept one is always emitted.
pub proof fn law_kept_state_is_current<C: Calculator>(
    calc: C,
    before: ImmediateLayer,
    window: SlidingWindowBuffer,
    profile: &UserProfile,
    now: u64,
    session_id: u64,
    emitted: bool,
    after: ImmediateLayer,
)
    requires
        processed(calc, before, window, profile, now, session_id, emitted, after),
    ensures
        after.previous matches Some(p) && p.ts == now && exists|s: ImmediateState|
            {
                &&& #[trigger] is_state(
                    calc,
                    &window,
                    before.previous,
                    before.last_gate_open_ts,
                    profile,
                    now,
                    session_id,
                    command_running(before.command_running_since, now),
                    s,
                )
                &&& p.signal@ == s.signal@
                &&& p.gate@ == s.gate@
                &&& p.blocking_score == s.blocking_score
            },
{
}

/// A context switch is "mid-task" only when the state before had a blocking
/// score above 0.4.
pub proof fn law_mid_task_needs_a_blocked_state<C: Calculator>(
    calc: C,
    window: &SlidingWindowBuffer,
    previous: Option<ImmediateState>,
    last_gate_open_ts: Option<u64>,
    profile: &UserProfile,
    now: u64,
    session_id: u64,
    running: bool,
    s: ImmediateState,
)
    requires
        is_state(
            calc,
            window,
            previous,
            last_gate_open_ts,
            profile,
            now,
            session_id,
            running,
            s,
        ),
    ensures
        s.context_switch matches Some(c) ==> (c.mid_task <==> (Quantity {
            bits: POINT_4,
        }).rank() < previous_score(previous).rank()),
        s.context_switch matches Some(c) ==> c@.from_project != c@.to_project,
{
}

} // verus!
