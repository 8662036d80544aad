//! The intervention gate.
//!
//! A high blocking score doesn't mean "interrupt now" - it means there's
//! something worth surfacing *when the moment is right*. The intervention
//! gate decides whether that moment has arrived.
//!
//! There is no hard close for "the user is actively typing": there is no
//! per-keystroke signal anywhere in the collector pipeline, and adding one
//! would be a meaningfully different (and more privacy-sensitive) kind of
//! collector. "A command is currently running", "in a call" (inferred from
//! the focused window's app name), and the cooldown are implemented.

use super::buffer::SlidingWindowBuffer;
use super::recognizers::{elapsed, find_latest, last_entity};
use super::{ErrorContext, ImmediateState};
use crate::arithmetic::{
    difference, from_whole, minus, product, reliable, times, whole, Calculator,
};
use crate::json::Json;
use crate::profile::UserProfile;
use crate::quantity::{Quantity, POINT_15, POINT_75, SIGN_BIT, SIXTY, TWENTY_EIGHT};
use crate::text::{self, contains, lowercase, same, starts_with};
use std::sync::Arc;
use vstd::prelude::*;

verus! {

/// How long a `phase: "start"` terminal event can suppress the intervention
/// gate via `closed:command_running` before it's ignored. The shell's DEBUG
/// trap fires `phase: "start"` for every foreground command, including
/// long-running ones (dev servers, editors, REPLs) that may never send a
/// matching `phase: "end"` - without this cap, running one of those from a
/// hooked terminal would lock the intervention gate closed for the rest of
/// the session.
pub const COMMAND_RUNNING_TIMEOUT_SECS: u64 = 120;

/// A blocking-score change of at least this much (regardless of direction)
/// triggers an emission even if the signal and the intervention gate are
/// unchanged: 0.15.
pub const EMIT_SCORE_DELTA: u64 = POINT_15;

/// Fallback used when the profile hasn't yet recorded a typical debugging
/// session length: 28 minutes.
pub const DEFAULT_DEBUG_SESSION_MIN: u64 = TWENTY_EIGHT;

/// `open:extended_block` fires once a current error loop has run longer than
/// this fraction of the user's typical debugging session: 0.75.
pub const EXTENDED_BLOCK_FRACTION: u64 = POINT_75;

/// A command has been running since a point in time, and not for too long
/// to plausibly still be a foreground build or test.
pub open spec fn command_running(since: Option<u64>, now: u64) -> bool {
    since matches Some(start) && elapsed(now, start) < COMMAND_RUNNING_TIMEOUT_SECS
}

/// True if a terminal `phase: "start"` was seen without a matching `"end"`
/// yet, and it started recently enough to plausibly still be a foreground
/// build/test (see [`COMMAND_RUNNING_TIMEOUT_SECS`]).
pub fn is_command_running(command_running_since: Option<u64>, now: u64) -> (r: bool)
    ensures
        r == command_running(command_running_since, now),
{
    match command_running_since {
        Some(since) => now.saturating_sub(since) < COMMAND_RUNNING_TIMEOUT_SECS,
        None => false,
    }
}

/// An app whose focus indicates that the user is in a call, by its lowercase
/// name.
pub open spec fn call_app(lower: Seq<char>) -> bool {
    ||| contains(lower, "zoom"@)
    ||| contains(lower, "teams"@)
    ||| contains(lower, "google meet"@)
    ||| contains(lower, "discord"@)
    ||| contains(lower, "slack huddle"@)
}

/// The most recently focused window is that of a known video-call app.
pub open spec fn in_call(windows: Seq<Arc<Json>>) -> bool {
    last_entity(windows, "app"@, windows.len() as int) matches Some(app) && call_app(
        lowercase(app),
    )
}

/// Whether a lowercase application name is that of a video-call app.
pub fn is_call_app(lower: &str) -> (r: bool)
    ensures
        r == call_app(lower@),
{
    text::has(lower, "zoom") || text::has(lower, "teams") || text::has(lower, "google meet")
        || text::has(lower, "discord") || text::has(lower, "slack huddle")
}

/// True if the most recently focused window (within the buffer) is a known
/// video-call app.
pub fn is_in_call(window: &SlidingWindowBuffer) -> (r: bool)
    ensures
        r == in_call(window.by_source.window@),
{
    match find_latest(&window.by_source.window, "app") {
        Some(app) => {
            let lower = text::to_lowercase(app.as_str());
            is_call_app(lower.as_str())
        },
        None => false,
    }
}

/// How long the user's typical debugging session takes, in minutes.
pub open spec fn typical_debug_min(profile: &UserProfile) -> Quantity {
    if profile.rhythm.typical_phase_durations@.dom().contains("debugging"@) {
        profile.rhythm.typical_phase_durations@["debugging"@].avg_min
    } else {
        Quantity { bits: DEFAULT_DEBUG_SESSION_MIN }
    }
}

/// An error loop is an extended block: it has run longer than three quarters
/// of the user's typical debugging session.
pub open spec fn extended_block<C: Calculator>(
    calc: C,
    duration_sec: u64,
    profile: &UserProfile,
) -> bool {
    let minutes = typical_debug_min(profile);
    let threshold = product(
        calc,
        product(calc, minutes, Quantity { bits: SIXTY }),
        Quantity { bits: EXTENDED_BLOCK_FRACTION },
    );
    threshold.rank() < whole(calc, duration_sec).rank()
}

fn is_extended_block<C: Calculator>(calc: C, duration_sec: u64, profile: &UserProfile) -> (r: bool)
    requires
        reliable(calc),
    ensures
        r == extended_block(calc, duration_sec, profile),
{
    let minutes = match profile.rhythm.typical_phase_durations.get("debugging") {
        Some(d) => d.avg_min,
        None => Quantity { bits: DEFAULT_DEBUG_SESSION_MIN },
    };
    let threshold = times(
        calc,
        times(calc, minutes, Quantity { bits: SIXTY }),
        Quantity { bits: EXTENDED_BLOCK_FRACTION },
    );
    threshold.less(from_whole(calc, duration_sec))
}

/// The intervention gate was open less than the user's interruption gap ago.
pub open spec fn cooling_down(last_gate_open_ts: Option<u64>, now: u64, gap_min: u32) -> bool {
    last_gate_open_ts matches Some(last) && elapsed(now, last) < gap_min * 60
}

/// What the intervention gate says: the hard closes come first (a call, a
/// running command, the cooldown), then what opens it (a pause, a context
/// switch, an extended block).
pub open spec fn gate(
    in_call: bool,
    command_running: bool,
    cooling_down: bool,
    idle: bool,
    signal: Seq<char>,
    extended: bool,
) -> Seq<char> {
    if in_call {
        "closed:in_call"@
    } else if command_running {
        "closed:command_running"@
    } else if cooling_down {
        "closed:cooldown"@
    } else if idle {
        "open:idle"@
    } else if signal == "context_switch"@ {
        "open:context_switch"@
    } else if signal == "error_loop"@ && extended {
        "open:extended_block"@
    } else {
        "closed:no_trigger"@
    }
}

/// The intervention gate is open.
pub open spec fn opens(gate: Seq<char>) -> bool {
    starts_with(gate, "open"@)
}

/// Whether the intervention gate is open.
pub fn is_open(gate: &str) -> (r: bool)
    ensures
        r == opens(gate@),
{
    text::has_prefix(gate, "open")
}

/// Decides whether this is a moment to surface something.
pub fn evaluate_gate<C: Calculator>(
    signal: &str,
    error_loop: &Option<ErrorContext>,
    idle: &Option<u64>,
    window: &SlidingWindowBuffer,
    now: u64,
    last_gate_open_ts: Option<u64>,
    profile: &UserProfile,
    command_running: bool,
    calc: C,
) -> (r: String)
    requires
        reliable(calc),
    ensures
        r@ == gate(
            in_call(window.by_source.window@),
            command_running,
            cooling_down(
                last_gate_open_ts,
                now,
                profile.rhythm.interruption_gap_threshold_min,
            ),
            *idle is Some,
            signal@,
            *error_loop matches Some(ctx) && extended_block(calc, ctx.duration_sec, profile),
        ),
{
    if is_in_call(window) {
        return "closed:in_call".to_owned();
    }
    if command_running {
        return "closed:command_running".to_owned();
    }
    let cooldown_secs: u64 = profile.rhythm.interruption_gap_threshold_min as u64 * 60;
    if let Some(last) = last_gate_open_ts {
        if now.saturating_sub(last) < cooldown_secs {
            return "closed:cooldown".to_owned();
        }
    }
    if idle.is_some() {
        return "open:idle".to_owned();
    }
    if same(signal, "context_switch") {
        return "open:context_switch".to_owned();
    }
    if same(signal, "error_loop") {
        if let Some(ctx) = error_loop {
            if is_extended_block(calc, ctx.duration_sec, profile) {
                return "open:extended_block".to_owned();
            }
        }
    }
    "closed:no_trigger".to_owned()
}

// ---------------------------------------------------------------------
// Emission
// ---------------------------------------------------------------------

/// A quantity without its sign.
pub open spec fn magnitude(q: Quantity) -> Quantity {
    if q.bits >= SIGN_BIT {
        Quantity { bits: (q.bits - SIGN_BIT) as u64 }
    } else {
        q
    }
}

/// The score changed by at least 0.15, in either direction.
pub open spec fn jumped<C: Calculator>(calc: C, current: Quantity, previous: Quantity) -> bool {
    let threshold = Quantity { bits: EMIT_SCORE_DELTA };
    magnitude(difference(calc, current, previous)).rank() >= threshold.rank()
}

/// Something meaningful changed: the signal, the intervention gate, or the
/// score by much.
pub open spec fn worth_emitting<C: Calculator>(
    calc: C,
    signal: Seq<char>,
    gate: Seq<char>,
    score: Quantity,
    previous: Option<ImmediateState>,
) -> bool {
    match previous {
        None => true,
        Some(prev) => signal != prev.signal@ || gate != prev.gate@ || jumped(
            calc,
            score,
            prev.blocking_score,
        ),
    }
}

/// Only emit when something meaningfully changed - prevents the session
/// ring buffer from flooding on near-identical states.
pub fn should_emit<C: Calculator>(
    current: &ImmediateState,
    previous: &Option<ImmediateState>,
    calc: C,
) -> (r: bool)
    requires
        reliable(calc),
    ensures
        r == worth_emitting(
            calc,
            current.signal@,
            current.gate@,
            current.blocking_score,
            *previous,
        ),
{
    match previous {
        None => true,
        Some(prev) => {
            if !same(current.signal.as_str(), prev.signal.as_str()) || !same(
                current.gate.as_str(),
                prev.gate.as_str(),
            ) {
                return true;
            }
            let delta = minus(calc, current.blocking_score, prev.blocking_score);
            let size = if delta.bits >= SIGN_BIT {
                Quantity { bits: delta.bits - SIGN_BIT }
            } else {
                delta
            };
            !size.less(Quantity { bits: EMIT_SCORE_DELTA })
        },
    }
}

// ---------------------------------------------------------------------
// Laws
// ---------------------------------------------------------------------

/// A call closes the intervention gate, whatever else is going on.
pub proof fn law_a_call_closes_the_gate(
    command_running: bool,
    cooling_down: bool,
    idle: bool,
    signal: Seq<char>,
    extended: bool,
)
    ensures
        !opens(gate(true, command_running, cooling_down, idle, signal, extended)),
{
    lemma_gates();
}

/// A running command closes the intervention gate, even when the user is idle.
pub proof fn law_a_running_command_closes_the_gate(
    in_call: bool,
    cooling_down: bool,
    idle: bool,
    signal: Seq<char>,
    extended: bool,
)
    ensures
        !opens(gate(in_call, true, cooling_down, idle, signal, extended)),
{
    lemma_gates();
}

/// The intervention gate stays closed during the cooldown.
pub proof fn law_the_cooldown_closes_the_gate(
    in_call: bool,
    command_running: bool,
    idle: bool,
    signal: Seq<char>,
    extended: bool,
)
    ensures
        !opens(gate(in_call, command_running, true, idle, signal, extended)),
{
    lemma_gates();
}

/// Without a hard close the intervention gate opens for a pause, a context
/// switch or an extended block, and for nothing else.
pub proof fn law_the_gate_opens_for_a_reason(idle: bool, signal: Seq<char>, extended: bool)
    ensures
        opens(gate(false, false, false, idle, signal, extended)) <==> idle || signal
            == "context_switch"@ || signal == "error_loop"@ && extended,
{
    lemma_gates();
}

/// A command that started long ago does not close the intervention gate any
/// more.
pub proof fn law_long_commands_are_ignored(since: u64, now: u64)
    requires
        now >= since + COMMAND_RUNNING_TIMEOUT_SECS,
    ensures
        !command_running(Some(since), now),
{
}

proof fn lemma_gates()
    ensures
        !opens("closed:in_call"@),
        !opens("closed:command_running"@),
        !opens("closed:cooldown"@),
        !opens("closed:no_trigger"@),
        opens("open:idle"@),
        opens("open:context_switch"@),
        opens("open:extended_block"@),
{
    reveal_strlit("open");
    reveal_strlit("closed:in_call");
    reveal_strlit("closed:command_running");
    reveal_strlit("closed:cooldown");
    reveal_strlit("closed:no_trigger");
    reveal_strlit("open:idle");
    reveal_strlit("open:context_switch");
    reveal_strlit("open:extended_block");
    assert("open"@.len() == 4 && "open"@[0] == 'o');
    assert("closed:in_call"@.subrange(0, 4)[0] == 'c');
    assert("closed:command_running"@.subrange(0, 4)[0] == 'c');
    assert("closed:cooldown"@.subrange(0, 4)[0] == 'c');
    assert("closed:no_trigger"@.subrange(0, 4)[0] == 'c');
    assert("open:idle"@.subrange(0, 4) =~= "open"@);
    assert("open:context_switch"@.subrange(0, 4) =~= "open"@);
    assert("open:extended_block"@.subrange(0, 4) =~= "open"@);
}

} // verus!
