//! When the intervention gate opens and what a state says, in terms of the
//! times, durations and events that they come from.

use super::buffer::{cutoff, kept, kept_to, since, SlidingWindowBuffer};
use super::gate::{
    command_running, cooling_down, extended_block, gate, in_call, opens, worth_emitting,
};
use super::layer::{is_state, processed, ImmediateLayer};
use super::laws::{at, done_by_the_user, how_many, is_last, said, went_wrong};
use super::recognizers::{idle_secs, last_entity};
use super::score::{
    count_to, dominant, loop_secs, score, top_visits_to, window_factors, BlockingFactors,
};
use super::ImmediateState;
use crate::arithmetic::{difference, exact, product, quotient, whole, Calculator};
use crate::json::Json;
use crate::profile::UserProfile;
use crate::quantity::Quantity;
use crate::text::{lowercase, occurs_at};
use std::sync::Arc;
use vstd::prelude::*;

verus! {

// ---------------------------------------------------------------------
// Extended blocks
// ---------------------------------------------------------------------

/// With a typical debugging session of `m` minutes an error loop is an
/// extended block exactly when it has run longer than `m * 60 * 0.75`
/// seconds, which are `45 * m`.
pub proof fn law_an_extended_block_is_three_quarters_of_a_session<C: Calculator>(
    calc: C,
    duration_sec: u64,
    profile: &UserProfile,
    m: u64,
)
    requires
        exact(calc),
        profile.rhythm.typical_phase_durations@.dom().contains("debugging"@),
        profile.rhythm.typical_phase_durations@["debugging"@].avg_min == whole(calc, m),
        60 * m <= 0x20_0000_0000_0000,
        duration_sec <= 0x20_0000_0000_0000,
    ensures
        extended_block(calc, duration_sec, profile) <==> duration_sec > 45 * m,
{
    lemma_three_quarters(calc, duration_sec, m);
}

/// As long as no debugging session was recorded, an error loop is an extended
/// block after 21 minutes, three quarters of 28.
pub proof fn law_an_extended_block_without_a_record<C: Calculator>(
    calc: C,
    duration_sec: u64,
    profile: &UserProfile,
)
    requires
        exact(calc),
        !profile.rhythm.typical_phase_durations@.dom().contains("debugging"@),
        duration_sec <= 0x20_0000_0000_0000,
    ensures
        extended_block(calc, duration_sec, profile) <==> duration_sec > 21 * 60,
{
    lemma_three_quarters(calc, duration_sec, 28);
}

proof fn lemma_three_quarters<C: Calculator>(calc: C, duration_sec: u64, m: u64)
    requires
        exact(calc),
        60 * m <= 0x20_0000_0000_0000,
        duration_sec <= 0x20_0000_0000_0000,
    ensures
        product(
            calc,
            product(calc, whole(calc, m), Quantity { bits: 0x404E_0000_0000_0000 }),
            Quantity { bits: 0x3FE8_0000_0000_0000 },
        ).rank() < whole(calc, duration_sec).rank() <==> duration_sec > 45 * m,
{
    let secs = (60 * m) as u64;
    assert(m * 60 == 60 * m);
    assert(product(calc, whole(calc, m), whole(calc, 60u64)) == whole(calc, (m * 60) as u64));
    assert(secs % 4 == 0 && secs / 4 * 3 == 45 * m);
    let limit = (45 * m) as u64;
    assert(product(calc, whole(calc, secs), Quantity { bits: 0x3FE8_0000_0000_0000 }) == whole(
        calc,
        limit,
    ));
    if duration_sec > limit {
        assert(whole(calc, limit).rank() < whole(calc, duration_sec).rank());
    } else if duration_sec < limit {
        assert(whole(calc, duration_sec).rank() < whole(calc, limit).rank());
    }
}

/// Whatever the typical session is: the threshold is sixty times its minutes,
/// and 0.75 of that.
pub proof fn law_the_threshold_is_in_seconds<C: Calculator>(
    calc: C,
    duration_sec: u64,
    profile: &UserProfile,
    minutes: Quantity,
)
    requires
        profile.rhythm.typical_phase_durations@.dom().contains("debugging"@),
        profile.rhythm.typical_phase_durations@["debugging"@].avg_min == minutes,
    ensures
        extended_block(calc, duration_sec, profile) <==> product(
            calc,
            product(calc, minutes, Quantity { bits: 0x404E_0000_0000_0000 }),
            Quantity { bits: 0x3FE8_0000_0000_0000 },
        ).rank() < whole(calc, duration_sec).rank(),
{
}

/// With the 25 minutes of a new profile, an error loop of 1125 seconds or
/// less opens the intervention gate for nobody who is doing something.
pub proof fn law_short_loops_do_not_open_the_gate<C: Calculator>(
    calc: C,
    duration_sec: u64,
    profile: &UserProfile,
    in_call: bool,
    command_running: bool,
    cooling_down: bool,
)
    requires
        exact(calc),
        profile.rhythm.typical_phase_durations@.dom().contains("debugging"@),
        profile.rhythm.typical_phase_durations@["debugging"@].avg_min == whole(calc, 25),
        duration_sec <= 0x20_0000_0000_0000,
    ensures
        opens(
            gate(
                in_call,
                command_running,
                cooling_down,
                false,
                "error_loop"@,
                extended_block(calc, duration_sec, profile),
            ),
        ) <==> !in_call && !command_running && !cooling_down && duration_sec > 1125,
{
    law_an_extended_block_is_three_quarters_of_a_session(calc, duration_sec, profile, 25);
    lemma_signals_differ();
    let extended = extended_block(calc, duration_sec, profile);
    super::gate::law_a_call_closes_the_gate(
        command_running,
        cooling_down,
        false,
        "error_loop"@,
        extended,
    );
    super::gate::law_a_running_command_closes_the_gate(
        in_call,
        cooling_down,
        false,
        "error_loop"@,
        extended,
    );
    super::gate::law_the_cooldown_closes_the_gate(
        in_call,
        command_running,
        false,
        "error_loop"@,
        extended,
    );
    super::gate::law_the_gate_opens_for_a_reason(false, "error_loop"@, extended);
}

proof fn lemma_signals_differ()
    ensures
        "error_loop"@ != "context_switch"@,
        "error_loop"@ != "repetition"@,
        "error_loop"@ != "idle"@,
        "error_loop"@ != "none"@,
        "context_switch"@ != "repetition"@,
        "context_switch"@ != "idle"@,
        "context_switch"@ != "none"@,
        "repetition"@ != "none"@,
        "repetition"@ != "idle"@,
        "idle"@ != "none"@,
{
    reveal_strlit("error_loop");
    reveal_strlit("context_switch");
    reveal_strlit("repetition");
    reveal_strlit("idle");
    reveal_strlit("none");
    assert("error_loop"@[0] != "repetition"@[0]);
    assert("idle"@[0] != "none"@[0]);
}

// ---------------------------------------------------------------------
// Hard closes
// ---------------------------------------------------------------------

/// The cooldown lasts as many minutes of sixty seconds as the user's
/// interruption gap, counted from the last opening.
pub proof fn law_the_cooldown_is_in_minutes(last: Option<u64>, now: u64, gap_min: u32)
    ensures
        cooling_down(last, now, gap_min) <==> last is Some && gap_min > 0 && now < last->0 + 60
            * gap_min,
{
    if last is Some && now >= last->0 {
        assert((now - last->0 < gap_min * 60) == (now < last->0 + 60 * gap_min));
    }
}

/// A command counts as running for 120 seconds from its start.
pub proof fn law_commands_run_for_two_minutes(since: Option<u64>, now: u64)
    ensures
        command_running(since, now) <==> since is Some && now < since->0 + 120,
{
}

/// A text contains another one.
pub open spec fn holds(text: Seq<char>, part: Seq<char>) -> bool {
    exists|i: int|
        #![trigger text.subrange(i, i + part.len())]
        0 <= i && i + part.len() <= text.len() && text.subrange(i, i + part.len()) == part
}

pub proof fn lemma_holds(text: Seq<char>, part: Seq<char>)
    ensures
        holds(text, part) == crate::text::contains(text, part),
{
    if holds(text, part) {
        let i = choose|i: int|
            #![trigger text.subrange(i, i + part.len())]
            0 <= i && i + part.len() <= text.len() && text.subrange(i, i + part.len()) == part;
        assert(occurs_at(text, part, i));
    }
    if crate::text::contains(text, part) {
        let i = choose|i: int| occurs_at(text, part, i);
        assert(text.subrange(i, i + part.len()) == part);
    }
}

/// The user is in a call exactly when the last window of the buffer that has
/// an application is that of a call app, whatever its capitals.
pub proof fn law_calls_are_told_by_the_last_application(windows: Seq<Arc<Json>>, i: int)
    requires
        is_last(windows, |e: Json| said(e, "app"@) is Some, i),
    ensures
        in_call(windows) <==> {
            let name = lowercase(said(*windows[i], "app"@)->0);
            ||| holds(name, "zoom"@)
            ||| holds(name, "teams"@)
            ||| holds(name, "google meet"@)
            ||| holds(name, "discord"@)
            ||| holds(name, "slack huddle"@)
        },
{
    lemma_last_said(windows, "app"@, i, windows.len() as int);
    let app = last_entity(windows, "app"@, windows.len() as int);
    let name = lowercase(app->0);
    lemma_holds(name, "zoom"@);
    lemma_holds(name, "teams"@);
    lemma_holds(name, "google meet"@);
    lemma_holds(name, "discord"@);
    lemma_holds(name, "slack huddle"@);
}

proof fn lemma_last_said(events: Seq<Arc<Json>>, key: Seq<char>, i: int, n: int)
    requires
        is_last(events, |e: Json| said(e, key) is Some, i),
        i < n <= events.len(),
    ensures
        last_entity(events, key, n) == said(*events[i], key),
        said(*events[i], key) is Some,
    decreases n,
{
    let p = |e: Json| said(e, key) is Some;
    assert(p(*events[i]));
    assert(Json::Null.field(key) is None);
    assert(said(*events[n - 1], key) == super::buffer::entity_text(*events[n - 1], key));
    if i < n - 1 {
        lemma_last_said(events, key, i, n - 1);
        assert(!p(*events[n - 1]));
    }
}

/// Without a window that has an application there is no call.
pub proof fn law_no_application_no_call(windows: Seq<Arc<Json>>)
    requires
        forall|j: int| 0 <= j < windows.len() ==> said(*#[trigger] windows[j], "app"@) is None,
    ensures
        !in_call(windows),
{
    lemma_nothing_said(windows, "app"@, windows.len() as int);
}

proof fn lemma_nothing_said(events: Seq<Arc<Json>>, key: Seq<char>, n: int)
    requires
        0 <= n <= events.len(),
        forall|j: int| 0 <= j < events.len() ==> said(*#[trigger] events[j], key) is None,
    ensures
        last_entity(events, key, n) is None,
    decreases n,
{
    assert(Json::Null.field(key) is None);
    if n > 0 {
        lemma_nothing_said(events, key, n - 1);
        assert(said(*events[n - 1], key) is None);
    }
}

/// What closes the intervention gate is told in the order call, running
/// command, cooldown; what opens it in the order pause, context switch,
/// extended block. Each of the seven verdicts comes exactly when what it says
/// is so and nothing before it is.
pub proof fn law_the_verdict_is_the_first_that_holds(
    in_call: bool,
    command_running: bool,
    cooling_down: bool,
    idle: bool,
    signal: Seq<char>,
    extended: bool,
)
    ensures
        ({
            let verdict = gate(in_call, command_running, cooling_down, idle, signal, extended);
            let free = !in_call && !command_running && !cooling_down;
            let switched = signal == "context_switch"@;
            let blocked = signal == "error_loop"@ && extended;
            &&& verdict == "closed:in_call"@ <==> in_call
            &&& verdict == "closed:command_running"@ <==> !in_call && command_running
            &&& verdict == "closed:cooldown"@ <==> !in_call && !command_running && cooling_down
            &&& verdict == "open:idle"@ <==> free && idle
            &&& verdict == "open:context_switch"@ <==> free && !idle && switched
            &&& verdict == "open:extended_block"@ <==> free && !idle && blocked
            &&& verdict == "closed:no_trigger"@ <==> free && !idle && !switched && !blocked
        }),
{
    reveal_strlit("closed:in_call");
    reveal_strlit("closed:command_running");
    reveal_strlit("closed:cooldown");
    reveal_strlit("closed:no_trigger");
    reveal_strlit("open:idle");
    reveal_strlit("open:context_switch");
    reveal_strlit("open:extended_block");
    lemma_signals_differ();
    assert("closed:in_call"@.len() == 14);
    assert("closed:command_running"@.len() == 22);
    assert("closed:cooldown"@.len() == 15);
    assert("closed:no_trigger"@.len() == 17);
    assert("open:idle"@.len() == 9);
    assert("open:context_switch"@.len() == 19);
    assert("open:extended_block"@.len() == 19);
    assert("open:context_switch"@[5] == 'c');
    assert("open:extended_block"@[5] == 'e');
}

// ---------------------------------------------------------------------
// Emission
// ---------------------------------------------------------------------

/// A state with the signal and the verdict of the one before it is emitted
/// exactly when the score went up or down by 0.15 or more. A state with
/// another signal or another verdict is emitted, and so is the first one.
pub proof fn law_emission_is_by_change<C: Calculator>(
    calc: C,
    signal: Seq<char>,
    verdict: Seq<char>,
    score: Quantity,
    prev: ImmediateState,
)
    ensures
        worth_emitting(calc, signal, verdict, score, None),
        signal != prev.signal@ ==> worth_emitting(calc, signal, verdict, score, Some(prev)),
        verdict != prev.gate@ ==> worth_emitting(calc, signal, verdict, score, Some(prev)),
        signal == prev.signal@ && verdict == prev.gate@ ==> (worth_emitting(
            calc,
            signal,
            verdict,
            score,
            Some(prev),
        ) <==> {
            let change = difference(calc, score, prev.blocking_score).bits;
            ||| 0x3FC3_3333_3333_3333 <= change < 0x8000_0000_0000_0000
            ||| 0xBFC3_3333_3333_3333 <= change
        }),
{
}

// ---------------------------------------------------------------------
// Classification and score
// ---------------------------------------------------------------------

/// The dominant signal is the first of error loop, context switch, repetition
/// and idling that there is. Its duration is that of the error loop or of the
/// pause.
pub proof fn law_the_dominant_signal_is_the_first(
    error_secs: Option<u64>,
    switched: bool,
    repeated: bool,
    idle: Option<u64>,
)
    ensures
        ({
            let (signal, secs) = dominant(error_secs, switched, repeated, idle);
            &&& signal == "error_loop"@ <==> error_secs is Some
            &&& signal == "context_switch"@ <==> error_secs is None && switched
            &&& signal == "repetition"@ <==> error_secs is None && !switched && repeated
            &&& signal == "idle"@ <==> error_secs is None && !switched && !repeated && idle is Some
            &&& signal == "none"@ <==> error_secs is None && !switched && !repeated && idle is None
            &&& signal == "error_loop"@ ==> secs == error_secs
            &&& signal == "idle"@ ==> secs == idle
            &&& signal != "error_loop"@ && signal != "idle"@ ==> secs is None
        }),
{
    lemma_signals_differ();
}

proof fn lemma_count_is_how_many(
    events: Seq<Arc<Json>>,
    p: spec_fn(Json) -> bool,
    q: spec_fn(Json) -> bool,
    n: int,
)
    requires
        0 <= n <= events.len(),
        forall|e: Json| #[trigger] p(e) == q(e),
    ensures
        count_to(events, p, n) == how_many(events.take(n), q),
        count_to(events, p, n) <= n,
    decreases n,
{
    reveal(Seq::filter);
    let f = |e: Arc<Json>| q(*e);
    if n > 0 {
        lemma_count_is_how_many(events, p, q, n - 1);
        assert(events.take(n).drop_last() =~= events.take(n - 1));
        assert(events.take(n).last() == events[n - 1]);
        assert(f(events[n - 1]) == p(*events[n - 1]));
    } else {
        assert(events.take(n).filter(f).len() == 0);
    }
}

/// The score of a window is made of the number of its commands, of those that
/// failed, of its searches, of its file saves and of its visits to a domain,
/// whether or not these are searches.
pub proof fn law_the_factors_count_events(window: &SlidingWindowBuffer, secs: Option<u64>)
    requires
        window.events@.len() <= u64::MAX,
        window.by_source.terminal@.len() <= u64::MAX,
        window.by_source.browser@.len() <= u64::MAX,
        window.by_source.filesystem@.len() <= u64::MAX,
    ensures
        ({
            let f = window_factors(window, secs);
            let browser = window.by_source.browser@;
            &&& f.commands == window.by_source.terminal@.len()
            &&& f.failures == how_many(window.by_source.terminal@, |e: Json| went_wrong(e))
            &&& f.searches == how_many(browser, |e: Json| said(e, "search_query"@) is Some)
            &&& f.file_saves == window.by_source.filesystem@.len()
            &&& f.domains == how_many(browser, |e: Json| said(e, "domain"@) is Some)
            &&& f.loop_secs == secs
        }),
{
    let terminal = window.by_source.terminal@;
    let browser = window.by_source.browser@;
    assert(Json::Null.field("exit_code"@) is None);
    assert(Json::Null.field("search_query"@) is None);
    assert(Json::Null.field("domain"@) is None);
    assert(terminal.take(terminal.len() as int) =~= terminal);
    assert(browser.take(browser.len() as int) =~= browser);
    lemma_count_is_how_many(
        terminal,
        |e: Json| super::recognizers::failed(e),
        |e: Json| went_wrong(e),
        terminal.len() as int,
    );
    lemma_count_is_how_many(
        browser,
        |e: Json| super::recognizers::searched(e),
        |e: Json| said(e, "search_query"@) is Some,
        browser.len() as int,
    );
    lemma_count_is_how_many(
        browser,
        |e: Json| super::buffer::entity_text(e, "domain"@) is Some,
        |e: Json| said(e, "domain"@) is Some,
        browser.len() as int,
    );
}

/// Error loops that have gone on for ten minutes or longer count alike.
pub proof fn law_ten_minutes_count_most<C: Calculator>(
    calc: C,
    f: BlockingFactors,
    g: BlockingFactors,
)
    requires
        f.loop_secs is Some,
        g == (BlockingFactors { loop_secs: g.loop_secs, ..f }),
        g.loop_secs is Some,
        quotient(
            calc,
            whole(calc, f.loop_secs->0),
            Quantity { bits: 0x4082_C000_0000_0000 },
        ).rank() >= 0x3FF0_0000_0000_0000,
        quotient(
            calc,
            whole(calc, g.loop_secs->0),
            Quantity { bits: 0x4082_C000_0000_0000 },
        ).rank() >= 0x3FF0_0000_0000_0000,
    ensures
        score(calc, f) == score(calc, g),
{
}

/// A factor that has nothing to be a share of does not count: without a
/// command the failure rate is none, without a search or a save neither is
/// the share of searches, and without a domain none is the most visited.
pub proof fn law_nothing_counts_for_nothing<C: Calculator>(
    calc: C,
    f: BlockingFactors,
    g: BlockingFactors,
)
    requires
        f.commands == 0 && g.commands == 0 || f.commands == g.commands && f.failures == g.failures,
        f.searches == g.searches,
        f.file_saves == g.file_saves,
        f.loop_secs == g.loop_secs,
        f.domains == 0 && g.domains == 0 || f.domains == g.domains && f.top_visits == g.top_visits,
    ensures
        score(calc, f) == score(calc, g),
        f.commands == 0 && f.searches == 0 && f.file_saves == 0 && f.loop_secs is None && f.domains
            == 0 ==> score(calc, f).bits == 0,
{
}

// ---------------------------------------------------------------------
// States
// ---------------------------------------------------------------------

/// A verdict says that the intervention gate is open.
pub open spec fn says_open(verdict: Seq<char>) -> bool {
    verdict.len() >= 4 && verdict.subrange(0, 4) == seq!['o', 'p', 'e', 'n']
}

proof fn lemma_says_open(verdict: Seq<char>)
    ensures
        says_open(verdict) == opens(verdict),
{
    reveal_strlit("open");
    assert("open"@ =~= seq!['o', 'p', 'e', 'n']);
}

/// Someone who did something less than thirty seconds ago is not idle;
/// someone whose deeds are all thirty seconds old or older is, and nothing
/// but a hard close keeps the intervention gate from opening for it.
pub proof fn law_a_pause_takes_thirty_seconds<C: Calculator>(
    calc: C,
    window: &SlidingWindowBuffer,
    previous: Option<ImmediateState>,
    last_gate_open_ts: Option<u64>,
    profile: &UserProfile,
    now: u64,
    session_id: u64,
    running: bool,
    s: ImmediateState,
    latest: int,
)
    requires
        is_state(
            calc,
            window,
            previous,
            last_gate_open_ts,
            profile,
            now,
            session_id,
            running,
            s,
        ),
        0 <= latest < window.events@.len(),
        done_by_the_user(*window.events@[latest]),
        forall|i: int|
            0 <= i < window.events@.len() && done_by_the_user(*#[trigger] window.events@[i]) ==> at(
                *window.events@[i],
            ) <= at(*window.events@[latest]),
    ensures
        now < at(*window.events@[latest]) + 30 ==> s.signal@ != "idle"@ && s.gate@ != "open:idle"@,
        now >= at(*window.events@[latest]) + 30 ==> {
            &&& s.signal@ != "none"@
            &&& s.gate@ == "open:idle"@ <==> !in_call(window.by_source.window@) && !running && !(
            last_gate_open_ts is Some && profile.rhythm.interruption_gap_threshold_min > 0 && now
                < last_gate_open_ts->0 + 60 * profile.rhythm.interruption_gap_threshold_min)
        },
{
    let events = window.events@;
    super::laws::law_idling_is_counted_from_the_latest_deed(events, latest, now, 30);
    let gap = profile.rhythm.interruption_gap_threshold_min;
    law_the_cooldown_is_in_minutes(last_gate_open_ts, now, gap);
    let idle = idle_secs(events, now, 30);
    let (signal, secs) = dominant(
        loop_secs(s.error_context),
        s.context_switch is Some,
        s.repetition_context is Some,
        idle,
    );
    law_the_dominant_signal_is_the_first(
        loop_secs(s.error_context),
        s.context_switch is Some,
        s.repetition_context is Some,
        idle,
    );
    law_the_verdict_is_the_first_that_holds(
        in_call(window.by_source.window@),
        running,
        cooling_down(last_gate_open_ts, now, gap),
        idle is Some,
        signal,
        s.error_context matches Some(ctx) && extended_block(calc, ctx.duration_sec, profile),
    );
}

/// A switch is "mid-task" exactly when there was a state before, with a
/// blocking score above 0.4.
pub proof fn law_mid_task_is_above_two_fifths<C: Calculator>(
    calc: C,
    window: &SlidingWindowBuffer,
    previous: Option<ImmediateState>,
    last_gate_open_ts: Option<u64>,
    profile: &UserProfile,
    now: u64,
    session_id: u64,
    running: bool,
    s: ImmediateState,
)
    requires
        is_state(
            calc,
            window,
            previous,
            last_gate_open_ts,
            profile,
            now,
            session_id,
            running,
            s,
        ),
    ensures
        s.context_switch matches Some(c) ==> (c.mid_task <==> previous is Some
            && previous->0.blocking_score.rank() > 0x3FD9_9999_9999_999A),
{
}

/// A state says since when the intervention gate has been open: since the
/// state before said so, or else since now. When it is closed, the state says
/// nothing.
pub proof fn law_an_opening_is_dated<C: Calculator>(
    calc: C,
    window: &SlidingWindowBuffer,
    previous: Option<ImmediateState>,
    last_gate_open_ts: Option<u64>,
    profile: &UserProfile,
    now: u64,
    session_id: u64,
    running: bool,
    s: ImmediateState,
)
    requires
        is_state(
            calc,
            window,
            previous,
            last_gate_open_ts,
            profile,
            now,
            session_id,
            running,
            s,
        ),
    ensures
        s.ts == now,
        s.session_id == session_id,
        !says_open(s.gate@) ==> s.gate_open_at is None,
        says_open(s.gate@) && previous is Some && says_open(previous->0.gate@) ==> s.gate_open_at
            == previous->0.gate_open_at,
        says_open(s.gate@) && (previous is None || !says_open(previous->0.gate@)) ==> s.gate_open_at
            == Some(now),
{
    lemma_says_open(s.gate@);
    if previous is Some {
        lemma_says_open(previous->0.gate@);
    }
}

/// The cooldown starts when the intervention gate goes from closed to open,
/// and goes on unchanged otherwise. A state that is not emitted leaves the
/// one before it in place, but for its time and its score; one that is
/// emitted replaces it.
pub proof fn law_openings_start_the_cooldown<C: Calculator>(
    calc: C,
    before: ImmediateLayer,
    window: SlidingWindowBuffer,
    profile: &UserProfile,
    now: u64,
    session_id: u64,
    emitted: bool,
    after: ImmediateLayer,
)
    requires
        processed(calc, before, window, profile, now, session_id, emitted, after),
    ensures
        after.previous is Some,
        ({
            let open = says_open(after.previous->0.gate@);
            let was = before.previous is Some && says_open(before.previous->0.gate@);
            &&& open && !was ==> after.last_gate_open_ts == Some(now)
            &&& !open || was ==> after.last_gate_open_ts == before.last_gate_open_ts
        }),
        after.previous->0.ts == now,
        emitted ==> after.previous->0.session_id == session_id,
        !emitted ==> {
            &&& before.previous is Some
            &&& after.previous->0.session_id == before.previous->0.session_id
            &&& after.previous->0.signal == before.previous->0.signal
            &&& after.previous->0.gate == before.previous->0.gate
            &&& after.previous->0.gate_open_at == before.previous->0.gate_open_at
            &&& after.previous->0.error_context == before.previous->0.error_context
            &&& after.previous->0.repetition_context == before.previous->0.repetition_context
            &&& after.previous->0.context_switch == before.previous->0.context_switch
        },
        after.command_running_since == before.command_running_since,
        after.previous->0.blocking_score_delta == difference(
            calc,
            after.previous->0.blocking_score,
            match before.previous {
                Some(prev) => prev.blocking_score,
                None => Quantity { bits: 0 },
            },
        ),
{
    lemma_says_open(after.previous->0.gate@);
    if before.previous is Some {
        lemma_says_open(before.previous->0.gate@);
    }
}

/// A state belongs to the session of its event; a tick of the clock keeps the
/// session of the state before.
pub proof fn law_states_belong_to_sessions(event: Json, previous: Option<ImmediateState>)
    ensures
        event.natural_at("session_id"@) matches Some(id) ==> super::layer::session_of(event) == id,
        event.natural_at("session_id"@) is None ==> super::layer::session_of(event) == 0,
        previous matches Some(prev) ==> super::layer::previous_session(previous)
            == prev.session_id,
        previous is None ==> super::layer::previous_session(previous) == 0,
{
}

/// The window reaches back five minutes: what is older is dropped, and nothing
/// else.
pub proof fn law_the_window_reaches_back_five_minutes(
    events: Seq<Arc<Json>>,
    now: u64,
    i: int,
)
    requires
        0 <= i < events.len(),
    ensures
        kept(events, since(cutoff(now, 300))).contains(events[i]) <==> at(*events[i]) + 300 >= now,
{
    let p = since(cutoff(now, 300));
    let n = events.len() as int;
    assert(p(*events[i]) == (at(*events[i]) + 300 >= now));
    super::buffer::lemma_kept_holds(events, p, n);
    if p(*events[i]) {
        lemma_kept_has(events, p, i, n);
    } else if kept(events, p).contains(events[i]) {
        let all = kept(events, p);
        let k = choose|k: int| 0 <= k < all.len() && all[k] == events[i];
        assert(p(*all[k]));
    }
}

proof fn lemma_kept_has(events: Seq<Arc<Json>>, p: spec_fn(Json) -> bool, i: int, n: int)
    requires
        0 <= i < n <= events.len(),
        p(*events[i]),
    ensures
        kept_to(events, p, n).contains(events[i]),
    decreases n,
{
    let before = kept_to(events, p, n - 1);
    let after = kept_to(events, p, n);
    if i == n - 1 {
        assert(after[before.len() as int] == events[i]);
    } else {
        lemma_kept_has(events, p, i, n - 1);
        let k = choose|k: int| 0 <= k < before.len() && before[k] == events[i];
        assert(after[k] == events[i]);
    }
}

/// No domain has more visits than the top one, which has as many as are
/// counted.
pub proof fn law_the_top_domain_is_counted(
    window: &SlidingWindowBuffer,
    secs: Option<u64>,
    domain: Seq<char>,
)
    requires
        window.by_source.browser@.len() <= u64::MAX,
    ensures
        ({
            let browser = window.by_source.browser@;
            let top = window_factors(window, secs).top_visits;
            &&& how_many(browser, |e: Json| said(e, "domain"@) == Some(domain)) <= top
            &&& top > 0 ==> exists|d: Seq<char>|
                #[trigger] visits(browser, d) == top
        }),
{
    let browser = window.by_source.browser@;
    let n = browser.len() as int;
    super::score::law_top_visits_is_the_maximum(browser, n);
    lemma_visits(browser, domain);
    assert(super::score::visits_to(browser, domain, n) <= top_visits_to(browser, n));
    lemma_top_bound(browser, n);
    if top_visits_to(browser, n) > 0 {
        let d = choose|d: Seq<char>| #[trigger]
            super::score::visits_to(browser, d, n) == top_visits_to(browser, n);
        lemma_visits(browser, d);
        assert(visits(browser, d) == top_visits_to(browser, n));
    }
}

/// How often a domain is visited.
pub open spec fn visits(events: Seq<Arc<Json>>, domain: Seq<char>) -> nat {
    how_many(events, |e: Json| said(e, "domain"@) == Some(domain))
}

proof fn lemma_visits(events: Seq<Arc<Json>>, domain: Seq<char>)
    ensures
        super::score::visits_to(events, domain, events.len() as int) == visits(events, domain),
{
    assert(Json::Null.field("domain"@) is None);
    assert(events.take(events.len() as int) =~= events);
    lemma_count_is_how_many(
        events,
        |e: Json| super::buffer::entity_text(e, "domain"@) == Some(domain),
        |e: Json| said(e, "domain"@) == Some(domain),
        events.len() as int,
    );
}

proof fn lemma_top_bound(events: Seq<Arc<Json>>, n: int)
    requires
        0 <= n <= events.len(),
    ensures
        top_visits_to(events, n) <= n,
    decreases n,
{
    if n > 0 {
        lemma_top_bound(events, n - 1);
        let here = super::score::domain_at(events, n - 1);
        if here is Some {
            lemma_count_is_how_many(
                events,
                |e: Json| super::buffer::entity_text(e, "domain"@) == Some(here->0),
                |e: Json| super::buffer::entity_text(e, "domain"@) == Some(here->0),
                n,
            );
        }
    }
}

} // verus!
