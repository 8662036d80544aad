//! The session summarizer.

use super::features::{
    branches_of, count_flag, count_in, earliest, find_earliest, find_flag, find_latest_time,
    first_flag, flag_count, latest, law_every_failure_has_a_resolution, law_flags_add_up,
    law_lists_join, law_tallies_add_up, list_branches, list_feature, list_resolutions, listed,
    resolutions, tallied, tally_feature, texts_in, Feature, Flag,
};
use super::{loop_views, ErrorLoopSummary, ErrorLoopView, SessionIntent};
use crate::arithmetic::{
    difference, from_whole, greatest, max_of, minus, over, quotient, reliable, whole, Calculator,
};
use crate::immediate::buffer::{event_ts, time_of};
use crate::immediate::gate::{is_open, opens};
use crate::json::{Json, Number};
use crate::moment::{local_hour, FIRST_SECOND, LAST_SECOND};
use crate::quantity::{Quantity, SIXTY, ZERO};
use crate::table::{total, Table};
use crate::text::{opt_view, same, views};
use std::sync::Arc;
use vstd::prelude::*;

verus! {

// ---------------------------------------------------------------------
// Hours
// ---------------------------------------------------------------------

/// The distinct hours among the first `n`, in the order in which they came.
pub open spec fn distinct(hours: Seq<Option<u8>>, n: int) -> Seq<u8>
    decreases n,
{
    if n <= 0 {
        Seq::empty()
    } else {
        let before = distinct(hours, n - 1);
        match hours[n - 1] {
            Some(hour) => if before.contains(hour) {
                before
            } else {
                before.push(hour)
            },
            None => before,
        }
    }
}

/// `hours` may be the local hours of the events: an event with a time within
/// the reach of the calendar has one.
pub open spec fn possible_hours(events: Seq<Arc<Json>>, hours: Seq<Option<u8>>) -> bool {
    &&& hours.len() == events.len()
    &&& forall|i: int|
        0 <= i < events.len() ==> {
            &&& (#[trigger] hours[i]) is Some <==> has_hour(time_of(*events[i]))
            &&& hours[i] matches Some(hour) ==> hour < 24
        }
}

/// There is a local hour for the time.
pub open spec fn has_hour(ts: u64) -> bool {
    ts > 0 && FIRST_SECOND <= ts as i64 <= LAST_SECOND
}

fn is_listed(hours: &Vec<u8>, hour: u8) -> (r: bool)
    ensures
        r == hours@.contains(hour),
{
    for i in 0..hours.len()
        invariant
            forall|j: int| 0 <= j < i ==> hours@[j] != hour,
    {
        if hours[i] == hour {
            return true;
        }
    }
    false
}

/// The distinct hours, in the order in which they came.
pub fn distinct_hours(hours: &Vec<Option<u8>>) -> (r: Vec<u8>)
    ensures
        r@ == distinct(hours@, hours@.len() as int),
{
    let mut out: Vec<u8> = Vec::new();
    for i in 0..hours.len()
        invariant
            out@ == distinct(hours@, i as int),
    {
        if let Some(hour) = hours[i] {
            if !is_listed(&out, hour) {
                out.push(hour);
            }
        }
    }
    out
}

/// The hour that the clock showed here at each event.
pub fn local_hours(events: &Vec<Arc<Json>>) -> (r: Vec<Option<u8>>)
    ensures
        possible_hours(events@, r@),
{
    let mut out: Vec<Option<u8>> = Vec::new();
    for i in 0..events.len()
        invariant
            out@.len() == i,
            forall|j: int|
                0 <= j < i ==> {
                    &&& (#[trigger] out@[j]) is Some <==> has_hour(time_of(*events@[j]))
                    &&& out@[j] matches Some(hour) ==> hour < 24
                },
    {
        let ts = event_ts(&events[i]);
        let hour = if ts > 0 {
            local_hour(
                #[verifier::truncate]
                (ts as i64),
            )
        } else {
            None
        };
        out.push(hour);
    }
    out
}

/// No hour is listed twice.
pub proof fn law_hours_are_distinct(hours: Seq<Option<u8>>, n: int)
    requires
        0 <= n,
    ensures
        distinct(hours, n).no_duplicates(),
    decreases n,
{
    if n > 0 {
        law_hours_are_distinct(hours, n - 1);
    }
}

// ---------------------------------------------------------------------
// The most frequent name
// ---------------------------------------------------------------------

/// `r` is a name with the highest count; of several one of them.
pub open spec fn most_counted(counts: Map<Seq<char>, u64>, r: Option<Seq<char>>) -> bool {
    match r {
        Some(name) => {
            &&& counts.dom().contains(name)
            &&& forall|other: Seq<char>| #[trigger]
                counts.dom().contains(other) ==> counts[other] <= counts[name]
        },
        None => forall|other: Seq<char>| !#[trigger] counts.dom().contains(other),
    }
}

/// The name with the highest count.
pub fn find_most_counted(counts: &Table<u64>) -> (r: Option<String>)
    requires
        counts.wf(),
    ensures
        most_counted(counts@, opt_view(r)),
{
    let mut best: usize = 0;
    for i in 0..counts.entries.len()
        invariant
            i > 0 ==> best < i,
            i == 0 ==> best == 0,
            forall|j: int|
                0 <= j < i ==> (#[trigger] counts.entries@[j]).1 <= counts.entries@[best as int].1,
    {
        if counts.entries[i].1 >= counts.entries[best].1 {
            best = i;
        }
    }
    if counts.entries.len() == 0 {
        proof {
            assert forall|other: Seq<char>| !#[trigger] counts@.dom().contains(other) by {
                if counts@.dom().contains(other) {
                    let k = counts.lemma_has_entry(other);
                }
            }
        }
        return None;
    }
    proof {
        counts.lemma_entry(best as int);
        assert forall|other: Seq<char>| #[trigger] counts@.dom().contains(other) implies counts@[other]
            <= counts@[counts.entries@[best as int].0@] by {
            let k = counts.lemma_has_entry(other);
            assert(counts.entries@[k].1 <= counts.entries@[best as int].1);
        }
    }
    Some(counts.entries[best].0.clone())
}

// ---------------------------------------------------------------------
// Immediate states
// ---------------------------------------------------------------------

/// What the immediate states of a session add up to.
#[verifier::ext_equal]
pub struct Episodes {
    pub signals: Map<Seq<char>, u64>,
    pub loops: Seq<ErrorLoopView>,
    pub first_score: Option<Quantity>,
    pub max_score: Quantity,
    pub final_score: Quantity,
    pub gate_opens: nat,
}

impl Episodes {
    /// No state has been seen.
    pub open spec fn none() -> Episodes {
        Episodes {
            signals: Map::empty(),
            loops: Seq::empty(),
            first_score: None,
            max_score: Quantity { bits: ZERO },
            final_score: Quantity { bits: ZERO },
            gate_opens: 0,
        }
    }

    /// What a session holds already.
    pub open spec fn of(session: SessionIntent) -> Episodes {
        Episodes {
            signals: session.immediate_signal_counts@,
            loops: loop_views(session.error_loops@),
            first_score: None,
            max_score: session.max_blocking_score,
            final_score: session.final_blocking_score,
            gate_opens: session.gate_open_count as nat,
        }
    }

    /// There is room for the counts of `n` more states.
    pub open spec fn room(self, n: int) -> bool {
        &&& self.gate_opens + n <= u64::MAX
        &&& forall|name: Seq<char>| #[trigger] count_in(self.signals, name) + n <= u64::MAX
    }
}

/// The signal of a state.
pub open spec fn signal_of(state: Json) -> Seq<char> {
    match state.text_at("signal"@) {
        Some(signal) => signal,
        None => "none"@,
    }
}

/// The value of a number.
pub open spec fn value_of<C: Calculator>(calc: C, n: Number) -> Quantity {
    match n {
        Number::Natural(n) => whole(calc, n),
        Number::Negative(n) => difference(
            calc,
            Quantity { bits: ZERO },
            whole(calc, (0 - n) as u64),
        ),
        Number::Fraction(q) => q,
    }
}

/// The blocking score of a state.
pub open spec fn score_of<C: Calculator>(calc: C, state: Json) -> Quantity {
    match state.field("blocking_score"@) {
        Some(Json::Number(n)) => value_of(calc, *n),
        _ => Quantity { bits: ZERO },
    }
}

/// The error loop of a state.
pub open spec fn loop_of(state: Json) -> Option<ErrorLoopView> {
    if signal_of(state) == "error_loop"@ {
        match state.field("error_context"@) {
            Some(ctx) => Some(
                ErrorLoopView {
                    tool: match ctx.text_at("tool"@) {
                        Some(tool) => tool,
                        None => Seq::empty(),
                    },
                    subcommand: ctx.text_at("subcommand"@),
                    failure_count: natural_or_zero(*ctx, "failure_count"@),
                    search_count: natural_or_zero(*ctx, "search_count"@),
                    duration_sec: natural_or_zero(*ctx, "duration_sec"@),
                    domain: ctx.text_at("domain"@),
                },
            ),
            None => None,
        }
    } else {
        None
    }
}

pub open spec fn natural_or_zero(json: Json, key: Seq<char>) -> u64 {
    match json.natural_at(key) {
        Some(n) => n,
        None => 0,
    }
}

/// The position at or after `from` of the loop of a tool.
pub open spec fn loop_at(loops: Seq<ErrorLoopView>, tool: Seq<char>, from: int) -> Option<int>
    decreases loops.len() - from,
{
    if from < 0 || from >= loops.len() {
        None
    } else if loops[from].tool == tool {
        Some(from)
    } else {
        loop_at(loops, tool, from + 1)
    }
}

/// The loops with one more: of the loops of a tool the longest is kept.
pub open spec fn with_loop(loops: Seq<ErrorLoopView>, episode: ErrorLoopView) -> Seq<
    ErrorLoopView,
> {
    match loop_at(loops, episode.tool, 0) {
        Some(i) => if episode.duration_sec > loops[i].duration_sec {
            loops.update(i, episode)
        } else {
            loops
        },
        None => loops.push(episode),
    }
}

/// The intervention gate of a state is open.
pub open spec fn open_in(state: Json) -> bool {
    state.text_at("gate"@) matches Some(gate) && opens(gate)
}

/// What the first `n` states add up to, together with what came before them.
pub open spec fn episodes<C: Calculator>(
    calc: C,
    start: Episodes,
    states: Seq<Arc<Json>>,
    n: int,
) -> Episodes
    decreases n,
{
    if n <= 0 {
        start
    } else {
        let before = episodes(calc, start, states, n - 1);
        let signal = signal_of(*states[n - 1]);
        let score = score_of(calc, *states[n - 1]);
        Episodes {
            signals: if signal != "none"@ {
                before.signals.insert(signal, (count_in(before.signals, signal) + 1) as u64)
            } else {
                before.signals
            },
            loops: match loop_of(*states[n - 1]) {
                Some(episode) => with_loop(before.loops, episode),
                None => before.loops,
            },
            first_score: match before.first_score {
                Some(first) => Some(first),
                None => Some(score),
            },
            max_score: greatest(before.max_score, score),
            final_score: score,
            gate_opens: before.gate_opens + if open_in(*states[n - 1]) {
                1nat
            } else {
                0
            },
        }
    }
}

proof fn lemma_signal_bound<C: Calculator>(
    calc: C,
    start: Episodes,
    states: Seq<Arc<Json>>,
    name: Seq<char>,
    n: int,
)
    requires
        0 <= n,
        start.room(n),
    ensures
        count_in(episodes(calc, start, states, n).signals, name) <= count_in(start.signals, name)
            + n,
        episodes(calc, start, states, n).gate_opens <= start.gate_opens + n,
    decreases n,
{
    assert(count_in(start.signals, name) + n <= u64::MAX);
    if n > 0 {
        assert(start.room(n - 1)) by {
            assert forall|other: Seq<char>| #[trigger]
                count_in(start.signals, other) + (n - 1) <= u64::MAX by {
                assert(count_in(start.signals, other) + n <= u64::MAX);
            }
        }
        lemma_signal_bound(calc, start, states, name, n - 1);
    }
}

proof fn lemma_loop_at(loops: Seq<ErrorLoopView>, tool: Seq<char>, from: int)
    requires
        0 <= from,
    ensures
        match loop_at(loops, tool, from) {
            Some(i) => {
                &&& from <= i < loops.len()
                &&& loops[i].tool == tool
                &&& forall|j: int| from <= j < i ==> (#[trigger] loops[j]).tool != tool
            },
            None => forall|j: int| from <= j < loops.len() ==> (#[trigger] loops[j]).tool != tool,
        },
    decreases loops.len() - from,
{
    if from < loops.len() {
        lemma_loop_at(loops, tool, from + 1);
    }
}

/// There is one loop per tool, and no state of the session shows a longer
/// one for that tool.
pub proof fn law_longest_loop_per_tool<C: Calculator>(
    calc: C,
    start: Episodes,
    states: Seq<Arc<Json>>,
    n: int,
)
    requires
        0 <= n <= states.len(),
        forall|i: int, j: int|
            0 <= i < j < start.loops.len() ==> (#[trigger] start.loops[i]).tool != (
            #[trigger] start.loops[j]).tool,
    ensures
        ({
            let loops = episodes(calc, start, states, n).loops;
            &&& forall|i: int, j: int|
                0 <= i < j < loops.len() ==> (#[trigger] loops[i]).tool != (
                #[trigger] loops[j]).tool
            &&& forall|k: int|
                0 <= k < n ==> (loop_of(*#[trigger] states[k]) matches Some(e) ==> exists|i: int|
                    0 <= i < loops.len() && (#[trigger] loops[i]).tool == e.tool
                        && loops[i].duration_sec >= e.duration_sec)
        }),
    decreases n,
{
    if n > 0 {
        law_longest_loop_per_tool(calc, start, states, n - 1);
        let before = episodes(calc, start, states, n - 1).loops;
        let loops = episodes(calc, start, states, n).loops;
        if let Some(episode) = loop_at_state(states, n - 1) {
            lemma_loop_at(before, episode.tool, 0);
            match loop_at(before, episode.tool, 0) {
                Some(i) => {
                    assert(loops[i].tool == episode.tool && loops[i].duration_sec
                        >= episode.duration_sec);
                },
                None => {
                    assert(loops[before.len() as int] == episode);
                },
            }
            assert forall|j: int| 0 <= j < before.len() implies (#[trigger] loops[j]).tool
                == before[j].tool && loops[j].duration_sec >= before[j].duration_sec by {}
        }
        assert forall|k: int| 0 <= k < n implies (loop_of(*#[trigger] states[k]) matches Some(e)
            ==> exists|i: int|
            0 <= i < loops.len() && (#[trigger] loops[i]).tool == e.tool && loops[i].duration_sec
                >= e.duration_sec) by {
            if k < n - 1 && loop_at_state(states, k) is Some {
                let e = loop_at_state(states, k)->0;
                let i = choose|i: int|
                    0 <= i < before.len() && (#[trigger] before[i]).tool == e.tool
                        && before[i].duration_sec >= e.duration_sec;
                assert(loops[i].tool == e.tool);
            }
        }
    }
}

spec fn loop_at_state(states: Seq<Arc<Json>>, i: int) -> Option<ErrorLoopView> {
    loop_of(*states[i])
}

fn number_value<C: Calculator>(calc: C, n: &Number) -> (r: Quantity)
    requires
        reliable(calc),
    ensures
        r == value_of(calc, *n),
{
    match n {
        Number::Natural(n) => from_whole(calc, *n),
        Number::Negative(n) => {
            let size: u64 = (0i128 - *n as i128) as u64;
            minus(calc, Quantity { bits: ZERO }, from_whole(calc, size))
        },
        Number::Fraction(q) => *q,
    }
}

fn read_score<C: Calculator>(calc: C, state: &Json) -> (r: Quantity)
    requires
        reliable(calc),
    ensures
        r == score_of(calc, *state),
{
    match state.get("blocking_score") {
        Some(Json::Number(n)) => number_value(calc, n),
        _ => Quantity { bits: ZERO },
    }
}

fn natural_or(json: &Json, key: &str) -> (r: u64)
    ensures
        r == natural_or_zero(*json, key@),
{
    match json.get_natural(key) {
        Some(n) => n,
        None => 0,
    }
}

fn read_loop(state: &Json) -> (r: Option<ErrorLoopSummary>)
    ensures
        (match r {
            Some(e) => Some(e@),
            None => None,
        }) == loop_of(*state),
{
    let signal = state.get_text_or("signal", "none");
    if !same(signal.as_str(), "error_loop") {
        return None;
    }
    match state.get("error_context") {
        Some(ctx) => {
            let tool = match ctx.get_text("tool") {
                Some(tool) => tool,
                None => String::new(),
            };
            assert(tool@ =~= loop_of(*state)->0.tool);
            Some(
                ErrorLoopSummary {
                    tool,
                    subcommand: ctx.get_text("subcommand"),
                    failure_count: natural_or(ctx, "failure_count"),
                    search_count: natural_or(ctx, "search_count"),
                    duration_sec: natural_or(ctx, "duration_sec"),
                    domain: ctx.get_text("domain"),
                },
            )
        },
        None => None,
    }
}

fn add_loop(loops: &mut Vec<ErrorLoopSummary>, episode: ErrorLoopSummary)
    ensures
        loop_views(final(loops)@) == with_loop(loop_views(old(loops)@), episode@),
{
    let ghost all = loop_views(loops@);
    let mut i: usize = 0;
    while i < loops.len()
        invariant
            i <= loops@.len(),
            loops@ == old(loops)@,
            all == loop_views(loops@),
            loop_at(all, episode.tool@, i as int) == loop_at(all, episode.tool@, 0),
        decreases loops@.len() - i,
    {
        assert(all[i as int] == loops@[i as int]@);
        if same(loops[i].tool.as_str(), episode.tool.as_str()) {
            if episode.duration_sec > loops[i].duration_sec {
                let ghost view = episode@;
                loops.set(i, episode);
                assert(loop_views(loops@) =~= all.update(i as int, view));
            }
            return;
        }
        i = i + 1;
    }
    let ghost view = episode@;
    loops.push(episode);
    assert(loop_views(loops@) =~= all.push(view));
}

// ---------------------------------------------------------------------
// The summary
// ---------------------------------------------------------------------

/// The session holds what the immediate states add up to.
pub open spec fn enriched<C: Calculator>(
    calc: C,
    session: SessionIntent,
    start: Episodes,
    states: Seq<Arc<Json>>,
) -> bool {
    let e = episodes(calc, start, states, states.len() as int);
    &&& session.immediate_signal_counts@ == e.signals
    &&& loop_views(session.error_loops@) == e.loops
    &&& session.max_blocking_score == e.max_score
    &&& session.final_blocking_score == e.final_score
    &&& session.blocking_score_trend == difference(
        calc,
        e.final_score,
        match e.first_score {
            Some(first) => first,
            None => Quantity { bits: ZERO },
        },
    )
    &&& session.gate_open_count == e.gate_opens
}

/// When the session started: with its earliest event, or when it ended if
/// that is not known. The largest number is no time.
pub open spec fn start_of(events: Seq<Arc<Json>>, end_ts: u64) -> u64 {
    match earliest(events, events.len() as int) {
        Some(ts) => if ts == u64::MAX {
            end_ts
        } else {
            ts
        },
        None => end_ts,
    }
}

/// When the session ended: at the given time, or with its last event if that
/// is not known.
pub open spec fn end_of(events: Seq<Arc<Json>>, end_ts: u64) -> u64 {
    if end_ts != 0 {
        end_ts
    } else {
        let last = latest(events, events.len() as int);
        let start = start_of(events, end_ts);
        if last > start {
            last
        } else {
            start
        }
    }
}

/// Whether research came before the first failed command, if there were both.
pub open spec fn searched_first(events: Seq<Arc<Json>>) -> Option<bool> {
    match (
        first_flag(events, Flag::Research, 0),
        first_flag(events, Flag::FailedCommand, 0),
    ) {
        (Some(r), Some(f)) => Some(r < f),
        _ => None,
    }
}

/// `session` summarizes the events of a session, where `hours` are the local
/// hours of the events.
pub open spec fn summarizes<C: Calculator>(
    calc: C,
    session: SessionIntent,
    session_id: u64,
    events: Seq<Arc<Json>>,
    hours: Seq<Option<u8>>,
    end_ts: u64,
    end_reason: Seq<char>,
    states: Seq<Arc<Json>>,
) -> bool {
    let n = events.len() as int;
    &&& session.wf()
    &&& session.session_id == session_id
    &&& session.start_ts == start_of(events, end_ts)
    &&& session.end_ts == end_of(events, end_ts)
    &&& session.duration_min == quotient(
        calc,
        whole(
            calc,
            if session.end_ts >= session.start_ts {
                (session.end_ts - session.start_ts) as u64
            } else {
                0
            },
        ),
        Quantity { bits: SIXTY },
    )
    &&& session.end_reason@ == end_reason
    &&& session.event_count == n
    &&& session.project_event_counts@ == tallied(events, Feature::Project, n)
    &&& forall|project: Seq<char>| #[trigger]
        texts_in(session.project_branches@, project) == branches_of(events, project, n)
    &&& forall|project: Seq<char>| #[trigger]
        session.project_branches@.dom().contains(project) ==> texts_in(
            session.project_branches@,
            project,
        ).len() > 0
    &&& most_counted(session.project_event_counts@, opt_view(session.primary_project))
    &&& session.app_focus_counts@ == tallied(events, Feature::App, n)
    &&& session.active_hours@ == distinct(hours, hours.len() as int)
    &&& session.commands_run == flag_count(events, Flag::Command, n)
    &&& session.commands_failed == flag_count(events, Flag::FailedCommand, n)
    &&& session.tool_counts@ == tallied(events, Feature::Tool, n)
    &&& views(session.command_sequence@) == listed(events, Feature::Command, n)
    &&& session.files_changed == flag_count(events, Flag::FileChange, n)
    &&& session.browser_domain_counts@ == tallied(events, Feature::Domain, n)
    &&& session.doc_domain_counts@ == tallied(events, Feature::DocDomain, n)
    &&& session.browser_category_counts@ == tallied(events, Feature::Category, n)
    &&& views(session.search_queries@) == listed(events, Feature::Query, n)
    &&& session.clipboard_events == flag_count(events, Flag::Clipboard, n)
    &&& session.test_failures == flag_count(events, Flag::FailedTest, n)
    &&& session.test_failure_tools@ == tallied(events, Feature::FailedTestTool, n)
    &&& views(session.friction_resolutions@) == resolutions(events, n)
    &&& session.search_before_try == searched_first(events)
    &&& session.phase_counts@ == tallied(events, Feature::Phase, n)
    &&& total(session.phase_counts.entries@) <= n
    &&& is_dominant_phase(session.phase_counts@, session.dominant_phase@)
    &&& enriched(calc, session, Episodes::none(), states)
}

/// The counts of two tables add up to those of a third.
pub open spec fn adds_up(
    a: Map<Seq<char>, u64>,
    b: Map<Seq<char>, u64>,
    both: Map<Seq<char>, u64>,
) -> bool {
    forall|name: Seq<char>| #[trigger]
        count_in(both, name) == count_in(a, name) + count_in(b, name)
}

/// Of the events of two lists in a row the summary's counts are the sums of
/// those of the two, and its lists are theirs in a row.
pub proof fn law_summaries_add_up<C: Calculator>(
    calc: C,
    id: u64,
    a: Seq<Arc<Json>>,
    b: Seq<Arc<Json>>,
    hours_a: Seq<Option<u8>>,
    hours_b: Seq<Option<u8>>,
    end_ts: u64,
    reason: Seq<char>,
    states: Seq<Arc<Json>>,
    of_a: SessionIntent,
    of_b: SessionIntent,
    of_both: SessionIntent,
)
    requires
        a.len() + b.len() <= u64::MAX,
        summarizes(calc, of_a, id, a, hours_a, end_ts, reason, states),
        summarizes(calc, of_b, id, b, hours_b, end_ts, reason, states),
        summarizes(calc, of_both, id, a + b, hours_a + hours_b, end_ts, reason, states),
    ensures
        of_both.event_count == of_a.event_count + of_b.event_count,
        of_both.commands_run == of_a.commands_run + of_b.commands_run,
        of_both.commands_failed == of_a.commands_failed + of_b.commands_failed,
        of_both.files_changed == of_a.files_changed + of_b.files_changed,
        of_both.clipboard_events == of_a.clipboard_events + of_b.clipboard_events,
        of_both.test_failures == of_a.test_failures + of_b.test_failures,
        of_both.friction_resolutions@.len() == of_a.friction_resolutions@.len()
            + of_b.friction_resolutions@.len(),
        adds_up(
            of_a.project_event_counts@,
            of_b.project_event_counts@,
            of_both.project_event_counts@,
        ),
        adds_up(of_a.app_focus_counts@, of_b.app_focus_counts@, of_both.app_focus_counts@),
        adds_up(of_a.tool_counts@, of_b.tool_counts@, of_both.tool_counts@),
        adds_up(
            of_a.browser_domain_counts@,
            of_b.browser_domain_counts@,
            of_both.browser_domain_counts@,
        ),
        adds_up(of_a.doc_domain_counts@, of_b.doc_domain_counts@, of_both.doc_domain_counts@),
        adds_up(
            of_a.browser_category_counts@,
            of_b.browser_category_counts@,
            of_both.browser_category_counts@,
        ),
        adds_up(of_a.test_failure_tools@, of_b.test_failure_tools@, of_both.test_failure_tools@),
        adds_up(of_a.phase_counts@, of_b.phase_counts@, of_both.phase_counts@),
        views(of_both.command_sequence@) == views(of_a.command_sequence@) + views(
            of_b.command_sequence@,
        ),
        views(of_both.search_queries@) == views(of_a.search_queries@) + views(
            of_b.search_queries@,
        ),
{
    law_flags_add_up(a, b, Flag::Command);
    law_flags_add_up(a, b, Flag::FailedCommand);
    law_flags_add_up(a, b, Flag::FileChange);
    law_flags_add_up(a, b, Flag::Clipboard);
    law_flags_add_up(a, b, Flag::FailedTest);
    law_every_failure_has_a_resolution(a, a.len() as int);
    law_every_failure_has_a_resolution(b, b.len() as int);
    law_every_failure_has_a_resolution(a + b, (a + b).len() as int);
    assert(views(of_a.friction_resolutions@).len() == of_a.friction_resolutions@.len());
    assert(views(of_b.friction_resolutions@).len() == of_b.friction_resolutions@.len());
    assert(views(of_both.friction_resolutions@).len() == of_both.friction_resolutions@.len());
    lemma_adds_up(a, b, Feature::Project);
    lemma_adds_up(a, b, Feature::App);
    lemma_adds_up(a, b, Feature::Tool);
    lemma_adds_up(a, b, Feature::Domain);
    lemma_adds_up(a, b, Feature::DocDomain);
    lemma_adds_up(a, b, Feature::Category);
    lemma_adds_up(a, b, Feature::FailedTestTool);
    lemma_adds_up(a, b, Feature::Phase);
    law_lists_join(a, b, Feature::Command);
    law_lists_join(a, b, Feature::Query);
}

proof fn lemma_adds_up(a: Seq<Arc<Json>>, b: Seq<Arc<Json>>, f: Feature)
    requires
        a.len() + b.len() <= u64::MAX,
    ensures
        adds_up(
            tallied(a, f, a.len() as int),
            tallied(b, f, b.len() as int),
            tallied(a + b, f, (a + b).len() as int),
        ),
{
    let both = tallied(a + b, f, (a + b).len() as int);
    assert forall|name: Seq<char>| #[trigger] count_in(both, name) == count_in(
        tallied(a, f, a.len() as int),
        name,
    ) + count_in(tallied(b, f, b.len() as int), name) by {
        law_tallies_add_up(a, b, f, name);
    }
}

/// The phase with the most events, or implementation if there is none.
pub open spec fn is_dominant_phase(phases: Map<Seq<char>, u64>, phase: Seq<char>) -> bool {
    ||| most_counted(phases, Some(phase))
    ||| most_counted(phases, None) && phase == "implementation"@
}

/// Folds the states that the immediate layer emitted during this session
/// into the session's enrichment fields: signal counts, distinct error-loop
/// episodes (keeping the longest-running per tool), the blocking-score
/// trend (first -> last observed score), and how many emissions had an
/// open intervention gate.
pub fn summarize_immediate_states<C: Calculator>(
    session: &mut SessionIntent,
    states: &Vec<Arc<Json>>,
    calc: C,
)
    requires
        reliable(calc),
        old(session).immediate_signal_counts.wf(),
        Episodes::of(*old(session)).room(states@.len() as int),
    ensures
        enriched(calc, *final(session), Episodes::of(*old(session)), states@),
        final(session).immediate_signal_counts.wf(),
        *final(session) == (SessionIntent {
            immediate_signal_counts: final(session).immediate_signal_counts,
            error_loops: final(session).error_loops,
            max_blocking_score: final(session).max_blocking_score,
            final_blocking_score: final(session).final_blocking_score,
            blocking_score_trend: final(session).blocking_score_trend,
            gate_open_count: final(session).gate_open_count,
            ..*old(session)
        }),
{
    let ghost start = Episodes::of(*session);
    let mut first: Option<Quantity> = None;
    for i in 0..states.len()
        invariant
            reliable(calc),
            start == Episodes::of(*old(session)),
            start.room(states@.len() as int),
            session.immediate_signal_counts.wf(),
            session.immediate_signal_counts@ == episodes(calc, start, states@, i as int).signals,
            loop_views(session.error_loops@) == episodes(calc, start, states@, i as int).loops,
            first == episodes(calc, start, states@, i as int).first_score,
            session.max_blocking_score == episodes(calc, start, states@, i as int).max_score,
            session.final_blocking_score == episodes(calc, start, states@, i as int).final_score,
            session.gate_open_count == episodes(calc, start, states@, i as int).gate_opens,
            *session == (SessionIntent {
                immediate_signal_counts: session.immediate_signal_counts,
                error_loops: session.error_loops,
                max_blocking_score: session.max_blocking_score,
                final_blocking_score: session.final_blocking_score,
                gate_open_count: session.gate_open_count,
                ..*old(session)
            }),
    {
        let state = &states[i];
        let signal = state.get_text_or("signal", "none");
        proof {
            assert(count_in(start.signals, signal@) + states@.len() <= u64::MAX);
            assert(start.room(i as int)) by {
                assert forall|other: Seq<char>| #[trigger]
                    count_in(start.signals, other) + i <= u64::MAX by {
                    assert(count_in(start.signals, other) + states@.len() <= u64::MAX);
                }
            }
            lemma_signal_bound(calc, start, states@, signal@, i as int);
        }
        if !same(signal.as_str(), "none") {
            session.immediate_signal_counts.tally(signal.as_str());
        }
        if let Some(episode) = read_loop(state) {
            add_loop(&mut session.error_loops, episode);
        }
        let score = read_score(calc, state);
        if first.is_none() {
            first = Some(score);
        }
        session.max_blocking_score = max_of(session.max_blocking_score, score);
        session.final_blocking_score = score;
        if let Some(gate) = state.get_text("gate") {
            if is_open(gate.as_str()) {
                session.gate_open_count = session.gate_open_count + 1;
            }
        }
    }
    session.blocking_score_trend = minus(
        calc,
        session.final_blocking_score,
        match first {
            Some(first) => first,
            None => Quantity { bits: ZERO },
        },
    );
}

/// Compresses one session's worth of normalized events - enriched with the
/// states the immediate intent layer emitted during it - into a
/// [`SessionIntent`], where `hours` are the local hours of the events.
pub fn summarize_with_hours<C: Calculator>(
    session_id: u64,
    events: &Vec<Arc<Json>>,
    hours: &Vec<Option<u8>>,
    end_ts: u64,
    end_reason: String,
    immediate: &Vec<Arc<Json>>,
    calc: C,
) -> (r: SessionIntent)
    requires
        reliable(calc),
    ensures
        summarizes(
            calc,
            r,
            session_id,
            events@,
            hours@,
            end_ts,
            end_reason@,
            immediate@,
        ),
{
    let zero = Quantity { bits: ZERO };
    let start = match find_earliest(events) {
        Some(ts) => if ts == u64::MAX {
            end_ts
        } else {
            ts
        },
        None => end_ts,
    };
    let end = if end_ts != 0 {
        end_ts
    } else {
        let last = find_latest_time(events);
        if last > start {
            last
        } else {
            start
        }
    };
    let duration_min = over(
        calc,
        from_whole(calc, end.saturating_sub(start)),
        Quantity { bits: SIXTY },
    );
    let project_event_counts = tally_feature(events, Feature::Project);
    let primary_project = find_most_counted(&project_event_counts);
    let phase_counts = tally_feature(events, Feature::Phase);
    let dominant_phase = match find_most_counted(&phase_counts) {
        Some(phase) => phase,
        None => "implementation".to_owned(),
    };
    let search_before_try = match (
        find_flag(events, Flag::Research),
        find_flag(events, Flag::FailedCommand),
    ) {
        (Some(r), Some(f)) => Some(r < f),
        _ => None,
    };
    let mut session = SessionIntent {
        session_id,
        start_ts: start,
        end_ts: end,
        duration_min,
        end_reason,
        event_count: events.len() as u64,
        project_event_counts,
        project_branches: list_branches(events),
        primary_project,
        app_focus_counts: tally_feature(events, Feature::App),
        active_hours: distinct_hours(hours),
        commands_run: count_flag(events, Flag::Command),
        commands_failed: count_flag(events, Flag::FailedCommand),
        tool_counts: tally_feature(events, Feature::Tool),
        command_sequence: list_feature(events, Feature::Command),
        files_changed: count_flag(events, Flag::FileChange),
        browser_domain_counts: tally_feature(events, Feature::Domain),
        doc_domain_counts: tally_feature(events, Feature::DocDomain),
        browser_category_counts: tally_feature(events, Feature::Category),
        search_queries: list_feature(events, Feature::Query),
        clipboard_events: count_flag(events, Flag::Clipboard),
        test_failures: count_flag(events, Flag::FailedTest),
        test_failure_tools: tally_feature(events, Feature::FailedTestTool),
        friction_resolutions: list_resolutions(events),
        search_before_try,
        phase_counts,
        dominant_phase,
        immediate_signal_counts: Table::new(),
        error_loops: Vec::new(),
        max_blocking_score: zero,
        final_blocking_score: zero,
        blocking_score_trend: zero,
        gate_open_count: 0,
    };
    assert(Episodes::of(session) =~= Episodes::none()) by {
        assert(loop_views(session.error_loops@) =~= Seq::empty());
    }
    assert(Episodes::none().room(immediate.len() as int));
    summarize_immediate_states(&mut session, immediate, calc);
    session
}

/// Compresses one session's worth of normalized events - enriched with the
/// states the immediate intent layer emitted during it - into a
/// [`SessionIntent`]. The hours are those of this machine's time zone.
pub fn summarize_session<C: Calculator>(
    session_id: u64,
    events: &Vec<Arc<Json>>,
    end_ts: u64,
    end_reason: String,
    immediate: &Vec<Arc<Json>>,
    calc: C,
) -> (r: SessionIntent)
    requires
        reliable(calc),
    ensures
        exists|hours: Seq<Option<u8>>| #[trigger]
            possible_hours(events@, hours) && summarizes(
                calc,
                r,
                session_id,
                events@,
                hours,
                end_ts,
                end_reason@,
                immediate@,
            ),
{
    let hours = local_hours(events);
    summarize_with_hours(session_id, events, &hours, end_ts, end_reason, immediate, calc)
}

} // verus!
