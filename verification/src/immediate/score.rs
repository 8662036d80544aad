//! Signal classification and the blocking score.

use super::buffer::{entity_text, event_entities, SlidingWindowBuffer};
use super::recognizers::{failed, is_failure, is_search, searched};
use super::{ContextSwitchContext, ErrorContext, RepetitionContext};
use crate::arithmetic::{
    finite, from_whole, least, min_of, orderly, over, plus, product, quotient, reliable, share,
    share_of, sum, times, unit, whole, Calculator,
};
use crate::json::Json;
use crate::quantity::{Quantity, ONE, POINT_1, POINT_25, POINT_3, POINT_35, POINT_75, SIX_HUNDRED, ZERO};
use crate::table::Table;
use std::sync::Arc;
use vstd::prelude::*;

verus! {

// ---------------------------------------------------------------------
// Classification
// ---------------------------------------------------------------------

/// The dominant signal, and the duration that goes with it.
pub open spec fn dominant(
    error_duration: Option<u64>,
    switched: bool,
    repeated: bool,
    idle: Option<u64>,
) -> (Seq<char>, Option<u64>) {
    if error_duration is Some {
        ("error_loop"@, error_duration)
    } else if switched {
        ("context_switch"@, None)
    } else if repeated {
        ("repetition"@, None)
    } else if idle is Some {
        ("idle"@, idle)
    } else {
        ("none"@, None)
    }
}

/// How long an error loop has been going on.
pub open spec fn loop_secs(error_loop: Option<ErrorContext>) -> Option<u64> {
    match error_loop {
        Some(ctx) => Some(ctx.duration_sec),
        None => None,
    }
}

/// Picks the highest-priority recognizer result. Priority (highest first):
/// error loop, context switch, repetition, idle. Returns the signal name
/// and, for error-loop/idle, the duration that feeds into the blocking
/// score's duration factor.
pub fn classify(
    error_loop: &Option<ErrorContext>,
    context_switch: &Option<ContextSwitchContext>,
    repetition: &Option<RepetitionContext>,
    idle: &Option<u64>,
) -> (r: (&'static str, Option<u64>))
    ensures
        (r.0@, r.1) == dominant(
            loop_secs(*error_loop),
            *context_switch is Some,
            *repetition is Some,
            *idle,
        ),
{
    if let Some(ctx) = error_loop {
        return ("error_loop", Some(ctx.duration_sec));
    }
    if context_switch.is_some() {
        return ("context_switch", None);
    }
    if repetition.is_some() {
        return ("repetition", None);
    }
    if let Some(idle_sec) = idle {
        return ("idle", Some(*idle_sec));
    }
    ("none", None)
}

// ---------------------------------------------------------------------
// The blocking score
// ---------------------------------------------------------------------

/// How many of the first `n` events `p` holds of.
pub open spec fn count_to(events: Seq<Arc<Json>>, p: spec_fn(Json) -> bool, n: int) -> nat
    decreases n,
{
    if n <= 0 {
        0
    } else {
        count_to(events, p, n - 1) + if p(*events[n - 1]) {
            1nat
        } else {
            0
        }
    }
}

/// How many of the events failed.
pub open spec fn failure_count(events: Seq<Arc<Json>>) -> nat {
    count_to(events, |e: Json| failed(e), events.len() as int)
}

/// How many of the events are searches.
pub open spec fn search_count(events: Seq<Arc<Json>>) -> nat {
    count_to(events, |e: Json| searched(e), events.len() as int)
}

/// How many of the events have a domain.
pub open spec fn domain_count(events: Seq<Arc<Json>>) -> nat {
    count_to(events, |e: Json| entity_text(e, "domain"@) is Some, events.len() as int)
}

/// How many of the first `n` events have the given domain.
pub open spec fn visits_to(events: Seq<Arc<Json>>, domain: Seq<char>, n: int) -> nat {
    count_to(events, |e: Json| entity_text(e, "domain"@) == Some(domain), n)
}

/// The domain of an event.
pub open spec fn domain_at(events: Seq<Arc<Json>>, i: int) -> Option<Seq<char>> {
    entity_text(*events[i], "domain"@)
}

/// The most visits that a single domain got among the first `n` events.
pub open spec fn top_visits_to(events: Seq<Arc<Json>>, n: int) -> nat
    decreases n,
{
    if n <= 0 {
        0
    } else {
        let before = top_visits_to(events, n - 1);
        match domain_at(events, n - 1) {
            Some(domain) => if visits_to(events, domain, n) > before {
                visits_to(events, domain, n)
            } else {
                before
            },
            None => before,
        }
    }
}

/// The most visits that a single domain got.
pub open spec fn top_visits(events: Seq<Arc<Json>>) -> nat {
    top_visits_to(events, events.len() as int)
}

proof fn lemma_count_bound(events: Seq<Arc<Json>>, p: spec_fn(Json) -> bool, n: int)
    requires
        0 <= n,
    ensures
        count_to(events, p, n) <= n,
    decreases n,
{
    if n > 0 {
        lemma_count_bound(events, p, n - 1);
    }
}

proof fn lemma_visits_grow(events: Seq<Arc<Json>>, domain: Seq<char>, m: int, n: int)
    requires
        0 <= m <= n,
    ensures
        visits_to(events, domain, m) <= visits_to(events, domain, n),
    decreases n - m,
{
    if m < n {
        lemma_visits_grow(events, domain, m, n - 1);
    }
}

/// No domain was visited more often than the top one, and the top one was
/// visited that often.
pub proof fn law_top_visits_is_the_maximum(events: Seq<Arc<Json>>, n: int)
    requires
        0 <= n <= events.len(),
    ensures
        forall|domain: Seq<char>| #[trigger]
            visits_to(events, domain, n) <= top_visits_to(events, n),
        top_visits_to(events, n) > 0 ==> exists|domain: Seq<char>| #[trigger]
            visits_to(events, domain, n) == top_visits_to(events, n),
    decreases n,
{
    if n > 0 {
        law_top_visits_is_the_maximum(events, n - 1);
        assert forall|domain: Seq<char>| #[trigger]
            visits_to(events, domain, n) <= top_visits_to(events, n) by {
            let before = visits_to(events, domain, n - 1);
            assert(before <= top_visits_to(events, n - 1));
        }
        if top_visits_to(events, n) > 0 {
            let here = domain_at(events, n - 1);
            if here matches Some(d) && top_visits_to(events, n) == visits_to(events, d, n) {
            } else {
                let d = choose|domain: Seq<char>| #[trigger]
                    visits_to(events, domain, n - 1) == top_visits_to(events, n - 1);
                lemma_visits_grow(events, d, n - 1, n);
                assert(visits_to(events, d, n) <= top_visits_to(events, n));
                assert(visits_to(events, d, n) == top_visits_to(events, n));
            }
        }
    }
}

/// What the blocking score is made of.
#[derive(Debug, Clone, Copy, PartialEq, Eq, Structural)]
pub struct BlockingFactors {
    pub commands: u64,
    pub failures: u64,
    pub searches: u64,
    pub file_saves: u64,
    /// How long the dominant error loop has been going on.
    pub loop_secs: Option<u64>,
    pub domains: u64,
    pub top_visits: u64,
}

/// What the blocking score of a window is made of.
pub open spec fn window_factors(
    window: &SlidingWindowBuffer,
    loop_secs: Option<u64>,
) -> BlockingFactors {
    BlockingFactors {
        commands: window.by_source.terminal@.len() as u64,
        failures: failure_count(window.by_source.terminal@) as u64,
        searches: search_count(window.by_source.browser@) as u64,
        file_saves: window.by_source.filesystem@.len() as u64,
        loop_secs,
        domains: domain_count(window.by_source.browser@) as u64,
        top_visits: top_visits(window.by_source.browser@) as u64,
    }
}

/// The duration of the dominant signal, if it is that of an error loop.
pub open spec fn counted_secs(
    error_loop: Option<ErrorContext>,
    dominant_duration_sec: Option<u64>,
) -> Option<u64> {
    if error_loop is Some {
        dominant_duration_sec
    } else {
        None
    }
}

/// The score after the share `n / of` counts with a weight, if there is any.
pub open spec fn weighted<C: Calculator>(
    calc: C,
    score: Quantity,
    n: u64,
    of: u64,
    weight: u64,
) -> Quantity {
    if of > 0 {
        sum(calc, score, product(calc, share_of(calc, n, of), Quantity { bits: weight }))
    } else {
        score
    }
}

/// The blocking score of the given factors: the failure rate of the
/// commands (0.35), the share of searches in searches and file saves (0.30),
/// the duration of the error loop, in units of ten minutes and to one at most
/// (0.25), and the share of the most visited domain (0.10).
pub open spec fn score<C: Calculator>(calc: C, f: BlockingFactors) -> Quantity {
    let a = weighted(calc, Quantity { bits: ZERO }, f.failures, f.commands, POINT_35);
    let b = weighted(calc, a, f.searches, (f.searches + f.file_saves) as u64, POINT_3);
    let c = match f.loop_secs {
        Some(secs) => sum(
            calc,
            b,
            product(
                calc,
                least(
                    quotient(calc, whole(calc, secs), Quantity { bits: SIX_HUNDRED }),
                    Quantity { bits: ONE },
                ),
                Quantity { bits: POINT_25 },
            ),
        ),
        None => b,
    };
    let d = weighted(calc, c, f.top_visits, f.domains, POINT_1);
    least(d, Quantity { bits: ONE })
}

/// The blocking score is one at most.
pub proof fn law_blocking_score_is_at_most_one<C: Calculator>(calc: C, f: BlockingFactors)
    ensures
        score(calc, f).rank() <= (Quantity { bits: ONE }).rank(),
{
}

proof fn lemma_weighted<C: Calculator>(
    calc: C,
    score: Quantity,
    top: Quantity,
    n: u64,
    of: u64,
    weight: u64,
)
    requires
        orderly(calc),
        finite(score),
        finite(top),
        score.rank() <= top.rank(),
        n <= of,
        weight <= ONE,
    ensures
        finite(weighted(calc, score, n, of, weight)),
        finite(sum(calc, top, Quantity { bits: weight })),
        weighted(calc, score, n, of, weight).rank() <= sum(
            calc,
            top,
            Quantity { bits: weight },
        ).rank(),
{
    let w = Quantity { bits: weight };
    let zero = Quantity { bits: ZERO };
    assert(sum(calc, top, w).rank() <= sum(calc, top, w).rank());
    if of > 0 {
        let share = share_of(calc, n, of);
        let part = product(calc, share, w);
        assert(unit(share));
        assert(part.bits <= w.bits);
        assert(sum(calc, score, part).rank() <= sum(calc, top, w).rank());
    } else {
        assert(sum(calc, score, zero) == score);
        assert(sum(calc, score, zero).rank() <= sum(calc, top, w).rank());
    }
}

proof fn lemma_visits_have_domains(events: Seq<Arc<Json>>, n: int)
    requires
        0 <= n <= events.len(),
    ensures
        top_visits_to(events, n) <= count_to(
            events,
            |e: Json| entity_text(e, "domain"@) is Some,
            n,
        ),
    decreases n,
{
    let p = |e: Json| entity_text(e, "domain"@) is Some;
    if n > 0 {
        lemma_visits_have_domains(events, n - 1);
        if let Some(domain) = domain_at(events, n - 1) {
            lemma_visits_of_a_domain(events, domain, n);
        }
    }
}

proof fn lemma_visits_of_a_domain(events: Seq<Arc<Json>>, domain: Seq<char>, n: int)
    requires
        0 <= n <= events.len(),
    ensures
        visits_to(events, domain, n) <= count_to(
            events,
            |e: Json| entity_text(e, "domain"@) is Some,
            n,
        ),
    decreases n,
{
    if n > 0 {
        lemma_visits_of_a_domain(events, domain, n - 1);
    }
}

/// No part of what the score of a window is made of is larger than its whole.
proof fn lemma_window_factors(window: &SlidingWindowBuffer, loop_secs: Option<u64>)
    requires
        window.by_source.browser@.len() + window.by_source.filesystem@.len() <= u64::MAX,
    ensures
        ({
            let f = window_factors(window, loop_secs);
            &&& f.failures <= f.commands
            &&& f.searches + f.file_saves <= u64::MAX
            &&& f.top_visits <= f.domains
        }),
{
    let terminal = window.by_source.terminal@;
    let browser = window.by_source.browser@;
    assert(terminal.len() == window.by_source.terminal.len());
    lemma_count_bound(terminal, |e: Json| failed(e), terminal.len() as int);
    lemma_count_bound(browser, |e: Json| searched(e), browser.len() as int);
    lemma_count_bound(
        browser,
        |e: Json| entity_text(e, "domain"@) is Some,
        browser.len() as int,
    );
    lemma_visits_have_domains(browser, browser.len() as int);
}

/// What the score can be at most without an error loop: the weights of the
/// failure rate, the searches and the most visited domain.
pub open spec fn loopless_top<C: Calculator>(calc: C) -> Quantity {
    sum(
        calc,
        sum(
            calc,
            sum(calc, Quantity { bits: ZERO }, Quantity { bits: POINT_35 }),
            Quantity { bits: POINT_3 },
        ),
        Quantity { bits: POINT_1 },
    )
}

/// The blocking score of a window is between zero and one, where the
/// arithmetic is orderly.
pub proof fn law_blocking_score_is_between_zero_and_one<C: Calculator>(
    calc: C,
    window: &SlidingWindowBuffer,
    error_loop: Option<ErrorContext>,
    duration_sec: Option<u64>,
)
    requires
        orderly(calc),
        window.by_source.browser@.len() + window.by_source.filesystem@.len() <= u64::MAX,
    ensures
        ({
            let factors = window_factors(window, counted_secs(error_loop, duration_sec));
            0 <= score(calc, factors).rank() <= (Quantity { bits: ONE }).rank()
        }),
{
    let zero = Quantity { bits: ZERO };
    let secs = counted_secs(error_loop, duration_sec);
    let f = window_factors(window, secs);
    lemma_window_factors(window, secs);
    let a = weighted(calc, zero, f.failures, f.commands, POINT_35);
    lemma_weighted(calc, zero, zero, f.failures, f.commands, POINT_35);
    let of = (f.searches + f.file_saves) as u64;
    let b = weighted(calc, a, f.searches, of, POINT_3);
    lemma_weighted(calc, a, a, f.searches, of, POINT_3);
    let c = match secs {
        Some(secs) => {
            let ratio = quotient(calc, whole(calc, secs), Quantity { bits: SIX_HUNDRED });
            let part = least(ratio, Quantity { bits: ONE });
            let quarter = Quantity { bits: POINT_25 };
            assert(finite(ratio));
            assert(product(calc, part, quarter).bits <= quarter.bits);
            let c = sum(calc, b, product(calc, part, quarter));
            assert(c.rank() <= sum(calc, b, quarter).rank());
            c
        },
        None => b,
    };
    lemma_weighted(calc, c, c, f.top_visits, f.domains, POINT_1);
}

/// Without an error loop the duration of the dominant signal does not count:
/// someone who has simply stepped away is not more blocked for it.
pub proof fn law_only_error_loops_last<C: Calculator>(
    calc: C,
    window: &SlidingWindowBuffer,
    duration_sec: Option<u64>,
    other_sec: Option<u64>,
)
    ensures
        score(calc, window_factors(window, counted_secs(None, duration_sec))) == score(
            calc,
            window_factors(window, counted_secs(None, other_sec)),
        ),
{
}

/// Without an error loop the score is no more than the other weights add up
/// to, where the arithmetic is orderly: than 0.75, where they add up to no
/// more than that.
pub proof fn law_score_without_an_error_loop<C: Calculator>(
    calc: C,
    window: &SlidingWindowBuffer,
    duration_sec: Option<u64>,
)
    requires
        orderly(calc),
        window.by_source.browser@.len() + window.by_source.filesystem@.len() <= u64::MAX,
    ensures
        score(calc, window_factors(window, counted_secs(None, duration_sec))).rank()
            <= loopless_top(calc).rank(),
        loopless_top(calc).rank() <= (Quantity { bits: POINT_75 }).rank() ==> score(
            calc,
            window_factors(window, counted_secs(None, duration_sec)),
        ).rank() <= (Quantity { bits: POINT_75 }).rank(),
{
    let zero = Quantity { bits: ZERO };
    let f = window_factors(window, None);
    lemma_window_factors(window, None);
    let a = weighted(calc, zero, f.failures, f.commands, POINT_35);
    let top_a = sum(calc, zero, Quantity { bits: POINT_35 });
    lemma_weighted(calc, zero, zero, f.failures, f.commands, POINT_35);
    let of = (f.searches + f.file_saves) as u64;
    let b = weighted(calc, a, f.searches, of, POINT_3);
    let top_b = sum(calc, top_a, Quantity { bits: POINT_3 });
    lemma_weighted(calc, a, top_a, f.searches, of, POINT_3);
    lemma_weighted(calc, b, top_b, f.top_visits, f.domains, POINT_1);
}

/// With nothing in the window and no error loop the score is zero.
pub proof fn law_empty_window_scores_zero<C: Calculator>(
    calc: C,
    window: &SlidingWindowBuffer,
    duration_sec: Option<u64>,
)
    requires
        window.wf(),
        window.events@.len() == 0,
    ensures
        score(calc, window_factors(window, counted_secs(None, duration_sec))).bits == ZERO,
{
}

fn add_weighted<C: Calculator>(calc: C, score: Quantity, n: u64, of: u64, weight: u64) -> (r:
    Quantity)
    requires
        reliable(calc),
    ensures
        r == weighted(calc, score, n, of, weight),
{
    if of > 0 {
        plus(calc, score, times(calc, share(calc, n, of), Quantity { bits: weight }))
    } else {
        score
    }
}

fn count_failures(events: &Vec<Arc<Json>>) -> (r: u64)
    ensures
        r == failure_count(events@),
        r <= events@.len(),
{
    let ghost p = |e: Json| failed(e);
    let mut n: u64 = 0;
    for i in 0..events.len()
        invariant
            p == (|e: Json| failed(e)),
            n == count_to(events@, p, i as int),
            n <= i,
    {
        if is_failure(&events[i]) {
            n = n + 1;
        }
    }
    n
}

fn count_searches(events: &Vec<Arc<Json>>) -> (r: u64)
    ensures
        r == search_count(events@),
        r <= events@.len(),
{
    let ghost p = |e: Json| searched(e);
    let mut n: u64 = 0;
    for i in 0..events.len()
        invariant
            p == (|e: Json| searched(e)),
            n == count_to(events@, p, i as int),
            n <= i,
    {
        if is_search(&events[i]) {
            n = n + 1;
        }
    }
    n
}

/// The number of events with a domain, and the most visits of a single one.
fn count_domains(events: &Vec<Arc<Json>>) -> (r: (u64, u64))
    ensures
        r.0 == domain_count(events@),
        r.1 == top_visits(events@),
{
    let ghost p = |e: Json| entity_text(e, "domain"@) is Some;
    let mut counts: Table<u64> = Table::new();
    let mut n: u64 = 0;
    let mut top: u64 = 0;
    for i in 0..events.len()
        invariant
            p == (|e: Json| entity_text(e, "domain"@) is Some),
            counts.wf(),
            n == count_to(events@, p, i as int),
            n <= i,
            top == top_visits_to(events@, i as int),
            forall|d: Seq<char>| #[trigger] counts.count(d) == visits_to(events@, d, i as int),
    {
        let ghost before = counts;
        if let Some(domain) = event_entities(&events[i]).get_text("domain") {
            proof {
                lemma_count_bound(
                    events@,
                    |e: Json| entity_text(e, "domain"@) == Some(domain@),
                    i as int,
                );
                assert(counts.count(domain@) == visits_to(events@, domain@, i as int));
            }
            n = n + 1;
            counts.tally(domain.as_str());
            let visits: u64 = match counts.get(domain.as_str()) {
                Some(v) => *v,
                None => 0,
            };
            assert(visits == visits_to(events@, domain@, i + 1));
            if visits > top {
                top = visits;
            }
        }
        assert forall|d: Seq<char>| #[trigger] counts.count(d) == visits_to(
            events@,
            d,
            i + 1,
        ) by {
            assert(before.count(d) == visits_to(events@, d, i as int));
        }
    }
    (n, top)
}

/// What the blocking score of the window is made of. Of the durations only
/// that of an error loop counts (idle's "duration" would otherwise inflate
/// the score for someone who's simply stepped away).
pub fn blocking_factors(window: &SlidingWindowBuffer, loop_secs: Option<u64>) -> (r:
    BlockingFactors)
    ensures
        r == window_factors(window, loop_secs),
        r.searches <= window.by_source.browser@.len(),
{
    let (domains, top_visits) = count_domains(&window.by_source.browser);
    BlockingFactors {
        commands: window.by_source.terminal.len() as u64,
        failures: count_failures(&window.by_source.terminal),
        searches: count_searches(&window.by_source.browser),
        file_saves: window.by_source.filesystem.len() as u64,
        loop_secs,
        domains,
        top_visits,
    }
}

/// A continuous 0-1 score over buffer-wide conditions, independent of which
/// signal is dominant.
pub fn blocking_score<C: Calculator>(calc: C, f: BlockingFactors) -> (r: Quantity)
    requires
        reliable(calc),
        f.searches + f.file_saves <= u64::MAX,
    ensures
        r == score(calc, f),
{
    let zero = Quantity { bits: ZERO };
    let one = Quantity { bits: ONE };
    let a = add_weighted(calc, zero, f.failures, f.commands, POINT_35);
    let b = add_weighted(calc, a, f.searches, f.searches + f.file_saves, POINT_3);
    let c = match f.loop_secs {
        Some(secs) => {
            let share = min_of(
                over(calc, from_whole(calc, secs), Quantity { bits: SIX_HUNDRED }),
                one,
            );
            plus(calc, b, times(calc, share, Quantity { bits: POINT_25 }))
        },
        None => b,
    };
    let d = add_weighted(calc, c, f.top_visits, f.domains, POINT_1);
    min_of(d, one)
}

/// The blocking score of the window.
pub fn compute_blocking_score<C: Calculator>(
    window: &SlidingWindowBuffer,
    error_loop: &Option<ErrorContext>,
    dominant_duration_sec: Option<u64>,
    calc: C,
) -> (r: Quantity)
    requires
        reliable(calc),
        window.by_source.browser@.len() + window.by_source.filesystem@.len() <= u64::MAX,
    ensures
        r == score(calc, window_factors(window, counted_secs(*error_loop, dominant_duration_sec))),
{
    let loop_secs = if error_loop.is_some() {
        dominant_duration_sec
    } else {
        None
    };
    let factors = blocking_factors(window, loop_secs);
    blocking_score(calc, factors)
}

} // verus!
