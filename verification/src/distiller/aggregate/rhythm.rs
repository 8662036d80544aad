//! Work rhythm: rolling averages and recurring phase transitions.

use super::super::SessionIntent;
use super::projects::share_in;
use super::EMA_ALPHA;
use crate::arithmetic::{
    difference, ema, from_whole, minus, moved, over, plus, product, quotient, reliable, root,
    share, share_of, square_root, sum, times, whole, Calculator,
};
use crate::lists::first;
use crate::profile::{PhaseDuration, Rhythm};
use crate::quantity::{Quantity, ONE, POINT_3, POINT_6, ZERO};
use crate::table::{sum_counts, total, Table};
use crate::text::{same, views};
use vstd::prelude::*;

verus! {

/// How many sessions before the current one the rolling window holds at most.
pub const MAX_RECENT_SESSIONS: usize = 19;

/// How many transitions are remembered.
pub const MAX_TRANSITIONS: usize = 3;

// ---------------------------------------------------------------------
// Session lengths
// ---------------------------------------------------------------------

/// Those of the recent sessions, the most recent one first, that the rolling
/// window holds.
pub open spec fn in_window(recent: Seq<SessionIntent>) -> Seq<SessionIntent> {
    first(recent, MAX_RECENT_SESSIONS as int)
}

/// The durations of this session and the recent ones.
pub open spec fn durations(session: SessionIntent, recent: Seq<SessionIntent>) -> Seq<Quantity> {
    seq![session.duration_min] + Seq::new(recent.len(), |i: int| recent[i].duration_min)
}

/// The sum of the first `n` values.
pub open spec fn sum_to<C: Calculator>(calc: C, values: Seq<Quantity>, n: int) -> Quantity
    decreases n,
{
    if n <= 0 {
        Quantity { bits: ZERO }
    } else {
        sum(calc, sum_to(calc, values, n - 1), values[n - 1])
    }
}

pub open spec fn mean<C: Calculator>(calc: C, values: Seq<Quantity>) -> Quantity {
    quotient(calc, sum_to(calc, values, values.len() as int), whole(calc, values.len() as u64))
}

/// The squares of the distances of the values from their mean.
pub open spec fn squares<C: Calculator>(calc: C, values: Seq<Quantity>) -> Seq<Quantity> {
    Seq::new(
        values.len(),
        |i: int|
            product(
                calc,
                difference(calc, values[i], mean(calc, values)),
                difference(calc, values[i], mean(calc, values)),
            ),
    )
}

/// The standard deviation of the values.
pub open spec fn deviation<C: Calculator>(calc: C, values: Seq<Quantity>) -> Quantity {
    root(calc, mean(calc, squares(calc, values)))
}

fn window_len(recent: &Vec<SessionIntent>) -> (r: usize)
    ensures
        r == in_window(recent@).len(),
        r <= recent@.len(),
{
    if recent.len() > MAX_RECENT_SESSIONS {
        MAX_RECENT_SESSIONS
    } else {
        recent.len()
    }
}

fn collect_durations(session: &SessionIntent, recent: &Vec<SessionIntent>) -> (r: Vec<Quantity>)
    ensures
        r@ == durations(*session, in_window(recent@)),
{
    let n = window_len(recent);
    let mut out: Vec<Quantity> = Vec::new();
    out.push(session.duration_min);
    for i in 0..n
        invariant
            n == in_window(recent@).len(),
            n <= recent@.len(),
            out@.len() == i + 1,
            out@[0] == session.duration_min,
            forall|j: int|
                0 <= j < i ==> #[trigger] out@[j + 1] == in_window(recent@)[j].duration_min,
    {
        out.push(recent[i].duration_min);
    }
    let ghost all = durations(*session, in_window(recent@));
    assert forall|j: int| 0 <= j < out@.len() implies #[trigger] out@[j] == all[j] by {
        if j > 0 {
            assert(out@[(j - 1) + 1] == in_window(recent@)[j - 1].duration_min);
        }
    }
    assert(out@ =~= all);
    out
}

fn average<C: Calculator>(calc: C, values: &Vec<Quantity>) -> (r: Quantity)
    requires
        reliable(calc),
    ensures
        r == mean(calc, values@),
{
    let mut total = Quantity { bits: ZERO };
    for i in 0..values.len()
        invariant
            reliable(calc),
            total == sum_to(calc, values@, i as int),
    {
        total = plus(calc, total, values[i]);
    }
    over(calc, total, from_whole(calc, values.len() as u64))
}

fn standard_deviation<C: Calculator>(calc: C, values: &Vec<Quantity>, mean_value: Quantity) -> (r:
    Quantity)
    requires
        reliable(calc),
        mean_value == mean(calc, values@),
    ensures
        r == deviation(calc, values@),
{
    let mut out: Vec<Quantity> = Vec::new();
    for i in 0..values.len()
        invariant
            reliable(calc),
            mean_value == mean(calc, values@),
            out@.len() == i,
            forall|j: int| 0 <= j < i ==> #[trigger] out@[j] == squares(calc, values@)[j],
    {
        let d = minus(calc, values[i], mean_value);
        out.push(times(calc, d, d));
    }
    assert(out@ =~= squares(calc, values@));
    square_root(calc, average(calc, &out))
}

// ---------------------------------------------------------------------
// Active hours
// ---------------------------------------------------------------------

pub open spec fn digit_char(d: int) -> char {
    ('0' as int + d) as char
}

/// An hour with two digits.
pub open spec fn hour_key(hour: int) -> Seq<char> {
    seq![digit_char(hour / 10), digit_char(hour % 10)]
}

/// The weight of an hour after a session: toward one if the session touched
/// it, toward zero if not.
pub open spec fn hour_after<C: Calculator>(
    calc: C,
    hours: Map<Seq<char>, Quantity>,
    active: Seq<u8>,
    hour: int,
) -> Quantity {
    moved(
        calc,
        share_in(hours, hour_key(hour)),
        if active.contains(hour as u8) {
            Quantity { bits: ONE }
        } else {
            Quantity { bits: ZERO }
        },
        Quantity { bits: EMA_ALPHA },
    )
}

/// The weights after the first `n` hours of the day were looked at.
pub open spec fn hours_after<C: Calculator>(
    calc: C,
    hours: Map<Seq<char>, Quantity>,
    active: Seq<u8>,
    n: int,
) -> Map<Seq<char>, Quantity>
    decreases n,
{
    if n <= 0 {
        hours
    } else {
        let before = hours_after(calc, hours, active, n - 1);
        before.insert(hour_key(n - 1), hour_after(calc, before, active, n - 1))
    }
}

fn key_of_hour(hour: u8) -> (r: String)
    requires
        hour < 24,
    ensures
        r@ == hour_key(hour as int),
{
    let mut key: String = String::new();
    key.push((48 + hour / 10) as char);
    key.push((48 + hour % 10) as char);
    assert(key@ =~= hour_key(hour as int));
    key
}

fn is_active(hours: &Vec<u8>, hour: u8) -> (r: bool)
    ensures
        r == hours@.contains(hour),
{
    for i in 0..hours.len()
        invariant
            forall|j: int| 0 <= j < i ==> hours@[j] != hour,
    {
        if hours[i] == hour {
            return true;
        }
    }
    false
}

fn update_hours<C: Calculator>(calc: C, hours: &mut Table<Quantity>, active: &Vec<u8>)
    requires
        reliable(calc),
        old(hours).wf(),
    ensures
        final(hours).wf(),
        final(hours)@ == hours_after(calc, old(hours)@, active@, 24),
{
    let mut hour: u8 = 0;
    while hour < 24
        invariant
            reliable(calc),
            hour <= 24,
            hours.wf(),
            hours@ == hours_after(calc, old(hours)@, active@, hour as int),
        decreases 24 - hour,
    {
        let key = key_of_hour(hour);
        let before = match hours.get(key.as_str()) {
            Some(w) => *w,
            None => Quantity { bits: ZERO },
        };
        let sample = if is_active(active, hour) {
            Quantity { bits: ONE }
        } else {
            Quantity { bits: ZERO }
        };
        hours.set(key.as_str(), ema(calc, before, sample, Quantity { bits: EMA_ALPHA }));
        hour = hour + 1;
    }
}

// ---------------------------------------------------------------------
// Phase durations
// ---------------------------------------------------------------------

/// The minutes that a session spent in a phase.
pub open spec fn phase_minutes<C: Calculator>(
    calc: C,
    duration_min: Quantity,
    count: u64,
    total: u64,
) -> Quantity {
    product(calc, duration_min, share_of(calc, count, total))
}

/// The duration of a phase after a session spent some minutes in it.
pub open spec fn duration_after<C: Calculator>(
    calc: C,
    phases: Map<Seq<char>, PhaseDuration>,
    phase: Seq<char>,
    minutes: Quantity,
) -> PhaseDuration {
    let before = if phases.dom().contains(phase) {
        phases[phase]
    } else {
        PhaseDuration { avg_min: minutes, resolves_within_session: Quantity { bits: POINT_6 } }
    };
    PhaseDuration {
        avg_min: moved(calc, before.avg_min, minutes, Quantity { bits: EMA_ALPHA }),
        ..before
    }
}

/// The durations after the first `n` phases of a session.
pub open spec fn durations_after<C: Calculator>(
    calc: C,
    phases: Map<Seq<char>, PhaseDuration>,
    session: &SessionIntent,
    n: int,
) -> Map<Seq<char>, PhaseDuration>
    decreases n,
{
    if n <= 0 {
        phases
    } else {
        let before = durations_after(calc, phases, session, n - 1);
        let entry = session.phase_counts.entries@[n - 1];
        before.insert(
            entry.0@,
            duration_after(
                calc,
                before,
                entry.0@,
                phase_minutes(
                    calc,
                    session.duration_min,
                    entry.1,
                    total(session.phase_counts.entries@) as u64,
                ),
            ),
        )
    }
}

/// The problem of a debugging session was solved: no tests failed, or the
/// blocking score eased and was low at the end.
pub open spec fn solved(session: &SessionIntent) -> bool {
    ||| session.test_failures == 0
    ||| (Quantity { bits: ZERO }).rank() < session.max_blocking_score.rank()
        && session.blocking_score_trend.rank() < (Quantity { bits: ZERO }).rank()
        && session.final_blocking_score.rank() < (Quantity { bits: POINT_3 }).rank()
}

/// The phases after a session, with what it says about how debugging ends.
pub open spec fn phases_after<C: Calculator>(
    calc: C,
    phases: Map<Seq<char>, PhaseDuration>,
    session: &SessionIntent,
) -> Map<Seq<char>, PhaseDuration> {
    if total(session.phase_counts.entries@) == 0 {
        phases
    } else {
        let spent = durations_after(
            calc,
            phases,
            session,
            session.phase_counts.entries@.len() as int,
        );
        if session.dominant_phase@ == "debugging"@ && spent.dom().contains("debugging"@) {
            let debugging = spent["debugging"@];
            spent.insert(
                "debugging"@,
                PhaseDuration {
                    resolves_within_session: moved(
                        calc,
                        debugging.resolves_within_session,
                        if solved(session) {
                            Quantity { bits: ONE }
                        } else {
                            Quantity { bits: ZERO }
                        },
                        Quantity { bits: EMA_ALPHA },
                    ),
                    ..debugging
                },
            )
        } else {
            spent
        }
    }
}

fn is_solved(session: &SessionIntent) -> (r: bool)
    ensures
        r == solved(session),
{
    let zero = Quantity { bits: ZERO };
    if session.test_failures == 0 {
        true
    } else if zero.less(session.max_blocking_score) {
        session.blocking_score_trend.less(zero) && session.final_blocking_score.less(
            Quantity { bits: POINT_3 },
        )
    } else {
        false
    }
}

fn update_phase_durations<C: Calculator>(
    calc: C,
    phases: &mut Table<PhaseDuration>,
    session: &SessionIntent,
)
    requires
        reliable(calc),
        old(phases).wf(),
        total(session.phase_counts.entries@) <= u64::MAX,
    ensures
        final(phases).wf(),
        final(phases)@ == phases_after(calc, old(phases)@, session),
{
    let alpha = Quantity { bits: EMA_ALPHA };
    let total = sum_counts(&session.phase_counts);
    if total == 0 {
        return;
    }
    for i in 0..session.phase_counts.entries.len()
        invariant
            reliable(calc),
            alpha.bits == EMA_ALPHA,
            total == self::total(session.phase_counts.entries@),
            phases.wf(),
            phases@ == durations_after(calc, old(phases)@, session, i as int),
    {
        let count = session.phase_counts.entries[i].1;
        let minutes = times(calc, session.duration_min, share(calc, count, total));
        let phase = session.phase_counts.entries[i].0.as_str();
        let before = match phases.get(phase) {
            Some(d) => *d,
            None => PhaseDuration {
                avg_min: minutes,
                resolves_within_session: Quantity { bits: POINT_6 },
            },
        };
        phases.set(
            phase,
            PhaseDuration { avg_min: ema(calc, before.avg_min, minutes, alpha), ..before },
        );
    }
    if same(session.dominant_phase.as_str(), "debugging") {
        let debugging = match phases.get("debugging") {
            Some(d) => Some(*d),
            None => None,
        };
        if let Some(d) = debugging {
            let sample = if is_solved(session) {
                Quantity { bits: ONE }
            } else {
                Quantity { bits: ZERO }
            };
            phases.set(
                "debugging",
                PhaseDuration {
                    resolves_within_session: ema(calc, d.resolves_within_session, sample, alpha),
                    ..d
                },
            );
        }
    }
}

// ---------------------------------------------------------------------
// Phase transitions
// ---------------------------------------------------------------------

/// The dominant phases of the recent sessions and of this one, oldest first.
/// The recent sessions come with the most recent one first.
pub open spec fn phase_history(session: SessionIntent, recent: Seq<SessionIntent>) -> Seq<Seq<char>> {
    Seq::new(
        recent.len() + 1,
        |i: int|
            if i < recent.len() {
                recent[recent.len() - 1 - i].dominant_phase@
            } else {
                session.dominant_phase@
            },
    )
}

/// How often the transition from `a` to `b` occurs among the first `n`
/// transitions.
pub open spec fn transitions_to(phases: Seq<Seq<char>>, a: Seq<char>, b: Seq<char>, n: int) -> nat
    decreases n,
{
    if n <= 0 {
        0
    } else {
        transitions_to(phases, a, b, n - 1) + if phases[n - 1] == a && phases[n] == b {
            1nat
        } else {
            0
        }
    }
}

/// How often the transition from `a` to `b` occurs.
pub open spec fn transitions(phases: Seq<Seq<char>>, a: Seq<char>, b: Seq<char>) -> nat {
    transitions_to(phases, a, b, phases.len() - 1)
}

/// How often a listed transition occurs.
pub open spec fn frequency(phases: Seq<Seq<char>>, pair: Seq<Seq<char>>) -> nat {
    transitions(phases, pair[0], pair[1])
}

/// `top` are most frequent transitions, the most frequent one first: three,
/// or all of them if there are fewer. Of transitions that are equally
/// frequent any may come first.
pub open spec fn are_top_transitions(phases: Seq<Seq<char>>, top: Seq<Seq<Seq<char>>>) -> bool {
    &&& top.len() <= MAX_TRANSITIONS
    &&& forall|i: int| 0 <= i < top.len() ==> (#[trigger] top[i]).len() == 2
    &&& forall|i: int| 0 <= i < top.len() ==> frequency(phases, #[trigger] top[i]) > 0
    &&& forall|i: int, j: int| 0 <= i < j < top.len() ==> #[trigger] top[i] != #[trigger] top[j]
    &&& forall|i: int, j: int|
        0 <= i < j < top.len() ==> frequency(phases, #[trigger] top[i]) >= frequency(
            phases,
            #[trigger] top[j],
        )
    &&& forall|a: Seq<char>, b: Seq<char>| #[trigger]
        transitions(phases, a, b) > 0 && !top.contains(seq![a, b]) ==> top.len()
            == MAX_TRANSITIONS && forall|i: int|
            0 <= i < top.len() ==> frequency(phases, #[trigger] top[i]) >= transitions(
                phases,
                a,
                b,
            )
}

pub open spec fn sequence_views(sequences: Seq<Vec<String>>) -> Seq<Seq<Seq<char>>> {
    Seq::new(sequences.len(), |i: int| views(sequences[i]@))
}

/// The transition at a position.
pub open spec fn pair_at(phases: Seq<Seq<char>>, i: int) -> Seq<Seq<char>> {
    seq![phases[i], phases[i + 1]]
}

pub proof fn lemma_transition(phases: Seq<Seq<char>>, a: Seq<char>, b: Seq<char>, n: int)
    requires
        0 <= n < phases.len(),
    ensures
        transitions_to(phases, a, b, n) <= n,
        transitions_to(phases, a, b, n) > 0 <==> exists|i: int|
            0 <= i < n && #[trigger] pair_at(phases, i) == seq![a, b],
    decreases n,
{
    if n > 0 {
        lemma_transition(phases, a, b, n - 1);
        let last = pair_at(phases, n - 1);
        if phases[n - 1] == a && phases[n] == b {
            assert(last =~= seq![a, b]);
        } else {
            assert(last[0] == phases[n - 1] && last[1] == phases[n]);
            assert(seq![a, b][0] == a && seq![a, b][1] == b);
            if transitions_to(phases, a, b, n - 1) > 0 {
                let i = choose|i: int|
                    0 <= i < n - 1 && #[trigger] pair_at(phases, i) == seq![a, b];
                assert(pair_at(phases, i) == seq![a, b]);
            }
        }
    }
}

fn collect_phases(session: &SessionIntent, recent: &Vec<SessionIntent>) -> (r: Vec<String>)
    ensures
        views(r@) == phase_history(*session, in_window(recent@)),
{
    let mut out: Vec<String> = Vec::new();
    let n = window_len(recent);
    for i in 0..n
        invariant
            n == in_window(recent@).len(),
            n <= recent@.len(),
            out@.len() == i,
            forall|j: int|
                0 <= j < i ==> (#[trigger] out@[j])@ == phase_history(
                    *session,
                    in_window(recent@),
                )[j],
    {
        out.push(recent[n - 1 - i].dominant_phase.clone());
    }
    out.push(session.dominant_phase.clone());
    assert(views(out@) =~= phase_history(*session, in_window(recent@)));
    out
}

fn count_transition(phases: &Vec<String>, k: usize) -> (r: u64)
    requires
        k + 1 < phases@.len(),
    ensures
        r == frequency(views(phases@), pair_at(views(phases@), k as int)),
{
    let ghost all = views(phases@);
    let size: usize = phases.len();
    let mut n: u64 = 0;
    for i in 0..size - 1
        invariant
            all == views(phases@),
            size == phases@.len(),
            k + 1 < size,
            n == transitions_to(all, all[k as int], all[k + 1], i as int),
            n <= i,
    {
        assert(all[i as int] == phases@[i as int]@ && all[i + 1] == phases@[i + 1]@);
        assert(all[k as int] == phases@[k as int]@ && all[k + 1] == phases@[k + 1]@);
        if same(phases[i].as_str(), phases[k].as_str()) && same(
            phases[i + 1].as_str(),
            phases[k + 1].as_str(),
        ) {
            n = n + 1;
        }
    }
    n
}

fn is_taken(top: &Vec<Vec<String>>, phases: &Vec<String>, k: usize) -> (r: bool)
    requires
        k + 1 < phases@.len(),
        forall|i: int| 0 <= i < top@.len() ==> (#[trigger] top@[i])@.len() == 2,
    ensures
        r == sequence_views(top@).contains(pair_at(views(phases@), k as int)),
{
    let ghost all = views(phases@);
    let ghost pair = pair_at(all, k as int);
    let size: usize = phases.len();
    for i in 0..top.len()
        invariant
            all == views(phases@),
            pair == pair_at(all, k as int),
            size == phases@.len(),
            k + 1 < size,
            forall|i: int| 0 <= i < top@.len() ==> (#[trigger] top@[i])@.len() == 2,
            forall|j: int| 0 <= j < i ==> #[trigger] sequence_views(top@)[j] != pair,
    {
        assert(all[k as int] == phases@[k as int]@ && all[k + 1] == phases@[k + 1]@);
        let sequence = &top[i];
        assert(top@[i as int]@.len() == 2);
        assert(sequence_views(top@)[i as int] == views(sequence@));
        assert(views(sequence@)[0] == sequence@[0]@ && views(sequence@)[1] == sequence@[1]@);
        if same(sequence[0].as_str(), phases[k].as_str()) && same(
            sequence[1].as_str(),
            phases[k + 1].as_str(),
        ) {
            assert(views(sequence@) =~= pair);
            return true;
        }
        assert(pair[0] == all[k as int] && pair[1] == all[k + 1]);
    }
    assert(!sequence_views(top@).contains(pair));
    false
}

/// A most frequent transition that is not taken yet.
fn find_next(top: &Vec<Vec<String>>, phases: &Vec<String>) -> (r: Option<usize>)
    requires
        forall|i: int| 0 <= i < top@.len() ==> (#[trigger] top@[i])@.len() == 2,
    ensures
        match r {
            Some(k) => {
                &&& k + 1 < phases@.len()
                &&& !sequence_views(top@).contains(pair_at(views(phases@), k as int))
                &&& forall|i: int|
                    0 <= i < phases@.len() - 1 && !sequence_views(top@).contains(
                        #[trigger] pair_at(views(phases@), i),
                    ) ==> frequency(views(phases@), pair_at(views(phases@), i)) <= frequency(
                        views(phases@),
                        pair_at(views(phases@), k as int),
                    )
            },
            None => forall|i: int|
                0 <= i < phases@.len() - 1 ==> sequence_views(top@).contains(
                    #[trigger] pair_at(views(phases@), i),
                ),
        },
{
    let ghost all = views(phases@);
    let ghost taken = sequence_views(top@);
    let size: usize = phases.len();
    if size == 0 {
        return None;
    }
    let mut best: Option<(usize, u64)> = None;
    for k in 0..size - 1
        invariant
            all == views(phases@),
            taken == sequence_views(top@),
            size == phases@.len(),
            size > 0,
            forall|i: int| 0 <= i < top@.len() ==> (#[trigger] top@[i])@.len() == 2,
            match best {
                Some((b, count)) => {
                    &&& b < k
                    &&& !taken.contains(pair_at(all, b as int))
                    &&& count == frequency(all, pair_at(all, b as int))
                    &&& forall|i: int|
                        0 <= i < k && !taken.contains(#[trigger] pair_at(all, i)) ==> frequency(
                            all,
                            pair_at(all, i),
                        ) <= count
                },
                None => forall|i: int|
                    0 <= i < k ==> taken.contains(#[trigger] pair_at(all, i)),
            },
    {
        if !is_taken(top, phases, k) {
            let n = count_transition(phases, k);
            best = match best {
                Some((b, count)) => if n > count {
                    Some((k, n))
                } else {
                    Some((b, count))
                },
                None => Some((k, n)),
            };
        }
    }
    match best {
        Some((b, _)) => Some(b),
        None => None,
    }
}

/// The most frequent transitions.
fn find_top_transitions(phases: &Vec<String>) -> (r: Vec<Vec<String>>)
    requires
        phases@.len() > 0,
    ensures
        are_top_transitions(views(phases@), sequence_views(r@)),
        r@.len() > 0 <==> phases@.len() > 1,
{
    let ghost all = views(phases@);
    let mut top: Vec<Vec<String>> = Vec::new();
    let mut done = false;
    let size: usize = phases.len();
    while top.len() < MAX_TRANSITIONS && !done
        invariant
            all == views(phases@),
            size == phases@.len(),
            all.len() > 0,
            top@.len() <= MAX_TRANSITIONS,
            forall|i: int| 0 <= i < top@.len() ==> (#[trigger] top@[i])@.len() == 2,
            forall|i: int|
                0 <= i < top@.len() ==> frequency(
                    all,
                    #[trigger] sequence_views(top@)[i],
                ) > 0,
            forall|i: int, j: int|
                0 <= i < j < top@.len() ==> #[trigger] sequence_views(top@)[i]
                    != #[trigger] sequence_views(top@)[j],
            forall|i: int, j: int|
                0 <= i < j < top@.len() ==> frequency(all, #[trigger] sequence_views(top@)[i])
                    >= frequency(all, #[trigger] sequence_views(top@)[j]),
            forall|i: int, k: int|
                0 <= i < top@.len() && 0 <= k < all.len() - 1 && !sequence_views(top@).contains(
                    #[trigger] pair_at(all, k),
                ) ==> frequency(all, #[trigger] sequence_views(top@)[i]) >= frequency(
                    all,
                    pair_at(all, k),
                ),
            done ==> forall|k: int|
                0 <= k < all.len() - 1 ==> sequence_views(top@).contains(
                    #[trigger] pair_at(all, k),
                ),
            !done ==> (all.len() > 1 && top@.len() == 0 || top@.len() > 0 || all.len() == 1),
        decreases
                MAX_TRANSITIONS - top@.len(),
                (if done {
                    0int
                } else {
                    1
                }),
    {
        let ghost before = sequence_views(top@);
        match find_next(&top, phases) {
            Some(k) => {
                let mut sequence: Vec<String> = Vec::new();
                sequence.push(phases[k].clone());
                sequence.push(phases[k + 1].clone());
                assert(all[k as int] == phases@[k as int]@ && all[k + 1] == phases@[k + 1]@);
                let ghost pair = pair_at(all, k as int);
                assert(views(sequence@) =~= pair);
                top.push(sequence);
                let ghost after = sequence_views(top@);
                assert(after =~= before.push(pair));
                proof {
                    lemma_transition(all, all[k as int], all[k + 1], all.len() - 1);
                    assert(frequency(all, pair) > 0);
                    assert forall|i: int|
                        0 <= i < after.len() implies frequency(all, #[trigger] after[i]) > 0 by {
                        if i < before.len() {
                            assert(after[i] == before[i]);
                        }
                    }
                    assert forall|i: int, j: int|
                        0 <= i < j < after.len() implies #[trigger] after[i]
                        != #[trigger] after[j] by {
                        assert(after[i] == before[i]);
                        if j < before.len() {
                            assert(after[j] == before[j]);
                        } else {
                            assert(before.contains(before[i]));
                        }
                    }
                    assert forall|i: int, j: int| 0 <= i < j < after.len() implies frequency(
                        all,
                        #[trigger] after[i],
                    ) >= frequency(all, #[trigger] after[j]) by {
                        assert(after[i] == before[i]);
                        if j < before.len() {
                            assert(after[j] == before[j]);
                        } else {
                            assert(!before.contains(pair_at(all, k as int)));
                        }
                    }
                    assert forall|m: int| 0 <= m < before.len() implies after.contains(
                        #[trigger] before[m],
                    ) by {
                        assert(after[m] == before[m]);
                    }
                    assert forall|i: int, q: int|
                        0 <= i < after.len() && 0 <= q < all.len() - 1 && !after.contains(
                            #[trigger] pair_at(all, q),
                        ) implies frequency(all, #[trigger] after[i]) >= frequency(
                        all,
                        pair_at(all, q),
                    ) by {
                        assert(!before.contains(pair_at(all, q))) by {
                            if before.contains(pair_at(all, q)) {
                                let m = choose|m: int|
                                    0 <= m < before.len() && before[m] == pair_at(all, q);
                                assert(after.contains(before[m]));
                            }
                        }
                        if i < before.len() {
                            assert(after[i] == before[i]);
                        }
                    }
                }
            },
            None => {
                done = true;
            },
        }
    }
    proof {
        let found = sequence_views(top@);
        assert forall|a: Seq<char>, b: Seq<char>| #[trigger]
            transitions(all, a, b) > 0 && !found.contains(seq![a, b]) implies found.len()
            == MAX_TRANSITIONS && forall|i: int|
            0 <= i < found.len() ==> frequency(all, #[trigger] found[i]) >= transitions(
                all,
                a,
                b,
            ) by {
            lemma_transition(all, a, b, all.len() - 1);
            let q = choose|q: int|
                0 <= q < all.len() - 1 && #[trigger] pair_at(all, q) == seq![a, b];
            assert(!found.contains(pair_at(all, q)));
            assert(frequency(all, pair_at(all, q)) == transitions(all, a, b));
        }
        assert forall|i: int| 0 <= i < found.len() implies (#[trigger] found[i]).len() == 2 by {
            assert(top@[i]@.len() == 2);
        }
        if phases@.len() > 1 {
            assert(found.len() > 0) by {
                if done {
                    assert(found.contains(pair_at(all, 0)));
                }
            }
        } else if top@.len() > 0 {
            lemma_transition(all, found[0][0], found[0][1], all.len() - 1);
            assert(frequency(all, found[0]) > 0);
        }
    }
    top
}

// ---------------------------------------------------------------------
// The group
// ---------------------------------------------------------------------

/// `after` is the rhythm after a session; `recent` are the sessions before
/// it, the most recent one first, of which the rolling window holds some.
pub open spec fn rhythm_after<C: Calculator>(
    calc: C,
    before: Rhythm,
    session: &SessionIntent,
    recent: Seq<SessionIntent>,
    after: Rhythm,
) -> bool {
    &&& after.active_hours.wf()
    &&& after.typical_phase_durations.wf()
    &&& after.avg_session_len_min == mean(calc, durations(*session, in_window(recent)))
    &&& after.session_len_stddev == deviation(calc, durations(*session, in_window(recent)))
    &&& after.active_hours@ == hours_after(
        calc,
        before.active_hours@,
        session.active_hours@,
        24,
    )
    &&& after.typical_phase_durations@ == phases_after(
        calc,
        before.typical_phase_durations@,
        session,
    )
    &&& if recent.len() > 0 {
        are_top_transitions(
            phase_history(*session, in_window(recent)),
            sequence_views(after.phase_sequence@),
        )
    } else {
        after.phase_sequence == before.phase_sequence
    }
    &&& after.focus_style == before.focus_style
    &&& after.focus_style_confidence == before.focus_style_confidence
    &&& after.interruption_gap_threshold_min == before.interruption_gap_threshold_min
}

/// Folds a session into the rhythm: the average and the deviation of the
/// session lengths, the hours, the time spent in each phase, and the most
/// frequent phase transitions of the rolling window.
pub fn update_rhythm<C: Calculator>(
    rhythm: &mut Rhythm,
    session: &SessionIntent,
    recent: &Vec<SessionIntent>,
    calc: C,
)
    requires
        reliable(calc),
        old(rhythm).active_hours.wf(),
        old(rhythm).typical_phase_durations.wf(),
        total(session.phase_counts.entries@) <= u64::MAX,
    ensures
        rhythm_after(calc, *old(rhythm), session, recent@, *final(rhythm)),
{
    let lengths = collect_durations(session, recent);
    let mean_value = average(calc, &lengths);
    rhythm.avg_session_len_min = mean_value;
    rhythm.session_len_stddev = standard_deviation(calc, &lengths, mean_value);
    update_hours(calc, &mut rhythm.active_hours, &session.active_hours);
    update_phase_durations(calc, &mut rhythm.typical_phase_durations, session);
    let phases = collect_phases(session, recent);
    assert(phases@.len() == phase_history(*session, in_window(recent@)).len());
    let top = find_top_transitions(&phases);
    if top.len() > 0 {
        rhythm.phase_sequence = top;
    }
}

} // verus!
