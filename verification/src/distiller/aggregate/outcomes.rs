//! What a session changes in a profile, in terms of what the session was
//! like.

use super::super::SessionIntent;
use super::distilled;
use super::rhythm::{duration_after, durations_after, hour_key, hours_after, transitions};
use crate::arithmetic::{difference, product, quotient, root, sum, whole, Calculator};
use crate::profile::{PhaseDuration, Rhythm, UserProfile};
use crate::quantity::Quantity;
use crate::table::{total, total_to};
use crate::text::views;
use vstd::prelude::*;

verus! {

// ---------------------------------------------------------------------
// Moving, fading and growing
// ---------------------------------------------------------------------

/// The number zero.
pub open spec fn zero() -> Quantity {
    Quantity { bits: 0 }
}

/// The number one.
pub open spec fn one() -> Quantity {
    Quantity { bits: 0x3FF0_0000_0000_0000 }
}

/// A value that moves three tenths of the way to a sample.
pub open spec fn toward<C: Calculator>(calc: C, value: Quantity, sample: Quantity) -> Quantity {
    let step = Quantity { bits: 0x3FD3_3333_3333_3333 };
    sum(
        calc,
        product(calc, value, difference(calc, one(), step)),
        product(calc, sample, step),
    )
}

/// The value of a name in a map, or another one where there is none.
pub open spec fn value_or(
    map: Map<Seq<char>, Quantity>,
    name: Seq<char>,
    other: Quantity,
) -> Quantity {
    if map.dom().contains(name) {
        map[name]
    } else {
        other
    }
}

// ---------------------------------------------------------------------
// Phases
// ---------------------------------------------------------------------

/// The minutes that a session spent in a phase: its share of the events that
/// show a phase, of all minutes.
pub open spec fn minutes_in<C: Calculator>(
    calc: C,
    session: &SessionIntent,
    phase: Seq<char>,
) -> Quantity {
    product(
        calc,
        session.duration_min,
        quotient(
            calc,
            whole(calc, session.phase_counts@[phase]),
            whole(calc, total(session.phase_counts.entries@) as u64),
        ),
    )
}

proof fn lemma_not_spent<C: Calculator>(
    calc: C,
    phases: Map<Seq<char>, PhaseDuration>,
    session: &SessionIntent,
    phase: Seq<char>,
    n: int,
)
    requires
        0 <= n <= session.phase_counts.entries@.len(),
        forall|k: int| 0 <= k < n ==> (#[trigger] session.phase_counts.entries@[k]).0@ != phase,
    ensures
        durations_after(calc, phases, session, n).dom().contains(phase) <==> phases.dom().contains(
            phase,
        ),
        phases.dom().contains(phase) ==> durations_after(calc, phases, session, n)[phase]
            == phases[phase],
    decreases n,
{
    if n > 0 {
        lemma_not_spent(calc, phases, session, phase, n - 1);
        assert(session.phase_counts.entries@[n - 1].0@ != phase);
    }
}

proof fn lemma_spent<C: Calculator>(
    calc: C,
    phases: Map<Seq<char>, PhaseDuration>,
    session: &SessionIntent,
    k: int,
    n: int,
)
    requires
        0 <= k < n <= session.phase_counts.entries@.len(),
        session.phase_counts.wf(),
    ensures
        ({
            let phase = session.phase_counts.entries@[k].0@;
            let spent = durations_after(calc, phases, session, n);
            &&& spent.dom().contains(phase)
            &&& spent[phase] == duration_after(
                calc,
                phases,
                phase,
                minutes_in(calc, session, phase),
            )
        }),
    decreases n,
{
    let phase = session.phase_counts.entries@[k].0@;
    session.phase_counts.lemma_entry(k);
    if k == n - 1 {
        assert forall|j: int| 0 <= j < k implies (
        #[trigger] session.phase_counts.entries@[j]).0@ != phase by {
            assert(session.phase_counts.entries@[k].0@ == phase);
        }
        lemma_not_spent(calc, phases, session, phase, n - 1);
    } else {
        lemma_spent(calc, phases, session, k, n - 1);
        assert(session.phase_counts.entries@[k].0@ != session.phase_counts.entries@[n - 1].0@);
    }
}

proof fn lemma_all_spent<C: Calculator>(
    calc: C,
    phases: Map<Seq<char>, PhaseDuration>,
    session: &SessionIntent,
    phase: Seq<char>,
)
    requires
        session.phase_counts.wf(),
    ensures
        ({
            let n = session.phase_counts.entries@.len() as int;
            let spent = durations_after(calc, phases, session, n);
            let shown = session.phase_counts@.dom().contains(phase);
            &&& spent.dom().contains(phase) <==> shown || phases.dom().contains(phase)
            &&& shown ==> spent[phase] == duration_after(
                calc,
                phases,
                phase,
                minutes_in(calc, session, phase),
            )
            &&& !shown && phases.dom().contains(phase) ==> spent[phase] == phases[phase]
        }),
{
    let n = session.phase_counts.entries@.len() as int;
    if session.phase_counts@.dom().contains(phase) {
        let k = session.phase_counts.lemma_has_entry(phase);
        lemma_spent(calc, phases, session, k, n);
    } else {
        assert forall|k: int| 0 <= k < n implies (
        #[trigger] session.phase_counts.entries@[k]).0@ != phase by {
            session.phase_counts.lemma_entry(k);
        }
        lemma_not_spent(calc, phases, session, phase, n);
    }
}

proof fn lemma_total(session: &SessionIntent, phase: Seq<char>)
    requires
        session.phase_counts@.dom().contains(phase),
        session.phase_counts@[phase] > 0,
    ensures
        total(session.phase_counts.entries@) > 0,
{
    let k = session.phase_counts.lemma_has_entry(phase);
    lemma_total_at(session.phase_counts.entries@, k, session.phase_counts.entries@.len() as int);
}

proof fn lemma_total_at(entries: Seq<(String, u64)>, k: int, n: int)
    requires
        0 <= k < n <= entries.len(),
    ensures
        total_to(entries, n) >= entries[k].1,
    decreases n,
{
    if k < n - 1 {
        lemma_total_at(entries, k, n - 1);
    }
}

/// How often debugging ended well, before a session: six tenths where nothing
/// is known of it.
pub open spec fn resolved_before(before: Rhythm) -> Quantity {
    if before.typical_phase_durations@.dom().contains("debugging"@) {
        before.typical_phase_durations@["debugging"@].resolves_within_session
    } else {
        Quantity { bits: 0x3FE3_3333_3333_3333 }
    }
}

/// After a session that was mostly debugging, with an event that shows some
/// phase, and in which no test failed, it counts as one that ended well,
/// whatever the blocking scores were. Where
/// tests failed, it does so exactly when there was a blocking score above zero,
/// the score went down, and it was below three tenths at the end.
pub proof fn law_debugging_ends_well_without_failures<C: Calculator>(
    calc: C,
    before: UserProfile,
    session: &SessionIntent,
    recent: Seq<SessionIntent>,
    after: UserProfile,
    phase: Seq<char>,
)
    requires
        distilled(calc, before, session, recent, after),
        session.wf(),
        session.dominant_phase@ == "debugging"@,
        session.phase_counts@.dom().contains("debugging"@)
            || before.rhythm.typical_phase_durations@.dom().contains("debugging"@),
        session.phase_counts@.dom().contains(phase),
        session.phase_counts@[phase] > 0,
    ensures
        after.rhythm.typical_phase_durations@.dom().contains("debugging"@),
        ({
            let r = after.rhythm.typical_phase_durations@["debugging"@].resolves_within_session;
            let was = resolved_before(before.rhythm);
            let eased = session.max_blocking_score.rank() > 0 && session.blocking_score_trend.rank()
                < 0 && session.final_blocking_score.rank() < 0x3FD3_3333_3333_3333;
            &&& session.test_failures == 0 ==> r == toward(calc, was, one())
            &&& session.test_failures > 0 && eased ==> r == toward(calc, was, one())
            &&& session.test_failures > 0 && !eased ==> r == toward(calc, was, zero())
        }),
{
    lemma_total(session, phase);
    lemma_all_spent(calc, before.rhythm.typical_phase_durations@, session, "debugging"@);
}

/// How often debugging ends well is touched by sessions that were mostly
/// debugging and by no others; and other phases do not end well or badly.
pub proof fn law_only_debugging_ends_well_or_badly<C: Calculator>(
    calc: C,
    before: UserProfile,
    session: &SessionIntent,
    recent: Seq<SessionIntent>,
    after: UserProfile,
    phase: Seq<char>,
)
    requires
        distilled(calc, before, session, recent, after),
        session.wf(),
        session.dominant_phase@ != "debugging"@ || phase != "debugging"@,
        before.rhythm.typical_phase_durations@.dom().contains(phase),
    ensures
        after.rhythm.typical_phase_durations@.dom().contains(phase),
        after.rhythm.typical_phase_durations@[phase].resolves_within_session
            == before.rhythm.typical_phase_durations@[phase].resolves_within_session,
{
    lemma_all_spent(calc, before.rhythm.typical_phase_durations@, session, phase);
    lemma_all_spent(calc, before.rhythm.typical_phase_durations@, session, "debugging"@);
}

/// The typical minutes of a phase move toward those that the session spent in
/// it; a phase that is new starts from them. A phase that the session did not
/// show keeps its minutes.
pub proof fn law_phases_move_toward_their_minutes<C: Calculator>(
    calc: C,
    before: UserProfile,
    session: &SessionIntent,
    recent: Seq<SessionIntent>,
    after: UserProfile,
    phase: Seq<char>,
)
    requires
        distilled(calc, before, session, recent, after),
        session.wf(),
    ensures
        ({
            let old_phases = before.rhythm.typical_phase_durations@;
            let new_phases = after.rhythm.typical_phase_durations@;
            let shown = session.phase_counts@.dom().contains(phase) && total(
                session.phase_counts.entries@,
            ) > 0;
            let known = old_phases.dom().contains(phase);
            let minutes = minutes_in(calc, session, phase);
            &&& new_phases.dom().contains(phase) <==> shown || known
            &&& shown && known ==> new_phases[phase].avg_min == toward(
                calc,
                old_phases[phase].avg_min,
                minutes,
            )
            &&& shown && !known ==> new_phases[phase].avg_min == toward(calc, minutes, minutes)
            &&& !shown && known ==> new_phases[phase].avg_min == old_phases[phase].avg_min
        }),
{
    lemma_all_spent(calc, before.rhythm.typical_phase_durations@, session, phase);
    lemma_all_spent(calc, before.rhythm.typical_phase_durations@, session, "debugging"@);
}

// ---------------------------------------------------------------------
// Hours and lengths
// ---------------------------------------------------------------------

/// The two digits of an hour.
pub open spec fn two_digits(hour: int) -> Seq<char> {
    seq![(48 + hour / 10) as char, (48 + hour % 10) as char]
}

proof fn lemma_hours<C: Calculator>(
    calc: C,
    hours: Map<Seq<char>, Quantity>,
    active: Seq<u8>,
    hour: int,
    n: int,
)
    requires
        0 <= hour < 24,
        0 <= n <= 24,
    ensures
        ({
            let after = hours_after(calc, hours, active, n);
            let key = two_digits(hour);
            &&& n > hour ==> after.dom().contains(key) && after[key] == toward(
                calc,
                value_or(hours, key, zero()),
                if active.contains(hour as u8) {
                    one()
                } else {
                    zero()
                },
            )
            &&& n <= hour ==> (after.dom().contains(key) <==> hours.dom().contains(key)) && (
            hours.dom().contains(key) ==> after[key] == hours[key])
        }),
    decreases n,
{
    assert(hour_key(hour) =~= two_digits(hour));
    if n > 0 {
        lemma_hours(calc, hours, active, hour, n - 1);
        if n - 1 != hour {
            let a = hour_key(n - 1);
            let b = hour_key(hour);
            assert(a[0] == ('0' as int + (n - 1) / 10) as char && a[1] == ('0' as int + (n - 1)
                % 10) as char);
            assert(b[0] == ('0' as int + hour / 10) as char && b[1] == ('0' as int + hour
                % 10) as char);
            assert(a != b) by {
                if a == b {
                    assert(a[0] == b[0] && a[1] == b[1]);
                    assert((n - 1) / 10 == hour / 10);
                    assert((n - 1) % 10 == hour % 10);
                }
            }
        }
    }
}

/// Each hour of the day moves toward one if the session touched it, and toward
/// zero if not.
pub proof fn law_hours_move_toward_the_session<C: Calculator>(
    calc: C,
    before: UserProfile,
    session: &SessionIntent,
    recent: Seq<SessionIntent>,
    after: UserProfile,
    hour: int,
)
    requires
        distilled(calc, before, session, recent, after),
        0 <= hour < 24,
    ensures
        after.rhythm.active_hours@.dom().contains(two_digits(hour)),
        after.rhythm.active_hours@[two_digits(hour)] == toward(
            calc,
            value_or(before.rhythm.active_hours@, two_digits(hour), zero()),
            if session.active_hours@.contains(hour as u8) {
                one()
            } else {
                zero()
            },
        ),
{
    lemma_hours(calc, before.rhythm.active_hours@, session.active_hours@, hour, 24);
}

/// The minutes of a session and of the nineteen sessions before it, or as many
/// as there are.
pub open spec fn window_minutes(session: &SessionIntent, recent: Seq<SessionIntent>) -> Seq<
    Quantity,
> {
    let n = if recent.len() < 19 {
        recent.len() as int
    } else {
        19
    };
    Seq::new(
        (n + 1) as nat,
        |i: int|
            if i == 0 {
                session.duration_min
            } else {
                recent[i - 1].duration_min
            },
    )
}

/// The average of some values.
pub open spec fn average_of<C: Calculator>(calc: C, values: Seq<Quantity>) -> Quantity {
    quotient(
        calc,
        values.fold_left(zero(), |t: Quantity, v: Quantity| sum(calc, t, v)),
        whole(calc, values.len() as u64),
    )
}

proof fn lemma_fold<C: Calculator>(calc: C, values: Seq<Quantity>, n: int)
    requires
        0 <= n <= values.len(),
    ensures
        super::rhythm::sum_to(calc, values, n) == values.take(n).fold_left(
            zero(),
            |t: Quantity, v: Quantity| sum(calc, t, v),
        ),
    decreases n,
{
    let f = |t: Quantity, v: Quantity| sum(calc, t, v);
    if n > 0 {
        lemma_fold(calc, values, n - 1);
        assert(values.take(n).drop_last() =~= values.take(n - 1));
        assert(values.take(n).last() == values[n - 1]);
        reveal_with_fuel(Seq::fold_left, 2);
    } else {
        assert(values.take(n).len() == 0);
    }
}

/// The average length of a session is that of the last twenty, this one
/// included, and the deviation is the root of the average square of their
/// distances from it.
pub proof fn law_lengths_are_averaged_over_twenty<C: Calculator>(
    calc: C,
    before: UserProfile,
    session: &SessionIntent,
    recent: Seq<SessionIntent>,
    after: UserProfile,
)
    requires
        distilled(calc, before, session, recent, after),
    ensures
        ({
            let minutes = window_minutes(session, recent);
            let mean = after.rhythm.avg_session_len_min;
            &&& mean == average_of(calc, minutes)
            &&& after.rhythm.session_len_stddev == root(
                calc,
                average_of(
                    calc,
                    minutes.map_values(
                        |m: Quantity|
                            product(calc, difference(calc, m, mean), difference(calc, m, mean)),
                    ),
                ),
            )
        }),
{
    let minutes = window_minutes(session, recent);
    let mine = super::rhythm::durations(*session, super::rhythm::in_window(recent));
    assert(mine =~= minutes);
    lemma_fold(calc, minutes, minutes.len() as int);
    assert(minutes.take(minutes.len() as int) =~= minutes);
    let mean = after.rhythm.avg_session_len_min;
    let squares = super::rhythm::squares(calc, minutes);
    assert(squares =~= minutes.map_values(
        |m: Quantity| product(calc, difference(calc, m, mean), difference(calc, m, mean)),
    ));
    lemma_fold(calc, squares, squares.len() as int);
    assert(squares.take(squares.len() as int) =~= squares);
}

// ---------------------------------------------------------------------
// Behaviour and trust
// ---------------------------------------------------------------------

/// Searching before trying moves toward one after a session that began with
/// research, toward zero after one that began with a failure, and not at all
/// after one that does not tell.
pub proof fn law_search_ratio_follows_the_session<C: Calculator>(
    calc: C,
    before: UserProfile,
    session: &SessionIntent,
    recent: Seq<SessionIntent>,
    after: UserProfile,
)
    requires
        distilled(calc, before, session, recent, after),
    ensures
        ({
            let was = before.behavioral.search_before_try_ratio;
            let is = after.behavioral.search_before_try_ratio;
            &&& session.search_before_try == Some(true) ==> is == toward(calc, was, one())
            &&& session.search_before_try == Some(false) ==> is == toward(calc, was, zero())
            &&& session.search_before_try is None ==> is == was
        }),
        after.behavioral.recommendation_accept_rate
            == before.behavioral.recommendation_accept_rate,
        after.behavioral.context_switch_freq_per_day
            == before.behavioral.context_switch_freq_per_day,
{
}

/// `n` over `of`, but no more than one.
pub open spec fn up_to_one<C: Calculator>(calc: C, n: u64, of: u64) -> Quantity {
    let q = quotient(calc, whole(calc, n), Quantity { bits: of });
    if q.rank() > 0x3FF0_0000_0000_0000 {
        one()
    } else {
        q
    }
}

/// Trust grows with the sessions: in the stack over twenty, in the rhythm over
/// the twenty of the window, in what the user does over fifteen, and in
/// friction over thirty. A confirmed pattern lifts the last to six tenths at
/// least. Overall it is the average of the four.
pub proof fn law_trust_grows_with_the_sessions<C: Calculator>(
    calc: C,
    before: UserProfile,
    session: &SessionIntent,
    recent: Seq<SessionIntent>,
    after: UserProfile,
)
    requires
        distilled(calc, before, session, recent, after),
        before.meta.sessions_total < u32::MAX,
    ensures
        ({
            let n = (before.meta.sessions_total + 1) as u64;
            let window = if n < 20 {
                n
            } else {
                20
            };
            let c = after.meta.confidence_by_group;
            let seen = up_to_one(calc, n, 0x403E_0000_0000_0000);
            let confirmed = exists|i: int|
                0 <= i < after.friction.friction_patterns@.len() && (
                #[trigger] after.friction.friction_patterns@[i]).status@ == "confirmed"@;
            &&& after.meta.sessions_total == n
            &&& after.meta.sessions_in_window == window
            &&& c.stack == up_to_one(calc, n, 0x4034_0000_0000_0000)
            &&& c.rhythm == up_to_one(calc, window, 0x4034_0000_0000_0000)
            &&& c.behavioral == up_to_one(calc, n, 0x402E_0000_0000_0000)
            &&& !confirmed || seen.rank() >= 0x3FE3_3333_3333_3333 ==> c.friction == seen
            &&& confirmed && seen.rank() < 0x3FE3_3333_3333_3333 ==> c.friction.bits
                == 0x3FE3_3333_3333_3333
            &&& after.meta.confidence_overall == quotient(
                calc,
                sum(calc, sum(calc, sum(calc, c.stack, c.rhythm), c.friction), c.behavioral),
                Quantity { bits: 0x4010_0000_0000_0000 },
            )
            &&& after.meta.last_distilled_at == Some(session.end_ts)
            &&& after.meta.decay_last_run == Some(session.end_ts)
            &&& after.meta.created_at == before.meta.created_at
        }),
{
    let patterns = after.friction.friction_patterns@;
    let all = super::friction::pattern_views(patterns);
    if super::any_confirmed(all) {
        let i = choose|i: int| 0 <= i < all.len() && (#[trigger] all[i]).status == "confirmed"@;
        assert(patterns[i].status@ == "confirmed"@);
    }
    if exists|i: int| 0 <= i < patterns.len() && (#[trigger] patterns[i]).status@ == "confirmed"@ {
        let i = choose|i: int|
            0 <= i < patterns.len() && (#[trigger] patterns[i]).status@ == "confirmed"@;
        assert(all[i].status == "confirmed"@);
    }
}

// ---------------------------------------------------------------------
// Transitions
// ---------------------------------------------------------------------

/// The dominant phase of a session, where zero is this one and `k` the one that
/// came `k` sessions before it.
pub open spec fn phase_back(
    session: &SessionIntent,
    recent: Seq<SessionIntent>,
    k: int,
) -> Seq<char> {
    if k == 0 {
        session.dominant_phase@
    } else {
        recent[k - 1].dominant_phase@
    }
}

/// Of the last twenty sessions, one in the phase `b` came right after one in
/// the phase `a`, `k` sessions ago.
pub open spec fn came_after(
    session: &SessionIntent,
    recent: Seq<SessionIntent>,
    a: Seq<char>,
    b: Seq<char>,
    k: int,
) -> bool {
    &&& 0 <= k < 19
    &&& k < recent.len()
    &&& phase_back(session, recent, k + 1) == a
    &&& phase_back(session, recent, k) == b
}

proof fn lemma_came_after(
    session: &SessionIntent,
    recent: Seq<SessionIntent>,
    a: Seq<char>,
    b: Seq<char>,
)
    ensures
        ({
            let window = super::rhythm::in_window(recent);
            let phases = super::rhythm::phase_history(*session, window);
            transitions(phases, a, b) > 0 <==> exists|k: int| #[trigger]
                came_after(session, recent, a, b, k)
        }),
{
    let window = super::rhythm::in_window(recent);
    let phases = super::rhythm::phase_history(*session, window);
    let n = phases.len() - 1;
    super::rhythm::lemma_transition(phases, a, b, n);
    let pair = seq![a, b];
    assert(pair[0] == a && pair[1] == b);
    if transitions(phases, a, b) > 0 {
        let i = choose|i: int| 0 <= i < n && #[trigger] super::rhythm::pair_at(phases, i) == pair;
        let found = super::rhythm::pair_at(phases, i);
        assert(found[0] == phases[i] && found[1] == phases[i + 1]);
        let k = n - 1 - i;
        assert(phases[i] == window[window.len() - 1 - i].dominant_phase@);
        assert(window[k] == recent[k]);
        if k > 0 {
            assert(phases[i + 1] == window[k - 1].dominant_phase@);
            assert(window[k - 1] == recent[k - 1]);
        }
        assert(came_after(session, recent, a, b, k));
    }
    if exists|k: int| #[trigger] came_after(session, recent, a, b, k) {
        let k = choose|k: int| #[trigger] came_after(session, recent, a, b, k);
        let i = n - 1 - k;
        assert(window[k] == recent[k]);
        assert(phases[i] == a);
        if k > 0 {
            assert(window[k - 1] == recent[k - 1]);
        }
        assert(phases[i + 1] == b);
        assert(super::rhythm::pair_at(phases, i) =~= pair);
    }
}

/// The transitions of a profile are those between the phases of sessions that
/// followed each other, three at most, and all of them where they are fewer.
/// Without an earlier session they stay as they were.
pub proof fn law_transitions_are_between_sessions<C: Calculator>(
    calc: C,
    before: UserProfile,
    session: &SessionIntent,
    recent: Seq<SessionIntent>,
    after: UserProfile,
    i: int,
    a: Seq<char>,
    b: Seq<char>,
    k: int,
)
    requires
        distilled(calc, before, session, recent, after),
    ensures
        recent.len() == 0 ==> after.rhythm.phase_sequence == before.rhythm.phase_sequence,
        recent.len() > 0 ==> after.rhythm.phase_sequence@.len() <= 3,
        recent.len() > 0 && 0 <= i < after.rhythm.phase_sequence@.len() ==> {
            let pair = views(after.rhythm.phase_sequence@[i]@);
            pair.len() == 2 && exists|j: int| #[trigger]
                came_after(session, recent, pair[0], pair[1], j)
        },
        recent.len() > 0 && came_after(session, recent, a, b, k)
            && after.rhythm.phase_sequence@.len() < 3 ==> exists|j: int|
            0 <= j < after.rhythm.phase_sequence@.len() && views(
                (#[trigger] after.rhythm.phase_sequence@[j])@,
            ) == seq![a, b],
{
    if recent.len() > 0 {
        let window = super::rhythm::in_window(recent);
        let phases = super::rhythm::phase_history(*session, window);
        let all = after.rhythm.phase_sequence@;
        let top = super::rhythm::sequence_views(all);
        assert(top.len() == all.len());
        if 0 <= i < all.len() {
            assert(top[i] == views(all[i]@));
            assert(super::rhythm::frequency(phases, top[i]) > 0);
            lemma_came_after(session, recent, top[i][0], top[i][1]);
        }
        if came_after(session, recent, a, b, k) && all.len() < 3 {
            lemma_came_after(session, recent, a, b);
            assert(transitions(phases, a, b) > 0);
            assert(top.contains(seq![a, b]));
            let j = choose|j: int| 0 <= j < top.len() && top[j] == seq![a, b];
            assert(views(all[j]@) == top[j]);
        }
    }
}

} // verus!
