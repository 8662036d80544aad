//! Aggregation and decay/promotion: folds a session into the long-term
//! profile using the aggregation strategy documented on each profile field.

pub mod friction;
pub mod outcomes;
pub mod projects;
pub mod records;
pub mod rhythm;
pub mod stack;
pub mod weights;

use self::friction::{
    friction_after, pattern_views, patterns_have_room, sequences_have_room, update_friction,
    PatternView,
};
use self::projects::{projects_after, projects_have_room, update_projects};
use self::rhythm::{rhythm_after, update_rhythm};
use self::stack::{stack_after, update_stack};
use super::summary::summarizes;
use super::SessionIntent;
use crate::arithmetic::{
    cap, capped, ema, greatest, max_of, moved, over, plus, product, quotient, reliable, sum, times,
    Calculator,
};
use crate::json::Json;
use crate::profile::{Behavioral, ConfidenceByGroup, FrictionPattern, Meta, UserProfile};
use crate::quantity::{
    Quantity, FIFTEEN, FOUR, ONE, POINT_02, POINT_3, POINT_6, POINT_95, THIRTY, TWENTY, ZERO,
};
use crate::table::total;
use crate::text::{same, views};
use std::sync::Arc;
use vstd::prelude::*;

verus! {

/// Multiplicative decay applied to recency-weighted maps every session: 0.95.
pub const DECAY: u64 = POINT_95;

/// Smoothing factor for exponential moving averages: 0.3.
pub const EMA_ALPHA: u64 = POINT_3;

/// Entries decayed below this weight are dropped (unless
/// promoted/confirmed): 0.02.
pub const MIN_WEIGHT: u64 = POINT_02;

/// A weight after one more session.
pub open spec fn decayed<C: Calculator>(calc: C, weight: Quantity) -> Quantity {
    product(calc, weight, Quantity { bits: DECAY })
}

/// A weight that is worth keeping.
pub open spec fn heavy(weight: Quantity) -> bool {
    weight.rank() >= (Quantity { bits: MIN_WEIGHT }).rank()
}

fn decay<C: Calculator>(calc: C, weight: Quantity) -> (r: Quantity)
    requires
        reliable(calc),
    ensures
        r == decayed(calc, weight),
{
    times(calc, weight, Quantity { bits: DECAY })
}

fn is_heavy(weight: Quantity) -> (r: bool)
    ensures
        r == heavy(weight),
{
    !weight.less(Quantity { bits: MIN_WEIGHT })
}

/// The names of a table, in their order.
pub open spec fn names<V>(entries: Seq<(String, V)>) -> Seq<Seq<char>> {
    Seq::new(entries.len(), |i: int| entries[i].0@)
}

// ---------------------------------------------------------------------
// Behavioral tendencies
// ---------------------------------------------------------------------

/// Whether the user searches before they try, after a session: it counts
/// only when the session contains both a research-style navigation and a
/// failed command, so that it is known which came first.
pub open spec fn search_ratio_after<C: Calculator>(
    calc: C,
    ratio: Quantity,
    searched_first: Option<bool>,
) -> Quantity {
    match searched_first {
        Some(first) => moved(
            calc,
            ratio,
            if first {
                Quantity { bits: ONE }
            } else {
                Quantity { bits: ZERO }
            },
            Quantity { bits: EMA_ALPHA },
        ),
        None => ratio,
    }
}

/// Folds a session into the behavioral tendencies.
pub fn update_behavioral<C: Calculator>(
    behavioral: &mut Behavioral,
    session: &SessionIntent,
    calc: C,
)
    requires
        reliable(calc),
    ensures
        *final(behavioral) == (Behavioral {
            search_before_try_ratio: search_ratio_after(
                calc,
                old(behavioral).search_before_try_ratio,
                session.search_before_try,
            ),
            ..*old(behavioral)
        }),
{
    if let Some(first) = session.search_before_try {
        let sample = if first {
            Quantity { bits: ONE }
        } else {
            Quantity { bits: ZERO }
        };
        behavioral.search_before_try_ratio = ema(
            calc,
            behavioral.search_before_try_ratio,
            sample,
            Quantity { bits: EMA_ALPHA },
        );
    }
}

// ---------------------------------------------------------------------
// Profile meta + health
// ---------------------------------------------------------------------

/// The sessions that the rolling window holds at most.
pub const WINDOW_SESSIONS: u32 = 20;

/// Some friction pattern is confirmed.
pub open spec fn any_confirmed(patterns: Seq<PatternView>) -> bool {
    exists|i: int| 0 <= i < patterns.len() && (#[trigger] patterns[i]).status == "confirmed"@
}

/// How far the groups can be trusted after so many sessions.
pub open spec fn confidence<C: Calculator>(
    calc: C,
    sessions_total: u32,
    sessions_in_window: u32,
    confirmed: bool,
) -> ConfidenceByGroup {
    let friction = capped(calc, sessions_total as u64, Quantity { bits: THIRTY });
    ConfidenceByGroup {
        stack: capped(calc, sessions_total as u64, Quantity { bits: TWENTY }),
        rhythm: capped(calc, sessions_in_window as u64, Quantity { bits: TWENTY }),
        friction: if confirmed {
            greatest(friction, Quantity { bits: POINT_6 })
        } else {
            friction
        },
        behavioral: capped(calc, sessions_total as u64, Quantity { bits: FIFTEEN }),
    }
}

/// The average confidence of the groups.
pub open spec fn overall<C: Calculator>(calc: C, groups: ConfidenceByGroup) -> Quantity {
    quotient(
        calc,
        sum(
            calc,
            sum(calc, sum(calc, groups.stack, groups.rhythm), groups.friction),
            groups.behavioral,
        ),
        Quantity { bits: FOUR },
    )
}

/// The meta data after a session.
pub open spec fn meta_after<C: Calculator>(
    calc: C,
    meta: Meta,
    end_ts: u64,
    confirmed: bool,
) -> Meta {
    let sessions_total = (meta.sessions_total + 1) as u32;
    let sessions_in_window = if sessions_total < WINDOW_SESSIONS {
        sessions_total
    } else {
        WINDOW_SESSIONS
    };
    let groups = confidence(calc, sessions_total, sessions_in_window, confirmed);
    Meta {
        sessions_total,
        sessions_in_window,
        last_distilled_at: Some(end_ts),
        decay_last_run: Some(end_ts),
        confidence_by_group: groups,
        confidence_overall: overall(calc, groups),
        ..meta
    }
}

fn has_confirmed(patterns: &Vec<FrictionPattern>) -> (r: bool)
    ensures
        r == any_confirmed(pattern_views(patterns@)),
{
    let ghost all = pattern_views(patterns@);
    for i in 0..patterns.len()
        invariant
            all == pattern_views(patterns@),
            forall|j: int| 0 <= j < i ==> (#[trigger] all[j]).status != "confirmed"@,
    {
        assert(all[i as int] == patterns@[i as int]@);
        if same(patterns[i].status.as_str(), "confirmed") {
            return true;
        }
    }
    assert(all.len() == patterns@.len());
    false
}

/// Counts a session, and says how far the profile can be trusted now.
pub fn update_meta<C: Calculator>(meta: &mut Meta, end_ts: u64, confirmed: bool, calc: C)
    requires
        reliable(calc),
        old(meta).sessions_total < u32::MAX,
    ensures
        *final(meta) == meta_after(calc, *old(meta), end_ts, confirmed),
{
    meta.sessions_total = meta.sessions_total + 1;
    meta.sessions_in_window = if meta.sessions_total < WINDOW_SESSIONS {
        meta.sessions_total
    } else {
        WINDOW_SESSIONS
    };
    meta.last_distilled_at = Some(end_ts);
    meta.decay_last_run = Some(end_ts);
    let total = meta.sessions_total as u64;
    let stack = cap(calc, total, Quantity { bits: TWENTY });
    let rhythm = cap(calc, meta.sessions_in_window as u64, Quantity { bits: TWENTY });
    let seen = cap(calc, total, Quantity { bits: THIRTY });
    let friction = if confirmed {
        max_of(seen, Quantity { bits: POINT_6 })
    } else {
        seen
    };
    let behavioral = cap(calc, total, Quantity { bits: FIFTEEN });
    meta.confidence_by_group = ConfidenceByGroup { stack, rhythm, friction, behavioral };
    meta.confidence_overall = over(
        calc,
        plus(calc, plus(calc, plus(calc, stack, rhythm), friction), behavioral),
        Quantity { bits: FOUR },
    );
}

// ---------------------------------------------------------------------
// The whole profile
// ---------------------------------------------------------------------

/// No counter of the profile is at its limit.
pub open spec fn has_room(profile: &UserProfile) -> bool {
    &&& projects_have_room(profile.projects.projects@)
    &&& patterns_have_room(profile.friction.friction_patterns@)
    &&& sequences_have_room(profile.friction.command_sequences@)
    &&& profile.meta.sessions_total < u32::MAX
}

/// `after` is the profile after a session; `recent` are the sessions before
/// it, the most recent one first.
pub open spec fn distilled<C: Calculator>(
    calc: C,
    before: UserProfile,
    session: &SessionIntent,
    recent: Seq<SessionIntent>,
    after: UserProfile,
) -> bool {
    &&& after.identity == before.identity
    &&& stack_after(calc, before.stack, session, after.stack)
    &&& projects_after(calc, before.projects, session, after.projects)
    &&& rhythm_after(calc, before.rhythm, session, recent, after.rhythm)
    &&& friction_after(
        calc,
        before.friction,
        session,
        views(before.identity.friction_self_reported@),
        after.friction,
    )
    &&& after.behavioral == (Behavioral {
        search_before_try_ratio: search_ratio_after(
            calc,
            before.behavioral.search_before_try_ratio,
            session.search_before_try,
        ),
        ..before.behavioral
    })
    &&& after.meta == meta_after(
        calc,
        before.meta,
        session.end_ts,
        any_confirmed(pattern_views(after.friction.friction_patterns@)),
    )
}

/// Folds `session` into `profile`, using `recent` (the previous session
/// intents, most-recent-first, capped at 19) for rolling-window
/// computations.
pub fn distill<C: Calculator>(
    profile: &mut UserProfile,
    session: &SessionIntent,
    recent: &Vec<SessionIntent>,
    calc: C,
)
    requires
        reliable(calc),
        old(profile).wf(),
        has_room(old(profile)),
        session.wf(),
        total(session.phase_counts.entries@) <= u64::MAX,
    ensures
        final(profile).wf(),
        distilled(calc, *old(profile), session, recent@, *final(profile)),
{
    update_stack(&mut profile.stack, session, calc);
    update_projects(&mut profile.projects, session, calc);
    update_rhythm(&mut profile.rhythm, session, recent, calc);
    update_friction(
        &mut profile.friction,
        session,
        &profile.identity.friction_self_reported,
        calc,
    );
    update_behavioral(&mut profile.behavioral, session, calc);
    let confirmed = has_confirmed(&profile.friction.friction_patterns);
    update_meta(&mut profile.meta, session.end_ts, confirmed, calc);
}

/// What the summarizer makes of a session can be distilled into any profile
/// whose counters have room.
pub proof fn law_summaries_can_be_distilled<C: Calculator>(
    calc: C,
    session: SessionIntent,
    session_id: u64,
    events: Seq<Arc<Json>>,
    hours: Seq<Option<u8>>,
    end_ts: u64,
    end_reason: Seq<char>,
    states: Seq<Arc<Json>>,
)
    requires
        summarizes(calc, session, session_id, events, hours, end_ts, end_reason, states),
        events.len() <= u64::MAX,
    ensures
        session.wf(),
        total(session.phase_counts.entries@) <= u64::MAX,
{
}

/// Distilling counts each session once, and the rolling window holds twenty
/// at most.
pub proof fn law_sessions_are_counted<C: Calculator>(
    calc: C,
    before: UserProfile,
    session: &SessionIntent,
    recent: Seq<SessionIntent>,
    after: UserProfile,
)
    requires
        distilled(calc, before, session, recent, after),
        has_room(&before),
    ensures
        after.meta.sessions_total == before.meta.sessions_total + 1,
        after.meta.sessions_in_window <= WINDOW_SESSIONS,
        after.meta.sessions_in_window <= after.meta.sessions_total,
        after.meta.last_distilled_at == Some(session.end_ts),
{
}

/// What the user said about themself is never overwritten by what is
/// observed, and neither are their preferences.
pub proof fn law_self_report_is_kept<C: Calculator>(
    calc: C,
    before: UserProfile,
    session: &SessionIntent,
    recent: Seq<SessionIntent>,
    after: UserProfile,
)
    requires
        distilled(calc, before, session, recent, after),
    ensures
        after.identity == before.identity,
        after.behavioral.pref_recommendation_verbosity
            == before.behavioral.pref_recommendation_verbosity,
        after.behavioral.pref_recommendation_timing
            == before.behavioral.pref_recommendation_timing,
        after.behavioral.pref_locked == before.behavioral.pref_locked,
        after.meta.profile_schema_version == before.meta.profile_schema_version,
{
}

} // verus!
