//! What a session adds to the records of projects, friction and commands.

use super::super::{ErrorLoopView, SessionIntent};
use super::distilled;
use super::friction::{
    all_hit, bigrams, command_views, decayed_patterns, decayed_sequences, lasting_pattern,
    lasting_sequence, lemma_bigrams, lemma_hits_keep, lemma_not_hit, lemma_not_run,
    lemma_pattern_at_same, lemma_sequence_at, new_sequence, observed,
    pattern_at, pattern_views, patterns_after, rerun, sequence_at, sequence_rank,
    sequences_after, sequences_run, strategy_count, CommandsView, PatternView,
};
use super::names;
use super::outcomes::{toward, up_to_one, value_or, zero};
use super::projects::{
    all_touched, branches_after, lemma_left_alone, lemma_project_at, lemma_untouched, new_project,
    project_after, project_at, project_views, worked_on, ProjectView,
};
use super::weights::{enough, faded, lemma_heaviest, lemma_names};
use crate::arithmetic::{product, quotient, sum, whole, Calculator};
use crate::immediate::moments::{holds, lemma_holds};
use crate::lists::{filtered, lemma_filtered_from, lemma_filtered_has, lemma_filtered_holds};
use crate::profile::UserProfile;
use crate::quantity::Quantity;
use crate::table::total;
use crate::text::{lowercase, opt_view, views};
use vstd::prelude::*;

verus! {

// ---------------------------------------------------------------------
// Projects
// ---------------------------------------------------------------------

/// `after` is a project after a session that touched it, where `before` is
/// what was known of it: one session more, active at the end of the session;
/// each of its phases moves toward its share in the session's events, or
/// toward zero.
pub open spec fn touched_once<C: Calculator>(
    calc: C,
    before: ProjectView,
    session: &SessionIntent,
    after: ProjectView,
) -> bool {
    let all = total(session.phase_counts.entries@);
    &&& after.id == before.id
    &&& after.name == before.name
    &&& after.root == before.root
    &&& after.primary_stack == before.primary_stack
    &&& after.collaborators == before.collaborators
    &&& after.session_count == before.session_count + 1
    &&& after.last_active == session.end_ts
    &&& all == 0 ==> after.phase_distribution == before.phase_distribution
    &&& all > 0 ==> forall|phase: Seq<char>|
        {
            let shown = session.phase_counts@.dom().contains(phase);
            let known = before.phase_distribution.dom().contains(phase);
            &&& #[trigger] after.phase_distribution.dom().contains(phase) <==> shown || known
            &&& shown || known ==> after.phase_distribution[phase] == toward(
                calc,
                value_or(before.phase_distribution, phase, zero()),
                if shown {
                    quotient(
                        calc,
                        whole(calc, session.phase_counts@[phase]),
                        whole(calc, all as u64),
                    )
                } else {
                    zero()
                },
            )
        }
    &&& !session.project_branches@.dom().contains(before.name) ==> after.active_branches
        == before.active_branches
    &&& session.project_branches@.dom().contains(before.name) ==> are_latest(
        before.active_branches,
        views(session.project_branches@[before.name]@),
        after.active_branches,
    )
}

/// `after` are the branches after work on those in `seen`: five at most, the
/// last one last, none but those that were active or seen, and all of these
/// if they are fewer than five.
pub open spec fn are_latest(
    before: Seq<Seq<char>>,
    seen: Seq<Seq<char>>,
    after: Seq<Seq<char>>,
) -> bool {
    &&& after.len() <= 5 || seen.len() == 0
    &&& seen.len() > 0 ==> after.len() > 0 && after.last() == seen.last()
    &&& before.no_duplicates() ==> after.no_duplicates()
    &&& forall|b: Seq<char>| #[trigger] after.contains(b) ==> before.contains(b) || seen.contains(b)
    &&& after.len() < 5 ==> forall|b: Seq<char>|
        before.contains(b) || seen.contains(b) ==> #[trigger] after.contains(b)
}

proof fn lemma_worked_on(before: Seq<Seq<char>>, seen: Seq<Seq<char>>, n: int)
    requires
        0 <= n <= seen.len(),
    ensures
        ({
            let after = worked_on(before, seen, n);
            &&& before.no_duplicates() ==> after.no_duplicates()
            &&& forall|b: Seq<char>| #[trigger]
                after.contains(b) ==> before.contains(b) || seen.contains(b)
            &&& forall|b: Seq<char>|
                before.contains(b) || seen.take(n).contains(b) ==> #[trigger] after.contains(b)
        }),
    decreases n,
{
    if n > 0 {
        lemma_worked_on(before, seen, n - 1);
        let rest = worked_on(before, seen, n - 1);
        let branch = seen[n - 1];
        let p = super::projects::other_than(branch);
        let kept = filtered(rest, p);
        let after = worked_on(before, seen, n);
        assert(after == kept.push(branch));
        lemma_filtered_from(rest, p, rest.len() as int);
        lemma_filtered_holds(rest, p, rest.len() as int);
        assert(rest.take(rest.len() as int) =~= rest);
        if before.no_duplicates() {
            let key = |b: Seq<char>| b;
            assert(crate::lists::distinct_by(rest, key));
            crate::lists::lemma_filtered_distinct(rest, p, key, rest.len() as int);
            assert forall|i: int, j: int| 0 <= i < kept.len() && 0 <= j < kept.len() && i
                != j implies kept[i] != kept[j] by {
                if i < j {
                    assert(key(kept[i]) != key(kept[j]));
                } else {
                    assert(key(kept[j]) != key(kept[i]));
                }
            }
            assert forall|i: int| 0 <= i < kept.len() implies #[trigger] kept[i] != branch by {
                assert(p(kept[i]));
            }
        }
        assert(seen.contains(branch));
        assert forall|b: Seq<char>| #[trigger] after.contains(b) implies before.contains(b)
            || seen.contains(b) by {
            let k = choose|k: int| 0 <= k < after.len() && after[k] == b;
            if k < kept.len() {
                assert(kept[k] == b);
                assert(rest.contains(kept[k]));
            }
        }
        assert forall|b: Seq<char>|
            before.contains(b) || seen.take(n).contains(b) implies #[trigger] after.contains(b) by {
            assert(after[kept.len() as int] == branch);
            if b != branch {
                if seen.take(n).contains(b) {
                    let k = choose|k: int| 0 <= k < n && seen.take(n)[k] == b;
                    assert(seen.take(n - 1)[k] == b);
                }
                assert(rest.contains(b));
                let k = choose|k: int| 0 <= k < rest.len() && rest[k] == b;
                assert(p(rest[k]));
                lemma_filtered_has(rest, p, k, rest.len() as int);
                let m = choose|m: int| 0 <= m < kept.len() && kept[m] == b;
                assert(after[m] == b);
            }
        }
    }
}

proof fn lemma_latest(before: Seq<Seq<char>>, seen: Seq<Seq<char>>)
    ensures
        are_latest(before, seen, branches_after(before, Some(seen))) || seen.len() == 0 && before.len()
            > 5,
{
    lemma_worked_on(before, seen, seen.len() as int);
    assert(seen.take(seen.len() as int) =~= seen);
    let all = worked_on(before, seen, seen.len() as int);
    let after = branches_after(before, Some(seen));
    if all.len() > 5 {
        assert(after == all.skip(all.len() - 5));
        assert forall|b: Seq<char>| #[trigger] after.contains(b) implies all.contains(b) by {
            let k = choose|k: int| 0 <= k < after.len() && after[k] == b;
            assert(all[k + all.len() - 5] == b);
        }
        if before.no_duplicates() {
            assert forall|i: int, j: int| 0 <= i < after.len() && 0 <= j < after.len() && i
                != j implies after[i] != after[j] by {
                assert(all[i + all.len() - 5] != all[j + all.len() - 5]);
            }
        }
    }
}

proof fn lemma_touched_once<C: Calculator>(
    calc: C,
    before: ProjectView,
    session: &SessionIntent,
)
    requires
        session.project_branches@.dom().contains(before.name)
            ==> session.project_branches@[before.name]@.len() > 0,
        total(session.phase_counts.entries@) <= u64::MAX,
    ensures
        touched_once(calc, before, session, project_after(calc, before, session)),
{
    if session.project_branches@.dom().contains(before.name) {
        lemma_latest(before.active_branches, views(session.project_branches@[before.name]@));
    }
}

proof fn lemma_first_project(projects: Seq<ProjectView>, name: Seq<char>, i: int, from: int)
    requires
        0 <= from <= i < projects.len(),
        projects[i].name == name,
        forall|j: int| 0 <= j < i ==> (#[trigger] projects[j]).name != name,
    ensures
        project_at(projects, name, from) == Some(i),
    decreases i - from,
{
    if from < i {
        assert(projects[from].name != name);
        lemma_first_project(projects, name, i, from + 1);
    }
}

/// A project that a session touched counts it once, where the project stands;
/// one that it did not touch stays as it was.
pub proof fn law_known_projects_count_the_session<C: Calculator>(
    calc: C,
    before: UserProfile,
    session: &SessionIntent,
    recent: Seq<SessionIntent>,
    after: UserProfile,
    i: int,
)
    requires
        distilled(calc, before, session, recent, after),
        session.wf(),
        total(session.phase_counts.entries@) <= u64::MAX,
        forall|project: Seq<char>| #[trigger]
            session.project_branches@.dom().contains(project)
                ==> session.project_branches@[project]@.len() > 0,
        0 <= i < before.projects.projects@.len(),
        forall|j: int|
            0 <= j < i ==> (#[trigger] before.projects.projects@[j]).name@
                != before.projects.projects@[i].name@,
    ensures
        i < after.projects.projects@.len(),
        ({
            let was = before.projects.projects@[i]@;
            let is = after.projects.projects@[i]@;
            let touched = session.project_event_counts@.dom().contains(was.name);
            &&& touched ==> touched_once(calc, was, session, is)
            &&& !touched ==> is == was
        }),
{
    let projects = project_views(before.projects.projects@);
    let was = before.projects.projects@[i]@;
    assert(projects[i] == was);
    let touched = names(session.project_event_counts.entries@);
    lemma_names(session.project_event_counts, was.name);
    assert forall|j: int| 0 <= j < i implies (#[trigger] projects[j]).name != was.name by {
        assert(before.projects.projects@[j].name@ != before.projects.projects@[i].name@);
    }
    lemma_first_project(projects, was.name, i, 0);
    lemma_untouched(calc, projects, session, touched, touched.len() as int);
    let all = all_touched(calc, projects, session, touched, touched.len() as int);
    assert(project_views(after.projects.projects@)[i] == after.projects.projects@[i]@);
    if touched.contains(was.name) {
        let k = choose|k: int| 0 <= k < touched.len() && touched[k] == was.name;
        super::projects::law_touched_projects_are_counted(calc, projects, session, touched, k);
        lemma_touched_once(calc, was, session);
    } else {
        super::projects::law_untouched_projects_stay(calc, projects, session, touched, i);
    }
}

/// A project that is new is recorded under its name, with this session as its
/// first; its root is not known.
pub proof fn law_new_projects_are_recorded<C: Calculator>(
    calc: C,
    before: UserProfile,
    session: &SessionIntent,
    recent: Seq<SessionIntent>,
    after: UserProfile,
    name: Seq<char>,
)
    requires
        distilled(calc, before, session, recent, after),
        session.wf(),
        total(session.phase_counts.entries@) <= u64::MAX,
        forall|project: Seq<char>| #[trigger]
            session.project_branches@.dom().contains(project)
                ==> session.project_branches@[project]@.len() > 0,
        session.project_event_counts@.dom().contains(name),
        forall|j: int|
            0 <= j < before.projects.projects@.len() ==> (
            #[trigger] before.projects.projects@[j]).name@ != name,
    ensures
        exists|i: int|
            0 <= i < after.projects.projects@.len() && touched_once(
                calc,
                ProjectView {
                    id: name,
                    name,
                    root: Seq::empty(),
                    primary_stack: Seq::empty(),
                    last_active: 0,
                    session_count: 0,
                    phase_distribution: Map::empty(),
                    active_branches: Seq::empty(),
                    collaborators: Seq::empty(),
                },
                session,
                (#[trigger] after.projects.projects@[i])@,
            ),
{
    let projects = project_views(before.projects.projects@);
    let touched = names(session.project_event_counts.entries@);
    lemma_names(session.project_event_counts, name);
    let k = choose|k: int| 0 <= k < touched.len() && touched[k] == name;
    let earlier = all_touched(calc, projects, session, touched, k);
    lemma_untouched(calc, projects, session, touched, k);
    assert forall|j: int| 0 <= j < earlier.len() implies (#[trigger] earlier[j]).name != name by {
        if j < projects.len() {
            assert(before.projects.projects@[j].name@ != name);
            assert(earlier[j].name == projects[j].name);
        } else {
            assert(touched.take(k).contains(earlier[j].name));
            let m = choose|m: int| 0 <= m < k && touched.take(k)[m] == earlier[j].name;
            assert(touched[m] != touched[k]);
        }
    }
    lemma_project_at(earlier, name, 0);
    let with_it = all_touched(calc, projects, session, touched, k + 1);
    let i = earlier.len() as int;
    assert(with_it[i] == project_after(calc, new_project(name), session));
    assert(with_it[i].name == name);
    lemma_left_alone(calc, projects, session, touched, i, k + 1, touched.len() as int);
    lemma_touched_once(calc, new_project(name), session);
    assert(project_views(after.projects.projects@)[i] == after.projects.projects@[i]@);
}

// ---------------------------------------------------------------------
// Friction
// ---------------------------------------------------------------------

/// `minutes` is how long a session was blocked on a tool: as long as the error
/// loop of that tool that was observed first, in minutes; without one, the
/// share of the session's events that show debugging, of its minutes.
pub open spec fn is_blocked_for<C: Calculator>(
    calc: C,
    session: &SessionIntent,
    tool: Seq<char>,
    minutes: Quantity,
) -> bool {
    let loops = session.error_loops@;
    let all = total(session.phase_counts.entries@);
    let shown = session.phase_counts@.dom().contains("debugging"@);
    &&& forall|l: int|
        0 <= l < loops.len() && (#[trigger] loops[l]).tool@ == tool && (forall|j: int|
            0 <= j < l ==> (#[trigger] loops[j]).tool@ != tool) ==> minutes == quotient(
            calc,
            whole(calc, loops[l].duration_sec),
            Quantity { bits: 0x404E_0000_0000_0000 },
        )
    &&& (forall|l: int| 0 <= l < loops.len() ==> (#[trigger] loops[l]).tool@ != tool)
        ==> minutes == product(
        calc,
        session.duration_min,
        if all > 0 {
            quotient(
                calc,
                whole(
                    calc,
                    if shown {
                        session.phase_counts@["debugging"@]
                    } else {
                        0
                    },
                ),
                whole(calc, all as u64),
            )
        } else {
            zero()
        },
    )
}

proof fn lemma_first_loop(loops: Seq<ErrorLoopView>, tool: Seq<char>, from: int)
    requires
        0 <= from,
    ensures
        match super::super::summary::loop_at(loops, tool, from) {
            Some(i) => {
                &&& from <= i < loops.len()
                &&& loops[i].tool == tool
                &&& forall|j: int| from <= j < i ==> (#[trigger] loops[j]).tool != tool
            },
            None => forall|j: int| from <= j < loops.len() ==> (#[trigger] loops[j]).tool != tool,
        },
    decreases loops.len() - from,
{
    if from < loops.len() {
        lemma_first_loop(loops, tool, from + 1);
    }
}

proof fn lemma_blocked<C: Calculator>(
    calc: C,
    session: &SessionIntent,
    tool: Seq<char>,
    minutes: Quantity,
)
    requires
        is_blocked_for(calc, session, tool, minutes),
    ensures
        super::friction::blocked_min(calc, session, tool) == minutes,
{
    let loops = super::super::loop_views(session.error_loops@);
    lemma_first_loop(loops, tool, 0);
    let found = super::super::summary::loop_at(loops, tool, 0);
    if found is Some {
        let l = found->0;
        assert(session.error_loops@[l].tool@ == tool);
        assert forall|j: int| 0 <= j < l implies (#[trigger] session.error_loops@[j]).tool@
            != tool by {
            assert(loops[j].tool != tool);
        }
    } else {
        assert forall|l: int| 0 <= l < session.error_loops@.len() implies (
        #[trigger] session.error_loops@[l]).tool@ != tool by {
            assert(loops[l].tool != tool);
        }
    }
}

/// One of the user's reports is about a tool, tests or debugging, whatever the
/// capitals.
pub open spec fn complained(reports: Seq<String>, tool: Seq<char>) -> bool {
    exists|i: int|
        0 <= i < reports.len() && {
            let report = lowercase((#[trigger] reports[i])@);
            holds(report, lowercase(tool)) || holds(report, "test"@) || holds(report, "debug"@)
        }
}

proof fn lemma_complained(reports: Seq<String>, tool: Seq<char>)
    ensures
        complained(reports, tool) == super::friction::reported(views(reports), tool),
{
    assert forall|i: int| 0 <= i < reports.len() implies (#[trigger] views(reports)[i])
        == reports[i]@ && super::friction::about(lowercase(reports[i]@), lowercase(tool)) == (holds(
        lowercase(reports[i]@),
        lowercase(tool),
    ) || holds(lowercase(reports[i]@), "test"@) || holds(lowercase(reports[i]@), "debug"@)) by {
        lemma_holds(lowercase(reports[i]@), lowercase(tool));
        lemma_holds(lowercase(reports[i]@), "test"@);
        lemma_holds(lowercase(reports[i]@), "debug"@);
    }
    let all = views(reports);
    if complained(reports, tool) {
        let i = choose|i: int|
            0 <= i < reports.len() && {
                let report = lowercase((#[trigger] reports[i])@);
                holds(report, lowercase(tool)) || holds(report, "test"@) || holds(report, "debug"@)
            };
        assert(all[i] == reports[i]@);
    }
    if super::friction::reported(all, tool) {
        let i = choose|i: int|
            0 <= i < all.len() && super::friction::about(
                lowercase(#[trigger] all[i]),
                lowercase(tool),
            );
        assert(reports[i]@ == all[i]);
    }
}

/// `is` is a friction pattern after a session in which it showed: it counts
/// one session more, adds the blocked minutes, weighs a tenth for each session
/// up to one, and is confirmed from the third session on. A confirmed one is
/// matched with what the user complained about.
pub open spec fn shown_again<C: Calculator>(
    calc: C,
    was: PatternView,
    end_ts: u64,
    minutes: Quantity,
    complaint: bool,
    is: PatternView,
) -> bool {
    let confirmed = was.count + 1 >= 3 || was.status == "confirmed"@;
    &&& is.id == was.id
    &&& is.tool == was.tool
    &&& is.error_class == was.error_class
    &&& is.first_seen == was.first_seen
    &&& is.resolution_paths == was.resolution_paths
    &&& is.count == was.count + 1
    &&& is.blocked_min_total == sum(calc, was.blocked_min_total, minutes)
    &&& is.last_seen == end_ts
    &&& is.weight == up_to_one(calc, (was.count + 1) as u64, 0x4024_0000_0000_0000)
    &&& confirmed ==> is.status == "confirmed"@
    &&& !confirmed ==> is.status == was.status
    &&& is.self_reported_match <==> was.self_reported_match || confirmed && complaint
}

proof fn lemma_shown_again<C: Calculator>(
    calc: C,
    was: PatternView,
    session: &SessionIntent,
    reports: Seq<String>,
    minutes: Quantity,
)
    requires
        was.count < u32::MAX,
        is_blocked_for(calc, session, was.tool, minutes),
    ensures
        shown_again(
            calc,
            was,
            session.end_ts,
            minutes,
            complained(reports, was.tool),
            observed(calc, was, session, views(reports)),
        ),
{
    lemma_blocked(calc, session, was.tool, minutes);
    lemma_complained(reports, was.tool);
}

/// `i` is the place of the test failures of a tool.
pub open spec fn is_pattern_of(patterns: Seq<PatternView>, tool: Seq<char>, i: int) -> bool {
    &&& 0 <= i < patterns.len()
    &&& patterns[i].tool == tool
    &&& patterns[i].error_class == "test_failure"@
    &&& forall|j: int|
        0 <= j < i ==> !((#[trigger] patterns[j]).tool == tool && patterns[j].error_class
            == "test_failure"@)
}

proof fn lemma_pattern_position(patterns: Seq<PatternView>, tool: Seq<char>, i: int, from: int)
    requires
        is_pattern_of(patterns, tool, i),
        0 <= from <= i,
    ensures
        pattern_at(patterns, tool, from) == Some(i),
    decreases i - from,
{
    if from < i {
        assert(!(patterns[from].tool == tool && patterns[from].error_class == "test_failure"@));
        lemma_pattern_position(patterns, tool, i, from + 1);
    }
}

proof fn lemma_no_pattern(patterns: Seq<PatternView>, tool: Seq<char>, from: int)
    requires
        0 <= from,
        forall|j: int|
            0 <= j < patterns.len() ==> !((#[trigger] patterns[j]).tool == tool
                && patterns[j].error_class == "test_failure"@),
    ensures
        pattern_at(patterns, tool, from) is None,
    decreases patterns.len() - from,
{
    if from < patterns.len() {
        assert(!(patterns[from].tool == tool && patterns[from].error_class == "test_failure"@));
        lemma_no_pattern(patterns, tool, from + 1);
    }
}

/// The pattern is in the list.
pub open spec fn listed_pattern(patterns: Seq<PatternView>, p: PatternView) -> bool {
    exists|j: int| 0 <= j < patterns.len() && #[trigger] patterns[j] == p
}

/// The known test failures of a tool, after a session in which its tests
/// failed, are those before with the session added; they stay recorded where
/// they weigh enough or are confirmed.
pub proof fn law_failing_tests_are_recorded<C: Calculator>(
    calc: C,
    before: UserProfile,
    session: &SessionIntent,
    recent: Seq<SessionIntent>,
    after: UserProfile,
    tool: Seq<char>,
    i: int,
    minutes: Quantity,
)
    requires
        distilled(calc, before, session, recent, after),
        session.wf(),
        session.test_failure_tools@.dom().contains(tool),
        is_pattern_of(pattern_views(before.friction.friction_patterns@), tool, i),
        before.friction.friction_patterns@[i].count < u32::MAX,
        is_blocked_for(calc, session, tool, minutes),
    ensures
        exists|is: PatternView| #[trigger]
            shown_again(
                calc,
                before.friction.friction_patterns@[i]@,
                session.end_ts,
                minutes,
                complained(before.identity.friction_self_reported@, tool),
                is,
            ) && (enough(is.weight) || is.status == "confirmed"@ ==> listed_pattern(
                pattern_views(after.friction.friction_patterns@),
                is,
            )),
{
    let patterns = pattern_views(before.friction.friction_patterns@);
    let reports = before.identity.friction_self_reported@;
    let was = patterns[i];
    assert(was == before.friction.friction_patterns@[i]@);
    let start = decayed_patterns(calc, patterns);
    assert(is_pattern_of(start, tool, i)) by {
        assert forall|j: int| 0 <= j < i implies !((#[trigger] start[j]).tool == tool
            && start[j].error_class == "test_failure"@) by {
            assert(!(patterns[j].tool == tool && patterns[j].error_class == "test_failure"@));
        }
    }
    lemma_pattern_position(start, tool, i, 0);
    let tools = names(session.test_failure_tools.entries@);
    lemma_names(session.test_failure_tools, tool);
    let k = choose|k: int| 0 <= k < tools.len() && tools[k] == tool;
    let earlier = all_hit(calc, start, session, views(reports), tools, k);
    lemma_not_hit(calc, start, session, views(reports), tools, k);
    lemma_hits_keep(calc, start, session, views(reports), tools, k);
    lemma_pattern_at_same(start, earlier, tool, 0);
    assert(!tools.take(k).contains(tool)) by {
        if tools.take(k).contains(tool) {
            let m = choose|m: int| 0 <= m < k && tools.take(k)[m] == tool;
            assert(tools[m] != tools[k]);
        }
    }
    assert(earlier[i] == start[i]);
    let hit_once = all_hit(calc, start, session, views(reports), tools, k + 1);
    let is = observed(calc, start[i], session, views(reports));
    assert(hit_once[i] == is);
    super::friction::lemma_left_alone(
        calc,
        start,
        session,
        views(reports),
        tools,
        i,
        k + 1,
        tools.len() as int,
    );
    lemma_shown_again(calc, start[i], session, reports, minutes);
    let hits = all_hit(calc, start, session, views(reports), tools, tools.len() as int);
    assert(shown_again(
        calc,
        was,
        session.end_ts,
        minutes,
        complained(reports, tool),
        is,
    ));
    if enough(is.weight) || is.status == "confirmed"@ {
        assert(lasting_pattern()(hits[i]));
        lemma_filtered_has(hits, lasting_pattern(), i, hits.len() as int);
        let all = patterns_after(calc, patterns, session, views(reports));
        let j = choose|j: int| 0 <= j < all.len() && all[j] == hits[i];
        assert(pattern_views(after.friction.friction_patterns@)[j] == is);
    }
}

/// The first failure of a tool's tests makes a candidate, seen since the
/// session began.
pub proof fn law_new_failures_are_candidates<C: Calculator>(
    calc: C,
    before: UserProfile,
    session: &SessionIntent,
    recent: Seq<SessionIntent>,
    after: UserProfile,
    tool: Seq<char>,
    minutes: Quantity,
)
    requires
        distilled(calc, before, session, recent, after),
        session.wf(),
        session.test_failure_tools@.dom().contains(tool),
        forall|j: int|
            0 <= j < before.friction.friction_patterns@.len() ==> (
            #[trigger] before.friction.friction_patterns@[j]).tool@ != tool,
        is_blocked_for(calc, session, tool, minutes),
    ensures
        exists|is: PatternView| #[trigger]
            shown_again(
                calc,
                PatternView {
                    id: "fp_"@ + tool + "_test_failure"@,
                    tool,
                    error_class: "test_failure"@,
                    status: "candidate"@,
                    count: 0,
                    blocked_min_total: zero(),
                    first_seen: session.start_ts,
                    last_seen: session.start_ts,
                    weight: zero(),
                    resolution_paths: Seq::empty(),
                    self_reported_match: false,
                },
                session.end_ts,
                minutes,
                complained(before.identity.friction_self_reported@, tool),
                is,
            ) && (enough(is.weight) || is.status == "confirmed"@ ==> listed_pattern(
                pattern_views(after.friction.friction_patterns@),
                is,
            )),
{
    let patterns = pattern_views(before.friction.friction_patterns@);
    let reports = before.identity.friction_self_reported@;
    let start = decayed_patterns(calc, patterns);
    let tools = names(session.test_failure_tools.entries@);
    lemma_names(session.test_failure_tools, tool);
    let k = choose|k: int| 0 <= k < tools.len() && tools[k] == tool;
    let earlier = all_hit(calc, start, session, views(reports), tools, k);
    lemma_not_hit(calc, start, session, views(reports), tools, k);
    assert forall|j: int| 0 <= j < earlier.len() implies (#[trigger] earlier[j]).tool != tool by {
        if j < start.len() {
            assert(before.friction.friction_patterns@[j].tool@ != tool);
            assert(earlier[j].tool == start[j].tool);
        } else {
            assert(tools.take(k).contains(earlier[j].tool));
            let m = choose|m: int| 0 <= m < k && tools.take(k)[m] == earlier[j].tool;
            assert(tools[m] != tools[k]);
        }
    }
    lemma_no_pattern(earlier, tool, 0);
    let fresh = super::friction::new_pattern(tool, session.start_ts);
    let is = observed(calc, fresh, session, views(reports));
    let i = earlier.len() as int;
    let hit_once = all_hit(calc, start, session, views(reports), tools, k + 1);
    assert(hit_once[i] == is);
    super::friction::lemma_left_alone(
        calc,
        start,
        session,
        views(reports),
        tools,
        i,
        k + 1,
        tools.len() as int,
    );
    lemma_shown_again(calc, fresh, session, reports, minutes);
    let hits = all_hit(calc, start, session, views(reports), tools, tools.len() as int);
    assert(shown_again(
        calc,
        fresh,
        session.end_ts,
        minutes,
        complained(reports, tool),
        is,
    ));
    if enough(is.weight) || is.status == "confirmed"@ {
        assert(lasting_pattern()(hits[i]));
        lemma_filtered_has(hits, lasting_pattern(), i, hits.len() as int);
        let all = patterns_after(calc, patterns, session, views(reports));
        let j = choose|j: int| 0 <= j < all.len() && all[j] == hits[i];
        assert(pattern_views(after.friction.friction_patterns@)[j] == is);
    }
}

/// A pattern of a tool whose tests did not fail only fades; it is dropped
/// exactly when that leaves less than enough and it is not confirmed.
pub proof fn law_other_patterns_fade<C: Calculator>(
    calc: C,
    before: UserProfile,
    session: &SessionIntent,
    recent: Seq<SessionIntent>,
    after: UserProfile,
    i: int,
    j: int,
)
    requires
        distilled(calc, before, session, recent, after),
        session.wf(),
        0 <= i < before.friction.friction_patterns@.len(),
        !session.test_failure_tools@.dom().contains(before.friction.friction_patterns@[i].tool@),
    ensures
        ({
            let was = before.friction.friction_patterns@[i]@;
            let weight = faded(calc, was.weight);
            enough(weight) || was.status == "confirmed"@ ==> listed_pattern(
                pattern_views(after.friction.friction_patterns@),
                PatternView { weight, ..was },
            )
        }),
        0 <= j < after.friction.friction_patterns@.len() ==> enough(
            after.friction.friction_patterns@[j].weight,
        ) || after.friction.friction_patterns@[j].status@ == "confirmed"@,
{
    let patterns = pattern_views(before.friction.friction_patterns@);
    let reports = views(before.identity.friction_self_reported@);
    let was = patterns[i];
    assert(was == before.friction.friction_patterns@[i]@);
    let start = decayed_patterns(calc, patterns);
    let tools = names(session.test_failure_tools.entries@);
    lemma_names(session.test_failure_tools, was.tool);
    lemma_not_hit(calc, start, session, reports, tools, tools.len() as int);
    assert(tools.take(tools.len() as int) =~= tools);
    let hits = all_hit(calc, start, session, reports, tools, tools.len() as int);
    assert(hits[i] == start[i]);
    let all = patterns_after(calc, patterns, session, reports);
    if lasting_pattern()(hits[i]) {
        lemma_filtered_has(hits, lasting_pattern(), i, hits.len() as int);
        let m = choose|m: int| 0 <= m < all.len() && all[m] == hits[i];
        assert(pattern_views(after.friction.friction_patterns@)[m] == hits[i]);
    }
    lemma_filtered_holds(hits, lasting_pattern(), hits.len() as int);
    if 0 <= j < after.friction.friction_patterns@.len() {
        assert(all[j] == after.friction.friction_patterns@[j]@);
        assert(lasting_pattern()(all[j]));
    }
}

// ---------------------------------------------------------------------
// Commands
// ---------------------------------------------------------------------

/// The two commands were run one right after the other.
pub open spec fn in_a_row(commands: Seq<String>, pair: Seq<Seq<char>>) -> bool {
    exists|k: int|
        0 <= k < commands.len() - 1 && pair == seq![
            (#[trigger] commands[k])@,
            commands[k + 1]@,
        ]
}

proof fn lemma_in_a_row(commands: Seq<String>, pair: Seq<Seq<char>>, n: int)
    requires
        0 <= n <= commands.len(),
    ensures
        bigrams(views(commands), n).contains(pair) <==> exists|k: int|
            0 <= k < n - 1 && pair == seq![(#[trigger] commands[k])@, commands[k + 1]@],
    decreases n,
{
    let all = views(commands);
    if n > 1 {
        lemma_in_a_row(commands, pair, n - 1);
        let earlier = bigrams(all, n - 1);
        let now = bigrams(all, n);
        let last = seq![commands[n - 2]@, commands[n - 1]@];
        assert(all[n - 2] == commands[n - 2]@ && all[n - 1] == commands[n - 1]@);
        assert(now == if earlier.contains(last) {
            earlier
        } else {
            earlier.push(last)
        });
        if !earlier.contains(last) {
            assert(now[earlier.len() as int] == last);
            if earlier.contains(pair) {
                let m = choose|m: int| 0 <= m < earlier.len() && earlier[m] == pair;
                assert(now[m] == pair);
            }
            if now.contains(pair) && pair != last {
                let m = choose|m: int| 0 <= m < now.len() && now[m] == pair;
                assert(earlier[m] == pair);
            }
        }
        if pair == last {
            assert(pair == seq![commands[(n - 2)]@, commands[(n - 2) + 1]@]);
        }
        if exists|k: int|
            0 <= k < n - 1 && pair == seq![(#[trigger] commands[k])@, commands[k + 1]@] {
            let k = choose|k: int|
                0 <= k < n - 1 && pair == seq![(#[trigger] commands[k])@, commands[k + 1]@];
            if k == n - 2 {
                assert(pair == last);
            }
        }
    } else {
        assert(!bigrams(all, n).contains(pair));
    }
}

proof fn lemma_sequence_position(
    sequences: Seq<CommandsView>,
    pair: Seq<Seq<char>>,
    i: int,
    from: int,
)
    requires
        0 <= from <= i < sequences.len(),
        sequences[i].seq == pair,
        forall|j: int| 0 <= j < i ==> (#[trigger] sequences[j]).seq != pair,
    ensures
        sequence_at(sequences, pair, from) == Some(i),
    decreases i - from,
{
    if from < i {
        assert(sequences[from].seq != pair);
        lemma_sequence_position(sequences, pair, i, from + 1);
    }
}

proof fn lemma_no_sequence(sequences: Seq<CommandsView>, pair: Seq<Seq<char>>, from: int)
    requires
        0 <= from,
        forall|j: int| 0 <= j < sequences.len() ==> (#[trigger] sequences[j]).seq != pair,
    ensures
        sequence_at(sequences, pair, from) is None,
    decreases sequences.len() - from,
{
    if from < sequences.len() {
        assert(sequences[from].seq != pair);
        lemma_no_sequence(sequences, pair, from + 1);
    }
}

proof fn lemma_sequence_left_alone<C: Calculator>(
    calc: C,
    sequences: Seq<CommandsView>,
    end_ts: u64,
    project: Option<Seq<char>>,
    pairs: Seq<Seq<Seq<char>>>,
    i: int,
    m: int,
    n: int,
)
    requires
        0 <= m <= n <= pairs.len(),
        0 <= i < sequences_run(calc, sequences, end_ts, project, pairs, m).len(),
        forall|k: int|
            m <= k < n ==> #[trigger] pairs[k] != sequences_run(
                calc,
                sequences,
                end_ts,
                project,
                pairs,
                m,
            )[i].seq,
    ensures
        sequences_run(calc, sequences, end_ts, project, pairs, n).len() > i,
        sequences_run(calc, sequences, end_ts, project, pairs, n)[i] == sequences_run(
            calc,
            sequences,
            end_ts,
            project,
            pairs,
            m,
        )[i],
    decreases n - m,
{
    if m < n {
        lemma_sequence_left_alone(calc, sequences, end_ts, project, pairs, i, m, n - 1);
        let earlier = sequences_run(calc, sequences, end_ts, project, pairs, n - 1);
        lemma_sequence_at(earlier, pairs[n - 1], 0);
    }
}

/// `is` is a pair of commands after a session that ran it: it counts one
/// session more, weighs a tenth for each session up to one, is confirmed from
/// the fifth session on, and lists the session's project, once.
pub open spec fn run_again<C: Calculator>(
    calc: C,
    was: CommandsView,
    session: &SessionIntent,
    is: CommandsView,
) -> bool {
    let project = opt_view(session.primary_project);
    &&& is.seq == was.seq
    &&& is.count == was.count + 1
    &&& is.last_seen == session.end_ts
    &&& is.weight == up_to_one(calc, (was.count + 1) as u64, 0x4024_0000_0000_0000)
    &&& was.count + 1 >= 5 ==> is.status == "confirmed"@
    &&& was.count + 1 < 5 ==> is.status == was.status
    &&& project is None || was.projects.contains(project->0) ==> is.projects == was.projects
    &&& project is Some && !was.projects.contains(project->0) ==> is.projects == was.projects.push(
        project->0,
    )
}

/// What becomes of a pair of commands that weighs enough or is confirmed: it
/// is recorded, unless there are twenty others that weigh no less.
pub open spec fn recorded_by_weight(sequences: Seq<CommandsView>, is: CommandsView) -> bool {
    enough(is.weight) || is.status == "confirmed"@ ==> sequences.contains(is) || sequences.len()
        == 20 && forall|k: int|
        0 <= k < sequences.len() ==> (#[trigger] sequences[k]).weight.rank() >= is.weight.rank()
}

proof fn lemma_recorded<C: Calculator>(
    calc: C,
    sequences: Seq<CommandsView>,
    session: &SessionIntent,
    i: int,
)
    requires
        ({
            let pairs = bigrams(
                views(session.command_sequence@),
                session.command_sequence@.len() as int,
            );
            let runs = sequences_run(
                calc,
                decayed_sequences(calc, sequences),
                session.end_ts,
                opt_view(session.primary_project),
                pairs,
                pairs.len() as int,
            );
            0 <= i < runs.len()
        }),
    ensures
        ({
            let pairs = bigrams(
                views(session.command_sequence@),
                session.command_sequence@.len() as int,
            );
            let runs = sequences_run(
                calc,
                decayed_sequences(calc, sequences),
                session.end_ts,
                opt_view(session.primary_project),
                pairs,
                pairs.len() as int,
            );
            recorded_by_weight(sequences_after(calc, sequences, session), runs[i])
        }),
{
    let pairs = bigrams(views(session.command_sequence@), session.command_sequence@.len() as int);
    let runs = sequences_run(
        calc,
        decayed_sequences(calc, sequences),
        session.end_ts,
        opt_view(session.primary_project),
        pairs,
        pairs.len() as int,
    );
    lemma_heaviest(runs, lasting_sequence(), sequence_rank(), 20);
    let kept = sequences_after(calc, sequences, session);
    assert(views(session.command_sequence@).len() == session.command_sequence@.len());
    let is = runs[i];
    if enough(is.weight) || is.status == "confirmed"@ {
        assert(lasting_sequence()(runs[i]));
        if !kept.contains(runs[i]) {
            assert forall|k: int| 0 <= k < kept.len() implies (#[trigger] kept[k]).weight.rank()
                >= is.weight.rank() by {
                assert(sequence_rank()(kept[k]) >= sequence_rank()(runs[i]));
            }
        }
    }
}

/// A known pair of commands that the session ran in a row counts it once,
/// however often it was run; one that it did not run only fades.
pub proof fn law_known_commands_count_the_session<C: Calculator>(
    calc: C,
    before: UserProfile,
    session: &SessionIntent,
    recent: Seq<SessionIntent>,
    after: UserProfile,
    i: int,
)
    requires
        distilled(calc, before, session, recent, after),
        0 <= i < before.friction.command_sequences@.len(),
        before.friction.command_sequences@[i].count < u32::MAX,
        forall|j: int|
            0 <= j < i ==> (#[trigger] before.friction.command_sequences@[j])@.seq
                != before.friction.command_sequences@[i]@.seq,
    ensures
        ({
            let was = before.friction.command_sequences@[i]@;
            let ran = in_a_row(session.command_sequence@, was.seq);
            let left = command_views(after.friction.command_sequences@);
            &&& ran ==> exists|is: CommandsView| #[trigger]
                run_again(calc, was, session, is) && recorded_by_weight(left, is)
            &&& !ran ==> recorded_by_weight(
                left,
                CommandsView { weight: faded(calc, was.weight), ..was },
            )
            &&& left.len() <= 20
        }),
{
    let sequences = command_views(before.friction.command_sequences@);
    let was = sequences[i];
    assert(was == before.friction.command_sequences@[i]@);
    let start = decayed_sequences(calc, sequences);
    let commands = views(session.command_sequence@);
    let n = session.command_sequence@.len() as int;
    let pairs = bigrams(commands, n);
    let project = opt_view(session.primary_project);
    lemma_in_a_row(session.command_sequence@, was.seq, n);
    lemma_bigrams(commands, n);
    lemma_not_run(calc, start, session.end_ts, project, pairs, pairs.len() as int);
    assert(pairs.take(pairs.len() as int) =~= pairs);
    let runs = sequences_run(calc, start, session.end_ts, project, pairs, pairs.len() as int);
    lemma_recorded(calc, sequences, session, i);
    super::friction::law_few_sequences(calc, sequences, session);
    if pairs.contains(was.seq) {
        let k = choose|k: int| 0 <= k < pairs.len() && pairs[k] == was.seq;
        let earlier = sequences_run(calc, start, session.end_ts, project, pairs, k);
        lemma_not_run(calc, start, session.end_ts, project, pairs, k);
        assert(!pairs.take(k).contains(was.seq)) by {
            if pairs.take(k).contains(was.seq) {
                let m = choose|m: int| 0 <= m < k && pairs.take(k)[m] == was.seq;
                assert(pairs[m] != pairs[k]);
            }
        }
        assert(earlier[i] == start[i]);
        assert forall|j: int| 0 <= j < i implies (#[trigger] earlier[j]).seq != was.seq by {
            assert(before.friction.command_sequences@[j]@.seq
                != before.friction.command_sequences@[i]@.seq);
            assert(earlier[j].seq == start[j].seq);
        }
        lemma_sequence_position(earlier, was.seq, i, 0);
        let is = rerun(calc, start[i], session.end_ts, project);
        assert(sequences_run(calc, start, session.end_ts, project, pairs, k + 1)[i] == is);
        lemma_sequence_left_alone(
            calc,
            start,
            session.end_ts,
            project,
            pairs,
            i,
            k + 1,
            pairs.len() as int,
        );
        assert(runs[i] == is);
        assert(run_again(calc, was, session, is));
    } else {
        assert(runs[i] == start[i]);
    }
}

/// A pair of commands that is new starts as a candidate, with this session as
/// its first.
pub proof fn law_new_commands_are_candidates<C: Calculator>(
    calc: C,
    before: UserProfile,
    session: &SessionIntent,
    recent: Seq<SessionIntent>,
    after: UserProfile,
    pair: Seq<Seq<char>>,
)
    requires
        distilled(calc, before, session, recent, after),
        in_a_row(session.command_sequence@, pair),
        forall|j: int|
            0 <= j < before.friction.command_sequences@.len() ==> (
            #[trigger] before.friction.command_sequences@[j])@.seq != pair,
    ensures
        exists|is: CommandsView| #[trigger]
            run_again(
                calc,
                CommandsView {
                    seq: pair,
                    count: 0,
                    last_seen: 0,
                    weight: zero(),
                    status: "candidate"@,
                    projects: Seq::empty(),
                },
                session,
                is,
            ) && recorded_by_weight(command_views(after.friction.command_sequences@), is),
{
    let sequences = command_views(before.friction.command_sequences@);
    let start = decayed_sequences(calc, sequences);
    let commands = views(session.command_sequence@);
    let n = session.command_sequence@.len() as int;
    let pairs = bigrams(commands, n);
    let project = opt_view(session.primary_project);
    lemma_in_a_row(session.command_sequence@, pair, n);
    lemma_bigrams(commands, n);
    let k = choose|k: int| 0 <= k < pairs.len() && pairs[k] == pair;
    let earlier = sequences_run(calc, start, session.end_ts, project, pairs, k);
    lemma_not_run(calc, start, session.end_ts, project, pairs, k);
    assert forall|j: int| 0 <= j < earlier.len() implies (#[trigger] earlier[j]).seq != pair by {
        if j < start.len() {
            assert(before.friction.command_sequences@[j]@.seq != pair);
            assert(earlier[j].seq == start[j].seq);
        } else {
            assert(pairs.take(k).contains(earlier[j].seq));
            let m = choose|m: int| 0 <= m < k && pairs.take(k)[m] == earlier[j].seq;
            assert(pairs[m] != pairs[k]);
        }
    }
    lemma_no_sequence(earlier, pair, 0);
    let is = rerun(calc, new_sequence(pair), session.end_ts, project);
    let i = earlier.len() as int;
    assert(sequences_run(calc, start, session.end_ts, project, pairs, k + 1)[i] == is);
    lemma_sequence_left_alone(
        calc,
        start,
        session.end_ts,
        project,
        pairs,
        i,
        k + 1,
        pairs.len() as int,
    );
    lemma_recorded(calc, sequences, session, i);
    assert(run_again(calc, new_sequence(pair), session, is));
}

// ---------------------------------------------------------------------
// Resolutions
// ---------------------------------------------------------------------

/// How many of the resolutions are of the given kind.
pub open spec fn resolved_by(resolutions: Seq<String>, way: Seq<char>) -> nat {
    resolutions.filter(|r: String| r@ == way).len()
}

proof fn lemma_resolved_by(resolutions: Seq<String>, way: Seq<char>, n: int)
    requires
        0 <= n <= resolutions.len(),
    ensures
        strategy_count(views(resolutions), way, n) == resolved_by(resolutions.take(n), way),
    decreases n,
{
    reveal(Seq::filter);
    let f = |r: String| r@ == way;
    if n > 0 {
        lemma_resolved_by(resolutions, way, n - 1);
        assert(resolutions.take(n).drop_last() =~= resolutions.take(n - 1));
        assert(resolutions.take(n).last() == resolutions[n - 1]);
        assert(f(resolutions[n - 1]) == (resolutions[n - 1]@ == way));
        assert(views(resolutions)[n - 1] == resolutions[n - 1]@);
    } else {
        assert(resolutions.take(n).filter(f).len() == 0);
    }
}

/// After a session with test failures, each of the three ways to deal with an
/// error loop moves toward its share in the session's resolutions; without
/// any, nothing changes.
pub proof fn law_ways_out_move_toward_their_share<C: Calculator>(
    calc: C,
    before: UserProfile,
    session: &SessionIntent,
    recent: Seq<SessionIntent>,
    after: UserProfile,
    way: Seq<char>,
)
    requires
        distilled(calc, before, session, recent, after),
        way == "doc_lookup"@ || way == "trial_error"@ || way == "step_away"@,
    ensures
        ({
            let all = session.friction_resolutions@;
            let was = super::friction::paths_in(before.friction.resolution_paths@, "error_loop"@);
            let is = super::friction::paths_in(after.friction.resolution_paths@, "error_loop"@);
            &&& all.len() == 0 ==> after.friction.resolution_paths
                == before.friction.resolution_paths
            &&& all.len() > 0 ==> is.dom().contains(way) && is[way] == toward(
                calc,
                value_or(was, way, zero()),
                quotient(
                    calc,
                    whole(calc, resolved_by(all, way) as u64),
                    whole(calc, all.len() as u64),
                ),
            )
        }),
{
    let all = session.friction_resolutions@;
    reveal_strlit("doc_lookup");
    reveal_strlit("trial_error");
    reveal_strlit("step_away");
    assert("doc_lookup"@.len() == 10 && "trial_error"@.len() == 11 && "step_away"@.len() == 9);
    lemma_resolved_by(all, way, all.len() as int);
    assert(all.take(all.len() as int) =~= all);
    assert(views(all).len() == all.len());
}

// ---------------------------------------------------------------------
// Complaints
// ---------------------------------------------------------------------

/// A report is about a tool, tests or debugging, whatever the capitals.
pub open spec fn is_complaint(report: Seq<char>, tool: Seq<char>) -> bool {
    let lower = lowercase(report);
    holds(lower, lowercase(tool)) || holds(lower, "test"@) || holds(lower, "debug"@)
}

/// The test failures of a tool are a confirmed pattern.
pub open spec fn confirmed_pattern(patterns: Seq<PatternView>, tool: Seq<char>, i: int) -> bool {
    is_pattern_of(patterns, tool, i) && patterns[i].status == "confirmed"@
}

proof fn lemma_complaint(report: Seq<char>, tool: Seq<char>)
    ensures
        is_complaint(report, tool) == super::friction::about(lowercase(report), lowercase(tool)),
{
    lemma_holds(lowercase(report), lowercase(tool));
    lemma_holds(lowercase(report), "test"@);
    lemma_holds(lowercase(report), "debug"@);
}

proof fn lemma_pattern_found(patterns: Seq<PatternView>, tool: Seq<char>, from: int)
    requires
        0 <= from,
    ensures
        pattern_at(patterns, tool, from) matches Some(i) ==> {
            &&& from <= i < patterns.len()
            &&& patterns[i].tool == tool
            &&& patterns[i].error_class == "test_failure"@
            &&& forall|j: int|
                from <= j < i ==> !((#[trigger] patterns[j]).tool == tool
                    && patterns[j].error_class == "test_failure"@)
        },
    decreases patterns.len() - from,
{
    if from < patterns.len() {
        lemma_pattern_found(patterns, tool, from + 1);
    }
}

proof fn lemma_listed_report(
    confirmed: Seq<Seq<char>>,
    reports: Seq<Seq<char>>,
    tool: Seq<char>,
    report: Seq<char>,
    n: int,
)
    requires
        0 <= n <= reports.len(),
    ensures
        super::friction::with_reports(confirmed, reports, tool, n).contains(report)
            <==> confirmed.contains(report) || reports.take(n).contains(report) && is_complaint(
            report,
            tool,
        ),
    decreases n,
{
    if n > 0 {
        lemma_listed_report(confirmed, reports, tool, report, n - 1);
        lemma_complaint(reports[n - 1], tool);
        let before = super::friction::with_reports(confirmed, reports, tool, n - 1);
        let after = super::friction::with_reports(confirmed, reports, tool, n);
        let last = reports[n - 1];
        let some = reports.take(n - 1);
        let all = reports.take(n);
        assert(all =~= some.push(last));
        assert(all.contains(report) <==> some.contains(report) || report == last) by {
            if some.contains(report) {
                let k = choose|k: int| 0 <= k < some.len() && some[k] == report;
                assert(all[k] == report);
            }
            if report == last {
                assert(all[n - 1] == report);
            }
            if all.contains(report) {
                let k = choose|k: int| 0 <= k < all.len() && all[k] == report;
                if k < n - 1 {
                    assert(some[k] == report);
                }
            }
        }
        if after != before {
            assert(after == before.push(last));
            assert(after[before.len() as int] == last);
            if before.contains(report) {
                let k = choose|k: int| 0 <= k < before.len() && before[k] == report;
                assert(after[k] == report);
            }
            if after.contains(report) && report != last {
                let k = choose|k: int| 0 <= k < after.len() && after[k] == report;
                assert(before[k] == report);
            }
        }
    } else {
        assert(!reports.take(0).contains(report));
    }
}

proof fn lemma_confirmed_report(
    confirmed: Seq<Seq<char>>,
    patterns: Seq<PatternView>,
    reports: Seq<Seq<char>>,
    tools: Seq<Seq<char>>,
    report: Seq<char>,
    n: int,
)
    requires
        0 <= n <= tools.len(),
    ensures
        super::friction::confirmed_after(confirmed, patterns, reports, tools, n).contains(report)
            <==> confirmed.contains(report) || reports.contains(report) && exists|k: int|
            0 <= k < n && super::friction::confirmed_for(patterns, #[trigger] tools[k])
                && is_complaint(report, tools[k]),
    decreases n,
{
    if n > 0 {
        lemma_confirmed_report(confirmed, patterns, reports, tools, report, n - 1);
        let before = super::friction::confirmed_after(confirmed, patterns, reports, tools, n - 1);
        let tool = tools[n - 1];
        lemma_listed_report(before, reports, tool, report, reports.len() as int);
        assert(reports.take(reports.len() as int) =~= reports);
        if exists|k: int|
            0 <= k < n && super::friction::confirmed_for(patterns, #[trigger] tools[k])
                && is_complaint(report, tools[k]) {
            let k = choose|k: int|
                0 <= k < n && super::friction::confirmed_for(patterns, #[trigger] tools[k])
                    && is_complaint(report, tools[k]);
            if k < n - 1 {
                assert(0 <= k < n - 1);
            }
        }
        if exists|k: int|
            0 <= k < n - 1 && super::friction::confirmed_for(patterns, #[trigger] tools[k])
                && is_complaint(report, tools[k]) {
            let k = choose|k: int|
                0 <= k < n - 1 && super::friction::confirmed_for(patterns, #[trigger] tools[k])
                    && is_complaint(report, tools[k]);
            assert(0 <= k < n);
        }
    }
}

/// What the user complained about is confirmed once, and only once, the tests
/// of a tool that it is about failed in a session after which their pattern is
/// confirmed; and what was confirmed stays so.
pub proof fn law_complaints_are_confirmed_by_patterns<C: Calculator>(
    calc: C,
    before: UserProfile,
    session: &SessionIntent,
    recent: Seq<SessionIntent>,
    after: UserProfile,
    report: Seq<char>,
)
    requires
        distilled(calc, before, session, recent, after),
        session.wf(),
    ensures
        views(after.friction.friction_confirmed@).contains(report) <==> views(
            before.friction.friction_confirmed@,
        ).contains(report) || views(before.identity.friction_self_reported@).contains(report)
            && exists|tool: Seq<char>, i: int| #[trigger]
            confirmed_pattern(pattern_views(after.friction.friction_patterns@), tool, i)
                && session.test_failure_tools@.dom().contains(tool) && is_complaint(report, tool),
{
    let patterns = pattern_views(after.friction.friction_patterns@);
    let reports = views(before.identity.friction_self_reported@);
    let tools = names(session.test_failure_tools.entries@);
    let n = tools.len() as int;
    lemma_confirmed_report(
        views(before.friction.friction_confirmed@),
        patterns,
        reports,
        tools,
        report,
        n,
    );
    if exists|k: int|
        0 <= k < n && super::friction::confirmed_for(patterns, #[trigger] tools[k]) && is_complaint(
            report,
            tools[k],
        ) {
        let k = choose|k: int|
            0 <= k < n && super::friction::confirmed_for(patterns, #[trigger] tools[k])
                && is_complaint(report, tools[k]);
        lemma_pattern_found(patterns, tools[k], 0);
        lemma_names(session.test_failure_tools, tools[k]);
        assert(tools.contains(tools[k]));
        let i = pattern_at(patterns, tools[k], 0)->0;
        assert(confirmed_pattern(patterns, tools[k], i));
    }
    if exists|tool: Seq<char>, i: int| #[trigger]
        confirmed_pattern(patterns, tool, i) && session.test_failure_tools@.dom().contains(tool)
            && is_complaint(report, tool) {
        let (tool, i) = choose|tool: Seq<char>, i: int| #[trigger]
            confirmed_pattern(patterns, tool, i) && session.test_failure_tools@.dom().contains(tool)
                && is_complaint(report, tool);
        lemma_pattern_position(patterns, tool, i, 0);
        lemma_names(session.test_failure_tools, tool);
        let k = choose|k: int| 0 <= k < tools.len() && tools[k] == tool;
        assert(super::friction::confirmed_for(patterns, tools[k]));
    }
}

} // verus!
