//! Projects: which ones were worked on, on which branches, in which phases.

use super::super::SessionIntent;
use super::{names, EMA_ALPHA};
use crate::arithmetic::{ema, moved, reliable, share, share_of, Calculator};
use crate::lists::{filtered, filtered_to};
use crate::profile::{Project, Projects};
use crate::quantity::{Quantity, ZERO};
use crate::table::{sum_counts, total, Table};
use crate::text::{clone_texts, lemma_views_push, opt_view, same, views};
use vstd::prelude::*;

verus! {

pub const MAX_ACTIVE_BRANCHES: usize = 5;

// ---------------------------------------------------------------------
// Views
// ---------------------------------------------------------------------

#[verifier::ext_equal]
pub struct ProjectView {
    pub id: Seq<char>,
    pub name: Seq<char>,
    pub root: Seq<char>,
    pub primary_stack: Seq<Seq<char>>,
    pub last_active: u64,
    pub session_count: nat,
    pub phase_distribution: Map<Seq<char>, Quantity>,
    pub active_branches: Seq<Seq<char>>,
    pub collaborators: Seq<Seq<char>>,
}

impl View for Project {
    type V = ProjectView;

    open spec fn view(&self) -> ProjectView {
        ProjectView {
            id: self.id@,
            name: self.name@,
            root: self.root@,
            primary_stack: views(self.primary_stack@),
            last_active: self.last_active,
            session_count: self.session_count as nat,
            phase_distribution: self.phase_distribution@,
            active_branches: views(self.active_branches@),
            collaborators: views(self.collaborators@),
        }
    }
}

pub open spec fn project_views(projects: Seq<Project>) -> Seq<ProjectView> {
    Seq::new(projects.len(), |i: int| projects[i]@)
}

// ---------------------------------------------------------------------
// Phases
// ---------------------------------------------------------------------

pub open spec fn share_in(shares: Map<Seq<char>, Quantity>, phase: Seq<char>) -> Quantity {
    if shares.dom().contains(phase) {
        shares[phase]
    } else {
        Quantity { bits: ZERO }
    }
}

/// The share of a phase of a session.
pub open spec fn phase_share<C: Calculator>(
    calc: C,
    counts: Map<Seq<char>, u64>,
    total: u64,
    phase: Seq<char>,
) -> Quantity {
    if counts.dom().contains(phase) {
        share_of(calc, counts[phase], total)
    } else {
        Quantity { bits: ZERO }
    }
}

/// The distribution over phases after a session: each phase moves toward its
/// share of the session. Phases that the session did not touch decay toward
/// zero, so that the distribution stays roughly normalized over time.
pub open spec fn phases_after<C: Calculator>(
    calc: C,
    shares: Map<Seq<char>, Quantity>,
    counts: Map<Seq<char>, u64>,
    total: u64,
) -> Map<Seq<char>, Quantity> {
    if total > 0 {
        Map::new(
            |phase: Seq<char>| shares.dom().contains(phase) || counts.dom().contains(phase),
            |phase: Seq<char>|
                moved(
                    calc,
                    share_in(shares, phase),
                    phase_share(calc, counts, total, phase),
                    Quantity { bits: EMA_ALPHA },
                ),
        )
    } else {
        shares
    }
}

fn update_phases<C: Calculator>(
    calc: C,
    shares: &mut Table<Quantity>,
    counts: &Table<u64>,
    total: u64,
)
    requires
        reliable(calc),
        old(shares).wf(),
        counts.wf(),
    ensures
        final(shares).wf(),
        final(shares)@ == phases_after(calc, old(shares)@, counts@, total),
{
    if total == 0 {
        return;
    }
    let alpha = Quantity { bits: EMA_ALPHA };
    let zero = Quantity { bits: ZERO };
    let ghost target = phases_after(calc, shares@, counts@, total);
    let mut out: Table<Quantity> = Table::new();
    for i in 0..shares.entries.len()
        invariant
            reliable(calc),
            total > 0,
            alpha.bits == EMA_ALPHA,
            zero.bits == ZERO,
            shares.wf(),
            *shares == *old(shares),
            target == phases_after(calc, shares@, counts@, total),
            out.wf(),
            forall|phase: Seq<char>| #[trigger]
                out@.dom().contains(phase) ==> shares@.dom().contains(phase) && out@[phase]
                    == target[phase],
            forall|j: int|
                0 <= j < i ==> out@.dom().contains((#[trigger] shares.entries@[j]).0@),
    {
        proof {
            shares.lemma_entry(i as int);
        }
        let phase = shares.entries[i].0.as_str();
        let sample = match counts.get(phase) {
            Some(n) => share(calc, *n, total),
            None => zero,
        };
        out.set(phase, ema(calc, shares.entries[i].1, sample, alpha));
    }
    for i in 0..counts.entries.len()
        invariant
            reliable(calc),
            total > 0,
            alpha.bits == EMA_ALPHA,
            zero.bits == ZERO,
            shares.wf(),
            counts.wf(),
            *shares == *old(shares),
            target == phases_after(calc, shares@, counts@, total),
            out.wf(),
            forall|phase: Seq<char>| #[trigger]
                out@.dom().contains(phase) ==> target.dom().contains(phase) && out@[phase]
                    == target[phase],
            forall|j: int|
                0 <= j < shares.entries@.len() ==> out@.dom().contains(
                    (#[trigger] shares.entries@[j]).0@,
                ),
            forall|j: int|
                0 <= j < i ==> out@.dom().contains((#[trigger] counts.entries@[j]).0@),
    {
        proof {
            counts.lemma_entry(i as int);
        }
        let phase = counts.entries[i].0.as_str();
        let before = match shares.get(phase) {
            Some(s) => *s,
            None => zero,
        };
        out.set(phase, ema(calc, before, share(calc, counts.entries[i].1, total), alpha));
    }
    proof {
        assert forall|phase: Seq<char>| #[trigger]
            target.dom().contains(phase) implies out@.dom().contains(phase) by {
            if shares@.dom().contains(phase) {
                let k = shares.lemma_has_entry(phase);
                assert(out@.dom().contains(shares.entries@[k].0@));
            } else {
                let k = counts.lemma_has_entry(phase);
                assert(out@.dom().contains(counts.entries@[k].0@));
            }
        }
        assert(out@ =~= target);
    }
    *shares = out;
}

// ---------------------------------------------------------------------
// Branches
// ---------------------------------------------------------------------

pub open spec fn other_than(branch: Seq<char>) -> spec_fn(Seq<char>) -> bool {
    |b: Seq<char>| b != branch
}

/// The branches after work on the first `n` of `seen`: the latest is last.
pub open spec fn worked_on(branches: Seq<Seq<char>>, seen: Seq<Seq<char>>, n: int) -> Seq<Seq<char>>
    decreases n,
{
    if n <= 0 {
        branches
    } else {
        filtered(worked_on(branches, seen, n - 1), other_than(seen[n - 1])).push(seen[n - 1])
    }
}

/// The last branches, five at most.
pub open spec fn latest_branches(branches: Seq<Seq<char>>) -> Seq<Seq<char>> {
    if branches.len() > MAX_ACTIVE_BRANCHES {
        branches.skip(branches.len() - MAX_ACTIVE_BRANCHES)
    } else {
        branches
    }
}

/// The branches after a session that saw the given ones, if any.
pub open spec fn branches_after(branches: Seq<Seq<char>>, seen: Option<Seq<Seq<char>>>) -> Seq<
    Seq<char>,
> {
    match seen {
        Some(seen) => latest_branches(worked_on(branches, seen, seen.len() as int)),
        None => branches,
    }
}

/// The branches of a project that a session saw.
pub open spec fn seen_in(map: Map<Seq<char>, Vec<String>>, project: Seq<char>) -> Option<
    Seq<Seq<char>>,
> {
    if map.dom().contains(project) {
        Some(views(map[project]@))
    } else {
        None
    }
}

fn without(branches: &Vec<String>, branch: &str) -> (r: Vec<String>)
    ensures
        views(r@) == filtered(views(branches@), other_than(branch@)),
{
    broadcast use lemma_views_push;

    let ghost all = views(branches@);
    let mut out: Vec<String> = Vec::new();
    assert(views(out@) =~= Seq::empty());
    for i in 0..branches.len()
        invariant
            all == views(branches@),
            views(out@) == filtered_to(all, other_than(branch@), i as int),
    {
        assert(all[i as int] == branches@[i as int]@);
        if !same(branches[i].as_str(), branch) {
            out.push(branches[i].clone());
        }
    }
    out
}

fn update_branches(branches: &mut Vec<String>, seen: &Vec<String>)
    ensures
        views(final(branches)@) == branches_after(views(old(branches)@), Some(views(seen@))),
{
    broadcast use lemma_views_push;

    let ghost before = views(branches@);
    let ghost all = views(seen@);
    for i in 0..seen.len()
        invariant
            all == views(seen@),
            views(branches@) == worked_on(before, all, i as int),
    {
        assert(all[i as int] == seen@[i as int]@);
        let mut rest = without(branches, seen[i].as_str());
        rest.push(seen[i].clone());
        *branches = rest;
    }
    let n: usize = branches.len();
    if n > MAX_ACTIVE_BRANCHES {
        let excess: usize = n - MAX_ACTIVE_BRANCHES;
        let ghost whole = branches@;
        let latest = branches.split_off(excess);
        assert(views(latest@) =~= views(whole).skip(excess as int));
        *branches = latest;
    }
}

// ---------------------------------------------------------------------
// Projects
// ---------------------------------------------------------------------

/// The position at or after `from` of the project with a name.
pub open spec fn project_at(projects: Seq<ProjectView>, name: Seq<char>, from: int) -> Option<int>
    decreases projects.len() - from,
{
    if from < 0 || from >= projects.len() {
        None
    } else if projects[from].name == name {
        Some(from)
    } else {
        project_at(projects, name, from + 1)
    }
}

/// A project that was not known before. Normalized events carry only the
/// project's directory name, so the root is not known.
pub open spec fn new_project(name: Seq<char>) -> ProjectView {
    ProjectView {
        id: name,
        name,
        root: Seq::empty(),
        primary_stack: Seq::empty(),
        last_active: 0,
        session_count: 0,
        phase_distribution: Map::empty(),
        active_branches: Seq::empty(),
        collaborators: Seq::empty(),
    }
}

/// A project after a session that touched it.
pub open spec fn project_after<C: Calculator>(
    calc: C,
    project: ProjectView,
    session: &SessionIntent,
) -> ProjectView {
    ProjectView {
        last_active: session.end_ts,
        session_count: project.session_count + 1,
        phase_distribution: phases_after(
            calc,
            project.phase_distribution,
            session.phase_counts@,
            total(session.phase_counts.entries@) as u64,
        ),
        active_branches: branches_after(
            project.active_branches,
            seen_in(session.project_branches@, project.name),
        ),
        ..project
    }
}

/// The projects after a session touched the one with the given name.
pub open spec fn touched<C: Calculator>(
    calc: C,
    projects: Seq<ProjectView>,
    session: &SessionIntent,
    name: Seq<char>,
) -> Seq<ProjectView> {
    match project_at(projects, name, 0) {
        Some(i) => projects.update(i, project_after(calc, projects[i], session)),
        None => projects.push(project_after(calc, new_project(name), session)),
    }
}

/// The projects after a session touched the first `n` of the names.
pub open spec fn all_touched<C: Calculator>(
    calc: C,
    projects: Seq<ProjectView>,
    session: &SessionIntent,
    names: Seq<Seq<char>>,
    n: int,
) -> Seq<ProjectView>
    decreases n,
{
    if n <= 0 {
        projects
    } else {
        touched(calc, all_touched(calc, projects, session, names, n - 1), session, names[n - 1])
    }
}

pub proof fn lemma_project_at(projects: Seq<ProjectView>, name: Seq<char>, from: int)
    requires
        0 <= from,
    ensures
        match project_at(projects, name, from) {
            Some(i) => from <= i < projects.len() && projects[i].name == name,
            None => forall|j: int|
                from <= j < projects.len() ==> (#[trigger] projects[j]).name != name,
        },
    decreases projects.len() - from,
{
    if from < projects.len() {
        lemma_project_at(projects, name, from + 1);
    }
}

/// A project that is not among the first `n` names stays as it was, and the
/// known projects stay where they are.
pub proof fn lemma_untouched<C: Calculator>(
    calc: C,
    projects: Seq<ProjectView>,
    session: &SessionIntent,
    names: Seq<Seq<char>>,
    n: int,
)
    requires
        0 <= n <= names.len(),
        names.no_duplicates(),
    ensures
        ({
            let after = all_touched(calc, projects, session, names, n);
            &&& after.len() >= projects.len()
            &&& forall|i: int|
                0 <= i < projects.len() ==> (#[trigger] after[i]).name == projects[i].name
            &&& forall|i: int|
                0 <= i < projects.len() && !names.take(n).contains(projects[i].name) ==> (
                #[trigger] after[i]) == projects[i]
            &&& forall|i: int|
                projects.len() <= i < after.len() ==> names.take(n).contains(
                    (#[trigger] after[i]).name,
                )
        }),
    decreases n,
{
    if n > 0 {
        lemma_untouched(calc, projects, session, names, n - 1);
        let before = all_touched(calc, projects, session, names, n - 1);
        let after = all_touched(calc, projects, session, names, n);
        let name = names[n - 1];
        lemma_project_at(before, name, 0);
        assert(names.take(n) =~= names.take(n - 1).push(name));
        assert(names.take(n).contains(name)) by {
            assert(names.take(n)[n - 1] == name);
        }
        assert forall|x: Seq<char>| names.take(n - 1).contains(x) implies #[trigger] names.take(
            n,
        ).contains(x) by {
            let some = names.take(n - 1);
            let k = choose|k: int| 0 <= k < some.len() && some[k] == x;
            assert(names.take(n)[k] == x);
        }
        assert forall|i: int|
            0 <= i < projects.len() && !names.take(n).contains(projects[i].name) implies (
        #[trigger] after[i]) == projects[i] by {
            assert(!names.take(n - 1).contains(projects[i].name));
            assert(before[i] == projects[i]);
        }
        assert forall|i: int| projects.len() <= i < after.len() implies names.take(n).contains(
            (#[trigger] after[i]).name,
        ) by {
            if i < before.len() {
                assert(names.take(n - 1).contains(before[i].name));
                assert(after[i].name == before[i].name);
            }
        }
    }
}

/// A project that a session did not touch stays as it was.
pub proof fn law_untouched_projects_stay<C: Calculator>(
    calc: C,
    projects: Seq<ProjectView>,
    session: &SessionIntent,
    names: Seq<Seq<char>>,
    i: int,
)
    requires
        names.no_duplicates(),
        0 <= i < projects.len(),
        !names.contains(projects[i].name),
    ensures
        all_touched(calc, projects, session, names, names.len() as int)[i] == projects[i],
{
    lemma_untouched(calc, projects, session, names, names.len() as int);
    assert(names.take(names.len() as int) =~= names);
}

pub proof fn lemma_project_at_same(
    a: Seq<ProjectView>,
    b: Seq<ProjectView>,
    name: Seq<char>,
    from: int,
)
    requires
        0 <= from,
        b.len() >= a.len(),
        forall|j: int| 0 <= j < a.len() ==> (#[trigger] b[j]).name == a[j].name,
    ensures
        project_at(a, name, from) is Some ==> project_at(b, name, from) == project_at(
            a,
            name,
            from,
        ),
    decreases a.len() - from,
{
    if from < a.len() {
        assert(b[from].name == a[from].name);
        lemma_project_at_same(a, b, name, from + 1);
    }
}

/// A project is left alone by the turns of other ones.
pub proof fn lemma_left_alone<C: Calculator>(
    calc: C,
    projects: Seq<ProjectView>,
    session: &SessionIntent,
    names: Seq<Seq<char>>,
    i: int,
    m: int,
    n: int,
)
    requires
        0 <= m <= n <= names.len(),
        0 <= i < all_touched(calc, projects, session, names, m).len(),
        forall|k: int|
            m <= k < n ==> #[trigger] names[k] != all_touched(
                calc,
                projects,
                session,
                names,
                m,
            )[i].name,
    ensures
        all_touched(calc, projects, session, names, n).len() > i,
        all_touched(calc, projects, session, names, n)[i] == all_touched(
            calc,
            projects,
            session,
            names,
            m,
        )[i],
    decreases n - m,
{
    if m < n {
        lemma_left_alone(calc, projects, session, names, i, m, n - 1);
        let before = all_touched(calc, projects, session, names, n - 1);
        lemma_project_at(before, names[n - 1], 0);
    }
}

/// A known project that a session touched has one more session after it, and
/// stays where it was.
pub proof fn law_touched_projects_are_counted<C: Calculator>(
    calc: C,
    projects: Seq<ProjectView>,
    session: &SessionIntent,
    names: Seq<Seq<char>>,
    k: int,
)
    requires
        names.no_duplicates(),
        0 <= k < names.len(),
        project_at(projects, names[k], 0) is Some,
    ensures
        ({
            let i = project_at(projects, names[k], 0)->0;
            let after = all_touched(calc, projects, session, names, names.len() as int);
            after.len() > i && after[i] == project_after(calc, projects[i], session)
        }),
{
    let name = names[k];
    let i = project_at(projects, name, 0)->0;
    lemma_project_at(projects, name, 0);
    let before = all_touched(calc, projects, session, names, k);
    lemma_untouched(calc, projects, session, names, k);
    lemma_project_at_same(projects, before, name, 0);
    let some = names.take(k);
    assert(!some.contains(name)) by {
        if some.contains(name) {
            let m = choose|m: int| 0 <= m < some.len() && some[m] == name;
            assert(names[m] == names[k]);
        }
    }
    assert(before[i] == projects[i]);
    lemma_left_alone(calc, projects, session, names, i, k + 1, names.len() as int);
}

/// A project never has more than five active branches after a session that
/// saw some.
pub proof fn law_few_branches(branches: Seq<Seq<char>>, seen: Seq<Seq<char>>)
    requires
        seen.len() > 0,
    ensures
        branches_after(branches, Some(seen)).len() <= MAX_ACTIVE_BRANCHES,
        branches_after(branches, Some(seen)).len() > 0,
        branches_after(branches, Some(seen)).last() == seen.last(),
{
}

fn copy_project(p: &Project) -> (r: Project)
    requires
        p.phase_distribution.wf(),
    ensures
        r@ == p@,
        r.session_count == p.session_count,
        r.phase_distribution.wf(),
{
    Project {
        id: p.id.clone(),
        name: p.name.clone(),
        root: p.root.clone(),
        primary_stack: clone_texts(&p.primary_stack),
        last_active: p.last_active,
        session_count: p.session_count,
        phase_distribution: copy_shares(&p.phase_distribution),
        active_branches: clone_texts(&p.active_branches),
        collaborators: clone_texts(&p.collaborators),
    }
}

pub(crate) fn copy_shares(t: &Table<Quantity>) -> (r: Table<Quantity>)
    requires
        t.wf(),
    ensures
        r.wf(),
        r@ == t@,
{
    let mut out: Table<Quantity> = Table::new();
    for i in 0..t.entries.len()
        invariant
            t.wf(),
            out.wf(),
            forall|name: Seq<char>| #[trigger]
                out@.dom().contains(name) ==> t@.dom().contains(name) && out@[name] == t@[name],
            forall|j: int| 0 <= j < i ==> out@.dom().contains((#[trigger] t.entries@[j]).0@),
    {
        proof {
            t.lemma_entry(i as int);
        }
        out.set(t.entries[i].0.as_str(), t.entries[i].1);
    }
    proof {
        assert forall|name: Seq<char>| #[trigger] t@.dom().contains(name) implies out@.dom().contains(
            name,
        ) by {
            let k = t.lemma_has_entry(name);
            assert(out@.dom().contains(t.entries@[k].0@));
        }
        assert(out@ =~= t@);
    }
    out
}

fn fresh_project(name: &str) -> (r: Project)
    ensures
        r@ == new_project(name@),
        r.phase_distribution.wf(),
{
    let project = Project {
        id: name.to_owned(),
        name: name.to_owned(),
        root: String::new(),
        primary_stack: Vec::new(),
        last_active: 0,
        session_count: 0,
        phase_distribution: Table::new(),
        active_branches: Vec::new(),
        collaborators: Vec::new(),
    };
    assert(project@ =~= new_project(name@));
    project
}

fn update_project<C: Calculator>(calc: C, project: &mut Project, session: &SessionIntent)
    requires
        reliable(calc),
        session.wf(),
        old(project).phase_distribution.wf(),
        old(project).session_count < u32::MAX,
        total(session.phase_counts.entries@) <= u64::MAX,
    ensures
        final(project)@ == project_after(calc, old(project)@, session),
        final(project).phase_distribution.wf(),
{
    let sum = sum_counts(&session.phase_counts);
    project.last_active = session.end_ts;
    project.session_count = project.session_count + 1;
    update_phases(calc, &mut project.phase_distribution, &session.phase_counts, sum);
    if let Some(seen) = session.project_branches.get(project.name.as_str()) {
        update_branches(&mut project.active_branches, seen);
    }
}

/// All projects can take one more session.
pub open spec fn projects_have_room(projects: Seq<Project>) -> bool {
    forall|i: int|
        0 <= i < projects.len() ==> (#[trigger] projects[i]).session_count < u32::MAX
            && projects[i].phase_distribution.wf()
}

/// `after` are the projects after a session.
pub open spec fn projects_after<C: Calculator>(
    calc: C,
    before: Projects,
    session: &SessionIntent,
    after: Projects,
) -> bool {
    let touched = names(session.project_event_counts.entries@);
    &&& project_views(after.projects@) == all_touched(
        calc,
        project_views(before.projects@),
        session,
        touched,
        touched.len() as int,
    )
    &&& opt_view(after.last_active_project) == match session.primary_project {
        Some(primary) => Some(primary@),
        None => opt_view(before.last_active_project),
    }
    &&& after.cross_project_patterns == before.cross_project_patterns
    &&& forall|i: int|
        0 <= i < after.projects@.len() ==> (
        #[trigger] after.projects@[i]).phase_distribution.wf()
}

/// Folds a session into the projects.
pub fn update_projects<C: Calculator>(projects: &mut Projects, session: &SessionIntent, calc: C)
    requires
        reliable(calc),
        session.wf(),
        projects_have_room(old(projects).projects@),
        total(session.phase_counts.entries@) <= u64::MAX,
    ensures
        projects_after(calc, *old(projects), session, *final(projects)),
{
    let ghost start = project_views(projects.projects@);
    let ghost all = names(session.project_event_counts.entries@);
    assert(all.no_duplicates());
    for k in 0..session.project_event_counts.entries.len()
        invariant
            reliable(calc),
            session.wf(),
            total(session.phase_counts.entries@) <= u64::MAX,
            all == names(session.project_event_counts.entries@),
            all.no_duplicates(),
            start == project_views(old(projects).projects@),
            projects_have_room(old(projects).projects@),
            project_views(projects.projects@) == all_touched(calc, start, session, all, k as int),
            forall|i: int|
                0 <= i < projects.projects@.len() ==> (
                #[trigger] projects.projects@[i]).phase_distribution.wf(),
            projects.last_active_project == old(projects).last_active_project,
            projects.cross_project_patterns == old(projects).cross_project_patterns,
    {
        let name = session.project_event_counts.entries[k].0.as_str();
        let ghost now = project_views(projects.projects@);
        assert(all[k as int] == name@);
        let mut i: usize = 0;
        while i < projects.projects.len() && !same(projects.projects[i].name.as_str(), name)
            invariant
                i <= projects.projects@.len(),
                now == project_views(projects.projects@),
                project_at(now, name@, i as int) == project_at(now, name@, 0),
            decreases projects.projects@.len() - i,
        {
            assert(now[i as int] == projects.projects@[i as int]@);
            i = i + 1;
        }
        if i < projects.projects.len() {
            proof {
                lemma_untouched(calc, start, session, all, k as int);
                assert(now[i as int] == projects.projects@[i as int]@);
                assert(!all.take(k as int).contains(name@)) by {
                    if all.take(k as int).contains(name@) {
                        let some = all.take(k as int);
                        let j = choose|j: int| 0 <= j < some.len() && some[j] == name@;
                        assert(all[j] == all[k as int]);
                    }
                }
                if i >= start.len() {
                    assert(all.take(k as int).contains(now[i as int].name));
                }
                assert(i < start.len());
                assert(now[i as int] == start[i as int]);
                assert(old(projects).projects@[i as int]@ == start[i as int]);
            }
            let mut project = copy_project(&projects.projects[i]);
            update_project(calc, &mut project, session);
            let ghost view = project@;
            projects.projects.set(i, project);
            assert(project_views(projects.projects@) =~= now.update(i as int, view));
        } else {
            let mut project = fresh_project(name);
            update_project(calc, &mut project, session);
            let ghost view = project@;
            projects.projects.push(project);
            assert(project_views(projects.projects@) =~= now.push(view));
        }
    }
    if let Some(primary) = &session.primary_project {
        projects.last_active_project = Some(primary.clone());
    }
}

} // verus!
