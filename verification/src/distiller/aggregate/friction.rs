//! Friction patterns: what recurrently blocks the user, and how they get on.

use super::super::summary::loop_at;
use super::super::{loop_views, SessionIntent};
use super::projects::share_in;
use super::{decay, decayed, heavy, is_heavy, names, EMA_ALPHA};
use crate::arithmetic::{
    cap, capped, ema, from_whole, moved, over, plus, product, quotient, reliable, share, share_of,
    sum, times, whole, Calculator,
};
use crate::lists::{
    filtered, filtered_to, first, lemma_filtered_has, lemma_filtered_holds, place_to, placed, ranked,
    ranked_to,
};
use crate::profile::{CommandSequence, Friction, FrictionPattern};
use crate::quantity::{Quantity, SIXTY, TEN, ZERO};
use crate::table::{sum_counts, total, Table};
use crate::text::{
    self, clone_texts, contains, lemma_views_push, lowercase, opt_view, same, views,
};
use vstd::prelude::*;

verus! {

/// Sessions a friction pattern must appear in before it is confirmed.
pub const FRICTION_PROMOTE_THRESHOLD: u32 = 3;

/// Sessions a command sequence must appear in before it is confirmed.
pub const COMMAND_SEQ_PROMOTE_THRESHOLD: u32 = 5;

pub const MAX_COMMAND_SEQUENCES: usize = 20;

// ---------------------------------------------------------------------
// Views
// ---------------------------------------------------------------------

#[verifier::ext_equal]
pub struct PatternView {
    pub id: Seq<char>,
    pub tool: Seq<char>,
    pub error_class: Seq<char>,
    pub status: Seq<char>,
    pub count: u32,
    pub blocked_min_total: Quantity,
    pub first_seen: u64,
    pub last_seen: u64,
    pub weight: Quantity,
    pub resolution_paths: Seq<Seq<char>>,
    pub self_reported_match: bool,
}

impl View for FrictionPattern {
    type V = PatternView;

    open spec fn view(&self) -> PatternView {
        PatternView {
            id: self.id@,
            tool: self.tool@,
            error_class: self.error_class@,
            status: self.status@,
            count: self.count,
            blocked_min_total: self.blocked_min_total,
            first_seen: self.first_seen,
            last_seen: self.last_seen,
            weight: self.weight,
            resolution_paths: views(self.resolution_paths@),
            self_reported_match: self.self_reported_match,
        }
    }
}

pub open spec fn pattern_views(patterns: Seq<FrictionPattern>) -> Seq<PatternView> {
    Seq::new(patterns.len(), |i: int| patterns[i]@)
}

#[verifier::ext_equal]
pub struct CommandsView {
    pub seq: Seq<Seq<char>>,
    pub count: u32,
    pub last_seen: u64,
    pub weight: Quantity,
    pub status: Seq<char>,
    pub projects: Seq<Seq<char>>,
}

impl View for CommandSequence {
    type V = CommandsView;

    open spec fn view(&self) -> CommandsView {
        CommandsView {
            seq: views(self.seq@),
            count: self.count,
            last_seen: self.last_seen,
            weight: self.weight,
            status: self.status@,
            projects: views(self.projects@),
        }
    }
}

pub open spec fn command_views(commands: Seq<CommandSequence>) -> Seq<CommandsView> {
    Seq::new(commands.len(), |i: int| commands[i]@)
}

// ---------------------------------------------------------------------
// Patterns
// ---------------------------------------------------------------------

/// The patterns after one more session.
pub open spec fn decayed_patterns<C: Calculator>(calc: C, patterns: Seq<PatternView>) -> Seq<
    PatternView,
> {
    Seq::new(
        patterns.len(),
        |i: int| PatternView { weight: decayed(calc, patterns[i].weight), ..patterns[i] },
    )
}

/// How long a session was blocked on a tool, in minutes: the duration of the
/// observed error loop, or else the share of the session that was spent on
/// debugging.
pub open spec fn blocked_min<C: Calculator>(
    calc: C,
    session: &SessionIntent,
    tool: Seq<char>,
) -> Quantity {
    match loop_at(loop_views(session.error_loops@), tool, 0) {
        Some(i) => quotient(
            calc,
            whole(calc, session.error_loops@[i].duration_sec),
            Quantity { bits: SIXTY },
        ),
        None => product(calc, session.duration_min, debugging_share(calc, session)),
    }
}

/// The share of a session that was spent on debugging.
pub open spec fn debugging_share<C: Calculator>(calc: C, session: &SessionIntent) -> Quantity {
    let sum = total(session.phase_counts.entries@);
    if sum > 0 {
        share_of(calc, session.phase_counts.count("debugging"@) as u64, sum as u64)
    } else {
        Quantity { bits: ZERO }
    }
}

/// A report is about a tool, tests or debugging; both are in lowercase.
pub open spec fn about(report: Seq<char>, tool: Seq<char>) -> bool {
    contains(report, tool) || contains(report, "test"@) || contains(report, "debug"@)
}

/// The user reported the friction with a tool: one of the reports is about the
/// tool, tests or debugging.
pub open spec fn reported(reports: Seq<Seq<char>>, tool: Seq<char>) -> bool {
    exists|i: int|
        0 <= i < reports.len() && about(lowercase(#[trigger] reports[i]), lowercase(tool))
}

/// The position at or after `from` of the test failures of a tool.
pub open spec fn pattern_at(patterns: Seq<PatternView>, tool: Seq<char>, from: int) -> Option<int>
    decreases patterns.len() - from,
{
    if from < 0 || from >= patterns.len() {
        None
    } else if patterns[from].tool == tool && patterns[from].error_class == "test_failure"@ {
        Some(from)
    } else {
        pattern_at(patterns, tool, from + 1)
    }
}

/// A pattern that was not known before.
pub open spec fn new_pattern(tool: Seq<char>, seen: u64) -> PatternView {
    PatternView {
        id: "fp_"@ + tool + "_test_failure"@,
        tool,
        error_class: "test_failure"@,
        status: "candidate"@,
        count: 0,
        blocked_min_total: Quantity { bits: ZERO },
        first_seen: seen,
        last_seen: seen,
        weight: Quantity { bits: ZERO },
        resolution_paths: Seq::empty(),
        self_reported_match: false,
    }
}

/// A pattern after a session in which it was observed. It is confirmed once
/// it was observed in enough sessions, and a confirmed one is held against
/// what the user reported.
pub open spec fn observed<C: Calculator>(
    calc: C,
    pattern: PatternView,
    session: &SessionIntent,
    reports: Seq<Seq<char>>,
) -> PatternView {
    let count = (pattern.count + 1) as u32;
    let status = if count >= FRICTION_PROMOTE_THRESHOLD {
        "confirmed"@
    } else {
        pattern.status
    };
    PatternView {
        count,
        blocked_min_total: sum(
            calc,
            pattern.blocked_min_total,
            blocked_min(calc, session, pattern.tool),
        ),
        last_seen: session.end_ts,
        weight: capped(calc, count as u64, Quantity { bits: TEN }),
        status,
        self_reported_match: pattern.self_reported_match || (status == "confirmed"@ && reported(
            reports,
            pattern.tool,
        )),
        ..pattern
    }
}

/// The patterns after the tests of a tool failed in a session.
pub open spec fn hit<C: Calculator>(
    calc: C,
    patterns: Seq<PatternView>,
    session: &SessionIntent,
    reports: Seq<Seq<char>>,
    tool: Seq<char>,
) -> Seq<PatternView> {
    match pattern_at(patterns, tool, 0) {
        Some(i) => patterns.update(i, observed(calc, patterns[i], session, reports)),
        None => patterns.push(
            observed(calc, new_pattern(tool, session.start_ts), session, reports),
        ),
    }
}

/// The patterns after the tests of the first `n` tools failed in a session.
pub open spec fn all_hit<C: Calculator>(
    calc: C,
    patterns: Seq<PatternView>,
    session: &SessionIntent,
    reports: Seq<Seq<char>>,
    tools: Seq<Seq<char>>,
    n: int,
) -> Seq<PatternView>
    decreases n,
{
    if n <= 0 {
        patterns
    } else {
        hit(
            calc,
            all_hit(calc, patterns, session, reports, tools, n - 1),
            session,
            reports,
            tools[n - 1],
        )
    }
}

/// The test failures of a tool are a confirmed pattern.
pub open spec fn confirmed_for(patterns: Seq<PatternView>, tool: Seq<char>) -> bool {
    pattern_at(patterns, tool, 0) matches Some(i) && patterns[i].status == "confirmed"@
}

/// The confirmed reports with those of the first `n` reports that are about a
/// tool, each once.
pub open spec fn with_reports(
    confirmed: Seq<Seq<char>>,
    reports: Seq<Seq<char>>,
    tool: Seq<char>,
    n: int,
) -> Seq<Seq<char>>
    decreases n,
{
    if n <= 0 {
        confirmed
    } else {
        let before = with_reports(confirmed, reports, tool, n - 1);
        if about(lowercase(reports[n - 1]), lowercase(tool)) && !before.contains(reports[n - 1]) {
            before.push(reports[n - 1])
        } else {
            before
        }
    }
}

/// The confirmed reports after the tests of the first `n` tools failed in a
/// session that left the given patterns: the reports about a tool are
/// confirmed once its pattern is.
pub open spec fn confirmed_after(
    confirmed: Seq<Seq<char>>,
    patterns: Seq<PatternView>,
    reports: Seq<Seq<char>>,
    tools: Seq<Seq<char>>,
    n: int,
) -> Seq<Seq<char>>
    decreases n,
{
    if n <= 0 {
        confirmed
    } else {
        let before = confirmed_after(confirmed, patterns, reports, tools, n - 1);
        if confirmed_for(patterns, tools[n - 1]) {
            with_reports(before, reports, tools[n - 1], reports.len() as int)
        } else {
            before
        }
    }
}

/// A pattern that is worth keeping.
pub open spec fn lasting_pattern() -> spec_fn(PatternView) -> bool {
    |p: PatternView| heavy(p.weight) || p.status == "confirmed"@
}

/// The patterns after a session.
pub open spec fn patterns_after<C: Calculator>(
    calc: C,
    patterns: Seq<PatternView>,
    session: &SessionIntent,
    reports: Seq<Seq<char>>,
) -> Seq<PatternView> {
    let tools = names(session.test_failure_tools.entries@);
    filtered(
        all_hit(
            calc,
            decayed_patterns(calc, patterns),
            session,
            reports,
            tools,
            tools.len() as int,
        ),
        lasting_pattern(),
    )
}

pub proof fn lemma_pattern_at(patterns: Seq<PatternView>, tool: Seq<char>, from: int)
    requires
        0 <= from,
    ensures
        pattern_at(patterns, tool, from) matches Some(i) ==> from <= i < patterns.len()
            && patterns[i].tool == tool,
    decreases patterns.len() - from,
{
    if from < patterns.len() {
        lemma_pattern_at(patterns, tool, from + 1);
    }
}

/// A pattern of a tool that is not among the first `n` stays as it was.
pub proof fn lemma_not_hit<C: Calculator>(
    calc: C,
    patterns: Seq<PatternView>,
    session: &SessionIntent,
    reports: Seq<Seq<char>>,
    tools: Seq<Seq<char>>,
    n: int,
)
    requires
        0 <= n <= tools.len(),
    ensures
        ({
            let after = all_hit(calc, patterns, session, reports, tools, n);
            &&& after.len() >= patterns.len()
            &&& forall|i: int|
                0 <= i < patterns.len() ==> (#[trigger] after[i]).tool == patterns[i].tool
            &&& forall|i: int|
                0 <= i < patterns.len() && !tools.take(n).contains(patterns[i].tool) ==> (
                #[trigger] after[i]) == patterns[i]
            &&& forall|i: int|
                patterns.len() <= i < after.len() ==> tools.take(n).contains(
                    (#[trigger] after[i]).tool,
                )
        }),
    decreases n,
{
    if n > 0 {
        lemma_not_hit(calc, patterns, session, reports, tools, n - 1);
        let before = all_hit(calc, patterns, session, reports, tools, n - 1);
        let after = all_hit(calc, patterns, session, reports, tools, n);
        let tool = tools[n - 1];
        lemma_pattern_at(before, tool, 0);
        let some = tools.take(n - 1);
        let all = tools.take(n);
        assert(all[n - 1] == tool);
        assert forall|x: Seq<char>| some.contains(x) implies #[trigger] all.contains(x) by {
            let k = choose|k: int| 0 <= k < some.len() && some[k] == x;
            assert(all[k] == x);
        }
        assert forall|i: int|
            0 <= i < patterns.len() && !all.contains(patterns[i].tool) implies (
        #[trigger] after[i]) == patterns[i] by {
            assert(before[i] == patterns[i]);
        }
        assert forall|i: int| patterns.len() <= i < after.len() implies all.contains(
            (#[trigger] after[i]).tool,
        ) by {
            if i < before.len() {
                assert(some.contains(before[i].tool));
                assert(after[i].tool == before[i].tool);
            }
        }
    }
}

/// Whether a report is about a tool, tests or debugging; both are in
/// lowercase.
pub fn is_about(report: &str, tool: &str) -> (r: bool)
    ensures
        r == about(report@, tool@),
{
    text::has(report, tool) || text::has(report, "test") || text::has(report, "debug")
}

fn is_reported(reports: &Vec<String>, tool: &str) -> (r: bool)
    ensures
        r == reported(views(reports@), tool@),
{
    let ghost all = views(reports@);
    let name = text::to_lowercase(tool);
    for i in 0..reports.len()
        invariant
            all == views(reports@),
            name@ == lowercase(tool@),
            forall|j: int|
                0 <= j < i ==> !about(lowercase(#[trigger] all[j]), lowercase(tool@)),
    {
        assert(all[i as int] == reports@[i as int]@);
        let lower = text::to_lowercase(reports[i].as_str());
        if is_about(lower.as_str(), name.as_str()) {
            return true;
        }
    }
    assert(all.len() == reports@.len());
    false
}

fn compute_blocked_min<C: Calculator>(calc: C, session: &SessionIntent, tool: &str) -> (r: Quantity)
    requires
        reliable(calc),
        total(session.phase_counts.entries@) <= u64::MAX,
    ensures
        r == blocked_min(calc, session, tool@),
{
    let ghost loops = loop_views(session.error_loops@);
    let mut i: usize = 0;
    while i < session.error_loops.len()
        invariant
            reliable(calc),
            i <= session.error_loops@.len(),
            loops == loop_views(session.error_loops@),
            loop_at(loops, tool@, i as int) == loop_at(loops, tool@, 0),
        decreases session.error_loops@.len() - i,
    {
        assert(loops[i as int] == session.error_loops@[i as int]@);
        if same(session.error_loops[i].tool.as_str(), tool) {
            return over(
                calc,
                from_whole(calc, session.error_loops[i].duration_sec),
                Quantity { bits: SIXTY },
            );
        }
        i = i + 1;
    }
    let sum = sum_counts(&session.phase_counts);
    let debugging: u64 = match session.phase_counts.get("debugging") {
        Some(n) => *n,
        None => 0,
    };
    let fraction = if sum > 0 {
        share(calc, debugging, sum)
    } else {
        Quantity { bits: ZERO }
    };
    times(calc, session.duration_min, fraction)
}

fn copy_pattern(p: &FrictionPattern) -> (r: FrictionPattern)
    ensures
        r@ == p@,
{
    FrictionPattern {
        id: p.id.clone(),
        tool: p.tool.clone(),
        error_class: p.error_class.clone(),
        status: p.status.clone(),
        count: p.count,
        blocked_min_total: p.blocked_min_total,
        first_seen: p.first_seen,
        last_seen: p.last_seen,
        weight: p.weight,
        resolution_paths: clone_texts(&p.resolution_paths),
        self_reported_match: p.self_reported_match,
    }
}

fn fresh_pattern(tool: &str, seen: u64) -> (r: FrictionPattern)
    ensures
        r@ == new_pattern(tool@, seen),
{
    let mut id: String = "fp_".to_owned();
    id.append(tool);
    id.append("_test_failure");
    let pattern = FrictionPattern {
        id,
        tool: tool.to_owned(),
        error_class: "test_failure".to_owned(),
        status: "candidate".to_owned(),
        count: 0,
        blocked_min_total: Quantity { bits: ZERO },
        first_seen: seen,
        last_seen: seen,
        weight: Quantity { bits: ZERO },
        resolution_paths: Vec::new(),
        self_reported_match: false,
    };
    assert(pattern@ =~= new_pattern(tool@, seen));
    pattern
}

fn observe<C: Calculator>(
    calc: C,
    pattern: &mut FrictionPattern,
    session: &SessionIntent,
    reports: &Vec<String>,
)
    requires
        reliable(calc),
        old(pattern).count < u32::MAX,
        total(session.phase_counts.entries@) <= u64::MAX,
    ensures
        final(pattern)@ == observed(calc, old(pattern)@, session, views(reports@)),
{
    let blocked = compute_blocked_min(calc, session, pattern.tool.as_str());
    pattern.count = pattern.count + 1;
    pattern.blocked_min_total = plus(calc, pattern.blocked_min_total, blocked);
    pattern.last_seen = session.end_ts;
    pattern.weight = cap(calc, pattern.count as u64, Quantity { bits: TEN });
    if pattern.count >= FRICTION_PROMOTE_THRESHOLD {
        pattern.status = "confirmed".to_owned();
    }
    if same(pattern.status.as_str(), "confirmed") && is_reported(reports, pattern.tool.as_str()) {
        pattern.self_reported_match = true;
    }
}

fn decay_patterns<C: Calculator>(calc: C, patterns: &Vec<FrictionPattern>) -> (r: Vec<
    FrictionPattern,
>)
    requires
        reliable(calc),
    ensures
        pattern_views(r@) == decayed_patterns(calc, pattern_views(patterns@)),
{
    let mut out: Vec<FrictionPattern> = Vec::new();
    for i in 0..patterns.len()
        invariant
            reliable(calc),
            out@.len() == i,
            forall|j: int|
                0 <= j < i ==> (#[trigger] out@[j])@ == (PatternView {
                    weight: decayed(calc, patterns@[j].weight),
                    ..patterns@[j]@
                }),
    {
        let mut pattern = copy_pattern(&patterns[i]);
        pattern.weight = decay(calc, pattern.weight);
        out.push(pattern);
    }
    assert(pattern_views(out@) =~= decayed_patterns(calc, pattern_views(patterns@)));
    out
}

fn keep_patterns(patterns: &Vec<FrictionPattern>) -> (r: Vec<FrictionPattern>)
    ensures
        pattern_views(r@) == filtered(pattern_views(patterns@), lasting_pattern()),
{
    let ghost all = pattern_views(patterns@);
    let mut out: Vec<FrictionPattern> = Vec::new();
    assert(pattern_views(out@) =~= Seq::empty());
    for i in 0..patterns.len()
        invariant
            all == pattern_views(patterns@),
            pattern_views(out@) == filtered_to(all, lasting_pattern(), i as int),
    {
        assert(all[i as int] == patterns@[i as int]@);
        if is_heavy(patterns[i].weight) || same(patterns[i].status.as_str(), "confirmed") {
            let ghost before = pattern_views(out@);
            let pattern = copy_pattern(&patterns[i]);
            let ghost view = pattern@;
            out.push(pattern);
            assert(pattern_views(out@) =~= before.push(view));
        }
    }
    out
}

/// All patterns can be observed once more.
pub open spec fn patterns_have_room(patterns: Seq<FrictionPattern>) -> bool {
    forall|i: int| 0 <= i < patterns.len() ==> (#[trigger] patterns[i]).count < u32::MAX
}

fn update_patterns<C: Calculator>(
    calc: C,
    patterns: &Vec<FrictionPattern>,
    session: &SessionIntent,
    reports: &Vec<String>,
) -> (r: Vec<FrictionPattern>)
    requires
        reliable(calc),
        session.wf(),
        patterns_have_room(patterns@),
        total(session.phase_counts.entries@) <= u64::MAX,
    ensures
        pattern_views(r@) == patterns_after(
            calc,
            pattern_views(patterns@),
            session,
            views(reports@),
        ),
{
    let mut out = decay_patterns(calc, patterns);
    let ghost start = pattern_views(out@);
    let ghost tools = names(session.test_failure_tools.entries@);
    assert forall|i: int| 0 <= i < start.len() implies (#[trigger] start[i]).count < u32::MAX by {
        assert(patterns@[i].count < u32::MAX);
        assert(start[i] == decayed_patterns(calc, pattern_views(patterns@))[i]);
    }
    assert(tools.no_duplicates());
    for k in 0..session.test_failure_tools.entries.len()
        invariant
            reliable(calc),
            total(session.phase_counts.entries@) <= u64::MAX,
            tools == names(session.test_failure_tools.entries@),
            tools.no_duplicates(),
            forall|i: int| 0 <= i < start.len() ==> (#[trigger] start[i]).count < u32::MAX,
            pattern_views(out@) == all_hit(
                calc,
                start,
                session,
                views(reports@),
                tools,
                k as int,
            ),
    {
        let tool = session.test_failure_tools.entries[k].0.as_str();
        assert(tools[k as int] == tool@);
        let ghost now = pattern_views(out@);
        let mut i: usize = 0;
        let size: usize = out.len();
        while i < size && !(same(out[i].tool.as_str(), tool) && same(
            out[i].error_class.as_str(),
            "test_failure",
        ))
            invariant
                size == out@.len(),
                i <= size,
                now == pattern_views(out@),
                pattern_at(now, tool@, i as int) == pattern_at(now, tool@, 0),
            decreases size - i,
        {
            assert(now[i as int] == out@[i as int]@);
            i = i + 1;
        }
        if i < size {
            proof {
                lemma_not_hit(calc, start, session, views(reports@), tools, k as int);
                assert(now[i as int] == out@[i as int]@);
                let some = tools.take(k as int);
                assert(!some.contains(tool@)) by {
                    if some.contains(tool@) {
                        let j = choose|j: int| 0 <= j < some.len() && some[j] == tool@;
                        assert(tools[j] == tools[k as int]);
                    }
                }
                if i >= start.len() {
                    assert(some.contains(now[i as int].tool));
                }
                assert(now[i as int] == start[i as int]);
            }
            let mut pattern = copy_pattern(&out[i]);
            observe(calc, &mut pattern, session, reports);
            let ghost view = pattern@;
            out.set(i, pattern);
            assert(pattern_views(out@) =~= now.update(i as int, view));
        } else {
            let mut pattern = fresh_pattern(tool, session.start_ts);
            observe(calc, &mut pattern, session, reports);
            let ghost view = pattern@;
            out.push(pattern);
            assert(pattern_views(out@) =~= now.push(view));
        }
    }
    keep_patterns(&out)
}

fn is_confirmed(patterns: &Vec<FrictionPattern>, tool: &str) -> (r: bool)
    ensures
        r == confirmed_for(pattern_views(patterns@), tool@),
{
    let ghost all = pattern_views(patterns@);
    let mut i: usize = 0;
    while i < patterns.len()
        invariant
            i <= patterns@.len(),
            all == pattern_views(patterns@),
            pattern_at(all, tool@, i as int) == pattern_at(all, tool@, 0),
        decreases patterns@.len() - i,
    {
        assert(all[i as int] == patterns@[i as int]@);
        if same(patterns[i].tool.as_str(), tool) && same(
            patterns[i].error_class.as_str(),
            "test_failure",
        ) {
            return same(patterns[i].status.as_str(), "confirmed");
        }
        i = i + 1;
    }
    false
}

fn add_reports(confirmed: &mut Vec<String>, reports: &Vec<String>, tool: &str)
    ensures
        views(final(confirmed)@) == with_reports(
            views(old(confirmed)@),
            views(reports@),
            tool@,
            reports@.len() as int,
        ),
{
    broadcast use lemma_views_push;

    let ghost all = views(reports@);
    let name = text::to_lowercase(tool);
    for i in 0..reports.len()
        invariant
            all == views(reports@),
            name@ == lowercase(tool@),
            views(confirmed@) == with_reports(views(old(confirmed)@), all, tool@, i as int),
    {
        assert(all[i as int] == reports@[i as int]@);
        let report = reports[i].as_str();
        let lower = text::to_lowercase(report);
        if is_about(lower.as_str(), name.as_str()) && !is_listed(confirmed, report) {
            confirmed.push(report.to_owned());
        }
    }
}

fn update_confirmed(
    confirmed: &mut Vec<String>,
    patterns: &Vec<FrictionPattern>,
    session: &SessionIntent,
    reports: &Vec<String>,
)
    ensures
        views(final(confirmed)@) == confirmed_after(
            views(old(confirmed)@),
            pattern_views(patterns@),
            views(reports@),
            names(session.test_failure_tools.entries@),
            session.test_failure_tools.entries@.len() as int,
        ),
{
    for k in 0..session.test_failure_tools.entries.len()
        invariant
            views(confirmed@) == confirmed_after(
                views(old(confirmed)@),
                pattern_views(patterns@),
                views(reports@),
                names(session.test_failure_tools.entries@),
                k as int,
            ),
    {
        let tool = session.test_failure_tools.entries[k].0.as_str();
        if is_confirmed(patterns, tool) {
            add_reports(confirmed, reports, tool);
        }
    }
}

fn is_listed(list: &Vec<String>, item: &str) -> (r: bool)
    ensures
        r == views(list@).contains(item@),
{
    let ghost all = views(list@);
    for i in 0..list.len()
        invariant
            all == views(list@),
            forall|j: int| 0 <= j < i ==> #[trigger] all[j] != item@,
    {
        assert(all[i as int] == list@[i as int]@);
        if same(list[i].as_str(), item) {
            return true;
        }
    }
    assert(!all.contains(item@));
    false
}

// ---------------------------------------------------------------------
// Command sequences
// ---------------------------------------------------------------------

/// The pairs of consecutive commands among the first `n`, each once, so that
/// a loop within a session doesn't inflate the count.
pub open spec fn bigrams(commands: Seq<Seq<char>>, n: int) -> Seq<Seq<Seq<char>>>
    decreases n,
{
    if n <= 1 {
        Seq::empty()
    } else {
        let before = bigrams(commands, n - 1);
        let pair = seq![commands[n - 2], commands[n - 1]];
        if before.contains(pair) {
            before
        } else {
            before.push(pair)
        }
    }
}

/// The position at or after `from` of a sequence of commands.
pub open spec fn sequence_at(
    sequences: Seq<CommandsView>,
    pair: Seq<Seq<char>>,
    from: int,
) -> Option<int>
    decreases sequences.len() - from,
{
    if from < 0 || from >= sequences.len() {
        None
    } else if sequences[from].seq == pair {
        Some(from)
    } else {
        sequence_at(sequences, pair, from + 1)
    }
}

/// The sequences after one more session.
pub open spec fn decayed_sequences<C: Calculator>(calc: C, sequences: Seq<CommandsView>) -> Seq<
    CommandsView,
> {
    Seq::new(
        sequences.len(),
        |i: int| CommandsView { weight: decayed(calc, sequences[i].weight), ..sequences[i] },
    )
}

/// A sequence that was not known before.
pub open spec fn new_sequence(pair: Seq<Seq<char>>) -> CommandsView {
    CommandsView {
        seq: pair,
        count: 0,
        last_seen: 0,
        weight: Quantity { bits: ZERO },
        status: "candidate"@,
        projects: Seq::empty(),
    }
}

/// A sequence after a session in which it was run. It is confirmed once it
/// was run in enough sessions.
pub open spec fn rerun<C: Calculator>(
    calc: C,
    sequence: CommandsView,
    end_ts: u64,
    project: Option<Seq<char>>,
) -> CommandsView {
    let count = (sequence.count + 1) as u32;
    CommandsView {
        count,
        last_seen: end_ts,
        weight: capped(calc, count as u64, Quantity { bits: TEN }),
        status: if count >= COMMAND_SEQ_PROMOTE_THRESHOLD {
            "confirmed"@
        } else {
            sequence.status
        },
        projects: match project {
            Some(p) => if sequence.projects.contains(p) {
                sequence.projects
            } else {
                sequence.projects.push(p)
            },
            None => sequence.projects,
        },
        ..sequence
    }
}

/// The sequences after one of them was run in a session.
pub open spec fn sequence_run<C: Calculator>(
    calc: C,
    sequences: Seq<CommandsView>,
    end_ts: u64,
    project: Option<Seq<char>>,
    pair: Seq<Seq<char>>,
) -> Seq<CommandsView> {
    match sequence_at(sequences, pair, 0) {
        Some(i) => sequences.update(i, rerun(calc, sequences[i], end_ts, project)),
        None => sequences.push(rerun(calc, new_sequence(pair), end_ts, project)),
    }
}

/// The sequences after the first `n` of the pairs were run in a session.
pub open spec fn sequences_run<C: Calculator>(
    calc: C,
    sequences: Seq<CommandsView>,
    end_ts: u64,
    project: Option<Seq<char>>,
    pairs: Seq<Seq<Seq<char>>>,
    n: int,
) -> Seq<CommandsView>
    decreases n,
{
    if n <= 0 {
        sequences
    } else {
        sequence_run(
            calc,
            sequences_run(calc, sequences, end_ts, project, pairs, n - 1),
            end_ts,
            project,
            pairs[n - 1],
        )
    }
}

/// A sequence that is worth keeping.
pub open spec fn lasting_sequence() -> spec_fn(CommandsView) -> bool {
    |c: CommandsView| heavy(c.weight) || c.status == "confirmed"@
}

pub open spec fn sequence_rank() -> spec_fn(CommandsView) -> int {
    |c: CommandsView| c.weight.rank()
}

/// The sequences after a session.
pub open spec fn sequences_after<C: Calculator>(
    calc: C,
    sequences: Seq<CommandsView>,
    session: &SessionIntent,
) -> Seq<CommandsView> {
    let commands = views(session.command_sequence@);
    let pairs = bigrams(commands, commands.len() as int);
    first(
        ranked(
            filtered(
                sequences_run(
                    calc,
                    decayed_sequences(calc, sequences),
                    session.end_ts,
                    opt_view(session.primary_project),
                    pairs,
                    pairs.len() as int,
                ),
                lasting_sequence(),
            ),
            sequence_rank(),
        ),
        MAX_COMMAND_SEQUENCES as int,
    )
}

pub proof fn lemma_bigrams(commands: Seq<Seq<char>>, n: int)
    ensures
        bigrams(commands, n).no_duplicates(),
        forall|i: int|
            0 <= i < bigrams(commands, n).len() ==> (#[trigger] bigrams(commands, n)[i]).len() == 2,
    decreases n,
{
    if n > 1 {
        lemma_bigrams(commands, n - 1);
    }
}

pub proof fn lemma_sequence_at(sequences: Seq<CommandsView>, pair: Seq<Seq<char>>, from: int)
    requires
        0 <= from,
    ensures
        sequence_at(sequences, pair, from) matches Some(i) ==> from <= i < sequences.len()
            && sequences[i].seq == pair,
    decreases sequences.len() - from,
{
    if from < sequences.len() {
        lemma_sequence_at(sequences, pair, from + 1);
    }
}

/// A sequence that is not among the first `n` pairs stays as it was.
pub proof fn lemma_not_run<C: Calculator>(
    calc: C,
    sequences: Seq<CommandsView>,
    end_ts: u64,
    project: Option<Seq<char>>,
    pairs: Seq<Seq<Seq<char>>>,
    n: int,
)
    requires
        0 <= n <= pairs.len(),
    ensures
        ({
            let after = sequences_run(calc, sequences, end_ts, project, pairs, n);
            &&& after.len() >= sequences.len()
            &&& forall|i: int|
                0 <= i < sequences.len() ==> (#[trigger] after[i]).seq == sequences[i].seq
            &&& forall|i: int|
                0 <= i < sequences.len() && !pairs.take(n).contains(sequences[i].seq) ==> (
                #[trigger] after[i]) == sequences[i]
            &&& forall|i: int|
                sequences.len() <= i < after.len() ==> pairs.take(n).contains(
                    (#[trigger] after[i]).seq,
                )
        }),
    decreases n,
{
    if n > 0 {
        lemma_not_run(calc, sequences, end_ts, project, pairs, n - 1);
        let before = sequences_run(calc, sequences, end_ts, project, pairs, n - 1);
        let after = sequences_run(calc, sequences, end_ts, project, pairs, n);
        let pair = pairs[n - 1];
        lemma_sequence_at(before, pair, 0);
        let some = pairs.take(n - 1);
        let all = pairs.take(n);
        assert(all[n - 1] == pair);
        assert forall|x: Seq<Seq<char>>| some.contains(x) implies #[trigger] all.contains(x) by {
            let k = choose|k: int| 0 <= k < some.len() && some[k] == x;
            assert(all[k] == x);
        }
        assert forall|i: int|
            0 <= i < sequences.len() && !all.contains(sequences[i].seq) implies (
        #[trigger] after[i]) == sequences[i] by {
            assert(before[i] == sequences[i]);
        }
        assert forall|i: int| sequences.len() <= i < after.len() implies all.contains(
            (#[trigger] after[i]).seq,
        ) by {
            if i < before.len() {
                assert(some.contains(before[i].seq));
                assert(after[i].seq == before[i].seq);
            }
        }
    }
}

fn copy_sequence(c: &CommandSequence) -> (r: CommandSequence)
    ensures
        r@ == c@,
{
    CommandSequence {
        seq: clone_texts(&c.seq),
        count: c.count,
        last_seen: c.last_seen,
        weight: c.weight,
        status: c.status.clone(),
        projects: clone_texts(&c.projects),
    }
}

fn fresh_sequence(a: &str, b: &str) -> (r: CommandSequence)
    ensures
        r@ == new_sequence(seq![a@, b@]),
{
    let mut seq: Vec<String> = Vec::new();
    seq.push(a.to_owned());
    seq.push(b.to_owned());
    assert(views(seq@) =~= seq![a@, b@]);
    let sequence = CommandSequence {
        seq,
        count: 0,
        last_seen: 0,
        weight: Quantity { bits: ZERO },
        status: "candidate".to_owned(),
        projects: Vec::new(),
    };
    assert(sequence@ =~= new_sequence(seq![a@, b@]));
    sequence
}

fn is_pair(seq: &Vec<String>, a: &str, b: &str) -> (r: bool)
    ensures
        r == (views(seq@) == seq![a@, b@]),
{
    let ghost pair = seq![a@, b@];
    assert(views(seq@).len() == seq@.len());
    if seq.len() != 2 {
        return false;
    }
    assert(views(seq@)[0] == seq@[0]@ && views(seq@)[1] == seq@[1]@);
    if same(seq[0].as_str(), a) && same(seq[1].as_str(), b) {
        assert(views(seq@) =~= pair);
        true
    } else {
        assert(pair[0] == a@ && pair[1] == b@);
        false
    }
}

fn run_again<C: Calculator>(
    calc: C,
    sequence: &mut CommandSequence,
    end_ts: u64,
    project: &Option<String>,
)
    requires
        reliable(calc),
        old(sequence).count < u32::MAX,
    ensures
        final(sequence)@ == rerun(calc, old(sequence)@, end_ts, opt_view(*project)),
{
    broadcast use lemma_views_push;

    sequence.count = sequence.count + 1;
    sequence.last_seen = end_ts;
    sequence.weight = cap(calc, sequence.count as u64, Quantity { bits: TEN });
    if sequence.count >= COMMAND_SEQ_PROMOTE_THRESHOLD {
        sequence.status = "confirmed".to_owned();
    }
    if let Some(p) = project {
        if !is_listed(&sequence.projects, p.as_str()) {
            sequence.projects.push(p.clone());
        }
    }
}

fn find_bigrams(commands: &Vec<String>) -> (r: Vec<(usize, usize)>)
    ensures
        forall|i: int|
            0 <= i < r@.len() ==> (#[trigger] r@[i]).0 < commands@.len() && r@[i].1
                < commands@.len(),
        pair_views(commands@, r@) == bigrams(views(commands@), commands@.len() as int),
{
    let ghost all = views(commands@);
    let mut out: Vec<(usize, usize)> = Vec::new();
    assert(pair_views(commands@, out@) =~= Seq::empty());
    let mut n: usize = 1;
    let size: usize = commands.len();
    while n < size
        invariant
            all == views(commands@),
            size == commands@.len(),
            1 <= n,
            size > 0 ==> n <= size,
            size == 0 ==> n == 1,
            forall|i: int|
                0 <= i < out@.len() ==> (#[trigger] out@[i]).0 < commands@.len() && out@[i].1
                    < commands@.len(),
            pair_views(commands@, out@) == bigrams(all, n as int),
        decreases size - n,
    {
        let ghost pair = seq![all[n - 1], all[n as int]];
        let ghost before = pair_views(commands@, out@);
        let mut known = false;
        for i in 0..out.len()
            invariant
                all == views(commands@),
                size == commands@.len(),
                1 <= n < size,
                pair == seq![all[n - 1], all[n as int]],
                before == pair_views(commands@, out@),
                forall|i: int|
                    0 <= i < out@.len() ==> (#[trigger] out@[i]).0 < commands@.len() && out@[i].1
                        < commands@.len(),
                known <==> exists|j: int| 0 <= j < i && #[trigger] before[j] == pair,
        {
            let (a, b) = out[i];
            assert(before[i as int] == seq![commands@[a as int]@, commands@[b as int]@]);
            assert(all[n - 1] == commands@[n - 1]@ && all[n as int] == commands@[n as int]@);
            if same(commands[a].as_str(), commands[n - 1].as_str()) && same(
                commands[b].as_str(),
                commands[n].as_str(),
            ) {
                assert(before[i as int] =~= pair);
                known = true;
            } else {
                assert(before[i as int][0] == commands@[a as int]@ && before[i as int][1]
                    == commands@[b as int]@);
                assert(pair[0] == all[n - 1] && pair[1] == all[n as int]);
            }
        }
        assert(known == before.contains(pair));
        if !known {
            out.push((n - 1, n));
            assert(all[n - 1] == commands@[n - 1]@ && all[n as int] == commands@[n as int]@);
            assert(pair_views(commands@, out@) =~= before.push(pair));
        }
        n = n + 1;
    }
    assert(bigrams(all, 0) =~= bigrams(all, 1));
    out
}

/// The pairs of commands at the given positions.
spec fn pair_views(commands: Seq<String>, pairs: Seq<(usize, usize)>) -> Seq<Seq<Seq<char>>> {
    Seq::new(
        pairs.len(),
        |i: int| seq![commands[pairs[i].0 as int]@, commands[pairs[i].1 as int]@],
    )
}

fn decay_sequences<C: Calculator>(calc: C, sequences: &Vec<CommandSequence>) -> (r: Vec<
    CommandSequence,
>)
    requires
        reliable(calc),
    ensures
        command_views(r@) == decayed_sequences(calc, command_views(sequences@)),
{
    let mut out: Vec<CommandSequence> = Vec::new();
    for i in 0..sequences.len()
        invariant
            reliable(calc),
            out@.len() == i,
            forall|j: int|
                0 <= j < i ==> (#[trigger] out@[j])@ == (CommandsView {
                    weight: decayed(calc, sequences@[j].weight),
                    ..sequences@[j]@
                }),
    {
        let mut sequence = copy_sequence(&sequences[i]);
        sequence.weight = decay(calc, sequence.weight);
        out.push(sequence);
    }
    assert(command_views(out@) =~= decayed_sequences(calc, command_views(sequences@)));
    out
}

fn keep_sequences(sequences: &Vec<CommandSequence>) -> (r: Vec<CommandSequence>)
    ensures
        command_views(r@) == filtered(command_views(sequences@), lasting_sequence()),
{
    let ghost all = command_views(sequences@);
    let mut out: Vec<CommandSequence> = Vec::new();
    assert(command_views(out@) =~= Seq::empty());
    for i in 0..sequences.len()
        invariant
            all == command_views(sequences@),
            command_views(out@) == filtered_to(all, lasting_sequence(), i as int),
    {
        assert(all[i as int] == sequences@[i as int]@);
        if is_heavy(sequences[i].weight) || same(sequences[i].status.as_str(), "confirmed") {
            let ghost before = command_views(out@);
            let sequence = copy_sequence(&sequences[i]);
            let ghost view = sequence@;
            out.push(sequence);
            assert(command_views(out@) =~= before.push(view));
        }
    }
    out
}

fn rank_sequences(sequences: &Vec<CommandSequence>) -> (r: Vec<CommandSequence>)
    ensures
        command_views(r@) == ranked(command_views(sequences@), sequence_rank()),
{
    let ghost all = command_views(sequences@);
    let mut out: Vec<CommandSequence> = Vec::new();
    assert(command_views(out@) =~= Seq::empty());
    for i in 0..sequences.len()
        invariant
            all == command_views(sequences@),
            command_views(out@) == ranked_to(all, sequence_rank(), i as int),
    {
        assert(all[i as int] == sequences@[i as int]@);
        let sequence = copy_sequence(&sequences[i]);
        let ghost view = sequence@;
        let ghost before = command_views(out@);
        let w = sequence.weight.order();
        let mut n: usize = out.len();
        while n > 0 && out[n - 1].weight.order() < w
            invariant
                n <= out@.len(),
                before == command_views(out@),
                w == sequence_rank()(view),
                place_to(before, sequence_rank(), w as int, n as int) == place_to(
                    before,
                    sequence_rank(),
                    w as int,
                    before.len() as int,
                ),
            decreases n,
        {
            assert(before[n - 1] == out@[n - 1]@);
            n = n - 1;
        }
        assert(n > 0 ==> before[n - 1] == out@[n - 1]@);
        out.insert(n, sequence);
        assert(command_views(out@) =~= before.insert(n as int, view));
        assert(command_views(out@) =~= placed(before, sequence_rank(), all[i as int]));
    }
    out
}

/// All sequences can be run once more.
pub open spec fn sequences_have_room(sequences: Seq<CommandSequence>) -> bool {
    forall|i: int| 0 <= i < sequences.len() ==> (#[trigger] sequences[i]).count < u32::MAX
}

fn update_sequences<C: Calculator>(
    calc: C,
    sequences: &Vec<CommandSequence>,
    session: &SessionIntent,
) -> (r: Vec<CommandSequence>)
    requires
        reliable(calc),
        sequences_have_room(sequences@),
    ensures
        command_views(r@) == sequences_after(calc, command_views(sequences@), session),
{
    let mut out = decay_sequences(calc, sequences);
    let commands = &session.command_sequence;
    let found = find_bigrams(commands);
    let ghost start = command_views(out@);
    let ghost pairs = bigrams(views(commands@), commands@.len() as int);
    let ghost project = opt_view(session.primary_project);
    proof {
        lemma_bigrams(views(commands@), commands@.len() as int);
        assert forall|i: int| 0 <= i < start.len() implies (#[trigger] start[i]).count
            < u32::MAX by {
            assert(sequences@[i].count < u32::MAX);
            assert(start[i] == decayed_sequences(calc, command_views(sequences@))[i]);
        }
    }
    for k in 0..found.len()
        invariant
            reliable(calc),
            commands@ == session.command_sequence@,
            pairs == pair_views(commands@, found@),
            pairs.no_duplicates(),
            project == opt_view(session.primary_project),
            forall|i: int|
                0 <= i < found@.len() ==> (#[trigger] found@[i]).0 < commands@.len() && found@[i].1
                    < commands@.len(),
            forall|i: int| 0 <= i < start.len() ==> (#[trigger] start[i]).count < u32::MAX,
            command_views(out@) == sequences_run(
                calc,
                start,
                session.end_ts,
                project,
                pairs,
                k as int,
            ),
    {
        let (p, q) = found[k];
        let a = commands[p].as_str();
        let b = commands[q].as_str();
        let ghost pair = seq![a@, b@];
        assert(pairs[k as int] == pair);
        let ghost now = command_views(out@);
        let mut i: usize = 0;
        let size: usize = out.len();
        while i < size && !is_pair(&out[i].seq, a, b)
            invariant
                size == out@.len(),
                i <= size,
                now == command_views(out@),
                pair == seq![a@, b@],
                sequence_at(now, pair, i as int) == sequence_at(now, pair, 0),
            decreases size - i,
        {
            assert(now[i as int] == out@[i as int]@);
            i = i + 1;
        }
        if i < size {
            proof {
                lemma_not_run(calc, start, session.end_ts, project, pairs, k as int);
                assert(now[i as int] == out@[i as int]@);
                let some = pairs.take(k as int);
                assert(!some.contains(pair)) by {
                    if some.contains(pair) {
                        let j = choose|j: int| 0 <= j < some.len() && some[j] == pair;
                        assert(pairs[j] == pairs[k as int]);
                    }
                }
                if i >= start.len() {
                    assert(some.contains(now[i as int].seq));
                }
                assert(now[i as int] == start[i as int]);
            }
            let mut sequence = copy_sequence(&out[i]);
            run_again(calc, &mut sequence, session.end_ts, &session.primary_project);
            let ghost view = sequence@;
            out.set(i, sequence);
            assert(command_views(out@) =~= now.update(i as int, view));
        } else {
            let mut sequence = fresh_sequence(a, b);
            run_again(calc, &mut sequence, session.end_ts, &session.primary_project);
            let ghost view = sequence@;
            out.push(sequence);
            assert(command_views(out@) =~= now.push(view));
        }
    }
    assert(found@.len() == pairs.len());
    let kept = keep_sequences(&out);
    let mut few = rank_sequences(&kept);
    let ghost order = command_views(few@);
    if few.len() > MAX_COMMAND_SEQUENCES {
        few.truncate(MAX_COMMAND_SEQUENCES);
    }
    assert(command_views(few@) =~= first(order, MAX_COMMAND_SEQUENCES as int));
    few
}

// ---------------------------------------------------------------------
// Resolutions
// ---------------------------------------------------------------------

/// How often a strategy is among the first `n`.
pub open spec fn strategy_count(strategies: Seq<Seq<char>>, strategy: Seq<char>, n: int) -> nat
    decreases n,
{
    if n <= 0 {
        0
    } else {
        strategy_count(strategies, strategy, n - 1) + if strategies[n - 1] == strategy {
            1nat
        } else {
            0
        }
    }
}

/// The share of a strategy after a session with the given resolutions.
pub open spec fn strategy_after<C: Calculator>(
    calc: C,
    paths: Map<Seq<char>, Quantity>,
    strategies: Seq<Seq<char>>,
    strategy: Seq<char>,
) -> Quantity {
    moved(
        calc,
        share_in(paths, strategy),
        share_of(
            calc,
            strategy_count(strategies, strategy, strategies.len() as int) as u64,
            strategies.len() as u64,
        ),
        Quantity { bits: EMA_ALPHA },
    )
}

/// How error loops are resolved, after a session with the given resolutions.
pub open spec fn paths_after<C: Calculator>(
    calc: C,
    paths: Map<Seq<char>, Quantity>,
    strategies: Seq<Seq<char>>,
) -> Map<Seq<char>, Quantity> {
    let a = paths.insert("doc_lookup"@, strategy_after(calc, paths, strategies, "doc_lookup"@));
    let b = a.insert("trial_error"@, strategy_after(calc, a, strategies, "trial_error"@));
    b.insert("step_away"@, strategy_after(calc, b, strategies, "step_away"@))
}

fn count_strategy(strategies: &Vec<String>, strategy: &str) -> (r: u64)
    ensures
        r == strategy_count(views(strategies@), strategy@, strategies@.len() as int),
{
    let ghost all = views(strategies@);
    let mut n: u64 = 0;
    for i in 0..strategies.len()
        invariant
            all == views(strategies@),
            n == strategy_count(all, strategy@, i as int),
            n <= i,
    {
        assert(all[i as int] == strategies@[i as int]@);
        if same(strategies[i].as_str(), strategy) {
            n = n + 1;
        }
    }
    n
}

fn update_strategy<C: Calculator>(
    calc: C,
    paths: &mut Table<Quantity>,
    strategies: &Vec<String>,
    strategy: &str,
)
    requires
        reliable(calc),
        old(paths).wf(),
    ensures
        final(paths).wf(),
        final(paths)@ == old(paths)@.insert(
            strategy@,
            strategy_after(calc, old(paths)@, views(strategies@), strategy@),
        ),
{
    let before = match paths.get(strategy) {
        Some(q) => *q,
        None => Quantity { bits: ZERO },
    };
    let sample = share(calc, count_strategy(strategies, strategy), strategies.len() as u64);
    paths.set(strategy, ema(calc, before, sample, Quantity { bits: EMA_ALPHA }));
}

// ---------------------------------------------------------------------
// The group
// ---------------------------------------------------------------------

/// The resolutions of a kind of friction.
pub open spec fn paths_in(
    paths: Map<Seq<char>, Table<Quantity>>,
    name: Seq<char>,
) -> Map<Seq<char>, Quantity> {
    if paths.dom().contains(name) {
        paths[name]@
    } else {
        Map::empty()
    }
}

pub open spec fn friction_wf(friction: &Friction) -> bool {
    &&& friction.resolution_paths.wf()
    &&& forall|name: Seq<char>| #[trigger]
        friction.resolution_paths@.dom().contains(name) ==> friction.resolution_paths@[name].wf()
}

/// `after` is the friction after a session; `reports` is what the user
/// reported as friction.
pub open spec fn friction_after<C: Calculator>(
    calc: C,
    before: Friction,
    session: &SessionIntent,
    reports: Seq<Seq<char>>,
    after: Friction,
) -> bool {
    &&& friction_wf(&after)
    &&& pattern_views(after.friction_patterns@) == patterns_after(
        calc,
        pattern_views(before.friction_patterns@),
        session,
        reports,
    )
    &&& views(after.friction_confirmed@) == confirmed_after(
        views(before.friction_confirmed@),
        pattern_views(after.friction_patterns@),
        reports,
        names(session.test_failure_tools.entries@),
        session.test_failure_tools.entries@.len() as int,
    )
    &&& command_views(after.command_sequences@) == sequences_after(
        calc,
        command_views(before.command_sequences@),
        session,
    )
    &&& if session.friction_resolutions@.len() > 0 {
        &&& after.resolution_paths@.dom() == before.resolution_paths@.dom().insert(
            "error_loop"@,
        )
        &&& paths_in(after.resolution_paths@, "error_loop"@) == paths_after(
            calc,
            paths_in(before.resolution_paths@, "error_loop"@),
            views(session.friction_resolutions@),
        )
        &&& forall|name: Seq<char>|
            #![trigger after.resolution_paths@[name]]
            before.resolution_paths@.dom().contains(name) && name != "error_loop"@
                ==> after.resolution_paths@[name] == before.resolution_paths@[name]
    } else {
        after.resolution_paths == before.resolution_paths
    }
}

fn copy_paths(t: Option<&Table<Quantity>>) -> (r: Table<Quantity>)
    requires
        t matches Some(t) ==> t.wf(),
    ensures
        r.wf(),
        r@ == match t {
            Some(t) => t@,
            None => Map::empty(),
        },
{
    match t {
        Some(t) => super::projects::copy_shares(t),
        None => Table::new(),
    }
}

/// Folds a session into the friction patterns: which tools blocked the user,
/// which commands they ran in sequence, and how they got on.
pub fn update_friction<C: Calculator>(
    friction: &mut Friction,
    session: &SessionIntent,
    reports: &Vec<String>,
    calc: C,
)
    requires
        reliable(calc),
        session.wf(),
        friction_wf(old(friction)),
        patterns_have_room(old(friction).friction_patterns@),
        sequences_have_room(old(friction).command_sequences@),
        total(session.phase_counts.entries@) <= u64::MAX,
    ensures
        friction_after(calc, *old(friction), session, views(reports@), *final(friction)),
{
    friction.friction_patterns = update_patterns(
        calc,
        &friction.friction_patterns,
        session,
        reports,
    );
    update_confirmed(
        &mut friction.friction_confirmed,
        &friction.friction_patterns,
        session,
        reports,
    );
    friction.command_sequences = update_sequences(calc, &friction.command_sequences, session);
    let strategies = &session.friction_resolutions;
    if strategies.len() > 0 {
        let mut paths = copy_paths(friction.resolution_paths.get("error_loop"));
        update_strategy(calc, &mut paths, strategies, "doc_lookup");
        update_strategy(calc, &mut paths, strategies, "trial_error");
        update_strategy(calc, &mut paths, strategies, "step_away");
        friction.resolution_paths.set("error_loop", paths);
        assert(friction.resolution_paths@.dom() =~= old(friction).resolution_paths@.dom().insert(
            "error_loop"@,
        ));
    }
}

/// A pattern that was observed in three sessions is confirmed, and stays
/// confirmed whatever sessions follow.
pub proof fn law_patterns_are_promoted<C: Calculator>(
    calc: C,
    pattern: PatternView,
    session: &SessionIntent,
    reports: Seq<Seq<char>>,
)
    requires
        pattern.count < u32::MAX,
    ensures
        observed(calc, pattern, session, reports).count == pattern.count + 1,
        pattern.count + 1 >= FRICTION_PROMOTE_THRESHOLD ==> observed(
            calc,
            pattern,
            session,
            reports,
        ).status == "confirmed"@,
        pattern.status == "confirmed"@ ==> observed(calc, pattern, session, reports).status
            == "confirmed"@ && lasting_pattern()(
            PatternView { weight: decayed(calc, pattern.weight), ..pattern },
        ),
{
}

proof fn lemma_with_reports(
    confirmed: Seq<Seq<char>>,
    reports: Seq<Seq<char>>,
    tool: Seq<char>,
    n: int,
)
    requires
        0 <= n <= reports.len(),
        confirmed.no_duplicates(),
    ensures
        ({
            let after = with_reports(confirmed, reports, tool, n);
            &&& after.no_duplicates()
            &&& forall|x: Seq<char>| #[trigger] confirmed.contains(x) ==> after.contains(x)
            &&& forall|x: Seq<char>| #[trigger]
                after.contains(x) ==> confirmed.contains(x) || reports.contains(x)
            &&& forall|i: int|
                0 <= i < n && about(lowercase(#[trigger] reports[i]), lowercase(tool))
                    ==> after.contains(reports[i])
        }),
    decreases n,
{
    if n > 0 {
        lemma_with_reports(confirmed, reports, tool, n - 1);
        let before = with_reports(confirmed, reports, tool, n - 1);
        let after = with_reports(confirmed, reports, tool, n);
        let report = reports[n - 1];
        assert(reports.contains(report));
        if after.len() > before.len() {
            assert(after == before.push(report));
            assert(after[before.len() as int] == report);
            assert forall|x: Seq<char>| before.contains(x) implies #[trigger] after.contains(x) by {
                let k = choose|k: int| 0 <= k < before.len() && before[k] == x;
                assert(after[k] == x);
            }
            assert forall|x: Seq<char>| #[trigger] after.contains(x) implies before.contains(x) || x
                == report by {
                let k = choose|k: int| 0 <= k < after.len() && after[k] == x;
                if k < before.len() {
                    assert(before[k] == x);
                }
            }
        }
    }
}

/// What counts as confirmed friction was reported by the user, word for word,
/// and is listed once; and what was confirmed stays so.
pub proof fn law_confirmed_friction_was_reported(
    confirmed: Seq<Seq<char>>,
    patterns: Seq<PatternView>,
    reports: Seq<Seq<char>>,
    tools: Seq<Seq<char>>,
    n: int,
)
    requires
        0 <= n <= tools.len(),
        confirmed.no_duplicates(),
    ensures
        ({
            let after = confirmed_after(confirmed, patterns, reports, tools, n);
            &&& after.no_duplicates()
            &&& forall|x: Seq<char>| #[trigger] confirmed.contains(x) ==> after.contains(x)
            &&& forall|x: Seq<char>| #[trigger]
                after.contains(x) ==> confirmed.contains(x) || reports.contains(x)
        }),
    decreases n,
{
    if n > 0 {
        law_confirmed_friction_was_reported(confirmed, patterns, reports, tools, n - 1);
        let before = confirmed_after(confirmed, patterns, reports, tools, n - 1);
        lemma_with_reports(before, reports, tools[n - 1], reports.len() as int);
    }
}

/// The reports about a tool are confirmed once its pattern is.
pub proof fn law_reports_are_confirmed(
    confirmed: Seq<Seq<char>>,
    patterns: Seq<PatternView>,
    reports: Seq<Seq<char>>,
    tools: Seq<Seq<char>>,
    n: int,
    k: int,
    i: int,
)
    requires
        0 <= k < n <= tools.len(),
        0 <= i < reports.len(),
        confirmed.no_duplicates(),
        confirmed_for(patterns, tools[k]),
        about(lowercase(reports[i]), lowercase(tools[k])),
    ensures
        confirmed_after(confirmed, patterns, reports, tools, n).contains(reports[i]),
    decreases n,
{
    law_confirmed_friction_was_reported(confirmed, patterns, reports, tools, n - 1);
    let before = confirmed_after(confirmed, patterns, reports, tools, n - 1);
    lemma_with_reports(before, reports, tools[n - 1], reports.len() as int);
    if k < n - 1 {
        law_reports_are_confirmed(confirmed, patterns, reports, tools, n - 1, k, i);
    }
}

/// At most twenty sequences of commands are remembered, and a session counts
/// no pair of commands twice.
pub proof fn law_few_sequences<C: Calculator>(
    calc: C,
    sequences: Seq<CommandsView>,
    session: &SessionIntent,
)
    ensures
        sequences_after(calc, sequences, session).len() <= MAX_COMMAND_SEQUENCES,
        bigrams(
            views(session.command_sequence@),
            session.command_sequence@.len() as int,
        ).no_duplicates(),
{
    lemma_bigrams(views(session.command_sequence@), session.command_sequence@.len() as int);
}

/// What hitting patterns keeps: places, tools, classes and confirmations.
pub proof fn lemma_hits_keep<C: Calculator>(
    calc: C,
    patterns: Seq<PatternView>,
    session: &SessionIntent,
    reports: Seq<Seq<char>>,
    tools: Seq<Seq<char>>,
    n: int,
)
    requires
        0 <= n <= tools.len(),
    ensures
        ({
            let after = all_hit(calc, patterns, session, reports, tools, n);
            &&& after.len() >= patterns.len()
            &&& forall|i: int|
                0 <= i < patterns.len() ==> (#[trigger] after[i]).tool == patterns[i].tool
                    && after[i].error_class == patterns[i].error_class && (patterns[i].status
                    == "confirmed"@ ==> after[i].status == "confirmed"@)
        }),
    decreases n,
{
    if n > 0 {
        lemma_hits_keep(calc, patterns, session, reports, tools, n - 1);
        let before = all_hit(calc, patterns, session, reports, tools, n - 1);
        lemma_pattern_at(before, tools[n - 1], 0);
    }
}

/// A confirmed pattern is never dropped, and stays confirmed.
pub proof fn law_confirmed_patterns_stay<C: Calculator>(
    calc: C,
    patterns: Seq<PatternView>,
    session: &SessionIntent,
    reports: Seq<Seq<char>>,
    i: int,
)
    requires
        0 <= i < patterns.len(),
        patterns[i].status == "confirmed"@,
    ensures
        exists|j: int|
            0 <= j < patterns_after(calc, patterns, session, reports).len() && ({
                let p = #[trigger] patterns_after(calc, patterns, session, reports)[j];
                p.tool == patterns[i].tool && p.error_class == patterns[i].error_class && p.status
                    == "confirmed"@
            }),
{
    let tools = names(session.test_failure_tools.entries@);
    let start = decayed_patterns(calc, patterns);
    let hits = all_hit(calc, start, session, reports, tools, tools.len() as int);
    lemma_hits_keep(calc, start, session, reports, tools, tools.len() as int);
    assert(start[i].tool == patterns[i].tool && start[i].status == "confirmed"@);
    assert(hits[i].tool == start[i].tool);
    lemma_filtered_has(hits, lasting_pattern(), i, hits.len() as int);
    let after = patterns_after(calc, patterns, session, reports);
    let j = choose|j: int| 0 <= j < after.len() && after[j] == hits[i];
    assert(after[j].status == "confirmed"@);
}

/// What is kept of the patterns weighs enough or is confirmed.
pub proof fn law_kept_patterns_last<C: Calculator>(
    calc: C,
    patterns: Seq<PatternView>,
    session: &SessionIntent,
    reports: Seq<Seq<char>>,
)
    ensures
        forall|j: int|
            0 <= j < patterns_after(calc, patterns, session, reports).len() ==> {
                let p = #[trigger] patterns_after(calc, patterns, session, reports)[j];
                heavy(p.weight) || p.status == "confirmed"@
            },
{
    let tools = names(session.test_failure_tools.entries@);
    let hits = all_hit(
        calc,
        decayed_patterns(calc, patterns),
        session,
        reports,
        tools,
        tools.len() as int,
    );
    lemma_filtered_holds(hits, lasting_pattern(), hits.len() as int);
    let after = patterns_after(calc, patterns, session, reports);
    assert forall|j: int| 0 <= j < after.len() implies heavy((#[trigger] after[j]).weight)
        || after[j].status == "confirmed"@ by {
        assert(lasting_pattern()(filtered_to(hits, lasting_pattern(), hits.len() as int)[j]));
    }
}

pub proof fn lemma_pattern_at_same(
    a: Seq<PatternView>,
    b: Seq<PatternView>,
    tool: Seq<char>,
    from: int,
)
    requires
        0 <= from,
        b.len() >= a.len(),
        forall|j: int|
            0 <= j < a.len() ==> (#[trigger] b[j]).tool == a[j].tool && b[j].error_class
                == a[j].error_class,
    ensures
        pattern_at(a, tool, from) is Some ==> pattern_at(b, tool, from) == pattern_at(
            a,
            tool,
            from,
        ),
    decreases a.len() - from,
{
    if from < a.len() {
        assert(b[from].tool == a[from].tool);
        lemma_pattern_at_same(a, b, tool, from + 1);
    }
}

/// A pattern whose tool failed the tests of a session has been observed once
/// more after it, and is confirmed if that was the third time or later.
pub proof fn law_third_failure_confirms<C: Calculator>(
    calc: C,
    patterns: Seq<PatternView>,
    session: &SessionIntent,
    reports: Seq<Seq<char>>,
    tool: Seq<char>,
)
    requires
        session.test_failure_tools.wf(),
        session.test_failure_tools@.dom().contains(tool),
        pattern_at(patterns, tool, 0) matches Some(i) && FRICTION_PROMOTE_THRESHOLD - 1
            <= patterns[i].count < u32::MAX,
    ensures
        exists|j: int|
            0 <= j < patterns_after(calc, patterns, session, reports).len() && ({
                let p = #[trigger] patterns_after(calc, patterns, session, reports)[j];
                p.tool == tool && p.error_class == "test_failure"@ && p.status == "confirmed"@
                    && p.count == patterns[pattern_at(patterns, tool, 0)->0].count + 1
            }),
{
    let i = pattern_at(patterns, tool, 0)->0;
    lemma_pattern_at(patterns, tool, 0);
    lemma_pattern_class(patterns, tool, 0);
    let tools = names(session.test_failure_tools.entries@);
    let k = session.test_failure_tools.lemma_has_entry(tool);
    assert(tools[k] == tool);
    let start = decayed_patterns(calc, patterns);
    lemma_pattern_at_same(patterns, start, tool, 0);
    // Before its turn the pattern is as it was.
    let before = all_hit(calc, start, session, reports, tools, k);
    lemma_not_hit(calc, start, session, reports, tools, k);
    lemma_hits_keep(calc, start, session, reports, tools, k);
    lemma_pattern_at_same(start, before, tool, 0);
    let some = tools.take(k);
    assert(!some.contains(tool)) by {
        if some.contains(tool) {
            let m = choose|m: int| 0 <= m < some.len() && some[m] == tool;
            assert(session.test_failure_tools.entries@[m].0@
                != session.test_failure_tools.entries@[k].0@);
        }
    }
    assert(before[i] == start[i]);
    let hit_once = all_hit(calc, start, session, reports, tools, k + 1);
    assert(hit_once[i] == observed(calc, start[i], session, reports));
    // Afterwards it is left alone.
    lemma_left_alone(calc, start, session, reports, tools, i, k + 1, tools.len() as int);
    let hits = all_hit(calc, start, session, reports, tools, tools.len() as int);
    lemma_filtered_has(hits, lasting_pattern(), i, hits.len() as int);
    let after = patterns_after(calc, patterns, session, reports);
    let j = choose|j: int| 0 <= j < after.len() && after[j] == hits[i];
    assert(after[j].status == "confirmed"@);
}

proof fn lemma_pattern_class(patterns: Seq<PatternView>, tool: Seq<char>, from: int)
    requires
        0 <= from,
    ensures
        pattern_at(patterns, tool, from) matches Some(i) ==> patterns[i].error_class
            == "test_failure"@,
    decreases patterns.len() - from,
{
    if from < patterns.len() {
        lemma_pattern_class(patterns, tool, from + 1);
    }
}

/// A pattern is left alone by the turns of other tools.
pub proof fn lemma_left_alone<C: Calculator>(
    calc: C,
    patterns: Seq<PatternView>,
    session: &SessionIntent,
    reports: Seq<Seq<char>>,
    tools: Seq<Seq<char>>,
    i: int,
    m: int,
    n: int,
)
    requires
        0 <= m <= n <= tools.len(),
        0 <= i < all_hit(calc, patterns, session, reports, tools, m).len(),
        forall|k: int|
            m <= k < n ==> #[trigger] tools[k] != all_hit(
                calc,
                patterns,
                session,
                reports,
                tools,
                m,
            )[i].tool,
    ensures
        all_hit(calc, patterns, session, reports, tools, n).len() > i,
        all_hit(calc, patterns, session, reports, tools, n)[i] == all_hit(
            calc,
            patterns,
            session,
            reports,
            tools,
            m,
        )[i],
    decreases n - m,
{
    if m < n {
        lemma_left_alone(calc, patterns, session, reports, tools, i, m, n - 1);
        let before = all_hit(calc, patterns, session, reports, tools, n - 1);
        lemma_pattern_at(before, tools[n - 1], 0);
    }
}

} // verus!
