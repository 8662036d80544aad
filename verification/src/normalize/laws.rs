//! What holds of the normalized timeline as a whole.

use super::entities::{command_entities, window_entities, ProjectContextView};
use super::pipeline::{
    browser_step, calendar_step, clipboard_step, command_emitted, context_at, exit_code_of,
    file_step, flicker, pipeline_step, process_step, sole_member, terminal_step, variant_step,
    window_step, Step,
};
use super::session::{
    in_background, off_task, NormalizerView, Noted, COMMAND_REPEAT_WINDOW_SECS,
    MAX_EVENTS_PER_STEP, OFF_TASK_DRIFT_THRESHOLD_SECS, TEST_FAILURE_CORRELATION_WINDOW_SECS,
};
use super::NormalizedEventView;
use crate::json::Json;
use vstd::prelude::*;

verus! {

/// The event says that a new session begins.
pub open spec fn is_boundary(e: NormalizedEventView) -> bool {
    e.source == "session"@
}

/// How many of the first `n` events are session boundaries.
pub open spec fn boundaries(out: Seq<NormalizedEventView>, n: int) -> nat
    decreases n,
{
    if n <= 0 {
        0
    } else {
        boundaries(out, n - 1) + if is_boundary(out[n - 1]) {
            1nat
        } else {
            0nat
        }
    }
}

/// The events of `s` continue the timeline of `start`: they are numbered on
/// from it without gaps, each belongs to the session that the boundaries up
/// to it have opened, and the state counts both.
pub open spec fn continues(start: NormalizerView, s: Step) -> bool {
    &&& s.state.seq == start.seq + s.out.len()
    &&& s.state.session_id == start.session_id + boundaries(s.out, s.out.len() as int)
    &&& forall|i: int| 0 <= i < s.out.len() ==> #[trigger] s.out[i].seq == start.seq + i + 1
    &&& forall|i: int|
        0 <= i < s.out.len() ==> #[trigger] s.out[i].session_id == start.session_id + boundaries(
            s.out,
            i + 1,
        )
}

/// All events of `s` bear the time `timestamp`.
pub open spec fn dated(s: Step, timestamp: u64) -> bool {
    forall|i: int| 0 <= i < s.out.len() ==> #[trigger] s.out[i].timestamp == timestamp
}

proof fn lemma_boundaries_prefix(a: Seq<NormalizedEventView>, b: Seq<NormalizedEventView>, n: int)
    requires
        n <= a.len() <= b.len(),
        forall|i: int| 0 <= i < a.len() ==> a[i] == #[trigger] b[i],
    ensures
        boundaries(a, n) == boundaries(b, n),
    decreases n,
{
    if n > 0 {
        lemma_boundaries_prefix(a, b, n - 1);
    }
}

/// One more event of the current state keeps the timeline.
proof fn lemma_extend(start: NormalizerView, s: Step, t: Step, e: NormalizedEventView)
    requires
        continues(start, s),
        t.out == s.out.push(e),
        e.seq == s.state.seq + 1,
        t.state.seq == s.state.seq + 1,
        e.session_id == t.state.session_id,
        t.state.session_id == s.state.session_id + if is_boundary(e) {
            1int
        } else {
            0int
        },
    ensures
        continues(start, t),
{
    let n = s.out.len() as int;
    assert forall|i: int| 0 <= i <= n implies #[trigger] boundaries(t.out, i) == boundaries(
        s.out,
        i,
    ) by {
        lemma_boundaries_prefix(s.out, t.out, i);
    }
    assert(t.out[n] == e);
    assert(boundaries(t.out, n + 1) == boundaries(t.out, n) + if is_boundary(e) {
        1nat
    } else {
        0nat
    });
    assert forall|i: int| 0 <= i < t.out.len() implies #[trigger] t.out[i].seq == start.seq + i
        + 1 by {
        if i < n {
            assert(t.out[i] == s.out[i]);
        }
    }
    assert forall|i: int| 0 <= i < t.out.len() implies #[trigger] t.out[i].session_id
        == start.session_id + boundaries(t.out, i + 1) by {
        if i < n {
            assert(t.out[i] == s.out[i]);
            assert(boundaries(t.out, i + 1) == boundaries(s.out, i + 1));
        }
    }
}

proof fn lemma_noted(start: NormalizerView, s: Step, noted: Noted, timestamp: u64)
    requires
        continues(start, s),
        dated(s, timestamp),
        match noted.1 {
            Some(e) => {
                &&& is_boundary(e)
                &&& e.seq == s.state.seq + 1
                &&& e.session_id == s.state.session_id + 1
                &&& e.timestamp == timestamp
                &&& noted.0.seq == s.state.seq + 1
                &&& noted.0.session_id == s.state.session_id + 1
            },
            None => noted.0.seq == s.state.seq && noted.0.session_id == s.state.session_id,
        },
    ensures
        continues(start, s.noted(noted)),
        dated(s.noted(noted), timestamp),
{
    match noted.1 {
        Some(e) => {
            lemma_extend(start, s, s.noted(noted), e);
        },
        None => {},
    }
}

proof fn lemma_emitted(start: NormalizerView, s: Step, t: Step, timestamp: u64)
    requires
        continues(start, s),
        dated(s, timestamp),
        t.out.len() == s.out.len() + 1,
        t.out == s.out.push(t.out.last()),
        t.state == s.state.counted(),
        t.out.last().seq == s.state.seq + 1,
        t.out.last().session_id == s.state.session_id,
        t.out.last().timestamp == timestamp,
        !is_boundary(t.out.last()),
    ensures
        continues(start, t),
        dated(t, timestamp),
{
    lemma_extend(start, s, t, t.out.last());
}

/// The names of the sources other than the session differ from it.
proof fn lemma_sources()
    ensures
        "window"@ != "session"@,
        "terminal"@ != "session"@,
        "browser"@ != "session"@,
        "clipboard"@ != "session"@,
        "filesystem"@ != "session"@,
        "process"@ != "session"@,
        "calendar"@ != "session"@,
{
    reveal_strlit("session");
    reveal_strlit("window");
    reveal_strlit("terminal");
    reveal_strlit("browser");
    reveal_strlit("clipboard");
    reveal_strlit("filesystem");
    reveal_strlit("process");
    reveal_strlit("calendar");
    assert("browser"@[0] != "session"@[0]);
    assert("process"@[0] != "session"@[0]);
}

/// The events of `s` continue the timeline of `start`, bear the time
/// `timestamp`, and are no more than a step can give.
spec fn good(start: NormalizerView, s: Step, timestamp: u64) -> bool {
    continues(start, s) && dated(s, timestamp) && s.out.len() <= MAX_EVENTS_PER_STEP
}

proof fn lemma_window(start: NormalizerView, inner: &Json, ts: u64, context: ProjectContextView)
    ensures
        good(start, window_step(Step::start(start), inner, ts, context), ts),
{
    lemma_sources();
    let s = Step::start(start);
    let r = window_step(s, inner, ts, context);
    let active = s.noted(start.activity(ts));
    lemma_noted(start, s, start.activity(ts), ts);
    let application = inner.text_at("application"@);
    if !in_background(application) {
        let on_task = Step { state: active.state.on_task(), ..active };
        let event_type = inner.text_at("event_type"@).unwrap_or(""@);
        if !flicker(event_type, inner.natural_at("duration_secs"@)) {
            let w = window_entities(
                application,
                inner.text_at("title"@),
                context_at(inner, context),
            );
            let known = on_task.in_project(w.project, ts);
            if let Some(p) = w.project {
                lemma_noted(start, on_task, on_task.state.in_project(p, ts), ts);
            }
            lemma_emitted(start, known, r, ts);
        }
    }
}

proof fn lemma_terminal(start: NormalizerView, inner: &Json, ts: u64, context: ProjectContextView)
    ensures
        good(start, terminal_step(Step::start(start), inner, ts, context), ts),
{
    lemma_sources();
    let s = Step::start(start);
    let active = s.noted(start.activity(ts));
    lemma_noted(start, s, start.activity(ts), ts);
    let command = inner.text_at("command"@).unwrap_or(""@);
    let cwd = inner.text_at("cwd"@);
    let on_task = Step { state: active.state.on_task(), ..active };
    if inner.text_at("phase"@) != Some("start"@) && !on_task.state.repeats(command, cwd, ts) {
        let e = command_entities(command, context_at(inner, context));
        let ran = Step { state: on_task.state.ran(command, cwd, ts), ..on_task };
        let known = ran.in_project(e.project, ts);
        if let Some(p) = e.project {
            lemma_noted(start, ran, ran.state.in_project(p, ts), ts);
        }
        let code = exit_code_of(inner);
        let failed = super::entities::runs_tests(e.subcommand, command) && (code matches Some(c)
            && c != 0);
        let tested = if failed {
            Step { state: known.state.test_failed(ts), ..known }
        } else {
            known
        };
        let emitted = command_emitted(tested, ts, command, code, e);
        lemma_emitted(start, tested, emitted, ts);
        if super::entities::commits(e) && code.unwrap_or(0) == 0 {
            let (state, boundary) = emitted.state.commit(ts);
            lemma_noted(start, emitted, (state, Some(boundary)), ts);
        }
    }
}

proof fn lemma_browser(start: NormalizerView, inner: &Json, ts: u64)
    ensures
        good(start, browser_step(Step::start(start), inner, ts), ts),
{
    lemma_sources();
    let s = Step::start(start);
    let r = browser_step(s, inner, ts);
    let active = s.noted(start.activity(ts));
    lemma_noted(start, s, start.activity(ts), ts);
    let category = inner.text_at("category"@);
    let browsed = active.noted(active.state.browsing(category, ts));
    lemma_noted(start, active, active.state.browsing(category, ts), ts);
    let checked = Step { state: browsed.state.correlated(ts), ..browsed };
    lemma_emitted(start, checked, r, ts);
}

proof fn lemma_clipboard_and_file(start: NormalizerView, inner: &Json, ts: u64)
    ensures
        good(start, clipboard_step(Step::start(start), inner, ts), ts),
        good(start, file_step(Step::start(start), inner, ts), ts),
{
    lemma_sources();
    let s = Step::start(start);
    let active = s.noted(start.activity(ts));
    lemma_noted(start, s, start.activity(ts), ts);
    let on_task = Step { state: active.state.on_task(), ..active };
    lemma_emitted(start, on_task, clipboard_step(s, inner, ts), ts);
    lemma_emitted(start, on_task, file_step(s, inner, ts), ts);
}

proof fn lemma_snapshots(start: NormalizerView, inner: &Json, ts: u64)
    ensures
        good(start, process_step(Step::start(start), inner, ts), ts),
        good(start, calendar_step(Step::start(start), inner, ts), ts),
{
    lemma_sources();
    let s = Step::start(start);
    lemma_emitted(start, s, process_step(s, inner, ts), ts);
    lemma_emitted(start, s, calendar_step(s, inner, ts), ts);
}

proof fn lemma_variant(
    start: NormalizerView,
    variant: Seq<char>,
    inner: &Json,
    context: ProjectContextView,
)
    ensures
        good(
            start,
            variant_step(Step::start(start), variant, inner, context),
            inner.natural_at("timestamp"@).unwrap_or(0),
        ),
{
    let ts = inner.natural_at("timestamp"@).unwrap_or(0);
    lemma_window(start, inner, ts, context);
    lemma_terminal(start, inner, ts, context);
    lemma_browser(start, inner, ts);
    lemma_clipboard_and_file(start, inner, ts);
    lemma_snapshots(start, inner, ts);
}

/// The events of one raw event continue the timeline: they are numbered on
/// without gaps, a session boundary opens the next session and belongs to
/// it, every other event belongs to the session that is open, and the state
/// counts events and sessions. There are at most [`MAX_EVENTS_PER_STEP`].
pub proof fn law_step_continues_timeline(
    state: NormalizerView,
    raw: &Json,
    context: ProjectContextView,
)
    ensures
        continues(state, pipeline_step(state, raw, context)),
        pipeline_step(state, raw, context).out.len() <= MAX_EVENTS_PER_STEP,
{
    if let Some((variant, inner)) = sole_member(raw) {
        lemma_variant(state, variant, inner, context);
    }
}

/// Every event that a raw event gives bears the time of the raw event.
pub proof fn law_events_keep_raw_time(
    state: NormalizerView,
    raw: &Json,
    context: ProjectContextView,
)
    requires
        sole_member(raw) is Some,
    ensures
        match sole_member(raw) {
            Some((_, inner)) => dated(
                pipeline_step(state, raw, context),
                inner.natural_at("timestamp"@).unwrap_or(0),
            ),
            None => false,
        },
{
    let (variant, inner) = sole_member(raw)->0;
    lemma_variant(state, variant, inner, context);
}

/// The timeline that a sequence of raw events gives, each with the project
/// of its working directory.
pub open spec fn timeline(
    state: NormalizerView,
    raws: Seq<(Json, ProjectContextView)>,
) -> Step
    decreases raws.len(),
{
    if raws.len() == 0 {
        Step::start(state)
    } else {
        let before = timeline(state, raws.drop_last());
        let last = pipeline_step(before.state, &raws.last().0, raws.last().1);
        Step { state: last.state, out: before.out + last.out }
    }
}

proof fn lemma_boundaries_concat(
    a: Seq<NormalizedEventView>,
    b: Seq<NormalizedEventView>,
    n: int,
)
    requires
        0 <= n <= b.len(),
    ensures
        boundaries(a + b, a.len() + n) == boundaries(a, a.len() as int) + boundaries(b, n),
    decreases n,
{
    if n == 0 {
        lemma_boundaries_prefix(a, a + b, a.len() as int);
    } else {
        lemma_boundaries_concat(a, b, n - 1);
        assert((a + b)[a.len() + n - 1] == b[n - 1]);
    }
}

proof fn lemma_concat(start: NormalizerView, before: Step, last: Step)
    requires
        continues(start, before),
        continues(before.state, last),
    ensures
        continues(start, Step { state: last.state, out: before.out + last.out }),
{
    let all = Step { state: last.state, out: before.out + last.out };
    let n = before.out.len() as int;
    lemma_boundaries_concat(before.out, last.out, last.out.len() as int);
    assert forall|i: int| 0 <= i < all.out.len() implies #[trigger] all.out[i].seq == start.seq + i
        + 1 by {
        if i < n {
            assert(all.out[i] == before.out[i]);
        } else {
            assert(all.out[i] == last.out[i - n]);
        }
    }
    assert forall|i: int| 0 <= i < all.out.len() implies #[trigger] all.out[i].session_id
        == start.session_id + boundaries(all.out, i + 1) by {
        if i < n {
            assert(all.out[i] == before.out[i]);
            lemma_boundaries_prefix(before.out, all.out, i + 1);
        } else {
            assert(all.out[i] == last.out[i - n]);
            lemma_boundaries_concat(before.out, last.out, i - n + 1);
        }
    }
}

/// However many raw events have come, the normalized timeline is numbered
/// without gaps, and each event's session is the first one plus the number
/// of session boundaries up to it.
pub proof fn law_timeline_is_sequenced(
    state: NormalizerView,
    raws: Seq<(Json, ProjectContextView)>,
)
    ensures
        continues(state, timeline(state, raws)),
    decreases raws.len(),
{
    if raws.len() > 0 {
        let before = timeline(state, raws.drop_last());
        law_timeline_is_sequenced(state, raws.drop_last());
        let last = pipeline_step(before.state, &raws.last().0, raws.last().1);
        law_step_continues_timeline(before.state, &raws.last().0, raws.last().1);
        lemma_concat(state, before, last);
    }
}

/// Later events of the timeline never belong to an earlier session.
pub proof fn law_sessions_never_go_back(
    state: NormalizerView,
    raws: Seq<(Json, ProjectContextView)>,
    i: int,
    j: int,
)
    requires
        0 <= i <= j < timeline(state, raws).out.len(),
    ensures
        timeline(state, raws).out[i].session_id <= timeline(state, raws).out[j].session_id,
        i < j ==> timeline(state, raws).out[i].seq < timeline(state, raws).out[j].seq,
{
    law_timeline_is_sequenced(state, raws);
    lemma_boundaries_monotone(timeline(state, raws).out, i + 1, j + 1);
}

proof fn lemma_boundaries_monotone(out: Seq<NormalizedEventView>, i: int, j: int)
    requires
        i <= j,
    ensures
        boundaries(out, i) <= boundaries(out, j),
    decreases j - i,
{
    if i < j {
        lemma_boundaries_monotone(out, i, j - 1);
    }
}

/// A heartbeat, and anything that is no `{"VariantName": {...}}`, gives no
/// event and leaves the state as it is.
pub proof fn law_no_signal_no_trace(
    state: NormalizerView,
    raw: &Json,
    context: ProjectContextView,
)
    requires
        match sole_member(raw) {
            Some((variant, inner)) => variant == "Heartbeat"@ || !(*inner is Object),
            None => true,
        },
    ensures
        pipeline_step(state, raw, context) == Step::start(state),
{
    reveal_strlit("Heartbeat");
    reveal_strlit("Window");
    reveal_strlit("Terminal");
    reveal_strlit("Browser");
    reveal_strlit("Clipboard");
    reveal_strlit("FileChange");
    reveal_strlit("ProcessActivity");
    reveal_strlit("Calendar");
    assert("Heartbeat"@[0] != "Clipboard"@[0]);
    assert("Heartbeat"@.len() == 9);
}

// ---------------------------------------------------------------------
// Off-task drift
// ---------------------------------------------------------------------

/// An off-task run ends a session at most once: after it has, no more
/// off-task browsing does until something on task comes.
pub proof fn law_drift_fires_once_per_run(
    s: NormalizerView,
    category: Option<Seq<char>>,
    first: u64,
    later_category: Option<Seq<char>>,
    later: u64,
)
    requires
        s.browsing(category, first).1 is Some,
        off_task(later_category),
    ensures
        s.browsing(category, first).0.browsing(later_category, later) == (
            s.browsing(category, first).0,
            None::<NormalizedEventView>,
        ),
{
}

/// Off-task browsing ends the session exactly when its run has lasted the
/// drift threshold and has not done so before. The run begins with the first
/// off-task event after anything on task.
pub proof fn law_drift_needs_a_sustained_run(
    s: NormalizerView,
    category: Option<Seq<char>>,
    timestamp: u64,
)
    ensures
        s.browsing(category, timestamp).1 is Some <==> {
            &&& off_task(category)
            &&& !s.drift_fired
            &&& s.off_task_since matches Some(since) && timestamp - since
                >= OFF_TASK_DRIFT_THRESHOLD_SECS
        },
        off_task(category) ==> s.on_task().browsing(category, timestamp).1 is None,
        off_task(category) ==> s.on_task().browsing(category, timestamp).0.off_task_since == Some(
            timestamp,
        ),
{
}

/// On-task browsing never ends a session, and clears a pending off-task run
/// as any other on-task activity does.
pub proof fn law_on_task_browsing_resets_drift(
    s: NormalizerView,
    category: Option<Seq<char>>,
    timestamp: u64,
)
    requires
        !off_task(category),
    ensures
        s.browsing(category, timestamp) == (s.on_task(), None::<NormalizedEventView>),
{
}

/// Any activity outside the browser clears a pending off-task run, but for
/// windows of background applications.
pub proof fn law_other_activity_ends_an_off_task_run(
    state: NormalizerView,
    inner: &Json,
    timestamp: u64,
    context: ProjectContextView,
)
    ensures
        ({
            let s = Step::start(state);
            &&& no_run(terminal_step(s, inner, timestamp, context).state)
            &&& no_run(clipboard_step(s, inner, timestamp).state)
            &&& no_run(file_step(s, inner, timestamp).state)
            &&& !in_background(inner.text_at("application"@)) ==> no_run(
                window_step(s, inner, timestamp, context).state,
            )
        }),
{
}

/// No off-task run is pending.
pub open spec fn no_run(state: NormalizerView) -> bool {
    state.off_task_since is None && !state.drift_fired
}

/// After drifting away, coming back to any project is no switch from the
/// forgotten one: it opens no further session.
pub proof fn law_drift_forgets_the_project(
    s: NormalizerView,
    category: Option<Seq<char>>,
    timestamp: u64,
    project: Seq<char>,
    later: u64,
)
    requires
        s.browsing(category, timestamp).1 is Some,
    ensures
        s.browsing(category, timestamp).0.project is None,
        s.browsing(category, timestamp).0.in_project(project, later).1 is None,
{
}

// ---------------------------------------------------------------------
// Activity, projects, commands and test failures
// ---------------------------------------------------------------------

/// The recorded last activity never moves back, and is never before an
/// activity that was noted.
pub proof fn law_last_activity_is_the_latest(s: NormalizerView, timestamp: u64)
    ensures
        s.activity(timestamp).0.last_activity matches Some(t) && t >= timestamp && (
        s.last_activity matches Some(prev) ==> t >= prev) && (t == timestamp || s.last_activity
            == Some(t)),
{
}

/// Noting the same project again changes nothing, and noting a project makes
/// it the current one.
pub proof fn law_project_switches_once(s: NormalizerView, project: Seq<char>, at: u64, later: u64)
    ensures
        s.in_project(project, at).0.project == Some(project),
        s.in_project(project, at).0.in_project(project, later) == (
            s.in_project(project, at).0,
            None::<NormalizedEventView>,
        ),
        s.in_project(project, at).1 is Some <==> (s.project matches Some(prev) && prev != project),
{
}

/// A command that was just run is taken for a repetition in the same
/// directory, for as long as the repeat window lasts and no longer.
pub proof fn law_rerun_within_the_window_is_a_repetition(
    s: NormalizerView,
    command: Seq<char>,
    cwd: Option<Seq<char>>,
    at: u64,
    later: u64,
)
    ensures
        s.ran(command, cwd, at).repeats(command, cwd, later) <==> later - at
            <= COMMAND_REPEAT_WINDOW_SECS,
{
}

/// A recorded test failure is found again by one navigation within the
/// correlation window, and by that one only.
pub proof fn law_test_failure_correlates_once(
    s: NormalizerView,
    failed: u64,
    visited: u64,
    again: u64,
)
    ensures
        s.test_failed(failed).recent_failure(visited) <==> failed <= visited <= failed
            + TEST_FAILURE_CORRELATION_WINDOW_SECS,
        s.test_failed(failed).recent_failure(visited) ==> !s.test_failed(failed).correlated(
            visited,
        ).recent_failure(again),
{
}

/// Every browser event within the correlation window of a failed test run is
/// tagged with it, search or not, and uses it up; no other one is.
pub proof fn law_navigation_after_a_failure_is_tagged(
    state: NormalizerView,
    inner: &Json,
    timestamp: u64,
)
    ensures
        ({
            let after = browser_step(Step::start(state), inner, timestamp);
            &&& after.out.last().kind == "navigation"@
            &&& after.out.last().correlated_with == if state.recent_failure(timestamp) {
                seq!["recent_test_failure"@]
            } else {
                Seq::empty()
            }
            &&& after.state.last_test_failure == state.correlated(timestamp).last_test_failure
        }),
{
}

// ---------------------------------------------------------------------
// Noise
// ---------------------------------------------------------------------

/// Nothing but the boundary of a session, if even that.
pub open spec fn at_most_a_boundary(out: Seq<NormalizedEventView>) -> bool {
    out.len() <= 1 && forall|i: int|
        0 <= i < out.len() ==> (#[trigger] out[i]).kind == "session_boundary"@
}

/// The start of a command, and a quick repetition of the last one in the same
/// directory, give no event of their own.
pub proof fn law_starts_and_reruns_give_no_event(
    state: NormalizerView,
    inner: &Json,
    timestamp: u64,
    context: ProjectContextView,
)
    requires
        inner.text_at("phase"@) == Some("start"@) || state.repeats(
            inner.text_at("command"@).unwrap_or(""@),
            inner.text_at("cwd"@),
            timestamp,
        ),
    ensures
        at_most_a_boundary(terminal_step(Step::start(state), inner, timestamp, context).out),
{
}

/// Windows of background applications, and windows that lose the focus
/// almost at once, give no event of their own.
pub proof fn law_flicker_and_background_give_no_event(
    state: NormalizerView,
    inner: &Json,
    timestamp: u64,
    context: ProjectContextView,
)
    requires
        in_background(inner.text_at("application"@)) || flicker(
            inner.text_at("event_type"@).unwrap_or(""@),
            inner.natural_at("duration_secs"@),
        ),
    ensures
        at_most_a_boundary(window_step(Step::start(state), inner, timestamp, context).out),
{
}

/// A quick repetition keeps counting as one: the window starts anew with it.
pub proof fn law_reruns_extend_the_window(
    state: NormalizerView,
    inner: &Json,
    timestamp: u64,
    context: ProjectContextView,
    later: u64,
)
    requires
        inner.text_at("phase"@) != Some("start"@),
        later - timestamp <= COMMAND_REPEAT_WINDOW_SECS,
    ensures
        terminal_step(Step::start(state), inner, timestamp, context).state.repeats(
            inner.text_at("command"@).unwrap_or(""@),
            inner.text_at("cwd"@),
            later,
        ),
{
}

} // verus!
