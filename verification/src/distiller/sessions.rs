//! What a summary says of a session, in terms of the events and the states
//! that it summarizes.

use super::features::{
    branches_of, count_in, earliest, feature, first_flag, flag_count, flagged, latest, listed,
    lookahead, occurrences, resolution, resolutions, tallied, Feature, Flag,
};
use super::summary::{
    distinct, episodes, loop_at, loop_of, score_of, summarizes, with_loop, Episodes,
};
use super::{ErrorLoopView, SessionIntent};
use crate::arithmetic::{difference, quotient, whole, Calculator};
use crate::immediate::laws::{at, how_many, is_first, said, went_wrong};
use crate::immediate::moments::says_open;
use crate::json::{Json, Number};
use crate::quantity::Quantity;
use crate::text::views;
use std::sync::Arc;
use vstd::prelude::*;

verus! {

// ---------------------------------------------------------------------
// Reading an event
// ---------------------------------------------------------------------

/// The event is from the given source.
pub open spec fn from(event: Json, source: Seq<char>) -> bool {
    event.text_at("source"@) == Some(source)
}

/// The event is of the given kind.
pub open spec fn is_of_kind(event: Json, kind: Seq<char>) -> bool {
    event.text_at("kind"@) == Some(kind)
}

/// The event is a failed test run: a failed command with the subcommand
/// `test`, or of a tool that does nothing but run tests.
pub open spec fn test_failure(event: Json) -> bool {
    &&& from(event, "terminal"@)
    &&& went_wrong(event)
    &&& {
        ||| said(event, "subcommand"@) == Some("test"@)
        ||| said(event, "tool"@) == Some("pytest"@)
        ||| said(event, "tool"@) == Some("jest"@)
        ||| said(event, "tool"@) == Some("vitest"@)
        ||| said(event, "tool"@) == Some("mocha"@)
        ||| said(event, "tool"@) == Some("rspec"@)
    }
}

/// The event names a page of documentation or on an error.
pub open spec fn studied(event: Json) -> bool {
    ||| said(event, "category"@) == Some("documentation"@)
    ||| said(event, "category"@) == Some("error_lookup"@)
}

/// The event is the visit of a page to look something up.
pub open spec fn research(event: Json) -> bool {
    from(event, "browser"@) && (said(event, "search_query"@) is Some || studied(event))
}

/// The command of a terminal event.
pub open spec fn command_of(event: Json) -> Option<Seq<char>> {
    if from(event, "terminal"@) {
        match (said(event, "tool"@), said(event, "subcommand"@)) {
            (Some(tool), Some(sub)) => Some(tool + seq![' '] + sub),
            (Some(tool), None) => Some(tool),
            _ => None,
        }
    } else {
        None
    }
}

/// The event is tagged with a test failure.
pub open spec fn tagged(event: Json) -> bool {
    event.elements_at("correlated_with"@) is Some && exists|i: int|
        0 <= i < event.elements_at("correlated_with"@)->0.len()
            && (#[trigger] event.elements_at("correlated_with"@)->0[i]).text() == Some(
            "recent_test_failure"@,
        )
}

/// The event shows someone debugging: a failed command, or a page that is
/// tagged with a failure or tells of errors.
pub open spec fn debugging(event: Json) -> bool {
    ||| is_of_kind(event, "command"@) && went_wrong(event)
    ||| is_of_kind(event, "navigation"@) && (tagged(event) || said(event, "category"@) == Some(
        "error_lookup"@,
    ))
}

/// The event shows someone implementing: a command that did not fail, or a
/// file that changed.
pub open spec fn implementing(event: Json) -> bool {
    ||| is_of_kind(event, "command"@) && !went_wrong(event)
    ||| is_of_kind(event, "file_change"@)
}

/// The event shows someone who looks something up, and not because of a
/// failure.
pub open spec fn researching(event: Json) -> bool {
    is_of_kind(event, "navigation"@) && !debugging(event) && (said(event, "search_query"@) is Some
        || said(event, "category"@) == Some("documentation"@))
}

/// The event shows someone who looks around.
pub open spec fn exploring(event: Json) -> bool {
    is_of_kind(event, "navigation"@) && !debugging(event) && !researching(event)
}

proof fn lemma_literals()
    ensures
        "terminal"@.len() > 0,
        "browser"@.len() > 0,
        "filesystem"@.len() > 0,
        "clipboard"@.len() > 0,
        "window"@.len() > 0,
        "command"@.len() > 0,
        "navigation"@.len() > 0,
        "file_change"@.len() > 0,
        "focus"@.len() > 0,
        "launch"@.len() > 0,
        "command"@ != "navigation"@,
        "command"@ != "file_change"@,
        "navigation"@ != "file_change"@,
        "documentation"@ != "error_lookup"@,
        "debugging"@ != "implementation"@,
        "debugging"@ != "research"@,
        "debugging"@ != "exploration"@,
        "implementation"@ != "research"@,
        "implementation"@ != "exploration"@,
        "research"@ != "exploration"@,
        "terminal"@ != "browser"@,
        " "@ == seq![' '],
        "error_loop"@ != "none"@,
{
    reveal_strlit("terminal");
    reveal_strlit("browser");
    reveal_strlit("filesystem");
    reveal_strlit("clipboard");
    reveal_strlit("window");
    reveal_strlit("command");
    reveal_strlit("navigation");
    reveal_strlit("file_change");
    reveal_strlit("focus");
    reveal_strlit("launch");
    reveal_strlit("documentation");
    reveal_strlit("error_lookup");
    reveal_strlit("debugging");
    reveal_strlit("implementation");
    reveal_strlit("research");
    reveal_strlit("exploration");
    reveal_strlit("error_loop");
    reveal_strlit("none");
    reveal_strlit(" ");
    assert("command"@.len() == 7);
    assert("navigation"@.len() == 10);
    assert("file_change"@.len() == 11);
    assert("documentation"@.len() == 13);
    assert("error_lookup"@.len() == 12);
    assert("debugging"@.len() == 9);
    assert("implementation"@.len() == 14);
    assert("research"@.len() == 8);
    assert("exploration"@.len() == 11);
    assert("terminal"@[0] == 't');
    assert("browser"@[0] == 'b');
    assert("error_loop"@.len() == 10 && "none"@.len() == 4);
    assert(" "@ =~= seq![' ']);
}

proof fn lemma_said(event: Json, key: Seq<char>)
    ensures
        said(event, key) == crate::immediate::buffer::entity_text(event, key),
{
    assert(Json::Null.field(key) is None);
}

proof fn lemma_went_wrong(event: Json)
    ensures
        went_wrong(event) == crate::immediate::recognizers::failed(event),
{
    assert(Json::Null.field("exit_code"@) is None);
}

proof fn lemma_reading(event: Json)
    ensures
        flagged(event, Flag::Command) == from(event, "terminal"@),
        flagged(event, Flag::FailedCommand) == (from(event, "terminal"@) && went_wrong(event)),
        flagged(event, Flag::FailedTest) == test_failure(event),
        flagged(event, Flag::FileChange) == from(event, "filesystem"@),
        flagged(event, Flag::Clipboard) == from(event, "clipboard"@),
        flagged(event, Flag::Research) == research(event),
        feature(event, Feature::Project) == said(event, "project"@),
        feature(event, Feature::App) == if from(event, "window"@) && (is_of_kind(event, "focus"@)
            || is_of_kind(event, "launch"@)) {
            said(event, "app"@)
        } else {
            None
        },
        feature(event, Feature::Tool) == if from(event, "terminal"@) {
            said(event, "tool"@)
        } else {
            None
        },
        feature(event, Feature::Command) == command_of(event),
        feature(event, Feature::FailedTestTool) == if test_failure(event) {
            said(event, "tool"@)
        } else {
            None
        },
        feature(event, Feature::Domain) == if from(event, "browser"@) {
            said(event, "domain"@)
        } else {
            None
        },
        feature(event, Feature::DocDomain) == if from(event, "browser"@) && studied(event) {
            said(event, "domain"@)
        } else {
            None
        },
        feature(event, Feature::Category) == if from(event, "browser"@) {
            said(event, "category"@)
        } else {
            None
        },
        feature(event, Feature::Query) == if from(event, "browser"@) {
            said(event, "search_query"@)
        } else {
            None
        },
        feature(event, Feature::Phase) == if debugging(event) {
            Some("debugging"@)
        } else if implementing(event) {
            Some("implementation"@)
        } else if researching(event) {
            Some("research"@)
        } else if exploring(event) {
            Some("exploration"@)
        } else {
            None
        },
{
    lemma_literals();
    lemma_went_wrong(event);
    lemma_said(event, "project"@);
    lemma_said(event, "app"@);
    lemma_said(event, "tool"@);
    lemma_said(event, "subcommand"@);
    lemma_said(event, "domain"@);
    lemma_said(event, "category"@);
    lemma_said(event, "search_query"@);
    assert(tagged(event) == super::features::after_test_failure(event)) by {
        if tagged(event) {
            let items = event.elements_at("correlated_with"@)->0;
            let i = choose|i: int|
                0 <= i < items.len() && (#[trigger] items[i]).text() == Some(
                    "recent_test_failure"@,
                );
            assert(items[i].text() == Some("recent_test_failure"@));
        }
    }
}

// ---------------------------------------------------------------------
// Counts
// ---------------------------------------------------------------------

proof fn lemma_flag_count(events: Seq<Arc<Json>>, flag: Flag, q: spec_fn(Json) -> bool, n: int)
    requires
        0 <= n <= events.len(),
        forall|e: Json| #[trigger] q(e) == flagged(e, flag),
    ensures
        flag_count(events, flag, n) == how_many(events.take(n), q),
    decreases n,
{
    reveal(Seq::filter);
    let f = |e: Arc<Json>| q(*e);
    if n > 0 {
        lemma_flag_count(events, flag, q, n - 1);
        assert(events.take(n).drop_last() =~= events.take(n - 1));
        assert(events.take(n).last() == events[n - 1]);
        assert(f(events[n - 1]) == q(*events[n - 1]));
    } else {
        assert(events.take(n).filter(f).len() == 0);
    }
}

proof fn lemma_occurrences(
    events: Seq<Arc<Json>>,
    f: Feature,
    name: Seq<char>,
    q: spec_fn(Json) -> bool,
    n: int,
)
    requires
        0 <= n <= events.len(),
        forall|e: Json| #[trigger] q(e) == (feature(e, f) == Some(name)),
    ensures
        occurrences(events, f, name, n) == how_many(events.take(n), q),
    decreases n,
{
    reveal(Seq::filter);
    let g = |e: Arc<Json>| q(*e);
    if n > 0 {
        lemma_occurrences(events, f, name, q, n - 1);
        assert(events.take(n).drop_last() =~= events.take(n - 1));
        assert(events.take(n).last() == events[n - 1]);
        assert(g(events[n - 1]) == q(*events[n - 1]));
    } else {
        assert(events.take(n).filter(g).len() == 0);
    }
}

proof fn lemma_tally(
    events: Seq<Arc<Json>>,
    f: Feature,
    name: Seq<char>,
    q: spec_fn(Json) -> bool,
)
    requires
        events.len() <= u64::MAX,
        forall|e: Json| #[trigger] q(e) == (feature(e, f) == Some(name)),
    ensures
        count_in(tallied(events, f, events.len() as int), name) == how_many(events, q),
        tallied(events, f, events.len() as int).dom().contains(name) <==> how_many(events, q) > 0,
{
    lemma_occurrences(events, f, name, q, events.len() as int);
    assert(events.take(events.len() as int) =~= events);
    super::features::law_tallies_count(events, f, name, events.len() as int);
}

/// The numbers of a summary are those of the events that are commands, failed
/// commands, failed test runs, file changes and copies.
pub proof fn law_a_summary_counts_events<C: Calculator>(
    calc: C,
    session: SessionIntent,
    id: u64,
    events: Seq<Arc<Json>>,
    hours: Seq<Option<u8>>,
    end_ts: u64,
    reason: Seq<char>,
    states: Seq<Arc<Json>>,
)
    requires
        summarizes(calc, session, id, events, hours, end_ts, reason, states),
        events.len() <= u64::MAX,
    ensures
        session.session_id == id,
        session.end_reason@ == reason,
        session.event_count == events.len(),
        session.commands_run == how_many(events, |e: Json| from(e, "terminal"@)),
        session.commands_failed == how_many(
            events,
            |e: Json| from(e, "terminal"@) && went_wrong(e),
        ),
        session.test_failures == how_many(events, |e: Json| test_failure(e)),
        session.friction_resolutions@.len() == how_many(events, |e: Json| test_failure(e)),
        session.files_changed == how_many(events, |e: Json| from(e, "filesystem"@)),
        session.clipboard_events == how_many(events, |e: Json| from(e, "clipboard"@)),
{
    let n = events.len() as int;
    assert(events.take(n) =~= events);
    let terminal = |e: Json| from(e, "terminal"@);
    let wrong = |e: Json| from(e, "terminal"@) && went_wrong(e);
    let test = |e: Json| test_failure(e);
    let file = |e: Json| from(e, "filesystem"@);
    let copy = |e: Json| from(e, "clipboard"@);
    assert forall|e: Json| #[trigger] terminal(e) == flagged(e, Flag::Command) by {
        lemma_reading(e);
    }
    assert forall|e: Json| #[trigger] wrong(e) == flagged(e, Flag::FailedCommand) by {
        lemma_reading(e);
    }
    assert forall|e: Json| #[trigger] test(e) == flagged(e, Flag::FailedTest) by {
        lemma_reading(e);
    }
    assert forall|e: Json| #[trigger] file(e) == flagged(e, Flag::FileChange) by {
        lemma_reading(e);
    }
    assert forall|e: Json| #[trigger] copy(e) == flagged(e, Flag::Clipboard) by {
        lemma_reading(e);
    }
    lemma_flag_count(events, Flag::Command, terminal, n);
    lemma_flag_count(events, Flag::FailedCommand, wrong, n);
    lemma_flag_count(events, Flag::FailedTest, test, n);
    lemma_flag_count(events, Flag::FileChange, file, n);
    lemma_flag_count(events, Flag::Clipboard, copy, n);
    super::features::law_every_failure_has_a_resolution(events, n);
    assert(views(session.friction_resolutions@).len() == session.friction_resolutions@.len());
}

/// A failed command of pytest, jest, vitest, mocha or rspec is a test failure
/// of that tool, with or without a subcommand; so is one of any other tool
/// with the subcommand `test`. The table holds how many there are for each
/// tool, and no tool without one.
pub proof fn law_test_failures_are_counted_by_tool<C: Calculator>(
    calc: C,
    session: SessionIntent,
    id: u64,
    events: Seq<Arc<Json>>,
    hours: Seq<Option<u8>>,
    end_ts: u64,
    reason: Seq<char>,
    states: Seq<Arc<Json>>,
    tool: Seq<char>,
)
    requires
        summarizes(calc, session, id, events, hours, end_ts, reason, states),
        events.len() <= u64::MAX,
    ensures
        count_in(session.test_failure_tools@, tool) == how_many(
            events,
            |e: Json|
                {
                    &&& from(e, "terminal"@)
                    &&& went_wrong(e)
                    &&& said(e, "tool"@) == Some(tool)
                    &&& {
                        ||| tool == "pytest"@
                        ||| tool == "jest"@
                        ||| tool == "vitest"@
                        ||| tool == "mocha"@
                        ||| tool == "rspec"@
                        ||| said(e, "subcommand"@) == Some("test"@)
                    }
                },
        ),
        session.test_failure_tools@.dom().contains(tool) <==> count_in(
            session.test_failure_tools@,
            tool,
        ) > 0,
{
    let q = |e: Json|
        {
            &&& from(e, "terminal"@)
            &&& went_wrong(e)
            &&& said(e, "tool"@) == Some(tool)
            &&& {
                ||| tool == "pytest"@
                ||| tool == "jest"@
                ||| tool == "vitest"@
                ||| tool == "mocha"@
                ||| tool == "rspec"@
                ||| said(e, "subcommand"@) == Some("test"@)
            }
        };
    assert forall|e: Json| #[trigger] q(e) == (feature(e, Feature::FailedTestTool) == Some(
        tool,
    )) by {
        lemma_reading(e);
    }
    lemma_tally(events, Feature::FailedTestTool, tool, q);
}

/// The event tells of a window of the given app that got the focus or was
/// launched.
pub open spec fn app_entered(event: Json, app: Seq<char>) -> bool {
    &&& from(event, "window"@)
    &&& is_of_kind(event, "focus"@) || is_of_kind(event, "launch"@)
    &&& said(event, "app"@) == Some(app)
}

/// The tables of a summary hold, for each name, how many events name that
/// project, enter that app, run that tool, visit that domain, study it, or
/// visit a page of that category.
pub proof fn law_tables_count_events<C: Calculator>(
    calc: C,
    session: SessionIntent,
    id: u64,
    events: Seq<Arc<Json>>,
    hours: Seq<Option<u8>>,
    end_ts: u64,
    reason: Seq<char>,
    states: Seq<Arc<Json>>,
    name: Seq<char>,
)
    requires
        summarizes(calc, session, id, events, hours, end_ts, reason, states),
        events.len() <= u64::MAX,
    ensures
        count_in(session.project_event_counts@, name) == how_many(
            events,
            |e: Json| said(e, "project"@) == Some(name),
        ),
        count_in(session.app_focus_counts@, name) == how_many(
            events,
            |e: Json| app_entered(e, name),
        ),
        count_in(session.tool_counts@, name) == how_many(
            events,
            |e: Json| from(e, "terminal"@) && said(e, "tool"@) == Some(name),
        ),
        count_in(session.browser_domain_counts@, name) == how_many(
            events,
            |e: Json| from(e, "browser"@) && said(e, "domain"@) == Some(name),
        ),
        count_in(session.doc_domain_counts@, name) == how_many(
            events,
            |e: Json| from(e, "browser"@) && studied(e) && said(e, "domain"@) == Some(name),
        ),
        count_in(session.browser_category_counts@, name) == how_many(
            events,
            |e: Json| from(e, "browser"@) && said(e, "category"@) == Some(name),
        ),
{
    let project = |e: Json| said(e, "project"@) == Some(name);
    let app = |e: Json| app_entered(e, name);
    let tool = |e: Json| from(e, "terminal"@) && said(e, "tool"@) == Some(name);
    let domain = |e: Json| from(e, "browser"@) && said(e, "domain"@) == Some(name);
    let doc = |e: Json| from(e, "browser"@) && studied(e) && said(e, "domain"@) == Some(name);
    let category = |e: Json| from(e, "browser"@) && said(e, "category"@) == Some(name);
    assert forall|e: Json| #[trigger] project(e) == (feature(e, Feature::Project) == Some(name)) by {
        lemma_reading(e);
    }
    assert forall|e: Json| #[trigger] app(e) == (feature(e, Feature::App) == Some(name)) by {
        lemma_reading(e);
    }
    assert forall|e: Json| #[trigger] tool(e) == (feature(e, Feature::Tool) == Some(name)) by {
        lemma_reading(e);
    }
    assert forall|e: Json| #[trigger] domain(e) == (feature(e, Feature::Domain) == Some(name)) by {
        lemma_reading(e);
    }
    assert forall|e: Json| #[trigger] doc(e) == (feature(e, Feature::DocDomain) == Some(name)) by {
        lemma_reading(e);
    }
    assert forall|e: Json| #[trigger] category(e) == (feature(e, Feature::Category) == Some(
        name,
    )) by {
        lemma_reading(e);
    }
    lemma_tally(events, Feature::Project, name, project);
    lemma_tally(events, Feature::App, name, app);
    lemma_tally(events, Feature::Tool, name, tool);
    lemma_tally(events, Feature::Domain, name, domain);
    lemma_tally(events, Feature::DocDomain, name, doc);
    lemma_tally(events, Feature::Category, name, category);
}

/// The phases of a session are debugging, implementation, research and
/// exploration; each is counted by the events that show it, and an event
/// shows one at most.
pub proof fn law_phases_count_events<C: Calculator>(
    calc: C,
    session: SessionIntent,
    id: u64,
    events: Seq<Arc<Json>>,
    hours: Seq<Option<u8>>,
    end_ts: u64,
    reason: Seq<char>,
    states: Seq<Arc<Json>>,
    other: Seq<char>,
)
    requires
        summarizes(calc, session, id, events, hours, end_ts, reason, states),
        events.len() <= u64::MAX,
    ensures
        count_in(session.phase_counts@, "debugging"@) == how_many(events, |e: Json| debugging(e)),
        count_in(session.phase_counts@, "implementation"@) == how_many(
            events,
            |e: Json| implementing(e),
        ),
        count_in(session.phase_counts@, "research"@) == how_many(events, |e: Json| researching(e)),
        count_in(session.phase_counts@, "exploration"@) == how_many(events, |e: Json| exploring(e)),
        session.phase_counts@.dom().contains(other) ==> other == "debugging"@ || other
            == "implementation"@ || other == "research"@ || other == "exploration"@,
{
    lemma_literals();
    let d = |e: Json| debugging(e);
    let i = |e: Json| implementing(e);
    let r = |e: Json| researching(e);
    let x = |e: Json| exploring(e);
    let o = |e: Json| feature(e, Feature::Phase) == Some(other);
    assert forall|e: Json| #[trigger] d(e) == (feature(e, Feature::Phase) == Some(
        "debugging"@,
    )) by {
        lemma_reading(e);
    }
    assert forall|e: Json| #[trigger] i(e) == (feature(e, Feature::Phase) == Some(
        "implementation"@,
    )) by {
        lemma_reading(e);
    }
    assert forall|e: Json| #[trigger] r(e) == (feature(e, Feature::Phase) == Some("research"@)) by {
        lemma_reading(e);
    }
    assert forall|e: Json| #[trigger] x(e) == (feature(e, Feature::Phase) == Some(
        "exploration"@,
    )) by {
        lemma_reading(e);
    }
    lemma_tally(events, Feature::Phase, "debugging"@, d);
    lemma_tally(events, Feature::Phase, "implementation"@, i);
    lemma_tally(events, Feature::Phase, "research"@, r);
    lemma_tally(events, Feature::Phase, "exploration"@, x);
    lemma_tally(events, Feature::Phase, other, o);
    if session.phase_counts@.dom().contains(other) {
        let f = |e: Arc<Json>| o(*e);
        let found = events.filter(f);
        assert(found.len() > 0);
        assert(f(found[0]));
        assert forall|e: Json| #[trigger] o(e) implies other == "debugging"@ || other
            == "implementation"@ || other == "research"@ || other == "exploration"@ by {
            lemma_reading(e);
        }
        assert(o(*found[0]));
    }
}

// ---------------------------------------------------------------------
// Lists
// ---------------------------------------------------------------------

proof fn lemma_listed(
    events: Seq<Arc<Json>>,
    f: Feature,
    has: spec_fn(Arc<Json>) -> bool,
    value: spec_fn(Arc<Json>) -> Seq<char>,
    n: int,
)
    requires
        0 <= n <= events.len(),
        forall|e: Arc<Json>| #[trigger] has(e) == (feature(*e, f) is Some),
        forall|e: Arc<Json>| has(e) ==> feature(*e, f) == Some(#[trigger] value(e)),
    ensures
        listed(events, f, n) == events.take(n).filter(has).map_values(value),
    decreases n,
{
    reveal(Seq::filter);
    if n > 0 {
        lemma_listed(events, f, has, value, n - 1);
        assert(events.take(n).drop_last() =~= events.take(n - 1));
        let e = events[n - 1];
        assert(events.take(n).last() == e);
        let before = events.take(n - 1).filter(has);
        if has(e) {
            assert(before.push(e).map_values(value) =~= before.map_values(value).push(value(e)));
            assert(feature(*e, f) == Some(value(e)));
        }
    } else {
        assert(events.take(n).filter(has).map_values(value) =~= Seq::empty());
    }
}

/// The commands of a summary are those of all terminal events that name a
/// tool, and its queries those of all browser events that have one, in the
/// order of the events.
pub proof fn law_lists_follow_the_events<C: Calculator>(
    calc: C,
    session: SessionIntent,
    id: u64,
    events: Seq<Arc<Json>>,
    hours: Seq<Option<u8>>,
    end_ts: u64,
    reason: Seq<char>,
    states: Seq<Arc<Json>>,
)
    requires
        summarizes(calc, session, id, events, hours, end_ts, reason, states),
        events.len() <= u64::MAX,
    ensures
        views(session.command_sequence@) == events.filter(
            |e: Arc<Json>| command_of(*e) is Some,
        ).map_values(|e: Arc<Json>| command_of(*e)->0),
        views(session.search_queries@) == events.filter(
            |e: Arc<Json>| from(*e, "browser"@) && said(*e, "search_query"@) is Some,
        ).map_values(|e: Arc<Json>| said(*e, "search_query"@)->0),
{
    let n = events.len() as int;
    assert(events.take(n) =~= events);
    let has = |e: Arc<Json>| command_of(*e) is Some;
    let value = |e: Arc<Json>| command_of(*e)->0;
    assert forall|e: Json| #[trigger] feature(e, Feature::Command) == command_of(e) by {
        lemma_reading(e);
    }
    lemma_listed(events, Feature::Command, has, value, n);
    let asks = |e: Arc<Json>| from(*e, "browser"@) && said(*e, "search_query"@) is Some;
    let query = |e: Arc<Json>| said(*e, "search_query"@)->0;
    assert forall|e: Json| #[trigger]
        feature(e, Feature::Query) == if from(e, "browser"@) {
            said(e, "search_query"@)
        } else {
            None
        } by {
        lemma_reading(e);
    }
    lemma_listed(events, Feature::Query, asks, query, n);
}

// ---------------------------------------------------------------------
// Resolutions
// ---------------------------------------------------------------------

/// The event shows someone who looks a failure up.
pub open spec fn lookup(event: Json) -> bool {
    from(event, "browser"@) && is_of_kind(event, "navigation"@) && studied(event)
}

/// The event shows someone who tries something else.
pub open spec fn attempt(event: Json) -> bool {
    from(event, "terminal"@) && is_of_kind(event, "command"@)
}

/// `j` is the first of the fifteen events after `i` that is a lookup or an
/// attempt.
pub open spec fn is_response(events: Seq<Arc<Json>>, i: int, j: int) -> bool {
    &&& i < j <= i + 15
    &&& j < events.len()
    &&& lookup(*events[j]) || attempt(*events[j])
    &&& forall|k: int|
        i < k < j ==> !lookup(*#[trigger] events[k]) && !attempt(*events[k])
}

proof fn lemma_response(events: Seq<Arc<Json>>, from_: int, j: int, to: int)
    requires
        0 <= from_ <= j < to <= events.len(),
        lookup(*events[j]) || attempt(*events[j]),
        forall|k: int|
            from_ <= k < j ==> !lookup(*#[trigger] events[k]) && !attempt(*events[k]),
    ensures
        resolution(events, from_, to) == if lookup(*events[j]) {
            "doc_lookup"@
        } else {
            "trial_error"@
        },
    decreases j - from_,
{
    lemma_literals();
    lemma_telling(events, from_);
    if from_ < j {
        assert(!lookup(*events[from_]) && !attempt(*events[from_]));
        lemma_response(events, from_ + 1, j, to);
    }
}

proof fn lemma_no_response(events: Seq<Arc<Json>>, from_: int, to: int)
    requires
        0 <= from_,
        to <= events.len(),
        forall|k: int|
            from_ <= k < to ==> !lookup(*#[trigger] events[k]) && !attempt(*events[k]),
    ensures
        resolution(events, from_, to) == "step_away"@,
    decreases to - from_,
{
    if from_ < to {
        lemma_telling(events, from_);
        assert(!lookup(*events[from_]) && !attempt(*events[from_]));
        lemma_no_response(events, from_ + 1, to);
    }
}

proof fn lemma_telling(events: Seq<Arc<Json>>, i: int)
    ensures
        lookup(*events[i]) == (crate::immediate::buffer::source_of(*events[i]) == "browser"@
            && super::features::kind_of(*events[i]) == "navigation"@
            && super::features::looked_up(*events[i])),
        attempt(*events[i]) == (crate::immediate::buffer::source_of(*events[i]) == "terminal"@
            && super::features::kind_of(*events[i]) == "command"@),
{
    lemma_literals();
    assert(Json::Null.field("category"@) is None);
}

/// A failure was dealt with as the first lookup or attempt among the next
/// fifteen events says; without one, by stepping away.
pub proof fn law_a_resolution_is_the_first_response(events: Seq<Arc<Json>>, i: int, j: int)
    requires
        0 <= i < events.len(),
    ensures
        ({
            let r = resolution(events, i + 1, lookahead(events.len() as int, i));
            &&& is_response(events, i, j) && lookup(*events[j]) ==> r == "doc_lookup"@
            &&& is_response(events, i, j) && attempt(*events[j]) ==> r == "trial_error"@
            &&& (forall|k: int|
                i < k <= i + 15 && k < events.len() ==> !lookup(*#[trigger] events[k]) && !attempt(
                    *events[k],
                )) ==> r == "step_away"@
        }),
{
    lemma_literals();
    let to = lookahead(events.len() as int, i);
    if is_response(events, i, j) {
        lemma_response(events, i + 1, j, to);
    }
    if forall|k: int|
        i < k <= i + 15 && k < events.len() ==> !lookup(*#[trigger] events[k]) && !attempt(
            *events[k],
        ) {
        lemma_no_response(events, i + 1, to);
    }
}

proof fn lemma_resolution_at(events: Seq<Arc<Json>>, i: int, n: int)
    requires
        0 <= i < n <= events.len(),
        test_failure(*events[i]),
    ensures
        ({
            let k = how_many(events.take(i), |e: Json| test_failure(e)) as int;
            &&& 0 <= k < resolutions(events, n).len()
            &&& resolutions(events, n)[k] == resolution(
                events,
                i + 1,
                lookahead(events.len() as int, i),
            )
        }),
    decreases n,
{
    let test = |e: Json| test_failure(e);
    assert forall|e: Json| #[trigger] test(e) == flagged(e, Flag::FailedTest) by {
        lemma_reading(e);
    }
    if n - 1 > i {
        lemma_resolution_at(events, i, n - 1);
    } else {
        super::features::law_every_failure_has_a_resolution(events, i);
        lemma_flag_count(events, Flag::FailedTest, test, i);
        assert(test(*events[i]));
    }
}

/// The summary tells of each failed test run, in order, how it was dealt with.
pub proof fn law_each_failure_has_its_resolution<C: Calculator>(
    calc: C,
    session: SessionIntent,
    id: u64,
    events: Seq<Arc<Json>>,
    hours: Seq<Option<u8>>,
    end_ts: u64,
    reason: Seq<char>,
    states: Seq<Arc<Json>>,
    i: int,
    j: int,
)
    requires
        summarizes(calc, session, id, events, hours, end_ts, reason, states),
        events.len() <= u64::MAX,
        0 <= i < events.len(),
        test_failure(*events[i]),
    ensures
        ({
            let k = how_many(events.take(i), |e: Json| test_failure(e)) as int;
            let r = session.friction_resolutions@[k]@;
            &&& 0 <= k < session.friction_resolutions@.len()
            &&& is_response(events, i, j) && lookup(*events[j]) ==> r == "doc_lookup"@
            &&& is_response(events, i, j) && attempt(*events[j]) ==> r == "trial_error"@
            &&& (forall|k: int|
                i < k <= i + 15 && k < events.len() ==> !lookup(*#[trigger] events[k]) && !attempt(
                    *events[k],
                )) ==> r == "step_away"@
        }),
{
    lemma_resolution_at(events, i, events.len() as int);
    law_a_resolution_is_the_first_response(events, i, j);
    let k = how_many(events.take(i), |e: Json| test_failure(e)) as int;
    assert(views(session.friction_resolutions@)[k] == session.friction_resolutions@[k]@);
}

// ---------------------------------------------------------------------
// Times and order
// ---------------------------------------------------------------------

proof fn lemma_times(events: Seq<Arc<Json>>, n: int)
    requires
        0 <= n <= events.len(),
    ensures
        earliest(events, n) is None ==> forall|i: int|
            0 <= i < n ==> at(*#[trigger] events[i]) == 0,
        earliest(events, n) matches Some(ts) ==> ts > 0 && (exists|i: int|
            0 <= i < n && at(*#[trigger] events[i]) == ts) && (forall|i: int|
            0 <= i < n && at(*#[trigger] events[i]) != 0 ==> ts <= at(*events[i])),
        forall|i: int| 0 <= i < n ==> at(*#[trigger] events[i]) <= latest(events, n),
        latest(events, n) > 0 ==> exists|i: int|
            0 <= i < n && at(*#[trigger] events[i]) == latest(events, n),
    decreases n,
{
    if n > 0 {
        lemma_times(events, n - 1);
        assert(at(*events[n - 1]) == crate::immediate::buffer::time_of(*events[n - 1]));
    }
}

/// A session starts with the earliest of its events that bear a time. It ends
/// at the given time; where that is not known, with the last of its events.
/// Its minutes are the seconds between the two over sixty.
pub proof fn law_sessions_last_from_first_to_last<C: Calculator>(
    calc: C,
    session: SessionIntent,
    id: u64,
    events: Seq<Arc<Json>>,
    hours: Seq<Option<u8>>,
    end_ts: u64,
    reason: Seq<char>,
    states: Seq<Arc<Json>>,
)
    requires
        summarizes(calc, session, id, events, hours, end_ts, reason, states),
        events.len() <= u64::MAX,
        forall|i: int| 0 <= i < events.len() ==> at(*#[trigger] events[i]) < u64::MAX,
    ensures
        (exists|i: int| 0 <= i < events.len() && at(*#[trigger] events[i]) != 0) ==> (exists|i: int|
            0 <= i < events.len() && at(*#[trigger] events[i]) != 0 && at(*events[i])
                == session.start_ts),
        forall|i: int|
            0 <= i < events.len() && at(*#[trigger] events[i]) != 0 ==> session.start_ts <= at(
                *events[i],
            ),
        (forall|i: int| 0 <= i < events.len() ==> at(*#[trigger] events[i]) == 0)
            ==> session.start_ts == end_ts,
        end_ts != 0 ==> session.end_ts == end_ts,
        end_ts == 0 ==> forall|i: int|
            0 <= i < events.len() ==> at(*#[trigger] events[i]) <= session.end_ts,
        end_ts == 0 && session.end_ts != 0 ==> exists|i: int|
            0 <= i < events.len() && at(*#[trigger] events[i]) == session.end_ts,
        session.start_ts <= session.end_ts ==> session.duration_min == quotient(
            calc,
            whole(calc, (session.end_ts - session.start_ts) as u64),
            Quantity { bits: 0x404E_0000_0000_0000 },
        ),
        session.start_ts > session.end_ts ==> session.duration_min == quotient(
            calc,
            whole(calc, 0),
            Quantity { bits: 0x404E_0000_0000_0000 },
        ),
{
    lemma_times(events, events.len() as int);
}

proof fn lemma_first_flag(events: Seq<Arc<Json>>, flag: Flag, from_: int)
    requires
        0 <= from_ <= events.len(),
    ensures
        first_flag(events, flag, from_) is None ==> forall|i: int|
            from_ <= i < events.len() ==> !flagged(*#[trigger] events[i], flag),
        first_flag(events, flag, from_) matches Some(k) ==> from_ <= k < events.len() && flagged(
            *events[k],
            flag,
        ) && forall|i: int| from_ <= i < k ==> !flagged(*#[trigger] events[i], flag),
    decreases events.len() - from_,
{
    if from_ < events.len() {
        lemma_first_flag(events, flag, from_ + 1);
    }
}

/// Where there was both research and a failed command, the summary tells
/// which of the two came first; else it does not tell.
pub proof fn law_search_before_try_compares_the_first_ones<C: Calculator>(
    calc: C,
    session: SessionIntent,
    id: u64,
    events: Seq<Arc<Json>>,
    hours: Seq<Option<u8>>,
    end_ts: u64,
    reason: Seq<char>,
    states: Seq<Arc<Json>>,
    r: int,
    f: int,
)
    requires
        summarizes(calc, session, id, events, hours, end_ts, reason, states),
        events.len() <= u64::MAX,
    ensures
        is_first(events, |e: Json| research(e), r) && is_first(
            events,
            |e: Json| from(e, "terminal"@) && went_wrong(e),
            f,
        ) ==> session.search_before_try == Some(r < f),
        session.search_before_try is None <==> (forall|i: int|
            0 <= i < events.len() ==> !research(*#[trigger] events[i])) || (forall|i: int|
            0 <= i < events.len() ==> !(from(*#[trigger] events[i], "terminal"@) && went_wrong(
                *events[i],
            ))),
{
    assert forall|e: Json| #[trigger] research(e) == flagged(e, Flag::Research) by {
        lemma_reading(e);
    }
    assert forall|e: Json| (#[trigger] from(e, "terminal"@) && went_wrong(e)) == flagged(
        e,
        Flag::FailedCommand,
    ) by {
        lemma_reading(e);
    }
    lemma_first_flag(events, Flag::Research, 0);
    lemma_first_flag(events, Flag::FailedCommand, 0);
    let a = |e: Json| research(e);
    let b = |e: Json| from(e, "terminal"@) && went_wrong(e);
    let found = first_flag(events, Flag::Research, 0);
    let failed = first_flag(events, Flag::FailedCommand, 0);
    if found is Some {
        assert(research(*events[found->0]));
    }
    if failed is Some {
        assert(from(*events[failed->0], "terminal"@) && went_wrong(*events[failed->0]));
    }
    if is_first(events, a, r) && is_first(events, b, f) {
        assert(a(*events[r]) && b(*events[f]));
        assert(from(*events[f], "terminal"@));
        assert(flagged(*events[r], Flag::Research) && flagged(*events[f], Flag::FailedCommand));
        if found->0 < r {
            assert(!a(*events[found->0]));
        }
        if failed->0 < f {
            assert(!b(*events[failed->0]));
        }
    }
    assert(failed is None ==> forall|i: int|
        0 <= i < events.len() ==> !(from(*#[trigger] events[i], "terminal"@) && went_wrong(
            *events[i],
        )));
    assert(found is None ==> forall|i: int|
        0 <= i < events.len() ==> !research(*#[trigger] events[i]));
}

/// The event names the given branch of a project.
pub open spec fn on_branch(event: Json, project: Seq<char>, branch: Seq<char>) -> bool {
    said(event, "project"@) == Some(project) && said(event, "branch"@) == Some(branch)
}

spec fn branch_here(events: Seq<Arc<Json>>, i: int) -> Option<(Seq<char>, Seq<char>)> {
    super::features::branch_at(*events[i])
}

/// The branches of a project among the first `n` events are those that its
/// events name, each noted whenever it is another one than the last; the last
/// one is that of the last event.
pub proof fn law_branches_follow_the_events(
    events: Seq<Arc<Json>>,
    project: Seq<char>,
    n: int,
)
    requires
        0 <= n <= events.len(),
    ensures
        ({
            let branches = branches_of(events, project, n);
            &&& forall|k: int|
                0 <= k < branches.len() ==> exists|i: int|
                    0 <= i < n && on_branch(*events[i], project, #[trigger] branches[k])
            &&& forall|i: int, branch: Seq<char>|
                0 <= i < n && #[trigger] on_branch(*events[i], project, branch)
                    ==> branches.contains(branch)
            &&& forall|k: int|
                0 <= k < branches.len() - 1 ==> #[trigger] branches[k] != branches[k + 1]
            &&& forall|i: int, branch: Seq<char>|
                0 <= i < n && #[trigger] on_branch(*events[i], project, branch) && (forall|j: int|
                    i < j < n ==> !(said(*#[trigger] events[j], "project"@) == Some(project)
                        && said(*events[j], "branch"@) is Some)) ==> branches.len() > 0
                    && branches.last() == branch
        }),
    decreases n,
{
    if n > 0 {
        law_branches_follow_the_events(events, project, n - 1);
        assert(Json::Null.field("project"@) is None);
        assert(Json::Null.field("branch"@) is None);
        let before = branches_of(events, project, n - 1);
        let branches = branches_of(events, project, n);
        let here = branch_here(events, n - 1);
        if here is Some && (here->Some_0).0 == project {
            let branch = (here->Some_0).1;
            assert(on_branch(*events[n - 1], project, branch));
            assert(branches.last() == branch);
            assert(branches.contains(branch)) by {
                assert(branches[branches.len() - 1] == branch);
            }
        } else {
            assert(branches == before);
            assert(!(said(*events[n - 1], "project"@) == Some(project) && said(
                *events[n - 1],
                "branch"@,
            ) is Some));
        }
        assert forall|k: int| 0 <= k < branches.len() implies exists|i: int|
            0 <= i < n && on_branch(*events[i], project, #[trigger] branches[k]) by {
            if k < before.len() {
                assert(branches[k] == before[k]);
                let i = choose|i: int| 0 <= i < n - 1 && on_branch(*events[i], project, before[k]);
                assert(on_branch(*events[i], project, branches[k]));
            } else {
                assert(on_branch(*events[n - 1], project, branches[k]));
            }
        }
        assert forall|i: int, branch: Seq<char>|
            0 <= i < n && #[trigger] on_branch(
                *events[i],
                project,
                branch,
            ) implies branches.contains(branch) by {
            if i < n - 1 {
                assert(before.contains(branch));
                let k = choose|k: int| 0 <= k < before.len() && before[k] == branch;
                assert(branches[k] == branch);
            }
        }
    }
}

// ---------------------------------------------------------------------
// Immediate states
// ---------------------------------------------------------------------

/// The blocking score that a state bears; zero where it bears none.
pub open spec fn score_in<C: Calculator>(calc: C, state: Json) -> Quantity {
    match state.field("blocking_score"@) {
        Some(Json::Number(Number::Fraction(q))) => *q,
        Some(Json::Number(Number::Natural(n))) => whole(calc, *n),
        Some(Json::Number(Number::Negative(n))) => difference(
            calc,
            Quantity { bits: 0 },
            whole(calc, (0 - *n) as u64),
        ),
        _ => Quantity { bits: 0 },
    }
}

/// The state is that of an error loop with the given tool and duration, and
/// the loop says what the state says.
pub open spec fn shows_loop(state: Json, e: ErrorLoopView) -> bool {
    &&& state.text_at("signal"@) == Some("error_loop"@)
    &&& state.field("error_context"@) matches Some(ctx) && {
        &&& e.tool == ctx.text_at("tool"@).unwrap_or(Seq::empty())
        &&& e.subcommand == ctx.text_at("subcommand"@)
        &&& e.failure_count == ctx.natural_at("failure_count"@).unwrap_or(0)
        &&& e.search_count == ctx.natural_at("search_count"@).unwrap_or(0)
        &&& e.duration_sec == ctx.natural_at("duration_sec"@).unwrap_or(0)
        &&& e.domain == ctx.text_at("domain"@)
    }
}

proof fn lemma_episodes<C: Calculator>(
    calc: C,
    states: Seq<Arc<Json>>,
    name: Seq<char>,
    signal: spec_fn(Json) -> bool,
    open: spec_fn(Json) -> bool,
    n: int,
)
    requires
        0 <= n <= states.len(),
        states.len() <= u64::MAX,
        forall|s: Json| #[trigger] signal(s) == (s.text_at("signal"@) == Some(name)),
        forall|s: Json| #[trigger]
            open(s) == (s.text_at("gate"@) is Some && says_open(s.text_at("gate"@)->0)),
    ensures
        ({
            let e = episodes(calc, Episodes::none(), states, n);
            &&& name != "none"@ ==> count_in(e.signals, name) == how_many(states.take(n), signal)
            &&& !e.signals.dom().contains("none"@)
            &&& how_many(states.take(n), signal) <= n
            &&& e.gate_opens == how_many(states.take(n), open)
            &&& forall|i: int|
                0 <= i < n ==> score_in(calc, *#[trigger] states[i]).rank() <= e.max_score.rank()
            &&& e.max_score.rank() >= 0
            &&& e.max_score == (Quantity { bits: 0 }) || exists|i: int|
                0 <= i < n && score_in(calc, *#[trigger] states[i]) == e.max_score
            &&& n > 0 ==> e.final_score == score_in(calc, *states[n - 1])
            &&& n > 0 ==> e.first_score == Some(score_in(calc, *states[0]))
            &&& n == 0 ==> e.final_score == (Quantity { bits: 0 }) && e.first_score is None
        }),
    decreases n,
{
    reveal(Seq::filter);
    let f = |s: Arc<Json>| signal(*s);
    let g = |s: Arc<Json>| open(*s);
    if n > 0 {
        lemma_episodes(calc, states, name, signal, open, n - 1);
        lemma_literals();
        assert(states.take(n).drop_last() =~= states.take(n - 1));
        let s = states[n - 1];
        assert(states.take(n).last() == s);
        assert(f(s) == signal(*s));
        assert(g(s) == open(*s));
        lemma_open_in(states, n - 1);
        assert(score_in(calc, *states[n - 1]) == score_of(calc, *states[n - 1]));
        let before = episodes(calc, Episodes::none(), states, n - 1);
        let after = episodes(calc, Episodes::none(), states, n);
        if after.max_score == before.max_score {
        } else {
            assert(score_in(calc, *states[n - 1]) == after.max_score);
        }
        assert forall|i: int| 0 <= i < n implies score_in(calc, *#[trigger] states[i]).rank()
            <= after.max_score.rank() by {
            if i < n - 1 {
                assert(score_in(calc, *states[i]).rank() <= before.max_score.rank());
            }
        }
    } else {
        assert(states.take(n).filter(f).len() == 0);
        assert(states.take(n).filter(g).len() == 0);
    }
}

proof fn lemma_open_in(states: Seq<Arc<Json>>, i: int)
    ensures
        super::summary::open_in(*states[i]) == (states[i].text_at("gate"@) is Some && says_open(
            states[i].text_at("gate"@)->0,
        )),
{
    reveal_strlit("open");
    assert("open"@ =~= seq!['o', 'p', 'e', 'n']);
}

/// A summary counts the states by their signal, leaving out those that say
/// "none" or nothing, and those in which the intervention gate is open. Its
/// highest score is that of a state and none is above it; its final score is
/// that of the last state, and the trend is how far that is from the first.
pub proof fn law_a_summary_counts_states<C: Calculator>(
    calc: C,
    session: SessionIntent,
    id: u64,
    events: Seq<Arc<Json>>,
    hours: Seq<Option<u8>>,
    end_ts: u64,
    reason: Seq<char>,
    states: Seq<Arc<Json>>,
    name: Seq<char>,
)
    requires
        summarizes(calc, session, id, events, hours, end_ts, reason, states),
        states.len() <= u64::MAX,
    ensures
        name != "none"@ ==> count_in(session.immediate_signal_counts@, name) == how_many(
            states,
            |s: Json| s.text_at("signal"@) == Some(name),
        ),
        !session.immediate_signal_counts@.dom().contains("none"@),
        session.gate_open_count == how_many(
            states,
            |s: Json| s.text_at("gate"@) is Some && says_open(s.text_at("gate"@)->0),
        ),
        forall|i: int|
            0 <= i < states.len() ==> score_in(calc, *#[trigger] states[i]).rank()
                <= session.max_blocking_score.rank(),
        session.max_blocking_score.rank() >= 0,
        session.max_blocking_score == (Quantity { bits: 0 }) || exists|i: int|
            0 <= i < states.len() && score_in(calc, *#[trigger] states[i])
                == session.max_blocking_score,
        states.len() > 0 ==> session.final_blocking_score == score_in(
            calc,
            *states[states.len() - 1],
        ),
        states.len() > 0 ==> session.blocking_score_trend == difference(
            calc,
            score_in(calc, *states[states.len() - 1]),
            score_in(calc, *states[0]),
        ),
        states.len() == 0 ==> session.final_blocking_score == (Quantity { bits: 0 })
            && session.blocking_score_trend == difference(
            calc,
            Quantity { bits: 0 },
            Quantity { bits: 0 },
        ),
{
    assert(states.take(states.len() as int) =~= states);
    lemma_episodes(
        calc,
        states,
        name,
        |s: Json| s.text_at("signal"@) == Some(name),
        |s: Json| s.text_at("gate"@) is Some && says_open(s.text_at("gate"@)->0),
        states.len() as int,
    );
}

proof fn lemma_loops_shown<C: Calculator>(calc: C, states: Seq<Arc<Json>>, n: int)
    requires
        0 <= n <= states.len(),
    ensures
        ({
            let loops = episodes(calc, Episodes::none(), states, n).loops;
            &&& forall|i: int|
                0 <= i < loops.len() ==> exists|k: int|
                    0 <= k < n && shows_loop(*states[k], #[trigger] loops[i])
            &&& forall|i: int, j: int|
                0 <= i < j < loops.len() ==> (#[trigger] loops[i]).tool != (
                #[trigger] loops[j]).tool
            &&& forall|k: int, e: ErrorLoopView|
                0 <= k < n && #[trigger] shows_loop(*states[k], e) ==> exists|i: int|
                    0 <= i < loops.len() && (#[trigger] loops[i]).tool == e.tool
                        && loops[i].duration_sec >= e.duration_sec
        }),
    decreases n,
{
    lemma_literals();
    assert forall|k: int, e: ErrorLoopView|
        0 <= k < states.len() && #[trigger] shows_loop(*states[k], e) implies loop_of(*states[k])
        == Some(e) by {
        assert(loop_of(*states[k]) is Some);
        assert(loop_of(*states[k])->0 =~= e);
    }
    super::summary::law_longest_loop_per_tool(calc, Episodes::none(), states, n);
    let loops = episodes(calc, Episodes::none(), states, n).loops;
    assert forall|k: int, e: ErrorLoopView|
        0 <= k < n && #[trigger] shows_loop(*states[k], e) implies exists|i: int|
        0 <= i < loops.len() && (#[trigger] loops[i]).tool == e.tool && loops[i].duration_sec
            >= e.duration_sec by {
        assert(loop_of(*states[k]) == Some(e));
    }
    if n > 0 {
        lemma_loops_shown(calc, states, n - 1);
        let before = episodes(calc, Episodes::none(), states, n - 1).loops;
        assert forall|i: int| 0 <= i < loops.len() implies exists|k: int|
            0 <= k < n && shows_loop(*states[k], #[trigger] loops[i]) by {
            let here = loop_here(states, n - 1);
            if i < before.len() && loops[i] == before[i] {
                let k = choose|k: int| 0 <= k < n - 1 && shows_loop(*states[k], before[i]);
                assert(shows_loop(*states[k], loops[i]));
            } else {
                assert(here is Some);
                assert(loops == with_loop(before, here->0));
                lemma_with_loop(before, here->0, i);
                assert(loops[i] == here->0);
                assert(shows_loop(*states[n - 1], loops[i]));
            }
        }
    }
}

spec fn loop_here(states: Seq<Arc<Json>>, i: int) -> Option<ErrorLoopView> {
    loop_of(*states[i])
}

proof fn lemma_with_loop(loops: Seq<ErrorLoopView>, e: ErrorLoopView, i: int)
    requires
        0 <= i < with_loop(loops, e).len(),
    ensures
        with_loop(loops, e)[i] == e || i < loops.len() && with_loop(loops, e)[i] == loops[i],
{
    lemma_loop_position(loops, e.tool, 0);
}

proof fn lemma_loop_position(loops: Seq<ErrorLoopView>, tool: Seq<char>, from_: int)
    requires
        0 <= from_,
    ensures
        loop_at(loops, tool, from_) matches Some(i) ==> from_ <= i < loops.len(),
    decreases loops.len() - from_,
{
    if from_ < loops.len() {
        lemma_loop_position(loops, tool, from_ + 1);
    }
}

/// A summary tells of one error loop for each tool that had one: it is that of
/// a state of the session, in all that it says, and none of the tool lasted
/// longer.
pub proof fn law_a_summary_keeps_the_longest_loops<C: Calculator>(
    calc: C,
    session: SessionIntent,
    id: u64,
    events: Seq<Arc<Json>>,
    hours: Seq<Option<u8>>,
    end_ts: u64,
    reason: Seq<char>,
    states: Seq<Arc<Json>>,
)
    requires
        summarizes(calc, session, id, events, hours, end_ts, reason, states),
        states.len() <= u64::MAX,
    ensures
        forall|i: int|
            0 <= i < session.error_loops@.len() ==> exists|k: int|
                0 <= k < states.len() && shows_loop(*states[k], (#[trigger] session.error_loops@[i])@),
        forall|i: int, j: int|
            0 <= i < j < session.error_loops@.len() ==> (#[trigger] session.error_loops@[i])@.tool
                != (#[trigger] session.error_loops@[j])@.tool,
        forall|k: int, e: ErrorLoopView|
            0 <= k < states.len() && #[trigger] shows_loop(*states[k], e) ==> exists|i: int|
                0 <= i < session.error_loops@.len() && (#[trigger] session.error_loops@[i])@.tool
                    == e.tool && session.error_loops@[i]@.duration_sec >= e.duration_sec,
{
    let n = states.len() as int;
    lemma_loops_shown(calc, states, n);
    let loops = episodes(calc, Episodes::none(), states, n).loops;
    assert(super::loop_views(session.error_loops@) == loops);
    assert forall|i: int| 0 <= i < loops.len() implies #[trigger] loops[i]
        == session.error_loops@[i]@ by {}
    assert forall|i: int| 0 <= i < session.error_loops@.len() implies exists|k: int|
        0 <= k < states.len() && shows_loop(*states[k], (#[trigger] session.error_loops@[i])@) by {
        let k = choose|k: int| 0 <= k < n && shows_loop(*states[k], loops[i]);
        assert(shows_loop(*states[k], session.error_loops@[i]@));
    }
    assert forall|k: int, e: ErrorLoopView|
        0 <= k < states.len() && #[trigger] shows_loop(*states[k], e) implies exists|i: int|
        0 <= i < session.error_loops@.len() && (#[trigger] session.error_loops@[i])@.tool == e.tool
            && session.error_loops@[i]@.duration_sec >= e.duration_sec by {
        let i = choose|i: int|
            0 <= i < loops.len() && (#[trigger] loops[i]).tool == e.tool && loops[i].duration_sec
                >= e.duration_sec;
        assert(session.error_loops@[i]@ == loops[i]);
    }
    assert forall|i: int, j: int| 0 <= i < j < session.error_loops@.len() implies (
    #[trigger] session.error_loops@[i])@.tool != (#[trigger] session.error_loops@[j])@.tool by {
        assert(loops[i].tool != loops[j].tool);
    }
}

// ---------------------------------------------------------------------
// Hours and boundaries
// ---------------------------------------------------------------------

/// An hour is listed exactly when some event was in it.
pub proof fn law_each_hour_is_listed(hours: Seq<Option<u8>>, hour: u8, n: int)
    requires
        0 <= n <= hours.len(),
    ensures
        distinct(hours, n).contains(hour) <==> exists|i: int|
            0 <= i < n && #[trigger] hours[i] == Some(hour),
    decreases n,
{
    if n > 0 {
        law_each_hour_is_listed(hours, hour, n - 1);
        let before = distinct(hours, n - 1);
        let after = distinct(hours, n);
        let last = hours[n - 1];
        if last is Some && !before.contains(last->0) {
            assert(after == before.push(last->0));
            assert(after[before.len() as int] == last->0);
            if before.contains(hour) {
                let k = choose|k: int| 0 <= k < before.len() && before[k] == hour;
                assert(after[k] == hour);
            }
            if after.contains(hour) && hour != last->0 {
                let k = choose|k: int| 0 <= k < after.len() && after[k] == hour;
                assert(before[k] == hour);
            }
        }
        if last == Some(hour) {
            assert(hours[n - 1] == Some(hour));
            assert(after.contains(hour));
        }
        if before.contains(hour) {
            let i = choose|i: int| 0 <= i < n - 1 && #[trigger] hours[i] == Some(hour);
            assert(0 <= i < n && hours[i] == Some(hour));
        }
    } else {
        assert(!distinct(hours, n).contains(hour));
    }
}

/// An event ends a session exactly when it is of the kind of a boundary. It
/// gives its category as the reason, and the states of the session are those
/// that bear its number.
pub proof fn law_boundaries_end_sessions(event: Json, id: u64)
    ensures
        super::layer::boundary(event) <==> event.text_at("kind"@) == Some("session_boundary"@),
        said(event, "category"@) matches Some(reason) ==> super::layer::reason_of(event) == reason,
        said(event, "category"@) is None ==> super::layer::reason_of(event) == "unclassified"@,
        super::layer::of_session(id)(event) <==> event.natural_at("session_id"@) == Some(id),
{
    reveal_strlit("session_boundary");
    assert("session_boundary"@.len() == 16);
}

/// A boundary empties the buffers when a session was under way, and begins the
/// session that it names; any other event is added to those of its session,
/// whose number is that of its first event.
pub proof fn law_events_gather_until_a_boundary(
    before: super::layer::DistillerView,
    event: Json,
    shared: Arc<Json>,
)
    ensures
        ({
            let after = before.after(event, shared);
            let ends = event.text_at("kind"@) == Some("session_boundary"@);
            let id = event.natural_at("session_id"@);
            &&& ends ==> after.session_id == id
            &&& ends && before.session_id is Some ==> after.events.len() == 0
                && after.immediate.len() == 0
            &&& ends && before.session_id is None ==> after.events == before.events
                && after.immediate == before.immediate
            &&& !ends ==> after.events == before.events.push(shared) && after.immediate
                == before.immediate
            &&& !ends && before.session_id is Some ==> after.session_id == before.session_id
            &&& !ends && before.session_id is None ==> after.session_id == id
        }),
{
    reveal_strlit("session_boundary");
    assert("session_boundary"@.len() == 16);
}

// ---------------------------------------------------------------------
// What a session was mostly about
// ---------------------------------------------------------------------

/// How many events name a project.
pub open spec fn mentions(events: Seq<Arc<Json>>, project: Seq<char>) -> nat {
    how_many(events, |e: Json| said(e, "project"@) == Some(project))
}

/// The primary project of a session is one that no other is mentioned more
/// often than; there is none exactly when no project is mentioned. The
/// dominant phase is one that no other is shown more often than.
pub proof fn law_the_most_frequent_come_first<C: Calculator>(
    calc: C,
    session: SessionIntent,
    id: u64,
    events: Seq<Arc<Json>>,
    hours: Seq<Option<u8>>,
    end_ts: u64,
    reason: Seq<char>,
    states: Seq<Arc<Json>>,
    other: Seq<char>,
)
    requires
        summarizes(calc, session, id, events, hours, end_ts, reason, states),
        events.len() <= u64::MAX,
    ensures
        session.primary_project matches Some(project) ==> mentions(events, project@) > 0 && mentions(
            events,
            other,
        ) <= mentions(events, project@),
        session.primary_project is None ==> mentions(events, other) == 0,
        count_in(session.phase_counts@, other) <= count_in(
            session.phase_counts@,
            session.dominant_phase@,
        ),
        (forall|phase: Seq<char>| !#[trigger] session.phase_counts@.dom().contains(phase))
            ==> session.dominant_phase@ == "implementation"@,
{
    let n = events.len() as int;
    lemma_mentions(events, other);
    if session.primary_project is Some {
        let project = session.primary_project->0@;
        lemma_mentions(events, project);
        assert(session.project_event_counts@.dom().contains(project));
        if session.project_event_counts@.dom().contains(other) {
            assert(session.project_event_counts@[other] <= session.project_event_counts@[project]);
        }
    }
    if session.phase_counts@.dom().contains(other) {
        assert(session.phase_counts@[other] <= session.phase_counts@[session.dominant_phase@]);
    }
}

proof fn lemma_mentions(events: Seq<Arc<Json>>, project: Seq<char>)
    requires
        events.len() <= u64::MAX,
    ensures
        ({
            let table = tallied(events, Feature::Project, events.len() as int);
            &&& count_in(table, project) == mentions(events, project)
            &&& table.dom().contains(project) <==> mentions(events, project) > 0
        }),
{
    let q = |e: Json| said(e, "project"@) == Some(project);
    assert forall|e: Json| #[trigger] q(e) == (feature(e, Feature::Project) == Some(project)) by {
        lemma_reading(e);
    }
    lemma_tally(events, Feature::Project, project, q);
}

} // verus!
