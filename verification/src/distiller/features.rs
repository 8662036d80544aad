//! What the summarizer reads off the normalized events of a session.

use crate::immediate::buffer::{
    entity_text, event_entities, event_ts, is_from, source_of, time_of,
};
use crate::immediate::recognizers::{command_token, failed, is_failure, token};
use crate::json::Json;
use crate::table::{total, Table};
use crate::text::{lemma_views_push, opt_view, same, views};
use std::sync::Arc;
use vstd::prelude::*;

verus! {

/// How many subsequent events to look at when classifying how a test
/// failure was resolved.
pub const RESOLUTION_LOOKAHEAD: usize = 15;

// ---------------------------------------------------------------------
// Single events
// ---------------------------------------------------------------------

/// The kind of an event, or the empty text.
pub open spec fn kind_of(event: Json) -> Seq<char> {
    match event.text_at("kind"@) {
        Some(kind) => kind,
        None => Seq::empty(),
    }
}

fn is_kind(event: &Json, kind: &str) -> (r: bool)
    ensures
        r == (kind_of(*event) == kind@),
{
    match event.get_text("kind") {
        Some(k) => same(k.as_str(), kind),
        None => {
            proof {
                reveal_strlit("");
                assert(""@ =~= Seq::<char>::empty());
            }
            same("", kind)
        },
    }
}

/// An entity of an event has the given text.
pub open spec fn entity_is(event: Json, key: Seq<char>, value: Seq<char>) -> bool {
    entity_text(event, key) == Some(value)
}

fn has_entity(event: &Json, key: &str, value: &str) -> (r: bool)
    ensures
        r == entity_is(*event, key@, value@),
{
    match event_entities(event).get_text(key) {
        Some(text) => same(text.as_str(), value),
        None => false,
    }
}

/// A page that someone who is stuck looks things up on.
pub open spec fn looked_up(event: Json) -> bool {
    entity_is(event, "category"@, "documentation"@) || entity_is(
        event,
        "category"@,
        "error_lookup"@,
    )
}

fn is_lookup(event: &Json) -> (r: bool)
    ensures
        r == looked_up(*event),
{
    has_entity(event, "category", "documentation") || has_entity(event, "category", "error_lookup")
}

/// A tool whose mere invocation (regardless of subcommand) indicates a test
/// run.
pub open spec fn test_tool(tool: Seq<char>) -> bool {
    tool == "pytest"@ || tool == "jest"@ || tool == "vitest"@ || tool == "mocha"@ || tool
        == "rspec"@
}

/// The command of an event runs tests.
pub open spec fn ran_tests(event: Json) -> bool {
    ||| entity_is(event, "subcommand"@, "test"@)
    ||| entity_text(event, "tool"@) matches Some(tool) && test_tool(tool)
}

fn is_test_run(event: &Json) -> (r: bool)
    ensures
        r == ran_tests(*event),
{
    if has_entity(event, "subcommand", "test") {
        return true;
    }
    match event_entities(event).get_text("tool") {
        Some(tool) => {
            let t = tool.as_str();
            same(t, "pytest") || same(t, "jest") || same(t, "vitest") || same(t, "mocha") || same(
                t,
                "rspec",
            )
        },
        None => false,
    }
}

/// The event is correlated with a test failure a short while ago.
pub open spec fn after_test_failure(event: Json) -> bool {
    event.elements_at("correlated_with"@) matches Some(items) && exists|i: int|
        0 <= i < items.len() && (#[trigger] items[i]).text() == Some("recent_test_failure"@)
}

fn is_after_test_failure(event: &Json) -> (r: bool)
    ensures
        r == after_test_failure(*event),
{
    match event.get_array("correlated_with") {
        Some(items) => {
            for i in 0..items.len()
                invariant
                    event.elements_at("correlated_with"@) == Some(items@),
                    forall|j: int|
                        0 <= j < i ==> (#[trigger] items@[j]).text() != Some(
                            "recent_test_failure"@,
                        ),
            {
                if let Some(text) = items[i].as_text() {
                    if same(text.as_str(), "recent_test_failure") {
                        assert(items@[i as int].text() == Some("recent_test_failure"@));
                        return true;
                    }
                }
            }
            false
        },
        None => false,
    }
}

/// The coarse work phase of a single event. Events that don't carry phase
/// signal on their own (window blur/focus churn, passive process/calendar
/// snapshots, clipboard) have none.
pub open spec fn phase_of(event: Json) -> Option<Seq<char>> {
    let kind = kind_of(event);
    if kind == "command"@ {
        if failed(event) {
            Some("debugging"@)
        } else {
            Some("implementation"@)
        }
    } else if kind == "file_change"@ {
        Some("implementation"@)
    } else if kind == "navigation"@ {
        if after_test_failure(event) || entity_is(event, "category"@, "error_lookup"@) {
            Some("debugging"@)
        } else if entity_text(event, "search_query"@) is Some || entity_is(
            event,
            "category"@,
            "documentation"@,
        ) {
            Some("research"@)
        } else {
            Some("exploration"@)
        }
    } else {
        None
    }
}

/// Classifies a single normalized event into a coarse work phase.
pub fn classify_phase(event: &Json) -> (r: Option<&'static str>)
    ensures
        crate::text::opt_str_view(r) == phase_of(*event),
{
    if is_kind(event, "command") {
        if is_failure(event) {
            Some("debugging")
        } else {
            Some("implementation")
        }
    } else if is_kind(event, "file_change") {
        Some("implementation")
    } else if is_kind(event, "navigation") {
        if is_after_test_failure(event) || has_entity(event, "category", "error_lookup") {
            Some("debugging")
        } else if event_entities(event).has_text("search_query") || has_entity(
            event,
            "category",
            "documentation",
        ) {
            Some("research")
        } else {
            Some("exploration")
        }
    } else {
        None
    }
}

// ---------------------------------------------------------------------
// Flags
// ---------------------------------------------------------------------

/// What an event can be counted as.
#[derive(Debug, Clone, Copy)]
pub enum Flag {
    Command,
    FailedCommand,
    FailedTest,
    FileChange,
    Clipboard,
    /// A navigation to look something up: a search, or a page of
    /// documentation or on an error.
    Research,
}

pub open spec fn flagged(event: Json, flag: Flag) -> bool {
    match flag {
        Flag::Command => source_of(event) == "terminal"@,
        Flag::FailedCommand => source_of(event) == "terminal"@ && failed(event),
        Flag::FailedTest => source_of(event) == "terminal"@ && failed(event) && ran_tests(event),
        Flag::FileChange => source_of(event) == "filesystem"@,
        Flag::Clipboard => source_of(event) == "clipboard"@,
        Flag::Research => source_of(event) == "browser"@ && (entity_text(
            event,
            "search_query"@,
        ) is Some || looked_up(event)),
    }
}

pub fn has_flag(event: &Json, flag: Flag) -> (r: bool)
    ensures
        r == flagged(*event, flag),
{
    match flag {
        Flag::Command => is_from(event, "terminal"),
        Flag::FailedCommand => is_from(event, "terminal") && is_failure(event),
        Flag::FailedTest => is_from(event, "terminal") && is_failure(event) && is_test_run(event),
        Flag::FileChange => is_from(event, "filesystem"),
        Flag::Clipboard => is_from(event, "clipboard"),
        Flag::Research => is_from(event, "browser") && (event_entities(event).has_text(
            "search_query",
        ) || is_lookup(event)),
    }
}

/// How many of the first `n` events have a flag.
pub open spec fn flag_count(events: Seq<Arc<Json>>, flag: Flag, n: int) -> nat
    decreases n,
{
    if n <= 0 {
        0
    } else {
        flag_count(events, flag, n - 1) + if flagged(*events[n - 1], flag) {
            1nat
        } else {
            0
        }
    }
}

/// The first event from position `from` on with a flag.
pub open spec fn first_flag(events: Seq<Arc<Json>>, flag: Flag, from: int) -> Option<int>
    decreases events.len() - from,
{
    if from < 0 || from >= events.len() {
        None
    } else if flagged(*events[from], flag) {
        Some(from)
    } else {
        first_flag(events, flag, from + 1)
    }
}

/// Failed commands are commands, and failed tests are failed commands.
pub proof fn law_failures_are_commands(events: Seq<Arc<Json>>, n: int)
    requires
        0 <= n,
    ensures
        flag_count(events, Flag::FailedTest, n) <= flag_count(events, Flag::FailedCommand, n),
        flag_count(events, Flag::FailedCommand, n) <= flag_count(events, Flag::Command, n),
        flag_count(events, Flag::Command, n) <= n,
    decreases n,
{
    if n > 0 {
        law_failures_are_commands(events, n - 1);
    }
}

proof fn lemma_same_flags(a: Seq<Arc<Json>>, b: Seq<Arc<Json>>, flag: Flag, n: int)
    requires
        0 <= n <= a.len(),
    ensures
        flag_count(a + b, flag, n) == flag_count(a, flag, n),
    decreases n,
{
    if n > 0 {
        lemma_same_flags(a, b, flag, n - 1);
        assert((a + b)[n - 1] == a[n - 1]);
    }
}

proof fn lemma_flags_add_up(a: Seq<Arc<Json>>, b: Seq<Arc<Json>>, flag: Flag, n: int)
    requires
        0 <= n <= b.len(),
    ensures
        flag_count(a + b, flag, a.len() + n) == flag_count(a, flag, a.len() as int) + flag_count(
            b,
            flag,
            n,
        ),
    decreases n,
{
    if n == 0 {
        lemma_same_flags(a, b, flag, a.len() as int);
    } else {
        lemma_flags_add_up(a, b, flag, n - 1);
        assert((a + b)[a.len() + n - 1] == b[n - 1]);
    }
}

/// Two lists in a row have as many events with a flag as the two together.
pub proof fn law_flags_add_up(a: Seq<Arc<Json>>, b: Seq<Arc<Json>>, flag: Flag)
    ensures
        flag_count(a + b, flag, (a + b).len() as int) == flag_count(a, flag, a.len() as int)
            + flag_count(b, flag, b.len() as int),
{
    lemma_flags_add_up(a, b, flag, b.len() as int);
}

pub fn count_flag(events: &Vec<Arc<Json>>, flag: Flag) -> (r: u64)
    ensures
        r == flag_count(events@, flag, events@.len() as int),
{
    let mut n: u64 = 0;
    for i in 0..events.len()
        invariant
            n == flag_count(events@, flag, i as int),
            n <= i,
    {
        if has_flag(&events[i], flag) {
            n = n + 1;
        }
    }
    n
}

pub fn find_flag(events: &Vec<Arc<Json>>, flag: Flag) -> (r: Option<usize>)
    ensures
        match r {
            Some(i) => first_flag(events@, flag, 0) == Some(i as int),
            None => first_flag(events@, flag, 0) is None,
        },
{
    let mut i: usize = 0;
    while i < events.len()
        invariant
            i <= events@.len(),
            first_flag(events@, flag, i as int) == first_flag(events@, flag, 0),
        decreases events@.len() - i,
    {
        if has_flag(&events[i], flag) {
            return Some(i);
        }
        i = i + 1;
    }
    None
}

// ---------------------------------------------------------------------
// Features
// ---------------------------------------------------------------------

/// What can be read off an event.
#[derive(Debug, Clone, Copy)]
pub enum Feature {
    Project,
    /// The app that got the focus or was launched.
    App,
    Tool,
    /// `"tool subcommand"`.
    Command,
    /// The tool whose tests failed.
    FailedTestTool,
    Domain,
    /// The domain of a page of documentation or on an error.
    DocDomain,
    Category,
    Query,
    Phase,
}

pub open spec fn feature(event: Json, feature: Feature) -> Option<Seq<char>> {
    match feature {
        Feature::Project => entity_text(event, "project"@),
        Feature::App => if source_of(event) == "window"@ && (kind_of(event) == "focus"@
            || kind_of(event) == "launch"@) {
            entity_text(event, "app"@)
        } else {
            None
        },
        Feature::Tool => if source_of(event) == "terminal"@ {
            entity_text(event, "tool"@)
        } else {
            None
        },
        Feature::Command => if source_of(event) == "terminal"@ {
            token(event)
        } else {
            None
        },
        Feature::FailedTestTool => if flagged(event, Flag::FailedTest) {
            entity_text(event, "tool"@)
        } else {
            None
        },
        Feature::Domain => if source_of(event) == "browser"@ {
            entity_text(event, "domain"@)
        } else {
            None
        },
        Feature::DocDomain => if source_of(event) == "browser"@ && looked_up(event) {
            entity_text(event, "domain"@)
        } else {
            None
        },
        Feature::Category => if source_of(event) == "browser"@ {
            entity_text(event, "category"@)
        } else {
            None
        },
        Feature::Query => if source_of(event) == "browser"@ {
            entity_text(event, "search_query"@)
        } else {
            None
        },
        Feature::Phase => phase_of(event),
    }
}

pub fn read_feature(event: &Json, feature: Feature) -> (r: Option<String>)
    ensures
        opt_view(r) == self::feature(*event, feature),
{
    match feature {
        Feature::Project => event_entities(event).get_text("project"),
        Feature::App => if is_from(event, "window") && (is_kind(event, "focus") || is_kind(
            event,
            "launch",
        )) {
            event_entities(event).get_text("app")
        } else {
            None
        },
        Feature::Tool => if is_from(event, "terminal") {
            event_entities(event).get_text("tool")
        } else {
            None
        },
        Feature::Command => if is_from(event, "terminal") {
            command_token(event)
        } else {
            None
        },
        Feature::FailedTestTool => if has_flag(event, Flag::FailedTest) {
            event_entities(event).get_text("tool")
        } else {
            None
        },
        Feature::Domain => if is_from(event, "browser") {
            event_entities(event).get_text("domain")
        } else {
            None
        },
        Feature::DocDomain => if is_from(event, "browser") && is_lookup(event) {
            event_entities(event).get_text("domain")
        } else {
            None
        },
        Feature::Category => if is_from(event, "browser") {
            event_entities(event).get_text("category")
        } else {
            None
        },
        Feature::Query => if is_from(event, "browser") {
            event_entities(event).get_text("search_query")
        } else {
            None
        },
        Feature::Phase => match classify_phase(event) {
            Some(phase) => Some(phase.to_owned()),
            None => None,
        },
    }
}

/// The count of a name in a map of counts.
pub open spec fn count_in(counts: Map<Seq<char>, u64>, name: Seq<char>) -> nat {
    if counts.dom().contains(name) {
        counts[name] as nat
    } else {
        0
    }
}

/// How often each value of a feature occurs among the first `n` events.
pub open spec fn tallied(events: Seq<Arc<Json>>, f: Feature, n: int) -> Map<Seq<char>, u64>
    decreases n,
{
    if n <= 0 {
        Map::empty()
    } else {
        let before = tallied(events, f, n - 1);
        match feature(*events[n - 1], f) {
            Some(name) => before.insert(name, (count_in(before, name) + 1) as u64),
            None => before,
        }
    }
}

/// How many of the first `n` events have the given value of a feature.
pub open spec fn occurrences(events: Seq<Arc<Json>>, f: Feature, name: Seq<char>, n: int) -> nat
    decreases n,
{
    if n <= 0 {
        0
    } else {
        occurrences(events, f, name, n - 1) + if feature(*events[n - 1], f) == Some(name) {
            1nat
        } else {
            0
        }
    }
}

/// A tally holds the number of events with each value, and no other values.
pub proof fn law_tallies_count(events: Seq<Arc<Json>>, f: Feature, name: Seq<char>, n: int)
    requires
        0 <= n <= u64::MAX,
    ensures
        count_in(tallied(events, f, n), name) == occurrences(events, f, name, n),
        tallied(events, f, n).dom().contains(name) <==> occurrences(events, f, name, n) > 0,
        occurrences(events, f, name, n) <= n,
    decreases n,
{
    if n > 0 {
        law_tallies_count(events, f, name, n - 1);
    }
}

proof fn lemma_same_occurrences(
    a: Seq<Arc<Json>>,
    b: Seq<Arc<Json>>,
    f: Feature,
    name: Seq<char>,
    n: int,
)
    requires
        0 <= n <= a.len(),
    ensures
        occurrences(a + b, f, name, n) == occurrences(a, f, name, n),
    decreases n,
{
    if n > 0 {
        lemma_same_occurrences(a, b, f, name, n - 1);
        assert((a + b)[n - 1] == a[n - 1]);
    }
}

proof fn lemma_occurrences_add_up(
    a: Seq<Arc<Json>>,
    b: Seq<Arc<Json>>,
    f: Feature,
    name: Seq<char>,
    n: int,
)
    requires
        0 <= n <= b.len(),
    ensures
        occurrences(a + b, f, name, a.len() + n) == occurrences(a, f, name, a.len() as int)
            + occurrences(b, f, name, n),
    decreases n,
{
    if n == 0 {
        lemma_same_occurrences(a, b, f, name, a.len() as int);
    } else {
        lemma_occurrences_add_up(a, b, f, name, n - 1);
        assert((a + b)[a.len() + n - 1] == b[n - 1]);
    }
}

/// The tally of two lists in a row holds the sums of their tallies.
pub proof fn law_tallies_add_up(
    a: Seq<Arc<Json>>,
    b: Seq<Arc<Json>>,
    f: Feature,
    name: Seq<char>,
)
    requires
        a.len() + b.len() <= u64::MAX,
    ensures
        count_in(tallied(a + b, f, (a + b).len() as int), name) == count_in(
            tallied(a, f, a.len() as int),
            name,
        ) + count_in(tallied(b, f, b.len() as int), name),
{
    lemma_occurrences_add_up(a, b, f, name, b.len() as int);
    law_tallies_count(a, f, name, a.len() as int);
    law_tallies_count(b, f, name, b.len() as int);
    law_tallies_count(a + b, f, name, (a + b).len() as int);
}

/// The values of a feature of the first `n` events, in their order.
pub open spec fn listed(events: Seq<Arc<Json>>, f: Feature, n: int) -> Seq<Seq<char>>
    decreases n,
{
    if n <= 0 {
        Seq::empty()
    } else {
        match feature(*events[n - 1], f) {
            Some(value) => listed(events, f, n - 1).push(value),
            None => listed(events, f, n - 1),
        }
    }
}

proof fn lemma_same_list(a: Seq<Arc<Json>>, b: Seq<Arc<Json>>, f: Feature, n: int)
    requires
        0 <= n <= a.len(),
    ensures
        listed(a + b, f, n) == listed(a, f, n),
    decreases n,
{
    if n > 0 {
        lemma_same_list(a, b, f, n - 1);
        assert((a + b)[n - 1] == a[n - 1]);
    }
}

proof fn lemma_lists_join(a: Seq<Arc<Json>>, b: Seq<Arc<Json>>, f: Feature, n: int)
    requires
        0 <= n <= b.len(),
    ensures
        listed(a + b, f, a.len() + n) == listed(a, f, a.len() as int) + listed(b, f, n),
    decreases n,
{
    let first = listed(a, f, a.len() as int);
    if n == 0 {
        lemma_same_list(a, b, f, a.len() as int);
        assert(first + listed(b, f, 0) =~= first);
    } else {
        lemma_lists_join(a, b, f, n - 1);
        assert((a + b)[a.len() + n - 1] == b[n - 1]);
        assert(listed(a + b, f, a.len() + n) =~= first + listed(b, f, n));
    }
}

/// The values of two lists in a row are the values of the two in a row.
pub proof fn law_lists_join(a: Seq<Arc<Json>>, b: Seq<Arc<Json>>, f: Feature)
    ensures
        listed(a + b, f, (a + b).len() as int) == listed(a, f, a.len() as int) + listed(
            b,
            f,
            b.len() as int,
        ),
{
    lemma_lists_join(a, b, f, b.len() as int);
}

pub fn tally_feature(events: &Vec<Arc<Json>>, f: Feature) -> (r: Table<u64>)
    ensures
        r.wf(),
        r@ == tallied(events@, f, events@.len() as int),
        total(r.entries@) <= events@.len(),
{
    let mut counts: Table<u64> = Table::new();
    for i in 0..events.len()
        invariant
            counts.wf(),
            counts@ == tallied(events@, f, i as int),
            total(counts.entries@) <= i,
    {
        if let Some(name) = read_feature(&events[i], f) {
            proof {
                law_tallies_count(events@, f, name@, i as int);
            }
            counts.tally(name.as_str());
        }
    }
    counts
}

pub fn list_feature(events: &Vec<Arc<Json>>, f: Feature) -> (r: Vec<String>)
    ensures
        views(r@) == listed(events@, f, events@.len() as int),
{
    broadcast use lemma_views_push;

    let mut out: Vec<String> = Vec::new();
    assert(views(out@) =~= Seq::empty());
    for i in 0..events.len()
        invariant
            views(out@) == listed(events@, f, i as int),
    {
        if let Some(value) = read_feature(&events[i], f) {
            out.push(value);
        }
    }
    out
}

// ---------------------------------------------------------------------
// Branches
// ---------------------------------------------------------------------

pub open spec fn texts_in(map: Map<Seq<char>, Vec<String>>, name: Seq<char>) -> Seq<Seq<char>> {
    if map.dom().contains(name) {
        views(map[name]@)
    } else {
        Seq::empty()
    }
}

/// The project and the branch of an event that has both.
pub open spec fn branch_at(event: Json) -> Option<(Seq<char>, Seq<char>)> {
    match (entity_text(event, "project"@), entity_text(event, "branch"@)) {
        (Some(project), Some(branch)) => Some((project, branch)),
        _ => None,
    }
}

/// The branches of a project among the first `n` events: a branch is noted
/// when it is another one than the last.
pub open spec fn branches_of(events: Seq<Arc<Json>>, project: Seq<char>, n: int) -> Seq<Seq<char>>
    decreases n,
{
    if n <= 0 {
        Seq::empty()
    } else {
        let before = branches_of(events, project, n - 1);
        match branch_at(*events[n - 1]) {
            Some((p, branch)) => if p == project && (before.len() == 0 || before.last() != branch) {
                before.push(branch)
            } else {
                before
            },
            None => before,
        }
    }
}

/// Collects the branches of each project.
pub fn list_branches(events: &Vec<Arc<Json>>) -> (r: Table<Vec<String>>)
    ensures
        r.wf(),
        forall|project: Seq<char>| #[trigger]
            texts_in(r@, project) == branches_of(events@, project, events@.len() as int),
        forall|project: Seq<char>| #[trigger]
            r@.dom().contains(project) ==> texts_in(r@, project).len() > 0,
{
    broadcast use lemma_views_push;

    let mut out: Table<Vec<String>> = Table::new();
    for i in 0..events.len()
        invariant
            out.wf(),
            forall|project: Seq<char>| #[trigger]
                texts_in(out@, project) == branches_of(events@, project, i as int),
            forall|project: Seq<char>| #[trigger]
                out@.dom().contains(project) ==> texts_in(out@, project).len() > 0,
    {
        let ghost before = out@;
        let entities = event_entities(&events[i]);
        if let (Some(project), Some(branch)) = (
            entities.get_text("project"),
            entities.get_text("branch"),
        ) {
            let mut branches: Vec<String> = match out.get(project.as_str()) {
                Some(list) => crate::text::clone_texts(list),
                None => Vec::new(),
            };
            assert(views(branches@) =~= texts_in(before, project@));
            let n: usize = branches.len();
            assert(n > 0 ==> views(branches@).last() == branches@[n - 1]@);
            if n == 0 || !same(branches[n - 1].as_str(), branch.as_str()) {
                branches.push(branch);
            }
            out.set(project.as_str(), branches);
        }
        assert forall|p: Seq<char>| #[trigger] texts_in(out@, p) == branches_of(
            events@,
            p,
            i + 1,
        ) by {
            assert(texts_in(before, p) == branches_of(events@, p, i as int));
        }
    }
    out
}

// ---------------------------------------------------------------------
// Resolutions
// ---------------------------------------------------------------------

/// What the first of the events from position `from` up to `to` that tells
/// says about how a failure was dealt with: looked up docs/errors, tried
/// something else in the terminal, or neither.
pub open spec fn resolution(events: Seq<Arc<Json>>, from: int, to: int) -> Seq<char>
    decreases to - from,
{
    if from >= to {
        "step_away"@
    } else if source_of(*events[from]) == "browser"@ && kind_of(*events[from]) == "navigation"@
        && looked_up(*events[from]) {
        "doc_lookup"@
    } else if source_of(*events[from]) == "terminal"@ && kind_of(*events[from]) == "command"@ {
        "trial_error"@
    } else {
        resolution(events, from + 1, to)
    }
}

/// Where the look at the events after a failure ends.
pub open spec fn lookahead(len: int, idx: int) -> int {
    if idx + 1 + RESOLUTION_LOOKAHEAD < len {
        idx + 1 + RESOLUTION_LOOKAHEAD
    } else {
        len
    }
}

/// Looks at the events following a test failure (up to
/// [`RESOLUTION_LOOKAHEAD`] of them, or the end of the session) to guess how
/// the user responded: looked up docs/errors, tried something else in the
/// terminal, or the session ended without further action.
pub fn classify_resolution(events: &Vec<Arc<Json>>, failure_idx: usize) -> (r: String)
    requires
        failure_idx < events@.len(),
    ensures
        r@ == resolution(
            events@,
            failure_idx + 1,
            lookahead(events@.len() as int, failure_idx as int),
        ),
{
    let rest: usize = events.len() - failure_idx - 1;
    let end: usize = if RESOLUTION_LOOKAHEAD < rest {
        failure_idx + 1 + RESOLUTION_LOOKAHEAD
    } else {
        events.len()
    };
    let mut i: usize = failure_idx + 1;
    while i < end
        invariant
            failure_idx + 1 <= i <= end <= events@.len(),
            end == lookahead(events@.len() as int, failure_idx as int),
            resolution(events@, i as int, end as int) == resolution(
                events@,
                failure_idx + 1,
                end as int,
            ),
        decreases end - i,
    {
        let event = &events[i];
        if is_from(event, "browser") && is_kind(event, "navigation") && is_lookup(event) {
            return "doc_lookup".to_owned();
        }
        if is_from(event, "terminal") && is_kind(event, "command") {
            return "trial_error".to_owned();
        }
        i = i + 1;
    }
    "step_away".to_owned()
}

/// How the test failures among the first `n` events were dealt with.
pub open spec fn resolutions(events: Seq<Arc<Json>>, n: int) -> Seq<Seq<char>>
    decreases n,
{
    if n <= 0 {
        Seq::empty()
    } else {
        let before = resolutions(events, n - 1);
        if flagged(*events[n - 1], Flag::FailedTest) {
            before.push(resolution(events, n, lookahead(events.len() as int, n - 1)))
        } else {
            before
        }
    }
}

pub fn list_resolutions(events: &Vec<Arc<Json>>) -> (r: Vec<String>)
    ensures
        views(r@) == resolutions(events@, events@.len() as int),
{
    broadcast use lemma_views_push;

    let mut out: Vec<String> = Vec::new();
    assert(views(out@) =~= Seq::empty());
    for i in 0..events.len()
        invariant
            views(out@) == resolutions(events@, i as int),
    {
        if has_flag(&events[i], Flag::FailedTest) {
            out.push(classify_resolution(events, i));
        }
    }
    out
}

/// Each test failure of a session is accounted for by one resolution.
pub proof fn law_every_failure_has_a_resolution(events: Seq<Arc<Json>>, n: int)
    requires
        0 <= n,
    ensures
        resolutions(events, n).len() == flag_count(events, Flag::FailedTest, n),
    decreases n,
{
    if n > 0 {
        law_every_failure_has_a_resolution(events, n - 1);
    }
}

// ---------------------------------------------------------------------
// Times
// ---------------------------------------------------------------------

/// The earliest time among the first `n` events, which is not zero.
pub open spec fn earliest(events: Seq<Arc<Json>>, n: int) -> Option<u64>
    decreases n,
{
    if n <= 0 {
        None
    } else {
        let before = earliest(events, n - 1);
        let ts = time_of(*events[n - 1]);
        if ts == 0 {
            before
        } else {
            match before {
                Some(b) => if ts < b {
                    Some(ts)
                } else {
                    Some(b)
                },
                None => Some(ts),
            }
        }
    }
}

/// The latest time among the first `n` events.
pub open spec fn latest(events: Seq<Arc<Json>>, n: int) -> u64
    decreases n,
{
    if n <= 0 {
        0
    } else {
        let before = latest(events, n - 1);
        let ts = time_of(*events[n - 1]);
        if ts > before {
            ts
        } else {
            before
        }
    }
}

pub fn find_earliest(events: &Vec<Arc<Json>>) -> (r: Option<u64>)
    ensures
        r == earliest(events@, events@.len() as int),
{
    let mut best: Option<u64> = None;
    for i in 0..events.len()
        invariant
            best == earliest(events@, i as int),
    {
        let ts = event_ts(&events[i]);
        if ts != 0 {
            best = match best {
                Some(b) => if ts < b {
                    Some(ts)
                } else {
                    Some(b)
                },
                None => Some(ts),
            };
        }
    }
    best
}

pub fn find_latest_time(events: &Vec<Arc<Json>>) -> (r: u64)
    ensures
        r == latest(events@, events@.len() as int),
{
    let mut best: u64 = 0;
    for i in 0..events.len()
        invariant
            best == latest(events@, i as int),
    {
        let ts = event_ts(&events[i]);
        if ts > best {
            best = ts;
        }
    }
    best
}

} // verus!
