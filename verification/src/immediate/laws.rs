//! What the recognizers report, in terms of the events in the window.

use super::buffer::{kept, kept_to, SlidingWindowBuffer};
use super::recognizers::{
    begins, error_loop, failures, first_entity, idle_secs, is_repetition, last_entity,
    last_meaningful, project_switch, repeats, searches_after, times_to, tokens, tokens_to,
};
use super::RepetitionContext;
use crate::json::Json;
use crate::text::views;
use std::sync::Arc;
use vstd::prelude::*;

verus! {

// ---------------------------------------------------------------------
// Reading an event
// ---------------------------------------------------------------------

/// The time that an event bears; zero where it bears none.
pub open spec fn at(event: Json) -> int {
    match event.natural_at("timestamp"@) {
        Some(ts) => ts as int,
        None => 0,
    }
}

/// What an event says of an entity.
pub open spec fn said(event: Json, key: Seq<char>) -> Option<Seq<char>> {
    match event.field("entities"@) {
        Some(entities) => entities.text_at(key),
        None => None,
    }
}

/// An event is a command with an exit code other than zero.
pub open spec fn went_wrong(event: Json) -> bool {
    match event.field("entities"@) {
        Some(entities) => entities.integer_at("exit_code"@) matches Some(code) && code != 0,
        None => false,
    }
}

/// An event is a search after a point in time.
pub open spec fn later_search(event: Json, ts: int) -> bool {
    at(event) > ts && said(event, "search_query"@) is Some
}

/// `i` is the position of the first event that `p` holds of.
pub open spec fn is_first(events: Seq<Arc<Json>>, p: spec_fn(Json) -> bool, i: int) -> bool {
    &&& 0 <= i < events.len()
    &&& p(*events[i])
    &&& forall|j: int| 0 <= j < i ==> !p(*#[trigger] events[j])
}

/// `i` is the position of the last event that `p` holds of.
pub open spec fn is_last(events: Seq<Arc<Json>>, p: spec_fn(Json) -> bool, i: int) -> bool {
    &&& 0 <= i < events.len()
    &&& p(*events[i])
    &&& forall|j: int| i < j < events.len() ==> !p(*#[trigger] events[j])
}

/// How many of the events `p` holds of.
pub open spec fn how_many(events: Seq<Arc<Json>>, p: spec_fn(Json) -> bool) -> nat {
    events.filter(|e: Arc<Json>| p(*e)).len()
}

proof fn lemma_kept_counts(
    events: Seq<Arc<Json>>,
    p: spec_fn(Json) -> bool,
    q: spec_fn(Json) -> bool,
    n: int,
)
    requires
        0 <= n <= events.len(),
        forall|e: Json| #[trigger] p(e) == q(e),
    ensures
        kept_to(events, p, n) == events.take(n).filter(|e: Arc<Json>| q(*e)),
    decreases n,
{
    reveal(Seq::filter);
    let f = |e: Arc<Json>| q(*e);
    if n > 0 {
        lemma_kept_counts(events, p, q, n - 1);
        assert(events.take(n).drop_last() =~= events.take(n - 1));
        assert(events.take(n).last() == events[n - 1]);
        assert(f(events[n - 1]) == p(*events[n - 1]));
    } else {
        assert(events.take(n).len() == 0);
        assert(events.take(n).filter(f) =~= Seq::empty());
    }
}

proof fn lemma_kept_first(events: Seq<Arc<Json>>, p: spec_fn(Json) -> bool, i: int, n: int)
    requires
        is_first(events, p, i),
        0 <= n <= events.len(),
    ensures
        n <= i ==> kept_to(events, p, n).len() == 0,
        n > i ==> kept_to(events, p, n).len() > 0 && kept_to(events, p, n)[0] == events[i],
    decreases n,
{
    if n > 0 {
        lemma_kept_first(events, p, i, n - 1);
        if n - 1 < i {
            assert(!p(*events[n - 1]));
        }
    }
}

proof fn lemma_kept_last(events: Seq<Arc<Json>>, p: spec_fn(Json) -> bool, i: int, n: int)
    requires
        is_last(events, p, i),
        i < n <= events.len(),
    ensures
        kept_to(events, p, n).len() > 0 && kept_to(events, p, n).last() == events[i],
    decreases n,
{
    if n - 1 > i {
        lemma_kept_last(events, p, i, n - 1);
        assert(!p(*events[n - 1]));
    }
}

proof fn lemma_kept_source(events: Seq<Arc<Json>>, p: spec_fn(Json) -> bool, n: int, k: int) -> (i:
    int)
    requires
        0 <= n <= events.len(),
        0 <= k < kept_to(events, p, n).len(),
    ensures
        0 <= i < n,
        p(*events[i]),
        kept_to(events, p, n)[k] == events[i],
    decreases n,
{
    let sub = kept_to(events, p, n - 1);
    if k < sub.len() {
        let i = lemma_kept_source(events, p, n - 1, k);
        i
    } else {
        n - 1
    }
}

proof fn lemma_kept_image(events: Seq<Arc<Json>>, p: spec_fn(Json) -> bool, n: int, i: int) -> (k:
    int)
    requires
        0 <= i < n <= events.len(),
        p(*events[i]),
    ensures
        0 <= k < kept_to(events, p, n).len(),
        kept_to(events, p, n)[k] == events[i],
    decreases n,
{
    if i == n - 1 {
        kept_to(events, p, n).len() - 1
    } else {
        let k = lemma_kept_image(events, p, n - 1, i);
        k
    }
}

/// Where `p` holds of some event, it holds of a first one.
proof fn lemma_first_exists(events: Seq<Arc<Json>>, p: spec_fn(Json) -> bool, i: int) -> (f: int)
    requires
        0 <= i < events.len(),
        p(*events[i]),
    ensures
        is_first(events, p, f),
        f <= i,
    decreases i,
{
    if exists|j: int| 0 <= j < i && p(*#[trigger] events[j]) {
        let j = choose|j: int| 0 <= j < i && p(*#[trigger] events[j]);
        let f = lemma_first_exists(events, p, j);
        f
    } else {
        i
    }
}

// ---------------------------------------------------------------------
// Error loops
// ---------------------------------------------------------------------

/// An error loop begins with the first failed command of the window: its tool
/// and subcommand are that command's. The failures are all failed commands,
/// the searches all those with a time strictly after that first failure, and
/// there are two failures and one search at least. A command of the same
/// tool failed later than the first of these searches. The loop has gone on
/// from the first failure to the last one.
pub proof fn law_an_error_loop_is_failure_search_retry(
    terminal: Seq<Arc<Json>>,
    browser: Seq<Arc<Json>>,
    first: int,
    last: int,
)
    requires
        is_first(terminal, |e: Json| went_wrong(e), first),
        is_last(terminal, |e: Json| went_wrong(e), last),
    ensures
        error_loop(terminal, browser) matches Some(c) ==> {
            let ts = at(*terminal[first]);
            let end = at(*terminal[last]);
            &&& said(*terminal[first], "tool"@) == Some(c.tool)
            &&& c.subcommand == said(*terminal[first], "subcommand"@)
            &&& c.failure_count == how_many(terminal, |e: Json| went_wrong(e))
            &&& c.failure_count >= 2
            &&& c.search_count == how_many(browser, |e: Json| later_search(e, ts))
            &&& c.search_count >= 1
            &&& c.duration_sec == if end > ts {
                end - ts
            } else {
                0
            }
            &&& exists|s: int, r: int|
                #![trigger browser[s], terminal[r]]
                {
                    &&& is_first(browser, |e: Json| later_search(e, ts), s)
                    &&& first < r < terminal.len() || 0 <= r < first
                    &&& went_wrong(*terminal[r])
                    &&& said(*terminal[r], "tool"@) == Some(c.tool)
                    &&& at(*terminal[r]) > at(*browser[s])
                }
        },
{
    lemma_error_loop_parts(terminal, browser, first, last);
    if error_loop(terminal, browser) is Some {
        let c = error_loop(terminal, browser)->0;
        let ts = time_at(terminal, first);
        let fails = failures(terminal);
        let first_ts = stamp(fails, 0);
        let searches = searches_after(browser, first_ts);
        let q = |e: Json| later_search(e, ts);
        let w = |e: Json| went_wrong(e);
        let i = lemma_kept_source(browser, search_test(first_ts), browser.len() as int, 0);
        assert(search_test(first_ts)(*browser[i]));
        assert(q(*browser[i]));
        let s = lemma_first_exists(browser, q, i);
        assert(is_first(browser, search_test(first_ts), s));
        lemma_kept_first(browser, search_test(first_ts), s, browser.len() as int);
        assert(searches[0] == browser[s]);
        let k = choose|k: int|
            0 <= k < fails.len() && super::buffer::time_of(*#[trigger] fails[k])
                > super::buffer::time_of(*searches[0]) && super::buffer::entity_text(
                *fails[k],
                "tool"@,
            ) == Some(c.tool);
        let r = lemma_kept_source(
            terminal,
            |e: Json| super::recognizers::failed(e),
            terminal.len() as int,
            k,
        );
        assert(terminal[r] == fails[k]);
        assert(at(*terminal[r]) > at(*browser[s]));
        assert(r != first);
        assert(went_wrong(*terminal[r]) && said(*terminal[r], "tool"@) == Some(c.tool));
    }
}

spec fn stamp(events: Seq<Arc<Json>>, i: int) -> u64 {
    super::buffer::time_of(*events[i])
}

spec fn time_at(events: Seq<Arc<Json>>, i: int) -> int {
    at(*events[i])
}

spec fn search_test(ts: u64) -> spec_fn(Json) -> bool {
    |e: Json| super::buffer::time_of(e) > ts && super::recognizers::searched(e)
}

proof fn lemma_error_loop_parts(
    terminal: Seq<Arc<Json>>,
    browser: Seq<Arc<Json>>,
    first: int,
    last: int,
)
    requires
        is_first(terminal, |e: Json| went_wrong(e), first),
        is_last(terminal, |e: Json| went_wrong(e), last),
    ensures
        ({
            let fails = failures(terminal);
            let ts = super::buffer::time_of(*terminal[first]);
            &&& fails.len() == how_many(terminal, |e: Json| went_wrong(e))
            &&& fails.len() > 0
            &&& fails[0] == terminal[first]
            &&& fails.last() == terminal[last]
            &&& ts == at(*terminal[first])
            &&& searches_after(browser, ts).len() == how_many(
                browser,
                |e: Json| later_search(e, at(*terminal[first])),
            )
        }),
{
    let f = |e: Json| super::recognizers::failed(e);
    let w = |e: Json| went_wrong(e);
    let ts = stamp(terminal, first);
    let at_first = time_at(terminal, first);
    let q = |e: Json| later_search(e, at_first);
    assert forall|e: Json| #[trigger] f(e) == w(e) by {
        assert(Json::Null.field("exit_code"@) is None);
    }
    assert forall|e: Json| #[trigger] search_test(ts)(e) == q(e) by {
        assert(Json::Null.field("search_query"@) is None);
    }
    lemma_kept_counts(terminal, f, w, terminal.len() as int);
    lemma_kept_counts(browser, search_test(ts), q, browser.len() as int);
    assert(terminal.take(terminal.len() as int) =~= terminal);
    assert(browser.take(browser.len() as int) =~= browser);
    assert(is_first(terminal, f, first)) by {
        assert(w(*terminal[first]));
        assert forall|j: int| 0 <= j < first implies !f(*#[trigger] terminal[j]) by {
            assert(!w(*terminal[j]));
        }
    }
    assert(is_last(terminal, f, last)) by {
        assert(w(*terminal[last]));
        assert forall|j: int| last < j < terminal.len() implies !f(*#[trigger] terminal[j]) by {
            assert(!w(*terminal[j]));
        }
    }
    lemma_kept_first(terminal, f, first, terminal.len() as int);
    lemma_kept_last(terminal, f, last, terminal.len() as int);
}

/// Without a failed command there is no error loop.
pub proof fn law_no_failure_no_error_loop(terminal: Seq<Arc<Json>>, browser: Seq<Arc<Json>>)
    requires
        forall|i: int| 0 <= i < terminal.len() ==> !went_wrong(*#[trigger] terminal[i]),
    ensures
        error_loop(terminal, browser) is None,
{
    let f = |e: Json| super::recognizers::failed(e);
    if failures(terminal).len() > 0 {
        let i = lemma_kept_source(terminal, f, terminal.len() as int, 0);
        assert(f(*terminal[i]));
        assert(!went_wrong(*terminal[i]));
        assert(Json::Null.field("exit_code"@) is None);
    }
}

/// When every search of the window is at or before the first failure there is
/// no error loop.
pub proof fn law_searches_before_the_failure_do_not_count(
    terminal: Seq<Arc<Json>>,
    browser: Seq<Arc<Json>>,
    first: int,
)
    requires
        is_first(terminal, |e: Json| went_wrong(e), first),
        forall|j: int|
            0 <= j < browser.len() && said(*#[trigger] browser[j], "search_query"@) is Some ==> at(
                *browser[j],
            ) <= at(*terminal[first]),
    ensures
        error_loop(terminal, browser) is None,
{
    let w = |e: Json| went_wrong(e);
    assert(w(*terminal[first]));
    let last = lemma_last_exists(terminal, w, first);
    lemma_error_loop_parts(terminal, browser, first, last);
    let ts = stamp(terminal, first);
    if searches_after(browser, ts).len() > 0 {
        let i = lemma_kept_source(browser, search_test(ts), browser.len() as int, 0);
        assert(search_test(ts)(*browser[i]));
        assert(Json::Null.field("search_query"@) is None);
        assert(said(*browser[i], "search_query"@) is Some);
    }
}

/// Where `p` holds of some event, it holds of a last one.
proof fn lemma_last_exists(events: Seq<Arc<Json>>, p: spec_fn(Json) -> bool, i: int) -> (f: int)
    requires
        0 <= i < events.len(),
        p(*events[i]),
    ensures
        is_last(events, p, f),
        i <= f,
    decreases events.len() - i,
{
    if exists|j: int| i < j < events.len() && p(*#[trigger] events[j]) {
        let j = choose|j: int| i < j < events.len() && p(*#[trigger] events[j]);
        let f = lemma_last_exists(events, p, j);
        f
    } else {
        i
    }
}

/// A failure, then a search, then a failure of the same tool make an error
/// loop: one is reported whenever the first failed command names a tool and a
/// command of that tool failed later than the first search after it.
pub proof fn law_failure_search_retry_is_an_error_loop(
    terminal: Seq<Arc<Json>>,
    browser: Seq<Arc<Json>>,
    first: int,
    search: int,
    retry: int,
)
    requires
        is_first(terminal, |e: Json| went_wrong(e), first),
        is_first(browser, |e: Json| later_search(e, at(*terminal[first])), search),
        said(*terminal[first], "tool"@) is Some,
        0 <= retry < terminal.len(),
        went_wrong(*terminal[retry]),
        said(*terminal[retry], "tool"@) == said(*terminal[first], "tool"@),
        at(*terminal[retry]) > at(*browser[search]),
    ensures
        error_loop(terminal, browser) is Some,
{
    let f = |e: Json| super::recognizers::failed(e);
    let w = |e: Json| went_wrong(e);
    assert(w(*terminal[first]));
    let last = lemma_last_exists(terminal, w, first);
    lemma_error_loop_parts(terminal, browser, first, last);
    let fails = failures(terminal);
    let ts = stamp(terminal, first);
    let at_first = time_at(terminal, first);
    let q = |e: Json| later_search(e, at_first);
    assert(q(*browser[search]));
    assert(Json::Null.field("exit_code"@) is None);
    assert(Json::Null.field("tool"@) is None);
    assert(Json::Null.field("search_query"@) is None);
    assert(is_first(browser, search_test(ts), search)) by {
        assert forall|j: int| 0 <= j < search implies !search_test(ts)(*#[trigger] browser[j]) by {
            assert(!q(*browser[j]));
        }
    }
    lemma_kept_first(browser, search_test(ts), search, browser.len() as int);
    let searches = searches_after(browser, ts);
    assert(searches[0] == browser[search]);
    assert(f(*terminal[retry]) && f(*terminal[first]));
    let k = lemma_kept_image(terminal, f, terminal.len() as int, retry);
    assert(fails[k] == terminal[retry]);
    assert(stamp(fails, k) > stamp(searches, 0));
    assert(k != 0);
    assert(super::recognizers::ran_after(
        fails,
        said_at(terminal, first, "tool"@)->0,
        stamp(searches, 0),
    ));
}

spec fn said_at(events: Seq<Arc<Json>>, i: int, key: Seq<char>) -> Option<Seq<char>> {
    said(*events[i], key)
}

proof fn lemma_first_entity_push(
    events: Seq<Arc<Json>>,
    event: Arc<Json>,
    key: Seq<char>,
    from: int,
)
    requires
        0 <= from <= events.len(),
    ensures
        first_entity(events.push(event), key, from) == match first_entity(events, key, from) {
            Some(text) => Some(text),
            None => super::buffer::entity_text(*event, key),
        },
    decreases events.len() - from,
{
    let more = events.push(event);
    if from < events.len() {
        lemma_first_entity_push(events, event, key, from + 1);
        assert(more[from] == events[from]);
    } else {
        assert(more[from] == event);
        assert(first_entity(more, key, from + 1) is None);
    }
}

proof fn lemma_first_kept_entity(
    events: Seq<Arc<Json>>,
    p: spec_fn(Json) -> bool,
    key: Seq<char>,
    n: int,
)
    requires
        0 <= n <= events.len(),
    ensures
        forall|i: int|
            #![trigger events[i]]
            0 <= i < n && p(*events[i]) && said(*events[i], key) is Some && (forall|j: int|
                0 <= j < i ==> !(p(*#[trigger] events[j]) && said(*events[j], key) is Some))
                ==> first_entity(kept_to(events, p, n), key, 0) == said(*events[i], key),
        (forall|j: int|
            0 <= j < n ==> !(p(*#[trigger] events[j]) && said(*events[j], key) is Some))
            ==> first_entity(kept_to(events, p, n), key, 0) is None,
    decreases n,
{
    if n > 0 {
        lemma_first_kept_entity(events, p, key, n - 1);
        lemma_first_entity_push(kept_to(events, p, n - 1), events[n - 1], key, 0);
        assert(Json::Null.field(key) is None);
        assert(said(*events[n - 1], key) == super::buffer::entity_text(*events[n - 1], key));
        if exists|j: int|
            0 <= j < n - 1 && p(*#[trigger] events[j]) && said(*events[j], key) is Some {
            let j = choose|j: int|
                0 <= j < n - 1 && p(*#[trigger] events[j]) && said(*events[j], key) is Some;
            let q = |e: Json| p(e) && said(e, key) is Some;
            assert(q(*events[j]));
            let f = lemma_first_exists(events, q, j);
            assert(q(*events[f]));
            assert forall|k: int| 0 <= k < f implies !(p(*#[trigger] events[k]) && said(
                *events[k],
                key,
            ) is Some) by {
                assert(!q(*events[k]));
            }
            assert(first_entity(kept_to(events, p, n - 1), key, 0) == said(*events[f], key));
        }
    }
}

/// The domain of an error loop is that of the first search after the first
/// failure that has one.
pub proof fn law_an_error_loop_names_the_first_domain(
    terminal: Seq<Arc<Json>>,
    browser: Seq<Arc<Json>>,
    first: int,
)
    requires
        is_first(terminal, |e: Json| went_wrong(e), first),
    ensures
        error_loop(terminal, browser) matches Some(c) ==> {
            let ts = at(*terminal[first]);
            &&& c.domain is None ==> forall|j: int|
                0 <= j < browser.len() && later_search(*#[trigger] browser[j], ts) ==> said(
                    *browser[j],
                    "domain"@,
                ) is None
            &&& c.domain is Some ==> exists|d: int|
                {
                    &&& 0 <= d < browser.len()
                    &&& later_search(*#[trigger] browser[d], ts)
                    &&& said(*browser[d], "domain"@) == c.domain
                    &&& forall|j: int|
                        0 <= j < d && later_search(*#[trigger] browser[j], ts) ==> said(
                            *browser[j],
                            "domain"@,
                        ) is None
                }
        },
{
    let w = |e: Json| went_wrong(e);
    assert(w(*terminal[first]));
    let last = lemma_last_exists(terminal, w, first);
    lemma_error_loop_parts(terminal, browser, first, last);
    let ts = stamp(terminal, first);
    let at_first = time_at(terminal, first);
    let p = search_test(ts);
    let n = browser.len() as int;
    assert(Json::Null.field("search_query"@) is None);
    assert forall|j: int| 0 <= j < n implies p(*#[trigger] browser[j]) == later_search(
        *browser[j],
        at_first,
    ) by {}
    lemma_first_kept_entity(browser, p, "domain"@, n);
    let q = |e: Json| p(e) && said(e, "domain"@) is Some;
    if exists|j: int|
        0 <= j < n && p(*#[trigger] browser[j]) && said(*browser[j], "domain"@) is Some {
        let j = choose|j: int|
            0 <= j < n && p(*#[trigger] browser[j]) && said(*browser[j], "domain"@) is Some;
        assert(q(*browser[j]));
        let d = lemma_first_exists(browser, q, j);
        assert(q(*browser[d]));
        assert forall|k: int| 0 <= k < d implies !(p(*#[trigger] browser[k]) && said(
            *browser[k],
            "domain"@,
        ) is Some) by {
            assert(!q(*browser[k]));
        }
        assert(later_search(*browser[d], at_first));
        assert(said(*browser[d], "domain"@) == first_entity(kept(browser, p), "domain"@, 0));
    }
}

// ---------------------------------------------------------------------
// Repetition
// ---------------------------------------------------------------------

/// The same `len` commands run from position `i` on as from position `j` on.
pub open spec fn same_run(commands: Seq<Seq<char>>, len: int, i: int, j: int) -> bool {
    forall|d: int| 0 <= d < len ==> #[trigger] commands[i + d] == commands[j + d]
}

/// The commands of `part` run from position `i` on.
pub open spec fn runs_at(commands: Seq<Seq<char>>, part: Seq<Seq<char>>, i: int) -> bool {
    &&& 0 <= i
    &&& i + part.len() <= commands.len()
    &&& forall|d: int| 0 <= d < part.len() ==> #[trigger] part[d] == commands[i + d]
}

/// `at` lists different positions, in order, at each of which the commands of
/// `part` run.
pub open spec fn are_runs(
    commands: Seq<Seq<char>>,
    part: Seq<Seq<char>>,
    places: Seq<int>,
) -> bool {
    &&& forall|a: int| 0 <= a < places.len() ==> runs_at(commands, part, #[trigger] places[a])
    &&& forall|a: int, b: int| 0 <= a < b < places.len() ==> places[a] < places[b]
}

proof fn lemma_runs_at(commands: Seq<Seq<char>>, part: Seq<Seq<char>>, i: int)
    ensures
        runs_at(commands, part, i) == (0 <= i && i + part.len() <= commands.len()
            && commands.subrange(i, i + part.len()) == part),
{
    if 0 <= i && i + part.len() <= commands.len() {
        let here = commands.subrange(i, i + part.len());
        if runs_at(commands, part, i) {
            assert(here =~= part);
        }
        if here == part {
            assert forall|d: int| 0 <= d < part.len() implies #[trigger] part[d] == commands[i
                + d] by {
                assert(here[d] == commands[i + d]);
            }
        }
    }
}

proof fn lemma_times_at_least(
    commands: Seq<Seq<char>>,
    part: Seq<Seq<char>>,
    places: Seq<int>,
    n: int,
)
    requires
        0 <= n,
        are_runs(commands, part, places),
        forall|a: int| 0 <= a < places.len() ==> #[trigger] places[a] < n,
    ensures
        times_to(commands, part, n) >= places.len(),
    decreases n,
{
    if n > 0 {
        lemma_runs_at(commands, part, n - 1);
        if places.len() > 0 && places.last() == n - 1 {
            let rest = places.drop_last();
            assert forall|a: int| 0 <= a < rest.len() implies #[trigger] rest[a] < n - 1 by {
                assert(places[a] < places[places.len() - 1]);
            }
            assert(are_runs(commands, part, rest)) by {
                assert forall|a: int| 0 <= a < rest.len() implies runs_at(
                    commands,
                    part,
                    #[trigger] rest[a],
                ) by {
                    assert(runs_at(commands, part, places[a]));
                }
            }
            assert(runs_at(commands, part, places[places.len() - 1]));
            lemma_times_at_least(commands, part, rest, n - 1);
        } else {
            assert forall|a: int| 0 <= a < places.len() implies #[trigger] places[a] < n - 1 by {
                if a < places.len() - 1 {
                    assert(places[a] < places[places.len() - 1]);
                }
            }
            lemma_times_at_least(commands, part, places, n - 1);
        }
    } else {
        if places.len() > 0 {
            assert(runs_at(commands, part, places[0]));
        }
    }
}

proof fn lemma_times_places(commands: Seq<Seq<char>>, part: Seq<Seq<char>>, n: int) -> (places: Seq<
    int,
>)
    requires
        0 <= n,
    ensures
        are_runs(commands, part, places),
        forall|a: int| 0 <= a < places.len() ==> #[trigger] places[a] < n,
        places.len() == times_to(commands, part, n),
    decreases n,
{
    if n > 0 {
        let before = lemma_times_places(commands, part, n - 1);
        lemma_runs_at(commands, part, n - 1);
        if runs_at(commands, part, n - 1) {
            before.push(n - 1)
        } else {
            before
        }
    } else {
        Seq::empty()
    }
}

/// Repetition is a run of two to four commands that occurs three times at
/// least: it is reported whenever there is one, and only then.
pub proof fn law_repetition_is_a_run_three_times(
    commands: Seq<Seq<char>>,
    r: Option<RepetitionContext>,
)
    requires
        is_repetition(commands, r),
    ensures
        r is Some <==> exists|len: int, i: int, j: int, k: int| #[trigger]
            thrice(commands, len, i, j, k),
{
    if exists|len: int, i: int, j: int, k: int| #[trigger] thrice(commands, len, i, j, k) {
        let (len, i, j, k) = choose|len: int, i: int, j: int, k: int| #[trigger]
            thrice(commands, len, i, j, k);
        lemma_thrice_repeats(commands, len, i, j, k);
    }
    if r is Some {
        let part = views(r->0.sequence@);
        let places = lemma_times_places(commands, part, commands.len() as int);
        assert(runs_at(commands, part, places[0]) && runs_at(commands, part, places[1])
            && runs_at(commands, part, places[2]));
        let (i, j, k) = (places[0], places[1], places[2]);
        let len = part.len() as int;
        assert forall|d: int| 0 <= d < len implies #[trigger] commands[i + d] == commands[j + d]
            && commands[i + d] == commands[k + d] by {
            assert(part[d] == commands[i + d]);
        }
        assert(thrice(commands, len, i, j, k));
    }
}

/// A run of two to four commands occurs at three different positions.
pub open spec fn thrice(commands: Seq<Seq<char>>, len: int, i: int, j: int, k: int) -> bool {
    &&& 2 <= len <= 4
    &&& 0 <= i < j < k
    &&& k + len <= commands.len()
    &&& same_run(commands, len, i, j)
    &&& same_run(commands, len, i, k)
}

proof fn lemma_thrice_repeats(commands: Seq<Seq<char>>, len: int, i: int, j: int, k: int)
    requires
        thrice(commands, len, i, j, k),
    ensures
        repeats(commands, len),
{
    let part = commands.subrange(i, i + len);
    let places = seq![i, j, k];
    assert forall|a: int| 0 <= a < places.len() implies runs_at(
        commands,
        part,
        #[trigger] places[a],
    ) by {
        assert forall|d: int| 0 <= d < part.len() implies #[trigger] part[d] == commands[places[a]
            + d] by {
            assert(part[d] == commands[i + d]);
        }
    }
    lemma_times_at_least(commands, part, places, commands.len() as int);
    assert(begins(commands, len, i));
}

/// The run that is reported is one of the shortest that occur three times;
/// it occurs exactly as often as the count says, and no run of its length
/// occurs more often.
pub proof fn law_the_most_frequent_run_is_reported(
    commands: Seq<Seq<char>>,
    c: RepetitionContext,
    other: Seq<Seq<char>>,
    places: Seq<int>,
)
    requires
        is_repetition(commands, Some(c)),
        are_runs(commands, other, places),
    ensures
        exists|found: Seq<int>| #[trigger]
            are_runs(commands, views(c.sequence@), found) && found.len() == c.count,
        are_runs(commands, views(c.sequence@), places) ==> places.len() <= c.count,
        other.len() == c.sequence@.len() ==> places.len() <= c.count,
        2 <= other.len() < c.sequence@.len() ==> places.len() < 3,
        3 <= c.count,
        2 <= c.sequence@.len() <= 4,
{
    let part = views(c.sequence@);
    let n = commands.len() as int;
    let found = lemma_times_places(commands, part, n);
    assert(are_runs(commands, part, found) && found.len() == c.count);
    assert forall|a: int| 0 <= a < places.len() && other.len() > 0 implies #[trigger] places[a]
        < n by {
        assert(runs_at(commands, other, places[a]));
    }
    if other.len() > 0 {
        lemma_times_at_least(commands, other, places, n);
    }
    if are_runs(commands, part, places) {
        assert forall|a: int| 0 <= a < places.len() implies #[trigger] places[a] < n by {
            assert(runs_at(commands, part, places[a]));
        }
        lemma_times_at_least(commands, part, places, n);
    }
    if places.len() > 0 {
        assert(runs_at(commands, other, places[0]));
        lemma_runs_at(commands, other, places[0]);
        assert(begins(commands, other.len() as int, places[0]));
    }
}

/// The commands of a window are those of its terminal events, in their order:
/// each event that names a tool adds one, the tool with its subcommand behind
/// a space, or the tool alone.
pub proof fn law_commands_follow_the_events(terminal: Seq<Arc<Json>>, event: Arc<Json>)
    ensures
        tokens(Seq::empty()) == Seq::<Seq<char>>::empty(),
        said(*event, "tool"@) is None ==> tokens(terminal.push(event)) == tokens(terminal),
        said(*event, "tool"@) matches Some(tool) ==> tokens(terminal.push(event)) == tokens(
            terminal,
        ).push(
            match said(*event, "subcommand"@) {
                Some(sub) => tool + seq![' '] + sub,
                None => tool,
            },
        ),
{
    let more = terminal.push(event);
    lemma_tokens_prefix(more, terminal, terminal.len() as int);
    assert(more[terminal.len() as int] == event);
    assert(Json::Null.field("tool"@) is None);
    assert(Json::Null.field("subcommand"@) is None);
    reveal_strlit(" ");
    assert(" "@ =~= seq![' ']);
}

proof fn lemma_tokens_prefix(a: Seq<Arc<Json>>, b: Seq<Arc<Json>>, n: int)
    requires
        0 <= n <= a.len(),
        n <= b.len(),
        forall|i: int| 0 <= i < n ==> a[i] == b[i],
    ensures
        tokens_to(a, n) == tokens_to(b, n),
    decreases n,
{
    if n > 0 {
        lemma_tokens_prefix(a, b, n - 1);
        assert(a[n - 1] == b[n - 1]);
    }
}

// ---------------------------------------------------------------------
// Idling
// ---------------------------------------------------------------------

/// An event is something that the user did.
pub open spec fn done_by_the_user(event: Json) -> bool {
    ||| event.text_at("source"@) == Some("terminal"@)
    ||| event.text_at("source"@) == Some("browser"@)
    ||| event.text_at("source"@) == Some("filesystem"@)
    ||| event.text_at("source"@) == Some("clipboard"@)
}

/// The pause since a point in time, if it is as long as a threshold.
pub open spec fn pause_since(ts: int, now: u64, threshold_sec: u64) -> Option<u64> {
    let secs = if now > ts {
        now - ts
    } else {
        0
    };
    if secs >= threshold_sec {
        Some(secs as u64)
    } else {
        None
    }
}

proof fn lemma_latest(events: Seq<Arc<Json>>, n: int)
    requires
        0 <= n <= events.len(),
    ensures
        last_meaningful(events, n) matches Some(ts) ==> exists|i: int|
            0 <= i < n && done_by_the_user(*#[trigger] events[i]) && at(*events[i]) == ts,
        last_meaningful(events, n) matches Some(ts) ==> forall|i: int|
            0 <= i < n && done_by_the_user(*#[trigger] events[i]) ==> at(*events[i]) <= ts,
        last_meaningful(events, n) is None ==> forall|i: int|
            0 <= i < n ==> !done_by_the_user(*#[trigger] events[i]),
    decreases n,
{
    if n > 0 {
        lemma_latest(events, n - 1);
        lemma_sources_differ();
        assert(done_by_the_user(*events[n - 1]) == super::recognizers::meaningful(*events[n - 1]));
        assert(at(*events[n - 1]) == super::buffer::time_of(*events[n - 1]));
    }
}

proof fn lemma_sources_differ()
    ensures
        "terminal"@.len() > 0,
        "browser"@.len() > 0,
        "filesystem"@.len() > 0,
        "clipboard"@.len() > 0,
{
    reveal_strlit("terminal");
    reveal_strlit("browser");
    reveal_strlit("filesystem");
    reveal_strlit("clipboard");
}

/// Idling is counted from the latest terminal, browser, filesystem or
/// clipboard event of the window, whatever else came later.
pub proof fn law_idling_is_counted_from_the_latest_deed(
    events: Seq<Arc<Json>>,
    latest: int,
    now: u64,
    threshold_sec: u64,
)
    requires
        0 <= latest < events.len(),
        done_by_the_user(*events[latest]),
        forall|i: int|
            0 <= i < events.len() && done_by_the_user(*#[trigger] events[i]) ==> at(*events[i])
                <= at(*events[latest]),
    ensures
        idle_secs(events, now, threshold_sec) == pause_since(
            at(*events[latest]),
            now,
            threshold_sec,
        ),
{
    lemma_latest(events, events.len() as int);
}

/// With nothing but background polling in the window, idling is counted from
/// the last event; with nothing at all, the user is idle.
pub proof fn law_idling_without_a_deed(events: Seq<Arc<Json>>, now: u64, threshold_sec: u64)
    requires
        forall|i: int| 0 <= i < events.len() ==> !done_by_the_user(*#[trigger] events[i]),
    ensures
        events.len() == 0 ==> idle_secs(events, now, threshold_sec) == Some(threshold_sec),
        events.len() > 0 ==> idle_secs(events, now, threshold_sec) == pause_since(
            at(*events[events.len() - 1]),
            now,
            threshold_sec,
        ),
{
    lemma_latest(events, events.len() as int);
}

// ---------------------------------------------------------------------
// Context switches
// ---------------------------------------------------------------------

proof fn lemma_last_entity(events: Seq<Arc<Json>>, key: Seq<char>, n: int)
    requires
        0 <= n <= events.len(),
    ensures
        last_entity(events, key, n) is None ==> forall|i: int|
            0 <= i < n ==> said(*#[trigger] events[i], key) is None,
        last_entity(events, key, n) is Some ==> exists|i: int|
            {
                &&& 0 <= i < n
                &&& said(*#[trigger] events[i], key) == last_entity(events, key, n)
                &&& forall|j: int| i < j < n ==> said(*#[trigger] events[j], key) is None
            },
    decreases n,
{
    assert(Json::Null.field(key) is None);
    if n > 0 {
        lemma_last_entity(events, key, n - 1);
        assert(said(*events[n - 1], key) == super::buffer::entity_text(*events[n - 1], key));
    }
}

/// `project` is that of the last event between two positions that names one.
pub open spec fn last_project(
    events: Seq<Arc<Json>>,
    from: int,
    to: int,
    project: Seq<char>,
) -> bool {
    exists|i: int|
        {
            &&& from <= i < to
            &&& said(*#[trigger] events[i], "project"@) == Some(project)
            &&& forall|j: int| i < j < to ==> said(*#[trigger] events[j], "project"@) is None
        }
}

/// A context switch is a difference between the project of the last five
/// events of the window and that of the events before them, of which there
/// are five at least; each is the last one named there.
pub proof fn law_a_switch_is_between_the_last_projects(
    events: Seq<Arc<Json>>,
    from: Seq<char>,
    to: Seq<char>,
)
    ensures
        project_switch(events) == Some((from, to)) <==> {
            &&& events.len() >= 10
            &&& from != to
            &&& last_project(events, 0, events.len() - 5, from)
            &&& last_project(events, events.len() - 5, events.len() as int, to)
        },
{
    let n = events.len() as int;
    if n >= 10 {
        let recent = events.skip(n - 5);
        lemma_last_entity(events, "project"@, n - 5);
        lemma_last_entity(recent, "project"@, 5);
        assert(recent.len() == 5);
        assert forall|i: int| 0 <= i < 5 implies #[trigger] recent[i] == events[n - 5 + i] by {}
        let b = last_entity(recent, "project"@, 5);
        if b is Some {
            let i = choose|i: int|
                {
                    &&& 0 <= i < 5
                    &&& said(*#[trigger] recent[i], "project"@) == b
                    &&& forall|j: int| i < j < 5 ==> said(*#[trigger] recent[j], "project"@) is None
                };
            assert(said(*events[n - 5 + i], "project"@) == b);
            assert forall|j: int| n - 5 + i < j < n implies said(
                *#[trigger] events[j],
                "project"@,
            ) is None by {
                assert(recent[j - (n - 5)] == events[j]);
            }
            assert(last_project(events, n - 5, n, b->0));
        } else {
            assert forall|j: int| n - 5 <= j < n implies said(
                *#[trigger] events[j],
                "project"@,
            ) is None by {
                assert(recent[j - (n - 5)] == events[j]);
            }
        }
    }
}

// ---------------------------------------------------------------------
// The buffer
// ---------------------------------------------------------------------

/// Each sublist of the buffer holds the buffered events of its source, in
/// their order: terminal, browser, window, filesystem and clipboard.
pub proof fn law_sublists_are_by_source(window: &SlidingWindowBuffer)
    requires
        window.wf(),
    ensures
        ({
            let all = window.events@;
            let lists = window.by_source;
            &&& lists.terminal@ == all.filter(
                |e: Arc<Json>| e.text_at("source"@) == Some("terminal"@),
            )
            &&& lists.browser@ == all.filter(
                |e: Arc<Json>| e.text_at("source"@) == Some("browser"@),
            )
            &&& lists.window@ == all.filter(
                |e: Arc<Json>| e.text_at("source"@) == Some("window"@),
            )
            &&& lists.filesystem@ == all.filter(
                |e: Arc<Json>| e.text_at("source"@) == Some("filesystem"@),
            )
            &&& lists.clipboard@ == all.filter(
                |e: Arc<Json>| e.text_at("source"@) == Some("clipboard"@),
            )
        }),
{
    let all = window.events@;
    lemma_sources_differ();
    reveal_strlit("window");
    assert("window"@.len() == 6);
    lemma_sublist(all, "terminal"@);
    lemma_sublist(all, "browser"@);
    lemma_sublist(all, "window"@);
    lemma_sublist(all, "filesystem"@);
    lemma_sublist(all, "clipboard"@);
    assert(all.filter(|e: Arc<Json>| e.text_at("source"@) == Some("terminal"@)) == all.filter(
        by_source("terminal"@),
    ));
}

spec fn by_source(source: Seq<char>) -> spec_fn(Arc<Json>) -> bool {
    |e: Arc<Json>| e.text_at("source"@) == Some(source)
}

proof fn lemma_sublist(events: Seq<Arc<Json>>, source: Seq<char>)
    requires
        source.len() > 0,
    ensures
        kept(events, super::buffer::from_source(source)) == events.filter(by_source(source)),
{
    let p = super::buffer::from_source(source);
    let q = |e: Json| e.text_at("source"@) == Some(source);
    lemma_kept_counts(events, p, q, events.len() as int);
    assert(events.take(events.len() as int) =~= events);
    assert(by_source(source) =~= (|e: Arc<Json>| q(*e)));
}

} // verus!
