//! Pattern recognizers.
//!
//! Each recognizer is a stateless function over the current buffer
//! contents, called on every push (and on the periodic tick). They look at
//! combinations across sources, not single-source streams - that's what
//! lets [`detect_error_loop`] see "failure, then search, then retry" as one
//! pattern instead of three unrelated events.

use super::buffer::{
    entities_of, entity_text, event_entities, event_ts, is_from, kept, kept_to, share, source_of,
    time_of, SlidingWindowBuffer,
};
use super::{
    opt_error, opt_switch, ContextSwitchContext, ContextSwitchView, ErrorContext,
    ErrorContextView, RepetitionContext,
};
use crate::json::Json;
use crate::text::{lemma_views_push, opt_view, same, same_opt, views};
use std::sync::Arc;
use vstd::prelude::*;

verus! {

/// A repeated command subsequence appearing this many times within the
/// window is "repetition" (short-term, distinct from the profile's long-term
/// command sequences).
pub const REPETITION_THRESHOLD: u32 = 3;

/// The shortest subsequence that counts as repetition.
pub const MIN_SEQ_LEN: usize = 2;

/// The longest subsequence that counts as repetition.
pub const MAX_SEQ_LEN: usize = 4;

/// How many events at the end of the buffer are recent.
pub const RECENT_EVENTS: usize = 5;

/// How many events a context switch takes at least.
pub const SWITCH_MIN_EVENTS: usize = 10;

// ---------------------------------------------------------------------
// Single events
// ---------------------------------------------------------------------

/// The event is a command that failed.
pub open spec fn failed(event: Json) -> bool {
    entities_of(event).integer_at("exit_code"@) matches Some(code) && code != 0
}

/// The event is a web search.
pub open spec fn searched(event: Json) -> bool {
    entity_text(event, "search_query"@) is Some
}

/// `"{tool} {subcommand}"` (or just `"{tool}"`).
pub open spec fn token(event: Json) -> Option<Seq<char>> {
    match entity_text(event, "tool"@) {
        Some(tool) => match entity_text(event, "subcommand"@) {
            Some(sub) => Some(tool + " "@ + sub),
            None => Some(tool),
        },
        None => None,
    }
}

pub fn is_failure(event: &Json) -> (r: bool)
    ensures
        r == failed(*event),
{
    match event_entities(event).get_integer("exit_code") {
        Some(code) => code != 0,
        None => false,
    }
}

pub fn is_search(event: &Json) -> (r: bool)
    ensures
        r == searched(*event),
{
    event_entities(event).has_text("search_query")
}

/// The command of a terminal event: the same token format that the session
/// summarizer uses, so the short-term repetition signal here and the
/// long-term pattern accumulator recognize the same sequences.
pub fn command_token(event: &Json) -> (r: Option<String>)
    ensures
        opt_view(r) == token(*event),
{
    let entities = event_entities(event);
    match entities.get_text("tool") {
        Some(tool) => match entities.get_text("subcommand") {
            Some(sub) => {
                let mut text = tool;
                text.append(" ");
                text.append(sub.as_str());
                Some(text)
            },
            None => Some(tool),
        },
        None => None,
    }
}

// ---------------------------------------------------------------------
// Error loops
// ---------------------------------------------------------------------

/// A failed command.
pub open spec fn failures(terminal: Seq<Arc<Json>>) -> Seq<Arc<Json>> {
    kept(terminal, |e: Json| failed(e))
}

/// A search after a point in time.
pub open spec fn searches_after(browser: Seq<Arc<Json>>, ts: u64) -> Seq<Arc<Json>> {
    kept(browser, |e: Json| time_of(e) > ts && searched(e))
}

/// A command with the given tool after a point in time.
pub open spec fn ran_after(events: Seq<Arc<Json>>, tool: Seq<char>, ts: u64) -> bool {
    exists|i: int|
        0 <= i < events.len() && time_of(*#[trigger] events[i]) > ts && entity_text(
            *events[i],
            "tool"@,
        ) == Some(tool)
}

/// The first text that one of the events from position `from` on has for an
/// entity.
pub open spec fn first_entity(events: Seq<Arc<Json>>, key: Seq<char>, from: int) -> Option<Seq<char>>
    decreases events.len() - from,
{
    if from < 0 || from >= events.len() {
        None
    } else {
        match entity_text(*events[from], key) {
            Some(text) => Some(text),
            None => first_entity(events, key, from + 1),
        }
    }
}

/// The error loop in the window: at least two commands failed, a search
/// followed the first failure, and the tool of the first failure failed
/// again after that search.
pub open spec fn error_loop(terminal: Seq<Arc<Json>>, browser: Seq<Arc<Json>>) -> Option<
    ErrorContextView,
> {
    let fails = failures(terminal);
    if fails.len() < 2 {
        None
    } else {
        let first_ts = time_of(*fails[0]);
        let last_ts = time_of(*fails.last());
        let searches = searches_after(browser, first_ts);
        match entity_text(*fails[0], "tool"@) {
            Some(tool) => if searches.len() > 0 && ran_after(fails, tool, time_of(*searches[0])) {
                Some(
                    ErrorContextView {
                        tool,
                        subcommand: entity_text(*fails[0], "subcommand"@),
                        failure_count: fails.len(),
                        search_count: searches.len(),
                        duration_sec: if last_ts >= first_ts {
                            (last_ts - first_ts) as u64
                        } else {
                            0
                        },
                        domain: first_entity(searches, "domain"@, 0),
                    },
                )
            } else {
                None
            },
            None => None,
        }
    }
}

fn find_failures(terminal: &Vec<Arc<Json>>) -> (r: Vec<Arc<Json>>)
    ensures
        r@ == failures(terminal@),
{
    let ghost p = |e: Json| failed(e);
    let mut out: Vec<Arc<Json>> = Vec::new();
    for i in 0..terminal.len()
        invariant
            p == (|e: Json| failed(e)),
            out@ == kept_to(terminal@, p, i as int),
    {
        if is_failure(&terminal[i]) {
            out.push(share(&terminal[i]));
        }
    }
    out
}

fn find_searches(browser: &Vec<Arc<Json>>, ts: u64) -> (r: Vec<Arc<Json>>)
    ensures
        r@ == searches_after(browser@, ts),
{
    let ghost p = |e: Json| time_of(e) > ts && searched(e);
    let mut out: Vec<Arc<Json>> = Vec::new();
    for i in 0..browser.len()
        invariant
            p == (|e: Json| time_of(e) > ts && searched(e)),
            out@ == kept_to(browser@, p, i as int),
    {
        if event_ts(&browser[i]) > ts && is_search(&browser[i]) {
            out.push(share(&browser[i]));
        }
    }
    out
}

fn is_retried(events: &Vec<Arc<Json>>, tool: &str, ts: u64) -> (r: bool)
    ensures
        r == ran_after(events@, tool@, ts),
{
    for i in 0..events.len()
        invariant
            forall|j: int|
                0 <= j < i ==> !(time_of(*#[trigger] events@[j]) > ts && entity_text(
                    *events@[j],
                    "tool"@,
                ) == Some(tool@)),
    {
        if event_ts(&events[i]) > ts {
            if let Some(t) = event_entities(&events[i]).get_text("tool") {
                if same(t.as_str(), tool) {
                    return true;
                }
            }
        }
    }
    false
}

/// The first text that one of the events has for an entity.
pub fn find_entity(events: &Vec<Arc<Json>>, key: &str) -> (r: Option<String>)
    ensures
        opt_view(r) == first_entity(events@, key@, 0),
{
    let mut i: usize = 0;
    while i < events.len()
        invariant
            i <= events@.len(),
            first_entity(events@, key@, i as int) == first_entity(events@, key@, 0),
        decreases events@.len() - i,
    {
        let text = event_entities(&events[i]).get_text(key);
        if text.is_some() {
            return text;
        }
        i = i + 1;
    }
    None
}

/// The error-loop recognizer: failure -> interleaved search -> retry of the
/// same tool. Requires at least two failures, at least one search after the
/// first failure, and at least one of those failures (a "retry") after the
/// first such search.
pub fn detect_error_loop(buffer: &SlidingWindowBuffer) -> (r: Option<ErrorContext>)
    ensures
        opt_error(r) == error_loop(buffer.by_source.terminal@, buffer.by_source.browser@),
{
    let fails = find_failures(&buffer.by_source.terminal);
    let n: usize = fails.len();
    if n < 2 {
        return None;
    }
    let first_ts = event_ts(&fails[0]);
    let tool = match event_entities(&fails[0]).get_text("tool") {
        Some(tool) => tool,
        None => {
            return None;
        },
    };
    let subcommand = event_entities(&fails[0]).get_text("subcommand");
    let searches = find_searches(&buffer.by_source.browser, first_ts);
    if searches.len() == 0 {
        return None;
    }
    let first_search_ts = event_ts(&searches[0]);
    if !is_retried(&fails, tool.as_str(), first_search_ts) {
        return None;
    }
    let last_ts = event_ts(&fails[n - 1]);
    let domain = find_entity(&searches, "domain");
    Some(
        ErrorContext {
            tool,
            subcommand,
            failure_count: n as u64,
            search_count: searches.len() as u64,
            duration_sec: last_ts.saturating_sub(first_ts),
            domain,
        },
    )
}

// ---------------------------------------------------------------------
// Repetition
// ---------------------------------------------------------------------

/// The commands of the first `n` events.
pub open spec fn tokens_to(terminal: Seq<Arc<Json>>, n: int) -> Seq<Seq<char>>
    decreases n,
{
    if n <= 0 {
        Seq::empty()
    } else {
        match token(*terminal[n - 1]) {
            Some(t) => tokens_to(terminal, n - 1).push(t),
            None => tokens_to(terminal, n - 1),
        }
    }
}

/// The commands in the window.
pub open spec fn tokens(terminal: Seq<Arc<Json>>) -> Seq<Seq<char>> {
    tokens_to(terminal, terminal.len() as int)
}

/// How often `part` begins at one of the first `n` positions of `s`.
pub open spec fn times_to(s: Seq<Seq<char>>, part: Seq<Seq<char>>, n: int) -> nat
    decreases n,
{
    if n <= 0 {
        0
    } else {
        times_to(s, part, n - 1) + if n - 1 + part.len() <= s.len() && s.subrange(
            n - 1,
            n - 1 + part.len(),
        ) == part {
            1nat
        } else {
            0
        }
    }
}

/// How often `part` occurs in `s`, overlaps included.
pub open spec fn times(s: Seq<Seq<char>>, part: Seq<Seq<char>>) -> nat {
    times_to(s, part, s.len() as int)
}

/// `i` is where a part of `s` of length `len` begins.
pub open spec fn begins(s: Seq<Seq<char>>, len: int, i: int) -> bool {
    0 <= i && i + len <= s.len()
}

/// Some part of `s` of length `len` is repeated.
pub open spec fn repeats(s: Seq<Seq<char>>, len: int) -> bool {
    exists|i: int|
        #[trigger] begins(s, len, i) && times(s, s.subrange(i, i + len)) >= REPETITION_THRESHOLD
}

/// `seq` is a most frequent part of `s` of its length.
pub open spec fn most_frequent(s: Seq<Seq<char>>, part: Seq<Seq<char>>) -> bool {
    &&& times(s, part) > 0
    &&& forall|i: int|
        #[trigger] begins(s, part.len() as int, i) ==> times(
            s,
            s.subrange(i, i + part.len()),
        ) <= times(s, part)
}

/// The shortest length of a repeated part.
pub open spec fn repeated_length(s: Seq<Seq<char>>) -> Option<int> {
    if repeats(s, 2) {
        Some(2)
    } else if repeats(s, 3) {
        Some(3)
    } else if repeats(s, 4) {
        Some(4)
    } else {
        None
    }
}

/// `r` reports the repetition in `s`: a most frequent part of the shortest
/// length of which a part is repeated.
pub open spec fn is_repetition(s: Seq<Seq<char>>, r: Option<RepetitionContext>) -> bool {
    match repeated_length(s) {
        Some(len) => {
            &&& r matches Some(c)
            &&& c.sequence@.len() == len
            &&& most_frequent(s, views(c.sequence@))
            &&& c.count == times(s, views(c.sequence@))
            &&& c.count >= REPETITION_THRESHOLD
        },
        None => r is None,
    }
}

proof fn lemma_tokens_len(terminal: Seq<Arc<Json>>, n: int)
    requires
        0 <= n,
    ensures
        tokens_to(terminal, n).len() <= n,
    decreases n,
{
    if n > 0 {
        lemma_tokens_len(terminal, n - 1);
    }
}

proof fn lemma_times_bound(s: Seq<Seq<char>>, part: Seq<Seq<char>>, n: int)
    requires
        0 <= n,
    ensures
        times_to(s, part, n) <= n,
        forall|i: int|
            0 <= i < n && #[trigger] begins(s, part.len() as int, i) && s.subrange(
                i,
                i + part.len(),
            ) == part ==> times_to(s, part, n) > 0,
    decreases n,
{
    if n > 0 {
        lemma_times_bound(s, part, n - 1);
    }
}

fn find_commands(terminal: &Vec<Arc<Json>>) -> (r: Vec<String>)
    ensures
        views(r@) == tokens(terminal@),
{
    broadcast use lemma_views_push;

    let mut out: Vec<String> = Vec::new();
    assert(views(out@) =~= Seq::empty());
    for i in 0..terminal.len()
        invariant
            views(out@) == tokens_to(terminal@, i as int),
    {
        if let Some(t) = command_token(&terminal[i]) {
            out.push(t);
        }
    }
    out
}

/// Whether the parts of `commands` of length `len` at `i` and at `k` are the same.
fn is_same_part(commands: &Vec<String>, len: usize, i: usize, k: usize) -> (r: bool)
    requires
        i + len <= commands@.len(),
        k + len <= commands@.len(),
    ensures
        r == (views(commands@).subrange(i as int, i + len) == views(commands@).subrange(
            k as int,
            k + len,
        )),
{
    let ghost a = views(commands@).subrange(i as int, i + len);
    let ghost b = views(commands@).subrange(k as int, k + len);
    let size: usize = commands.len();
    for j in 0..len
        invariant
            size == commands@.len(),
            i + len <= size,
            k + len <= size,
            a == views(commands@).subrange(i as int, i + len),
            b == views(commands@).subrange(k as int, k + len),
            forall|m: int| 0 <= m < j ==> #[trigger] a[m] == b[m],
    {
        assert(a[j as int] == commands@[i + j]@);
        assert(b[j as int] == commands@[k + j]@);
        if !same(commands[i + j].as_str(), commands[k + j].as_str()) {
            return false;
        }
    }
    assert(a =~= b);
    true
}

/// How often the part of `commands` of length `len` at `k` occurs.
fn count_part(commands: &Vec<String>, len: usize, k: usize) -> (r: u32)
    requires
        k + len <= commands@.len(),
        commands@.len() <= u32::MAX,
    ensures
        r == times(views(commands@), views(commands@).subrange(k as int, k + len)),
        r > 0 || len == 0,
{
    let ghost all = views(commands@);
    let ghost part = all.subrange(k as int, k + len);
    let mut count: u32 = 0;
    for i in 0..commands.len()
        invariant
            k + len <= commands@.len(),
            commands@.len() <= u32::MAX,
            all == views(commands@),
            part == all.subrange(k as int, k + len),
            part.len() == len,
            count == times_to(all, part, i as int),
            count <= i,
    {
        if len <= commands.len() - i && is_same_part(commands, len, i, k) {
            count = count + 1;
        }
    }
    proof {
        lemma_times_bound(all, part, all.len() as int);
        assert(begins(all, part.len() as int, k as int));
    }
    count
}

/// A most frequent part of the given length, if it is repeated.
fn find_repeated(commands: &Vec<String>, len: usize) -> (r: Option<(usize, u32)>)
    requires
        0 < len,
        commands@.len() <= u32::MAX,
    ensures
        match r {
            Some((k, count)) => {
                let s = views(commands@);
                &&& k + len <= commands@.len()
                &&& count == times(s, s.subrange(k as int, k + len))
                &&& count >= REPETITION_THRESHOLD
                &&& most_frequent(s, s.subrange(k as int, k + len))
                &&& repeats(s, len as int)
            },
            None => !repeats(views(commands@), len as int),
        },
{
    let ghost s = views(commands@);
    if commands.len() < len {
        return None;
    }
    let last: usize = commands.len() - len;
    let mut best: usize = 0;
    let mut count: u32 = count_part(commands, len, 0);
    let mut i: usize = 1;
    while i <= last
        invariant
            0 < len,
            commands@.len() <= u32::MAX,
            s == views(commands@),
            last + len == commands@.len(),
            1 <= i <= last + 1,
            best <= last,
            count == times(s, s.subrange(best as int, best + len)),
            count > 0,
            forall|j: int|
                0 <= j < i && #[trigger] begins(s, len as int, j) ==> times(
                    s,
                    s.subrange(j, j + len),
                ) <= count,
        decreases last + 1 - i,
    {
        let c = count_part(commands, len, i);
        if c > count {
            best = i;
            count = c;
        }
        i = i + 1;
    }
    assert(begins(s, len as int, best as int));
    if count >= REPETITION_THRESHOLD {
        Some((best, count))
    } else {
        None
    }
}

/// The repetition recognizer: a 2-4 command subsequence repeated 3+ times
/// within the window - e.g. edit/build/fail looping without an error-loop's
/// search step. Of several most frequent ones it reports one.
pub fn detect_repetition(buffer: &SlidingWindowBuffer) -> (r: Option<RepetitionContext>)
    requires
        buffer.by_source.terminal@.len() <= u32::MAX,
    ensures
        is_repetition(tokens(buffer.by_source.terminal@), r),
{
    let commands = find_commands(&buffer.by_source.terminal);
    let ghost s = views(commands@);
    proof {
        lemma_tokens_len(buffer.by_source.terminal@, buffer.by_source.terminal@.len() as int);
        assert(commands@.len() == s.len());
    }
    let mut len: usize = MIN_SEQ_LEN;
    while len <= MAX_SEQ_LEN
        invariant
            s == views(commands@),
            s == tokens(buffer.by_source.terminal@),
            commands@.len() <= u32::MAX,
            2 <= len <= 5,
            len > 2 ==> !repeats(s, 2),
            len > 3 ==> !repeats(s, 3),
            len > 4 ==> !repeats(s, 4),
        decreases 5 - len,
    {
        if let Some((k, count)) = find_repeated(&commands, len) {
            let sequence = copy_part(&commands, k, len);
            return Some(RepetitionContext { sequence, count });
        }
        len = len + 1;
    }
    None
}

fn copy_part(commands: &Vec<String>, k: usize, len: usize) -> (r: Vec<String>)
    requires
        k + len <= commands@.len(),
    ensures
        views(r@) == views(commands@).subrange(k as int, k + len),
        r@.len() == len,
{
    let mut out: Vec<String> = Vec::new();
    let size: usize = commands.len();
    for i in 0..len
        invariant
            size == commands@.len(),
            k + len <= size,
            out@.len() == i,
            forall|j: int| 0 <= j < i ==> (#[trigger] out@[j])@ == commands@[k + j]@,
    {
        out.push(commands[k + i].clone());
    }
    assert(views(out@) =~= views(commands@).subrange(k as int, k + len));
    out
}

// ---------------------------------------------------------------------
// Idling
// ---------------------------------------------------------------------

/// The event is something that the user did; window focus churn from
/// background polling is not.
pub open spec fn meaningful(event: Json) -> bool {
    ||| source_of(event) == "terminal"@
    ||| source_of(event) == "browser"@
    ||| source_of(event) == "filesystem"@
    ||| source_of(event) == "clipboard"@
}

/// The latest time of a meaningful event among the first `n`.
pub open spec fn last_meaningful(events: Seq<Arc<Json>>, n: int) -> Option<u64>
    decreases n,
{
    if n <= 0 {
        None
    } else {
        let before = last_meaningful(events, n - 1);
        if !meaningful(*events[n - 1]) {
            before
        } else {
            match before {
                Some(ts) => if time_of(*events[n - 1]) > ts {
                    Some(time_of(*events[n - 1]))
                } else {
                    Some(ts)
                },
                None => Some(time_of(*events[n - 1])),
            }
        }
    }
}

pub open spec fn elapsed(now: u64, ts: u64) -> u64 {
    if now >= ts {
        (now - ts) as u64
    } else {
        0
    }
}

/// How long the user has been idle, if for as long as the threshold. With
/// nothing but background polling in the window, it is the age of the most
/// recent event.
pub open spec fn idle_secs(events: Seq<Arc<Json>>, now: u64, threshold_sec: u64) -> Option<u64> {
    if events.len() == 0 {
        Some(threshold_sec)
    } else {
        match last_meaningful(events, events.len() as int) {
            Some(ts) => if elapsed(now, ts) >= threshold_sec {
                Some(elapsed(now, ts))
            } else {
                None
            },
            None => if elapsed(now, time_of(*events.last())) >= threshold_sec {
                Some(elapsed(now, time_of(*events.last())))
            } else {
                None
            },
        }
    }
}

fn is_meaningful(event: &Json) -> (r: bool)
    ensures
        r == meaningful(*event),
{
    is_from(event, "terminal") || is_from(event, "browser") || is_from(event, "filesystem")
        || is_from(event, "clipboard")
}

/// The idle recognizer: how long it's been since the last *meaningful*
/// event (terminal/browser/filesystem/clipboard). Window focus churn from
/// background polling doesn't count - without this distinction the system
/// never detects idle, since the window collector fires continuously.
///
/// Returns `Some(idle_seconds)` if idle for at least `threshold_sec`.
pub fn detect_idle(buffer: &SlidingWindowBuffer, now: u64, threshold_sec: u64) -> (r: Option<u64>)
    ensures
        r == idle_secs(buffer.events@, now, threshold_sec),
{
    let n: usize = buffer.events.len();
    if n == 0 {
        return Some(threshold_sec);
    }
    let mut last: Option<u64> = None;
    for i in 0..n
        invariant
            n == buffer.events@.len(),
            last == last_meaningful(buffer.events@, i as int),
    {
        if is_meaningful(&buffer.events[i]) {
            let ts = event_ts(&buffer.events[i]);
            last = match last {
                Some(l) => if ts > l {
                    Some(ts)
                } else {
                    Some(l)
                },
                None => Some(ts),
            };
        }
    }
    let since = match last {
        Some(ts) => ts,
        None => event_ts(&buffer.events[n - 1]),
    };
    let idle = now.saturating_sub(since);
    if idle >= threshold_sec {
        Some(idle)
    } else {
        None
    }
}

// ---------------------------------------------------------------------
// Context switches
// ---------------------------------------------------------------------

/// The last text that one of the first `n` events has for an entity.
pub open spec fn last_entity(events: Seq<Arc<Json>>, key: Seq<char>, n: int) -> Option<Seq<char>>
    decreases n,
{
    if n <= 0 {
        None
    } else {
        match entity_text(*events[n - 1], key) {
            Some(text) => Some(text),
            None => last_entity(events, key, n - 1),
        }
    }
}

/// The switch from one project to another: the project of the recent events
/// is another one than that of the events before.
pub open spec fn project_switch(events: Seq<Arc<Json>>) -> Option<(Seq<char>, Seq<char>)> {
    let n = events.len() as int;
    if n < SWITCH_MIN_EVENTS {
        None
    } else {
        let recent = events.skip(n - RECENT_EVENTS);
        match (
            last_entity(events, "project"@, n - RECENT_EVENTS),
            last_entity(recent, "project"@, recent.len() as int),
        ) {
            (Some(from), Some(to)) => if from != to {
                Some((from, to))
            } else {
                None
            },
            _ => None,
        }
    }
}

/// A context switch as it is reported.
pub open spec fn switch_view(
    switched: Option<(Seq<char>, Seq<char>)>,
    mid_task: bool,
) -> Option<ContextSwitchView> {
    match switched {
        Some((from, to)) => Some(
            ContextSwitchView { from_project: Some(from), to_project: Some(to), mid_task },
        ),
        None => None,
    }
}

proof fn lemma_last_entity_skip(events: Seq<Arc<Json>>, key: Seq<char>, k: int, n: int)
    requires
        0 <= k,
        0 <= n,
        k + n <= events.len(),
    ensures
        last_entity(events.skip(k), key, n) == last_of_range(events, key, k, k + n),
    decreases n,
{
    if n > 0 {
        lemma_last_entity_skip(events, key, k, n - 1);
        assert(events.skip(k)[n - 1] == events[k + n - 1]);
    }
}

/// The last text that one of the events between two positions has.
spec fn last_of_range(events: Seq<Arc<Json>>, key: Seq<char>, from: int, to: int) -> Option<
    Seq<char>,
>
    decreases to - from,
{
    if to <= from {
        None
    } else {
        match entity_text(*events[to - 1], key) {
            Some(text) => Some(text),
            None => last_of_range(events, key, from, to - 1),
        }
    }
}

fn find_last_entity(events: &Vec<Arc<Json>>, key: &str, from: usize, to: usize) -> (r: Option<
    String,
>)
    requires
        from <= to <= events@.len(),
    ensures
        opt_view(r) == last_of_range(events@, key@, from as int, to as int),
{
    let mut n: usize = to;
    while n > from
        invariant
            from <= n <= to <= events@.len(),
            last_of_range(events@, key@, from as int, n as int) == last_of_range(
                events@,
                key@,
                from as int,
                to as int,
            ),
        decreases n,
    {
        let text = event_entities(&events[n - 1]).get_text(key);
        if text.is_some() {
            return text;
        }
        n = n - 1;
    }
    None
}

/// The last text that one of the events has for an entity.
pub fn find_latest(events: &Vec<Arc<Json>>, key: &str) -> (r: Option<String>)
    ensures
        opt_view(r) == last_entity(events@, key@, events@.len() as int),
{
    proof {
        lemma_last_entity_skip(events@, key@, 0, events@.len() as int);
        assert(events@.skip(0) =~= events@);
    }
    find_last_entity(events, key, 0, events.len())
}

/// The context-switch recognizer: compares the project referenced by the
/// last 5 events to the project referenced by everything before that.
/// `mid_task` is left for the caller to fill in (it depends on the running
/// blocking score, which the recognizer doesn't have access to).
pub fn detect_context_switch(buffer: &SlidingWindowBuffer) -> (r: Option<ContextSwitchContext>)
    ensures
        opt_switch(r) == switch_view(project_switch(buffer.events@), false),
{
    let n: usize = buffer.events.len();
    if n < SWITCH_MIN_EVENTS {
        return None;
    }
    let k: usize = n - RECENT_EVENTS;
    proof {
        lemma_last_entity_skip(buffer.events@, "project"@, 0, k as int);
        assert(buffer.events@.skip(0) =~= buffer.events@);
        lemma_last_entity_skip(buffer.events@, "project"@, k as int, n - k);
    }
    let recent = find_last_entity(&buffer.events, "project", k, n);
    let earlier = find_last_entity(&buffer.events, "project", 0, k);
    if recent.is_none() || earlier.is_none() || same_opt(&recent, &earlier) {
        return None;
    }
    Some(ContextSwitchContext { from_project: earlier, to_project: recent, mid_task: false })
}

// ---------------------------------------------------------------------
// Laws
// ---------------------------------------------------------------------

/// An error loop takes two failures at least and a search, and its tool is
/// that of a failed command.
pub proof fn law_error_loop_is_more_than_failure(
    terminal: Seq<Arc<Json>>,
    browser: Seq<Arc<Json>>,
)
    ensures
        error_loop(terminal, browser) matches Some(c) ==> {
            &&& c.failure_count >= 2
            &&& c.search_count >= 1
            &&& exists|i: int|
                0 <= i < terminal.len() && failed(*#[trigger] terminal[i]) && entity_text(
                    *terminal[i],
                    "tool"@,
                ) == Some(c.tool)
        },
{
    let fails = failures(terminal);
    super::buffer::lemma_kept_holds(terminal, |e: Json| failed(e), terminal.len() as int);
    if fails.len() >= 2 {
        assert(terminal.contains(fails[0]));
        let i = choose|i: int| 0 <= i < terminal.len() && terminal[i] == fails[0];
        assert(failed(*terminal[i]));
    }
}

spec fn first_time(events: Seq<Arc<Json>>) -> u64 {
    time_of(*events[0])
}

/// Failures alone are no error loop: without a search in the window there is
/// none.
pub proof fn law_no_search_no_error_loop(terminal: Seq<Arc<Json>>, browser: Seq<Arc<Json>>)
    requires
        forall|i: int| 0 <= i < browser.len() ==> !searched(*#[trigger] browser[i]),
    ensures
        error_loop(terminal, browser) is None,
{
    let ts = first_time(failures(terminal));
    let p = |e: Json| time_of(e) > ts && searched(e);
    super::buffer::lemma_kept_holds(browser, p, browser.len() as int);
    let searches = searches_after(browser, ts);
    if searches.len() > 0 {
        assert(p(*searches[0]) && browser.contains(searches[0]));
    }
}

proof fn lemma_last_meaningful(events: Seq<Arc<Json>>, i: int, n: int)
    requires
        0 <= i < n <= events.len(),
        meaningful(*events[i]),
    ensures
        last_meaningful(events, n) matches Some(ts) && ts >= time_of(*events[i]),
    decreases n,
{
    if i < n - 1 {
        lemma_last_meaningful(events, i, n - 1);
    }
}

/// Whoever counts as idle has been so for as long as the threshold at least.
pub proof fn law_idling_reaches_the_threshold(
    events: Seq<Arc<Json>>,
    now: u64,
    threshold_sec: u64,
)
    ensures
        idle_secs(events, now, threshold_sec) matches Some(secs) ==> secs >= threshold_sec,
{
}

/// Someone who did something less than the threshold ago is not idle.
pub proof fn law_recent_activity_is_not_idle(
    events: Seq<Arc<Json>>,
    i: int,
    now: u64,
    threshold_sec: u64,
)
    requires
        0 <= i < events.len(),
        meaningful(*events[i]),
        elapsed(now, time_of(*events[i])) < threshold_sec,
    ensures
        idle_secs(events, now, threshold_sec) is None,
{
    lemma_last_meaningful(events, i, events.len() as int);
}

proof fn lemma_last_meaningful_prefix(a: Seq<Arc<Json>>, b: Seq<Arc<Json>>, n: int)
    requires
        0 <= n <= a.len(),
        n <= b.len(),
        forall|i: int| 0 <= i < n ==> a[i] == b[i],
    ensures
        last_meaningful(a, n) == last_meaningful(b, n),
    decreases n,
{
    if n > 0 {
        lemma_last_meaningful_prefix(a, b, n - 1);
        assert(a[n - 1] == b[n - 1]);
    }
}

/// Background polling does not end a pause: an event of another source does
/// not change for how long someone has been idle who did something before.
pub proof fn law_background_does_not_end_a_pause(
    events: Seq<Arc<Json>>,
    event: Arc<Json>,
    now: u64,
    threshold_sec: u64,
)
    requires
        last_meaningful(events, events.len() as int) is Some,
        !meaningful(*event),
    ensures
        idle_secs(events.push(event), now, threshold_sec) == idle_secs(events, now, threshold_sec),
{
    lemma_last_meaningful_prefix(events.push(event), events, events.len() as int);
}

} // verus!
