//! The sliding window buffer.
//!
//! A bounded, time-keyed view of the most recent normalized events,
//! maintained in memory with a TTL-based eviction. Alongside the
//! chronological list it keeps per-source sublists so pattern recognizers
//! can ask "what have the terminal events looked like in the last 5
//! minutes?" without walking through all events.

use crate::json::Json;
use crate::text::same;
use std::sync::Arc;
use vstd::prelude::*;

verus! {

// ---------------------------------------------------------------------
// Normalized events as the buffer reads them
// ---------------------------------------------------------------------

/// The time of an event, or zero.
pub open spec fn time_of(event: Json) -> u64 {
    match event.natural_at("timestamp"@) {
        Some(ts) => ts,
        None => 0,
    }
}

/// The source of an event, or the empty text.
pub open spec fn source_of(event: Json) -> Seq<char> {
    match event.text_at("source"@) {
        Some(source) => source,
        None => Seq::empty(),
    }
}

/// The entities of an event.
pub open spec fn entities_of(event: Json) -> Json {
    match event.field("entities"@) {
        Some(entities) => *entities,
        None => Json::Null,
    }
}

/// The text of an entity of an event.
pub open spec fn entity_text(event: Json, key: Seq<char>) -> Option<Seq<char>> {
    entities_of(event).text_at(key)
}

/// The time of an event.
pub fn event_ts(event: &Json) -> (r: u64)
    ensures
        r == time_of(*event),
{
    match event.get_natural("timestamp") {
        Some(ts) => ts,
        None => 0,
    }
}

/// The entities of an event.
pub fn event_entities(event: &Json) -> (r: &Json)
    ensures
        *r == entities_of(*event),
{
    match event.get("entities") {
        Some(entities) => entities,
        None => &Json::Null,
    }
}

/// Whether the source of an event is the given one.
pub fn is_from(event: &Json, source: &str) -> (r: bool)
    ensures
        r == (source_of(*event) == source@),
{
    match event.get_text("source") {
        Some(s) => same(s.as_str(), source),
        None => {
            proof {
                reveal_strlit("");
                assert(""@ =~= Seq::<char>::empty());
            }
            same("", source)
        },
    }
}

/// `std::sync::Arc::clone`: another handle on the same event.
#[verifier::external_body]
pub(crate) fn share(event: &Arc<Json>) -> (r: Arc<Json>)
    ensures
        r == *event,
{
    Arc::clone(event)
}

// ---------------------------------------------------------------------
// Selecting events
// ---------------------------------------------------------------------

/// Those of the first `n` events that `p` holds of.
pub open spec fn kept_to(events: Seq<Arc<Json>>, p: spec_fn(Json) -> bool, n: int) -> Seq<Arc<Json>>
    decreases n,
{
    if n <= 0 {
        Seq::empty()
    } else if p(*events[n - 1]) {
        kept_to(events, p, n - 1).push(events[n - 1])
    } else {
        kept_to(events, p, n - 1)
    }
}

/// The events that `p` holds of, in their order.
pub open spec fn kept(events: Seq<Arc<Json>>, p: spec_fn(Json) -> bool) -> Seq<Arc<Json>> {
    kept_to(events, p, events.len() as int)
}

/// The events of the given source.
pub open spec fn from_source(source: Seq<char>) -> spec_fn(Json) -> bool {
    |e: Json| source_of(e) == source
}

/// The events that are not older than `cutoff`.
pub open spec fn since(cutoff: u64) -> spec_fn(Json) -> bool {
    |e: Json| time_of(e) >= cutoff
}

proof fn lemma_kept_prefix(a: Seq<Arc<Json>>, b: Seq<Arc<Json>>, p: spec_fn(Json) -> bool, n: int)
    requires
        0 <= n <= a.len(),
        n <= b.len(),
        forall|i: int| 0 <= i < n ==> a[i] == b[i],
    ensures
        kept_to(a, p, n) == kept_to(b, p, n),
    decreases n,
{
    if n > 0 {
        lemma_kept_prefix(a, b, p, n - 1);
        assert(a[n - 1] == b[n - 1]);
    }
}

pub proof fn lemma_kept_push(events: Seq<Arc<Json>>, event: Arc<Json>, p: spec_fn(Json) -> bool)
    ensures
        kept(events.push(event), p) == if p(*event) {
            kept(events, p).push(event)
        } else {
            kept(events, p)
        },
{
    lemma_kept_prefix(events.push(event), events, p, events.len() as int);
}

/// Selecting twice is selecting once, in either order.
pub proof fn lemma_kept_commutes(
    events: Seq<Arc<Json>>,
    p: spec_fn(Json) -> bool,
    q: spec_fn(Json) -> bool,
)
    ensures
        kept(kept(events, p), q) == kept(kept(events, q), p),
    decreases events.len(),
{
    if events.len() > 0 {
        let rest = events.drop_last();
        let last = events.last();
        assert(events =~= rest.push(last));
        lemma_kept_commutes(rest, p, q);
        lemma_kept_push(rest, last, p);
        lemma_kept_push(rest, last, q);
        lemma_kept_push(kept(rest, p), last, q);
        lemma_kept_push(kept(rest, q), last, p);
    }
}

/// What is selected satisfies the selection, and was there.
pub proof fn lemma_kept_holds(events: Seq<Arc<Json>>, p: spec_fn(Json) -> bool, n: int)
    requires
        0 <= n <= events.len(),
    ensures
        kept_to(events, p, n).len() <= n,
        forall|i: int|
            0 <= i < kept_to(events, p, n).len() ==> p(*#[trigger] kept_to(events, p, n)[i])
                && events.contains(kept_to(events, p, n)[i]),
    decreases n,
{
    if n > 0 {
        lemma_kept_holds(events, p, n - 1);
    }
}

fn retain_since(events: &Vec<Arc<Json>>, cutoff: u64) -> (r: Vec<Arc<Json>>)
    ensures
        r@ == kept(events@, since(cutoff)),
{
    let mut out: Vec<Arc<Json>> = Vec::new();
    for i in 0..events.len()
        invariant
            out@ == kept_to(events@, since(cutoff), i as int),
    {
        if event_ts(&events[i]) >= cutoff {
            out.push(share(&events[i]));
        }
    }
    out
}

// ---------------------------------------------------------------------
// The buffer
// ---------------------------------------------------------------------

/// The sublists of the sources that recognizers query, oldest first. Other
/// sources (e.g. `"session"`, `"process"`, `"calendar"`) don't get one.
pub struct SourceLists {
    pub terminal: Vec<Arc<Json>>,
    pub browser: Vec<Arc<Json>>,
    pub window: Vec<Arc<Json>>,
    pub filesystem: Vec<Arc<Json>>,
    pub clipboard: Vec<Arc<Json>>,
}

pub struct SlidingWindowBuffer {
    pub ttl_secs: u64,
    /// All buffered events, oldest first.
    pub events: Vec<Arc<Json>>,
    /// Per-source sublists, oldest first.
    pub by_source: SourceLists,
}

/// The oldest time that stays in a buffer at `now`.
pub open spec fn cutoff(now: u64, ttl_secs: u64) -> u64 {
    if now >= ttl_secs {
        (now - ttl_secs) as u64
    } else {
        0
    }
}

impl SlidingWindowBuffer {
    /// Each sublist holds the buffered events of its source.
    pub open spec fn wf(&self) -> bool {
        &&& self.by_source.terminal@ == kept(self.events@, from_source("terminal"@))
        &&& self.by_source.browser@ == kept(self.events@, from_source("browser"@))
        &&& self.by_source.window@ == kept(self.events@, from_source("window"@))
        &&& self.by_source.filesystem@ == kept(self.events@, from_source("filesystem"@))
        &&& self.by_source.clipboard@ == kept(self.events@, from_source("clipboard"@))
    }

    pub fn new(ttl_secs: u64) -> (r: Self)
        ensures
            r.wf(),
            r.ttl_secs == ttl_secs,
            r.events@ == Seq::<Arc<Json>>::empty(),
    {
        SlidingWindowBuffer {
            ttl_secs,
            events: Vec::new(),
            by_source: SourceLists {
                terminal: Vec::new(),
                browser: Vec::new(),
                window: Vec::new(),
                filesystem: Vec::new(),
                clipboard: Vec::new(),
            },
        }
    }

    /// Appends a normalized event and evicts anything older than the TTL
    /// relative to `now` (unix seconds).
    pub fn push(&mut self, event: Arc<Json>, now: u64)
        requires
            old(self).wf(),
        ensures
            final(self).wf(),
            final(self).ttl_secs == old(self).ttl_secs,
            final(self).events@ == kept(
                old(self).events@.push(event),
                since(cutoff(now, old(self).ttl_secs)),
            ),
    {
        proof {
            reveal_strlit("terminal");
            reveal_strlit("browser");
            reveal_strlit("window");
            reveal_strlit("filesystem");
            reveal_strlit("clipboard");
            assert("terminal"@[0] != "browser"@[0] && "terminal"@[0] != "window"@[0]
                && "terminal"@[0] != "filesystem"@[0] && "terminal"@[0] != "clipboard"@[0]);
            assert("browser"@[0] != "window"@[0] && "browser"@[0] != "filesystem"@[0]
                && "browser"@[0] != "clipboard"@[0]);
            assert("window"@[0] != "filesystem"@[0] && "window"@[0] != "clipboard"@[0]);
            assert("filesystem"@[0] != "clipboard"@[0]);
            lemma_kept_push(self.events@, event, from_source("terminal"@));
            lemma_kept_push(self.events@, event, from_source("browser"@));
            lemma_kept_push(self.events@, event, from_source("window"@));
            lemma_kept_push(self.events@, event, from_source("filesystem"@));
            lemma_kept_push(self.events@, event, from_source("clipboard"@));
        }
        if is_from(&event, "terminal") {
            self.by_source.terminal.push(share(&event));
        } else if is_from(&event, "browser") {
            self.by_source.browser.push(share(&event));
        } else if is_from(&event, "window") {
            self.by_source.window.push(share(&event));
        } else if is_from(&event, "filesystem") {
            self.by_source.filesystem.push(share(&event));
        } else if is_from(&event, "clipboard") {
            self.by_source.clipboard.push(share(&event));
        }
        self.events.push(event);
        self.evict(now);
    }

    /// Drops events older than the TTL relative to `now`, without pushing a
    /// new event - used by the periodic tick so idle detection works even
    /// when nothing new has arrived.
    pub fn evict(&mut self, now: u64)
        requires
            old(self).wf(),
        ensures
            final(self).wf(),
            final(self).ttl_secs == old(self).ttl_secs,
            final(self).events@ == kept(
                old(self).events@,
                since(cutoff(now, old(self).ttl_secs)),
            ),
    {
        let cutoff = now.saturating_sub(self.ttl_secs);
        proof {
            let p = since(cutoff);
            lemma_kept_commutes(self.events@, p, from_source("terminal"@));
            lemma_kept_commutes(self.events@, p, from_source("browser"@));
            lemma_kept_commutes(self.events@, p, from_source("window"@));
            lemma_kept_commutes(self.events@, p, from_source("filesystem"@));
            lemma_kept_commutes(self.events@, p, from_source("clipboard"@));
        }
        self.events = retain_since(&self.events, cutoff);
        self.by_source.terminal = retain_since(&self.by_source.terminal, cutoff);
        self.by_source.browser = retain_since(&self.by_source.browser, cutoff);
        self.by_source.window = retain_since(&self.by_source.window, cutoff);
        self.by_source.filesystem = retain_since(&self.by_source.filesystem, cutoff);
        self.by_source.clipboard = retain_since(&self.by_source.clipboard, cutoff);
    }
}

/// Nothing older than the time to live stays in the buffer, and nothing
/// younger is dropped.
pub proof fn law_eviction_is_by_age(events: Seq<Arc<Json>>, now: u64, ttl_secs: u64)
    ensures
        ({
            let rest = kept(events, since(cutoff(now, ttl_secs)));
            &&& forall|i: int|
                0 <= i < rest.len() ==> now - time_of(*#[trigger] rest[i]) <= ttl_secs
            &&& forall|e: Arc<Json>|
                events.contains(e) && now - time_of(*e) <= ttl_secs ==> #[trigger] rest.contains(e)
        }),
{
    let p = since(cutoff(now, ttl_secs));
    lemma_kept_holds(events, p, events.len() as int);
    assert forall|e: Arc<Json>|
        events.contains(e) && now - time_of(*e) <= ttl_secs implies #[trigger] kept(
        events,
        p,
    ).contains(e) by {
        lemma_kept_contains(events, p, e, events.len() as int);
    }
}

proof fn lemma_kept_contains(
    events: Seq<Arc<Json>>,
    p: spec_fn(Json) -> bool,
    event: Arc<Json>,
    n: int,
)
    requires
        0 <= n <= events.len(),
        p(*event),
        exists|i: int| 0 <= i < n && #[trigger] events[i] == event,
    ensures
        kept_to(events, p, n).contains(event),
    decreases n,
{
    let before = kept_to(events, p, n - 1);
    if events[n - 1] == event {
        assert(before.push(events[n - 1])[before.len() as int] == event);
    } else {
        lemma_kept_contains(events, p, event, n - 1);
        let i = choose|i: int| 0 <= i < before.len() && before[i] == event;
        assert(kept_to(events, p, n)[i] == event);
    }
}

/// Evicting again at the same or an earlier time changes nothing.
pub proof fn law_evicting_again_changes_nothing(
    events: Seq<Arc<Json>>,
    now: u64,
    earlier: u64,
    ttl_secs: u64,
)
    requires
        earlier <= now,
    ensures
        ({
            let rest = kept(events, since(cutoff(now, ttl_secs)));
            kept(rest, since(cutoff(earlier, ttl_secs))) == rest
        }),
{
    let rest = kept(events, since(cutoff(now, ttl_secs)));
    lemma_kept_holds(events, since(cutoff(now, ttl_secs)), events.len() as int);
    lemma_kept_all(rest, since(cutoff(earlier, ttl_secs)), rest.len() as int);
}

proof fn lemma_kept_all(events: Seq<Arc<Json>>, p: spec_fn(Json) -> bool, n: int)
    requires
        0 <= n <= events.len(),
        forall|i: int| 0 <= i < n ==> p(*#[trigger] events[i]),
    ensures
        kept_to(events, p, n) == events.take(n),
    decreases n,
{
    if n > 0 {
        lemma_kept_all(events, p, n - 1);
        assert(events.take(n - 1).push(events[n - 1]) =~= events.take(n));
    }
    assert(n == events.len() ==> events.take(n) =~= events);
    assert(events.take(0) =~= Seq::empty());
}

} // verus!
