//! File changes under recently-active project directories.

use crate::event::{opt_raw, Event, EventView};
use crate::json::Json;
use crate::lists::first;
use crate::normalize::entities::{project_root_candidates, search_path};
use crate::normalize::pipeline::sole_member;
use crate::path::{self, extension_of, is_under, parts, path_eq};
use crate::text::{opt_str_view, opt_view, same, views};
use std::collections::VecDeque;
use vstd::prelude::*;

verus! {

/// How many project roots to watch at once. Roots are evicted LRU-style as
/// the user moves between projects (tracked via terminal/window `cwd`).
pub const MAX_WATCHED_ROOTS: usize = 3;

/// Minimum gap between emitted events for the same path, in nanoseconds, to
/// avoid flooding on editors that write a file multiple times per save.
pub const DEBOUNCE_NANOS: u64 = 2_000_000_000;

/// How many paths the debouncer remembers before it forgets old ones.
pub const MAX_REMEMBERED_PATHS: usize = 2000;

/// How long the debouncer remembers a path at least, in nanoseconds.
pub const MEMORY_NANOS: u64 = 60_000_000_000;

// ---------------------------------------------------------------------
// Working directories
// ---------------------------------------------------------------------

/// The working directory of a raw window or terminal event, unless it is
/// missing or empty.
pub open spec fn event_cwd(raw: &Json) -> Option<Seq<char>> {
    match sole_member(raw) {
        Some((variant, inner)) => if variant == "Window"@ || variant == "Terminal"@ {
            match inner.text_at("cwd"@) {
                Some(cwd) => if cwd.len() > 0 {
                    Some(cwd)
                } else {
                    None
                },
                None => None,
            }
        } else {
            None
        },
        None => None,
    }
}

/// The working directory that a raw event (`{"Window": {...}}` or
/// `{"Terminal": {...}}`) names.
pub fn extract_cwd(raw: &Json) -> (r: Option<String>)
    ensures
        opt_view(r) == event_cwd(raw),
{
    let members = match raw {
        Json::Object(members) => members,
        _ => {
            return None;
        },
    };
    if members.len() != 1 {
        return None;
    }
    let variant = members[0].0.as_str();
    if !same(variant, "Window") && !same(variant, "Terminal") {
        return None;
    }
    match members[0].1.get_text("cwd") {
        Some(cwd) => if cwd.as_str().is_empty() {
            None
        } else {
            Some(cwd)
        },
        None => None,
    }
}

/// How many directories are looked at when searching for a root to watch.
pub const WATCH_SEARCH_DEPTH: usize = 8;

/// The directories to look at for a project root worth watching: those that
/// anchor a project, within a few levels of `cwd`.
pub fn watch_candidates(cwd: &str, home: Option<&str>) -> (r: Vec<String>)
    ensures
        views(r@) == first(
            search_path(cwd@, opt_str_view(home)),
            WATCH_SEARCH_DEPTH as int,
        ),
{
    let mut dirs = project_root_candidates(cwd, home);
    let ghost all = views(dirs@);
    if dirs.len() > WATCH_SEARCH_DEPTH {
        dirs.truncate(WATCH_SEARCH_DEPTH);
    }
    assert(views(dirs@) =~= first(all, WATCH_SEARCH_DEPTH as int));
    dirs
}

// ---------------------------------------------------------------------
// Watched roots
// ---------------------------------------------------------------------

/// The project roots that are watched, least recently used first.
pub struct WatchedRoots {
    pub roots: VecDeque<String>,
}

/// What to do about a root that activity was seen in.
#[derive(Debug, Clone)]
pub enum WatchAction {
    /// It is watched already.
    Keep,
    /// Stop watching `evict`, if any, and start watching the root.
    Watch { evict: Option<String> },
}

/// The position at or after `from` of the watched root with the components
/// of `root`, if any.
pub open spec fn root_from(roots: Seq<String>, root: Seq<char>, from: int) -> Option<int>
    decreases roots.len() - from,
{
    if from < 0 || from >= roots.len() {
        None
    } else if path_eq(roots[from]@, root) {
        Some(from)
    } else {
        root_from(roots, root, from + 1)
    }
}

/// The roots from position `from` on, of which a path is under the first
/// such one.
pub open spec fn root_above(roots: Seq<String>, path: Seq<char>, from: int) -> Option<Seq<char>>
    decreases roots.len() - from,
{
    if from < 0 || from >= roots.len() {
        None
    } else if is_under(path, roots[from]@) {
        Some(roots[from]@)
    } else {
        root_above(roots, path, from + 1)
    }
}

proof fn lemma_root_from(roots: Seq<String>, root: Seq<char>, from: int)
    requires
        0 <= from,
    ensures
        match root_from(roots, root, from) {
            Some(i) => from <= i < roots.len() && path_eq(roots[i]@, root),
            None => forall|j: int| from <= j < roots.len() ==> !path_eq(#[trigger] roots[j]@, root),
        },
    decreases roots.len() - from,
{
    if from < roots.len() {
        lemma_root_from(roots, root, from + 1);
    }
}

impl WatchedRoots {
    /// No more roots than can be watched at once, and none twice.
    pub open spec fn wf(&self) -> bool {
        &&& self.roots@.len() <= MAX_WATCHED_ROOTS
        &&& forall|i: int, j: int|
            0 <= i < j < self.roots@.len() ==> !path_eq(
                #[trigger] self.roots@[i]@,
                #[trigger] self.roots@[j]@,
            )
    }

    pub fn new() -> (r: Self)
        ensures
            r.wf(),
            r.roots@.len() == 0,
    {
        WatchedRoots { roots: VecDeque::new() }
    }

    fn position(&self, root: &str) -> (r: Option<usize>)
        ensures
            match r {
                Some(i) => root_from(self.roots@, root@, 0) == Some(i as int) && i
                    < self.roots@.len(),
                None => root_from(self.roots@, root@, 0) is None,
            },
    {
        let mut i: usize = 0;
        while i < self.roots.len()
            invariant
                i <= self.roots@.len(),
                root_from(self.roots@, root@, i as int) == root_from(self.roots@, root@, 0),
            decreases self.roots@.len() - i,
        {
            if path::same_path(self.roots[i].as_str(), root) {
                return Some(i);
            }
            i = i + 1;
        }
        None
    }

    /// Activity in the project root `root`. A watched root becomes the most
    /// recently used one. For another root the least recently used one gives
    /// way if there are as many as can be watched at once.
    pub fn touch(&mut self, root: &str) -> (r: WatchAction)
        requires
            old(self).wf(),
        ensures
            final(self).wf(),
            match root_from(old(self).roots@, root@, 0) {
                Some(i) => {
                    let rest = old(self).roots@.remove(i);
                    &&& r is Keep
                    &&& final(self).roots@.len() == rest.len() + 1
                    &&& final(self).roots@.take(rest.len() as int) == rest
                    &&& final(self).roots@.last()@ == root@
                },
                None => if old(self).roots@.len() >= MAX_WATCHED_ROOTS {
                    &&& r matches WatchAction::Watch { evict: Some(e) } && e == old(self).roots@[0]
                    &&& final(self).roots@ == old(self).roots@.skip(1)
                    &&& root_from(final(self).roots@, root@, 0) is None
                } else {
                    &&& r matches WatchAction::Watch { evict: None }
                    &&& final(self).roots@ == old(self).roots@
                },
            },
    {
        match self.position(root) {
            Some(i) => {
                proof {
                    lemma_root_from(self.roots@, root@, 0);
                }
                let ghost rest = self.roots@.remove(i as int);
                let _ = self.roots.remove(i);
                self.roots.push_back(root.to_owned());
                assert(self.roots@.take(rest.len() as int) =~= rest);
                WatchAction::Keep
            },
            None => {
                if self.roots.len() >= MAX_WATCHED_ROOTS {
                    let evicted = self.roots.pop_front();
                    assert(self.roots@ =~= old(self).roots@.skip(1));
                    proof {
                        lemma_root_from(old(self).roots@, root@, 0);
                        lemma_root_from(self.roots@, root@, 0);
                    }
                    WatchAction::Watch { evict: evicted }
                } else {
                    WatchAction::Watch { evict: None }
                }
            },
        }
    }

    /// The root `root` is watched now.
    pub fn watching(&mut self, root: &str)
        requires
            old(self).wf(),
            old(self).roots@.len() < MAX_WATCHED_ROOTS,
            root_from(old(self).roots@, root@, 0) is None,
        ensures
            final(self).wf(),
            final(self).roots@.len() == old(self).roots@.len() + 1,
            final(self).roots@.drop_last() == old(self).roots@,
            final(self).roots@.last()@ == root@,
    {
        proof {
            lemma_root_from(self.roots@, root@, 0);
        }
        self.roots.push_back(root.to_owned());
        assert(self.roots@.drop_last() =~= old(self).roots@);
    }

    /// The watched root that a path is under.
    pub fn root_of(&self, path: &str) -> (r: Option<String>)
        ensures
            opt_view(r) == root_above(self.roots@, path@, 0),
    {
        let mut i: usize = 0;
        while i < self.roots.len()
            invariant
                i <= self.roots@.len(),
                root_above(self.roots@, path@, i as int) == root_above(self.roots@, path@, 0),
            decreases self.roots@.len() - i,
        {
            if path::starts_with(path, self.roots[i].as_str()) {
                return Some(self.roots[i].clone());
            }
            i = i + 1;
        }
        None
    }
}

// ---------------------------------------------------------------------
// Ignored paths
// ---------------------------------------------------------------------

/// A directory of generated or private files.
pub open spec fn ignored_dir(name: Seq<char>) -> bool {
    ||| name == "node_modules"@
    ||| name == ".git"@
    ||| name == "target"@
    ||| name == "dist"@
    ||| name == "build"@
    ||| name == "__pycache__"@
    ||| name == ".venv"@
    ||| name == "venv"@
    ||| name == ".next"@
    ||| name == ".cache"@
}

/// Extensions of files the daemon itself writes (its sqlite store), which
/// should never be reported as user activity.
pub open spec fn ignored_extension(extension: Seq<char>) -> bool {
    ||| extension == "db"@
    ||| extension == "db-journal"@
    ||| extension == "db-wal"@
    ||| extension == "db-shm"@
}

/// A change of the path is no user activity: it is in the daemon's own data
/// directory, a file of its store, or inside an ignored directory.
pub open spec fn ignored(path: Seq<char>, data_dir: Option<Seq<char>>) -> bool {
    ||| data_dir matches Some(d) && is_under(path, d)
    ||| extension_of(path) matches Some(e) && ignored_extension(e)
    ||| exists|i: int| 0 <= i < parts(path).len() && ignored_dir(#[trigger] parts(path)[i])
}

fn is_ignored_dir(name: &str) -> (r: bool)
    ensures
        r == ignored_dir(name@),
{
    same(name, "node_modules") || same(name, ".git") || same(name, "target") || same(name, "dist")
        || same(name, "build") || same(name, "__pycache__") || same(name, ".venv") || same(
        name,
        "venv",
    ) || same(name, ".next") || same(name, ".cache")
}

/// Whether a change of `path` is no user activity.
pub fn is_ignored(path: &str, data_dir: Option<&str>) -> (r: bool)
    ensures
        r == ignored(path@, opt_str_view(data_dir)),
{
    if let Some(dir) = data_dir {
        if path::starts_with(path, dir) {
            return true;
        }
    }
    if let Some(ext) = path::extension(path) {
        let e = ext.as_str();
        if same(e, "db") || same(e, "db-journal") || same(e, "db-wal") || same(e, "db-shm") {
            return true;
        }
    }
    let names = path::components(path);
    for i in 0..names.len()
        invariant
            views(names@) == parts(path@),
            forall|j: int| 0 <= j < i ==> !ignored_dir(#[trigger] parts(path@)[j]),
    {
        assert(views(names@)[i as int] == names@[i as int]@);
        if is_ignored_dir(names[i].as_str()) {
            assert(ignored_dir(parts(path@)[i as int]));
            return true;
        }
    }
    assert(names@.len() == parts(path@).len());
    false
}

// ---------------------------------------------------------------------
// Debouncing
// ---------------------------------------------------------------------

/// When each path last gave an event, in nanoseconds of a monotonic clock.
pub struct Debouncer {
    pub entries: Vec<(String, u64)>,
}

/// The position at or after `from` of the entry for a path.
pub open spec fn entry_from(entries: Seq<(String, u64)>, path: Seq<char>, from: int) -> Option<int>
    decreases entries.len() - from,
{
    if from < 0 || from >= entries.len() {
        None
    } else if path_eq(entries[from].0@, path) {
        Some(from)
    } else {
        entry_from(entries, path, from + 1)
    }
}

proof fn lemma_entry_from(entries: Seq<(String, u64)>, path: Seq<char>, from: int)
    requires
        0 <= from,
    ensures
        match entry_from(entries, path, from) {
            Some(i) => {
                &&& from <= i < entries.len()
                &&& path_eq(entries[i].0@, path)
                &&& forall|j: int| from <= j < i ==> !path_eq((#[trigger] entries[j]).0@, path)
            },
            None => forall|j: int|
                from <= j < entries.len() ==> !path_eq((#[trigger] entries[j]).0@, path),
        },
    decreases entries.len() - from,
{
    if from < entries.len() {
        lemma_entry_from(entries, path, from + 1);
    }
}

/// Forgetting old entries leaves a young first entry of a path the first.
proof fn lemma_young_keeps(
    entries: Seq<(String, u64)>,
    path: Seq<char>,
    now: u64,
    from: int,
    i: int,
)
    requires
        0 <= from <= i < entries.len(),
        path_eq(entries[i].0@, path),
        entries[i].1 + MEMORY_NANOS > now,
        forall|j: int| from <= j < i ==> !path_eq((#[trigger] entries[j]).0@, path),
    ensures
        entry_from(young_from(entries, now, from), path, 0) matches Some(k) && young_from(
            entries,
            now,
            from,
        )[k] == entries[i],
    decreases i - from,
{
    let young = young_from(entries, now, from);
    lemma_entry_from(young, path, 0);
    if from == i {
        assert(young[0] == entries[i]);
    } else {
        lemma_young_keeps(entries, path, now, from + 1, i);
        let rest = young_from(entries, now, from + 1);
        lemma_entry_from(rest, path, 0);
        let k = entry_from(rest, path, 0)->0;
        if entries[from].1 + MEMORY_NANOS > now {
            assert(young =~= seq![entries[from]] + rest);
            assert(young[k + 1] == entries[i]);
            let m = entry_from(young, path, 0);
            assert(m is Some);
            assert forall|j: int| 0 <= j < k + 1 implies !path_eq(
                (#[trigger] young[j]).0@,
                path,
            ) by {
                if j > 0 {
                    assert(young[j] == rest[j - 1]);
                }
            }
        }
    }
}

/// The entries from position `from` on that are younger than the memory.
pub open spec fn young_from(entries: Seq<(String, u64)>, now: u64, from: int) -> Seq<(String, u64)>
    decreases entries.len() - from,
{
    if from < 0 || from >= entries.len() {
        Seq::empty()
    } else if entries[from].1 + MEMORY_NANOS > now {
        seq![entries[from]] + young_from(entries, now, from + 1)
    } else {
        young_from(entries, now, from + 1)
    }
}

/// No path has two entries.
pub open spec fn distinct_paths(entries: Seq<(String, u64)>) -> bool {
    forall|i: int, j: int|
        0 <= i < j < entries.len() ==> !path_eq(
            (#[trigger] entries[i]).0@,
            (#[trigger] entries[j]).0@,
        )
}

/// The entries that are not forgotten are entries still, each once.
proof fn lemma_young_distinct(entries: Seq<(String, u64)>, now: u64, from: int)
    requires
        0 <= from <= entries.len(),
        distinct_paths(entries),
    ensures
        distinct_paths(young_from(entries, now, from)),
        forall|k: int|
            0 <= k < young_from(entries, now, from).len() ==> exists|j: int|
                from <= j < entries.len() && #[trigger] entries[j] == #[trigger] young_from(
                    entries,
                    now,
                    from,
                )[k],
    decreases entries.len() - from,
{
    if from < entries.len() {
        lemma_young_distinct(entries, now, from + 1);
        let young = young_from(entries, now, from);
        let rest = young_from(entries, now, from + 1);
        if entries[from].1 + MEMORY_NANOS > now {
            assert(young =~= seq![entries[from]] + rest);
            assert(forall|k: int| 0 < k < young.len() ==> #[trigger] young[k] == rest[k - 1]);
            assert forall|i: int, j: int| 0 <= i < j < young.len() implies !path_eq(
                (#[trigger] young[i]).0@,
                (#[trigger] young[j]).0@,
            ) by {
                assert(young[j] == rest[j - 1]);
                if i == 0 {
                    let m = choose|m: int|
                        from + 1 <= m < entries.len() && #[trigger] entries[m] == rest[j - 1];
                    assert(entries[m] == young[j]);
                }
            }
            assert forall|k: int| 0 <= k < young.len() implies exists|j: int|
                from <= j < entries.len() && #[trigger] entries[j] == #[trigger] young[k] by {
                if k == 0 {
                    assert(entries[from] == young[0]);
                } else {
                    assert(young[k] == rest[k - 1]);
                }
            }
        }
    }
}

impl Debouncer {
    /// No path is noted twice.
    pub open spec fn wf(&self) -> bool {
        distinct_paths(self.entries@)
    }

    /// The path gave an event less than the debounce time before `now`.
    pub open spec fn recent(&self, path: Seq<char>, now: u64) -> bool {
        entry_from(self.entries@, path, 0) matches Some(i) && now - self.entries@[i].1
            < DEBOUNCE_NANOS
    }

    pub fn new() -> (r: Self)
        ensures
            r.wf(),
            r.entries@.len() == 0,
    {
        Debouncer { entries: Vec::new() }
    }

    fn position(&self, path: &str) -> (r: Option<usize>)
        ensures
            match r {
                Some(i) => entry_from(self.entries@, path@, 0) == Some(i as int) && i
                    < self.entries@.len(),
                None => entry_from(self.entries@, path@, 0) is None,
            },
    {
        let mut i: usize = 0;
        while i < self.entries.len()
            invariant
                i <= self.entries@.len(),
                entry_from(self.entries@, path@, i as int) == entry_from(self.entries@, path@, 0),
            decreases self.entries@.len() - i,
        {
            if path::same_path(self.entries[i].0.as_str(), path) {
                return Some(i);
            }
            i = i + 1;
        }
        None
    }

    fn forget_old(&mut self, now: u64)
        ensures
            final(self).entries@ == young_from(old(self).entries@, now, 0),
    {
        let mut kept: Vec<(String, u64)> = Vec::new();
        let mut i: usize = 0;
        let ghost all = self.entries@;
        assert(kept@ + young_from(all, now, 0) =~= young_from(all, now, 0));
        while i < self.entries.len()
            invariant
                self.entries@ == all,
                i <= all.len(),
                kept@ + young_from(all, now, i as int) == young_from(all, now, 0),
            decreases all.len() - i,
        {
            let ghost before = kept@;
            let seen = self.entries[i].1;
            if seen as u128 + MEMORY_NANOS as u128 > now as u128 {
                let name = self.entries[i].0.clone();
                kept.push((name, seen));
                assert(before + (seq![all[i as int]] + young_from(all, now, i + 1)) =~= kept@
                    + young_from(all, now, i + 1));
            }
            i = i + 1;
        }
        assert(kept@ =~= young_from(all, now, 0));
        self.entries = kept;
    }

    /// A change of `path` at `now`: whether it is to be reported. A path that
    /// was reported less than the debounce time ago is not; any other one is,
    /// and its time is noted. When too many paths are known, those that were
    /// last reported longer ago than the memory are forgotten.
    pub fn register(&mut self, path: &str, now: u64) -> (r: bool)
        requires
            old(self).wf(),
        ensures
            final(self).wf(),
            r == !old(self).recent(path@, now),
            !r ==> final(self).entries@ == old(self).entries@,
            r ==> exists|noted: Seq<(String, u64)>|
                {
                    &&& #[trigger] noted_at(old(self).entries@, path@, now, noted)
                    &&& final(self).entries@ == if noted.len() > MAX_REMEMBERED_PATHS {
                        young_from(noted, now, 0)
                    } else {
                        noted
                    }
                },
            forall|later: u64|
                r && now <= later < now + DEBOUNCE_NANOS ==> #[trigger] final(self).recent(
                    path@,
                    later,
                ),
    {
        match self.position(path) {
            Some(i) => {
                let seen = self.entries[i].1;
                if now.saturating_sub(seen) < DEBOUNCE_NANOS {
                    return false;
                }
                let name = self.entries[i].0.clone();
                self.entries.set(i, (name, now));
            },
            None => {
                self.entries.push((path.to_owned(), now));
            },
        }
        assert(noted_at(old(self).entries@, path@, now, self.entries@)) by {
            match entry_from(old(self).entries@, path@, 0) {
                Some(i) => {
                    assert(self.entries@ =~= old(self).entries@.update(
                        i,
                        (old(self).entries@[i].0, now),
                    ));
                },
                None => {
                    assert(self.entries@.drop_last() =~= old(self).entries@);
                },
            }
        }
        proof {
            lemma_entry_from(old(self).entries@, path@, 0);
            lemma_entry_from(self.entries@, path@, 0);
            let i = match entry_from(old(self).entries@, path@, 0) {
                Some(k) => k,
                None => old(self).entries@.len() as int,
            };
            assert(path_eq(self.entries@[i].0@, path@) && self.entries@[i].1 == now);
            assert forall|j: int| 0 <= j < i implies !path_eq(
                (#[trigger] self.entries@[j]).0@,
                path@,
            ) by {
                assert(self.entries@[j] == old(self).entries@[j]);
            }
            assert(entry_from(self.entries@, path@, 0) == Some(i));
            lemma_young_keeps(self.entries@, path@, now, 0, i);
            assert(distinct_paths(self.entries@)) by {
                assert forall|a: int, b: int| 0 <= a < b < self.entries@.len() implies !path_eq(
                    (#[trigger] self.entries@[a]).0@,
                    (#[trigger] self.entries@[b]).0@,
                ) by {
                    if b < old(self).entries@.len() {
                        assert(self.entries@[a].0 == old(self).entries@[a].0);
                        assert(self.entries@[b].0 == old(self).entries@[b].0);
                    }
                }
            }
            lemma_young_distinct(self.entries@, now, 0);
        }
        if self.entries.len() > MAX_REMEMBERED_PATHS {
            self.forget_old(now);
        }
        true
    }
}

/// `noted` is `entries` with the time of `path` set to `now`: in its own
/// entry, or in a new one at the end.
pub open spec fn noted_at(
    entries: Seq<(String, u64)>,
    path: Seq<char>,
    now: u64,
    noted: Seq<(String, u64)>,
) -> bool {
    match entry_from(entries, path, 0) {
        Some(i) => noted == entries.update(i, (entries[i].0, now)),
        None => {
            &&& noted.len() == entries.len() + 1
            &&& noted.drop_last() == entries
            &&& noted.last().0@ == path
            &&& noted.last().1 == now
        },
    }
}

// ---------------------------------------------------------------------
// File changes
// ---------------------------------------------------------------------

/// What happened to a file, as the file system watcher reports it.
#[derive(Debug, Clone, Copy)]
pub enum ChangeKind {
    Created,
    DataModified,
    Renamed,
    Removed,
    /// Metadata, access and the like.
    Other,
}

/// The name of a change that is reported.
pub open spec fn change_name(kind: ChangeKind) -> Option<Seq<char>> {
    match kind {
        ChangeKind::Created => Some("created"@),
        ChangeKind::DataModified => Some("modified"@),
        ChangeKind::Renamed => Some("renamed"@),
        ChangeKind::Removed => Some("removed"@),
        ChangeKind::Other => None,
    }
}

/// A change of a file, seen at the wall-clock time `timestamp` and the
/// monotonic time `now`: gives the event to publish, if any. A change of
/// another kind, of an ignored path, or soon after the last one of the same
/// path gives none.
pub fn file_changed(
    kind: ChangeKind,
    path: &str,
    roots: &WatchedRoots,
    debouncer: &mut Debouncer,
    data_dir: Option<&str>,
    now: u64,
    timestamp: u64,
) -> (r: Option<Event>)
    requires
        old(debouncer).wf(),
    ensures
        final(debouncer).wf(),
        r is Some <==> {
            &&& change_name(kind) is Some
            &&& !ignored(path@, opt_str_view(data_dir))
            &&& !old(debouncer).recent(path@, now)
        },
        opt_raw(r) matches Some(e) ==> e == (EventView::FileChange {
            path: path@,
            kind: change_name(kind)->0,
            project: root_above(roots.roots@, path@, 0),
            timestamp,
        }),
        r is None ==> final(debouncer).entries@ == old(debouncer).entries@,
        r is Some ==> exists|noted: Seq<(String, u64)>|
            {
                &&& #[trigger] noted_at(old(debouncer).entries@, path@, now, noted)
                &&& final(debouncer).entries@ == if noted.len() > MAX_REMEMBERED_PATHS {
                    young_from(noted, now, 0)
                } else {
                    noted
                }
            },
{
    let kind_name = match kind {
        ChangeKind::Created => "created",
        ChangeKind::DataModified => "modified",
        ChangeKind::Renamed => "renamed",
        ChangeKind::Removed => "removed",
        ChangeKind::Other => {
            return None;
        },
    };
    if is_ignored(path, data_dir) {
        return None;
    }
    if !debouncer.register(path, now) {
        return None;
    }
    Some(
        Event::FileChange {
            path: path.to_owned(),
            kind: kind_name.to_owned(),
            project: roots.root_of(path),
            timestamp,
        },
    )
}

} // verus!
