//! What the collectors make of what they see.

use super::browser::{navigation, BrowserPayload};
use super::calendar::{
    current_from, date_value, event_key, next_to, property, resolved, DateValue, ParsedEventView,
    Reading,
};
use super::clipboard::{content_class, copied, secret};
use super::filesystem::{
    change_name, entry_from, event_cwd, ignored, root_above, ChangeKind, Debouncer,
};
use super::process::{link_inode, listening_socket, owned_from, process_label, sockets_from};
use super::terminal::{internal, message_event, TermMessage};
use super::window::{class_of, focus_change, FocusState, WindowInfo};
use crate::event::{CalendarEventView, EventView};
use crate::immediate::moments::{holds, lemma_holds};
use crate::json::Json;
use crate::moment::Moment;
use crate::number::number;
use crate::path::{extension_of, is_under, parts, path_eq};
use crate::text::{
    lines, lines_from, lowercase, opt_view, pieces, stop_from, trimmed, white_space, words,
};
use vstd::prelude::*;

verus! {

// ---------------------------------------------------------------------
// Texts
// ---------------------------------------------------------------------

/// A text begins with another one.
pub open spec fn begins_with(text: Seq<char>, start: Seq<char>) -> bool {
    start.len() <= text.len() && text.take(start.len() as int) == start
}

proof fn lemma_begins_with(text: Seq<char>, start: Seq<char>)
    ensures
        begins_with(text, start) == crate::text::starts_with(text, start),
{
    if start.len() <= text.len() {
        assert(text.take(start.len() as int) =~= text.subrange(0, start.len() as int));
    }
}

/// How many line feeds a text has.
pub open spec fn line_feeds(text: Seq<char>) -> nat {
    text.filter(|c: char| c == '\n').len()
}

/// The first position from `from` on that holds a stop, if there is one.
pub proof fn lemma_stop(s: Seq<char>, stops: Seq<char>, from: int)
    requires
        0 <= from <= s.len(),
    ensures
        ({
            let n = stop_from(s, stops, from);
            &&& from <= n <= s.len()
            &&& n < s.len() ==> stops.contains(s[n])
            &&& forall|i: int| from <= i < n ==> !stops.contains(#[trigger] s[i])
        }),
    decreases s.len() - from,
{
    if from < s.len() {
        lemma_stop(s, stops, from + 1);
    }
}

proof fn lemma_no_line_feeds(text: Seq<char>)
    requires
        forall|i: int| 0 <= i < text.len() ==> #[trigger] text[i] != '\n',
    ensures
        line_feeds(text) == 0,
    decreases text.len(),
{
    reveal(Seq::filter);
    if text.len() > 0 {
        let rest = text.drop_last();
        assert forall|i: int| 0 <= i < rest.len() implies #[trigger] rest[i] != '\n' by {
            assert(text[i] != '\n');
        }
        lemma_no_line_feeds(rest);
        assert(text.last() == text[text.len() - 1]);
    }
}

proof fn lemma_lines_counted(s: Seq<char>, from: int)
    requires
        0 <= from <= s.len(),
    ensures
        lines_from(s, from).len() == line_feeds(s.skip(from)) + if from < s.len() && s[s.len() - 1]
            != '\n' {
            1nat
        } else {
            0
        },
    decreases s.len() - from,
{
    let stops = seq!['\n'];
    let feed = |c: char| c == '\n';
    lemma_stop(s, stops, from);
    assert(stops[0] == '\n');
    let n = stop_from(s, stops, from);
    assert forall|c: char| stops.contains(c) <==> c == '\n' by {
        if c == '\n' {
            assert(stops.contains(stops[0]));
        }
    }
    if from < s.len() {
        if n >= s.len() {
            let rest = s.skip(from);
            assert forall|i: int| 0 <= i < rest.len() implies #[trigger] rest[i] != '\n' by {
                assert(!stops.contains(s[from + i]));
            }
            lemma_no_line_feeds(rest);
            assert(!stops.contains(s[s.len() - 1]));
        } else {
            lemma_lines_counted(s, n + 1);
            let head = s.subrange(from, n);
            assert forall|i: int| 0 <= i < head.len() implies #[trigger] head[i] != '\n' by {
                assert(!stops.contains(s[from + i]));
            }
            lemma_no_line_feeds(head);
            let middle = seq!['\n'];
            assert(s.skip(from) =~= head + (middle + s.skip(n + 1)));
            Seq::filter_distributes_over_add(head, middle + s.skip(n + 1), feed);
            Seq::filter_distributes_over_add(middle, s.skip(n + 1), feed);
            assert(middle.filter(feed).len() == 1) by {
                reveal(Seq::filter);
                assert(middle.drop_last() =~= Seq::empty());
                assert(middle.drop_last().filter(feed).len() == 0);
                assert(middle.last() == '\n');
            }
        }
    } else {
        assert(s.skip(from) =~= Seq::empty());
        lemma_no_line_feeds(s.skip(from));
    }
}

/// A text has as many lines as line feeds, and one more where something
/// follows the last of them.
pub proof fn law_lines_end_at_line_feeds(text: Seq<char>)
    ensures
        text.len() == 0 ==> lines(text).len() == 0,
        text.len() > 0 && text[text.len() - 1] == '\n' ==> lines(text).len() == line_feeds(text),
        text.len() > 0 && text[text.len() - 1] != '\n' ==> lines(text).len() == line_feeds(text)
            + 1,
{
    lemma_lines_counted(text, 0);
    assert(text.skip(0) =~= text);
    if text.len() == 0 {
        lemma_no_line_feeds(text);
    }
}

// ---------------------------------------------------------------------
// The clipboard
// ---------------------------------------------------------------------

/// A text looks like a key or a password: 20 to 256 characters without white
/// space, with a small letter, a capital and a digit among them.
pub open spec fn keylike(s: Seq<char>) -> bool {
    &&& 20 <= s.len() <= 256
    &&& forall|i: int| 0 <= i < s.len() ==> !white_space(#[trigger] s[i])
    &&& exists|i: int| 0 <= i < s.len() && 'a' <= #[trigger] s[i] <= 'z'
    &&& exists|i: int| 0 <= i < s.len() && 'A' <= #[trigger] s[i] <= 'Z'
    &&& exists|i: int| 0 <= i < s.len() && '0' <= #[trigger] s[i] <= '9'
}

proof fn lemma_keylike(s: Seq<char>)
    ensures
        keylike(s) == secret(s),
{
    if 0 < s.len() && forall|i: int| 0 <= i < s.len() ==> !white_space(#[trigger] s[i]) {
        assert forall|i: int| 0 <= i < s.len() implies #[trigger] s[i] != '\n' by {
            assert(!white_space(s[i]));
        }
        lemma_no_line_feeds(s);
        law_lines_end_at_line_feeds(s);
    }
    if secret(s) {
        let i = choose|i: int| 0 <= i < s.len() && crate::text::ascii_lower(#[trigger] s[i]);
        assert('a' <= s[i] <= 'z');
        let j = choose|i: int| 0 <= i < s.len() && crate::text::ascii_upper(#[trigger] s[i]);
        assert('A' <= s[j] <= 'Z');
        let k = choose|i: int| 0 <= i < s.len() && crate::text::ascii_digit(#[trigger] s[i]);
        assert('0' <= s[k] <= '9');
    }
    if keylike(s) {
        let i = choose|i: int| 0 <= i < s.len() && 'a' <= #[trigger] s[i] <= 'z';
        assert(crate::text::ascii_lower(s[i]));
        let j = choose|i: int| 0 <= i < s.len() && 'A' <= #[trigger] s[i] <= 'Z';
        assert(crate::text::ascii_upper(s[j]));
        let k = choose|i: int| 0 <= i < s.len() && '0' <= #[trigger] s[i] <= '9';
        assert(crate::text::ascii_digit(s[k]));
    }
}

/// A copied text that looks like a key is said to be a secret and not shown.
/// Of any other text the first 200 characters are shown. Length and lines are
/// those of the text without the white space around it.
pub proof fn law_keys_are_kept_secret(text: Seq<char>, timestamp: u64)
    ensures
        copied(text, timestamp) matches EventView::Clipboard {
            content_type,
            preview,
            length,
            line_count,
            timestamp: at,
        } && {
            let s = trimmed(text);
            &&& length == s.len()
            &&& line_count == lines(s).len()
            &&& at == timestamp
            &&& keylike(s) ==> content_type == "secret"@ && preview is None
            &&& !keylike(s) ==> content_type == content_class(s, lowercase(s)) && preview is Some
            &&& !keylike(s) && s.len() <= 200 ==> preview == Some(s)
            &&& !keylike(s) && s.len() > 200 ==> preview == Some(s.take(200))
        },
{
    lemma_keylike(trimmed(text));
}

/// The text is a web address.
pub open spec fn web_address(s: Seq<char>) -> bool {
    &&& begins_with(s, "http://"@) || begins_with(s, "https://"@)
    &&& line_feeds(s) == 0
}

/// The lowercase text tells where a program failed.
pub open spec fn failure_report(lower: Seq<char>) -> bool {
    ||| holds(lower, "traceback (most recent call last)"@)
    ||| holds(lower, "panicked at"@)
    ||| holds(lower, "exception in thread"@)
    ||| holds(lower, "stack trace"@)
    ||| holds(lower, " at "@) && lines(lower).len() >= 3
}

/// The text speaks of an error in no more than five lines.
pub open spec fn short_complaint(s: Seq<char>, lower: Seq<char>) -> bool {
    &&& holds(lower, "error"@) || holds(lower, "exception"@) || holds(lower, "fatal"@)
    &&& lines(s).len() < 6
}

/// The lowercase text has what source code has.
pub open spec fn code_like(lower: Seq<char>) -> bool {
    ||| holds(lower, "fn "@)
    ||| holds(lower, "function "@)
    ||| holds(lower, "def "@)
    ||| holds(lower, "class "@)
    ||| holds(lower, "const "@)
    ||| holds(lower, "let "@)
    ||| holds(lower, "import "@)
    ||| holds(lower, "=>"@)
    ||| holds(lower, "{"@)
    ||| holds(lower, "};"@)
    ||| holds(lower, "</"@)
    ||| holds(lower, "#include"@)
    ||| holds(lower, "select "@)
    ||| holds(lower, "return "@)
}

proof fn lemma_address(s: Seq<char>)
    ensures
        web_address(s) == ((crate::text::starts_with(s, "http://"@) || crate::text::starts_with(
            s,
            "https://"@,
        )) && !s.contains('\n')),
{
    lemma_begins_with(s, "http://"@);
    lemma_begins_with(s, "https://"@);
    let feed = |c: char| c == '\n';
    if s.contains('\n') {
        let i = choose|i: int| 0 <= i < s.len() && s[i] == '\n';
        assert(feed(s[i]));
        assert(s.filter(feed).contains(s[i]));
    } else {
        assert forall|i: int| 0 <= i < s.len() implies #[trigger] s[i] != '\n' by {
            assert(s.contains(s[i]));
        }
        lemma_no_line_feeds(s);
    }
}

proof fn lemma_marks(lower: Seq<char>)
    ensures
        failure_report(lower) == super::clipboard::stack_trace(lower),
        code_like(lower) == super::clipboard::code(lower),
{
    lemma_holds(lower, "traceback (most recent call last)"@);
    lemma_holds(lower, "panicked at"@);
    lemma_holds(lower, "exception in thread"@);
    lemma_holds(lower, "stack trace"@);
    lemma_holds(lower, " at "@);
    lemma_holds(lower, "fn "@);
    lemma_holds(lower, "function "@);
    lemma_holds(lower, "def "@);
    lemma_holds(lower, "class "@);
    lemma_holds(lower, "const "@);
    lemma_holds(lower, "let "@);
    lemma_holds(lower, "import "@);
    lemma_holds(lower, "=>"@);
    lemma_holds(lower, "{"@);
    lemma_holds(lower, "};"@);
    lemma_holds(lower, "</"@);
    lemma_holds(lower, "#include"@);
    lemma_holds(lower, "select "@);
    lemma_holds(lower, "return "@);
}

/// A text is a web address, or else the report of a failure, or else a short
/// complaint, or else code, or else plain.
pub proof fn law_texts_are_classed_in_order(s: Seq<char>, lower: Seq<char>)
    ensures
        ({
            let class = content_class(s, lower);
            let address = web_address(s);
            let report = failure_report(lower);
            let complaint = short_complaint(s, lower);
            &&& class == "url"@ <==> address
            &&& class == "stack_trace"@ <==> !address && report
            &&& class == "error_message"@ <==> !address && !report && complaint
            &&& class == "code"@ <==> !address && !report && !complaint && code_like(lower)
            &&& class == "plain_text"@ <==> !address && !report && !complaint && !code_like(lower)
        }),
{
    lemma_address(s);
    lemma_marks(lower);
    lemma_holds(lower, "error"@);
    lemma_holds(lower, "exception"@);
    lemma_holds(lower, "fatal"@);
    reveal_strlit("url");
    reveal_strlit("stack_trace");
    reveal_strlit("error_message");
    reveal_strlit("code");
    reveal_strlit("plain_text");
    assert("url"@.len() == 3 && "stack_trace"@.len() == 11 && "error_message"@.len() == 13);
    assert("code"@.len() == 4 && "plain_text"@.len() == 10);
}

// ---------------------------------------------------------------------
// The terminal and the browser
// ---------------------------------------------------------------------

/// A command of the shell hooks or the terminal's own shell integration.
pub open spec fn hook_noise(s: Seq<char>) -> bool {
    ||| s.len() == 0
    ||| begins_with(s, "_am_"@)
    ||| begins_with(s, "PROMPT_COMMAND"@)
    ||| begins_with(s, "[["@)
    ||| begins_with(s, "builtin "@)
    ||| begins_with(s, "case :$SHELLOPTS"@)
    ||| begins_with(s, "[ \"${BASH_VERSINFO"@)
    ||| holds(s, "_ksi_"@)
}

/// A message of the shell gives an event unless its command is noise. The
/// event says what the message says; a missing time is the current one.
pub proof fn law_commands_are_passed_on(msg: TermMessage, now: u64)
    ensures
        message_event(msg, now) is None <==> hook_noise(trimmed(msg.command@)),
        message_event(msg, now) matches Some(e) ==> e matches EventView::Terminal {
            command,
            exit_code,
            cwd,
            phase,
            timestamp,
        } && {
            &&& command == msg.command@
            &&& exit_code == msg.exit_code
            &&& cwd == opt_view(msg.cwd)
            &&& phase == opt_view(msg.phase)
            &&& msg.timestamp is Some ==> Some(timestamp) == msg.timestamp
            &&& msg.timestamp is None ==> timestamp == now
        },
{
    let s = trimmed(msg.command@);
    lemma_begins_with(s, "_am_"@);
    lemma_begins_with(s, "PROMPT_COMMAND"@);
    lemma_begins_with(s, "[["@);
    lemma_begins_with(s, "builtin "@);
    lemma_begins_with(s, "case :$SHELLOPTS"@);
    lemma_begins_with(s, "[ \"${BASH_VERSINFO"@);
    lemma_holds(s, "_ksi_"@);
    assert(hook_noise(s) == internal(s));
}

/// The event of a browser message says what the message says. A missing
/// source is the browser, a missing site the address or else nothing, and a
/// missing time the current one.
pub proof fn law_navigations_are_passed_on(p: BrowserPayload, now: u64)
    ensures
        navigation(p, now) matches EventView::Browser {
            source,
            site,
            url,
            title,
            h1,
            selection,
            category,
            search_query,
            timestamp,
        } && {
            &&& opt_view(p.source) is Some ==> Some(source) == opt_view(p.source)
            &&& opt_view(p.source) is None ==> source == "browser"@
            &&& opt_view(p.site) is Some ==> Some(site) == opt_view(p.site)
            &&& opt_view(p.site) is None && opt_view(p.url) is Some ==> Some(site) == opt_view(
                p.url,
            )
            &&& opt_view(p.site) is None && opt_view(p.url) is None ==> site.len() == 0
            &&& url == opt_view(p.url)
            &&& title == opt_view(p.title)
            &&& h1 == opt_view(p.h1)
            &&& selection == opt_view(p.selection)
            &&& category == opt_view(p.category)
            &&& search_query == opt_view(p.search_query)
            &&& p.timestamp is Some ==> Some(timestamp) == p.timestamp
            &&& p.timestamp is None ==> timestamp == now
        },
{
}

// ---------------------------------------------------------------------
// Windows
// ---------------------------------------------------------------------

/// The event tells of the given window.
pub open spec fn tells_of(
    e: EventView,
    kind: Seq<char>,
    w: WindowInfo,
    secs: Option<u64>,
    now: u64,
) -> bool {
    e matches EventView::Window { event_type, application, title, cwd, duration_secs, timestamp }
        && {
        &&& event_type == kind
        &&& application == opt_view(w.application)
        &&& title == opt_view(w.title)
        &&& cwd == opt_view(w.cwd)
        &&& duration_secs == secs
        &&& timestamp == now
    }
}

/// A change of focus ends with the event of the window that got it. Before
/// that stands the event of the window that had it, if there was one, with
/// the seconds that it had it for.
pub proof fn law_focus_moves_on(prev: Option<FocusState>, window: WindowInfo, now: u64)
    ensures
        ({
            let out = focus_change(prev, window, now);
            &&& out.len() == if prev is Some {
                2int
            } else {
                1int
            }
            &&& tells_of(out[out.len() - 1], "focus"@, window, None, now)
            &&& prev matches Some(p) ==> exists|secs: u64| #[trigger]
                tells_of(out[0], "blur"@, p.window, Some(secs), now) && (now >= p.started_at ==> secs
                    == now - p.started_at) && (now < p.started_at ==> secs == 0)
        }),
{
    if prev is Some {
        let p = prev->0;
        let secs = super::window::dwell(p.started_at, now);
        let out = focus_change(prev, window, now);
        assert(tells_of(out[0], "blur"@, p.window, Some(secs), now));
    }
}

proof fn lemma_zero(bytes: Seq<u8>, i: int, from: int)
    requires
        0 <= from <= i < bytes.len(),
        bytes[i] == 0,
        forall|j: int| from <= j < i ==> #[trigger] bytes[j] != 0,
    ensures
        super::window::zero_from(bytes, from) == Some(i),
    decreases i - from,
{
    if from < i {
        assert(bytes[from] != 0);
        lemma_zero(bytes, i, from + 1);
    }
}

/// The class of a window is the second of two texts, each of which ends with
/// a zero byte; whatever follows does not count.
pub proof fn law_the_class_is_the_second_text(
    instance: Seq<u8>,
    class: Seq<u8>,
    rest: Seq<u8>,
)
    requires
        forall|i: int| 0 <= i < instance.len() ==> #[trigger] instance[i] != 0,
        forall|i: int| 0 <= i < class.len() ==> #[trigger] class[i] != 0,
    ensures
        class_of(instance + seq![0u8] + class + seq![0u8] + rest)
            == super::window::utf8_text(class),
{
    let bytes = instance + seq![0u8] + class + seq![0u8] + rest;
    let a = instance.len() as int;
    let b = a + 1 + class.len();
    assert(bytes[a] == 0 && bytes[b] == 0);
    assert forall|j: int| 0 <= j < a implies #[trigger] bytes[j] != 0 by {
        assert(bytes[j] == instance[j]);
    }
    assert forall|j: int| a + 1 <= j < b implies #[trigger] bytes[j] != 0 by {
        assert(bytes[j] == class[j - a - 1]);
    }
    lemma_zero(bytes, a, 0);
    lemma_zero(bytes, b, a + 1);
    assert(bytes.subrange(a + 1, b) =~= class);
}

// ---------------------------------------------------------------------
// Files
// ---------------------------------------------------------------------

/// A component of a path that holds what tools have made.
pub open spec fn generated(name: Seq<char>) -> bool {
    name == "node_modules"@ || name == ".git"@ || name == "target"@ || name == "dist"@ || name
        == "build"@ || name == "__pycache__"@ || name == ".venv"@ || name == "venv"@ || name
        == ".next"@ || name == ".cache"@
}

/// A change is ignored exactly when it is one of the data directory, of a
/// database file, or anywhere below a directory that tools have made.
pub proof fn law_what_is_ignored(path: Seq<char>, data_dir: Option<Seq<char>>)
    ensures
        ignored(path, data_dir) <==> {
            ||| data_dir is Some && is_under(path, data_dir->0)
            ||| extension_of(path) == Some("db"@)
            ||| extension_of(path) == Some("db-journal"@)
            ||| extension_of(path) == Some("db-wal"@)
            ||| extension_of(path) == Some("db-shm"@)
            ||| exists|i: int| 0 <= i < parts(path).len() && generated(#[trigger] parts(path)[i])
        },
{
    let ps = parts(path);
    if exists|i: int| 0 <= i < ps.len() && generated(#[trigger] ps[i]) {
        let i = choose|i: int| 0 <= i < ps.len() && generated(#[trigger] ps[i]);
        assert(super::filesystem::ignored_dir(ps[i]));
    }
    if exists|i: int| 0 <= i < ps.len() && super::filesystem::ignored_dir(#[trigger] ps[i]) {
        let i = choose|i: int|
            0 <= i < ps.len() && super::filesystem::ignored_dir(#[trigger] ps[i]);
        assert(generated(ps[i]));
    }
}

/// Changes are reported by their name; a change of another kind is not.
pub proof fn law_changes_have_names(kind: ChangeKind)
    ensures
        change_name(kind) == Some("created"@) <==> kind is Created,
        change_name(kind) == Some("modified"@) <==> kind is DataModified,
        change_name(kind) == Some("renamed"@) <==> kind is Renamed,
        change_name(kind) == Some("removed"@) <==> kind is Removed,
        change_name(kind) is None <==> kind is Other,
{
    reveal_strlit("created");
    reveal_strlit("modified");
    reveal_strlit("renamed");
    reveal_strlit("removed");
    assert("created"@[0] == 'c' && "modified"@[0] == 'm');
    assert("renamed"@[2] == 'n' && "removed"@[2] == 'm');
}

/// The path that was reported last less than two seconds ago is not reported
/// again; any other path is.
pub proof fn law_bursts_last_two_seconds(debouncer: Debouncer, path: Seq<char>, now: u64, i: int)
    requires
        debouncer.wf(),
    ensures
        0 <= i < debouncer.entries@.len() && path_eq(debouncer.entries@[i].0@, path) ==> (
        debouncer.recent(path, now) <==> now < debouncer.entries@[i].1 + 2_000_000_000),
        (forall|j: int|
            0 <= j < debouncer.entries@.len() ==> !path_eq(
                (#[trigger] debouncer.entries@[j]).0@,
                path,
            )) ==> !debouncer.recent(path, now),
{
    let entries = debouncer.entries@;
    lemma_entry(entries, path, 0);
    if 0 <= i < entries.len() && path_eq(entries[i].0@, path) {
        let k = entry_from(entries, path, 0)->0;
        if k < i {
            assert(!path_eq(entries[k].0@, entries[i].0@));
        } else if i < k {
            assert(!path_eq(entries[i].0@, entries[k].0@));
        }
    }
}

proof fn lemma_entry(entries: Seq<(String, u64)>, path: Seq<char>, from: int)
    requires
        0 <= from,
    ensures
        match entry_from(entries, path, from) {
            Some(i) => from <= i < entries.len() && path_eq(entries[i].0@, path),
            None => forall|j: int|
                from <= j < entries.len() ==> !path_eq((#[trigger] entries[j]).0@, path),
        },
    decreases entries.len() - from,
{
    if from < entries.len() {
        lemma_entry(entries, path, from + 1);
    }
}

/// A changed file belongs to the first watched root above it.
pub proof fn law_files_belong_to_the_first_root(roots: Seq<String>, path: Seq<char>, i: int)
    ensures
        0 <= i < roots.len() && is_under(path, roots[i]@) && (forall|j: int|
            0 <= j < i ==> !is_under(path, (#[trigger] roots[j])@)) ==> root_above(roots, path, 0)
            == Some(roots[i]@),
        (forall|j: int| 0 <= j < roots.len() ==> !is_under(path, (#[trigger] roots[j])@))
            <==> root_above(roots, path, 0) is None,
{
    if 0 <= i < roots.len() && is_under(path, roots[i]@) && (forall|j: int|
        0 <= j < i ==> !is_under(path, (#[trigger] roots[j])@)) {
        lemma_root_above(roots, path, i, 0);
    }
    lemma_no_root(roots, path, 0);
}

proof fn lemma_root_above(roots: Seq<String>, path: Seq<char>, i: int, from: int)
    requires
        0 <= from <= i < roots.len(),
        is_under(path, roots[i]@),
        forall|j: int| 0 <= j < i ==> !is_under(path, (#[trigger] roots[j])@),
    ensures
        root_above(roots, path, from) == Some(roots[i]@),
    decreases i - from,
{
    if from < i {
        assert(!is_under(path, roots[from]@));
        lemma_root_above(roots, path, i, from + 1);
    }
}

proof fn lemma_no_root(roots: Seq<String>, path: Seq<char>, from: int)
    requires
        0 <= from,
    ensures
        (forall|j: int| from <= j < roots.len() ==> !is_under(path, (#[trigger] roots[j])@))
            <==> root_above(roots, path, from) is None,
    decreases roots.len() - from,
{
    if from < roots.len() {
        lemma_no_root(roots, path, from + 1);
        if forall|j: int| from <= j < roots.len() ==> !is_under(path, (#[trigger] roots[j])@) {
            assert(!is_under(path, roots[from]@));
        }
    }
}

/// The directory of a raw event is that of a window or a terminal event, if
/// it is not empty.
pub proof fn law_directories_of_raw_events(raw: &Json, variant: Seq<char>, inner: &Json)
    requires
        *raw matches Json::Object(members) && members@.len() == 1 && members@[0].0@ == variant
            && members@[0].1 == *inner,
    ensures
        event_cwd(raw) is Some <==> (variant == "Window"@ || variant == "Terminal"@)
            && inner.text_at("cwd"@) is Some && inner.text_at("cwd"@)->0.len() > 0,
        event_cwd(raw) is Some ==> event_cwd(raw) == inner.text_at("cwd"@),
{
}

// ---------------------------------------------------------------------
// Ports
// ---------------------------------------------------------------------

/// A line tells of a listening socket when it has ten fields, the fourth of
/// which is `0A`: the port is what stands behind the colon of the second, in
/// hexadecimal, and the inode the tenth.
pub proof fn law_listening_sockets(line: Seq<char>, port: u16, inode: u64)
    ensures
        listening_socket(line) == Some((port, inode)) <==> {
            let fields = words(line);
            &&& fields.len() >= 10
            &&& fields[3] == "0A"@
            &&& pieces(fields[1], ":"@).len() >= 2
            &&& number(pieces(fields[1], ":"@)[1], 16, 0xFFFF) == Some(port as nat)
            &&& number(fields[9], 10, 0xFFFF_FFFF_FFFF_FFFF) == Some(inode as nat)
        },
{
}

/// The sockets of a file are those of its lines but the first, in order.
pub proof fn law_sockets_follow_the_lines(all: Seq<Seq<char>>, from: int)
    requires
        0 <= from < all.len(),
    ensures
        listening_socket(all[from]) is None ==> sockets_from(all, from) == sockets_from(
            all,
            from + 1,
        ),
        listening_socket(all[from]) matches Some(socket) ==> sockets_from(all, from).len() > 0
            && sockets_from(all, from)[0] == socket && sockets_from(all, from).skip(1)
            == sockets_from(all, from + 1),
        sockets_from(all, all.len() as int).len() == 0,
{
    if listening_socket(all[from]) is Some {
        let socket = listening_socket(all[from])->0;
        assert((seq![socket] + sockets_from(all, from + 1)).skip(1) =~= sockets_from(
            all,
            from + 1,
        ));
    }
}

/// A process is named as its file says, without the white space around it.
pub proof fn law_processes_have_names(comm: Option<Seq<char>>)
    ensures
        comm is Some ==> process_label(comm) == trimmed(comm->0),
        comm is None ==> process_label(comm) == "unknown"@,
{
}

/// The port of the socket at `i` belongs to a process that is known.
pub open spec fn owned_at(
    sockets: Seq<(u16, u64)>,
    owners: Map<u64, u32>,
    i: int,
    pair: (u16, u32),
) -> bool {
    &&& 0 <= i < sockets.len()
    &&& owners.dom().contains(sockets[i].1)
    &&& pair == (sockets[i].0, owners[sockets[i].1])
}

/// A port is listed with its owner exactly when the process of its socket is
/// known.
pub proof fn law_ports_have_owners(
    sockets: Seq<(u16, u64)>,
    owners: Map<u64, u32>,
    pair: (u16, u32),
    from: int,
)
    requires
        0 <= from <= sockets.len(),
    ensures
        owned_from(sockets, owners, from).contains(pair) <==> exists|i: int|
            from <= i && #[trigger] owned_at(sockets, owners, i, pair),
    decreases sockets.len() - from,
{
    let all = owned_from(sockets, owners, from);
    if from < sockets.len() {
        law_ports_have_owners(sockets, owners, pair, from + 1);
        let rest = owned_from(sockets, owners, from + 1);
        if owners.dom().contains(sockets[from].1) {
            let head = (sockets[from].0, owners[sockets[from].1]);
            assert(all == seq![head] + rest);
            assert(all[0] == head);
            assert(owned_at(sockets, owners, from, head));
            if rest.contains(pair) {
                let k = choose|k: int| 0 <= k < rest.len() && rest[k] == pair;
                assert(all[k + 1] == pair);
            }
            if all.contains(pair) && pair != head {
                let k = choose|k: int| 0 <= k < all.len() && all[k] == pair;
                assert(rest[k - 1] == pair);
            }
        }
        if exists|i: int| from <= i && #[trigger] owned_at(sockets, owners, i, pair) {
            let i = choose|i: int| from <= i && #[trigger] owned_at(sockets, owners, i, pair);
            if i == from {
                assert(all.contains(pair));
            } else {
                assert(from + 1 <= i);
                assert(rest.contains(pair));
            }
        }
        if rest.contains(pair) {
            let i = choose|i: int| from + 1 <= i && #[trigger] owned_at(sockets, owners, i, pair);
            assert(from <= i);
        }
    } else {
        assert(!all.contains(pair));
    }
}

/// The target of a link names a socket exactly when it is `socket:[n]`, where
/// `n` is a number; the inode is that number.
pub proof fn law_links_name_sockets(target: Seq<char>, digits: Seq<char>)
    ensures
        target == "socket:["@ + digits + "]"@ ==> (link_inode(target) matches Some(n) ==> number(
            digits,
            10,
            0xFFFF_FFFF_FFFF_FFFF,
        ) == Some(n as nat)) && (link_inode(target) is None ==> number(
            digits,
            10,
            0xFFFF_FFFF_FFFF_FFFF,
        ) is None),
        link_inode(target) is Some ==> target.len() >= 9 && begins_with(target, "socket:["@)
            && target[target.len() - 1] == ']',
{
    reveal_strlit("socket:[");
    reveal_strlit("]");
    let head = "socket:["@;
    let tail = "]"@;
    lemma_begins_with(target, head);
    if target == head + digits + tail {
        assert(target.subrange(0, head.len() as int) =~= head);
        assert(target.skip(head.len() as int) =~= digits + tail);
        let rest = digits + tail;
        assert(rest.subrange(rest.len() - tail.len(), rest.len() as int) =~= tail);
        assert(rest.take(rest.len() - tail.len()) =~= digits);
    }
    if link_inode(target) is Some {
        let rest = target.skip(head.len() as int);
        assert(rest.subrange(rest.len() - 1, rest.len() as int)[0] == tail[0]);
    }
}

// ---------------------------------------------------------------------
// The calendar
// ---------------------------------------------------------------------

/// A property line is a name, parameters behind semicolons, a colon and a
/// value: the name and the value count.
pub proof fn law_property_lines(name: Seq<char>, parameters: Seq<char>, value: Seq<char>)
    requires
        forall|i: int| 0 <= i < name.len() ==> #[trigger] name[i] != ':' && name[i] != ';',
        forall|i: int| 0 <= i < parameters.len() ==> #[trigger] parameters[i] != ':',
        parameters.len() == 0 || parameters[0] == ';',
    ensures
        property(name + parameters + seq![':'] + value) == Some((name, value)),
{
    let line = name + parameters + seq![':'] + value;
    let colons = seq![':'];
    let semicolons = seq![';'];
    assert(colons[0] == ':' && semicolons[0] == ';');
    lemma_stop(line, colons, 0);
    let c = stop_from(line, colons, 0);
    let n = name.len() + parameters.len();
    assert(line[n as int] == ':');
    assert forall|i: int| 0 <= i < n implies #[trigger] line[i] != ':' by {
        if i < name.len() {
            assert(line[i] == name[i]);
        } else {
            assert(line[i] == parameters[i - name.len()]);
        }
    }
    assert(c == n) by {
        if c > n {
            assert(!colons.contains(line[n as int]));
        }
        if c < n {
            assert(line[c] == ':');
        }
    }
    let key = line.take(c);
    assert(key =~= name + parameters);
    assert(line.skip(c + 1) =~= value);
    lemma_stop(key, semicolons, 0);
    let e = stop_from(key, semicolons, 0);
    assert(e == name.len()) by {
        if e < name.len() {
            assert(key[e] == name[e]);
        }
        if e > name.len() {
            assert(parameters.len() > 0);
            assert(key[name.len() as int] == ';');
            assert(!semicolons.contains(key[name.len() as int]));
        }
    }
    assert(key.take(e) =~= name);
}

/// A line without a colon is no property.
pub proof fn law_no_colon_no_property(line: Seq<char>)
    requires
        forall|i: int| 0 <= i < line.len() ==> #[trigger] line[i] != ':',
    ensures
        property(line) is None,
{
    let colons = seq![':'];
    lemma_stop(line, colons, 0);
}

/// An event begins with its first line, with nothing known of it; a property
/// counts inside an event only, the last one of its name; and the event is
/// recorded at its last line, if its summary and its start are known.
pub proof fn law_events_are_read_line_by_line(reading: Reading, line: Seq<char>)
    ensures
        line == "BEGIN:VEVENT"@ ==> reading.after(line) == (Reading {
            in_event: true,
            summary: None,
            start: None,
            end: None,
        }),
        line == "END:VEVENT"@ ==> !reading.after(line).in_event,
        line != "BEGIN:VEVENT"@ && line != "END:VEVENT"@ ==> {
            let next = reading.after(line);
            let p = property(line);
            let named = |name: Seq<char>| reading.in_event && p is Some && (p->Some_0).0 == name;
            &&& next.in_event == reading.in_event
            &&& next.summary == if named("SUMMARY"@) {
                Some(super::calendar::unescaped((p->Some_0).1))
            } else {
                reading.summary
            }
            &&& next.start == if named("DTSTART"@) {
                Some((p->Some_0).1)
            } else {
                reading.start
            }
            &&& next.end == if named("DTEND"@) {
                Some((p->Some_0).1)
            } else {
                reading.end
            }
        },
        reading.ended(line).len() == if line == "END:VEVENT"@ && reading.summary is Some
            && reading.start is Some {
            1int
        } else {
            0int
        },
        reading.ended(line).len() > 0 ==> {
            let record = reading.ended(line)[0];
            &&& Some(record.summary) == reading.summary
            &&& Some(record.start) == reading.start
            &&& record.end == reading.end
        },
{
    reveal_strlit("SUMMARY");
    reveal_strlit("DTSTART");
    reveal_strlit("DTEND");
    reveal_strlit("BEGIN:VEVENT");
    reveal_strlit("END:VEVENT");
    assert("SUMMARY"@[0] == 'S' && "DTSTART"@[0] == 'D' && "DTEND"@[0] == 'D');
    assert("DTSTART"@.len() == 7 && "DTEND"@.len() == 5);
    assert("BEGIN:VEVENT"@[0] == 'B' && "END:VEVENT"@[0] == 'E');
}

/// A whole day is written with eight digits, a time in UTC ends with a `Z`, and
/// a time that does not is that of the wall clock.
pub proof fn law_dates_are_told_by_their_form(value: Seq<char>)
    ensures
        ({
            let s = trimmed(value);
            let plain_day = s.len() == 8 && forall|i: int|
                0 <= i < 8 ==> '0' <= #[trigger] s[i] <= '9';
            &&& date_value(value) is Day ==> plain_day
            &&& date_value(value) is Utc ==> s.len() > 0 && s[s.len() - 1] == 'Z'
            &&& date_value(value) is Floating ==> !plain_day && (s.len() == 0 || s[s.len() - 1]
                != 'Z')
        }),
{
    let s = trimmed(value);
    reveal_strlit("Z");
    let z = "Z"@;
    assert(z =~= seq!['Z']);
    if s.len() > 0 {
        let end = s.subrange(s.len() - 1, s.len() as int);
        assert(end[0] == s[s.len() - 1]);
        if s[s.len() - 1] == 'Z' {
            assert(end =~= z);
        } else {
            assert(end != z) by {
                if end == z {
                    assert(end[0] == 'Z');
                }
            }
        }
    }
    if s.len() == 8 {
        if forall|i: int| 0 <= i < 8 ==> '0' <= #[trigger] s[i] <= '9' {
            assert forall|i: int| 0 <= i < 8 implies crate::text::ascii_digit(#[trigger] s[i]) by {
                assert('0' <= s[i] <= '9');
            }
        }
        if super::calendar::eight_digits(s) {
            assert forall|i: int| 0 <= i < 8 implies '0' <= #[trigger] s[i] <= '9' by {
                assert(crate::text::ascii_digit(s[i]));
            }
        }
    }
}

/// A moment comes before another one.
pub open spec fn earlier(a: Moment, b: Moment) -> bool {
    a.secs < b.secs || a.secs == b.secs && a.nanos < b.nanos
}

/// When an event without an explicit end is over: after a day if it is a whole
/// day, else when it starts.
pub open spec fn ends(event: ParsedEventView, secs: int, nanos: int) -> bool {
    &&& event.end_explicit matches Some(end) ==> secs == end.secs && nanos == end.nanos
    &&& event.end_explicit is None ==> nanos == event.start.nanos
    &&& event.end_explicit is None && event.all_day ==> secs == event.start.secs + 86_400
    &&& event.end_explicit is None && !event.all_day ==> secs == event.start.secs
}

/// The event has started and is not over.
pub open spec fn under_way(event: ParsedEventView, now: Moment) -> bool {
    !earlier(now, event.start) && exists|secs: int, nanos: int| #[trigger]
        ends(event, secs, nanos) && (now.secs < secs || now.secs == secs && now.nanos < nanos)
}

/// The current event is the first one that has started and is not over.
pub proof fn law_the_current_event_is_under_way(
    events: Seq<ParsedEventView>,
    now: Moment,
    i: int,
)
    requires
        forall|j: int| 0 <= j < events.len() ==> (#[trigger] events[j]).wf(),
    ensures
        0 <= i < events.len() && under_way(events[i], now) && (forall|j: int|
            0 <= j < i ==> !under_way(#[trigger] events[j], now)) ==> current_from(events, now, 0)
            == Some(events[i]),
        (forall|j: int| 0 <= j < events.len() ==> !under_way(#[trigger] events[j], now))
            ==> current_from(events, now, 0) is None,
{
    assert forall|j: int| 0 <= j < events.len() implies super::calendar::goes_on(
        #[trigger] events[j],
        now,
    ) == under_way(events[j], now) by {
        let event = events[j];
        assert(event.wf());
        let over = event.over();
        assert(ends(event, over.secs as int, over.nanos as int));
    }
    if 0 <= i < events.len() && under_way(events[i], now) && (forall|j: int|
        0 <= j < i ==> !under_way(#[trigger] events[j], now)) {
        lemma_current(events, now, i, 0);
    }
    if forall|j: int| 0 <= j < events.len() ==> !under_way(#[trigger] events[j], now) {
        lemma_no_current(events, now, 0);
    }
}

proof fn lemma_current(events: Seq<ParsedEventView>, now: Moment, i: int, from: int)
    requires
        0 <= from <= i < events.len(),
        super::calendar::goes_on(events[i], now),
        forall|j: int| 0 <= j < i ==> !super::calendar::goes_on(#[trigger] events[j], now),
    ensures
        current_from(events, now, from) == Some(events[i]),
    decreases i - from,
{
    if from < i {
        assert(!super::calendar::goes_on(events[from], now));
        lemma_current(events, now, i, from + 1);
    }
}

proof fn lemma_no_current(events: Seq<ParsedEventView>, now: Moment, from: int)
    requires
        0 <= from,
        forall|j: int|
            0 <= j < events.len() ==> !super::calendar::goes_on(#[trigger] events[j], now),
    ensures
        current_from(events, now, from) is None,
    decreases events.len() - from,
{
    if from < events.len() {
        assert(!super::calendar::goes_on(events[from], now));
        lemma_no_current(events, now, from + 1);
    }
}

/// The next event is the first of those that start soonest after `now`.
pub proof fn law_the_next_event_starts_soonest(
    events: Seq<ParsedEventView>,
    now: Moment,
    i: int,
    n: int,
)
    requires
        0 <= n <= events.len(),
    ensures
        0 <= i < n && earlier(now, events[i].start) && (forall|j: int|
            0 <= j < n && earlier(now, (#[trigger] events[j]).start) ==> !earlier(
                events[j].start,
                events[i].start,
            ) && (j < i ==> earlier(events[i].start, events[j].start))) ==> next_to(events, now, n)
            == Some(events[i]),
        (forall|j: int| 0 <= j < n ==> !earlier(now, (#[trigger] events[j]).start)) <==> next_to(
            events,
            now,
            n,
        ) is None,
    decreases n,
{
    super::calendar::law_next_event_is_the_earliest(events, now, n);
    assert forall|a: Moment, b: Moment| #[trigger] earlier(a, b) == a.before(b) by {}
    if n > 0 {
        law_the_next_event_starts_soonest(events, now, i, n - 1);
        super::calendar::law_next_event_is_the_earliest(events, now, n - 1);
        if i == n - 1 && earlier(now, events[i].start) && (forall|j: int|
            0 <= j < n && earlier(now, (#[trigger] events[j]).start) ==> !earlier(
                events[j].start,
                events[i].start,
            ) && (j < i ==> earlier(events[i].start, events[j].start))) {
            let best = next_to(events, now, n - 1);
            if best is Some {
                let k = choose|k: int| 0 <= k < n - 1 && #[trigger] events[k] == best->0;
                assert(earlier(now, events[k].start));
                assert(earlier(events[i].start, events[k].start));
            }
        }
        if forall|j: int| 0 <= j < n ==> !earlier(now, (#[trigger] events[j]).start) {
            assert(!earlier(now, events[n - 1].start));
        }
    }
}

/// Meetings are told apart by their name and their start.
pub proof fn law_meetings_are_told_apart(a: CalendarEventView, b: CalendarEventView)
    ensures
        a.summary == b.summary && a.start == b.start ==> event_key(Some(a)) == event_key(Some(b)),
        a.summary == b.summary && a.start != b.start ==> event_key(Some(a)) != event_key(Some(b)),
        a.start == b.start && a.summary != b.summary ==> event_key(Some(a)) != event_key(Some(b)),
        event_key(Some(a)) is Some,
        event_key(None) is None,
{
    reveal_strlit("@");
    let x = a.summary + "@"@ + a.start;
    let y = b.summary + "@"@ + b.start;
    if a.summary == b.summary && x == y {
        let n = a.summary.len() as int;
        assert(x.skip(n + 1) =~= a.start);
        assert(y.skip(n + 1) =~= b.start);
    }
    if a.start == b.start && x == y {
        assert(x.take(x.len() - 1 - a.start.len()) =~= a.summary);
        assert(y.take(y.len() - 1 - b.start.len()) =~= b.summary);
    }
}

/// Only a time of the wall clock depends on where one is.
pub proof fn law_zones_matter_to_wall_clocks(value: DateValue, here: Option<Moment>)
    ensures
        value is Invalid ==> resolved(value, here) is None,
        value matches DateValue::Day(m) ==> resolved(value, here) == Some((m, true)),
        value matches DateValue::Utc(m) ==> resolved(value, here) == Some((m, false)),
        value is Floating && here is None ==> resolved(value, here) is None,
        value is Floating && here is Some ==> resolved(value, here) == Some((here->0, false)),
{
}

/// A text that is copied is worth an event exactly when it holds more than
/// white space and is another one than the last.
pub proof fn law_only_new_texts_count(last: Option<Seq<char>>, text: Seq<char>)
    ensures
        super::clipboard::new_copy(last, text) <==> last != Some(text) && exists|i: int|
            0 <= i < text.len() && !white_space(#[trigger] text[i]),
{
    lemma_blank(text);
}

proof fn lemma_blank(text: Seq<char>)
    ensures
        trimmed(text).len() > 0 <==> exists|i: int|
            0 <= i < text.len() && !white_space(#[trigger] text[i]),
{
    let n = text.len() as int;
    lemma_front(text, 0);
    lemma_back(text, n);
    let a = crate::text::skip_space(text, 0);
    let b = crate::text::skip_space_back(text, n);
    if exists|i: int| 0 <= i < n && !white_space(#[trigger] text[i]) {
        let i = choose|i: int| 0 <= i < n && !white_space(#[trigger] text[i]);
        assert(a <= i < b);
    } else if a < b {
        assert(white_space(text[a]));
    }
}

proof fn lemma_front(s: Seq<char>, from: int)
    requires
        0 <= from <= s.len(),
    ensures
        ({
            let n = crate::text::skip_space(s, from);
            &&& from <= n <= s.len()
            &&& n < s.len() ==> !white_space(s[n])
            &&& forall|i: int| from <= i < n ==> white_space(#[trigger] s[i])
        }),
    decreases s.len() - from,
{
    if from < s.len() {
        lemma_front(s, from + 1);
    }
}

proof fn lemma_back(s: Seq<char>, to: int)
    requires
        0 <= to <= s.len(),
    ensures
        ({
            let n = crate::text::skip_space_back(s, to);
            &&& 0 <= n <= to
            &&& n > 0 ==> !white_space(s[n - 1])
            &&& forall|i: int| n <= i < to ==> white_space(#[trigger] s[i])
        }),
    decreases to,
{
    if to > 0 {
        lemma_back(s, to - 1);
    }
}

/// A line that begins with a space or a tab continues the line before it; any
/// other line is one of its own.
pub proof fn law_folded_lines_are_joined(so_far: Seq<char>, line: Seq<char>)
    requires
        so_far.len() > 0,
    ensures
        super::calendar::continued(so_far, seq![' '] + line) == so_far + line,
        super::calendar::continued(so_far, seq!['\t'] + line) == so_far + line,
        line.len() == 0 || line[0] != ' ' && line[0] != '\t' ==> super::calendar::continued(
            so_far,
            line,
        ) == so_far + seq!['\n'] + line,
        super::calendar::continued(Seq::empty(), line) == line,
{
    let a = seq![' '] + line;
    let b = seq!['\t'] + line;
    assert(a[0] == ' ' && b[0] == '\t');
    assert(a.skip(1) =~= line);
    assert(b.skip(1) =~= line);
}

/// An event is put together from a record whose start is valid: it has the
/// record's summary, its start, and its end where that is valid too.
pub proof fn law_records_become_events(
    records: Seq<super::calendar::IcsRecordView>,
    starts: Seq<Option<(Moment, bool)>>,
    ends_at: Seq<Option<(Moment, bool)>>,
    from: int,
)
    requires
        0 <= from < records.len(),
        starts.len() == records.len(),
        ends_at.len() == records.len(),
    ensures
        ({
            let all = super::calendar::assembled_from(records, starts, ends_at, from);
            let rest = super::calendar::assembled_from(records, starts, ends_at, from + 1);
            &&& starts[from] is None ==> all == rest
            &&& starts[from] matches Some((start, all_day)) ==> {
                &&& all.len() == rest.len() + 1
                &&& all.skip(1) == rest
                &&& all[0].summary == records[from].summary
                &&& all[0].start == start
                &&& all[0].all_day == all_day
                &&& ends_at[from] is None ==> all[0].end_explicit is None
                &&& ends_at[from] matches Some((end, _)) ==> all[0].end_explicit == Some(end)
            }
        }),
{
    let all = super::calendar::assembled_from(records, starts, ends_at, from);
    let rest = super::calendar::assembled_from(records, starts, ends_at, from + 1);
    if starts[from] is Some {
        assert(all.skip(1) =~= rest);
    }
}

} // verus!
