//! What names, titles and addresses are read as.

use super::entities::{
    after_last, app_name, context_of, head_branch, title_parts, unmarked, url_domain,
    window_entities, ProjectContextView,
};
use crate::collectors::laws::lemma_stop;
use crate::promises::lemma_found;
use crate::text::{find_from, lowercase, occurs_at, pieces, pieces_from, stop_from, trimmed};
use vstd::prelude::*;

verus! {

// ---------------------------------------------------------------------
// Applications
// ---------------------------------------------------------------------

/// The editor goes by one name, and so do the two browsers and the terminals;
/// any other application goes by its own.
pub proof fn law_applications_go_by_one_name(app: Seq<char>)
    ensures
        ({
            let lower = lowercase(app);
            let name = app_name(Some(app));
            let editor = lower == "code"@ || lower == "code - oss"@ || lower == "vscodium"@ || lower
                == "visual studio code"@;
            let chrome = lower == "google-chrome"@ || lower == "chrome"@ || lower == "chromium"@
                || lower == "chromium-browser"@;
            let firefox = lower == "firefox"@ || lower == "firefox-esr"@ || lower == "navigator"@;
            let terminal = lower == "gnome-terminal-server"@ || lower == "gnome-terminal"@ || lower
                == "konsole"@ || lower == "xterm"@ || lower == "alacritty"@ || lower == "kitty"@
                || lower == "terminator"@;
            &&& editor ==> name == Some("vscode"@)
            &&& chrome ==> name == Some("chrome"@)
            &&& firefox ==> name == Some("firefox"@)
            &&& terminal ==> name == Some("terminal"@)
            &&& !editor && !chrome && !firefox && !terminal ==> name == Some(lower)
            &&& app_name(None) is None
        }),
{
    reveal_strlit("code");
    reveal_strlit("code - oss");
    reveal_strlit("vscodium");
    reveal_strlit("visual studio code");
    reveal_strlit("google-chrome");
    reveal_strlit("chrome");
    reveal_strlit("chromium");
    reveal_strlit("chromium-browser");
    reveal_strlit("firefox");
    reveal_strlit("firefox-esr");
    reveal_strlit("navigator");
    reveal_strlit("gnome-terminal-server");
    reveal_strlit("gnome-terminal");
    reveal_strlit("konsole");
    reveal_strlit("xterm");
    reveal_strlit("alacritty");
    reveal_strlit("kitty");
    reveal_strlit("terminator");
    assert("code"@.len() == 4 && "code - oss"@.len() == 10 && "vscodium"@.len() == 8);
    assert("visual studio code"@.len() == 18 && "google-chrome"@.len() == 13);
    assert("chrome"@.len() == 6 && "chromium"@.len() == 8 && "chromium-browser"@.len() == 16);
    assert("firefox"@.len() == 7 && "firefox-esr"@.len() == 11 && "navigator"@.len() == 9);
    assert("gnome-terminal-server"@.len() == 21 && "gnome-terminal"@.len() == 14);
    assert("konsole"@.len() == 7 && "xterm"@.len() == 5 && "alacritty"@.len() == 9);
    assert("kitty"@.len() == 5 && "terminator"@.len() == 10);
    assert("code - oss"@[0] == 'c' && "terminator"@[0] == 't');
    assert("vscodium"@[0] == 'v' && "chromium"@[0] == 'c');
    assert("firefox"@[0] == 'f' && "konsole"@[0] == 'k');
    assert("navigator"@[0] == 'n' && "alacritty"@[0] == 'a');
    assert("xterm"@[0] == 'x' && "kitty"@[0] == 'k');
}

// ---------------------------------------------------------------------
// Titles
// ---------------------------------------------------------------------

/// An editor's title of three parts or more begins with the file, and its last
/// part but one is the project, for which two parts are enough. Another
/// application's title of two parts or more begins with the file and names no
/// project. A project in the title goes before that of the directory, the
/// branch is that of the directory.
pub proof fn law_titles_name_files_and_projects(
    application: Option<Seq<char>>,
    title: Option<Seq<char>>,
    context: ProjectContextView,
)
    ensures
        ({
            let w = window_entities(application, title, context);
            let editor = app_name(application) == Some("vscode"@);
            let parts = title_parts(title->0);
            let n = parts.len() as int;
            &&& w.app == app_name(application)
            &&& w.branch == context.branch
            &&& title is None ==> w.file is None && w.project == context.project
            &&& title is Some && editor && n >= 3 ==> w.file == Some(unmarked(parts[0]))
            &&& title is Some && editor && n < 3 ==> w.file is None
            &&& title is Some && editor && n >= 2 ==> w.project == Some(parts[n - 2])
            &&& title is Some && editor && n < 2 ==> w.project == context.project
            &&& title is Some && !editor && n >= 2 ==> w.file == Some(parts[0])
            &&& title is Some && !editor && n < 2 ==> w.file is None
            &&& title is Some && !editor ==> w.project == context.project
        }),
{
}

/// The marks of unsaved changes are taken off the front of a name.
pub proof fn law_marks_are_taken_off(marks: Seq<char>, name: Seq<char>)
    requires
        forall|i: int| 0 <= i < marks.len() ==> #[trigger] marks[i] == '\u{25cf}',
        name.len() == 0 || name[0] != '\u{25cf}',
    ensures
        unmarked(marks + name) == trimmed(name),
{
    let all = marks + name;
    let n = marks.len() as int;
    assert forall|i: int| 0 <= i < n implies #[trigger] all[i] == '\u{25cf}' by {
        assert(all[i] == marks[i]);
    }
    if name.len() > 0 {
        assert(all[n] == name[0]);
    }
    lemma_skip_marks(all, n, 0);
    assert(all.skip(n) =~= name);
}

proof fn lemma_skip_marks(s: Seq<char>, n: int, from: int)
    requires
        0 <= from <= n <= s.len(),
        forall|i: int| from <= i < n ==> #[trigger] s[i] == '\u{25cf}',
        n == s.len() || s[n] != '\u{25cf}',
    ensures
        super::entities::skip_marks(s, from) == n,
    decreases n - from,
{
    if from < n {
        assert(s[from] == '\u{25cf}');
        lemma_skip_marks(s, n, from + 1);
    }
}

proof fn lemma_filled(parts: Seq<Seq<char>>, from: int, k: int)
    requires
        0 <= from,
        0 <= k < super::entities::filled(parts, from).len(),
    ensures
        super::entities::filled(parts, from)[k].len() > 0,
        exists|i: int|
            from <= i < parts.len() && super::entities::filled(parts, from)[k] == trimmed(
                #[trigger] parts[i],
            ),
    decreases parts.len() - from,
{
    if from < parts.len() {
        let rest = super::entities::filled(parts, from + 1);
        if trimmed(parts[from]).len() > 0 {
            if k > 0 {
                lemma_filled(parts, from + 1, k - 1);
                assert(super::entities::filled(parts, from)[k] == rest[k - 1]);
            } else {
                assert(super::entities::filled(parts, from)[0] == trimmed(parts[from]));
            }
        } else {
            lemma_filled(parts, from + 1, k);
        }
    }
}

/// No part of a title is empty.
pub proof fn law_parts_of_titles_are_filled(title: Seq<char>, k: int)
    requires
        0 <= k < title_parts(title).len(),
    ensures
        title_parts(title)[k].len() > 0,
{
    let coarse = pieces(title, " - "@);
    let finer = super::entities::cut_again(coarse, " \u{2013} "@, 0);
    lemma_filled(super::entities::cut_again(finer, " \u{2014} "@, 0), 0, k);
}

// ---------------------------------------------------------------------
// Addresses
// ---------------------------------------------------------------------

/// A character that ends the host of an address, or what stands before it.
pub open spec fn cuts(c: char) -> bool {
    c == '/' || c == '?' || c == '#' || c == '@' || c == ':'
}

proof fn lemma_after_last(s: Seq<char>, c: char, to: int)
    requires
        0 <= to <= s.len(),
    ensures
        ({
            let n = after_last(s, c, to);
            &&& 0 <= n <= to
            &&& n > 0 ==> s[n - 1] == c
            &&& forall|i: int| n <= i < to ==> #[trigger] s[i] != c
        }),
    decreases to,
{
    if to > 0 && s[to - 1] != c {
        lemma_after_last(s, c, to - 1);
    }
}

/// The domain of an address is no empty text, and holds none of the characters
/// that end it.
pub proof fn law_domains_are_bare(url: Seq<char>, i: int)
    requires
        url_domain(url) is Some,
        0 <= i < url_domain(url)->0.len(),
    ensures
        !cuts(url_domain(url)->0[i]),
{
    let cut = pieces(url, "://"@);
    let rest = if cut.len() > 1 {
        cut[1]
    } else {
        url
    };
    let ends = seq!['/', '?', '#'];
    let colon = seq![':'];
    assert(ends[0] == '/' && ends[1] == '?' && ends[2] == '#' && colon[0] == ':');
    lemma_stop(rest, ends, 0);
    let authority = rest.take(stop_from(rest, ends, 0));
    lemma_after_last(authority, '@', authority.len() as int);
    let a = after_last(authority, '@', authority.len() as int);
    let host = authority.skip(a);
    lemma_stop(host, colon, 0);
    let domain = url_domain(url)->0;
    assert(domain[i] == host[i]);
    assert(host[i] == authority[a + i]);
    assert(authority[a + i] == rest[a + i]);
    assert(!ends.contains(rest[a + i]));
    assert(!colon.contains(host[i]));
    assert(ends.contains(ends[0]) && ends.contains(ends[1]) && ends.contains(ends[2]));
    assert(colon.contains(colon[0]));
}

proof fn lemma_find(s: Seq<char>, pat: Seq<char>, i: int, from: int)
    requires
        0 <= from <= i,
        occurs_at(s, pat, i),
        forall|j: int| from <= j < i ==> !#[trigger] occurs_at(s, pat, j),
    ensures
        find_from(s, pat, from) == Some(i),
    decreases i - from,
{
    if from < i {
        assert(!occurs_at(s, pat, from));
        lemma_find(s, pat, i, from + 1);
    }
}

/// The domain of an address is its host: what stands behind the scheme and,
/// if there is one, the user, up to the port, the path, the query or the
/// fragment.
pub proof fn law_the_domain_is_the_host(
    scheme: Seq<char>,
    user: Seq<char>,
    host: Seq<char>,
    tail: Seq<char>,
)
    requires
        forall|i: int| 0 <= i < scheme.len() ==> #[trigger] scheme[i] != ':',
        host.len() > 0,
        forall|i: int| 0 <= i < host.len() ==> !cuts(#[trigger] host[i]),
        tail.len() == 0 || tail[0] == '/' || tail[0] == '?' || tail[0] == '#',
        user.len() == 0 || user[user.len() - 1] == '@' && forall|i: int|
            0 <= i < user.len() - 1 ==> !cuts(#[trigger] user[i]),
    ensures
        url_domain(scheme + "://"@ + user + host + tail) == Some(host),
{
    reveal_strlit("://");
    let mark = "://"@;
    let url = scheme + mark + user + host + tail;
    let n = scheme.len() as int;
    assert(mark.len() == 3 && mark[0] == ':');
    assert(url.subrange(n, n + 3) =~= mark);
    assert(occurs_at(url, mark, n));
    assert forall|j: int| 0 <= j < n implies !#[trigger] occurs_at(url, mark, j) by {
        if occurs_at(url, mark, j) {
            assert(url.subrange(j, j + 3)[0] == mark[0]);
            assert(url[j] == scheme[j]);
        }
    }
    lemma_find(url, mark, n, 0);
    let cut = pieces(url, mark);
    let behind = pieces_from(url, mark, n + 3);
    assert(cut == seq![url.subrange(0, n)] + behind);
    lemma_found(url, mark, n + 3);
    let next = find_from(url, mark, n + 3);
    // What stands between the scheme and the next mark.
    let end = if next is Some {
        next->0
    } else {
        url.len() as int
    };
    let rest = url.subrange(n + 3, end);
    assert(url.skip(n + 3) =~= url.subrange(n + 3, url.len() as int));
    assert(behind.len() > 0 && behind[0] == rest);
    assert(cut[1] == rest);
    let u = user.len() as int;
    let h = host.len() as int;
    assert forall|i: int| 0 <= i < u + h && i != u - 1 implies !cuts(
        #[trigger] url[n + 3 + i],
    ) by {
        if i < u {
            assert(url[n + 3 + i] == user[i]);
        } else {
            assert(url[n + 3 + i] == host[i - u]);
        }
    }
    if u > 0 {
        assert(url[n + 3 + u - 1] == user[u - 1]);
    }
    assert(end >= n + 3 + u + h) by {
        if next is Some {
            let at = next->0;
            assert(url.subrange(at, at + 3)[0] == mark[0]);
            assert(url[at] == ':');
            if at < n + 3 + u + h {
                assert(url[n + 3 + (at - n - 3)] == ':');
            }
        }
    }
    let ends = seq!['/', '?', '#'];
    let colon = seq![':'];
    assert(ends[0] == '/' && ends[1] == '?' && ends[2] == '#' && colon[0] == ':');
    assert(ends.contains(ends[0]) && ends.contains(ends[1]) && ends.contains(ends[2]));
    lemma_stop(rest, ends, 0);
    let stop = stop_from(rest, ends, 0);
    assert forall|i: int| 0 <= i < u + h implies !ends.contains(#[trigger] rest[i]) by {
        assert(rest[i] == url[n + 3 + i]);
        if i != u - 1 {
            assert(!cuts(url[n + 3 + i]));
        }
    }
    assert(stop == u + h) by {
        if stop < u + h {
            assert(!ends.contains(rest[stop]));
        }
        if stop > u + h {
            assert(rest[u + h] == url[n + 3 + u + h]);
            assert(url[n + 3 + u + h] == tail[0]);
            assert(!ends.contains(rest[u + h]));
        }
    }
    let authority = rest.take(stop);
    assert(authority =~= user + host);
    lemma_after_last(authority, '@', authority.len() as int);
    let a = after_last(authority, '@', authority.len() as int);
    assert(a == u) by {
        if a < u {
            assert(authority[u - 1] == user[u - 1]);
        }
        if a > u {
            assert(authority[a - 1] == host[a - 1 - u]);
            assert(cuts('@'));
            assert(!cuts(host[a - 1 - u]));
        }
    }
    assert(authority.skip(a) =~= host);
    lemma_stop(host, colon, 0);
    let port = stop_from(host, colon, 0);
    assert(port == h) by {
        if port < h {
            assert(colon.contains(host[port]));
            assert(host[port] == ':');
            assert(!cuts(host[port]));
        }
    }
    assert(host.take(h) =~= host);
}

// ---------------------------------------------------------------------
// Projects
// ---------------------------------------------------------------------

/// A project is named for its root, and its branch is what `HEAD` refers to,
/// if that is a branch.
pub proof fn law_projects_are_named_for_their_root(
    root: Seq<char>,
    head: Option<Seq<char>>,
    branch: Seq<char>,
)
    ensures
        context_of(None, head).project is None && context_of(None, head).branch is None,
        context_of(Some(root), head).project == crate::path::name_of(root),
        head is None ==> context_of(Some(root), head).branch is None,
        head is Some && trimmed(head->0) == "ref: refs/heads/"@ + branch ==> context_of(
            Some(root),
            head,
        ).branch == Some(branch),
        head is Some && context_of(Some(root), head).branch is Some ==> trimmed(head->0)
            == "ref: refs/heads/"@ + context_of(Some(root), head).branch->0,
{
    let mark = "ref: refs/heads/"@;
    if head is Some {
        let line = trimmed(head->0);
        if line == mark + branch {
            assert(line.subrange(0, mark.len() as int) =~= mark);
            assert(line.skip(mark.len() as int) =~= branch);
        }
        if head_branch(head->0) is Some {
            assert(line =~= mark + line.skip(mark.len() as int));
        }
    }
}

} // verus!
