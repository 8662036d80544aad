//! Entity extraction: what a window title, a shell command, a URL or a
//! working directory says about the activity.

use crate::path::{self, lemma_parent_is_shorter, parent_of, path_eq};
use crate::text::{
    self, ascii, ascii_lowered, chars_of, clone_opt, contains, find_stop, has, lowercase, opt_view,
    pieces, same, split_on, split_words, stop_from, stripped_prefix, text_between, trim, trimmed,
    views, words,
};
use vstd::prelude::*;

verus! {

/// Entities extracted from a window focus/blur/launch event.
#[derive(Debug, Clone)]
pub struct WindowEntities {
    pub app: Option<String>,
    pub project: Option<String>,
    pub branch: Option<String>,
    pub file: Option<String>,
}

/// What [`WindowEntities`] hold, as texts.
#[verifier::ext_equal]
pub struct WindowEntitiesView {
    pub app: Option<Seq<char>>,
    pub project: Option<Seq<char>>,
    pub branch: Option<Seq<char>>,
    pub file: Option<Seq<char>>,
}

impl View for WindowEntities {
    type V = WindowEntitiesView;

    open spec fn view(&self) -> WindowEntitiesView {
        WindowEntitiesView {
            app: opt_view(self.app),
            project: opt_view(self.project),
            branch: opt_view(self.branch),
            file: opt_view(self.file),
        }
    }
}

/// Entities extracted from a terminal command.
#[derive(Debug, Clone)]
pub struct CommandEntities {
    pub tool: Option<String>,
    pub subcommand: Option<String>,
    pub project: Option<String>,
    pub branch: Option<String>,
}

/// What [`CommandEntities`] hold, as texts.
#[verifier::ext_equal]
pub struct CommandEntitiesView {
    pub tool: Option<Seq<char>>,
    pub subcommand: Option<Seq<char>>,
    pub project: Option<Seq<char>>,
    pub branch: Option<Seq<char>>,
}

impl View for CommandEntities {
    type V = CommandEntitiesView;

    open spec fn view(&self) -> CommandEntitiesView {
        CommandEntitiesView {
            tool: opt_view(self.tool),
            subcommand: opt_view(self.subcommand),
            project: opt_view(self.project),
            branch: opt_view(self.branch),
        }
    }
}

/// The project that a working directory belongs to, as far as the file
/// system shows one: the name of its root directory and the checked-out
/// branch.
#[derive(Debug, Clone)]
pub struct ProjectContext {
    pub project: Option<String>,
    pub branch: Option<String>,
}

/// What a [`ProjectContext`] holds, as texts.
#[verifier::ext_equal]
pub struct ProjectContextView {
    pub project: Option<Seq<char>>,
    pub branch: Option<Seq<char>>,
}

impl View for ProjectContext {
    type V = ProjectContextView;

    open spec fn view(&self) -> ProjectContextView {
        ProjectContextView { project: opt_view(self.project), branch: opt_view(self.branch) }
    }
}

impl ProjectContext {
    /// No project at all.
    pub fn unknown() -> (r: Self)
        ensures
            r@ == (ProjectContextView { project: None, branch: None }),
    {
        ProjectContext { project: None, branch: None }
    }
}

// ---------------------------------------------------------------------
// Applications
// ---------------------------------------------------------------------

/// The canonical identifier of an application whose lowercase name is `app`.
pub open spec fn canonical(app: Seq<char>) -> Seq<char> {
    if app == "code"@ || app == "code - oss"@ || app == "vscodium"@ || app
        == "visual studio code"@ {
        "vscode"@
    } else if app == "google-chrome"@ || app == "chrome"@ || app == "chromium"@ || app
        == "chromium-browser"@ {
        "chrome"@
    } else if app == "firefox"@ || app == "firefox-esr"@ || app == "navigator"@ {
        "firefox"@
    } else if app == "gnome-terminal-server"@ || app == "gnome-terminal"@ || app == "konsole"@
        || app == "xterm"@ || app == "alacritty"@ || app == "kitty"@ || app == "terminator"@ {
        "terminal"@
    } else {
        app
    }
}

/// The canonical identifier of an application, by its lowercase name.
pub fn canonical_app(app: &str) -> (r: String)
    ensures
        r@ == canonical(app@),
{
    if same(app, "code") || same(app, "code - oss") || same(app, "vscodium") || same(
        app,
        "visual studio code",
    ) {
        "vscode".to_owned()
    } else if same(app, "google-chrome") || same(app, "chrome") || same(app, "chromium") || same(
        app,
        "chromium-browser",
    ) {
        "chrome".to_owned()
    } else if same(app, "firefox") || same(app, "firefox-esr") || same(app, "navigator") {
        "firefox".to_owned()
    } else if same(app, "gnome-terminal-server") || same(app, "gnome-terminal") || same(
        app,
        "konsole",
    ) || same(app, "xterm") || same(app, "alacritty") || same(app, "kitty") || same(
        app,
        "terminator",
    ) {
        "terminal".to_owned()
    } else {
        app.to_owned()
    }
}

/// The canonical identifier of an application, if there is one.
pub open spec fn app_name(application: Option<Seq<char>>) -> Option<Seq<char>> {
    match application {
        Some(app) => Some(canonical(lowercase(app))),
        None => None,
    }
}

/// Maps raw WM_CLASS / process names to a canonical app identifier.
pub fn normalize_app_name(application: &Option<String>) -> (r: Option<String>)
    ensures
        opt_view(r) == app_name(opt_view(*application)),
{
    match application {
        Some(app) => {
            let lower = text::to_lowercase(app.as_str());
            Some(canonical_app(lower.as_str()))
        },
        None => None,
    }
}

proof fn lemma_lowercase_again(s: Seq<char>)
    requires
        ascii(s),
    ensures
        ascii(lowercase(s)),
        lowercase(lowercase(s)) == lowercase(s),
{
    let lower = lowercase(s);
    assert forall|i: int| 0 <= i < lower.len() implies (#[trigger] lower[i] as u32) < 128
        && ascii_lowered(lower[i]) == lower[i] by {
        assert(lower[i] == ascii_lowered(s[i]));
    }
    assert(lowercase(lower) =~= lower);
}

/// The canonical identifiers stand for themselves.
proof fn lemma_canonical_names()
    ensures
        canonical(lowercase("vscode"@)) == "vscode"@,
        canonical(lowercase("chrome"@)) == "chrome"@,
        canonical(lowercase("firefox"@)) == "firefox"@,
        canonical(lowercase("terminal"@)) == "terminal"@,
{
    reveal_strlit("vscode");
    reveal_strlit("chrome");
    reveal_strlit("firefox");
    reveal_strlit("terminal");
    reveal_strlit("code");
    reveal_strlit("code - oss");
    reveal_strlit("vscodium");
    reveal_strlit("visual studio code");
    reveal_strlit("google-chrome");
    reveal_strlit("chromium");
    reveal_strlit("chromium-browser");
    reveal_strlit("firefox-esr");
    reveal_strlit("navigator");
    reveal_strlit("gnome-terminal-server");
    reveal_strlit("gnome-terminal");
    reveal_strlit("konsole");
    reveal_strlit("xterm");
    reveal_strlit("alacritty");
    reveal_strlit("kitty");
    reveal_strlit("terminator");
    assert(lowercase("vscode"@) =~= "vscode"@);
    assert(lowercase("chrome"@) =~= "chrome"@);
    assert(lowercase("firefox"@) =~= "firefox"@);
    assert(lowercase("terminal"@) =~= "terminal"@);
    assert("vscode"@[0] != "chrome"@[0]);
    assert("terminal"@[0] != "vscodium"@[0]);
    assert("terminal"@[0] != "chromium"@[0]);
}

/// Only an application without a name has no identifier, and an identifier
/// is its own: normalizing it again changes nothing. That holds of every name
/// whose lowercase form is in lowercase, as that of an ASCII name is.
pub proof fn law_app_names_are_stable(application: Option<Seq<char>>)
    ensures
        app_name(application) is None <==> application is None,
        (application matches Some(name) ==> lowercase(lowercase(name)) == lowercase(name))
            ==> app_name(app_name(application)) == app_name(application),
        (application matches Some(name) ==> ascii(name)) ==> app_name(app_name(application))
            == app_name(application),
{
    lemma_canonical_names();
    if let Some(name) = application {
        if ascii(name) {
            lemma_lowercase_again(name);
        }
    }
}

/// Two names with the same lowercase form have the same identifier; so have
/// two ASCII names that differ only in the case of their letters.
pub proof fn law_app_names_ignore_case(a: Seq<char>, b: Seq<char>)
    ensures
        lowercase(a) == lowercase(b) ==> app_name(Some(a)) == app_name(Some(b)),
        ascii(a) && ascii(b) && differ_in_case(a, b) ==> app_name(Some(a)) == app_name(Some(b)),
{
    if ascii(a) && ascii(b) && differ_in_case(a, b) {
        assert(lowercase(a) =~= lowercase(b));
    }
}

/// The texts differ at most in the case of their ASCII letters.
pub open spec fn differ_in_case(a: Seq<char>, b: Seq<char>) -> bool {
    a.len() == b.len() && forall|i: int|
        0 <= i < a.len() ==> ascii_lowered(#[trigger] a[i]) == ascii_lowered(b[i])
}

// ---------------------------------------------------------------------
// Projects
// ---------------------------------------------------------------------

/// The directories to look at for a project marker, from `dir` upwards, none
/// at or above `home`.
pub open spec fn search_path(dir: Seq<char>, home: Option<Seq<char>>) -> Seq<Seq<char>>
    decreases dir.len(),
    via search_path_ends
{
    if home matches Some(h) && path_eq(h, dir) {
        Seq::empty()
    } else {
        match parent_of(dir) {
            Some(up) => seq![dir] + search_path(up, home),
            None => seq![dir],
        }
    }
}

#[via_fn]
proof fn search_path_ends(dir: Seq<char>, home: Option<Seq<char>>) {
    lemma_parent_is_shorter(dir);
}

/// The directories to look at for a project marker, starting at `cwd` and
/// walking up, until the home directory or the file system's root.
pub fn project_root_candidates(cwd: &str, home: Option<&str>) -> (r: Vec<String>)
    ensures
        views(r@) == search_path(cwd@, text::opt_str_view(home)),
{
    broadcast use crate::text::lemma_views_push;

    let mut out: Vec<String> = Vec::new();
    let mut current = cwd.to_owned();
    let ghost whole = search_path(cwd@, text::opt_str_view(home));
    assert(views(out@) + whole =~= whole);
    loop
        invariant
            whole == search_path(cwd@, text::opt_str_view(home)),
            views(out@) + search_path(current@, text::opt_str_view(home)) == whole,
        decreases current@.len(),
    {
        if let Some(h) = home {
            if path::same_path(h, current.as_str()) {
                assert(views(out@) =~= whole);
                return out;
            }
        }
        let up = path::parent(current.as_str());
        let ghost before = views(out@);
        let ghost here = current@;
        proof {
            lemma_parent_is_shorter(here);
        }
        out.push(current);
        match up {
            Some(dir) => {
                assert(before + (seq![here] + search_path(dir@, text::opt_str_view(home)))
                    =~= views(out@) + search_path(dir@, text::opt_str_view(home)));
                current = dir;
            },
            None => {
                assert(before + seq![here] =~= views(out@));
                return out;
            },
        }
    }
}

/// The first directory that holds a marker, from position `from` on.
pub open spec fn first_marked(dirs: Seq<Seq<char>>, marked: Seq<bool>, from: int) -> Option<
    Seq<char>,
>
    decreases dirs.len() - from,
{
    if from < 0 || from >= dirs.len() || from >= marked.len() {
        None
    } else if marked[from] {
        Some(dirs[from])
    } else {
        first_marked(dirs, marked, from + 1)
    }
}

/// Names that anchor a directory that has an entry of that name as a project
/// root.
pub open spec fn markers() -> Seq<Seq<char>> {
    seq![
        ".git"@,
        "package.json"@,
        "Cargo.toml"@,
        "pyproject.toml"@,
        "go.mod"@,
        "setup.py"@,
    ]
}

/// The project markers.
pub fn project_markers() -> (r: Vec<String>)
    ensures
        views(r@) == markers(),
{
    let mut out: Vec<String> = Vec::new();
    out.push(".git".to_owned());
    out.push("package.json".to_owned());
    out.push("Cargo.toml".to_owned());
    out.push("pyproject.toml".to_owned());
    out.push("go.mod".to_owned());
    out.push("setup.py".to_owned());
    assert(views(out@) =~= markers());
    out
}

/// The project root among the directories that were looked at: the first
/// one in which a project marker was found.
pub fn find_project_root(dirs: &Vec<String>, marked: &Vec<bool>) -> (r: Option<String>)
    ensures
        opt_view(r) == first_marked(views(dirs@), marked@, 0),
{
    let mut i: usize = 0;
    while i < dirs.len() && i < marked.len()
        invariant
            i <= dirs@.len(),
            first_marked(views(dirs@), marked@, i as int) == first_marked(
                views(dirs@),
                marked@,
                0,
            ),
        decreases dirs@.len() - i,
    {
        if marked[i] {
            assert(views(dirs@)[i as int] == dirs@[i as int]@);
            return Some(dirs[i].clone());
        }
        i = i + 1;
    }
    None
}

/// The nearest directory at or above `dir` that `marked` holds of; none at or
/// above `home`.
pub open spec fn nearest_root(
    dir: Seq<char>,
    home: Option<Seq<char>>,
    marked: spec_fn(Seq<char>) -> bool,
) -> Option<Seq<char>>
    decreases dir.len(),
    via nearest_root_ends
{
    if home matches Some(h) && path_eq(h, dir) {
        None
    } else if marked(dir) {
        Some(dir)
    } else {
        match parent_of(dir) {
            Some(up) => nearest_root(up, home, marked),
            None => None,
        }
    }
}

#[via_fn]
proof fn nearest_root_ends(
    dir: Seq<char>,
    home: Option<Seq<char>>,
    marked: spec_fn(Seq<char>) -> bool,
) {
    lemma_parent_is_shorter(dir);
}

proof fn lemma_first_marked_behind(
    first: Seq<char>,
    rest: Seq<Seq<char>>,
    flag: bool,
    flags: Seq<bool>,
    from: int,
)
    requires
        0 <= from,
        rest.len() == flags.len(),
    ensures
        first_marked(seq![first] + rest, seq![flag] + flags, from + 1) == first_marked(
            rest,
            flags,
            from,
        ),
    decreases rest.len() - from,
{
    if from < rest.len() {
        assert((seq![first] + rest)[from + 1] == rest[from]);
        assert((seq![flag] + flags)[from + 1] == flags[from]);
        lemma_first_marked_behind(first, rest, flag, flags, from + 1);
    }
}

/// The project root is the nearest marked directory on the way up, however
/// far away, unless the home directory comes before it.
pub proof fn law_project_root_is_the_nearest(
    dir: Seq<char>,
    home: Option<Seq<char>>,
    marked: spec_fn(Seq<char>) -> bool,
)
    ensures
        ({
            let dirs = search_path(dir, home);
            first_marked(dirs, Seq::new(dirs.len(), |i: int| marked(dirs[i])), 0) == nearest_root(
                dir,
                home,
                marked,
            )
        }),
    decreases dir.len(),
{
    lemma_parent_is_shorter(dir);
    let dirs = search_path(dir, home);
    let flags = Seq::new(dirs.len(), |i: int| marked(dirs[i]));
    if !(home matches Some(h) && path_eq(h, dir)) {
        assert(dirs[0] == dir);
        if let Some(up) = parent_of(dir) {
            law_project_root_is_the_nearest(up, home, marked);
            let rest = search_path(up, home);
            let others = Seq::new(rest.len(), |i: int| marked(rest[i]));
            assert(flags =~= seq![marked(dir)] + others);
            lemma_first_marked_behind(dir, rest, marked(dir), others, 0);
        } else {
            assert(first_marked(dirs, flags, 1) is None);
        }
    }
}

/// The branch that the content of a repository's `HEAD` names.
pub open spec fn head_branch(head: Seq<char>) -> Option<Seq<char>> {
    stripped_prefix(trimmed(head), "ref: refs/heads/"@)
}

/// Reads the current branch name from the content of `.git/HEAD`, e.g.
/// "ref: refs/heads/feature/auth-rework" -> "feature/auth-rework".
pub fn read_git_branch(head: &str) -> (r: Option<String>)
    ensures
        opt_view(r) == head_branch(head@),
{
    let head = trim(head);
    text::strip_prefix(head.as_str(), "ref: refs/heads/")
}

/// The project of a root directory, with the content of its `.git/HEAD`.
pub open spec fn context_of(root: Option<Seq<char>>, head: Option<Seq<char>>) -> ProjectContextView {
    match root {
        Some(dir) => ProjectContextView {
            project: path::name_of(dir),
            branch: match head {
                Some(h) => head_branch(h),
                None => None,
            },
        },
        None => ProjectContextView { project: None, branch: None },
    }
}

/// Derives project name (directory name of the project root) and current
/// git branch from the root that was found and the content of its
/// `.git/HEAD`.
pub fn project_and_branch(root: &Option<String>, head: &Option<String>) -> (r: ProjectContext)
    ensures
        r@ == context_of(opt_view(*root), opt_view(*head)),
{
    match root {
        Some(dir) => {
            let project = path::file_name(dir.as_str());
            let branch = match head {
                Some(h) => read_git_branch(h.as_str()),
                None => None,
            };
            ProjectContext { project, branch }
        },
        None => ProjectContext::unknown(),
    }
}

// ---------------------------------------------------------------------
// Window titles
// ---------------------------------------------------------------------

/// The segments of `parts` from position `from` on, each cut once more at
/// `dash`.
pub open spec fn cut_again(parts: Seq<Seq<char>>, dash: Seq<char>, from: int) -> Seq<Seq<char>>
    decreases parts.len() - from,
{
    if from < 0 || from >= parts.len() {
        Seq::empty()
    } else {
        pieces(parts[from], dash) + cut_again(parts, dash, from + 1)
    }
}

/// The trimmed segments of `parts` from position `from` on that hold
/// anything.
pub open spec fn filled(parts: Seq<Seq<char>>, from: int) -> Seq<Seq<char>>
    decreases parts.len() - from,
{
    if from < 0 || from >= parts.len() {
        Seq::empty()
    } else if trimmed(parts[from]).len() > 0 {
        seq![trimmed(parts[from])] + filled(parts, from + 1)
    } else {
        filled(parts, from + 1)
    }
}

/// The segments of a window title between its spaced hyphens, en dashes and
/// em dashes.
pub open spec fn title_parts(title: Seq<char>) -> Seq<Seq<char>> {
    let coarse = pieces(title, " - "@);
    let finer = cut_again(coarse, " \u{2013} "@, 0);
    filled(cut_again(finer, " \u{2014} "@, 0), 0)
}

fn push_pieces(out: &mut Vec<String>, s: &str, pat: &str)
    requires
        pat@.len() > 0,
    ensures
        views(final(out)@) == views(old(out)@) + pieces(s@, pat@),
{
    broadcast use crate::text::lemma_views_push;

    let parts = split_on(s, pat);
    let ghost start = views(out@);
    for i in 0..parts.len()
        invariant
            views(out@) == start + views(parts@).take(i as int),
    {
        let ghost before = out@;
        out.push(parts[i].clone());
        assert(views(before.push(parts@[i as int])) == views(before).push(parts@[i as int]@));
        assert(views(parts@).take(i + 1) =~= views(parts@).take(i as int).push(parts@[i as int]@));
        assert(views(out@) =~= start + views(parts@).take(i + 1));
    }
    assert(views(parts@).take(parts@.len() as int) =~= views(parts@));
}

fn split_again(parts: &Vec<String>, dash: &str) -> (r: Vec<String>)
    requires
        dash@.len() > 0,
    ensures
        views(r@) == cut_again(views(parts@), dash@, 0),
{
    let ghost all = views(parts@);
    let mut fine: Vec<String> = Vec::new();
    assert(views(fine@) + cut_again(all, dash@, 0) =~= cut_again(all, dash@, 0));
    let mut i: usize = 0;
    while i < parts.len()
        invariant
            i <= parts@.len(),
            views(parts@) == all,
            dash@.len() > 0,
            views(fine@) + cut_again(all, dash@, i as int) == cut_again(all, dash@, 0),
        decreases parts@.len() - i,
    {
        let ghost before = views(fine@);
        push_pieces(&mut fine, parts[i].as_str(), dash);
        assert(all[i as int] == parts@[i as int]@);
        assert(before + (pieces(all[i as int], dash@) + cut_again(all, dash@, i + 1)) =~= views(
            fine@,
        ) + cut_again(all, dash@, i + 1));
        i = i + 1;
    }
    assert(views(fine@) =~= cut_again(all, dash@, 0));
    fine
}

/// The segments of a window title.
fn split_title(title: &str) -> (r: Vec<String>)
    ensures
        views(r@) == title_parts(title@),
{
    broadcast use crate::text::lemma_views_push;

    proof {
        reveal_strlit(" - ");
        reveal_strlit(" \u{2013} ");
        reveal_strlit(" \u{2014} ");
    }
    let coarse = split_on(title, " - ");
    let finer = split_again(&coarse, " \u{2013} ");
    let fine = split_again(&finer, " \u{2014} ");
    let ghost all = views(fine@);

    let mut out: Vec<String> = Vec::new();
    let mut k: usize = 0;
    assert(views(out@) + filled(all, 0) =~= filled(all, 0));
    while k < fine.len()
        invariant
            k <= fine@.len(),
            views(fine@) == all,
            views(out@) + filled(all, k as int) == filled(all, 0),
        decreases fine@.len() - k,
    {
        let ghost before = views(out@);
        assert(all[k as int] == fine@[k as int]@);
        let part = trim(fine[k].as_str());
        if !part.as_str().is_empty() {
            out.push(part);
            assert(before + (seq![trimmed(all[k as int])] + filled(all, k + 1)) =~= views(out@)
                + filled(all, k + 1));
        }
        k = k + 1;
    }
    assert(views(out@) =~= filled(all, 0));
    out
}

/// The first position at or after `from` that holds no modification mark.
pub open spec fn skip_marks(s: Seq<char>, from: int) -> int
    decreases s.len() - from,
{
    if from < 0 || from >= s.len() {
        s.len() as int
    } else if s[from] == '\u{25cf}' {
        skip_marks(s, from + 1)
    } else {
        from
    }
}

/// A file name in an editor's title, without the marks of unsaved changes.
pub open spec fn unmarked(s: Seq<char>) -> Seq<char> {
    trimmed(s.skip(skip_marks(s, 0)))
}

fn strip_marks(s: &str) -> (r: String)
    ensures
        r@ == unmarked(s@),
{
    let cs = chars_of(s);
    let mut i: usize = 0;
    while i < cs.len() && cs[i] == '\u{25cf}'
        invariant
            cs@ == s@,
            i <= cs@.len(),
            skip_marks(s@, i as int) == skip_marks(s@, 0),
        decreases cs@.len() - i,
    {
        i = i + 1;
    }
    let rest = text_between(&cs, i, cs.len());
    assert(rest@ =~= s@.skip(i as int));
    trim(rest.as_str())
}

/// The open file that a window title names: for the editor, the first of at
/// least three segments without the marks of unsaved changes; elsewhere the
/// first of at least two segments.
pub open spec fn title_file(app: Option<Seq<char>>, title: Option<Seq<char>>) -> Option<Seq<char>> {
    match title {
        Some(t) => {
            let parts = title_parts(t);
            if app == Some("vscode"@) {
                if parts.len() >= 3 {
                    Some(unmarked(parts[0]))
                } else {
                    None
                }
            } else if parts.len() >= 2 {
                Some(parts[0])
            } else {
                None
            }
        },
        None => None,
    }
}

/// The project that an editor's title names: the segment before the last.
pub open spec fn title_project(app: Option<Seq<char>>, title: Option<Seq<char>>) -> Option<
    Seq<char>,
> {
    match title {
        Some(t) => {
            let parts = title_parts(t);
            if app == Some("vscode"@) && parts.len() >= 2 {
                Some(parts[parts.len() - 2])
            } else {
                None
            }
        },
        None => None,
    }
}

/// What a window event says: a project named by the title goes before the
/// one of the working directory.
pub open spec fn window_entities(
    application: Option<Seq<char>>,
    title: Option<Seq<char>>,
    context: ProjectContextView,
) -> WindowEntitiesView {
    let app = app_name(application);
    WindowEntitiesView {
        app,
        project: match title_project(app, title) {
            Some(p) => Some(p),
            None => context.project,
        },
        branch: context.branch,
        file: title_file(app, title),
    }
}

/// Parses a window title into structured entities. Title formats vary
/// wildly by application, so only a few common patterns (notably VS Code's
/// "file - project - Visual Studio Code") are special-cased; `context` is
/// the project of the window's working directory.
pub fn parse_window_title(
    application: &Option<String>,
    title: &Option<String>,
    context: &ProjectContext,
) -> (r: WindowEntities)
    ensures
        r@ == window_entities(opt_view(*application), opt_view(*title), context@),
{
    let app = normalize_app_name(application);
    let mut project: Option<String> = None;
    let mut file: Option<String> = None;
    if let Some(title) = title {
        let parts = split_title(title.as_str());
        let n = parts.len();
        assert(title_parts(title@).len() == n);
        assert forall|i: int| 0 <= i < n implies title_parts(title@)[i] == #[trigger] parts@[i]@ by {
            assert(views(parts@)[i] == parts@[i]@);
        }
        let in_editor = match &app {
            Some(a) => same(a.as_str(), "vscode"),
            None => false,
        };
        if in_editor {
            if n >= 3 {
                file = Some(strip_marks(parts[0].as_str()));
                project = Some(parts[n - 2].clone());
            } else if n == 2 {
                project = Some(parts[0].clone());
            }
        } else {
            if n >= 2 {
                file = Some(parts[0].clone());
            }
        }
    }
    if project.is_none() {
        project = clone_opt(&context.project);
    }
    WindowEntities { app, project, branch: clone_opt(&context.branch), file }
}

// ---------------------------------------------------------------------
// Commands
// ---------------------------------------------------------------------

/// Tools that take a subcommand as their first non-flag argument, e.g.
/// `git commit`, `cargo build`, `npm run dev`.
pub open spec fn takes_subcommand(tool: Seq<char>) -> bool {
    ||| tool == "git"@
    ||| tool == "npm"@
    ||| tool == "yarn"@
    ||| tool == "pnpm"@
    ||| tool == "cargo"@
    ||| tool == "docker"@
    ||| tool == "docker-compose"@
    ||| tool == "kubectl"@
    ||| tool == "go"@
    ||| tool == "python"@
    ||| tool == "python3"@
    ||| tool == "pip"@
    ||| tool == "pip3"@
    ||| tool == "make"@
    ||| tool == "systemctl"@
}

fn is_multi_command_tool(tool: &str) -> (r: bool)
    ensures
        r == takes_subcommand(tool@),
{
    same(tool, "git") || same(tool, "npm") || same(tool, "yarn") || same(tool, "pnpm") || same(
        tool,
        "cargo",
    ) || same(tool, "docker") || same(tool, "docker-compose") || same(tool, "kubectl") || same(
        tool,
        "go",
    ) || same(tool, "python") || same(tool, "python3") || same(tool, "pip") || same(tool, "pip3")
        || same(tool, "make") || same(tool, "systemctl")
}

/// A leading `FOO=bar` of a command.
pub open spec fn assignment(word: Seq<char>) -> bool {
    word.contains('=') && !flag(word)
}

/// An argument that starts with a hyphen.
pub open spec fn flag(word: Seq<char>) -> bool {
    word.len() > 0 && word[0] == '-'
}

fn is_flag(word: &str) -> (r: bool)
    ensures
        r == flag(word@),
{
    let cs = chars_of(word);
    cs.len() > 0 && cs[0] == '-'
}

fn is_assignment(word: &str) -> (r: bool)
    ensures
        r == assignment(word@),
{
    let cs = chars_of(word);
    let mut found = false;
    for i in 0..cs.len()
        invariant
            cs@ == word@,
            found == word@.take(i as int).contains('='),
    {
        assert(word@.take(i + 1) =~= word@.take(i as int).push(word@[i as int]));
        proof {
            let t = word@.take(i + 1);
            if cs@[i as int] == '=' {
                assert(t[i as int] == '=');
            }
            if found {
                let j = choose|j: int| 0 <= j < i && word@.take(i as int)[j] == '=';
                assert(t[j] == '=');
            }
        }
        if cs[i] == '=' {
            found = true;
        }
    }
    assert(word@.take(cs@.len() as int) =~= word@);
    found && !is_flag(word)
}

/// The first position at or after `from` whose word is no assignment.
pub open spec fn skip_assignments(ws: Seq<Seq<char>>, from: int) -> int
    decreases ws.len() - from,
{
    if from < 0 || from >= ws.len() {
        ws.len() as int
    } else if assignment(ws[from]) {
        skip_assignments(ws, from + 1)
    } else {
        from
    }
}

/// The first word at or after position `from` that is no flag.
pub open spec fn first_argument(ws: Seq<Seq<char>>, from: int) -> Option<Seq<char>>
    decreases ws.len() - from,
{
    if from < 0 || from >= ws.len() {
        None
    } else if flag(ws[from]) {
        first_argument(ws, from + 1)
    } else {
        Some(ws[from])
    }
}

/// The tool that a command runs: its first word that is no assignment.
pub open spec fn command_tool(command: Seq<char>) -> Option<Seq<char>> {
    let ws = words(command);
    let i = skip_assignments(ws, 0);
    if 0 <= i < ws.len() {
        Some(ws[i])
    } else {
        None
    }
}

/// The subcommand, for a tool that takes one: the first word behind the tool
/// that is no flag.
pub open spec fn command_subcommand(command: Seq<char>) -> Option<Seq<char>> {
    match command_tool(command) {
        Some(tool) => if takes_subcommand(tool) {
            first_argument(words(command), skip_assignments(words(command), 0) + 1)
        } else {
            None
        },
        None => None,
    }
}

/// What a command run in a project says.
pub open spec fn command_entities(
    command: Seq<char>,
    context: ProjectContextView,
) -> CommandEntitiesView {
    CommandEntitiesView {
        tool: command_tool(command),
        subcommand: command_subcommand(command),
        project: context.project,
        branch: context.branch,
    }
}

/// Parses a shell command into tool/subcommand. Leading environment variable
/// assignments (`FOO=bar cmd ...`) are skipped when identifying the tool.
/// `context` is the project of the command's working directory.
pub fn parse_command(command: &str, context: &ProjectContext) -> (r: CommandEntities)
    ensures
        r@ == command_entities(command@, context@),
{
    let tokens = split_words(command);
    let ghost ws = words(command@);
    assert forall|i: int| 0 <= i < tokens@.len() implies ws[i] == #[trigger] tokens@[i]@ by {
        assert(views(tokens@)[i] == tokens@[i]@);
    }
    assert(ws.len() == tokens@.len());
    let mut idx: usize = 0;
    while idx < tokens.len() && is_assignment(tokens[idx].as_str())
        invariant
            idx <= tokens@.len(),
            ws.len() == tokens@.len(),
            forall|i: int| 0 <= i < tokens@.len() ==> ws[i] == #[trigger] tokens@[i]@,
            skip_assignments(ws, idx as int) == skip_assignments(ws, 0),
        decreases tokens@.len() - idx,
    {
        idx = idx + 1;
    }
    let mut tool: Option<String> = None;
    let mut subcommand: Option<String> = None;
    if idx < tokens.len() {
        tool = Some(tokens[idx].clone());
        if is_multi_command_tool(tokens[idx].as_str()) {
            let mut k: usize = idx + 1;
            while k < tokens.len() && is_flag(tokens[k].as_str())
                invariant
                    idx < k <= tokens@.len(),
                    ws.len() == tokens@.len(),
                    forall|i: int| 0 <= i < tokens@.len() ==> ws[i] == #[trigger] tokens@[i]@,
                    first_argument(ws, k as int) == first_argument(ws, idx + 1),
                decreases tokens@.len() - k,
            {
                k = k + 1;
            }
            if k < tokens.len() {
                subcommand = Some(tokens[k].clone());
            }
        }
    }
    CommandEntities {
        tool,
        subcommand,
        project: clone_opt(&context.project),
        branch: clone_opt(&context.branch),
    }
}

/// A lowercase command line that names a test runner.
pub open spec fn names_test_runner(lower: Seq<char>) -> bool {
    ||| contains(lower, "pytest"@)
    ||| contains(lower, "jest"@)
    ||| contains(lower, "vitest"@)
    ||| contains(lower, "go test"@)
    ||| contains(lower, "rspec"@)
    ||| contains(lower, "mocha"@)
}

/// Whether a lowercase command line names a test runner.
pub fn mentions_test_runner(lower: &str) -> (r: bool)
    ensures
        r == names_test_runner(lower@),
{
    has(lower, "pytest") || has(lower, "jest") || has(lower, "vitest") || has(lower, "go test")
        || has(lower, "rspec") || has(lower, "mocha")
}

/// The command looks like it runs a test suite.
pub open spec fn runs_tests(subcommand: Option<Seq<char>>, command: Seq<char>) -> bool {
    subcommand == Some("test"@) || names_test_runner(lowercase(command))
}

/// Heuristic: does this command look like it's running a test suite?
pub fn is_test_command(entities: &CommandEntities, command: &str) -> (r: bool)
    ensures
        r == runs_tests(opt_view(entities.subcommand), command@),
{
    if let Some(sub) = &entities.subcommand {
        if same(sub.as_str(), "test") {
            return true;
        }
    }
    let lower = text::to_lowercase(command);
    mentions_test_runner(lower.as_str())
}

/// The command looks like a `git commit`.
pub open spec fn commits(e: CommandEntitiesView) -> bool {
    e.tool == Some("git"@) && e.subcommand == Some("commit"@)
}

/// Heuristic: does this command look like a `git commit`?
pub fn is_git_commit(entities: &CommandEntities) -> (r: bool)
    ensures
        r == commits(entities@),
{
    match (&entities.tool, &entities.subcommand) {
        (Some(tool), Some(sub)) => same(tool.as_str(), "git") && same(sub.as_str(), "commit"),
        _ => false,
    }
}

// ---------------------------------------------------------------------
// URLs
// ---------------------------------------------------------------------

/// What stands behind the last `c` of `s.take(to)`; all of it if there is
/// none.
pub open spec fn after_last(s: Seq<char>, c: char, to: int) -> int
    decreases to,
{
    if to <= 0 {
        0
    } else if s[to - 1] == c {
        to
    } else {
        after_last(s, c, to - 1)
    }
}

/// The host of a URL: behind the scheme, up to the path, query or fragment,
/// without user information and port.
pub open spec fn url_host(url: Seq<char>) -> Seq<char> {
    let cut = pieces(url, "://"@);
    let rest = if cut.len() > 1 {
        cut[1]
    } else {
        url
    };
    let authority = rest.take(stop_from(rest, seq!['/', '?', '#'], 0));
    let host = authority.skip(after_last(authority, '@', authority.len() as int));
    host.take(stop_from(host, seq![':'], 0))
}

/// The domain of a URL, unless its host is empty.
pub open spec fn url_domain(url: Seq<char>) -> Option<Seq<char>> {
    if url_host(url).len() > 0 {
        Some(url_host(url))
    } else {
        None
    }
}

/// Extracts a domain from a URL string, e.g. "https://docs.rs/foo" -> "docs.rs".
pub fn extract_domain(url: &str) -> (r: Option<String>)
    ensures
        opt_view(r) == url_domain(url@),
{
    proof {
        reveal_strlit("://");
    }
    let cut = split_on(url, "://");
    assert(views(cut@).len() == cut@.len());
    let rest = if cut.len() > 1 {
        assert(views(cut@)[1] == cut@[1]@);
        chars_of(cut[1].as_str())
    } else {
        chars_of(url)
    };
    let stops: [char; 3] = ['/', '?', '#'];
    assert(stops@ =~= seq!['/', '?', '#']);
    let end = find_stop(&rest, &stops, 0);
    let authority = vstd::slice::slice_subrange(&rest, 0, end);
    assert(authority@ =~= rest@.take(end as int));
    let mut start = authority.len();
    while start > 0 && authority[start - 1] != '@'
        invariant
            start <= authority@.len(),
            after_last(authority@, '@', start as int) == after_last(
                authority@,
                '@',
                authority@.len() as int,
            ),
        decreases start,
    {
        start = start - 1;
    }
    let host = vstd::slice::slice_subrange(authority, start, authority.len());
    assert(host@ =~= authority@.skip(start as int));
    let colon: [char; 1] = [':'];
    assert(colon@ =~= seq![':']);
    let port = find_stop(host, &colon, 0);
    let r = text_between(host, 0, port);
    assert(r@ =~= host@.take(port as int));
    if r.as_str().is_empty() {
        None
    } else {
        Some(r)
    }
}

} // verus!
