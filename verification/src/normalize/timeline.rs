//! What each raw event leaves in the timeline, in terms of what it says and
//! of what came before it.

use super::entities::{
    command_subcommand, command_tool, first_argument, runs_tests, skip_assignments,
    ProjectContextView,
};
use super::pipeline::{
    browser_step, command_emitted, exit_code_of, pipeline_step, terminal_step, window_step, Step,
};
use super::session::NormalizerView;
use super::{EntitiesView, NormalizedEventView};
use crate::immediate::moments::{holds, lemma_holds};
use crate::json::Json;
use crate::number::{decimal, signed_decimal};
use crate::text::{lowercase, words};
use vstd::prelude::*;

verus! {

// ---------------------------------------------------------------------
// Commands
// ---------------------------------------------------------------------

/// A word such as `FOO=bar`.
pub open spec fn sets_a_variable(word: Seq<char>) -> bool {
    &&& exists|i: int| 0 <= i < word.len() && word[i] == '='
    &&& word[0] != '-'
}

/// The word at `k` is the first one that sets no variable.
pub open spec fn tool_at(ws: Seq<Seq<char>>, k: int) -> bool {
    &&& 0 <= k < ws.len()
    &&& !sets_a_variable(ws[k])
    &&& forall|i: int| 0 <= i < k ==> sets_a_variable(#[trigger] ws[i])
}

/// The word does not begin with a hyphen.
pub open spec fn plain(word: Seq<char>) -> bool {
    word.len() == 0 || word[0] != '-'
}

/// The word at `j` is the first one behind the tool at `k` that is plain.
pub open spec fn argument_at(ws: Seq<Seq<char>>, k: int, j: int) -> bool {
    &&& k < j < ws.len()
    &&& plain(ws[j])
    &&& forall|i: int| k < i < j ==> !plain(#[trigger] ws[i])
}

proof fn lemma_assignment(word: Seq<char>)
    ensures
        super::entities::assignment(word) == sets_a_variable(word),
{
    if sets_a_variable(word) {
        let i = choose|i: int| 0 <= i < word.len() && word[i] == '=';
        assert(word.contains('='));
    }
    if word.contains('=') {
        let i = word.index_of('=');
        assert(word[i] == '=');
    }
}

proof fn lemma_skip(ws: Seq<Seq<char>>, k: int, from: int)
    requires
        tool_at(ws, k),
        0 <= from <= k,
    ensures
        skip_assignments(ws, from) == k,
    decreases k - from,
{
    lemma_assignment(ws[from]);
    if from < k {
        assert(sets_a_variable(ws[from]));
        lemma_skip(ws, k, from + 1);
    }
}

proof fn lemma_skip_all(ws: Seq<Seq<char>>, from: int)
    requires
        0 <= from <= ws.len(),
        forall|i: int| from <= i < ws.len() ==> sets_a_variable(#[trigger] ws[i]),
    ensures
        skip_assignments(ws, from) == ws.len(),
    decreases ws.len() - from,
{
    if from < ws.len() {
        lemma_assignment(ws[from]);
        assert(sets_a_variable(ws[from]));
        lemma_skip_all(ws, from + 1);
    }
}

proof fn lemma_argument(ws: Seq<Seq<char>>, j: int, from: int)
    requires
        0 <= from <= j < ws.len(),
        plain(ws[j]),
        forall|i: int| from <= i < j ==> !plain(#[trigger] ws[i]),
    ensures
        first_argument(ws, from) == Some(ws[j]),
    decreases j - from,
{
    if from < j {
        assert(!plain(ws[from]));
        lemma_argument(ws, j, from + 1);
    }
}

proof fn lemma_no_argument(ws: Seq<Seq<char>>, from: int)
    requires
        0 <= from <= ws.len(),
        forall|i: int| from <= i < ws.len() ==> !plain(#[trigger] ws[i]),
    ensures
        first_argument(ws, from) is None,
    decreases ws.len() - from,
{
    if from < ws.len() {
        assert(!plain(ws[from]));
        lemma_no_argument(ws, from + 1);
    }
}

/// The tool of a command is its first word that sets no variable; a command
/// of which all words do has none.
pub proof fn law_the_tool_is_the_first_word(command: Seq<char>, k: int)
    ensures
        tool_at(words(command), k) ==> command_tool(command) == Some(words(command)[k]),
        (forall|i: int|
            0 <= i < words(command).len() ==> sets_a_variable(#[trigger] words(command)[i]))
            <==> command_tool(command) is None,
{
    let ws = words(command);
    if tool_at(ws, k) {
        lemma_skip(ws, k, 0);
    }
    if forall|i: int| 0 <= i < ws.len() ==> sets_a_variable(#[trigger] ws[i]) {
        lemma_skip_all(ws, 0);
    } else {
        let i = choose|i: int| 0 <= i < ws.len() && !sets_a_variable(#[trigger] ws[i]);
        let f = lemma_first_tool(ws, i);
        lemma_skip(ws, f, 0);
    }
}

proof fn lemma_first_tool(ws: Seq<Seq<char>>, i: int) -> (k: int)
    requires
        0 <= i < ws.len(),
        !sets_a_variable(ws[i]),
    ensures
        tool_at(ws, k),
    decreases i,
{
    if exists|j: int| 0 <= j < i && !sets_a_variable(#[trigger] ws[j]) {
        let j = choose|j: int| 0 <= j < i && !sets_a_variable(#[trigger] ws[j]);
        let k = lemma_first_tool(ws, j);
        k
    } else {
        i
    }
}

/// These tools take a subcommand.
pub open spec fn has_subcommands(tool: Seq<char>) -> bool {
    tool == "git"@ || tool == "npm"@ || tool == "yarn"@ || tool == "pnpm"@ || tool == "cargo"@
        || tool == "docker"@ || tool == "docker-compose"@ || tool == "kubectl"@ || tool == "go"@
        || tool == "python"@ || tool == "python3"@ || tool == "pip"@ || tool == "pip3"@ || tool
        == "make"@ || tool == "systemctl"@
}

/// The subcommand of a tool that takes one is the first plain word behind it;
/// without such a word, and for any other tool, there is none.
pub proof fn law_the_subcommand_is_the_first_argument(command: Seq<char>, k: int, j: int)
    requires
        tool_at(words(command), k),
    ensures
        has_subcommands(words(command)[k]) && argument_at(words(command), k, j)
            ==> command_subcommand(command) == Some(words(command)[j]),
        has_subcommands(words(command)[k]) && (forall|i: int|
            k < i < words(command).len() ==> !plain(#[trigger] words(command)[i]))
            ==> command_subcommand(command) is None,
        !has_subcommands(words(command)[k]) ==> command_subcommand(command) is None,
{
    let ws = words(command);
    lemma_skip(ws, k, 0);
    if argument_at(ws, k, j) {
        lemma_argument(ws, j, k + 1);
    }
    if forall|i: int| k < i < ws.len() ==> !plain(#[trigger] ws[i]) {
        lemma_no_argument(ws, k + 1);
    }
}

/// The command is a `git commit`: behind its variables stands `git`, and
/// behind that `commit`, with nothing but flags between the two.
pub open spec fn is_commit_command(command: Seq<char>) -> bool {
    let ws = words(command);
    exists|k: int, j: int|
        #![trigger ws[k], ws[j]]
        tool_at(ws, k) && ws[k] == "git"@ && argument_at(ws, k, j) && ws[j] == "commit"@
}

proof fn lemma_commit(command: Seq<char>)
    ensures
        is_commit_command(command) <==> command_tool(command) == Some("git"@)
            && command_subcommand(command) == Some("commit"@),
{
    let ws = words(command);
    if is_commit_command(command) {
        let (k, j) = choose|k: int, j: int|
            #![trigger ws[k], ws[j]]
            tool_at(ws, k) && ws[k] == "git"@ && argument_at(ws, k, j) && ws[j] == "commit"@;
        law_the_tool_is_the_first_word(command, k);
        law_the_subcommand_is_the_first_argument(command, k, j);
    }
    if command_tool(command) == Some("git"@) && command_subcommand(command) == Some("commit"@) {
        law_the_tool_is_the_first_word(command, 0);
        let i = choose|i: int| 0 <= i < ws.len() && !sets_a_variable(#[trigger] ws[i]);
        let k = lemma_first_tool(ws, i);
        law_the_tool_is_the_first_word(command, k);
        law_the_subcommand_is_the_first_argument(command, k, k + 1);
        assert(ws[k] == "git"@);
        if forall|i: int| k < i < ws.len() ==> !plain(#[trigger] ws[i]) {
            assert(false);
        }
        let p = choose|i: int| k < i < ws.len() && plain(#[trigger] ws[i]);
        let j = lemma_first_plain(ws, k, p);
        law_the_subcommand_is_the_first_argument(command, k, j);
        assert(ws[j] == "commit"@);
    }
}

proof fn lemma_first_plain(ws: Seq<Seq<char>>, k: int, i: int) -> (j: int)
    requires
        0 <= k < i < ws.len(),
        plain(ws[i]),
    ensures
        argument_at(ws, k, j),
    decreases i,
{
    if exists|j: int| k < j < i && plain(#[trigger] ws[j]) {
        let j = choose|j: int| k < j < i && plain(#[trigger] ws[j]);
        let r = lemma_first_plain(ws, k, j);
        r
    } else {
        i
    }
}

/// The command runs tests: its subcommand is `test`, or it names a test
/// runner, whatever its capitals.
pub open spec fn is_test_run(command: Seq<char>) -> bool {
    let lower = lowercase(command);
    ||| command_subcommand(command) == Some("test"@)
    ||| holds(lower, "pytest"@)
    ||| holds(lower, "jest"@)
    ||| holds(lower, "vitest"@)
    ||| holds(lower, "go test"@)
    ||| holds(lower, "rspec"@)
    ||| holds(lower, "mocha"@)
}

proof fn lemma_test_run(command: Seq<char>)
    ensures
        is_test_run(command) == runs_tests(command_subcommand(command), command),
{
    let lower = lowercase(command);
    lemma_holds(lower, "pytest"@);
    lemma_holds(lower, "jest"@);
    lemma_holds(lower, "vitest"@);
    lemma_holds(lower, "go test"@);
    lemma_holds(lower, "rspec"@);
    lemma_holds(lower, "mocha"@);
}

// ---------------------------------------------------------------------
// Raw events and session boundaries
// ---------------------------------------------------------------------

/// The raw event is `{variant: inner}`, where `inner` is an object.
pub open spec fn is_raw(raw: &Json, variant: Seq<char>, inner: &Json) -> bool {
    &&& *inner is Object
    &&& *raw matches Json::Object(members) && members@.len() == 1 && members@[0].0@ == variant
        && members@[0].1 == *inner
}

/// The time of a raw event.
pub open spec fn raw_time(inner: &Json) -> u64 {
    match inner.natural_at("timestamp"@) {
        Some(ts) => ts,
        None => 0,
    }
}

/// One of the events says that a session begins for the given reason.
pub open spec fn opened(out: Seq<NormalizedEventView>, reason: Seq<char>) -> bool {
    exists|i: int|
        0 <= i < out.len() && (#[trigger] out[i]).source == "session"@
            && out[i].entities.category == Some(reason)
}

proof fn lemma_opened(out: Seq<NormalizedEventView>, e: NormalizedEventView, reason: Seq<char>)
    ensures
        opened(out.push(e), reason) <==> opened(out, reason) || e.source == "session"@
            && e.entities.category == Some(reason),
{
    let more = out.push(e);
    if opened(out, reason) {
        let i = choose|i: int|
            0 <= i < out.len() && (#[trigger] out[i]).source == "session"@
                && out[i].entities.category == Some(reason);
        assert(more[i] == out[i]);
    }
    if e.source == "session"@ && e.entities.category == Some(reason) {
        assert(more[out.len() as int] == e);
    }
    if opened(more, reason) {
        let i = choose|i: int|
            0 <= i < more.len() && (#[trigger] more[i]).source == "session"@
                && more[i].entities.category == Some(reason);
        if i < out.len() {
            assert(out[i] == more[i]);
        }
    }
}

proof fn lemma_reasons_differ()
    ensures
        "inactivity_gap"@ != "project_switch"@,
        "inactivity_gap"@ != "git_commit"@,
        "inactivity_gap"@ != "off_task_drift"@,
        "project_switch"@ != "git_commit"@,
        "project_switch"@ != "off_task_drift"@,
        "git_commit"@ != "off_task_drift"@,
        "window"@ != "session"@,
        "terminal"@ != "session"@,
        "browser"@ != "session"@,
        "clipboard"@ != "session"@,
        "filesystem"@ != "session"@,
        "process"@ != "session"@,
        "calendar"@ != "session"@,
        "Window"@ != "Terminal"@,
        "Window"@ != "Browser"@,
        "Terminal"@ != "Browser"@,
        "Clipboard"@ != "Window"@,
        "Clipboard"@ != "Terminal"@,
        "Clipboard"@ != "Browser"@,
        "FileChange"@ != "Window"@,
        "FileChange"@ != "Terminal"@,
        "FileChange"@ != "Browser"@,
        "FileChange"@ != "Clipboard"@,
        "ProcessActivity"@ != "Window"@,
        "ProcessActivity"@ != "Terminal"@,
        "ProcessActivity"@ != "Browser"@,
        "ProcessActivity"@ != "Clipboard"@,
        "ProcessActivity"@ != "FileChange"@,
        "Calendar"@ != "Window"@,
        "Calendar"@ != "Terminal"@,
        "Calendar"@ != "Browser"@,
        "Calendar"@ != "Clipboard"@,
        "Calendar"@ != "FileChange"@,
        "Calendar"@ != "ProcessActivity"@,
{
    reveal_strlit("inactivity_gap");
    reveal_strlit("project_switch");
    reveal_strlit("git_commit");
    reveal_strlit("off_task_drift");
    reveal_strlit("session");
    reveal_strlit("window");
    reveal_strlit("terminal");
    reveal_strlit("browser");
    reveal_strlit("clipboard");
    reveal_strlit("filesystem");
    reveal_strlit("process");
    reveal_strlit("calendar");
    reveal_strlit("Window");
    reveal_strlit("Terminal");
    reveal_strlit("Browser");
    reveal_strlit("Clipboard");
    reveal_strlit("FileChange");
    reveal_strlit("ProcessActivity");
    reveal_strlit("Calendar");
    assert("inactivity_gap"@[0] == 'i');
    assert("project_switch"@[0] == 'p');
    assert("git_commit"@[0] == 'g');
    assert("off_task_drift"@[0] == 'o');
    assert("session"@[0] == 's');
    assert("browser"@[0] == 'b');
    assert("process"@[0] == 'p');
    assert("Window"@[0] == 'W');
    assert("Terminal"@[0] == 'T');
    assert("Browser"@[0] == 'B');
    assert("Clipboard"@[0] == 'C');
    assert("FileChange"@[0] == 'F');
    assert("ProcessActivity"@[0] == 'P');
    assert("Calendar"@.len() == 8 && "Clipboard"@.len() == 9);
}

/// More than five minutes lie between the last activity and `ts`.
pub open spec fn long_pause(state: NormalizerView, ts: u64) -> bool {
    state.last_activity is Some && ts > state.last_activity->0 + 300
}

/// One or none.
pub open spec fn one_if(b: bool) -> nat {
    if b {
        1
    } else {
        0
    }
}

/// The later one of the last activity and `ts`.
pub open spec fn latest_activity(state: NormalizerView, ts: u64) -> Option<u64> {
    if state.last_activity is Some && state.last_activity->0 > ts {
        state.last_activity
    } else {
        Some(ts)
    }
}

/// A project other than the current one is named.
pub open spec fn changes_project(state: NormalizerView, project: Option<Seq<char>>) -> bool {
    project is Some && state.project is Some && state.project != project
}

/// The command repeats the last one, in the same directory and no more than
/// five seconds later.
pub open spec fn is_rerun(
    state: NormalizerView,
    command: Seq<char>,
    cwd: Option<Seq<char>>,
    ts: u64,
) -> bool {
    state.last_command matches Some(last) && last.0 == command && last.1 == cwd && ts <= last.2 + 5
}

/// The exit code that a terminal event gives, as a 32-bit number.
pub open spec fn code_in(inner: &Json) -> Option<i32> {
    match inner.integer_at("exit_code"@) {
        Some(code) => Some(code as i32),
        None => None,
    }
}

/// The exit code is zero or missing.
pub open spec fn went_well(code: Option<i32>) -> bool {
    code is None || code == Some(0i32)
}

/// A finished command that is no quick repetition of the one before gives an
/// event of its own. A session begins after a long pause, with a command in
/// another project, and after a successful `git commit`: one that finished, was
/// not suppressed as a repetition, and whose exit code is zero or missing.
pub proof fn law_what_a_command_opens(
    state: NormalizerView,
    raw: &Json,
    inner: &Json,
    context: ProjectContextView,
)
    requires
        is_raw(raw, "Terminal"@, inner),
    ensures
        ({
            let r = pipeline_step(state, raw, context);
            let ts = raw_time(inner);
            let command = inner.text_at("command"@).unwrap_or(""@);
            let cwd = inner.text_at("cwd"@);
            let project = if cwd is Some {
                context.project
            } else {
                None
            };
            let reported = inner.text_at("phase"@) != Some("start"@) && !is_rerun(
                state,
                command,
                cwd,
                ts,
            );
            let gap = long_pause(state, ts);
            let switch = reported && changes_project(state, project);
            let commit = reported && is_commit_command(command) && went_well(code_in(inner));
            &&& opened(r.out, "inactivity_gap"@) <==> gap
            &&& opened(r.out, "project_switch"@) <==> switch
            &&& opened(r.out, "git_commit"@) <==> commit
            &&& !opened(r.out, "off_task_drift"@)
            &&& r.state.session_id == state.session_id + one_if(gap) + one_if(switch) + one_if(
                commit,
            )
            &&& r.out.len() == one_if(gap) + one_if(switch) + one_if(commit) + one_if(reported)
        }),
{
    lemma_reasons_differ();
    let s = Step::start(state);
    let ts = raw_time(inner);
    let command = inner.text_at("command"@).unwrap_or(""@);
    let cwd = inner.text_at("cwd"@);
    lemma_commit(command);
    let r = pipeline_step(state, raw, context);
    assert(r == terminal_step(s, inner, ts, context));
    lemma_opened_all(s.out, state.activity(ts).1);
    let active = s.noted(state.activity(ts));
    let on_task = Step { state: active.state.on_task(), ..active };
    let ran = Step { state: on_task.state.ran(command, cwd, ts), ..on_task };
    assert(on_task.state.repeats(command, cwd, ts) == is_rerun(state, command, cwd, ts));
    if inner.text_at("phase"@) != Some("start"@) && !is_rerun(state, command, cwd, ts) {
        let e = super::entities::command_entities(
            command,
            super::pipeline::context_at(inner, context),
        );
        let known = ran.in_project(e.project, ts);
        if e.project is Some {
            lemma_opened_all(ran.out, ran.state.in_project(e.project->0, ts).1);
        }
        let failed_test = runs_tests(e.subcommand, command) && (exit_code_of(inner) matches Some(c)
            && c != 0);
        let tested = if failed_test {
            Step { state: known.state.test_failed(ts), ..known }
        } else {
            known
        };
        let emitted = command_emitted(tested, ts, command, exit_code_of(inner), e);
        lemma_opened_all(tested.out, Some(emitted.out.last()));
        assert(emitted.out =~= tested.out.push(emitted.out.last()));
        lemma_opened_all(emitted.out, Some(emitted.state.commit(ts).1));
    }
}

/// What one more event opens.
proof fn lemma_opened_all(out: Seq<NormalizedEventView>, e: Option<NormalizedEventView>)
    ensures
        e matches Some(e) ==> forall|reason: Seq<char>| #[trigger]
            opened(out.push(e), reason) <==> opened(out, reason) || e.source == "session"@
                && e.entities.category == Some(reason),
        out.len() == 0 ==> forall|reason: Seq<char>| !#[trigger] opened(out, reason),
{
    if e is Some {
        assert forall|reason: Seq<char>| #[trigger] opened(out.push(e->0), reason) <==> opened(
            out,
            reason,
        ) || (e->0).source == "session"@ && (e->0).entities.category == Some(reason) by {
            lemma_opened(out, e->0, reason);
        }
    }
}

/// What a terminal event leaves behind: it counts as activity and ends an
/// off-task run; but for the report of a start, it is the last command; if it
/// is reported, it makes its project the current one, and a failed test run
/// is remembered.
pub proof fn law_what_a_command_leaves(
    state: NormalizerView,
    raw: &Json,
    inner: &Json,
    context: ProjectContextView,
)
    requires
        is_raw(raw, "Terminal"@, inner),
    ensures
        ({
            let r = pipeline_step(state, raw, context).state;
            let ts = raw_time(inner);
            let command = inner.text_at("command"@).unwrap_or(""@);
            let cwd = inner.text_at("cwd"@);
            let started = inner.text_at("phase"@) == Some("start"@);
            let reported = !started && !is_rerun(state, command, cwd, ts);
            let failed = code_in(inner) is Some && code_in(inner) != Some(0i32);
            &&& r.last_activity == latest_activity(state, ts)
            &&& r.off_task_since is None
            &&& !r.drift_fired
            &&& r.last_command == if started {
                state.last_command
            } else {
                Some((command, cwd, ts))
            }
            &&& r.last_test_failure == if reported && failed && is_test_run(command) {
                Some(ts)
            } else {
                state.last_test_failure
            }
            &&& r.project == if reported && cwd is Some && context.project is Some {
                context.project
            } else {
                state.project
            }
        }),
{
    lemma_reasons_differ();
    lemma_test_run(inner.text_at("command"@).unwrap_or(""@));
}

/// The event of a command: it bears the command's tool, subcommand and exit
/// code and the project and branch of its directory, and its words are the
/// command and its exit code.
pub proof fn law_what_a_command_says(
    state: NormalizerView,
    raw: &Json,
    inner: &Json,
    context: ProjectContextView,
    i: int,
)
    requires
        is_raw(raw, "Terminal"@, inner),
        0 <= i < pipeline_step(state, raw, context).out.len(),
        pipeline_step(state, raw, context).out[i].source != "session"@,
    ensures
        ({
            let e = pipeline_step(state, raw, context).out[i];
            let command = inner.text_at("command"@).unwrap_or(""@);
            let homeless = inner.text_at("cwd"@) is None;
            &&& e.source == "terminal"@
            &&& e.kind == "command"@
            &&& e.correlated_with.len() == 0
            &&& e.entities.tool == command_tool(command)
            &&& e.entities.subcommand == command_subcommand(command)
            &&& e.entities.exit_code == code_in(inner)
            &&& e.entities.project == if homeless {
                None
            } else {
                context.project
            }
            &&& e.entities.branch == if homeless {
                None
            } else {
                context.branch
            }
            &&& e.entities.app is None && e.entities.file is None && e.entities.domain is None
            &&& e.entities.category is None && e.entities.search_query is None
            &&& e.entities.duration_secs is None && e.entities.content_type is None
            &&& inner.integer_at("exit_code"@) is None ==> e.summary == "Ran `"@ + command + "`"@
            &&& inner.integer_at("exit_code"@) matches Some(code) ==> e.summary == "Ran `"@
                + command + "` (exit "@ + signed_decimal((code as i32) as int) + ")"@
        }),
{
    lemma_reasons_differ();
}

/// A name is that of an application that runs in the background.
pub open spec fn runs_in_background(application: Option<Seq<char>>) -> bool {
    application is Some && {
        let lower = lowercase(application->0);
        ||| holds(lower, "spotify"@)
        ||| holds(lower, "nm-applet"@)
        ||| holds(lower, "blueman-applet"@)
        ||| holds(lower, "xfce4-power-manager"@)
        ||| holds(lower, "indicator-application"@)
    }
}

proof fn lemma_background(application: Option<Seq<char>>)
    ensures
        runs_in_background(application) == super::session::in_background(application),
{
    if application is Some {
        let lower = lowercase(application->0);
        lemma_holds(lower, "spotify"@);
        lemma_holds(lower, "nm-applet"@);
        lemma_holds(lower, "blueman-applet"@);
        lemma_holds(lower, "xfce4-power-manager"@);
        lemma_holds(lower, "indicator-application"@);
    }
}

/// A window event gives an event of its own unless its application runs in
/// the background or it tells of a window that was left within a second. A
/// session begins after a long pause, and with such an event in another
/// project.
pub proof fn law_what_a_window_opens(
    state: NormalizerView,
    raw: &Json,
    inner: &Json,
    context: ProjectContextView,
    project: Option<Seq<char>>,
)
    requires
        is_raw(raw, "Window"@, inner),
        project == super::entities::window_entities(
            inner.text_at("application"@),
            inner.text_at("title"@),
            if inner.text_at("cwd"@) is Some {
                context
            } else {
                ProjectContextView { project: None, branch: None }
            },
        ).project,
    ensures
        ({
            let r = pipeline_step(state, raw, context);
            let ts = raw_time(inner);
            let left_at_once = inner.text_at("event_type"@) == Some("blur"@) && inner.natural_at(
                "duration_secs"@,
            ) == Some(0u64);
            let hidden = runs_in_background(inner.text_at("application"@));
            let reported = !hidden && !left_at_once;
            let gap = long_pause(state, ts);
            let switch = reported && changes_project(state, project);
            &&& opened(r.out, "inactivity_gap"@) <==> gap
            &&& opened(r.out, "project_switch"@) <==> switch
            &&& !opened(r.out, "git_commit"@)
            &&& !opened(r.out, "off_task_drift"@)
            &&& r.state.session_id == state.session_id + one_if(gap) + one_if(switch)
            &&& r.out.len() == one_if(gap) + one_if(switch) + one_if(reported)
            &&& r.state.last_activity == latest_activity(state, ts)
            &&& r.state.last_command == state.last_command
            &&& r.state.last_test_failure == state.last_test_failure
            &&& r.state.off_task_since == if hidden {
                state.off_task_since
            } else {
                None
            }
            &&& r.state.drift_fired == (hidden && state.drift_fired)
            &&& r.state.project == if reported && project is Some {
                project
            } else {
                state.project
            }
        }),
{
    lemma_reasons_differ();
    lemma_background(inner.text_at("application"@));
    reveal_strlit("blur");
    reveal_strlit("");
    assert(""@.len() != "blur"@.len());
    let s = Step::start(state);
    let ts = raw_time(inner);
    let r = pipeline_step(state, raw, context);
    assert(r == window_step(s, inner, ts, context));
    lemma_opened_all(s.out, state.activity(ts).1);
    let active = s.noted(state.activity(ts));
    let on_task = Step { state: active.state.on_task(), ..active };
    let known = on_task.in_project(project, ts);
    if project is Some {
        lemma_opened_all(on_task.out, on_task.state.in_project(project->0, ts).1);
    }
    lemma_opened_all(known.out, Some(r.out.last()));
    if r.out.len() > known.out.len() {
        assert(r.out =~= known.out.push(r.out.last()));
    }
}

/// The event of a window: it bears what the title and the directory say, and
/// its words are what happened and to which window.
pub proof fn law_what_a_window_says(
    state: NormalizerView,
    raw: &Json,
    inner: &Json,
    context: ProjectContextView,
    i: int,
    window: Seq<char>,
)
    requires
        is_raw(raw, "Window"@, inner),
        0 <= i < pipeline_step(state, raw, context).out.len(),
        pipeline_step(state, raw, context).out[i].source != "session"@,
    ensures
        ({
            let e = pipeline_step(state, raw, context).out[i];
            let kind = inner.text_at("event_type"@).unwrap_or(""@);
            let secs = inner.natural_at("duration_secs"@);
            let title = inner.text_at("title"@);
            let w = super::entities::window_entities(
                inner.text_at("application"@),
                title,
                if inner.text_at("cwd"@) is Some {
                    context
                } else {
                    ProjectContextView { project: None, branch: None }
                },
            );
            &&& e.source == "window"@
            &&& e.kind == kind
            &&& e.correlated_with.len() == 0
            &&& e.entities.app == w.app
            &&& e.entities.project == w.project
            &&& e.entities.branch == w.branch
            &&& e.entities.file == w.file
            &&& e.entities.duration_secs == secs
            &&& e.entities.domain is None && e.entities.category is None
            &&& e.entities.search_query is None && e.entities.tool is None
            &&& e.entities.subcommand is None && e.entities.exit_code is None
            &&& e.entities.content_type is None
            &&& is_window_in_words(w.app, w.file, w.project, title, window) ==> {
                &&& kind == "focus"@ ==> e.summary == "Focused "@ + window
                &&& kind == "launch"@ ==> e.summary == "Launched "@ + window
                &&& kind == "blur"@ ==> e.summary == "Left "@ + window + " after "@ + decimal(
                    secs.unwrap_or(0) as nat,
                ) + "s"@
                &&& kind != "focus"@ && kind != "launch"@ && kind != "blur"@ ==> e.summary == kind
                    + " "@ + window
            }
        }),
{
    lemma_reasons_differ();
    reveal_strlit("focus");
    reveal_strlit("launch");
    reveal_strlit("blur");
    assert("focus"@.len() == 5 && "launch"@.len() == 6 && "blur"@.len() == 4);
}

/// A window in words: the application, with the project behind it in
/// brackets, and the file before the project; without an application, or with
/// a file and no project, less than that is said.
pub open spec fn is_window_in_words(
    app: Option<Seq<char>>,
    file: Option<Seq<char>>,
    project: Option<Seq<char>>,
    title: Option<Seq<char>>,
    words: Seq<char>,
) -> bool {
    &&& app is Some && project is None ==> words == app->0
    &&& app is Some && project is Some && file is None ==> words == app->0 + " ("@ + project->0
        + ")"@
    &&& app is Some && project is Some && file is Some ==> words == app->0 + " ("@ + file->0
        + " in "@ + project->0 + ")"@
    &&& app is None && title is Some ==> words == title->0
    &&& app is None && title is None ==> words == "window"@
}

/// The category is one of those that lead away from work.
pub open spec fn leads_away(category: Option<Seq<char>>) -> bool {
    category == Some("entertainment"@) || category == Some("social"@)
}

/// A browser event always gives an event of its own. A session begins after a
/// long pause, and once in a run of browsing away from work that has lasted
/// three minutes; the current project is then forgotten.
pub proof fn law_what_browsing_opens(
    state: NormalizerView,
    raw: &Json,
    inner: &Json,
    context: ProjectContextView,
)
    requires
        is_raw(raw, "Browser"@, inner),
    ensures
        ({
            let r = pipeline_step(state, raw, context);
            let ts = raw_time(inner);
            let away = leads_away(inner.text_at("category"@));
            let gap = long_pause(state, ts);
            let drift = away && !state.drift_fired && state.off_task_since is Some && ts
                >= state.off_task_since->0 + 180;
            &&& opened(r.out, "inactivity_gap"@) <==> gap
            &&& opened(r.out, "off_task_drift"@) <==> drift
            &&& !opened(r.out, "project_switch"@)
            &&& !opened(r.out, "git_commit"@)
            &&& r.state.session_id == state.session_id + one_if(gap) + one_if(drift)
            &&& r.out.len() == one_if(gap) + one_if(drift) + 1
            &&& r.state.last_activity == latest_activity(state, ts)
            &&& r.state.last_command == state.last_command
            &&& r.state.off_task_since == if !away {
                None
            } else if state.off_task_since is Some {
                state.off_task_since
            } else {
                Some(ts)
            }
            &&& r.state.drift_fired == (away && (state.drift_fired || drift))
            &&& r.state.project == if drift {
                None
            } else {
                state.project
            }
        }),
{
    lemma_reasons_differ();
    let s = Step::start(state);
    let ts = raw_time(inner);
    let r = pipeline_step(state, raw, context);
    assert(r == browser_step(s, inner, ts));
    lemma_opened_all(s.out, state.activity(ts).1);
    let active = s.noted(state.activity(ts));
    let category = inner.text_at("category"@);
    lemma_opened_all(active.out, active.state.browsing(category, ts).1);
    let browsed = active.noted(active.state.browsing(category, ts));
    lemma_opened_all(browsed.out, Some(r.out.last()));
    assert(r.out =~= browsed.out.push(r.out.last()));
}

/// The event of a navigation: it bears the domain of the address, or else the
/// site, with the category, the search and the current project, and is tagged
/// when a test failed in the two minutes before it, which is then used up.
pub proof fn law_what_browsing_says(
    state: NormalizerView,
    raw: &Json,
    inner: &Json,
    context: ProjectContextView,
)
    requires
        is_raw(raw, "Browser"@, inner),
    ensures
        ({
            let r = pipeline_step(state, raw, context);
            let ts = raw_time(inner);
            let e = r.out.last();
            let url = inner.text_at("url"@);
            let query = inner.text_at("search_query"@);
            let title = inner.text_at("title"@);
            let failure = state.last_test_failure;
            let recent = failure is Some && failure->0 <= ts <= failure->0 + 120;
            let domain = e.entities.domain;
            &&& e.source == "browser"@
            &&& e.kind == "navigation"@
            &&& e.entities.category == inner.text_at("category"@)
            &&& e.entities.search_query == query
            &&& e.entities.project == r.state.project
            &&& url is Some && super::entities::url_domain(url->0) is Some ==> domain
                == super::entities::url_domain(url->0)
            &&& url is None || super::entities::url_domain(url->0) is None ==> domain
                == inner.text_at("site"@)
            &&& e.entities.app is None && e.entities.branch is None && e.entities.file is None
            &&& e.entities.tool is None && e.entities.subcommand is None
            &&& e.entities.exit_code is None && e.entities.duration_secs is None
            &&& e.entities.content_type is None
            &&& recent ==> e.correlated_with == seq!["recent_test_failure"@]
            &&& !recent ==> e.correlated_with.len() == 0
            &&& r.state.last_test_failure == if recent {
                None
            } else {
                failure
            }
            &&& query is Some ==> e.summary == "Searched \""@ + query->0 + "\""@
            &&& query is None && domain is Some && title is Some ==> e.summary == "Visited "@
                + domain->0 + " ("@ + title->0 + ")"@
            &&& query is None && domain is Some && title is None ==> e.summary == "Visited "@
                + domain->0
            &&& query is None && domain is None ==> e.summary == "Browser navigation"@
        }),
{
    lemma_reasons_differ();
}

/// Copying and saving count as activity, end an off-task run and give one
/// event each; they open a session after a long pause only.
pub proof fn law_what_copying_and_saving_open(
    state: NormalizerView,
    raw: &Json,
    inner: &Json,
    context: ProjectContextView,
)
    requires
        is_raw(raw, "Clipboard"@, inner) || is_raw(raw, "FileChange"@, inner),
    ensures
        ({
            let r = pipeline_step(state, raw, context);
            let ts = raw_time(inner);
            let gap = long_pause(state, ts);
            &&& opened(r.out, "inactivity_gap"@) <==> gap
            &&& !opened(r.out, "project_switch"@)
            &&& !opened(r.out, "git_commit"@)
            &&& !opened(r.out, "off_task_drift"@)
            &&& r.out.len() == one_if(gap) + 1
            &&& r.state == NormalizerView {
                seq: state.seq + one_if(gap) + 1,
                session_id: state.session_id + one_if(gap),
                last_activity: latest_activity(state, ts),
                off_task_since: None,
                drift_fired: false,
                ..state
            }
        }),
{
    lemma_reasons_differ();
    let s = Step::start(state);
    let ts = raw_time(inner);
    let r = pipeline_step(state, raw, context);
    lemma_opened_all(s.out, state.activity(ts).1);
    let active = s.noted(state.activity(ts));
    lemma_opened_all(active.out, Some(r.out.last()));
    assert(r.out =~= active.out.push(r.out.last()));
}

/// The event of a copy says what was copied and how long it is, never what it
/// reads; it belongs to the current project.
pub proof fn law_what_copying_says(
    state: NormalizerView,
    raw: &Json,
    inner: &Json,
    context: ProjectContextView,
)
    requires
        is_raw(raw, "Clipboard"@, inner),
    ensures
        ({
            let e = pipeline_step(state, raw, context).out.last();
            let kind = inner.text_at("content_type"@).unwrap_or("plain_text"@);
            &&& e.source == "clipboard"@
            &&& e.kind == "clipboard"@
            &&& e.summary == "Copied "@ + kind + " ("@ + decimal(
                inner.natural_at("length"@).unwrap_or(0) as nat,
            ) + " chars)"@
            &&& e.entities.content_type == Some(kind)
            &&& e.entities.project == state.project
            &&& e.entities.app is None && e.entities.branch is None && e.entities.file is None
            &&& e.entities.domain is None && e.entities.category is None
            &&& e.entities.search_query is None && e.entities.tool is None
            &&& e.entities.subcommand is None && e.entities.exit_code is None
            &&& e.entities.duration_secs is None
            &&& e.correlated_with.len() == 0
        }),
{
    lemma_reasons_differ();
}

/// The event of a file change bears the path; it belongs to the project that
/// the change names, or else to the current one.
pub proof fn law_what_saving_says(
    state: NormalizerView,
    raw: &Json,
    inner: &Json,
    context: ProjectContextView,
)
    requires
        is_raw(raw, "FileChange"@, inner),
    ensures
        ({
            let e = pipeline_step(state, raw, context).out.last();
            let path = inner.text_at("path"@).unwrap_or(""@);
            let kind = inner.text_at("kind"@).unwrap_or("changed"@);
            let named = inner.text_at("project"@);
            &&& e.source == "filesystem"@
            &&& e.kind == "file_change"@
            &&& e.summary == "File "@ + kind + ": "@ + crate::path::name_of(path).unwrap_or(path)
            &&& e.entities.file == Some(path)
            &&& named is Some ==> e.entities.project == named
            &&& named is None ==> e.entities.project == state.project
            &&& e.entities.app is None && e.entities.branch is None && e.entities.domain is None
            &&& e.entities.category is None && e.entities.search_query is None
            &&& e.entities.tool is None && e.entities.subcommand is None
            &&& e.entities.exit_code is None && e.entities.duration_secs is None
            &&& e.entities.content_type is None
            &&& e.correlated_with.len() == 0
        }),
{
    lemma_reasons_differ();
}

/// Snapshots of ports and of the calendar are no activity: they give one
/// event and change nothing but its number.
pub proof fn law_snapshots_change_nothing(
    state: NormalizerView,
    raw: &Json,
    inner: &Json,
    context: ProjectContextView,
)
    requires
        is_raw(raw, "ProcessActivity"@, inner) || is_raw(raw, "Calendar"@, inner),
    ensures
        ({
            let r = pipeline_step(state, raw, context);
            &&& r.out.len() == 1
            &&& r.state == NormalizerView { seq: state.seq + 1, ..state }
            &&& r.out[0].source != "session"@
            &&& r.out[0].session_id == state.session_id
            &&& r.out[0].correlated_with.len() == 0
            &&& is_raw(raw, "Calendar"@, inner) ==> r.out[0].source == "calendar"@ && r.out[0].kind
                == "calendar"@ && r.out[0].entities == EntitiesView::none()
            &&& is_raw(raw, "ProcessActivity"@, inner) ==> r.out[0].source == "process"@
                && r.out[0].kind == "process_activity"@ && r.out[0].entities == EntitiesView {
                project: state.project,
                ..EntitiesView::none()
            }
        }),
{
    lemma_reasons_differ();
}

/// A calendar snapshot tells of the meeting in progress, or else of the next
/// one, or that there is none; a null is no meeting.
pub proof fn law_what_the_calendar_says(
    state: NormalizerView,
    raw: &Json,
    inner: &Json,
    context: ProjectContextView,
)
    requires
        is_raw(raw, "Calendar"@, inner),
    ensures
        ({
            let words = pipeline_step(state, raw, context).out[0].summary;
            let current = inner.field("current_event"@);
            let next = inner.field("next_event"@);
            let busy = current is Some && !(*current->0 is Null);
            let soon = next is Some && !(*next->0 is Null);
            &&& busy ==> words == "In progress: "@ + (current->0).text_at("summary"@).unwrap_or(
                "event"@,
            )
            &&& !busy && soon ==> words == "Next up: "@ + (next->0).text_at("summary"@).unwrap_or(
                "event"@,
            )
            &&& !busy && !soon ==> words == "No upcoming events"@
        }),
{
    lemma_reasons_differ();
}

/// The event is a boundary that says why its session began, and nothing else:
/// how many minutes the pause was, from which project to which, that changes
/// were committed, or that the browsing led away.
pub open spec fn tells_why(
    before: NormalizerView,
    ts: u64,
    after: NormalizerView,
    e: NormalizedEventView,
) -> bool {
    let why = e.entities.category;
    let pause = ts - before.last_activity->0;
    &&& e.kind == "session_boundary"@
    &&& e.timestamp == ts
    &&& e.correlated_with.len() == 0
    &&& why == Some("inactivity_gap"@) || why == Some("project_switch"@) || why == Some(
        "git_commit"@,
    ) || why == Some("off_task_drift"@)
    &&& why == Some("inactivity_gap"@) ==> e.summary == "Inactive for "@ + decimal(
        (pause / 60) as nat,
    ) + " min"@
    &&& why == Some("project_switch"@) ==> after.project is Some && e.summary
        == "Switched project: "@ + before.project->0 + " -> "@ + after.project->0
    &&& why == Some("git_commit"@) ==> e.summary == "Committed changes"@
    &&& why == Some("off_task_drift"@) ==> e.summary == "Drifted to unrelated browsing"@
    &&& e.entities.app is None && e.entities.project is None && e.entities.branch is None
    &&& e.entities.file is None && e.entities.domain is None
    &&& e.entities.search_query is None && e.entities.tool is None
    &&& e.entities.subcommand is None && e.entities.exit_code is None
    &&& e.entities.duration_secs is None && e.entities.content_type is None
}

/// The boundaries among the events.
spec fn all_tell_why(
    before: NormalizerView,
    ts: u64,
    after: NormalizerView,
    out: Seq<NormalizedEventView>,
) -> bool {
    forall|i: int|
        0 <= i < out.len() && (#[trigger] out[i]).source == "session"@ ==> tells_why(
            before,
            ts,
            after,
            out[i],
        )
}

proof fn lemma_all_tell(
    before: NormalizerView,
    ts: u64,
    after: NormalizerView,
    out: Seq<NormalizedEventView>,
    e: NormalizedEventView,
)
    requires
        all_tell_why(before, ts, after, out),
        e.source == "session"@ ==> tells_why(before, ts, after, e),
    ensures
        all_tell_why(before, ts, after, out.push(e)),
{
}

proof fn lemma_window_tells(
    state: NormalizerView,
    inner: &Json,
    ts: u64,
    context: ProjectContextView,
)
    ensures
        ({
            let r = window_step(Step::start(state), inner, ts, context);
            all_tell_why(state, ts, r.state, r.out)
        }),
{
    lemma_reasons_differ();
    let s = Step::start(state);
    let r = window_step(s, inner, ts, context);
    let active = s.noted(state.activity(ts));
    assert(all_tell_why(state, ts, r.state, s.out));
    if state.activity(ts).1 is Some {
        lemma_all_tell(state, ts, r.state, s.out, state.activity(ts).1->0);
    }
    let on_task = Step { state: active.state.on_task(), ..active };
    let w = super::entities::window_entities(
        inner.text_at("application"@),
        inner.text_at("title"@),
        super::pipeline::context_at(inner, context),
    );
    let known = on_task.in_project(w.project, ts);
    if r.out.len() > active.out.len() {
        if w.project is Some && on_task.state.in_project(w.project->0, ts).1 is Some {
            lemma_all_tell(
                state,
                ts,
                r.state,
                on_task.out,
                on_task.state.in_project(w.project->0, ts).1->0,
            );
        }
        lemma_all_tell(state, ts, r.state, known.out, r.out.last());
    }
}

proof fn lemma_terminal_tells(
    state: NormalizerView,
    inner: &Json,
    ts: u64,
    context: ProjectContextView,
)
    ensures
        ({
            let r = terminal_step(Step::start(state), inner, ts, context);
            all_tell_why(state, ts, r.state, r.out)
        }),
{
    lemma_reasons_differ();
    let s = Step::start(state);
    let r = terminal_step(s, inner, ts, context);
    let command = inner.text_at("command"@).unwrap_or(""@);
    let cwd = inner.text_at("cwd"@);
    let active = s.noted(state.activity(ts));
    assert(all_tell_why(state, ts, r.state, s.out));
    if state.activity(ts).1 is Some {
        lemma_all_tell(state, ts, r.state, s.out, state.activity(ts).1->0);
    }
    let on_task = Step { state: active.state.on_task(), ..active };
    let ran = Step { state: on_task.state.ran(command, cwd, ts), ..on_task };
    if r.out.len() > active.out.len() {
        let e = super::entities::command_entities(
            command,
            super::pipeline::context_at(inner, context),
        );
        let known = ran.in_project(e.project, ts);
        if e.project is Some && ran.state.in_project(e.project->0, ts).1 is Some {
            lemma_all_tell(
                state,
                ts,
                r.state,
                ran.out,
                ran.state.in_project(e.project->0, ts).1->0,
            );
        }
        let failed_test = runs_tests(e.subcommand, command) && (exit_code_of(inner) matches Some(c)
            && c != 0);
        let tested = if failed_test {
            Step { state: known.state.test_failed(ts), ..known }
        } else {
            known
        };
        let emitted = command_emitted(tested, ts, command, exit_code_of(inner), e);
        lemma_all_tell(state, ts, r.state, known.out, emitted.out.last());
        if r.out.len() > emitted.out.len() {
            lemma_all_tell(state, ts, r.state, emitted.out, emitted.state.commit(ts).1);
        }
    }
}

proof fn lemma_browser_tells(state: NormalizerView, inner: &Json, ts: u64)
    ensures
        ({
            let r = browser_step(Step::start(state), inner, ts);
            all_tell_why(state, ts, r.state, r.out)
        }),
{
    lemma_reasons_differ();
    let s = Step::start(state);
    let r = browser_step(s, inner, ts);
    let active = s.noted(state.activity(ts));
    assert(all_tell_why(state, ts, r.state, s.out));
    if state.activity(ts).1 is Some {
        lemma_all_tell(state, ts, r.state, s.out, state.activity(ts).1->0);
    }
    let noted = active.state.browsing(inner.text_at("category"@), ts);
    let browsed = active.noted(noted);
    if noted.1 is Some {
        lemma_all_tell(state, ts, r.state, active.out, noted.1->0);
    }
    lemma_all_tell(state, ts, r.state, browsed.out, r.out.last());
}

proof fn lemma_others_tell(state: NormalizerView, inner: &Json, ts: u64)
    ensures
        ({
            let r = super::pipeline::clipboard_step(Step::start(state), inner, ts);
            all_tell_why(state, ts, r.state, r.out)
        }),
        ({
            let r = super::pipeline::file_step(Step::start(state), inner, ts);
            all_tell_why(state, ts, r.state, r.out)
        }),
{
    lemma_reasons_differ();
    let s = Step::start(state);
    let copied = super::pipeline::clipboard_step(s, inner, ts);
    let saved = super::pipeline::file_step(s, inner, ts);
    let active = s.noted(state.activity(ts));
    assert(all_tell_why(state, ts, copied.state, s.out));
    assert(all_tell_why(state, ts, saved.state, s.out));
    if state.activity(ts).1 is Some {
        lemma_all_tell(state, ts, copied.state, s.out, state.activity(ts).1->0);
        lemma_all_tell(state, ts, saved.state, s.out, state.activity(ts).1->0);
    }
    lemma_all_tell(state, ts, copied.state, active.out, copied.out.last());
    lemma_all_tell(state, ts, saved.state, active.out, saved.out.last());
}

/// Whatever the raw event, the boundaries that it gives say why their session
/// began.
pub proof fn law_what_boundaries_say(
    state: NormalizerView,
    raw: &Json,
    variant: Seq<char>,
    inner: &Json,
    context: ProjectContextView,
    i: int,
)
    requires
        is_raw(raw, variant, inner),
        0 <= i < pipeline_step(state, raw, context).out.len(),
        pipeline_step(state, raw, context).out[i].source == "session"@,
    ensures
        tells_why(
            state,
            raw_time(inner),
            pipeline_step(state, raw, context).state,
            pipeline_step(state, raw, context).out[i],
        ),
{
    lemma_reasons_differ();
    let ts = raw_time(inner);
    lemma_window_tells(state, inner, ts, context);
    lemma_terminal_tells(state, inner, ts, context);
    lemma_browser_tells(state, inner, ts);
    lemma_others_tell(state, inner, ts);
    let s = Step::start(state);
    let r = pipeline_step(state, raw, context);
    assert(r == super::pipeline::variant_step(s, variant, inner, context));
    if variant == "ProcessActivity"@ {
        assert(r.out[0].source == "process"@);
    } else if variant == "Calendar"@ {
        assert(r.out[0].source == "calendar"@);
    }
}

/// Listening ports are told by their process and number, in order; a port that
/// lacks one of these is left out, and without any port there is no service.
pub proof fn law_what_ports_say(
    state: NormalizerView,
    raw: &Json,
    inner: &Json,
    context: ProjectContextView,
)
    requires
        is_raw(raw, "ProcessActivity"@, inner),
    ensures
        ({
            let words = pipeline_step(state, raw, context).out[0].summary;
            let ports = inner.elements_at("listening_ports"@);
            &&& ports is None || ports->0.len() == 0 ==> words == "No listening services"@
            &&& ports is Some && ports->0.len() > 0 ==> words == "Listening: "@
                + crate::text::joined(super::pipeline::port_names(ports->0, 0), ", "@)
        }),
{
    lemma_reasons_differ();
}

/// The names of ports are found one by one.
pub proof fn law_ports_are_named_in_order(ports: Seq<Json>, from: int)
    requires
        0 <= from < ports.len(),
    ensures
        ({
            let process = ports[from].text_at("process"@);
            let n = ports[from].natural_at("port"@);
            let names = super::pipeline::port_names(ports, from);
            let rest = super::pipeline::port_names(ports, from + 1);
            &&& process is None || n is None ==> names == rest
            &&& process is Some && n is Some ==> names.len() == rest.len() + 1 && names[0]
                == process->0 + seq![':'] + decimal(n->0 as nat) && names.skip(1) == rest
        }),
        super::pipeline::port_names(ports, ports.len() as int).len() == 0,
{
    reveal_strlit(":");
    assert(":"@ =~= seq![':']);
    let names = super::pipeline::port_names(ports, from);
    let rest = super::pipeline::port_names(ports, from + 1);
    if ports[from].text_at("process"@) is Some && ports[from].natural_at("port"@) is Some {
        assert(names.skip(1) =~= rest);
    }
}

/// An event of any other kind gives nothing and changes nothing.
pub proof fn law_other_kinds_leave_no_trace(
    state: NormalizerView,
    raw: &Json,
    variant: Seq<char>,
    inner: &Json,
    context: ProjectContextView,
)
    requires
        is_raw(raw, variant, inner),
        variant != "Window"@ && variant != "Terminal"@ && variant != "Browser"@ && variant
            != "Clipboard"@ && variant != "FileChange"@ && variant != "ProcessActivity"@ && variant
            != "Calendar"@,
    ensures
        pipeline_step(state, raw, context).out.len() == 0,
        pipeline_step(state, raw, context).state == state,
{
}

/// The directory by which the project of a raw event is found is that of a
/// window or a terminal event.
pub proof fn law_windows_and_commands_have_directories(
    raw: &Json,
    variant: Seq<char>,
    inner: &Json,
)
    requires
        is_raw(raw, variant, inner),
    ensures
        variant == "Window"@ || variant == "Terminal"@ ==> super::pipeline::cwd_of(raw)
            == inner.text_at("cwd"@),
        variant != "Window"@ && variant != "Terminal"@ ==> super::pipeline::cwd_of(raw) is None,
{
}

} // verus!
