//! One raw event through the pipeline: session boundaries, noise
//! suppression, entity extraction and correlation.

use super::entities::{
    command_entities, commits, extract_domain, is_git_commit, is_test_command, parse_command,
    parse_window_title, runs_tests, url_domain, window_entities, CommandEntitiesView,
    ProjectContext, ProjectContextView, WindowEntities, WindowEntitiesView,
};
use super::session::{
    in_background, is_background_app, NormalizerState, NormalizerView, Noted,
    FLICKER_THRESHOLD_SECS, MAX_EVENTS_PER_STEP,
};
use super::{Entities, EntitiesView, NormalizedEvent, NormalizedEventView};
use crate::json::Json;
use crate::number::{decimal, render, render_signed, signed_decimal};
use crate::path::{file_name, name_of};
use crate::text::{join, joined, opt_view, same, views};
use vstd::prelude::*;

verus! {

/// What a list of events holds.
pub open spec fn events(v: Seq<NormalizedEvent>) -> Seq<NormalizedEventView> {
    v.map_values(|e: NormalizedEvent| e@)
}

pub broadcast proof fn lemma_events_push(v: Seq<NormalizedEvent>, e: NormalizedEvent)
    ensures
        #[trigger] events(v.push(e)) == events(v).push(e@),
{
    assert(events(v.push(e)) =~= events(v).push(e@));
}

/// The state of the pipeline and the events that it has given so far for the
/// raw event at hand.
#[verifier::ext_equal]
pub struct Step {
    pub state: NormalizerView,
    pub out: Seq<NormalizedEventView>,
}

impl Step {
    /// Nothing given yet.
    pub open spec fn start(state: NormalizerView) -> Step {
        Step { state, out: Seq::empty() }
    }

    /// A state change and the session boundary that came with it, if any.
    pub open spec fn noted(self, noted: Noted) -> Step {
        Step {
            state: noted.0,
            out: match noted.1 {
                Some(e) => self.out.push(e),
                None => self.out,
            },
        }
    }

    /// The current project is `project`, if the event names one.
    pub open spec fn in_project(self, project: Option<Seq<char>>, timestamp: u64) -> Step {
        match project {
            Some(p) => self.noted(self.state.in_project(p, timestamp)),
            None => self,
        }
    }

    /// The event itself: next in sequence, in the current session.
    pub open spec fn emit(
        self,
        timestamp: u64,
        source: Seq<char>,
        kind: Seq<char>,
        summary: Seq<char>,
        entities: EntitiesView,
        correlated_with: Seq<Seq<char>>,
    ) -> Step {
        Step {
            state: self.state.counted(),
            out: self.out.push(
                NormalizedEventView {
                    seq: self.state.seq + 1,
                    timestamp,
                    session_id: self.state.session_id,
                    source,
                    kind,
                    summary,
                    entities,
                    correlated_with,
                },
            ),
        }
    }
}

// ---------------------------------------------------------------------
// What each kind of raw event gives
// ---------------------------------------------------------------------

/// A window in words: the application with its file and project as far as
/// they are known, or else the title.
pub open spec fn described(w: WindowEntitiesView, title: Option<Seq<char>>) -> Seq<char> {
    match (w.app, w.file, w.project) {
        (Some(app), Some(file), Some(project)) => app + " ("@ + file + " in "@ + project + ")"@,
        (Some(app), None, Some(project)) => app + " ("@ + project + ")"@,
        (Some(app), _, None) => app,
        _ => match title {
            Some(t) => t,
            None => "window"@,
        },
    }
}

pub open spec fn window_summary(
    event_type: Seq<char>,
    window: Seq<char>,
    duration_secs: Option<u64>,
) -> Seq<char> {
    if event_type == "focus"@ {
        "Focused "@ + window
    } else if event_type == "blur"@ {
        "Left "@ + window + " after "@ + decimal(duration_secs.unwrap_or(0) as nat) + "s"@
    } else if event_type == "launch"@ {
        "Launched "@ + window
    } else {
        event_type + " "@ + window
    }
}

/// A window lost focus almost at once.
pub open spec fn flicker(event_type: Seq<char>, duration_secs: Option<u64>) -> bool {
    event_type == "blur"@ && (duration_secs matches Some(d) && d < FLICKER_THRESHOLD_SECS)
}

/// The project of an event, given that of its working directory: an event
/// without a working directory belongs to none.
pub open spec fn context_at(inner: &Json, context: ProjectContextView) -> ProjectContextView {
    if inner.text_at("cwd"@) is Some {
        context
    } else {
        ProjectContextView { project: None, branch: None }
    }
}

/// A window event counts as activity; one of a background application or a
/// flicker gives no event of its own.
pub open spec fn window_step(
    s: Step,
    inner: &Json,
    timestamp: u64,
    context: ProjectContextView,
) -> Step {
    let event_type = inner.text_at("event_type"@).unwrap_or(""@);
    let application = inner.text_at("application"@);
    let title = inner.text_at("title"@);
    let duration_secs = inner.natural_at("duration_secs"@);
    let active = s.noted(s.state.activity(timestamp));
    if in_background(application) {
        active
    } else {
        let on_task = Step { state: active.state.on_task(), ..active };
        if flicker(event_type, duration_secs) {
            on_task
        } else {
            let w = window_entities(application, title, context_at(inner, context));
            on_task.in_project(w.project, timestamp).emit(
                timestamp,
                "window"@,
                event_type,
                window_summary(event_type, described(w, title), duration_secs),
                EntitiesView {
                    app: w.app,
                    project: w.project,
                    branch: w.branch,
                    file: w.file,
                    duration_secs,
                    ..EntitiesView::none()
                },
                Seq::empty(),
            )
        }
    }
}

/// The exit code of a terminal event, as a 32-bit number.
pub open spec fn exit_code_of(inner: &Json) -> Option<i32> {
    match inner.integer_at("exit_code"@) {
        Some(code) => Some(code as i32),
        None => None,
    }
}

pub open spec fn command_summary(command: Seq<char>, exit_code: Option<i32>) -> Seq<char> {
    match exit_code {
        Some(code) => "Ran `"@ + command + "` (exit "@ + signed_decimal(code as int) + ")"@,
        None => "Ran `"@ + command + "`"@,
    }
}

/// The event of a command itself.
pub open spec fn command_emitted(
    s: Step,
    timestamp: u64,
    command: Seq<char>,
    exit_code: Option<i32>,
    e: CommandEntitiesView,
) -> Step {
    s.emit(
        timestamp,
        "terminal"@,
        "command"@,
        command_summary(command, exit_code),
        EntitiesView {
            project: e.project,
            branch: e.branch,
            tool: e.tool,
            subcommand: e.subcommand,
            exit_code,
            ..EntitiesView::none()
        },
        Seq::empty(),
    )
}

/// A terminal event counts as activity, and ends an off-task run. The report
/// of a command's start and a quick repetition give no event of their own; a
/// failed test run is remembered, and a successful commit ends the session.
pub open spec fn terminal_step(
    s: Step,
    inner: &Json,
    timestamp: u64,
    context: ProjectContextView,
) -> Step {
    let command = inner.text_at("command"@).unwrap_or(""@);
    let exit_code = exit_code_of(inner);
    let cwd = inner.text_at("cwd"@);
    let active = s.noted(s.state.activity(timestamp));
    let on_task = Step { state: active.state.on_task(), ..active };
    let ran = Step { state: on_task.state.ran(command, cwd, timestamp), ..on_task };
    if inner.text_at("phase"@) == Some("start"@) {
        on_task
    } else if on_task.state.repeats(command, cwd, timestamp) {
        ran
    } else {
        let e = command_entities(command, context_at(inner, context));
        let known = ran.in_project(e.project, timestamp);
        let failed_test = runs_tests(e.subcommand, command) && (exit_code matches Some(c) && c
            != 0);
        let tested = if failed_test {
            Step { state: known.state.test_failed(timestamp), ..known }
        } else {
            known
        };
        let emitted = command_emitted(tested, timestamp, command, exit_code, e);
        if commits(e) && exit_code.unwrap_or(0) == 0 {
            let (state, boundary) = emitted.state.commit(timestamp);
            emitted.noted((state, Some(boundary)))
        } else {
            emitted
        }
    }
}

pub open spec fn browser_summary(
    search_query: Option<Seq<char>>,
    title: Option<Seq<char>>,
    domain: Option<Seq<char>>,
) -> Seq<char> {
    match (search_query, title, domain) {
        (Some(q), _, _) => "Searched \""@ + q + "\""@,
        (None, Some(t), Some(d)) => "Visited "@ + d + " ("@ + t + ")"@,
        (None, None, Some(d)) => "Visited "@ + d,
        _ => "Browser navigation"@,
    }
}

/// The domain of a navigation: that of the URL, or else the site.
pub open spec fn browser_domain(url: Option<Seq<char>>, site: Option<Seq<char>>) -> Option<
    Seq<char>,
> {
    match url {
        Some(u) => match url_domain(u) {
            Some(d) => Some(d),
            None => site,
        },
        None => site,
    }
}

/// A browser event counts as activity, and as part of an off-task run or the
/// end of one. A search or any other navigation soon after a failed test run
/// is tagged with it, and uses it up.
pub open spec fn browser_step(s: Step, inner: &Json, timestamp: u64) -> Step {
    let title = inner.text_at("title"@);
    let category = inner.text_at("category"@);
    let search_query = inner.text_at("search_query"@);
    let domain = browser_domain(inner.text_at("url"@), inner.text_at("site"@));
    let active = s.noted(s.state.activity(timestamp));
    let browsed = active.noted(active.state.browsing(category, timestamp));
    let related = browsed.state.recent_failure(timestamp);
    let checked = Step { state: browsed.state.correlated(timestamp), ..browsed };
    checked.emit(
        timestamp,
        "browser"@,
        "navigation"@,
        browser_summary(search_query, title, domain),
        EntitiesView {
            domain,
            category,
            search_query,
            project: checked.state.project,
            ..EntitiesView::none()
        },
        if related {
            seq!["recent_test_failure"@]
        } else {
            Seq::empty()
        },
    )
}

/// A clipboard event counts as activity, and ends an off-task run.
pub open spec fn clipboard_step(s: Step, inner: &Json, timestamp: u64) -> Step {
    let content_type = inner.text_at("content_type"@).unwrap_or("plain_text"@);
    let length = inner.natural_at("length"@).unwrap_or(0);
    let active = s.noted(s.state.activity(timestamp));
    let on_task = Step { state: active.state.on_task(), ..active };
    on_task.emit(
        timestamp,
        "clipboard"@,
        "clipboard"@,
        "Copied "@ + content_type + " ("@ + decimal(length as nat) + " chars)"@,
        EntitiesView {
            content_type: Some(content_type),
            project: on_task.state.project,
            ..EntitiesView::none()
        },
        Seq::empty(),
    )
}

/// A file change counts as activity, and ends an off-task run.
pub open spec fn file_step(s: Step, inner: &Json, timestamp: u64) -> Step {
    let path = inner.text_at("path"@).unwrap_or(""@);
    let kind = inner.text_at("kind"@).unwrap_or("changed"@);
    let active = s.noted(s.state.activity(timestamp));
    let on_task = Step { state: active.state.on_task(), ..active };
    on_task.emit(
        timestamp,
        "filesystem"@,
        "file_change"@,
        "File "@ + kind + ": "@ + name_of(path).unwrap_or(path),
        EntitiesView {
            file: Some(path),
            project: match inner.text_at("project"@) {
                Some(p) => Some(p),
                None => on_task.state.project,
            },
            ..EntitiesView::none()
        },
        Seq::empty(),
    )
}

/// A listening port in words, if its process and number are given.
pub open spec fn port_name(port: &Json) -> Option<Seq<char>> {
    match (port.text_at("process"@), port.natural_at("port"@)) {
        (Some(process), Some(n)) => Some(process + ":"@ + decimal(n as nat)),
        _ => None,
    }
}

/// The ports from position `from` on in words.
pub open spec fn port_names(ports: Seq<Json>, from: int) -> Seq<Seq<char>>
    decreases ports.len() - from,
{
    if from < 0 || from >= ports.len() {
        Seq::empty()
    } else {
        match port_name(&ports[from]) {
            Some(name) => seq![name] + port_names(ports, from + 1),
            None => port_names(ports, from + 1),
        }
    }
}

pub open spec fn process_summary(ports: Option<Seq<Json>>) -> Seq<char> {
    match ports {
        Some(list) if list.len() > 0 => "Listening: "@ + joined(port_names(list, 0), ", "@),
        _ => "No listening services"@,
    }
}

/// A snapshot of listening ports is no activity.
pub open spec fn process_step(s: Step, inner: &Json, timestamp: u64) -> Step {
    s.emit(
        timestamp,
        "process"@,
        "process_activity"@,
        process_summary(inner.elements_at("listening_ports"@)),
        EntitiesView { project: s.state.project, ..EntitiesView::none() },
        Seq::empty(),
    )
}

/// The member named `key`, unless it is missing or null.
pub open spec fn present(inner: &Json, key: Seq<char>) -> Option<&Json> {
    match inner.field(key) {
        Some(v) => if *v is Null {
            None
        } else {
            Some(v)
        },
        None => None,
    }
}

pub open spec fn calendar_summary(inner: &Json) -> Seq<char> {
    match (present(inner, "current_event"@), present(inner, "next_event"@)) {
        (Some(c), _) => "In progress: "@ + c.text_at("summary"@).unwrap_or("event"@),
        (None, Some(n)) => "Next up: "@ + n.text_at("summary"@).unwrap_or("event"@),
        (None, None) => "No upcoming events"@,
    }
}

/// A calendar snapshot is no activity.
pub open spec fn calendar_step(s: Step, inner: &Json, timestamp: u64) -> Step {
    s.emit(
        timestamp,
        "calendar"@,
        "calendar"@,
        calendar_summary(inner),
        EntitiesView::none(),
        Seq::empty(),
    )
}

/// What a raw event of the variant `variant` gives.
pub open spec fn variant_step(
    s: Step,
    variant: Seq<char>,
    inner: &Json,
    context: ProjectContextView,
) -> Step {
    let timestamp = inner.natural_at("timestamp"@).unwrap_or(0);
    if variant == "Window"@ {
        window_step(s, inner, timestamp, context)
    } else if variant == "Terminal"@ {
        terminal_step(s, inner, timestamp, context)
    } else if variant == "Browser"@ {
        browser_step(s, inner, timestamp)
    } else if variant == "Clipboard"@ {
        clipboard_step(s, inner, timestamp)
    } else if variant == "FileChange"@ {
        file_step(s, inner, timestamp)
    } else if variant == "ProcessActivity"@ {
        process_step(s, inner, timestamp)
    } else if variant == "Calendar"@ {
        calendar_step(s, inner, timestamp)
    } else {
        s
    }
}

/// The only member of an object with exactly one.
pub open spec fn sole_member<'a>(raw: &Json) -> Option<(Seq<char>, &'a Json)> {
    match raw {
        Json::Object(members) => if members@.len() == 1 {
            Some((members@[0].0@, &members@[0].1))
        } else {
            None
        },
        _ => None,
    }
}

/// The working directory that a raw event names. Only those of windows and
/// commands say something about a project.
pub open spec fn cwd_of(raw: &Json) -> Option<Seq<char>> {
    match sole_member(raw) {
        Some((variant, inner)) => if variant == "Window"@ || variant == "Terminal"@ {
            inner.text_at("cwd"@)
        } else {
            None
        },
        None => None,
    }
}

/// What a raw event, `{"VariantName": {...}}`, gives in a state. Anything of
/// another shape gives nothing, and so does a heartbeat.
pub open spec fn pipeline_step(
    state: NormalizerView,
    raw: &Json,
    context: ProjectContextView,
) -> Step {
    let s = Step::start(state);
    match sole_member(raw) {
        Some((variant, inner)) => if *inner is Object {
            variant_step(s, variant, inner, context)
        } else {
            s
        },
        None => s,
    }
}

// ---------------------------------------------------------------------
// The pipeline
// ---------------------------------------------------------------------

fn push_noted(out: &mut Vec<NormalizedEvent>, boundary: Option<NormalizedEvent>)
    ensures
        events(final(out)@) == match boundary {
            Some(e) => events(old(out)@).push(e@),
            None => events(old(out)@),
        },
{
    broadcast use lemma_events_push;

    if let Some(e) = boundary {
        out.push(e);
    }
}

fn note_context(
    state: &mut NormalizerState,
    out: &mut Vec<NormalizedEvent>,
    project: &Option<String>,
    timestamp: u64,
)
    requires
        old(state)@.room(1),
    ensures
        (Step { state: final(state)@, out: events(final(out)@) }) == (Step {
            state: old(state)@,
            out: events(old(out)@),
        }).in_project(opt_view(*project), timestamp),
{
    if let Some(p) = project {
        let boundary = state.note_project(p.as_str(), timestamp);
        push_noted(out, boundary);
    }
}

/// The event itself, next in sequence and in the current session.
fn emit(
    state: &mut NormalizerState,
    out: &mut Vec<NormalizedEvent>,
    timestamp: u64,
    source: &str,
    kind: &str,
    summary: String,
    entities: Entities,
    correlated_with: Vec<String>,
)
    requires
        old(state)@.room(1),
    ensures
        (Step { state: final(state)@, out: events(final(out)@) }) == (Step {
            state: old(state)@,
            out: events(old(out)@),
        }).emit(timestamp, source@, kind@, summary@, entities@, views(correlated_with@)),
{
    broadcast use lemma_events_push;

    let seq = state.next_seq();
    let session_id = state.session();
    out.push(
        NormalizedEvent {
            seq,
            timestamp,
            session_id,
            source: source.to_owned(),
            kind: kind.to_owned(),
            summary,
            entities,
            correlated_with,
        },
    );
}

/// A window in words.
pub fn describe_window(parsed: &WindowEntities, title: &Option<String>) -> (r: String)
    ensures
        r@ == described(parsed@, opt_view(*title)),
{
    match (&parsed.app, &parsed.file, &parsed.project) {
        (Some(app), Some(file), Some(project)) => {
            let mut r = app.clone();
            r.append(" (");
            r.append(file.as_str());
            r.append(" in ");
            r.append(project.as_str());
            r.append(")");
            r
        },
        (Some(app), None, Some(project)) => {
            let mut r = app.clone();
            r.append(" (");
            r.append(project.as_str());
            r.append(")");
            r
        },
        (Some(app), _, None) => app.clone(),
        _ => match title {
            Some(t) => t.clone(),
            None => "window".to_owned(),
        },
    }
}

fn summarize_window(event_type: &str, window: &str, duration_secs: Option<u64>) -> (r: String)
    ensures
        r@ == window_summary(event_type@, window@, duration_secs),
{
    if same(event_type, "focus") {
        let mut r = "Focused ".to_owned();
        r.append(window);
        r
    } else if same(event_type, "blur") {
        let mut r = "Left ".to_owned();
        r.append(window);
        r.append(" after ");
        r.append(render(duration_secs.unwrap_or(0)).as_str());
        r.append("s");
        r
    } else if same(event_type, "launch") {
        let mut r = "Launched ".to_owned();
        r.append(window);
        r
    } else {
        let mut r = event_type.to_owned();
        r.append(" ");
        r.append(window);
        r
    }
}

fn process_window(
    state: &mut NormalizerState,
    out: &mut Vec<NormalizedEvent>,
    inner: &Json,
    timestamp: u64,
    context: &ProjectContext,
)
    requires
        old(state)@.room(MAX_EVENTS_PER_STEP as nat),
    ensures
        (Step { state: final(state)@, out: events(final(out)@) }) == window_step(
            Step { state: old(state)@, out: events(old(out)@) },
            inner,
            timestamp,
            context@,
        ),
{
    let event_type = inner.get_text_or("event_type", "");
    let application = inner.get_text("application");
    let title = inner.get_text("title");
    let nowhere = ProjectContext::unknown();
    let context = if inner.has_text("cwd") {
        context
    } else {
        &nowhere
    };
    let duration_secs = inner.get_natural("duration_secs");

    let boundary = state.note_activity(timestamp);
    push_noted(out, boundary);

    // Background apps still count as "activity" for gap detection (handled
    // above) but aren't surfaced as their own events, and don't clear an
    // off-task browsing run (the user may have just switched away from the
    // off-task browser tab to a background notifier and back).
    if is_background_app(&application) {
        return ;
    }
    state.note_on_task_activity();

    // Alt-tab-and-back flicker: a blur with near-zero dwell time.
    if same(event_type.as_str(), "blur") && duration_secs.unwrap_or(u64::MAX)
        < FLICKER_THRESHOLD_SECS {
        return ;
    }
    let parsed = parse_window_title(&application, &title, context);
    note_context(state, out, &parsed.project, timestamp);

    let window = describe_window(&parsed, &title);
    let summary = summarize_window(event_type.as_str(), window.as_str(), duration_secs);
    let entities = Entities {
        app: parsed.app,
        project: parsed.project,
        branch: parsed.branch,
        file: parsed.file,
        duration_secs,
        ..Entities::none()
    };
    let none: Vec<String> = Vec::new();
    assert(views(none@) =~= Seq::empty());
    emit(state, out, timestamp, "window", event_type.as_str(), summary, entities, none);
}

fn summarize_command(command: &str, exit_code: Option<i32>) -> (r: String)
    ensures
        r@ == command_summary(command@, exit_code),
{
    let mut r = "Ran `".to_owned();
    r.append(command);
    match exit_code {
        Some(code) => {
            r.append("` (exit ");
            r.append(render_signed(code as i64).as_str());
            r.append(")");
        },
        None => {
            r.append("`");
        },
    }
    r
}

fn process_terminal(
    state: &mut NormalizerState,
    out: &mut Vec<NormalizedEvent>,
    inner: &Json,
    timestamp: u64,
    context: &ProjectContext,
)
    requires
        old(state)@.room(MAX_EVENTS_PER_STEP as nat),
    ensures
        (Step { state: final(state)@, out: events(final(out)@) }) == terminal_step(
            Step { state: old(state)@, out: events(old(out)@) },
            inner,
            timestamp,
            context@,
        ),
{
    let command = inner.get_text_or("command", "");
    let exit_code: Option<i32> = match inner.get_integer("exit_code") {
        Some(code) => Some(code as i32),
        None => None,
    };
    let cwd = inner.get_text("cwd");
    let nowhere = ProjectContext::unknown();
    let context = if cwd.is_some() {
        context
    } else {
        &nowhere
    };
    let phase = inner.get_text("phase");

    let boundary = state.note_activity(timestamp);
    push_noted(out, boundary);
    state.note_on_task_activity();

    // Each command is reported twice (phase "start" then "end" with the exit
    // code). Only the "end" report carries the full picture, so the "start"
    // report is just a heads-up and is dropped here to avoid emitting two
    // entries per command.
    if let Some(p) = &phase {
        if same(p.as_str(), "start") {
            return ;
        }
    }
    // Up-arrow-and-rerun spam: same command + cwd in quick succession.
    let repeated = state.is_repeated_command(command.as_str(), &cwd, timestamp);
    state.record_command(command.as_str(), &cwd, timestamp);
    if repeated {
        return ;
    }

    let parsed = parse_command(command.as_str(), context);
    note_context(state, out, &parsed.project, timestamp);

    let failed = match exit_code {
        Some(code) => code != 0,
        None => false,
    };
    if is_test_command(&parsed, command.as_str()) && failed {
        state.record_test_failure(timestamp);
    }
    let summary = summarize_command(command.as_str(), exit_code);
    let is_commit = is_git_commit(&parsed) && !failed;

    let entities = Entities {
        project: parsed.project,
        branch: parsed.branch,
        tool: parsed.tool,
        subcommand: parsed.subcommand,
        exit_code,
        ..Entities::none()
    };
    let none: Vec<String> = Vec::new();
    assert(views(none@) =~= Seq::empty());
    emit(state, out, timestamp, "terminal", "command", summary, entities, none);

    if is_commit {
        let boundary = state.git_commit_boundary(timestamp);
        push_noted(out, Some(boundary));
    }
}

fn summarize_navigation(
    search_query: &Option<String>,
    title: &Option<String>,
    domain: &Option<String>,
) -> (r: String)
    ensures
        r@ == browser_summary(opt_view(*search_query), opt_view(*title), opt_view(*domain)),
{
    match (search_query, title, domain) {
        (Some(q), _, _) => {
            let mut r = "Searched \"".to_owned();
            r.append(q.as_str());
            r.append("\"");
            r
        },
        (None, Some(t), Some(d)) => {
            let mut r = "Visited ".to_owned();
            r.append(d.as_str());
            r.append(" (");
            r.append(t.as_str());
            r.append(")");
            r
        },
        (None, None, Some(d)) => {
            let mut r = "Visited ".to_owned();
            r.append(d.as_str());
            r
        },
        _ => "Browser navigation".to_owned(),
    }
}

fn process_browser(
    state: &mut NormalizerState,
    out: &mut Vec<NormalizedEvent>,
    inner: &Json,
    timestamp: u64,
)
    requires
        old(state)@.room(MAX_EVENTS_PER_STEP as nat),
    ensures
        (Step { state: final(state)@, out: events(final(out)@) }) == browser_step(
            Step { state: old(state)@, out: events(old(out)@) },
            inner,
            timestamp,
        ),
{
    broadcast use crate::text::lemma_views_push;

    let url = inner.get_text("url");
    let site = inner.get_text("site");
    let title = inner.get_text("title");
    let category = inner.get_text("category");
    let search_query = inner.get_text("search_query");

    let boundary = state.note_activity(timestamp);
    push_noted(out, boundary);

    let drift = match &category {
        Some(c) => state.note_browser_category(Some(c.as_str()), timestamp),
        None => state.note_browser_category(None, timestamp),
    };
    push_noted(out, drift);

    let from_url = match &url {
        Some(u) => extract_domain(u.as_str()),
        None => None,
    };
    let domain = match from_url {
        Some(d) => Some(d),
        None => site,
    };

    let mut correlated_with: Vec<String> = Vec::new();
    assert(views(correlated_with@) =~= Seq::empty());
    if state.check_test_failure_correlation(timestamp) {
        correlated_with.push("recent_test_failure".to_owned());
        assert(views(correlated_with@) =~= seq!["recent_test_failure"@]);
    }
    let summary = summarize_navigation(&search_query, &title, &domain);
    let entities = Entities {
        domain,
        category,
        search_query,
        project: state.current_project(),
        ..Entities::none()
    };
    emit(state, out, timestamp, "browser", "navigation", summary, entities, correlated_with);
}

fn process_clipboard(
    state: &mut NormalizerState,
    out: &mut Vec<NormalizedEvent>,
    inner: &Json,
    timestamp: u64,
)
    requires
        old(state)@.room(MAX_EVENTS_PER_STEP as nat),
    ensures
        (Step { state: final(state)@, out: events(final(out)@) }) == clipboard_step(
            Step { state: old(state)@, out: events(old(out)@) },
            inner,
            timestamp,
        ),
{
    let content_type = inner.get_text_or("content_type", "plain_text");
    let length = inner.get_natural("length").unwrap_or(0);

    let boundary = state.note_activity(timestamp);
    push_noted(out, boundary);
    state.note_on_task_activity();

    let mut summary = "Copied ".to_owned();
    summary.append(content_type.as_str());
    summary.append(" (");
    summary.append(render(length).as_str());
    summary.append(" chars)");
    let entities = Entities {
        content_type: Some(content_type),
        project: state.current_project(),
        ..Entities::none()
    };
    let none: Vec<String> = Vec::new();
    assert(views(none@) =~= Seq::empty());
    emit(state, out, timestamp, "clipboard", "clipboard", summary, entities, none);
}

fn process_file(
    state: &mut NormalizerState,
    out: &mut Vec<NormalizedEvent>,
    inner: &Json,
    timestamp: u64,
)
    requires
        old(state)@.room(MAX_EVENTS_PER_STEP as nat),
    ensures
        (Step { state: final(state)@, out: events(final(out)@) }) == file_step(
            Step { state: old(state)@, out: events(old(out)@) },
            inner,
            timestamp,
        ),
{
    let path = inner.get_text_or("path", "");
    let kind = inner.get_text_or("kind", "changed");
    let project = inner.get_text("project");

    let boundary = state.note_activity(timestamp);
    push_noted(out, boundary);
    state.note_on_task_activity();

    let name = match file_name(path.as_str()) {
        Some(n) => n,
        None => path.clone(),
    };
    let mut summary = "File ".to_owned();
    summary.append(kind.as_str());
    summary.append(": ");
    summary.append(name.as_str());
    let entities = Entities {
        file: Some(path),
        project: match project {
            Some(p) => Some(p),
            None => state.current_project(),
        },
        ..Entities::none()
    };
    let none: Vec<String> = Vec::new();
    assert(views(none@) =~= Seq::empty());
    emit(state, out, timestamp, "filesystem", "file_change", summary, entities, none);
}

fn name_port(port: &Json) -> (r: Option<String>)
    ensures
        opt_view(r) == port_name(port),
{
    match (port.get_text("process"), port.get_natural("port")) {
        (Some(process), Some(n)) => {
            let mut r = process;
            r.append(":");
            r.append(render(n).as_str());
            Some(r)
        },
        _ => None,
    }
}

fn name_ports(ports: &Vec<Json>) -> (r: Vec<String>)
    ensures
        views(r@) == port_names(ports@, 0),
{
    broadcast use crate::text::lemma_views_push;

    let mut out: Vec<String> = Vec::new();
    let mut i: usize = 0;
    assert(views(out@) + port_names(ports@, 0) =~= port_names(ports@, 0));
    while i < ports.len()
        invariant
            i <= ports@.len(),
            views(out@) + port_names(ports@, i as int) == port_names(ports@, 0),
        decreases ports@.len() - i,
    {
        let ghost before = views(out@);
        if let Some(name) = name_port(&ports[i]) {
            out.push(name);
            assert(before + (seq![name@] + port_names(ports@, i + 1)) =~= views(out@)
                + port_names(ports@, i + 1));
        }
        i = i + 1;
    }
    assert(views(out@) =~= port_names(ports@, 0));
    out
}

fn process_ports(
    state: &mut NormalizerState,
    out: &mut Vec<NormalizedEvent>,
    inner: &Json,
    timestamp: u64,
)
    requires
        old(state)@.room(MAX_EVENTS_PER_STEP as nat),
    ensures
        (Step { state: final(state)@, out: events(final(out)@) }) == process_step(
            Step { state: old(state)@, out: events(old(out)@) },
            inner,
            timestamp,
        ),
{
    let mut summary = "No listening services".to_owned();
    if let Some(ports) = inner.get_array("listening_ports") {
        if ports.len() > 0 {
            let names = name_ports(ports);
            summary = "Listening: ".to_owned();
            summary.append(join(&names, ", ").as_str());
        }
    }
    let entities = Entities { project: state.current_project(), ..Entities::none() };
    let none: Vec<String> = Vec::new();
    assert(views(none@) =~= Seq::empty());
    emit(state, out, timestamp, "process", "process_activity", summary, entities, none);
}

fn get_present<'a>(inner: &'a Json, key: &str) -> (r: Option<&'a Json>)
    ensures
        r == present(inner, key@),
{
    match inner.get(key) {
        Some(v) => match v {
            Json::Null => None,
            _ => Some(v),
        },
        None => None,
    }
}

fn process_calendar(
    state: &mut NormalizerState,
    out: &mut Vec<NormalizedEvent>,
    inner: &Json,
    timestamp: u64,
)
    requires
        old(state)@.room(MAX_EVENTS_PER_STEP as nat),
    ensures
        (Step { state: final(state)@, out: events(final(out)@) }) == calendar_step(
            Step { state: old(state)@, out: events(old(out)@) },
            inner,
            timestamp,
        ),
{
    let current = get_present(inner, "current_event");
    let next = get_present(inner, "next_event");
    let mut summary = "No upcoming events".to_owned();
    if let Some(c) = current {
        summary = "In progress: ".to_owned();
        summary.append(c.get_text_or("summary", "event").as_str());
    } else if let Some(n) = next {
        summary = "Next up: ".to_owned();
        summary.append(n.get_text_or("summary", "event").as_str());
    }
    let none: Vec<String> = Vec::new();
    assert(views(none@) =~= Seq::empty());
    emit(state, out, timestamp, "calendar", "calendar", summary, Entities::none(), none);
}

/// The working directory that a raw event names.
pub fn working_directory(raw: &Json) -> (r: Option<String>)
    ensures
        opt_view(r) == cwd_of(raw),
{
    match raw {
        Json::Object(members) => if members.len() == 1 && (same(members[0].0.as_str(), "Window")
            || same(members[0].0.as_str(), "Terminal")) {
            members[0].1.get_text("cwd")
        } else {
            None
        },
        _ => None,
    }
}

/// Runs a single raw bus event (`{"VariantName": {...}}`) through Stages
/// 2-5, returning zero or more normalized events (a session boundary
/// followed by the event itself, for example). `context` is the project of
/// the event's working directory, if it has one.
pub fn process_event(state: &mut NormalizerState, raw: &Json, context: &ProjectContext) -> (r: Vec<
    NormalizedEvent,
>)
    requires
        old(state)@.room(MAX_EVENTS_PER_STEP as nat),
    ensures
        (Step { state: final(state)@, out: events(r@) }) == pipeline_step(
            old(state)@,
            raw,
            context@,
        ),
{
    let mut out: Vec<NormalizedEvent> = Vec::new();
    assert(events(out@) =~= Seq::empty());
    let members = match raw {
        Json::Object(members) => members,
        _ => {
            return out;
        },
    };
    if members.len() != 1 {
        return out;
    }
    let variant = members[0].0.as_str();
    let inner = &members[0].1;
    match inner {
        Json::Object(_) => {},
        _ => {
            return out;
        },
    }
    let timestamp = inner.get_natural("timestamp").unwrap_or(0);

    if same(variant, "Window") {
        process_window(state, &mut out, inner, timestamp, context);
    } else if same(variant, "Terminal") {
        process_terminal(state, &mut out, inner, timestamp, context);
    } else if same(variant, "Browser") {
        process_browser(state, &mut out, inner, timestamp);
    } else if same(variant, "Clipboard") {
        process_clipboard(state, &mut out, inner, timestamp);
    } else if same(variant, "FileChange") {
        process_file(state, &mut out, inner, timestamp);
    } else if same(variant, "ProcessActivity") {
        process_ports(state, &mut out, inner, timestamp);
    } else if same(variant, "Calendar") {
        process_calendar(state, &mut out, inner, timestamp);
    }
    // Anything else, such as the heartbeat, carries no signal about user
    // activity.

    out
}

} // verus!
