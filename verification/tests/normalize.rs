use activity_monitor::json::{Json, Number};
use activity_monitor::normalize::entities::{
    canonical_app, extract_domain, find_project_root, is_git_commit, is_test_command,
    normalize_app_name, parse_command, parse_window_title, project_and_branch, project_markers,
    project_root_candidates, read_git_branch, ProjectContext,
};
use activity_monitor::normalize::pipeline::{process_event, working_directory};
use activity_monitor::normalize::session::{is_background_app, NormalizerState};
use activity_monitor::normalize::{Entities, NormalizedEvent};

fn text(s: &str) -> Json {
    Json::Text(s.to_string())
}

fn num(n: u64) -> Json {
    Json::Number(Number::Natural(n))
}

fn obj(members: Vec<(&str, Json)>) -> Json {
    Json::Object(members.into_iter().map(|(k, v)| (k.to_string(), v)).collect())
}

fn context(project: &str, branch: &str) -> ProjectContext {
    ProjectContext { project: Some(project.to_string()), branch: Some(branch.to_string()) }
}

fn browser_event(category: &str, timestamp: u64) -> Json {
    obj(vec![(
        "Browser",
        obj(vec![
            ("source", text("extension")),
            ("site", text("example.com")),
            ("url", text("https://example.com")),
            ("title", text("Example")),
            ("h1", Json::Null),
            ("selection", Json::Null),
            ("category", text(category)),
            ("search_query", Json::Null),
            ("timestamp", num(timestamp)),
        ]),
    )])
}

fn search_event(query: &str, timestamp: u64) -> Json {
    obj(vec![(
        "Browser",
        obj(vec![
            ("site", text("example.com")),
            ("search_query", text(query)),
            ("timestamp", num(timestamp)),
        ]),
    )])
}

fn terminal_event(command: &str, exit_code: i64, cwd: &str, phase: &str, timestamp: u64) -> Json {
    let code = if exit_code < 0 {
        Json::Number(Number::Negative(exit_code))
    } else {
        num(exit_code as u64)
    };
    obj(vec![(
        "Terminal",
        obj(vec![
            ("command", text(command)),
            ("exit_code", code),
            ("cwd", text(cwd)),
            ("phase", text(phase)),
            ("timestamp", num(timestamp)),
        ]),
    )])
}

fn window_event(kind: &str, app: &str, title: &str, duration: Option<u64>, timestamp: u64) -> Json {
    obj(vec![(
        "Window",
        obj(vec![
            ("event_type", text(kind)),
            ("application", text(app)),
            ("title", text(title)),
            ("cwd", Json::Null),
            ("duration_secs", duration.map(num).unwrap_or(Json::Null)),
            ("timestamp", num(timestamp)),
        ]),
    )])
}

fn run(state: &mut NormalizerState, raw: &Json) -> Vec<NormalizedEvent> {
    process_event(state, raw, &ProjectContext::unknown())
}

#[test]
fn sustained_off_task_browsing_starts_a_new_session() {
    let mut state = NormalizerState::new();
    let start_session = state.session_id;

    // A single off-task glance doesn't trigger anything.
    let out = run(&mut state, &browser_event("social", 1_000));
    assert!(out.iter().all(|e| e.kind != "session_boundary"));
    assert_eq!(state.session_id, start_session);

    // Still under the drift threshold.
    let out = run(&mut state, &browser_event("social", 1_060));
    assert!(out.iter().all(|e| e.kind != "session_boundary"));
    assert_eq!(state.session_id, start_session);

    // Past the drift threshold (180s) of continuous off-task browsing: a new
    // session starts.
    let out = run(&mut state, &browser_event("social", 1_181));
    assert!(out.iter().any(|e| e.kind == "session_boundary"
        && e.entities.category.as_deref() == Some("off_task_drift")));
    assert_eq!(state.session_id, start_session + 1);

    // The boundary fires only once per off-task run.
    let out = run(&mut state, &browser_event("social", 1_300));
    assert!(out.iter().all(|e| e.kind != "session_boundary"));
    assert_eq!(state.session_id, start_session + 1);
}

#[test]
fn on_task_browsing_does_not_trigger_drift_boundary() {
    let mut state = NormalizerState::new();
    let start_session = state.session_id;

    for ts in [1_000, 1_100, 1_200, 1_300, 1_400] {
        let out = run(&mut state, &browser_event("documentation", ts));
        assert!(out.iter().all(|e| e.kind != "session_boundary"));
    }
    assert_eq!(state.session_id, start_session);
}

#[test]
fn returning_to_work_before_threshold_resets_drift_run() {
    let mut state = NormalizerState::new();
    let start_session = state.session_id;

    run(&mut state, &browser_event("social", 1_000));
    run(&mut state, &browser_event("social", 1_060));

    // Switch back to documentation before the 180s threshold elapses.
    run(&mut state, &browser_event("documentation", 1_090));

    // More off-task browsing afterwards needs its own 180s run.
    let out = run(&mut state, &browser_event("social", 1_181));
    assert!(out.iter().all(|e| e.kind != "session_boundary"));
    assert_eq!(state.session_id, start_session);
}

#[test]
fn events_are_numbered_without_gaps() {
    let mut state = NormalizerState::new();
    let mut all = Vec::new();
    all.extend(run(&mut state, &browser_event("social", 1_000)));
    all.extend(run(&mut state, &terminal_event("ls", 0, "/tmp", "end", 1_001)));
    // An inactivity gap: the boundary comes first, and belongs to the new
    // session.
    all.extend(run(&mut state, &terminal_event("pwd", 0, "/tmp", "end", 2_000)));
    for (i, e) in all.iter().enumerate() {
        assert_eq!(e.seq, i as u64 + 1);
    }
    let boundary = all.iter().position(|e| e.kind == "session_boundary").unwrap();
    assert_eq!(all[boundary].session_id, 2);
    assert_eq!(all[boundary].summary, "Inactive for 16 min");
    assert!(all[..boundary].iter().all(|e| e.session_id == 1));
    assert!(all[boundary..].iter().all(|e| e.session_id == 2));
    assert!(all[boundary..].iter().all(|e| e.timestamp == 2_000));
}

#[test]
fn a_gap_of_exactly_five_minutes_is_no_boundary() {
    let mut state = NormalizerState::new();
    run(&mut state, &terminal_event("ls", 0, "/tmp", "end", 1_000));
    let out = run(&mut state, &terminal_event("pwd", 0, "/tmp", "end", 1_300));
    assert_eq!(out.len(), 1);
    let out = run(&mut state, &terminal_event("ls -l", 0, "/tmp", "end", 1_601));
    assert_eq!(out.len(), 2);
}

#[test]
fn heartbeats_and_strange_values_leave_no_trace() {
    let mut state = NormalizerState::new();
    let heartbeat = obj(vec![("Heartbeat", obj(vec![("timestamp", num(5))]))]);
    assert!(run(&mut state, &heartbeat).is_empty());
    assert!(run(&mut state, &Json::Null).is_empty());
    assert!(run(&mut state, &obj(vec![])).is_empty());
    assert!(run(&mut state, &obj(vec![("Window", num(1))])).is_empty());
    let out = run(&mut state, &terminal_event("ls", 0, "/tmp", "end", 9));
    assert_eq!(out[0].seq, 1);
}

#[test]
fn repeated_commands_are_suppressed() {
    let mut state = NormalizerState::new();
    assert_eq!(run(&mut state, &terminal_event("make", 0, "/a", "end", 100)).len(), 1);
    assert_eq!(run(&mut state, &terminal_event("make", 0, "/a", "end", 105)).len(), 0);
    // Another directory is another command.
    assert_eq!(run(&mut state, &terminal_event("make", 0, "/b", "end", 106)).len(), 1);
    assert_eq!(run(&mut state, &terminal_event("make", 0, "/b", "end", 112)).len(), 1);
    // Only finished commands reach the timeline.
    assert_eq!(run(&mut state, &terminal_event("make all", 0, "/b", "start", 113)).len(), 0);
}

#[test]
fn switching_projects_opens_a_session() {
    let mut state = NormalizerState::new();
    let a = context("alpha", "main");
    let b = context("beta", "dev");
    let out = process_event(&mut state, &terminal_event("ls", 0, "/a", "end", 100), &a);
    assert_eq!(out.len(), 1);
    assert_eq!(out[0].entities.project.as_deref(), Some("alpha"));
    assert_eq!(out[0].entities.branch.as_deref(), Some("main"));
    let out = process_event(&mut state, &terminal_event("ls", 0, "/b", "end", 101), &b);
    assert_eq!(out[0].kind, "session_boundary");
    assert_eq!(out[0].entities.category.as_deref(), Some("project_switch"));
    assert_eq!(out[0].summary, "Switched project: alpha -> beta");
    assert_eq!(out[1].session_id, 2);
    assert_eq!(state.current_project().as_deref(), Some("beta"));
}

#[test]
fn a_commit_closes_the_session() {
    let mut state = NormalizerState::new();
    let out = run(&mut state, &terminal_event("git commit -m x", 0, "/a", "end", 100));
    assert!(out.iter().any(|e| e.kind == "session_boundary"
        && e.entities.category.as_deref() == Some("git_commit")
        && e.summary == "Committed changes"));
    assert_eq!(state.session_id, 2);
}

#[test]
fn a_search_after_a_failed_test_is_correlated_once() {
    let mut state = NormalizerState::new();
    run(&mut state, &terminal_event("cargo test", 101, "/a", "end", 1_000));
    let first = run(&mut state, &search_event("assertion failed", 1_100));
    assert!(first.iter().any(|e| e.correlated_with.iter().any(|c| c == "recent_test_failure")));
    assert!(first.iter().any(|e| e.summary == "Searched \"assertion failed\""));
    let second = run(&mut state, &search_event("assertion failed", 1_110));
    assert!(second.iter().all(|e| e.correlated_with.is_empty()));
}

#[test]
fn flicker_is_dropped() {
    let mut state = NormalizerState::new();
    assert!(run(&mut state, &window_event("blur", "code", "x", Some(0), 10)).is_empty());
    let out = run(&mut state, &window_event("focus", "Spotify", "song", None, 11));
    assert!(out.is_empty());
}

#[test]
fn session_state_by_itself() {
    let mut state = NormalizerState::new();
    assert_eq!(state.next_seq(), 1);
    assert_eq!(state.next_seq(), 2);
    assert!(state.note_activity(100).is_none());
    assert!(state.note_activity(50).is_none());
    // The last activity is still at 100.
    assert!(state.note_activity(400).is_none());
    let gap = state.note_activity(701).unwrap();
    assert_eq!((gap.seq, gap.session_id), (3, 2));
    assert!(state.note_project("p", 701).is_none());
    assert!(state.note_project("p", 702).is_none());
    assert_eq!(state.note_project("q", 703).unwrap().session_id, 3);
    assert_eq!(state.git_commit_boundary(704).session_id, 4);
    assert!(state.note_browser_category(Some("social"), 800).is_none());
    state.note_on_task_activity();
    assert!(state.note_browser_category(Some("entertainment"), 1_000).is_none());
    assert!(state.note_browser_category(Some("entertainment"), 1_179).is_none());
    assert!(state.note_browser_category(Some("entertainment"), 1_180).is_some());
    assert_eq!(state.current_project(), None);
    state.record_command("ls", &None, 5);
    assert!(state.is_repeated_command("ls", &None, 10));
    assert!(!state.is_repeated_command("ls", &None, 11));
    assert!(!state.is_repeated_command("ls", &Some("/".to_string()), 6));
    state.record_test_failure(100);
    assert!(!state.check_test_failure_correlation(99));
    assert!(state.check_test_failure_correlation(220));
    assert!(!state.check_test_failure_correlation(221));
    assert!(state.has_room());
    assert_eq!(state.session(), state.session_id);
}

#[test]
fn applications_have_canonical_names() {
    assert_eq!(canonical_app("code"), "vscode");
    assert_eq!(normalize_app_name(&Some("Code".to_string())).as_deref(), Some("vscode"));
    assert_eq!(normalize_app_name(&None), None);
    assert!(is_background_app(&Some("SPOTIFY".to_string())));
    assert!(!is_background_app(&Some("kitty".to_string())));
    assert!(!is_background_app(&None));
    // Lowercase is that of Unicode.
    assert_eq!(normalize_app_name(&Some("ÄPFEL".to_string())).as_deref(), Some("äpfel"));
}

#[test]
fn commands_are_taken_apart() {
    let c = parse_command("cargo test --all", &context("p", "b"));
    assert_eq!(c.tool.as_deref(), Some("cargo"));
    assert_eq!(c.subcommand.as_deref(), Some("test"));
    assert_eq!(c.project.as_deref(), Some("p"));
    assert_eq!(c.branch.as_deref(), Some("b"));
    assert!(is_test_command(&c, "cargo test --all"));
    let c = parse_command("git commit -m x", &ProjectContext::unknown());
    assert!(is_git_commit(&c));
    assert!(!is_test_command(&c, "git commit -m x"));
    let c = parse_command("", &ProjectContext::unknown());
    assert_eq!(c.tool, None);
}

#[test]
fn domains_are_extracted() {
    assert_eq!(extract_domain("https://www.example.com/a?b").as_deref(), Some("www.example.com"));
    assert_eq!(extract_domain("https://me@host.org#x").as_deref(), Some("host.org"));
    assert_eq!(extract_domain("http://localhost:3030/x").as_deref(), Some("localhost"));
    assert_eq!(extract_domain(""), None);
}

#[test]
fn projects_are_found_by_their_root() {
    let dirs = project_root_candidates("/home/me/work/app/src", Some("/home/me"));
    assert_eq!(dirs, vec!["/home/me/work/app/src", "/home/me/work/app", "/home/me/work"]);
    let marked = vec![false, true, true];
    let root = find_project_root(&dirs, &marked);
    assert_eq!(root.as_deref(), Some("/home/me/work/app"));
    assert_eq!(find_project_root(&dirs, &vec![false, false, false]), None);
    assert!(project_root_candidates("/home/me", Some("/home/me")).is_empty());
    let head = Some("ref: refs/heads/feature/x\n".to_string());
    assert_eq!(read_git_branch("ref: refs/heads/feature/x\n").as_deref(), Some("feature/x"));
    assert_eq!(read_git_branch("0123456"), None);
    let context = project_and_branch(&root, &head);
    assert_eq!(context.project.as_deref(), Some("app"));
    assert_eq!(context.branch.as_deref(), Some("feature/x"));
    let nowhere = project_and_branch(&None, &None);
    assert_eq!(nowhere.project, None);
}

#[test]
fn window_titles_are_taken_apart() {
    let w = parse_window_title(
        &Some("Code".to_string()),
        &Some("main.rs - daemon - Visual Studio Code".to_string()),
        &ProjectContext::unknown(),
    );
    assert_eq!(w.app.as_deref(), Some("vscode"));
    assert_eq!(w.file.as_deref(), Some("main.rs"));
    assert_eq!(w.project.as_deref(), Some("daemon"));
}

#[test]
fn entities_can_be_empty() {
    let mut e = Entities::none();
    assert!(e.is_empty());
    e.exit_code = Some(0);
    assert!(!e.is_empty());
}

#[test]
fn reruns_extend_the_window() {
    let mut state = NormalizerState::new();
    assert_eq!(run(&mut state, &terminal_event("make", 0, "/a", "end", 100)).len(), 1);
    // Each one is within five seconds of the one before it.
    for at in [105, 110, 115, 120] {
        assert!(run(&mut state, &terminal_event("make", 0, "/a", "end", at)).is_empty());
    }
    assert_eq!(run(&mut state, &terminal_event("make", 0, "/a", "end", 126)).len(), 1);
}

#[test]
fn directories_are_marked_by_well_known_files() {
    assert_eq!(
        project_markers(),
        vec![".git", "package.json", "Cargo.toml", "pyproject.toml", "go.mod", "setup.py"]
    );
}

#[test]
fn events_without_a_directory_have_no_project() {
    let mut state = NormalizerState::new();
    let known = context("alpha", "main");
    let raw = window_event("focus", "firefox", "News - Mozilla Firefox", None, 10);
    assert_eq!(working_directory(&raw), None);
    let out = process_event(&mut state, &raw, &known);
    assert_eq!(out[0].entities.project, None);
    assert_eq!(out[0].entities.branch, None);
    let raw = terminal_event("ls", 0, "/home/me/alpha", "end", 11);
    assert_eq!(working_directory(&raw).as_deref(), Some("/home/me/alpha"));
    let out = process_event(&mut state, &raw, &known);
    assert_eq!(out[0].entities.project.as_deref(), Some("alpha"));
    assert_eq!(working_directory(&browser_event("social", 12)), None);
}

#[test]
fn a_visit_after_a_failed_test_is_correlated_once() {
    let mut state = NormalizerState::new();
    run(&mut state, &terminal_event("pytest", 1, "/a", "end", 100));
    let visit = run(&mut state, &browser_event("documentation", 220));
    assert_eq!(visit.len(), 1);
    assert_eq!(visit[0].kind, "navigation");
    assert_eq!(visit[0].correlated_with, vec!["recent_test_failure"]);
    let search = run(&mut state, &search_event("why", 221));
    assert!(search[0].correlated_with.is_empty());
    // Too late is too late.
    run(&mut state, &terminal_event("pytest -x", 1, "/a", "end", 300));
    let visit = run(&mut state, &browser_event("documentation", 421));
    assert!(visit[0].correlated_with.is_empty());
}

#[test]
fn any_other_activity_ends_an_off_task_run() {
    let copied = obj(vec![(
        "Clipboard",
        obj(vec![
            ("content_type", text("code")),
            ("length", num(5)),
            ("timestamp", num(1_100)),
        ]),
    )]);
    let saved = obj(vec![(
        "FileChange",
        obj(vec![("path", text("/a/b.rs")), ("timestamp", num(1_100))]),
    )]);
    let others = vec![
        copied,
        saved,
        terminal_event("make", 0, "/a", "start", 1_100),
        terminal_event("make", 0, "/a", "end", 1_100),
        window_event("focus", "code", "x", None, 1_100),
    ];
    for other in others {
        let mut state = NormalizerState::new();
        run(&mut state, &browser_event("social", 1_000));
        run(&mut state, &other);
        let out = run(&mut state, &browser_event("social", 1_181));
        assert!(out.iter().all(|e| e.kind != "session_boundary"));
        assert_eq!(state.session_id, 1);
    }
    // A background application does not end the run.
    let mut state = NormalizerState::new();
    run(&mut state, &browser_event("social", 1_000));
    run(&mut state, &window_event("focus", "Spotify", "song", None, 1_100));
    let out = run(&mut state, &browser_event("social", 1_181));
    assert!(out.iter().any(|e| e.kind == "session_boundary"));
}

#[test]
fn titles_are_cut_at_dashes_of_any_length() {
    for title in [
        "main.rs - activity-monitor - Visual Studio Code",
        "main.rs \u{2013} activity-monitor \u{2013} Visual Studio Code",
        "main.rs \u{2014} activity-monitor \u{2014} Visual Studio Code",
        "main.rs \u{2014} activity-monitor - Visual Studio Code",
    ] {
        let w = parse_window_title(
            &Some("Code".to_string()),
            &Some(title.to_string()),
            &ProjectContext::unknown(),
        );
        assert_eq!(w.file.as_deref(), Some("main.rs"));
        assert_eq!(w.project.as_deref(), Some("activity-monitor"));
    }
}

#[test]
fn roots_are_found_however_far_up() {
    let dirs = project_root_candidates("/r/a/b/c/d/e/f/g/h/i/j", Some("/home/me"));
    assert_eq!(dirs.len(), 12);
    assert_eq!(dirs[10], "/r");
    assert_eq!(dirs[11], "/");
    let marked: Vec<bool> = dirs.iter().map(|d| d == "/r").collect();
    assert_eq!(find_project_root(&dirs, &marked).as_deref(), Some("/r"));
    let dirs = project_root_candidates("/r/a/b/c", Some("/r/a/"));
    assert_eq!(dirs, vec!["/r/a/b/c", "/r/a/b"]);
}

#[test]
fn application_names_are_stable() {
    for name in ["Code", "VSCodium", "Google-Chrome", "Navigator", "KITTY", "Slack", "vim"] {
        let once = normalize_app_name(&Some(name.to_string()));
        assert_eq!(normalize_app_name(&once), once);
        assert_eq!(normalize_app_name(&Some(name.to_uppercase())), once);
    }
    assert_eq!(normalize_app_name(&None), None);
}

#[test]
fn foreign_application_names_are_lowercased_too() {
    let once = normalize_app_name(&Some("\u{c9}diteur".to_string()));
    assert_eq!(once.as_deref(), Some("\u{e9}diteur"));
    assert_eq!(normalize_app_name(&once), once);
    assert_eq!(normalize_app_name(&Some("\u{c9}DITEUR".to_string())), once);
}
