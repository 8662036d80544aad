use activity_monitor::collectors::browser::{browser_event, BrowserPayload};
use activity_monitor::collectors::clipboard::{
    build_event, classify, looks_like_secret, truncate, ClipboardWatch,
};
use activity_monitor::collectors::filesystem::{
    extract_cwd, file_changed, is_ignored, watch_candidates, ChangeKind, Debouncer, WatchAction,
    WatchedRoots, DEBOUNCE_NANOS,
};
use activity_monitor::collectors::process::{
    listening_port, note_socket, owned_ports, parse_proc_net_tcp, process_id, same_ports,
    socket_inode, PortWatch,
};
use activity_monitor::collectors::terminal::{is_blank, terminal_event, TermMessage};
use activity_monitor::collectors::window::{
    focus_changed, parse_wm_class, window_launched, window_title, FocusState, WindowInfo,
};
use activity_monitor::event::Event;
use activity_monitor::json::{Json, Number};
use std::collections::HashMap;

fn text(s: &str) -> Json {
    Json::Text(s.to_string())
}

fn obj(members: Vec<(&str, Json)>) -> Json {
    Json::Object(members.into_iter().map(|(k, v)| (k.to_string(), v)).collect())
}

fn some(s: &str) -> Option<String> {
    Some(s.to_string())
}

fn message(command: &str, timestamp: Option<u64>) -> TermMessage {
    TermMessage {
        command: command.to_string(),
        exit_code: Some(0),
        cwd: some("/w"),
        timestamp,
        phase: some("end"),
    }
}

#[test]
fn shell_messages_become_events() {
    match terminal_event(message("  ls ", None), 7) {
        Some(Event::Terminal { command, exit_code, cwd, phase, timestamp }) => {
            assert_eq!((command.as_str(), exit_code, timestamp), ("  ls ", Some(0), 7));
            assert_eq!((cwd, phase), (some("/w"), some("end")));
        }
        _ => panic!("a terminal event"),
    }
    assert!(matches!(
        terminal_event(message("ls", Some(3)), 7),
        Some(Event::Terminal { timestamp: 3, .. })
    ));
    for internal in ["_am_hook x", " PROMPT_COMMAND=1", "[[ x ]]", "", "a _ksi_ b", "builtin x"] {
        assert!(terminal_event(message(internal, None), 7).is_none());
    }
    assert!(is_blank(" \t\r"));
    assert!(!is_blank(" x "));
}

#[test]
fn browser_messages_have_defaults() {
    let empty = BrowserPayload {
        source: None,
        site: None,
        url: some("https://a.b/c"),
        title: None,
        h1: None,
        selection: None,
        category: None,
        search_query: None,
        timestamp: None,
    };
    match browser_event(empty, 12) {
        Event::Browser { source, site, url, timestamp, .. } => {
            assert_eq!((source.as_str(), site.as_str()), ("browser", "https://a.b/c"));
            assert_eq!((url, timestamp), (some("https://a.b/c"), 12));
        }
        _ => panic!("a browser event"),
    }
}

#[test]
fn copied_texts_are_classified() {
    assert_eq!(classify("https://example.com"), "url");
    assert_eq!(classify("Traceback (most recent call last):\n x"), "stack_trace");
    assert_eq!(classify("Fatal: not a git repository"), "error_message");
    assert_eq!(classify("LET x = 1"), "code");
    assert_eq!(classify("good morning"), "plain_text");
    assert!(looks_like_secret("abcDEF0123456789abcDEF0123456789"));
    assert!(!looks_like_secret("just a sentence with words"));
    assert!(!looks_like_secret("short1A"));
    assert_eq!(truncate("short"), "short");
    let long: String = "ä".repeat(500);
    assert!(truncate(&long).chars().count() < 500);
}

#[test]
fn secrets_are_not_shown() {
    match build_event(" abcDEF0123456789abcDEF0123456789\n", 5) {
        Event::Clipboard { content_type, preview, length, line_count, timestamp } => {
            assert_eq!((content_type.as_str(), preview), ("secret", None));
            assert_eq!((length, line_count, timestamp), (32, 1, 5));
        }
        _ => panic!("a clipboard event"),
    }
    let mut watch = ClipboardWatch::new();
    assert!(watch.observe("one", 1).is_some());
    assert!(watch.observe("one", 2).is_none());
    assert!(watch.observe("two", 3).is_some());
}

#[test]
fn working_directories_are_extracted() {
    let raw = |variant: &str, cwd: Json| obj(vec![(variant, obj(vec![("cwd", cwd)]))]);
    assert_eq!(extract_cwd(&raw("Window", text("/a"))), some("/a"));
    assert_eq!(extract_cwd(&raw("Terminal", text("/b"))), some("/b"));
    assert_eq!(extract_cwd(&raw("Browser", text("/b"))), None);
    assert_eq!(extract_cwd(&raw("Window", text(""))), None);
    assert_eq!(extract_cwd(&raw("Window", Json::Null)), None);
    assert_eq!(extract_cwd(&Json::Null), None);
    let two = obj(vec![("Window", obj(vec![("cwd", text("/a"))])), ("x", Json::Bool(true))]);
    assert_eq!(extract_cwd(&two), None);
}

#[test]
fn watched_roots_are_evicted_by_use() {
    let mut roots = WatchedRoots::new();
    for root in ["/a", "/b", "/c"] {
        assert!(matches!(roots.touch(root), WatchAction::Watch { evict: None }));
        roots.watching(root);
    }
    // The same root, written otherwise.
    assert!(matches!(roots.touch("/a/"), WatchAction::Keep));
    match roots.touch("/d") {
        WatchAction::Watch { evict } => assert_eq!(evict, some("/b")),
        _ => panic!("watched"),
    }
    roots.watching("/d");
    let order: Vec<&str> = roots.roots.iter().map(|r| r.as_str()).collect();
    assert_eq!(order, vec!["/c", "/a/", "/d"]);
    assert_eq!(roots.root_of("/c/x/y"), some("/c"));
    assert_eq!(roots.root_of("/cx"), None);
}

#[test]
fn generated_files_are_ignored() {
    assert!(is_ignored("/p/node_modules/x.js", None));
    assert!(is_ignored("/p/.git/HEAD", None));
    assert!(is_ignored("/p/a.db-wal", None));
    assert!(is_ignored("/data/x.txt", Some("/data")));
    assert!(!is_ignored("/database/x.txt", Some("/data")));
    assert!(!is_ignored("/p/src/main.rs", None));
    assert!(!is_ignored("/p/targets/x", None));
}

#[test]
fn bursts_are_reported_once() {
    let mut roots = WatchedRoots::new();
    roots.touch("/p");
    roots.watching("/p");
    let mut d = Debouncer::new();
    let mut change = |kind: ChangeKind, path: &str, now: u64| {
        file_changed(kind, path, &roots, &mut d, None, now, 42)
    };
    match change(ChangeKind::DataModified, "/p/a.rs", 1_000) {
        Some(Event::FileChange { path, kind, project, timestamp }) => {
            assert_eq!((path.as_str(), kind.as_str()), ("/p/a.rs", "modified"));
            assert_eq!((project, timestamp), (some("/p"), 42));
        }
        _ => panic!("a file change"),
    }
    assert!(change(ChangeKind::DataModified, "/p/a.rs", 1_000 + DEBOUNCE_NANOS - 1).is_none());
    assert!(change(ChangeKind::Renamed, "/p/b.rs", 1_001).is_some());
    assert!(change(ChangeKind::Removed, "/p/a.rs", 1_000 + DEBOUNCE_NANOS).is_some());
    assert!(change(ChangeKind::Other, "/p/c.rs", 5).is_none());
    assert!(change(ChangeKind::Created, "/p/target/c.rs", 5).is_none());
    assert!(matches!(
        change(ChangeKind::Created, "/q/c.rs", 5),
        Some(Event::FileChange { project: None, .. })
    ));
}

#[test]
fn old_paths_are_forgotten() {
    let mut d = Debouncer::new();
    for i in 0..2_000u64 {
        assert!(d.register(&format!("/p/{}", i), i));
    }
    assert_eq!(d.entries.len(), 2_000);
    let later = 60_000_000_000 + 1_000;
    assert!(d.register("/p/new", later));
    // Those that were reported a minute ago or longer are gone.
    assert_eq!(d.entries.len(), 1_000);
    assert!(!d.register("/p/new", later + 1));
}

#[test]
fn listening_sockets_are_parsed() {
    let content = "  sl  local_address rem_address   st tx_queue rx_queue tr tm->when retrnsmt   uid  timeout inode\n\
   0: 0100007F:0BD6 00000000:0000 0A 00000000:00000000 00:00000000 00000000  1000        0 31337 1\n\
   1: 0100007F:1F90 00000000:0000 01 00000000:00000000 00:00000000 00000000  1000        0 4242 1\n";
    assert_eq!(parse_proc_net_tcp(content), vec![(3030, 31337)]);
    assert_eq!(socket_inode("socket:[31337]"), Some(31337));
    assert_eq!(socket_inode("/dev/null"), None);
    assert_eq!(process_id("123"), Some(123));
    assert_eq!(process_id("self"), None);
    let mut owners: HashMap<u64, u32> = HashMap::new();
    note_socket(&mut owners, 31337, 5);
    note_socket(&mut owners, 31337, 6);
    assert_eq!(owned_ports(&vec![(3030, 31337), (80, 1)], &owners), vec![(3030, 5)]);
    let port = listening_port(3030, 5, &some("node\n"));
    assert_eq!((port.port, port.process.as_str(), port.pid), (3030, "node", 5));
    assert_eq!(listening_port(1, 2, &None).process, "unknown");
}

#[test]
fn ports_are_published_on_change() {
    let port = |p: u16, pid: u32| listening_port(p, pid, &None);
    assert!(same_ports(&vec![port(1, 2), port(3, 4)], &vec![port(3, 4), port(1, 2)]));
    assert!(!same_ports(&vec![port(1, 2)], &vec![port(1, 3)]));
    assert!(!same_ports(&vec![port(1, 2)], &vec![]));
    let mut watch = PortWatch::new();
    assert!(watch.observe(vec![port(1, 2), port(3, 4)], 5).is_some());
    assert!(watch.observe(vec![port(3, 4), port(1, 2)], 6).is_none());
    assert!(watch.observe(vec![port(3, 4)], 7).is_some());
}

#[test]
fn focus_changes_come_with_dwell_times() {
    let window = |app: &str| WindowInfo { application: some(app), title: None, cwd: None };
    let mut focus: Option<FocusState> = None;
    assert_eq!(focus_changed(&mut focus, window("a"), 100).len(), 1);
    let events = focus_changed(&mut focus, window("b"), 130);
    assert_eq!(events.len(), 2);
    match (&events[0], &events[1]) {
        (
            Event::Window { event_type: e0, application: a0, duration_secs: d0, .. },
            Event::Window { event_type: e1, application: a1, duration_secs: d1, .. },
        ) => {
            assert_eq!((e0.as_str(), a0, *d0), ("blur", &some("a"), Some(30)));
            assert_eq!((e1.as_str(), a1, *d1), ("focus", &some("b"), None));
        }
        _ => panic!("window events"),
    }
    assert_eq!(focus.unwrap().started_at, 130);
    assert!(matches!(
        window_launched(window("c"), 9),
        Event::Window { timestamp: 9, duration_secs: None, .. }
    ));
}

#[test]
fn window_properties_are_decoded() {
    assert_eq!(parse_wm_class(b"code\0Code\0"), some("Code"));
    assert_eq!(window_title(Some("Grüße".as_bytes().to_vec()), None), some("Grüße"));
    assert_eq!(window_title(None, Some(b"plain".to_vec())), some("plain"));
    assert_eq!(window_title(None, None), None);
    // Not UTF-8.
    assert_eq!(window_title(None, Some(vec![0xff, 0xfe])), None);
}

#[test]
fn raw_numbers_are_no_directories() {
    let raw = obj(vec![("Window", obj(vec![("cwd", Json::Number(Number::Natural(1)))]))]);
    assert_eq!(extract_cwd(&raw), None);
}

#[test]
fn roots_to_watch_are_near() {
    let dirs = watch_candidates("/r/a/b/c/d/e/f/g/h/i/j", None);
    assert_eq!(dirs.len(), 8);
    assert_eq!(dirs[0], "/r/a/b/c/d/e/f/g/h/i/j");
    assert_eq!(dirs[7], "/r/a/b/c");
    assert_eq!(watch_candidates("/home/me/x", Some("/home/me")), vec!["/home/me/x"]);
}
