use activity_monitor::arithmetic::Operation;
use activity_monitor::distiller::aggregate::distill;
use activity_monitor::distiller::aggregate::friction::{is_about, FRICTION_PROMOTE_THRESHOLD};
use activity_monitor::distiller::aggregate::stack::STACK_INCREMENT;
use activity_monitor::distiller::features::{classify_phase, classify_resolution};
use activity_monitor::distiller::layer::DistillerState;
use activity_monitor::distiller::summary::{
    distinct_hours, find_most_counted, summarize_immediate_states, summarize_session,
    summarize_with_hours,
};
use activity_monitor::distiller::{ErrorLoopSummary, SessionIntent};
use activity_monitor::json::{Json, Number};
use activity_monitor::profile::UserProfile;
use activity_monitor::quantity::Quantity;
use activity_monitor::table::Table;
use std::sync::Arc;

fn calc(op: Operation, a: u64, b: u64) -> u64 {
    let x = f64::from_bits(a);
    let y = f64::from_bits(b);
    match op {
        Operation::Add => (x + y).to_bits(),
        Operation::Subtract => (x - y).to_bits(),
        Operation::Multiply => (x * y).to_bits(),
        Operation::Divide => (x / y).to_bits(),
        Operation::SquareRoot => x.sqrt().to_bits(),
        Operation::Convert => (a as f64).to_bits(),
    }
}

fn q(x: f64) -> Quantity {
    Quantity { bits: x.to_bits() }
}

fn value(x: Quantity) -> f64 {
    f64::from_bits(x.bits)
}

fn ema(old: f64, sample: f64) -> f64 {
    old * (1.0 - 0.3) + sample * 0.3
}

fn text(s: &str) -> Json {
    Json::Text(s.to_string())
}

fn num(n: u64) -> Json {
    Json::Number(Number::Natural(n))
}

fn fraction(x: f64) -> Json {
    Json::Number(Number::Fraction(q(x)))
}

fn obj(members: Vec<(&str, Json)>) -> Json {
    Json::Object(members.into_iter().map(|(k, v)| (k.to_string(), v)).collect())
}

fn ev(
    seq: u64,
    ts: u64,
    source: &str,
    kind: &str,
    summary: &str,
    entities: Vec<(&str, Json)>,
) -> Arc<Json> {
    Arc::new(obj(vec![
        ("seq", num(seq)),
        ("timestamp", num(ts)),
        ("session_id", num(1)),
        ("source", text(source)),
        ("kind", text(kind)),
        ("summary", text(summary)),
        ("entities", obj(entities)),
    ]))
}

fn table(entries: Vec<(&str, u64)>) -> Table<u64> {
    let mut t = Table::new();
    for (k, v) in entries {
        t.set(k, v);
    }
    t
}

fn sample_session() -> SessionIntent {
    let mut project_branches = Table::new();
    project_branches.set("activity-monitor", vec!["main".to_string()]);
    SessionIntent {
        session_id: 1,
        start_ts: 1_000,
        end_ts: 1_000 + 60 * 30,
        duration_min: q(30.0),
        end_reason: "inactivity_gap".to_string(),
        event_count: 20,
        project_event_counts: table(vec![("activity-monitor", 10)]),
        project_branches,
        primary_project: Some("activity-monitor".to_string()),
        app_focus_counts: table(vec![("vscode", 5)]),
        active_hours: vec![10],
        commands_run: 3,
        commands_failed: 1,
        tool_counts: table(vec![("cargo", 3)]),
        command_sequence: vec!["cargo build".to_string(), "cargo test".to_string()],
        files_changed: 4,
        browser_domain_counts: Table::new(),
        doc_domain_counts: table(vec![("doc.rust-lang.org", 2)]),
        browser_category_counts: Table::new(),
        search_queries: vec![],
        clipboard_events: 0,
        test_failures: 1,
        test_failure_tools: table(vec![("cargo", 1)]),
        friction_resolutions: vec!["doc_lookup".to_string()],
        search_before_try: Some(true),
        phase_counts: table(vec![("implementation", 7), ("debugging", 3)]),
        dominant_phase: "implementation".to_string(),
        immediate_signal_counts: Table::new(),
        error_loops: vec![],
        max_blocking_score: q(0.0),
        final_blocking_score: q(0.0),
        blocking_score_trend: q(0.0),
        gate_open_count: 0,
    }
}

fn seed() -> UserProfile {
    UserProfile::seed_typical_developer(77, Some("/usr/bin/zsh"), "linux")
}

#[test]
fn distill_updates_profile_from_session() {
    let mut profile = seed();
    let session = sample_session();

    distill(&mut profile, &session, &vec![], calc);

    // Stack: touched app/tool weights bumped from zero.
    assert_eq!(
        profile.stack.stack_weights.get("vscode"),
        Some(&Quantity { bits: STACK_INCREMENT })
    );
    assert_eq!(
        profile.stack.stack_weights.get("cargo"),
        Some(&Quantity { bits: STACK_INCREMENT })
    );
    assert!(profile.stack.tool_proficiency.get("cargo").is_some());
    assert!(profile.stack.doc_domains.iter().any(|d| d.domain == "doc.rust-lang.org"));

    // Projects: new project created and updated.
    let project = profile
        .projects
        .projects
        .iter()
        .find(|p| p.name == "activity-monitor")
        .expect("project recorded");
    assert_eq!(project.session_count, 1);
    assert_eq!(project.last_active, session.end_ts);
    assert_eq!(project.active_branches, vec!["main".to_string()]);
    assert_eq!(profile.projects.last_active_project, Some("activity-monitor".to_string()));

    // Rhythm: rolling average reflects this session's duration.
    assert_eq!(value(profile.rhythm.avg_session_len_min), 30.0);
    assert!(profile.rhythm.active_hours.get("10").map(|w| value(*w)).unwrap_or(0.0) > 0.0);

    // Friction: candidate pattern created for cargo test failures.
    let pattern = profile
        .friction
        .friction_patterns
        .iter()
        .find(|p| p.tool == "cargo" && p.error_class == "test_failure")
        .expect("friction pattern recorded");
    assert_eq!(pattern.count, 1);
    assert_eq!(pattern.status, "candidate");
    assert!(profile
        .friction
        .command_sequences
        .iter()
        .any(|c| c.seq == vec!["cargo build".to_string(), "cargo test".to_string()]));

    // Behavioral: search-before-try ratio nudged toward 1.
    assert!(value(profile.behavioral.search_before_try_ratio) > 0.5);

    // Meta: session counted and confidence increased from zero.
    assert_eq!(profile.meta.sessions_total, 1);
    assert_eq!(profile.meta.sessions_in_window, 1);
    assert!(value(profile.meta.confidence_overall) > 0.0);
}

#[test]
fn friction_pattern_promotes_after_threshold() {
    let mut profile = seed();
    let session = sample_session();

    for _ in 0..FRICTION_PROMOTE_THRESHOLD {
        distill(&mut profile, &session, &vec![], calc);
    }

    let pattern = profile
        .friction
        .friction_patterns
        .iter()
        .find(|p| p.tool == "cargo" && p.error_class == "test_failure")
        .expect("friction pattern recorded");
    assert_eq!(pattern.count, FRICTION_PROMOTE_THRESHOLD);
    assert_eq!(pattern.status, "confirmed");
}

#[test]
fn summarize_session_compresses_normalized_events() {
    let events = vec![
        ev(
            1,
            1_000,
            "window",
            "focus",
            "focused vscode",
            vec![("app", text("vscode")), ("project", text("activity-monitor"))],
        ),
        ev(
            2,
            1_010,
            "terminal",
            "command",
            "cargo test",
            vec![
                ("tool", text("cargo")),
                ("subcommand", text("test")),
                ("exit_code", num(1)),
                ("project", text("activity-monitor")),
                ("branch", text("main")),
            ],
        ),
        ev(
            3,
            1_020,
            "browser",
            "navigation",
            "docs.rs",
            vec![("domain", text("doc.rust-lang.org")), ("category", text("documentation"))],
        ),
    ];

    let session =
        summarize_session(1, &events, 1_030, "inactivity_gap".to_string(), &vec![], calc);

    assert_eq!(session.session_id, 1);
    assert_eq!(session.start_ts, 1_000);
    assert_eq!(session.end_ts, 1_030);
    assert_eq!(session.event_count, 3);
    assert_eq!(session.primary_project, Some("activity-monitor".to_string()));
    assert_eq!(session.project_branches.get("activity-monitor"), Some(&vec!["main".to_string()]));
    assert_eq!(session.app_focus_counts.get("vscode"), Some(&1));
    assert_eq!(session.commands_run, 1);
    assert_eq!(session.commands_failed, 1);
    assert_eq!(session.test_failures, 1);
    assert_eq!(session.test_failure_tools.get("cargo"), Some(&1));
    assert_eq!(session.friction_resolutions, vec!["doc_lookup".to_string()]);
    assert_eq!(session.doc_domain_counts.get("doc.rust-lang.org"), Some(&1));
    // The doc-lookup navigation came after the failed command in this
    // sequence, so search_before_try is Some(false), not None.
    assert_eq!(session.search_before_try, Some(false));
    // The clock showed one and the same hour here during these seconds.
    assert_eq!(session.active_hours.len(), 1);
    assert!(session.active_hours[0] < 24);
}

#[test]
fn summarize_session_folds_in_immediate_states() {
    let events = vec![ev(
        1,
        1_000,
        "terminal",
        "command",
        "pytest",
        vec![
            ("tool", text("pytest")),
            ("subcommand", text("test")),
            ("exit_code", num(1)),
            ("project", text("activity-monitor")),
        ],
    )];

    let immediate_owned = vec![
        Arc::new(obj(vec![
            ("ts", num(1_000)),
            ("session_id", num(1)),
            ("signal", text("none")),
            ("blocking_score", fraction(0.1)),
            ("blocking_score_delta", fraction(0.0)),
            ("gate", text("closed:no_trigger")),
        ])),
        Arc::new(obj(vec![
            ("ts", num(1_100)),
            ("session_id", num(1)),
            ("signal", text("error_loop")),
            (
                "error_context",
                obj(vec![
                    ("tool", text("pytest")),
                    ("subcommand", text("test")),
                    ("failure_count", num(2)),
                    ("search_count", num(1)),
                    ("duration_sec", num(150)),
                    ("domain", text("stackoverflow.com")),
                ]),
            ),
            ("blocking_score", fraction(0.6)),
            ("blocking_score_delta", fraction(0.5)),
            ("gate", text("open:extended_block")),
        ])),
        // A different session's state should be ignored entirely.
        Arc::new(obj(vec![
            ("ts", num(1_200)),
            ("session_id", num(2)),
            ("signal", text("error_loop")),
            (
                "error_context",
                obj(vec![
                    ("tool", text("cargo")),
                    ("subcommand", text("build")),
                    ("failure_count", num(5)),
                    ("search_count", num(5)),
                    ("duration_sec", num(9_999)),
                    ("domain", text("example.com")),
                ]),
            ),
            ("blocking_score", fraction(0.99)),
            ("blocking_score_delta", fraction(0.0)),
            ("gate", text("open:extended_block")),
        ])),
    ];
    let immediate: Vec<Arc<Json>> = immediate_owned
        .iter()
        .filter(|s| s.get_natural("session_id") == Some(1))
        .cloned()
        .collect();

    let session =
        summarize_session(1, &events, 1_200, "inactivity_gap".to_string(), &immediate, calc);

    assert_eq!(session.immediate_signal_counts.get("error_loop"), Some(&1));
    assert_eq!(session.immediate_signal_counts.get("none"), None);
    assert_eq!(session.error_loops.len(), 1);
    assert_eq!(session.error_loops[0].tool, "pytest");
    assert_eq!(session.error_loops[0].duration_sec, 150);
    assert_eq!(session.error_loops[0].domain.as_deref(), Some("stackoverflow.com"));
    assert_eq!(value(session.max_blocking_score), 0.6);
    assert_eq!(value(session.final_blocking_score), 0.6);
    assert!((value(session.blocking_score_trend) - 0.5).abs() < 1e-9);
    assert_eq!(session.gate_open_count, 1);
}

#[test]
fn an_empty_session_has_defaults() {
    let s = summarize_with_hours(7, &vec![], &vec![], 0, "unclassified".to_string(), &vec![], calc);
    assert_eq!((s.session_id, s.start_ts, s.end_ts, s.event_count), (7, 0, 0, 0));
    assert_eq!(s.dominant_phase, "implementation");
    assert_eq!(s.primary_project, None);
    assert_eq!(s.search_before_try, None);
    assert_eq!(value(s.duration_min), 0.0);
    assert!(s.active_hours.is_empty());
}

#[test]
fn sessions_are_dated_by_their_events() {
    let events = vec![
        ev(1, 0, "clipboard", "copy", "", vec![]),
        ev(2, 500, "filesystem", "file_change", "", vec![]),
        ev(3, 440, "browser", "navigation", "", vec![("search_query", text("rust"))]),
    ];
    let hours = vec![None, Some(9), Some(9)];
    let s = summarize_with_hours(1, &events, &hours, 0, "x".to_string(), &vec![], calc);
    assert_eq!((s.start_ts, s.end_ts), (440, 500));
    assert_eq!(value(s.duration_min), 1.0);
    assert_eq!(s.active_hours, vec![9]);
    assert_eq!((s.clipboard_events, s.files_changed), (1, 1));
    assert_eq!(s.search_queries, vec!["rust".to_string()]);
    assert_eq!(s.phase_counts.get("research"), Some(&1));
    assert_eq!(s.phase_counts.get("implementation"), Some(&1));
    assert_eq!(distinct_hours(&vec![Some(3), None, Some(4), Some(3)]), vec![3, 4]);
}

#[test]
fn the_longest_loop_of_a_tool_is_kept() {
    let state = |tool: &str, secs: u64, score: Json| {
        Arc::new(obj(vec![
            ("signal", text("error_loop")),
            ("error_context", obj(vec![("tool", text(tool)), ("duration_sec", num(secs))])),
            ("blocking_score", score),
        ]))
    };
    let states = vec![
        state("a", 10, num(1)),
        state("b", 5, Json::Number(Number::Negative(-2))),
        state("a", 7, fraction(0.5)),
        state("a", 20, Json::Null),
    ];
    let s = summarize_with_hours(1, &vec![], &vec![], 9, "x".to_string(), &states, calc);
    let loops: Vec<(&str, u64)> =
        s.error_loops.iter().map(|l| (l.tool.as_str(), l.duration_sec)).collect();
    assert_eq!(loops, vec![("a", 20), ("b", 5)]);
    assert_eq!(s.immediate_signal_counts.get("error_loop"), Some(&4));
    assert_eq!(value(s.max_blocking_score), 1.0);
    assert_eq!(value(s.final_blocking_score), 0.0);
    assert_eq!(value(s.blocking_score_trend), -1.0);
}

#[test]
fn phases_and_resolutions_are_classified() {
    let failed = ev(1, 1, "terminal", "command", "", vec![("exit_code", num(2))]);
    assert_eq!(classify_phase(&failed), Some("debugging"));
    let fine = ev(1, 1, "terminal", "command", "", vec![("exit_code", num(0))]);
    assert_eq!(classify_phase(&fine), Some("implementation"));
    let looked = ev(1, 1, "browser", "navigation", "", vec![("category", text("error_lookup"))]);
    assert_eq!(classify_phase(&looked), Some("debugging"));
    let wandered = ev(1, 1, "browser", "navigation", "", vec![("category", text("news"))]);
    assert_eq!(classify_phase(&wandered), Some("exploration"));
    let focus = ev(1, 1, "window", "focus", "", vec![]);
    assert_eq!(classify_phase(&focus), None);
    let correlated = obj(vec![
        ("kind", text("navigation")),
        ("correlated_with", Json::Array(vec![text("recent_test_failure")])),
    ]);
    assert_eq!(classify_phase(&correlated), Some("debugging"));

    let events = vec![failed.clone(), wandered.clone(), fine.clone(), looked.clone()];
    assert_eq!(classify_resolution(&events, 0), "trial_error");
    assert_eq!(classify_resolution(&events, 2), "doc_lookup");
    assert_eq!(classify_resolution(&events, 3), "step_away");
    // Fifteen events are looked at, and no more.
    let mut long = vec![failed.clone()];
    for _ in 0..14 {
        long.push(focus.clone());
    }
    long.push(looked.clone());
    assert_eq!(classify_resolution(&long, 0), "doc_lookup");
    long.insert(1, focus.clone());
    assert_eq!(classify_resolution(&long, 0), "step_away");
}

#[test]
fn the_most_counted_name_wins() {
    assert_eq!(find_most_counted(&table(vec![])), None);
    let t = table(vec![("a", 1), ("b", 3), ("c", 2)]);
    assert_eq!(find_most_counted(&t).as_deref(), Some("b"));
}

#[test]
fn sessions_are_closed_by_boundaries() {
    let boundary = |id: u64, ts: u64| {
        Arc::new(obj(vec![
            ("kind", text("session_boundary")),
            ("session_id", num(id)),
            ("timestamp", num(ts)),
            ("entities", obj(vec![("category", text("git_commit"))])),
        ]))
    };
    let state = |id: u64| Arc::new(obj(vec![("session_id", num(id))]));
    let mut d = DistillerState::new();
    let first = ev(1, 100, "terminal", "command", "", vec![]);
    assert!(d.on_normalized(first.clone()).is_none());
    d.on_immediate(state(1));
    d.on_immediate(state(2));
    let closed = d.on_normalized(boundary(2, 200)).unwrap();
    assert_eq!((closed.session_id, closed.end_ts), (1, 200));
    assert_eq!(closed.end_reason, "git_commit");
    assert_eq!(closed.events.len(), 1);
    assert!(Arc::ptr_eq(&closed.events[0], &first));
    assert_eq!(closed.immediate.len(), 1);
    // Nothing happened in the next session.
    assert!(d.on_normalized(boundary(3, 300)).is_none());
    assert_eq!(d.session_id, Some(3));
    // A boundary that does not say why.
    d.on_normalized(first);
    let bare = Arc::new(obj(vec![("kind", text("session_boundary"))]));
    let closed = d.on_normalized(bare).unwrap();
    assert_eq!((closed.session_id, closed.end_ts), (3, 0));
    assert_eq!(closed.end_reason, "unclassified");
    assert_eq!(d.session_id, None);
}

#[test]
fn weights_decay_and_vanish() {
    let mut profile = seed();
    let session = sample_session();
    distill(&mut profile, &session, &vec![], calc);
    let mut quiet = sample_session();
    quiet.app_focus_counts = Table::new();
    quiet.tool_counts = Table::new();
    quiet.doc_domain_counts = Table::new();
    quiet.test_failure_tools = Table::new();
    quiet.command_sequence = vec![];
    distill(&mut profile, &quiet, &vec![], calc);
    assert_eq!(value(*profile.stack.stack_weights.get("vscode").unwrap()), 0.15 * 0.95);
    assert_eq!(value(profile.stack.doc_domains[0].weight), 0.2 * 0.95);
    assert_eq!(value(profile.stack.tool_proficiency.get("cargo").unwrap().weight), 0.15 * 0.95);
    for _ in 0..60 {
        distill(&mut profile, &quiet, &vec![], calc);
    }
    assert!(profile.stack.stack_weights.get("vscode").is_none());
    assert!(profile.stack.tool_proficiency.get("cargo").is_none());
    assert!(profile.stack.doc_domains.is_empty());
    // The pattern was never confirmed, so it is forgotten too.
    assert!(profile.friction.friction_patterns.is_empty());
    assert!(profile.friction.command_sequences.is_empty());
}

#[test]
fn confirmed_patterns_stay() {
    let mut profile = seed();
    profile.identity.friction_self_reported = vec!["flaky TESTS".to_string()];
    let session = sample_session();
    for _ in 0..5 {
        distill(&mut profile, &session, &vec![], calc);
    }
    assert_eq!(profile.friction.command_sequences[0].status, "confirmed");
    assert_eq!(profile.friction.command_sequences[0].count, 5);
    assert_eq!(profile.friction.command_sequences[0].projects, vec!["activity-monitor"]);
    assert!(profile.friction.friction_patterns[0].self_reported_match);
    assert_eq!(profile.friction.friction_patterns[0].id, "fp_cargo_test_failure");
    assert_eq!(profile.friction.friction_confirmed, vec!["flaky TESTS".to_string()]);
    // Half of three tenths of half an hour each time.
    assert!((value(profile.friction.friction_patterns[0].blocked_min_total) - 45.0).abs() < 1e-9);
    let mut quiet = sample_session();
    quiet.test_failure_tools = Table::new();
    quiet.command_sequence = vec![];
    for _ in 0..100 {
        distill(&mut profile, &quiet, &vec![], calc);
    }
    assert_eq!(profile.friction.friction_patterns.len(), 1);
    assert_eq!(profile.friction.command_sequences.len(), 1);
    assert!(value(profile.friction.friction_patterns[0].weight) < 0.02);
    assert_eq!(profile.identity.friction_self_reported, vec!["flaky TESTS".to_string()]);
}

#[test]
fn observed_loops_tell_how_long_a_tool_blocked() {
    let mut profile = seed();
    let mut session = sample_session();
    session.error_loops = vec![ErrorLoopSummary {
        tool: "cargo".to_string(),
        subcommand: None,
        failure_count: 2,
        search_count: 1,
        duration_sec: 90,
        domain: None,
    }];
    distill(&mut profile, &session, &vec![], calc);
    assert_eq!(value(profile.friction.friction_patterns[0].blocked_min_total), 1.5);
}

#[test]
fn the_rolling_window_has_mean_and_deviation() {
    let mut profile = seed();
    let session = sample_session();
    let mut shorter = sample_session();
    shorter.duration_min = q(10.0);
    shorter.dominant_phase = "debugging".to_string();
    let recent = vec![shorter.clone(), session.clone()];
    distill(&mut profile, &session, &recent, calc);
    let mean = (30.0 + 10.0 + 30.0) / 3.0f64;
    assert_eq!(value(profile.rhythm.avg_session_len_min), mean);
    let variance =
        ((30.0 - mean) * (30.0 - mean) + (10.0 - mean) * (10.0 - mean)
            + (30.0 - mean) * (30.0 - mean)) / 3.0f64;
    assert_eq!(value(profile.rhythm.session_len_stddev), variance.sqrt());
    // implementation -> debugging -> implementation
    let mut found = profile.rhythm.phase_sequence.clone();
    found.sort();
    assert_eq!(
        found,
        vec![
            vec!["debugging".to_string(), "implementation".to_string()],
            vec!["implementation".to_string(), "debugging".to_string()],
        ]
    );
}

#[test]
fn the_most_frequent_transitions_come_first() {
    let mut profile = seed();
    let with = |phase: &str| {
        let mut s = sample_session();
        s.dominant_phase = phase.to_string();
        s
    };
    // Oldest first: a b a b c d e; the most recent comes first in the list.
    let recent: Vec<SessionIntent> =
        ["d", "c", "b", "a", "b", "a"].iter().map(|p| with(p)).collect();
    distill(&mut profile, &with("e"), &recent, calc);
    assert_eq!(profile.rhythm.phase_sequence.len(), 3);
    assert_eq!(profile.rhythm.phase_sequence[0], vec!["a".to_string(), "b".to_string()]);
}

#[test]
fn hours_and_phases_move_toward_what_is_observed() {
    let mut profile = seed();
    let mut session = sample_session();
    session.dominant_phase = "debugging".to_string();
    distill(&mut profile, &session, &vec![], calc);
    assert_eq!(value(*profile.rhythm.active_hours.get("10").unwrap()), ema(0.7, 1.0));
    assert_eq!(value(*profile.rhythm.active_hours.get("11").unwrap()), ema(0.8, 0.0));
    assert_eq!(value(*profile.rhythm.active_hours.get("00").unwrap()), 0.0);
    assert_eq!(profile.rhythm.active_hours.entries.len(), 24);
    let debugging = profile.rhythm.typical_phase_durations.get("debugging").unwrap();
    assert_eq!(value(debugging.avg_min), ema(25.0, 30.0 * (3.0 / 10.0)));
    // A test failed and nothing showed that the block eased.
    assert_eq!(value(debugging.resolves_within_session), ema(0.6, 0.0));
    let fresh = profile.rhythm.typical_phase_durations.get("implementation").unwrap();
    assert_eq!(value(fresh.avg_min), ema(30.0 * 0.7, 30.0 * 0.7));
    let project = &profile.projects.projects[0];
    assert_eq!(value(*project.phase_distribution.get("debugging").unwrap()), ema(0.0, 0.3));

    // The block eased and was low at the end.
    session.max_blocking_score = q(0.8);
    session.final_blocking_score = q(0.2);
    session.blocking_score_trend = q(-0.1);
    let before = value(debugging.resolves_within_session);
    distill(&mut profile, &session, &vec![], calc);
    let debugging = profile.rhythm.typical_phase_durations.get("debugging").unwrap();
    assert_eq!(value(debugging.resolves_within_session), ema(before, 1.0));
}

#[test]
fn projects_remember_five_branches() {
    let mut profile = seed();
    let mut session = sample_session();
    let mut branches = Table::new();
    branches.set(
        "activity-monitor",
        ["a", "b", "c", "d", "e", "f", "b"].iter().map(|s| s.to_string()).collect::<Vec<_>>(),
    );
    session.project_branches = branches;
    distill(&mut profile, &session, &vec![], calc);
    assert_eq!(profile.projects.projects[0].active_branches, vec!["c", "d", "e", "f", "b"]);
    let mut other = sample_session();
    other.project_event_counts = table(vec![("elsewhere", 1)]);
    other.primary_project = None;
    distill(&mut profile, &other, &vec![], calc);
    // The first project was not touched.
    assert_eq!(profile.projects.projects[0].session_count, 1);
    assert_eq!(profile.projects.projects[1].name, "elsewhere");
    assert_eq!(profile.projects.last_active_project.as_deref(), Some("activity-monitor"));
}

#[test]
fn resolutions_and_confidence_follow_their_formulas() {
    let mut profile = seed();
    let mut session = sample_session();
    session.friction_resolutions =
        vec!["doc_lookup".to_string(), "trial_error".to_string(), "doc_lookup".to_string()];
    distill(&mut profile, &session, &vec![], calc);
    let paths = profile.friction.resolution_paths.get("error_loop").unwrap();
    assert_eq!(value(*paths.get("doc_lookup").unwrap()), ema(0.5, 2.0 / 3.0));
    assert_eq!(value(*paths.get("trial_error").unwrap()), ema(0.35, 1.0 / 3.0));
    assert_eq!(value(*paths.get("step_away").unwrap()), ema(0.15, 0.0));
    let stuck = profile.friction.resolution_paths.get("stuck_general").unwrap();
    assert_eq!(value(*stuck.get("doc_lookup").unwrap()), 0.5);
    assert_eq!(value(profile.behavioral.search_before_try_ratio), ema(0.5, 1.0));
    let c = profile.meta.confidence_by_group;
    assert_eq!(value(c.stack), 1.0 / 20.0);
    assert_eq!(value(c.rhythm), 1.0 / 20.0);
    assert_eq!(value(c.friction), 1.0 / 30.0);
    assert_eq!(value(c.behavioral), 1.0 / 15.0);
    let overall = (1.0 / 20.0 + 1.0 / 20.0 + 1.0 / 30.0 + 1.0 / 15.0) / 4.0;
    assert_eq!(value(profile.meta.confidence_overall), overall);
    assert_eq!(profile.meta.last_distilled_at, Some(session.end_ts));
    for _ in 0..24 {
        distill(&mut profile, &session, &vec![], calc);
    }
    assert_eq!(profile.meta.sessions_total, 25);
    assert_eq!(profile.meta.sessions_in_window, 20);
    // A confirmed pattern lifts the confidence in friction.
    assert!(value(profile.meta.confidence_by_group.friction) >= 0.6);
    assert_eq!(value(profile.meta.confidence_by_group.stack), 1.0);
}

#[test]
fn profiles_are_seeded() {
    let p = seed();
    assert_eq!(p.stack.shell, "zsh");
    assert_eq!(p.stack.os, "linux");
    assert_eq!(p.meta.created_at, 77);
    assert_eq!(p.rhythm.focus_style, "deep");
    assert_eq!(value(p.rhythm.focus_style_confidence), 0.0);
    assert_eq!(value(p.rhythm.avg_session_len_min), 45.0);
    assert_eq!(value(*p.rhythm.active_hours.get("09").unwrap()), 0.4);
    assert_eq!(value(*p.rhythm.active_hours.get("17").unwrap()), 0.3);
    assert_eq!(value(*p.behavioral.recommendation_accept_rate.get("state_preserver").unwrap()), 0.5);
    assert_eq!(value(p.behavioral.context_switch_freq_per_day), 4.0);
    assert_eq!(value(p.rhythm.typical_phase_durations.get("debugging").unwrap().avg_min), 25.0);
    assert_eq!(UserProfile::seed_typical_developer(1, None, "x").stack.shell, "bash");
}

#[test]
fn weights_are_at_most_one() {
    let mut profile = seed();
    let session = sample_session();
    for _ in 0..200 {
        distill(&mut profile, &session, &vec![], calc);
    }
    assert!(value(*profile.stack.stack_weights.get("vscode").unwrap()) <= 1.0);
    assert!(value(*profile.stack.stack_weights.get("vscode").unwrap()) > 0.9);
    assert!(value(profile.stack.doc_domains[0].weight) <= 1.0);
    assert!(value(profile.friction.friction_patterns[0].weight) <= 1.0);
    assert!(value(profile.friction.command_sequences[0].weight) <= 1.0);
}

#[test]
fn ten_domains_are_remembered() {
    let mut profile = seed();
    let mut often = sample_session();
    often.doc_domain_counts = table(vec![("docs.rs", 4)]);
    distill(&mut profile, &often, &vec![], calc);
    let mut wide = sample_session();
    wide.doc_domain_counts = Table::new();
    for i in 0..12 {
        wide.doc_domain_counts.set(&format!("doc{}.org", i), 1);
    }
    wide.doc_domain_counts.set("docs.rs", 1);
    distill(&mut profile, &wide, &vec![], calc);
    let docs = &profile.stack.doc_domains;
    assert_eq!(docs.len(), 10);
    assert_eq!(docs[0].domain, "docs.rs");
    assert!(docs.windows(2).all(|pair| value(pair[0].weight) >= value(pair[1].weight)));
}

#[test]
fn twenty_sequences_are_remembered() {
    let mut profile = seed();
    let mut session = sample_session();
    session.command_sequence = (0..40).map(|i| format!("step {}", i)).collect();
    distill(&mut profile, &session, &vec![], calc);
    assert_eq!(profile.friction.command_sequences.len(), 20);
    // A pair of commands counts once a session.
    let mut profile = seed();
    session.command_sequence =
        ["a", "b", "a", "b", "a"].iter().map(|c| c.to_string()).collect();
    distill(&mut profile, &session, &vec![], calc);
    assert_eq!(profile.friction.command_sequences.len(), 2);
    assert!(profile.friction.command_sequences.iter().all(|c| c.count == 1));
}

#[test]
fn failures_are_among_the_commands() {
    let run = |seq: u64, code: u64| {
        ev(
            seq,
            1_000 + seq,
            "terminal",
            "command",
            "Ran",
            vec![
                ("tool", text("cargo")),
                ("subcommand", text("test")),
                ("exit_code", num(code)),
            ],
        )
    };
    let events = vec![run(1, 0), run(2, 101), run(3, 0)];
    let intent = summarize_session(1, &events, 1_004, "git_commit".to_string(), &vec![], calc);
    assert_eq!(intent.commands_run, 3);
    assert_eq!(intent.commands_failed, 1);
    assert_eq!(intent.test_failures, 1);
    assert_eq!(intent.friction_resolutions.len(), 1);
}

#[test]
fn reports_are_matched_loosely() {
    assert!(is_about("cargo is slow", "cargo"));
    assert!(is_about("flaky tests", "npm"));
    assert!(is_about("debugging async code", "npm"));
    assert!(!is_about("slow builds", "npm"));
}

#[test]
fn immediate_states_add_to_a_session() {
    let state = |signal: &str, score: f64, gate: &str| {
        Arc::new(obj(vec![
            ("signal", text(signal)),
            ("blocking_score", fraction(score)),
            ("gate", text(gate)),
        ]))
    };
    let mut session = sample_session();
    let first = vec![state("idle", 0.4, "open:idle"), state("idle", 0.2, "closed:no_trigger")];
    summarize_immediate_states(&mut session, &first, calc);
    assert_eq!(session.immediate_signal_counts.get("idle"), Some(&2));
    assert_eq!(value(session.max_blocking_score), 0.4);
    assert_eq!(value(session.final_blocking_score), 0.2);
    assert_eq!(value(session.blocking_score_trend), 0.2 - 0.4);
    summarize_immediate_states(&mut session, &vec![state("idle", 0.3, "open:idle")], calc);
    assert_eq!(session.immediate_signal_counts.get("idle"), Some(&3));
    assert_eq!(value(session.max_blocking_score), 0.4);
    assert_eq!(value(session.final_blocking_score), 0.3);
    assert_eq!(value(session.blocking_score_trend), 0.0);
    assert_eq!(session.gate_open_count, 2);
    assert_eq!(session.commands_run, 3);
}

#[test]
fn reports_are_confirmed_with_their_pattern() {
    let mut profile = seed();
    profile.identity.friction_self_reported = vec![
        "Cargo is slow".to_string(),
        "too many meetings".to_string(),
        "flaky TESTS".to_string(),
    ];
    let session = sample_session();
    for _ in 0..2 {
        distill(&mut profile, &session, &vec![], calc);
        // Two failures are only a candidate.
        assert!(profile.friction.friction_confirmed.is_empty());
        assert!(!profile.friction.friction_patterns[0].self_reported_match);
    }
    for _ in 0..2 {
        distill(&mut profile, &session, &vec![], calc);
        assert_eq!(profile.friction.friction_confirmed, vec!["Cargo is slow", "flaky TESTS"]);
        assert!(profile.friction.friction_patterns[0].self_reported_match);
    }
}

#[test]
fn summaries_can_be_distilled() {
    let events = vec![
        ev(1, 1_000, "filesystem", "file_change", "File modified", vec![]),
        ev(2, 1_010, "terminal", "command", "Ran", vec![("exit_code", num(1))]),
        ev(3, 1_020, "window", "blur", "Left", vec![]),
    ];
    let intent =
        summarize_session(4, &events, 1_060, "project_switch".to_string(), &vec![], calc);
    let phases: u64 = intent.phase_counts.entries.iter().map(|(_, n)| n).sum();
    assert_eq!(phases, 2);
    assert!(phases <= intent.event_count);
    let mut profile = seed();
    distill(&mut profile, &intent, &vec![], calc);
    assert_eq!(profile.meta.sessions_total, 1);
    assert_eq!(profile.meta.last_distilled_at, Some(1_060));
    assert_eq!(value(profile.rhythm.avg_session_len_min), 1.0);
}

#[test]
fn the_rolling_window_holds_twenty_sessions() {
    let mut recent: Vec<SessionIntent> = (0..19).map(|_| sample_session()).collect();
    // Sessions before those do not count.
    for _ in 0..5 {
        let mut old = sample_session();
        old.duration_min = q(900.0);
        old.dominant_phase = "research".to_string();
        recent.push(old);
    }
    let mut profile = seed();
    distill(&mut profile, &sample_session(), &recent, calc);
    assert_eq!(value(profile.rhythm.avg_session_len_min), 30.0);
    assert_eq!(value(profile.rhythm.session_len_stddev), 0.0);
    assert_eq!(
        profile.rhythm.phase_sequence,
        vec![vec!["implementation".to_string(), "implementation".to_string()]]
    );
}

#[test]
fn the_largest_number_is_no_time() {
    let events = vec![ev(1, u64::MAX, "clipboard", "clipboard", "Copied", vec![])];
    let intent = summarize_session(1, &events, 500, "git_commit".to_string(), &vec![], calc);
    assert_eq!(intent.start_ts, 500);
    assert_eq!(intent.end_ts, 500);
    assert_eq!(value(intent.duration_min), 0.0);
    // Any other event gives the start.
    let events = vec![
        ev(1, u64::MAX, "clipboard", "clipboard", "Copied", vec![]),
        ev(2, 440, "clipboard", "clipboard", "Copied", vec![]),
    ];
    let intent = summarize_session(1, &events, 500, "git_commit".to_string(), &vec![], calc);
    assert_eq!(intent.start_ts, 440);
    assert_eq!(value(intent.duration_min), 1.0);
}

#[test]
fn summaries_add_up() {
    let run = |seq: u64, tool: &str, code: u64| {
        ev(
            seq,
            1_000 + seq,
            "terminal",
            "command",
            "Ran",
            vec![
                ("tool", text(tool)),
                ("subcommand", text("test")),
                ("exit_code", num(code)),
                ("project", text("p")),
            ],
        )
    };
    let a = vec![run(1, "cargo", 1), run(2, "npm", 0)];
    let b = vec![
        run(3, "cargo", 1),
        ev(
            4,
            1_004,
            "browser",
            "navigation",
            "Searched",
            vec![("domain", text("docs.rs")), ("search_query", text("why"))],
        ),
    ];
    let both: Vec<Arc<Json>> = a.iter().chain(b.iter()).cloned().collect();
    let sum = |events: &Vec<Arc<Json>>| {
        summarize_session(1, events, 2_000, "git_commit".to_string(), &vec![], calc)
    };
    let (a, b, both) = (sum(&a), sum(&b), sum(&both));
    assert_eq!(both.event_count, a.event_count + b.event_count);
    assert_eq!(both.commands_run, a.commands_run + b.commands_run);
    assert_eq!(both.commands_failed, 2);
    assert_eq!(both.test_failures, a.test_failures + b.test_failures);
    assert_eq!(both.friction_resolutions.len(), 2);
    assert_eq!(both.tool_counts.get("cargo"), Some(&2));
    assert_eq!(both.tool_counts.get("npm"), Some(&1));
    assert_eq!(both.project_event_counts.get("p"), Some(&3));
    assert_eq!(both.browser_domain_counts.get("docs.rs"), Some(&1));
    assert_eq!(both.command_sequence, vec!["cargo test", "npm test", "cargo test"]);
    assert_eq!(both.command_sequence, [a.command_sequence, b.command_sequence].concat());
    assert_eq!(both.search_queries, vec!["why"]);
}

#[test]
fn untouched_weights_decay() {
    let mut profile = seed();
    distill(&mut profile, &sample_session(), &vec![], calc);
    let mut other = sample_session();
    other.app_focus_counts = table(vec![("firefox", 1)]);
    other.tool_counts = table(vec![("npm", 1)]);
    other.doc_domain_counts = table(vec![("docs.rs", 1)]);
    let blocked = profile.stack.tool_proficiency.get("cargo").unwrap().avg_blocked_min_per_session;
    distill(&mut profile, &other, &vec![], calc);
    let stack = &profile.stack;
    assert_eq!(value(*stack.stack_weights.get("vscode").unwrap()), 0.15 * 0.95);
    assert_eq!(value(*stack.stack_weights.get("cargo").unwrap()), 0.15 * 0.95);
    assert_eq!(value(*stack.stack_weights.get("firefox").unwrap()), 0.15);
    let cargo = stack.tool_proficiency.get("cargo").unwrap();
    assert_eq!(value(cargo.weight), 0.15 * 0.95);
    assert_eq!(cargo.avg_blocked_min_per_session, blocked);
    // The domain that was not visited fades, and no domain is there twice.
    distill(&mut profile, &other, &vec![], calc);
    let domains: Vec<&str> =
        profile.stack.doc_domains.iter().map(|d| d.domain.as_str()).collect();
    assert_eq!(domains, vec!["docs.rs", "doc.rust-lang.org"]);
    assert_eq!(value(profile.stack.doc_domains[1].weight), 0.2 * 0.95 * 0.95);
}
