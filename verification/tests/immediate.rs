use activity_monitor::arithmetic::Operation;
use activity_monitor::immediate::buffer::{event_entities, event_ts, SlidingWindowBuffer};
use activity_monitor::immediate::gate::{
    evaluate_gate, is_call_app, is_command_running, is_in_call, is_open, should_emit,
};
use activity_monitor::immediate::layer::{ImmediateLayer, IDLE_THRESHOLD_SECS, WINDOW_TTL_SECS};
use activity_monitor::immediate::recognizers::{
    command_token, detect_context_switch, detect_error_loop, detect_idle, detect_repetition,
    is_failure, is_search,
};
use activity_monitor::immediate::score::{
    blocking_factors, blocking_score, classify, compute_blocking_score,
};
use activity_monitor::immediate::{ContextSwitchContext, ImmediateState, RepetitionContext};
use activity_monitor::json::{Json, Number};
use activity_monitor::profile::{PhaseDuration, UserProfile};
use activity_monitor::quantity::Quantity;
use std::sync::Arc;

fn calc(op: Operation, a: u64, b: u64) -> u64 {
    let x = f64::from_bits(a);
    let y = f64::from_bits(b);
    match op {
        Operation::Add => (x + y).to_bits(),
        Operation::Subtract => (x - y).to_bits(),
        Operation::Multiply => (x * y).to_bits(),
        Operation::Divide => (x / y).to_bits(),
        Operation::SquareRoot => x.sqrt().to_bits(),
        Operation::Convert => (a as f64).to_bits(),
    }
}

fn q(x: f64) -> Quantity {
    Quantity { bits: x.to_bits() }
}

fn value(x: Quantity) -> f64 {
    f64::from_bits(x.bits)
}

fn text(s: &str) -> Json {
    Json::Text(s.to_string())
}

fn num(n: u64) -> Json {
    Json::Number(Number::Natural(n))
}

fn obj(members: Vec<(&str, Json)>) -> Json {
    Json::Object(members.into_iter().map(|(k, v)| (k.to_string(), v)).collect())
}

fn ev(
    seq: u64,
    ts: u64,
    session_id: u64,
    source: &str,
    kind: &str,
    entities: Vec<(&str, Json)>,
) -> Arc<Json> {
    Arc::new(obj(vec![
        ("seq", num(seq)),
        ("timestamp", num(ts)),
        ("session_id", num(session_id)),
        ("source", text(source)),
        ("kind", text(kind)),
        ("summary", text("")),
        ("entities", obj(entities)),
    ]))
}

fn command(ts: u64, tool: &str, sub: &str, exit_code: u64) -> Arc<Json> {
    ev(
        0,
        ts,
        1,
        "terminal",
        "command",
        vec![("tool", text(tool)), ("subcommand", text(sub)), ("exit_code", num(exit_code))],
    )
}

fn search(ts: u64, domain: &str, query: &str) -> Arc<Json> {
    ev(
        0,
        ts,
        1,
        "browser",
        "navigation",
        vec![("domain", text(domain)), ("search_query", text(query))],
    )
}

fn state(signal: &str, gate: &str, score: f64) -> ImmediateState {
    ImmediateState {
        ts: 0,
        session_id: 0,
        signal: signal.to_string(),
        error_context: None,
        repetition_context: None,
        context_switch: None,
        blocking_score: q(score),
        blocking_score_delta: q(0.0),
        gate: gate.to_string(),
        gate_open_at: None,
    }
}

fn seed() -> UserProfile {
    UserProfile::seed_typical_developer(0, None, "linux")
}

#[test]
fn detects_error_loop_and_opens_gate_on_extended_block() {
    let mut window = SlidingWindowBuffer::new(WINDOW_TTL_SECS);
    let base = 1_000u64;

    // First failure.
    window.push(
        ev(
            1,
            base,
            1,
            "terminal",
            "command",
            vec![("tool", text("pytest")), ("subcommand", text("test")), ("exit_code", num(1))],
        ),
        base,
    );
    // Search after the failure.
    window.push(
        ev(
            2,
            base + 60,
            1,
            "browser",
            "navigation",
            vec![("domain", text("stackoverflow.com")), ("search_query", text("IntegrityError"))],
        ),
        base + 60,
    );
    // Retry, also failing, 150s after the first failure (within the 5-minute
    // window).
    let retry_ts = base + 150;
    window.push(
        ev(
            3,
            retry_ts,
            1,
            "terminal",
            "command",
            vec![("tool", text("pytest")), ("subcommand", text("test")), ("exit_code", num(1))],
        ),
        retry_ts,
    );

    let error_loop = detect_error_loop(&window).expect("error loop detected");
    assert_eq!(error_loop.tool, "pytest");
    assert_eq!(error_loop.failure_count, 2);
    assert_eq!(error_loop.search_count, 1);
    assert_eq!(error_loop.duration_sec, 150);
    assert_eq!(error_loop.domain.as_deref(), Some("stackoverflow.com"));

    let (signal, duration) = classify(&Some(error_loop.clone()), &None, &None, &None);
    assert_eq!(signal, "error_loop");
    assert_eq!(duration, Some(150));

    // Give this user a 2-minute typical debugging session: 75% of that is
    // 90s. 150s > 90s, so the intervention gate should open on extended_block.
    let mut profile = seed();
    profile.rhythm.typical_phase_durations.set(
        "debugging",
        PhaseDuration { avg_min: q(2.0), resolves_within_session: q(0.6) },
    );
    let gate = evaluate_gate(
        signal,
        &Some(error_loop),
        &None,
        &window,
        retry_ts,
        None,
        &profile,
        false,
        calc,
    );
    assert_eq!(gate, "open:extended_block");
}

#[test]
fn idle_opens_gate_after_threshold() {
    let mut window = SlidingWindowBuffer::new(WINDOW_TTL_SECS);
    let base = 1_000u64;
    window.push(
        ev(
            1,
            base,
            1,
            "terminal",
            "command",
            vec![("tool", text("cargo")), ("subcommand", text("build")), ("exit_code", num(0))],
        ),
        base,
    );

    let now = base + IDLE_THRESHOLD_SECS + 5;
    let idle = detect_idle(&window, now, IDLE_THRESHOLD_SECS);
    assert_eq!(idle, Some(IDLE_THRESHOLD_SECS + 5));

    let profile = seed();
    let gate = evaluate_gate("idle", &None, &idle, &window, now, None, &profile, false, calc);
    assert_eq!(gate, "open:idle");
}

#[test]
fn cooldown_closes_gate_after_recent_open() {
    let window = SlidingWindowBuffer::new(WINDOW_TTL_SECS);
    let profile = seed();
    let now = 10_000u64;
    // interruption_gap_threshold_min defaults to 5 -> 300s cooldown.
    let gate = evaluate_gate(
        "idle",
        &None,
        &Some(40),
        &window,
        now,
        Some(now - 60),
        &profile,
        false,
        calc,
    );
    assert_eq!(gate, "closed:cooldown");
}

#[test]
fn command_running_closes_gate_even_when_idle() {
    let window = SlidingWindowBuffer::new(WINDOW_TTL_SECS);
    let profile = seed();
    let now = 10_000u64;
    // Without a running command, idle would open the intervention gate...
    let gate =
        evaluate_gate("idle", &None, &Some(40), &window, now, None, &profile, false, calc);
    assert_eq!(gate, "open:idle");
    // ...but a long-running build/test command suppresses the interruption
    // even though the user appears idle.
    let gate = evaluate_gate("idle", &None, &Some(40), &window, now, None, &profile, true, calc);
    assert_eq!(gate, "closed:command_running");
}

#[test]
fn should_emit_on_score_jump_and_signal_change() {
    let prev = state("none", "closed:no_trigger", 0.1);

    let same = state("none", "closed:no_trigger", 0.15);
    assert!(!should_emit(&same, &Some(prev.clone()), calc));

    let big_jump = state("none", "closed:no_trigger", 0.3);
    assert!(should_emit(&big_jump, &Some(prev.clone()), calc));

    let signal_change = state("error_loop", "closed:no_trigger", 0.1);
    assert!(should_emit(&signal_change, &Some(prev), calc));
}

#[test]
fn should_emit_on_gate_change_and_on_falling_scores() {
    let prev = state("none", "closed:no_trigger", 0.5);
    assert!(should_emit(&prev, &None, calc));
    assert!(should_emit(&state("none", "open:idle", 0.5), &Some(prev.clone()), calc));
    assert!(should_emit(&state("none", "closed:no_trigger", 0.2), &Some(prev.clone()), calc));
    assert!(!should_emit(&state("none", "closed:no_trigger", 0.4), &Some(prev), calc));
}

#[test]
fn the_buffer_keeps_sublists_by_source() {
    let mut window = SlidingWindowBuffer::new(100);
    window.push(command(1_000, "ls", "-l", 0), 1_000);
    window.push(search(1_050, "docs.rs", "vec"), 1_050);
    window.push(ev(3, 1_060, 1, "session", "session_boundary", vec![]), 1_060);
    assert_eq!(window.events.len(), 3);
    assert_eq!(window.by_source.terminal.len(), 1);
    assert_eq!(window.by_source.browser.len(), 1);
    assert_eq!(window.by_source.window.len(), 0);
    // An event as old as the time to live stays.
    window.evict(1_100);
    assert_eq!(window.events.len(), 3);
    window.evict(1_101);
    assert_eq!(window.events.len(), 2);
    assert_eq!(window.by_source.terminal.len(), 0);
    assert_eq!(event_ts(&window.by_source.browser[0]), 1_050);
    // The sublists share the events.
    assert!(Arc::ptr_eq(&window.by_source.browser[0], &window.events[0]));
    // Evicting at an earlier time changes nothing.
    window.evict(500);
    assert_eq!(window.events.len(), 2);
}

#[test]
fn events_without_fields_have_defaults() {
    assert_eq!(event_ts(&Json::Null), 0);
    assert!(matches!(event_entities(&Json::Null), Json::Null));
    assert!(!is_failure(&Json::Null));
    assert!(!is_search(&Json::Null));
    assert_eq!(command_token(&Json::Null), None);
    assert_eq!(command_token(&command(0, "git", "push", 0)).as_deref(), Some("git push"));
}

#[test]
fn failures_without_a_search_are_no_error_loop() {
    let mut window = SlidingWindowBuffer::new(WINDOW_TTL_SECS);
    window.push(command(1_000, "cargo", "test", 1), 1_000);
    window.push(command(1_010, "cargo", "test", 1), 1_010);
    assert!(detect_error_loop(&window).is_none());
    // A search without a retry is none either.
    window.push(search(1_020, "docs.rs", "x"), 1_020);
    assert!(detect_error_loop(&window).is_none());
    // A retry of another tool is none.
    window.push(command(1_030, "npm", "test", 1), 1_030);
    assert!(detect_error_loop(&window).is_none());
    window.push(command(1_040, "cargo", "test", 101), 1_040);
    let found = detect_error_loop(&window).unwrap();
    assert_eq!((found.failure_count, found.search_count, found.duration_sec), (4, 1, 40));
    assert_eq!(found.subcommand.as_deref(), Some("test"));
}

#[test]
fn repetition_needs_three_rounds() {
    let mut window = SlidingWindowBuffer::new(WINDOW_TTL_SECS);
    for round in 0..3u64 {
        window.push(command(1_000 + 10 * round, "vim", "a.rs", 0), 1_000 + 10 * round);
        window.push(command(1_001 + 10 * round, "make", "all", 0), 1_001 + 10 * round);
        if round == 1 {
            assert!(detect_repetition(&window).is_none());
        }
    }
    let found = detect_repetition(&window).unwrap();
    assert_eq!(found.count, 3);
    assert_eq!(found.sequence, vec!["vim a.rs".to_string(), "make all".to_string()]);
}

#[test]
fn idling_is_about_meaningful_events() {
    let mut window = SlidingWindowBuffer::new(WINDOW_TTL_SECS);
    assert_eq!(detect_idle(&window, 5, 30), Some(30));
    window.push(ev(1, 1_000, 1, "window", "focus", vec![("app", text("vscode"))]), 1_000);
    // Nothing but background polling.
    assert_eq!(detect_idle(&window, 1_029, 30), None);
    assert_eq!(detect_idle(&window, 1_030, 30), Some(30));
    window.push(command(1_010, "ls", "-l", 0), 1_010);
    assert_eq!(detect_idle(&window, 1_039, 30), None);
    assert_eq!(detect_idle(&window, 1_040, 30), Some(30));
    // Window focus does not end the pause.
    window.push(ev(3, 1_045, 1, "window", "focus", vec![]), 1_045);
    assert_eq!(detect_idle(&window, 1_050, 30), Some(40));
}

#[test]
fn context_switches_compare_recent_with_earlier_projects() {
    let mut window = SlidingWindowBuffer::new(WINDOW_TTL_SECS);
    for i in 0..9u64 {
        let project = if i < 5 { "alpha" } else { "beta" };
        window.push(
            ev(i, 1_000 + i, 1, "terminal", "command", vec![("project", text(project))]),
            1_000 + i,
        );
        assert!(detect_context_switch(&window).is_none());
    }
    window.push(ev(9, 1_009, 1, "browser", "navigation", vec![]), 1_009);
    let found = detect_context_switch(&window).unwrap();
    assert_eq!(found.from_project.as_deref(), Some("alpha"));
    assert_eq!(found.to_project.as_deref(), Some("beta"));
    assert!(!found.mid_task);
}

#[test]
fn signals_have_priorities() {
    let repetition = Some(RepetitionContext { sequence: vec![], count: 3 });
    let switched = Some(ContextSwitchContext {
        from_project: None,
        to_project: None,
        mid_task: false,
    });
    assert_eq!(classify(&None, &switched, &repetition, &Some(9)), ("context_switch", None));
    assert_eq!(classify(&None, &None, &repetition, &Some(9)), ("repetition", None));
    assert_eq!(classify(&None, &None, &None, &Some(9)), ("idle", Some(9)));
    assert_eq!(classify(&None, &None, &None, &None), ("none", None));
}

#[test]
fn the_blocking_score_weighs_its_factors() {
    let mut window = SlidingWindowBuffer::new(WINDOW_TTL_SECS);
    assert_eq!(value(compute_blocking_score(&window, &None, None, calc)), 0.0);
    window.push(command(1_000, "cargo", "test", 1), 1_000);
    window.push(command(1_001, "cargo", "build", 0), 1_001);
    window.push(search(1_010, "docs.rs", "x"), 1_010);
    window.push(search(1_020, "docs.rs", "y"), 1_020);
    window.push(search(1_030, "stackoverflow.com", "y"), 1_030);
    window.push(ev(0, 1_040, 1, "filesystem", "file_change", vec![]), 1_040);
    let f = blocking_factors(&window, None);
    assert_eq!((f.commands, f.failures, f.searches, f.file_saves), (2, 1, 3, 1));
    assert_eq!((f.domains, f.top_visits, f.loop_secs), (3, 2, None));
    let expected = 0.0 + (1.0f64 / 2.0) * 0.35 + (3.0f64 / 4.0) * 0.30 + (2.0f64 / 3.0) * 0.10;
    assert_eq!(value(compute_blocking_score(&window, &None, None, calc)), expected);
    // The duration of an error loop counts, to ten minutes at most.
    let mut long = f;
    long.loop_secs = Some(6_000);
    let mut tall = f;
    tall.loop_secs = Some(300);
    assert!(value(blocking_score(calc, long)) <= 1.0);
    let half = 0.0 + (1.0f64 / 2.0) * 0.35 + (3.0f64 / 4.0) * 0.30
        + (300.0f64 / 600.0) * 0.25 + (2.0f64 / 3.0) * 0.10;
    assert_eq!(value(blocking_score(calc, tall)), half);
    // Everything at its worst is one.
    let worst = activity_monitor::immediate::score::BlockingFactors {
        commands: 2,
        failures: 2,
        searches: 5,
        file_saves: 0,
        loop_secs: Some(10_000),
        domains: 5,
        top_visits: 5,
    };
    assert!((value(blocking_score(calc, worst)) - 1.0).abs() < 1e-9);
}

#[test]
fn calls_close_the_gate() {
    let mut window = SlidingWindowBuffer::new(WINDOW_TTL_SECS);
    assert!(!is_in_call(&window));
    window.push(ev(1, 1_000, 1, "window", "focus", vec![("app", text("Microsoft Teams"))]), 1_000);
    assert!(is_in_call(&window));
    let gate =
        evaluate_gate("idle", &None, &Some(40), &window, 1_001, None, &seed(), false, calc);
    assert_eq!(gate, "closed:in_call");
    // An event without an app does not end the call, another app does.
    window.push(ev(2, 1_002, 1, "window", "blur", vec![]), 1_002);
    assert!(is_in_call(&window));
    window.push(ev(3, 1_003, 1, "window", "focus", vec![("app", text("vscode"))]), 1_003);
    assert!(!is_in_call(&window));
}

#[test]
fn gates_without_a_reason_are_closed() {
    let window = SlidingWindowBuffer::new(WINDOW_TTL_SECS);
    let profile = seed();
    let closed = evaluate_gate("none", &None, &None, &window, 5, None, &profile, false, calc);
    assert_eq!(closed, "closed:no_trigger");
    assert!(!is_open(&closed));
    let open =
        evaluate_gate("context_switch", &None, &None, &window, 5, None, &profile, false, calc);
    assert_eq!(open, "open:context_switch");
    assert!(is_open(&open));
}

#[test]
fn a_command_counts_as_running_for_two_minutes() {
    assert!(!is_command_running(None, 100));
    assert!(is_command_running(Some(100), 100));
    assert!(is_command_running(Some(100), 219));
    assert!(!is_command_running(Some(100), 220));
    assert!(is_command_running(Some(500), 100));
}

#[test]
fn the_layer_emits_on_change_only() {
    let profile = seed();
    let mut layer = ImmediateLayer::new();
    // The first state is always emitted; there is nothing going on, so the
    // user is idle.
    assert!(layer.on_tick(1_000, &profile, calc));
    let first = layer.previous.as_ref().unwrap();
    assert_eq!(first.signal, "idle");
    assert_eq!(first.gate, "open:idle");
    assert_eq!(first.gate_open_at, Some(1_000));
    assert_eq!(layer.last_gate_open_ts, Some(1_000));
    // The cooldown closes the intervention gate.
    assert!(layer.on_tick(1_010, &profile, calc));
    assert_eq!(layer.previous.as_ref().unwrap().gate, "closed:cooldown");
    // Nothing changed: not emitted, but the time is kept.
    assert!(!layer.on_tick(1_020, &profile, calc));
    assert_eq!(layer.previous.as_ref().unwrap().ts, 1_020);
    // A command: the signal changes.
    assert!(layer.on_normalized(command(1_030, "ls", "-l", 0), 1_025, &profile, calc));
    let after = layer.previous.as_ref().unwrap();
    assert_eq!((after.ts, after.session_id), (1_030, 1));
    assert_eq!(after.signal, "none");
    // After the cooldown the intervention gate opens again.
    assert!(layer.on_tick(1_310, &profile, calc));
    assert_eq!(layer.previous.as_ref().unwrap().gate, "open:idle");
    assert_eq!(layer.last_gate_open_ts, Some(1_310));
}

#[test]
fn the_layer_notes_running_commands() {
    let profile = seed();
    let mut layer = ImmediateLayer::new();
    let start = obj(vec![(
        "Terminal",
        obj(vec![("phase", text("start")), ("timestamp", num(990))]),
    )]);
    layer.on_raw(&start, 995);
    assert_eq!(layer.command_running_since, Some(990));
    assert!(layer.on_tick(1_000, &profile, calc));
    assert_eq!(layer.previous.as_ref().unwrap().gate, "closed:command_running");
    let untimed = obj(vec![("Terminal", obj(vec![("phase", text("start"))]))]);
    layer.on_raw(&untimed, 996);
    assert_eq!(layer.command_running_since, Some(996));
    layer.on_raw(&obj(vec![("Window", obj(vec![]))]), 997);
    assert_eq!(layer.command_running_since, Some(996));
    layer.on_raw(&obj(vec![("Terminal", obj(vec![("phase", text("end"))]))]), 998);
    assert_eq!(layer.command_running_since, None);
}

#[test]
fn a_switch_while_blocked_is_mid_task() {
    let profile = seed();
    let mut layer = ImmediateLayer::new();
    for i in 0..4u64 {
        layer.on_normalized(
            ev(
                i,
                1_000 + i,
                1,
                "terminal",
                "command",
                vec![("project", text("alpha")), ("tool", text("x")), ("exit_code", num(1))],
            ),
            0,
            &profile,
            calc,
        );
    }
    layer.on_normalized(search(1_005, "docs.rs", "q"), 0, &profile, calc);
    assert!(value(layer.previous.as_ref().unwrap().blocking_score) > 0.4);
    for i in 0..5u64 {
        layer.on_normalized(
            ev(i, 1_010 + i, 1, "window", "focus", vec![("project", text("beta"))]),
            0,
            &profile,
            calc,
        );
    }
    let state = layer.previous.as_ref().unwrap();
    assert_eq!(state.signal, "context_switch");
    assert!(state.context_switch.as_ref().unwrap().mid_task);
}

#[test]
fn call_apps_are_told_by_their_names() {
    assert!(is_call_app("zoom workplace"));
    assert!(is_call_app("microsoft teams"));
    assert!(is_call_app("google meet"));
    assert!(is_call_app("discord"));
    assert!(is_call_app("slack huddle"));
    assert!(!is_call_app("slack"));
    assert!(!is_call_app("Zoom"));
}

#[test]
fn scores_stay_between_zero_and_one() {
    let mut window = SlidingWindowBuffer::new(WINDOW_TTL_SECS);
    // Stepping away blocks nobody.
    for secs in [None, Some(30), Some(900)] {
        assert_eq!(value(compute_blocking_score(&window, &None, secs, calc)), 0.0);
    }
    window.push(command(1_000, "cargo", "test", 101), 1_000);
    window.push(search(1_005, "docs.rs", "borrow"), 1_005);
    window.push(command(1_010, "cargo", "test", 101), 1_010);
    let calm = value(compute_blocking_score(&window, &None, None, calc));
    assert_eq!(value(compute_blocking_score(&window, &None, Some(900), calc)), calm);
    assert!(0.7 < calm && calm <= 0.75);
    let found = detect_error_loop(&window);
    assert!(found.is_some());
    let worst = value(compute_blocking_score(&window, &found, Some(100_000), calc));
    assert!(calm < worst && worst <= 1.0);
}
