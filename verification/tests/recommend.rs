use activity_monitor::arithmetic::Operation;
use activity_monitor::desktop::{get_daemon_status, tray_action, TrayAction};
use activity_monitor::json::{Json, Number};
use activity_monitor::profile::UserProfile;
use activity_monitor::quantity::Quantity;
use activity_monitor::recommend::{
    accept_percentage, apply_feedback, build_prompt, classify_rec_type, fallback_text, recommend,
    reply_text, request_body, GateWatch,
};
use activity_monitor::server::{
    channel_name, feedback_accepted, forward, query_limit, Channel, Forward, Received,
};
use activity_monitor::store::{
    data_dir, db_path, event_type, normalized_row, recent_query, EventTable,
};

fn calc(op: Operation, a: u64, b: u64) -> u64 {
    let x = f64::from_bits(a);
    let y = f64::from_bits(b);
    match op {
        Operation::Add => (x + y).to_bits(),
        Operation::Subtract => (x - y).to_bits(),
        Operation::Multiply => (x * y).to_bits(),
        Operation::Divide => (x / y).to_bits(),
        Operation::SquareRoot => x.sqrt().to_bits(),
        Operation::Convert => (a as f64).to_bits(),
    }
}

fn q(x: f64) -> Quantity {
    Quantity { bits: x.to_bits() }
}

fn value(x: Quantity) -> f64 {
    f64::from_bits(x.bits)
}

fn text(s: &str) -> Json {
    Json::Text(s.to_string())
}

fn num(n: u64) -> Json {
    Json::Number(Number::Natural(n))
}

fn obj(members: Vec<(&str, Json)>) -> Json {
    Json::Object(members.into_iter().map(|(k, v)| (k.to_string(), v)).collect())
}

fn seed() -> UserProfile {
    UserProfile::seed_typical_developer(0, None, "linux")
}

fn error_state(domain: bool) -> Json {
    let mut ctx = vec![
        ("tool", text("pytest")),
        ("failure_count", num(3)),
        ("duration_sec", num(150)),
    ];
    if domain {
        ctx.push(("domain", text("docs.pytest.org")));
    }
    obj(vec![
        ("ts", num(9)),
        ("session_id", num(4)),
        ("signal", text("error_loop")),
        ("gate", text("open:extended_block")),
        ("error_context", obj(ctx)),
    ])
}

#[test]
fn each_opening_of_the_gate_counts_once() {
    let state = |gate: &str| obj(vec![("gate", text(gate))]);
    let mut watch = GateWatch::new();
    assert!(!watch.observe(&state("closed:no_trigger")));
    assert!(watch.observe(&state("open:idle")));
    assert!(!watch.observe(&state("open:idle")));
    assert!(!watch.observe(&state("closed:cooldown")));
    assert!(watch.observe(&state("open:context_switch")));
    assert!(!watch.observe(&Json::Null));
    assert!(watch.observe(&state("open:idle")));
}

#[test]
fn signals_lead_to_types() {
    assert_eq!(classify_rec_type("error_loop", &error_state(true)), "knowledge_bridge");
    assert_eq!(classify_rec_type("error_loop", &error_state(false)), "friction_remover");
    assert_eq!(classify_rec_type("repetition", &Json::Null), "workflow_accelerator");
    assert_eq!(classify_rec_type("context_switch", &Json::Null), "state_preserver");
    assert_eq!(classify_rec_type("idle", &Json::Null), "state_preserver");
    assert_eq!(classify_rec_type("none", &Json::Null), "friction_remover");
}

#[test]
fn templates_stand_in_for_the_model() {
    assert_eq!(
        fallback_text("error_loop", &error_state(true), "knowledge_bridge"),
        "You've been stuck on `pytest` for a while and searching docs.pytest.org - want a hand digging into the root cause?"
    );
    assert_eq!(
        fallback_text("error_loop", &Json::Null, "friction_remover"),
        "`that command` has failed a few times in a row - want to step through the error together?"
    );
    assert!(fallback_text("repetition", &Json::Null, "").contains("script or alias"));
    assert!(fallback_text("context_switch", &Json::Null, "").contains("switching tasks"));
    assert!(fallback_text("idle", &Json::Null, "").contains("before the break"));
    assert!(fallback_text("none", &Json::Null, "").contains("check-in"));
}

#[test]
fn prompts_are_assembled() {
    let mut profile = seed();
    for (name, weight) in [("rust", 0.5), ("vim", 0.9), ("bash", 0.1), ("git", 0.7)] {
        profile.stack.stack_weights.set(name, q(weight));
    }
    let percent = accept_percentage(&profile, "knowledge_bridge", calc);
    assert_eq!(value(percent), 50.0);
    let prompt =
        build_prompt("error_loop", &error_state(true), &profile, "knowledge_bridge", "50");
    let expected = "You are an embedded productivity assistant observing a developer's live activity in real time. \
Based on the signal below, write ONE short, actionable suggestion for what they could do right now. \
Respond with the suggestion only - 1 to 3 sentences, no preamble, no markdown, no headers.\n\n\
Signal: error_loop\n\
The user has run `pytest` and it has failed 3 times over the last 2 minutes. They've been searching docs.pytest.org for help with the error.\n\n\
User profile:\n\
- Role: software developer\n\
- Primary stack: vim, git, rust\n\
- Preferred suggestion style: concise\n\
- This user has historically accepted 50% of \"knowledge_bridge\"-type suggestions.";
    assert_eq!(prompt, expected);

    profile.behavioral.recommendation_accept_rate.set("state_preserver", q(0.34));
    let prompt = build_prompt("idle", &Json::Null, &seed(), "state_preserver", "50");
    assert!(prompt.contains("- Primary stack: unknown\n"));
    assert!(!prompt.contains("lighter touch"));
    let prompt = build_prompt("idle", &Json::Null, &profile, "state_preserver", "34");
    assert!(prompt.ends_with(" - lean towards a lighter touch or skip the suggestion if it doesn't feel useful."));
    let repetition = obj(vec![(
        "repetition_context",
        obj(vec![
            ("count", num(4)),
            ("sequence", Json::Array(vec![text("vim"), num(1), text("make")])),
        ]),
    )]);
    let prompt = build_prompt("repetition", &repetition, &profile, "x", "0");
    assert!(prompt.contains("The user has repeated this sequence 4 times: vim -> make."));
    let switched = obj(vec![(
        "context_switch",
        obj(vec![("to_project", text("b")), ("mid_task", Json::Bool(true))]),
    )]);
    let prompt = build_prompt("context_switch", &switched, &profile, "x", "0");
    assert!(prompt.contains("The user is switching from their previous project to b. They appeared"));
    let short = obj(vec![("error_context", obj(vec![("duration_sec", num(5))]))]);
    let prompt = build_prompt("error_loop", &short, &profile, "x", "0");
    assert!(prompt.contains("The user has run `a tool` and it has failed 0 times over the last 1 minutes.\n"));
}

#[test]
fn requests_and_replies() {
    let body = request_body("some-model", "What now?");
    assert_eq!(body.get_text("model").as_deref(), Some("some-model"));
    assert_eq!(body.get_natural("max_tokens"), Some(200));
    let messages = body.get_array("messages").unwrap();
    assert_eq!(messages.len(), 1);
    assert_eq!(messages[0].get_text("role").as_deref(), Some("user"));
    assert_eq!(messages[0].get_text("content").as_deref(), Some("What now?"));

    let reply = |blocks: Vec<Json>| obj(vec![("content", Json::Array(blocks))]);
    let block = |s: &str| obj(vec![("text", text(s))]);
    assert_eq!(
        reply_text(&reply(vec![obj(vec![]), block("  Take a break.\n"), block("x")])).as_deref(),
        Some("Take a break.")
    );
    assert_eq!(reply_text(&reply(vec![block("  "), block("x")])), None);
    assert_eq!(reply_text(&reply(vec![])), None);
    assert_eq!(reply_text(&Json::Null), None);
}

#[test]
fn recommendations_are_made_and_answered() {
    let mut rec = recommend(&error_state(false), None, 100);
    assert_eq!((rec.id, rec.ts, rec.session_id), (0, 9, 4));
    assert_eq!((rec.signal.as_str(), rec.gate.as_str()), ("error_loop", "open:extended_block"));
    assert_eq!((rec.rec_type.as_str(), rec.status.as_str()), ("friction_remover", "pending"));
    assert!(rec.text.starts_with("`pytest` has failed"));
    let bare = recommend(&Json::Null, Some("Hi".to_string()), 100);
    assert_eq!((bare.ts, bare.signal.as_str(), bare.text.as_str()), (100, "none", "Hi"));

    let mut profile = seed();
    apply_feedback(&mut rec, &mut profile, true, calc);
    assert_eq!(rec.status, "accepted");
    let rates = &profile.behavioral.recommendation_accept_rate;
    assert_eq!(value(*rates.get("friction_remover").unwrap()), 0.5 * (1.0 - 0.3) + 1.0 * 0.3);
    assert_eq!(value(*rates.get("state_preserver").unwrap()), 0.5);
    rec.rec_type = "unheard_of".to_string();
    apply_feedback(&mut rec, &mut profile, false, calc);
    assert_eq!(rec.status, "dismissed");
    let rates = &profile.behavioral.recommendation_accept_rate;
    assert_eq!(value(*rates.get("unheard_of").unwrap()), 0.5 * (1.0 - 0.3) + 0.0 * 0.3);
}

#[test]
fn raw_events_have_types() {
    assert_eq!(event_type(&obj(vec![("Window", Json::Null)])), "Window");
    assert_eq!(event_type(&obj(vec![("command", Json::Null), ("x", Json::Null)])), "Terminal");
    assert_eq!(event_type(&obj(vec![("title", Json::Null), ("x", Json::Null)])), "Window");
    assert_eq!(event_type(&obj(vec![("x", Json::Null), ("application", Json::Null)])), "Window");
    assert_eq!(event_type(&obj(vec![("site", Json::Null), ("x", Json::Null)])), "Browser");
    assert_eq!(event_type(&obj(vec![])), "unknown");
    assert_eq!(event_type(&num(1)), "unknown");
}

#[test]
fn rows_and_queries() {
    let row = normalized_row(
        &obj(vec![("timestamp", num(5)), ("source", text("window"))]),
        77,
    );
    assert_eq!((row.timestamp, row.source.as_str(), row.kind.as_str()), (5, "window", "unknown"));
    assert_eq!(normalized_row(&Json::Null, 77).timestamp, 77);
    assert_eq!(data_dir(None), "./data");
    assert_eq!(data_dir(Some("/var/x")), "/var/x");
    assert_eq!(db_path("./data"), "./data/activity_monitor.db");
    assert_eq!(
        recent_query(EventTable::Normalized, 20),
        "SELECT raw_json FROM normalized_events ORDER BY id DESC LIMIT 20"
    );
    assert_eq!(
        recent_query(EventTable::Raw, 0),
        "SELECT raw_json FROM events ORDER BY id DESC LIMIT 0"
    );
}

#[test]
fn requests_to_the_daemon() {
    assert_eq!(query_limit(None), 20);
    assert_eq!(query_limit(Some("5")), 5);
    assert_eq!(query_limit(Some("+7")), 7);
    assert_eq!(query_limit(Some("-7")), 20);
    assert_eq!(query_limit(Some("many")), 20);
    assert!(feedback_accepted(&obj(vec![("accepted", Json::Bool(true))])));
    assert!(!feedback_accepted(&obj(vec![("accepted", text("true"))])));
    assert!(!feedback_accepted(&Json::Null));
}

#[test]
fn streams_are_forwarded() {
    assert!(matches!(forward(Channel::Profile, Received::Value), Forward::Send));
    assert!(matches!(forward(Channel::Normalized, Received::Lagged), Forward::Skip));
    assert!(matches!(forward(Channel::Normalized, Received::Closed), Forward::Stop));
    assert!(matches!(forward(Channel::Session, Received::Closed), Forward::Skip));
    assert_eq!(channel_name(Channel::Recommendation), "recommendation");
    assert_eq!(channel_name(Channel::Session), "session");
}

#[test]
fn the_desktop_shell() {
    assert!(matches!(tray_action("quit"), TrayAction::Quit));
    assert!(matches!(tray_action("show"), TrayAction::Show));
    assert!(matches!(tray_action("else"), TrayAction::Nothing));
    assert_eq!(get_daemon_status(), "running");
}
