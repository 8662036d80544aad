//! The recommendation engine: the action-taking tier above the three-level
//! intent system.
//!
//! Whenever the intervention gate opens, a prompt is assembled from that
//! moment's state and the relevant slices of the long-term profile, a model
//! is asked for a single short suggestion, and the result is published.
//! Without a model a templated suggestion is used instead.
//!
//! Accept/dismiss feedback ([`apply_feedback`]) is the one place outside the
//! distiller that writes to the profile: it nudges
//! `behavioral.recommendation_accept_rate` with the same moving average the
//! distiller uses elsewhere.

use crate::arithmetic::{ema, moved, product, reliable, times, Calculator};
use crate::distiller::aggregate::EMA_ALPHA;
use crate::immediate::gate::{is_open, opens};
use crate::json::{self, texts_from, Json, Number};
use crate::lists::{first, place_to, placed, ranked, ranked_to};
use crate::number::{decimal, render};
use crate::profile::UserProfile;
use crate::quantity::{Quantity, HUNDRED, ONE, POINT_35, POINT_5, ZERO};
use crate::table::Table;
use crate::text::{self, joined, opt_view, same, trimmed, views};
use vstd::prelude::*;

verus! {

/// How many entries of the stack a prompt mentions.
pub const PROMPT_STACK: usize = 3;

/// How many tokens a suggestion may take.
pub const MAX_TOKENS: u64 = 200;

/// A single actionable suggestion generated when the intervention gate opens.
#[derive(Debug, Clone)]
pub struct Recommendation {
    pub id: i64,
    pub ts: u64,
    pub session_id: u64,
    /// The dominant signal that triggered this recommendation
    /// (`"error_loop"`, `"context_switch"`, `"repetition"`, `"idle"`).
    pub signal: String,
    /// The intervention gate string that triggered this recommendation (e.g.
    /// `"open:extended_block"`).
    pub gate: String,
    /// One of `"friction_remover"`, `"knowledge_bridge"`,
    /// `"workflow_accelerator"`, `"state_preserver"` - matches the keys in
    /// `profile.behavioral.recommendation_accept_rate`.
    pub rec_type: String,
    pub text: String,
    /// `"pending"`, `"accepted"`, or `"dismissed"`.
    pub status: String,
}

// ---------------------------------------------------------------------
// The intervention gate
// ---------------------------------------------------------------------

/// Watches the intervention gate of the emitted states.
pub struct GateWatch {
    pub was_open: bool,
}

/// The intervention gate of a state, or the empty text.
pub open spec fn gate_of(state: Json) -> Seq<char> {
    match state.text_at("gate"@) {
        Some(gate) => gate,
        None => Seq::empty(),
    }
}

impl GateWatch {
    pub fn new() -> (r: Self)
        ensures
            !r.was_open,
    {
        GateWatch { was_open: false }
    }

    /// A state was emitted: whether it is time for a recommendation, that is
    /// whether the intervention gate has just opened.
    pub fn observe(&mut self, state: &Json) -> (r: bool)
        ensures
            r == (opens(gate_of(*state)) && !old(self).was_open),
            final(self).was_open == opens(gate_of(*state)),
    {
        let gate = match state.get_text("gate") {
            Some(gate) => gate,
            None => String::new(),
        };
        assert(gate@ =~= gate_of(*state));
        let open = is_open(gate.as_str());
        let opened = open && !self.was_open;
        self.was_open = open;
        opened
    }
}

// ---------------------------------------------------------------------
// What to recommend
// ---------------------------------------------------------------------

/// The text of a member of the error context of a state.
pub open spec fn error_text(state: Json, key: Seq<char>) -> Option<Seq<char>> {
    match state.field("error_context"@) {
        Some(ctx) => ctx.text_at(key),
        None => None,
    }
}

fn read_error(state: &Json, key: &str) -> (r: Option<String>)
    ensures
        opt_view(r) == error_text(*state, key@),
{
    match state.get("error_context") {
        Some(ctx) => ctx.get_text(key),
        None => None,
    }
}

/// The type of recommendation that a signal asks for.
pub open spec fn rec_type_of(signal: Seq<char>, state: Json) -> Seq<char> {
    if signal == "error_loop"@ {
        if error_text(state, "domain"@) is Some {
            "knowledge_bridge"@
        } else {
            "friction_remover"@
        }
    } else if signal == "repetition"@ {
        "workflow_accelerator"@
    } else if signal == "context_switch"@ || signal == "idle"@ {
        "state_preserver"@
    } else {
        "friction_remover"@
    }
}

/// Maps the dominant signal (and, for error loops, whether a follow-up
/// search domain was found) to one of the four recommendation types that
/// `profile.behavioral.recommendation_accept_rate` tracks.
pub fn classify_rec_type(signal: &str, state: &Json) -> (r: String)
    ensures
        r@ == rec_type_of(signal@, *state),
{
    if same(signal, "error_loop") {
        if read_error(state, "domain").is_some() {
            "knowledge_bridge".to_owned()
        } else {
            "friction_remover".to_owned()
        }
    } else if same(signal, "repetition") {
        "workflow_accelerator".to_owned()
    } else if same(signal, "context_switch") || same(signal, "idle") {
        "state_preserver".to_owned()
    } else {
        "friction_remover".to_owned()
    }
}

/// Every signal leads to one of the types that the profile keeps accept
/// rates for from the start.
pub proof fn law_recommendation_types_are_tracked(signal: Seq<char>, state: Json)
    ensures
        crate::profile::even_odds().dom().contains(rec_type_of(signal, state)),
{
}

// ---------------------------------------------------------------------
// Templates
// ---------------------------------------------------------------------

pub open spec fn or_text(text: Option<Seq<char>>, default: Seq<char>) -> Seq<char> {
    match text {
        Some(text) => text,
        None => default,
    }
}

/// A templated suggestion.
pub open spec fn template(signal: Seq<char>, state: Json, rec_type: Seq<char>) -> Seq<char> {
    if signal == "error_loop"@ {
        let tool = or_text(error_text(state, "tool"@), "that command"@);
        if rec_type == "knowledge_bridge"@ {
            "You've been stuck on `"@ + tool + "` for a while and searching "@ + or_text(
                error_text(state, "domain"@),
                "the docs"@,
            ) + " - want a hand digging into the root cause?"@
        } else {
            "`"@ + tool
                + "` has failed a few times in a row - want to step through the error together?"@
        }
    } else if signal == "repetition"@ {
        "You've repeated the same sequence of commands a few times - want help turning it into a script or alias?"@
    } else if signal == "context_switch"@ {
        "Looks like you're switching tasks - want a quick summary of where you left off so it's easy to pick back up later?"@
    } else if signal == "idle"@ {
        "You've been away for a bit - want a quick recap of what you were working on before the break?"@
    } else {
        "Now might be a good moment for a quick check-in - anything I can help with?"@
    }
}

/// A templated suggestion used when there is no model to ask or the call
/// fails - keeps the rest of the pipeline (storage, publishing,
/// accept/dismiss feedback) working without a model call.
pub fn fallback_text(signal: &str, state: &Json, rec_type: &str) -> (r: String)
    ensures
        r@ == template(signal@, *state, rec_type@),
{
    if same(signal, "error_loop") {
        let tool = match read_error(state, "tool") {
            Some(tool) => tool,
            None => "that command".to_owned(),
        };
        if same(rec_type, "knowledge_bridge") {
            let domain = match read_error(state, "domain") {
                Some(domain) => domain,
                None => "the docs".to_owned(),
            };
            let mut out = "You've been stuck on `".to_owned();
            out.append(tool.as_str());
            out.append("` for a while and searching ");
            out.append(domain.as_str());
            out.append(" - want a hand digging into the root cause?");
            out
        } else {
            let mut out = "`".to_owned();
            out.append(tool.as_str());
            out.append(
                "` has failed a few times in a row - want to step through the error together?",
            );
            out
        }
    } else if same(signal, "repetition") {
        "You've repeated the same sequence of commands a few times - want help turning it into a script or alias?".to_owned()
    } else if same(signal, "context_switch") {
        "Looks like you're switching tasks - want a quick summary of where you left off so it's easy to pick back up later?".to_owned()
    } else if same(signal, "idle") {
        "You've been away for a bit - want a quick recap of what you were working on before the break?".to_owned()
    } else {
        "Now might be a good moment for a quick check-in - anything I can help with?".to_owned()
    }
}

// ---------------------------------------------------------------------
// The prompt
// ---------------------------------------------------------------------

pub open spec fn natural_or(json: Json, key: Seq<char>, default: u64) -> u64 {
    match json.natural_at(key) {
        Some(n) => n,
        None => default,
    }
}

fn read_natural(json: &Json, key: &str) -> (r: u64)
    ensures
        r == natural_or(*json, key@, 0),
{
    match json.get_natural(key) {
        Some(n) => n,
        None => 0,
    }
}

/// Minutes, but one at least.
pub open spec fn minutes(secs: u64) -> nat {
    if secs / 60 > 1 {
        (secs / 60) as nat
    } else {
        1
    }
}

/// What a prompt says about an error loop.
pub open spec fn error_details(ctx: Json) -> Seq<char> {
    let failed = "The user has run `"@ + or_text(ctx.text_at("tool"@), "a tool"@)
        + "` and it has failed "@ + decimal(natural_or(ctx, "failure_count"@, 0) as nat)
        + " times over the last "@ + decimal(minutes(natural_or(ctx, "duration_sec"@, 0)))
        + " minutes."@;
    match ctx.text_at("domain"@) {
        Some(domain) => failed + " They've been searching "@ + domain
            + " for help with the error."@,
        None => failed,
    }
}

/// The commands of a repetition.
pub open spec fn sequence_of(ctx: Json) -> Seq<Seq<char>> {
    match ctx.elements_at("sequence"@) {
        Some(items) => texts_from(items, 0),
        None => Seq::empty(),
    }
}

/// What a prompt says about a repetition.
pub open spec fn repetition_details(ctx: Json) -> Seq<char> {
    "The user has repeated this sequence "@ + decimal(natural_or(ctx, "count"@, 0) as nat)
        + " times: "@ + joined(sequence_of(ctx), " -> "@) + "."@
}

/// What a prompt says about a context switch.
pub open spec fn switch_details(ctx: Json) -> Seq<char> {
    let switched = "The user is switching from "@ + or_text(
        ctx.text_at("from_project"@),
        "their previous project"@,
    ) + " to "@ + or_text(ctx.text_at("to_project"@), "a new project"@) + "."@;
    if ctx.boolean_at("mid_task"@) == Some(true) {
        switched
            + " They appeared to be in the middle of debugging something blocked when the switch happened."@
    } else {
        switched
    }
}

/// What a prompt says about the moment.
pub open spec fn details(signal: Seq<char>, state: Json) -> Seq<char> {
    if signal == "error_loop"@ {
        match state.field("error_context"@) {
            Some(ctx) => error_details(*ctx),
            None => Seq::empty(),
        }
    } else if signal == "repetition"@ {
        match state.field("repetition_context"@) {
            Some(ctx) => repetition_details(*ctx),
            None => Seq::empty(),
        }
    } else if signal == "context_switch"@ {
        match state.field("context_switch"@) {
            Some(ctx) => switch_details(*ctx),
            None => Seq::empty(),
        }
    } else if signal == "idle"@ {
        "The user has gone idle (no terminal, browser, editor, or filesystem activity) after a period of active work."@
    } else {
        Seq::empty()
    }
}

fn write_error_details(ctx: &Json) -> (r: String)
    ensures
        r@ == error_details(*ctx),
{
    let tool = ctx.get_text_or("tool", "a tool");
    let failures = read_natural(ctx, "failure_count");
    let whole = read_natural(ctx, "duration_sec") / 60;
    let duration: u64 = if whole > 1 {
        whole
    } else {
        1
    };
    let mut out = "The user has run `".to_owned();
    out.append(tool.as_str());
    out.append("` and it has failed ");
    out.append(render(failures).as_str());
    out.append(" times over the last ");
    out.append(render(duration).as_str());
    out.append(" minutes.");
    if let Some(domain) = ctx.get_text("domain") {
        out.append(" They've been searching ");
        out.append(domain.as_str());
        out.append(" for help with the error.");
    }
    out
}

fn write_repetition_details(ctx: &Json) -> (r: String)
    ensures
        r@ == repetition_details(*ctx),
{
    let count = read_natural(ctx, "count");
    let sequence = match ctx.get_array("sequence") {
        Some(items) => json::texts_of(items),
        None => Vec::new(),
    };
    assert(views(sequence@) =~= sequence_of(*ctx));
    let mut out = "The user has repeated this sequence ".to_owned();
    out.append(render(count).as_str());
    out.append(" times: ");
    out.append(text::join(&sequence, " -> ").as_str());
    out.append(".");
    out
}

fn write_switch_details(ctx: &Json) -> (r: String)
    ensures
        r@ == switch_details(*ctx),
{
    let mut out = "The user is switching from ".to_owned();
    out.append(ctx.get_text_or("from_project", "their previous project").as_str());
    out.append(" to ");
    out.append(ctx.get_text_or("to_project", "a new project").as_str());
    out.append(".");
    let mid_task = match ctx.get_boolean("mid_task") {
        Some(b) => b,
        None => false,
    };
    if mid_task {
        out.append(
            " They appeared to be in the middle of debugging something blocked when the switch happened.",
        );
    }
    out
}

fn write_details(signal: &str, state: &Json) -> (r: String)
    ensures
        r@ == details(signal@, *state),
{
    let empty = String::new();
    assert(empty@ =~= Seq::empty());
    if same(signal, "error_loop") {
        match state.get("error_context") {
            Some(ctx) => write_error_details(ctx),
            None => empty,
        }
    } else if same(signal, "repetition") {
        match state.get("repetition_context") {
            Some(ctx) => write_repetition_details(ctx),
            None => empty,
        }
    } else if same(signal, "context_switch") {
        match state.get("context_switch") {
            Some(ctx) => write_switch_details(ctx),
            None => empty,
        }
    } else if same(signal, "idle") {
        "The user has gone idle (no terminal, browser, editor, or filesystem activity) after a period of active work.".to_owned()
    } else {
        empty
    }
}

/// The entries of a table of weights.
pub open spec fn weights_of(entries: Seq<(String, Quantity)>) -> Seq<(Seq<char>, Quantity)> {
    Seq::new(entries.len(), |i: int| (entries[i].0@, entries[i].1))
}

pub open spec fn entry_rank() -> spec_fn((Seq<char>, Quantity)) -> int {
    |e: (Seq<char>, Quantity)| e.1.rank()
}

/// The names of the heaviest entries.
pub open spec fn top_names(entries: Seq<(String, Quantity)>) -> Seq<Seq<char>> {
    let top = first(ranked(weights_of(entries), entry_rank()), PROMPT_STACK as int);
    Seq::new(top.len(), |i: int| top[i].0)
}

fn rank_entries(entries: &Vec<(String, Quantity)>) -> (r: Vec<(String, Quantity)>)
    ensures
        weights_of(r@) == ranked(weights_of(entries@), entry_rank()),
{
    let ghost all = weights_of(entries@);
    let mut out: Vec<(String, Quantity)> = Vec::new();
    assert(weights_of(out@) =~= Seq::empty());
    for i in 0..entries.len()
        invariant
            all == weights_of(entries@),
            weights_of(out@) == ranked_to(all, entry_rank(), i as int),
    {
        let name = entries[i].0.clone();
        let weight = entries[i].1;
        let ghost view = (name@, weight);
        assert(all[i as int] == view);
        let ghost before = weights_of(out@);
        let w = weight.order();
        let mut n: usize = out.len();
        while n > 0 && out[n - 1].1.order() < w
            invariant
                n <= out@.len(),
                before == weights_of(out@),
                w == entry_rank()(view),
                place_to(before, entry_rank(), w as int, n as int) == place_to(
                    before,
                    entry_rank(),
                    w as int,
                    before.len() as int,
                ),
            decreases n,
        {
            assert(before[n - 1].1 == out@[n - 1].1);
            n = n - 1;
        }
        assert(n > 0 ==> before[n - 1].1 == out@[n - 1].1);
        out.insert(n, (name, weight));
        assert(weights_of(out@) =~= before.insert(n as int, view));
        assert(weights_of(out@) =~= placed(before, entry_rank(), view));
    }
    out
}

fn find_top_names(weights: &Table<Quantity>) -> (r: Vec<String>)
    ensures
        views(r@) == top_names(weights.entries@),
{
    let order = rank_entries(&weights.entries);
    let ghost all = weights_of(order@);
    let mut out: Vec<String> = Vec::new();
    let n: usize = if order.len() > PROMPT_STACK {
        PROMPT_STACK
    } else {
        order.len()
    };
    for i in 0..n
        invariant
            n <= order@.len(),
            all == weights_of(order@),
            out@.len() == i,
            forall|j: int| 0 <= j < i ==> (#[trigger] out@[j])@ == all[j].0,
    {
        out.push(order[i].0.clone());
    }
    assert(views(out@) =~= top_names(weights.entries@));
    out
}

/// How often suggestions of a type are accepted.
pub open spec fn accept_rate(rates: Map<Seq<char>, Quantity>, rec_type: Seq<char>) -> Quantity {
    if rates.dom().contains(rec_type) {
        rates[rec_type]
    } else {
        Quantity { bits: POINT_5 }
    }
}

/// How often suggestions of a type are accepted.
pub fn get_accept_rate(rates: &Table<Quantity>, rec_type: &str) -> (r: Quantity)
    ensures
        r == accept_rate(rates@, rec_type@),
{
    match rates.get(rec_type) {
        Some(rate) => *rate,
        None => Quantity { bits: POINT_5 },
    }
}

/// How often suggestions of a type are accepted, in percent.
pub fn accept_percentage<C: Calculator>(profile: &UserProfile, rec_type: &str, calc: C) -> (r:
    Quantity)
    requires
        reliable(calc),
    ensures
        r == product(
            calc,
            accept_rate(profile.behavioral.recommendation_accept_rate@, rec_type@),
            Quantity { bits: HUNDRED },
        ),
{
    let rate = get_accept_rate(&profile.behavioral.recommendation_accept_rate, rec_type);
    times(calc, rate, Quantity { bits: HUNDRED })
}

/// The user seldom accepts suggestions of this kind.
pub open spec fn reluctant(rate: Quantity) -> bool {
    rate.rank() < (Quantity { bits: POINT_35 }).rank()
}

/// The prompt for a suggestion, where `percent` writes how often suggestions
/// of the type are accepted, in percent.
pub open spec fn prompt(
    signal: Seq<char>,
    state: Json,
    profile: &UserProfile,
    rec_type: Seq<char>,
    percent: Seq<char>,
) -> Seq<char> {
    let stack = top_names(profile.stack.stack_weights.entries@);
    "You are an embedded productivity assistant observing a developer's live activity in real time. Based on the signal below, write ONE short, actionable suggestion for what they could do right now. Respond with the suggestion only - 1 to 3 sentences, no preamble, no markdown, no headers.\n\nSignal: "@
        + signal + "\n"@ + details(signal, state) + "\n\nUser profile:\n- Role: "@
        + profile.identity.role_self_reported@ + "\n- Primary stack: "@ + (if stack.len() == 0 {
        "unknown"@
    } else {
        joined(stack, ", "@)
    }) + "\n- Preferred suggestion style: "@
        + profile.behavioral.pref_recommendation_verbosity@
        + "\n- This user has historically accepted "@ + percent + "% of \""@ + rec_type
        + "\"-type suggestions"@ + (if reluctant(
        accept_rate(profile.behavioral.recommendation_accept_rate@, rec_type),
    ) {
        " - lean towards a lighter touch or skip the suggestion if it doesn't feel useful"@
    } else {
        ""@
    }) + "."@
}

/// Assembles a prompt from the triggering state and the profile slices each
/// recommendation type cares about. `percent` is [`accept_percentage`],
/// rounded and written out.
pub fn build_prompt(
    signal: &str,
    state: &Json,
    profile: &UserProfile,
    rec_type: &str,
    percent: &str,
) -> (r: String)
    ensures
        r@ == prompt(signal@, *state, profile, rec_type@, percent@),
{
    let stack = find_top_names(&profile.stack.stack_weights);
    assert(views(stack@).len() == stack@.len());
    let stack_text = if stack.len() == 0 {
        "unknown".to_owned()
    } else {
        text::join(&stack, ", ")
    };
    let rate = get_accept_rate(&profile.behavioral.recommendation_accept_rate, rec_type);
    let note = if rate.less(Quantity { bits: POINT_35 }) {
        " - lean towards a lighter touch or skip the suggestion if it doesn't feel useful"
    } else {
        ""
    };
    let mut out = "You are an embedded productivity assistant observing a developer's live activity in real time. Based on the signal below, write ONE short, actionable suggestion for what they could do right now. Respond with the suggestion only - 1 to 3 sentences, no preamble, no markdown, no headers.\n\nSignal: ".to_owned();
    out.append(signal);
    out.append("\n");
    out.append(write_details(signal, state).as_str());
    out.append("\n\nUser profile:\n- Role: ");
    out.append(profile.identity.role_self_reported.as_str());
    out.append("\n- Primary stack: ");
    out.append(stack_text.as_str());
    out.append("\n- Preferred suggestion style: ");
    out.append(profile.behavioral.pref_recommendation_verbosity.as_str());
    out.append("\n- This user has historically accepted ");
    out.append(percent);
    out.append("% of \"");
    out.append(rec_type);
    out.append("\"-type suggestions");
    out.append(note);
    out.append(".");
    out
}

/// The body of a request to the model.
pub fn request_body(model: &str, prompt: &str) -> (r: Json)
    ensures
        r matches Json::Object(members) && members@.len() == 3,
        r.text_at("model"@) == Some(model@),
        r.natural_at("max_tokens"@) == Some(MAX_TOKENS),
        r.elements_at("messages"@) matches Some(messages) && {
            &&& messages.len() == 1
            &&& messages[0] matches Json::Object(members) && members@.len() == 2
            &&& messages[0].text_at("role"@) == Some("user"@)
            &&& messages[0].text_at("content"@) == Some(prompt@)
        },
{
    proof {
        reveal_strlit("model");
        reveal_strlit("max_tokens");
        reveal_strlit("messages");
        reveal_strlit("role");
        reveal_strlit("content");
        assert("model"@.len() == 5 && "max_tokens"@.len() == 10 && "messages"@.len() == 8);
        assert("role"@.len() == 4 && "content"@.len() == 7);
        reveal_with_fuel(json::member_from, 4);
    }
    let mut message: Vec<(String, Json)> = Vec::new();
    message.push(("role".to_owned(), Json::Text("user".to_owned())));
    message.push(("content".to_owned(), Json::Text(prompt.to_owned())));
    let mut messages: Vec<Json> = Vec::new();
    messages.push(Json::Object(message));
    let mut body: Vec<(String, Json)> = Vec::new();
    body.push(("model".to_owned(), Json::Text(model.to_owned())));
    body.push(("max_tokens".to_owned(), Json::Number(Number::Natural(MAX_TOKENS))));
    body.push(("messages".to_owned(), Json::Array(messages)));
    Json::Object(body)
}

// ---------------------------------------------------------------------
// The reply
// ---------------------------------------------------------------------

/// The first text among the blocks from position `from` on.
pub open spec fn first_text(blocks: Seq<Json>, from: int) -> Option<Seq<char>>
    decreases blocks.len() - from,
{
    if from < 0 || from >= blocks.len() {
        None
    } else {
        match blocks[from].text_at("text"@) {
            Some(text) => Some(text),
            None => first_text(blocks, from + 1),
        }
    }
}

/// The suggestion in a reply of the model: its first text, trimmed, unless
/// that is empty.
pub open spec fn suggestion_in(reply: Json) -> Option<Seq<char>> {
    match reply.elements_at("content"@) {
        Some(blocks) => match first_text(blocks, 0) {
            Some(text) => if trimmed(text).len() > 0 {
                Some(trimmed(text))
            } else {
                None
            },
            None => None,
        },
        None => None,
    }
}

/// The suggestion in a reply of the model.
pub fn reply_text(reply: &Json) -> (r: Option<String>)
    ensures
        opt_view(r) == suggestion_in(*reply),
{
    let blocks = match reply.get_array("content") {
        Some(blocks) => blocks,
        None => {
            return None;
        },
    };
    let mut i: usize = 0;
    while i < blocks.len()
        invariant
            i <= blocks@.len(),
            reply.elements_at("content"@) == Some(blocks@),
            first_text(blocks@, i as int) == first_text(blocks@, 0),
        decreases blocks@.len() - i,
    {
        if let Some(t) = blocks[i].get_text("text") {
            let short = text::trim(t.as_str());
            return if short.as_str().is_empty() {
                None
            } else {
                Some(short)
            };
        }
        i = i + 1;
    }
    None
}

// ---------------------------------------------------------------------
// Recommendations
// ---------------------------------------------------------------------

/// The recommendation for a state at which the intervention gate opened. The
/// text is the model's reply, or a template without one. `now` stands in for
/// a missing time.
pub fn recommend(state: &Json, reply: Option<String>, now: u64) -> (r: Recommendation)
    ensures
        ({
            let signal = or_text(state.text_at("signal"@), "none"@);
            let rec_type = rec_type_of(signal, *state);
            &&& r.id == 0
            &&& r.ts == natural_or(*state, "ts"@, now)
            &&& r.session_id == natural_or(*state, "session_id"@, 0)
            &&& r.signal@ == signal
            &&& r.gate@ == gate_of(*state)
            &&& r.rec_type@ == rec_type
            &&& r.text@ == match reply {
                Some(text) => text@,
                None => template(signal, *state, rec_type),
            }
            &&& r.status@ == "pending"@
        }),
{
    let signal = state.get_text_or("signal", "none");
    let gate = match state.get_text("gate") {
        Some(gate) => gate,
        None => String::new(),
    };
    assert(gate@ =~= gate_of(*state));
    let rec_type = classify_rec_type(signal.as_str(), state);
    let text = match reply {
        Some(text) => text,
        None => fallback_text(signal.as_str(), state, rec_type.as_str()),
    };
    let ts = match state.get_natural("ts") {
        Some(ts) => ts,
        None => now,
    };
    Recommendation {
        id: 0,
        ts,
        session_id: read_natural(state, "session_id"),
        signal,
        gate,
        rec_type,
        text,
        status: "pending".to_owned(),
    }
}

/// Records the user's response to a recommendation: updates its `status` and
/// nudges `recommendation_accept_rate` for its type toward one or zero.
pub fn apply_feedback<C: Calculator>(
    rec: &mut Recommendation,
    profile: &mut UserProfile,
    accepted: bool,
    calc: C,
)
    requires
        reliable(calc),
        old(profile).behavioral.recommendation_accept_rate.wf(),
    ensures
        *final(rec) == (Recommendation { status: final(rec).status, ..*old(rec) }),
        final(rec).status@ == if accepted {
            "accepted"@
        } else {
            "dismissed"@
        },
        final(profile).behavioral.recommendation_accept_rate.wf(),
        final(profile).behavioral.recommendation_accept_rate@ == old(profile).behavioral.recommendation_accept_rate@.insert(
            old(rec).rec_type@,
            moved(
                calc,
                accept_rate(
                    old(profile).behavioral.recommendation_accept_rate@,
                    old(rec).rec_type@,
                ),
                if accepted {
                    Quantity { bits: ONE }
                } else {
                    Quantity { bits: ZERO }
                },
                Quantity { bits: EMA_ALPHA },
            ),
        ),
        final(profile).behavioral == (crate::profile::Behavioral {
            recommendation_accept_rate: final(profile).behavioral.recommendation_accept_rate,
            ..old(profile).behavioral
        }),
        *final(profile) == (UserProfile {
            behavioral: final(profile).behavioral,
            ..*old(profile)
        }),
{
    rec.status = if accepted {
        "accepted".to_owned()
    } else {
        "dismissed".to_owned()
    };
    let sample = if accepted {
        Quantity { bits: ONE }
    } else {
        Quantity { bits: ZERO }
    };
    let rate = get_accept_rate(
        &profile.behavioral.recommendation_accept_rate,
        rec.rec_type.as_str(),
    );
    profile.behavioral.recommendation_accept_rate.set(
        rec.rec_type.as_str(),
        ema(calc, rate, sample, Quantity { bits: EMA_ALPHA }),
    );
}

} // verus!
