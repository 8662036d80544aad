//! What the smaller parts promise: texts, numbers, the first profile,
//! suggestions and the server.

use crate::collectors::laws::lemma_stop;
use crate::json::{Json, Number};
use crate::number::{decimal, digit_value, digits_value, number, signed_decimal};
use crate::profile::{even_odds, neutral_resolutions, nine_to_five, shell_name, UserProfile};
use crate::quantity::Quantity;
use crate::recommend::{
    accept_rate, first_text, minutes, prompt, rec_type_of, suggestion_in, template, top_names,
    weights_of,
};
use crate::server::{channel_type, forwarded, limit_in, Channel, Received};
use crate::store::raw_event_type;
use crate::text::{
    find_from, joined, lines, lines_from, occurs_at, pieces, pieces_from, skip_space,
    skip_space_back, space_from, stop_from, trimmed, white_space, without_cr, words, words_from,
};
use vstd::prelude::*;

verus! {

// ---------------------------------------------------------------------
// Trimming
// ---------------------------------------------------------------------

/// A text of nothing but white space.
pub open spec fn blank(s: Seq<char>) -> bool {
    forall|i: int| 0 <= i < s.len() ==> white_space(#[trigger] s[i])
}

/// A text that holds no white space.
pub open spec fn solid(s: Seq<char>) -> bool {
    forall|i: int| 0 <= i < s.len() ==> !white_space(#[trigger] s[i])
}

proof fn lemma_skip_to(s: Seq<char>, i: int, from: int)
    requires
        0 <= from <= i <= s.len(),
        forall|j: int| from <= j < i ==> white_space(#[trigger] s[j]),
        i == s.len() || !white_space(s[i]),
    ensures
        skip_space(s, from) == i,
    decreases i - from,
{
    if from < i {
        assert(white_space(s[from]));
        lemma_skip_to(s, i, from + 1);
    }
}

proof fn lemma_back_to(s: Seq<char>, i: int, to: int)
    requires
        0 <= i <= to <= s.len(),
        forall|j: int| i <= j < to ==> white_space(#[trigger] s[j]),
        i == 0 || !white_space(s[i - 1]),
    ensures
        skip_space_back(s, to) == i,
    decreases to - i,
{
    if i < to {
        assert(white_space(s[to - 1]));
        lemma_back_to(s, i, to - 1);
    }
}

proof fn lemma_space_at(s: Seq<char>, i: int, from: int)
    requires
        0 <= from <= i <= s.len(),
        forall|j: int| from <= j < i ==> !white_space(#[trigger] s[j]),
        i == s.len() || white_space(s[i]),
    ensures
        space_from(s, from) == i,
    decreases i - from,
{
    if from < i {
        assert(!white_space(s[from]));
        lemma_space_at(s, i, from + 1);
    }
}

/// Trimming takes the white space off the two ends, and nothing else.
pub proof fn law_trimming(left: Seq<char>, s: Seq<char>, right: Seq<char>)
    requires
        blank(left),
        blank(right),
        s.len() == 0 || !white_space(s[0]) && !white_space(s[s.len() - 1]),
    ensures
        trimmed(left + s + right) == s,
{
    let all = left + s + right;
    let n = all.len() as int;
    assert forall|j: int| 0 <= j < left.len() implies white_space(#[trigger] all[j]) by {
        assert(all[j] == left[j]);
    }
    assert forall|j: int| left.len() + s.len() <= j < n implies white_space(#[trigger] all[j]) by {
        assert(all[j] == right[j - left.len() - s.len()]);
    }
    if s.len() == 0 {
        lemma_skip_to(all, n, 0);
        lemma_back_to(all, 0, n);
        assert(trimmed(all) =~= s);
    } else {
        let a = left.len() as int;
        let b = a + s.len();
        assert(all[a] == s[0] && all[b - 1] == s[s.len() - 1]);
        lemma_skip_to(all, a, 0);
        lemma_back_to(all, b, n);
        assert(all.subrange(a, b) =~= s);
    }
}

// ---------------------------------------------------------------------
// Words
// ---------------------------------------------------------------------

proof fn lemma_scan_shift(head: Seq<char>, rest: Seq<char>, from: int)
    requires
        0 <= from <= rest.len(),
    ensures
        skip_space(head + rest, head.len() + from) == head.len() + skip_space(rest, from),
        space_from(head + rest, head.len() + from) == head.len() + space_from(rest, from),
        skip_space(rest, from) >= from,
        space_from(rest, from) >= from,
        skip_space(rest, from) <= rest.len(),
        space_from(rest, from) <= rest.len(),
    decreases rest.len() - from,
{
    if from < rest.len() {
        lemma_scan_shift(head, rest, from + 1);
        assert((head + rest)[head.len() + from] == rest[from]);
    }
}

proof fn lemma_words_shift(head: Seq<char>, rest: Seq<char>, from: int)
    requires
        0 <= from <= rest.len(),
    ensures
        words_from(head + rest, head.len() + from) == words_from(rest, from),
    decreases rest.len() - from,
{
    let all = head + rest;
    lemma_scan_shift(head, rest, from);
    let a = skip_space(rest, from);
    lemma_scan_shift(head, rest, a);
    let b = space_from(rest, a);
    if from < rest.len() && a < rest.len() && b > from {
        assert(all.subrange(head.len() + a, head.len() + b) =~= rest.subrange(a, b));
        lemma_words_shift(head, rest, b);
    }
}

/// The words of a text are found one by one: behind white space comes what
/// comes without it, and a solid text in front of white space, or alone, is a
/// word.
pub proof fn law_words_are_what_stands_between_spaces(
    space: Seq<char>,
    word: Seq<char>,
    rest: Seq<char>,
)
    requires
        blank(space),
        solid(word),
        word.len() > 0,
        rest.len() == 0 || white_space(rest[0]),
    ensures
        words(space) == Seq::<Seq<char>>::empty(),
        words(space + word + rest) == seq![word] + words(rest),
{
    lemma_skip_to(space, space.len() as int, 0);
    lemma_scan_shift(space, Seq::empty(), 0);
    assert(words(space) =~= Seq::empty());
    let all = space + word + rest;
    let a = space.len() as int;
    let b = a + word.len();
    assert forall|j: int| 0 <= j < a implies white_space(#[trigger] all[j]) by {
        assert(all[j] == space[j]);
    }
    assert forall|j: int| a <= j < b implies !white_space(#[trigger] all[j]) by {
        assert(all[j] == word[j - a]);
    }
    assert(!white_space(all[a]));
    if rest.len() > 0 {
        assert(all[b] == rest[0]);
    }
    lemma_skip_to(all, a, 0);
    lemma_space_at(all, b, a);
    assert(all.subrange(a, b) =~= word);
    lemma_words_shift(space + word, rest, 0);
}

// ---------------------------------------------------------------------
// Lines
// ---------------------------------------------------------------------

proof fn lemma_stop_at(s: Seq<char>, stops: Seq<char>, i: int, from: int)
    requires
        0 <= from <= i <= s.len(),
        forall|j: int| from <= j < i ==> !stops.contains(#[trigger] s[j]),
        i == s.len() || stops.contains(s[i]),
    ensures
        stop_from(s, stops, from) == i,
    decreases i - from,
{
    if from < i {
        assert(!stops.contains(s[from]));
        lemma_stop_at(s, stops, i, from + 1);
    }
}

proof fn lemma_stop_shift(head: Seq<char>, rest: Seq<char>, stops: Seq<char>, from: int)
    requires
        0 <= from <= rest.len(),
    ensures
        stop_from(head + rest, stops, head.len() + from) == head.len() + stop_from(
            rest,
            stops,
            from,
        ),
        from <= stop_from(rest, stops, from) <= rest.len(),
    decreases rest.len() - from,
{
    if from < rest.len() {
        lemma_stop_shift(head, rest, stops, from + 1);
        assert((head + rest)[head.len() + from] == rest[from]);
    }
}

proof fn lemma_lines_shift(head: Seq<char>, rest: Seq<char>, from: int)
    requires
        0 <= from <= rest.len(),
    ensures
        lines_from(head + rest, head.len() + from) == lines_from(rest, from),
    decreases rest.len() - from,
{
    let all = head + rest;
    let stops = seq!['\n'];
    lemma_stop_shift(head, rest, stops, from);
    let n = stop_from(rest, stops, from);
    if from < rest.len() {
        if n >= rest.len() {
            assert(all.skip(head.len() + from) =~= rest.skip(from));
        } else {
            assert(all.subrange(head.len() + from, head.len() + n) =~= rest.subrange(from, n));
            lemma_lines_shift(head, rest, n + 1);
        }
    }
}

/// The lines of a text are found one by one: what stands in front of a line
/// feed is a line, without a carriage return at its end, and what stands
/// behind the last one is a line as it is.
pub proof fn law_lines_are_what_stands_before_line_feeds(line: Seq<char>, rest: Seq<char>)
    requires
        forall|i: int| 0 <= i < line.len() ==> #[trigger] line[i] != '\n',
    ensures
        lines(Seq::empty()) == Seq::<Seq<char>>::empty(),
        line.len() > 0 ==> lines(line) == seq![line],
        line.len() == 0 || line[line.len() - 1] != '\r' ==> lines(line + seq!['\n'] + rest) == seq![
            line,
        ] + lines(rest),
        lines(line + seq!['\r', '\n'] + rest) == seq![line] + lines(rest),
{
    let stops = seq!['\n'];
    assert(stops[0] == '\n');
    assert forall|c: char| stops.contains(c) <==> c == '\n' by {
        if c == '\n' {
            assert(stops.contains(stops[0]));
        }
    }
    let n = line.len() as int;
    lemma_stop_at(line, stops, n, 0);
    assert(line.skip(0) =~= line);
    let all = line + seq!['\n'] + rest;
    assert forall|j: int| 0 <= j < n implies !stops.contains(#[trigger] all[j]) by {
        assert(all[j] == line[j]);
    }
    assert(all[n] == '\n');
    lemma_stop_at(all, stops, n, 0);
    assert(all.subrange(0, n) =~= line);
    lemma_lines_shift(line + seq!['\n'], rest, 0);
    let full = line + seq!['\r', '\n'] + rest;
    assert forall|j: int| 0 <= j < n + 1 implies !stops.contains(#[trigger] full[j]) by {
        if j < n {
            assert(full[j] == line[j]);
        } else {
            assert(full[j] == '\r');
        }
    }
    assert(full[n + 1] == '\n');
    lemma_stop_at(full, stops, n + 1, 0);
    let part = full.subrange(0, n + 1);
    assert(part.last() == '\r');
    assert(without_cr(part) =~= line);
    lemma_lines_shift(line + seq!['\r', '\n'], rest, 0);
    assert((line + seq!['\r', '\n']) + rest =~= full);
}

// ---------------------------------------------------------------------
// Pieces
// ---------------------------------------------------------------------

/// Where a text is found, it stands, and it stands nowhere before that.
pub proof fn lemma_found(s: Seq<char>, pat: Seq<char>, from: int)
    requires
        0 <= from,
    ensures
        find_from(s, pat, from) matches Some(i) ==> {
            &&& from <= i
            &&& occurs_at(s, pat, i)
            &&& forall|j: int| from <= j < i ==> !#[trigger] occurs_at(s, pat, j)
        },
        find_from(s, pat, from) is None ==> forall|j: int|
            from <= j ==> !#[trigger] occurs_at(s, pat, j),
    decreases s.len() + 1 - from,
{
    if from + pat.len() <= s.len() && !occurs_at(s, pat, from) {
        lemma_found(s, pat, from + 1);
    }
}

proof fn lemma_joined_front(part: Seq<char>, rest: Seq<Seq<char>>, sep: Seq<char>)
    requires
        rest.len() > 0,
    ensures
        joined(seq![part] + rest, sep) == part + sep + joined(rest, sep),
    decreases rest.len(),
{
    let all = seq![part] + rest;
    assert(all.last() == rest.last());
    if rest.len() == 1 {
        assert(all.drop_last() =~= seq![part]);
        assert(joined(seq![part], sep) == part);
        assert(rest[0] == rest.last());
    } else {
        assert(all.drop_last() =~= seq![part] + rest.drop_last());
        lemma_joined_front(part, rest.drop_last(), sep);
        assert(joined(all, sep) =~= part + sep + joined(rest, sep));
    }
}

proof fn lemma_pieces(s: Seq<char>, pat: Seq<char>, from: int)
    requires
        pat.len() > 0,
        0 <= from <= s.len(),
    ensures
        pieces_from(s, pat, from).len() > 0,
        joined(pieces_from(s, pat, from), pat) == s.skip(from),
        forall|k: int, i: int|
            0 <= k < pieces_from(s, pat, from).len() ==> !#[trigger] occurs_at(
                pieces_from(s, pat, from)[k],
                pat,
                i,
            ),
    decreases s.len() - from,
{
    lemma_found(s, pat, from);
    let found = find_from(s, pat, from);
    let all = pieces_from(s, pat, from);
    if found is Some {
        let at = found->0;
        let next = at + pat.len();
        lemma_pieces(s, pat, next);
        let part = s.subrange(from, at);
        let rest = pieces_from(s, pat, next);
        assert(all == seq![part] + rest);
        lemma_joined_front(part, rest, pat);
        assert(s.subrange(at, next) == pat);
        assert(part + pat + s.skip(next) =~= s.skip(from));
        assert forall|k: int, i: int| 0 <= k < all.len() implies !#[trigger] occurs_at(
            all[k],
            pat,
            i,
        ) by {
            if k > 0 {
                assert(all[k] == rest[k - 1]);
                assert(!occurs_at(rest[k - 1], pat, i));
            } else if occurs_at(part, pat, i) {
                assert(s.subrange(from + i, from + i + pat.len()) =~= part.subrange(
                    i,
                    i + pat.len(),
                ));
                assert(occurs_at(s, pat, from + i));
            }
        }
    } else {
        assert(all == seq![s.skip(from)]);
        assert forall|k: int, i: int| 0 <= k < all.len() implies !#[trigger] occurs_at(
            all[k],
            pat,
            i,
        ) by {
            if occurs_at(s.skip(from), pat, i) {
                assert(s.subrange(from + i, from + i + pat.len()) =~= s.skip(from).subrange(
                    i,
                    i + pat.len(),
                ));
                assert(occurs_at(s, pat, from + i));
            }
        }
    }
}

/// The pieces of a text between the occurrences of another one, put together
/// with it, are the text again; and it stands in none of them.
pub proof fn law_pieces_make_up_the_text(s: Seq<char>, pat: Seq<char>, k: int, i: int)
    requires
        pat.len() > 0,
        0 <= k < pieces(s, pat).len(),
        0 <= i <= pieces(s, pat)[k].len() - pat.len(),
    ensures
        joined(pieces(s, pat), pat) == s,
        pieces(s, pat)[k].subrange(i, i + pat.len()) != pat,
{
    lemma_pieces(s, pat, 0);
    assert(s.skip(0) =~= s);
    assert(!occurs_at(pieces(s, pat)[k], pat, i));
}

/// The pieces of a text, put together with what they were cut at, are the text
/// again.
pub proof fn law_pieces_can_be_joined(s: Seq<char>, pat: Seq<char>)
    requires
        pat.len() > 0,
    ensures
        joined(pieces(s, pat), pat) == s,
        pieces(s, pat).len() > 0,
{
    lemma_pieces(s, pat, 0);
    assert(s.skip(0) =~= s);
}

// ---------------------------------------------------------------------
// Numbers
// ---------------------------------------------------------------------

proof fn lemma_decimal(n: nat)
    ensures
        digits_value(decimal(n), 10) == Some(n),
        decimal(n).len() > 0,
        '0' <= decimal(n)[0] <= '9',
        n > 0 ==> decimal(n)[0] != '0',
    decreases n,
{
    let all = decimal(n);
    if n >= 10 {
        lemma_decimal(n / 10);
        assert(all.drop_last() =~= decimal(n / 10));
        assert(all[0] == decimal(n / 10)[0]);
    } else {
        assert(all.drop_last() =~= Seq::empty());
        assert(digits_value(Seq::<char>::empty(), 10) == Some(0nat));
    }
    let last = all.last();
    assert(digit_value(last, 10) == Some((n % 10) as nat));
}

/// A number that is written in decimal digits is read back as it was, and is
/// written without a leading zero.
pub proof fn law_numbers_are_read_as_written(n: nat, max: nat)
    requires
        n <= max,
    ensures
        number(decimal(n), 10, max) == Some(n),
        n > 0 ==> decimal(n)[0] != '0',
{
    lemma_decimal(n);
}

// ---------------------------------------------------------------------
// The first profile
// ---------------------------------------------------------------------

/// The day of a new profile: it ramps up to eight tenths in the late morning
/// and the mid-afternoon, dips at lunch, and is over by six.
pub proof fn law_the_typical_day()
    ensures
        ({
            let day = nine_to_five();
            &&& day["09"@].bits == 0x3FD9_9999_9999_999A
            &&& day["10"@].bits == 0x3FE6_6666_6666_6666
            &&& day["11"@].bits == 0x3FE9_9999_9999_999A
            &&& day["12"@].bits == 0x3FD9_9999_9999_999A
            &&& day["13"@].bits == 0x3FD3_3333_3333_3333
            &&& day["14"@].bits == 0x3FE6_6666_6666_6666
            &&& day["15"@].bits == 0x3FE9_9999_9999_999A
            &&& day["16"@].bits == 0x3FE3_3333_3333_3333
            &&& day["17"@].bits == 0x3FD3_3333_3333_3333
        }),
        forall|hour: Seq<char>| #[trigger]
            nine_to_five().dom().contains(hour) ==> hour == "09"@ || hour == "10"@ || hour == "11"@
                || hour == "12"@ || hour == "13"@ || hour == "14"@ || hour == "15"@ || hour
                == "16"@ || hour == "17"@,
{
    reveal_strlit("09");
    reveal_strlit("10");
    reveal_strlit("11");
    reveal_strlit("12");
    reveal_strlit("13");
    reveal_strlit("14");
    reveal_strlit("15");
    reveal_strlit("16");
    reveal_strlit("17");
    assert("09"@[1] == '9' && "10"@[1] == '0' && "11"@[1] == '1' && "12"@[1] == '2');
    assert("13"@[1] == '3' && "14"@[1] == '4' && "15"@[1] == '5' && "16"@[1] == '6');
    assert("17"@[1] == '7');
}

/// In a new profile half of the stuck look things up, 0.35 try on, and 0.15
/// step away; and suggestions of each of the four kinds have even odds.
pub proof fn law_the_typical_odds()
    ensures
        neutral_resolutions()["doc_lookup"@].bits == 0x3FE0_0000_0000_0000,
        neutral_resolutions()["trial_error"@].bits == 0x3FD6_6666_6666_6666,
        neutral_resolutions()["step_away"@].bits == 0x3FC3_3333_3333_3333,
        even_odds().dom() == set![
            "friction_remover"@,
            "knowledge_bridge"@,
            "workflow_accelerator"@,
            "state_preserver"@,
        ],
        forall|kind: Seq<char>| #[trigger]
            even_odds().dom().contains(kind) ==> even_odds()[kind].bits == 0x3FE0_0000_0000_0000,
{
    reveal_strlit("doc_lookup");
    reveal_strlit("trial_error");
    reveal_strlit("step_away");
    assert("doc_lookup"@.len() == 10 && "trial_error"@.len() == 11 && "step_away"@.len() == 9);
    assert(even_odds().dom() =~= set![
        "friction_remover"@,
        "knowledge_bridge"@,
        "workflow_accelerator"@,
        "state_preserver"@,
    ]);
}

/// The shell is what the path to it is named for, and bash where there is no
/// such name.
pub proof fn law_the_shell_has_a_name(shell: Option<Seq<char>>)
    ensures
        shell is Some && crate::path::name_of(shell->0) is Some ==> Some(shell_name(shell))
            == crate::path::name_of(shell->0),
        shell is None || crate::path::name_of(shell->0) is None ==> shell_name(shell) == "bash"@,
{
}

// ---------------------------------------------------------------------
// Suggestions
// ---------------------------------------------------------------------

/// What the error of a state says of itself.
pub open spec fn error_says(state: Json, key: Seq<char>) -> Option<Seq<char>> {
    match state.field("error_context"@) {
        Some(error) => error.text_at(key),
        None => None,
    }
}

/// An error loop with a domain asks for a bridge to knowledge, one without and
/// anything unheard of for the removal of friction; repetition asks for
/// acceleration; a switch or a pause asks for the state to be kept.
pub proof fn law_signals_ask_for_kinds(signal: Seq<char>, state: Json)
    ensures
        ({
            let kind = rec_type_of(signal, state);
            let stuck = signal == "error_loop"@;
            let away = signal == "context_switch"@ || signal == "idle"@;
            let bridge = stuck && error_says(state, "domain"@) is Some;
            &&& kind == "knowledge_bridge"@ <==> bridge
            &&& kind == "workflow_accelerator"@ <==> signal == "repetition"@
            &&& kind == "state_preserver"@ <==> away
            &&& kind == "friction_remover"@ <==> !bridge && !away && signal != "repetition"@
        }),
{
    reveal_strlit("error_loop");
    reveal_strlit("repetition");
    reveal_strlit("context_switch");
    reveal_strlit("idle");
    reveal_strlit("knowledge_bridge");
    reveal_strlit("workflow_accelerator");
    reveal_strlit("state_preserver");
    reveal_strlit("friction_remover");
    assert("error_loop"@[0] == 'e' && "repetition"@[0] == 'r' && "context_switch"@[0] == 'c');
    assert("idle"@[0] == 'i');
    assert("knowledge_bridge"@[0] == 'k' && "workflow_accelerator"@[0] == 'w');
    assert("state_preserver"@[0] == 's' && "friction_remover"@[0] == 'f');
}

/// The template for an error loop names the tool, or "that command", and the
/// one for a bridge also the domain, or "the docs".
pub proof fn law_templates_name_the_tool(state: Json, kind: Seq<char>)
    ensures
        ({
            let tool = error_says(state, "tool"@).unwrap_or("that command"@);
            let domain = error_says(state, "domain"@).unwrap_or("the docs"@);
            let words = template("error_loop"@, state, kind);
            &&& kind == "knowledge_bridge"@ ==> words == "You've been stuck on `"@ + tool
                + "` for a while and searching "@ + domain
                + " - want a hand digging into the root cause?"@
            &&& kind != "knowledge_bridge"@ ==> words == "`"@ + tool
                + "` has failed a few times in a row - want to step through the error together?"@
        }),
{
}

/// Durations are told in full minutes, one at least.
pub proof fn law_durations_are_told_in_minutes(secs: u64)
    ensures
        minutes(secs) >= 1,
        secs < 120 ==> minutes(secs) == 1,
        secs >= 120 ==> minutes(secs) * 60 <= secs < minutes(secs) * 60 + 60,
{
}

/// A prompt asks for a lighter touch exactly when the user accepts less than
/// 0.35 of the suggestions of that kind; with nothing known, half.
pub proof fn law_reluctance_asks_for_a_lighter_touch(
    signal: Seq<char>,
    state: Json,
    profile: &UserProfile,
    kind: Seq<char>,
    percent: Seq<char>,
)
    ensures
        ({
            let rates = profile.behavioral.recommendation_accept_rate@;
            let rate = if rates.dom().contains(kind) {
                rates[kind]
            } else {
                Quantity { bits: 0x3FE0_0000_0000_0000 }
            };
            let words = prompt(signal, state, profile, kind, percent);
            let about = "% of \""@ + kind + "\"-type suggestions"@;
            exists|base: Seq<char>|
                {
                    &&& rate.rank() < 0x3FD6_6666_6666_6666 ==> words == #[trigger] (base + percent
                        + about)
                        + " - lean towards a lighter touch or skip the suggestion if it doesn't feel useful"@
                        + "."@
                    &&& rate.rank() >= 0x3FD6_6666_6666_6666 ==> words == (base + percent + about)
                        + "."@
                }
        }),
{
    let stack = top_names(profile.stack.stack_weights.entries@);
    let about = "% of \""@ + kind + "\"-type suggestions"@;
    let base =
        "You are an embedded productivity assistant observing a developer's live activity in real time. Based on the signal below, write ONE short, actionable suggestion for what they could do right now. Respond with the suggestion only - 1 to 3 sentences, no preamble, no markdown, no headers.\n\nSignal: "@
        + signal + "\n"@ + crate::recommend::details(signal, state) + "\n\nUser profile:\n- Role: "@
        + profile.identity.role_self_reported@ + "\n- Primary stack: "@ + (if stack.len() == 0 {
        "unknown"@
    } else {
        joined(stack, ", "@)
    }) + "\n- Preferred suggestion style: "@ + profile.behavioral.pref_recommendation_verbosity@
        + "\n- This user has historically accepted "@;
    let words = prompt(signal, state, profile, kind, percent);
    let note =
        " - lean towards a lighter touch or skip the suggestion if it doesn't feel useful"@;
    reveal_strlit("");
    let rate = accept_rate(profile.behavioral.recommendation_accept_rate@, kind);
    if rate.rank() < 0x3FD6_6666_6666_6666 {
        assert(words =~= (base + percent + about) + note + "."@);
    } else {
        assert(words =~= (base + percent + about) + "."@);
    }
}

proof fn lemma_first_text(blocks: Seq<Json>, i: int, from: int)
    requires
        0 <= from <= i <= blocks.len(),
        i < blocks.len() ==> blocks[i].text_at("text"@) is Some,
        forall|j: int| from <= j < i ==> (#[trigger] blocks[j]).text_at("text"@) is None,
    ensures
        i < blocks.len() ==> first_text(blocks, from) == blocks[i].text_at("text"@),
        i == blocks.len() ==> first_text(blocks, from) is None,
    decreases i - from,
{
    if from < i {
        assert(blocks[from].text_at("text"@) is None);
        lemma_first_text(blocks, i, from + 1);
    }
}

/// The suggestion in a reply is its first block of text, without the white
/// space around it; there is none where that leaves nothing, whatever the
/// blocks behind it say.
pub proof fn law_the_first_text_is_the_suggestion(reply: Json, blocks: Seq<Json>, i: int)
    requires
        reply.elements_at("content"@) == Some(blocks),
        0 <= i < blocks.len(),
        blocks[i].text_at("text"@) is Some,
        forall|j: int| 0 <= j < i ==> (#[trigger] blocks[j]).text_at("text"@) is None,
    ensures
        ({
            let text = trimmed(blocks[i].text_at("text"@)->0);
            &&& text.len() > 0 ==> suggestion_in(reply) == Some(text)
            &&& text.len() == 0 ==> suggestion_in(reply) is None
        }),
{
    lemma_first_text(blocks, i, 0);
}

/// The names in a prompt are those of the three heaviest of the stack, the
/// heaviest first: fewer only where there are fewer.
pub proof fn law_the_heaviest_names_are_told(entries: Seq<(String, Quantity)>, i: int)
    requires
        0 <= i < entries.len(),
    ensures
        top_names(entries).len() == if entries.len() < 3 {
            entries.len()
        } else {
            3
        },
        !top_names(entries).contains(entries[i].0@) ==> exists|a: int, b: int, c: int|
            {
                &&& 0 <= a < entries.len() && 0 <= b < entries.len() && 0 <= c < entries.len()
                &&& top_names(entries) == seq![
                    (#[trigger] entries[a]).0@,
                    (#[trigger] entries[b]).0@,
                    (#[trigger] entries[c]).0@,
                ]
                &&& entries[a].1.rank() >= entries[b].1.rank() >= entries[c].1.rank()
                    >= entries[i].1.rank()
            },
{
    broadcast use vstd::seq_lib::group_to_multiset_ensures;

    let all = weights_of(entries);
    let rank = crate::recommend::entry_rank();
    let order = crate::lists::ranked(all, rank);
    crate::lists::lemma_ranked_len(all, rank, all.len() as int);
    crate::lists::law_ranked_items(all, rank, all.len() as int);
    crate::lists::lemma_ranked_from(all, rank, all.len() as int);
    assert(all.take(all.len() as int) =~= all);
    let top = top_names(entries);
    if !top.contains(entries[i].0@) {
        assert(all[i] == (entries[i].0@, entries[i].1));
        assert(all.contains(all[i]));
        assert(all.to_multiset().count(all[i]) > 0);
        assert(order.contains(all[i]));
        let m = choose|m: int| 0 <= m < order.len() && order[m] == all[i];
        if m < 3 {
            assert(top[m] == entries[i].0@);
        }
        assert(m >= 3);
        assert(all.contains(order[0]) && all.contains(order[1]) && all.contains(order[2]));
        let a = choose|a: int| 0 <= a < all.len() && all[a] == order[0];
        let b = choose|b: int| 0 <= b < all.len() && all[b] == order[1];
        let c = choose|c: int| 0 <= c < all.len() && all[c] == order[2];
        assert(rank(order[0]) >= rank(order[1]));
        assert(rank(order[1]) >= rank(order[2]));
        assert(rank(order[2]) >= rank(order[m]));
        assert(top =~= seq![entries[a].0@, entries[b].0@, entries[c].0@]);
    }
}

// ---------------------------------------------------------------------
// The server
// ---------------------------------------------------------------------

/// A stream ends when the normalized events do; a lag, or the end of another
/// channel, is passed over.
pub proof fn law_streams_end_with_the_timeline(channel: Channel, received: Received)
    ensures
        forwarded(channel, received) is Send <==> received is Value,
        forwarded(channel, received) is Stop <==> received is Closed && channel is Normalized,
{
}

/// Each channel goes by its own name.
pub proof fn law_channels_have_names(channel: Channel)
    ensures
        channel_type(channel) == "normalized"@ <==> channel is Normalized,
        channel_type(channel) == "immediate"@ <==> channel is Immediate,
        channel_type(channel) == "session"@ <==> channel is Session,
        channel_type(channel) == "profile"@ <==> channel is Profile,
        channel_type(channel) == "recommendation"@ <==> channel is Recommendation,
{
    reveal_strlit("normalized");
    reveal_strlit("immediate");
    reveal_strlit("session");
    reveal_strlit("profile");
    reveal_strlit("recommendation");
    assert("normalized"@[0] == 'n' && "immediate"@[0] == 'i' && "session"@[0] == 's');
    assert("profile"@[0] == 'p' && "recommendation"@[0] == 'r');
}

/// A limit is the number that is asked for, and twenty where none is.
pub proof fn law_limits_are_twenty_by_default(n: nat, parameter: Option<Seq<char>>)
    ensures
        n <= 0xFFFF_FFFF_FFFF_FFFF ==> limit_in(Some(decimal(n))) == n,
        parameter is None || number(parameter->0, 10, 0xFFFF_FFFF_FFFF_FFFF) is None ==> limit_in(
            parameter,
        ) == 20,
{
    if n <= 0xFFFF_FFFF_FFFF_FFFF {
        law_numbers_are_read_as_written(n, 0xFFFF_FFFF_FFFF_FFFF);
    }
}

/// A raw event of one member is named by it. Of another one a command tells a
/// terminal event, else a title or an application a window event, else a site
/// a browser event.
pub proof fn law_raw_events_are_named(event: Json)
    ensures
        ({
            let name = raw_event_type(event);
            let named = |key: Seq<char>| event.field(key) is Some;
            let several = event matches Json::Object(members) && members@.len() != 1;
            &&& event matches Json::Object(members) ==> (members@.len() == 1 ==> name
                == members@[0].0@)
            &&& !(event is Object) ==> name == "unknown"@
            &&& several && named("command"@) ==> name == "Terminal"@
            &&& several && !named("command"@) && (named("title"@) || named("application"@)) ==> name
                == "Window"@
            &&& several && !named("command"@) && !named("title"@) && !named("application"@) && named(
                "site"@,
            ) ==> name == "Browser"@
            &&& several && !named("command"@) && !named("title"@) && !named("application"@) && !named(
                "site"@,
            ) ==> name == "unknown"@
        }),
{
}

/// What a prompt tells of a switch: where from and where to, as far as it is
/// known, and that it was in the middle of something exactly when it was.
pub proof fn law_what_a_prompt_tells_of_a_switch(ctx: Json)
    ensures
        ({
            let words = crate::recommend::switch_details(ctx);
            let plain = "The user is switching from "@ + ctx.text_at("from_project"@).unwrap_or(
                "their previous project"@,
            ) + " to "@ + ctx.text_at("to_project"@).unwrap_or("a new project"@) + "."@;
            &&& ctx.boolean_at("mid_task"@) != Some(true) ==> words == plain
            &&& ctx.boolean_at("mid_task"@) == Some(true) ==> words == plain
                + " They appeared to be in the middle of debugging something blocked when the switch happened."@
        }),
{
}

/// What a prompt tells of an error: the tool, how often it failed, for how
/// many minutes, and where the user searched, if that is known.
pub proof fn law_what_a_prompt_tells_of_an_error(ctx: Json)
    ensures
        ({
            let words = crate::recommend::error_details(ctx);
            let plain = "The user has run `"@ + ctx.text_at("tool"@).unwrap_or("a tool"@)
                + "` and it has failed "@ + decimal(
                ctx.natural_at("failure_count"@).unwrap_or(0) as nat,
            ) + " times over the last "@ + decimal(
                minutes(ctx.natural_at("duration_sec"@).unwrap_or(0)),
            ) + " minutes."@;
            &&& ctx.text_at("domain"@) is None ==> words == plain
            &&& ctx.text_at("domain"@) matches Some(domain) ==> words == plain
                + " They've been searching "@ + domain + " for help with the error."@
        }),
{
}

// ---------------------------------------------------------------------
// Paths
// ---------------------------------------------------------------------

proof fn lemma_ranges(dir: Seq<char>, name: Seq<char>, from: int)
    requires
        0 <= from <= dir.len(),
        name.len() > 0,
        forall|i: int| 0 <= i < name.len() ==> #[trigger] name[i] != '/',
        name != seq!['.'],
    ensures
        crate::path::ranges_from(dir + seq!['/'] + name, from) == crate::path::ranges_from(
            dir,
            from,
        ) + seq![(dir.len() as int + 1, dir.len() as int + 1 + name.len())],
    decreases dir.len() - from,
{
    let all = dir + seq!['/'] + name;
    let n = dir.len() as int;
    let slash = seq!['/'];
    assert(slash[0] == '/');
    assert(all[n] == '/');
    assert forall|c: char| slash.contains(c) <==> c == '/' by {
        if c == '/' {
            assert(slash.contains(slash[0]));
        }
    }
    // The last component.
    assert forall|j: int| n + 1 <= j < all.len() implies !slash.contains(#[trigger] all[j]) by {
        assert(all[j] == name[j - n - 1]);
    }
    lemma_stop_at(all, slash, all.len() as int, n + 1);
    assert(all.subrange(n + 1, all.len() as int) =~= name);
    let last = crate::path::ranges_from(all, n + 1);
    assert(crate::path::ranges_from(all, all.len() as int + 1) =~= Seq::empty());
    assert(last =~= seq![(n + 1, all.len() as int)]);
    if from < n {
        lemma_stop(dir, slash, from);
        let end = stop_from(dir, slash, from);
        assert forall|j: int| from <= j < end implies !slash.contains(#[trigger] all[j]) by {
            assert(all[j] == dir[j]);
        }
        if end < n {
            assert(all[end] == dir[end]);
        }
        lemma_stop_at(all, slash, end, from);
        assert(all.subrange(from, end) =~= dir.subrange(from, end));
        if end < n {
            lemma_ranges(dir, name, end + 1);
            let rest = crate::path::ranges_from(dir, end + 1);
            let more = rest + seq![(n + 1, n + 1 + name.len())];
            assert(seq![(from, end)] + more =~= (seq![(from, end)] + rest) + seq![
                (n + 1, n + 1 + name.len()),
            ]);
        } else {
            assert(crate::path::ranges_from(dir, n + 1) =~= Seq::empty());
            assert(crate::path::ranges_from(dir, from) + last =~= crate::path::ranges_from(
                all,
                from,
            ));
        }
    } else {
        assert(from == n);
        lemma_stop_at(all, slash, n, n);
        assert(!crate::path::is_component(all, n, n));
        assert(crate::path::ranges_from(dir, n) =~= Seq::empty());
        assert(crate::path::ranges_from(all, n) == last);
        assert(Seq::<(int, int)>::empty() + last =~= last);
    }
}

/// The name of an entry of a directory is what stands behind the last slash.
pub proof fn law_paths_end_with_a_name(dir: Seq<char>, name: Seq<char>)
    requires
        name.len() > 0,
        forall|i: int| 0 <= i < name.len() ==> #[trigger] name[i] != '/',
        name != seq!['.'],
        name != seq!['.', '.'],
    ensures
        crate::path::name_of(dir + seq!['/'] + name) == Some(name),
        crate::path::parts(dir + seq!['/'] + name) == crate::path::parts(dir).push(name),
{
    let all = dir + seq!['/'] + name;
    lemma_ranges(dir, name, 0);
    lemma_ranges_bounded(dir, 0);
    let n = dir.len() as int;
    let mine = crate::path::parts(all);
    let theirs = crate::path::parts(dir);
    assert(mine.len() == theirs.len() + 1);
    assert forall|i: int| 0 <= i < mine.len() implies #[trigger] mine[i] == theirs.push(
        name,
    )[i] by {
        let r = crate::path::ranges(all)[i];
        if i < theirs.len() {
            let q = crate::path::ranges(dir)[i];
            assert(r == q);
            assert(0 <= q.0 <= q.1 <= dir.len());
            assert(all.subrange(q.0, q.1) =~= dir.subrange(q.0, q.1));
        } else {
            assert(r == (n + 1, n + 1 + name.len()));
            assert(all.subrange(n + 1, n + 1 + name.len()) =~= name);
        }
    }
    assert(mine =~= theirs.push(name));
}

proof fn lemma_ranges_bounded(s: Seq<char>, from: int)
    requires
        0 <= from,
    ensures
        forall|i: int|
            0 <= i < crate::path::ranges_from(s, from).len() ==> {
                let r = #[trigger] crate::path::ranges_from(s, from)[i];
                0 <= r.0 <= r.1 <= s.len()
            },
    decreases s.len() + 1 - from,
{
    if from < s.len() {
        let slash = seq!['/'];
        lemma_stop(s, slash, from);
        let end = stop_from(s, slash, from);
        lemma_ranges_bounded(s, end + 1);
        let rest = crate::path::ranges_from(s, end + 1);
        let all = crate::path::ranges_from(s, from);
        assert forall|i: int| 0 <= i < all.len() implies ({
            let r = #[trigger] all[i];
            0 <= r.0 <= r.1 <= s.len()
        }) by {
            if crate::path::is_component(s, from, end) {
                assert(all == seq![(from, end)] + rest);
                if i > 0 {
                    assert(all[i] == rest[i - 1]);
                }
            }
        }
    }
}

/// The extension of a file is what stands behind the last dot of its name.
pub proof fn law_extensions_stand_behind_the_last_dot(
    dir: Seq<char>,
    stem: Seq<char>,
    extension: Seq<char>,
)
    requires
        stem.len() > 0,
        forall|i: int| 0 <= i < stem.len() ==> #[trigger] stem[i] != '/',
        forall|i: int|
            0 <= i < extension.len() ==> #[trigger] extension[i] != '/' && extension[i] != '.',
        stem + seq!['.'] + extension != seq!['.', '.'],
    ensures
        crate::path::extension_of(dir + seq!['/'] + (stem + seq!['.'] + extension)) == Some(
            extension,
        ),
{
    let name = stem + seq!['.'] + extension;
    assert forall|i: int| 0 <= i < name.len() implies #[trigger] name[i] != '/' by {
        if i < stem.len() {
            assert(name[i] == stem[i]);
        } else if i > stem.len() {
            assert(name[i] == extension[i - stem.len() - 1]);
        }
    }
    assert(name.len() >= 2);
    law_paths_end_with_a_name(dir, name);
    let n = stem.len() as int;
    assert(name[n] == '.');
    assert forall|i: int| n < i < name.len() implies #[trigger] name[i] != '.' by {
        assert(name[i] == extension[i - n - 1]);
    }
    lemma_last_dot(name, n, name.len() as int);
    assert(name.skip(n + 1) =~= extension);
}

proof fn lemma_last_dot(s: Seq<char>, i: int, to: int)
    requires
        0 <= i < to <= s.len(),
        s[i] == '.',
        forall|j: int| i < j < to ==> #[trigger] s[j] != '.',
    ensures
        crate::path::last_dot(s, to) == i,
    decreases to - i,
{
    if i < to - 1 {
        assert(s[to - 1] != '.');
        lemma_last_dot(s, i, to - 1);
    }
}

// ---------------------------------------------------------------------
// Digits, orders and lookups
// ---------------------------------------------------------------------

/// A digit has the value of its place among the digits, letters of either case
/// included, as long as that is below the radix.
pub proof fn law_digits_have_values(c: char, radix: nat, v: nat)
    ensures
        v < 10 && c as int == '0' as int + v ==> digit_value(c, radix) == if v < radix {
            Some(v)
        } else {
            None
        },
        10 <= v < 16 && (c as int == 'a' as int + v - 10 || c as int == 'A' as int + v - 10)
            ==> digit_value(c, radix) == if v < radix {
            Some(v)
        } else {
            None
        },
        !('0' <= c <= '9') && !('a' <= c <= 'f') && !('A' <= c <= 'F') ==> digit_value(
            c,
            radix,
        ) is None,
{
}

/// A negative number is written with a minus sign in front of its digits.
pub proof fn law_negative_numbers_have_a_sign(n: nat)
    ensures
        n > 0 ==> signed_decimal(-n) == seq!['-'] + decimal(n),
        signed_decimal(n as int) == decimal(n),
{
}

/// The smaller of two quantities is no larger than either, and is one of them;
/// likewise the larger.
pub proof fn law_the_smaller_and_the_larger(a: Quantity, b: Quantity)
    ensures
        ({
            let small = crate::arithmetic::least(a, b);
            let large = crate::arithmetic::greatest(a, b);
            &&& small == a || small == b
            &&& large == a || large == b
            &&& small.rank() <= a.rank() && small.rank() <= b.rank()
            &&& large.rank() >= a.rank() && large.rank() >= b.rank()
        }),
{
}

proof fn lemma_member(members: Seq<(String, Json)>, key: Seq<char>, i: int, from: int)
    requires
        0 <= from <= i < members.len(),
        members[i].0@ == key,
        forall|j: int| 0 <= j < i ==> (#[trigger] members[j]).0@ != key,
    ensures
        crate::json::member_from(members, key, from) == Some(&members[i].1),
    decreases i - from,
{
    if from < i {
        assert(members[from].0@ != key);
        lemma_member(members, key, i, from + 1);
    }
}

proof fn lemma_no_member(members: Seq<(String, Json)>, key: Seq<char>, from: int)
    requires
        0 <= from,
        forall|j: int| 0 <= j < members.len() ==> (#[trigger] members[j]).0@ != key,
    ensures
        crate::json::member_from(members, key, from) is None,
    decreases members.len() - from,
{
    if from < members.len() {
        assert(members[from].0@ != key);
        lemma_no_member(members, key, from + 1);
    }
}

/// The member of an object is found by its name; what is no object has none.
pub proof fn law_members_are_found_by_name(json: &Json, key: Seq<char>, i: int)
    ensures
        !(*json is Object) ==> json.field(key) is None,
        *json matches Json::Object(members) ==> {
            &&& 0 <= i < members@.len() && members@[i].0@ == key && (forall|j: int|
                0 <= j < i ==> (#[trigger] members@[j]).0@ != key) ==> json.field(key) == Some(
                &members@[i].1,
            )
            &&& (forall|j: int| 0 <= j < members@.len() ==> (#[trigger] members@[j]).0@ != key)
                ==> json.field(key) is None
        },
{
    if let Json::Object(members) = json {
        if 0 <= i < members@.len() && members@[i].0@ == key && (forall|j: int|
            0 <= j < i ==> (#[trigger] members@[j]).0@ != key) {
            lemma_member(members@, key, i, 0);
        }
        if forall|j: int| 0 <= j < members@.len() ==> (#[trigger] members@[j]).0@ != key {
            lemma_no_member(members@, key, 0);
        }
    }
}

/// A number is read as a natural one where it is one, and as an integer where
/// it fits into 64 bits with a sign.
pub proof fn law_numbers_are_read_by_kind(n: u64, m: i64, q: Quantity)
    ensures
        (Json::Number(Number::Natural(n))).natural() == Some(n),
        (Json::Number(Number::Negative(m))).natural() is None,
        (Json::Number(Number::Fraction(q))).natural() is None,
        n <= 0x7FFF_FFFF_FFFF_FFFF ==> (Json::Number(Number::Natural(n))).integer() == Some(
            n as i64,
        ),
        n > 0x7FFF_FFFF_FFFF_FFFF ==> (Json::Number(Number::Natural(n))).integer() is None,
        (Json::Number(Number::Negative(m))).integer() == Some(m),
        (Json::Number(Number::Fraction(q))).integer() is None,
        Json::Null.natural() is None && Json::Null.integer() is None && Json::Null.text() is None,
{
}

} // verus!
