//! Clipboard changes, classified.

use crate::event::{opt_raw, Event, EventView};
use crate::text::{
    self, ascii_digit, ascii_lower, ascii_upper, chars_of, contains, has, has_prefix, lines,
    lowercase, opt_view, same, split_lines, starts_with, text_between, trim, trimmed, views,
    white_space,
};
use vstd::prelude::*;

verus! {

/// How many characters of a copied text an event shows.
pub const PREVIEW_CHARS: usize = 200;

/// The length of a copied text that may be a secret.
pub const SECRET_MIN_CHARS: usize = 20;

pub const SECRET_MAX_CHARS: usize = 256;

/// A single "word" with no whitespace, reasonable token length, and mixed
/// character classes (lower+upper+digit) - typical of API keys, passwords,
/// secrets.
pub open spec fn secret(s: Seq<char>) -> bool {
    &&& lines(s).len() == 1
    &&& forall|i: int| 0 <= i < s.len() ==> !white_space(#[trigger] s[i])
    &&& SECRET_MIN_CHARS <= s.len() <= SECRET_MAX_CHARS
    &&& exists|i: int| 0 <= i < s.len() && ascii_lower(#[trigger] s[i])
    &&& exists|i: int| 0 <= i < s.len() && ascii_upper(#[trigger] s[i])
    &&& exists|i: int| 0 <= i < s.len() && ascii_digit(#[trigger] s[i])
}

/// Heuristic guard against capturing likely credentials/tokens.
pub fn looks_like_secret(s: &str) -> (r: bool)
    ensures
        r == secret(s@),
{
    let all_lines = split_lines(s);
    assert(views(all_lines@).len() == all_lines@.len());
    if all_lines.len() != 1 {
        return false;
    }
    let cs = chars_of(s);
    let mut has_lower = false;
    let mut has_upper = false;
    let mut has_digit = false;
    for i in 0..cs.len()
        invariant
            cs@ == s@,
            forall|j: int| 0 <= j < i ==> !white_space(#[trigger] s@[j]),
            has_lower <==> exists|j: int| 0 <= j < i && ascii_lower(#[trigger] s@[j]),
            has_upper <==> exists|j: int| 0 <= j < i && ascii_upper(#[trigger] s@[j]),
            has_digit <==> exists|j: int| 0 <= j < i && ascii_digit(#[trigger] s@[j]),
    {
        let c = cs[i];
        assert(s@[i as int] == c);
        if text::is_white_space(c) {
            return false;
        }
        if 'a' <= c && c <= 'z' {
            has_lower = true;
        }
        if 'A' <= c && c <= 'Z' {
            has_upper = true;
        }
        if '0' <= c && c <= '9' {
            has_digit = true;
        }
    }
    let len = cs.len();
    SECRET_MIN_CHARS <= len && len <= SECRET_MAX_CHARS && has_lower && has_upper && has_digit
}

/// A text, by itself and in lowercase, reports where a program failed.
pub open spec fn stack_trace(lower: Seq<char>) -> bool {
    ||| contains(lower, "traceback (most recent call last)"@)
    ||| contains(lower, "panicked at"@)
    ||| contains(lower, "exception in thread"@)
    ||| contains(lower, "stack trace"@)
    ||| contains(lower, " at "@) && lines(lower).len() > 2
}

/// The lowercase text holds something that is common in source code.
pub open spec fn code(lower: Seq<char>) -> bool {
    ||| contains(lower, "fn "@)
    ||| contains(lower, "function "@)
    ||| contains(lower, "def "@)
    ||| contains(lower, "class "@)
    ||| contains(lower, "const "@)
    ||| contains(lower, "let "@)
    ||| contains(lower, "import "@)
    ||| contains(lower, "=>"@)
    ||| contains(lower, "{"@)
    ||| contains(lower, "};"@)
    ||| contains(lower, "</"@)
    ||| contains(lower, "#include"@)
    ||| contains(lower, "select "@)
    ||| contains(lower, "return "@)
}

/// What a copied text is, given its lowercase form.
pub open spec fn content_class(s: Seq<char>, lower: Seq<char>) -> Seq<char> {
    if (starts_with(s, "http://"@) || starts_with(s, "https://"@)) && !s.contains('\n') {
        "url"@
    } else if stack_trace(lower) {
        "stack_trace"@
    } else if (contains(lower, "error"@) || contains(lower, "exception"@) || contains(
        lower,
        "fatal"@,
    )) && lines(s).len() <= 5 {
        "error_message"@
    } else if code(lower) {
        "code"@
    } else {
        "plain_text"@
    }
}

fn count_lines(s: &str) -> (r: usize)
    ensures
        r == lines(s@).len(),
{
    let all = split_lines(s);
    assert(views(all@).len() == all@.len());
    all.len()
}

fn has_newline(s: &str) -> (r: bool)
    ensures
        r == s@.contains('\n'),
{
    let cs = chars_of(s);
    for i in 0..cs.len()
        invariant
            cs@ == s@,
            forall|j: int| 0 <= j < i ==> s@[j] != '\n',
    {
        if cs[i] == '\n' {
            assert(s@[i as int] == '\n');
            return true;
        }
    }
    false
}

fn is_stack_trace(lower: &str) -> (r: bool)
    ensures
        r == stack_trace(lower@),
{
    has(lower, "traceback (most recent call last)") || has(lower, "panicked at") || has(
        lower,
        "exception in thread",
    ) || has(lower, "stack trace") || (has(lower, " at ") && count_lines(lower) > 2)
}

fn is_code(lower: &str) -> (r: bool)
    ensures
        r == code(lower@),
{
    has(lower, "fn ") || has(lower, "function ") || has(lower, "def ") || has(lower, "class ")
        || has(lower, "const ") || has(lower, "let ") || has(lower, "import ") || has(lower, "=>")
        || has(lower, "{") || has(lower, "};") || has(lower, "</") || has(lower, "#include")
        || has(lower, "select ") || has(lower, "return ")
}

/// What a copied text is, given its lowercase form.
pub fn classify_with(s: &str, lower: &str) -> (r: String)
    ensures
        r@ == content_class(s@, lower@),
{
    if (has_prefix(s, "http://") || has_prefix(s, "https://")) && !has_newline(s) {
        return "url".to_owned();
    }
    if is_stack_trace(lower) {
        return "stack_trace".to_owned();
    }
    if (has(lower, "error") || has(lower, "exception") || has(lower, "fatal")) && count_lines(s)
        <= 5 {
        return "error_message".to_owned();
    }
    if is_code(lower) {
        return "code".to_owned();
    }
    "plain_text".to_owned()
}

/// Classify clipboard content so the consumer gets a clean intent signal
/// rather than raw text it then has to re-parse.
pub fn classify(s: &str) -> (r: String)
    ensures
        r@ == content_class(s@, lowercase(s@)),
{
    let lower = text::to_lowercase(s);
    classify_with(s, lower.as_str())
}

/// The first characters of a text.
pub open spec fn preview_of(s: Seq<char>) -> Seq<char> {
    if s.len() <= PREVIEW_CHARS {
        s
    } else {
        s.take(PREVIEW_CHARS as int)
    }
}

pub fn truncate(s: &str) -> (r: String)
    ensures
        r@ == preview_of(s@),
{
    let cs = chars_of(s);
    if cs.len() <= PREVIEW_CHARS {
        s.to_owned()
    } else {
        let r = text_between(&cs, 0, PREVIEW_CHARS);
        assert(r@ =~= s@.take(PREVIEW_CHARS as int));
        r
    }
}

/// The event of a copied text: a likely secret is named as such and not
/// shown, any other text is classified and shown in part.
pub open spec fn copied(text: Seq<char>, timestamp: u64) -> EventView {
    let s = trimmed(text);
    EventView::Clipboard {
        content_type: if secret(s) {
            "secret"@
        } else {
            content_class(s, lowercase(s))
        },
        preview: if secret(s) {
            None
        } else {
            Some(preview_of(s))
        },
        length: s.len(),
        line_count: lines(s).len(),
        timestamp,
    }
}

pub fn build_event(text: &str, now: u64) -> (r: Event)
    ensures
        r@ == copied(text@, now),
{
    let trimmed = trim(text);
    let cs = chars_of(trimmed.as_str());
    let length = cs.len();
    let line_count = count_lines(trimmed.as_str());
    if looks_like_secret(trimmed.as_str()) {
        Event::Clipboard {
            content_type: "secret".to_owned(),
            preview: None,
            length,
            line_count,
            timestamp: now,
        }
    } else {
        Event::Clipboard {
            content_type: classify(trimmed.as_str()),
            preview: Some(truncate(trimmed.as_str())),
            length,
            line_count,
            timestamp: now,
        }
    }
}

/// A clipboard text is worth an event: it holds more than white space and is
/// not the last one again.
pub open spec fn new_copy(last: Option<Seq<char>>, text: Seq<char>) -> bool {
    trimmed(text).len() > 0 && last != Some(text)
}

/// What the clipboard collector remembers between two looks.
pub struct ClipboardWatch {
    pub last: Option<String>,
}

impl ClipboardWatch {
    pub fn new() -> (r: Self)
        ensures
            r.last is None,
    {
        ClipboardWatch { last: None }
    }

    /// A look at the clipboard: gives the event of a text that is new.
    pub fn observe(&mut self, text: &str, now: u64) -> (r: Option<Event>)
        ensures
            new_copy(opt_view(old(self).last), text@) ==> {
                &&& opt_raw(r) == Some(copied(text@, now))
                &&& opt_view(final(self).last) == Some(text@)
            },
            !new_copy(opt_view(old(self).last), text@) ==> r is None && final(self).last == old(
                self,
            ).last,
    {
        let body = trim(text);
        if body.as_str().is_empty() {
            return None;
        }
        if let Some(last) = &self.last {
            if same(last.as_str(), text) {
                return None;
            }
        }
        let event = build_event(text, now);
        self.last = Some(text.to_owned());
        Some(event)
    }
}

/// A copied text that looks like a secret is never shown, and every other
/// one is: an event has no preview exactly when it is classified a secret.
pub proof fn law_secrets_are_not_shown(text: Seq<char>, timestamp: u64)
    ensures
        copied(text, timestamp) matches EventView::Clipboard { content_type, preview, .. } && (
        preview is None <==> content_type == "secret"@) && (preview is None <==> secret(
            trimmed(text),
        )),
{
    reveal_strlit("secret");
    reveal_strlit("url");
    reveal_strlit("stack_trace");
    reveal_strlit("error_message");
    reveal_strlit("code");
    reveal_strlit("plain_text");
    assert("stack_trace"@[1] != "secret"@[1]);
    assert("code"@[0] != "secret"@[0]);
}

/// The preview is a prefix of the trimmed text and no longer than
/// [`PREVIEW_CHARS`].
pub proof fn law_preview_is_a_short_prefix(text: Seq<char>, timestamp: u64)
    ensures
        copied(text, timestamp) matches EventView::Clipboard { preview: Some(p), .. } ==> p.len()
            <= PREVIEW_CHARS && p == trimmed(text).take(p.len() as int),
{
    let s = trimmed(text);
    assert(s.take(s.len() as int) =~= s);
}

} // verus!
