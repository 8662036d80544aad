//! Window focus changes, and the window properties that they read.

use crate::event::{raw_views, Event, EventView};
use crate::text::{clone_opt, from_utf8, opt_view};
use vstd::prelude::*;
use vstd::slice::slice_subrange;
use vstd::utf8::{decode_utf8, valid_utf8};

verus! {

/// What is known of a window: its application, its title and the working
/// directory of its process.
#[derive(Debug, Clone)]
pub struct WindowInfo {
    pub application: Option<String>,
    pub title: Option<String>,
    pub cwd: Option<String>,
}

/// The window currently holding focus, used to compute dwell time.
#[derive(Debug, Clone)]
pub struct FocusState {
    pub window: WindowInfo,
    pub started_at: u64,
}

pub open spec fn window_event(
    event_type: Seq<char>,
    w: WindowInfo,
    duration_secs: Option<u64>,
    timestamp: u64,
) -> EventView {
    EventView::Window {
        event_type,
        application: opt_view(w.application),
        title: opt_view(w.title),
        cwd: opt_view(w.cwd),
        duration_secs,
        timestamp,
    }
}

/// How long the focus that began at `started_at` has lasted.
pub open spec fn dwell(started_at: u64, now: u64) -> u64 {
    if now >= started_at {
        (now - started_at) as u64
    } else {
        0
    }
}

/// The events of a focus change: the window that loses focus is left with
/// its dwell time, then the new one is focused.
pub open spec fn focus_change(prev: Option<FocusState>, window: WindowInfo, now: u64) -> Seq<
    EventView,
> {
    let focused = window_event("focus"@, window, None, now);
    match prev {
        Some(p) => seq![
            window_event("blur"@, p.window, Some(dwell(p.started_at, now)), now),
            focused,
        ],
        None => seq![focused],
    }
}

/// Two records of a window hold the same texts.
pub open spec fn same_window(a: WindowInfo, b: WindowInfo) -> bool {
    &&& opt_view(a.application) == opt_view(b.application)
    &&& opt_view(a.title) == opt_view(b.title)
    &&& opt_view(a.cwd) == opt_view(b.cwd)
}

/// Notes that `window` got the focus at `now`, and gives the events to
/// publish, in order.
pub fn focus_changed(focus: &mut Option<FocusState>, window: WindowInfo, now: u64) -> (r: Vec<
    Event,
>)
    ensures
        raw_views(r@) == focus_change(*old(focus), window, now),
        *final(focus) matches Some(f) && same_window(f.window, window) && f.started_at == now,
{
    let mut out: Vec<Event> = Vec::new();
    let prev = focus.take();
    if let Some(p) = prev {
        out.push(
            Event::Window {
                event_type: "blur".to_owned(),
                application: p.window.application,
                title: p.window.title,
                cwd: p.window.cwd,
                duration_secs: Some(now.saturating_sub(p.started_at)),
                timestamp: now,
            },
        );
    }
    out.push(
        Event::Window {
            event_type: "focus".to_owned(),
            application: clone_opt(&window.application),
            title: clone_opt(&window.title),
            cwd: clone_opt(&window.cwd),
            duration_secs: None,
            timestamp: now,
        },
    );
    assert(raw_views(out@) =~= focus_change(*old(focus), window, now));
    *focus = Some(FocusState { window, started_at: now });
    out
}

/// The event of a window that was opened at `now`.
pub fn window_launched(window: WindowInfo, now: u64) -> (r: Event)
    ensures
        r@ == window_event("launch"@, window, None, now),
{
    Event::Window {
        event_type: "launch".to_owned(),
        application: window.application,
        title: window.title,
        cwd: window.cwd,
        duration_secs: None,
        timestamp: now,
    }
}

/// The first position at or after `from` that holds a zero byte, if any.
pub open spec fn zero_from(bytes: Seq<u8>, from: int) -> Option<int>
    decreases bytes.len() - from,
{
    if from < 0 || from >= bytes.len() {
        None
    } else if bytes[from] == 0 {
        Some(from)
    } else {
        zero_from(bytes, from + 1)
    }
}

/// The text of bytes that are UTF-8.
pub open spec fn utf8_text(bytes: Seq<u8>) -> Option<Seq<char>> {
    if valid_utf8(bytes) {
        Some(decode_utf8(bytes))
    } else {
        None
    }
}

/// The class in a WM_CLASS property, which is two null-terminated strings:
/// the second one.
pub open spec fn class_of(bytes: Seq<u8>) -> Option<Seq<char>> {
    match zero_from(bytes, 0) {
        Some(a) => match zero_from(bytes, a + 1) {
            Some(b) => utf8_text(bytes.subrange(a + 1, b)),
            None => None,
        },
        None => None,
    }
}

fn find_zero(bytes: &[u8], from: usize) -> (r: Option<usize>)
    requires
        from <= bytes@.len(),
    ensures
        match r {
            Some(i) => zero_from(bytes@, from as int) == Some(i as int) && from <= i < bytes@.len(),
            None => zero_from(bytes@, from as int) is None,
        },
{
    let mut i = from;
    while i < bytes.len()
        invariant
            from <= i <= bytes@.len(),
            zero_from(bytes@, i as int) == zero_from(bytes@, from as int),
        decreases bytes@.len() - i,
    {
        if bytes[i] == 0 {
            return Some(i);
        }
        i = i + 1;
    }
    None
}

/// The application of a window, from its WM_CLASS property:
/// `instance\0class\0`.
pub fn parse_wm_class(bytes: &[u8]) -> (r: Option<String>)
    ensures
        opt_view(r) == class_of(bytes@),
{
    let size = bytes.len();
    assert(size == bytes@.len());
    match find_zero(bytes, 0) {
        Some(a) => match find_zero(bytes, a + 1) {
            Some(b) => from_utf8(vstd::slice::slice_to_vec(slice_subrange(bytes, a + 1, b))),
            None => None,
        },
        None => None,
    }
}

/// The text of an optional property.
pub open spec fn property_text(bytes: Option<Seq<u8>>) -> Option<Seq<char>> {
    match bytes {
        Some(b) => utf8_text(b),
        None => None,
    }
}

/// The view of an optional property.
pub open spec fn opt_bytes(bytes: Option<Vec<u8>>) -> Option<Seq<u8>> {
    match bytes {
        Some(b) => Some(b@),
        None => None,
    }
}

/// The title of a window: `_NET_WM_NAME` if it is readable text, or else
/// `WM_NAME`.
pub fn window_title(net_wm_name: Option<Vec<u8>>, wm_name: Option<Vec<u8>>) -> (r: Option<String>)
    ensures
        opt_view(r) == match property_text(opt_bytes(net_wm_name)) {
            Some(t) => Some(t),
            None => property_text(opt_bytes(wm_name)),
        },
{
    if let Some(bytes) = net_wm_name {
        if let Some(title) = from_utf8(bytes) {
            return Some(title);
        }
    }
    match wm_name {
        Some(bytes) => from_utf8(bytes),
        None => None,
    }
}

} // verus!
