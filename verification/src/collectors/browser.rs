//! Messages of the browser extension.

use crate::event::{Event, EventView};
use crate::text::{clone_opt, opt_view};
use vstd::prelude::*;

verus! {

/// A message of the browser extension.
#[derive(Debug, Clone)]
pub struct BrowserPayload {
    pub source: Option<String>,
    pub site: Option<String>,
    pub url: Option<String>,
    pub title: Option<String>,
    pub h1: Option<String>,
    pub selection: Option<String>,
    pub category: Option<String>,
    pub search_query: Option<String>,
    pub timestamp: Option<u64>,
}

/// The event of a message: the source is the browser unless it says
/// otherwise, the URL stands in for a missing site, and the current time for
/// a missing one.
pub open spec fn navigation(p: BrowserPayload, now: u64) -> EventView {
    EventView::Browser {
        source: opt_view(p.source).unwrap_or("browser"@),
        site: opt_view(p.site).unwrap_or(opt_view(p.url).unwrap_or(Seq::empty())),
        url: opt_view(p.url),
        title: opt_view(p.title),
        h1: opt_view(p.h1),
        selection: opt_view(p.selection),
        category: opt_view(p.category),
        search_query: opt_view(p.search_query),
        timestamp: p.timestamp.unwrap_or(now),
    }
}

/// The event of a message of the browser extension, received at `now`.
pub fn browser_event(p: BrowserPayload, now: u64) -> (r: Event)
    ensures
        r@ == navigation(p, now),
{
    let site = match p.site {
        Some(s) => s,
        None => match clone_opt(&p.url) {
            Some(u) => u,
            None => String::new(),
        },
    };
    let source = match p.source {
        Some(s) => s,
        None => "browser".to_owned(),
    };
    Event::Browser {
        source,
        site,
        url: p.url,
        title: p.title,
        h1: p.h1,
        selection: p.selection,
        category: p.category,
        search_query: p.search_query,
        timestamp: p.timestamp.unwrap_or(now),
    }
}

} // verus!
