//! The raw events that collectors publish.

use crate::text::opt_view;
use vstd::prelude::*;

verus! {

#[derive(Debug, Clone)]
pub enum Event {
    Heartbeat { timestamp: u64 },
    Window {
        event_type: String,
        application: Option<String>,
        title: Option<String>,
        cwd: Option<String>,
        /// For "blur" events, how long the window held focus before this switch.
        duration_secs: Option<u64>,
        timestamp: u64,
    },
    Terminal {
        command: String,
        exit_code: Option<i32>,
        cwd: Option<String>,
        phase: Option<String>,
        timestamp: u64,
    },
    Browser {
        source: String,
        site: String,
        url: Option<String>,
        title: Option<String>,
        h1: Option<String>,
        selection: Option<String>,
        /// Intent bucket inferred from the domain (docs, research, communication, etc).
        category: Option<String>,
        /// Search query extracted from the URL, when on a search engine.
        search_query: Option<String>,
        timestamp: u64,
    },
    /// A clipboard change. Content is classified rather than stored verbatim
    /// for likely-sensitive copies (see `content_type` == "secret").
    Clipboard {
        content_type: String,
        preview: Option<String>,
        length: usize,
        line_count: usize,
        timestamp: u64,
    },
    /// A file created/modified/removed under a watched project directory.
    FileChange { path: String, kind: String, project: Option<String>, timestamp: u64 },
    /// Snapshot of locally-listening TCP ports, e.g. dev servers / databases.
    ProcessActivity { listening_ports: Vec<ListeningPort>, timestamp: u64 },
    /// Current and next calendar events, when a local calendar is configured.
    Calendar {
        current_event: Option<CalendarEvent>,
        next_event: Option<CalendarEvent>,
        timestamp: u64,
    },
}

#[derive(Debug, Clone)]
pub struct ListeningPort {
    pub port: u16,
    pub process: String,
    pub pid: u32,
}

#[derive(Debug, Clone)]
pub struct CalendarEvent {
    pub summary: String,
    pub start: String,
    pub end: Option<String>,
}

/// What an [`Event`] holds.
#[verifier::ext_equal]
pub enum EventView {
    Heartbeat { timestamp: u64 },
    Window {
        event_type: Seq<char>,
        application: Option<Seq<char>>,
        title: Option<Seq<char>>,
        cwd: Option<Seq<char>>,
        duration_secs: Option<u64>,
        timestamp: u64,
    },
    Terminal {
        command: Seq<char>,
        exit_code: Option<i32>,
        cwd: Option<Seq<char>>,
        phase: Option<Seq<char>>,
        timestamp: u64,
    },
    Browser {
        source: Seq<char>,
        site: Seq<char>,
        url: Option<Seq<char>>,
        title: Option<Seq<char>>,
        h1: Option<Seq<char>>,
        selection: Option<Seq<char>>,
        category: Option<Seq<char>>,
        search_query: Option<Seq<char>>,
        timestamp: u64,
    },
    Clipboard {
        content_type: Seq<char>,
        preview: Option<Seq<char>>,
        length: nat,
        line_count: nat,
        timestamp: u64,
    },
    FileChange {
        path: Seq<char>,
        kind: Seq<char>,
        project: Option<Seq<char>>,
        timestamp: u64,
    },
    ProcessActivity { listening_ports: Seq<ListeningPortView>, timestamp: u64 },
    Calendar {
        current_event: Option<CalendarEventView>,
        next_event: Option<CalendarEventView>,
        timestamp: u64,
    },
}

/// What a [`ListeningPort`] holds.
#[verifier::ext_equal]
pub struct ListeningPortView {
    pub port: u16,
    pub process: Seq<char>,
    pub pid: u32,
}

/// What a [`CalendarEvent`] holds.
#[verifier::ext_equal]
pub struct CalendarEventView {
    pub summary: Seq<char>,
    pub start: Seq<char>,
    pub end: Option<Seq<char>>,
}

impl View for ListeningPort {
    type V = ListeningPortView;

    open spec fn view(&self) -> ListeningPortView {
        ListeningPortView { port: self.port, process: self.process@, pid: self.pid }
    }
}

impl View for CalendarEvent {
    type V = CalendarEventView;

    open spec fn view(&self) -> CalendarEventView {
        CalendarEventView { summary: self.summary@, start: self.start@, end: opt_view(self.end) }
    }
}

/// What a list of ports holds.
pub open spec fn port_views(ports: Seq<ListeningPort>) -> Seq<ListeningPortView> {
    ports.map_values(|p: ListeningPort| p@)
}

/// What an optional calendar event holds.
pub open spec fn opt_calendar(e: Option<CalendarEvent>) -> Option<CalendarEventView> {
    match e {
        Some(e) => Some(e@),
        None => None,
    }
}

impl View for Event {
    type V = EventView;

    open spec fn view(&self) -> EventView {
        match *self {
            Event::Heartbeat { timestamp } => EventView::Heartbeat { timestamp },
            Event::Window { event_type, application, title, cwd, duration_secs, timestamp } =>
                EventView::Window {
                event_type: event_type@,
                application: opt_view(application),
                title: opt_view(title),
                cwd: opt_view(cwd),
                duration_secs,
                timestamp,
            },
            Event::Terminal { command, exit_code, cwd, phase, timestamp } => EventView::Terminal {
                command: command@,
                exit_code,
                cwd: opt_view(cwd),
                phase: opt_view(phase),
                timestamp,
            },
            Event::Browser {
                source,
                site,
                url,
                title,
                h1,
                selection,
                category,
                search_query,
                timestamp,
            } => EventView::Browser {
                source: source@,
                site: site@,
                url: opt_view(url),
                title: opt_view(title),
                h1: opt_view(h1),
                selection: opt_view(selection),
                category: opt_view(category),
                search_query: opt_view(search_query),
                timestamp,
            },
            Event::Clipboard { content_type, preview, length, line_count, timestamp } =>
                EventView::Clipboard {
                content_type: content_type@,
                preview: opt_view(preview),
                length: length as nat,
                line_count: line_count as nat,
                timestamp,
            },
            Event::FileChange { path, kind, project, timestamp } => EventView::FileChange {
                path: path@,
                kind: kind@,
                project: opt_view(project),
                timestamp,
            },
            Event::ProcessActivity { listening_ports, timestamp } => EventView::ProcessActivity {
                listening_ports: port_views(listening_ports@),
                timestamp,
            },
            Event::Calendar { current_event, next_event, timestamp } => EventView::Calendar {
                current_event: opt_calendar(current_event),
                next_event: opt_calendar(next_event),
                timestamp,
            },
        }
    }
}

/// What an event that may have come holds.
pub open spec fn opt_raw(e: Option<Event>) -> Option<EventView> {
    match e {
        Some(e) => Some(e@),
        None => None,
    }
}

/// What a list of events holds.
pub open spec fn raw_views(v: Seq<Event>) -> Seq<EventView> {
    v.map_values(|e: Event| e@)
}

} // verus!
