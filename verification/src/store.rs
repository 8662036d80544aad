//! What goes into which column of the event store.

use crate::json::Json;
use crate::number::{decimal, render};
use crate::text::opt_str_view;
use vstd::prelude::*;

verus! {

/// The data directory: `./data`, unless the environment says otherwise (e.g.
/// when run as a sidecar, where the working directory is inside the app
/// bundle and not writable).
pub fn data_dir(configured: Option<&str>) -> (r: String)
    ensures
        r@ == match opt_str_view(configured) {
            Some(dir) => dir,
            None => "./data"@,
        },
{
    match configured {
        Some(dir) => dir.to_owned(),
        None => "./data".to_owned(),
    }
}

/// Where the database is.
pub fn db_path(data_dir: &str) -> (r: String)
    ensures
        r@ == data_dir@ + "/activity_monitor.db"@,
{
    let mut path = data_dir.to_owned();
    path.append("/activity_monitor.db");
    path
}

/// The object has a member of the given name.
pub open spec fn has_field(json: Json, key: Seq<char>) -> bool {
    json.field(key) is Some
}

/// The type of a raw event: the name of its only member (as in
/// `{"Window": {...}}`), or what its members suggest.
pub open spec fn raw_event_type(event: Json) -> Seq<char> {
    match event {
        Json::Object(members) => if members@.len() == 1 {
            members@[0].0@
        } else if has_field(event, "command"@) {
            "Terminal"@
        } else if has_field(event, "title"@) || has_field(event, "application"@) {
            "Window"@
        } else if has_field(event, "site"@) {
            "Browser"@
        } else {
            "unknown"@
        },
        _ => "unknown"@,
    }
}

/// The type of a raw event.
pub fn event_type(event: &Json) -> (r: String)
    ensures
        r@ == raw_event_type(*event),
{
    match event {
        Json::Object(members) => {
            if members.len() == 1 {
                members[0].0.clone()
            } else if event.get("command").is_some() {
                "Terminal".to_owned()
            } else if event.get("title").is_some() || event.get("application").is_some() {
                "Window".to_owned()
            } else if event.get("site").is_some() {
                "Browser".to_owned()
            } else {
                "unknown".to_owned()
            }
        },
        _ => "unknown".to_owned(),
    }
}

/// The columns of a normalized event.
#[derive(Debug, Clone)]
pub struct NormalizedRow {
    pub timestamp: i64,
    pub source: String,
    pub kind: String,
}

pub open spec fn text_or_unknown(event: Json, key: Seq<char>) -> Seq<char> {
    match event.text_at(key) {
        Some(text) => text,
        None => "unknown"@,
    }
}

/// The columns of a normalized event; `now` stands in for a missing time.
pub fn normalized_row(event: &Json, now: i64) -> (r: NormalizedRow)
    ensures
        r.timestamp == match event.integer_at("timestamp"@) {
            Some(ts) => ts,
            None => now,
        },
        r.source@ == text_or_unknown(*event, "source"@),
        r.kind@ == text_or_unknown(*event, "kind"@),
{
    NormalizedRow {
        timestamp: match event.get_integer("timestamp") {
            Some(ts) => ts,
            None => now,
        },
        source: event.get_text_or("source", "unknown"),
        kind: event.get_text_or("kind", "unknown"),
    }
}

/// The tables that hold events.
#[derive(Debug, Clone, Copy)]
pub enum EventTable {
    Raw,
    Normalized,
}

pub open spec fn table_name(table: EventTable) -> Seq<char> {
    match table {
        EventTable::Raw => "events"@,
        EventTable::Normalized => "normalized_events"@,
    }
}

/// The query for the most recent events of a table, most recent first.
pub fn recent_query(table: EventTable, limit: u64) -> (r: String)
    ensures
        r@ == "SELECT raw_json FROM "@ + table_name(table) + " ORDER BY id DESC LIMIT "@ + decimal(
            limit as nat,
        ),
{
    let mut query = "SELECT raw_json FROM ".to_owned();
    query.append(
        match table {
            EventTable::Raw => "events",
            EventTable::Normalized => "normalized_events",
        },
    );
    query.append(" ORDER BY id DESC LIMIT ");
    query.append(render(limit).as_str());
    query
}

} // verus!
