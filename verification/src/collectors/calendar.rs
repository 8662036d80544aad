//! Current and next calendar events, from iCalendar files.

use crate::event::{opt_calendar, opt_raw, CalendarEvent, CalendarEventView, Event, EventView};
use crate::moment::{
    date_secs, days_before_month, days_later, digits_in, full_time, local_to_utc, parse_date,
    parse_time, parsed_date, parsed_time, rfc3339_text, to_rfc3339, two_digits, written_in_full,
    Moment, DAY_SECS, LAST_SECOND,
};
use crate::path::{self, extension_of};
use crate::text::{
    self, chars_of, clone_opt, lines, opt_view, replaced, same, same_opt, stop_from,
    stripped_suffix, text_between, trimmed, views,
};
use vstd::prelude::*;

verus! {

// ---------------------------------------------------------------------
// Lines of a calendar file
// ---------------------------------------------------------------------

/// `out` continued by one more line: a line that starts with a space or a tab
/// continues the last line without that character.
pub open spec fn continued(out: Seq<char>, line: Seq<char>) -> Seq<char> {
    if line.len() > 0 && (line[0] == ' ' || line[0] == '\t') && out.len() > 0 {
        out + line.skip(1)
    } else if out.len() > 0 {
        out + seq!['\n'] + line
    } else {
        line
    }
}

/// The first `n` lines as logical lines.
pub open spec fn unfolded_to(parts: Seq<Seq<char>>, n: int) -> Seq<char>
    decreases n,
{
    if n <= 0 {
        Seq::empty()
    } else {
        continued(unfolded_to(parts, n - 1), parts[n - 1])
    }
}

/// The logical lines of a calendar file.
pub open spec fn unfolded(content: Seq<char>) -> Seq<char> {
    unfolded_to(lines(content), lines(content).len() as int)
}

/// Joins ICS line-folded continuations (lines starting with a space or tab
/// continue the previous line) into single logical lines.
pub fn unfold(content: &str) -> (r: String)
    ensures
        r@ == unfolded(content@),
{
    let parts = text::split_lines(content);
    let ghost all = lines(content@);
    let mut out: String = String::new();
    assert(out@ =~= Seq::<char>::empty());
    for i in 0..parts.len()
        invariant
            views(parts@) == all,
            out@ == unfolded_to(all, i as int),
    {
        assert(views(parts@)[i as int] == parts@[i as int]@);
        let cs = chars_of(parts[i].as_str());
        if cs.len() > 0 && (cs[0] == ' ' || cs[0] == '\t') && !out.as_str().is_empty() {
            let mut rest = text_between(&cs, 1, cs.len());
            assert(rest@ =~= all[i as int].skip(1));
            out.append(rest.as_str());
        } else {
            if !out.as_str().is_empty() {
                out.push('\n');
                assert(out@ =~= unfolded_to(all, i as int) + seq!['\n']);
            }
            out.append(parts[i].as_str());
            assert(out@ =~= unfolded_to(all, i + 1));
        }
    }
    assert(parts@.len() == all.len());
    out
}

/// The name of a property line without its parameters, and its value.
pub open spec fn property(line: Seq<char>) -> Option<(Seq<char>, Seq<char>)> {
    let colon = stop_from(line, seq![':'], 0);
    if colon < line.len() {
        let key = line.take(colon);
        Some((key.take(stop_from(key, seq![';'], 0)), line.skip(colon + 1)))
    } else {
        None
    }
}

pub open spec fn opt_property(p: Option<(String, String)>) -> Option<(Seq<char>, Seq<char>)> {
    match p {
        Some((key, value)) => Some((key@, value@)),
        None => None,
    }
}

/// Splits a property line at its first colon.
pub fn split_ics_line(line: &str) -> (r: Option<(String, String)>)
    ensures
        opt_property(r) == property(line@),
{
    let cs = chars_of(line);
    let colon: [char; 1] = [':'];
    let semicolon: [char; 1] = [';'];
    assert(colon@ =~= seq![':']);
    assert(semicolon@ =~= seq![';']);
    let idx = text::find_stop(&cs, &colon, 0);
    if idx >= cs.len() {
        return None;
    }
    let key_full = text_between(&cs, 0, idx);
    assert(key_full@ =~= line@.take(idx as int));
    let keys = chars_of(key_full.as_str());
    let end = text::find_stop(&keys, &semicolon, 0);
    let key = text_between(&keys, 0, end);
    assert(key@ =~= key_full@.take(end as int));
    let value = text_between(&cs, idx + 1, cs.len());
    assert(value@ =~= line@.skip(idx + 1));
    Some((key, value))
}

/// A text value without its escapes. Line breaks become spaces.
pub open spec fn unescaped(s: Seq<char>) -> Seq<char> {
    replaced(
        replaced(
            replaced(replaced(replaced(s, "\\n"@, " "@), "\\N"@, " "@), "\\,"@, ","@),
            "\\;"@,
            ";"@,
        ),
        "\\\\"@,
        "\\"@,
    )
}

/// Resolves the escapes of a text value.
pub fn unescape(s: &str) -> (r: String)
    ensures
        r@ == unescaped(s@),
{
    proof {
        reveal_strlit("\\n");
        reveal_strlit("\\N");
        reveal_strlit("\\,");
        reveal_strlit("\\;");
        reveal_strlit("\\\\");
    }
    let a = text::replace(s, "\\n", " ");
    let b = text::replace(a.as_str(), "\\N", " ");
    let c = text::replace(b.as_str(), "\\,", ",");
    let d = text::replace(c.as_str(), "\\;", ";");
    text::replace(d.as_str(), "\\\\", "\\")
}

// ---------------------------------------------------------------------
// Dates
// ---------------------------------------------------------------------

/// What a DATE or DATE-TIME value says.
#[derive(Debug, Clone, Copy)]
pub enum DateValue {
    Invalid,
    /// A whole day, from its midnight in UTC.
    Day(Moment),
    /// A point in time.
    Utc(Moment),
    /// A wall-clock time of no particular zone.
    Floating(Moment),
}

pub open spec fn eight_digits(s: Seq<char>) -> bool {
    s.len() == 8 && digits_in(s, 0, 8)
}

/// What a DATE or DATE-TIME value says: `YYYYMMDD` is a whole day, and
/// `YYYYMMDDTHHMMSS` a time, in UTC if a `Z` follows.
pub open spec fn date_value(value: Seq<char>) -> DateValue {
    let value = trimmed(value);
    if eight_digits(value) {
        match parsed_date(value, "%Y%m%d"@) {
            Some(secs) => DateValue::Day(Moment { secs, nanos: 0 }),
            None => DateValue::Invalid,
        }
    } else {
        match stripped_suffix(value, "Z"@) {
            Some(utc) => match parsed_time(utc, "%Y%m%dT%H%M%S"@) {
                Some((secs, nanos)) => DateValue::Utc(Moment { secs, nanos }),
                None => DateValue::Invalid,
            },
            None => match parsed_time(value, "%Y%m%dT%H%M%S"@) {
                Some((secs, nanos)) => DateValue::Floating(Moment { secs, nanos }),
                None => DateValue::Invalid,
            },
        }
    }
}

fn is_eight_digits(s: &str) -> (r: bool)
    ensures
        r == eight_digits(s@),
{
    let cs = chars_of(s);
    if cs.len() != 8 {
        return false;
    }
    for i in 0..cs.len()
        invariant
            cs@ == s@,
            forall|j: int| 0 <= j < i ==> text::ascii_digit(#[trigger] s@[j]),
    {
        if !('0' <= cs[i] && cs[i] <= '9') {
            assert(!text::ascii_digit(s@[i as int]));
            return false;
        }
    }
    true
}

/// Reads an ICS DATE or DATE-TIME value.
pub fn read_date(value: &str) -> (r: DateValue)
    ensures
        r == date_value(value@),
        r matches DateValue::Day(m) ==> m.representable() && m.secs + DAY_SECS <= LAST_SECOND
            && m.nanos == 0,
        r matches DateValue::Utc(m) ==> m.representable(),
        r matches DateValue::Floating(m) ==> m.representable(),
        eight_digits(trimmed(value@)) ==> match date_secs(trimmed(value@)) {
            Some(secs) => r matches DateValue::Day(m) && m.secs == secs,
            None => r is Invalid,
        },
        stripped_suffix(trimmed(value@), "Z"@) matches Some(utc) ==> (written_in_full(utc)
            ==> match full_time(utc) {
            Some((secs, nanos)) => r matches DateValue::Utc(m) && m.secs == secs && m.nanos
                == nanos,
            None => r is Invalid,
        }),
        written_in_full(trimmed(value@)) ==> match full_time(trimmed(value@)) {
            Some((secs, nanos)) => r matches DateValue::Floating(m) && m.secs == secs && m.nanos
                == nanos,
            None => r is Invalid,
        },
{
    proof {
        reveal_strlit("Z");
        let whole = trimmed(value@);
        if written_in_full(whole) {
            assert(text::ascii_digit(whole[14]));
            if text::ends_with(whole, "Z"@) {
                assert(text::occurs_at(whole, "Z"@, 14));
                assert(whole.subrange(14, 15)[0] == 'Z');
            }
        }
    }
    let value = text::trim(value);
    if is_eight_digits(value.as_str()) {
        return match parse_date(value.as_str(), "%Y%m%d") {
            Some(secs) => {
                proof {
                    lemma_date_bounds(value@);
                }
                DateValue::Day(Moment { secs, nanos: 0 })
            },
            None => DateValue::Invalid,
        };
    }
    match text::strip_suffix(value.as_str(), "Z") {
        Some(utc) => match parse_time(utc.as_str(), "%Y%m%dT%H%M%S") {
            Some((secs, nanos)) => DateValue::Utc(Moment { secs, nanos }),
            None => DateValue::Invalid,
        },
        None => match parse_time(value.as_str(), "%Y%m%dT%H%M%S") {
            Some((secs, nanos)) => DateValue::Floating(Moment { secs, nanos }),
            None => DateValue::Invalid,
        },
    }
}

/// Dates with four-digit years are far from the end of the calendar.
proof fn lemma_date_bounds(s: Seq<char>)
    requires
        eight_digits(s),
    ensures
        date_secs(s) matches Some(secs) ==> secs + DAY_SECS <= LAST_SECOND,
{
    let year = 100 * two_digits(s, 0) + two_digits(s, 2);
    let month = two_digits(s, 4);
    assert(text::ascii_digit(s[0]) && text::ascii_digit(s[1]) && text::ascii_digit(s[2])
        && text::ascii_digit(s[3]) && text::ascii_digit(s[4]) && text::ascii_digit(s[5])
        && text::ascii_digit(s[6]) && text::ascii_digit(s[7]));
    assert(0 <= year <= 9999);
    assert(days_before_month(year, month) <= 31 * 99) by {
        lemma_month_bounds(year, month);
    }
}

proof fn lemma_month_bounds(year: int, month: int)
    ensures
        month >= 0 ==> days_before_month(year, month) <= 31 * month,
        month < 0 ==> days_before_month(year, month) == 0,
    decreases month,
{
    if month > 1 {
        lemma_month_bounds(year, month - 1);
    }
}

/// The point in time that a date value stands for, and whether it is a whole
/// day, where `local` is what a wall-clock time means here.
pub open spec fn resolved(value: DateValue, local: Option<Moment>) -> Option<(Moment, bool)> {
    match value {
        DateValue::Invalid => None,
        DateValue::Day(m) => Some((m, true)),
        DateValue::Utc(m) => Some((m, false)),
        DateValue::Floating(_) => match local {
            Some(m) => Some((m, false)),
            None => None,
        },
    }
}

/// Resolves a date value, where `local` is what a wall-clock time means here.
pub fn resolve(value: DateValue, local: Option<Moment>) -> (r: Option<(Moment, bool)>)
    ensures
        r == resolved(value, local),
{
    match value {
        DateValue::Invalid => None,
        DateValue::Day(m) => Some((m, true)),
        DateValue::Utc(m) => Some((m, false)),
        DateValue::Floating(_) => match local {
            Some(m) => Some((m, false)),
            None => None,
        },
    }
}

/// `m` may be what the wall-clock time `wall` means in some zone.
pub open spec fn in_some_zone(wall: Moment, m: Moment) -> bool {
    m.representable() && -DAY_SECS < m.secs - wall.secs < DAY_SECS && m.nanos == wall.nanos
}

/// `r` may be what the date value `value` means on this machine: only a
/// wall-clock time leaves a choice.
pub open spec fn possible_date(value: Seq<char>, r: Option<(Moment, bool)>) -> bool {
    exists|local: Option<Moment>|
        {
            &&& r == #[trigger] resolved(date_value(value), local)
            &&& date_value(value) matches DateValue::Floating(wall) ==> (local matches Some(m)
                ==> in_some_zone(wall, m))
        }
}

/// `m` can be taken as the start of an event.
pub open spec fn fit_start(m: Moment, all_day: bool) -> bool {
    m.representable() && (all_day ==> m.secs + DAY_SECS <= LAST_SECOND && m.nanos == 0)
}

/// Parses an ICS DATE or DATE-TIME value, returning (point in time, is_all_day).
pub fn parse_dt(value: &str) -> (r: Option<(Moment, bool)>)
    ensures
        possible_date(value@, r),
        r matches Some((m, all_day)) ==> fit_start(m, all_day),
{
    let date = read_date(value);
    let local = match date {
        DateValue::Floating(wall) => local_to_utc(wall),
        _ => None,
    };
    let r = resolve(date, local);
    assert(r == resolved(date_value(value@), local));
    r
}

// ---------------------------------------------------------------------
// Events of a calendar file
// ---------------------------------------------------------------------

/// A calendar event as it stands in the file.
#[derive(Debug, Clone)]
pub struct IcsRecord {
    pub summary: String,
    pub start: String,
    pub end: Option<String>,
}

#[verifier::ext_equal]
pub struct IcsRecordView {
    pub summary: Seq<char>,
    pub start: Seq<char>,
    pub end: Option<Seq<char>>,
}

impl View for IcsRecord {
    type V = IcsRecordView;

    open spec fn view(&self) -> IcsRecordView {
        IcsRecordView { summary: self.summary@, start: self.start@, end: opt_view(self.end) }
    }
}

pub open spec fn record_views(records: Seq<IcsRecord>) -> Seq<IcsRecordView> {
    Seq::new(records.len(), |i: int| records[i]@)
}

/// Where a reader of a calendar file stands: the values of the event that it
/// is in.
#[verifier::ext_equal]
pub struct Reading {
    pub in_event: bool,
    pub summary: Option<Seq<char>>,
    pub start: Option<Seq<char>>,
    pub end: Option<Seq<char>>,
}

/// The text without the carriage returns at its end.
pub open spec fn trimmed_cr(s: Seq<char>) -> Seq<char>
    decreases s.len(),
{
    if s.len() > 0 && s.last() == '\r' {
        trimmed_cr(s.drop_last())
    } else {
        s
    }
}

impl Reading {
    pub open spec fn outside() -> Reading {
        Reading { in_event: false, summary: None, start: None, end: None }
    }

    /// After one more logical line. The last value of a property counts.
    pub open spec fn after(self, line: Seq<char>) -> Reading {
        if line == "BEGIN:VEVENT"@ {
            Reading { in_event: true, summary: None, start: None, end: None }
        } else if line == "END:VEVENT"@ {
            Reading { in_event: false, summary: None, start: None, ..self }
        } else if !self.in_event {
            self
        } else {
            match property(line) {
                Some((key, value)) => if key == "SUMMARY"@ {
                    Reading { summary: Some(unescaped(value)), ..self }
                } else if key == "DTSTART"@ {
                    Reading { start: Some(value), ..self }
                } else if key == "DTEND"@ {
                    Reading { end: Some(value), ..self }
                } else {
                    self
                },
                None => self,
            }
        }
    }

    /// The event that ends with a line: one with a summary and a start.
    pub open spec fn ended(self, line: Seq<char>) -> Seq<IcsRecordView> {
        if line != "BEGIN:VEVENT"@ && line == "END:VEVENT"@ {
            match (self.summary, self.start) {
                (Some(summary), Some(start)) => seq![
                    IcsRecordView { summary, start, end: self.end },
                ],
                _ => Seq::empty(),
            }
        } else {
            Seq::empty()
        }
    }
}

/// The events that end from the logical line `from` on.
pub open spec fn records_from(all: Seq<Seq<char>>, from: int, reading: Reading) -> Seq<
    IcsRecordView,
>
    decreases all.len() - from,
{
    if from < 0 || from >= all.len() {
        Seq::empty()
    } else {
        let line = trimmed_cr(all[from]);
        reading.ended(line) + records_from(all, from + 1, reading.after(line))
    }
}

/// The events of a calendar file.
pub open spec fn records(content: Seq<char>) -> Seq<IcsRecordView> {
    records_from(lines(unfolded(content)), 0, Reading::outside())
}

fn trim_cr(s: &str) -> (r: String)
    ensures
        r@ == trimmed_cr(s@),
{
    let cs = chars_of(s);
    let mut n: usize = cs.len();
    assert(s@.take(n as int) =~= s@);
    while n > 0 && cs[n - 1] == '\r'
        invariant
            cs@ == s@,
            n <= s@.len(),
            trimmed_cr(s@.take(n as int)) == trimmed_cr(s@),
        decreases n,
    {
        assert(s@.take(n as int).drop_last() =~= s@.take(n - 1));
        n = n - 1;
    }
    assert(s@.take(n as int) =~= s@.subrange(0, n as int));
    text_between(&cs, 0, n)
}

/// Finds the events of a calendar file.
pub fn scan_ics(content: &str) -> (r: Vec<IcsRecord>)
    ensures
        record_views(r@) == records(content@),
{
    let whole = unfold(content);
    let parts = text::split_lines(whole.as_str());
    let ghost all = lines(unfolded(content@));
    let mut out: Vec<IcsRecord> = Vec::new();
    let mut in_event = false;
    let mut summary: Option<String> = None;
    let mut start: Option<String> = None;
    let mut end: Option<String> = None;
    let mut i: usize = 0;
    let ghost mut reading = Reading::outside();
    assert(parts@.len() == all.len());
    assert(record_views(out@) + records_from(all, 0, reading) =~= records(content@));
    while i < parts.len()
        invariant
            views(parts@) == all,
            parts@.len() == all.len(),
            i <= all.len(),
            reading == (Reading {
                in_event,
                summary: opt_view(summary),
                start: opt_view(start),
                end: opt_view(end),
            }),
            record_views(out@) + records_from(all, i as int, reading) == records(content@),
        decreases all.len() - i,
    {
        assert(views(parts@)[i as int] == parts@[i as int]@);
        let line = trim_cr(parts[i].as_str());
        let ghost before = record_views(out@);
        let ghost next = reading.after(line@);
        if same(line.as_str(), "BEGIN:VEVENT") {
            in_event = true;
            summary = None;
            start = None;
            end = None;
        } else if same(line.as_str(), "END:VEVENT") {
            if let (Some(s), Some(d)) = (&summary, &start) {
                let record = IcsRecord {
                    summary: s.clone(),
                    start: d.clone(),
                    end: clone_opt(&end),
                };
                out.push(record);
                assert(record_views(out@) =~= before + seq![record@]);
            }
            summary = None;
            start = None;
            in_event = false;
        } else if in_event {
            if let Some((key, value)) = split_ics_line(line.as_str()) {
                let key = key.as_str();
                if same(key, "SUMMARY") {
                    summary = Some(unescape(value.as_str()));
                } else if same(key, "DTSTART") {
                    start = Some(value);
                } else if same(key, "DTEND") {
                    end = Some(value);
                }
            }
        }
        assert(record_views(out@) =~= before + reading.ended(line@));
        assert((before + reading.ended(line@)) + records_from(all, i + 1, next) =~= before + (
        reading.ended(line@) + records_from(all, i + 1, next)));
        proof {
            reading = next;
        }
        i = i + 1;
    }
    assert(record_views(out@) =~= records(content@));
    out
}

/// A calendar event.
#[derive(Debug, Clone)]
pub struct ParsedEvent {
    pub summary: String,
    pub start: Moment,
    pub end_explicit: Option<Moment>,
    pub all_day: bool,
}

#[verifier::ext_equal]
pub struct ParsedEventView {
    pub summary: Seq<char>,
    pub start: Moment,
    pub end_explicit: Option<Moment>,
    pub all_day: bool,
}

impl View for ParsedEvent {
    type V = ParsedEventView;

    open spec fn view(&self) -> ParsedEventView {
        ParsedEventView {
            summary: self.summary@,
            start: self.start,
            end_explicit: self.end_explicit,
            all_day: self.all_day,
        }
    }
}

pub open spec fn event_views(events: Seq<ParsedEvent>) -> Seq<ParsedEventView> {
    Seq::new(events.len(), |i: int| events[i]@)
}

impl ParsedEventView {
    /// The calendar reaches to the times of the event.
    pub open spec fn wf(self) -> bool {
        fit_start(self.start, self.all_day) && (self.end_explicit matches Some(end)
            ==> end.representable())
    }

    /// When the event is over: an event without an end lasts for the day, or
    /// for no time at all.
    pub open spec fn over(self) -> Moment {
        match self.end_explicit {
            Some(end) => end,
            None => if self.all_day {
                Moment { secs: (self.start.secs + DAY_SECS) as i64, nanos: self.start.nanos }
            } else {
                self.start
            },
        }
    }

    /// The event as it is published.
    pub open spec fn published(self) -> CalendarEventView {
        CalendarEventView {
            summary: self.summary,
            start: rfc3339_text(self.start.secs, self.start.nanos),
            end: match self.end_explicit {
                Some(end) => Some(rfc3339_text(end.secs, end.nanos)),
                None => None,
            },
        }
    }
}

impl ParsedEvent {
    pub fn effective_end(&self) -> (r: Moment)
        requires
            self@.wf(),
        ensures
            r == self@.over(),
    {
        match self.end_explicit {
            Some(end) => end,
            None => if self.all_day {
                days_later(self.start, 1)
            } else {
                self.start
            },
        }
    }

    pub fn to_calendar_event(&self) -> (r: CalendarEvent)
        requires
            self@.wf(),
        ensures
            r@ == self@.published(),
    {
        CalendarEvent {
            summary: self.summary.clone(),
            start: to_rfc3339(self.start),
            end: match self.end_explicit {
                Some(end) => Some(to_rfc3339(end)),
                None => None,
            },
        }
    }
}

/// The events from record `from` on whose start is valid, where `starts` and
/// `ends` say what the dates of the records mean.
pub open spec fn assembled_from(
    records: Seq<IcsRecordView>,
    starts: Seq<Option<(Moment, bool)>>,
    ends: Seq<Option<(Moment, bool)>>,
    from: int,
) -> Seq<ParsedEventView>
    decreases records.len() - from,
{
    if from < 0 || from >= records.len() {
        Seq::empty()
    } else {
        let rest = assembled_from(records, starts, ends, from + 1);
        match starts[from] {
            Some((start, all_day)) => seq![
                ParsedEventView {
                    summary: records[from].summary,
                    start,
                    end_explicit: match ends[from] {
                        Some((end, _)) => Some(end),
                        None => None,
                    },
                    all_day,
                },
            ] + rest,
            None => rest,
        }
    }
}

/// `starts` and `ends` may be what the dates of the records mean here.
pub open spec fn possible_dates(
    records: Seq<IcsRecordView>,
    starts: Seq<Option<(Moment, bool)>>,
    ends: Seq<Option<(Moment, bool)>>,
) -> bool {
    &&& starts.len() == records.len()
    &&& ends.len() == records.len()
    &&& forall|i: int|
        0 <= i < records.len() ==> {
            &&& possible_date(records[i].start, #[trigger] starts[i])
            &&& match records[i].end {
                Some(end) => possible_date(end, ends[i]),
                None => ends[i] is None,
            }
        }
}

/// `events` may be the events of a calendar file: its records with a valid
/// start, where only wall-clock times leave a choice.
pub open spec fn possible_events(content: Seq<char>, events: Seq<ParsedEventView>) -> bool {
    exists|starts: Seq<Option<(Moment, bool)>>, ends: Seq<Option<(Moment, bool)>>|
        {
            &&& #[trigger] possible_dates(records(content), starts, ends)
            &&& events == assembled_from(records(content), starts, ends, 0)
        }
}

pub open spec fn all_wf(events: Seq<ParsedEventView>) -> bool {
    forall|i: int| 0 <= i < events.len() ==> (#[trigger] events[i]).wf()
}

/// Puts the events together from the records of a file and what the dates
/// of the records mean.
pub fn assemble(
    records: &Vec<IcsRecord>,
    starts: &Vec<Option<(Moment, bool)>>,
    ends: &Vec<Option<(Moment, bool)>>,
) -> (r: Vec<ParsedEvent>)
    requires
        starts@.len() == records@.len(),
        ends@.len() == records@.len(),
    ensures
        event_views(r@) == assembled_from(record_views(records@), starts@, ends@, 0),
{
    let ghost all = record_views(records@);
    let mut out: Vec<ParsedEvent> = Vec::new();
    let mut i: usize = 0;
    assert(event_views(out@) + assembled_from(all, starts@, ends@, 0) =~= assembled_from(
        all,
        starts@,
        ends@,
        0,
    ));
    while i < records.len()
        invariant
            all == record_views(records@),
            starts@.len() == records@.len(),
            ends@.len() == records@.len(),
            i <= records@.len(),
            event_views(out@) + assembled_from(all, starts@, ends@, i as int) == assembled_from(
                all,
                starts@,
                ends@,
                0,
            ),
        decreases records@.len() - i,
    {
        let ghost before = event_views(out@);
        let ghost rest = assembled_from(all, starts@, ends@, i + 1);
        assert(all[i as int] == records@[i as int]@);
        if let Some((start, all_day)) = starts[i] {
            let event = ParsedEvent {
                summary: records[i].summary.clone(),
                start,
                end_explicit: match ends[i] {
                    Some((end, _)) => Some(end),
                    None => None,
                },
                all_day,
            };
            out.push(event);
            assert(before + (seq![event@] + rest) =~= event_views(out@) + rest);
        }
        i = i + 1;
    }
    assert(event_views(out@) =~= assembled_from(all, starts@, ends@, 0));
    out
}

proof fn lemma_assembled_wf(
    records: Seq<IcsRecordView>,
    starts: Seq<Option<(Moment, bool)>>,
    ends: Seq<Option<(Moment, bool)>>,
    from: int,
)
    requires
        0 <= from,
        starts.len() == records.len(),
        ends.len() == records.len(),
        forall|i: int|
            0 <= i < records.len() ==> (#[trigger] starts[i] matches Some((m, b)) ==> fit_start(
                m,
                b,
            )),
        forall|i: int|
            0 <= i < records.len() ==> (#[trigger] ends[i] matches Some((m, _))
                ==> m.representable()),
    ensures
        all_wf(assembled_from(records, starts, ends, from)),
    decreases records.len() - from,
{
    if from < records.len() {
        lemma_assembled_wf(records, starts, ends, from + 1);
        let start = starts[from];
        let end = ends[from];
    }
}

/// The events of a calendar file. A wall-clock time is taken in this
/// machine's time zone.
pub fn parse_ics(content: &str) -> (r: Vec<ParsedEvent>)
    ensures
        possible_events(content@, event_views(r@)),
        all_wf(event_views(r@)),
{
    let found = scan_ics(content);
    let ghost all = record_views(found@);
    let mut starts: Vec<Option<(Moment, bool)>> = Vec::new();
    let mut ends: Vec<Option<(Moment, bool)>> = Vec::new();
    for i in 0..found.len()
        invariant
            all == record_views(found@),
            starts@.len() == i,
            ends@.len() == i,
            forall|j: int|
                0 <= j < i ==> {
                    &&& possible_date(all[j].start, #[trigger] starts@[j])
                    &&& starts@[j] matches Some((m, b)) ==> fit_start(m, b)
                },
            forall|j: int|
                0 <= j < i ==> {
                    &&& match all[j].end {
                        Some(end) => possible_date(end, #[trigger] ends@[j]),
                        None => ends@[j] is None,
                    }
                    &&& ends@[j] matches Some((m, _)) ==> m.representable()
                },
    {
        assert(all[i as int] == found@[i as int]@);
        let start = parse_dt(found[i].start.as_str());
        let end = match &found[i].end {
            Some(end) => parse_dt(end.as_str()),
            None => None,
        };
        starts.push(start);
        ends.push(end);
    }
    assert forall|i: int| 0 <= i < all.len() implies {
        &&& possible_date(all[i].start, #[trigger] starts@[i])
        &&& match all[i].end {
            Some(end) => possible_date(end, ends@[i]),
            None => ends@[i] is None,
        }
    } by {
        let end = ends@[i];
    }
    assert(possible_dates(records(content@), starts@, ends@));
    proof {
        lemma_assembled_wf(all, starts@, ends@, 0);
    }
    assemble(&found, &starts, &ends)
}

// ---------------------------------------------------------------------
// All events
// ---------------------------------------------------------------------

/// Whether a file of the calendar directory is a calendar file.
pub fn is_calendar_file(path: &str) -> (r: bool)
    ensures
        r == (extension_of(path@) == Some("ics"@)),
{
    match path::extension(path) {
        Some(extension) => same(extension.as_str(), "ics"),
        None => false,
    }
}

/// Where an event that starts at `start` goes among the first `n` events:
/// after those that start no later.
pub open spec fn place(events: Seq<ParsedEventView>, start: Moment, n: int) -> int
    decreases n,
{
    if 0 < n && start.before(events[n - 1].start) {
        place(events, start, n - 1)
    } else {
        n
    }
}

pub open spec fn placed(events: Seq<ParsedEventView>, event: ParsedEventView) -> Seq<
    ParsedEventView,
> {
    events.insert(place(events, event.start, events.len() as int), event)
}

/// The events by their start; those that start together stay in their order.
pub open spec fn ordered(events: Seq<ParsedEventView>) -> Seq<ParsedEventView>
    decreases events.len(),
{
    if events.len() == 0 {
        Seq::empty()
    } else {
        placed(ordered(events.drop_last()), events.last())
    }
}

pub open spec fn by_start(events: Seq<ParsedEventView>) -> bool {
    forall|i: int, j: int|
        0 <= i < j < events.len() ==> !(#[trigger] events[j]).start.before(
            (#[trigger] events[i]).start,
        )
}

/// Events one file after the other.
pub open spec fn flattened(files: Seq<Seq<ParsedEventView>>) -> Seq<ParsedEventView>
    decreases files.len(),
{
    if files.len() == 0 {
        Seq::empty()
    } else {
        flattened(files.drop_last()) + files.last()
    }
}

proof fn lemma_place(events: Seq<ParsedEventView>, start: Moment, n: int)
    requires
        0 <= n <= events.len(),
        by_start(events),
    ensures
        0 <= place(events, start, n) <= n,
        forall|i: int|
            place(events, start, n) <= i < n ==> start.before((#[trigger] events[i]).start),
        forall|i: int|
            0 <= i < place(events, start, n) ==> !start.before((#[trigger] events[i]).start),
    decreases n,
{
    if 0 < n && start.before(events[n - 1].start) {
        lemma_place(events, start, n - 1);
    }
}

/// Ordering keeps the events, puts none before one that starts earlier, and
/// keeps them within the reach of the calendar.
pub proof fn law_ordered_events(events: Seq<ParsedEventView>)
    ensures
        by_start(ordered(events)),
        ordered(events).to_multiset() =~= events.to_multiset(),
        all_wf(events) ==> all_wf(ordered(events)),
    decreases events.len(),
{
    broadcast use vstd::seq_lib::group_to_multiset_ensures;

    if events.len() > 0 {
        let rest = events.drop_last();
        let last = events.last();
        law_ordered_events(rest);
        let base = ordered(rest);
        lemma_place(base, last.start, base.len() as int);
        let at = place(base, last.start, base.len() as int);
        let all = placed(base, last);
        assert forall|i: int, j: int| 0 <= i < j < all.len() implies !(
        #[trigger] all[j]).start.before((#[trigger] all[i]).start) by {
            let a = if i < at {
                i
            } else {
                i - 1
            };
            let b = if j < at {
                j
            } else {
                j - 1
            };
            if i != at {
                assert(all[i] == base[a]);
            }
            if j != at {
                assert(all[j] == base[b]);
            }
        }
        assert(events =~= rest.push(last));
        assert(all[at] == last);
        assert(all.remove(at) =~= base);
        assert(all.contains(last));
        assert(all.to_multiset() =~= base.to_multiset().insert(last));
        if all_wf(events) {
            assert forall|i: int| 0 <= i < rest.len() implies (#[trigger] rest[i]).wf() by {
                assert(rest[i] == events[i]);
            }
            assert(events[events.len() - 1].wf());
            assert forall|i: int| 0 <= i < all.len() implies (#[trigger] all[i]).wf() by {
                if i < at {
                    assert(all[i] == base[i]);
                } else if i > at {
                    assert(all[i] == base[i - 1]);
                }
            }
        }
    }
}

/// Events that are by their start already stay as they are.
pub proof fn law_ordering_is_stable(events: Seq<ParsedEventView>)
    requires
        by_start(events),
    ensures
        ordered(events) == events,
    decreases events.len(),
{
    if events.len() > 0 {
        let rest = events.drop_last();
        let last = events.last();
        assert forall|i: int, j: int| 0 <= i < j < rest.len() implies !(
        #[trigger] rest[j]).start.before((#[trigger] rest[i]).start) by {
            assert(rest[i] == events[i] && rest[j] == events[j]);
        }
        law_ordering_is_stable(rest);
        let n = rest.len() as int;
        if n > 0 {
            assert(!events[n].start.before(events[n - 1].start));
        }
        assert(place(rest, last.start, n) == n);
        assert(rest.insert(n, last) =~= events);
    } else {
        assert(events =~= Seq::empty());
    }
}

fn insert_event(events: &mut Vec<ParsedEvent>, event: ParsedEvent)
    requires
        by_start(event_views(old(events)@)),
    ensures
        event_views(final(events)@) == placed(event_views(old(events)@), event@),
{
    let ghost all = event_views(events@);
    let mut n: usize = events.len();
    while n > 0 && event.start.is_before(events[n - 1].start)
        invariant
            n <= events@.len(),
            all == event_views(events@),
            place(all, event.start, n as int) == place(all, event.start, all.len() as int),
        decreases n,
    {
        assert(all[n - 1] == events@[n - 1]@);
        n = n - 1;
    }
    assert(n > 0 ==> all[n - 1] == events@[n - 1]@);
    let ghost view = event@;
    events.insert(n, event);
    assert(event_views(events@) =~= all.insert(n as int, view));
}

/// The events of all calendar files of `contents`, by their start.
pub fn load_events(contents: &Vec<String>) -> (r: Vec<ParsedEvent>)
    ensures
        exists|files: Seq<Seq<ParsedEventView>>|
            {
                &&& #[trigger] files.len() == contents@.len()
                &&& forall|i: int|
                    0 <= i < files.len() ==> possible_events(contents@[i]@, #[trigger] files[i])
                &&& event_views(r@) == ordered(flattened(files))
            },
        by_start(event_views(r@)),
        all_wf(event_views(r@)),
{
    let mut out: Vec<ParsedEvent> = Vec::new();
    let ghost mut files: Seq<Seq<ParsedEventView>> = Seq::empty();
    let ghost mut seen: Seq<ParsedEventView> = Seq::empty();
    assert(event_views(out@) =~= Seq::empty());
    for i in 0..contents.len()
        invariant
            files.len() == i,
            forall|j: int|
                0 <= j < files.len() ==> possible_events(contents@[j]@, #[trigger] files[j]),
            seen == flattened(files),
            all_wf(seen),
            event_views(out@) == ordered(seen),
    {
        let found = parse_ics(contents[i].as_str());
        let ghost file = event_views(found@);
        let ghost start = seen;
        let mut k: usize = 0;
        assert(start + file.take(0) =~= start);
        while k < found.len()
            invariant
                k <= found@.len(),
                file == event_views(found@),
                all_wf(file),
                all_wf(start),
                all_wf(seen),
                seen == start + file.take(k as int),
                event_views(out@) == ordered(seen),
            decreases found@.len() - k,
        {
            let event = ParsedEvent {
                summary: found[k].summary.clone(),
                start: found[k].start,
                end_explicit: found[k].end_explicit,
                all_day: found[k].all_day,
            };
            proof {
                assert(event@ == file[k as int]);
                law_ordered_events(seen);
            }
            insert_event(&mut out, event);
            proof {
                let next = seen.push(file[k as int]);
                assert(next.drop_last() =~= seen);
                assert(next =~= start + file.take(k + 1));
                seen = next;
            }
            k = k + 1;
        }
        proof {
            assert(file.take(k as int) =~= file);
            let earlier = files;
            files = earlier.push(file);
            assert(files.drop_last() =~= earlier);
        }
    }
    proof {
        law_ordered_events(seen);
    }
    out
}

// ---------------------------------------------------------------------
// The current and the next event
// ---------------------------------------------------------------------

/// The event goes on at `now`.
pub open spec fn goes_on(event: ParsedEventView, now: Moment) -> bool {
    !now.before(event.start) && now.before(event.over())
}

/// The first event from position `from` on that goes on at `now`.
pub open spec fn current_from(events: Seq<ParsedEventView>, now: Moment, from: int) -> Option<
    ParsedEventView,
>
    decreases events.len() - from,
{
    if from < 0 || from >= events.len() {
        None
    } else if goes_on(events[from], now) {
        Some(events[from])
    } else {
        current_from(events, now, from + 1)
    }
}

/// Of the first `n` events that start after `now`, the first one to start.
pub open spec fn next_to(events: Seq<ParsedEventView>, now: Moment, n: int) -> Option<
    ParsedEventView,
>
    decreases n,
{
    if n <= 0 {
        None
    } else {
        let best = next_to(events, now, n - 1);
        let event = events[n - 1];
        if !now.before(event.start) {
            best
        } else {
            match best {
                Some(b) => if event.start.before(b.start) {
                    Some(event)
                } else {
                    Some(b)
                },
                None => Some(event),
            }
        }
    }
}

pub open spec fn opt_published(event: Option<ParsedEventView>) -> Option<CalendarEventView> {
    match event {
        Some(event) => Some(event.published()),
        None => None,
    }
}

/// The next event starts after `now`, and no other one that does starts
/// before it; there is none only if no event starts after `now`.
pub proof fn law_next_event_is_the_earliest(events: Seq<ParsedEventView>, now: Moment, n: int)
    requires
        0 <= n <= events.len(),
    ensures
        match next_to(events, now, n) {
            Some(e) => {
                &&& now.before(e.start)
                &&& exists|i: int| 0 <= i < n && #[trigger] events[i] == e
                &&& forall|i: int|
                    0 <= i < n && now.before((#[trigger] events[i]).start)
                        ==> !events[i].start.before(e.start)
            },
            None => forall|i: int| 0 <= i < n ==> !now.before((#[trigger] events[i]).start),
        },
    decreases n,
{
    if n > 0 {
        law_next_event_is_the_earliest(events, now, n - 1);
        assert(events[n - 1] == events[n - 1]);
    }
}

/// An event without an end that is not a whole day is never the current one.
pub proof fn law_moments_do_not_go_on(event: ParsedEventView, now: Moment)
    requires
        event.end_explicit is None,
        !event.all_day,
    ensures
        !goes_on(event, now),
{
}

/// The event that goes on at `now`.
pub fn current_event(events: &Vec<ParsedEvent>, now: Moment) -> (r: Option<CalendarEvent>)
    requires
        all_wf(event_views(events@)),
    ensures
        opt_calendar(r) == opt_published(current_from(event_views(events@), now, 0)),
{
    let ghost all = event_views(events@);
    let mut i: usize = 0;
    while i < events.len()
        invariant
            all == event_views(events@),
            all_wf(all),
            i <= events@.len(),
            current_from(all, now, i as int) == current_from(all, now, 0),
        decreases events@.len() - i,
    {
        assert(all[i as int] == events@[i as int]@);
        if !now.is_before(events[i].start) && now.is_before(events[i].effective_end()) {
            return Some(events[i].to_calendar_event());
        }
        i = i + 1;
    }
    None
}

/// The event that starts next after `now`.
pub fn next_event(events: &Vec<ParsedEvent>, now: Moment) -> (r: Option<CalendarEvent>)
    requires
        all_wf(event_views(events@)),
    ensures
        opt_calendar(r) == opt_published(
            next_to(event_views(events@), now, events@.len() as int),
        ),
{
    let ghost all = event_views(events@);
    let mut best: Option<usize> = None;
    for i in 0..events.len()
        invariant
            all == event_views(events@),
            match best {
                Some(b) => b < i && next_to(all, now, i as int) == Some(all[b as int]),
                None => next_to(all, now, i as int) is None,
            },
    {
        assert(all[i as int] == events@[i as int]@);
        if now.is_before(events[i].start) {
            match best {
                Some(b) => {
                    assert(all[b as int] == events@[b as int]@);
                    if events[i].start.is_before(events[b].start) {
                        best = Some(i);
                    }
                },
                None => {
                    best = Some(i);
                },
            }
        }
    }
    match best {
        Some(b) => {
            assert(all[b as int] == events@[b as int]@);
            Some(events[b].to_calendar_event())
        },
        None => None,
    }
}

/// What was published last.
pub struct CalendarWatch {
    pub last_key: Option<(Option<String>, Option<String>)>,
}

/// What tells one event from another.
pub open spec fn event_key(event: Option<CalendarEventView>) -> Option<Seq<char>> {
    match event {
        Some(event) => Some(event.summary + "@"@ + event.start),
        None => None,
    }
}

pub open spec fn key_views(key: Option<(Option<String>, Option<String>)>) -> Option<
    (Option<Seq<char>>, Option<Seq<char>>),
> {
    match key {
        Some((current, next)) => Some((opt_view(current), opt_view(next))),
        None => None,
    }
}

fn key_of(event: &Option<CalendarEvent>) -> (r: Option<String>)
    ensures
        opt_view(r) == event_key(opt_calendar(*event)),
{
    match event {
        Some(event) => {
            let mut key = event.summary.clone();
            key.append("@");
            key.append(event.start.as_str());
            Some(key)
        },
        None => None,
    }
}

impl CalendarWatch {
    pub fn new() -> (r: Self)
        ensures
            r.last_key is None,
    {
        CalendarWatch { last_key: None }
    }

    /// The current and the next event: gives the event to publish if one of
    /// them is another one than last time.
    pub fn publish(
        &mut self,
        current: Option<CalendarEvent>,
        next: Option<CalendarEvent>,
        timestamp: u64,
    ) -> (r: Option<Event>)
        ensures
            ({
                let key = Some(
                    (event_key(opt_calendar(current)), event_key(opt_calendar(next))),
                );
                &&& opt_raw(r) == if key != key_views(old(self).last_key) {
                    Some(
                        EventView::Calendar {
                            current_event: opt_calendar(current),
                            next_event: opt_calendar(next),
                            timestamp,
                        },
                    )
                } else {
                    None
                }
                &&& key_views(final(self).last_key) == key
            }),
    {
        let current_key = key_of(&current);
        let next_key = key_of(&next);
        let changed = match &self.last_key {
            Some((c, n)) => !same_opt(c, &current_key) || !same_opt(n, &next_key),
            None => true,
        };
        if !changed {
            return None;
        }
        self.last_key = Some((current_key, next_key));
        Some(Event::Calendar { current_event: current, next_event: next, timestamp })
    }

    /// The calendar at `now`: gives the event to publish if the current or the
    /// next event is another one than last time.
    pub fn observe(&mut self, events: &Vec<ParsedEvent>, now: Moment, timestamp: u64) -> (r: Option<
        Event,
    >)
        requires
            all_wf(event_views(events@)),
        ensures
            ({
                let all = event_views(events@);
                let current = opt_published(current_from(all, now, 0));
                let next = opt_published(next_to(all, now, all.len() as int));
                let key = Some((event_key(current), event_key(next)));
                &&& opt_raw(r) == if key != key_views(old(self).last_key) {
                    Some(
                        EventView::Calendar {
                            current_event: current,
                            next_event: next,
                            timestamp,
                        },
                    )
                } else {
                    None
                }
                &&& key_views(final(self).last_key) == key
            }),
    {
        let current = current_event(events, now);
        let next = next_event(events, now);
        self.publish(current, next, timestamp)
    }
}

} // verus!
