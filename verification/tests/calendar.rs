use activity_monitor::collectors::calendar::{
    assemble, current_event, is_calendar_file, load_events, next_event, parse_dt, parse_ics,
    read_date, resolve, scan_ics, split_ics_line, unescape, unfold, CalendarWatch, DateValue,
    ParsedEvent,
};
use activity_monitor::event::{CalendarEvent, Event};
use activity_monitor::moment::Moment;

fn at(secs: i64) -> Moment {
    Moment { secs, nanos: 0 }
}

fn event(summary: &str, start: i64, end: Option<i64>, all_day: bool) -> ParsedEvent {
    ParsedEvent {
        summary: summary.to_string(),
        start: at(start),
        end_explicit: end.map(at),
        all_day,
    }
}

#[test]
fn folded_lines_are_joined() {
    assert_eq!(unfold("A:one\n  two\n\tthree\r\nB:x\n"), "A:one twothree\nB:x");
    // The first line cannot continue anything.
    assert_eq!(unfold(" A\nB"), " A\nB");
    assert_eq!(unfold(""), "");
}

#[test]
fn property_lines_are_split() {
    let some = |k: &str, v: &str| Some((k.to_string(), v.to_string()));
    assert_eq!(split_ics_line("SUMMARY:a:b"), some("SUMMARY", "a:b"));
    assert_eq!(split_ics_line("DTSTART;VALUE=DATE:20240101"), some("DTSTART", "20240101"));
    assert_eq!(split_ics_line("nothing"), None);
}

#[test]
fn escapes_are_resolved() {
    assert_eq!(unescape("a\\, b\\; c\\nd\\Ne\\\\f"), "a, b; c d e\\f");
}

#[test]
fn dates_are_read() {
    // 2024-02-29 is day 19782 since 1970.
    assert!(matches!(read_date("20240229"), DateValue::Day(m) if m == at(19_782 * 86_400)));
    assert!(matches!(read_date(" 20240229 "), DateValue::Day(_)));
    assert!(matches!(read_date("20230229"), DateValue::Invalid));
    assert!(matches!(read_date("20241301"), DateValue::Invalid));
    assert!(matches!(
        read_date("20240229T010203Z"),
        DateValue::Utc(m) if m == at(19_782 * 86_400 + 3_723)
    ));
    assert!(matches!(read_date("20240229T250203Z"), DateValue::Invalid));
    assert!(matches!(
        read_date("19700101T000000"),
        DateValue::Floating(m) if m == at(0)
    ));
    // A leap second.
    assert!(matches!(
        read_date("20161231T235960Z"),
        DateValue::Utc(m) if m.secs == 1_483_228_799 && m.nanos == 1_000_000_000
    ));
    assert!(matches!(read_date("tomorrow"), DateValue::Invalid));
    assert!(matches!(read_date("00000101"), DateValue::Day(m) if m.secs == -719_528 * 86_400));
    assert!(matches!(read_date("99991231"), DateValue::Day(m) if m.secs == 253_402_214_400));
}

#[test]
fn only_wall_clock_times_need_a_zone() {
    assert_eq!(resolve(DateValue::Invalid, Some(at(1))), None);
    assert_eq!(resolve(DateValue::Day(at(5)), None), Some((at(5), true)));
    assert_eq!(resolve(DateValue::Utc(at(5)), None), Some((at(5), false)));
    assert_eq!(resolve(DateValue::Floating(at(5)), None), None);
    assert_eq!(resolve(DateValue::Floating(at(5)), Some(at(6))), Some((at(6), false)));
    assert_eq!(parse_dt("20240229T010203Z"), Some((at(19_782 * 86_400 + 3_723), false)));
    // A wall-clock time is less than a day from the same reading in UTC.
    if let Some((m, all_day)) = parse_dt("20240115T120000") {
        assert!(!all_day);
        assert!((m.secs - (1_705_320_000)).abs() < 86_400);
    }
}

#[test]
fn events_are_scanned() {
    let content = "BEGIN:VCALENDAR\r\nSUMMARY:outside\r\nBEGIN:VEVENT\r\nSUMMARY:One\\, two\r\n\
DTSTART:20240101T100000Z\r\nDTSTART:20240101T110000Z\r\nDTEND:20240101T120000Z\r\nEND:VEVENT\r\n\
BEGIN:VEVENT\r\nSUMMARY:No start\r\nEND:VEVENT\r\n\
BEGIN:VEVENT\r\nDTSTART;VALUE=DATE:20240102\r\nSUMMARY:All day\r\nEND:VEVENT\r\nEND:VEVENT\r\n";
    let records = scan_ics(content);
    assert_eq!(records.len(), 2);
    assert_eq!(records[0].summary, "One, two");
    assert_eq!(records[0].start, "20240101T110000Z");
    assert_eq!(records[0].end.as_deref(), Some("20240101T120000Z"));
    assert_eq!(records[1].summary, "All day");
    assert_eq!(records[1].end, None);

    let events = parse_ics(content);
    assert_eq!(events.len(), 2);
    assert_eq!(events[0].start, at(1_704_106_800));
    assert_eq!(events[0].end_explicit, Some(at(1_704_110_400)));
    assert!(!events[0].all_day);
    assert!(events[1].all_day);

    // A record whose start is invalid is left out.
    let starts = vec![None, Some((at(7), true))];
    let ends = vec![None, None];
    let some = assemble(&records, &starts, &ends);
    assert_eq!(some.len(), 1);
    assert_eq!(some[0].summary, "All day");
}

#[test]
fn events_without_an_end() {
    assert_eq!(event("x", 100, Some(50), false).effective_end(), at(50));
    assert_eq!(event("x", 100, None, false).effective_end(), at(100));
    assert_eq!(event("x", 86_400, None, true).effective_end(), at(2 * 86_400));
}

#[test]
fn events_are_published_in_rfc_3339() {
    let e = event("Party", 1_704_106_800, Some(1_704_110_400), false).to_calendar_event();
    assert_eq!(e.summary, "Party");
    assert_eq!(e.start, "2024-01-01T11:00:00+00:00");
    assert_eq!(e.end.as_deref(), Some("2024-01-01T12:00:00+00:00"));
    let mut precise = event("P", 0, None, false);
    precise.start.nanos = 5_000_000;
    assert_eq!(precise.to_calendar_event().start, "1970-01-01T00:00:00.005+00:00");
}

#[test]
fn calendar_files_are_told_by_their_extension() {
    assert!(is_calendar_file("/home/me/cal/work.ics"));
    assert!(!is_calendar_file("/home/me/cal/work.ICS"));
    assert!(!is_calendar_file("/home/me/cal/ics"));
}

#[test]
fn all_events_are_ordered_by_start() {
    let file = |summary: &str, start: &str| {
        format!("BEGIN:VEVENT\nSUMMARY:{}\nDTSTART:{}\nEND:VEVENT\n", summary, start)
    };
    let contents = vec![
        file("late", "20240103T000000Z") + &file("same a", "20240102T000000Z"),
        file("same b", "20240102T000000Z") + &file("early", "20240101T000000Z"),
    ];
    let names: Vec<String> = load_events(&contents).into_iter().map(|e| e.summary).collect();
    assert_eq!(names, vec!["early", "same a", "same b", "late"]);
}

#[test]
fn the_current_and_the_next_event() {
    let events = vec![
        event("a", 100, Some(200), false),
        event("b", 150, Some(400), false),
        event("d", 600, None, false),
        event("c", 500, None, false),
        event("c2", 500, None, false),
    ];
    assert_eq!(current_event(&events, at(99)).map(|e| e.summary), None);
    assert_eq!(current_event(&events, at(100)).map(|e| e.summary).as_deref(), Some("a"));
    assert_eq!(current_event(&events, at(199)).map(|e| e.summary).as_deref(), Some("a"));
    assert_eq!(current_event(&events, at(200)).map(|e| e.summary).as_deref(), Some("b"));
    assert_eq!(current_event(&events, at(500)).map(|e| e.summary), None);
    assert_eq!(next_event(&events, at(0)).map(|e| e.summary).as_deref(), Some("a"));
    assert_eq!(next_event(&events, at(150)).map(|e| e.summary).as_deref(), Some("c"));
    assert_eq!(next_event(&events, at(500)).map(|e| e.summary).as_deref(), Some("d"));
    assert_eq!(next_event(&events, at(600)).map(|e| e.summary), None);
}

#[test]
fn the_calendar_is_published_on_change() {
    let events = vec![event("a", 100, Some(200), false), event("b", 300, Some(400), false)];
    let mut watch = CalendarWatch::new();
    // The first look is always published.
    match watch.observe(&vec![], at(0), 9) {
        Some(Event::Calendar { current_event, next_event, timestamp }) => {
            assert!(current_event.is_none() && next_event.is_none());
            assert_eq!(timestamp, 9);
        }
        _ => panic!("published"),
    }
    assert!(watch.observe(&vec![], at(1), 9).is_none());
    assert!(watch.observe(&events, at(120), 9).is_some());
    assert!(watch.observe(&events, at(130), 9).is_none());
    match watch.observe(&events, at(250), 10) {
        Some(Event::Calendar { current_event, next_event, .. }) => {
            assert!(current_event.is_none());
            assert_eq!(next_event.unwrap().summary, "b");
        }
        _ => panic!("published"),
    }
}

#[test]
fn meetings_are_told_apart_by_name_and_start() {
    let meeting = |start: &str, end: Option<&str>| {
        Some(CalendarEvent {
            summary: "standup".to_string(),
            start: start.to_string(),
            end: end.map(|e| e.to_string()),
        })
    };
    let mut watch = CalendarWatch::new();
    assert!(watch.publish(meeting("9:00", None), None, 1).is_some());
    assert!(watch.publish(meeting("9:00", Some("9:15")), None, 2).is_none());
    assert!(watch.publish(meeting("9:30", None), None, 3).is_some());
    assert!(watch.publish(None, meeting("9:30", None), 4).is_some());
}

#[test]
fn moments_are_never_current() {
    let events = vec![event("deploy", 500, None, false)];
    for now in [499, 500, 501] {
        assert!(current_event(&events, at(now)).is_none());
    }
    let day = vec![event("holiday", 0, None, true)];
    assert_eq!(current_event(&day, at(86_399)).unwrap().summary, "holiday");
    assert!(current_event(&day, at(86_400)).is_none());
}
