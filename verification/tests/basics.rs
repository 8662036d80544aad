use activity_monitor::arithmetic::{ema, Operation};
use activity_monitor::json::{Json, Number};
use activity_monitor::number::{parse_number, render, render_signed};
use activity_monitor::path::{extension, file_name, parent, same_path, starts_with};
use activity_monitor::quantity::{
    Quantity, FIFTEEN, FORTY_FIVE, FOUR, HUNDRED, ONE, POINT_02, POINT_1, POINT_15, POINT_2,
    POINT_25, POINT_3, POINT_35, POINT_4, POINT_5, POINT_6, POINT_7, POINT_75, POINT_8, POINT_95,
    SIXTY, SIX_HUNDRED, TEN, THIRTY, TWENTY, TWENTY_EIGHT, TWENTY_FIVE, ZERO,
};
use activity_monitor::table::Table;
use activity_monitor::text::{join, replace, split_lines, split_on, split_words, trim};

#[test]
fn bit_patterns_are_those_of_the_numbers() {
    let all = [
        (ZERO, 0.0f64),
        (POINT_02, 0.02),
        (POINT_1, 0.1),
        (POINT_15, 0.15),
        (POINT_2, 0.2),
        (POINT_25, 0.25),
        (POINT_3, 0.3),
        (POINT_35, 0.35),
        (POINT_4, 0.4),
        (POINT_5, 0.5),
        (POINT_6, 0.6),
        (POINT_7, 0.7),
        (POINT_75, 0.75),
        (POINT_8, 0.8),
        (POINT_95, 0.95),
        (ONE, 1.0),
        (FOUR, 4.0),
        (TEN, 10.0),
        (FIFTEEN, 15.0),
        (TWENTY, 20.0),
        (TWENTY_FIVE, 25.0),
        (TWENTY_EIGHT, 28.0),
        (THIRTY, 30.0),
        (FORTY_FIVE, 45.0),
        (SIXTY, 60.0),
        (HUNDRED, 100.0),
        (SIX_HUNDRED, 600.0),
    ];
    for (bits, x) in all {
        assert_eq!(bits, x.to_bits());
    }
}

#[test]
fn quantities_are_ordered_as_doubles() {
    let xs = [-1e300, -2.5, -0.0, 0.0, 1e-300, 0.5, 2.0, 1e300];
    for a in xs {
        for b in xs {
            let qa = Quantity { bits: f64::to_bits(a) };
            let qb = Quantity { bits: f64::to_bits(b) };
            assert_eq!(qa.less(qb), a < b);
        }
    }
}

#[test]
fn moving_averages_ask_for_each_operation() {
    let calc = |op: Operation, a: u64, b: u64| {
        let (x, y) = (f64::from_bits(a), f64::from_bits(b));
        match op {
            Operation::Add => (x + y).to_bits(),
            Operation::Subtract => (x - y).to_bits(),
            Operation::Multiply => (x * y).to_bits(),
            _ => 0,
        }
    };
    let q = |x: f64| Quantity { bits: x.to_bits() };
    let r = ema(calc, q(0.5), q(1.0), q(0.3));
    assert_eq!(f64::from_bits(r.bits), 0.5 * (1.0 - 0.3) + 1.0 * 0.3);
}

#[test]
fn tables_hold_each_name_once() {
    let mut t: Table<u64> = Table::new();
    t.set("a", 1);
    t.set("b", 2);
    t.set("a", 3);
    assert_eq!(t.entries.len(), 2);
    assert_eq!(t.get("a"), Some(&3));
    assert_eq!(t.get("c"), None);
    t.tally("c");
    t.tally("a");
    assert_eq!((t.get("c"), t.get("a")), (Some(&1), Some(&4)));
}

#[test]
fn numbers_are_written_and_read() {
    assert_eq!(render(0), "0");
    assert_eq!(render(u64::MAX), "18446744073709551615");
    assert_eq!(render_signed(-42), "-42");
    assert_eq!(render_signed(i64::MIN), "-9223372036854775808");
    assert_eq!(parse_number("0BD6", 16, u16::MAX as u64), Some(3030));
    assert_eq!(parse_number("+12", 10, 100), Some(12));
    assert_eq!(parse_number("101", 10, 100), None);
    assert_eq!(parse_number("", 10, 100), None);
    assert_eq!(parse_number("18446744073709551616", 10, u64::MAX), None);
}

#[test]
fn texts_are_cut_up() {
    assert_eq!(split_words("  a\tb  c "), vec!["a", "b", "c"]);
    assert_eq!(split_lines("a\r\nb\n\nc"), vec!["a", "b", "", "c"]);
    assert_eq!(split_on("a - b - c", " - "), vec!["a", "b", "c"]);
    assert_eq!(replace("a.b.c", ".", "::"), "a::b::c");
    assert_eq!(join(&vec!["x".to_string(), "y".to_string()], ", "), "x, y");
    assert_eq!(trim("\u{2003} x \n"), "x");
}

#[test]
fn paths_are_taken_apart() {
    assert_eq!(file_name("/a/b.c").as_deref(), Some("b.c"));
    assert_eq!(file_name("/"), None);
    assert_eq!(extension("/a/b.tar.gz").as_deref(), Some("gz"));
    assert_eq!(extension("/a/.hidden"), None);
    assert_eq!(parent("/a/b").as_deref(), Some("/a"));
    assert_eq!(parent("/"), None);
    assert!(same_path("/a//b/", "/a/./b"));
    assert!(!same_path("a/b", "/a/b"));
    assert!(starts_with("/a/b/c", "/a/b"));
    assert!(!starts_with("/a/bc", "/a/b"));
}

#[test]
fn json_is_looked_up() {
    let j = Json::Object(vec![
        ("t".to_string(), Json::Text("x".to_string())),
        ("n".to_string(), Json::Number(Number::Natural(3))),
        ("i".to_string(), Json::Number(Number::Negative(-3))),
        ("b".to_string(), Json::Bool(true)),
        ("l".to_string(), Json::Array(vec![Json::Null])),
    ]);
    assert_eq!(j.get_text("t").as_deref(), Some("x"));
    assert_eq!(j.get_text("n"), None);
    assert_eq!(j.get_natural("n"), Some(3));
    assert_eq!(j.get_natural("i"), None);
    assert_eq!(j.get_integer("i"), Some(-3));
    assert_eq!(j.get_integer("n"), Some(3));
    assert_eq!(j.get_boolean("b"), Some(true));
    assert_eq!(j.get_array("l").map(|l| l.len()), Some(1));
    assert_eq!(j.get_text_or("z", "d"), "d");
    assert!(Json::Null.get("x").is_none());
}
