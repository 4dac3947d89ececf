use xlsx_engine::cell::{RawData, CellValue, PlainValue, cell_value_of, cell_value_single,
    classify_raw_data, formula_cell_value, plain_value_of};
use xlsx_engine::iso::DateTimeParts;

fn text(s: &str) -> String {
    String::from(s)
}

#[test]
fn formula_priority_and_whitelist() {
    // A whitelisted formula reads back as an error value.
    let f = text("1/0");
    match cell_value_of(Some(&f), None) {
        CellValue::Error(t) => assert_eq!(t, "#DIV/0!"),
        _ => panic!("expected an error value"),
    }
    // Any other formula reads back as a formula, never an error.
    let g = text("A3*2");
    match cell_value_of(Some(&g), None) {
        CellValue::Formula(t) => assert_eq!(t, "=A3*2"),
        _ => panic!("expected a formula value"),
    }
    // A leading = is not doubled.
    let h = text("=SUM(A1:A3)");
    match formula_cell_value(&h) {
        CellValue::Formula(t) => assert_eq!(t, "=SUM(A1:A3)"),
        _ => panic!("expected a formula value"),
    }
}

#[test]
fn single_cell_blank_wins_without_value() {
    // The single-cell reader answers blank for a cell without a stored
    // value even when the formula map has an entry.
    let f = text("=1/0");
    match cell_value_single(Some(&f), None) {
        CellValue::Blank => {},
        _ => panic!("expected blank"),
    }
}

#[test]
fn raw_values_classify() {
    match classify_raw_data(&RawData::Empty) {
        CellValue::Blank => {},
        _ => panic!("blank"),
    }
    match classify_raw_data(&RawData::Text(text("hi"))) {
        CellValue::Text(s) => assert_eq!(s, "hi"),
        _ => panic!("text"),
    }
    match classify_raw_data(&RawData::Number(text("3.5"))) {
        CellValue::Number(s) => assert_eq!(s, "3.5"),
        _ => panic!("number"),
    }
    match classify_raw_data(&RawData::Bool(true)) {
        CellValue::Boolean(b) => assert!(b),
        _ => panic!("bool"),
    }
    match classify_raw_data(&RawData::ErrorCode(text("Div0"))) {
        CellValue::Error(t) => assert_eq!(t, "#DIV/0!"),
        _ => panic!("error"),
    }
}

#[test]
fn serials_split_on_midnight() {
    let midnight = DateTimeParts { year: 2024, month: 1, day: 2, hour: 0, minute: 0, second: 0 };
    match classify_raw_data(&RawData::Serial(Some(midnight), text("45293"))) {
        CellValue::Date(s) => assert_eq!(s, "2024-01-02"),
        _ => panic!("date"),
    }
    let noon = DateTimeParts { year: 2024, month: 1, day: 2, hour: 12, minute: 0, second: 0 };
    match classify_raw_data(&RawData::Serial(Some(noon), text("45293.5"))) {
        CellValue::DateTime(s) => assert_eq!(s, "2024-01-02T12:00:00"),
        _ => panic!("datetime"),
    }
    match classify_raw_data(&RawData::Serial(None, text("1e300"))) {
        CellValue::Number(s) => assert_eq!(s, "1e300"),
        _ => panic!("number"),
    }
}

#[test]
fn iso_text_follows_midnight_rule() {
    match classify_raw_data(&RawData::Iso(text("2024-01-02"))) {
        CellValue::Date(s) => assert_eq!(s, "2024-01-02"),
        _ => panic!("date"),
    }
    match classify_raw_data(&RawData::Iso(text("2024-01-02T00:00:00Z"))) {
        CellValue::Date(s) => assert_eq!(s, "2024-01-02"),
        _ => panic!("date from midnight datetime"),
    }
    match classify_raw_data(&RawData::Iso(text("2024-01-02T03:04:05"))) {
        CellValue::DateTime(s) => assert_eq!(s, "2024-01-02T03:04:05"),
        _ => panic!("datetime"),
    }
    match classify_raw_data(&RawData::Iso(text("not a date"))) {
        CellValue::Text(s) => assert_eq!(s, "not a date"),
        _ => panic!("raw text fallback"),
    }
}

#[test]
fn plain_values_drop_the_wrapper() {
    let f = text("=1/0");
    match plain_value_of(Some(&f), None) {
        PlainValue::Text(t) => assert_eq!(t, "#DIV/0!"),
        _ => panic!("whitelisted error formula surfaces its token"),
    }
    let g = text("A3*2");
    match plain_value_of(Some(&g), None) {
        PlainValue::Text(t) => assert_eq!(t, "=A3*2"),
        _ => panic!("formula surfaces its text"),
    }
    let midnight = DateTimeParts { year: 2024, month: 1, day: 2, hour: 0, minute: 0, second: 0 };
    match plain_value_of(None, Some(&RawData::Serial(Some(midnight), text("x")))) {
        PlainValue::Date(p) => assert_eq!((p.year, p.month, p.day), (2024, 1, 2)),
        _ => panic!("midnight serial is a plain date"),
    }
    match plain_value_of(None, None) {
        PlainValue::Null => {},
        _ => panic!("no value is null"),
    }
    match plain_value_of(None, Some(&RawData::ErrorCode(text("REF")))) {
        PlainValue::Text(t) => assert_eq!(t, "#REF!"),
        _ => panic!("errors surface their token"),
    }
}
