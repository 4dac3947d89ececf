use xlsx_engine::addr::{a1_to_row_col, row_col_to_a1, parse_a1_range, col_letter_to_index,
    quote_sheet_name, AddrError};
use xlsx_engine::errtok::{normalize_error_token, map_error_formula, error_token_to_formula};
use xlsx_engine::width::{strip_excel_padding, custom_col_width, custom_row_height};
use xlsx_engine::iso::{parse_iso_date, parse_iso_datetime, format_date, format_datetime,
    DateTimeParts};

#[test]
fn a1_round_trip_simple() {
    assert_eq!(a1_to_row_col("A1"), Ok((0, 0)));
    assert_eq!(row_col_to_a1(0, 0), "A1");
    assert_eq!(a1_to_row_col("B2"), Ok((1, 1)));
    assert_eq!(row_col_to_a1(1, 1), "B2");
}

#[test]
fn a1_round_trip_multi_letter() {
    assert_eq!(a1_to_row_col("AA1"), Ok((0, 26)));
    assert_eq!(row_col_to_a1(0, 26), "AA1");
    assert_eq!(a1_to_row_col("XFD1048576"), Ok((1048575, 16383)));
    assert_eq!(row_col_to_a1(1048575, 16383), "XFD1048576");
    assert_eq!(a1_to_row_col("ZZ99"), Ok((98, 701)));
    assert_eq!(row_col_to_a1(98, 701), "ZZ99");
}

#[test]
fn a1_accepts_lowercase() {
    assert_eq!(a1_to_row_col("aa1"), Ok((0, 26)));
}

#[test]
fn a1_rejects_malformed() {
    assert_eq!(a1_to_row_col(""), Err(AddrError::Malformed));
    assert_eq!(a1_to_row_col("A"), Err(AddrError::Malformed));
    assert_eq!(a1_to_row_col("1"), Err(AddrError::Malformed));
    assert_eq!(a1_to_row_col("A0"), Err(AddrError::Malformed));
    assert_eq!(a1_to_row_col("A1B"), Err(AddrError::Malformed));
    assert_eq!(a1_to_row_col("$A$1"), Err(AddrError::Malformed));
}

#[test]
fn a1_range_parses_and_orders() {
    assert_eq!(parse_a1_range("A1:B2"), Ok((0, 0, 1, 1)));
    assert_eq!(parse_a1_range("B2:A1"), Ok((0, 0, 1, 1)));
    assert_eq!(parse_a1_range("$A$1:$B$2"), Ok((0, 0, 1, 1)));
    assert_eq!(parse_a1_range("C3"), Ok((2, 2, 2, 2)));
    assert_eq!(parse_a1_range("a1:b2"), Ok((0, 0, 1, 1)));
    assert!(parse_a1_range("A1:").is_err());
}

#[test]
fn column_letters() {
    assert_eq!(col_letter_to_index("A"), Ok(0));
    assert_eq!(col_letter_to_index("Z"), Ok(25));
    assert_eq!(col_letter_to_index("AA"), Ok(26));
    assert_eq!(col_letter_to_index("aa"), Ok(26));
    assert_eq!(col_letter_to_index(""), Err(AddrError::Malformed));
    assert_eq!(col_letter_to_index("A1"), Err(AddrError::Malformed));
}

#[test]
fn sheet_name_quoting() {
    assert_eq!(quote_sheet_name("Data"), "Data");
    assert_eq!(quote_sheet_name("My Sheet"), "'My Sheet'");
    assert_eq!(quote_sheet_name("It's"), "'It''s'");
}

#[test]
fn error_tokens_normalize() {
    assert_eq!(normalize_error_token("DIV0"), "#DIV/0!");
    assert_eq!(normalize_error_token("div/0"), "#DIV/0!");
    assert_eq!(normalize_error_token("#N/A"), "#N/A");
    assert_eq!(normalize_error_token("na"), "#N/A");
    assert_eq!(normalize_error_token("VALUE"), "#VALUE!");
    assert_eq!(normalize_error_token("REF"), "#REF!");
    assert_eq!(normalize_error_token("NAME"), "#NAME?");
    assert_eq!(normalize_error_token("NUM"), "#NUM!");
    assert_eq!(normalize_error_token("NULL"), "#NULL!");
    assert_eq!(normalize_error_token("bogus"), "#ERROR!");
}

#[test]
fn error_formula_whitelist_round_trip() {
    assert_eq!(map_error_formula("=1/0"), Some(String::from("#DIV/0!")));
    assert_eq!(map_error_formula("=NA()"), Some(String::from("#N/A")));
    assert_eq!(map_error_formula("=na()"), Some(String::from("#N/A")));
    assert_eq!(map_error_formula("=\"text\"+1"), Some(String::from("#VALUE!")));
    assert_eq!(map_error_formula(" =1/0 "), Some(String::from("#DIV/0!")));
    assert_eq!(map_error_formula("=A3*2"), None);
    assert_eq!(map_error_formula("=1/0+0"), None);

    assert_eq!(error_token_to_formula("#DIV/0!"), Some(String::from("=1/0")));
    assert_eq!(error_token_to_formula("#N/A"), Some(String::from("=NA()")));
    assert_eq!(error_token_to_formula("#VALUE!"), Some(String::from("=\"text\"+1")));
    assert_eq!(error_token_to_formula("#REF!"), None);

    for tok in ["#DIV/0!", "#N/A", "#VALUE!"] {
        let f = error_token_to_formula(tok).unwrap();
        assert_eq!(map_error_formula(&f), Some(String::from(tok)));
    }
}

#[test]
fn width_depadding() {
    // 10 + 0.83203125 stored; the authored width 10 comes back.
    let raw = (10.0f64 + 0.83203125) * 1e8;
    assert_eq!(strip_excel_padding(raw.round() as u64), 10_0000_0000u64);
    // The alternative padding is stripped too.
    let raw2 = (7.0f64 + 0.7109375) * 1e8;
    assert_eq!(strip_excel_padding(raw2.round() as u64), 7_0000_0000u64);
    // No matching fraction: rounded to four decimals only.
    let raw3 = (10.5f64) * 1e8;
    assert_eq!(strip_excel_padding(raw3.round() as u64), 10_5000_0000u64);
    let raw4 = (10.123456f64 * 1e8).round() as u64;
    assert_eq!(strip_excel_padding(raw4), 10_1235_0000u64);
}

#[test]
fn custom_layout_filters() {
    assert_eq!(custom_row_height(15_0000_0000, true), Some(15_0000_0000));
    assert_eq!(custom_row_height(15_0000_0000, false), None);
    assert_eq!(custom_col_width(10_8320_3125, true), Some(10_0000_0000));
    assert_eq!(custom_col_width(10_8320_3125, false), None);
}

#[test]
fn iso_dates_parse_and_format() {
    let d = parse_iso_date("2024-02-29").unwrap();
    assert_eq!((d.year, d.month, d.day), (2024, 2, 29));
    assert!(parse_iso_date("2023-02-29").is_none());
    assert!(parse_iso_date("2024-13-01").is_none());
    assert!(parse_iso_date("2024-1-1").is_none());
    let dt = parse_iso_datetime("2024-05-06T07:08:09").unwrap();
    assert_eq!((dt.hour, dt.minute, dt.second), (7, 8, 9));
    assert!(parse_iso_datetime("2024-05-06T24:00:00").is_none());
    let p = DateTimeParts { year: 2024, month: 5, day: 6, hour: 0, minute: 0, second: 0 };
    assert_eq!(format_date(&p), "2024-05-06");
    let q = DateTimeParts { year: 2024, month: 5, day: 6, hour: 7, minute: 8, second: 9 };
    assert_eq!(format_datetime(&q), "2024-05-06T07:08:09");
    assert_eq!(parse_iso_date(&format_date(&p)), Some(p));
    assert_eq!(parse_iso_datetime(&format_datetime(&q)), Some(q));
}
