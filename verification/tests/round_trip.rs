use std::io::Cursor;

use calamine_styles::{Data, Reader, Xlsx};
use rust_xlsxwriter::{Format, Workbook};
use zip::ZipArchive;

use chrono::{Datelike, Timelike};

use xlsx_engine::book::CellPayload;
use xlsx_engine::cell::{CellValue, RawData, cell_value_of};
use xlsx_engine::iso::DateTimeParts;
use xlsx_engine::plan::{cell_op_for, num_format_for, CellOpKind};
use xlsx_engine::scan::{parse_formulas, formula_for};
use xlsx_engine::xml::tokenize;

fn payload(t: &str, v: Option<&str>, f: Option<&str>) -> CellPayload {
    CellPayload {
        type_str: String::from(t),
        value: v.map(String::from),
        formula: f.map(String::from),
    }
}

/// Perform one planned write against a real worksheet.
fn apply_op(
    ws: &mut rust_xlsxwriter::Worksheet,
    row: u32,
    col: u16,
    op: &CellOpKind,
    format: &Format,
) {
    match op {
        CellOpKind::Blank => {
            ws.write_blank(row, col, format).unwrap();
        },
        CellOpKind::Str(s) => {
            ws.write_string_with_format(row, col, s, format).unwrap();
        },
        CellOpKind::NumberText(t) => {
            let v: f64 = t.parse().unwrap();
            ws.write_number_with_format(row, col, v, format).unwrap();
        },
        CellOpKind::BoolVal(b) => {
            ws.write_boolean_with_format(row, col, *b, format).unwrap();
        },
        CellOpKind::FormulaText(t) => {
            ws.write_formula_with_format(row, col, t.as_str(), format).unwrap();
        },
        CellOpKind::DateVal(p) | CellOpKind::DateTimeVal(p) => {
            let d = rust_xlsxwriter::ExcelDateTime::from_ymd(
                p.year as u16,
                p.month as u8,
                p.day as u8,
            )
            .unwrap()
            .and_hms(p.hour as u16, p.minute as u8, p.second as f64)
            .unwrap();
            ws.write_datetime_with_format(row, col, &d, format).unwrap();
        },
    }
}

/// The decoded value as the library's plain mirror.
fn raw_of(v: &Data) -> RawData {
    match v {
        Data::Empty => RawData::Empty,
        Data::String(s) => RawData::Text(s.clone()),
        Data::Float(f) => RawData::Number(f.to_string()),
        Data::Int(i) => RawData::Number((*i as f64).to_string()),
        Data::Bool(b) => RawData::Bool(*b),
        Data::DateTime(dt) => {
            let parts = dt.as_datetime().map(|ndt| DateTimeParts {
                year: ndt.year() as u32,
                month: ndt.month(),
                day: ndt.day(),
                hour: ndt.hour(),
                minute: ndt.minute(),
                second: ndt.second(),
            });
            RawData::Serial(parts, dt.as_f64().to_string())
        },
        Data::DateTimeIso(s) => RawData::Iso(s.clone()),
        Data::DurationIso(s) => RawData::Text(s.clone()),
        Data::RichText(rt) => RawData::Text(rt.plain_text()),
        Data::Error(e) => RawData::ErrorCode(format!("{e:?}")),
    }
}

#[test]
fn write_then_read_reproduces_each_type() {
    // Stage one cell of each declared type, write the plan through the
    // real writer library into memory, and read the bytes back through
    // the real value oracle plus the library's own formula scan.
    let cells: Vec<(u32, CellPayload)> = vec![
        (0, payload("number", Some("42.5"), None)),
        (1, payload("string", Some("hello"), None)),
        (2, payload("boolean", Some("true"), None)),
        (3, payload("date", Some("2024-01-02"), None)),
        (4, payload("datetime", Some("2024-01-02T03:04:05"), None)),
        (5, payload("formula", None, Some("=A1*2"))),
        (6, payload("error", Some("#DIV/0!"), None)),
    ];
    let mut wb = Workbook::new();
    let mut ws = rust_xlsxwriter::Worksheet::new();
    ws.set_name("S").unwrap();
    for (row, p) in &cells {
        let op = cell_op_for(p).unwrap();
        let mut format = Format::new();
        if let Some(nf) = num_format_for(&p.type_str, None) {
            format = format.set_num_format(&nf);
        }
        apply_op(&mut ws, *row, 0, &op, &format);
    }
    wb.push_worksheet(ws);
    let bytes = wb.save_to_buffer().unwrap();

    // The formula map comes from the worksheet part itself.
    let mut zip = ZipArchive::new(Cursor::new(bytes.clone())).unwrap();
    let mut sheet_xml = String::new();
    std::io::Read::read_to_string(
        &mut zip.by_name("xl/worksheets/sheet1.xml").unwrap(),
        &mut sheet_xml,
    )
    .unwrap();
    let formulas = parse_formulas(&tokenize(&sheet_xml).unwrap());

    let mut book: Xlsx<Cursor<Vec<u8>>> = Xlsx::new(Cursor::new(bytes)).unwrap();
    let range = book.worksheet_range("S").unwrap();
    let read = |row: u32, formulas: &Vec<xlsx_engine::scan::FormulaEntry>| -> CellValue {
        let raw = range.get_value((row, 0)).map(raw_of);
        let formula = formula_for(formulas, row, 0);
        cell_value_of(formula.as_ref(), raw.as_ref())
    };

    match read(0, &formulas) {
        CellValue::Number(t) => assert_eq!(t, "42.5"),
        _ => panic!("number did not round trip"),
    }
    match read(1, &formulas) {
        CellValue::Text(t) => assert_eq!(t, "hello"),
        _ => panic!("string did not round trip"),
    }
    match read(2, &formulas) {
        CellValue::Boolean(b) => assert!(b),
        _ => panic!("boolean did not round trip"),
    }
    match read(3, &formulas) {
        CellValue::Date(t) => assert_eq!(t, "2024-01-02"),
        _ => panic!("date did not round trip"),
    }
    match read(4, &formulas) {
        CellValue::DateTime(t) => assert_eq!(t, "2024-01-02T03:04:05"),
        _ => panic!("datetime did not round trip"),
    }
    match read(5, &formulas) {
        CellValue::Formula(t) => assert_eq!(t, "=A1*2"),
        _ => panic!("formula did not round trip"),
    }
    // The whitelisted error token was written as its literal formula
    // and reads back as the same error value.
    match read(6, &formulas) {
        CellValue::Error(t) => assert_eq!(t, "#DIV/0!"),
        _ => panic!("error did not round trip"),
    }
}

#[test]
fn header_only_table_part_is_patchable_to_single_row() {
    // Register a header-only table the way the save pass does: two rows
    // for the writer library, then the queued patch restores the
    // single-row reference inside the table part.
    let t = xlsx_engine::book::TablePayload {
        sheet: String::from("S"),
        name: String::from("Orders"),
        ref_range: String::from("A1:B1"),
        style: None,
        columns: vec![String::from("x"), String::from("y")],
        totals_row: false,
        autofilter: None,
        header_row: true,
    };
    let (op, patch) = xlsx_engine::plan::table_op_for(&t).unwrap();
    let (_, new_ref) = patch.unwrap();

    let mut wb = Workbook::new();
    let mut ws = rust_xlsxwriter::Worksheet::new();
    ws.set_name("S").unwrap();
    let cols = [
        rust_xlsxwriter::TableColumn::new().set_header("x"),
        rust_xlsxwriter::TableColumn::new().set_header("y"),
    ];
    let table = rust_xlsxwriter::Table::new().set_name("Orders").set_columns(&cols);
    ws.add_table(op.first_row, op.first_col, op.last_row_for_add, op.last_col, &table).unwrap();
    wb.push_worksheet(ws);
    let bytes = wb.save_to_buffer().unwrap();

    let mut zip = ZipArchive::new(Cursor::new(bytes)).unwrap();
    let mut table_xml = String::new();
    std::io::Read::read_to_string(&mut zip.by_name("xl/tables/table1.xml").unwrap(), &mut table_xml)
        .unwrap();
    // The writer library had to register two rows.
    assert!(table_xml.contains("ref=\"A1:B2\""));
    let evs = tokenize(&table_xml).unwrap();
    assert_eq!(xlsx_engine::patch::extract_table_name(&evs), Some(String::from("Orders")));
    let patched = xlsx_engine::patch::patch_table_events(&evs, &new_ref);
    let text = xlsx_engine::xml::render_events(&patched);
    assert!(text.contains("ref=\"A1:B1\""));
    assert!(!text.contains("A1:B2"));
}

#[test]
fn split_pane_patch_applies_to_writer_output() {
    // Write the freeze approximation of a split, then rewrite the sheet
    // view as the post-save patch does.
    let (frow, fcol, px, py) = xlsx_engine::plan::split_plan_for(2, 3).unwrap().unwrap();
    let mut wb = Workbook::new();
    let mut ws = rust_xlsxwriter::Worksheet::new();
    ws.set_name("S").unwrap();
    ws.write_number(0, 0, 1.0).unwrap();
    ws.set_freeze_panes(frow, fcol).unwrap();
    wb.push_worksheet(ws);
    let bytes = wb.save_to_buffer().unwrap();

    let mut zip = ZipArchive::new(Cursor::new(bytes)).unwrap();
    let mut sheet_xml = String::new();
    std::io::Read::read_to_string(
        &mut zip.by_name("xl/worksheets/sheet1.xml").unwrap(),
        &mut sheet_xml,
    )
    .unwrap();
    assert!(sheet_xml.contains("frozen"));
    let evs = tokenize(&sheet_xml).unwrap();
    let patched = xlsx_engine::patch::patch_split_events(&evs, px, py);
    let text = xlsx_engine::xml::render_events(&patched);
    assert!(text.contains("<pane xSplit=\"2\" ySplit=\"3\" activePane=\"topLeft\" state=\"split\"/>"));
    assert_eq!(text.matches("<pane").count(), 1);
    assert_eq!(text.matches("<selection").count(), 1);
    assert!(!text.contains("frozen"));
}
