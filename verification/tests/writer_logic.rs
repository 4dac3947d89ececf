use xlsx_engine::book::{WriterBook, CellPayload, BookError, BulkValue, FormatFields,
    BorderFields, NamedRangePayload, TablePayload};
use xlsx_engine::plan::{cell_op_for, CellOpKind, num_format_for, split_plan_for, table_op_for,
    named_range_entry, parse_hex_color, effective_format, BorderStyleTok, DiagKind};
use xlsx_engine::xml::{tokenize, render_events};
use xlsx_engine::patch::{patch_split_events, patch_table_events, make_split_pane, clone_event};
use xlsx_engine::readfmt::{BorderOut, BorderEdge};
use xlsx_engine::styles::DiagonalBorderInfo;

fn pl(t: &str, v: Option<&str>, f: Option<&str>) -> CellPayload {
    CellPayload {
        type_str: String::from(t),
        value: v.map(String::from),
        formula: f.map(String::from),
    }
}

#[test]
fn cell_ops_by_type() {
    assert!(matches!(cell_op_for(&pl("blank", None, None)), Ok(CellOpKind::Blank)));
    match cell_op_for(&pl("string", Some("hi"), None)) {
        Ok(CellOpKind::Str(s)) => assert_eq!(s, "hi"),
        _ => panic!("string"),
    }
    match cell_op_for(&pl("number", None, None)) {
        Ok(CellOpKind::NumberText(s)) => assert_eq!(s, "0"),
        _ => panic!("number default"),
    }
    match cell_op_for(&pl("boolean", Some("Yes"), None)) {
        Ok(CellOpKind::BoolVal(b)) => assert!(b),
        _ => panic!("boolean"),
    }
    match cell_op_for(&pl("boolean", Some("nope"), None)) {
        Ok(CellOpKind::BoolVal(b)) => assert!(!b),
        _ => panic!("boolean false"),
    }
    match cell_op_for(&pl("formula", Some("=A1"), Some("=A1+1"))) {
        Ok(CellOpKind::FormulaText(s)) => assert_eq!(s, "=A1+1"),
        _ => panic!("formula prefers the formula field"),
    }
    match cell_op_for(&pl("date", Some("2024-01-02"), None)) {
        Ok(CellOpKind::DateVal(p)) => assert_eq!((p.year, p.month, p.day), (2024, 1, 2)),
        _ => panic!("date"),
    }
    match cell_op_for(&pl("date", Some("bogus"), None)) {
        Ok(CellOpKind::Str(s)) => assert_eq!(s, "bogus"),
        _ => panic!("date fallback"),
    }
    assert!(matches!(
        cell_op_for(&pl("mystery", None, None)),
        Err(BookError::UnsupportedCellType)
    ));
}

#[test]
fn error_tokens_written_back_as_formulas() {
    match cell_op_for(&pl("error", Some("#DIV/0!"), None)) {
        Ok(CellOpKind::FormulaText(s)) => assert_eq!(s, "=1/0"),
        _ => panic!("whitelisted token"),
    }
    match cell_op_for(&pl("error", Some("#N/A"), None)) {
        Ok(CellOpKind::FormulaText(s)) => assert_eq!(s, "=NA()"),
        _ => panic!("whitelisted token"),
    }
    match cell_op_for(&pl("error", Some("#REF!"), None)) {
        Ok(CellOpKind::Str(s)) => assert_eq!(s, "#REF!"),
        _ => panic!("other tokens stay strings"),
    }
}

#[test]
fn date_number_format_defaults() {
    assert_eq!(num_format_for("date", None), Some(String::from("yyyy-mm-dd")));
    assert_eq!(num_format_for("datetime", None), Some(String::from("yyyy-mm-dd hh:mm:ss")));
    assert_eq!(num_format_for("number", None), None);
    let user = String::from("0.00");
    assert_eq!(num_format_for("date", Some(&user)), Some(String::from("0.00")));
}

#[test]
fn split_plans_clamp_and_skip() {
    assert_eq!(split_plan_for(2, 3), Ok(Some((3, 2, 2, 3))));
    assert_eq!(split_plan_for(-5, 3), Ok(Some((3, 0, 0, 3))));
    assert_eq!(split_plan_for(0, 0), Ok(None));
    assert_eq!(split_plan_for(-1, -2), Ok(None));
    assert!(split_plan_for(70000, 0).is_err());
}

#[test]
fn header_only_table_plans_two_rows_and_patch() {
    let t = TablePayload {
        sheet: String::from("S"),
        name: String::from("T1"),
        ref_range: String::from("A1:C1"),
        style: None,
        columns: vec![],
        totals_row: false,
        autofilter: None,
        header_row: true,
    };
    let (op, patch) = table_op_for(&t).unwrap();
    assert_eq!(op.first_row, 0);
    assert_eq!(op.last_row_for_add, 1);
    assert_eq!(op.last_col, 2);
    let (name, refr) = patch.unwrap();
    assert_eq!(name, "T1");
    assert_eq!(refr, "A1:C1");

    let t2 = TablePayload { ref_range: String::from("A1:C3"), ..t };
    let (op2, patch2) = table_op_for(&t2).unwrap();
    assert_eq!(op2.last_row_for_add, 2);
    assert!(patch2.is_none());
}

#[test]
fn named_ranges_quote_and_prefix() {
    let nr = NamedRangePayload {
        name: String::from("MyName"),
        scope: String::from("sheet"),
        sheet: Some(String::from("My Sheet")),
        refers_to: String::from("My Sheet!$A$1"),
    };
    let (name, refers) = named_range_entry(&nr);
    assert_eq!(name, "'My Sheet'!MyName");
    assert_eq!(refers, "=My Sheet!$A$1");
    let nr2 = NamedRangePayload {
        name: String::from("G"),
        scope: String::from("workbook"),
        sheet: None,
        refers_to: String::from("=Sheet1!$B$2"),
    };
    let (n2, r2) = named_range_entry(&nr2);
    assert_eq!(n2, "G");
    assert_eq!(r2, "=Sheet1!$B$2");
}

#[test]
fn hex_colors() {
    assert_eq!(parse_hex_color("#FF0000"), 0xFF0000);
    assert_eq!(parse_hex_color("00ff00"), 0x00FF00);
    assert_eq!(parse_hex_color("zzz"), 0);
}

#[test]
fn sheet_rename_is_transactional() {
    let mut b = WriterBook::new();
    b.add_sheet("Old").unwrap();
    b.add_sheet("Keep").unwrap();
    b.write_cell_value("Old", "A1", pl("number", Some("1"), None)).unwrap();
    b.write_cell_value("Keep", "B2", pl("string", Some("x"), None)).unwrap();
    b.set_row_height("Old", 3, 15_0000_0000).unwrap();
    b.merge_cells("Old", "A1:B2").unwrap();
    b.set_print_area("Old", "A1:C3").unwrap();

    assert_eq!(b.rename_sheet("Missing", "New"), Err(BookError::UnknownSheet));
    assert_eq!(b.rename_sheet("Old", "Keep"), Err(BookError::DuplicateSheetName));
    b.rename_sheet("Old", "New").unwrap();

    assert!(!b.contains_sheet("Old"));
    assert!(b.contains_sheet("New"));
    assert!(b.contains_sheet("Keep"));
    for r in &b.values {
        assert_ne!(r.sheet, "Old");
    }
    for r in &b.row_heights {
        assert_ne!(r.sheet, "Old");
    }
    for r in &b.merges {
        assert_ne!(r.sheet, "Old");
    }
    for r in &b.print_areas {
        assert_ne!(r.sheet, "Old");
    }
    // The value previously addressable at ("Old", 0, 0) is addressable
    // at ("New", 0, 0) with its content unchanged.
    let hit = b.values.iter().find(|r| r.sheet == "New" && r.row == 0 && r.col == 0).unwrap();
    assert_eq!(hit.payload.value, Some(String::from("1")));
    let kept = b.values.iter().find(|r| r.sheet == "Keep" && r.row == 1 && r.col == 1).unwrap();
    assert_eq!(kept.payload.value, Some(String::from("x")));
}

#[test]
fn save_is_one_shot() {
    let mut b = WriterBook::new();
    b.add_sheet("S").unwrap();
    assert_eq!(b.mark_saved(), Ok(()));
    assert_eq!(b.mark_saved(), Err(BookError::AlreadySaved));
    // The model is consumed: every mutator fails after the save.
    assert_eq!(b.add_sheet("T"), Err(BookError::AlreadySaved));
    assert_eq!(
        b.write_cell_value("S", "A1", pl("blank", None, None)),
        Err(BookError::AlreadySaved)
    );
    assert_eq!(b.set_print_area("S", "A1:B2"), Err(BookError::AlreadySaved));
    assert_eq!(b.rename_sheet("S", "T"), Err(BookError::AlreadySaved));
    assert_eq!(b.merge_cells("S", "A1:B2"), Err(BookError::AlreadySaved));
    assert_eq!(b.values.len(), 0);
}

#[test]
fn staging_rejects_unknown_sheets_and_bad_addresses() {
    let mut b = WriterBook::new();
    assert_eq!(
        b.write_cell_value("Nope", "A1", pl("blank", None, None)),
        Err(BookError::UnknownSheet)
    );
    b.add_sheet("S").unwrap();
    assert!(matches!(
        b.write_cell_value("S", "1A", pl("blank", None, None)),
        Err(BookError::BadAddress(_))
    ));
    // A silently skipped payload: a hyperlink without a target.
    let cell = String::from("A1");
    b.add_hyperlink("S", Some(&cell), None, None, None, false).unwrap();
    assert_eq!(b.hyperlinks.len(), 0);
}

#[test]
fn split_pane_patch_rewrites_sheet_view() {
    let xml = "<?xml version=\"1.0\"?><worksheet><sheetViews><sheetView tabSelected=\"1\">\
      <pane ySplit=\"3\" topLeftCell=\"A4\" activePane=\"bottomLeft\" state=\"frozen\"/>\
      <selection pane=\"bottomLeft\" activeCell=\"A4\" sqref=\"A4\"/>\
      </sheetView></sheetViews><sheetData/></worksheet>";
    let evs = tokenize(xml).unwrap();
    let out = patch_split_events(&evs, 2, 3);
    let text = render_events(&out);
    assert_eq!(
        text,
        "<?xml version=\"1.0\"?><worksheet><sheetViews><sheetView tabSelected=\"1\">\
         <pane xSplit=\"2\" ySplit=\"3\" activePane=\"topLeft\" state=\"split\"/>\
         <selection activeCell=\"A1\" sqref=\"A1\"/>\
         </sheetView></sheetViews><sheetData/></worksheet>"
    );
    assert_eq!(text.matches("<selection").count(), 1);
    assert_eq!(text.matches("<pane").count(), 1);
    assert!(!text.contains("frozen"));
}

#[test]
fn split_pane_patch_inserts_when_missing() {
    let xml = "<worksheet><sheetView/><sheetData/></worksheet>";
    let evs = tokenize(xml).unwrap();
    // A self-closing sheet view gets no insertion point; an open pair
    // does.
    let out = patch_split_events(&evs, 1, 0);
    assert_eq!(render_events(&out), xml);
    let xml2 = "<worksheet><sheetView></sheetView></worksheet>";
    let out2 = patch_split_events(&tokenize(xml2).unwrap(), 1, 0);
    assert_eq!(
        render_events(&out2),
        "<worksheet><sheetView><pane xSplit=\"1\" activePane=\"topLeft\" state=\"split\"/>\
         <selection activeCell=\"A1\" sqref=\"A1\"/></sheetView></worksheet>"
    );
    let pane = make_split_pane(2, 3);
    let _copy = clone_event(&pane);
}

#[test]
fn table_patch_restores_single_row_ref() {
    let xml = "<table id=\"1\" name=\"T1\" displayName=\"T1\" ref=\"A1:C2\">\
      <autoFilter ref=\"A1:C2\"/><tableColumns count=\"3\"/></table>";
    let evs = tokenize(xml).unwrap();
    let out = patch_table_events(&evs, "A1:C1");
    let text = render_events(&out);
    assert!(text.contains("<table id=\"1\" name=\"T1\" displayName=\"T1\" ref=\"A1:C1\">"));
    assert!(text.contains("<autoFilter ref=\"A1:C1\"/>"));
    assert!(!text.contains("A1:C2"));
    // Escaped attribute values survive the rebuild re-escaped.
    let xml2 = "<table name=\"a&amp;b\" ref=\"A1:A2\"/>";
    let out2 = patch_table_events(&tokenize(xml2).unwrap(), "A1:A1");
    assert_eq!(render_events(&out2), "<table name=\"a&amp;b\" ref=\"A1:A1\"/>");
}

#[test]
fn diagonal_fallback_fills_absent_edge() {
    let b = BorderOut {
        top: Some(BorderEdge { style: String::from("thin"), color: String::from("#000000") }),
        bottom: None,
        left: None,
        right: None,
        diagonal_up: None,
        diagonal_down: None,
    };
    let d = DiagonalBorderInfo {
        up: true,
        down: false,
        style: String::from("thin"),
        color: String::from("#FF0000"),
    };
    let r = b.apply_diagonal_fallback(Some(&d));
    let e = r.diagonal_up.unwrap();
    assert_eq!(e.style, "thin");
    assert_eq!(e.color, "#FF0000");
    assert!(r.diagonal_down.is_none());
    assert_eq!(r.top.unwrap().style, "thin");

    // A present edge is never overwritten.
    let b2 = BorderOut {
        top: None,
        bottom: None,
        left: None,
        right: None,
        diagonal_up: Some(BorderEdge { style: String::from("double"), color: String::from("#00FF00") }),
        diagonal_down: None,
    };
    let r2 = b2.apply_diagonal_fallback(Some(&d));
    assert_eq!(r2.diagonal_up.unwrap().style, "double");
}

#[test]
fn bulk_values_stage_with_offsets() {
    let mut b = WriterBook::new();
    b.add_sheet("S").unwrap();
    let items = vec![
        (0u32, 0u32, BulkValue::Num(String::from("1.5"))),
        (0u32, 2u32, BulkValue::Text(String::from("x"))),
        (1u32, 1u32, BulkValue::Bool(true)),
    ];
    b.write_sheet_values("S", "B2", items).unwrap();
    assert_eq!(b.values.len(), 3);
    assert_eq!((b.values[0].row, b.values[0].col), (1, 1));
    assert_eq!(b.values[0].payload.type_str, "number");
    assert_eq!(b.values[0].payload.value, Some(String::from("1.5")));
    assert_eq!((b.values[1].row, b.values[1].col), (1, 3));
    assert_eq!(b.values[1].payload.type_str, "string");
    assert_eq!((b.values[2].row, b.values[2].col), (2, 2));
    assert_eq!(b.values[2].payload.value, Some(String::from("true")));
    // An element past the column space stages nothing.
    let bad = vec![(0u32, 70000u32, BulkValue::Num(String::from("1")))];
    assert!(b.write_sheet_values("S", "A1", bad).is_err());
    assert_eq!(b.values.len(), 3);
}

#[test]
fn effective_format_decides_rotation_indent_and_diagonal() {
    let fmt = FormatFields {
        bold: Some(true),
        italic: None,
        underline: None,
        strikethrough: None,
        font_name: None,
        font_size_e8: None,
        font_color: None,
        bg_color: None,
        number_format: None,
        h_align: None,
        v_align: None,
        wrap: None,
        rotation: Some(45),
        indent: Some(300),
    };
    let bdr = BorderFields {
        top_style: Some(String::from("thin")),
        top_color: Some(String::from("#FF0000")),
        bottom_style: None,
        bottom_color: None,
        left_style: None,
        left_color: None,
        right_style: None,
        right_color: None,
        diagonal_up_style: Some(String::from("hair")),
        diagonal_up_color: None,
        diagonal_down_style: Some(String::from("double")),
        diagonal_down_color: Some(String::from("#00FF00")),
    };
    let e = effective_format("date", Some(&fmt), Some(&bdr)).unwrap();
    assert!(e.bold);
    assert_eq!(e.rotation, Some(45));
    // An indent outside the byte range is dropped silently.
    assert_eq!(e.indent, None);
    // An unset date number format defaults to the fixed pattern.
    assert_eq!(e.num_format, Some(String::from("yyyy-mm-dd")));
    let top = e.top.unwrap();
    assert_eq!(top.style, BorderStyleTok::Thin);
    assert_eq!(top.color, Some(0xFF0000));
    // With both diagonals staged, the down edge's style and color win.
    let (style, color, kind) = e.diagonal.unwrap();
    assert_eq!(style, BorderStyleTok::Double);
    assert_eq!(color, Some(0x00FF00));
    assert_eq!(kind, DiagKind::UpDown);
    // A rotation outside the writer's sixteen-bit range is fatal.
    let bad = FormatFields { rotation: Some(100000), ..fmt };
    assert!(effective_format("number", Some(&bad), None).is_err());
}
