use xlsx_engine::xml::{tokenize, render_events, attr_value, unescape_chars, XmlEvent};
use xlsx_engine::text::{chars_of, string_of};
use xlsx_engine::scan::{merged_ranges, relationship_targets, rel_lookup, workbook_sheet_rids,
    table_part_rids, find_relationship_target_by_type, hyperlink_nodes, resolve_hyperlinks,
    parse_freeze_panes, parse_formulas, formula_for, normalized_formula_for, parse_cell_style_ids,
    style_id_for, parse_comments, parse_defined_names, named_ranges_for_sheet, parse_table,
    dir_of_path, sheet_rels_path, join_and_normalize, parse_u32_dec, parse_num_trunc};
use xlsx_engine::styles::{normalize_ooxml_rgb, parse_dxf_bg_colors, parse_diagonal_borders,
    diag_for, dxf_color_for};

#[test]
fn tokenizer_is_lossless() {
    let xml = "<?xml version=\"1.0\"?><a x=\"1\"><b/>text &amp; more<!--c--></a>";
    let evs = tokenize(xml).unwrap();
    assert_eq!(render_events(&evs), xml);
}

#[test]
fn tokenizer_decodes_entities() {
    let xml = "<a t=\"x &lt;&gt; &quot;y&quot; &apos;&#65;&#x2;\">A &amp; B</a>";
    let evs = tokenize(xml).unwrap();
    match &evs[0] {
        XmlEvent::Open { name, attrs, .. } => {
            assert_eq!(name, "a");
            let t = attr_value(attrs, "t").unwrap();
            assert_eq!(t, "x <> \"y\" 'A&#x2;");
        },
        _ => panic!("expected an opening tag"),
    }
    match &evs[1] {
        XmlEvent::Text { text, .. } => assert_eq!(text, "A & B"),
        _ => panic!("expected text"),
    }
    let v = chars_of("&#72;i &bogus; &#999;");
    assert_eq!(string_of(&unescape_chars(&v)), "Hi &bogus; &#999;");
}

#[test]
fn tokenizer_rejects_unterminated() {
    assert!(tokenize("<a").is_err());
    assert!(tokenize("<a b=1>").is_err());
    assert!(tokenize("<!-- never closed").is_err());
}

#[test]
fn merged_ranges_walk() {
    let xml = "<worksheet><mergeCells count=\"2\"><mergeCell ref=\"A1:B2\"/>\
               <mergeCell ref=\"C3:D4\"/></mergeCells></worksheet>";
    let evs = tokenize(xml).unwrap();
    assert_eq!(merged_ranges(&evs), vec![String::from("A1:B2"), String::from("C3:D4")]);
}

#[test]
fn relationships_resolve() {
    let xml = "<Relationships>\
      <Relationship Id=\"rId1\" Type=\"http://x/worksheet\" Target=\"worksheets/sheet1.xml\"/>\
      <Relationship Id=\"rId2\" Type=\"http://x/comments\" Target=\"../comments1.xml\"/>\
      </Relationships>";
    let evs = tokenize(xml).unwrap();
    let rels = relationship_targets(&evs);
    assert_eq!(rel_lookup(&rels, "rId1"), Some(String::from("worksheets/sheet1.xml")));
    assert_eq!(rel_lookup(&rels, "rId3"), None);
    assert_eq!(
        find_relationship_target_by_type(&evs, "comments"),
        Some(String::from("../comments1.xml"))
    );
}

#[test]
fn workbook_sheets_and_tables() {
    let xml = "<workbook><sheets><sheet name=\"Data\" r:id=\"rId1\"/></sheets></workbook>";
    let evs = tokenize(xml).unwrap();
    let rids = workbook_sheet_rids(&evs);
    assert_eq!(rids.len(), 1);
    assert_eq!(rids[0].id, "Data");
    assert_eq!(rids[0].target, "rId1");
    let ws = "<worksheet><tableParts count=\"1\"><tablePart r:id=\"rId7\"/></tableParts></worksheet>";
    let evs2 = tokenize(ws).unwrap();
    assert_eq!(table_part_rids(&evs2), vec![String::from("rId7")]);
}

#[test]
fn hyperlinks_resolve_with_fallback() {
    let xml = "<worksheet><hyperlinks>\
      <hyperlink ref=\"A1\" r:id=\"rId1\" tooltip=\"tip\"/>\
      <hyperlink ref=\"B2\" location=\"Sheet2!A1\" display=\"Go\"/>\
      <hyperlink ref=\"C3\" r:id=\"rId9\"/>\
      </hyperlinks></worksheet>";
    let evs = tokenize(xml).unwrap();
    let nodes = hyperlink_nodes(&evs);
    assert_eq!(nodes.len(), 3);
    let rels_xml = "<Relationships><Relationship Id=\"rId1\" Type=\"t\" Target=\"https://a.example\"/></Relationships>";
    let rels = relationship_targets(&tokenize(rels_xml).unwrap());
    let fallbacks = vec![String::from("label one"), String::from("ignored"), String::from("x")];
    let links = resolve_hyperlinks(&nodes, &rels, &fallbacks);
    // The third node's relationship id resolves to nothing: dropped.
    assert_eq!(links.len(), 2);
    assert_eq!(links[0].cell, "A1");
    assert_eq!(links[0].target, "https://a.example");
    assert_eq!(links[0].display, "label one");
    assert_eq!(links[0].tooltip, Some(String::from("tip")));
    assert!(!links[0].internal);
    assert_eq!(links[1].target, "Sheet2!A1");
    assert_eq!(links[1].display, "Go");
    assert!(links[1].internal);
}

#[test]
fn freeze_panes_read() {
    let xml = "<worksheet><sheetView><pane xSplit=\"2\" ySplit=\"3\" topLeftCell=\"C4\" \
               activePane=\"bottomRight\" state=\"frozen\"/></sheetView></worksheet>";
    let evs = tokenize(xml).unwrap();
    let info = parse_freeze_panes(&evs).unwrap();
    assert_eq!(info.mode, "freeze");
    assert_eq!(info.top_left_cell, Some(String::from("C4")));
    assert_eq!(info.x_split, Some(2));
    assert_eq!(info.y_split, Some(3));
    assert_eq!(info.active_pane, Some(String::from("bottomRight")));

    let xml2 = "<worksheet><sheetView><pane xSplit=\"2310.5\" ySplit=\"990\" state=\"split\"/></sheetView></worksheet>";
    let info2 = parse_freeze_panes(&tokenize(xml2).unwrap()).unwrap();
    assert_eq!(info2.mode, "split");
    assert_eq!(info2.x_split, Some(2310));
    assert_eq!(info2.y_split, Some(990));
}

#[test]
fn formulas_extracted_in_one_pass() {
    let xml = "<worksheet><sheetData>\
      <row r=\"1\"><c r=\"A1\"><f>SUM(B1:B3)</f><v>6</v></c><c r=\"B1\"><v>1</v></c></row>\
      <row r=\"2\"><c r=\"A2\"><f>A1*2</f></c></row>\
      </sheetData></worksheet>";
    let evs = tokenize(xml).unwrap();
    let entries = parse_formulas(&evs);
    assert_eq!(entries.len(), 2);
    assert_eq!(formula_for(&entries, 0, 0), Some(String::from("SUM(B1:B3)")));
    assert_eq!(formula_for(&entries, 1, 0), Some(String::from("A1*2")));
    assert_eq!(formula_for(&entries, 0, 1), None);
    // The formula endpoint reports the text with a leading `=` ensured.
    assert_eq!(normalized_formula_for(&entries, 0, 0), Some(String::from("=SUM(B1:B3)")));
    assert_eq!(normalized_formula_for(&entries, 0, 1), None);
}

#[test]
fn style_ids_extracted() {
    let xml = "<worksheet><sheetData><row><c r=\"A1\" s=\"3\"/><c r=\"B1\" s=\"0\"/><c r=\"C1\"/></row></sheetData></worksheet>";
    let evs = tokenize(xml).unwrap();
    let ids = parse_cell_style_ids(&evs);
    assert_eq!(ids.len(), 1);
    assert_eq!(style_id_for(&ids, 0, 0), Some(3));
    assert_eq!(style_id_for(&ids, 0, 1), None);
}

#[test]
fn comments_with_authors() {
    let xml = "<comments><authors><author>Ann</author><author>Bob</author></authors>\
      <commentList><comment ref=\"A1\" authorId=\"1\"><text><t>first </t><t>note</t></text></comment>\
      <comment ref=\"B2\" authorId=\"9\"><text><t>orphan</t></text></comment></commentList></comments>";
    let evs = tokenize(xml).unwrap();
    let cs = parse_comments(&evs);
    assert_eq!(cs.len(), 2);
    assert_eq!(cs[0].cell, "A1");
    // Each text node is whitespace-trimmed as it is consumed.
    assert_eq!(cs[0].text, "firstnote");
    assert_eq!(cs[0].author, "Bob");
    assert!(!cs[0].threaded);
    assert_eq!(cs[1].author, "");
}

#[test]
fn defined_names_scoped_and_filtered() {
    let xml = "<workbook><definedNames>\
      <definedName name=\"Total\">Sheet1!$A$1</definedName>\
      <definedName name=\"Local\" localSheetId=\"1\">$B$2</definedName>\
      <definedName name=\"_xlnm.Print_Area\" localSheetId=\"0\">Sheet1!$A$1:$B$2</definedName>\
      </definedNames></workbook>";
    let evs = tokenize(xml).unwrap();
    let sheets = vec![String::from("Sheet1"), String::from("Two")];
    let names = parse_defined_names(&evs, &sheets);
    assert_eq!(names.len(), 2);
    assert_eq!(names[0].name, "Total");
    assert_eq!(names[0].scope, "workbook");
    assert_eq!(names[0].refers_to, "Sheet1!$A$1");
    assert_eq!(names[1].name, "Local");
    assert_eq!(names[1].scope, "sheet");
    assert_eq!(names[1].refers_to, "Two!$B$2");

    let for_two = named_ranges_for_sheet(&names, "Two");
    assert_eq!(for_two.len(), 2);
    let for_one = named_ranges_for_sheet(&names, "Sheet1");
    assert_eq!(for_one.len(), 1);
    assert_eq!(for_one[0].name, "Total");
}

#[test]
fn table_part_parses() {
    let xml = "<table name=\"T1\" ref=\"A1:C3\" headerRowCount=\"1\" totalsRowCount=\"0\">\
      <autoFilter ref=\"A1:C3\"/>\
      <tableColumns><tableColumn id=\"1\" name=\"x\"/><tableColumn id=\"2\" name=\"y\"/></tableColumns>\
      <tableStyleInfo name=\"TableStyleMedium9\"/></table>";
    let evs = tokenize(xml).unwrap();
    let t = parse_table(&evs);
    assert_eq!(t.name, "T1");
    assert_eq!(t.ref_range, "A1:C3");
    assert!(t.header_row);
    assert!(!t.totals_row);
    assert_eq!(t.style, Some(String::from("TableStyleMedium9")));
    assert_eq!(t.columns, vec![String::from("x"), String::from("y")]);
    assert!(t.autofilter);
}

#[test]
fn paths_and_numbers() {
    assert_eq!(dir_of_path("xl/worksheets/sheet1.xml"), "xl/worksheets/");
    assert_eq!(dir_of_path("noslash"), "");
    assert_eq!(
        sheet_rels_path("xl/worksheets/sheet1.xml"),
        Some(String::from("xl/worksheets/_rels/sheet1.xml.rels"))
    );
    assert_eq!(sheet_rels_path("plain"), None);
    assert_eq!(
        join_and_normalize("xl/worksheets/", "../tables/table1.xml"),
        "xl/tables/table1.xml"
    );
    assert_eq!(join_and_normalize("xl/", "worksheets/./sheet1.xml"), "xl/worksheets/sheet1.xml");
    assert_eq!(join_and_normalize("", "../../a"), "a");
    assert_eq!(parse_u32_dec("042"), Some(42));
    assert_eq!(parse_u32_dec("4x"), None);
    assert_eq!(parse_num_trunc("2310.75"), Some(2310));
    assert_eq!(parse_num_trunc("-3.9"), Some(-3));
    assert_eq!(parse_num_trunc("abc"), None);
}

#[test]
fn rgb_normalization() {
    assert_eq!(normalize_ooxml_rgb("FF00FF00"), Some(String::from("#00FF00")));
    assert_eq!(normalize_ooxml_rgb("#ff0000"), Some(String::from("#FF0000")));
    assert_eq!(normalize_ooxml_rgb(" 00AA11 "), Some(String::from("#00AA11")));
    assert_eq!(normalize_ooxml_rgb("123"), None);
}

#[test]
fn dxf_colors_by_index() {
    let xml = "<styleSheet><dxfs count=\"2\">\
      <dxf><fill><patternFill><bgColor rgb=\"FFFFC7CE\"/></patternFill></fill></dxf>\
      <dxf><font/></dxf></dxfs></styleSheet>";
    let evs = tokenize(xml).unwrap();
    let colors = parse_dxf_bg_colors(&evs);
    assert_eq!(colors.len(), 2);
    assert_eq!(dxf_color_for(&colors, 0), Some(String::from("#FFC7CE")));
    assert_eq!(dxf_color_for(&colors, 1), None);
    assert_eq!(dxf_color_for(&colors, 5), None);
}

#[test]
fn diagonal_borders_by_style_id() {
    let xml = "<styleSheet><borders count=\"2\">\
      <border><left/><right/><top/><bottom/><diagonal/></border>\
      <border diagonalUp=\"1\"><diagonal style=\"thin\"><color rgb=\"FFFF0000\"/></diagonal></border>\
      </borders>\
      <cellXfs count=\"3\"><xf borderId=\"0\"/><xf borderId=\"1\"/><xf/></cellXfs></styleSheet>";
    let evs = tokenize(xml).unwrap();
    let map = parse_diagonal_borders(&evs);
    assert_eq!(map.len(), 1);
    let d = diag_for(&map, 1).unwrap();
    assert!(d.up);
    assert!(!d.down);
    assert_eq!(d.style, "thin");
    assert_eq!(d.color, "#FF0000");
    assert!(diag_for(&map, 0).is_none());
}
