use xlsx_engine::xml::tokenize;
use xlsx_engine::cfdv::{parse_conditional_formats, parse_data_validations};
use xlsx_engine::styles::parse_dxf_bg_colors;
use xlsx_engine::readfmt::{StyleIn, project_format, project_edge};

#[test]
fn conditional_formats_read() {
    let styles = "<styleSheet><dxfs count=\"1\">\
      <dxf><fill><patternFill><bgColor rgb=\"FFFFC7CE\"/></patternFill></fill></dxf>\
      </dxfs></styleSheet>";
    let colors = parse_dxf_bg_colors(&tokenize(styles).unwrap());
    let ws = "<worksheet>\
      <conditionalFormatting sqref=\"A1:A10\">\
      <cfRule type=\"cellIs\" dxfId=\"0\" priority=\"2\" operator=\"greaterThan\" stopIfTrue=\"1\">\
      <formula>5</formula></cfRule>\
      <cfRule type=\"expression\" priority=\"3\"><formula>=$B1&gt;0</formula></cfRule>\
      </conditionalFormatting>\
      <conditionalFormatting><cfRule type=\"dataBar\" priority=\"4\"/></conditionalFormatting>\
      </worksheet>";
    let rules = parse_conditional_formats(&tokenize(ws).unwrap(), &colors);
    // The third rule has no range and is dropped.
    assert_eq!(rules.len(), 2);
    assert_eq!(rules[0].range, "A1:A10");
    assert_eq!(rules[0].rule_type, "cellIs");
    assert_eq!(rules[0].operator, Some(String::from("greaterThan")));
    assert_eq!(rules[0].formula, Some(String::from("=5")));
    assert_eq!(rules[0].priority, Some(2));
    assert_eq!(rules[0].stop_if_true, Some(true));
    assert_eq!(rules[0].bg_color, Some(String::from("#FFC7CE")));
    assert_eq!(rules[1].rule_type, "expression");
    assert_eq!(rules[1].formula, Some(String::from("=$B1>0")));
    assert_eq!(rules[1].bg_color, None);
}

#[test]
fn data_validations_read() {
    let ws = "<worksheet><dataValidations count=\"2\">\
      <dataValidation type=\"list\" allowBlank=\"1\" sqref=\"A1:A5\" errorTitle=\"Bad\" error=\"Pick one\">\
      <formula1>\"a,b,c\"</formula1></dataValidation>\
      <dataValidation type=\"whole\" operator=\"between\" allowBlank=\"0\" sqref=\"B1\">\
      <formula1>1</formula1><formula2>10</formula2></dataValidation>\
      </dataValidations></worksheet>";
    let dvs = parse_data_validations(&tokenize(ws).unwrap());
    assert_eq!(dvs.len(), 2);
    assert_eq!(dvs[0].range, "A1:A5");
    assert_eq!(dvs[0].validation_type, "list");
    assert!(dvs[0].allow_blank);
    assert_eq!(dvs[0].formula1, Some(String::from("=\"a,b,c\"")));
    assert_eq!(dvs[0].error_title, Some(String::from("Bad")));
    assert_eq!(dvs[0].error_text, Some(String::from("Pick one")));
    assert_eq!(dvs[1].validation_type, "whole");
    assert_eq!(dvs[1].operator, Some(String::from("between")));
    assert!(!dvs[1].allow_blank);
    assert_eq!(dvs[1].formula1, Some(String::from("=1")));
    assert_eq!(dvs[1].formula2, Some(String::from("=10")));
    // A missing allowBlank defaults to true.
    let ws2 = "<worksheet><dataValidation type=\"custom\" sqref=\"C1\"><formula1>=LEN(C1)&lt;5</formula1></dataValidation></worksheet>";
    let dvs2 = parse_data_validations(&tokenize(ws2).unwrap());
    assert!(dvs2[0].allow_blank);
    assert_eq!(dvs2[0].formula1, Some(String::from("=LEN(C1)<5")));
}

#[test]
fn format_projection_drops_defaults() {
    let s = StyleIn {
        bold: true,
        italic: false,
        underline: Some(String::from("none")),
        strikethrough: false,
        font_name: Some(String::from("Arial")),
        font_size_e8: Some(11_0000_0000),
        font_color: None,
        fill_pattern_none: true,
        fill_color: Some(String::from("#FF0000")),
        number_format: Some(String::from("General")),
        h_align: Some(String::from("general")),
        v_align: Some(String::from("center")),
        wrap: true,
        rotation: Some(0),
        indent: Some(0),
    };
    let f = project_format(s);
    assert!(f.bold);
    assert_eq!(f.underline, None);
    assert_eq!(f.font_name, Some(String::from("Arial")));
    // A fill without a pattern carries no background.
    assert_eq!(f.bg_color, None);
    assert_eq!(f.number_format, None);
    assert_eq!(f.h_align, None);
    assert_eq!(f.v_align, Some(String::from("center")));
    assert_eq!(f.rotation, None);
    assert_eq!(f.indent, None);
}

#[test]
fn edge_projection() {
    assert!(project_edge(Some(String::from("none")), None).is_none());
    assert!(project_edge(None, Some(String::from("#FF0000"))).is_none());
    let e = project_edge(Some(String::from("thin")), None).unwrap();
    assert_eq!(e.style, "thin");
    assert_eq!(e.color, "#000000");
    let e2 = project_edge(Some(String::from("double")), Some(String::from("#00FF00"))).unwrap();
    assert_eq!(e2.color, "#00FF00");
}
