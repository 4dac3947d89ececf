use vstd::prelude::*;

use crate::xml::{XmlEvent, attr_lookup, attrs_view};
use crate::scan::{tag_attr, tag_attr_exec_shared, opt_view, dec_u32_of, scan_text};
use crate::styles::{xml_bool, normalized_rgb, normalize_ooxml_rgb, dxf_color_at};
use crate::errtok::{trim_of, trim_chars};
use crate::cell::formula_text_of;
use crate::text::{chars_of, string_of, str_eq_chars};

verus! {

/// A conditional-format rule read from a worksheet part.
pub struct ConditionalFormatRuleInfo {
    pub range: String,
    pub rule_type: String,
    pub operator: Option<String>,
    pub formula: Option<String>,
    pub priority: Option<u32>,
    pub stop_if_true: Option<bool>,
    pub bg_color: Option<String>,
}

pub struct CfRuleV {
    pub range: Seq<char>,
    pub rule_type: Seq<char>,
    pub operator: Option<Seq<char>>,
    pub formula: Option<Seq<char>>,
    pub priority: Option<int>,
    pub stop_if_true: Option<bool>,
    pub bg_color: Option<Seq<char>>,
}

impl View for ConditionalFormatRuleInfo {
    type V = CfRuleV;

    open spec fn view(&self) -> CfRuleV {
        CfRuleV {
            range: self.range@,
            rule_type: self.rule_type@,
            operator: opt_view(self.operator),
            formula: opt_view(self.formula),
            priority: match self.priority {
                Some(p) => Some(p as int),
                None => None,
            },
            stop_if_true: self.stop_if_true,
            bg_color: opt_view(self.bg_color),
        }
    }
}

pub struct CfScanV {
    pub current_range: Option<Seq<char>>,
    pub cur: Option<CfRuleV>,
    pub cur_dxf_id: Option<int>,
    pub in_formula: bool,
    pub buf: Seq<char>,
    pub in_dxf: bool,
    pub out: Seq<CfRuleV>,
}

/// The rule a `cfRule` tag opens, fields from its attributes.
pub open spec fn cf_rule_of_attrs(ev: XmlEvent, current_range: Option<Seq<char>>) -> CfRuleV {
    CfRuleV {
        range: match current_range {
            Some(r) => r,
            None => Seq::empty(),
        },
        rule_type: match tag_attr(ev, "cfRule"@, "type"@) {
            Some(t) => t,
            None => Seq::empty(),
        },
        operator: tag_attr(ev, "cfRule"@, "operator"@),
        formula: None,
        priority: match tag_attr(ev, "cfRule"@, "priority"@) {
            Some(p) => dec_u32_of(p),
            None => None,
        },
        stop_if_true: match tag_attr(ev, "cfRule"@, "stopIfTrue"@) {
            Some(v) => Some(xml_bool(v)),
            None => None,
        },
        bg_color: None,
    }
}

pub open spec fn cf_dxf_id_of(ev: XmlEvent) -> Option<int> {
    match tag_attr(ev, "cfRule"@, "dxfId"@) {
        Some(v) => dec_u32_of(v),
        None => None,
    }
}

/// Whether a finished rule is kept: its range and rule type are both
/// nonempty after trimming.
pub open spec fn cf_keep(r: CfRuleV) -> bool {
    trim_of(r.range).len() > 0 && trim_of(r.rule_type).len() > 0
}

/// The rule's background color resolved against the shared `dxf` list
/// when the rule itself supplied none.
pub open spec fn cf_with_bg(
    r: CfRuleV,
    dxf_id: Option<int>,
    colors: Seq<Option<Seq<char>>>,
) -> CfRuleV {
    if r.bg_color is None {
        match dxf_id {
            Some(id) => CfRuleV { bg_color: dxf_color_at(colors, id), ..r },
            None => r,
        }
    } else {
        r
    }
}

pub open spec fn cf_step(st: CfScanV, ev: XmlEvent, colors: Seq<Option<Seq<char>>>) -> CfScanV {
    match ev {
        XmlEvent::Open { name, .. } => if name@ == "conditionalFormatting"@ {
            CfScanV { current_range: tag_attr(ev, "conditionalFormatting"@, "sqref"@), ..st }
        } else if name@ == "cfRule"@ {
            CfScanV {
                cur: Some(cf_rule_of_attrs(ev, st.current_range)),
                cur_dxf_id: cf_dxf_id_of(ev),
                ..st
            }
        } else if name@ == "formula"@ {
            CfScanV { in_formula: true, buf: Seq::empty(), ..st }
        } else if name@ == "dxf"@ {
            CfScanV { in_dxf: true, ..st }
        } else {
            st
        },
        XmlEvent::Empty { name, .. } => if name@ == "conditionalFormatting"@ {
            CfScanV { current_range: tag_attr(ev, "conditionalFormatting"@, "sqref"@), ..st }
        } else if name@ == "cfRule"@ {
            let rule = cf_with_bg(
                cf_rule_of_attrs(ev, st.current_range),
                cf_dxf_id_of(ev),
                colors,
            );
            if cf_keep(rule) {
                CfScanV { out: st.out.push(rule), ..st }
            } else {
                st
            }
        } else if st.in_dxf && (name@ == "fgColor"@ || name@ == "bgColor"@) {
            match st.cur {
                Some(r) => if r.bg_color is None {
                    match tag_attr(ev, "fgColor"@, "rgb"@) {
                        Some(rgb) => CfScanV {
                            cur: Some(CfRuleV { bg_color: normalized_rgb(rgb), ..r }),
                            ..st
                        },
                        None => match tag_attr(ev, "bgColor"@, "rgb"@) {
                            Some(rgb) => CfScanV {
                                cur: Some(CfRuleV { bg_color: normalized_rgb(rgb), ..r }),
                                ..st
                            },
                            None => st,
                        },
                    }
                } else {
                    st
                },
                None => st,
            }
        } else {
            st
        },
        XmlEvent::Text { .. } => if st.in_formula {
            CfScanV { buf: st.buf + scan_text(ev), ..st }
        } else {
            st
        },
        XmlEvent::Close { name, .. } => if name@ == "conditionalFormatting"@ {
            CfScanV { current_range: None, ..st }
        } else if name@ == "formula"@ {
            if st.in_formula {
                let f = trim_of(st.buf);
                let st2 = CfScanV { in_formula: false, ..st };
                match st.cur {
                    Some(r) => if r.formula is None && f.len() > 0 {
                        CfScanV { cur: Some(CfRuleV { formula: Some(formula_text_of(f)), ..r }), ..st2 }
                    } else {
                        st2
                    },
                    None => st2,
                }
            } else {
                st
            }
        } else if name@ == "dxf"@ {
            CfScanV { in_dxf: false, ..st }
        } else if name@ == "cfRule"@ {
            match st.cur {
                Some(r) => {
                    let rule = cf_with_bg(r, st.cur_dxf_id, colors);
                    let st2 = CfScanV { cur: None, cur_dxf_id: None, ..st };
                    if cf_keep(rule) {
                        CfScanV { out: st.out.push(rule), ..st2 }
                    } else {
                        st2
                    }
                },
                None => CfScanV { cur_dxf_id: None, ..st },
            }
        } else {
            st
        },
        _ => st,
    }
}

pub open spec fn cf_scan(evs: Seq<XmlEvent>, colors: Seq<Option<Seq<char>>>) -> CfScanV
    decreases evs.len(),
{
    if evs.len() == 0 {
        CfScanV {
            current_range: None,
            cur: None,
            cur_dxf_id: None,
            in_formula: false,
            buf: Seq::empty(),
            in_dxf: false,
            out: Seq::empty(),
        }
    } else {
        cf_step(cf_scan(evs.drop_last(), colors), evs.last(), colors)
    }
}

pub open spec fn colors_view(colors: Seq<Option<String>>) -> Seq<Option<Seq<char>>> {
    colors.map_values(|o: Option<String>| opt_view(o))
}

fn eq_normalized(f: &Vec<char>) -> (r: String)
    ensures
        r@ == formula_text_of(f@),
{
    if f.len() > 0 && f[0] == '=' {
        string_of(f)
    } else {
        let mut w: Vec<char> = Vec::new();
        w.push('=');
        let mut k: usize = 0;
        proof {
            assert(w@ =~= seq!['='] + f@.take(0));
        }
        while k < f.len()
            invariant
                k <= f@.len(),
                w@ == seq!['='] + f@.take(k as int),
            decreases f@.len() - k,
        {
            w.push(f[k]);
            proof {
                assert(seq!['='] + f@.take(k + 1 as int) =~= (seq!['='] + f@.take(k as int)).push(
                    f@[k as int],
                ));
            }
            k += 1;
        }
        proof {
            assert(f@.take(f@.len() as int) =~= f@);
        }
        string_of(&w)
    }
}

fn cf_rule_from(ev: &XmlEvent, current_range: &Option<String>) -> (r: ConditionalFormatRuleInfo)
    ensures
        r@ == cf_rule_of_attrs(*ev, opt_view(*current_range)),
{
    ConditionalFormatRuleInfo {
        range: match current_range {
            Some(s) => s.clone(),
            None => String::new(),
        },
        rule_type: match tag_attr_exec_shared(ev, "cfRule", "type") {
            Some(t) => t,
            None => String::new(),
        },
        operator: tag_attr_exec_shared(ev, "cfRule", "operator"),
        formula: None,
        priority: match tag_attr_exec_shared(ev, "cfRule", "priority") {
            Some(p) => crate::scan::parse_u32_dec(p.as_str()),
            None => None,
        },
        stop_if_true: match tag_attr_exec_shared(ev, "cfRule", "stopIfTrue") {
            Some(v) => Some(crate::styles::xml_bool_pub(v.as_str())),
            None => None,
        },
        bg_color: None,
    }
}

fn cf_resolve_bg(
    rule: ConditionalFormatRuleInfo,
    dxf_id: Option<u32>,
    colors: &Vec<Option<String>>,
) -> (r: ConditionalFormatRuleInfo)
    ensures
        r@ == cf_with_bg(rule@, match dxf_id {
            Some(x) => Some(x as int),
            None => None,
        }, colors_view(colors@)),
{
    if rule.bg_color.is_none() {
        match dxf_id {
            Some(id) => {
                let bg = crate::styles::dxf_color_for(colors, id);
                let ConditionalFormatRuleInfo {
                    range,
                    rule_type,
                    operator,
                    formula,
                    priority,
                    stop_if_true,
                    bg_color: _,
                } = rule;
                ConditionalFormatRuleInfo {
                    range,
                    rule_type,
                    operator,
                    formula,
                    priority,
                    stop_if_true,
                    bg_color: bg,
                }
            },
            None => rule,
        }
    } else {
        rule
    }
}

fn cf_keep_exec(rule: &ConditionalFormatRuleInfo) -> (r: bool)
    ensures
        r == cf_keep(rule@),
{
    let rv = chars_of(rule.range.as_str());
    let tv = chars_of(rule.rule_type.as_str());
    trim_chars(&rv).len() > 0 && trim_chars(&tv).len() > 0
}

/// Read the conditional-format rules of a worksheet part, resolving
/// rule backgrounds against the shared `dxf` color list.
pub fn parse_conditional_formats(
    evs: &Vec<XmlEvent>,
    dxf_colors: &Vec<Option<String>>,
) -> (out: Vec<ConditionalFormatRuleInfo>)
    ensures
        out@.map_values(|x: ConditionalFormatRuleInfo| x@) == cf_scan(
            evs@,
            colors_view(dxf_colors@),
        ).out,
{
    let ghost colors = colors_view(dxf_colors@);
    let mut out: Vec<ConditionalFormatRuleInfo> = Vec::new();
    let mut current_range: Option<String> = None;
    let mut cur: Option<ConditionalFormatRuleInfo> = None;
    let mut cur_dxf_id: Option<u32> = None;
    let mut in_formula = false;
    let mut buf: Vec<char> = Vec::new();
    let mut in_dxf = false;
    let mut i: usize = 0;
    while i < evs.len()
        invariant
            i <= evs@.len(),
            colors == colors_view(dxf_colors@),
            ({
                let st = cf_scan(evs@.take(i as int), colors);
                &&& st.current_range == opt_view(current_range)
                &&& st.cur == match cur {
                    Some(r) => Some(r@),
                    None => None::<CfRuleV>,
                }
                &&& st.cur_dxf_id == match cur_dxf_id {
                    Some(x) => Some(x as int),
                    None => None::<int>,
                }
                &&& st.in_formula == in_formula
                &&& st.buf == buf@
                &&& st.in_dxf == in_dxf
                &&& st.out == out@.map_values(|x: ConditionalFormatRuleInfo| x@)
            }),
        decreases evs@.len() - i,
    {
        proof {
            assert(evs@.take(i + 1 as int).drop_last() =~= evs@.take(i as int));
            assert(evs@.take(i + 1 as int).last() == evs@[i as int]);
        }
        let ev = &evs[i];
        match ev {
            XmlEvent::Open { name, .. } => {
                let nv = chars_of(name.as_str());
                if str_eq_chars(&nv, "conditionalFormatting") {
                    current_range = tag_attr_exec_shared(ev, "conditionalFormatting", "sqref");
                } else if str_eq_chars(&nv, "cfRule") {
                    cur = Some(cf_rule_from(ev, &current_range));
                    cur_dxf_id = match tag_attr_exec_shared(ev, "cfRule", "dxfId") {
                        Some(v) => crate::scan::parse_u32_dec(v.as_str()),
                        None => None,
                    };
                } else if str_eq_chars(&nv, "formula") {
                    in_formula = true;
                    buf = Vec::new();
                } else if str_eq_chars(&nv, "dxf") {
                    in_dxf = true;
                }
            },
            XmlEvent::Empty { name, .. } => {
                let nv = chars_of(name.as_str());
                if str_eq_chars(&nv, "conditionalFormatting") {
                    current_range = tag_attr_exec_shared(ev, "conditionalFormatting", "sqref");
                } else if str_eq_chars(&nv, "cfRule") {
                    let rule0 = cf_rule_from(ev, &current_range);
                    let dxf = match tag_attr_exec_shared(ev, "cfRule", "dxfId") {
                        Some(v) => crate::scan::parse_u32_dec(v.as_str()),
                        None => None,
                    };
                    let rule = cf_resolve_bg(rule0, dxf, dxf_colors);
                    if cf_keep_exec(&rule) {
                        out.push(rule);
                        proof {
                            assert(out@.map_values(|x: ConditionalFormatRuleInfo| x@)
                                =~= cf_scan(evs@.take(i + 1 as int), colors).out);
                        }
                    }
                } else if in_dxf && (str_eq_chars(&nv, "fgColor") || str_eq_chars(&nv, "bgColor"))
                    {
                    let taken = cur;
                    cur = match taken {
                        Some(r) => {
                            if r.bg_color.is_none() {
                                let rgbq = match tag_attr_exec_shared(ev, "fgColor", "rgb") {
                                    Some(rgb) => Some(rgb),
                                    None => tag_attr_exec_shared(ev, "bgColor", "rgb"),
                                };
                                match rgbq {
                                    Some(rgb) => {
                                        let bg = normalize_ooxml_rgb(rgb.as_str());
                                        let ConditionalFormatRuleInfo {
                                            range,
                                            rule_type,
                                            operator,
                                            formula,
                                            priority,
                                            stop_if_true,
                                            bg_color: _,
                                        } = r;
                                        Some(
                                            ConditionalFormatRuleInfo {
                                                range,
                                                rule_type,
                                                operator,
                                                formula,
                                                priority,
                                                stop_if_true,
                                                bg_color: bg,
                                            },
                                        )
                                    },
                                    None => Some(r),
                                }
                            } else {
                                Some(r)
                            }
                        },
                        None => None,
                    };
                }
            },
            XmlEvent::Text { text, .. } => {
                if in_formula {
                    let tv = chars_of(text.as_str());
                    let t = trim_chars(&tv);
                    let mut k: usize = 0;
                    let ghost base = buf@;
                    while k < t.len()
                        invariant
                            k <= t@.len(),
                            buf@ == base + t@.take(k as int),
                        decreases t@.len() - k,
                    {
                        buf.push(t[k]);
                        proof {
                            assert(base + t@.take(k + 1 as int) =~= (base + t@.take(
                                k as int,
                            )).push(t@[k as int]));
                        }
                        k += 1;
                    }
                    proof {
                        assert(t@.take(t@.len() as int) =~= t@);
                        assert(base + t@.take(0) =~= base);
                    }
                }
            },
            XmlEvent::Close { name, .. } => {
                let nv = chars_of(name.as_str());
                if str_eq_chars(&nv, "conditionalFormatting") {
                    current_range = None;
                } else if str_eq_chars(&nv, "formula") {
                    if in_formula {
                        in_formula = false;
                        let f = trim_chars(&buf);
                        let taken = cur;
                        cur = match taken {
                            Some(r) => {
                                if r.formula.is_none() && f.len() > 0 {
                                    let nf = eq_normalized(&f);
                                    let ConditionalFormatRuleInfo {
                                        range,
                                        rule_type,
                                        operator,
                                        formula: _,
                                        priority,
                                        stop_if_true,
                                        bg_color,
                                    } = r;
                                    Some(
                                        ConditionalFormatRuleInfo {
                                            range,
                                            rule_type,
                                            operator,
                                            formula: Some(nf),
                                            priority,
                                            stop_if_true,
                                            bg_color,
                                        },
                                    )
                                } else {
                                    Some(r)
                                }
                            },
                            None => None,
                        };
                    }
                } else if str_eq_chars(&nv, "dxf") {
                    in_dxf = false;
                } else if str_eq_chars(&nv, "cfRule") {
                    let taken = cur;
                    cur = None;
                    let dxf = cur_dxf_id;
                    match taken {
                        Some(r) => {
                            cur_dxf_id = None;
                            let rule = cf_resolve_bg(r, dxf, dxf_colors);
                            if cf_keep_exec(&rule) {
                                out.push(rule);
                                proof {
                                    assert(out@.map_values(|x: ConditionalFormatRuleInfo| x@)
                                        =~= cf_scan(evs@.take(i + 1 as int), colors).out);
                                }
                            }
                        },
                        None => {
                            cur_dxf_id = None;
                        },
                    }
                }
            },
            _ => {},
        }
        i += 1;
    }
    proof {
        assert(evs@.take(evs@.len() as int) =~= evs@);
    }
    out
}

} // verus!
use vstd::prelude::*;

verus! {

/// A data validation read from a worksheet part.
pub struct DataValidationInfo {
    pub range: String,
    pub validation_type: String,
    pub operator: Option<String>,
    pub formula1: Option<String>,
    pub formula2: Option<String>,
    pub allow_blank: bool,
    pub error_title: Option<String>,
    pub error_text: Option<String>,
}

pub struct DvInfoV {
    pub range: Seq<char>,
    pub validation_type: Seq<char>,
    pub operator: Option<Seq<char>>,
    pub formula1: Option<Seq<char>>,
    pub formula2: Option<Seq<char>>,
    pub allow_blank: bool,
    pub error_title: Option<Seq<char>>,
    pub error_text: Option<Seq<char>>,
}

impl View for DataValidationInfo {
    type V = DvInfoV;

    open spec fn view(&self) -> DvInfoV {
        DvInfoV {
            range: self.range@,
            validation_type: self.validation_type@,
            operator: opt_view(self.operator),
            formula1: opt_view(self.formula1),
            formula2: opt_view(self.formula2),
            allow_blank: self.allow_blank,
            error_title: opt_view(self.error_title),
            error_text: opt_view(self.error_text),
        }
    }
}

pub struct DvScanV {
    pub in_validation: bool,
    pub in_f1: bool,
    pub in_f2: bool,
    pub buf1: Seq<char>,
    pub buf2: Seq<char>,
    pub cur: Option<DvInfoV>,
    pub out: Seq<DvInfoV>,
}

pub open spec fn nonempty_or_none(o: Option<Seq<char>>) -> Option<Seq<char>> {
    match o {
        Some(s) => if s.len() == 0 {
            None
        } else {
            Some(s)
        },
        None => None,
    }
}

/// The validation a `dataValidation` tag opens, fields from its
/// attributes; a missing type means `any`, a missing `allowBlank` is
/// true.
pub open spec fn dv_of_attrs(ev: XmlEvent) -> DvInfoV {
    DvInfoV {
        range: match tag_attr(ev, "dataValidation"@, "sqref"@) {
            Some(r) => r,
            None => Seq::empty(),
        },
        validation_type: match tag_attr(ev, "dataValidation"@, "type"@) {
            Some(t) => t,
            None => "any"@,
        },
        operator: tag_attr(ev, "dataValidation"@, "operator"@),
        formula1: None,
        formula2: None,
        allow_blank: match tag_attr(ev, "dataValidation"@, "allowBlank"@) {
            Some(v) => xml_bool(v),
            None => true,
        },
        error_title: nonempty_or_none(tag_attr(ev, "dataValidation"@, "errorTitle"@)),
        error_text: nonempty_or_none(tag_attr(ev, "dataValidation"@, "error"@)),
    }
}

pub open spec fn dv_step(st: DvScanV, ev: XmlEvent) -> DvScanV {
    match ev {
        XmlEvent::Open { name, .. } => if name@ == "dataValidation"@ {
            DvScanV {
                in_validation: true,
                buf1: Seq::empty(),
                buf2: Seq::empty(),
                cur: Some(dv_of_attrs(ev)),
                ..st
            }
        } else if st.in_validation && name@ == "formula1"@ {
            DvScanV { in_f1: true, buf1: Seq::empty(), ..st }
        } else if st.in_validation && name@ == "formula2"@ {
            DvScanV { in_f2: true, buf2: Seq::empty(), ..st }
        } else {
            st
        },
        XmlEvent::Text { .. } => if st.in_f1 {
            DvScanV { buf1: st.buf1 + scan_text(ev), ..st }
        } else if st.in_f2 {
            DvScanV { buf2: st.buf2 + scan_text(ev), ..st }
        } else {
            st
        },
        XmlEvent::Close { name, .. } => if name@ == "formula1"@ {
            let f = trim_of(st.buf1);
            let st2 = DvScanV { in_f1: false, ..st };
            match st.cur {
                Some(d) => if f.len() > 0 {
                    DvScanV { cur: Some(DvInfoV { formula1: Some(formula_text_of(f)), ..d }), ..st2 }
                } else {
                    st2
                },
                None => st2,
            }
        } else if name@ == "formula2"@ {
            let f = trim_of(st.buf2);
            let st2 = DvScanV { in_f2: false, ..st };
            match st.cur {
                Some(d) => if f.len() > 0 {
                    DvScanV { cur: Some(DvInfoV { formula2: Some(formula_text_of(f)), ..d }), ..st2 }
                } else {
                    st2
                },
                None => st2,
            }
        } else if name@ == "dataValidation"@ {
            let st2 = DvScanV { in_validation: false, cur: None, ..st };
            match st.cur {
                Some(d) => if trim_of(d.range).len() > 0 {
                    DvScanV { out: st.out.push(d), ..st2 }
                } else {
                    st2
                },
                None => st2,
            }
        } else {
            st
        },
        _ => st,
    }
}

pub open spec fn dv_scan(evs: Seq<XmlEvent>) -> DvScanV
    decreases evs.len(),
{
    if evs.len() == 0 {
        DvScanV {
            in_validation: false,
            in_f1: false,
            in_f2: false,
            buf1: Seq::empty(),
            buf2: Seq::empty(),
            cur: None,
            out: Seq::empty(),
        }
    } else {
        dv_step(dv_scan(evs.drop_last()), evs.last())
    }
}

fn dv_from(ev: &XmlEvent) -> (r: DataValidationInfo)
    ensures
        r@ == dv_of_attrs(*ev),
{
    let et = match tag_attr_exec_shared(ev, "dataValidation", "errorTitle") {
        Some(s) => if s.as_str().unicode_len() == 0 {
            None
        } else {
            Some(s)
        },
        None => None,
    };
    let em = match tag_attr_exec_shared(ev, "dataValidation", "error") {
        Some(s) => if s.as_str().unicode_len() == 0 {
            None
        } else {
            Some(s)
        },
        None => None,
    };
    DataValidationInfo {
        range: match tag_attr_exec_shared(ev, "dataValidation", "sqref") {
            Some(r) => r,
            None => String::new(),
        },
        validation_type: match tag_attr_exec_shared(ev, "dataValidation", "type") {
            Some(t) => t,
            None => String::from_str("any"),
        },
        operator: tag_attr_exec_shared(ev, "dataValidation", "operator"),
        formula1: None,
        formula2: None,
        allow_blank: match tag_attr_exec_shared(ev, "dataValidation", "allowBlank") {
            Some(v) => crate::styles::xml_bool_pub(v.as_str()),
            None => true,
        },
        error_title: et,
        error_text: em,
    }
}

/// Read the data validations of a worksheet part.
pub fn parse_data_validations(evs: &Vec<XmlEvent>) -> (out: Vec<DataValidationInfo>)
    ensures
        out@.map_values(|x: DataValidationInfo| x@) == dv_scan(evs@).out,
{
    let mut out: Vec<DataValidationInfo> = Vec::new();
    let mut in_validation = false;
    let mut in_f1 = false;
    let mut in_f2 = false;
    let mut buf1: Vec<char> = Vec::new();
    let mut buf2: Vec<char> = Vec::new();
    let mut cur: Option<DataValidationInfo> = None;
    let mut i: usize = 0;
    while i < evs.len()
        invariant
            i <= evs@.len(),
            ({
                let st = dv_scan(evs@.take(i as int));
                &&& st.in_validation == in_validation
                &&& st.in_f1 == in_f1
                &&& st.in_f2 == in_f2
                &&& st.buf1 == buf1@
                &&& st.buf2 == buf2@
                &&& st.cur == match cur {
                    Some(d) => Some(d@),
                    None => None::<DvInfoV>,
                }
                &&& st.out == out@.map_values(|x: DataValidationInfo| x@)
            }),
        decreases evs@.len() - i,
    {
        proof {
            assert(evs@.take(i + 1 as int).drop_last() =~= evs@.take(i as int));
            assert(evs@.take(i + 1 as int).last() == evs@[i as int]);
        }
        let ev = &evs[i];
        match ev {
            XmlEvent::Open { name, .. } => {
                let nv = chars_of(name.as_str());
                if str_eq_chars(&nv, "dataValidation") {
                    in_validation = true;
                    buf1 = Vec::new();
                    buf2 = Vec::new();
                    cur = Some(dv_from(ev));
                } else if in_validation && str_eq_chars(&nv, "formula1") {
                    in_f1 = true;
                    buf1 = Vec::new();
                } else if in_validation && str_eq_chars(&nv, "formula2") {
                    in_f2 = true;
                    buf2 = Vec::new();
                }
            },
            XmlEvent::Text { text, .. } => {
                if in_f1 {
                    let tv = chars_of(text.as_str());
                    let t = trim_chars(&tv);
                    let mut k: usize = 0;
                    let ghost base = buf1@;
                    while k < t.len()
                        invariant
                            k <= t@.len(),
                            buf1@ == base + t@.take(k as int),
                        decreases t@.len() - k,
                    {
                        buf1.push(t[k]);
                        proof {
                            assert(base + t@.take(k + 1 as int) =~= (base + t@.take(
                                k as int,
                            )).push(t@[k as int]));
                        }
                        k += 1;
                    }
                    proof {
                        assert(t@.take(t@.len() as int) =~= t@);
                        assert(base + t@.take(0) =~= base);
                    }
                } else if in_f2 {
                    let tv = chars_of(text.as_str());
                    let t = trim_chars(&tv);
                    let mut k: usize = 0;
                    let ghost base = buf2@;
                    while k < t.len()
                        invariant
                            k <= t@.len(),
                            buf2@ == base + t@.take(k as int),
                        decreases t@.len() - k,
                    {
                        buf2.push(t[k]);
                        proof {
                            assert(base + t@.take(k + 1 as int) =~= (base + t@.take(
                                k as int,
                            )).push(t@[k as int]));
                        }
                        k += 1;
                    }
                    proof {
                        assert(t@.take(t@.len() as int) =~= t@);
                        assert(base + t@.take(0) =~= base);
                    }
                }
            },
            XmlEvent::Close { name, .. } => {
                let nv = chars_of(name.as_str());
                if str_eq_chars(&nv, "formula1") {
                    in_f1 = false;
                    let f = trim_chars(&buf1);
                    let taken = cur;
                    cur = match taken {
                        Some(d) => {
                            if f.len() > 0 {
                                let nf = eq_normalized(&f);
                                let DataValidationInfo {
                                    range,
                                    validation_type,
                                    operator,
                                    formula1: _,
                                    formula2,
                                    allow_blank,
                                    error_title,
                                    error_text,
                                } = d;
                                Some(
                                    DataValidationInfo {
                                        range,
                                        validation_type,
                                        operator,
                                        formula1: Some(nf),
                                        formula2,
                                        allow_blank,
                                        error_title,
                                        error_text,
                                    },
                                )
                            } else {
                                Some(d)
                            }
                        },
                        None => None,
                    };
                } else if str_eq_chars(&nv, "formula2") {
                    in_f2 = false;
                    let f = trim_chars(&buf2);
                    let taken = cur;
                    cur = match taken {
                        Some(d) => {
                            if f.len() > 0 {
                                let nf = eq_normalized(&f);
                                let DataValidationInfo {
                                    range,
                                    validation_type,
                                    operator,
                                    formula1,
                                    formula2: _,
                                    allow_blank,
                                    error_title,
                                    error_text,
                                } = d;
                                Some(
                                    DataValidationInfo {
                                        range,
                                        validation_type,
                                        operator,
                                        formula1,
                                        formula2: Some(nf),
                                        allow_blank,
                                        error_title,
                                        error_text,
                                    },
                                )
                            } else {
                                Some(d)
                            }
                        },
                        None => None,
                    };
                } else if str_eq_chars(&nv, "dataValidation") {
                    in_validation = false;
                    let taken = cur;
                    cur = None;
                    match taken {
                        Some(d) => {
                            let rv = chars_of(d.range.as_str());
                            if trim_chars(&rv).len() > 0 {
                                out.push(d);
                                proof {
                                    assert(out@.map_values(|x: DataValidationInfo| x@)
                                        =~= dv_scan(evs@.take(i + 1 as int)).out);
                                }
                            }
                        },
                        None => {},
                    }
                }
            },
            _ => {},
        }
        i += 1;
    }
    proof {
        assert(evs@.take(evs@.len() as int) =~= evs@);
    }
    out
}

} // verus!
