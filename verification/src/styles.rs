use vstd::prelude::*;

use crate::xml::{XmlEvent, attr_lookup, attrs_view};
use crate::scan::{tag_attr, is_tag, opt_view, dec_u32_of};
use crate::text::{chars_of, string_of, str_eq_chars, upper_chars, seq_upper};
use crate::errtok::{trim_of, trim_chars};

verus! {

/// A `#RRGGBB` color from a stored OOXML color text: trimmed, `#`
/// markers stripped, an eight-digit ARGB value loses its alpha pair, and
/// anything that is not then six characters is rejected.
pub open spec fn normalized_rgb(rgb: Seq<char>) -> Option<Seq<char>> {
    let t = strip_leading_hash(trim_of(rgb));
    let s = if t.len() == 8 {
        t.skip(2)
    } else {
        t
    };
    if s.len() == 6 {
        Some(seq!['#'] + seq_upper(s))
    } else {
        None
    }
}

pub open spec fn strip_leading_hash(s: Seq<char>) -> Seq<char>
    decreases s.len(),
{
    if s.len() > 0 && s[0] == '#' {
        strip_leading_hash(s.skip(1))
    } else {
        s
    }
}

pub fn normalize_ooxml_rgb(rgb: &str) -> (r: Option<String>)
    ensures
        match r {
            Some(s) => normalized_rgb(rgb@) == Some(s@),
            None => normalized_rgb(rgb@) is None,
        },
{
    let v = chars_of(rgb);
    let t0 = trim_chars(&v);
    let mut a: usize = 0;
    proof {
        assert(t0@.skip(0) =~= t0@);
    }
    while a < t0.len() && t0[a] == '#'
        invariant
            a <= t0@.len(),
            strip_leading_hash(t0@) == strip_leading_hash(t0@.skip(a as int)),
        decreases t0@.len() - a,
    {
        proof {
            assert(t0@.skip(a as int)[0] == t0@[a as int]);
            assert(t0@.skip(a as int).skip(1) =~= t0@.skip(a + 1));
        }
        a += 1;
    }
    proof {
        if a < t0@.len() {
            assert(t0@.skip(a as int)[0] == t0@[a as int]);
        }
        assert(strip_leading_hash(t0@.skip(a as int)) == t0@.skip(a as int));
    }
    let t = crate::xml::subvec(&t0, a, t0.len());
    proof {
        assert(t@ =~= strip_leading_hash(trim_of(rgb@)));
    }
    let s: Vec<char> = if t.len() == 8 {
        let w = crate::xml::subvec(&t, 2, t.len());
        proof {
            assert(w@ =~= t@.skip(2));
        }
        w
    } else {
        t
    };
    if s.len() != 6 {
        return None;
    }
    let u = upper_chars(&s);
    let mut out: Vec<char> = Vec::new();
    out.push('#');
    let mut k: usize = 0;
    let ghost base = seq!['#'];
    proof {
        assert(out@ =~= base + u@.take(0));
    }
    while k < u.len()
        invariant
            k <= u@.len(),
            base == seq!['#'],
            out@ == base + u@.take(k as int),
        decreases u@.len() - k,
    {
        out.push(u[k]);
        proof {
            assert(base + u@.take(k + 1 as int) =~= (base + u@.take(k as int)).push(
                u@[k as int],
            ));
        }
        k += 1;
    }
    proof {
        assert(u@.take(u@.len() as int) =~= u@);
        assert(out@ =~= seq!['#'] + seq_upper(s@));
    }
    Some(string_of(&out))
}

pub struct DxfScanV {
    pub in_dxfs: bool,
    pub in_dxf: bool,
    pub depth: int,
    pub cur: Option<Seq<char>>,
    pub out: Seq<Option<Seq<char>>>,
}

pub open spec fn dxf_step(st: DxfScanV, ev: XmlEvent) -> DxfScanV {
    match ev {
        XmlEvent::Open { name, .. } => if name@ == "dxfs"@ {
            DxfScanV { in_dxfs: true, ..st }
        } else if st.in_dxfs && name@ == "dxf"@ {
            DxfScanV { in_dxf: true, depth: 1, cur: None, ..st }
        } else if st.in_dxf {
            DxfScanV { depth: st.depth + 1, ..st }
        } else {
            st
        },
        XmlEvent::Empty { name, .. } => if st.in_dxf && (name@ == "fgColor"@ || name@
            == "bgColor"@) && st.cur is None {
            match tag_attr(ev, "fgColor"@, "rgb"@) {
                Some(rgb) => DxfScanV { cur: normalized_rgb(rgb), ..st },
                None => match tag_attr(ev, "bgColor"@, "rgb"@) {
                    Some(rgb) => DxfScanV { cur: normalized_rgb(rgb), ..st },
                    None => st,
                },
            }
        } else {
            st
        },
        XmlEvent::Close { name, .. } => {
            let st1 = if st.in_dxf {
                if name@ == "dxf"@ {
                    DxfScanV { out: st.out.push(st.cur), cur: None, in_dxf: false, depth: 0, ..st }
                } else if st.depth > 0 {
                    DxfScanV { depth: st.depth - 1, ..st }
                } else {
                    st
                }
            } else {
                st
            };
            if name@ == "dxfs"@ {
                DxfScanV { in_dxfs: false, ..st1 }
            } else {
                st1
            }
        },
        _ => st,
    }
}

pub open spec fn dxf_scan(evs: Seq<XmlEvent>) -> DxfScanV
    decreases evs.len(),
{
    if evs.len() == 0 {
        DxfScanV { in_dxfs: false, in_dxf: false, depth: 0, cur: None, out: Seq::empty() }
    } else {
        dxf_step(dxf_scan(evs.drop_last()), evs.last())
    }
}

/// The background color of each `dxf` override in the shared style
/// part, by index: the first `fgColor`/`bgColor` leaf inside the
/// override, normalized.
pub open spec fn dxf_bg_colors_of(evs: Seq<XmlEvent>) -> Seq<Option<Seq<char>>> {
    dxf_scan(evs).out
}

pub open spec fn opt_seq_view(o: Option<String>) -> Option<Seq<char>> {
    opt_view(o)
}

/// Extract the `dxfs` background colors of the shared style part.
pub fn parse_dxf_bg_colors(evs: &Vec<XmlEvent>) -> (out: Vec<Option<String>>)
    ensures
        out@.map_values(|o: Option<String>| opt_seq_view(o)) == dxf_bg_colors_of(evs@),
{
    let mut out: Vec<Option<String>> = Vec::new();
    let mut in_dxfs = false;
    let mut in_dxf = false;
    let mut depth: u64 = 0;
    let mut cur: Option<String> = None;
    let mut i: usize = 0;
    while i < evs.len()
        invariant
            i <= evs@.len(),
            depth <= i,
            ({
                let st = dxf_scan(evs@.take(i as int));
                &&& st.in_dxfs == in_dxfs
                &&& st.in_dxf == in_dxf
                &&& st.depth == depth as int
                &&& st.cur == opt_view(cur)
                &&& st.out == out@.map_values(|o: Option<String>| opt_seq_view(o))
            }),
        decreases evs@.len() - i,
    {
        proof {
            assert(evs@.take(i + 1 as int).drop_last() =~= evs@.take(i as int));
            assert(evs@.take(i + 1 as int).last() == evs@[i as int]);
        }
        let ev = &evs[i];
        match ev {
            XmlEvent::Open { name, .. } => {
                let nv = chars_of(name.as_str());
                if str_eq_chars(&nv, "dxfs") {
                    in_dxfs = true;
                } else if in_dxfs && str_eq_chars(&nv, "dxf") {
                    in_dxf = true;
                    depth = 1;
                    cur = None;
                } else if in_dxf {
                    depth = depth + 1;
                }
            },
            XmlEvent::Empty { name, .. } => {
                let nv = chars_of(name.as_str());
                if in_dxf && (str_eq_chars(&nv, "fgColor") || str_eq_chars(&nv, "bgColor"))
                    && cur.is_none() {
                    match crate::scan::tag_attr_pub(ev, "fgColor", "rgb") {
                        Some(rgb) => {
                            cur = normalize_ooxml_rgb(rgb.as_str());
                        },
                        None => match crate::scan::tag_attr_pub(ev, "bgColor", "rgb") {
                            Some(rgb) => {
                                cur = normalize_ooxml_rgb(rgb.as_str());
                            },
                            None => {},
                        },
                    }
                }
            },
            XmlEvent::Close { name, .. } => {
                let nv = chars_of(name.as_str());
                if in_dxf {
                    if str_eq_chars(&nv, "dxf") {
                        out.push(cur);
                        proof {
                            assert(out@.map_values(|o: Option<String>| opt_seq_view(o))
                                =~= dxf_scan(evs@.take(i + 1 as int)).out);
                        }
                        cur = None;
                        in_dxf = false;
                        depth = 0;
                    } else if depth > 0 {
                        depth = depth - 1;
                    }
                }
                if str_eq_chars(&nv, "dxfs") {
                    in_dxfs = false;
                }
            },
            _ => {},
        }
        i += 1;
    }
    proof {
        assert(evs@.take(evs@.len() as int) =~= evs@);
    }
    out
}

/// The color an override names, by index; `None` past the list or for
/// an override without one.
pub open spec fn dxf_color_at(colors: Seq<Option<Seq<char>>>, idx: int) -> Option<Seq<char>> {
    if 0 <= idx < colors.len() {
        colors[idx]
    } else {
        None
    }
}

pub fn dxf_color_for(colors: &Vec<Option<String>>, idx: u32) -> (r: Option<String>)
    ensures
        opt_view(r) == dxf_color_at(
            colors@.map_values(|o: Option<String>| opt_seq_view(o)),
            idx as int,
        ),
{
    if (idx as usize) < colors.len() {
        let ghost cv = colors@.map_values(|o: Option<String>| opt_seq_view(o));
        proof {
            assert(cv[idx as int] == opt_seq_view(colors@[idx as int]));
        }
        match &colors[idx as usize] {
            Some(s) => Some(s.clone()),
            None => None,
        }
    } else {
        None
    }
}

} // verus!
use vstd::prelude::*;

verus! {

/// One border definition of the shared style part, as far as the
/// diagonal fallback needs it.
pub struct BorderDef {
    pub up: bool,
    pub down: bool,
    pub style: Option<String>,
    pub color: Option<String>,
}

pub struct BorderDefV {
    pub up: bool,
    pub down: bool,
    pub style: Option<Seq<char>>,
    pub color: Option<Seq<char>>,
}

impl View for BorderDef {
    type V = BorderDefV;

    open spec fn view(&self) -> BorderDefV {
        BorderDefV {
            up: self.up,
            down: self.down,
            style: opt_view(self.style),
            color: opt_view(self.color),
        }
    }
}

/// A diagonal border applied to a style id.
pub struct DiagonalBorderInfo {
    pub up: bool,
    pub down: bool,
    pub style: String,
    pub color: String,
}

pub struct DiagonalBorderInfoV {
    pub up: bool,
    pub down: bool,
    pub style: Seq<char>,
    pub color: Seq<char>,
}

impl View for DiagonalBorderInfo {
    type V = DiagonalBorderInfoV;

    open spec fn view(&self) -> DiagonalBorderInfoV {
        DiagonalBorderInfoV {
            up: self.up,
            down: self.down,
            style: self.style@,
            color: self.color@,
        }
    }
}

/// An OOXML boolean: `1` or `true` in any case.
pub open spec fn xml_bool(v: Seq<char>) -> bool {
    v == "1"@ || crate::text::eq_ignore_case(v, "true"@)
}

fn xml_bool_exec(v: &str) -> (r: bool)
    ensures
        r == xml_bool(v@),
{
    let cv = chars_of(v);
    if str_eq_chars(&cv, "1") {
        return true;
    }
    let u = upper_chars(&cv);
    let t = upper_chars(&chars_of("true"));
    crate::text::chars_eq(&u, &t)
}

pub open spec fn border_def_of_attrs(ev: XmlEvent) -> BorderDefV {
    BorderDefV {
        up: match tag_attr(ev, "border"@, "diagonalUp"@) {
            Some(v) => xml_bool(v),
            None => false,
        },
        down: match tag_attr(ev, "border"@, "diagonalDown"@) {
            Some(v) => xml_bool(v),
            None => false,
        },
        style: None,
        color: None,
    }
}

pub struct DiagScanV {
    pub in_borders: bool,
    pub in_cellxfs: bool,
    pub in_diagonal: bool,
    pub cur: Option<BorderDefV>,
    pub defs: Seq<BorderDefV>,
    pub xf_ids: Seq<int>,
}

pub open spec fn diag_set_style(st: DiagScanV, ev: XmlEvent, tag: Seq<char>) -> Option<BorderDefV> {
    match st.cur {
        Some(def) => match tag_attr(ev, tag, "style"@) {
            Some(style) => Some(BorderDefV { style: Some(style), ..def }),
            None => Some(def),
        },
        None => None,
    }
}

pub open spec fn diag_set_color(st: DiagScanV, ev: XmlEvent) -> Option<BorderDefV> {
    match st.cur {
        Some(def) => match tag_attr(ev, "color"@, "rgb"@) {
            Some(rgb) => Some(BorderDefV { color: normalized_rgb(rgb), ..def }),
            None => Some(def),
        },
        None => None,
    }
}

pub open spec fn xf_border_id(ev: XmlEvent) -> int {
    match tag_attr(ev, "xf"@, "borderId"@) {
        Some(v) => match dec_u32_of(v) {
            Some(x) => x,
            None => 0,
        },
        None => 0,
    }
}

pub open spec fn diag_step(st: DiagScanV, ev: XmlEvent) -> DiagScanV {
    match ev {
        XmlEvent::Open { name, .. } => if name@ == "borders"@ {
            DiagScanV { in_borders: true, ..st }
        } else if name@ == "border"@ && st.in_borders {
            DiagScanV { cur: Some(border_def_of_attrs(ev)), ..st }
        } else if name@ == "diagonal"@ {
            if st.cur is Some {
                DiagScanV { cur: diag_set_style(st, ev, "diagonal"@), in_diagonal: true, ..st }
            } else {
                st
            }
        } else if name@ == "color"@ && st.in_diagonal {
            DiagScanV { cur: diag_set_color(st, ev), ..st }
        } else if name@ == "cellXfs"@ {
            DiagScanV { in_cellxfs: true, ..st }
        } else if name@ == "xf"@ && st.in_cellxfs {
            DiagScanV { xf_ids: st.xf_ids.push(xf_border_id(ev)), ..st }
        } else {
            st
        },
        XmlEvent::Empty { name, .. } => if name@ == "border"@ && st.in_borders {
            DiagScanV { defs: st.defs.push(border_def_of_attrs(ev)), ..st }
        } else if name@ == "diagonal"@ {
            DiagScanV { cur: diag_set_style(st, ev, "diagonal"@), ..st }
        } else if name@ == "color"@ && st.in_diagonal {
            DiagScanV { cur: diag_set_color(st, ev), ..st }
        } else if name@ == "xf"@ && st.in_cellxfs {
            DiagScanV { xf_ids: st.xf_ids.push(xf_border_id(ev)), ..st }
        } else {
            st
        },
        XmlEvent::Close { name, .. } => if name@ == "borders"@ {
            DiagScanV { in_borders: false, ..st }
        } else if name@ == "border"@ {
            match st.cur {
                Some(def) => DiagScanV {
                    defs: st.defs.push(def),
                    cur: None,
                    in_diagonal: false,
                    ..st
                },
                None => DiagScanV { in_diagonal: false, ..st },
            }
        } else if name@ == "diagonal"@ {
            DiagScanV { in_diagonal: false, ..st }
        } else if name@ == "cellXfs"@ {
            DiagScanV { in_cellxfs: false, ..st }
        } else {
            st
        },
        _ => st,
    }
}

pub open spec fn diag_scan(evs: Seq<XmlEvent>) -> DiagScanV
    decreases evs.len(),
{
    if evs.len() == 0 {
        DiagScanV {
            in_borders: false,
            in_cellxfs: false,
            in_diagonal: false,
            cur: None,
            defs: Seq::empty(),
            xf_ids: Seq::empty(),
        }
    } else {
        diag_step(diag_scan(evs.drop_last()), evs.last())
    }
}

/// The diagonal border applied to one style id: its border definition
/// must exist, carry a diagonal flag, and name a style other than
/// `none`; a missing color falls back to black.
pub open spec fn diag_entry(defs: Seq<BorderDefV>, border_id: int) -> Option<DiagonalBorderInfoV> {
    if 0 <= border_id < defs.len() {
        let def = defs[border_id];
        if !(def.up || def.down) {
            None
        } else {
            match def.style {
                Some(s) => if s != "none"@ && s.len() > 0 {
                    Some(
                        DiagonalBorderInfoV {
                            up: def.up,
                            down: def.down,
                            style: s,
                            color: match def.color {
                                Some(c) => c,
                                None => "#000000"@,
                            },
                        },
                    )
                } else {
                    None
                },
                None => None,
            }
        }
    } else {
        None
    }
}

/// The diagonal borders by style id: one entry per `cellXfs` index whose
/// border definition applies a diagonal edge.
pub open spec fn diag_map(defs: Seq<BorderDefV>, xf_ids: Seq<int>) -> Seq<
    (int, DiagonalBorderInfoV),
>
    decreases xf_ids.len(),
{
    if xf_ids.len() == 0 {
        Seq::empty()
    } else {
        let prev = diag_map(defs, xf_ids.drop_last());
        match diag_entry(defs, xf_ids.last()) {
            Some(e) => prev.push((xf_ids.len() - 1, e)),
            None => prev,
        }
    }
}

pub open spec fn diag_pair_view(p: (u32, DiagonalBorderInfo)) -> (int, DiagonalBorderInfoV) {
    (p.0 as int, p.1@)
}

/// Scan the shared style part for diagonal borders by style id, which
/// the value oracle does not propagate.
pub fn parse_diagonal_borders(evs: &Vec<XmlEvent>) -> (out: Vec<(u32, DiagonalBorderInfo)>)
    requires
        evs@.len() <= 0xFFFF_FFFF,
    ensures
        ({
            let st = diag_scan(evs@);
            out@.map_values(|p: (u32, DiagonalBorderInfo)| diag_pair_view(p)) == diag_map(
                st.defs,
                st.xf_ids,
            )
        }),
{
    let mut in_borders = false;
    let mut in_cellxfs = false;
    let mut in_diagonal = false;
    let mut cur: Option<BorderDef> = None;
    let mut defs: Vec<BorderDef> = Vec::new();
    let mut xf_ids: Vec<u32> = Vec::new();
    let mut i: usize = 0;
    while i < evs.len()
        invariant
            i <= evs@.len(),
            ({
                let st = diag_scan(evs@.take(i as int));
                &&& st.in_borders == in_borders
                &&& st.in_cellxfs == in_cellxfs
                &&& st.in_diagonal == in_diagonal
                &&& st.cur == match cur {
                    Some(d) => Some(d@),
                    None => None::<BorderDefV>,
                }
                &&& st.defs == defs@.map_values(|d: BorderDef| d@)
                &&& st.xf_ids == xf_ids@.map_values(|x: u32| x as int)
            }),
            xf_ids@.len() <= i,
        decreases evs@.len() - i,
    {
        proof {
            assert(evs@.take(i + 1 as int).drop_last() =~= evs@.take(i as int));
            assert(evs@.take(i + 1 as int).last() == evs@[i as int]);
        }
        let ev = &evs[i];
        match ev {
            XmlEvent::Open { name, .. } => {
                let nv = chars_of(name.as_str());
                if str_eq_chars(&nv, "borders") {
                    in_borders = true;
                } else if str_eq_chars(&nv, "border") && in_borders {
                    cur = Some(border_def_from(ev));
                } else if str_eq_chars(&nv, "diagonal") {
                    if cur.is_some() {
                        cur = set_style_from(cur, ev);
                        in_diagonal = true;
                    }
                } else if str_eq_chars(&nv, "color") && in_diagonal {
                    cur = set_color_from(cur, ev);
                } else if str_eq_chars(&nv, "cellXfs") {
                    in_cellxfs = true;
                } else if str_eq_chars(&nv, "xf") && in_cellxfs {
                    xf_ids.push(xf_border_id_from(ev));
                    proof {
                        assert(xf_ids@.map_values(|x: u32| x as int) =~= diag_scan(
                            evs@.take(i + 1 as int),
                        ).xf_ids);
                    }
                }
            },
            XmlEvent::Empty { name, .. } => {
                let nv = chars_of(name.as_str());
                if str_eq_chars(&nv, "border") && in_borders {
                    defs.push(border_def_from(ev));
                    proof {
                        assert(defs@.map_values(|d: BorderDef| d@) =~= diag_scan(
                            evs@.take(i + 1 as int),
                        ).defs);
                    }
                } else if str_eq_chars(&nv, "diagonal") {
                    cur = set_style_from(cur, ev);
                } else if str_eq_chars(&nv, "color") && in_diagonal {
                    cur = set_color_from(cur, ev);
                } else if str_eq_chars(&nv, "xf") && in_cellxfs {
                    xf_ids.push(xf_border_id_from(ev));
                    proof {
                        assert(xf_ids@.map_values(|x: u32| x as int) =~= diag_scan(
                            evs@.take(i + 1 as int),
                        ).xf_ids);
                    }
                }
            },
            XmlEvent::Close { name, .. } => {
                let nv = chars_of(name.as_str());
                if str_eq_chars(&nv, "borders") {
                    in_borders = false;
                } else if str_eq_chars(&nv, "border") {
                    match cur {
                        Some(def) => {
                            defs.push(def);
                            proof {
                                assert(defs@.map_values(|d: BorderDef| d@) =~= diag_scan(
                                    evs@.take(i + 1 as int),
                                ).defs);
                            }
                            cur = None;
                            in_diagonal = false;
                        },
                        None => {
                            cur = None;
                            in_diagonal = false;
                        },
                    }
                } else if str_eq_chars(&nv, "diagonal") {
                    in_diagonal = false;
                } else if str_eq_chars(&nv, "cellXfs") {
                    in_cellxfs = false;
                }
            },
            _ => {},
        }
        i += 1;
    }
    proof {
        assert(evs@.take(evs@.len() as int) =~= evs@);
    }
    // Combine: one entry per style id whose border applies a diagonal.
    let mut out: Vec<(u32, DiagonalBorderInfo)> = Vec::new();
    let ghost dv = defs@.map_values(|d: BorderDef| d@);
    let ghost xv = xf_ids@.map_values(|x: u32| x as int);
    let mut j: usize = 0;
    while j < xf_ids.len()
        invariant
            j <= xf_ids@.len(),
            dv == defs@.map_values(|d: BorderDef| d@),
            xv == xf_ids@.map_values(|x: u32| x as int),
            xf_ids@.len() <= 0xFFFF_FFFF,
            out@.map_values(|p: (u32, DiagonalBorderInfo)| diag_pair_view(p)) == diag_map(
                dv,
                xv.take(j as int),
            ),
        decreases xf_ids@.len() - j,
    {
        proof {
            assert(xv.take(j + 1 as int).drop_last() =~= xv.take(j as int));
            assert(xv.take(j + 1 as int).last() == xv[j as int]);
        }
        let bid = xf_ids[j];
        if (bid as usize) < defs.len() {
            let def = &defs[bid as usize];
            proof {
                assert(dv[bid as int] == defs@[bid as int]@);
            }
            if def.up || def.down {
                match &def.style {
                    Some(s) => {
                        let sv = chars_of(s.as_str());
                        if !str_eq_chars(&sv, "none") && sv.len() > 0 {
                            let color: String = match &def.color {
                                Some(c) => c.clone(),
                                None => String::from_str("#000000"),
                            };
                            let info = DiagonalBorderInfo {
                                up: def.up,
                                down: def.down,
                                style: s.clone(),
                                color,
                            };
                            out.push((j as u32, info));
                            proof {
                                assert(out@.map_values(
                                    |p: (u32, DiagonalBorderInfo)| diag_pair_view(p),
                                ) =~= diag_map(dv, xv.take(j + 1 as int)));
                            }
                        }
                    },
                    None => {},
                }
            }
        }
        j += 1;
    }
    proof {
        assert(xv.take(xv.len() as int) =~= xv);
    }
    out
}

fn border_def_from(ev: &XmlEvent) -> (r: BorderDef)
    ensures
        r@ == border_def_of_attrs(*ev),
{
    BorderDef {
        up: match crate::scan::tag_attr_pub(ev, "border", "diagonalUp") {
            Some(v) => xml_bool_exec(v.as_str()),
            None => false,
        },
        down: match crate::scan::tag_attr_pub(ev, "border", "diagonalDown") {
            Some(v) => xml_bool_exec(v.as_str()),
            None => false,
        },
        style: None,
        color: None,
    }
}

fn set_style_from(cur: Option<BorderDef>, ev: &XmlEvent) -> (r: Option<BorderDef>)
    ensures
        ({
            let st = DiagScanV {
                in_borders: false,
                in_cellxfs: false,
                in_diagonal: false,
                cur: match cur {
                    Some(d) => Some(d@),
                    None => None,
                },
                defs: Seq::empty(),
                xf_ids: Seq::empty(),
            };
            match r {
                Some(d) => diag_set_style(st, *ev, "diagonal"@) == Some(d@),
                None => diag_set_style(st, *ev, "diagonal"@) is None,
            }
        }),
{
    match cur {
        Some(def) => match crate::scan::tag_attr_pub(ev, "diagonal", "style") {
            Some(style) => Some(
                BorderDef { style: Some(style), color: def.color, up: def.up, down: def.down },
            ),
            None => Some(def),
        },
        None => None,
    }
}

fn set_color_from(cur: Option<BorderDef>, ev: &XmlEvent) -> (r: Option<BorderDef>)
    ensures
        ({
            let st = DiagScanV {
                in_borders: false,
                in_cellxfs: false,
                in_diagonal: false,
                cur: match cur {
                    Some(d) => Some(d@),
                    None => None,
                },
                defs: Seq::empty(),
                xf_ids: Seq::empty(),
            };
            match r {
                Some(d) => diag_set_color(st, *ev) == Some(d@),
                None => diag_set_color(st, *ev) is None,
            }
        }),
{
    match cur {
        Some(def) => match crate::scan::tag_attr_pub(ev, "color", "rgb") {
            Some(rgb) => Some(
                BorderDef {
                    color: normalize_ooxml_rgb(rgb.as_str()),
                    style: def.style,
                    up: def.up,
                    down: def.down,
                },
            ),
            None => Some(def),
        },
        None => None,
    }
}

fn xf_border_id_from(ev: &XmlEvent) -> (r: u32)
    ensures
        r as int == xf_border_id(*ev),
{
    match crate::scan::tag_attr_pub(ev, "xf", "borderId") {
        Some(v) => match crate::scan::parse_u32_dec(v.as_str()) {
            Some(x) => x,
            None => 0,
        },
        None => 0,
    }
}

/// The diagonal border recorded for a style id.
pub open spec fn diag_at(
    entries: Seq<(int, DiagonalBorderInfoV)>,
    sid: int,
) -> Option<DiagonalBorderInfoV>
    decreases entries.len(),
{
    if entries.len() == 0 {
        None
    } else if entries.last().0 == sid {
        Some(entries.last().1)
    } else {
        diag_at(entries.drop_last(), sid)
    }
}

/// Look the diagonal border of a style id up.
pub fn diag_for(entries: &Vec<(u32, DiagonalBorderInfo)>, sid: u32) -> (r: Option<
    DiagonalBorderInfo,
>)
    ensures
        ({
            let ev = entries@.map_values(|p: (u32, DiagonalBorderInfo)| diag_pair_view(p));
            match r {
                Some(d) => diag_at(ev, sid as int) == Some(d@),
                None => diag_at(ev, sid as int) is None,
            }
        }),
{
    let ghost ev = entries@.map_values(|p: (u32, DiagonalBorderInfo)| diag_pair_view(p));
    let mut i: usize = entries.len();
    proof {
        assert(ev.take(ev.len() as int) =~= ev);
    }
    while i > 0
        invariant
            i <= entries@.len(),
            ev == entries@.map_values(|p: (u32, DiagonalBorderInfo)| diag_pair_view(p)),
            diag_at(ev, sid as int) == diag_at(ev.take(i as int), sid as int),
        decreases i,
    {
        i -= 1;
        proof {
            assert(ev.take(i + 1 as int).drop_last() =~= ev.take(i as int));
            assert(ev.take(i + 1 as int).last() == ev[i as int]);
        }
        if entries[i].0 == sid {
            let d = &entries[i].1;
            return Some(
                DiagonalBorderInfo {
                    up: d.up,
                    down: d.down,
                    style: d.style.clone(),
                    color: d.color.clone(),
                },
            );
        }
    }
    proof {
        assert(ev.take(0) =~= Seq::<(int, DiagonalBorderInfoV)>::empty());
    }
    None
}

} // verus!
use vstd::prelude::*;

verus! {

/// Public form of the OOXML boolean test.
pub fn xml_bool_pub(v: &str) -> (r: bool)
    ensures
        r == xml_bool(v@),
{
    xml_bool_exec(v)
}

} // verus!
