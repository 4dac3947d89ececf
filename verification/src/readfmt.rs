use vstd::prelude::*;

use crate::styles::{DiagonalBorderInfo, DiagonalBorderInfoV};
use crate::scan::opt_view;

verus! {

/// One projected border edge.
pub struct BorderEdge {
    pub style: String,
    pub color: String,
}

pub struct BorderEdgeV {
    pub style: Seq<char>,
    pub color: Seq<char>,
}

impl View for BorderEdge {
    type V = BorderEdgeV;

    open spec fn view(&self) -> BorderEdgeV {
        BorderEdgeV { style: self.style@, color: self.color@ }
    }
}

/// The projected borders of one cell: only edges with a style present.
pub struct BorderOut {
    pub top: Option<BorderEdge>,
    pub bottom: Option<BorderEdge>,
    pub left: Option<BorderEdge>,
    pub right: Option<BorderEdge>,
    pub diagonal_up: Option<BorderEdge>,
    pub diagonal_down: Option<BorderEdge>,
}

pub open spec fn edge_view(o: Option<BorderEdge>) -> Option<BorderEdgeV> {
    match o {
        Some(e) => Some(e@),
        None => None,
    }
}

/// The diagonal edge a fallback definition supplies: only when the
/// owning border definition raises the matching flag and names a style
/// other than `none`; a missing color already fell back to black when
/// the definition was read.
pub open spec fn fallback_edge(d: DiagonalBorderInfoV, up: bool) -> Option<BorderEdgeV> {
    let flagged = if up {
        d.up
    } else {
        d.down
    };
    if flagged && d.style != "none"@ {
        Some(BorderEdgeV { style: d.style, color: d.color })
    } else {
        None
    }
}

impl BorderOut {
    /// Apply the diagonal fallback from the shared style part: a
    /// diagonal edge that the value oracle already produced stands;
    /// only an absent edge takes the definition's style and color. The
    /// four straight edges never change.
    pub fn apply_diagonal_fallback(self, diag: Option<&DiagonalBorderInfo>) -> (r: BorderOut)
        ensures
            edge_view(r.top) == edge_view(self.top),
            edge_view(r.bottom) == edge_view(self.bottom),
            edge_view(r.left) == edge_view(self.left),
            edge_view(r.right) == edge_view(self.right),
            self.diagonal_up is Some ==> edge_view(r.diagonal_up) == edge_view(self.diagonal_up),
            self.diagonal_down is Some ==> edge_view(r.diagonal_down) == edge_view(
                self.diagonal_down,
            ),
            self.diagonal_up is None ==> edge_view(r.diagonal_up) == (match diag {
                Some(d) => fallback_edge(d@, true),
                None => None,
            }),
            self.diagonal_down is None ==> edge_view(r.diagonal_down) == (match diag {
                Some(d) => fallback_edge(d@, false),
                None => None,
            }),
    {
        let BorderOut { top, bottom, left, right, diagonal_up, diagonal_down } = self;
        let du: Option<BorderEdge> = match (&diagonal_up, diag) {
            (Some(_), _) => diagonal_up,
            (None, Some(d)) => {
                let sv = crate::text::chars_of(d.style.as_str());
                if d.up && !crate::text::str_eq_chars(&sv, "none") {
                    Some(BorderEdge { style: d.style.clone(), color: d.color.clone() })
                } else {
                    None
                }
            },
            (None, None) => None,
        };
        let dd: Option<BorderEdge> = match (&diagonal_down, diag) {
            (Some(_), _) => diagonal_down,
            (None, Some(d)) => {
                let sv = crate::text::chars_of(d.style.as_str());
                if d.down && !crate::text::str_eq_chars(&sv, "none") {
                    Some(BorderEdge { style: d.style.clone(), color: d.color.clone() })
                } else {
                    None
                }
            },
            (None, None) => None,
        };
        BorderOut { top, bottom, left, right, diagonal_up: du, diagonal_down: dd }
    }
}

/// Diagonal fallback law: a border definition carrying a raised
/// diagonal flag and a real style always supplies the matching absent
/// edge, with exactly its style and color.
pub proof fn lemma_diagonal_fallback(d: DiagonalBorderInfoV)
    requires
        d.up,
        d.style != "none"@,
    ensures
        fallback_edge(d, true) == Some(BorderEdgeV { style: d.style, color: d.color }),
{
}

/// The style grid is addressed relative to its origin; a coordinate
/// before the origin has no style.
pub fn style_grid_pos(origin_row: u32, origin_col: u32, row: u32, col: u32) -> (r: Option<
    (u32, u32),
>)
    ensures
        r == if row >= origin_row && col >= origin_col {
            Some((((row - origin_row) as u32), ((col - origin_col) as u32)))
        } else {
            None::<(u32, u32)>
        },
{
    if row < origin_row || col < origin_col {
        None
    } else {
        Some((row - origin_row, col - origin_col))
    }
}

} // verus!
use vstd::prelude::*;

verus! {

/// A decoded cell style as the value oracle hands it over: enum values
/// already carried as their token text, colors as `#RRGGBB`, sizes in
/// fixed-point units.
pub struct StyleIn {
    pub bold: bool,
    pub italic: bool,
    /// Underline token, or `none`.
    pub underline: Option<String>,
    pub strikethrough: bool,
    pub font_name: Option<String>,
    pub font_size_e8: Option<u64>,
    pub font_color: Option<String>,
    /// Whether the fill pattern is the empty pattern.
    pub fill_pattern_none: bool,
    pub fill_color: Option<String>,
    pub number_format: Option<String>,
    /// Horizontal alignment token, `general` for the default.
    pub h_align: Option<String>,
    /// Vertical alignment token, `bottom` for the default.
    pub v_align: Option<String>,
    pub wrap: bool,
    /// Rotation in degrees, or 255 for stacked text.
    pub rotation: Option<i32>,
    pub indent: Option<u32>,
}

/// The projected format of one cell: only fields away from their
/// defaults are present.
pub struct FormatOut {
    pub bold: bool,
    pub italic: bool,
    pub underline: Option<String>,
    pub strikethrough: bool,
    pub font_name: Option<String>,
    pub font_size_e8: Option<u64>,
    pub font_color: Option<String>,
    pub bg_color: Option<String>,
    pub number_format: Option<String>,
    pub h_align: Option<String>,
    pub v_align: Option<String>,
    pub wrap: bool,
    pub rotation: Option<i32>,
    pub indent: Option<u32>,
}

pub open spec fn opt_sv(o: Option<String>) -> Option<Seq<char>> {
    match o {
        Some(s) => Some(s@),
        None => None,
    }
}

/// Project one decoded style onto the external format schema: an
/// underline of `none` is omitted, a fill without a pattern carries no
/// background, the `General` number format is omitted, the `general`
/// and `bottom` alignments are omitted, and a rotation or indent of
/// zero is omitted.
pub fn project_format(s: StyleIn) -> (r: FormatOut)
    ensures
        r.bold == s.bold,
        r.italic == s.italic,
        opt_sv(r.underline) == (match s.underline {
            Some(u) => if u@ == "none"@ {
                None::<Seq<char>>
            } else {
                Some(u@)
            },
            None => None::<Seq<char>>,
        }),
        r.strikethrough == s.strikethrough,
        opt_sv(r.font_name) == opt_sv(s.font_name),
        r.font_size_e8 == s.font_size_e8,
        opt_sv(r.font_color) == opt_sv(s.font_color),
        opt_sv(r.bg_color) == (if s.fill_pattern_none {
            None::<Seq<char>>
        } else {
            opt_sv(s.fill_color)
        }),
        opt_sv(r.number_format) == (match s.number_format {
            Some(f) => if f@ == "General"@ {
                None::<Seq<char>>
            } else {
                Some(f@)
            },
            None => None::<Seq<char>>,
        }),
        opt_sv(r.h_align) == (match s.h_align {
            Some(a) => if a@ == "general"@ {
                None::<Seq<char>>
            } else {
                Some(a@)
            },
            None => None::<Seq<char>>,
        }),
        opt_sv(r.v_align) == (match s.v_align {
            Some(a) => if a@ == "bottom"@ {
                None::<Seq<char>>
            } else {
                Some(a@)
            },
            None => None::<Seq<char>>,
        }),
        r.wrap == s.wrap,
        r.rotation == (match s.rotation {
            Some(d) => if d == 0 {
                None::<i32>
            } else {
                Some(d)
            },
            None => None::<i32>,
        }),
        r.indent == (match s.indent {
            Some(x) => if x == 0 {
                None::<u32>
            } else {
                Some(x)
            },
            None => None::<u32>,
        }),
{
    let StyleIn {
        bold,
        italic,
        underline,
        strikethrough,
        font_name,
        font_size_e8,
        font_color,
        fill_pattern_none,
        fill_color,
        number_format,
        h_align,
        v_align,
        wrap,
        rotation,
        indent,
    } = s;
    let underline2 = match underline {
        Some(u) => {
            let uv = crate::text::chars_of(u.as_str());
            if crate::text::str_eq_chars(&uv, "none") {
                None
            } else {
                Some(u)
            }
        },
        None => None,
    };
    let bg = if fill_pattern_none {
        None
    } else {
        fill_color
    };
    let nf = match number_format {
        Some(f) => {
            let fv = crate::text::chars_of(f.as_str());
            if crate::text::str_eq_chars(&fv, "General") {
                None
            } else {
                Some(f)
            }
        },
        None => None,
    };
    let ha = match h_align {
        Some(a) => {
            let av = crate::text::chars_of(a.as_str());
            if crate::text::str_eq_chars(&av, "general") {
                None
            } else {
                Some(a)
            }
        },
        None => None,
    };
    let va = match v_align {
        Some(a) => {
            let av = crate::text::chars_of(a.as_str());
            if crate::text::str_eq_chars(&av, "bottom") {
                None
            } else {
                Some(a)
            }
        },
        None => None,
    };
    let rot = match rotation {
        Some(d) => if d == 0 {
            None
        } else {
            Some(d)
        },
        None => None,
    };
    let ind = match indent {
        Some(x) => if x == 0 {
            None
        } else {
            Some(x)
        },
        None => None,
    };
    FormatOut {
        bold,
        italic,
        underline: underline2,
        strikethrough,
        font_name,
        font_size_e8,
        font_color,
        bg_color: bg,
        number_format: nf,
        h_align: ha,
        v_align: va,
        wrap,
        rotation: rot,
        indent: ind,
    }
}

/// Project one border edge: an edge whose style is `none` is absent,
/// and a styled edge without a color falls back to black.
pub fn project_edge(style_tok: Option<String>, color: Option<String>) -> (r: Option<BorderEdge>)
    ensures
        match style_tok {
            Some(st) => if st@ == "none"@ {
                r is None
            } else {
                r matches Some(e) && e.style@ == st@ && e.color@ == (match color {
                    Some(c) => c@,
                    None => "#000000"@,
                })
            },
            None => r is None,
        },
{
    match style_tok {
        Some(st) => {
            let sv = crate::text::chars_of(st.as_str());
            if crate::text::str_eq_chars(&sv, "none") {
                None
            } else {
                let c = match color {
                    Some(c) => c,
                    None => String::from_str("#000000"),
                };
                Some(BorderEdge { style: st, color: c })
            }
        },
        None => None,
    }
}

} // verus!
use vstd::prelude::*;

verus! {

proof fn lemma_diag_map_keys(
    defs: Seq<crate::styles::BorderDefV>,
    xf_ids: Seq<int>,
)
    ensures
        forall|i: int|
            0 <= i < crate::styles::diag_map(defs, xf_ids).len()
                ==> 0 <= (#[trigger] crate::styles::diag_map(defs, xf_ids)[i]).0 < xf_ids.len(),
    decreases xf_ids.len(),
{
    if xf_ids.len() > 0 {
        lemma_diag_map_keys(defs, xf_ids.drop_last());
        let prev = crate::styles::diag_map(defs, xf_ids.drop_last());
        assert(forall|i: int| 0 <= i < prev.len() ==> prev[i] == crate::styles::diag_map(
            defs,
            xf_ids,
        )[i]);
    }
}

proof fn lemma_diag_map_at(
    defs: Seq<crate::styles::BorderDefV>,
    xf_ids: Seq<int>,
    sid: int,
)
    requires
        0 <= sid < xf_ids.len(),
        crate::styles::diag_entry(defs, xf_ids[sid]) is Some,
    ensures
        crate::styles::diag_at(crate::styles::diag_map(defs, xf_ids), sid)
            == crate::styles::diag_entry(defs, xf_ids[sid]),
    decreases xf_ids.len(),
{
    let m = crate::styles::diag_map(defs, xf_ids);
    let b = xf_ids.drop_last();
    if sid == xf_ids.len() - 1 {
        assert(xf_ids.last() == xf_ids[sid]);
        assert(m == crate::styles::diag_map(defs, b).push(
            (sid, crate::styles::diag_entry(defs, xf_ids[sid])->Some_0),
        ));
    } else {
        assert(b[sid] == xf_ids[sid]);
        lemma_diag_map_at(defs, b, sid);
        match crate::styles::diag_entry(defs, xf_ids.last()) {
            Some(e) => {
                assert(m == crate::styles::diag_map(defs, b).push((xf_ids.len() - 1, e)));
                assert(m.last().0 != sid);
                assert(m.drop_last() =~= crate::styles::diag_map(defs, b));
            },
            None => {
                assert(m == crate::styles::diag_map(defs, b));
            },
        }
    }
}

/// Diagonal-fallback law, end to end: when a style id's border
/// definition raises the diagonal-up flag and names a style other than
/// `none`, the scan records that definition under the style id, and the
/// fallback supplies the absent diagonal-up edge with exactly the
/// definition's style and its color (black when none was given).
pub proof fn lemma_diagonal_border_applies(
    defs: Seq<crate::styles::BorderDefV>,
    xf_ids: Seq<int>,
    sid: int,
)
    requires
        0 <= sid < xf_ids.len(),
        0 <= xf_ids[sid] < defs.len(),
        defs[xf_ids[sid]].up,
        defs[xf_ids[sid]].style is Some,
        defs[xf_ids[sid]].style->Some_0 != "none"@,
        defs[xf_ids[sid]].style->Some_0.len() > 0,
    ensures
        ({
            let d = defs[xf_ids[sid]];
            let found = crate::styles::diag_at(crate::styles::diag_map(defs, xf_ids), sid);
            &&& found is Some
            &&& fallback_edge(found->Some_0, true) == Some(
                BorderEdgeV {
                    style: d.style->Some_0,
                    color: match d.color {
                        Some(c) => c,
                        None => "#000000"@,
                    },
                },
            )
        }),
{
    lemma_diag_map_keys(defs, xf_ids);
    lemma_diag_map_at(defs, xf_ids, sid);
}

} // verus!
