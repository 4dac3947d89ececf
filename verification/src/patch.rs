use vstd::prelude::*;

use crate::xml::{XmlEvent, XmlEventV, XmlAttr, XmlAttrV, attrs_view, make_empty_tag, empty_tag_raw};
use crate::scan::{is_tag, tag_attr};
use crate::text::{chars_of, string_of, str_eq_chars};

verus! {

/// The attributes of the split `pane` element: the split offsets when
/// positive, the top-left active pane, and the split state.
pub open spec fn split_pane_attrs(x_split: int, y_split: int) -> Seq<XmlAttrV> {
    let base: Seq<XmlAttrV> = Seq::empty();
    let a1 = if x_split > 0 {
        base.push(XmlAttrV { key: "xSplit"@, value: crate::addr::digits_of(x_split) })
    } else {
        base
    };
    let a2 = if y_split > 0 {
        a1.push(XmlAttrV { key: "ySplit"@, value: crate::addr::digits_of(y_split) })
    } else {
        a1
    };
    a2.push(XmlAttrV { key: "activePane"@, value: "topLeft"@ }).push(
        XmlAttrV { key: "state"@, value: "split"@ },
    )
}

pub open spec fn split_selection_attrs() -> Seq<XmlAttrV> {
    Seq::<XmlAttrV>::empty().push(XmlAttrV { key: "activeCell"@, value: "A1"@ }).push(
        XmlAttrV { key: "sqref"@, value: "A1"@ },
    )
}

/// Build the replacement `pane` element.
pub fn make_split_pane(x_split: u32, y_split: u32) -> (r: XmlEvent)
    ensures
        r matches XmlEvent::Empty { name, attrs, raw } && name@ == "pane"@ && attrs_view(attrs@)
            == split_pane_attrs(x_split as int, y_split as int) && raw@ == empty_tag_raw(
            "pane"@,
            split_pane_attrs(x_split as int, y_split as int),
        ),
        crate::xml::wf_event(r),
{
    let mut attrs: Vec<XmlAttr> = Vec::new();
    if x_split > 0 {
        let xs = crate::addr::u32_digits(x_split);
        attrs.push(XmlAttr { key: String::from_str("xSplit"), value: xs });
    }
    if y_split > 0 {
        let ys = crate::addr::u32_digits(y_split);
        attrs.push(XmlAttr { key: String::from_str("ySplit"), value: ys });
    }
    attrs.push(XmlAttr { key: String::from_str("activePane"), value: String::from_str("topLeft") });
    attrs.push(XmlAttr { key: String::from_str("state"), value: String::from_str("split") });
    proof {
        assert(attrs_view(attrs@) =~= split_pane_attrs(x_split as int, y_split as int));
        reveal_strlit("pane");
        assert("pane"@.len() == 4);
        assert(forall|i: int|
            0 <= i < "pane"@.len() ==> #[trigger] "pane"@[i] != '/' && "pane"@[i] != '!'
                && "pane"@[i] != '?' && "pane"@[i] != '<' && "pane"@[i] != '>');
    }
    make_empty_tag("pane", attrs)
}

pub fn make_split_selection() -> (r: XmlEvent)
    ensures
        r matches XmlEvent::Empty { name, attrs, raw } && name@ == "selection"@ && attrs_view(
            attrs@,
        ) == split_selection_attrs() && raw@ == empty_tag_raw(
            "selection"@,
            split_selection_attrs(),
        ),
        crate::xml::wf_event(r),
{
    let mut attrs: Vec<XmlAttr> = Vec::new();
    attrs.push(XmlAttr { key: String::from_str("activeCell"), value: String::from_str("A1") });
    attrs.push(XmlAttr { key: String::from_str("sqref"), value: String::from_str("A1") });
    proof {
        assert(attrs_view(attrs@) =~= split_selection_attrs());
        reveal_strlit("selection");
        assert("selection"@.len() == 9);
        assert(forall|i: int|
            0 <= i < "selection"@.len() ==> #[trigger] "selection"@[i] != '/' && "selection"@[i]
                != '!' && "selection"@[i] != '?' && "selection"@[i] != '<' && "selection"@[i]
                != '>');
    }
    make_empty_tag("selection", attrs)
}

/// The abstract replacement pane element.
pub open spec fn split_pane_event_v(x: int, y: int) -> XmlEventV {
    XmlEventV::Empty {
        name: "pane"@,
        attrs: split_pane_attrs(x, y),
        raw: empty_tag_raw("pane"@, split_pane_attrs(x, y)),
    }
}

/// The abstract replacement selection element.
pub open spec fn split_selection_event_v() -> XmlEventV {
    XmlEventV::Empty {
        name: "selection"@,
        attrs: split_selection_attrs(),
        raw: empty_tag_raw("selection"@, split_selection_attrs()),
    }
}

pub open spec fn events_view(evs: Seq<XmlEvent>) -> Seq<XmlEventV> {
    evs.map_values(|e: XmlEvent| e@)
}

/// State of the split-pane rewrite.
pub struct SplitPatchV {
    pub in_sheet_view: bool,
    pub replaced_pane: bool,
    pub wrote_selection: bool,
    pub skip_depth: int,
    pub out: Seq<XmlEventV>,
}

pub open spec fn v_name(e: XmlEventV) -> Seq<char> {
    match e {
        XmlEventV::Open { name, .. } => name,
        XmlEventV::Empty { name, .. } => name,
        XmlEventV::Close { name, .. } => name,
        _ => Seq::empty(),
    }
}

/// One step of the split-pane rewrite: inside the sheet view, the old
/// pane subtree is replaced by the split pane and every selection
/// subtree is dropped; a missing pane or selection is supplied just
/// before the sheet view closes; everything else passes through.
pub open spec fn split_step(st: SplitPatchV, ev: XmlEventV, x: int, y: int) -> SplitPatchV {
    let pane = split_pane_event_v(x, y);
    let sel = split_selection_event_v();
    match ev {
        XmlEventV::Open { name, .. } => {
            if st.skip_depth > 0 {
                SplitPatchV { skip_depth: st.skip_depth + 1, ..st }
            } else if st.in_sheet_view && name == "pane"@ {
                SplitPatchV { out: st.out.push(pane), replaced_pane: true, skip_depth: 1, ..st }
            } else if st.in_sheet_view && name == "selection"@ {
                SplitPatchV { skip_depth: 1, ..st }
            } else if name == "sheetView"@ {
                SplitPatchV { in_sheet_view: true, out: st.out.push(ev), ..st }
            } else {
                SplitPatchV { out: st.out.push(ev), ..st }
            }
        },
        XmlEventV::Empty { name, .. } => {
            if st.skip_depth > 0 {
                st
            } else if st.in_sheet_view && name == "pane"@ {
                SplitPatchV { out: st.out.push(pane), replaced_pane: true, ..st }
            } else if st.in_sheet_view && name == "selection"@ {
                st
            } else if name == "sheetView"@ {
                SplitPatchV { in_sheet_view: false, out: st.out.push(ev), ..st }
            } else {
                SplitPatchV { out: st.out.push(ev), ..st }
            }
        },
        XmlEventV::Close { name, .. } => {
            if st.skip_depth > 0 {
                SplitPatchV { skip_depth: st.skip_depth - 1, ..st }
            } else if name == "sheetView"@ {
                let o1 = if !st.replaced_pane {
                    st.out.push(pane)
                } else {
                    st.out
                };
                let o2 = if !st.wrote_selection {
                    o1.push(sel)
                } else {
                    o1
                };
                SplitPatchV {
                    in_sheet_view: false,
                    replaced_pane: true,
                    wrote_selection: true,
                    out: o2.push(ev),
                    ..st
                }
            } else {
                SplitPatchV { out: st.out.push(ev), ..st }
            }
        },
        _ => {
            if st.skip_depth > 0 {
                st
            } else {
                SplitPatchV { out: st.out.push(ev), ..st }
            }
        },
    }
}

pub open spec fn split_fold(evs: Seq<XmlEventV>, x: int, y: int) -> SplitPatchV
    decreases evs.len(),
{
    if evs.len() == 0 {
        SplitPatchV {
            in_sheet_view: false,
            replaced_pane: false,
            wrote_selection: false,
            skip_depth: 0,
            out: Seq::empty(),
        }
    } else {
        split_step(split_fold(evs.drop_last(), x, y), evs.last(), x, y)
    }
}

/// Rewrite a worksheet token run so its sheet view shows a true split
/// at the given offsets.
pub fn patch_split_events(evs: &Vec<XmlEvent>, x_split: u32, y_split: u32) -> (out: Vec<XmlEvent>)
    ensures
        events_view(out@) == split_fold(events_view(evs@), x_split as int, y_split as int).out,
{
    let pane = make_split_pane(x_split, y_split);
    let sel = make_split_selection();
    let ghost x = x_split as int;
    let ghost y = y_split as int;
    proof {
        assert(pane@ == split_pane_event_v(x, y));
        assert(sel@ == split_selection_event_v());
    }
    let mut out: Vec<XmlEvent> = Vec::new();
    let mut in_sheet_view = false;
    let mut replaced_pane = false;
    let mut wrote_selection = false;
    let mut skip_depth: u64 = 0;
    let mut i: usize = 0;
    while i < evs.len()
        invariant
            i <= evs@.len(),
            skip_depth <= i,
            pane@ == split_pane_event_v(x, y),
            sel@ == split_selection_event_v(),
            x == x_split as int,
            y == y_split as int,
            ({
                let st = split_fold(events_view(evs@.take(i as int)), x, y);
                &&& st.in_sheet_view == in_sheet_view
                &&& st.replaced_pane == replaced_pane
                &&& st.wrote_selection == wrote_selection
                &&& st.skip_depth == skip_depth as int
                &&& st.out == events_view(out@)
            }),
        decreases evs@.len() - i,
    {
        proof {
            assert(events_view(evs@.take(i + 1 as int)).drop_last() =~= events_view(
                evs@.take(i as int),
            ));
            assert(events_view(evs@.take(i + 1 as int)).last() == evs@[i as int]@);
        }
        let ev = &evs[i];
        match ev {
            XmlEvent::Open { name, .. } => {
                let nv = chars_of(name.as_str());
                if skip_depth > 0 {
                    skip_depth = skip_depth + 1;
                } else if in_sheet_view && str_eq_chars(&nv, "pane") {
                    out.push(clone_event(&pane));
                    replaced_pane = true;
                    skip_depth = 1;
                    proof {
                        assert(events_view(out@) =~= split_fold(
                            events_view(evs@.take(i + 1 as int)),
                            x,
                            y,
                        ).out);
                    }
                } else if in_sheet_view && str_eq_chars(&nv, "selection") {
                    skip_depth = 1;
                } else if str_eq_chars(&nv, "sheetView") {
                    in_sheet_view = true;
                    out.push(clone_event(ev));
                    proof {
                        assert(events_view(out@) =~= split_fold(
                            events_view(evs@.take(i + 1 as int)),
                            x,
                            y,
                        ).out);
                    }
                } else {
                    out.push(clone_event(ev));
                    proof {
                        assert(events_view(out@) =~= split_fold(
                            events_view(evs@.take(i + 1 as int)),
                            x,
                            y,
                        ).out);
                    }
                }
            },
            XmlEvent::Empty { name, .. } => {
                let nv = chars_of(name.as_str());
                if skip_depth > 0 {
                } else if in_sheet_view && str_eq_chars(&nv, "pane") {
                    out.push(clone_event(&pane));
                    replaced_pane = true;
                    proof {
                        assert(events_view(out@) =~= split_fold(
                            events_view(evs@.take(i + 1 as int)),
                            x,
                            y,
                        ).out);
                    }
                } else if in_sheet_view && str_eq_chars(&nv, "selection") {
                } else if str_eq_chars(&nv, "sheetView") {
                    in_sheet_view = false;
                    out.push(clone_event(ev));
                    proof {
                        assert(events_view(out@) =~= split_fold(
                            events_view(evs@.take(i + 1 as int)),
                            x,
                            y,
                        ).out);
                    }
                } else {
                    out.push(clone_event(ev));
                    proof {
                        assert(events_view(out@) =~= split_fold(
                            events_view(evs@.take(i + 1 as int)),
                            x,
                            y,
                        ).out);
                    }
                }
            },
            XmlEvent::Close { name, .. } => {
                let nv = chars_of(name.as_str());
                if skip_depth > 0 {
                    skip_depth = skip_depth - 1;
                } else if str_eq_chars(&nv, "sheetView") {
                    if !replaced_pane {
                        out.push(clone_event(&pane));
                    }
                    if !wrote_selection {
                        out.push(clone_event(&sel));
                    }
                    replaced_pane = true;
                    wrote_selection = true;
                    in_sheet_view = false;
                    out.push(clone_event(ev));
                    proof {
                        assert(events_view(out@) =~= split_fold(
                            events_view(evs@.take(i + 1 as int)),
                            x,
                            y,
                        ).out);
                    }
                } else {
                    out.push(clone_event(ev));
                    proof {
                        assert(events_view(out@) =~= split_fold(
                            events_view(evs@.take(i + 1 as int)),
                            x,
                            y,
                        ).out);
                    }
                }
            },
            _ => {
                if skip_depth > 0 {
                } else {
                    out.push(clone_event(ev));
                    proof {
                        assert(events_view(out@) =~= split_fold(
                            events_view(evs@.take(i + 1 as int)),
                            x,
                            y,
                        ).out);
                    }
                }
            },
        }
        i += 1;
    }
    proof {
        assert(evs@.take(evs@.len() as int) =~= evs@);
    }
    out
}

/// A structural copy of one event.
pub fn clone_event(ev: &XmlEvent) -> (r: XmlEvent)
    ensures
        r@ == ev@,
{
    match ev {
        XmlEvent::Open { name, attrs, raw } => {
            let r = XmlEvent::Open {
                name: name.clone(),
                attrs: clone_attrs(attrs),
                raw: raw.clone(),
            };
            proof {
                assert(r@ == ev@);
            }
            r
        },
        XmlEvent::Empty { name, attrs, raw } => {
            let r = XmlEvent::Empty {
                name: name.clone(),
                attrs: clone_attrs(attrs),
                raw: raw.clone(),
            };
            proof {
                assert(r@ == ev@);
            }
            r
        },
        XmlEvent::Close { name, raw } => XmlEvent::Close { name: name.clone(), raw: raw.clone() },
        XmlEvent::Text { text, raw } => XmlEvent::Text { text: text.clone(), raw: raw.clone() },
        XmlEvent::Other { raw } => XmlEvent::Other { raw: raw.clone() },
    }
}

fn clone_attrs(attrs: &Vec<XmlAttr>) -> (r: Vec<XmlAttr>)
    ensures
        attrs_view(r@) == attrs_view(attrs@),
{
    let mut out: Vec<XmlAttr> = Vec::new();
    let mut i: usize = 0;
    while i < attrs.len()
        invariant
            i <= attrs@.len(),
            attrs_view(out@) == attrs_view(attrs@.take(i as int)),
        decreases attrs@.len() - i,
    {
        let a = XmlAttr { key: attrs[i].key.clone(), value: attrs[i].value.clone() };
        proof {
            assert(a@ == attrs@[i as int]@);
            assert(attrs_view(attrs@.take(i + 1 as int)) =~= attrs_view(attrs@.take(i as int)).push(
                attrs@[i as int]@,
            ));
        }
        out.push(a);
        proof {
            assert(attrs_view(out@) =~= attrs_view(attrs@.take(i + 1 as int)));
        }
        i += 1;
    }
    proof {
        assert(attrs@.take(attrs@.len() as int) =~= attrs@);
    }
    out
}

} // verus!
use vstd::prelude::*;

verus! {

/// The attributes of a rebuilt table tag: the old attributes without
/// any `ref`, in order, then `ref` set to the new range.
pub open spec fn retag_attrs(attrs: Seq<XmlAttrV>, new_ref: Seq<char>) -> Seq<XmlAttrV> {
    drop_ref(attrs).push(XmlAttrV { key: "ref"@, value: new_ref })
}

pub open spec fn drop_ref(attrs: Seq<XmlAttrV>) -> Seq<XmlAttrV>
    decreases attrs.len(),
{
    if attrs.len() == 0 {
        Seq::empty()
    } else {
        let prev = drop_ref(attrs.drop_last());
        if attrs.last().key == "ref"@ {
            prev
        } else {
            prev.push(attrs.last())
        }
    }
}

/// The new `ref` wins every lookup on a rebuilt tag.
pub proof fn lemma_retag_ref(attrs: Seq<XmlAttrV>, new_ref: Seq<char>)
    ensures
        crate::xml::attr_lookup(retag_attrs(attrs, new_ref), "ref"@) == Some(new_ref),
{
    lemma_no_ref(attrs);
    lemma_no_ref_lookup(drop_ref(attrs), new_ref);
}

proof fn lemma_no_ref(attrs: Seq<XmlAttrV>)
    ensures
        forall|i: int| 0 <= i < drop_ref(attrs).len() ==> #[trigger] drop_ref(attrs)[i].key
            != "ref"@,
    decreases attrs.len(),
{
    if attrs.len() > 0 {
        lemma_no_ref(attrs.drop_last());
        let prev = drop_ref(attrs.drop_last());
        if attrs.last().key != "ref"@ {
            assert forall|i: int| 0 <= i < drop_ref(attrs).len() implies #[trigger] drop_ref(
                attrs,
            )[i].key != "ref"@ by {
                if i < prev.len() {
                    assert(drop_ref(attrs)[i] == prev[i]);
                } else {
                    assert(drop_ref(attrs)[i] == attrs.last());
                }
            }
        }
    }
}

proof fn lemma_no_ref_lookup(pre: Seq<XmlAttrV>, new_ref: Seq<char>)
    requires
        forall|i: int| 0 <= i < pre.len() ==> #[trigger] pre[i].key != "ref"@,
    ensures
        crate::xml::attr_lookup(pre.push(XmlAttrV { key: "ref"@, value: new_ref }), "ref"@)
            == Some(new_ref),
    decreases pre.len(),
{
    let w = pre.push(XmlAttrV { key: "ref"@, value: new_ref });
    if pre.len() == 0 {
        assert(w[0].key == "ref"@);
    } else {
        assert(w[0] == pre[0]);
        assert(w.skip(1) =~= pre.skip(1).push(XmlAttrV { key: "ref"@, value: new_ref }));
        assert(forall|i: int| 0 <= i < pre.skip(1).len() ==> #[trigger] pre.skip(1)[i].key
            != "ref"@);
        lemma_no_ref_lookup(pre.skip(1), new_ref);
    }
}

/// One event of the table-part rewrite: `table` and `autoFilter` tags
/// are rebuilt with their `ref` replaced; everything else passes
/// through.
pub open spec fn table_patch_event(ev: XmlEventV, new_ref: Seq<char>) -> XmlEventV {
    match ev {
        XmlEventV::Open { name, attrs, .. } => if name == "table"@ || name == "autoFilter"@ {
            let a2 = retag_attrs(attrs, new_ref);
            XmlEventV::Open { name, attrs: a2, raw: crate::xml::open_tag_raw(name, a2) }
        } else {
            ev
        },
        XmlEventV::Empty { name, attrs, .. } => if name == "table"@ || name == "autoFilter"@ {
            let a2 = retag_attrs(attrs, new_ref);
            XmlEventV::Empty { name, attrs: a2, raw: crate::xml::empty_tag_raw(name, a2) }
        } else {
            ev
        },
        _ => ev,
    }
}

pub open spec fn table_patch_fold(evs: Seq<XmlEventV>, new_ref: Seq<char>) -> Seq<XmlEventV> {
    evs.map_values(|e: XmlEventV| table_patch_event(e, new_ref))
}

fn filter_ref_attrs(attrs: &Vec<XmlAttr>, new_ref: &str) -> (out: Vec<XmlAttr>)
    ensures
        attrs_view(out@) == retag_attrs(attrs_view(attrs@), new_ref@),
{
    let mut out: Vec<XmlAttr> = Vec::new();
    let mut i: usize = 0;
    while i < attrs.len()
        invariant
            i <= attrs@.len(),
            attrs_view(out@) == drop_ref(attrs_view(attrs@).take(i as int)),
        decreases attrs@.len() - i,
    {
        proof {
            assert(attrs_view(attrs@).take(i + 1 as int).drop_last() =~= attrs_view(
                attrs@,
            ).take(i as int));
            assert(attrs_view(attrs@).take(i + 1 as int).last() == attrs@[i as int]@);
        }
        let kv = chars_of(attrs[i].key.as_str());
        if !str_eq_chars(&kv, "ref") {
            let a = XmlAttr { key: attrs[i].key.clone(), value: attrs[i].value.clone() };
            proof {
                assert(a@ == attrs@[i as int]@);
            }
            out.push(a);
            proof {
                assert(attrs_view(out@) =~= drop_ref(attrs_view(attrs@).take(i + 1 as int)));
            }
        }
        i += 1;
    }
    proof {
        assert(attrs_view(attrs@).take(attrs@.len() as int) =~= attrs_view(attrs@));
    }
    out.push(XmlAttr { key: String::from_str("ref"), value: String::from_str(new_ref) });
    proof {
        assert(attrs_view(out@) =~= retag_attrs(attrs_view(attrs@), new_ref@));
    }
    out
}

/// Rewrite a table part so the `table` and `autoFilter` elements carry
/// the given range as their `ref`.
pub fn patch_table_events(evs: &Vec<XmlEvent>, new_ref: &str) -> (out: Vec<XmlEvent>)
    ensures
        events_view(out@) == table_patch_fold(events_view(evs@), new_ref@),
{
    let mut out: Vec<XmlEvent> = Vec::new();
    let mut i: usize = 0;
    while i < evs.len()
        invariant
            i <= evs@.len(),
            events_view(out@) == table_patch_fold(events_view(evs@.take(i as int)), new_ref@),
        decreases evs@.len() - i,
    {
        proof {
            assert(events_view(evs@.take(i as int)).push(evs@[i as int]@) =~= events_view(
                evs@.take(i + 1 as int),
            ));
        }
        let ev = &evs[i];
        match ev {
            XmlEvent::Open { name, attrs, .. } => {
                let nv = chars_of(name.as_str());
                if str_eq_chars(&nv, "table") || str_eq_chars(&nv, "autoFilter") {
                    let a2 = filter_ref_attrs(attrs, new_ref);
                    proof {
                        lemma_tag_name_chars(name@);
                    }
                    let r = crate::xml::make_open_tag(name.as_str(), a2);
                    proof {
                        assert(r@ == table_patch_event(evs@[i as int]@, new_ref@));
                    }
                    out.push(r);
                } else {
                    out.push(clone_event(ev));
                }
            },
            XmlEvent::Empty { name, attrs, .. } => {
                let nv = chars_of(name.as_str());
                if str_eq_chars(&nv, "table") || str_eq_chars(&nv, "autoFilter") {
                    let a2 = filter_ref_attrs(attrs, new_ref);
                    proof {
                        lemma_tag_name_chars(name@);
                    }
                    let ghost a2v = attrs_view(a2@);
                    let r = crate::xml::make_empty_tag(name.as_str(), a2);
                    proof {
                        assert(a2v == retag_attrs(attrs_view(attrs@), new_ref@));
                        assert(r matches XmlEvent::Empty { name: n2, attrs: aa, raw: rr }
                            && n2@ == name@ && attrs_view(aa@) == a2v && rr@
                            == crate::xml::empty_tag_raw(name@, a2v));
                        assert(r@ == table_patch_event(evs@[i as int]@, new_ref@));
                    }
                    out.push(r);
                } else {
                    out.push(clone_event(ev));
                }
            },
            _ => {
                out.push(clone_event(ev));
            },
        }
        proof {
            let pre = events_view(evs@.take(i as int));
            let post = events_view(evs@.take(i + 1 as int));
            assert(table_patch_fold(post, new_ref@) =~= table_patch_fold(pre, new_ref@).push(
                table_patch_event(evs@[i as int]@, new_ref@),
            ));
            assert(events_view(out@) =~= table_patch_fold(post, new_ref@));
        }
        i += 1;
    }
    proof {
        assert(evs@.take(evs@.len() as int) =~= evs@);
    }
    out
}

proof fn lemma_tag_name_chars(name: Seq<char>)
    requires
        name == "table"@ || name == "autoFilter"@,
    ensures
        name.len() >= 1,
        forall|i: int| 0 <= i < name.len() ==> #[trigger] name[i] != '/' && name[i] != '!'
            && name[i] != '?' && name[i] != '<' && name[i] != '>',
{
    reveal_strlit("table");
    reveal_strlit("autoFilter");
    if name == "table"@ {
        assert forall|i: int| 0 <= i < name.len() implies #[trigger] name[i] != '/' && name[i]
            != '!' && name[i] != '?' && name[i] != '<' && name[i] != '>' by {
            assert(name.len() == 5);
        }
    } else {
        assert forall|i: int| 0 <= i < name.len() implies #[trigger] name[i] != '/' && name[i]
            != '!' && name[i] != '?' && name[i] != '<' && name[i] != '>' by {
            assert(name.len() == 10);
        }
    }
}

/// After the rewrite, every `table` and `autoFilter` tag of the part
/// names exactly the given range: the header-only workaround's two-row
/// registration is undone.
pub proof fn lemma_table_patch_ref(evs: Seq<XmlEventV>, new_ref: Seq<char>)
    ensures
        forall|i: int|
            0 <= i < table_patch_fold(evs, new_ref).len() ==> {
                let e = #[trigger] table_patch_fold(evs, new_ref)[i];
                (v_name(e) == "table"@ || v_name(e) == "autoFilter"@) && (e is Open || e is Empty)
                    ==> attrs_of_v(e) is Some && crate::xml::attr_lookup(
                    attrs_of_v(e)->Some_0,
                    "ref"@,
                ) == Some(new_ref)
            },
{
    assert forall|i: int| 0 <= i < table_patch_fold(evs, new_ref).len() implies {
        let e = #[trigger] table_patch_fold(evs, new_ref)[i];
        (v_name(e) == "table"@ || v_name(e) == "autoFilter"@) && (e is Open || e is Empty)
            ==> attrs_of_v(e) is Some && crate::xml::attr_lookup(attrs_of_v(e)->Some_0, "ref"@)
            == Some(new_ref)
    } by {
        let e = table_patch_fold(evs, new_ref)[i];
        assert(e == table_patch_event(evs[i], new_ref));
        if (v_name(e) == "table"@ || v_name(e) == "autoFilter"@) && (e is Open || e is Empty) {
            match evs[i] {
                XmlEventV::Open { name, attrs, .. } => {
                    lemma_retag_ref(attrs, new_ref);
                },
                XmlEventV::Empty { name, attrs, .. } => {
                    lemma_retag_ref(attrs, new_ref);
                },
                _ => {},
            }
        }
    }
}

pub open spec fn attrs_of_v(e: XmlEventV) -> Option<Seq<XmlAttrV>> {
    match e {
        XmlEventV::Open { attrs, .. } => Some(attrs),
        XmlEventV::Empty { attrs, .. } => Some(attrs),
        _ => None,
    }
}

/// The name of the first `table` tag of a table part, `name` preferred
/// over `displayName`.
pub open spec fn table_name_of(evs: Seq<XmlEventV>) -> Option<Seq<char>>
    decreases evs.len(),
{
    if evs.len() == 0 {
        None
    } else {
        let prev = table_name_of(evs.drop_last());
        if prev is Some {
            prev
        } else {
            match evs.last() {
                XmlEventV::Open { name, attrs, .. } => if name == "table"@ {
                    match crate::xml::attr_lookup(attrs, "name"@) {
                        Some(n) => Some(n),
                        None => crate::xml::attr_lookup(attrs, "displayName"@),
                    }
                } else {
                    None
                },
                XmlEventV::Empty { name, attrs, .. } => if name == "table"@ {
                    match crate::xml::attr_lookup(attrs, "name"@) {
                        Some(n) => Some(n),
                        None => crate::xml::attr_lookup(attrs, "displayName"@),
                    }
                } else {
                    None
                },
                _ => None,
            }
        }
    }
}

proof fn lemma_table_name_persists(evs: Seq<XmlEventV>, k: int)
    requires
        0 <= k <= evs.len(),
        table_name_of(evs.take(k)) is Some,
    ensures
        table_name_of(evs) == table_name_of(evs.take(k)),
    decreases evs.len() - k,
{
    if k == evs.len() {
        assert(evs.take(k) =~= evs);
    } else {
        assert(evs.take(k + 1).drop_last() =~= evs.take(k));
        lemma_table_name_persists(evs, k + 1);
    }
}

/// Find the table name a table part declares.
pub fn extract_table_name(evs: &Vec<XmlEvent>) -> (r: Option<String>)
    ensures
        match r {
            Some(s) => table_name_of(events_view(evs@)) == Some(s@),
            None => table_name_of(events_view(evs@)) is None,
        },
{
    let mut i: usize = 0;
    while i < evs.len()
        invariant
            i <= evs@.len(),
            table_name_of(events_view(evs@.take(i as int))) is None,
        decreases evs@.len() - i,
    {
        proof {
            assert(events_view(evs@.take(i + 1 as int)).drop_last() =~= events_view(
                evs@.take(i as int),
            ));
            assert(events_view(evs@.take(i + 1 as int)).last() == evs@[i as int]@);
        }
        if crate::scan::is_tag_pub(&evs[i], "table") {
            let n = match crate::scan::tag_attr_pub(&evs[i], "table", "name") {
                Some(n) => Some(n),
                None => crate::scan::tag_attr_pub(&evs[i], "table", "displayName"),
            };
            match n {
                Some(s) => {
                    proof {
                        assert(evs@.take(evs@.len() as int) =~= evs@);
                        assert(events_view(evs@).take(i + 1 as int) =~= events_view(
                            evs@.take(i + 1 as int),
                        ));
                        lemma_table_name_persists(events_view(evs@), i + 1 as int);
                    }
                    return Some(s);
                },
                None => {
                    proof {
                        assert(table_name_of(events_view(evs@.take(i + 1 as int))) is None);
                    }
                },
            }
        }
        i += 1;
    }
    proof {
        assert(evs@.take(evs@.len() as int) =~= evs@);
    }
    None
}

} // verus!
