use vstd::prelude::*;

use crate::xml::{XmlEvent, XmlAttr, XmlAttrV, attr_lookup, attrs_view, attr_value, subvec};
use crate::addr::{is_ascii_digit, row_num_of, a1_ok, a1_row, a1_col, parse_a1_chars};
use crate::text::{chars_of, string_of, str_eq_chars};

verus! {

/// The attribute named `key` of an opening or self-closing tag named
/// `tag`; `None` for any other event.
pub open spec fn tag_attr(ev: XmlEvent, tag: Seq<char>, key: Seq<char>) -> Option<Seq<char>> {
    match ev {
        XmlEvent::Open { name, attrs, .. } => if name@ == tag {
            attr_lookup(attrs_view(attrs@), key)
        } else {
            None
        },
        XmlEvent::Empty { name, attrs, .. } => if name@ == tag {
            attr_lookup(attrs_view(attrs@), key)
        } else {
            None
        },
        _ => None,
    }
}

/// Whether the event is an opening or self-closing tag named `tag`.
pub open spec fn is_tag(ev: XmlEvent, tag: Seq<char>) -> bool {
    match ev {
        XmlEvent::Open { name, .. } => name@ == tag,
        XmlEvent::Empty { name, .. } => name@ == tag,
        _ => false,
    }
}

fn tag_is(ev: &XmlEvent, tag: &str) -> (r: bool)
    ensures
        r == is_tag(*ev, tag@),
{
    match ev {
        XmlEvent::Open { name, .. } => {
            let v = chars_of(name.as_str());
            str_eq_chars(&v, tag)
        },
        XmlEvent::Empty { name, .. } => {
            let v = chars_of(name.as_str());
            str_eq_chars(&v, tag)
        },
        _ => false,
    }
}

fn tag_attr_exec(ev: &XmlEvent, tag: &str, key: &str) -> (r: Option<String>)
    ensures
        match r {
            Some(s) => tag_attr(*ev, tag@, key@) == Some(s@),
            None => tag_attr(*ev, tag@, key@) is None,
        },
{
    match ev {
        XmlEvent::Open { name, attrs, .. } => {
            let v = chars_of(name.as_str());
            if str_eq_chars(&v, tag) {
                attr_value(attrs, key)
            } else {
                None
            }
        },
        XmlEvent::Empty { name, attrs, .. } => {
            let v = chars_of(name.as_str());
            if str_eq_chars(&v, tag) {
                attr_value(attrs, key)
            } else {
                None
            }
        },
        _ => None,
    }
}

/// The `ref` texts of the `mergeCell` tags, in document order.
pub open spec fn merged_refs(evs: Seq<XmlEvent>) -> Seq<Seq<char>>
    decreases evs.len(),
{
    if evs.len() == 0 {
        Seq::empty()
    } else {
        let prev = merged_refs(evs.drop_last());
        match tag_attr(evs.last(), "mergeCell"@, "ref"@) {
            Some(r) => prev.push(r),
            None => prev,
        }
    }
}

/// Collect the merged ranges recorded in a worksheet part.
pub fn merged_ranges(evs: &Vec<XmlEvent>) -> (out: Vec<String>)
    ensures
        out@.map_values(|s: String| s@) == merged_refs(evs@),
{
    let mut out: Vec<String> = Vec::new();
    let mut i: usize = 0;
    while i < evs.len()
        invariant
            i <= evs@.len(),
            out@.map_values(|s: String| s@) == merged_refs(evs@.take(i as int)),
        decreases evs@.len() - i,
    {
        proof {
            assert(evs@.take(i + 1 as int).drop_last() =~= evs@.take(i as int));
            assert(evs@.take(i + 1 as int).last() == evs@[i as int]);
        }
        match tag_attr_exec(&evs[i], "mergeCell", "ref") {
            Some(r) => {
                out.push(r);
                proof {
                    assert(out@.map_values(|s: String| s@) =~= merged_refs(
                        evs@.take(i + 1 as int),
                    ));
                }
            },
            None => {},
        }
        i += 1;
    }
    proof {
        assert(evs@.take(evs@.len() as int) =~= evs@);
    }
    out
}

/// One relationship of a `.rels` part.
pub struct RelTarget {
    pub id: String,
    pub target: String,
}

pub struct RelTargetV {
    pub id: Seq<char>,
    pub target: Seq<char>,
}

impl View for RelTarget {
    type V = RelTargetV;

    open spec fn view(&self) -> RelTargetV {
        RelTargetV { id: self.id@, target: self.target@ }
    }
}

/// The (Id, Target) pairs of the `Relationship` tags, in document order.
pub open spec fn rel_pairs(evs: Seq<XmlEvent>) -> Seq<RelTargetV>
    decreases evs.len(),
{
    if evs.len() == 0 {
        Seq::empty()
    } else {
        let prev = rel_pairs(evs.drop_last());
        let idq = tag_attr(evs.last(), "Relationship"@, "Id"@);
        let tq = tag_attr(evs.last(), "Relationship"@, "Target"@);
        if idq is Some && tq is Some {
            prev.push(RelTargetV { id: idq->Some_0, target: tq->Some_0 })
        } else {
            prev
        }
    }
}

/// Collect the relationship-id to target mapping of a `.rels` part.
pub fn relationship_targets(evs: &Vec<XmlEvent>) -> (out: Vec<RelTarget>)
    ensures
        out@.map_values(|r: RelTarget| r@) == rel_pairs(evs@),
{
    let mut out: Vec<RelTarget> = Vec::new();
    let mut i: usize = 0;
    while i < evs.len()
        invariant
            i <= evs@.len(),
            out@.map_values(|r: RelTarget| r@) == rel_pairs(evs@.take(i as int)),
        decreases evs@.len() - i,
    {
        proof {
            assert(evs@.take(i + 1 as int).drop_last() =~= evs@.take(i as int));
            assert(evs@.take(i + 1 as int).last() == evs@[i as int]);
        }
        let idq = tag_attr_exec(&evs[i], "Relationship", "Id");
        let tq = tag_attr_exec(&evs[i], "Relationship", "Target");
        match (idq, tq) {
            (Some(id), Some(target)) => {
                out.push(RelTarget { id, target });
                proof {
                    assert(out@.map_values(|r: RelTarget| r@) =~= rel_pairs(
                        evs@.take(i + 1 as int),
                    ));
                }
            },
            _ => {},
        }
        i += 1;
    }
    proof {
        assert(evs@.take(evs@.len() as int) =~= evs@);
    }
    out
}

/// The target of the last relationship with this id, as a map from id
/// to target would answer after inserting the pairs in order.
pub open spec fn rel_target_of(rels: Seq<RelTargetV>, id: Seq<char>) -> Option<Seq<char>>
    decreases rels.len(),
{
    if rels.len() == 0 {
        None
    } else if rels.last().id == id {
        Some(rels.last().target)
    } else {
        rel_target_of(rels.drop_last(), id)
    }
}

/// Resolve a relationship id to its target.
pub fn rel_lookup(rels: &Vec<RelTarget>, id: &str) -> (r: Option<String>)
    ensures
        match r {
            Some(s) => rel_target_of(rels@.map_values(|r: RelTarget| r@), id@) == Some(s@),
            None => rel_target_of(rels@.map_values(|r: RelTarget| r@), id@) is None,
        },
{
    let ghost rv = rels@.map_values(|r: RelTarget| r@);
    let mut i: usize = rels.len();
    proof {
        assert(rv.take(rv.len() as int) =~= rv);
    }
    while i > 0
        invariant
            i <= rels@.len(),
            rv == rels@.map_values(|r: RelTarget| r@),
            rel_target_of(rv, id@) == rel_target_of(rv.take(i as int), id@),
        decreases i,
    {
        i -= 1;
        proof {
            assert(rv.take(i + 1 as int).drop_last() =~= rv.take(i as int));
            assert(rv.take(i + 1 as int).last() == rv[i as int]);
        }
        let idv = chars_of(rels[i].id.as_str());
        if str_eq_chars(&idv, id) {
            return Some(rels[i].target.clone());
        }
    }
    proof {
        assert(rv.take(0) =~= Seq::<RelTargetV>::empty());
    }
    None
}

/// The (sheet name, relationship id) pairs of the workbook manifest, in
/// document order.
pub open spec fn sheet_rid_pairs(evs: Seq<XmlEvent>) -> Seq<RelTargetV>
    decreases evs.len(),
{
    if evs.len() == 0 {
        Seq::empty()
    } else {
        let prev = sheet_rid_pairs(evs.drop_last());
        let nq = tag_attr(evs.last(), "sheet"@, "name"@);
        let rq = tag_attr(evs.last(), "sheet"@, "r:id"@);
        if nq is Some && rq is Some {
            prev.push(RelTargetV { id: nq->Some_0, target: rq->Some_0 })
        } else {
            prev
        }
    }
}

/// Collect the sheet declarations of `workbook.xml`: each sheet's name
/// with its relationship id (`id` holds the name, `target` the rid).
pub fn workbook_sheet_rids(evs: &Vec<XmlEvent>) -> (out: Vec<RelTarget>)
    ensures
        out@.map_values(|r: RelTarget| r@) == sheet_rid_pairs(evs@),
{
    let mut out: Vec<RelTarget> = Vec::new();
    let mut i: usize = 0;
    while i < evs.len()
        invariant
            i <= evs@.len(),
            out@.map_values(|r: RelTarget| r@) == sheet_rid_pairs(evs@.take(i as int)),
        decreases evs@.len() - i,
    {
        proof {
            assert(evs@.take(i + 1 as int).drop_last() =~= evs@.take(i as int));
            assert(evs@.take(i + 1 as int).last() == evs@[i as int]);
        }
        let nq = tag_attr_exec(&evs[i], "sheet", "name");
        let rq = tag_attr_exec(&evs[i], "sheet", "r:id");
        match (nq, rq) {
            (Some(id), Some(target)) => {
                out.push(RelTarget { id, target });
                proof {
                    assert(out@.map_values(|r: RelTarget| r@) =~= sheet_rid_pairs(
                        evs@.take(i + 1 as int),
                    ));
                }
            },
            _ => {},
        }
        i += 1;
    }
    proof {
        assert(evs@.take(evs@.len() as int) =~= evs@);
    }
    out
}

/// The non-empty `r:id` texts of the `tablePart` tags, in order.
pub open spec fn table_rids(evs: Seq<XmlEvent>) -> Seq<Seq<char>>
    decreases evs.len(),
{
    if evs.len() == 0 {
        Seq::empty()
    } else {
        let prev = table_rids(evs.drop_last());
        match tag_attr(evs.last(), "tablePart"@, "r:id"@) {
            Some(r) => if r.len() > 0 {
                prev.push(r)
            } else {
                prev
            },
            None => prev,
        }
    }
}

/// Collect the table-part relationship ids of a worksheet part.
pub fn table_part_rids(evs: &Vec<XmlEvent>) -> (out: Vec<String>)
    ensures
        out@.map_values(|s: String| s@) == table_rids(evs@),
{
    let mut out: Vec<String> = Vec::new();
    let mut i: usize = 0;
    while i < evs.len()
        invariant
            i <= evs@.len(),
            out@.map_values(|s: String| s@) == table_rids(evs@.take(i as int)),
        decreases evs@.len() - i,
    {
        proof {
            assert(evs@.take(i + 1 as int).drop_last() =~= evs@.take(i as int));
            assert(evs@.take(i + 1 as int).last() == evs@[i as int]);
        }
        match tag_attr_exec(&evs[i], "tablePart", "r:id") {
            Some(r) => {
                if r.as_str().unicode_len() > 0 {
                    out.push(r);
                    proof {
                        assert(out@.map_values(|s: String| s@) =~= table_rids(
                            evs@.take(i + 1 as int),
                        ));
                    }
                }
            },
            None => {},
        }
        i += 1;
    }
    proof {
        assert(evs@.take(evs@.len() as int) =~= evs@);
    }
    out
}

/// Whether `s` ends with `t`.
pub open spec fn ends_with(s: Seq<char>, t: Seq<char>) -> bool {
    s.len() >= t.len() && s.skip(s.len() - t.len()) == t
}

fn ends_with_exec(v: &Vec<char>, t: &Vec<char>) -> (r: bool)
    ensures
        r == ends_with(v@, t@),
{
    let n = v.len();
    let m = t.len();
    if n < m {
        return false;
    }
    let mut k: usize = 0;
    while k < m
        invariant
            k <= m <= n,
            n == v@.len(),
            m == t@.len(),
            forall|j: int| 0 <= j < k ==> v@[n - m + j] == t@[j],
        decreases m - k,
    {
        if v[n - m + k] != t[k] {
            proof {
                assert(v@.skip(n - m)[k as int] == v@[n - m + k]);
            }
            return false;
        }
        k += 1;
    }
    proof {
        assert(v@.skip(n - m) =~= t@) by {
            assert(forall|j: int| 0 <= j < m ==> #[trigger] v@.skip(n - m)[j] == v@[n - m + j]);
        }
    }
    true
}

/// `/` followed by `t`.
pub open spec fn slash_then(t: Seq<char>) -> Seq<char> {
    seq!['/'] + t
}

/// The Target of the first `Relationship` whose `Type` ends with the
/// suffix, bare or after a `/`.
pub open spec fn rel_target_by_type(evs: Seq<XmlEvent>, suffix: Seq<char>) -> Option<Seq<char>>
    decreases evs.len(),
{
    if evs.len() == 0 {
        None
    } else {
        let prev = rel_target_by_type(evs.drop_last(), suffix);
        if prev is Some {
            prev
        } else {
            let tyq = tag_attr(evs.last(), "Relationship"@, "Type"@);
            match tyq {
                Some(ty) => if ends_with(ty, suffix) || ends_with(ty, slash_then(suffix)) {
                    match tag_attr(evs.last(), "Relationship"@, "Target"@) {
                        Some(t) => Some(t),
                        None => None,
                    }
                } else {
                    None
                },
                None => None,
            }
        }
    }
}

/// Find the first relationship of a given type suffix.
pub fn find_relationship_target_by_type(evs: &Vec<XmlEvent>, suffix: &str) -> (r: Option<String>)
    ensures
        match r {
            Some(s) => rel_target_by_type(evs@, suffix@) == Some(s@),
            None => rel_target_by_type(evs@, suffix@) is None,
        },
{
    let sufv = chars_of(suffix);
    let mut slashed: Vec<char> = Vec::new();
    slashed.push('/');
    let mut k: usize = 0;
    while k < sufv.len()
        invariant
            k <= sufv@.len(),
            sufv@ == suffix@,
            slashed@ == seq!['/'] + suffix@.take(k as int),
        decreases sufv@.len() - k,
    {
        slashed.push(sufv[k]);
        proof {
            assert(seq!['/'] + suffix@.take(k + 1 as int) =~= (seq!['/'] + suffix@.take(
                k as int,
            )).push(suffix@[k as int]));
        }
        k += 1;
    }
    proof {
        assert(suffix@.take(suffix@.len() as int) =~= suffix@);
        assert(slashed@ == slash_then(suffix@));
    }
    let mut i: usize = 0;
    while i < evs.len()
        invariant
            i <= evs@.len(),
            sufv@ == suffix@,
            slashed@ == slash_then(suffix@),
            rel_target_by_type(evs@.take(i as int), suffix@) is None,
        decreases evs@.len() - i,
    {
        proof {
            assert(evs@.take(i + 1 as int).drop_last() =~= evs@.take(i as int));
            assert(evs@.take(i + 1 as int).last() == evs@[i as int]);
        }
        match tag_attr_exec(&evs[i], "Relationship", "Type") {
            Some(ty) => {
                let tyv = chars_of(ty.as_str());
                if ends_with_exec(&tyv, &sufv) || ends_with_exec(&tyv, &slashed) {
                    match tag_attr_exec(&evs[i], "Relationship", "Target") {
                        Some(t) => {
                            proof {
                                assert(rel_target_by_type(evs@.take(i + 1 as int), suffix@)
                                    == Some(t@));
                                assert(evs@.take(evs@.len() as int) =~= evs@);
                                lemma_rel_target_persists(evs@, suffix@, i + 1 as int);
                            }
                            return Some(t);
                        },
                        None => {},
                    }
                }
            },
            None => {},
        }
        i += 1;
    }
    proof {
        assert(evs@.take(evs@.len() as int) =~= evs@);
    }
    None
}

proof fn lemma_rel_target_persists(evs: Seq<XmlEvent>, suffix: Seq<char>, k: int)
    requires
        0 <= k <= evs.len(),
        rel_target_by_type(evs.take(k), suffix) is Some,
    ensures
        rel_target_by_type(evs, suffix) == rel_target_by_type(evs.take(k), suffix),
    decreases evs.len() - k,
{
    if k == evs.len() {
        assert(evs.take(k) =~= evs);
    } else {
        assert(evs.take(k + 1).drop_last() =~= evs.take(k));
        lemma_rel_target_persists(evs, suffix, k + 1);
    }
}

} // verus!
use vstd::prelude::*;

verus! {

pub open spec fn opt_view(o: Option<String>) -> Option<Seq<char>> {
    match o {
        Some(s) => Some(s@),
        None => None,
    }
}

/// The number a decimal digit run names, when it is nonempty, all
/// digits, and within the coordinate range.
pub open spec fn dec_u32_of(s: Seq<char>) -> Option<int> {
    if s.len() >= 1 && (forall|i: int| 0 <= i < s.len() ==> is_ascii_digit(#[trigger] s[i]))
        && row_num_of(s) <= u32::MAX {
        Some(row_num_of(s))
    } else {
        None
    }
}

/// Parse a decimal digit run.
pub fn parse_u32_dec(s: &str) -> (r: Option<u32>)
    ensures
        match r {
            Some(x) => dec_u32_of(s@) == Some(x as int),
            None => dec_u32_of(s@) is None,
        },
{
    let v = chars_of(s);
    let n = v.len();
    if n == 0 {
        return None;
    }
    let mut x: u64 = 0;
    let mut i: usize = 0;
    proof {
        assert(v@.take(0) =~= Seq::<char>::empty());
    }
    while i < n
        invariant
            i <= n,
            n == v@.len(),
            v@ == s@,
            forall|j: int| 0 <= j < i ==> is_ascii_digit(#[trigger] v@[j]),
            x == row_num_of(v@.take(i as int)),
            x <= u32::MAX,
        decreases n - i,
    {
        let c = v[i];
        if !('0' <= c && c <= '9') {
            return None;
        }
        proof {
            assert(v@.take(i + 1 as int).drop_last() =~= v@.take(i as int));
            assert(v@.take(i + 1 as int).last() == v@[i as int]);
        }
        x = x * 10 + ((c as u32 - '0' as u32) as u64);
        i += 1;
        if x > 0xFFFF_FFFFu64 {
            proof {
                if forall|j: int| 0 <= j < v@.len() ==> is_ascii_digit(#[trigger] v@[j]) {
                    crate::addr::lemma_row_num_prefix(v@, i as int);
                }
            }
            return None;
        }
    }
    proof {
        assert(v@.take(n as int) =~= v@);
    }
    Some(x as u32)
}

/// The integer part a plain signed decimal names: an optional `-`, a
/// digit run, an optional fraction that truncation discards. `None` for
/// any other shape or a magnitude past the coordinate range.
pub open spec fn trunc_num_of(s: Seq<char>) -> Option<int> {
    if s.len() >= 1 && s[0] == '-' {
        match trunc_mag_of(s.skip(1)) {
            Some(m) => Some(-m),
            None => None,
        }
    } else {
        trunc_mag_of(s)
    }
}

pub open spec fn trunc_mag_of(s: Seq<char>) -> Option<int> {
    let d = dot_pos(s);
    if d == 0 {
        None
    } else {
        let ip = s.take(d);
        if d < s.len() && !(forall|i: int|
            d + 1 <= i < s.len() ==> is_ascii_digit(#[trigger] s[i])) {
            None
        } else {
            dec_u32_of(ip)
        }
    }
}

/// Position of the first `.` in `s`, or its length.
pub open spec fn dot_pos(s: Seq<char>) -> int
    decreases s.len(),
{
    if s.len() == 0 {
        0
    } else if s[0] == '.' {
        0
    } else {
        1 + dot_pos(s.skip(1))
    }
}

proof fn lemma_dot_pos(s: Seq<char>, k: int)
    requires
        0 <= k <= s.len(),
        forall|i: int| 0 <= i < k ==> s[i] != '.',
        k < s.len() ==> s[k] == '.',
    ensures
        dot_pos(s) == k,
    decreases s.len(),
{
    reveal_with_fuel(dot_pos, 2);
    if s.len() == 0 || k == 0 {
    } else {
        let t = s.skip(1);
        assert(forall|i: int| 0 <= i < k - 1 ==> t[i] == s[i + 1]);
        lemma_dot_pos(t, k - 1);
    }
}

/// Parse a split offset: a plain decimal, truncated toward zero.
pub fn parse_num_trunc(s: &str) -> (r: Option<i64>)
    ensures
        match r {
            Some(x) => trunc_num_of(s@) == Some(x as int),
            None => trunc_num_of(s@) is None,
        },
{
    let v = chars_of(s);
    let n = v.len();
    let (neg, start): (bool, usize) = if n >= 1 && v[0] == '-' {
        (true, 1)
    } else {
        (false, 0)
    };
    let ghost mag_s = if neg {
        s@.skip(1)
    } else {
        s@
    };
    proof {
        assert(mag_s =~= v@.skip(start as int));
    }
    // Find the dot inside the magnitude text.
    let mut d: usize = start;
    while d < n && v[d] != '.'
        invariant
            start <= d <= n,
            n == v@.len(),
            v@ == s@,
            mag_s == v@.skip(start as int),
            forall|i: int| start <= i < d ==> v@[i] != '.',
        decreases n - d,
    {
        d += 1;
    }
    proof {
        assert(forall|i: int| 0 <= i < d - start ==> mag_s[i] == v@[i + start]);
        lemma_dot_pos(mag_s, d - start);
    }
    if d == start {
        return None;
    }
    // The fraction, if any, must be all digits.
    let mut f: usize = d;
    if f < n {
        f += 1;
        while f < n
            invariant
                start < d < f <= n,
                n == v@.len(),
                v@ == s@,
                mag_s == v@.skip(start as int),
                dot_pos(mag_s) == d - start,
                neg ==> start == 1 && s@[0] == '-',
                !neg ==> start == 0 && (n == 0 || s@[0] != '-'),
                forall|i: int| d + 1 <= i < f ==> is_ascii_digit(#[trigger] v@[i]),
            decreases n - f,
        {
            let c = v[f];
            if !('0' <= c && c <= '9') {
                proof {
                    assert(mag_s[f - start] == v@[f as int]);
                    assert(!is_ascii_digit(mag_s[f - start]));
                    assert(d - start + 1 <= f - start < mag_s.len());
                    assert(dot_pos(mag_s) == d - start);
                    assert(trunc_mag_of(mag_s) is None);
                    if neg {
                        assert(mag_s == s@.skip(1));
                        assert(trunc_num_of(s@) is None);
                    } else {
                        assert(mag_s == s@);
                        assert(trunc_num_of(s@) is None);
                    }
                }
                return None;
            }
            f += 1;
        }
    }
    proof {
        if d < n {
            assert(forall|i: int|
                d - start + 1 <= i < mag_s.len() ==> is_ascii_digit(#[trigger] mag_s[i])) by {
                assert(forall|i: int|
                    d - start + 1 <= i < mag_s.len() ==> mag_s[i] == v@[i + start]);
            }
        }
    }
    let ip = subvec(&v, start, d);
    let ip_s = string_of(&ip);
    proof {
        assert(ip@ =~= mag_s.take(d - start));
    }
    let mag = match parse_u32_dec(ip_s.as_str()) {
        Some(m) => m,
        None => {
            return None;
        },
    };
    if neg {
        Some(-(mag as i64))
    } else {
        Some(mag as i64)
    }
}

/// The directory prefix of a part path, up to and including the last
/// `/`; empty when there is none.
pub open spec fn dir_of(p: Seq<char>) -> Seq<char>
    decreases p.len(),
{
    if p.len() == 0 {
        Seq::empty()
    } else if p.last() == '/' {
        p
    } else {
        dir_of(p.drop_last())
    }
}

pub fn dir_of_path(p: &str) -> (r: String)
    ensures
        r@ == dir_of(p@),
{
    let v = chars_of(p);
    let mut b = v.len();
    proof {
        assert(v@.take(v@.len() as int) =~= v@);
    }
    while b > 0 && v[b - 1] != '/'
        invariant
            b <= v@.len(),
            v@ == p@,
            dir_of(p@) == dir_of(p@.take(b as int)),
        decreases b,
    {
        proof {
            assert(p@.take(b as int).last() == p@[b - 1]);
            assert(p@.take(b as int).drop_last() =~= p@.take(b - 1));
        }
        b -= 1;
    }
    let head = subvec(&v, 0, b);
    proof {
        if b > 0 {
            assert(p@.take(b as int).last() == p@[b - 1]);
        }
        assert(dir_of(p@.take(b as int)) =~= p@.take(b as int));
    }
    string_of(&head)
}

/// The `.rels` part path beside a part: `dir/_rels/file.rels`. `None`
/// when the path has no `/`.
pub open spec fn rels_path_of(p: Seq<char>) -> Option<Seq<char>> {
    let d = dir_of(p);
    if d.len() == 0 {
        None
    } else {
        Some(d + "_rels/"@ + p.skip(d.len() as int) + ".rels"@)
    }
}

pub fn sheet_rels_path(p: &str) -> (r: Option<String>)
    ensures
        match r {
            Some(s) => rels_path_of(p@) == Some(s@),
            None => rels_path_of(p@) is None,
        },
{
    let v = chars_of(p);
    let mut b = v.len();
    proof {
        assert(v@.take(v@.len() as int) =~= v@);
    }
    while b > 0 && v[b - 1] != '/'
        invariant
            b <= v@.len(),
            v@ == p@,
            dir_of(p@) == dir_of(p@.take(b as int)),
        decreases b,
    {
        proof {
            assert(p@.take(b as int).last() == p@[b - 1]);
            assert(p@.take(b as int).drop_last() =~= p@.take(b - 1));
        }
        b -= 1;
    }
    proof {
        if b > 0 {
            assert(p@.take(b as int).last() == p@[b - 1]);
        }
        assert(dir_of(p@.take(b as int)) =~= p@.take(b as int));
    }
    if b == 0 {
        return None;
    }
    let mut out = subvec(&v, 0, b);
    let mid = chars_of("_rels/");
    let mut k: usize = 0;
    let ghost base1 = dir_of(p@);
    while k < mid.len()
        invariant
            k <= mid@.len(),
            mid@ == "_rels/"@,
            out@ == base1 + "_rels/"@.take(k as int),
        decreases mid@.len() - k,
    {
        out.push(mid[k]);
        proof {
            assert(base1 + "_rels/"@.take(k + 1 as int) =~= (base1 + "_rels/"@.take(
                k as int,
            )).push("_rels/"@[k as int]));
        }
        k += 1;
    }
    proof {
        assert("_rels/"@.take("_rels/"@.len() as int) =~= "_rels/"@);
    }
    let ghost base2 = base1 + "_rels/"@;
    let mut k2: usize = b;
    while k2 < v.len()
        invariant
            b <= k2 <= v@.len(),
            v@ == p@,
            base2 == base1 + "_rels/"@,
            b as int == base1.len(),
            out@ == base2 + p@.skip(b as int).take(k2 - b),
        decreases v@.len() - k2,
    {
        out.push(v[k2]);
        proof {
            assert(base2 + p@.skip(b as int).take(k2 + 1 - b) =~= (base2 + p@.skip(
                b as int,
            ).take(k2 - b)).push(p@[k2 as int]));
        }
        k2 += 1;
    }
    proof {
        assert(p@.skip(b as int).take(p@.len() - b) =~= p@.skip(b as int));
    }
    let tail = chars_of(".rels");
    let ghost base3 = base2 + p@.skip(b as int);
    let mut k3: usize = 0;
    while k3 < tail.len()
        invariant
            k3 <= tail@.len(),
            tail@ == ".rels"@,
            out@ == base3 + ".rels"@.take(k3 as int),
        decreases tail@.len() - k3,
    {
        out.push(tail[k3]);
        proof {
            assert(base3 + ".rels"@.take(k3 + 1 as int) =~= (base3 + ".rels"@.take(
                k3 as int,
            )).push(".rels"@[k3 as int]));
        }
        k3 += 1;
    }
    proof {
        assert(".rels"@.take(".rels"@.len() as int) =~= ".rels"@);
        assert(out@ =~= dir_of(p@) + "_rels/"@ + p@.skip(dir_of(p@).len() as int) + ".rels"@);
    }
    Some(string_of(&out))
}

} // verus!
use vstd::prelude::*;

verus! {

/// A raw `hyperlink` tag of a worksheet part.
pub struct HyperlinkNode {
    pub cell: String,
    pub rid: Option<String>,
    pub location: Option<String>,
    pub display: Option<String>,
    pub tooltip: Option<String>,
}

pub struct HyperlinkNodeV {
    pub cell: Seq<char>,
    pub rid: Option<Seq<char>>,
    pub location: Option<Seq<char>>,
    pub display: Option<Seq<char>>,
    pub tooltip: Option<Seq<char>>,
}

impl View for HyperlinkNode {
    type V = HyperlinkNodeV;

    open spec fn view(&self) -> HyperlinkNodeV {
        HyperlinkNodeV {
            cell: self.cell@,
            rid: opt_view(self.rid),
            location: opt_view(self.location),
            display: opt_view(self.display),
            tooltip: opt_view(self.tooltip),
        }
    }
}

/// The `hyperlink` tags with a nonempty `ref`, in document order.
pub open spec fn hyperlink_nodes_of(evs: Seq<XmlEvent>) -> Seq<HyperlinkNodeV>
    decreases evs.len(),
{
    if evs.len() == 0 {
        Seq::empty()
    } else {
        let prev = hyperlink_nodes_of(evs.drop_last());
        match tag_attr(evs.last(), "hyperlink"@, "ref"@) {
            Some(cell) => if cell.len() > 0 {
                prev.push(
                    HyperlinkNodeV {
                        cell,
                        rid: tag_attr(evs.last(), "hyperlink"@, "r:id"@),
                        location: tag_attr(evs.last(), "hyperlink"@, "location"@),
                        display: tag_attr(evs.last(), "hyperlink"@, "display"@),
                        tooltip: tag_attr(evs.last(), "hyperlink"@, "tooltip"@),
                    },
                )
            } else {
                prev
            },
            None => prev,
        }
    }
}

/// Collect the hyperlink tags of a worksheet part.
pub fn hyperlink_nodes(evs: &Vec<XmlEvent>) -> (out: Vec<HyperlinkNode>)
    ensures
        out@.map_values(|x: HyperlinkNode| x@) == hyperlink_nodes_of(evs@),
{
    let mut out: Vec<HyperlinkNode> = Vec::new();
    let mut i: usize = 0;
    while i < evs.len()
        invariant
            i <= evs@.len(),
            out@.map_values(|x: HyperlinkNode| x@) == hyperlink_nodes_of(evs@.take(i as int)),
        decreases evs@.len() - i,
    {
        proof {
            assert(evs@.take(i + 1 as int).drop_last() =~= evs@.take(i as int));
            assert(evs@.take(i + 1 as int).last() == evs@[i as int]);
        }
        match tag_attr_exec(&evs[i], "hyperlink", "ref") {
            Some(cell) => {
                if cell.as_str().unicode_len() > 0 {
                    let node = HyperlinkNode {
                        cell,
                        rid: tag_attr_exec(&evs[i], "hyperlink", "r:id"),
                        location: tag_attr_exec(&evs[i], "hyperlink", "location"),
                        display: tag_attr_exec(&evs[i], "hyperlink", "display"),
                        tooltip: tag_attr_exec(&evs[i], "hyperlink", "tooltip"),
                    };
                    out.push(node);
                    proof {
                        assert(out@.map_values(|x: HyperlinkNode| x@) =~= hyperlink_nodes_of(
                            evs@.take(i + 1 as int),
                        ));
                    }
                }
            },
            None => {},
        }
        i += 1;
    }
    proof {
        assert(evs@.take(evs@.len() as int) =~= evs@);
    }
    out
}

/// A resolved hyperlink.
pub struct HyperlinkInfo {
    pub cell: String,
    pub target: String,
    pub display: String,
    pub tooltip: Option<String>,
    pub internal: bool,
}

pub struct HyperlinkInfoV {
    pub cell: Seq<char>,
    pub target: Seq<char>,
    pub display: Seq<char>,
    pub tooltip: Option<Seq<char>>,
    pub internal: bool,
}

impl View for HyperlinkInfo {
    type V = HyperlinkInfoV;

    open spec fn view(&self) -> HyperlinkInfoV {
        HyperlinkInfoV {
            cell: self.cell@,
            target: self.target@,
            display: self.display@,
            tooltip: opt_view(self.tooltip),
            internal: self.internal,
        }
    }
}

/// Resolution of one hyperlink node: a link with a location and no
/// relationship id is internal; a relationship id resolves through the
/// `.rels` pairs; a link whose target stays empty is dropped; an absent
/// or empty display falls back to the given cell text; an empty tooltip
/// is omitted.
pub open spec fn resolved_link(
    n: HyperlinkNodeV,
    rels: Seq<RelTargetV>,
    fallback: Seq<char>,
) -> Option<HyperlinkInfoV> {
    let internal = n.location is Some && n.rid is None;
    let target = match n.rid {
        Some(rid) => match rel_target_of(rels, rid) {
            Some(t) => t,
            None => Seq::empty(),
        },
        None => match n.location {
            Some(loc) => loc,
            None => Seq::empty(),
        },
    };
    if target.len() == 0 {
        None
    } else {
        let display = match n.display {
            Some(d) => if d.len() == 0 {
                fallback
            } else {
                d
            },
            None => fallback,
        };
        let tooltip = match n.tooltip {
            Some(t) => if t.len() == 0 {
                None
            } else {
                Some(t)
            },
            None => None,
        };
        Some(HyperlinkInfoV { cell: n.cell, target, display, tooltip, internal })
    }
}

pub open spec fn resolved_links(
    nodes: Seq<HyperlinkNodeV>,
    rels: Seq<RelTargetV>,
    fallbacks: Seq<Seq<char>>,
) -> Seq<HyperlinkInfoV>
    decreases nodes.len(),
{
    if nodes.len() == 0 {
        Seq::empty()
    } else {
        let prev = resolved_links(nodes.drop_last(), rels, fallbacks);
        match resolved_link(nodes.last(), rels, fallbacks[nodes.len() - 1]) {
            Some(x) => prev.push(x),
            None => prev,
        }
    }
}

/// Resolve hyperlink nodes against relationship targets, with one
/// fallback display text per node (the cell's own displayed text).
pub fn resolve_hyperlinks(
    nodes: &Vec<HyperlinkNode>,
    rels: &Vec<RelTarget>,
    fallbacks: &Vec<String>,
) -> (out: Vec<HyperlinkInfo>)
    requires
        nodes@.len() == fallbacks@.len(),
    ensures
        out@.map_values(|x: HyperlinkInfo| x@) == resolved_links(
            nodes@.map_values(|x: HyperlinkNode| x@),
            rels@.map_values(|x: RelTarget| x@),
            fallbacks@.map_values(|s: String| s@),
        ),
{
    let ghost nv = nodes@.map_values(|x: HyperlinkNode| x@);
    let ghost rv = rels@.map_values(|x: RelTarget| x@);
    let ghost fv = fallbacks@.map_values(|s: String| s@);
    let mut out: Vec<HyperlinkInfo> = Vec::new();
    let mut i: usize = 0;
    while i < nodes.len()
        invariant
            i <= nodes@.len(),
            nodes@.len() == fallbacks@.len(),
            nv == nodes@.map_values(|x: HyperlinkNode| x@),
            rv == rels@.map_values(|x: RelTarget| x@),
            fv == fallbacks@.map_values(|s: String| s@),
            out@.map_values(|x: HyperlinkInfo| x@) == resolved_links(nv.take(i as int), rv, fv),
        decreases nodes@.len() - i,
    {
        proof {
            assert(nv.take(i + 1 as int).drop_last() =~= nv.take(i as int));
            assert(nv.take(i + 1 as int).last() == nv[i as int]);
        }
        let n = &nodes[i];
        let internal = n.location.is_some() && n.rid.is_none();
        let target: String = match &n.rid {
            Some(rid) => match rel_lookup(rels, rid.as_str()) {
                Some(t) => t,
                None => String::new(),
            },
            None => match &n.location {
                Some(loc) => loc.clone(),
                None => String::new(),
            },
        };
        if target.as_str().unicode_len() > 0 {
            let display: String = match &n.display {
                Some(d) => if d.as_str().unicode_len() == 0 {
                    fallbacks[i].clone()
                } else {
                    d.clone()
                },
                None => fallbacks[i].clone(),
            };
            let tooltip: Option<String> = match &n.tooltip {
                Some(t) => if t.as_str().unicode_len() == 0 {
                    None
                } else {
                    Some(t.clone())
                },
                None => None,
            };
            let info = HyperlinkInfo { cell: n.cell.clone(), target, display, tooltip, internal };
            proof {
                assert(fv[i as int] == fallbacks@[i as int]@);
            }
            out.push(info);
            proof {
                assert(out@.map_values(|x: HyperlinkInfo| x@) =~= resolved_links(
                    nv.take(i + 1 as int),
                    rv,
                    fv,
                ));
            }
        } else {
            proof {
                assert(fv[i as int] == fallbacks@[i as int]@);
                assert(resolved_link(nv[i as int], rv, fv[i as int]) is None);
            }
        }
        i += 1;
    }
    proof {
        assert(nv.take(nv.len() as int) =~= nv);
    }
    out
}

/// Whether `s` starts with `p`.
pub open spec fn starts_with(s: Seq<char>, p: Seq<char>) -> bool {
    s.len() >= p.len() && s.take(p.len() as int) == p
}

fn starts_with_exec(v: &Vec<char>, p: &str) -> (r: bool)
    ensures
        r == starts_with(v@, p@),
{
    let pv = chars_of(p);
    let m = pv.len();
    let n = v.len();
    if n < m {
        return false;
    }
    let mut k: usize = 0;
    while k < m
        invariant
            k <= m <= n,
            n == v@.len(),
            m == pv@.len(),
            pv@ == p@,
            forall|j: int| 0 <= j < k ==> v@[j] == p@[j],
        decreases m - k,
    {
        if v[k] != pv[k] {
            proof {
                assert(v@.take(p@.len() as int)[k as int] == v@[k as int]);
            }
            return false;
        }
        k += 1;
    }
    proof {
        assert(v@.take(p@.len() as int) =~= p@);
    }
    true
}

/// The pane record of a worksheet part.
pub struct FreezePaneInfo {
    /// `"split"`, `"freeze"`, or empty when the state names neither.
    pub mode: String,
    pub top_left_cell: Option<String>,
    pub x_split: Option<i64>,
    pub y_split: Option<i64>,
    pub active_pane: Option<String>,
}

pub struct FreezePaneInfoV {
    pub mode: Seq<char>,
    pub top_left_cell: Option<Seq<char>>,
    pub x_split: Option<int>,
    pub y_split: Option<int>,
    pub active_pane: Option<Seq<char>>,
}

impl View for FreezePaneInfo {
    type V = FreezePaneInfoV;

    open spec fn view(&self) -> FreezePaneInfoV {
        FreezePaneInfoV {
            mode: self.mode@,
            top_left_cell: opt_view(self.top_left_cell),
            x_split: match self.x_split {
                Some(x) => Some(x as int),
                None => None,
            },
            y_split: match self.y_split {
                Some(y) => Some(y as int),
                None => None,
            },
            active_pane: opt_view(self.active_pane),
        }
    }
}

/// The pane mode named by a `state` attribute: `split` for a split
/// state, `freeze` for any state starting with `frozen`, else empty.
pub open spec fn pane_mode_of(state: Option<Seq<char>>) -> Seq<char> {
    let lc = crate::text::seq_lower(match state {
        Some(s) => s,
        None => Seq::empty(),
    });
    if lc == "split"@ {
        "split"@
    } else if starts_with(lc, "frozen"@) {
        "freeze"@
    } else {
        Seq::empty()
    }
}

/// The pane record built from the first `pane` tag.
pub open spec fn pane_info_of(evs: Seq<XmlEvent>) -> Option<FreezePaneInfoV>
    decreases evs.len(),
{
    if evs.len() == 0 {
        None
    } else {
        let prev = pane_info_of(evs.drop_last());
        if prev is Some {
            prev
        } else if is_tag(evs.last(), "pane"@) {
            Some(
                FreezePaneInfoV {
                    mode: pane_mode_of(tag_attr(evs.last(), "pane"@, "state"@)),
                    top_left_cell: tag_attr(evs.last(), "pane"@, "topLeftCell"@),
                    x_split: match tag_attr(evs.last(), "pane"@, "xSplit"@) {
                        Some(x) => trunc_num_of(x),
                        None => None,
                    },
                    y_split: match tag_attr(evs.last(), "pane"@, "ySplit"@) {
                        Some(y) => trunc_num_of(y),
                        None => None,
                    },
                    active_pane: tag_attr(evs.last(), "pane"@, "activePane"@),
                },
            )
        } else {
            None
        }
    }
}

proof fn lemma_pane_persists(evs: Seq<XmlEvent>, k: int)
    requires
        0 <= k <= evs.len(),
        pane_info_of(evs.take(k)) is Some,
    ensures
        pane_info_of(evs) == pane_info_of(evs.take(k)),
    decreases evs.len() - k,
{
    if k == evs.len() {
        assert(evs.take(k) =~= evs);
    } else {
        assert(evs.take(k + 1).drop_last() =~= evs.take(k));
        lemma_pane_persists(evs, k + 1);
    }
}

/// Read the pane record of a worksheet part, from its first `pane` tag.
pub fn parse_freeze_panes(evs: &Vec<XmlEvent>) -> (r: Option<FreezePaneInfo>)
    ensures
        match r {
            Some(info) => pane_info_of(evs@) == Some(info@),
            None => pane_info_of(evs@) is None,
        },
{
    let mut i: usize = 0;
    while i < evs.len()
        invariant
            i <= evs@.len(),
            pane_info_of(evs@.take(i as int)) is None,
        decreases evs@.len() - i,
    {
        proof {
            assert(evs@.take(i + 1 as int).drop_last() =~= evs@.take(i as int));
            assert(evs@.take(i + 1 as int).last() == evs@[i as int]);
        }
        if tag_is(&evs[i], "pane") {
            let state = tag_attr_exec(&evs[i], "pane", "state");
            let mode: String = {
                let sv = match &state {
                    Some(s) => chars_of(s.as_str()),
                    None => Vec::new(),
                };
                let lc = lower_chars_local(&sv);
                proof {
                    assert(match opt_view(state) {
                        Some(s) => lc@ == crate::text::seq_lower(s),
                        None => lc@ == crate::text::seq_lower(Seq::<char>::empty()),
                    }) by {
                        if state is None {
                            assert(Seq::<char>::empty() =~= crate::text::seq_lower(
                                Seq::<char>::empty(),
                            ));
                        }
                    }
                }
                if str_eq_chars(&lc, "split") {
                    String::from_str("split")
                } else if starts_with_exec(&lc, "frozen") {
                    String::from_str("freeze")
                } else {
                    String::new()
                }
            };
            let x_split = match tag_attr_exec(&evs[i], "pane", "xSplit") {
                Some(x) => parse_num_trunc(x.as_str()),
                None => None,
            };
            let y_split = match tag_attr_exec(&evs[i], "pane", "ySplit") {
                Some(y) => parse_num_trunc(y.as_str()),
                None => None,
            };
            let info = FreezePaneInfo {
                mode,
                top_left_cell: tag_attr_exec(&evs[i], "pane", "topLeftCell"),
                x_split,
                y_split,
                active_pane: tag_attr_exec(&evs[i], "pane", "activePane"),
            };
            proof {
                assert(pane_info_of(evs@.take(i + 1 as int)) == Some(info@));
                lemma_pane_persists(evs@, i + 1 as int);
            }
            return Some(info);
        }
        i += 1;
    }
    proof {
        assert(evs@.take(evs@.len() as int) =~= evs@);
    }
    None
}

fn lower_chars_local(v: &Vec<char>) -> (r: Vec<char>)
    ensures
        r@ == crate::text::seq_lower(v@),
{
    let mut out: Vec<char> = Vec::new();
    let mut i: usize = 0;
    while i < v.len()
        invariant
            i <= v@.len(),
            out@ == crate::text::seq_lower(v@).take(i as int),
        decreases v@.len() - i,
    {
        out.push(crate::text::lower_char(v[i]));
        proof {
            assert(crate::text::seq_lower(v@).take(i + 1 as int) =~= crate::text::seq_lower(
                v@,
            ).take(i as int).push(crate::text::seq_lower(v@)[i as int]));
        }
        i += 1;
    }
    proof {
        assert(crate::text::seq_lower(v@).take(v@.len() as int) =~= crate::text::seq_lower(v@));
    }
    out
}

} // verus!
use vstd::prelude::*;

verus! {

/// A formula recorded at a zero-based cell.
pub struct FormulaEntry {
    pub row: u32,
    pub col: u32,
    pub text: String,
}

pub struct FormulaEntryV {
    pub row: int,
    pub col: int,
    pub text: Seq<char>,
}

impl View for FormulaEntry {
    type V = FormulaEntryV;

    open spec fn view(&self) -> FormulaEntryV {
        FormulaEntryV { row: self.row as int, col: self.col as int, text: self.text@ }
    }
}

/// State of the streaming formula scan: the cell under the cursor, and
/// whether the cursor stands inside an `<f>` element.
pub struct FormulaScanV {
    pub cur: Option<(int, int)>,
    pub in_f: bool,
    pub buf: Seq<char>,
    pub out: Seq<FormulaEntryV>,
}

/// The cell a `c` tag names: its `r` attribute parsed, when present,
/// nonempty and in range.
pub open spec fn cell_of_rattr(ev: XmlEvent) -> Option<(int, int)> {
    match tag_attr(ev, "c"@, "r"@) {
        Some(a) => if a.len() > 0 && a1_ok(a) {
            Some((a1_row(a), a1_col(a)))
        } else {
            None
        },
        None => None,
    }
}

/// Trimmed text of a text event, as the scans consume it.
pub open spec fn scan_text(ev: XmlEvent) -> Seq<char> {
    match ev {
        XmlEvent::Text { text, .. } => crate::errtok::trim_of(text@),
        _ => Seq::empty(),
    }
}

pub open spec fn formula_step(st: FormulaScanV, ev: XmlEvent) -> FormulaScanV {
    match ev {
        XmlEvent::Open { name, .. } => if name@ == "c"@ {
            FormulaScanV { cur: cell_of_rattr(ev), ..st }
        } else if name@ == "f"@ && st.cur is Some {
            FormulaScanV { in_f: true, buf: Seq::empty(), ..st }
        } else {
            st
        },
        XmlEvent::Close { name, .. } => if name@ == "f"@ && st.in_f {
            if st.cur is Some && st.buf.len() > 0 {
                FormulaScanV {
                    in_f: false,
                    out: st.out.push(
                        FormulaEntryV {
                            row: st.cur->Some_0.0,
                            col: st.cur->Some_0.1,
                            text: st.buf,
                        },
                    ),
                    ..st
                }
            } else {
                FormulaScanV { in_f: false, ..st }
            }
        } else if name@ == "c"@ {
            FormulaScanV { cur: None, ..st }
        } else {
            st
        },
        XmlEvent::Text { .. } => if st.in_f {
            FormulaScanV { buf: st.buf + scan_text(ev), ..st }
        } else {
            st
        },
        _ => st,
    }
}

pub open spec fn formula_scan(evs: Seq<XmlEvent>) -> FormulaScanV
    decreases evs.len(),
{
    if evs.len() == 0 {
        FormulaScanV { cur: None, in_f: false, buf: Seq::empty(), out: Seq::empty() }
    } else {
        formula_step(formula_scan(evs.drop_last()), evs.last())
    }
}

/// The formulas a worksheet part records, in document order: the text
/// inside each `<f>` of a referenced `<c>`, entities decoded and
/// whitespace-trimmed, empty formulas dropped.
pub open spec fn formula_entries_of(evs: Seq<XmlEvent>) -> Seq<FormulaEntryV> {
    formula_scan(evs).out
}

/// Extract the formula map of a worksheet part in one streaming pass.
pub fn parse_formulas(evs: &Vec<XmlEvent>) -> (out: Vec<FormulaEntry>)
    ensures
        out@.map_values(|x: FormulaEntry| x@) == formula_entries_of(evs@),
{
    let mut out: Vec<FormulaEntry> = Vec::new();
    let mut cur: Option<(u32, u32)> = None;
    let mut in_f = false;
    let mut buf: Vec<char> = Vec::new();
    let mut i: usize = 0;
    while i < evs.len()
        invariant
            i <= evs@.len(),
            ({
                let st = formula_scan(evs@.take(i as int));
                &&& st.cur == match cur {
                    Some((r, c)) => Some((r as int, c as int)),
                    None => None::<(int, int)>,
                }
                &&& st.in_f == in_f
                &&& st.buf == buf@
                &&& st.out == out@.map_values(|x: FormulaEntry| x@)
            }),
        decreases evs@.len() - i,
    {
        proof {
            assert(evs@.take(i + 1 as int).drop_last() =~= evs@.take(i as int));
            assert(evs@.take(i + 1 as int).last() == evs@[i as int]);
        }
        let ev = &evs[i];
        match ev {
            XmlEvent::Open { name, .. } => {
                let nv = chars_of(name.as_str());
                if str_eq_chars(&nv, "c") {
                    cur = match tag_attr_exec(ev, "c", "r") {
                        Some(a) => {
                            let av = chars_of(a.as_str());
                            if av.len() > 0 {
                                match parse_a1_chars(&av) {
                                    Ok(rc) => Some(rc),
                                    Err(_) => None,
                                }
                            } else {
                                None
                            }
                        },
                        None => None,
                    };
                } else if str_eq_chars(&nv, "f") && cur.is_some() {
                    in_f = true;
                    buf = Vec::new();
                }
            },
            XmlEvent::Close { name, .. } => {
                let nv = chars_of(name.as_str());
                if str_eq_chars(&nv, "f") && in_f {
                    in_f = false;
                    match cur {
                        Some((r, c)) => if buf.len() > 0 {
                            let entry = FormulaEntry { row: r, col: c, text: string_of(&buf) };
                            out.push(entry);
                            proof {
                                assert(out@.map_values(|x: FormulaEntry| x@) =~= formula_scan(
                                    evs@.take(i + 1 as int),
                                ).out);
                            }
                        },
                        None => {},
                    }
                } else if str_eq_chars(&nv, "c") {
                    cur = None;
                }
            },
            XmlEvent::Text { text, .. } => {
                if in_f {
                    let tv = chars_of(text.as_str());
                    let t = crate::errtok::trim_chars(&tv);
                    let mut k: usize = 0;
                    let ghost base = buf@;
                    while k < t.len()
                        invariant
                            k <= t@.len(),
                            buf@ == base + t@.take(k as int),
                        decreases t@.len() - k,
                    {
                        buf.push(t[k]);
                        proof {
                            assert(base + t@.take(k + 1 as int) =~= (base + t@.take(
                                k as int,
                            )).push(t@[k as int]));
                        }
                        k += 1;
                    }
                    proof {
                        assert(t@.take(t@.len() as int) =~= t@);
                        assert(base + t@.take(0) =~= base);
                    }
                }
            },
            _ => {},
        }
        i += 1;
    }
    proof {
        assert(evs@.take(evs@.len() as int) =~= evs@);
    }
    out
}

/// The formula recorded last for a cell, as a map filled in document
/// order would answer.
pub open spec fn formula_at(
    entries: Seq<FormulaEntryV>,
    row: int,
    col: int,
) -> Option<Seq<char>>
    decreases entries.len(),
{
    if entries.len() == 0 {
        None
    } else if entries.last().row == row && entries.last().col == col {
        Some(entries.last().text)
    } else {
        formula_at(entries.drop_last(), row, col)
    }
}

/// Look a cell's formula up.
pub fn formula_for(entries: &Vec<FormulaEntry>, row: u32, col: u32) -> (r: Option<String>)
    ensures
        match r {
            Some(s) => formula_at(
                entries@.map_values(|x: FormulaEntry| x@),
                row as int,
                col as int,
            ) == Some(s@),
            None => formula_at(
                entries@.map_values(|x: FormulaEntry| x@),
                row as int,
                col as int,
            ) is None,
        },
{
    let ghost ev = entries@.map_values(|x: FormulaEntry| x@);
    let mut i: usize = entries.len();
    proof {
        assert(ev.take(ev.len() as int) =~= ev);
    }
    while i > 0
        invariant
            i <= entries@.len(),
            ev == entries@.map_values(|x: FormulaEntry| x@),
            formula_at(ev, row as int, col as int) == formula_at(
                ev.take(i as int),
                row as int,
                col as int,
            ),
        decreases i,
    {
        i -= 1;
        proof {
            assert(ev.take(i + 1 as int).drop_last() =~= ev.take(i as int));
            assert(ev.take(i + 1 as int).last() == ev[i as int]);
        }
        if entries[i].row == row && entries[i].col == col {
            return Some(entries[i].text.clone());
        }
    }
    proof {
        assert(ev.take(0) =~= Seq::<FormulaEntryV>::empty());
    }
    None
}

/// A style id recorded at a zero-based cell.
#[derive(Clone, Copy, Debug, PartialEq, Eq, Structural)]
pub struct StyleIdEntry {
    pub row: u32,
    pub col: u32,
    pub style_id: u32,
}

/// The nonzero style ids of the referenced `c` tags, in document order.
pub open spec fn style_id_entries_of(evs: Seq<XmlEvent>) -> Seq<StyleIdEntry>
    decreases evs.len(),
{
    if evs.len() == 0 {
        Seq::empty()
    } else {
        let prev = style_id_entries_of(evs.drop_last());
        let ev = evs.last();
        match tag_attr(ev, "c"@, "r"@) {
            Some(a) => if a.len() > 0 && a1_ok(a) {
                let sid = match tag_attr(ev, "c"@, "s"@) {
                    Some(sv) => match dec_u32_of(sv) {
                        Some(x) => x,
                        None => 0,
                    },
                    None => 0,
                };
                if sid != 0 {
                    prev.push(
                        StyleIdEntry {
                            row: a1_row(a) as u32,
                            col: a1_col(a) as u32,
                            style_id: sid as u32,
                        },
                    )
                } else {
                    prev
                }
            } else {
                prev
            },
            None => prev,
        }
    }
}

/// Extract the per-cell style ids of a worksheet part.
pub fn parse_cell_style_ids(evs: &Vec<XmlEvent>) -> (out: Vec<StyleIdEntry>)
    ensures
        out@ == style_id_entries_of(evs@),
{
    let mut out: Vec<StyleIdEntry> = Vec::new();
    let mut i: usize = 0;
    while i < evs.len()
        invariant
            i <= evs@.len(),
            out@ == style_id_entries_of(evs@.take(i as int)),
        decreases evs@.len() - i,
    {
        proof {
            assert(evs@.take(i + 1 as int).drop_last() =~= evs@.take(i as int));
            assert(evs@.take(i + 1 as int).last() == evs@[i as int]);
        }
        match tag_attr_exec(&evs[i], "c", "r") {
            Some(a) => {
                let av = chars_of(a.as_str());
                if av.len() > 0 {
                    match parse_a1_chars(&av) {
                        Ok((row, col)) => {
                            let sid: u32 = match tag_attr_exec(&evs[i], "c", "s") {
                                Some(sv) => match parse_u32_dec(sv.as_str()) {
                                    Some(x) => x,
                                    None => 0,
                                },
                                None => 0,
                            };
                            if sid != 0 {
                                out.push(StyleIdEntry { row, col, style_id: sid });
                            }
                        },
                        Err(_) => {},
                    }
                }
            },
            None => {},
        }
        i += 1;
    }
    proof {
        assert(evs@.take(evs@.len() as int) =~= evs@);
    }
    out
}

/// The style id recorded last for a cell.
pub open spec fn style_id_at(entries: Seq<StyleIdEntry>, row: int, col: int) -> Option<int>
    decreases entries.len(),
{
    if entries.len() == 0 {
        None
    } else if entries.last().row == row && entries.last().col == col {
        Some(entries.last().style_id as int)
    } else {
        style_id_at(entries.drop_last(), row, col)
    }
}

/// Look a cell's style id up.
pub fn style_id_for(entries: &Vec<StyleIdEntry>, row: u32, col: u32) -> (r: Option<u32>)
    ensures
        match r {
            Some(x) => style_id_at(entries@, row as int, col as int) == Some(x as int),
            None => style_id_at(entries@, row as int, col as int) is None,
        },
{
    let mut i: usize = entries.len();
    proof {
        assert(entries@.take(entries@.len() as int) =~= entries@);
    }
    while i > 0
        invariant
            i <= entries@.len(),
            style_id_at(entries@, row as int, col as int) == style_id_at(
                entries@.take(i as int),
                row as int,
                col as int,
            ),
        decreases i,
    {
        i -= 1;
        proof {
            assert(entries@.take(i + 1 as int).drop_last() =~= entries@.take(i as int));
            assert(entries@.take(i + 1 as int).last() == entries@[i as int]);
        }
        if entries[i].row == row && entries[i].col == col {
            return Some(entries[i].style_id);
        }
    }
    proof {
        assert(entries@.take(0) =~= Seq::<StyleIdEntry>::empty());
    }
    None
}

} // verus!
use vstd::prelude::*;

verus! {

/// One comment of a comments part.
pub struct CommentInfo {
    pub cell: String,
    pub text: String,
    pub author: String,
    pub threaded: bool,
}

pub struct CommentInfoV {
    pub cell: Seq<char>,
    pub text: Seq<char>,
    pub author: Seq<char>,
    pub threaded: bool,
}

impl View for CommentInfo {
    type V = CommentInfoV;

    open spec fn view(&self) -> CommentInfoV {
        CommentInfoV {
            cell: self.cell@,
            text: self.text@,
            author: self.author@,
            threaded: self.threaded,
        }
    }
}

pub struct CommentScanV {
    pub in_author: bool,
    pub in_comment: bool,
    pub in_t: bool,
    pub authors: Seq<Seq<char>>,
    pub cur_cell: Seq<char>,
    pub cur_author: int,
    pub cur_text: Seq<char>,
    pub out: Seq<CommentInfoV>,
}

pub open spec fn comment_step(st: CommentScanV, ev: XmlEvent) -> CommentScanV {
    match ev {
        XmlEvent::Open { name, .. } => if name@ == "author"@ {
            CommentScanV { in_author: true, ..st }
        } else if name@ == "comment"@ {
            CommentScanV {
                in_comment: true,
                cur_text: Seq::empty(),
                cur_cell: match tag_attr(ev, "comment"@, "ref"@) {
                    Some(a) => a,
                    None => Seq::empty(),
                },
                cur_author: match tag_attr(ev, "comment"@, "authorId"@) {
                    Some(a) => match dec_u32_of(a) {
                        Some(x) => x,
                        None => 0,
                    },
                    None => 0,
                },
                ..st
            }
        } else if name@ == "t"@ {
            CommentScanV { in_t: true, ..st }
        } else {
            st
        },
        XmlEvent::Close { name, .. } => if name@ == "author"@ {
            CommentScanV { in_author: false, ..st }
        } else if name@ == "comment"@ {
            CommentScanV {
                in_comment: false,
                out: st.out.push(
                    CommentInfoV {
                        cell: st.cur_cell,
                        text: st.cur_text,
                        author: if 0 <= st.cur_author < st.authors.len() {
                            st.authors[st.cur_author]
                        } else {
                            Seq::empty()
                        },
                        threaded: false,
                    },
                ),
                ..st
            }
        } else if name@ == "t"@ {
            CommentScanV { in_t: false, ..st }
        } else {
            st
        },
        XmlEvent::Text { .. } => {
            let t = scan_text(ev);
            if t.len() == 0 {
                st
            } else if st.in_author {
                CommentScanV { authors: st.authors.push(t), ..st }
            } else if st.in_comment && st.in_t {
                CommentScanV { cur_text: st.cur_text + t, ..st }
            } else {
                st
            }
        },
        _ => st,
    }
}

pub open spec fn comment_scan(evs: Seq<XmlEvent>) -> CommentScanV
    decreases evs.len(),
{
    if evs.len() == 0 {
        CommentScanV {
            in_author: false,
            in_comment: false,
            in_t: false,
            authors: Seq::empty(),
            cur_cell: Seq::empty(),
            cur_author: 0,
            cur_text: Seq::empty(),
            out: Seq::empty(),
        }
    } else {
        comment_step(comment_scan(evs.drop_last()), evs.last())
    }
}

/// The comments of a comments part: each comment's cell, its
/// accumulated text, and its author resolved against the author list
/// accumulated so far (the schema puts authors first).
pub open spec fn comments_of(evs: Seq<XmlEvent>) -> Seq<CommentInfoV> {
    comment_scan(evs).out
}

/// Parse a comments part.
pub fn parse_comments(evs: &Vec<XmlEvent>) -> (out: Vec<CommentInfo>)
    ensures
        out@.map_values(|x: CommentInfo| x@) == comments_of(evs@),
{
    let mut out: Vec<CommentInfo> = Vec::new();
    let mut in_author = false;
    let mut in_comment = false;
    let mut in_t = false;
    let mut authors: Vec<String> = Vec::new();
    let mut cur_cell: String = String::new();
    let mut cur_author: u32 = 0;
    let mut cur_text: Vec<char> = Vec::new();
    let mut i: usize = 0;
    while i < evs.len()
        invariant
            i <= evs@.len(),
            ({
                let st = comment_scan(evs@.take(i as int));
                &&& st.in_author == in_author
                &&& st.in_comment == in_comment
                &&& st.in_t == in_t
                &&& st.authors == authors@.map_values(|s: String| s@)
                &&& st.cur_cell == cur_cell@
                &&& st.cur_author == cur_author as int
                &&& st.cur_text == cur_text@
                &&& st.out == out@.map_values(|x: CommentInfo| x@)
            }),
        decreases evs@.len() - i,
    {
        proof {
            assert(evs@.take(i + 1 as int).drop_last() =~= evs@.take(i as int));
            assert(evs@.take(i + 1 as int).last() == evs@[i as int]);
        }
        let ev = &evs[i];
        match ev {
            XmlEvent::Open { name, .. } => {
                let nv = chars_of(name.as_str());
                if str_eq_chars(&nv, "author") {
                    in_author = true;
                } else if str_eq_chars(&nv, "comment") {
                    in_comment = true;
                    cur_text = Vec::new();
                    cur_cell = match tag_attr_exec(ev, "comment", "ref") {
                        Some(a) => a,
                        None => String::new(),
                    };
                    cur_author = match tag_attr_exec(ev, "comment", "authorId") {
                        Some(a) => match parse_u32_dec(a.as_str()) {
                            Some(x) => x,
                            None => 0,
                        },
                        None => 0,
                    };
                } else if str_eq_chars(&nv, "t") {
                    in_t = true;
                }
            },
            XmlEvent::Close { name, .. } => {
                let nv = chars_of(name.as_str());
                if str_eq_chars(&nv, "author") {
                    in_author = false;
                } else if str_eq_chars(&nv, "comment") {
                    in_comment = false;
                    let author: String = if (cur_author as usize) < authors.len() {
                        authors[cur_author as usize].clone()
                    } else {
                        String::new()
                    };
                    proof {
                        let av = authors@.map_values(|s: String| s@);
                        if (cur_author as int) < av.len() {
                            assert(av[cur_author as int] == authors@[cur_author as int]@);
                        }
                    }
                    let c = CommentInfo {
                        cell: cur_cell.clone(),
                        text: string_of(&cur_text),
                        author,
                        threaded: false,
                    };
                    out.push(c);
                    proof {
                        assert(out@.map_values(|x: CommentInfo| x@) =~= comment_scan(
                            evs@.take(i + 1 as int),
                        ).out);
                    }
                } else if str_eq_chars(&nv, "t") {
                    in_t = false;
                }
            },
            XmlEvent::Text { text, .. } => {
                let tv = chars_of(text.as_str());
                let t = crate::errtok::trim_chars(&tv);
                if t.len() > 0 {
                    if in_author {
                        authors.push(string_of(&t));
                        proof {
                            assert(authors@.map_values(|s: String| s@) =~= comment_scan(
                                evs@.take(i + 1 as int),
                            ).authors);
                        }
                    } else if in_comment && in_t {
                        let mut k: usize = 0;
                        let ghost base = cur_text@;
                        while k < t.len()
                            invariant
                                k <= t@.len(),
                                cur_text@ == base + t@.take(k as int),
                            decreases t@.len() - k,
                        {
                            cur_text.push(t[k]);
                            proof {
                                assert(base + t@.take(k + 1 as int) =~= (base + t@.take(
                                    k as int,
                                )).push(t@[k as int]));
                            }
                            k += 1;
                        }
                        proof {
                            assert(t@.take(t@.len() as int) =~= t@);
                        }
                    }
                }
            },
            _ => {},
        }
        i += 1;
    }
    proof {
        assert(evs@.take(evs@.len() as int) =~= evs@);
    }
    out
}

} // verus!
use vstd::prelude::*;

verus! {

/// A defined name of the workbook manifest.
pub struct NamedRangeInfo {
    pub name: String,
    /// `"sheet"` or `"workbook"`.
    pub scope: String,
    pub refers_to: String,
}

pub struct NamedRangeInfoV {
    pub name: Seq<char>,
    pub scope: Seq<char>,
    pub refers_to: Seq<char>,
}

impl View for NamedRangeInfo {
    type V = NamedRangeInfoV;

    open spec fn view(&self) -> NamedRangeInfoV {
        NamedRangeInfoV { name: self.name@, scope: self.scope@, refers_to: self.refers_to@ }
    }
}

pub open spec fn seq_contains(s: Seq<char>, c: char) -> bool {
    exists|i: int| 0 <= i < s.len() && s[i] == c
}

fn contains_exec(v: &Vec<char>, c: char) -> (r: bool)
    ensures
        r == seq_contains(v@, c),
{
    let mut i: usize = 0;
    while i < v.len()
        invariant
            i <= v@.len(),
            forall|j: int| 0 <= j < i ==> v@[j] != c,
        decreases v@.len() - i,
    {
        if v[i] == c {
            return true;
        }
        i += 1;
    }
    false
}

pub struct NameScanV {
    pub in_dn: bool,
    pub name: Option<Seq<char>>,
    pub local_id: Option<int>,
    pub buf: Seq<char>,
    pub out: Seq<NamedRangeInfoV>,
}

/// The record a closed `definedName` element yields: reserved `_xlnm.`
/// names and empty references are dropped; a `localSheetId` makes the
/// scope `sheet` and, when the reference names no sheet with `!`, the
/// owning sheet's name is put in front of it.
pub open spec fn defined_name_record(
    name: Seq<char>,
    local_id: Option<int>,
    buf: Seq<char>,
    sheet_names: Seq<Seq<char>>,
) -> Option<NamedRangeInfoV> {
    let refers = crate::errtok::trim_of(buf);
    if refers.len() == 0 || starts_with(name, "_xlnm."@) {
        None
    } else {
        match local_id {
            Some(idx) => {
                let refers2 = if seq_contains(refers, '!') {
                    refers
                } else if 0 <= idx < sheet_names.len() {
                    sheet_names[idx] + seq!['!'] + refers
                } else {
                    refers
                };
                Some(NamedRangeInfoV { name, scope: "sheet"@, refers_to: refers2 })
            },
            None => Some(NamedRangeInfoV { name, scope: "workbook"@, refers_to: refers }),
        }
    }
}

pub open spec fn name_step(st: NameScanV, ev: XmlEvent, sheet_names: Seq<Seq<char>>) -> NameScanV {
    match ev {
        XmlEvent::Open { name, .. } => if name@ == "definedName"@ {
            NameScanV {
                in_dn: true,
                name: tag_attr(ev, "definedName"@, "name"@),
                local_id: match tag_attr(ev, "definedName"@, "localSheetId"@) {
                    Some(a) => dec_u32_of(a),
                    None => None,
                },
                buf: Seq::empty(),
                ..st
            }
        } else {
            st
        },
        XmlEvent::Close { name, .. } => if name@ == "definedName"@ {
            let st2 = NameScanV { in_dn: false, name: None, local_id: None, ..st };
            match st.name {
                Some(n) => match defined_name_record(n, st.local_id, st.buf, sheet_names) {
                    Some(rec) => NameScanV { out: st.out.push(rec), ..st2 },
                    None => st2,
                },
                None => st2,
            }
        } else {
            st
        },
        XmlEvent::Text { .. } => if st.in_dn {
            NameScanV { buf: st.buf + scan_text(ev), ..st }
        } else {
            st
        },
        _ => st,
    }
}

pub open spec fn name_scan(evs: Seq<XmlEvent>, sheet_names: Seq<Seq<char>>) -> NameScanV
    decreases evs.len(),
{
    if evs.len() == 0 {
        NameScanV { in_dn: false, name: None, local_id: None, buf: Seq::empty(), out: Seq::empty() }
    } else {
        name_step(name_scan(evs.drop_last(), sheet_names), evs.last(), sheet_names)
    }
}

pub open spec fn defined_names_of(
    evs: Seq<XmlEvent>,
    sheet_names: Seq<Seq<char>>,
) -> Seq<NamedRangeInfoV> {
    name_scan(evs, sheet_names).out
}

/// Parse the defined names of `workbook.xml`, resolving sheet scopes
/// against the workbook's sheet-name list.
pub fn parse_defined_names(evs: &Vec<XmlEvent>, sheet_names: &Vec<String>) -> (out: Vec<
    NamedRangeInfo,
>)
    ensures
        out@.map_values(|x: NamedRangeInfo| x@) == defined_names_of(
            evs@,
            sheet_names@.map_values(|s: String| s@),
        ),
{
    let ghost sn = sheet_names@.map_values(|s: String| s@);
    let mut out: Vec<NamedRangeInfo> = Vec::new();
    let mut in_dn = false;
    let mut cur_name: Option<String> = None;
    let mut local_id: Option<u32> = None;
    let mut buf: Vec<char> = Vec::new();
    let mut i: usize = 0;
    while i < evs.len()
        invariant
            i <= evs@.len(),
            sn == sheet_names@.map_values(|s: String| s@),
            ({
                let st = name_scan(evs@.take(i as int), sn);
                &&& st.in_dn == in_dn
                &&& st.name == opt_view(cur_name)
                &&& st.local_id == match local_id {
                    Some(x) => Some(x as int),
                    None => None::<int>,
                }
                &&& st.buf == buf@
                &&& st.out == out@.map_values(|x: NamedRangeInfo| x@)
            }),
        decreases evs@.len() - i,
    {
        proof {
            assert(evs@.take(i + 1 as int).drop_last() =~= evs@.take(i as int));
            assert(evs@.take(i + 1 as int).last() == evs@[i as int]);
        }
        let ev = &evs[i];
        match ev {
            XmlEvent::Open { name, .. } => {
                let nv = chars_of(name.as_str());
                if str_eq_chars(&nv, "definedName") {
                    in_dn = true;
                    cur_name = tag_attr_exec(ev, "definedName", "name");
                    local_id = match tag_attr_exec(ev, "definedName", "localSheetId") {
                        Some(a) => parse_u32_dec(a.as_str()),
                        None => None,
                    };
                    buf = Vec::new();
                }
            },
            XmlEvent::Close { name, .. } => {
                let nv = chars_of(name.as_str());
                if str_eq_chars(&nv, "definedName") {
                    in_dn = false;
                    let taken = cur_name;
                    cur_name = None;
                    let lid = local_id;
                    local_id = None;
                    match taken {
                        Some(n) => {
                            let refers = crate::errtok::trim_chars(&buf);
                            let nv2 = chars_of(n.as_str());
                            if refers.len() == 0 || starts_with_exec(&nv2, "_xlnm.") {
                            } else {
                                match lid {
                                    Some(idx) => {
                                        let refers2: Vec<char> = if contains_exec(&refers, '!') {
                                            refers
                                        } else if (idx as usize) < sheet_names.len() {
                                            let mut w = chars_of(
                                                sheet_names[idx as usize].as_str(),
                                            );
                                            proof {
                                                assert(sn[idx as int] == sheet_names@[
                                                    idx as int]@);
                                            }
                                            w.push('!');
                                            let mut k: usize = 0;
                                            let ghost base = w@;
                                            proof {
                                                assert(base =~= sn[idx as int] + seq!['!']);
                                            }
                                            while k < refers.len()
                                                invariant
                                                    k <= refers@.len(),
                                                    w@ == base + refers@.take(k as int),
                                                decreases refers@.len() - k,
                                            {
                                                w.push(refers[k]);
                                                proof {
                                                    assert(base + refers@.take(k + 1 as int)
                                                        =~= (base + refers@.take(k as int)).push(
                                                        refers@[k as int],
                                                    ));
                                                }
                                                k += 1;
                                            }
                                            proof {
                                                assert(refers@.take(refers@.len() as int)
                                                    =~= refers@);
                                                assert(base + refers@.take(0) =~= base);
                                            }
                                            w
                                        } else {
                                            refers
                                        };
                                        let rec = NamedRangeInfo {
                                            name: n,
                                            scope: String::from_str("sheet"),
                                            refers_to: string_of(&refers2),
                                        };
                                        out.push(rec);
                                        proof {
                                            assert(out@.map_values(|x: NamedRangeInfo| x@)
                                                =~= name_scan(evs@.take(i + 1 as int), sn).out);
                                        }
                                    },
                                    None => {
                                        let rec = NamedRangeInfo {
                                            name: n,
                                            scope: String::from_str("workbook"),
                                            refers_to: string_of(&refers),
                                        };
                                        out.push(rec);
                                        proof {
                                            assert(out@.map_values(|x: NamedRangeInfo| x@)
                                                =~= name_scan(evs@.take(i + 1 as int), sn).out);
                                        }
                                    },
                                }
                            }
                        },
                        None => {},
                    }
                }
            },
            XmlEvent::Text { text, .. } => {
                if in_dn {
                    let tv = chars_of(text.as_str());
                    let t = crate::errtok::trim_chars(&tv);
                    let mut k: usize = 0;
                    let ghost base = buf@;
                    while k < t.len()
                        invariant
                            k <= t@.len(),
                            buf@ == base + t@.take(k as int),
                        decreases t@.len() - k,
                    {
                        buf.push(t[k]);
                        proof {
                            assert(base + t@.take(k + 1 as int) =~= (base + t@.take(
                                k as int,
                            )).push(t@[k as int]));
                        }
                        k += 1;
                    }
                    proof {
                        assert(t@.take(t@.len() as int) =~= t@);
                        assert(base + t@.take(0) =~= base);
                    }
                }
            },
            _ => {},
        }
        i += 1;
    }
    proof {
        assert(evs@.take(evs@.len() as int) =~= evs@);
    }
    out
}

/// `s` with every leading `=` removed.
pub open spec fn strip_leading_eq(s: Seq<char>) -> Seq<char>
    decreases s.len(),
{
    if s.len() > 0 && s[0] == '=' {
        strip_leading_eq(s.skip(1))
    } else {
        s
    }
}

/// `s` with every leading and trailing `'` removed.
pub open spec fn strip_quotes(s: Seq<char>) -> Seq<char>
    decreases s.len(),
{
    if s.len() > 0 && s[0] == '\'' {
        strip_quotes(s.skip(1))
    } else if s.len() > 0 && s.last() == '\'' {
        strip_quotes(s.drop_last())
    } else {
        s
    }
}

/// Whether a sheet-scoped defined name belongs to `sheet`: the sheet
/// component embedded before `!` in its reference, unquoted, names the
/// sheet. A sheet-scoped name without `!` belongs to no sheet.
pub open spec fn named_range_matches(r: NamedRangeInfoV, sheet: Seq<char>) -> bool {
    if r.scope == "sheet"@ {
        let norm = strip_leading_eq(r.refers_to);
        let b = bang_pos(norm);
        if b == norm.len() {
            false
        } else {
            strip_quotes(norm.take(b)) == sheet
        }
    } else {
        true
    }
}

/// Position of the first `!`, or the length.
pub open spec fn bang_pos(s: Seq<char>) -> int
    decreases s.len(),
{
    if s.len() == 0 {
        0
    } else if s[0] == '!' {
        0
    } else {
        1 + bang_pos(s.skip(1))
    }
}

proof fn lemma_bang_pos(s: Seq<char>, k: int)
    requires
        0 <= k <= s.len(),
        forall|i: int| 0 <= i < k ==> s[i] != '!',
        k < s.len() ==> s[k] == '!',
    ensures
        bang_pos(s) == k,
    decreases s.len(),
{
    reveal_with_fuel(bang_pos, 2);
    if s.len() == 0 || k == 0 {
    } else {
        let t = s.skip(1);
        assert(forall|i: int| 0 <= i < k - 1 ==> t[i] == s[i + 1]);
        lemma_bang_pos(t, k - 1);
    }
}

pub open spec fn filtered_names(
    all: Seq<NamedRangeInfoV>,
    sheet: Seq<char>,
) -> Seq<NamedRangeInfoV>
    decreases all.len(),
{
    if all.len() == 0 {
        Seq::empty()
    } else {
        let prev = filtered_names(all.drop_last(), sheet);
        if named_range_matches(all.last(), sheet) {
            prev.push(all.last())
        } else {
            prev
        }
    }
}

fn strip_leading_eq_exec(v: &Vec<char>) -> (r: Vec<char>)
    ensures
        r@ == strip_leading_eq(v@),
{
    let mut a: usize = 0;
    proof {
        assert(v@.skip(0) =~= v@);
    }
    while a < v.len() && v[a] == '='
        invariant
            a <= v@.len(),
            strip_leading_eq(v@) == strip_leading_eq(v@.skip(a as int)),
        decreases v@.len() - a,
    {
        proof {
            assert(v@.skip(a as int)[0] == v@[a as int]);
            assert(v@.skip(a as int).skip(1) =~= v@.skip(a + 1));
        }
        a += 1;
    }
    proof {
        if a < v@.len() {
            assert(v@.skip(a as int)[0] == v@[a as int]);
        }
        assert(strip_leading_eq(v@.skip(a as int)) == v@.skip(a as int));
    }
    subvec(v, a, v.len())
}

fn strip_quotes_exec(v: &Vec<char>) -> (r: Vec<char>)
    ensures
        r@ == strip_quotes(v@),
{
    let mut a: usize = 0;
    let mut b: usize = v.len();
    proof {
        assert(v@.subrange(0, v@.len() as int) =~= v@);
    }
    while a < b && (v[a] == '\'' || v[b - 1] == '\'')
        invariant
            a <= b <= v@.len(),
            strip_quotes(v@) == strip_quotes(v@.subrange(a as int, b as int)),
        decreases b - a,
    {
        let ghost w = v@.subrange(a as int, b as int);
        proof {
            assert(w[0] == v@[a as int]);
            assert(w.last() == v@[b - 1]);
            assert(w.skip(1) =~= v@.subrange(a + 1, b as int));
            assert(w.drop_last() =~= v@.subrange(a as int, b - 1));
        }
        if v[a] == '\'' {
            a += 1;
        } else {
            b -= 1;
        }
    }
    proof {
        let w = v@.subrange(a as int, b as int);
        if a < b {
            assert(w[0] == v@[a as int]);
            assert(w.last() == v@[b - 1]);
        }
        assert(strip_quotes(w) == w);
    }
    subvec(v, a, b)
}

fn named_range_matches_exec(r: &NamedRangeInfo, sheet: &str) -> (res: bool)
    ensures
        res == named_range_matches(r@, sheet@),
{
    let sv = chars_of(r.scope.as_str());
    if !str_eq_chars(&sv, "sheet") {
        return true;
    }
    let rv = chars_of(r.refers_to.as_str());
    let norm = strip_leading_eq_exec(&rv);
    let mut b: usize = 0;
    while b < norm.len() && norm[b] != '!'
        invariant
            b <= norm@.len(),
            forall|i: int| 0 <= i < b ==> norm@[i] != '!',
        decreases norm@.len() - b,
    {
        b += 1;
    }
    proof {
        lemma_bang_pos(norm@, b as int);
    }
    if b == norm.len() {
        return false;
    }
    let head = subvec(&norm, 0, b);
    proof {
        assert(head@ =~= norm@.take(b as int));
    }
    let part = strip_quotes_exec(&head);
    let shv = chars_of(sheet);
    crate::text::chars_eq(&part, &shv)
}

/// The defined names visible from one sheet: workbook-scoped names, and
/// the sheet-scoped names whose reference embeds this sheet's name.
pub fn named_ranges_for_sheet(all: &Vec<NamedRangeInfo>, sheet: &str) -> (out: Vec<NamedRangeInfo>)
    ensures
        out@.map_values(|x: NamedRangeInfo| x@) == filtered_names(
            all@.map_values(|x: NamedRangeInfo| x@),
            sheet@,
        ),
{
    let ghost av = all@.map_values(|x: NamedRangeInfo| x@);
    let mut out: Vec<NamedRangeInfo> = Vec::new();
    let mut i: usize = 0;
    while i < all.len()
        invariant
            i <= all@.len(),
            av == all@.map_values(|x: NamedRangeInfo| x@),
            out@.map_values(|x: NamedRangeInfo| x@) == filtered_names(av.take(i as int), sheet@),
        decreases all@.len() - i,
    {
        proof {
            assert(av.take(i + 1 as int).drop_last() =~= av.take(i as int));
            assert(av.take(i + 1 as int).last() == av[i as int]);
        }
        if named_range_matches_exec(&all[i], sheet) {
            let rec = NamedRangeInfo {
                name: all[i].name.clone(),
                scope: all[i].scope.clone(),
                refers_to: all[i].refers_to.clone(),
            };
            out.push(rec);
            proof {
                assert(rec@ == av[i as int]);
                assert(out@.map_values(|x: NamedRangeInfo| x@) =~= filtered_names(
                    av.take(i + 1 as int),
                    sheet@,
                ));
            }
        }
        i += 1;
    }
    proof {
        assert(av.take(av.len() as int) =~= av);
    }
    out
}

/// A table read from a table part.
pub struct TableInfo {
    pub name: String,
    pub ref_range: String,
    pub header_row: bool,
    pub totals_row: bool,
    pub style: Option<String>,
    pub columns: Vec<String>,
    pub autofilter: bool,
}

pub struct TableInfoV {
    pub name: Seq<char>,
    pub ref_range: Seq<char>,
    pub header_row: bool,
    pub totals_row: bool,
    pub style: Option<Seq<char>>,
    pub columns: Seq<Seq<char>>,
    pub autofilter: bool,
}

impl View for TableInfo {
    type V = TableInfoV;

    open spec fn view(&self) -> TableInfoV {
        TableInfoV {
            name: self.name@,
            ref_range: self.ref_range@,
            header_row: self.header_row,
            totals_row: self.totals_row,
            style: opt_view(self.style),
            columns: self.columns@.map_values(|s: String| s@),
            autofilter: self.autofilter,
        }
    }
}

pub open spec fn table_step(st: TableInfoV, ev: XmlEvent) -> TableInfoV {
    if is_tag(ev, "table"@) {
        TableInfoV {
            name: match tag_attr(ev, "table"@, "name"@) {
                Some(n) => n,
                None => match tag_attr(ev, "table"@, "displayName"@) {
                    Some(n) => n,
                    None => Seq::empty(),
                },
            },
            ref_range: match tag_attr(ev, "table"@, "ref"@) {
                Some(r) => r,
                None => Seq::empty(),
            },
            header_row: match tag_attr(ev, "table"@, "headerRowCount"@) {
                Some(x) => x != "0"@,
                None => true,
            },
            totals_row: match tag_attr(ev, "table"@, "totalsRowCount"@) {
                Some(x) => x != "0"@,
                None => false,
            },
            ..st
        }
    } else if is_tag(ev, "tableStyleInfo"@) {
        TableInfoV {
            style: match tag_attr(ev, "tableStyleInfo"@, "name"@) {
                Some(n) => if n.len() == 0 {
                    None
                } else {
                    Some(n)
                },
                None => None,
            },
            ..st
        }
    } else if is_tag(ev, "tableColumn"@) {
        match tag_attr(ev, "tableColumn"@, "name"@) {
            Some(n) => TableInfoV { columns: st.columns.push(n), ..st },
            None => st,
        }
    } else if is_tag(ev, "autoFilter"@) {
        TableInfoV { autofilter: true, ..st }
    } else {
        st
    }
}

pub open spec fn table_scan(evs: Seq<XmlEvent>) -> TableInfoV
    decreases evs.len(),
{
    if evs.len() == 0 {
        TableInfoV {
            name: Seq::empty(),
            ref_range: Seq::empty(),
            header_row: true,
            totals_row: false,
            style: None,
            columns: Seq::empty(),
            autofilter: false,
        }
    } else {
        table_step(table_scan(evs.drop_last()), evs.last())
    }
}

/// Parse one table part.
pub fn parse_table(evs: &Vec<XmlEvent>) -> (out: TableInfo)
    ensures
        out@ == table_scan(evs@),
{
    let mut name = String::new();
    let mut ref_range = String::new();
    let mut header_row = true;
    let mut totals_row = false;
    let mut style: Option<String> = None;
    let mut columns: Vec<String> = Vec::new();
    let mut autofilter = false;
    let mut i: usize = 0;
    while i < evs.len()
        invariant
            i <= evs@.len(),
            ({
                let st = table_scan(evs@.take(i as int));
                &&& st.name == name@
                &&& st.ref_range == ref_range@
                &&& st.header_row == header_row
                &&& st.totals_row == totals_row
                &&& st.style == opt_view(style)
                &&& st.columns == columns@.map_values(|s: String| s@)
                &&& st.autofilter == autofilter
            }),
        decreases evs@.len() - i,
    {
        proof {
            assert(evs@.take(i + 1 as int).drop_last() =~= evs@.take(i as int));
            assert(evs@.take(i + 1 as int).last() == evs@[i as int]);
        }
        let ev = &evs[i];
        if tag_is(ev, "table") {
            name = match tag_attr_exec(ev, "table", "name") {
                Some(n) => n,
                None => match tag_attr_exec(ev, "table", "displayName") {
                    Some(n) => n,
                    None => String::new(),
                },
            };
            ref_range = match tag_attr_exec(ev, "table", "ref") {
                Some(r) => r,
                None => String::new(),
            };
            header_row = match tag_attr_exec(ev, "table", "headerRowCount") {
                Some(x) => {
                    let xv = chars_of(x.as_str());
                    !str_eq_chars(&xv, "0")
                },
                None => true,
            };
            totals_row = match tag_attr_exec(ev, "table", "totalsRowCount") {
                Some(x) => {
                    let xv = chars_of(x.as_str());
                    !str_eq_chars(&xv, "0")
                },
                None => false,
            };
        } else if tag_is(ev, "tableStyleInfo") {
            style = match tag_attr_exec(ev, "tableStyleInfo", "name") {
                Some(n) => if n.as_str().unicode_len() == 0 {
                    None
                } else {
                    Some(n)
                },
                None => None,
            };
        } else if tag_is(ev, "tableColumn") {
            match tag_attr_exec(ev, "tableColumn", "name") {
                Some(n) => {
                    columns.push(n);
                    proof {
                        assert(columns@.map_values(|s: String| s@) =~= table_scan(
                            evs@.take(i + 1 as int),
                        ).columns);
                    }
                },
                None => {},
            }
        } else if tag_is(ev, "autoFilter") {
            autofilter = true;
        }
        i += 1;
    }
    proof {
        assert(evs@.take(evs@.len() as int) =~= evs@);
    }
    TableInfo { name, ref_range, header_row, totals_row, style, columns, autofilter }
}

} // verus!
use vstd::prelude::*;

verus! {

/// Public form of the per-event attribute read, shared with the style
/// scans.
pub fn tag_attr_pub(ev: &XmlEvent, tag: &str, key: &str) -> (r: Option<String>)
    ensures
        match r {
            Some(s) => tag_attr(*ev, tag@, key@) == Some(s@),
            None => tag_attr(*ev, tag@, key@) is None,
        },
{
    tag_attr_exec(ev, tag, key)
}

} // verus!
use vstd::prelude::*;

verus! {

/// Public form of the tag test.
pub fn is_tag_pub(ev: &XmlEvent, tag: &str) -> (r: bool)
    ensures
        r == is_tag(*ev, tag@),
{
    tag_is(ev, tag)
}

} // verus!
use vstd::prelude::*;

verus! {

/// The per-event attribute read, shared with the other scans.
pub fn tag_attr_exec_shared(ev: &XmlEvent, tag: &str, key: &str) -> (r: Option<String>)
    ensures
        match r {
            Some(s) => tag_attr(*ev, tag@, key@) == Some(s@),
            None => tag_attr(*ev, tag@, key@) is None,
        },
{
    tag_attr_exec(ev, tag, key)
}

} // verus!
use vstd::prelude::*;

verus! {

/// The formula recorded last for a cell, normalized to a leading `=`,
/// as the formula endpoint reports it.
pub fn normalized_formula_for(entries: &Vec<FormulaEntry>, row: u32, col: u32) -> (r: Option<
    String,
>)
    ensures
        ({
            let f = formula_at(entries@.map_values(|x: FormulaEntry| x@), row as int, col as int);
            match r {
                Some(s) => f is Some && s@ == crate::cell::formula_text_of(f->Some_0),
                None => f is None,
            }
        }),
{
    match formula_for(entries, row, col) {
        Some(f) => {
            let v = chars_of(f.as_str());
            if v.len() > 0 && v[0] == '=' {
                Some(f)
            } else {
                let mut w: Vec<char> = Vec::new();
                w.push('=');
                let mut k: usize = 0;
                proof {
                    assert(w@ =~= seq!['='] + f@.take(0));
                }
                while k < v.len()
                    invariant
                        k <= v@.len(),
                        v@ == f@,
                        w@ == seq!['='] + f@.take(k as int),
                    decreases v@.len() - k,
                {
                    w.push(v[k]);
                    proof {
                        assert(seq!['='] + f@.take(k + 1 as int) =~= (seq!['='] + f@.take(
                            k as int,
                        )).push(f@[k as int]));
                    }
                    k += 1;
                }
                proof {
                    assert(f@.take(f@.len() as int) =~= f@);
                }
                Some(string_of(&w))
            }
        },
        None => None,
    }
}

} // verus!
use vstd::prelude::*;

verus! {

/// The `/`-separated pieces of `s`, in order.
pub open spec fn slash_pieces(s: Seq<char>) -> Seq<Seq<char>>
    decreases s.len(),
{
    if s.len() == 0 {
        seq![Seq::<char>::empty()]
    } else if s.last() == '/' {
        slash_pieces(s.drop_last()).push(Seq::empty())
    } else {
        let prev = slash_pieces(s.drop_last());
        prev.update(prev.len() - 1, prev.last().push(s.last()))
    }
}

proof fn lemma_slash_pieces_nonempty(s: Seq<char>)
    ensures
        slash_pieces(s).len() >= 1,
    decreases s.len(),
{
    if s.len() > 0 {
        lemma_slash_pieces_nonempty(s.drop_last());
    }
}

fn split_slashes(s: &str) -> (r: Vec<String>)
    ensures
        r@.map_values(|p: String| p@) == slash_pieces(s@),
{
    let v = chars_of(s);
    let mut out: Vec<String> = Vec::new();
    let mut piece: Vec<char> = Vec::new();
    let mut i: usize = 0;
    proof {
        assert(slash_pieces(s@.take(0)) =~= seq![Seq::<char>::empty()]);
    }
    while i < v.len()
        invariant
            i <= v@.len(),
            v@ == s@,
            out@.map_values(|p: String| p@).push(piece@) == slash_pieces(s@.take(i as int)),
        decreases v@.len() - i,
    {
        proof {
            assert(s@.take(i + 1 as int).drop_last() =~= s@.take(i as int));
            assert(s@.take(i + 1 as int).last() == s@[i as int]);
            lemma_slash_pieces_nonempty(s@.take(i as int));
        }
        if v[i] == '/' {
            out.push(string_of(&piece));
            piece = Vec::new();
            proof {
                assert(out@.map_values(|p: String| p@).push(piece@) =~= slash_pieces(
                    s@.take(i + 1 as int),
                ));
            }
        } else {
            piece.push(v[i]);
            proof {
                let prev = slash_pieces(s@.take(i as int));
                assert(out@.map_values(|p: String| p@).push(piece@) =~= prev.update(
                    prev.len() - 1,
                    prev.last().push(s@[i as int]),
                ));
            }
        }
        i += 1;
    }
    out.push(string_of(&piece));
    proof {
        assert(s@.take(s@.len() as int) =~= s@);
        assert(out@.map_values(|p: String| p@) =~= slash_pieces(s@));
    }
    out
}

/// The segment stack a path's pieces leave: empty and `.` pieces are
/// dropped, `..` removes the segment above it when there is one.
pub open spec fn norm_stack(pieces: Seq<Seq<char>>) -> Seq<Seq<char>>
    decreases pieces.len(),
{
    if pieces.len() == 0 {
        Seq::empty()
    } else {
        let prev = norm_stack(pieces.drop_last());
        let seg = pieces.last();
        if seg.len() == 0 || seg == "."@ {
            prev
        } else if seg == ".."@ {
            if prev.len() > 0 {
                prev.drop_last()
            } else {
                prev
            }
        } else {
            prev.push(seg)
        }
    }
}

/// Segments joined with `/`.
pub open spec fn joined_path(parts: Seq<Seq<char>>) -> Seq<char>
    decreases parts.len(),
{
    if parts.len() == 0 {
        Seq::empty()
    } else if parts.len() == 1 {
        parts[0]
    } else {
        joined_path(parts.drop_last()) + seq!['/'] + parts.last()
    }
}

/// The normalized join of a relationship target against a base
/// directory: both split on `/`, `.`/`..` resolved, the rest joined.
pub open spec fn normalized_join(base: Seq<char>, target: Seq<char>) -> Seq<char> {
    joined_path(norm_stack(slash_pieces(base) + slash_pieces(target)))
}

/// Apply one path segment to the segment stack.
fn push_segment(stack: &mut Vec<String>, seg: &String)
    ensures
        final(stack)@.map_values(|p: String| p@) == ({
            let prev = old(stack)@.map_values(|p: String| p@);
            if seg@.len() == 0 || seg@ == "."@ {
                prev
            } else if seg@ == ".."@ {
                if prev.len() > 0 {
                    prev.drop_last()
                } else {
                    prev
                }
            } else {
                prev.push(seg@)
            }
        }),
{
    let sv = chars_of(seg.as_str());
    if sv.len() == 0 || str_eq_chars(&sv, ".") {
    } else if str_eq_chars(&sv, "..") {
        if stack.len() > 0 {
            let _ = stack.pop();
            proof {
                assert(final(stack)@.map_values(|p: String| p@) =~= old(stack)@.map_values(
                    |p: String| p@,
                ).drop_last());
            }
        }
    } else {
        stack.push(seg.clone());
        proof {
            assert(final(stack)@.map_values(|p: String| p@) =~= old(stack)@.map_values(
                |p: String| p@,
            ).push(seg@));
        }
    }
}

/// Join a relationship target against a base directory, resolving `.`
/// and `..` segments.
pub fn join_and_normalize(base: &str, target: &str) -> (r: String)
    ensures
        r@ == normalized_join(base@, target@),
{
    let bp = split_slashes(base);
    let tp = split_slashes(target);
    let ghost all = slash_pieces(base@) + slash_pieces(target@);
    let mut stack: Vec<String> = Vec::new();
    let mut i: usize = 0;
    proof {
        assert(all.take(0) =~= Seq::<Seq<char>>::empty());
    }
    while i < bp.len()
        invariant
            i <= bp@.len(),
            bp@.map_values(|p: String| p@) == slash_pieces(base@),
            tp@.map_values(|p: String| p@) == slash_pieces(target@),
            all == slash_pieces(base@) + slash_pieces(target@),
            stack@.map_values(|p: String| p@) == norm_stack(all.take(i as int)),
        decreases bp@.len() - i,
    {
        proof {
            assert(all.take(i + 1 as int).drop_last() =~= all.take(i as int));
            assert(all.take(i + 1 as int).last() == all[i as int]);
            assert(all[i as int] == slash_pieces(base@)[i as int]);
            assert(all[i as int] == bp@[i as int]@);
        }
        push_segment(&mut stack, &bp[i]);
        proof {
            assert(stack@.map_values(|p: String| p@) =~= norm_stack(all.take(i + 1 as int)));
        }
        i += 1;
    }
    let mut i2: usize = 0;
    while i2 < tp.len()
        invariant
            i2 <= tp@.len(),
            bp@.map_values(|p: String| p@) == slash_pieces(base@),
            tp@.map_values(|p: String| p@) == slash_pieces(target@),
            all == slash_pieces(base@) + slash_pieces(target@),
            stack@.map_values(|p: String| p@) == norm_stack(all.take(bp@.len() + i2)),
        decreases tp@.len() - i2,
    {
        proof {
            assert(all.take(bp@.len() + i2 + 1).drop_last() =~= all.take(bp@.len() + i2));
            assert(all.take(bp@.len() + i2 + 1).last() == all[bp@.len() + i2]);
            assert(all[bp@.len() + i2] == slash_pieces(target@)[i2 as int]);
            assert(all[bp@.len() + i2] == tp@[i2 as int]@);
        }
        push_segment(&mut stack, &tp[i2]);
        proof {
            assert(stack@.map_values(|p: String| p@) =~= norm_stack(all.take(bp@.len() + i2 + 1)));
        }
        i2 += 1;
    }
    proof {
        assert(all.take((bp@.len() + tp@.len()) as int) =~= all);
    }
    // Join the remaining segments with `/`.
    let mut out: Vec<char> = Vec::new();
    let ghost parts = stack@.map_values(|p: String| p@);
    let mut k: usize = 0;
    while k < stack.len()
        invariant
            k <= stack@.len(),
            parts == stack@.map_values(|p: String| p@),
            out@ == joined_path(parts.take(k as int)),
        decreases stack@.len() - k,
    {
        proof {
            assert(parts.take(k + 1 as int).drop_last() =~= parts.take(k as int));
            assert(parts.take(k + 1 as int).last() == parts[k as int]);
        }
        if k > 0 {
            out.push('/');
        }
        let pv = chars_of(stack[k].as_str());
        let ghost mid = out@;
        let mut j: usize = 0;
        while j < pv.len()
            invariant
                j <= pv@.len(),
                k < stack@.len(),
                pv@ == parts[k as int],
                out@ == mid + parts[k as int].take(j as int),
            decreases pv@.len() - j,
        {
            out.push(pv[j]);
            proof {
                assert(mid + parts[k as int].take(j + 1 as int) =~= (mid + parts[k as int].take(
                    j as int,
                )).push(parts[k as int][j as int]));
            }
            j += 1;
        }
        proof {
            assert(parts[k as int].take(parts[k as int].len() as int) =~= parts[k as int]);
            assert(mid + parts[k as int].take(0) =~= mid);
            assert(out@ =~= joined_path(parts.take(k + 1 as int)));
        }
        k += 1;
    }
    proof {
        assert(parts.take(parts.len() as int) =~= parts);
    }
    string_of(&out)
}

} // verus!
