use vstd::prelude::*;

use crate::addr::{is_ascii_digit, digit_val};
use crate::text::{chars_of, string_of};

verus! {

/// One attribute of a tag; the value with entities decoded.
pub struct XmlAttr {
    pub key: String,
    pub value: String,
}

pub struct XmlAttrV {
    pub key: Seq<char>,
    pub value: Seq<char>,
}

impl View for XmlAttr {
    type V = XmlAttrV;

    open spec fn view(&self) -> XmlAttrV {
        XmlAttrV { key: self.key@, value: self.value@ }
    }
}

/// One event of a tokenized XML part. `raw` always holds the exact
/// source slice, so a token run can be written back byte for byte.
pub enum XmlEvent {
    /// `<name ...>`
    Open { name: String, attrs: Vec<XmlAttr>, raw: String },
    /// `<name .../>`
    Empty { name: String, attrs: Vec<XmlAttr>, raw: String },
    /// `</name>`
    Close { name: String, raw: String },
    /// Character data between tags; `text` with entities decoded.
    Text { text: String, raw: String },
    /// A declaration, processing instruction, comment, CDATA block or
    /// doctype, kept verbatim.
    Other { raw: String },
}

impl XmlEvent {
    /// The exact source slice of this event.
    pub open spec fn raw_view(&self) -> Seq<char> {
        match self {
            XmlEvent::Open { raw, .. } => raw@,
            XmlEvent::Empty { raw, .. } => raw@,
            XmlEvent::Close { raw, .. } => raw@,
            XmlEvent::Text { raw, .. } => raw@,
            XmlEvent::Other { raw } => raw@,
        }
    }
}

/// The concatenation of the source slices of a token run.
pub open spec fn events_raw(evs: Seq<XmlEvent>) -> Seq<char>
    decreases evs.len(),
{
    if evs.len() == 0 {
        Seq::empty()
    } else {
        events_raw(evs.drop_last()) + evs.last().raw_view()
    }
}

/// Structural facts that every tokenizer event satisfies.
pub open spec fn wf_event(ev: XmlEvent) -> bool {
    match ev {
        XmlEvent::Open { name, raw, .. } => {
            &&& raw@.len() >= 3
            &&& raw@[0] == '<'
            &&& raw@.last() == '>'
            &&& raw@[1] != '/' && raw@[1] != '!' && raw@[1] != '?'
            &&& name@.len() >= 1
            &&& 1 + name@.len() < raw@.len()
            &&& raw@.subrange(1, 1 + name@.len() as int) == name@
        },
        XmlEvent::Empty { name, raw, .. } => {
            &&& raw@.len() >= 4
            &&& raw@[0] == '<'
            &&& raw@.last() == '>'
            &&& raw@[raw@.len() - 2] == '/'
            &&& raw@[1] != '/' && raw@[1] != '!' && raw@[1] != '?'
            &&& name@.len() >= 1
            &&& 1 + name@.len() < raw@.len()
            &&& raw@.subrange(1, 1 + name@.len() as int) == name@
        },
        XmlEvent::Close { name, raw } => {
            &&& raw@.len() >= 3
            &&& raw@[0] == '<'
            &&& raw@[1] == '/'
            &&& raw@.last() == '>'
        },
        XmlEvent::Text { text, raw } => {
            &&& raw@.len() >= 1
            &&& (forall|i: int| 0 <= i < raw@.len() ==> raw@[i] != '<')
            &&& text@ == unescape_xml(raw@)
        },
        XmlEvent::Other { raw } => {
            &&& raw@.len() >= 2
            &&& raw@[0] == '<'
            &&& (raw@[1] == '!' || raw@[1] == '?')
        },
    }
}

pub open spec fn wf_events(evs: Seq<XmlEvent>) -> bool {
    forall|i: int| 0 <= i < evs.len() ==> wf_event(#[trigger] evs[i])
}

/// The entity reference at the front of `s`, as its decoded character
/// and consumed length. Known named entities and ASCII numeric
/// references are decoded; anything else is `None`.
pub open spec fn entity_at(s: Seq<char>) -> Option<(char, int)> {
    if s.len() >= 5 && s.take(5) == "&amp;"@ {
        Some(('&', 5))
    } else if s.len() >= 4 && s.take(4) == "&lt;"@ {
        Some(('<', 4))
    } else if s.len() >= 4 && s.take(4) == "&gt;"@ {
        Some(('>', 4))
    } else if s.len() >= 6 && s.take(6) == "&quot;"@ {
        Some(('"', 6))
    } else if s.len() >= 6 && s.take(6) == "&apos;"@ {
        Some(('\'', 6))
    } else if s.len() >= 4 && s[1] == '#' {
        numeric_entity_at(s)
    } else {
        None
    }
}

/// Position of the first `;` in `s`, or the length when there is none.
pub open spec fn semi_pos(s: Seq<char>) -> int
    decreases s.len(),
{
    if s.len() == 0 {
        0
    } else if s[0] == ';' {
        0
    } else {
        1 + semi_pos(s.skip(1))
    }
}

/// Decimal value of a digit run, or -1 when it is empty or not all
/// digits.
pub open spec fn dec_value(s: Seq<char>) -> int
    decreases s.len(),
{
    if s.len() == 0 {
        -1
    } else if s.len() == 1 {
        if is_ascii_digit(s[0]) {
            digit_val(s[0])
        } else {
            -1
        }
    } else if !is_ascii_digit(s.last()) {
        -1
    } else {
        let hi = dec_value(s.drop_last());
        if hi < 0 {
            -1
        } else {
            hi * 10 + digit_val(s.last())
        }
    }
}

/// An ASCII numeric character reference `&#nn;` at the front of `s`.
pub open spec fn numeric_entity_at(s: Seq<char>) -> Option<(char, int)> {
    let p = semi_pos(s);
    if p >= s.len() || p < 3 {
        None
    } else {
        let digits = s.subrange(2, p);
        let v = dec_value(digits);
        if 0 <= v <= 127 {
            Some(((v as u8) as char, p + 1))
        } else {
            None
        }
    }
}

/// `s` with entity references decoded; an unrecognized `&` run is kept
/// as it stands.
pub open spec fn unescape_xml(s: Seq<char>) -> Seq<char>
    decreases s.len(),
    via unescape_xml_decreases
{
    if s.len() == 0 {
        Seq::empty()
    } else if s[0] != '&' {
        seq![s[0]] + unescape_xml(s.skip(1))
    } else {
        match entity_at(s) {
            Some((c, k)) => seq![c] + unescape_xml(s.skip(k)),
            None => seq!['&'] + unescape_xml(s.skip(1)),
        }
    }
}

#[via_fn]
proof fn unescape_xml_decreases(s: Seq<char>) {
    if s.len() > 0 && s[0] == '&' {
        match entity_at(s) {
            Some((c, k)) => {
                assert(k >= 4) by {
                    if s.len() >= 4 && s[1] == '#' && !(s.len() >= 5 && s.take(5) == "&amp;"@)
                        && !(s.len() >= 4 && s.take(4) == "&lt;"@) && !(s.len() >= 4 && s.take(4)
                        == "&gt;"@) && !(s.len() >= 6 && s.take(6) == "&quot;"@) && !(s.len() >= 6
                        && s.take(6) == "&apos;"@) {
                        let p = semi_pos(s);
                        if !(p >= s.len() || p < 3) {
                            assert(entity_at(s)->Some_0.1 == p + 1 || entity_at(s) is None);
                        }
                    }
                }
            },
            None => {
            },
        }
    }
}

/// The attribute escape of one character.
pub open spec fn esc_char(c: char) -> Seq<char> {
    if c == '&' {
        "&amp;"@
    } else if c == '<' {
        "&lt;"@
    } else if c == '>' {
        "&gt;"@
    } else if c == '"' {
        "&quot;"@
    } else if c == '\'' {
        "&apos;"@
    } else {
        seq![c]
    }
}

/// `s` with the five special characters written as entity references.
pub open spec fn escape_xml(s: Seq<char>) -> Seq<char>
    decreases s.len(),
{
    if s.len() == 0 {
        Seq::empty()
    } else {
        escape_xml(s.drop_last()) + esc_char(s.last())
    }
}

fn push_lit(out: &mut Vec<char>, c1: char, c2: char, c3: char, c4: char, c5: Option<char>)
    ensures
        final(out)@ == old(out)@ + (match c5 {
            Some(c) => seq![c1, c2, c3, c4, c],
            None => seq![c1, c2, c3, c4],
        }),
{
    out.push(c1);
    out.push(c2);
    out.push(c3);
    out.push(c4);
    match c5 {
        Some(c) => {
            out.push(c);
            proof {
                assert(final(out)@ =~= old(out)@ + seq![c1, c2, c3, c4, c]);
            }
        },
        None => {
            proof {
                assert(final(out)@ =~= old(out)@ + seq![c1, c2, c3, c4]);
            }
        },
    }
}

/// Escape attribute or text content.
pub fn escape_chars(v: &Vec<char>) -> (r: Vec<char>)
    ensures
        r@ == escape_xml(v@),
{
    let mut out: Vec<char> = Vec::new();
    let mut i: usize = 0;
    while i < v.len()
        invariant
            i <= v@.len(),
            out@ == escape_xml(v@.take(i as int)),
        decreases v@.len() - i,
    {
        let c = v[i];
        proof {
            assert(v@.take(i + 1 as int).drop_last() =~= v@.take(i as int));
            assert(v@.take(i + 1 as int).last() == v@[i as int]);
            reveal_strlit("&amp;");
            reveal_strlit("&lt;");
            reveal_strlit("&gt;");
            reveal_strlit("&quot;");
            reveal_strlit("&apos;");
        }
        if c == '&' {
            push_lit(&mut out, '&', 'a', 'm', 'p', Some(';'));
            proof {
                assert(out@ =~= escape_xml(v@.take(i + 1 as int)));
            }
        } else if c == '<' {
            push_lit(&mut out, '&', 'l', 't', ';', None);
            proof {
                assert(out@ =~= escape_xml(v@.take(i + 1 as int)));
            }
        } else if c == '>' {
            push_lit(&mut out, '&', 'g', 't', ';', None);
            proof {
                assert(out@ =~= escape_xml(v@.take(i + 1 as int)));
            }
        } else if c == '"' {
            push_lit(&mut out, '&', 'q', 'u', 'o', None);
            out.push('t');
            out.push(';');
            proof {
                assert(out@ =~= escape_xml(v@.take(i + 1 as int)));
            }
        } else if c == '\'' {
            push_lit(&mut out, '&', 'a', 'p', 'o', None);
            out.push('s');
            out.push(';');
            proof {
                assert(out@ =~= escape_xml(v@.take(i + 1 as int)));
            }
        } else {
            out.push(c);
            proof {
                assert(out@ =~= escape_xml(v@.take(i + 1 as int)));
            }
        }
        i += 1;
    }
    proof {
        assert(v@.take(v@.len() as int) =~= v@);
    }
    out
}

/// The value of the first attribute named `key`, front to back.
pub open spec fn attr_lookup(attrs: Seq<XmlAttrV>, key: Seq<char>) -> Option<Seq<char>>
    decreases attrs.len(),
{
    if attrs.len() == 0 {
        None
    } else if attrs[0].key == key {
        Some(attrs[0].value)
    } else {
        attr_lookup(attrs.skip(1), key)
    }
}

pub open spec fn attrs_view(attrs: Seq<XmlAttr>) -> Seq<XmlAttrV> {
    attrs.map_values(|a: XmlAttr| a@)
}

/// Look an attribute up by name.
pub fn attr_value(attrs: &Vec<XmlAttr>, key: &str) -> (r: Option<String>)
    ensures
        match r {
            Some(s) => attr_lookup(attrs_view(attrs@), key@) == Some(s@),
            None => attr_lookup(attrs_view(attrs@), key@) is None,
        },
{
    let n = attrs.len();
    let mut i: usize = 0;
    proof {
        assert(attrs_view(attrs@).skip(0) =~= attrs_view(attrs@));
    }
    while i < n
        invariant
            i <= n,
            n == attrs@.len(),
            attr_lookup(attrs_view(attrs@), key@) == attr_lookup(
                attrs_view(attrs@).skip(i as int),
                key@,
            ),
        decreases n - i,
    {
        let hit = {
            let kv = chars_of(attrs[i].key.as_str());
            crate::text::str_eq_chars(&kv, key)
        };
        proof {
            assert(attrs_view(attrs@).skip(i as int)[0] == attrs@[i as int]@);
            assert(attrs_view(attrs@).skip(i as int).skip(1) =~= attrs_view(attrs@).skip(
                i + 1 as int,
            ));
        }
        if hit {
            return Some(attrs[i].value.clone());
        }
        i += 1;
    }
    proof {
        assert(attrs_view(attrs@).skip(n as int) =~= Seq::<XmlAttrV>::empty());
    }
    None
}

/// Write a token run back to text: the concatenation of every event's
/// source slice.
pub fn render_events(evs: &Vec<XmlEvent>) -> (r: String)
    ensures
        r@ == events_raw(evs@),
{
    let mut out = String::new();
    let mut i: usize = 0;
    while i < evs.len()
        invariant
            i <= evs@.len(),
            out@ == events_raw(evs@.take(i as int)),
        decreases evs@.len() - i,
    {
        proof {
            assert(evs@.take(i + 1 as int).drop_last() =~= evs@.take(i as int));
            assert(evs@.take(i + 1 as int).last() == evs@[i as int]);
        }
        match &evs[i] {
            XmlEvent::Open { raw, .. } => out.append(raw.as_str()),
            XmlEvent::Empty { raw, .. } => out.append(raw.as_str()),
            XmlEvent::Close { raw, .. } => out.append(raw.as_str()),
            XmlEvent::Text { raw, .. } => out.append(raw.as_str()),
            XmlEvent::Other { raw } => out.append(raw.as_str()),
        }
        i += 1;
    }
    proof {
        assert(evs@.take(evs@.len() as int) =~= evs@);
    }
    out
}

/// The source text of a self-closing tag with the given name and
/// attributes, each value escaped.
pub open spec fn empty_tag_raw(name: Seq<char>, attrs: Seq<XmlAttrV>) -> Seq<char> {
    seq!['<'] + name + attrs_raw(attrs) + seq!['/', '>']
}

pub open spec fn attrs_raw(attrs: Seq<XmlAttrV>) -> Seq<char>
    decreases attrs.len(),
{
    if attrs.len() == 0 {
        Seq::empty()
    } else {
        attrs_raw(attrs.drop_last()) + seq![' '] + attrs.last().key + seq!['=', '"'] + escape_xml(
            attrs.last().value,
        ) + seq!['"']
    }
}

/// Build a self-closing tag event from a name and attributes.
pub fn make_empty_tag(name: &str, attrs: Vec<XmlAttr>) -> (r: XmlEvent)
    requires
        name@.len() >= 1,
        forall|i: int| 0 <= i < name@.len() ==> #[trigger] name@[i] != '/' && name@[i] != '!'
            && name@[i] != '?' && name@[i] != '<' && name@[i] != '>',
    ensures
        r matches XmlEvent::Empty { name: n, attrs: a, raw } && n@ == name@ && a@ == attrs@ && raw@
            == empty_tag_raw(name@, attrs_view(attrs@)),
        wf_event(r),
{
    let mut out: Vec<char> = Vec::new();
    out.push('<');
    let nv = chars_of(name);
    let mut i: usize = 0;
    proof {
        assert(out@ =~= seq!['<'] + name@.take(0));
    }
    while i < nv.len()
        invariant
            i <= nv@.len(),
            nv@ == name@,
            out@ == seq!['<'] + name@.take(i as int),
        decreases nv@.len() - i,
    {
        out.push(nv[i]);
        proof {
            assert(seq!['<'] + name@.take(i + 1 as int) =~= (seq!['<'] + name@.take(
                i as int,
            )).push(name@[i as int]));
        }
        i += 1;
    }
    proof {
        assert(name@.take(name@.len() as int) =~= name@);
    }
    let ghost head = seq!['<'] + name@;
    let mut j: usize = 0;
    while j < attrs.len()
        invariant
            j <= attrs@.len(),
            head == seq!['<'] + name@,
            out@ == head + attrs_raw(attrs_view(attrs@).take(j as int)),
        decreases attrs@.len() - j,
    {
        proof {
            assert(attrs_view(attrs@).take(j + 1 as int).drop_last() =~= attrs_view(
                attrs@,
            ).take(j as int));
            assert(attrs_view(attrs@).take(j + 1 as int).last() == attrs@[j as int]@);
        }
        out.push(' ');
        let kv = chars_of(attrs[j].key.as_str());
        let mut k: usize = 0;
        let ghost mid = out@;
        while k < kv.len()
            invariant
                k <= kv@.len(),
                kv@ == attrs@[j as int].key@,
                j < attrs@.len(),
                out@ == mid + attrs@[j as int].key@.take(k as int),
            decreases kv@.len() - k,
        {
            out.push(kv[k]);
            proof {
                assert(mid + attrs@[j as int].key@.take(k + 1 as int) =~= (mid
                    + attrs@[j as int].key@.take(k as int)).push(attrs@[j as int].key@[k as int]));
            }
            k += 1;
        }
        proof {
            assert(attrs@[j as int].key@.take(attrs@[j as int].key@.len() as int) =~= attrs@[
                j as int].key@);
        }
        out.push('=');
        out.push('"');
        let vv = chars_of(attrs[j].value.as_str());
        let ev = escape_chars(&vv);
        let mut k2: usize = 0;
        let ghost mid2 = out@;
        while k2 < ev.len()
            invariant
                k2 <= ev@.len(),
                ev@ == escape_xml(attrs@[j as int].value@),
                j < attrs@.len(),
                out@ == mid2 + ev@.take(k2 as int),
            decreases ev@.len() - k2,
        {
            out.push(ev[k2]);
            proof {
                assert(mid2 + ev@.take(k2 + 1 as int) =~= (mid2 + ev@.take(k2 as int)).push(
                    ev@[k2 as int],
                ));
            }
            k2 += 1;
        }
        proof {
            assert(ev@.take(ev@.len() as int) =~= ev@);
        }
        out.push('"');
        proof {
            assert(out@ =~= head + attrs_raw(attrs_view(attrs@).take(j + 1 as int)));
        }
        j += 1;
    }
    out.push('/');
    out.push('>');
    proof {
        assert(attrs_view(attrs@).take(attrs@.len() as int) =~= attrs_view(attrs@));
        assert(out@ =~= empty_tag_raw(name@, attrs_view(attrs@)));
    }
    let raw = string_of(&out);
    let name_s = string_of(&nv);
    let r = XmlEvent::Empty { name: name_s, attrs, raw };
    proof {
        let rv = empty_tag_raw(name@, attrs_view(attrs@));
        assert(rv.subrange(1, 1 + name@.len() as int) =~= name@);
        assert(rv[0] == '<');
        assert(rv.last() == '>');
        assert(rv[rv.len() - 2] == '/');
        assert(rv[1] == name@[0]);
    }
    r
}

} // verus!
use vstd::prelude::*;

verus! {

#[derive(Clone, Copy, Debug, PartialEq, Eq, Structural)]
pub enum XmlError {
    /// The text is not well-formed markup: an unterminated tag, entity
    /// or quoted value, or an attribute without a quoted value.
    Malformed,
}

/// The characters `v[a..b]` as a new vector.
pub fn subvec(v: &Vec<char>, a: usize, b: usize) -> (r: Vec<char>)
    requires
        a <= b <= v@.len(),
    ensures
        r@ == v@.subrange(a as int, b as int),
{
    let mut out: Vec<char> = Vec::new();
    let mut i: usize = a;
    while i < b
        invariant
            a <= i <= b <= v@.len(),
            out@ == v@.subrange(a as int, i as int),
        decreases b - i,
    {
        proof {
            assert(v@.subrange(a as int, i + 1 as int) =~= v@.subrange(a as int, i as int).push(
                v@[i as int],
            ));
        }
        out.push(v[i]);
        i += 1;
    }
    out
}

/// Whether `lit` occurs at position `i` of `v`.
fn window_is(v: &Vec<char>, i: usize, lit: &str) -> (r: bool)
    requires
        i <= v@.len(),
    ensures
        r == (i + lit@.len() <= v@.len() && v@.skip(i as int).take(lit@.len() as int) == lit@),
{
    let w = chars_of(lit);
    let m = w.len();
    let n = v.len();
    if n - i < m {
        proof {
            assert(!(i + lit@.len() <= v@.len()));
        }
        return false;
    }
    let mut k: usize = 0;
    while k < m
        invariant
            k <= m,
            m == w@.len(),
            w@ == lit@,
            n == v@.len(),
            i + m <= n,
            forall|j: int| 0 <= j < k ==> v@[i + j] == w@[j],
        decreases m - k,
    {
        if v[i + k] != w[k] {
            proof {
                let t = v@.skip(i as int).take(lit@.len() as int);
                assert(t[k as int] == v@[i + k]);
            }
            return false;
        }
        k += 1;
    }
    proof {
        assert(v@.skip(i as int).take(lit@.len() as int) =~= lit@) by {
            let t = v@.skip(i as int).take(lit@.len() as int);
            assert(forall|j: int| 0 <= j < lit@.len() ==> t[j] == v@[i + j]);
        }
    }
    true
}

proof fn lemma_semi_pos(s: Seq<char>, k: int)
    requires
        0 <= k <= s.len(),
        forall|i: int| 0 <= i < k ==> s[i] != ';',
        k < s.len() ==> s[k] == ';',
    ensures
        semi_pos(s) == k,
    decreases s.len(),
{
    reveal_with_fuel(semi_pos, 2);
    if s.len() == 0 || k == 0 {
    } else {
        let t = s.skip(1);
        assert(forall|i: int| 0 <= i < k - 1 ==> t[i] == s[i + 1]);
        lemma_semi_pos(t, k - 1);
    }
}

/// The entity reference at position `i`, as `entity_at` of the suffix.
fn entity_at_exec(v: &Vec<char>, i: usize) -> (r: Option<(char, usize)>)
    requires
        i < v@.len(),
        v@[i as int] == '&',
    ensures
        match r {
            Some((c, k)) => entity_at(v@.skip(i as int)) == Some((c, k as int)) && i + k
                <= v@.len() && k >= 1,
            None => entity_at(v@.skip(i as int)) is None,
        },
{
    let n = v.len();
    let ghost s = v@.skip(i as int);
    proof {
        reveal_strlit("&amp;");
        reveal_strlit("&lt;");
        reveal_strlit("&gt;");
        reveal_strlit("&quot;");
        reveal_strlit("&apos;");
    }
    if window_is(v, i, "&amp;") {
        return Some(('&', 5));
    }
    if window_is(v, i, "&lt;") {
        return Some(('<', 4));
    }
    if window_is(v, i, "&gt;") {
        return Some(('>', 4));
    }
    if window_is(v, i, "&quot;") {
        return Some(('"', 6));
    }
    if window_is(v, i, "&apos;") {
        return Some(('\'', 6));
    }
    if !(n - i >= 4 && v[i + 1] == '#') {
        proof {
            if s.len() >= 4 {
                assert(s[1] == v@[i + 1]);
            }
        }
        return None;
    }
    proof {
        assert(s[1] == v@[i + 1]);
    }
    // Scan for the terminating semicolon.
    let mut p: usize = i;
    while p < n && v[p] != ';'
        invariant
            i <= p <= n,
            n == v@.len(),
            forall|j: int| i <= j < p ==> v@[j] != ';',
        decreases n - p,
    {
        p += 1;
    }
    proof {
        assert(forall|j: int| 0 <= j < p - i ==> s[j] == v@[i + j]);
        lemma_semi_pos(s, p - i);
    }
    if p >= n || p - i < 3 {
        return None;
    }
    // Value of the digits between `&#` and `;`, sticky above 127.
    let ghost digits = s.subrange(2, p - i);
    let mut val: u32 = 0;
    let mut all_digits = true;
    let mut q: usize = i + 2;
    proof {
        assert(digits.take(0) =~= Seq::<char>::empty());
        reveal_with_fuel(dec_value, 2);
    }
    while q < p
        invariant
            i + 2 <= q <= p < n,
            n == v@.len(),
            s == v@.skip(i as int),
            digits == s.subrange(2, p - i),
            digits.len() == p - i - 2,
            forall|j: int| 0 <= j < digits.len() ==> digits[j] == v@[i + 2 + j],
            q == i + 2 ==> val == 0,
            all_digits ==> (if dec_value(digits.take(q - i - 2)) < 0 {
                q == i + 2
            } else if val <= 127 {
                val == dec_value(digits.take(q - i - 2))
            } else {
                val == 128 && dec_value(digits.take(q - i - 2)) > 127
            }),
            !all_digits ==> dec_value(digits) < 0,
            val <= 128,
        decreases p - q,
    {
        let c = v[q];
        proof {
            reveal_with_fuel(dec_value, 3);
            assert(digits.take(q - i - 2 + 1).drop_last() =~= digits.take(q - i - 2));
            assert(digits.take(q - i - 2 + 1).last() == digits[q - i - 2]);
            assert(digits[q - i - 2] == v@[q as int]);
        }
        if all_digits {
            if '0' <= c && c <= '9' {
                let d = (c as u32) - ('0' as u32);
                if val <= 127 {
                    val = val * 10 + d;
                    if val > 127 {
                        val = 128;
                    }
                } else {
                    val = 128;
                }
                proof {
                    let t = digits.take(q - i - 2 + 1);
                    if q == i + 2 {
                        assert(t =~= seq![digits[0]]);
                        assert(dec_value(t) == digit_val(digits[0]));
                    } else {
                        assert(t.len() > 1);
                    }
                }
            } else {
                all_digits = false;
                proof {
                    lemma_dec_value_bad(digits, q - i - 2);
                }
            }
        }
        q += 1;
    }
    if !all_digits {
        return None;
    }
    proof {
        assert(digits.take(digits.len() as int) =~= digits);
    }
    if p == i + 2 {
        // No digits at all.
        proof {
            assert(digits.len() == 0);
        }
        return None;
    }
    if val > 127 {
        return None;
    }
    let c = (val as u8) as char;
    proof {
        assert(entity_at(s) == Some((c, (p - i + 1) as int))) by {
            assert(numeric_entity_at(s) == Some((c, (p - i + 1) as int)));
            assert(!(s.len() >= 5 && s.take(5) == "&amp;"@));
            assert(!(s.len() >= 4 && s.take(4) == "&lt;"@));
            assert(!(s.len() >= 4 && s.take(4) == "&gt;"@));
            assert(!(s.len() >= 6 && s.take(6) == "&quot;"@));
            assert(!(s.len() >= 6 && s.take(6) == "&apos;"@));
        }
    }
    Some((c, p - i + 1))
}

proof fn lemma_dec_value_bad(s: Seq<char>, k: int)
    requires
        0 <= k < s.len(),
        !is_ascii_digit(s[k]),
    ensures
        dec_value(s) < 0,
    decreases s.len(),
{
    reveal_with_fuel(dec_value, 2);
    if s.len() == 1 {
    } else {
        if k == s.len() - 1 {
            assert(!is_ascii_digit(s.last()));
        } else {
            lemma_dec_value_bad(s.drop_last(), k);
        }
    }
}

/// Decode the entity references in `v`.
pub fn unescape_chars(v: &Vec<char>) -> (r: Vec<char>)
    ensures
        r@ == unescape_xml(v@),
{
    let n = v.len();
    let mut out: Vec<char> = Vec::new();
    let mut i: usize = 0;
    proof {
        assert(v@.skip(0) =~= v@);
        assert(Seq::<char>::empty() + unescape_xml(v@) =~= unescape_xml(v@));
    }
    while i < n
        invariant
            i <= n,
            n == v@.len(),
            out@ + unescape_xml(v@.skip(i as int)) == unescape_xml(v@),
        decreases n - i,
    {
        let ghost s = v@.skip(i as int);
        proof {
            assert(s[0] == v@[i as int]);
            assert(s.skip(1) =~= v@.skip(i + 1));
        }
        let c = v[i];
        if c != '&' {
            out.push(c);
            proof {
                assert(out@ + unescape_xml(v@.skip(i + 1)) =~= unescape_xml(v@));
            }
            i += 1;
        } else {
            match entity_at_exec(v, i) {
                Some((d, k)) => {
                    out.push(d);
                    proof {
                        assert(s.skip(k as int) =~= v@.skip(i + k));
                        assert(out@ + unescape_xml(v@.skip(i + k)) =~= unescape_xml(v@));
                    }
                    i += k;
                },
                None => {
                    out.push('&');
                    proof {
                        assert(out@ + unescape_xml(v@.skip(i + 1)) =~= unescape_xml(v@));
                    }
                    i += 1;
                },
            }
        }
    }
    proof {
        assert(v@.skip(n as int) =~= Seq::<char>::empty());
        assert(out@ + Seq::<char>::empty() =~= out@);
    }
    out
}

} // verus!
use vstd::prelude::*;

verus! {

proof fn push_wf(evs: Seq<XmlEvent>, ev: XmlEvent)
    requires
        wf_events(evs),
        wf_event(ev),
    ensures
        wf_events(evs.push(ev)),
{
    assert forall|t: int| 0 <= t < evs.push(ev).len() implies wf_event(#[trigger] evs.push(ev)[t])
        by {
        if t < evs.len() {
            assert(evs.push(ev)[t] == evs[t]);
        } else {
            assert(evs.push(ev)[t] == ev);
        }
    }
}

/// First position at or after `from` holding `c`, or the length.
fn find_char(v: &Vec<char>, from: usize, c: char) -> (r: usize)
    requires
        from <= v@.len(),
    ensures
        from <= r <= v@.len(),
        forall|t: int| from <= t < r ==> v@[t] != c,
        r < v@.len() ==> v@[r as int] == c,
{
    let n = v.len();
    let mut j = from;
    while j < n && v[j] != c
        invariant
            from <= j <= n,
            n == v@.len(),
            forall|t: int| from <= t < j ==> v@[t] != c,
        decreases n - j,
    {
        j += 1;
    }
    j
}

/// A position at or after `from` where the two characters occur in a row.
fn find_two(v: &Vec<char>, from: usize, a: char, b: char) -> (r: Option<usize>)
    requires
        from <= v@.len(),
    ensures
        match r {
            Some(t) => from <= t && t + 1 < v@.len() && v@[t as int] == a && v@[t + 1] == b,
            None => true,
        },
{
    let n = v.len();
    let mut j = from;
    while j < n && n - j > 1
        invariant
            from <= j,
            n == v@.len(),
            j <= n,
        decreases n - j,
    {
        if v[j] == a && v[j + 1] == b {
            return Some(j);
        }
        j += 1;
    }
    None
}

/// A position at or after `from` where the three characters occur in a
/// row.
fn find_three(v: &Vec<char>, from: usize, a: char, b: char, c: char) -> (r: Option<usize>)
    requires
        from <= v@.len(),
    ensures
        match r {
            Some(t) => from <= t && t + 2 < v@.len() && v@[t as int] == a && v@[t + 1] == b && v@[t
                + 2] == c,
            None => true,
        },
{
    let n = v.len();
    let mut j = from;
    while j < n && n - j > 2
        invariant
            from <= j,
            n == v@.len(),
            j <= n,
        decreases n - j,
    {
        if v[j] == a && v[j + 1] == b && v[j + 2] == c {
            return Some(j);
        }
        j += 1;
    }
    None
}

fn is_ws_char(c: char) -> (r: bool)
    ensures
        r == crate::errtok::is_ws(c),
{
    c == ' ' || c == '\t' || c == '\n' || c == '\r'
}

/// Parse the attribute text of a tag body, `v[from..end]`.
fn parse_attrs(v: &Vec<char>, from: usize, end: usize) -> (r: Result<Vec<XmlAttr>, XmlError>)
    requires
        from <= end <= v@.len(),
{
    let mut attrs: Vec<XmlAttr> = Vec::new();
    let mut a = from;
    while a < end
        invariant
            from <= a <= end <= v@.len(),
        decreases end - a,
    {
        if is_ws_char(v[a]) {
            a += 1;
        } else {
            let ks = a;
            while a < end && !is_ws_char(v[a]) && v[a] != '='
                invariant
                    from <= ks <= a <= end <= v@.len(),
                decreases end - a,
            {
                a += 1;
            }
            if a == ks {
                return Err(XmlError::Malformed);
            }
            let key = subvec(v, ks, a);
            while a < end && is_ws_char(v[a])
                invariant
                    from <= ks < a <= end <= v@.len(),
                decreases end - a,
            {
                a += 1;
            }
            if a >= end || v[a] != '=' {
                return Err(XmlError::Malformed);
            }
            a += 1;
            while a < end && is_ws_char(v[a])
                invariant
                    from <= ks < a <= end <= v@.len(),
                decreases end - a,
            {
                a += 1;
            }
            if a >= end {
                return Err(XmlError::Malformed);
            }
            let q = v[a];
            if q != '"' && q != '\'' {
                return Err(XmlError::Malformed);
            }
            a += 1;
            let vs = a;
            while a < end && v[a] != q
                invariant
                    from <= ks < vs <= a <= end <= v@.len(),
                decreases end - a,
            {
                a += 1;
            }
            if a >= end {
                return Err(XmlError::Malformed);
            }
            let val_raw = subvec(v, vs, a);
            a += 1;
            let val = unescape_chars(&val_raw);
            attrs.push(XmlAttr { key: string_of(&key), value: string_of(&val) });
        }
    }
    Ok(attrs)
}

/// Tokenize an XML part.
///
/// On success the events carry the source text losslessly: the
/// concatenation of their `raw` slices is exactly the input, and every
/// event satisfies `wf_event`. Tag names and attribute values are
/// extracted with entity references decoded in attribute values and
/// character data. Fails on markup with an unterminated tag, comment,
/// block or quoted value, or an attribute without a `="..."` value.
pub fn tokenize(xml: &str) -> (r: Result<Vec<XmlEvent>, XmlError>)
    ensures
        match r {
            Ok(evs) => events_raw(evs@) == xml@ && wf_events(evs@),
            Err(_) => true,
        },
{
    let v = chars_of(xml);
    let n = v.len();
    let mut evs: Vec<XmlEvent> = Vec::new();
    let mut i: usize = 0;
    proof {
        assert(events_raw(evs@) =~= v@.take(0));
    }
    while i < n
        invariant
            i <= n,
            n == v@.len(),
            v@ == xml@,
            events_raw(evs@) == v@.take(i as int),
            wf_events(evs@),
        decreases n - i,
    {
        let ghost old_evs = evs@;
        if v[i] != '<' {
            // Character data up to the next tag.
            let j = find_char(&v, i + 1, '<');
            let raw_v = subvec(&v, i, j);
            let text_v = unescape_chars(&raw_v);
            let ev = XmlEvent::Text { text: string_of(&text_v), raw: string_of(&raw_v) };
            proof {
                assert(wf_event(ev));
                push_wf(old_evs, ev);
            }
            evs.push(ev);
            proof {
                assert(evs@.drop_last() =~= old_evs);
                assert(evs@.last() == ev);
                assert(events_raw(evs@) == v@.take(i as int) + v@.subrange(i as int, j as int));
                assert(v@.take(i as int) + v@.subrange(i as int, j as int) =~= v@.take(j as int));
            }
            i = j;
        } else if i + 1 >= n {
            return Err(XmlError::Malformed);
        } else {
            let c1 = v[i + 1];
            if c1 == '?' {
                let j = match find_two(&v, i + 2, '?', '>') {
                    Some(t) => t + 2,
                    None => {
                        return Err(XmlError::Malformed);
                    },
                };
                let raw_v = subvec(&v, i, j);
                let ev = XmlEvent::Other { raw: string_of(&raw_v) };
                proof {
                    assert(raw_v@[0] == '<');
                    assert(raw_v@[1] == '?');
                    assert(wf_event(ev));
                    push_wf(old_evs, ev);
                }
                evs.push(ev);
                proof {
                    assert(evs@.drop_last() =~= old_evs);
                    assert(evs@.last() == ev);
                    assert(v@.take(i as int) + v@.subrange(i as int, j as int) =~= v@.take(
                        j as int,
                    ));
                }
                i = j;
            } else if c1 == '!' {
                proof {
                    reveal_strlit("<!--");
                    reveal_strlit("<![CDATA[");
                }
                let j: usize;
                if window_is(&v, i, "<!--") {
                    j = match find_three(&v, i + 4, '-', '-', '>') {
                        Some(t) => t + 3,
                        None => {
                            return Err(XmlError::Malformed);
                        },
                    };
                } else if window_is(&v, i, "<![CDATA[") {
                    j = match find_three(&v, i + 9, ']', ']', '>') {
                        Some(t) => t + 3,
                        None => {
                            return Err(XmlError::Malformed);
                        },
                    };
                } else {
                    let t = find_char(&v, i + 2, '>');
                    if t >= n {
                        return Err(XmlError::Malformed);
                    }
                    j = t + 1;
                }
                let raw_v = subvec(&v, i, j);
                let ev = XmlEvent::Other { raw: string_of(&raw_v) };
                proof {
                    assert(raw_v@[0] == '<');
                    assert(raw_v@[1] == '!');
                    assert(wf_event(ev));
                    push_wf(old_evs, ev);
                }
                evs.push(ev);
                proof {
                    assert(evs@.drop_last() =~= old_evs);
                    assert(evs@.last() == ev);
                    assert(v@.take(i as int) + v@.subrange(i as int, j as int) =~= v@.take(
                        j as int,
                    ));
                }
                i = j;
            } else if c1 == '/' {
                let t = find_char(&v, i + 2, '>');
                if t >= n {
                    return Err(XmlError::Malformed);
                }
                let j = t + 1;
                let name_v = subvec(&v, i + 2, t);
                let raw_v = subvec(&v, i, j);
                let ev = XmlEvent::Close {
                    name: string_of(&name_v),
                    raw: string_of(&raw_v),
                };
                proof {
                    assert(raw_v@[0] == '<');
                    assert(raw_v@[1] == '/');
                    assert(raw_v@.last() == v@[t as int]);
                    assert(wf_event(ev));
                    push_wf(old_evs, ev);
                }
                evs.push(ev);
                proof {
                    assert(evs@.drop_last() =~= old_evs);
                    assert(evs@.last() == ev);
                    assert(v@.take(i as int) + v@.subrange(i as int, j as int) =~= v@.take(
                        j as int,
                    ));
                }
                i = j;
            } else {
                // A start tag; find its `>` outside quoted values.
                let mut j = i + 1;
                let mut quote: u32 = 0;
                let mut found = false;
                while j < n && !found
                    invariant
                        i + 1 <= j <= n,
                        n == v@.len(),
                        found ==> j < n && v@[j as int] == '>',
                    decreases n - j, (if found { 0int } else { 1int }),
                {
                    let c = v[j];
                    if quote == 0 {
                        if c == '>' {
                            found = true;
                        } else {
                            if c == '"' {
                                quote = 1;
                            } else if c == '\'' {
                                quote = 2;
                            }
                            j += 1;
                        }
                    } else if quote == 1 {
                        if c == '"' {
                            quote = 0;
                        }
                        j += 1;
                    } else {
                        if c == '\'' {
                            quote = 0;
                        }
                        j += 1;
                    }
                }
                if !found {
                    return Err(XmlError::Malformed);
                }
                // Tag name.
                let mut k = i + 1;
                while k < j && !is_ws_char(v[k]) && v[k] != '/'
                    invariant
                        i + 1 <= k <= j,
                        j < n,
                        n == v@.len(),
                    decreases j - k,
                {
                    k += 1;
                }
                if k == i + 1 {
                    return Err(XmlError::Malformed);
                }
                let empty = v[j - 1] == '/';
                let attr_end = if empty && j - 1 >= k {
                    j - 1
                } else {
                    j
                };
                let attrs = match parse_attrs(&v, k, attr_end) {
                    Ok(a) => a,
                    Err(e) => {
                        return Err(e);
                    },
                };
                let name_v = subvec(&v, i + 1, k);
                let raw_v = subvec(&v, i, j + 1);
                let ghost rv = raw_v@;
                proof {
                    assert(rv[0] == '<');
                    assert(rv[1] == v@[i + 1]);
                    assert(rv.last() == v@[j as int]);
                    assert(rv.subrange(1, 1 + name_v@.len() as int) =~= v@.subrange(
                        i + 1,
                        k as int,
                    ));
                }
                let ev = if empty {
                    let e = XmlEvent::Empty {
                        name: string_of(&name_v),
                        attrs,
                        raw: string_of(&raw_v),
                    };
                    proof {
                        assert(rv[rv.len() - 2] == v@[j - 1]);
                        assert(wf_event(e));
                    }
                    e
                } else {
                    let e = XmlEvent::Open {
                        name: string_of(&name_v),
                        attrs,
                        raw: string_of(&raw_v),
                    };
                    proof {
                        assert(wf_event(e));
                    }
                    e
                };
                proof {
                    push_wf(old_evs, ev);
                }
                evs.push(ev);
                proof {
                    assert(evs@.drop_last() =~= old_evs);
                    assert(evs@.last() == ev);
                    assert(v@.take(i as int) + v@.subrange(i as int, j + 1 as int) =~= v@.take(
                        j + 1 as int,
                    ));
                }
                i = j + 1;
            }
        }
    }
    proof {
        assert(v@.take(n as int) =~= xml@);
    }
    Ok(evs)
}

} // verus!
use vstd::prelude::*;

verus! {

/// The abstract value of one event.
pub enum XmlEventV {
    Open { name: Seq<char>, attrs: Seq<XmlAttrV>, raw: Seq<char> },
    Empty { name: Seq<char>, attrs: Seq<XmlAttrV>, raw: Seq<char> },
    Close { name: Seq<char>, raw: Seq<char> },
    Text { text: Seq<char>, raw: Seq<char> },
    Other { raw: Seq<char> },
}

impl View for XmlEvent {
    type V = XmlEventV;

    open spec fn view(&self) -> XmlEventV {
        match self {
            XmlEvent::Open { name, attrs, raw } => XmlEventV::Open {
                name: name@,
                attrs: attrs_view(attrs@),
                raw: raw@,
            },
            XmlEvent::Empty { name, attrs, raw } => XmlEventV::Empty {
                name: name@,
                attrs: attrs_view(attrs@),
                raw: raw@,
            },
            XmlEvent::Close { name, raw } => XmlEventV::Close { name: name@, raw: raw@ },
            XmlEvent::Text { text, raw } => XmlEventV::Text { text: text@, raw: raw@ },
            XmlEvent::Other { raw } => XmlEventV::Other { raw: raw@ },
        }
    }
}

} // verus!
use vstd::prelude::*;

verus! {

/// The source text of an opening tag with the given name and
/// attributes.
pub open spec fn open_tag_raw(name: Seq<char>, attrs: Seq<XmlAttrV>) -> Seq<char> {
    seq!['<'] + name + attrs_raw(attrs) + seq!['>']
}

/// Build an opening tag event from a name and attributes.
pub fn make_open_tag(name: &str, attrs: Vec<XmlAttr>) -> (r: XmlEvent)
    requires
        name@.len() >= 1,
        forall|i: int| 0 <= i < name@.len() ==> #[trigger] name@[i] != '/' && name@[i] != '!'
            && name@[i] != '?' && name@[i] != '<' && name@[i] != '>',
    ensures
        r matches XmlEvent::Open { name: n, attrs: a, raw } && n@ == name@ && attrs_view(a@)
            == attrs_view(attrs@) && raw@ == open_tag_raw(name@, attrs_view(attrs@)),
        wf_event(r),
{
    let ghost attrs0 = attrs@;
    let tmp = make_empty_tag(name, attrs);
    match tmp {
        XmlEvent::Empty { name: n, attrs: a, raw } => {
            let rv = chars_of(raw.as_str());
            // Drop the `/` before the closing `>`.
            let mut out: Vec<char> = subvec(&rv, 0, rv.len() - 2);
            out.push('>');
            proof {
                let er = empty_tag_raw(name@, attrs_view(attrs0));
                assert(er == seq!['<'] + name@ + attrs_raw(attrs_view(attrs0)) + seq!['/', '>']);
                assert(out@ =~= open_tag_raw(name@, attrs_view(attrs0)));
            }
            let raw2 = string_of(&out);
            let r = XmlEvent::Open { name: n, attrs: a, raw: raw2 };
            proof {
                let orv = open_tag_raw(name@, attrs_view(attrs0));
                assert(orv.subrange(1, 1 + name@.len() as int) =~= name@);
                assert(orv[0] == '<');
                assert(orv.last() == '>');
                assert(orv[1] == name@[0]);
            }
            r
        },
        _ => {
            proof {
                assert(false);
            }
            tmp
        },
    }
}

} // verus!
