use vstd::prelude::*;

use crate::text::{chars_of, string_of, upper_chars, seq_upper, str_eq_chars};

verus! {

/// The eight canonical error tokens, as the normalization target set.
/// Any spelling outside the known set maps to `#ERROR!`.
pub open spec fn canon_error_token(s: Seq<char>) -> Seq<char> {
    let u = seq_upper(s);
    if u == "DIV0"@ || u == "DIV/0"@ || u == "#DIV/0!"@ {
        "#DIV/0!"@
    } else if u == "NA"@ || u == "#N/A"@ {
        "#N/A"@
    } else if u == "VALUE"@ || u == "#VALUE!"@ {
        "#VALUE!"@
    } else if u == "REF"@ || u == "#REF!"@ {
        "#REF!"@
    } else if u == "NAME"@ || u == "#NAME?"@ {
        "#NAME?"@
    } else if u == "NUM"@ || u == "#NUM!"@ {
        "#NUM!"@
    } else if u == "NULL"@ || u == "#NULL!"@ {
        "#NULL!"@
    } else {
        "#ERROR!"@
    }
}

/// Normalize a decoded error spelling to its canonical token.
pub fn normalize_error_token(err_str: &str) -> (r: String)
    ensures
        r@ == canon_error_token(err_str@),
{
    let v = chars_of(err_str);
    let u = upper_chars(&v);
    if str_eq_chars(&u, "DIV0") || str_eq_chars(&u, "DIV/0") || str_eq_chars(&u, "#DIV/0!") {
        String::from_str("#DIV/0!")
    } else if str_eq_chars(&u, "NA") || str_eq_chars(&u, "#N/A") {
        String::from_str("#N/A")
    } else if str_eq_chars(&u, "VALUE") || str_eq_chars(&u, "#VALUE!") {
        String::from_str("#VALUE!")
    } else if str_eq_chars(&u, "REF") || str_eq_chars(&u, "#REF!") {
        String::from_str("#REF!")
    } else if str_eq_chars(&u, "NAME") || str_eq_chars(&u, "#NAME?") {
        String::from_str("#NAME?")
    } else if str_eq_chars(&u, "NUM") || str_eq_chars(&u, "#NUM!") {
        String::from_str("#NUM!")
    } else if str_eq_chars(&u, "NULL") || str_eq_chars(&u, "#NULL!") {
        String::from_str("#NULL!")
    } else {
        String::from_str("#ERROR!")
    }
}

pub open spec fn is_ws(c: char) -> bool {
    c == ' ' || c == '\t' || c == '\n' || c == '\r'
}

/// Length of the run of ASCII whitespace at the front of `s`.
pub open spec fn ws_prefix_len(s: Seq<char>) -> int
    decreases s.len(),
{
    if s.len() == 0 {
        0
    } else if !is_ws(s[0]) {
        0
    } else {
        1 + ws_prefix_len(s.skip(1))
    }
}

/// Length of the run of ASCII whitespace at the back of `s`.
pub open spec fn ws_suffix_len(s: Seq<char>) -> int
    decreases s.len(),
{
    if s.len() == 0 {
        0
    } else if !is_ws(s.last()) {
        0
    } else {
        1 + ws_suffix_len(s.drop_last())
    }
}

/// `s` with ASCII whitespace removed from both ends.
pub open spec fn trim_of(s: Seq<char>) -> Seq<char> {
    if ws_prefix_len(s) == s.len() {
        Seq::empty()
    } else {
        s.subrange(ws_prefix_len(s), s.len() - ws_suffix_len(s))
    }
}

pub proof fn lemma_ws_prefix_len(s: Seq<char>, k: int)
    requires
        0 <= k <= s.len(),
        forall|i: int| 0 <= i < k ==> is_ws(#[trigger] s[i]),
        k < s.len() ==> !is_ws(s[k]),
    ensures
        ws_prefix_len(s) == k,
    decreases s.len(),
{
    reveal_with_fuel(ws_prefix_len, 2);
    if s.len() == 0 || k == 0 {
    } else {
        let t = s.skip(1);
        assert(forall|i: int| 0 <= i < k - 1 ==> t[i] == s[i + 1]);
        lemma_ws_prefix_len(t, k - 1);
    }
}

pub proof fn lemma_ws_suffix_len(s: Seq<char>, k: int)
    requires
        0 <= k <= s.len(),
        forall|i: int| s.len() - k <= i < s.len() ==> is_ws(#[trigger] s[i]),
        k < s.len() ==> !is_ws(s[s.len() - k - 1]),
    ensures
        ws_suffix_len(s) == k,
    decreases s.len(),
{
    reveal_with_fuel(ws_suffix_len, 2);
    if s.len() == 0 || k == 0 {
    } else {
        let t = s.drop_last();
        assert(is_ws(s.last()));
        assert(forall|i: int| t.len() - (k - 1) <= i < t.len() ==> is_ws(#[trigger] t[i]));
        lemma_ws_suffix_len(t, k - 1);
    }
}

/// The characters of `v` with ASCII whitespace trimmed from both ends.
pub fn trim_chars(v: &Vec<char>) -> (r: Vec<char>)
    ensures
        r@ == trim_of(v@),
{
    let n = v.len();
    let mut a: usize = 0;
    while a < n && (v[a] == ' ' || v[a] == '\t' || v[a] == '\n' || v[a] == '\r')
        invariant
            a <= n,
            n == v@.len(),
            forall|i: int| 0 <= i < a ==> is_ws(#[trigger] v@[i]),
        decreases n - a,
    {
        a += 1;
    }
    proof {
        lemma_ws_prefix_len(v@, a as int);
    }
    if a == n {
        let out: Vec<char> = Vec::new();
        proof {
            assert(out@ =~= trim_of(v@));
        }
        return out;
    }
    let mut b: usize = n;
    while b > a && (v[b - 1] == ' ' || v[b - 1] == '\t' || v[b - 1] == '\n' || v[b - 1] == '\r')
        invariant
            a < b <= n,
            n == v@.len(),
            !is_ws(v@[a as int]),
            forall|i: int| 0 <= i < a ==> is_ws(#[trigger] v@[i]),
            forall|i: int| b <= i < n ==> is_ws(#[trigger] v@[i]),
        decreases b,
    {
        b -= 1;
    }
    proof {
        lemma_ws_suffix_len(v@, v@.len() - b);
    }
    let mut out: Vec<char> = Vec::new();
    let mut i: usize = a;
    while i < b
        invariant
            a <= i <= b <= n,
            n == v@.len(),
            out@ == v@.subrange(a as int, i as int),
        decreases b - i,
    {
        proof {
            assert(v@.subrange(a as int, i + 1 as int) =~= v@.subrange(a as int, i as int).push(
                v@[i as int],
            ));
        }
        out.push(v[i]);
        i += 1;
    }
    proof {
        assert(out@ =~= trim_of(v@));
    }
    out
}

/// The error token produced by one of the three whitelisted literal
/// formulas, if the trimmed formula text is one of them.
///
/// Any other formula, including one that merely propagates an error,
/// maps to `None` and so stays a formula value.
pub open spec fn error_token_of_formula(s: Seq<char>) -> Option<Seq<char>> {
    let f = trim_of(s);
    if f == "=1/0"@ {
        Some("#DIV/0!"@)
    } else if seq_upper(f) == seq_upper("=NA()"@) {
        Some("#N/A"@)
    } else if f == "=\"text\"+1"@ {
        Some("#VALUE!"@)
    } else {
        None
    }
}

pub fn map_error_formula(formula: &str) -> (r: Option<String>)
    ensures
        match r {
            Some(t) => error_token_of_formula(formula@) == Some(t@),
            None => error_token_of_formula(formula@) is None,
        },
{
    let v = chars_of(formula);
    let f = trim_chars(&v);
    if str_eq_chars(&f, "=1/0") {
        return Some(String::from_str("#DIV/0!"));
    }
    let fu = upper_chars(&f);
    let nau = upper_chars(&chars_of("=NA()"));
    if crate::text::chars_eq(&fu, &nau) {
        return Some(String::from_str("#N/A"));
    }
    if str_eq_chars(&f, "=\"text\"+1") {
        return Some(String::from_str("#VALUE!"));
    }
    None
}

/// The literal formula that the writer emits for a whitelisted error
/// token, so the error value survives a write/read cycle.
pub open spec fn formula_of_error_token(t: Seq<char>) -> Option<Seq<char>> {
    if t == "#DIV/0!"@ {
        Some("=1/0"@)
    } else if t == "#N/A"@ {
        Some("=NA()"@)
    } else if t == "#VALUE!"@ {
        Some("=\"text\"+1"@)
    } else {
        None
    }
}

pub fn error_token_to_formula(token: &str) -> (r: Option<String>)
    ensures
        match r {
            Some(f) => formula_of_error_token(token@) == Some(f@),
            None => formula_of_error_token(token@) is None,
        },
{
    let v = chars_of(token);
    if str_eq_chars(&v, "#DIV/0!") {
        Some(String::from_str("=1/0"))
    } else if str_eq_chars(&v, "#N/A") {
        Some(String::from_str("=NA()"))
    } else if str_eq_chars(&v, "#VALUE!") {
        Some(String::from_str("=\"text\"+1"))
    } else {
        None
    }
}

proof fn lemma_trim_id(s: Seq<char>)
    requires
        s.len() >= 1,
        !is_ws(s[0]),
        !is_ws(s[s.len() - 1]),
    ensures
        trim_of(s) == s,
{
    lemma_ws_prefix_len(s, 0);
    lemma_ws_suffix_len(s, 0);
    assert(trim_of(s) =~= s);
}

/// Whitelist round trip: each of the three error tokens maps to its
/// literal formula, and that formula maps back to the same token; each
/// of the three literal formulas maps to its token, and that token maps
/// back to the same formula.
pub proof fn lemma_error_whitelist_round_trip(t: Seq<char>, f: Seq<char>)
    ensures
        formula_of_error_token(t) == Some(f) ==> error_token_of_formula(f) == Some(t),
        error_token_of_formula(f) == Some(t) && trim_of(f) == f && seq_upper(f) == f
            ==> formula_of_error_token(t) == Some(f),
{
    reveal_strlit("#DIV/0!");
    reveal_strlit("#N/A");
    reveal_strlit("#VALUE!");
    reveal_strlit("=1/0");
    reveal_strlit("=NA()");
    reveal_strlit("=\"text\"+1");
    if formula_of_error_token(t) == Some(f) {
        if t == "#DIV/0!"@ {
            assert(!is_ws("=1/0"@[0]));
            assert(!is_ws("=1/0"@[3]));
            lemma_trim_id("=1/0"@);
        } else if t == "#N/A"@ {
            assert(!is_ws("=NA()"@[0]));
            assert(!is_ws("=NA()"@[4]));
            lemma_trim_id("=NA()"@);
            assert(seq_upper("=NA()"@) =~= seq_upper("=NA()"@));
        } else {
            assert(!is_ws("=\"text\"+1"@[0]));
            assert(!is_ws("=\"text\"+1"@[8]));
            lemma_trim_id("=\"text\"+1"@);
            assert(seq_upper("=\"text\"+1"@) != seq_upper("=NA()"@)) by {
                assert(seq_upper("=\"text\"+1"@).len() == 9);
                assert(seq_upper("=NA()"@).len() == 5);
            }
            assert("=\"text\"+1"@ != "=1/0"@) by {
                assert("=\"text\"+1"@.len() == 9);
                assert("=1/0"@.len() == 4);
            }
        }
    }
    if error_token_of_formula(f) == Some(t) && trim_of(f) == f && seq_upper(f) == f {
        assert("#VALUE!"@ != "#DIV/0!"@) by {
            assert("#VALUE!"@[1] == 'V');
            assert("#DIV/0!"@[1] == 'D');
        }
        assert("#N/A"@ != "#DIV/0!"@) by {
            assert("#N/A"@.len() == 4);
            assert("#DIV/0!"@.len() == 7);
        }
        assert("#VALUE!"@ != "#N/A"@) by {
            assert("#VALUE!"@.len() == 7);
            assert("#N/A"@.len() == 4);
        }
        if trim_of(f) == "=1/0"@ {
        } else if seq_upper(trim_of(f)) == seq_upper("=NA()"@) {
            assert(f == seq_upper(f));
            assert(seq_upper("=NA()"@) =~= "=NA()"@) by {
                assert(seq_upper("=NA()"@).len() == 5);
                assert(seq_upper("=NA()"@)[0] == '=');
                assert(seq_upper("=NA()"@)[1] == 'N');
                assert(seq_upper("=NA()"@)[2] == 'A');
                assert(seq_upper("=NA()"@)[3] == '(');
                assert(seq_upper("=NA()"@)[4] == ')');
            }
        } else {
        }
    }
}

} // verus!
