use vstd::prelude::*;
use vstd::arithmetic::div_mod::{lemma_fundamental_div_mod, lemma_fundamental_div_mod_converse};

use crate::text::{chars_of, string_of, upper_char, seq_upper, spec_upper};

verus! {

pub open spec fn is_upper_letter(c: char) -> bool {
    'A' <= c && c <= 'Z'
}

pub open spec fn is_ascii_letter(c: char) -> bool {
    is_upper_letter(c) || ('a' <= c && c <= 'z')
}

pub open spec fn is_ascii_digit(c: char) -> bool {
    '0' <= c && c <= '9'
}

/// Value of one column letter, 0 for `A` through 25 for `Z`.
pub open spec fn letter_val(c: char) -> int {
    spec_upper(c) as int - 'A' as int
}

pub open spec fn digit_val(c: char) -> int {
    c as int - '0' as int
}

/// One-based column number of a letter run, in bijective base 26:
/// `A` is 1, `Z` is 26, `AA` is 27.
pub open spec fn col_num_of(s: Seq<char>) -> int
    decreases s.len(),
{
    if s.len() == 0 {
        0
    } else {
        col_num_of(s.drop_last()) * 26 + letter_val(s.last()) + 1
    }
}

/// Numeric value of a digit run read in base 10.
pub open spec fn row_num_of(s: Seq<char>) -> int
    decreases s.len(),
{
    if s.len() == 0 {
        0
    } else {
        row_num_of(s.drop_last()) * 10 + digit_val(s.last())
    }
}

/// The upper-case letter with value `k`, for `k` in 0..26.
pub open spec fn letter_of_val(k: int) -> char {
    (('A' as u8) + k as u8) as char
}

pub open spec fn digit_of_val(k: int) -> char {
    (('0' as u8) + k as u8) as char
}

/// The canonical letter run of a one-based column number, in bijective
/// base 26. Empty for n <= 0.
pub open spec fn letters_of(n: int) -> Seq<char>
    decreases n,
{
    if n <= 0 {
        Seq::empty()
    } else {
        letters_of((n - 1) / 26).push(letter_of_val((n - 1) % 26))
    }
}

/// The canonical decimal digit run of `n`, without leading zeros.
/// Empty for n <= 0.
pub open spec fn digits_of(n: int) -> Seq<char>
    decreases n,
{
    if n <= 0 {
        Seq::empty()
    } else if n < 10 {
        seq![digit_of_val(n)]
    } else {
        digits_of(n / 10).push(digit_of_val(n % 10))
    }
}

/// Length of the run of ASCII letters at the front of `s`.
pub open spec fn letter_prefix_len(s: Seq<char>) -> int
    decreases s.len(),
{
    if s.len() == 0 {
        0
    } else if !is_ascii_letter(s[0]) {
        0
    } else {
        1 + letter_prefix_len(s.skip(1))
    }
}

/// A well-formed one-based A1 address: a nonempty run of ASCII letters,
/// then a nonempty run of ASCII digits with row number at least 1.
pub open spec fn valid_a1(s: Seq<char>) -> bool {
    let k = letter_prefix_len(s);
    &&& 1 <= k < s.len()
    &&& forall|i: int| k <= i < s.len() ==> is_ascii_digit(#[trigger] s[i])
    &&& row_num_of(s.skip(k)) >= 1
}

/// Zero-based column of a well-formed A1 address.
pub open spec fn a1_col(s: Seq<char>) -> int {
    col_num_of(seq_upper(s.take(letter_prefix_len(s)))) - 1
}

/// Zero-based row of a well-formed A1 address.
pub open spec fn a1_row(s: Seq<char>) -> int {
    row_num_of(s.skip(letter_prefix_len(s))) - 1
}

/// The canonical A1 text of a zero-based row and column.
pub open spec fn a1_of(row: int, col: int) -> Seq<char> {
    letters_of(col + 1) + digits_of(row + 1)
}

pub proof fn lemma_col_num_pos(s: Seq<char>)
    requires
        s.len() >= 1,
        forall|i: int| 0 <= i < s.len() ==> is_upper_letter(#[trigger] s[i]),
    ensures
        col_num_of(s) >= 1,
    decreases s.len(),
{
    reveal_with_fuel(col_num_of, 3);
    if s.len() > 1 {
        lemma_col_num_pos(s.drop_last());
    }
    assert(letter_val(s.last()) >= 0);
}

pub proof fn lemma_row_num_pos(s: Seq<char>)
    requires
        s.len() >= 1,
        forall|i: int| 0 <= i < s.len() ==> is_ascii_digit(#[trigger] s[i]),
        s[0] != '0',
    ensures
        row_num_of(s) >= 1,
    decreases s.len(),
{
    reveal_with_fuel(row_num_of, 3);
    assert(is_ascii_digit(s[s.len() - 1]));
    if s.len() == 1 {
        assert(s.drop_last() =~= Seq::<char>::empty());
        assert(s.last() == s[0]);
        assert(digit_val(s[0]) >= 1);
    } else {
        let b = s.drop_last();
        assert(b[0] == s[0]);
        lemma_row_num_pos(b);
        assert(row_num_of(b) * 10 >= 10);
        assert(digit_val(s.last()) >= 0);
    }
}

/// Formatting a one-based column number and parsing the result gives the
/// number back.
pub proof fn lemma_col_letters_inverse(n: int)
    requires
        n >= 1,
    ensures
        letters_of(n).len() >= 1,
        forall|i: int| 0 <= i < letters_of(n).len() ==> is_upper_letter(#[trigger] letters_of(n)[i]),
        col_num_of(letters_of(n)) == n,
    decreases n,
{
    reveal_with_fuel(col_num_of, 3);
    reveal_with_fuel(letters_of, 3);
    let q = (n - 1) / 26;
    let r = (n - 1) % 26;
    lemma_fundamental_div_mod(n - 1, 26);
    assert(0 <= r < 26);
    assert(is_upper_letter(letter_of_val(r)));
    assert(letter_val(letter_of_val(r)) == r);
    if q == 0 {
        assert(letters_of(0) =~= Seq::<char>::empty());
        assert(letters_of(n) =~= seq![letter_of_val(r)]);
        assert(letters_of(n).drop_last() =~= Seq::<char>::empty());
        assert(letters_of(n).last() == letter_of_val(r));
        assert(col_num_of(letters_of(n)) == 0 * 26 + r + 1);
    } else {
        lemma_col_letters_inverse(q);
        let w = letters_of(q);
        assert(letters_of(n) == w.push(letter_of_val(r)));
        assert(letters_of(n).drop_last() =~= w);
        assert(col_num_of(letters_of(n)) == q * 26 + r + 1);
    }
}

/// Parsing an upper-case letter run and formatting the result gives the
/// run back.
pub proof fn lemma_letters_col_inverse(s: Seq<char>)
    requires
        s.len() >= 1,
        forall|i: int| 0 <= i < s.len() ==> is_upper_letter(#[trigger] s[i]),
    ensures
        letters_of(col_num_of(s)) == s,
    decreases s.len(),
{
    reveal_with_fuel(col_num_of, 3);
    reveal_with_fuel(letters_of, 3);
    let b = s.drop_last();
    let lv = letter_val(s.last());
    let n = col_num_of(s);
    assert(0 <= lv < 26);
    assert(n == col_num_of(b) * 26 + lv + 1);
    lemma_fundamental_div_mod_converse(n - 1, 26, col_num_of(b), lv);
    if b.len() == 0 {
        assert(col_num_of(b) == 0);
        assert(n >= 1);
        assert(letters_of(n) =~= letters_of(0).push(letter_of_val(lv)));
        assert(letter_of_val(letter_val(s.last())) == s.last());
        assert(letters_of(n) =~= s);
    } else {
        lemma_col_num_pos(b);
        lemma_letters_col_inverse(b);
        assert(letters_of(n) == letters_of(col_num_of(b)).push(letter_of_val(lv)));
        assert(letter_of_val(letter_val(s.last())) == s.last());
        assert(letters_of(n) =~= s);
    }
}

pub proof fn lemma_row_digits_inverse(n: int)
    requires
        n >= 1,
    ensures
        digits_of(n).len() >= 1,
        forall|i: int| 0 <= i < digits_of(n).len() ==> is_ascii_digit(#[trigger] digits_of(n)[i]),
        digits_of(n)[0] != '0',
        row_num_of(digits_of(n)) == n,
    decreases n,
{
    reveal_with_fuel(row_num_of, 3);
    reveal_with_fuel(digits_of, 3);
    if n < 10 {
        assert(digits_of(n) =~= seq![digit_of_val(n)]);
        assert(digits_of(n).drop_last() =~= Seq::<char>::empty());
        assert(digits_of(n).last() == digit_of_val(n));
        assert(digit_val(digit_of_val(n)) == n);
        assert(row_num_of(digits_of(n)) == 0 * 10 + n);
    } else {
        let q = n / 10;
        let r = n % 10;
        lemma_fundamental_div_mod(n, 10);
        assert(q >= 1) by {
            assert(n >= 10);
        }
        lemma_row_digits_inverse(q);
        let w = digits_of(q);
        assert(digits_of(n) == w.push(digit_of_val(r)));
        assert(digits_of(n).drop_last() =~= w);
        assert(digit_val(digit_of_val(r)) == r);
        assert(row_num_of(digits_of(n)) == q * 10 + r);
        assert(digits_of(n)[0] == w[0]);
    }
}

pub proof fn lemma_digits_row_inverse(s: Seq<char>)
    requires
        s.len() >= 1,
        forall|i: int| 0 <= i < s.len() ==> is_ascii_digit(#[trigger] s[i]),
        s[0] != '0',
    ensures
        digits_of(row_num_of(s)) == s,
    decreases s.len(),
{
    reveal_with_fuel(row_num_of, 3);
    reveal_with_fuel(digits_of, 3);
    let b = s.drop_last();
    let d = digit_val(s.last());
    let n = row_num_of(s);
    assert(0 <= d < 10);
    if b.len() == 0 {
        assert(d >= 1);
        assert(row_num_of(b) == 0);
        assert(n == row_num_of(b) * 10 + d);
        assert(n == d);
        assert(digits_of(n) =~= seq![digit_of_val(d)]);
        assert(digit_of_val(digit_val(s.last())) == s.last());
        assert(digits_of(n) =~= s);
    } else {
        lemma_row_num_pos(b);
        assert(n == row_num_of(b) * 10 + d);
        assert(n >= 10);
        lemma_fundamental_div_mod_converse(n, 10, row_num_of(b), d);
        lemma_digits_row_inverse(b);
        assert(digits_of(n) == digits_of(row_num_of(b)).push(digit_of_val(d)));
        assert(digit_of_val(digit_val(s.last())) == s.last());
        assert(digits_of(n) =~= s);
    }
}

} // verus!
use vstd::prelude::*;

verus! {

/// One past the largest one-based column or row number that the engine
/// accepts: zero-based values must fit in `u32`.
pub open spec fn coord_cap() -> int {
    0x1_0000_0000
}

#[derive(Clone, Copy, Debug, PartialEq, Eq, Structural)]
pub enum AddrError {
    /// The text is not a letter run followed by a digit run with row >= 1.
    Malformed,
    /// The column letters name a column past the supported range.
    ColOutOfRange,
    /// The row digits name a row past the supported range.
    RowOutOfRange,
}

pub proof fn lemma_col_num_nonneg(s: Seq<char>)
    requires
        forall|i: int| 0 <= i < s.len() ==> is_ascii_letter(#[trigger] s[i]),
    ensures
        col_num_of(s) >= 0,
    decreases s.len(),
{
    reveal_with_fuel(col_num_of, 2);
    if s.len() > 0 {
        lemma_col_num_nonneg(s.drop_last());
        assert(is_ascii_letter(s[s.len() - 1]));
        assert(letter_val(s.last()) >= 0);
    }
}

pub proof fn lemma_col_num_prefix(s: Seq<char>, k: int)
    requires
        0 <= k <= s.len(),
        forall|i: int| 0 <= i < s.len() ==> is_ascii_letter(#[trigger] s[i]),
    ensures
        col_num_of(s.take(k)) <= col_num_of(s),
    decreases s.len() - k,
{
    reveal_with_fuel(col_num_of, 2);
    if k == s.len() {
        assert(s.take(k) =~= s);
    } else {
        lemma_col_num_prefix(s, k + 1);
        assert(s.take(k + 1).drop_last() =~= s.take(k));
        assert(s.take(k + 1).last() == s[k]);
        assert(is_ascii_letter(s[k]));
        lemma_col_num_nonneg(s.take(k));
        assert(col_num_of(s.take(k + 1)) == col_num_of(s.take(k)) * 26 + letter_val(s[k]) + 1);
    }
}

pub proof fn lemma_row_num_nonneg(s: Seq<char>)
    requires
        forall|i: int| 0 <= i < s.len() ==> is_ascii_digit(#[trigger] s[i]),
    ensures
        row_num_of(s) >= 0,
    decreases s.len(),
{
    reveal_with_fuel(row_num_of, 2);
    if s.len() > 0 {
        lemma_row_num_nonneg(s.drop_last());
        assert(is_ascii_digit(s[s.len() - 1]));
        assert(digit_val(s.last()) >= 0);
    }
}

pub proof fn lemma_row_num_prefix(s: Seq<char>, k: int)
    requires
        0 <= k <= s.len(),
        forall|i: int| 0 <= i < s.len() ==> is_ascii_digit(#[trigger] s[i]),
    ensures
        row_num_of(s.take(k)) <= row_num_of(s),
    decreases s.len() - k,
{
    reveal_with_fuel(row_num_of, 2);
    if k == s.len() {
        assert(s.take(k) =~= s);
    } else {
        lemma_row_num_prefix(s, k + 1);
        assert(s.take(k + 1).drop_last() =~= s.take(k));
        assert(s.take(k + 1).last() == s[k]);
        assert(is_ascii_digit(s[k]));
        lemma_row_num_nonneg(s.take(k));
        assert(row_num_of(s.take(k + 1)) == row_num_of(s.take(k)) * 10 + digit_val(s[k]));
    }
}

/// The letter prefix length is the position of the first non-letter.
pub proof fn lemma_letter_prefix_len(s: Seq<char>, k: int)
    requires
        0 <= k <= s.len(),
        forall|i: int| 0 <= i < k ==> is_ascii_letter(#[trigger] s[i]),
        k < s.len() ==> !is_ascii_letter(s[k]),
    ensures
        letter_prefix_len(s) == k,
    decreases s.len(),
{
    reveal_with_fuel(letter_prefix_len, 2);
    if s.len() == 0 {
    } else if k == 0 {
    } else {
        assert(is_ascii_letter(s[0]));
        let t = s.skip(1);
        assert(forall|i: int| 0 <= i < k - 1 ==> t[i] == s[i + 1]);
        lemma_letter_prefix_len(t, k - 1);
    }
}

pub fn is_letter_char(c: char) -> (r: bool)
    ensures
        r == is_ascii_letter(c),
{
    ('A' <= c && c <= 'Z') || ('a' <= c && c <= 'z')
}

pub fn is_digit_char(c: char) -> (r: bool)
    ensures
        r == is_ascii_digit(c),
{
    '0' <= c && c <= '9'
}

/// One-based column number of the letters `v[0..k]`, or an error when it
/// is past the supported range.
fn col_num_of_letters(v: &Vec<char>, k: usize) -> (r: Result<u64, AddrError>)
    requires
        k <= v@.len(),
        forall|i: int| 0 <= i < k ==> is_ascii_letter(#[trigger] v@[i]),
    ensures
        match r {
            Ok(n) => n == col_num_of(seq_upper(v@.take(k as int))) && n <= coord_cap(),
            Err(e) => e == AddrError::ColOutOfRange && col_num_of(seq_upper(v@.take(k as int)))
                > coord_cap(),
        },
{
    proof {
        assert(forall|i: int|
            0 <= i < k ==> is_upper_letter(#[trigger] seq_upper(v@.take(k as int))[i]));
    }
    let mut col: u64 = 0;
    let mut i: usize = 0;
    while i < k
        invariant
            i <= k,
            k <= v@.len(),
            forall|i: int| 0 <= i < k ==> is_ascii_letter(#[trigger] v@[i]),
            col == col_num_of(seq_upper(v@.take(i as int))),
            col <= coord_cap(),
        decreases k - i,
    {
        let c = upper_char(v[i]);
        proof {
            assert(is_ascii_letter(v@[i as int]));
            assert(seq_upper(v@.take(i + 1 as int)).drop_last() =~= seq_upper(
                v@.take(i as int),
            ));
            assert(seq_upper(v@.take(i + 1 as int)).last() == spec_upper(v@[i as int]));
        }
        let val: u64 = (c as u32 - 'A' as u32) as u64;
        col = col * 26 + val + 1;
        i += 1;
        if col > 0x1_0000_0000u64 {
            proof {
                let w = seq_upper(v@.take(k as int));
                assert(forall|j: int| 0 <= j < w.len() ==> is_ascii_letter(#[trigger] w[j]));
                lemma_col_num_prefix(w, i as int);
                assert(w.take(i as int) =~= seq_upper(v@.take(i as int)));
            }
            return Err(AddrError::ColOutOfRange);
        }
    }
    assert(v@.take(k as int) == v@.take(i as int));
    Ok(col)
}

/// Row number of the digits `v[from..to]`, or an error when it is past
/// the supported range.
fn row_num_of_digits(v: &Vec<char>, from: usize, to: usize) -> (r: Result<u64, AddrError>)
    requires
        from <= to <= v@.len(),
        forall|i: int| from <= i < to ==> is_ascii_digit(#[trigger] v@[i]),
    ensures
        match r {
            Ok(n) => n == row_num_of(v@.subrange(from as int, to as int)) && n <= coord_cap(),
            Err(e) => e == AddrError::RowOutOfRange && row_num_of(
                v@.subrange(from as int, to as int),
            ) > coord_cap(),
        },
{
    let ghost w = v@.subrange(from as int, to as int);
    proof {
        assert(forall|j: int| 0 <= j < w.len() ==> is_ascii_digit(#[trigger] w[j]));
    }
    let mut row: u64 = 0;
    let mut i: usize = from;
    while i < to
        invariant
            from <= i <= to,
            to <= v@.len(),
            w == v@.subrange(from as int, to as int),
            forall|j: int| 0 <= j < w.len() ==> is_ascii_digit(#[trigger] w[j]),
            forall|j: int| from <= j < to ==> is_ascii_digit(#[trigger] v@[j]),
            row == row_num_of(w.take(i - from)),
            row <= coord_cap(),
        decreases to - i,
    {
        let c = v[i];
        proof {
            assert(w[i - from] == v@[i as int]);
            assert(w.take(i + 1 - from).drop_last() =~= w.take(i - from));
            assert(w.take(i + 1 - from).last() == w[i - from]);
        }
        let val: u64 = (c as u32 - '0' as u32) as u64;
        row = row * 10 + val;
        i += 1;
        if row > 0x1_0000_0000u64 {
            proof {
                lemma_row_num_prefix(w, i - from);
            }
            return Err(AddrError::RowOutOfRange);
        }
    }
    assert(w.take(to - from) == w);
    Ok(row)
}

/// Parse a one-based A1 address into a zero-based (row, column) pair.
///
/// Accepts lower-case column letters. Fails exactly on text that is not
/// a letter run followed by a digit run with row number at least 1, or
/// whose row or column does not fit the engine's coordinate range.
pub fn a1_to_row_col(a1: &str) -> (r: Result<(u32, u32), AddrError>)
    ensures
        match r {
            Ok(rc) => {
                &&& valid_a1(a1@)
                &&& rc.0 == a1_row(a1@)
                &&& rc.1 == a1_col(a1@)
                &&& a1_row(a1@) < coord_cap()
                &&& a1_col(a1@) < coord_cap()
            },
            Err(AddrError::Malformed) => !valid_a1(a1@),
            Err(AddrError::ColOutOfRange) => valid_a1(a1@) && a1_col(a1@) >= coord_cap(),
            Err(AddrError::RowOutOfRange) => valid_a1(a1@) && a1_col(a1@) < coord_cap()
                && a1_row(a1@) >= coord_cap(),
        },
{
    let v = chars_of(a1);
    let n = v.len();
    let mut k: usize = 0;
    while k < n && is_letter_char(v[k])
        invariant
            k <= n,
            n == v@.len(),
            forall|i: int| 0 <= i < k ==> is_ascii_letter(#[trigger] v@[i]),
        decreases n - k,
    {
        k += 1;
    }
    proof {
        lemma_letter_prefix_len(v@, k as int);
    }
    if k == 0 || k >= n {
        return Err(AddrError::Malformed);
    }
    let mut j: usize = k;
    while j < n && is_digit_char(v[j])
        invariant
            k <= j <= n,
            n == v@.len(),
            forall|i: int| k <= i < j ==> is_ascii_digit(#[trigger] v@[i]),
        decreases n - j,
    {
        j += 1;
    }
    if j < n {
        proof {
            assert(!is_ascii_digit(v@[j as int]));
        }
        return Err(AddrError::Malformed);
    }
    let row_n = match row_num_of_digits(&v, k, n) {
        Ok(x) => x,
        Err(_) => {
            // The shape is well formed; report column overflow first, as
            // the column letters come first in the text.
            proof {
                assert(v@.subrange(k as int, n as int) =~= v@.skip(k as int));
            }
            match col_num_of_letters(&v, k) {
                Ok(_) => {
                    return Err(AddrError::RowOutOfRange);
                },
                Err(e) => {
                    return Err(e);
                },
            }
        },
    };
    proof {
        assert(v@.subrange(k as int, n as int) =~= v@.skip(k as int));
    }
    if row_n == 0 {
        return Err(AddrError::Malformed);
    }
    let col_n = match col_num_of_letters(&v, k) {
        Ok(x) => x,
        Err(e) => {
            return Err(e);
        },
    };
    proof {
        lemma_col_num_pos(seq_upper(v@.take(k as int)));
    }
    Ok((((row_n - 1) as u32), ((col_n - 1) as u32)))
}

/// The canonical A1 text of a zero-based (row, column) pair.
pub fn row_col_to_a1(row: u32, col: u32) -> (r: String)
    ensures
        r@ == a1_of(row as int, col as int),
{
    let mut v = letters_of_exec((col as u64) + 1);
    let d = digits_of_exec((row as u64) + 1);
    let mut i: usize = 0;
    proof {
        assert(v@ + d@.take(0) =~= v@);
    }
    let ghost base = v@;
    while i < d.len()
        invariant
            i <= d@.len(),
            v@ == base + d@.take(i as int),
        decreases d@.len() - i,
    {
        v.push(d[i]);
        proof {
            assert(base + d@.take(i + 1 as int) =~= (base + d@.take(i as int)).push(
                d@[i as int],
            ));
        }
        i += 1;
    }
    proof {
        assert(d@.take(d@.len() as int) =~= d@);
    }
    string_of(&v)
}

fn letters_of_exec(n: u64) -> (r: Vec<char>)
    requires
        1 <= n <= coord_cap(),
    ensures
        r@ == letters_of(n as int),
    decreases n,
{
    proof {
        reveal_with_fuel(letters_of, 2);
        lemma_fundamental_div_mod(n as int - 1, 26);
    }
    if n <= 26 {
        let c = (('A' as u8) + ((n - 1) as u8)) as char;
        let mut v: Vec<char> = Vec::new();
        v.push(c);
        proof {
            assert(letters_of(0) =~= Seq::<char>::empty());
            assert(letters_of(n as int) =~= seq![letter_of_val((n - 1) as int)]);
            assert(v@ =~= seq![letter_of_val((n - 1) as int)]);
        }
        v
    } else {
        let q = (n - 1) / 26;
        let rem = (n - 1) % 26;
        let mut v = letters_of_exec(q);
        let c = (('A' as u8) + (rem as u8)) as char;
        v.push(c);
        v
    }
}

fn digits_of_exec(n: u64) -> (r: Vec<char>)
    requires
        1 <= n <= coord_cap(),
    ensures
        r@ == digits_of(n as int),
    decreases n,
{
    proof {
        reveal_with_fuel(digits_of, 2);
        lemma_fundamental_div_mod(n as int, 10);
    }
    if n < 10 {
        let c = (('0' as u8) + (n as u8)) as char;
        let mut v: Vec<char> = Vec::new();
        v.push(c);
        proof {
            assert(v@ =~= seq![digit_of_val(n as int)]);
        }
        v
    } else {
        let q = n / 10;
        let rem = n % 10;
        let mut v = digits_of_exec(q);
        let c = (('0' as u8) + (rem as u8)) as char;
        v.push(c);
        v
    }
}

/// Round trip from coordinates: formatting any zero-based (row, column)
/// pair and parsing the text back yields the same pair.
pub proof fn lemma_a1_round_trip(row: int, col: int)
    requires
        0 <= row < coord_cap(),
        0 <= col < coord_cap(),
    ensures
        valid_a1(a1_of(row, col)),
        a1_row(a1_of(row, col)) == row,
        a1_col(a1_of(row, col)) == col,
{
    let letters = letters_of(col + 1);
    let digits = digits_of(row + 1);
    let s = a1_of(row, col);
    lemma_col_letters_inverse(col + 1);
    lemma_row_digits_inverse(row + 1);
    assert(forall|i: int| 0 <= i < letters.len() ==> is_ascii_letter(#[trigger] s[i])) by {
        assert(forall|i: int| 0 <= i < letters.len() ==> s[i] == letters[i]);
    }
    assert(!is_ascii_letter(s[letters.len() as int])) by {
        assert(s[letters.len() as int] == digits[0]);
        assert(is_ascii_digit(digits[0]));
    }
    lemma_letter_prefix_len(s, letters.len() as int);
    assert(s.take(letters.len() as int) =~= letters);
    assert(s.skip(letters.len() as int) =~= digits);
    assert(seq_upper(letters) =~= letters) by {
        assert(forall|i: int|
            0 <= i < letters.len() ==> #[trigger] seq_upper(letters)[i] == spec_upper(
                letters[i],
            ) && is_upper_letter(letters[i]));
    }
    assert(forall|i: int|
        letters.len() <= i < s.len() ==> is_ascii_digit(#[trigger] s[i])) by {
        assert(forall|i: int|
            letters.len() <= i < s.len() ==> s[i] == digits[i - letters.len()]);
    }
}

/// Round trip from text: a canonical A1 address (upper-case letters, no
/// leading zero in the row digits) is reproduced exactly by formatting
/// its parsed coordinates.
pub proof fn lemma_a1_canonical_round_trip(s: Seq<char>)
    requires
        valid_a1(s),
        forall|i: int| 0 <= i < letter_prefix_len(s) ==> is_upper_letter(#[trigger] s[i]),
        s[letter_prefix_len(s)] != '0',
    ensures
        a1_of(a1_row(s), a1_col(s)) == s,
{
    let k = letter_prefix_len(s);
    let letters = s.take(k);
    let digits = s.skip(k);
    assert(seq_upper(letters) =~= letters) by {
        assert(forall|i: int|
            0 <= i < letters.len() ==> #[trigger] seq_upper(letters)[i] == spec_upper(
                letters[i],
            ) && is_upper_letter(letters[i]));
    }
    assert(forall|i: int| 0 <= i < letters.len() ==> is_upper_letter(#[trigger] letters[i]));
    assert(forall|i: int| 0 <= i < digits.len() ==> is_ascii_digit(#[trigger] digits[i])) by {
        assert(forall|i: int| 0 <= i < digits.len() ==> digits[i] == s[i + k]);
    }
    lemma_letters_col_inverse(letters);
    assert(digits[0] == s[k]);
    lemma_digits_row_inverse(digits);
    assert(a1_of(a1_row(s), a1_col(s)) =~= s);
}

} // verus!
use vstd::prelude::*;

verus! {

/// The error that parsing this A1 text reports.
pub open spec fn a1_err(s: Seq<char>) -> AddrError {
    if !valid_a1(s) {
        AddrError::Malformed
    } else if a1_col(s) >= coord_cap() {
        AddrError::ColOutOfRange
    } else {
        AddrError::RowOutOfRange
    }
}

/// Whether this A1 text parses into supported coordinates.
pub open spec fn a1_ok(s: Seq<char>) -> bool {
    valid_a1(s) && a1_col(s) < coord_cap() && a1_row(s) < coord_cap()
}

/// `s` with every `$` removed.
pub open spec fn strip_dollar(s: Seq<char>) -> Seq<char>
    decreases s.len(),
{
    if s.len() == 0 {
        Seq::empty()
    } else if s.last() == '$' {
        strip_dollar(s.drop_last())
    } else {
        strip_dollar(s.drop_last()).push(s.last())
    }
}

/// Position of the first `:` in `s`, or its length when there is none.
pub open spec fn colon_pos(s: Seq<char>) -> int
    decreases s.len(),
{
    if s.len() == 0 {
        0
    } else if s[0] == ':' {
        0
    } else {
        1 + colon_pos(s.skip(1))
    }
}

/// First endpoint text of a range: everything before the first `:`.
pub open spec fn range_first(t: Seq<char>) -> Seq<char> {
    t.take(colon_pos(t))
}

/// Second endpoint text of a range: the segment between the first and
/// second `:`, or the first endpoint when there is no `:`.
pub open spec fn range_second(t: Seq<char>) -> Seq<char> {
    let p = colon_pos(t);
    if p == t.len() {
        range_first(t)
    } else {
        let u = t.skip(p + 1);
        u.take(colon_pos(u))
    }
}

pub proof fn lemma_colon_pos(s: Seq<char>, k: int)
    requires
        0 <= k <= s.len(),
        forall|i: int| 0 <= i < k ==> s[i] != ':',
        k < s.len() ==> s[k] == ':',
    ensures
        colon_pos(s) == k,
    decreases s.len(),
{
    reveal_with_fuel(colon_pos, 2);
    if s.len() == 0 || k == 0 {
    } else {
        let t = s.skip(1);
        assert(forall|i: int| 0 <= i < k - 1 ==> t[i] == s[i + 1]);
        lemma_colon_pos(t, k - 1);
    }
}

fn strip_dollar_exec(v: &Vec<char>) -> (r: Vec<char>)
    ensures
        r@ == strip_dollar(v@),
{
    let mut out: Vec<char> = Vec::new();
    let mut i: usize = 0;
    while i < v.len()
        invariant
            i <= v.len(),
            out@ == strip_dollar(v@.take(i as int)),
        decreases v.len() - i,
    {
        proof {
            assert(v@.take(i + 1 as int).drop_last() =~= v@.take(i as int));
            assert(v@.take(i + 1 as int).last() == v@[i as int]);
        }
        if v[i] != '$' {
            out.push(v[i]);
        }
        i += 1;
    }
    assert(v@.take(v@.len() as int) =~= v@);
    out
}

/// Parse a one-based A1 address given as characters; see `a1_to_row_col`.
pub fn parse_a1_chars(v: &Vec<char>) -> (r: Result<(u32, u32), AddrError>)
    ensures
        match r {
            Ok(rc) => a1_ok(v@) && rc.0 == a1_row(v@) && rc.1 == a1_col(v@),
            Err(e) => !a1_ok(v@) && e == a1_err(v@),
        },
{
    let s = crate::text::string_of(v);
    a1_to_row_col(s.as_str())
}

/// Parse `A1:B2` range text into zero-based, endpoint-ordered coordinates
/// (first row, first column, last row, last column).
///
/// `$` markers are stripped, a single address stands for both endpoints,
/// and anything after a second `:` is ignored.
pub fn parse_a1_range(range_str: &str) -> (r: Result<(u32, u32, u32, u32), AddrError>)
    ensures
        ({
            let t = strip_dollar(range_str@);
            let a = range_first(t);
            let b = range_second(t);
            match r {
                Ok(rc) => {
                    &&& a1_ok(a)
                    &&& a1_ok(b)
                    &&& rc.0 == vstd::math::min(a1_row(a), a1_row(b))
                    &&& rc.1 == vstd::math::min(a1_col(a), a1_col(b))
                    &&& rc.2 == vstd::math::max(a1_row(a), a1_row(b))
                    &&& rc.3 == vstd::math::max(a1_col(a), a1_col(b))
                },
                Err(e) => !(a1_ok(a) && a1_ok(b)) && (if !a1_ok(a) {
                    e == a1_err(a)
                } else {
                    e == a1_err(b)
                }),
            }
        }),
{
    let v = chars_of(range_str);
    let t = strip_dollar_exec(&v);
    let n = t.len();
    let mut p: usize = 0;
    while p < n && t[p] != ':'
        invariant
            p <= n,
            n == t@.len(),
            forall|i: int| 0 <= i < p ==> t@[i] != ':',
        decreases n - p,
    {
        p += 1;
    }
    proof {
        lemma_colon_pos(t@, p as int);
    }
    let mut a: Vec<char> = Vec::new();
    let mut i: usize = 0;
    while i < p
        invariant
            i <= p,
            p <= t@.len(),
            a@ == t@.take(p as int).take(i as int),
        decreases p - i,
    {
        proof {
            assert(t@.take(p as int).take(i + 1 as int) =~= t@.take(p as int).take(
                i as int,
            ).push(t@[i as int]));
        }
        a.push(t[i]);
        i += 1;
    }
    proof {
        assert(t@.take(p as int).take(p as int) =~= t@.take(p as int));
    }
    let b: Vec<char> = if p == n {
        let mut b2: Vec<char> = Vec::new();
        let mut i2: usize = 0;
        while i2 < a.len()
            invariant
                i2 <= a.len(),
                b2@ == a@.take(i2 as int),
            decreases a.len() - i2,
        {
            proof {
                assert(a@.take(i2 + 1 as int) =~= a@.take(i2 as int).push(a@[i2 as int]));
            }
            b2.push(a[i2]);
            i2 += 1;
        }
        proof {
            assert(a@.take(a@.len() as int) =~= a@);
        }
        b2
    } else {
        let ghost u = t@.skip(p + 1);
        let mut q: usize = p + 1;
        while q < n && t[q] != ':'
            invariant
                p + 1 <= q <= n,
                n == t@.len(),
                forall|i: int| p + 1 <= i < q ==> t@[i] != ':',
            decreases n - q,
        {
            q += 1;
        }
        proof {
            assert(forall|i: int| 0 <= i < q - p - 1 ==> u[i] == t@[i + p + 1]);
            lemma_colon_pos(u, q - p - 1);
        }
        let mut b2: Vec<char> = Vec::new();
        let mut i2: usize = p + 1;
        while i2 < q
            invariant
                p + 1 <= i2 <= q <= n,
                n == t@.len(),
                u == t@.skip(p + 1),
                b2@ == u.take(colon_pos(u)).take(i2 - p - 1),
                colon_pos(u) == q - p - 1,
            decreases q - i2,
        {
            proof {
                assert(u.take(colon_pos(u)).take(i2 - p) =~= u.take(colon_pos(u)).take(
                    i2 - p - 1,
                ).push(t@[i2 as int]));
            }
            b2.push(t[i2]);
            i2 += 1;
        }
        proof {
            assert(u.take(colon_pos(u)).take(colon_pos(u)) =~= u.take(colon_pos(u)));
        }
        b2
    };
    let (r1, c1) = match parse_a1_chars(&a) {
        Ok(x) => x,
        Err(e) => {
            return Err(e);
        },
    };
    let (r2, c2) = match parse_a1_chars(&b) {
        Ok(x) => x,
        Err(e) => {
            return Err(e);
        },
    };
    let fr = if r1 <= r2 { r1 } else { r2 };
    let lr = if r1 <= r2 { r2 } else { r1 };
    let fc = if c1 <= c2 { c1 } else { c2 };
    let lc = if c1 <= c2 { c2 } else { c1 };
    Ok((fr, fc, lr, lc))
}

/// Parse a column letter run (`A`, `aa`) into its zero-based index.
///
/// Fails exactly on text that is empty or holds a non-letter, or on a
/// column past the supported range.
pub fn col_letter_to_index(col_str: &str) -> (r: Result<u32, AddrError>)
    ensures
        ({
            let s = col_str@;
            let all = s.len() >= 1 && (forall|i: int|
                0 <= i < s.len() ==> is_ascii_letter(#[trigger] s[i]));
            match r {
                Ok(c) => all && col_num_of(seq_upper(s)) <= coord_cap() && c == col_num_of(
                    seq_upper(s),
                ) - 1,
                Err(AddrError::Malformed) => !all,
                Err(AddrError::ColOutOfRange) => all && col_num_of(seq_upper(s)) > coord_cap(),
                Err(AddrError::RowOutOfRange) => false,
            }
        }),
{
    let v = chars_of(col_str);
    let n = v.len();
    if n == 0 {
        return Err(AddrError::Malformed);
    }
    let mut i: usize = 0;
    while i < n
        invariant
            i <= n,
            n == v@.len(),
            v@ == col_str@,
            forall|j: int| 0 <= j < i ==> is_ascii_letter(#[trigger] v@[j]),
        decreases n - i,
    {
        if !is_letter_char(v[i]) {
            proof {
                assert(!is_ascii_letter(col_str@[i as int]));
            }
            return Err(AddrError::Malformed);
        }
        i += 1;
    }
    let c = match col_num_of_letters(&v, n) {
        Ok(x) => x,
        Err(e) => {
            proof {
                assert(v@.take(n as int) =~= v@);
            }
            return Err(e);
        },
    };
    proof {
        assert(v@.take(n as int) =~= v@);
        lemma_col_num_pos(seq_upper(v@));
    }
    Ok((c - 1) as u32)
}

/// Whether a sheet name must be quoted inside a reference.
pub open spec fn needs_quoting(s: Seq<char>) -> bool {
    s.contains(' ') || s.contains('\'')
}

/// Every `'` doubled.
pub open spec fn escape_quotes(s: Seq<char>) -> Seq<char>
    decreases s.len(),
{
    if s.len() == 0 {
        Seq::empty()
    } else if s.last() == '\'' {
        escape_quotes(s.drop_last()).push('\'').push('\'')
    } else {
        escape_quotes(s.drop_last()).push(s.last())
    }
}

/// The sheet name as it appears inside a defined-name reference: quoted,
/// with inner quotes doubled, when it holds a space or a quote.
pub open spec fn quoted_sheet_name(s: Seq<char>) -> Seq<char> {
    if needs_quoting(s) {
        seq!['\''] + escape_quotes(s) + seq!['\'']
    } else {
        s
    }
}

pub fn quote_sheet_name(sheet: &str) -> (r: String)
    ensures
        r@ == quoted_sheet_name(sheet@),
{
    let v = chars_of(sheet);
    let mut has_special = false;
    let mut i: usize = 0;
    while i < v.len()
        invariant
            i <= v.len(),
            v@ == sheet@,
            has_special == exists|j: int| 0 <= j < i && (v@[j] == ' ' || v@[j] == '\''),
        decreases v.len() - i,
    {
        if v[i] == ' ' || v[i] == '\'' {
            has_special = true;
        }
        i += 1;
    }
    proof {
        assert(has_special == needs_quoting(sheet@)) by {
            if has_special {
                let j = choose|j: int| 0 <= j < v@.len() && (v@[j] == ' ' || v@[j] == '\'');
                if v@[j] == ' ' {
                    assert(sheet@.contains(' '));
                } else {
                    assert(sheet@.contains('\''));
                }
            } else {
                if needs_quoting(sheet@) {
                    if sheet@.contains(' ') {
                        let j = choose|j: int| 0 <= j < sheet@.len() && sheet@[j] == ' ';
                        assert(v@[j] == ' ');
                    } else {
                        let j = choose|j: int| 0 <= j < sheet@.len() && sheet@[j] == '\'';
                        assert(v@[j] == '\'');
                    }
                }
            }
        }
    }
    if !has_special {
        return string_of(&v);
    }
    let mut out: Vec<char> = Vec::new();
    out.push('\'');
    let ghost pre = seq!['\''];
    let mut i: usize = 0;
    while i < v.len()
        invariant
            i <= v.len(),
            v@ == sheet@,
            pre == seq!['\''],
            out@ == pre + escape_quotes(v@.take(i as int)),
        decreases v.len() - i,
    {
        proof {
            assert(v@.take(i + 1 as int).drop_last() =~= v@.take(i as int));
            assert(v@.take(i + 1 as int).last() == v@[i as int]);
        }
        if v[i] == '\'' {
            out.push('\'');
            out.push('\'');
            proof {
                assert(pre + escape_quotes(v@.take(i + 1 as int)) =~= (pre + escape_quotes(
                    v@.take(i as int),
                )).push('\'').push('\''));
            }
        } else {
            out.push(v[i]);
            proof {
                assert(pre + escape_quotes(v@.take(i + 1 as int)) =~= (pre + escape_quotes(
                    v@.take(i as int),
                )).push(v@[i as int]));
            }
        }
        i += 1;
    }
    out.push('\'');
    proof {
        assert(v@.take(v@.len() as int) =~= v@);
        assert(out@ =~= quoted_sheet_name(sheet@));
    }
    string_of(&out)
}

} // verus!
use vstd::prelude::*;

verus! {

/// The decimal text of a positive number.
pub fn u32_digits(n: u32) -> (r: String)
    requires
        n >= 1,
    ensures
        r@ == digits_of(n as int),
{
    let v = digits_of_exec(n as u64);
    crate::text::string_of(&v)
}

} // verus!
