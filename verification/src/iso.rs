use vstd::prelude::*;
use vstd::arithmetic::div_mod::{
    lemma_fundamental_div_mod, lemma_div_denominator, lemma_small_mod,
};

use crate::addr::{is_ascii_digit, digit_val, digit_of_val};
use crate::text::{chars_of, string_of};

verus! {

/// A calendar date and clock time, each field a plain number.
#[derive(Clone, Copy, Debug, PartialEq, Eq, Structural)]
pub struct DateTimeParts {
    pub year: u32,
    pub month: u32,
    pub day: u32,
    pub hour: u32,
    pub minute: u32,
    pub second: u32,
}

pub open spec fn is_leap_year(y: int) -> bool {
    y % 4 == 0 && (y % 100 != 0 || y % 400 == 0)
}

pub open spec fn days_in_month(y: int, m: int) -> int {
    if m == 2 {
        if is_leap_year(y) {
            29
        } else {
            28
        }
    } else if m == 4 || m == 6 || m == 9 || m == 11 {
        30
    } else {
        31
    }
}

pub open spec fn valid_date(y: int, m: int, d: int) -> bool {
    &&& 0 <= y <= 9999
    &&& 1 <= m <= 12
    &&& 1 <= d <= days_in_month(y, m)
}

pub open spec fn valid_time(h: int, mi: int, s: int) -> bool {
    0 <= h <= 23 && 0 <= mi <= 59 && 0 <= s <= 59
}

pub open spec fn valid_parts(p: DateTimeParts) -> bool {
    valid_date(p.year as int, p.month as int, p.day as int) && valid_time(
        p.hour as int,
        p.minute as int,
        p.second as int,
    )
}

pub open spec fn is_midnight(p: DateTimeParts) -> bool {
    p.hour == 0 && p.minute == 0 && p.second == 0
}

/// Value of the two digits at `i`.
pub open spec fn num2(s: Seq<char>, i: int) -> int {
    digit_val(s[i]) * 10 + digit_val(s[i + 1])
}

/// Value of the four digits at `i`.
pub open spec fn num4(s: Seq<char>, i: int) -> int {
    ((digit_val(s[i]) * 10 + digit_val(s[i + 1])) * 10 + digit_val(s[i + 2])) * 10 + digit_val(
        s[i + 3],
    )
}

pub open spec fn digits_at(s: Seq<char>, i: int, n: int) -> bool {
    forall|j: int| i <= j < i + n ==> is_ascii_digit(#[trigger] s[j])
}

/// Shape of `YYYY-MM-DD` text.
pub open spec fn iso_date_shape(s: Seq<char>) -> bool {
    &&& s.len() == 10
    &&& digits_at(s, 0, 4)
    &&& s[4] == '-'
    &&& digits_at(s, 5, 2)
    &&& s[7] == '-'
    &&& digits_at(s, 8, 2)
}

/// The date parsed from `YYYY-MM-DD` text, when the shape and the
/// calendar both accept it.
pub open spec fn iso_date_of(s: Seq<char>) -> Option<DateTimeParts> {
    if iso_date_shape(s) && valid_date(num4(s, 0), num2(s, 5), num2(s, 8)) {
        Some(
            DateTimeParts {
                year: num4(s, 0) as u32,
                month: num2(s, 5) as u32,
                day: num2(s, 8) as u32,
                hour: 0,
                minute: 0,
                second: 0,
            },
        )
    } else {
        None
    }
}

/// Shape of `YYYY-MM-DDTHH:MM:SS` text; a space is accepted in place of
/// the `T` separator.
pub open spec fn iso_datetime_shape(s: Seq<char>) -> bool {
    &&& s.len() == 19
    &&& iso_date_shape(s.take(10))
    &&& (s[10] == 'T' || s[10] == ' ')
    &&& digits_at(s, 11, 2)
    &&& s[13] == ':'
    &&& digits_at(s, 14, 2)
    &&& s[16] == ':'
    &&& digits_at(s, 17, 2)
}

/// The date and time parsed from `YYYY-MM-DDTHH:MM:SS` text, when the
/// shape, the calendar and the clock all accept it.
pub open spec fn iso_datetime_of(s: Seq<char>) -> Option<DateTimeParts> {
    if iso_datetime_shape(s) && valid_date(num4(s, 0), num2(s, 5), num2(s, 8)) && valid_time(
        num2(s, 11),
        num2(s, 14),
        num2(s, 17),
    ) {
        Some(
            DateTimeParts {
                year: num4(s, 0) as u32,
                month: num2(s, 5) as u32,
                day: num2(s, 8) as u32,
                hour: num2(s, 11) as u32,
                minute: num2(s, 14) as u32,
                second: num2(s, 17) as u32,
            },
        )
    } else {
        None
    }
}

/// Four-digit zero-padded decimal text.
pub open spec fn pad4(n: int) -> Seq<char> {
    seq![
        digit_of_val((n / 1000) % 10),
        digit_of_val((n / 100) % 10),
        digit_of_val((n / 10) % 10),
        digit_of_val(n % 10),
    ]
}

/// Two-digit zero-padded decimal text.
pub open spec fn pad2(n: int) -> Seq<char> {
    seq![digit_of_val((n / 10) % 10), digit_of_val(n % 10)]
}

/// `YYYY-MM-DD` text of a date.
pub open spec fn date_text(p: DateTimeParts) -> Seq<char> {
    pad4(p.year as int) + seq!['-'] + pad2(p.month as int) + seq!['-'] + pad2(p.day as int)
}

/// `YYYY-MM-DDTHH:MM:SS` text of a date and time, at second precision.
pub open spec fn datetime_text(p: DateTimeParts) -> Seq<char> {
    date_text(p) + seq!['T'] + pad2(p.hour as int) + seq![':'] + pad2(p.minute as int) + seq![':']
        + pad2(p.second as int)
}

fn is_digit_at(v: &Vec<char>, i: usize) -> (r: bool)
    requires
        i < v@.len(),
    ensures
        r == is_ascii_digit(v@[i as int]),
{
    '0' <= v[i] && v[i] <= '9'
}

fn num2_exec(v: &Vec<char>, i: usize) -> (r: u32)
    requires
        i + 1 < v@.len(),
        digits_at(v@, i as int, 2),
    ensures
        r == num2(v@, i as int),
{
    let n = v.len();
    proof {
        assert(is_ascii_digit(v@[i as int]));
        assert(is_ascii_digit(v@[i as int + 1]));
    }
    let a = (v[i] as u32) - ('0' as u32);
    let b = (v[i + 1] as u32) - ('0' as u32);
    a * 10 + b
}

fn num4_exec(v: &Vec<char>, i: usize) -> (r: u32)
    requires
        i + 3 < v@.len(),
        digits_at(v@, i as int, 4),
    ensures
        r == num4(v@, i as int),
{
    let n = v.len();
    proof {
        assert(is_ascii_digit(v@[i as int]));
        assert(is_ascii_digit(v@[i as int + 1]));
        assert(is_ascii_digit(v@[i as int + 2]));
        assert(is_ascii_digit(v@[i as int + 3]));
    }
    let a = (v[i] as u32) - ('0' as u32);
    let b = (v[i + 1] as u32) - ('0' as u32);
    let c = (v[i + 2] as u32) - ('0' as u32);
    let d = (v[i + 3] as u32) - ('0' as u32);
    ((a * 10 + b) * 10 + c) * 10 + d
}

fn days_in_month_exec(y: u32, m: u32) -> (r: u32)
    ensures
        r == days_in_month(y as int, m as int),
{
    if m == 2 {
        if y % 4 == 0 && (y % 100 != 0 || y % 400 == 0) {
            29
        } else {
            28
        }
    } else if m == 4 || m == 6 || m == 9 || m == 11 {
        30
    } else {
        31
    }
}

/// Parse `YYYY-MM-DD` text; `None` exactly when the shape or the
/// calendar rejects it.
pub fn parse_iso_date(s: &str) -> (r: Option<DateTimeParts>)
    ensures
        r == iso_date_of(s@),
{
    let v = chars_of(s);
    if v.len() != 10 {
        return None;
    }
    if !(is_digit_at(&v, 0) && is_digit_at(&v, 1) && is_digit_at(&v, 2) && is_digit_at(&v, 3)
        && v[4] == '-' && is_digit_at(&v, 5) && is_digit_at(&v, 6) && v[7] == '-' && is_digit_at(
        &v,
        8,
    ) && is_digit_at(&v, 9)) {
        return None;
    }
    let y = num4_exec(&v, 0);
    let m = num2_exec(&v, 5);
    let d = num2_exec(&v, 8);
    if !(1 <= m && m <= 12) {
        return None;
    }
    if d < 1 || d > days_in_month_exec(y, m) {
        return None;
    }
    Some(DateTimeParts { year: y, month: m, day: d, hour: 0, minute: 0, second: 0 })
}

/// Parse `YYYY-MM-DDTHH:MM:SS` text (space accepted for `T`); `None`
/// exactly when the shape, the calendar or the clock rejects it.
pub fn parse_iso_datetime(s: &str) -> (r: Option<DateTimeParts>)
    ensures
        r == iso_datetime_of(s@),
{
    let v = chars_of(s);
    if v.len() != 19 {
        return None;
    }
    let ghost t = s@.take(10);
    proof {
        assert(t[0] == s@[0]);
        assert(t[1] == s@[1]);
        assert(t[2] == s@[2]);
        assert(t[3] == s@[3]);
        assert(t[4] == s@[4]);
        assert(t[5] == s@[5]);
        assert(t[6] == s@[6]);
        assert(t[7] == s@[7]);
        assert(t[8] == s@[8]);
        assert(t[9] == s@[9]);
    }
    if !(is_digit_at(&v, 0) && is_digit_at(&v, 1) && is_digit_at(&v, 2) && is_digit_at(&v, 3)
        && v[4] == '-' && is_digit_at(&v, 5) && is_digit_at(&v, 6) && v[7] == '-' && is_digit_at(
        &v,
        8,
    ) && is_digit_at(&v, 9)) {
        proof {
            assert(!iso_date_shape(t));
        }
        return None;
    }
    if !(v[10] == 'T' || v[10] == ' ') {
        return None;
    }
    if !(is_digit_at(&v, 11) && is_digit_at(&v, 12) && v[13] == ':' && is_digit_at(&v, 14)
        && is_digit_at(&v, 15) && v[16] == ':' && is_digit_at(&v, 17) && is_digit_at(&v, 18)) {
        return None;
    }
    proof {
        assert(iso_date_shape(t));
        assert(num4(t, 0) == num4(s@, 0));
        assert(num2(t, 5) == num2(s@, 5));
        assert(num2(t, 8) == num2(s@, 8));
    }
    let y = num4_exec(&v, 0);
    let m = num2_exec(&v, 5);
    let d = num2_exec(&v, 8);
    let h = num2_exec(&v, 11);
    let mi = num2_exec(&v, 14);
    let sec = num2_exec(&v, 17);
    if !(1 <= m && m <= 12) {
        return None;
    }
    if d < 1 || d > days_in_month_exec(y, m) {
        return None;
    }
    if h > 23 || mi > 59 || sec > 59 {
        return None;
    }
    Some(DateTimeParts { year: y, month: m, day: d, hour: h, minute: mi, second: sec })
}

fn push_pad2(out: &mut Vec<char>, n: u32)
    requires
        n <= 99,
    ensures
        final(out)@ == old(out)@ + pad2(n as int),
{
    out.push((('0' as u8) + ((n / 10) as u8)) as char);
    out.push((('0' as u8) + ((n % 10) as u8)) as char);
    proof {
        assert(n as int / 10 % 10 == n as int / 10) by {
            lemma_small_mod(((n as int) / 10) as nat, 10nat);
        }
        assert(out@ =~= old(out)@ + pad2(n as int));
    }
}

fn push_pad4(out: &mut Vec<char>, n: u32)
    requires
        n <= 9999,
    ensures
        final(out)@ == old(out)@ + pad4(n as int),
{
    out.push((('0' as u8) + ((n / 1000) as u8)) as char);
    out.push((('0' as u8) + ((n / 100 % 10) as u8)) as char);
    out.push((('0' as u8) + ((n / 10 % 10) as u8)) as char);
    out.push((('0' as u8) + ((n % 10) as u8)) as char);
    proof {
        assert(n as int / 1000 % 10 == n as int / 1000) by {
            lemma_small_mod(((n as int) / 1000) as nat, 10nat);
        }
        assert(out@ =~= old(out)@ + pad4(n as int));
    }
}

/// `YYYY-MM-DD` text of a valid date.
pub fn format_date(p: &DateTimeParts) -> (r: String)
    requires
        valid_parts(*p),
    ensures
        r@ == date_text(*p),
{
    let mut out: Vec<char> = Vec::new();
    push_pad4(&mut out, p.year);
    out.push('-');
    push_pad2(&mut out, p.month);
    out.push('-');
    push_pad2(&mut out, p.day);
    proof {
        assert(out@ =~= date_text(*p));
    }
    string_of(&out)
}

/// `YYYY-MM-DDTHH:MM:SS` text of a valid date and time.
pub fn format_datetime(p: &DateTimeParts) -> (r: String)
    requires
        valid_parts(*p),
    ensures
        r@ == datetime_text(*p),
{
    let mut out: Vec<char> = Vec::new();
    push_pad4(&mut out, p.year);
    out.push('-');
    push_pad2(&mut out, p.month);
    out.push('-');
    push_pad2(&mut out, p.day);
    out.push('T');
    push_pad2(&mut out, p.hour);
    out.push(':');
    push_pad2(&mut out, p.minute);
    out.push(':');
    push_pad2(&mut out, p.second);
    proof {
        assert(out@ =~= datetime_text(*p));
    }
    string_of(&out)
}

proof fn lemma_num2_pad2(n: int)
    requires
        0 <= n <= 99,
    ensures
        num2(pad2(n), 0) == n,
{
    lemma_fundamental_div_mod(n, 10);
    lemma_small_mod((n / 10) as nat, 10nat);
}

proof fn lemma_num4_pad4(n: int)
    requires
        0 <= n <= 9999,
    ensures
        num4(pad4(n), 0) == n,
{
    lemma_fundamental_div_mod(n, 10);
    lemma_fundamental_div_mod(n / 10, 10);
    lemma_fundamental_div_mod(n / 100, 10);
    lemma_div_denominator(n, 10, 10);
    lemma_div_denominator(n, 100, 10);
    lemma_small_mod((n / 1000) as nat, 10nat);
}

/// A valid date survives formatting and parsing unchanged.
pub proof fn lemma_date_round_trip(p: DateTimeParts)
    requires
        valid_parts(p),
        is_midnight(p),
    ensures
        iso_date_of(date_text(p)) == Some(p),
{
    let s = date_text(p);
    assert(s.len() == 10);
    lemma_num4_pad4(p.year as int);
    lemma_num2_pad2(p.month as int);
    lemma_num2_pad2(p.day as int);
    assert forall|j: int| 0 <= j < 4 implies is_ascii_digit(#[trigger] s[j]) by {
        assert(s[j] == pad4(p.year as int)[j]);
    }
    assert forall|j: int| 5 <= j < 7 implies is_ascii_digit(#[trigger] s[j]) by {
        assert(s[j] == pad2(p.month as int)[j - 5]);
    }
    assert forall|j: int| 8 <= j < 10 implies is_ascii_digit(#[trigger] s[j]) by {
        assert(s[j] == pad2(p.day as int)[j - 8]);
    }
    assert(iso_date_shape(s));
    assert(num4(s, 0) == num4(pad4(p.year as int), 0)) by {
        assert(s[0] == pad4(p.year as int)[0]);
        assert(s[1] == pad4(p.year as int)[1]);
        assert(s[2] == pad4(p.year as int)[2]);
        assert(s[3] == pad4(p.year as int)[3]);
    }
    assert(num2(s, 5) == num2(pad2(p.month as int), 0)) by {
        assert(s[5] == pad2(p.month as int)[0]);
        assert(s[6] == pad2(p.month as int)[1]);
    }
    assert(num2(s, 8) == num2(pad2(p.day as int), 0)) by {
        assert(s[8] == pad2(p.day as int)[0]);
        assert(s[9] == pad2(p.day as int)[1]);
    }
}

/// A valid date and time survives formatting and parsing unchanged.
pub proof fn lemma_datetime_round_trip(p: DateTimeParts)
    requires
        valid_parts(p),
    ensures
        iso_datetime_of(datetime_text(p)) == Some(p),
{
    let s = datetime_text(p);
    let d = date_text(p);
    assert(s.len() == 19);
    assert(d.len() == 10);
    assert(s.take(10) =~= d);
    lemma_num4_pad4(p.year as int);
    lemma_num2_pad2(p.month as int);
    lemma_num2_pad2(p.day as int);
    lemma_num2_pad2(p.hour as int);
    lemma_num2_pad2(p.minute as int);
    lemma_num2_pad2(p.second as int);
    assert forall|j: int| 0 <= j < 4 implies is_ascii_digit(#[trigger] d[j]) by {
        assert(d[j] == pad4(p.year as int)[j]);
    }
    assert forall|j: int| 5 <= j < 7 implies is_ascii_digit(#[trigger] d[j]) by {
        assert(d[j] == pad2(p.month as int)[j - 5]);
    }
    assert forall|j: int| 8 <= j < 10 implies is_ascii_digit(#[trigger] d[j]) by {
        assert(d[j] == pad2(p.day as int)[j - 8]);
    }
    assert(iso_date_shape(d));
    assert forall|j: int| 11 <= j < 13 implies is_ascii_digit(#[trigger] s[j]) by {
        assert(s[j] == pad2(p.hour as int)[j - 11]);
    }
    assert forall|j: int| 14 <= j < 16 implies is_ascii_digit(#[trigger] s[j]) by {
        assert(s[j] == pad2(p.minute as int)[j - 14]);
    }
    assert forall|j: int| 17 <= j < 19 implies is_ascii_digit(#[trigger] s[j]) by {
        assert(s[j] == pad2(p.second as int)[j - 17]);
    }
    assert(s[10] == 'T' && s[13] == ':' && s[16] == ':');
    assert(iso_datetime_shape(s));
    assert(num4(s, 0) == num4(pad4(p.year as int), 0)) by {
        assert(s[0] == pad4(p.year as int)[0]);
        assert(s[1] == pad4(p.year as int)[1]);
        assert(s[2] == pad4(p.year as int)[2]);
        assert(s[3] == pad4(p.year as int)[3]);
    }
    assert(num2(s, 5) == num2(pad2(p.month as int), 0)) by {
        assert(s[5] == pad2(p.month as int)[0]);
        assert(s[6] == pad2(p.month as int)[1]);
    }
    assert(num2(s, 8) == num2(pad2(p.day as int), 0)) by {
        assert(s[8] == pad2(p.day as int)[0]);
        assert(s[9] == pad2(p.day as int)[1]);
    }
    assert(num2(s, 11) == num2(pad2(p.hour as int), 0)) by {
        assert(s[11] == pad2(p.hour as int)[0]);
        assert(s[12] == pad2(p.hour as int)[1]);
    }
    assert(num2(s, 14) == num2(pad2(p.minute as int), 0)) by {
        assert(s[14] == pad2(p.minute as int)[0]);
        assert(s[15] == pad2(p.minute as int)[1]);
    }
    assert(num2(s, 17) == num2(pad2(p.second as int), 0)) by {
        assert(s[17] == pad2(p.second as int)[0]);
        assert(s[18] == pad2(p.second as int)[1]);
    }
}

} // verus!
use vstd::prelude::*;

verus! {

/// A parsed ISO date is always a valid midnight date.
pub proof fn lemma_iso_date_valid(s: Seq<char>)
    ensures
        iso_date_of(s) is Some ==> valid_parts(iso_date_of(s)->Some_0) && is_midnight(
            iso_date_of(s)->Some_0,
        ),
{
}

/// A parsed ISO date-time is always valid.
pub proof fn lemma_iso_datetime_valid(s: Seq<char>)
    ensures
        iso_datetime_of(s) is Some ==> valid_parts(iso_datetime_of(s)->Some_0),
{
}

} // verus!
