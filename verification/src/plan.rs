use vstd::prelude::*;

use crate::book::{CellPayload, CellPayloadV, FormatFields, BorderFields, TablePayload,
    NamedRangePayload, ConditionalFormatPayload, DataValidationPayload, BookError, resolve_range};
use crate::errtok::{trim_of, trim_chars, formula_of_error_token, error_token_to_formula};
use crate::iso::{DateTimeParts, iso_date_of, iso_datetime_of, parse_iso_date, parse_iso_datetime};
use crate::scan::opt_view;
use crate::addr::{quoted_sheet_name, quote_sheet_name, strip_dollar, range_first, range_second,
    a1_ok, a1_row, a1_col};
use crate::text::{chars_of, string_of, str_eq_chars, seq_lower, lower_char};

verus! {

/// The write primitive one staged cell value selects.
pub enum CellOpKind {
    /// A formatted blank.
    Blank,
    /// A string write.
    Str(String),
    /// A number write, value carried as decimal text.
    NumberText(String),
    BoolVal(bool),
    /// A formula write.
    FormulaText(String),
    /// A date write at midnight.
    DateVal(DateTimeParts),
    /// A date-time write.
    DateTimeVal(DateTimeParts),
}

pub enum CellOpKindV {
    Blank,
    Str(Seq<char>),
    NumberText(Seq<char>),
    BoolVal(bool),
    FormulaText(Seq<char>),
    DateVal(DateTimeParts),
    DateTimeVal(DateTimeParts),
}

impl View for CellOpKind {
    type V = CellOpKindV;

    open spec fn view(&self) -> CellOpKindV {
        match self {
            CellOpKind::Blank => CellOpKindV::Blank,
            CellOpKind::Str(s) => CellOpKindV::Str(s@),
            CellOpKind::NumberText(s) => CellOpKindV::NumberText(s@),
            CellOpKind::BoolVal(b) => CellOpKindV::BoolVal(*b),
            CellOpKind::FormulaText(s) => CellOpKindV::FormulaText(s@),
            CellOpKind::DateVal(p) => CellOpKindV::DateVal(*p),
            CellOpKind::DateTimeVal(p) => CellOpKindV::DateTimeVal(*p),
        }
    }
}

/// An OOXML boolean-like text for staged boolean cells.
pub open spec fn bool_text_true(s: Seq<char>) -> bool {
    let t = seq_lower(trim_of(s));
    t == "true"@ || t == "1"@ || t == "t"@ || t == "yes"@ || t == "y"@
}

fn parse_bool_text(s: &str) -> (r: bool)
    ensures
        r == bool_text_true(s@),
{
    let v = chars_of(s);
    let t0 = trim_chars(&v);
    let mut t: Vec<char> = Vec::new();
    let mut i: usize = 0;
    while i < t0.len()
        invariant
            i <= t0@.len(),
            t@ == seq_lower(t0@).take(i as int),
        decreases t0@.len() - i,
    {
        t.push(lower_char(t0[i]));
        proof {
            assert(seq_lower(t0@).take(i + 1 as int) =~= seq_lower(t0@).take(i as int).push(
                seq_lower(t0@)[i as int],
            ));
        }
        i += 1;
    }
    proof {
        assert(seq_lower(t0@).take(t0@.len() as int) =~= seq_lower(t0@));
    }
    str_eq_chars(&t, "true") || str_eq_chars(&t, "1") || str_eq_chars(&t, "t") || str_eq_chars(
        &t,
        "yes",
    ) || str_eq_chars(&t, "y")
}

pub open spec fn opt_or_empty(o: Option<Seq<char>>) -> Seq<char> {
    match o {
        Some(s) => s,
        None => Seq::empty(),
    }
}

/// The write primitive of one staged cell value.
///
/// Blanks, strings, numbers, booleans and formulas map to their own
/// primitives; an error token whose whitelisted originating formula is
/// known is written back as that formula, any other token as a string;
/// a date or date-time value that parses is written as such, one that
/// does not is written as its text; any other declared type is a
/// validation failure.
pub open spec fn cell_op_spec(p: CellPayloadV) -> Option<CellOpKindV> {
    if p.type_str == "blank"@ {
        Some(CellOpKindV::Blank)
    } else if p.type_str == "string"@ {
        Some(CellOpKindV::Str(opt_or_empty(p.value)))
    } else if p.type_str == "number"@ {
        Some(CellOpKindV::NumberText(match p.value {
            Some(v) => v,
            None => "0"@,
        }))
    } else if p.type_str == "boolean"@ {
        Some(CellOpKindV::BoolVal(bool_text_true(opt_or_empty(p.value))))
    } else if p.type_str == "formula"@ {
        Some(CellOpKindV::FormulaText(match p.formula {
            Some(f) => f,
            None => opt_or_empty(p.value),
        }))
    } else if p.type_str == "error"@ {
        let token = opt_or_empty(p.value);
        match formula_of_error_token(token) {
            Some(f) => Some(CellOpKindV::FormulaText(f)),
            None => Some(CellOpKindV::Str(token)),
        }
    } else if p.type_str == "date"@ {
        let t = opt_or_empty(p.value);
        match iso_date_of(t) {
            Some(d) => Some(CellOpKindV::DateVal(d)),
            None => Some(CellOpKindV::Str(t)),
        }
    } else if p.type_str == "datetime"@ {
        let t = opt_or_empty(p.value);
        match iso_datetime_of(t) {
            Some(d) => Some(CellOpKindV::DateTimeVal(d)),
            None => Some(CellOpKindV::Str(t)),
        }
    } else {
        None
    }
}

/// Select the write primitive for one staged cell value.
pub fn cell_op_for(p: &CellPayload) -> (r: Result<CellOpKind, BookError>)
    ensures
        match r {
            Ok(k) => cell_op_spec(p@) == Some(k@),
            Err(e) => cell_op_spec(p@) is None && e == BookError::UnsupportedCellType,
        },
{
    let tv = chars_of(p.type_str.as_str());
    if str_eq_chars(&tv, "blank") {
        Ok(CellOpKind::Blank)
    } else if str_eq_chars(&tv, "string") {
        let s = match &p.value {
            Some(v) => v.clone(),
            None => String::new(),
        };
        proof {
            if p@.value is None {
                assert(opt_or_empty(p@.value) =~= Seq::<char>::empty());
            }
        }
        Ok(CellOpKind::Str(s))
    } else if str_eq_chars(&tv, "number") {
        let s = match &p.value {
            Some(v) => v.clone(),
            None => String::from_str("0"),
        };
        Ok(CellOpKind::NumberText(s))
    } else if str_eq_chars(&tv, "boolean") {
        let s = match &p.value {
            Some(v) => v.clone(),
            None => String::new(),
        };
        proof {
            if p@.value is None {
                assert(opt_or_empty(p@.value) =~= Seq::<char>::empty());
            }
        }
        Ok(CellOpKind::BoolVal(parse_bool_text(s.as_str())))
    } else if str_eq_chars(&tv, "formula") {
        let s = match &p.formula {
            Some(f) => f.clone(),
            None => match &p.value {
                Some(v) => v.clone(),
                None => String::new(),
            },
        };
        proof {
            if p@.formula is None && p@.value is None {
                assert(opt_or_empty(p@.value) =~= Seq::<char>::empty());
            }
        }
        Ok(CellOpKind::FormulaText(s))
    } else if str_eq_chars(&tv, "error") {
        let token = match &p.value {
            Some(v) => v.clone(),
            None => String::new(),
        };
        proof {
            if p@.value is None {
                assert(opt_or_empty(p@.value) =~= Seq::<char>::empty());
            }
        }
        match error_token_to_formula(token.as_str()) {
            Some(f) => Ok(CellOpKind::FormulaText(f)),
            None => Ok(CellOpKind::Str(token)),
        }
    } else if str_eq_chars(&tv, "date") {
        let t = match &p.value {
            Some(v) => v.clone(),
            None => String::new(),
        };
        proof {
            if p@.value is None {
                assert(opt_or_empty(p@.value) =~= Seq::<char>::empty());
            }
        }
        match parse_iso_date(t.as_str()) {
            Some(d) => Ok(CellOpKind::DateVal(d)),
            None => Ok(CellOpKind::Str(t)),
        }
    } else if str_eq_chars(&tv, "datetime") {
        let t = match &p.value {
            Some(v) => v.clone(),
            None => String::new(),
        };
        proof {
            if p@.value is None {
                assert(opt_or_empty(p@.value) =~= Seq::<char>::empty());
            }
        }
        match parse_iso_datetime(t.as_str()) {
            Some(d) => Ok(CellOpKind::DateTimeVal(d)),
            None => Ok(CellOpKind::Str(t)),
        }
    } else {
        Err(BookError::UnsupportedCellType)
    }
}

/// The number format a staged cell writes with: an explicit format
/// wins; otherwise a date or date-time value falls back to a fixed
/// pattern.
pub open spec fn effective_num_format(
    type_str: Seq<char>,
    user: Option<Seq<char>>,
) -> Option<Seq<char>> {
    match user {
        Some(f) => Some(f),
        None => if type_str == "date"@ {
            Some("yyyy-mm-dd"@)
        } else if type_str == "datetime"@ {
            Some("yyyy-mm-dd hh:mm:ss"@)
        } else {
            None
        },
    }
}

pub fn num_format_for(type_str: &str, user: Option<&String>) -> (r: Option<String>)
    ensures
        opt_view(r) == effective_num_format(type_str@, match user {
            Some(u) => Some(u@),
            None => None,
        }),
{
    match user {
        Some(u) => Some(u.clone()),
        None => {
            let tv = chars_of(type_str);
            if str_eq_chars(&tv, "date") {
                Some(String::from_str("yyyy-mm-dd"))
            } else if str_eq_chars(&tv, "datetime") {
                Some(String::from_str("yyyy-mm-dd hh:mm:ss"))
            } else {
                None
            }
        },
    }
}

/// What a staged split setting does at save: offsets clamp at zero, an
/// all-zero split is a no-op, and a real split writes an equivalent
/// freeze record and queues a post-save patch.
pub open spec fn split_plan_spec(x: int, y: int) -> Result<Option<(int, int, int, int)>, BookError> {
    let xc = if x <= 0 {
        0
    } else {
        x
    };
    let yc = if y <= 0 {
        0
    } else {
        y
    };
    if xc > u16::MAX {
        Err(BookError::ColumnOutOfRange)
    } else if yc > u32::MAX {
        Err(BookError::RowOutOfRange)
    } else if xc == 0 && yc == 0 {
        Ok(None)
    } else {
        Ok(Some((yc, xc, xc, yc)))
    }
}

/// Plan one staged split: `Ok(Some((freeze_row, freeze_col, patch_x,
/// patch_y)))`, `Ok(None)` for an all-zero split.
pub fn split_plan_for(x_split: i64, y_split: i64) -> (r: Result<
    Option<(u32, u16, u32, u32)>,
    BookError,
>)
    ensures
        match r {
            Ok(Some(t)) => split_plan_spec(x_split as int, y_split as int) == Ok::<
                Option<(int, int, int, int)>,
                BookError,
            >(Some((t.0 as int, t.1 as int, t.2 as int, t.3 as int))),
            Ok(None) => split_plan_spec(x_split as int, y_split as int) == Ok::<
                Option<(int, int, int, int)>,
                BookError,
            >(None),
            Err(e) => split_plan_spec(x_split as int, y_split as int) == Err::<
                Option<(int, int, int, int)>,
                BookError,
            >(e),
        },
{
    let xc: i64 = if x_split <= 0 {
        0
    } else {
        x_split
    };
    let yc: i64 = if y_split <= 0 {
        0
    } else {
        y_split
    };
    if xc > 0xFFFFi64 {
        return Err(BookError::ColumnOutOfRange);
    }
    if yc > 0xFFFF_FFFFi64 {
        return Err(BookError::RowOutOfRange);
    }
    if xc == 0 && yc == 0 {
        return Ok(None);
    }
    Ok(Some((yc as u32, xc as u16, xc as u32, yc as u32)))
}

/// A planned table registration.
pub struct TableOp {
    pub first_row: u32,
    pub first_col: u16,
    /// The last row handed to the writer library: one row more than the
    /// staged range for a header-only table, to satisfy the library's
    /// two-row minimum.
    pub last_row_for_add: u32,
    pub last_col: u16,
}

/// Plan one staged table: the registration coordinates and, for a
/// header-only table, the post-save patch that restores the single-row
/// reference (table name, staged reference text).
pub fn table_op_for(t: &TablePayload) -> (r: Result<(TableOp, Option<(String, String)>), BookError>)
    ensures
        ({
            let rng = strip_dollar(t.ref_range@);
            let a = range_first(rng);
            let b = range_second(rng);
            match r {
                Ok((op, patch)) => {
                    &&& a1_ok(a) && a1_ok(b)
                    &&& op.first_row == vstd::math::min(a1_row(a), a1_row(b))
                    &&& op.first_col == vstd::math::min(a1_col(a), a1_col(b))
                    &&& op.last_col == vstd::math::max(a1_col(a), a1_col(b))
                    &&& {
                        let r1 = vstd::math::min(a1_row(a), a1_row(b));
                        let r2 = vstd::math::max(a1_row(a), a1_row(b));
                        if t.header_row && r1 == r2 {
                            op.last_row_for_add == r2 + 1 && (patch matches Some(p) && p.0@
                                == t.name@ && p.1@ == t.ref_range@)
                        } else {
                            op.last_row_for_add == r2 && patch is None
                        }
                    }
                },
                Err(BookError::BadAddress(_)) => !(a1_ok(a) && a1_ok(b)),
                Err(BookError::ColumnOutOfRange) => a1_ok(a) && a1_ok(b) && vstd::math::max(
                    a1_col(a),
                    a1_col(b),
                ) > u16::MAX,
                Err(BookError::RowOutOfRange) => a1_ok(a) && a1_ok(b) && vstd::math::max(
                    a1_col(a),
                    a1_col(b),
                ) <= u16::MAX && t.header_row && vstd::math::min(a1_row(a), a1_row(b))
                    == vstd::math::max(a1_row(a), a1_row(b)) && vstd::math::max(
                    a1_row(a),
                    a1_row(b),
                ) == u32::MAX,
                Err(_) => false,
            }
        }),
{
    let (r1, c1, r2, c2) = match resolve_range(t.ref_range.as_str()) {
        Ok(x) => x,
        Err(e) => {
            return Err(e);
        },
    };
    if t.header_row && r1 == r2 {
        if r2 == 0xFFFF_FFFFu32 {
            return Err(BookError::RowOutOfRange);
        }
        let patch = Some((t.name.clone(), t.ref_range.clone()));
        Ok((TableOp { first_row: r1, first_col: c1, last_row_for_add: r2 + 1, last_col: c2 }, patch))
    } else {
        Ok((TableOp { first_row: r1, first_col: c1, last_row_for_add: r2, last_col: c2 }, None))
    }
}

/// The registered name and reference of a staged defined name: a
/// sheet-scoped name is prefixed with its quoted sheet and `!`, and a
/// reference not starting with `=` (after leading whitespace) gets one.
pub open spec fn named_range_name_spec(nr: &NamedRangePayload) -> Seq<char> {
    if nr.scope@ == "sheet"@ && nr.sheet is Some {
        quoted_sheet_name(nr.sheet->Some_0@) + seq!['!'] + nr.name@
    } else {
        nr.name@
    }
}

pub open spec fn named_range_refers_spec(nr: &NamedRangePayload) -> Seq<char> {
    let t = crate::errtok::trim_of(nr.refers_to@);
    if t.len() > 0 && t[0] == '=' {
        nr.refers_to@
    } else {
        seq!['='] + nr.refers_to@
    }
}

/// Plan one staged defined name.
pub fn named_range_entry(nr: &NamedRangePayload) -> (r: (String, String))
    ensures
        r.0@ == named_range_name_spec(nr),
        r.1@ == named_range_refers_spec(nr),
{
    let sv = chars_of(nr.scope.as_str());
    let name: String = if str_eq_chars(&sv, "sheet") {
        match &nr.sheet {
            Some(sn) => {
                let q = quote_sheet_name(sn.as_str());
                let mut w = chars_of(q.as_str());
                w.push('!');
                let nv = chars_of(nr.name.as_str());
                let mut k: usize = 0;
                let ghost base = w@;
                proof {
                    assert(base =~= quoted_sheet_name(nr.sheet->Some_0@) + seq!['!']);
                }
                while k < nv.len()
                    invariant
                        k <= nv@.len(),
                        nv@ == nr.name@,
                        w@ == base + nr.name@.take(k as int),
                    decreases nv@.len() - k,
                {
                    w.push(nv[k]);
                    proof {
                        assert(base + nr.name@.take(k + 1 as int) =~= (base + nr.name@.take(
                            k as int,
                        )).push(nr.name@[k as int]));
                    }
                    k += 1;
                }
                proof {
                    assert(nr.name@.take(nr.name@.len() as int) =~= nr.name@);
                    assert(base + nr.name@.take(0) =~= base);
                }
                string_of(&w)
            },
            None => nr.name.clone(),
        }
    } else {
        nr.name.clone()
    };
    let rv = chars_of(nr.refers_to.as_str());
    let t = trim_chars(&rv);
    let refers: String = if t.len() > 0 && t[0] == '=' {
        nr.refers_to.clone()
    } else {
        let mut w: Vec<char> = Vec::new();
        w.push('=');
        let mut k: usize = 0;
        proof {
            assert(w@ =~= seq!['='] + nr.refers_to@.take(0));
        }
        while k < rv.len()
            invariant
                k <= rv@.len(),
                rv@ == nr.refers_to@,
                w@ == seq!['='] + nr.refers_to@.take(k as int),
            decreases rv@.len() - k,
        {
            w.push(rv[k]);
            proof {
                assert(seq!['='] + nr.refers_to@.take(k + 1 as int) =~= (seq![
                    '=',
                ] + nr.refers_to@.take(k as int)).push(nr.refers_to@[k as int]));
            }
            k += 1;
        }
        proof {
            assert(nr.refers_to@.take(nr.refers_to@.len() as int) =~= nr.refers_to@);
        }
        string_of(&w)
    };
    (name, refers)
}

/// A color carried as its 24-bit value; an unparsable color text falls
/// back to black.
pub open spec fn hex_color_of(s: Seq<char>) -> int {
    hex_mag(
        if s.len() > 0 && s[0] == '#' {
            s.skip(1)
        } else {
            s
        },
    )
}

/// Value of a bare hex digit run of one to eight digits, zero for any
/// other text.
pub open spec fn hex_mag(t: Seq<char>) -> int {
    if t.len() >= 1 && t.len() <= 8 && (forall|i: int|
        0 <= i < t.len() ==> is_hex_digit(#[trigger] t[i])) {
        hex_val(t)
    } else {
        0
    }
}

pub open spec fn is_hex_digit(c: char) -> bool {
    ('0' <= c && c <= '9') || ('a' <= c && c <= 'f') || ('A' <= c && c <= 'F')
}

pub open spec fn hex_digit_val(c: char) -> int {
    if '0' <= c && c <= '9' {
        c as int - '0' as int
    } else if 'a' <= c && c <= 'f' {
        c as int - 'a' as int + 10
    } else {
        c as int - 'A' as int + 10
    }
}

pub open spec fn hex_val(s: Seq<char>) -> int
    decreases s.len(),
{
    if s.len() == 0 {
        0
    } else {
        hex_val(s.drop_last()) * 16 + hex_digit_val(s.last())
    }
}

pub open spec fn pow16(k: int) -> int
    decreases k,
{
    if k <= 0 {
        1
    } else {
        16 * pow16(k - 1)
    }
}

/// Parse a `#RRGGBB` color into its numeric value, black on failure.
pub fn parse_hex_color(hex: &str) -> (r: u32)
    ensures
        r == hex_color_of(hex@),
{
    let v = chars_of(hex);
    let start: usize = if v.len() > 0 && v[0] == '#' {
        1
    } else {
        0
    };
    let ghost t = if hex@.len() > 0 && hex@[0] == '#' {
        hex@.skip(1)
    } else {
        hex@
    };
    proof {
        assert(t =~= v@.skip(start as int));
    }
    let n = v.len();
    if n - start < 1 || n - start > 8 {
        return 0;
    }
    let mut x: u64 = 0;
    let mut i: usize = start;
    proof {
        assert(t.take(0) =~= Seq::<char>::empty());
        reveal_with_fuel(hex_val, 2);
        reveal_with_fuel(pow16, 9);
        assert(pow16(0) == 1);
    }
    while i < n
        invariant
            start <= i <= n,
            n == v@.len(),
            v@ == hex@,
            t == v@.skip(start as int),
            t == (if hex@.len() > 0 && hex@[0] == '#' {
                hex@.skip(1)
            } else {
                hex@
            }),
            1 <= n - start <= 8,
            forall|j: int| start <= j < i ==> is_hex_digit(#[trigger] v@[j]),
            x == hex_val(t.take(i - start)),
            0 <= x < pow16(i - start),
            pow16(i - start) <= 0x1_0000_0000,
        decreases n - i,
    {
        let c = v[i];
        let d: u32 = if '0' <= c && c <= '9' {
            (c as u32) - ('0' as u32)
        } else if 'a' <= c && c <= 'f' {
            (c as u32) - ('a' as u32) + 10
        } else if 'A' <= c && c <= 'F' {
            (c as u32) - ('A' as u32) + 10
        } else {
            proof {
                assert(t[i - start] == v@[i as int]);
                assert(c == v@[i as int]);
                assert(!('0' <= c && c <= '9'));
                assert(!('a' <= c && c <= 'f'));
                assert(!('A' <= c && c <= 'F'));
                assert(!is_hex_digit(c));
                assert(!is_hex_digit(t[i - start]));
                assert(hex_color_of(hex@) == hex_mag(t));
                assert(hex_mag(t) == 0) by {
                    if forall|j: int| 0 <= j < t.len() ==> is_hex_digit(#[trigger] t[j]) {
                        assert(is_hex_digit(t[i - start]));
                    }
                }
            }
            return 0;
        };
        proof {
            reveal_with_fuel(hex_val, 2);
            reveal_with_fuel(pow16, 9);
            assert(t.take(i - start + 1).drop_last() =~= t.take(i - start));
            assert(t.take(i - start + 1).last() == t[i - start]);
            assert(t[i - start] == v@[i as int]);
            assert(pow16(i - start + 1) == 16 * pow16(i - start));
            assert(i - start + 1 <= 8);
            assert(pow16(8) == 0x1_0000_0000);
            lemma_pow16_mono(i - start + 1, 8);
        }
        x = x * 16 + (d as u64);
        i += 1;
    }
    proof {
        assert(t.take(n - start) =~= t);
        assert(hex_color_of(hex@) == hex_mag(t));
        assert(hex_mag(t) == hex_val(t));
    }
    x as u32
}

proof fn lemma_pow16_mono(a: int, b: int)
    requires
        0 <= a <= b,
    ensures
        pow16(a) <= pow16(b),
    decreases b - a,
{
    if a < b {
        lemma_pow16_mono(a, b - 1);
        assert(pow16(b) == 16 * pow16(b - 1));
        assert(pow16(b - 1) >= 1) by {
            lemma_pow16_pos(b - 1);
        }
    }
}

proof fn lemma_pow16_pos(k: int)
    ensures
        pow16(k) >= 1,
    decreases k,
{
    if k > 0 {
        lemma_pow16_pos(k - 1);
    }
}

} // verus!
use vstd::prelude::*;

verus! {

/// Border style tokens of the writer library.
#[derive(Clone, Copy, Debug, PartialEq, Eq, Structural)]
pub enum BorderStyleTok {
    NoBorder,
    Thin,
    Medium,
    Thick,
    Double,
    Hair,
    Dashed,
    Dotted,
    MediumDashed,
    DashDot,
    MediumDashDot,
    DashDotDot,
    MediumDashDotDot,
    SlantDashDot,
}

/// The border style a staged token selects; unknown tokens fall back to
/// thin, an empty or `none` token to no border.
pub open spec fn border_style_spec(s: Seq<char>) -> BorderStyleTok {
    let t = seq_lower(s);
    if t == "thin"@ {
        BorderStyleTok::Thin
    } else if t == "medium"@ {
        BorderStyleTok::Medium
    } else if t == "thick"@ {
        BorderStyleTok::Thick
    } else if t == "double"@ {
        BorderStyleTok::Double
    } else if t == "dashed"@ {
        BorderStyleTok::Dashed
    } else if t == "dotted"@ {
        BorderStyleTok::Dotted
    } else if t == "hair"@ {
        BorderStyleTok::Hair
    } else if t == "mediumdashed"@ {
        BorderStyleTok::MediumDashed
    } else if t == "dashdot"@ {
        BorderStyleTok::DashDot
    } else if t == "mediumdashdot"@ {
        BorderStyleTok::MediumDashDot
    } else if t == "dashdotdot"@ {
        BorderStyleTok::DashDotDot
    } else if t == "mediumdashdotdot"@ {
        BorderStyleTok::MediumDashDotDot
    } else if t == "slantdashdot"@ {
        BorderStyleTok::SlantDashDot
    } else if t == "none"@ || t.len() == 0 {
        BorderStyleTok::NoBorder
    } else {
        BorderStyleTok::Thin
    }
}

fn lower_of(s: &str) -> (r: Vec<char>)
    ensures
        r@ == seq_lower(s@),
{
    let v = chars_of(s);
    let mut out: Vec<char> = Vec::new();
    let mut i: usize = 0;
    while i < v.len()
        invariant
            i <= v@.len(),
            v@ == s@,
            out@ == seq_lower(s@).take(i as int),
        decreases v@.len() - i,
    {
        out.push(lower_char(v[i]));
        proof {
            assert(seq_lower(s@).take(i + 1 as int) =~= seq_lower(s@).take(i as int).push(
                seq_lower(s@)[i as int],
            ));
        }
        i += 1;
    }
    proof {
        assert(seq_lower(s@).take(s@.len() as int) =~= seq_lower(s@));
    }
    out
}

pub fn map_border_style(s: &str) -> (r: BorderStyleTok)
    ensures
        r == border_style_spec(s@),
{
    let t = lower_of(s);
    if str_eq_chars(&t, "thin") {
        BorderStyleTok::Thin
    } else if str_eq_chars(&t, "medium") {
        BorderStyleTok::Medium
    } else if str_eq_chars(&t, "thick") {
        BorderStyleTok::Thick
    } else if str_eq_chars(&t, "double") {
        BorderStyleTok::Double
    } else if str_eq_chars(&t, "dashed") {
        BorderStyleTok::Dashed
    } else if str_eq_chars(&t, "dotted") {
        BorderStyleTok::Dotted
    } else if str_eq_chars(&t, "hair") {
        BorderStyleTok::Hair
    } else if str_eq_chars(&t, "mediumdashed") {
        BorderStyleTok::MediumDashed
    } else if str_eq_chars(&t, "dashdot") {
        BorderStyleTok::DashDot
    } else if str_eq_chars(&t, "mediumdashdot") {
        BorderStyleTok::MediumDashDot
    } else if str_eq_chars(&t, "dashdotdot") {
        BorderStyleTok::DashDotDot
    } else if str_eq_chars(&t, "mediumdashdotdot") {
        BorderStyleTok::MediumDashDotDot
    } else if str_eq_chars(&t, "slantdashdot") {
        BorderStyleTok::SlantDashDot
    } else if str_eq_chars(&t, "none") || t.len() == 0 {
        BorderStyleTok::NoBorder
    } else {
        BorderStyleTok::Thin
    }
}

/// Alignment tokens of the writer library.
#[derive(Clone, Copy, Debug, PartialEq, Eq, Structural)]
pub enum AlignTok {
    Left,
    Center,
    Right,
    Fill,
    Justify,
    CenterAcross,
    Top,
    VerticalCenter,
    Bottom,
    VerticalJustify,
    VerticalDistributed,
}

/// Horizontal alignment of a staged token; unknown tokens fall back to
/// left.
pub open spec fn h_align_spec(s: Seq<char>) -> AlignTok {
    let t = seq_lower(s);
    if t == "left"@ {
        AlignTok::Left
    } else if t == "center"@ || t == "centre"@ {
        AlignTok::Center
    } else if t == "right"@ {
        AlignTok::Right
    } else if t == "fill"@ {
        AlignTok::Fill
    } else if t == "justify"@ {
        AlignTok::Justify
    } else if t == "distributed"@ || t == "centercontinuous"@ {
        AlignTok::CenterAcross
    } else {
        AlignTok::Left
    }
}

pub fn map_h_align(s: &str) -> (r: AlignTok)
    ensures
        r == h_align_spec(s@),
{
    let t = lower_of(s);
    if str_eq_chars(&t, "left") {
        AlignTok::Left
    } else if str_eq_chars(&t, "center") || str_eq_chars(&t, "centre") {
        AlignTok::Center
    } else if str_eq_chars(&t, "right") {
        AlignTok::Right
    } else if str_eq_chars(&t, "fill") {
        AlignTok::Fill
    } else if str_eq_chars(&t, "justify") {
        AlignTok::Justify
    } else if str_eq_chars(&t, "distributed") || str_eq_chars(&t, "centercontinuous") {
        AlignTok::CenterAcross
    } else {
        AlignTok::Left
    }
}

/// Vertical alignment of a staged token; unknown tokens fall back to
/// bottom.
pub open spec fn v_align_spec(s: Seq<char>) -> AlignTok {
    let t = seq_lower(s);
    if t == "top"@ {
        AlignTok::Top
    } else if t == "center"@ || t == "centre"@ {
        AlignTok::VerticalCenter
    } else if t == "bottom"@ {
        AlignTok::Bottom
    } else if t == "justify"@ {
        AlignTok::VerticalJustify
    } else if t == "distributed"@ {
        AlignTok::VerticalDistributed
    } else {
        AlignTok::Bottom
    }
}

pub fn map_v_align(s: &str) -> (r: AlignTok)
    ensures
        r == v_align_spec(s@),
{
    let t = lower_of(s);
    if str_eq_chars(&t, "top") {
        AlignTok::Top
    } else if str_eq_chars(&t, "center") || str_eq_chars(&t, "centre") {
        AlignTok::VerticalCenter
    } else if str_eq_chars(&t, "bottom") {
        AlignTok::Bottom
    } else if str_eq_chars(&t, "justify") {
        AlignTok::VerticalJustify
    } else if str_eq_chars(&t, "distributed") {
        AlignTok::VerticalDistributed
    } else {
        AlignTok::Bottom
    }
}

#[derive(Clone, Copy, Debug, PartialEq, Eq, Structural)]
pub enum UnderlineTok {
    Single,
    Double,
    SingleAccounting,
    DoubleAccounting,
}

/// Underline of a staged token; unknown tokens fall back to single.
pub open spec fn underline_spec(s: Seq<char>) -> UnderlineTok {
    let t = seq_lower(s);
    if t == "double"@ {
        UnderlineTok::Double
    } else if t == "singleaccounting"@ {
        UnderlineTok::SingleAccounting
    } else if t == "doubleaccounting"@ {
        UnderlineTok::DoubleAccounting
    } else {
        UnderlineTok::Single
    }
}

pub fn map_underline(s: &str) -> (r: UnderlineTok)
    ensures
        r == underline_spec(s@),
{
    let t = lower_of(s);
    if str_eq_chars(&t, "double") {
        UnderlineTok::Double
    } else if str_eq_chars(&t, "singleaccounting") {
        UnderlineTok::SingleAccounting
    } else if str_eq_chars(&t, "doubleaccounting") {
        UnderlineTok::DoubleAccounting
    } else {
        UnderlineTok::Single
    }
}

#[derive(Clone, Copy, Debug, PartialEq, Eq, Structural)]
pub enum TableStyleTok {
    NoStyle,
    Medium9,
    Medium2,
    Light1,
}

/// The table style a staged name selects: the known styles by their
/// token with an optional `TableStyle` prefix, nothing for an absent or
/// empty name, and the default medium style for anything else.
pub open spec fn table_style_spec(name: Option<Seq<char>>) -> TableStyleTok {
    match name {
        Some(s) => {
            let raw = trim_of(s);
            if raw.len() == 0 {
                TableStyleTok::NoStyle
            } else {
                let tok = if crate::scan::starts_with(raw, "TableStyle"@) {
                    raw.skip(10)
                } else {
                    raw
                };
                if tok == "Medium9"@ {
                    TableStyleTok::Medium9
                } else if tok == "Medium2"@ {
                    TableStyleTok::Medium2
                } else if tok == "Light1"@ {
                    TableStyleTok::Light1
                } else {
                    TableStyleTok::Medium9
                }
            }
        },
        None => TableStyleTok::NoStyle,
    }
}

pub fn map_table_style(name: Option<&String>) -> (r: TableStyleTok)
    ensures
        r == table_style_spec(match name {
            Some(s) => Some(s@),
            None => None,
        }),
{
    match name {
        Some(s) => {
            let sv = chars_of(s.as_str());
            let raw = trim_chars(&sv);
            if raw.len() == 0 {
                return TableStyleTok::NoStyle;
            }
            let pv = chars_of("TableStyle");
            proof {
                reveal_strlit("TableStyle");
                assert(pv@.len() == 10);
            }
            let tok: Vec<char> = if raw.len() >= pv.len() && {
                let mut eq = true;
                let mut k: usize = 0;
                while k < pv.len()
                    invariant
                        k <= pv@.len() <= raw@.len(),
                        pv@ == "TableStyle"@,
                        eq == (forall|j: int| 0 <= j < k ==> raw@[j] == pv@[j]),
                    decreases pv@.len() - k,
                {
                    if raw[k] != pv[k] {
                        eq = false;
                    }
                    k += 1;
                }
                proof {
                    if eq {
                        assert(raw@.take(pv@.len() as int) =~= pv@);
                    } else {
                        if crate::scan::starts_with(raw@, "TableStyle"@) {
                            assert(forall|j: int|
                                0 <= j < pv@.len() ==> raw@[j] == raw@.take(pv@.len() as int)[j]);
                        }
                    }
                }
                eq
            } {
                let w = crate::xml::subvec(&raw, 10, raw.len());
                proof {
                    reveal_strlit("TableStyle");
                    assert(w@ =~= raw@.skip(10));
                }
                w
            } else {
                raw
            };
            if str_eq_chars(&tok, "Medium9") {
                TableStyleTok::Medium9
            } else if str_eq_chars(&tok, "Medium2") {
                TableStyleTok::Medium2
            } else if str_eq_chars(&tok, "Light1") {
                TableStyleTok::Light1
            } else {
                TableStyleTok::Medium9
            }
        },
        None => TableStyleTok::NoStyle,
    }
}

} // verus!
use vstd::prelude::*;

verus! {

/// A signed decimal within the 32-bit range.
pub open spec fn int32_of(s: Seq<char>) -> Option<int> {
    if s.len() >= 1 && s[0] == '-' {
        match crate::scan::dec_u32_of(s.skip(1)) {
            Some(m) => if -m >= i32::MIN {
                Some(-m)
            } else {
                None
            },
            None => None,
        }
    } else {
        match crate::scan::dec_u32_of(s) {
            Some(m) => if m <= i32::MAX {
                Some(m)
            } else {
                None
            },
            None => None,
        }
    }
}

pub fn parse_i32_dec(s: &str) -> (r: Option<i32>)
    ensures
        match r {
            Some(x) => int32_of(s@) == Some(x as int),
            None => int32_of(s@) is None,
        },
{
    let v = chars_of(s);
    if v.len() >= 1 && v[0] == '-' {
        let rest = crate::xml::subvec(&v, 1, v.len());
        let rest_s = string_of(&rest);
        proof {
            assert(rest@ =~= s@.skip(1));
        }
        match crate::scan::parse_u32_dec(rest_s.as_str()) {
            Some(m) => if m <= 0x8000_0000u32 {
                Some((-(m as i64)) as i32)
            } else {
                None
            },
            None => None,
        }
    } else {
        match crate::scan::parse_u32_dec(s) {
            Some(m) => if m <= 0x7FFF_FFFFu32 {
                Some(m as i32)
            } else {
                None
            },
            None => None,
        }
    }
}

/// A planned cell-comparison rule.
#[derive(Clone, Copy, Debug, PartialEq, Eq, Structural)]
pub enum CfCellRule {
    GreaterThan(i32),
    GreaterThanOrEqualTo(i32),
    LessThan(i32),
    LessThanOrEqualTo(i32),
    EqualTo(i32),
    NotEqualTo(i32),
}

/// The comparison rule an operator token and a numeric text select.
pub open spec fn cf_cell_rule_spec(op: Seq<char>, value: int) -> Option<CfCellRule> {
    let t = seq_lower(op);
    if t == "greaterthan"@ {
        Some(CfCellRule::GreaterThan(value as i32))
    } else if t == "greaterthanorequal"@ || t == "greaterthanorequalto"@ {
        Some(CfCellRule::GreaterThanOrEqualTo(value as i32))
    } else if t == "lessthan"@ {
        Some(CfCellRule::LessThan(value as i32))
    } else if t == "lessthanorequal"@ || t == "lessthanorequalto"@ {
        Some(CfCellRule::LessThanOrEqualTo(value as i32))
    } else if t == "equal"@ || t == "equalto"@ {
        Some(CfCellRule::EqualTo(value as i32))
    } else if t == "notequal"@ || t == "notequalto"@ {
        Some(CfCellRule::NotEqualTo(value as i32))
    } else {
        None
    }
}

/// Map a staged cell-comparison: the numeric text (the staged formula
/// with leading `=` markers stripped and trimmed) must parse, and the
/// operator must be one of the six comparison tokens; each failure is a
/// validation error.
pub fn map_cf_cell_rule(operator: &str, value_str: &str) -> (r: Result<CfCellRule, BookError>)
    ensures
        ({
            let t = trim_of(value_str@);
            match r {
                Ok(rule) => int32_of(t) is Some && cf_cell_rule_spec(operator@, int32_of(t)->Some_0)
                    == Some(rule),
                Err(BookError::BadNumber) => int32_of(t) is None,
                Err(BookError::UnsupportedRule) => int32_of(t) is Some && cf_cell_rule_spec(
                    operator@,
                    int32_of(t)->Some_0,
                ) is None,
                Err(_) => false,
            }
        }),
{
    let vv = chars_of(value_str);
    let tv = trim_chars(&vv);
    let ts = string_of(&tv);
    let value = match parse_i32_dec(ts.as_str()) {
        Some(x) => x,
        None => {
            return Err(BookError::BadNumber);
        },
    };
    let t = lower_of(operator);
    if str_eq_chars(&t, "greaterthan") {
        Ok(CfCellRule::GreaterThan(value))
    } else if str_eq_chars(&t, "greaterthanorequal") || str_eq_chars(&t, "greaterthanorequalto") {
        Ok(CfCellRule::GreaterThanOrEqualTo(value))
    } else if str_eq_chars(&t, "lessthan") {
        Ok(CfCellRule::LessThan(value))
    } else if str_eq_chars(&t, "lessthanorequal") || str_eq_chars(&t, "lessthanorequalto") {
        Ok(CfCellRule::LessThanOrEqualTo(value))
    } else if str_eq_chars(&t, "equal") || str_eq_chars(&t, "equalto") {
        Ok(CfCellRule::EqualTo(value))
    } else if str_eq_chars(&t, "notequal") || str_eq_chars(&t, "notequalto") {
        Ok(CfCellRule::NotEqualTo(value))
    } else {
        Err(BookError::UnsupportedRule)
    }
}

/// Map a staged whole-number between rule; both bounds must parse.
pub fn map_dv_rule_between(formula1: &str, formula2: &str) -> (r: Result<(i32, i32), BookError>)
    ensures
        ({
            let a = int32_of(trim_of(formula1@));
            let b = int32_of(trim_of(formula2@));
            match r {
                Ok(p) => a == Some(p.0 as int) && b == Some(p.1 as int),
                Err(BookError::BadNumber) => a is None || b is None,
                Err(_) => false,
            }
        }),
{
    let v1 = chars_of(formula1);
    let t1 = string_of(&trim_chars(&v1));
    let v2 = chars_of(formula2);
    let t2 = string_of(&trim_chars(&v2));
    match (parse_i32_dec(t1.as_str()), parse_i32_dec(t2.as_str())) {
        (Some(a), Some(b)) => Ok((a, b)),
        _ => Err(BookError::BadNumber),
    }
}

/// `s` without every leading `=`.
pub fn strip_eq_prefix(s: &str) -> (r: String)
    ensures
        r@ == crate::scan::strip_leading_eq(s@),
{
    let v = chars_of(s);
    let mut a: usize = 0;
    proof {
        assert(v@.skip(0) =~= v@);
    }
    while a < v.len() && v[a] == '='
        invariant
            a <= v@.len(),
            v@ == s@,
            crate::scan::strip_leading_eq(s@) == crate::scan::strip_leading_eq(s@.skip(a as int)),
        decreases v@.len() - a,
    {
        proof {
            assert(s@.skip(a as int)[0] == s@[a as int]);
            assert(s@.skip(a as int).skip(1) =~= s@.skip(a + 1));
        }
        a += 1;
    }
    proof {
        if a < v@.len() {
            assert(s@.skip(a as int)[0] == s@[a as int]);
        }
        assert(crate::scan::strip_leading_eq(s@.skip(a as int)) == s@.skip(a as int));
    }
    let w = crate::xml::subvec(&v, a, v.len());
    proof {
        assert(w@ =~= s@.skip(a as int));
    }
    string_of(&w)
}

/// The comma-separated pieces of `s`, in order.
pub open spec fn comma_pieces(s: Seq<char>) -> Seq<Seq<char>>
    decreases s.len(),
{
    if s.len() == 0 {
        seq![Seq::<char>::empty()]
    } else if s.last() == ',' {
        comma_pieces(s.drop_last()).push(Seq::empty())
    } else {
        let prev = comma_pieces(s.drop_last());
        prev.update(prev.len() - 1, prev.last().push(s.last()))
    }
}

proof fn lemma_comma_pieces_nonempty(s: Seq<char>)
    ensures
        comma_pieces(s).len() >= 1,
    decreases s.len(),
{
    if s.len() > 0 {
        lemma_comma_pieces_nonempty(s.drop_last());
    }
}

/// Split `s` on commas.
pub fn split_commas(s: &str) -> (r: Vec<String>)
    ensures
        r@.map_values(|p: String| p@) == comma_pieces(s@),
{
    let v = chars_of(s);
    let mut out: Vec<String> = Vec::new();
    let mut piece: Vec<char> = Vec::new();
    let mut i: usize = 0;
    proof {
        assert(comma_pieces(s@.take(0)) =~= seq![Seq::<char>::empty()]);
    }
    while i < v.len()
        invariant
            i <= v@.len(),
            v@ == s@,
            out@.map_values(|p: String| p@).push(piece@) == comma_pieces(s@.take(i as int)),
        decreases v@.len() - i,
    {
        proof {
            assert(s@.take(i + 1 as int).drop_last() =~= s@.take(i as int));
            assert(s@.take(i + 1 as int).last() == s@[i as int]);
            lemma_comma_pieces_nonempty(s@.take(i as int));
        }
        if v[i] == ',' {
            out.push(string_of(&piece));
            piece = Vec::new();
            proof {
                assert(out@.map_values(|p: String| p@).push(piece@) =~= comma_pieces(
                    s@.take(i + 1 as int),
                ));
            }
        } else {
            piece.push(v[i]);
            proof {
                let prev = comma_pieces(s@.take(i as int));
                assert(out@.map_values(|p: String| p@).push(piece@) =~= prev.update(
                    prev.len() - 1,
                    prev.last().push(s@[i as int]),
                ));
            }
        }
        i += 1;
    }
    out.push(string_of(&piece));
    proof {
        assert(s@.take(s@.len() as int) =~= s@);
        assert(out@.map_values(|p: String| p@) =~= comma_pieces(s@));
    }
    out
}

/// A planned data-validation rule.
pub enum DvRule {
    /// No constraint the writer library can express; registered bare.
    Nothing,
    /// A list of literal choices.
    ListStrings(Vec<String>),
    /// A list sourced from a formula.
    ListFormula(String),
    /// A custom formula.
    Custom(String),
    /// A whole number between two bounds.
    WholeBetween(i32, i32),
}

pub enum DvRuleV {
    Nothing,
    ListStrings(Seq<Seq<char>>),
    ListFormula(Seq<char>),
    Custom(Seq<char>),
    WholeBetween(int, int),
}

impl View for DvRule {
    type V = DvRuleV;

    open spec fn view(&self) -> DvRuleV {
        match self {
            DvRule::Nothing => DvRuleV::Nothing,
            DvRule::ListStrings(items) => DvRuleV::ListStrings(
                items@.map_values(|s: String| s@),
            ),
            DvRule::ListFormula(f) => DvRuleV::ListFormula(f@),
            DvRule::Custom(f) => DvRuleV::Custom(f@),
            DvRule::WholeBetween(a, b) => DvRuleV::WholeBetween(*a as int, *b as int),
        }
    }
}

/// The rule a staged data validation plans: a quoted literal list
/// splits on commas, any other list source stays a formula; `custom`
/// carries its formula; `whole` with the default `between` operator
/// takes two parsed bounds, failing on an unparsable bound; everything
/// else registers without a constraint.
pub open spec fn dv_rule_spec(
    vtype: Seq<char>,
    operator: Option<Seq<char>>,
    f1: Option<Seq<char>>,
    f2: Option<Seq<char>>,
) -> Result<DvRuleV, BookError> {
    let t = seq_lower(vtype);
    if t == "list"@ {
        match f1 {
            Some(f) => {
                let tr = trim_of(f);
                if tr.len() >= 2 && tr[0] == '"' && tr.last() == '"' {
                    Ok(DvRuleV::ListStrings(comma_pieces(tr.subrange(1, tr.len() - 1))))
                } else {
                    Ok(DvRuleV::ListFormula(tr))
                }
            },
            None => Ok(DvRuleV::Nothing),
        }
    } else if t == "custom"@ {
        match f1 {
            Some(f) => Ok(DvRuleV::Custom(f)),
            None => Ok(DvRuleV::Nothing),
        }
    } else if t == "whole"@ {
        let op = match operator {
            Some(o) => o,
            None => "between"@,
        };
        if op == "between"@ {
            match (f1, f2) {
                (Some(a), Some(b)) => {
                    let av = int32_of(trim_of(crate::scan::strip_leading_eq(a)));
                    let bv = int32_of(trim_of(crate::scan::strip_leading_eq(b)));
                    match (av, bv) {
                        (Some(x), Some(y)) => Ok(DvRuleV::WholeBetween(x, y)),
                        _ => Err(BookError::BadNumber),
                    }
                },
                _ => Ok(DvRuleV::Nothing),
            }
        } else {
            Ok(DvRuleV::Nothing)
        }
    } else {
        Ok(DvRuleV::Nothing)
    }
}

/// Plan one staged data validation; see `dv_rule_spec`.
pub fn dv_rule_for(dv: &DataValidationPayload) -> (r: Result<DvRule, BookError>)
    ensures
        ({
            let want = dv_rule_spec(
                dv.validation_type@,
                crate::scan::opt_view(dv.operator),
                crate::scan::opt_view(dv.formula1),
                crate::scan::opt_view(dv.formula2),
            );
            match r {
                Ok(rule) => want == Ok::<DvRuleV, BookError>(rule@),
                Err(e) => want == Err::<DvRuleV, BookError>(e),
            }
        }),
{
    let tv = lower_of(dv.validation_type.as_str());
    if str_eq_chars(&tv, "list") {
        match &dv.formula1 {
            Some(f1) => {
                let fv = chars_of(f1.as_str());
                let t = trim_chars(&fv);
                if t.len() >= 2 && t[0] == '"' && t[t.len() - 1] == '"' {
                    let inner = crate::xml::subvec(&t, 1, t.len() - 1);
                    let inner_s = string_of(&inner);
                    Ok(DvRule::ListStrings(split_commas(inner_s.as_str())))
                } else {
                    Ok(DvRule::ListFormula(string_of(&t)))
                }
            },
            None => Ok(DvRule::Nothing),
        }
    } else if str_eq_chars(&tv, "custom") {
        match &dv.formula1 {
            Some(f1) => Ok(DvRule::Custom(f1.clone())),
            None => Ok(DvRule::Nothing),
        }
    } else if str_eq_chars(&tv, "whole") {
        let op: String = match &dv.operator {
            Some(o) => o.clone(),
            None => String::from_str("between"),
        };
        let ov = chars_of(op.as_str());
        if str_eq_chars(&ov, "between") {
            match (&dv.formula1, &dv.formula2) {
                (Some(f1), Some(f2)) => {
                    let a = strip_eq_prefix(f1.as_str());
                    let b = strip_eq_prefix(f2.as_str());
                    match map_dv_rule_between(a.as_str(), b.as_str()) {
                        Ok((x, y)) => Ok(DvRule::WholeBetween(x, y)),
                        Err(e) => Err(e),
                    }
                },
                _ => Ok(DvRule::Nothing),
            }
        } else {
            Ok(DvRule::Nothing)
        }
    } else {
        Ok(DvRule::Nothing)
    }
}

} // verus!
use vstd::prelude::*;

verus! {

/// A planned conditional format.
pub enum CfOp {
    /// A cell-comparison rule.
    Cell { rule: CfCellRule, bg_color: Option<u32>, stop_if_true: bool },
    /// A boolean-expression rule, formula normalized to a leading `=`.
    Expr { formula: String, bg_color: Option<u32>, stop_if_true: bool },
    /// A data bar with default settings.
    DataBar,
    /// A three-color scale with default settings.
    ColorScale3,
}

/// Plan one staged conditional format: the four known rule types map to
/// their nearest writer primitives; an incomplete payload (a comparison
/// without an operator or formula, an expression without a formula) and
/// any other rule type are skipped, not fatal; only an unparsable
/// comparison value or operator is a validation failure.
pub fn cf_op_for(cf: &ConditionalFormatPayload) -> (r: Result<Option<CfOp>, BookError>)
    ensures
        ({
            let t = cf.rule_type@;
            &&& (t != "cellIs"@ && t != "expression"@ && t != "dataBar"@ && t != "colorScale"@
                ==> (r matches Ok(o) && o is None))
            &&& (t == "dataBar"@ ==> (r matches Ok(o) && (o matches Some(op) && op is DataBar)))
            &&& (t == "colorScale"@ ==> (r matches Ok(o) && (o matches Some(op)
                && op is ColorScale3)))
            &&& (t == "expression"@ && cf.formula is None ==> (r matches Ok(o) && o is None))
            &&& ((t == "expression"@ && cf.formula is Some) ==> (r matches Ok(o) && (
            o matches Some(op) && (op matches CfOp::Expr { formula, bg_color, stop_if_true }
                && formula@ == crate::cell::formula_text_of(cf.formula->Some_0@)
                && stop_if_true == cf.stop_if_true && bg_color == (match cf.bg_color {
                Some(c) => Some(hex_color_of(c@) as u32),
                None => None::<u32>,
            })))))
            &&& (t == "cellIs"@ && (cf.operator is None || cf.formula is None) ==> (r matches Ok(
                o,
            ) && o is None))
            &&& ((t == "cellIs"@ && cf.operator is Some && cf.formula is Some) ==> ({
                let vtext = trim_of(crate::scan::strip_leading_eq(cf.formula->Some_0@));
                let bg = match cf.bg_color {
                    Some(c) => Some(hex_color_of(c@) as u32),
                    None => None::<u32>,
                };
                match int32_of(vtext) {
                    Some(v) => match cf_cell_rule_spec(cf.operator->Some_0@, v) {
                        Some(rule2) => r matches Ok(o) && (o matches Some(op) && (
                        op matches CfOp::Cell { rule, bg_color, stop_if_true } && rule == rule2
                            && bg_color == bg && stop_if_true == cf.stop_if_true)),
                        None => r == Err::<Option<CfOp>, BookError>(BookError::UnsupportedRule),
                    },
                    None => r == Err::<Option<CfOp>, BookError>(BookError::BadNumber),
                }
            }))
            &&& (r is Err ==> t == "cellIs"@ && cf.operator is Some && cf.formula is Some)
        }),
{
    proof {
        reveal_strlit("cellIs");
        reveal_strlit("expression");
        reveal_strlit("dataBar");
        reveal_strlit("colorScale");
        assert("cellIs"@.len() == 6);
        assert("expression"@.len() == 10);
        assert("dataBar"@.len() == 7);
        assert("colorScale"@.len() == 10);
        assert("expression"@ != "colorScale"@) by {
            assert("expression"@[0] == 'e');
            assert("colorScale"@[0] == 'c');
        }
    }
    let tv = chars_of(cf.rule_type.as_str());
    if str_eq_chars(&tv, "cellIs") {
        let (op, formula) = match (&cf.operator, &cf.formula) {
            (Some(o), Some(f)) => (o, f),
            _ => {
                return Ok(None);
            },
        };
        let value_str = strip_eq_prefix(formula.as_str());
        let rule = match map_cf_cell_rule(op.as_str(), value_str.as_str()) {
            Ok(x) => x,
            Err(e) => {
                return Err(e);
            },
        };
        let bg = match &cf.bg_color {
            Some(c) => Some(parse_hex_color(c.as_str())),
            None => None,
        };
        Ok(Some(CfOp::Cell { rule, bg_color: bg, stop_if_true: cf.stop_if_true }))
    } else if str_eq_chars(&tv, "expression") {
        let formula = match &cf.formula {
            Some(f) => f,
            None => {
                return Ok(None);
            },
        };
        let fv = chars_of(formula.as_str());
        let mut w: Vec<char> = Vec::new();
        let nf: String = if fv.len() > 0 && fv[0] == '=' {
            formula.clone()
        } else {
            w.push('=');
            let mut k: usize = 0;
            proof {
                assert(w@ =~= seq!['='] + formula@.take(0));
            }
            while k < fv.len()
                invariant
                    k <= fv@.len(),
                    fv@ == formula@,
                    w@ == seq!['='] + formula@.take(k as int),
                decreases fv@.len() - k,
            {
                w.push(fv[k]);
                proof {
                    assert(seq!['='] + formula@.take(k + 1 as int) =~= (seq![
                        '=',
                    ] + formula@.take(k as int)).push(formula@[k as int]));
                }
                k += 1;
            }
            proof {
                assert(formula@.take(formula@.len() as int) =~= formula@);
            }
            string_of(&w)
        };
        let bg = match &cf.bg_color {
            Some(c) => Some(parse_hex_color(c.as_str())),
            None => None,
        };
        Ok(Some(CfOp::Expr { formula: nf, bg_color: bg, stop_if_true: cf.stop_if_true }))
    } else if str_eq_chars(&tv, "dataBar") {
        Ok(Some(CfOp::DataBar))
    } else if str_eq_chars(&tv, "colorScale") {
        Ok(Some(CfOp::ColorScale3))
    } else {
        Ok(None)
    }
}

} // verus!
use vstd::prelude::*;

verus! {

/// Whether a staged validation switches the writer's ignore-blank off:
/// only when blanks were explicitly disallowed; a missing flag keeps
/// the default of ignoring blanks.
pub fn dv_ignore_blank_off(allow_blank: Option<bool>) -> (r: bool)
    ensures
        r == (allow_blank == Some(false)),
{
    match allow_blank {
        Some(b) => !b,
        None => false,
    }
}

} // verus!
use vstd::prelude::*;

verus! {

/// One planned border edge: its mapped style token and parsed color.
#[derive(Clone, Copy, Debug, PartialEq, Eq, Structural)]
pub struct EdgePlan {
    pub style: BorderStyleTok,
    pub color: Option<u32>,
}

/// Which diagonal edges a cell draws.
#[derive(Clone, Copy, Debug, PartialEq, Eq, Structural)]
pub enum DiagKind {
    Up,
    Down,
    UpDown,
}

/// The fully decided format of one staged cell: every token mapped,
/// every color parsed, the number-format default applied. The shell
/// only copies these fields onto the writer library's setters.
pub struct EffectiveFormat {
    pub bold: bool,
    pub italic: bool,
    pub underline: Option<UnderlineTok>,
    pub strikethrough: bool,
    pub font_name: Option<String>,
    pub font_size_e8: Option<u64>,
    pub font_color: Option<u32>,
    pub bg_color: Option<u32>,
    pub num_format: Option<String>,
    pub h_align: Option<AlignTok>,
    pub v_align: Option<AlignTok>,
    pub wrap: bool,
    pub rotation: Option<i16>,
    pub indent: Option<u8>,
    pub top: Option<EdgePlan>,
    pub bottom: Option<EdgePlan>,
    pub left: Option<EdgePlan>,
    pub right: Option<EdgePlan>,
    /// The diagonal style and color, taken from the down edge when both
    /// diagonals are staged, and the kind of diagonal to draw.
    pub diagonal: Option<(BorderStyleTok, Option<u32>, DiagKind)>,
}

/// The planned edge of one staged style/color pair.
pub open spec fn edge_plan_spec(
    style: Option<Seq<char>>,
    color: Option<Seq<char>>,
) -> Option<EdgePlan> {
    match style {
        Some(st) => Some(
            EdgePlan {
                style: border_style_spec(st),
                color: match color {
                    Some(c) => Some(hex_color_of(c) as u32),
                    None => None,
                },
            },
        ),
        None => None,
    }
}

fn edge_plan_for(style: &Option<String>, color: &Option<String>) -> (r: Option<EdgePlan>)
    ensures
        r == edge_plan_spec(opt_view(*style), opt_view(*color)),
{
    match style {
        Some(st) => Some(
            EdgePlan {
                style: map_border_style(st.as_str()),
                color: match color {
                    Some(c) => Some(parse_hex_color(c.as_str())),
                    None => None,
                },
            },
        ),
        None => None,
    }
}

/// Decide the full format of one staged cell: each staged field mapped
/// to its writer token or parsed color; an explicit number format wins
/// over the date/date-time defaults; a rotation outside the writer's
/// sixteen-bit range is a fatal validation failure; an indent outside
/// the byte range is dropped silently; the diagonal takes its style and
/// color from the down edge when both diagonals are staged.
pub fn effective_format(
    type_str: &str,
    fmt: Option<&FormatFields>,
    bdr: Option<&BorderFields>,
) -> (r: Result<EffectiveFormat, BookError>)
    ensures
        match r {
            Ok(e) => {
                &&& e.bold == (match fmt {
                    Some(f) => f.bold == Some(true),
                    None => false,
                })
                &&& e.italic == (match fmt {
                    Some(f) => f.italic == Some(true),
                    None => false,
                })
                &&& e.underline == (match fmt {
                    Some(f) => match f.underline {
                        Some(u) => Some(underline_spec(u@)),
                        None => None,
                    },
                    None => None,
                })
                &&& e.strikethrough == (match fmt {
                    Some(f) => f.strikethrough == Some(true),
                    None => false,
                })
                &&& opt_view(e.font_name) == (match fmt {
                    Some(f) => opt_view(f.font_name),
                    None => None,
                })
                &&& e.font_size_e8 == (match fmt {
                    Some(f) => f.font_size_e8,
                    None => None,
                })
                &&& e.font_color == (match fmt {
                    Some(f) => match f.font_color {
                        Some(c) => Some(hex_color_of(c@) as u32),
                        None => None,
                    },
                    None => None,
                })
                &&& e.bg_color == (match fmt {
                    Some(f) => match f.bg_color {
                        Some(c) => Some(hex_color_of(c@) as u32),
                        None => None,
                    },
                    None => None,
                })
                &&& opt_view(e.num_format) == effective_num_format(type_str@, match fmt {
                    Some(f) => opt_view(f.number_format),
                    None => None,
                })
                &&& e.h_align == (match fmt {
                    Some(f) => match f.h_align {
                        Some(a) => Some(h_align_spec(a@)),
                        None => None,
                    },
                    None => None,
                })
                &&& e.v_align == (match fmt {
                    Some(f) => match f.v_align {
                        Some(a) => Some(v_align_spec(a@)),
                        None => None,
                    },
                    None => None,
                })
                &&& e.wrap == (match fmt {
                    Some(f) => f.wrap == Some(true),
                    None => false,
                })
                &&& e.rotation == (match fmt {
                    Some(f) => match f.rotation {
                        Some(d) => Some(d as i16),
                        None => None,
                    },
                    None => None,
                })
                &&& (match fmt {
                    Some(f) => match f.rotation {
                        Some(d) => i16::MIN <= d <= i16::MAX,
                        None => true,
                    },
                    None => true,
                })
                &&& e.indent == (match fmt {
                    Some(f) => match f.indent {
                        Some(x) => if 0 <= x <= 255 {
                            Some(x as u8)
                        } else {
                            None
                        },
                        None => None,
                    },
                    None => None,
                })
                &&& e.top == (match bdr {
                    Some(b) => edge_plan_spec(opt_view(b.top_style), opt_view(b.top_color)),
                    None => None,
                })
                &&& e.bottom == (match bdr {
                    Some(b) => edge_plan_spec(opt_view(b.bottom_style), opt_view(b.bottom_color)),
                    None => None,
                })
                &&& e.left == (match bdr {
                    Some(b) => edge_plan_spec(opt_view(b.left_style), opt_view(b.left_color)),
                    None => None,
                })
                &&& e.right == (match bdr {
                    Some(b) => edge_plan_spec(opt_view(b.right_style), opt_view(b.right_color)),
                    None => None,
                })
                &&& e.diagonal == (match bdr {
                    Some(b) => {
                        let has_up = b.diagonal_up_style is Some;
                        let has_down = b.diagonal_down_style is Some;
                        if has_down {
                            Some(
                                (
                                    border_style_spec(b.diagonal_down_style->Some_0@),
                                    match b.diagonal_down_color {
                                        Some(c) => Some(hex_color_of(c@) as u32),
                                        None => None,
                                    },
                                    if has_up {
                                        DiagKind::UpDown
                                    } else {
                                        DiagKind::Down
                                    },
                                ),
                            )
                        } else if has_up {
                            Some(
                                (
                                    border_style_spec(b.diagonal_up_style->Some_0@),
                                    match b.diagonal_up_color {
                                        Some(c) => Some(hex_color_of(c@) as u32),
                                        None => None,
                                    },
                                    DiagKind::Up,
                                ),
                            )
                        } else {
                            None
                        }
                    },
                    None => None,
                })
            },
            Err(BookError::RotationOutOfRange) => match fmt {
                Some(f) => match f.rotation {
                    Some(d) => d < i16::MIN || d > i16::MAX,
                    None => false,
                },
                None => false,
            },
            Err(_) => false,
        },
{
    let rotation: Option<i16> = match fmt {
        Some(f) => match f.rotation {
            Some(d) => {
                if d < -32768 || d > 32767 {
                    return Err(BookError::RotationOutOfRange);
                }
                Some(d as i16)
            },
            None => None,
        },
        None => None,
    };
    let indent: Option<u8> = match fmt {
        Some(f) => match f.indent {
            Some(x) => if 0 <= x && x <= 255 {
                Some(x as u8)
            } else {
                None
            },
            None => None,
        },
        None => None,
    };
    let num_format = num_format_for(type_str, match fmt {
        Some(f) => f.number_format.as_ref(),
        None => None,
    });
    let (top, bottom, left, right, diagonal) = match bdr {
        Some(b) => {
            let diagonal = if b.diagonal_down_style.is_some() {
                let kind = if b.diagonal_up_style.is_some() {
                    DiagKind::UpDown
                } else {
                    DiagKind::Down
                };
                match &b.diagonal_down_style {
                    Some(st) => Some(
                        (
                            map_border_style(st.as_str()),
                            match &b.diagonal_down_color {
                                Some(c) => Some(parse_hex_color(c.as_str())),
                                None => None,
                            },
                            kind,
                        ),
                    ),
                    None => None,
                }
            } else if b.diagonal_up_style.is_some() {
                match &b.diagonal_up_style {
                    Some(st) => Some(
                        (
                            map_border_style(st.as_str()),
                            match &b.diagonal_up_color {
                                Some(c) => Some(parse_hex_color(c.as_str())),
                                None => None,
                            },
                            DiagKind::Up,
                        ),
                    ),
                    None => None,
                }
            } else {
                None
            };
            (
                edge_plan_for(&b.top_style, &b.top_color),
                edge_plan_for(&b.bottom_style, &b.bottom_color),
                edge_plan_for(&b.left_style, &b.left_color),
                edge_plan_for(&b.right_style, &b.right_color),
                diagonal,
            )
        },
        None => (None, None, None, None, None),
    };
    match fmt {
        Some(f) => Ok(
            EffectiveFormat {
                bold: f.bold == Some(true),
                italic: f.italic == Some(true),
                underline: match &f.underline {
                    Some(u) => Some(map_underline(u.as_str())),
                    None => None,
                },
                strikethrough: f.strikethrough == Some(true),
                font_name: crate::book::opt_clone_pub(&f.font_name),
                font_size_e8: f.font_size_e8,
                font_color: match &f.font_color {
                    Some(c) => Some(parse_hex_color(c.as_str())),
                    None => None,
                },
                bg_color: match &f.bg_color {
                    Some(c) => Some(parse_hex_color(c.as_str())),
                    None => None,
                },
                num_format,
                h_align: match &f.h_align {
                    Some(a) => Some(map_h_align(a.as_str())),
                    None => None,
                },
                v_align: match &f.v_align {
                    Some(a) => Some(map_v_align(a.as_str())),
                    None => None,
                },
                wrap: f.wrap == Some(true),
                rotation,
                indent,
                top,
                bottom,
                left,
                right,
                diagonal,
            },
        ),
        None => Ok(
            EffectiveFormat {
                bold: false,
                italic: false,
                underline: None,
                strikethrough: false,
                font_name: None,
                font_size_e8: None,
                font_color: None,
                bg_color: None,
                num_format,
                h_align: None,
                v_align: None,
                wrap: false,
                rotation: None,
                indent: None,
                top,
                bottom,
                left,
                right,
                diagonal,
            },
        ),
    }
}

} // verus!
