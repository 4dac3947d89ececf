use vstd::prelude::*;

use crate::errtok::{canon_error_token, error_token_of_formula, normalize_error_token,
    map_error_formula};
use crate::iso::{DateTimeParts, valid_parts, is_midnight, date_text, datetime_text, iso_date_of,
    iso_datetime_of, format_date, format_datetime, parse_iso_date, parse_iso_datetime};
use crate::text::{chars_of, string_of};

verus! {

/// A decoded raw cell value as the value oracle hands it over: already
/// freed of the oracle's own types, numbers as their decimal text.
pub enum RawData {
    /// No stored value.
    Empty,
    /// Plain text, rich text flattened, or an ISO duration.
    Text(String),
    /// A numeric value, as its decimal text.
    Number(String),
    /// A date-time serial number: calendar parts when convertible, and
    /// in any case its numeric text.
    Serial(Option<DateTimeParts>, String),
    Bool(bool),
    /// A cell stored as ISO-8601 text.
    Iso(String),
    /// An error spelling as the decoder prints it.
    ErrorCode(String),
}

pub enum RawDataV {
    Empty,
    Text(Seq<char>),
    Number(Seq<char>),
    Serial(Option<DateTimeParts>, Seq<char>),
    Bool(bool),
    Iso(Seq<char>),
    ErrorCode(Seq<char>),
}

impl View for RawData {
    type V = RawDataV;

    open spec fn view(&self) -> RawDataV {
        match self {
            RawData::Empty => RawDataV::Empty,
            RawData::Text(s) => RawDataV::Text(s@),
            RawData::Number(s) => RawDataV::Number(s@),
            RawData::Serial(p, s) => RawDataV::Serial(*p, s@),
            RawData::Bool(b) => RawDataV::Bool(*b),
            RawData::Iso(s) => RawDataV::Iso(s@),
            RawData::ErrorCode(s) => RawDataV::ErrorCode(s@),
        }
    }
}

/// A neutral cell value: the external schema of both engines.
pub enum CellValue {
    Blank,
    Text(String),
    Number(String),
    Boolean(bool),
    /// `YYYY-MM-DD`
    Date(String),
    /// `YYYY-MM-DDTHH:MM:SS`, second precision
    DateTime(String),
    /// Formula text, normalized to a leading `=`.
    Formula(String),
    /// One of the canonical error tokens.
    Error(String),
}

pub enum CellValueV {
    Blank,
    Text(Seq<char>),
    Number(Seq<char>),
    Boolean(bool),
    Date(Seq<char>),
    DateTime(Seq<char>),
    Formula(Seq<char>),
    Error(Seq<char>),
}

impl View for CellValue {
    type V = CellValueV;

    open spec fn view(&self) -> CellValueV {
        match self {
            CellValue::Blank => CellValueV::Blank,
            CellValue::Text(s) => CellValueV::Text(s@),
            CellValue::Number(s) => CellValueV::Number(s@),
            CellValue::Boolean(b) => CellValueV::Boolean(*b),
            CellValue::Date(s) => CellValueV::Date(s@),
            CellValue::DateTime(s) => CellValueV::DateTime(s@),
            CellValue::Formula(s) => CellValueV::Formula(s@),
            CellValue::Error(s) => CellValueV::Error(s@),
        }
    }
}

/// `s` with every trailing `Z` removed.
pub open spec fn strip_trailing_z(s: Seq<char>) -> Seq<char>
    decreases s.len(),
{
    if s.len() == 0 {
        s
    } else if s.last() == 'Z' {
        strip_trailing_z(s.drop_last())
    } else {
        s
    }
}

/// The neutral value of a decoded raw value: numbers stay numbers, a
/// serial at exactly midnight becomes a date, any other serial a
/// date-time, ISO text follows the same rule and falls back to the raw
/// text when it does not parse, and error spellings normalize to
/// canonical tokens.
pub open spec fn classify_raw(r: RawDataV) -> CellValueV {
    match r {
        RawDataV::Empty => CellValueV::Blank,
        RawDataV::Text(s) => CellValueV::Text(s),
        RawDataV::Number(t) => CellValueV::Number(t),
        RawDataV::Bool(b) => CellValueV::Boolean(b),
        RawDataV::Serial(op, t) => match op {
            Some(p) => if valid_parts(p) {
                if is_midnight(p) {
                    CellValueV::Date(date_text(p))
                } else {
                    CellValueV::DateTime(datetime_text(p))
                }
            } else {
                CellValueV::Number(t)
            },
            None => CellValueV::Number(t),
        },
        RawDataV::Iso(s) => {
            let raw = strip_trailing_z(s);
            match iso_date_of(raw) {
                Some(p) => CellValueV::Date(date_text(p)),
                None => match iso_datetime_of(raw) {
                    Some(p) => if is_midnight(p) {
                        CellValueV::Date(date_text(p))
                    } else {
                        CellValueV::DateTime(datetime_text(p))
                    },
                    None => CellValueV::Text(s),
                },
            }
        },
        RawDataV::ErrorCode(e) => CellValueV::Error(canon_error_token(e)),
    }
}

/// Formula text normalized to a leading `=`.
pub open spec fn formula_text_of(f: Seq<char>) -> Seq<char> {
    if f.len() > 0 && f[0] == '=' {
        f
    } else {
        seq!['='] + f
    }
}

/// The value a formula cell shows: the mapped error token for one of the
/// three whitelisted formulas, else the normalized formula text itself.
pub open spec fn cell_of_formula(f: Seq<char>) -> CellValueV {
    let ft = formula_text_of(f);
    match error_token_of_formula(ft) {
        Some(t) => CellValueV::Error(t),
        None => CellValueV::Formula(ft),
    }
}

/// The per-cell read rule of the bulk readers: a recorded formula wins,
/// then the decoded raw value, then blank.
pub open spec fn cell_value_spec(formula: Option<Seq<char>>, raw: Option<RawDataV>) -> CellValueV {
    match formula {
        Some(f) => cell_of_formula(f),
        None => match raw {
            Some(r) => classify_raw(r),
            None => CellValueV::Blank,
        },
    }
}

/// The per-cell read rule of the single-cell reader, which answers blank
/// for a cell without a stored value before consulting the formula map.
pub open spec fn cell_value_single_spec(
    formula: Option<Seq<char>>,
    raw: Option<RawDataV>,
) -> CellValueV {
    match raw {
        Some(r) => cell_value_spec(formula, Some(r)),
        None => CellValueV::Blank,
    }
}

fn valid_parts_exec(p: &DateTimeParts) -> (r: bool)
    ensures
        r == valid_parts(*p),
{
    let dm = if p.month == 2 {
        if p.year % 4 == 0 && (p.year % 100 != 0 || p.year % 400 == 0) {
            29u32
        } else {
            28u32
        }
    } else if p.month == 4 || p.month == 6 || p.month == 9 || p.month == 11 {
        30u32
    } else {
        31u32
    };
    p.year <= 9999 && 1 <= p.month && p.month <= 12 && 1 <= p.day && p.day <= dm && p.hour <= 23
        && p.minute <= 59 && p.second <= 59
}

fn strip_trailing_z_exec(s: &String) -> (r: Vec<char>)
    ensures
        r@ == strip_trailing_z(s@),
{
    let v = chars_of(s.as_str());
    let mut b = v.len();
    proof {
        assert(s@.take(v@.len() as int) =~= s@);
    }
    while b > 0 && v[b - 1] == 'Z'
        invariant
            b <= v@.len(),
            v@ == s@,
            strip_trailing_z(s@) == strip_trailing_z(s@.take(b as int)),
        decreases b,
    {
        proof {
            assert(s@.take(b as int).last() == s@[b - 1]);
            assert(s@.take(b as int).drop_last() =~= s@.take(b - 1));
        }
        b -= 1;
    }
    let mut out: Vec<char> = Vec::new();
    let mut i: usize = 0;
    while i < b
        invariant
            i <= b <= v@.len(),
            v@ == s@,
            out@ == s@.take(b as int).take(i as int),
        decreases b - i,
    {
        proof {
            assert(s@.take(b as int).take(i + 1 as int) =~= s@.take(b as int).take(i as int).push(
                s@[i as int],
            ));
        }
        out.push(v[i]);
        i += 1;
    }
    proof {
        assert(out@ =~= s@.take(b as int));
        if b > 0 {
            assert(!(s@.take(b as int).last() == 'Z'));
        }
        assert(strip_trailing_z(s@.take(b as int)) == s@.take(b as int));
    }
    out
}

/// Classify one decoded raw value into its neutral cell value.
pub fn classify_raw_data(r: &RawData) -> (out: CellValue)
    ensures
        out@ == classify_raw(r@),
{
    match r {
        RawData::Empty => CellValue::Blank,
        RawData::Text(s) => CellValue::Text(s.clone()),
        RawData::Number(t) => CellValue::Number(t.clone()),
        RawData::Bool(b) => CellValue::Boolean(*b),
        RawData::Serial(op, t) => match op {
            Some(p) => {
                if valid_parts_exec(p) {
                    if p.hour == 0 && p.minute == 0 && p.second == 0 {
                        CellValue::Date(format_date(p))
                    } else {
                        CellValue::DateTime(format_datetime(p))
                    }
                } else {
                    CellValue::Number(t.clone())
                }
            },
            None => CellValue::Number(t.clone()),
        },
        RawData::Iso(s) => {
            let raw = strip_trailing_z_exec(s);
            let raw_s = string_of(&raw);
            match parse_iso_date(raw_s.as_str()) {
                Some(p) => {
                    proof {
                        crate::iso::lemma_iso_date_valid(raw_s@);
                    }
                    CellValue::Date(format_date(&p))
                },
                None => match parse_iso_datetime(raw_s.as_str()) {
                    Some(p) => {
                        proof {
                            crate::iso::lemma_iso_datetime_valid(raw_s@);
                        }
                        if p.hour == 0 && p.minute == 0 && p.second == 0 {
                            CellValue::Date(format_date(&p))
                        } else {
                            CellValue::DateTime(format_datetime(&p))
                        }
                    },
                    None => CellValue::Text(s.clone()),
                },
            }
        },
        RawData::ErrorCode(e) => CellValue::Error(normalize_error_token(e.as_str())),
    }
}

/// The bulk per-cell read rule; see `cell_value_spec`.
pub fn cell_value_of(formula: Option<&String>, raw: Option<&RawData>) -> (out: CellValue)
    ensures
        out@ == cell_value_spec(
            match formula {
                Some(f) => Some(f@),
                None => None,
            },
            match raw {
                Some(r) => Some(r@),
                None => None,
            },
        ),
{
    match formula {
        Some(f) => formula_cell_value(f),
        None => match raw {
            Some(r) => classify_raw_data(r),
            None => CellValue::Blank,
        },
    }
}

/// The single-cell read rule; see `cell_value_single_spec`.
pub fn cell_value_single(formula: Option<&String>, raw: Option<&RawData>) -> (out: CellValue)
    ensures
        out@ == cell_value_single_spec(
            match formula {
                Some(f) => Some(f@),
                None => None,
            },
            match raw {
                Some(r) => Some(r@),
                None => None,
            },
        ),
{
    match raw {
        Some(_) => cell_value_of(formula, raw),
        None => CellValue::Blank,
    }
}

/// Normalize recorded formula text and map it to its cell value.
pub fn formula_cell_value(f: &String) -> (out: CellValue)
    ensures
        out@ == cell_of_formula(f@),
{
    let v = chars_of(f.as_str());
    let ft: String = if v.len() > 0 && v[0] == '=' {
        f.clone()
    } else {
        let mut w: Vec<char> = Vec::new();
        w.push('=');
        let mut i: usize = 0;
        while i < v.len()
            invariant
                i <= v@.len(),
                v@ == f@,
                w@ == seq!['='] + f@.take(i as int),
            decreases v@.len() - i,
        {
            proof {
                assert(seq!['='] + f@.take(i + 1 as int) =~= (seq!['='] + f@.take(i as int)).push(
                    f@[i as int],
                ));
            }
            w.push(v[i]);
            i += 1;
        }
        proof {
            assert(f@.take(f@.len() as int) =~= f@);
        }
        string_of(&w)
    };
    proof {
        assert(ft@ == formula_text_of(f@));
    }
    match map_error_formula(ft.as_str()) {
        Some(t) => CellValue::Error(t),
        None => CellValue::Formula(ft),
    }
}

} // verus!
use vstd::prelude::*;

verus! {

/// A native-shaped cell value, as the plain bulk reader hands it out:
/// no type wrapper, formulas as their text, whitelisted error formulas
/// as their token, dates and date-times as calendar parts.
pub enum PlainValue {
    Null,
    Text(String),
    Number(String),
    Bool(bool),
    Date(DateTimeParts),
    DateTime(DateTimeParts),
}

pub enum PlainValueV {
    Null,
    Text(Seq<char>),
    Number(Seq<char>),
    Bool(bool),
    Date(DateTimeParts),
    DateTime(DateTimeParts),
}

impl View for PlainValue {
    type V = PlainValueV;

    open spec fn view(&self) -> PlainValueV {
        match self {
            PlainValue::Null => PlainValueV::Null,
            PlainValue::Text(s) => PlainValueV::Text(s@),
            PlainValue::Number(s) => PlainValueV::Number(s@),
            PlainValue::Bool(b) => PlainValueV::Bool(*b),
            PlainValue::Date(p) => PlainValueV::Date(*p),
            PlainValue::DateTime(p) => PlainValueV::DateTime(*p),
        }
    }
}

/// The native-shaped value of a raw decoded value.
pub open spec fn plain_of_raw(r: RawDataV) -> PlainValueV {
    match r {
        RawDataV::Empty => PlainValueV::Null,
        RawDataV::Text(s) => PlainValueV::Text(s),
        RawDataV::Number(t) => PlainValueV::Number(t),
        RawDataV::Bool(b) => PlainValueV::Bool(b),
        RawDataV::Serial(op, t) => match op {
            Some(p) => if valid_parts(p) {
                if is_midnight(p) {
                    PlainValueV::Date(p)
                } else {
                    PlainValueV::DateTime(p)
                }
            } else {
                PlainValueV::Number(t)
            },
            None => PlainValueV::Number(t),
        },
        RawDataV::Iso(s) => {
            let raw = strip_trailing_z(s);
            match iso_date_of(raw) {
                Some(p) => PlainValueV::Date(p),
                None => match iso_datetime_of(raw) {
                    Some(p) => if is_midnight(p) {
                        PlainValueV::Date(p)
                    } else {
                        PlainValueV::DateTime(p)
                    },
                    None => PlainValueV::Text(s),
                },
            }
        },
        RawDataV::ErrorCode(e) => PlainValueV::Text(canon_error_token(e)),
    }
}

/// The per-cell rule of the plain bulk reader: a recorded formula wins
/// and surfaces as its text, or as its mapped error token for one of
/// the three whitelisted formulas; then the raw value; then nothing.
pub open spec fn plain_value_spec(
    formula: Option<Seq<char>>,
    raw: Option<RawDataV>,
) -> PlainValueV {
    match formula {
        Some(f) => {
            let ft = formula_text_of(f);
            match error_token_of_formula(ft) {
                Some(t) => PlainValueV::Text(t),
                None => PlainValueV::Text(ft),
            }
        },
        None => match raw {
            Some(r) => plain_of_raw(r),
            None => PlainValueV::Null,
        },
    }
}

/// The plain per-cell read rule; see `plain_value_spec`.
pub fn plain_value_of(formula: Option<&String>, raw: Option<&RawData>) -> (out: PlainValue)
    ensures
        out@ == plain_value_spec(
            match formula {
                Some(f) => Some(f@),
                None => None,
            },
            match raw {
                Some(r) => Some(r@),
                None => None,
            },
        ),
{
    match formula {
        Some(f) => {
            match formula_cell_value(f) {
                CellValue::Error(t) => PlainValue::Text(t),
                CellValue::Formula(t) => PlainValue::Text(t),
                _ => {
                    proof {
                        assert(false);
                    }
                    PlainValue::Null
                },
            }
        },
        None => match raw {
            Some(r) => plain_of_raw_data(r),
            None => PlainValue::Null,
        },
    }
}

fn plain_of_raw_data(r: &RawData) -> (out: PlainValue)
    ensures
        out@ == plain_of_raw(r@),
{
    match r {
        RawData::Empty => PlainValue::Null,
        RawData::Text(s) => PlainValue::Text(s.clone()),
        RawData::Number(t) => PlainValue::Number(t.clone()),
        RawData::Bool(b) => PlainValue::Bool(*b),
        RawData::Serial(op, t) => match op {
            Some(p) => {
                if valid_parts_exec(p) {
                    if p.hour == 0 && p.minute == 0 && p.second == 0 {
                        PlainValue::Date(*p)
                    } else {
                        PlainValue::DateTime(*p)
                    }
                } else {
                    PlainValue::Number(t.clone())
                }
            },
            None => PlainValue::Number(t.clone()),
        },
        RawData::Iso(s) => {
            let raw = strip_trailing_z_exec(s);
            let raw_s = string_of(&raw);
            match parse_iso_date(raw_s.as_str()) {
                Some(p) => PlainValue::Date(p),
                None => match parse_iso_datetime(raw_s.as_str()) {
                    Some(p) => {
                        if p.hour == 0 && p.minute == 0 && p.second == 0 {
                            PlainValue::Date(p)
                        } else {
                            PlainValue::DateTime(p)
                        }
                    },
                    None => PlainValue::Text(s.clone()),
                },
            }
        },
        RawData::ErrorCode(e) => PlainValue::Text(normalize_error_token(e.as_str())),
    }
}

} // verus!
