use vstd::prelude::*;

use crate::addr::{AddrError, parse_a1_chars, parse_a1_range, col_letter_to_index, a1_ok, a1_row,
    a1_col, strip_dollar, range_first, range_second};
use crate::scan::opt_view;
use crate::text::{chars_of, string_of, str_eq_chars, chars_eq};

verus! {

/// A staging or save failure of the writer engine.
#[derive(Clone, Copy, Debug, PartialEq, Eq, Structural)]
pub enum BookError {
    UnknownSheet,
    DuplicateSheetName,
    BadAddress(AddrError),
    ColumnOutOfRange,
    RowOutOfRange,
    AlreadySaved,
    RotationOutOfRange,
    UnsupportedCellType,
    /// A numeric rule field that does not parse.
    BadNumber,
    /// A rule operator outside the supported set.
    UnsupportedRule,
}

/// A staged cell value, as handed over the boundary.
pub struct CellPayload {
    /// The declared type word: `blank`, `string`, `number`, `boolean`,
    /// `date`, `datetime`, `formula` or `error`.
    pub type_str: String,
    pub value: Option<String>,
    pub formula: Option<String>,
}

pub struct CellPayloadV {
    pub type_str: Seq<char>,
    pub value: Option<Seq<char>>,
    pub formula: Option<Seq<char>>,
}

impl View for CellPayload {
    type V = CellPayloadV;

    open spec fn view(&self) -> CellPayloadV {
        CellPayloadV {
            type_str: self.type_str@,
            value: opt_view(self.value),
            formula: opt_view(self.formula),
        }
    }
}

pub struct CellRecord {
    pub sheet: String,
    pub row: u32,
    pub col: u16,
    pub payload: CellPayload,
}

pub struct CellRecordV {
    pub sheet: Seq<char>,
    pub row: int,
    pub col: int,
    pub payload: CellPayloadV,
}

impl View for CellRecord {
    type V = CellRecordV;

    open spec fn view(&self) -> CellRecordV {
        CellRecordV {
            sheet: self.sheet@,
            row: self.row as int,
            col: self.col as int,
            payload: self.payload@,
        }
    }
}

/// Staged per-cell format fields; sizes in fixed-point units.
pub struct FormatFields {
    pub bold: Option<bool>,
    pub italic: Option<bool>,
    pub underline: Option<String>,
    pub strikethrough: Option<bool>,
    pub font_name: Option<String>,
    pub font_size_e8: Option<u64>,
    pub font_color: Option<String>,
    pub bg_color: Option<String>,
    pub number_format: Option<String>,
    pub h_align: Option<String>,
    pub v_align: Option<String>,
    pub wrap: Option<bool>,
    pub rotation: Option<i32>,
    pub indent: Option<i32>,
}

pub struct FormatRecord {
    pub sheet: String,
    pub row: u32,
    pub col: u16,
    pub fields: FormatFields,
}

/// Staged per-cell border fields: up to six named edges, each an
/// optional style and color pair.
pub struct BorderFields {
    pub top_style: Option<String>,
    pub top_color: Option<String>,
    pub bottom_style: Option<String>,
    pub bottom_color: Option<String>,
    pub left_style: Option<String>,
    pub left_color: Option<String>,
    pub right_style: Option<String>,
    pub right_color: Option<String>,
    pub diagonal_up_style: Option<String>,
    pub diagonal_up_color: Option<String>,
    pub diagonal_down_style: Option<String>,
    pub diagonal_down_color: Option<String>,
}

pub struct BorderRecord {
    pub sheet: String,
    pub row: u32,
    pub col: u16,
    pub fields: BorderFields,
}

pub struct RowHeightRecord {
    pub sheet: String,
    /// One-based row number, as staged.
    pub row: u32,
    pub height_e8: u64,
}

pub struct ColWidthRecord {
    pub sheet: String,
    pub col: u16,
    pub width_e8: u64,
}

pub struct MergeRange {
    pub sheet: String,
    pub first_row: u32,
    pub first_col: u16,
    pub last_row: u32,
    pub last_col: u16,
}

pub struct HyperlinkPayload {
    pub sheet: String,
    pub row: u32,
    pub col: u16,
    pub url: String,
    pub display: Option<String>,
    pub tooltip: Option<String>,
}

pub struct CommentPayload {
    pub sheet: String,
    pub row: u32,
    pub col: u16,
    pub text: String,
    pub author: Option<String>,
}

pub enum PaneSetting {
    Freeze { row: u32, col: u16 },
    Split { x_split: i64, y_split: i64 },
}

pub struct PaneRecord {
    pub sheet: String,
    pub setting: PaneSetting,
}

pub struct PrintAreaRecord {
    pub sheet: String,
    pub range: String,
}

pub struct ConditionalFormatPayload {
    pub sheet: String,
    pub range: String,
    pub rule_type: String,
    pub operator: Option<String>,
    pub formula: Option<String>,
    pub stop_if_true: bool,
    pub bg_color: Option<String>,
}

pub struct DataValidationPayload {
    pub sheet: String,
    pub range: String,
    pub validation_type: String,
    pub operator: Option<String>,
    pub formula1: Option<String>,
    pub formula2: Option<String>,
    pub allow_blank: Option<bool>,
    pub error_title: Option<String>,
    pub error_text: Option<String>,
}

pub struct NamedRangePayload {
    pub name: String,
    pub scope: String,
    pub sheet: Option<String>,
    pub refers_to: String,
}

pub struct TablePayload {
    pub sheet: String,
    pub name: String,
    pub ref_range: String,
    pub style: Option<String>,
    pub columns: Vec<String>,
    pub totals_row: bool,
    pub autofilter: Option<bool>,
    pub header_row: bool,
}

/// The staged workbook of the writer engine: every mutator accumulates
/// records here until the one terminal save consumes the model.
pub struct WriterBook {
    pub sheet_names: Vec<String>,
    pub values: Vec<CellRecord>,
    pub formats: Vec<FormatRecord>,
    pub borders: Vec<BorderRecord>,
    pub row_heights: Vec<RowHeightRecord>,
    pub col_widths: Vec<ColWidthRecord>,
    pub merges: Vec<MergeRange>,
    pub hyperlinks: Vec<HyperlinkPayload>,
    pub comments: Vec<CommentPayload>,
    pub panes: Vec<PaneRecord>,
    pub print_areas: Vec<PrintAreaRecord>,
    pub conditional_formats: Vec<ConditionalFormatPayload>,
    pub data_validations: Vec<DataValidationPayload>,
    pub named_ranges: Vec<NamedRangePayload>,
    pub tables: Vec<TablePayload>,
    pub saved: bool,
}

/// The staged cell value at a coordinate: the record staged last wins,
/// as re-staging a cell replaces its value.
pub open spec fn value_at(vals: Seq<CellRecordV>, sheet: Seq<char>, row: int, col: int) -> Option<
    CellPayloadV,
>
    decreases vals.len(),
{
    if vals.len() == 0 {
        None
    } else if vals.last().sheet == sheet && vals.last().row == row && vals.last().col == col {
        Some(vals.last().payload)
    } else {
        value_at(vals.drop_last(), sheet, row, col)
    }
}

pub open spec fn has_sheet(names: Seq<String>, sheet: Seq<char>) -> bool {
    exists|i: int| 0 <= i < names.len() && names[i]@ == sheet
}

impl WriterBook {
    /// A fresh staged workbook with nothing declared.
    pub fn new() -> (r: WriterBook)
        ensures
            r.sheet_names@.len() == 0,
            r.values@.len() == 0,
            r.formats@.len() == 0,
            r.borders@.len() == 0,
            r.row_heights@.len() == 0,
            r.col_widths@.len() == 0,
            r.merges@.len() == 0,
            r.hyperlinks@.len() == 0,
            r.comments@.len() == 0,
            r.panes@.len() == 0,
            r.print_areas@.len() == 0,
            r.conditional_formats@.len() == 0,
            r.data_validations@.len() == 0,
            r.named_ranges@.len() == 0,
            r.tables@.len() == 0,
            !r.saved,
    {
        WriterBook {
            sheet_names: Vec::new(),
            values: Vec::new(),
            formats: Vec::new(),
            borders: Vec::new(),
            row_heights: Vec::new(),
            col_widths: Vec::new(),
            merges: Vec::new(),
            hyperlinks: Vec::new(),
            comments: Vec::new(),
            panes: Vec::new(),
            print_areas: Vec::new(),
            conditional_formats: Vec::new(),
            data_validations: Vec::new(),
            named_ranges: Vec::new(),
            tables: Vec::new(),
            saved: false,
        }
    }

    pub fn contains_sheet(&self, name: &str) -> (r: bool)
        ensures
            r == has_sheet(self.sheet_names@, name@),
    {
        let mut i: usize = 0;
        while i < self.sheet_names.len()
            invariant
                i <= self.sheet_names@.len(),
                forall|j: int| 0 <= j < i ==> self.sheet_names@[j]@ != name@,
            decreases self.sheet_names@.len() - i,
        {
            let nv = chars_of(self.sheet_names[i].as_str());
            if str_eq_chars(&nv, name) {
                return true;
            }
            i += 1;
        }
        false
    }

    /// Declare a sheet; declaring a known name again is a no-op. Fails
    /// only once the model has been consumed by a save.
    pub fn add_sheet(&mut self, name: &str) -> (r: Result<(), BookError>)
        ensures
            old(self).saved ==> r == Err::<(), BookError>(BookError::AlreadySaved) && *final(self)
                == *old(self),
            !old(self).saved ==> r == Ok::<(), BookError>(()),
            (!old(self).saved && has_sheet(old(self).sheet_names@, name@)) ==> *final(self)
                == *old(self),
            (!old(self).saved && !has_sheet(old(self).sheet_names@, name@)) ==> final(self).sheet_names@
                == old(self).sheet_names@.push(final(self).sheet_names@.last())
                && final(self).sheet_names@.last()@ == name@ && unchanged_but_sheets(
                old(self),
                final(self),
            ),
    {
        if self.saved {
            return Err(BookError::AlreadySaved);
        }
        if self.contains_sheet(name) {
            return Ok(());
        }
        let s = String::from_str(name);
        self.sheet_names.push(s);
        Ok(())
    }

    /// Mark the one-shot save; a second save fails.
    pub fn mark_saved(&mut self) -> (r: Result<(), BookError>)
        ensures
            old(self).saved ==> r == Err::<(), BookError>(BookError::AlreadySaved) && *final(self)
                == *old(self),
            !old(self).saved ==> r == Ok::<(), BookError>(()) && final(self).saved
                && unchanged_but_saved(old(self), final(self)),
    {
        if self.saved {
            return Err(BookError::AlreadySaved);
        }
        self.saved = true;
        Ok(())
    }
}

/// All staged state besides the sheet list agrees.
pub open spec fn unchanged_but_sheets(a: &WriterBook, b: &WriterBook) -> bool {
    &&& a.values == b.values
    &&& a.formats == b.formats
    &&& a.borders == b.borders
    &&& a.row_heights == b.row_heights
    &&& a.col_widths == b.col_widths
    &&& a.merges == b.merges
    &&& a.hyperlinks == b.hyperlinks
    &&& a.comments == b.comments
    &&& a.panes == b.panes
    &&& a.print_areas == b.print_areas
    &&& a.conditional_formats == b.conditional_formats
    &&& a.data_validations == b.data_validations
    &&& a.named_ranges == b.named_ranges
    &&& a.tables == b.tables
    &&& a.saved == b.saved
}

/// All staged state besides the saved flag agrees.
pub open spec fn unchanged_but_saved(a: &WriterBook, b: &WriterBook) -> bool {
    &&& a.sheet_names == b.sheet_names
    &&& a.values == b.values
    &&& a.formats == b.formats
    &&& a.borders == b.borders
    &&& a.row_heights == b.row_heights
    &&& a.col_widths == b.col_widths
    &&& a.merges == b.merges
    &&& a.hyperlinks == b.hyperlinks
    &&& a.comments == b.comments
    &&& a.panes == b.panes
    &&& a.print_areas == b.print_areas
    &&& a.conditional_formats == b.conditional_formats
    &&& a.data_validations == b.data_validations
    &&& a.named_ranges == b.named_ranges
    &&& a.tables == b.tables
}

} // verus!
use vstd::prelude::*;

verus! {

/// All staged state besides `values` agrees.
pub open spec fn unchanged_but_values(a: &WriterBook, b: &WriterBook) -> bool {
    &&& a.sheet_names == b.sheet_names
    &&& a.formats == b.formats
    &&& a.borders == b.borders
    &&& a.row_heights == b.row_heights
    &&& a.col_widths == b.col_widths
    &&& a.merges == b.merges
    &&& a.hyperlinks == b.hyperlinks
    &&& a.comments == b.comments
    &&& a.panes == b.panes
    &&& a.print_areas == b.print_areas
    &&& a.conditional_formats == b.conditional_formats
    &&& a.data_validations == b.data_validations
    &&& a.named_ranges == b.named_ranges
    &&& a.tables == b.tables
    &&& a.saved == b.saved
}

/// All staged state besides `formats` agrees.
pub open spec fn unchanged_but_formats(a: &WriterBook, b: &WriterBook) -> bool {
    &&& a.sheet_names == b.sheet_names
    &&& a.values == b.values
    &&& a.borders == b.borders
    &&& a.row_heights == b.row_heights
    &&& a.col_widths == b.col_widths
    &&& a.merges == b.merges
    &&& a.hyperlinks == b.hyperlinks
    &&& a.comments == b.comments
    &&& a.panes == b.panes
    &&& a.print_areas == b.print_areas
    &&& a.conditional_formats == b.conditional_formats
    &&& a.data_validations == b.data_validations
    &&& a.named_ranges == b.named_ranges
    &&& a.tables == b.tables
    &&& a.saved == b.saved
}

/// All staged state besides `borders` agrees.
pub open spec fn unchanged_but_borders(a: &WriterBook, b: &WriterBook) -> bool {
    &&& a.sheet_names == b.sheet_names
    &&& a.values == b.values
    &&& a.formats == b.formats
    &&& a.row_heights == b.row_heights
    &&& a.col_widths == b.col_widths
    &&& a.merges == b.merges
    &&& a.hyperlinks == b.hyperlinks
    &&& a.comments == b.comments
    &&& a.panes == b.panes
    &&& a.print_areas == b.print_areas
    &&& a.conditional_formats == b.conditional_formats
    &&& a.data_validations == b.data_validations
    &&& a.named_ranges == b.named_ranges
    &&& a.tables == b.tables
    &&& a.saved == b.saved
}

/// All staged state besides `row_heights` agrees.
pub open spec fn unchanged_but_row_heights(a: &WriterBook, b: &WriterBook) -> bool {
    &&& a.sheet_names == b.sheet_names
    &&& a.values == b.values
    &&& a.formats == b.formats
    &&& a.borders == b.borders
    &&& a.col_widths == b.col_widths
    &&& a.merges == b.merges
    &&& a.hyperlinks == b.hyperlinks
    &&& a.comments == b.comments
    &&& a.panes == b.panes
    &&& a.print_areas == b.print_areas
    &&& a.conditional_formats == b.conditional_formats
    &&& a.data_validations == b.data_validations
    &&& a.named_ranges == b.named_ranges
    &&& a.tables == b.tables
    &&& a.saved == b.saved
}

/// All staged state besides `col_widths` agrees.
pub open spec fn unchanged_but_col_widths(a: &WriterBook, b: &WriterBook) -> bool {
    &&& a.sheet_names == b.sheet_names
    &&& a.values == b.values
    &&& a.formats == b.formats
    &&& a.borders == b.borders
    &&& a.row_heights == b.row_heights
    &&& a.merges == b.merges
    &&& a.hyperlinks == b.hyperlinks
    &&& a.comments == b.comments
    &&& a.panes == b.panes
    &&& a.print_areas == b.print_areas
    &&& a.conditional_formats == b.conditional_formats
    &&& a.data_validations == b.data_validations
    &&& a.named_ranges == b.named_ranges
    &&& a.tables == b.tables
    &&& a.saved == b.saved
}

/// All staged state besides `merges` agrees.
pub open spec fn unchanged_but_merges(a: &WriterBook, b: &WriterBook) -> bool {
    &&& a.sheet_names == b.sheet_names
    &&& a.values == b.values
    &&& a.formats == b.formats
    &&& a.borders == b.borders
    &&& a.row_heights == b.row_heights
    &&& a.col_widths == b.col_widths
    &&& a.hyperlinks == b.hyperlinks
    &&& a.comments == b.comments
    &&& a.panes == b.panes
    &&& a.print_areas == b.print_areas
    &&& a.conditional_formats == b.conditional_formats
    &&& a.data_validations == b.data_validations
    &&& a.named_ranges == b.named_ranges
    &&& a.tables == b.tables
    &&& a.saved == b.saved
}

/// All staged state besides `hyperlinks` agrees.
pub open spec fn unchanged_but_hyperlinks(a: &WriterBook, b: &WriterBook) -> bool {
    &&& a.sheet_names == b.sheet_names
    &&& a.values == b.values
    &&& a.formats == b.formats
    &&& a.borders == b.borders
    &&& a.row_heights == b.row_heights
    &&& a.col_widths == b.col_widths
    &&& a.merges == b.merges
    &&& a.comments == b.comments
    &&& a.panes == b.panes
    &&& a.print_areas == b.print_areas
    &&& a.conditional_formats == b.conditional_formats
    &&& a.data_validations == b.data_validations
    &&& a.named_ranges == b.named_ranges
    &&& a.tables == b.tables
    &&& a.saved == b.saved
}

/// All staged state besides `comments` agrees.
pub open spec fn unchanged_but_comments(a: &WriterBook, b: &WriterBook) -> bool {
    &&& a.sheet_names == b.sheet_names
    &&& a.values == b.values
    &&& a.formats == b.formats
    &&& a.borders == b.borders
    &&& a.row_heights == b.row_heights
    &&& a.col_widths == b.col_widths
    &&& a.merges == b.merges
    &&& a.hyperlinks == b.hyperlinks
    &&& a.panes == b.panes
    &&& a.print_areas == b.print_areas
    &&& a.conditional_formats == b.conditional_formats
    &&& a.data_validations == b.data_validations
    &&& a.named_ranges == b.named_ranges
    &&& a.tables == b.tables
    &&& a.saved == b.saved
}

/// All staged state besides `panes` agrees.
pub open spec fn unchanged_but_panes(a: &WriterBook, b: &WriterBook) -> bool {
    &&& a.sheet_names == b.sheet_names
    &&& a.values == b.values
    &&& a.formats == b.formats
    &&& a.borders == b.borders
    &&& a.row_heights == b.row_heights
    &&& a.col_widths == b.col_widths
    &&& a.merges == b.merges
    &&& a.hyperlinks == b.hyperlinks
    &&& a.comments == b.comments
    &&& a.print_areas == b.print_areas
    &&& a.conditional_formats == b.conditional_formats
    &&& a.data_validations == b.data_validations
    &&& a.named_ranges == b.named_ranges
    &&& a.tables == b.tables
    &&& a.saved == b.saved
}

/// All staged state besides `print_areas` agrees.
pub open spec fn unchanged_but_print_areas(a: &WriterBook, b: &WriterBook) -> bool {
    &&& a.sheet_names == b.sheet_names
    &&& a.values == b.values
    &&& a.formats == b.formats
    &&& a.borders == b.borders
    &&& a.row_heights == b.row_heights
    &&& a.col_widths == b.col_widths
    &&& a.merges == b.merges
    &&& a.hyperlinks == b.hyperlinks
    &&& a.comments == b.comments
    &&& a.panes == b.panes
    &&& a.conditional_formats == b.conditional_formats
    &&& a.data_validations == b.data_validations
    &&& a.named_ranges == b.named_ranges
    &&& a.tables == b.tables
    &&& a.saved == b.saved
}

/// All staged state besides `conditional_formats` agrees.
pub open spec fn unchanged_but_conditional_formats(a: &WriterBook, b: &WriterBook) -> bool {
    &&& a.sheet_names == b.sheet_names
    &&& a.values == b.values
    &&& a.formats == b.formats
    &&& a.borders == b.borders
    &&& a.row_heights == b.row_heights
    &&& a.col_widths == b.col_widths
    &&& a.merges == b.merges
    &&& a.hyperlinks == b.hyperlinks
    &&& a.comments == b.comments
    &&& a.panes == b.panes
    &&& a.print_areas == b.print_areas
    &&& a.data_validations == b.data_validations
    &&& a.named_ranges == b.named_ranges
    &&& a.tables == b.tables
    &&& a.saved == b.saved
}

/// All staged state besides `data_validations` agrees.
pub open spec fn unchanged_but_data_validations(a: &WriterBook, b: &WriterBook) -> bool {
    &&& a.sheet_names == b.sheet_names
    &&& a.values == b.values
    &&& a.formats == b.formats
    &&& a.borders == b.borders
    &&& a.row_heights == b.row_heights
    &&& a.col_widths == b.col_widths
    &&& a.merges == b.merges
    &&& a.hyperlinks == b.hyperlinks
    &&& a.comments == b.comments
    &&& a.panes == b.panes
    &&& a.print_areas == b.print_areas
    &&& a.conditional_formats == b.conditional_formats
    &&& a.named_ranges == b.named_ranges
    &&& a.tables == b.tables
    &&& a.saved == b.saved
}

/// All staged state besides `named_ranges` agrees.
pub open spec fn unchanged_but_named_ranges(a: &WriterBook, b: &WriterBook) -> bool {
    &&& a.sheet_names == b.sheet_names
    &&& a.values == b.values
    &&& a.formats == b.formats
    &&& a.borders == b.borders
    &&& a.row_heights == b.row_heights
    &&& a.col_widths == b.col_widths
    &&& a.merges == b.merges
    &&& a.hyperlinks == b.hyperlinks
    &&& a.comments == b.comments
    &&& a.panes == b.panes
    &&& a.print_areas == b.print_areas
    &&& a.conditional_formats == b.conditional_formats
    &&& a.data_validations == b.data_validations
    &&& a.tables == b.tables
    &&& a.saved == b.saved
}

/// All staged state besides `tables` agrees.
pub open spec fn unchanged_but_tables(a: &WriterBook, b: &WriterBook) -> bool {
    &&& a.sheet_names == b.sheet_names
    &&& a.values == b.values
    &&& a.formats == b.formats
    &&& a.borders == b.borders
    &&& a.row_heights == b.row_heights
    &&& a.col_widths == b.col_widths
    &&& a.merges == b.merges
    &&& a.hyperlinks == b.hyperlinks
    &&& a.comments == b.comments
    &&& a.panes == b.panes
    &&& a.print_areas == b.print_areas
    &&& a.conditional_formats == b.conditional_formats
    &&& a.data_validations == b.data_validations
    &&& a.named_ranges == b.named_ranges
    &&& a.saved == b.saved
}

} // verus!use vstd::prelude::*;

verus! {

fn opt_clone(o: &Option<String>) -> (r: Option<String>)
    ensures
        r == *o,
{
    match o {
        Some(s) => Some(s.clone()),
        None => None,
    }
}

/// A copy of an optional text, for the planning layer.
pub fn opt_clone_pub(o: &Option<String>) -> (r: Option<String>)
    ensures
        r == *o,
{
    opt_clone(o)
}

/// Resolve a cell address against the writer's limits: zero-based row
/// and a column that fits the sixteen-bit column space.
pub fn resolve_cell(a1: &str) -> (r: Result<(u32, u16), BookError>)
    ensures
        match r {
            Ok(rc) => a1_ok(a1@) && a1_col(a1@) <= u16::MAX && rc.0 == a1_row(a1@) && rc.1
                == a1_col(a1@),
            Err(BookError::BadAddress(e)) => !a1_ok(a1@) && e == crate::addr::a1_err(a1@),
            Err(BookError::ColumnOutOfRange) => a1_ok(a1@) && a1_col(a1@) > u16::MAX,
            Err(_) => false,
        },
{
    match crate::addr::a1_to_row_col(a1) {
        Ok((row, col)) => {
            if col > 0xFFFFu32 {
                Err(BookError::ColumnOutOfRange)
            } else {
                Ok((row, col as u16))
            }
        },
        Err(e) => Err(BookError::BadAddress(e)),
    }
}

/// Parse a range against the writer's limits.
pub fn resolve_range(range_str: &str) -> (r: Result<(u32, u16, u32, u16), BookError>)
    ensures
        ({
            let t = strip_dollar(range_str@);
            let a = range_first(t);
            let b = range_second(t);
            match r {
                Ok(rc) => a1_ok(a) && a1_ok(b) && rc.0 == vstd::math::min(a1_row(a), a1_row(b))
                    && rc.1 == vstd::math::min(a1_col(a), a1_col(b)) && rc.2 == vstd::math::max(
                    a1_row(a),
                    a1_row(b),
                ) && rc.3 == vstd::math::max(a1_col(a), a1_col(b)) && vstd::math::max(
                    a1_col(a),
                    a1_col(b),
                ) <= u16::MAX,
                Err(BookError::BadAddress(e)) => !(a1_ok(a) && a1_ok(b)) && (if !a1_ok(a) {
                    e == crate::addr::a1_err(a)
                } else {
                    e == crate::addr::a1_err(b)
                }),
                Err(BookError::ColumnOutOfRange) => a1_ok(a) && a1_ok(b) && vstd::math::max(
                    a1_col(a),
                    a1_col(b),
                ) > u16::MAX,
                Err(_) => false,
            }
        }),
{
    match parse_a1_range(range_str) {
        Ok((r1, c1, r2, c2)) => {
            if c2 > 0xFFFFu32 {
                Err(BookError::ColumnOutOfRange)
            } else {
                Ok((r1, c1 as u16, r2, c2 as u16))
            }
        },
        Err(e) => Err(BookError::BadAddress(e)),
    }
}

impl WriterBook {
    /// Stage one cell value; the sheet must be declared and the address
    /// resolvable.
    pub fn write_cell_value(&mut self, sheet: &str, a1: &str, payload: CellPayload) -> (r: Result<
        (),
        BookError,
    >)
        ensures
            match r {
                Ok(()) => {
                    &&& !old(self).saved
                    &&& has_sheet(old(self).sheet_names@, sheet@)
                    &&& a1_ok(a1@) && a1_col(a1@) <= u16::MAX
                    &&& final(self).values@.len() == old(self).values@.len() + 1
                    &&& final(self).values@.last().sheet@ == sheet@
                    &&& final(self).values@.last().row == a1_row(a1@)
                    &&& final(self).values@.last().col == a1_col(a1@)
                    &&& final(self).values@.last().payload@ == payload@
                    &&& final(self).values@.drop_last() == old(self).values@
                    &&& unchanged_but_values(old(self), final(self))
                },
                Err(BookError::AlreadySaved) => old(self).saved && *final(self) == *old(self),
                Err(BookError::UnknownSheet) => !old(self).saved && !has_sheet(
                    old(self).sheet_names@,
                    sheet@,
                ) && *final(self) == *old(self),
                Err(BookError::BadAddress(e)) => !old(self).saved && has_sheet(
                    old(self).sheet_names@,
                    sheet@,
                ) && !a1_ok(a1@) && e == crate::addr::a1_err(a1@) && *final(self) == *old(self),
                Err(BookError::ColumnOutOfRange) => !old(self).saved && has_sheet(
                    old(self).sheet_names@,
                    sheet@,
                ) && a1_ok(a1@) && a1_col(a1@) > u16::MAX && *final(self) == *old(self),
                Err(_) => false,
            },
    {
        if self.saved {
            return Err(BookError::AlreadySaved);
        }
        if !self.contains_sheet(sheet) {
            return Err(BookError::UnknownSheet);
        }
        let (row, col) = match resolve_cell(a1) {
            Ok(rc) => rc,
            Err(e) => {
                return Err(e);
            },
        };
        let rec = CellRecord { sheet: String::from_str(sheet), row, col, payload };
        self.values.push(rec);
        Ok(())
    }

    /// Stage one cell's format fields.
    pub fn write_cell_format(&mut self, sheet: &str, a1: &str, fields: FormatFields) -> (r: Result<
        (),
        BookError,
    >)
        ensures
            match r {
                Ok(()) => {
                    &&& !old(self).saved
                    &&& has_sheet(old(self).sheet_names@, sheet@)
                    &&& a1_ok(a1@) && a1_col(a1@) <= u16::MAX
                    &&& final(self).formats@.len() == old(self).formats@.len() + 1
                    &&& final(self).formats@.last().sheet@ == sheet@
                    &&& final(self).formats@.last().row == a1_row(a1@)
                    &&& final(self).formats@.last().col == a1_col(a1@)
                    &&& final(self).formats@.last().fields == fields
                    &&& final(self).formats@.drop_last() == old(self).formats@
                    &&& unchanged_but_formats(old(self), final(self))
                },
                Err(BookError::AlreadySaved) => old(self).saved && *final(self) == *old(self),
                Err(BookError::UnknownSheet) => !old(self).saved && !has_sheet(
                    old(self).sheet_names@,
                    sheet@,
                ) && *final(self) == *old(self),
                Err(BookError::BadAddress(e)) => !old(self).saved && has_sheet(
                    old(self).sheet_names@,
                    sheet@,
                ) && !a1_ok(a1@) && e == crate::addr::a1_err(a1@) && *final(self) == *old(self),
                Err(BookError::ColumnOutOfRange) => !old(self).saved && has_sheet(
                    old(self).sheet_names@,
                    sheet@,
                ) && a1_ok(a1@) && a1_col(a1@) > u16::MAX && *final(self) == *old(self),
                Err(_) => false,
            },
    {
        if self.saved {
            return Err(BookError::AlreadySaved);
        }
        if !self.contains_sheet(sheet) {
            return Err(BookError::UnknownSheet);
        }
        let (row, col) = match resolve_cell(a1) {
            Ok(rc) => rc,
            Err(e) => {
                return Err(e);
            },
        };
        let rec = FormatRecord { sheet: String::from_str(sheet), row, col, fields };
        self.formats.push(rec);
        Ok(())
    }

    /// Stage one cell's border fields.
    pub fn write_cell_border(&mut self, sheet: &str, a1: &str, fields: BorderFields) -> (r: Result<
        (),
        BookError,
    >)
        ensures
            match r {
                Ok(()) => {
                    &&& !old(self).saved
                    &&& has_sheet(old(self).sheet_names@, sheet@)
                    &&& a1_ok(a1@) && a1_col(a1@) <= u16::MAX
                    &&& final(self).borders@.len() == old(self).borders@.len() + 1
                    &&& final(self).borders@.last().sheet@ == sheet@
                    &&& final(self).borders@.last().row == a1_row(a1@)
                    &&& final(self).borders@.last().col == a1_col(a1@)
                    &&& final(self).borders@.last().fields == fields
                    &&& final(self).borders@.drop_last() == old(self).borders@
                    &&& unchanged_but_borders(old(self), final(self))
                },
                Err(BookError::AlreadySaved) => old(self).saved && *final(self) == *old(self),
                Err(BookError::UnknownSheet) => !old(self).saved && !has_sheet(
                    old(self).sheet_names@,
                    sheet@,
                ) && *final(self) == *old(self),
                Err(BookError::BadAddress(e)) => !old(self).saved && has_sheet(
                    old(self).sheet_names@,
                    sheet@,
                ) && !a1_ok(a1@) && e == crate::addr::a1_err(a1@) && *final(self) == *old(self),
                Err(BookError::ColumnOutOfRange) => !old(self).saved && has_sheet(
                    old(self).sheet_names@,
                    sheet@,
                ) && a1_ok(a1@) && a1_col(a1@) > u16::MAX && *final(self) == *old(self),
                Err(_) => false,
            },
    {
        if self.saved {
            return Err(BookError::AlreadySaved);
        }
        if !self.contains_sheet(sheet) {
            return Err(BookError::UnknownSheet);
        }
        let (row, col) = match resolve_cell(a1) {
            Ok(rc) => rc,
            Err(e) => {
                return Err(e);
            },
        };
        let rec = BorderRecord { sheet: String::from_str(sheet), row, col, fields };
        self.borders.push(rec);
        Ok(())
    }

    /// Stage a row height; the row number is one-based here and
    /// converted at save.
    pub fn set_row_height(&mut self, sheet: &str, row: u32, height_e8: u64) -> (r: Result<
        (),
        BookError,
    >)
        ensures
            match r {
                Ok(()) => {
                    &&& !old(self).saved
                    &&& has_sheet(old(self).sheet_names@, sheet@)
                    &&& final(self).row_heights@.len() == old(self).row_heights@.len() + 1
                    &&& final(self).row_heights@.last().sheet@ == sheet@
                    &&& final(self).row_heights@.last().row == row
                    &&& final(self).row_heights@.last().height_e8 == height_e8
                    &&& final(self).row_heights@.drop_last() == old(self).row_heights@
                    &&& unchanged_but_row_heights(old(self), final(self))
                },
                Err(BookError::AlreadySaved) => old(self).saved && *final(self) == *old(self),
                Err(BookError::UnknownSheet) => !old(self).saved && !has_sheet(
                    old(self).sheet_names@,
                    sheet@,
                ) && *final(self) == *old(self),
                Err(_) => false,
            },
    {
        if self.saved {
            return Err(BookError::AlreadySaved);
        }
        if !self.contains_sheet(sheet) {
            return Err(BookError::UnknownSheet);
        }
        self.row_heights.push(
            RowHeightRecord { sheet: String::from_str(sheet), row, height_e8 },
        );
        Ok(())
    }

    /// Stage a column width, addressed by column letters.
    pub fn set_column_width(&mut self, sheet: &str, col_str: &str, width_e8: u64) -> (r: Result<
        (),
        BookError,
    >)
        ensures
            ({
                let letters_ok = col_str@.len() >= 1 && (forall|i: int|
                    0 <= i < col_str@.len() ==> crate::addr::is_ascii_letter(
                        #[trigger] col_str@[i],
                    ));
                let cnum = crate::addr::col_num_of(crate::text::seq_upper(col_str@));
                match r {
                    Ok(()) => {
                        &&& !old(self).saved
                        &&& has_sheet(old(self).sheet_names@, sheet@)
                        &&& letters_ok && cnum <= crate::addr::coord_cap() && cnum - 1 <= u16::MAX
                        &&& final(self).col_widths@.len() == old(self).col_widths@.len() + 1
                        &&& final(self).col_widths@.last().sheet@ == sheet@
                        &&& final(self).col_widths@.last().col == cnum - 1
                        &&& final(self).col_widths@.last().width_e8 == width_e8
                        &&& final(self).col_widths@.drop_last() == old(self).col_widths@
                        &&& unchanged_but_col_widths(old(self), final(self))
                    },
                    Err(BookError::AlreadySaved) => old(self).saved && *final(self) == *old(self),
                    Err(BookError::UnknownSheet) => !old(self).saved && !has_sheet(
                        old(self).sheet_names@,
                        sheet@,
                    ) && *final(self) == *old(self),
                    Err(BookError::BadAddress(e)) => !old(self).saved && has_sheet(
                        old(self).sheet_names@,
                        sheet@,
                    ) && *final(self) == *old(self) && (e == crate::addr::AddrError::Malformed
                        ==> !letters_ok) && (e == crate::addr::AddrError::ColOutOfRange
                        ==> letters_ok && cnum > crate::addr::coord_cap()) && (e
                        != crate::addr::AddrError::RowOutOfRange),
                    Err(BookError::ColumnOutOfRange) => !old(self).saved && has_sheet(
                        old(self).sheet_names@,
                        sheet@,
                    ) && letters_ok && cnum <= crate::addr::coord_cap() && cnum - 1 > u16::MAX
                        && *final(self) == *old(self),
                    Err(_) => false,
                }
            }),
    {
        if self.saved {
            return Err(BookError::AlreadySaved);
        }
        if !self.contains_sheet(sheet) {
            return Err(BookError::UnknownSheet);
        }
        let col = match col_letter_to_index(col_str) {
            Ok(c) => c,
            Err(e) => {
                return Err(BookError::BadAddress(e));
            },
        };
        if col > 0xFFFFu32 {
            return Err(BookError::ColumnOutOfRange);
        }
        self.col_widths.push(
            ColWidthRecord { sheet: String::from_str(sheet), col: col as u16, width_e8 },
        );
        Ok(())
    }

    /// Stage a merged range.
    pub fn merge_cells(&mut self, sheet: &str, range_str: &str) -> (r: Result<(), BookError>)
        ensures
            ({
                let t = strip_dollar(range_str@);
                let a = range_first(t);
                let b = range_second(t);
                match r {
                    Ok(()) => {
                        &&& !old(self).saved
                        &&& has_sheet(old(self).sheet_names@, sheet@)
                        &&& a1_ok(a) && a1_ok(b) && vstd::math::max(a1_col(a), a1_col(b))
                            <= u16::MAX
                        &&& final(self).merges@.len() == old(self).merges@.len() + 1
                        &&& final(self).merges@.last().sheet@ == sheet@
                        &&& final(self).merges@.last().first_row == vstd::math::min(
                            a1_row(a),
                            a1_row(b),
                        )
                        &&& final(self).merges@.last().first_col == vstd::math::min(
                            a1_col(a),
                            a1_col(b),
                        )
                        &&& final(self).merges@.last().last_row == vstd::math::max(
                            a1_row(a),
                            a1_row(b),
                        )
                        &&& final(self).merges@.last().last_col == vstd::math::max(
                            a1_col(a),
                            a1_col(b),
                        )
                        &&& final(self).merges@.drop_last() == old(self).merges@
                        &&& unchanged_but_merges(old(self), final(self))
                    },
                    Err(BookError::AlreadySaved) => old(self).saved && *final(self) == *old(self),
                    Err(BookError::UnknownSheet) => !old(self).saved && !has_sheet(
                        old(self).sheet_names@,
                        sheet@,
                    ) && *final(self) == *old(self),
                    Err(BookError::BadAddress(_)) => !old(self).saved && has_sheet(
                        old(self).sheet_names@,
                        sheet@,
                    ) && !(a1_ok(a) && a1_ok(b)) && *final(self) == *old(self),
                    Err(BookError::ColumnOutOfRange) => !old(self).saved && has_sheet(
                        old(self).sheet_names@,
                        sheet@,
                    ) && a1_ok(a) && a1_ok(b) && vstd::math::max(a1_col(a), a1_col(b)) > u16::MAX
                        && *final(self) == *old(self),
                    Err(_) => false,
                }
            }),
    {
        if self.saved {
            return Err(BookError::AlreadySaved);
        }
        if !self.contains_sheet(sheet) {
            return Err(BookError::UnknownSheet);
        }
        let (r1, c1, r2, c2) = match resolve_range(range_str) {
            Ok(x) => x,
            Err(e) => {
                return Err(e);
            },
        };
        self.merges.push(
            MergeRange {
                sheet: String::from_str(sheet),
                first_row: r1,
                first_col: c1,
                last_row: r2,
                last_col: c2,
            },
        );
        Ok(())
    }

    /// Stage a hyperlink; a payload without a cell or target is a
    /// silent no-op. An internal link's target is carried with an
    /// `internal:` scheme, its leading `#` markers stripped; an empty
    /// display or tooltip is dropped.
    pub fn add_hyperlink(
        &mut self,
        sheet: &str,
        cell: Option<&String>,
        target: Option<&String>,
        display: Option<String>,
        tooltip: Option<String>,
        internal: bool,
    ) -> (r: Result<(), BookError>)
        ensures
            ({
                let cell_ok = match cell {
                    Some(c) => c@.len() > 0,
                    None => false,
                };
                let target_ok = match target {
                    Some(t) => t@.len() > 0,
                    None => false,
                };
                match r {
                    Ok(()) => {
                        &&& !old(self).saved
                        &&& has_sheet(old(self).sheet_names@, sheet@)
                        &&& if cell_ok && target_ok {
                            let c = cell->Some_0;
                            let t = target->Some_0;
                            &&& a1_ok(c@) && a1_col(c@) <= u16::MAX
                            &&& final(self).hyperlinks@.len() == old(self).hyperlinks@.len() + 1
                            &&& final(self).hyperlinks@.drop_last() == old(self).hyperlinks@
                            &&& final(self).hyperlinks@.last().sheet@ == sheet@
                            &&& final(self).hyperlinks@.last().row == a1_row(c@)
                            &&& final(self).hyperlinks@.last().col == a1_col(c@)
                            &&& final(self).hyperlinks@.last().url@ == (if internal {
                                "internal:"@ + crate::styles::strip_leading_hash(t@)
                            } else {
                                t@
                            })
                            &&& final(self).hyperlinks@.last().display == (match display {
                                Some(d) => if d@.len() == 0 {
                                    None
                                } else {
                                    Some(d)
                                },
                                None => None,
                            })
                            &&& final(self).hyperlinks@.last().tooltip == (match tooltip {
                                Some(tp) => if tp@.len() == 0 {
                                    None
                                } else {
                                    Some(tp)
                                },
                                None => None,
                            })
                            &&& unchanged_but_hyperlinks(old(self), final(self))
                        } else {
                            *final(self) == *old(self)
                        }
                    },
                    Err(BookError::AlreadySaved) => old(self).saved && *final(self) == *old(self),
                    Err(BookError::UnknownSheet) => !old(self).saved && !has_sheet(
                        old(self).sheet_names@,
                        sheet@,
                    ) && *final(self) == *old(self),
                    Err(BookError::BadAddress(e)) => !old(self).saved && has_sheet(
                        old(self).sheet_names@,
                        sheet@,
                    ) && cell_ok && target_ok && !a1_ok(cell->Some_0@) && e == crate::addr::a1_err(
                        cell->Some_0@,
                    ) && *final(self) == *old(self),
                    Err(BookError::ColumnOutOfRange) => !old(self).saved && has_sheet(
                        old(self).sheet_names@,
                        sheet@,
                    ) && cell_ok && target_ok && a1_ok(cell->Some_0@) && a1_col(cell->Some_0@)
                        > u16::MAX && *final(self) == *old(self),
                    Err(_) => false,
                }
            }),
    {
        if self.saved {
            return Err(BookError::AlreadySaved);
        }
        if !self.contains_sheet(sheet) {
            return Err(BookError::UnknownSheet);
        }
        let cell_s = match cell {
            Some(c) => if c.as_str().unicode_len() == 0 {
                None
            } else {
                Some(c)
            },
            None => None,
        };
        let target_s = match target {
            Some(t) => if t.as_str().unicode_len() == 0 {
                None
            } else {
                Some(t)
            },
            None => None,
        };
        let (cell_v, target_v) = match (cell_s, target_s) {
            (Some(c), Some(t)) => (c, t),
            _ => {
                return Ok(());
            },
        };
        let (row, col) = match resolve_cell(cell_v.as_str()) {
            Ok(rc) => rc,
            Err(e) => {
                return Err(e);
            },
        };
        let url: String = if internal {
            let tv = chars_of(target_v.as_str());
            let mut a: usize = 0;
            proof {
                assert(tv@.skip(0) =~= tv@);
            }
            while a < tv.len() && tv[a] == '#'
                invariant
                    a <= tv@.len(),
                    tv@ == target_v@,
                    crate::styles::strip_leading_hash(target_v@)
                        == crate::styles::strip_leading_hash(target_v@.skip(a as int)),
                decreases tv@.len() - a,
            {
                proof {
                    assert(target_v@.skip(a as int)[0] == target_v@[a as int]);
                    assert(target_v@.skip(a as int).skip(1) =~= target_v@.skip(a + 1));
                }
                a += 1;
            }
            proof {
                if a < tv@.len() {
                    assert(target_v@.skip(a as int)[0] == target_v@[a as int]);
                }
                assert(crate::styles::strip_leading_hash(target_v@.skip(a as int))
                    == target_v@.skip(a as int));
            }
            let rest = crate::xml::subvec(&tv, a, tv.len());
            proof {
                assert(rest@ =~= crate::styles::strip_leading_hash(target_v@));
            }
            let mut w = chars_of("internal:");
            let ghost base = "internal:"@;
            let mut k: usize = 0;
            proof {
                assert(w@ =~= base + rest@.take(0));
            }
            while k < rest.len()
                invariant
                    k <= rest@.len(),
                    base == "internal:"@,
                    w@ == base + rest@.take(k as int),
                decreases rest@.len() - k,
            {
                w.push(rest[k]);
                proof {
                    assert(base + rest@.take(k + 1 as int) =~= (base + rest@.take(k as int)).push(
                        rest@[k as int],
                    ));
                }
                k += 1;
            }
            proof {
                assert(rest@.take(rest@.len() as int) =~= rest@);
            }
            string_of(&w)
        } else {
            target_v.clone()
        };
        let display2 = match display {
            Some(d) => if d.as_str().unicode_len() == 0 {
                None
            } else {
                Some(d)
            },
            None => None,
        };
        let tooltip2 = match tooltip {
            Some(t) => if t.as_str().unicode_len() == 0 {
                None
            } else {
                Some(t)
            },
            None => None,
        };
        self.hyperlinks.push(
            HyperlinkPayload {
                sheet: String::from_str(sheet),
                row,
                col,
                url,
                display: display2,
                tooltip: tooltip2,
            },
        );
        Ok(())
    }

    /// Stage a comment; a payload without a cell or text is a silent
    /// no-op. An empty author is dropped.
    pub fn add_comment(
        &mut self,
        sheet: &str,
        cell: Option<&String>,
        text: Option<String>,
        author: Option<String>,
    ) -> (r: Result<(), BookError>)
        ensures
            ({
                let cell_ok = match cell {
                    Some(c) => c@.len() > 0,
                    None => false,
                };
                match r {
                    Ok(()) => {
                        &&& !old(self).saved
                        &&& has_sheet(old(self).sheet_names@, sheet@)
                        &&& if cell_ok && text is Some {
                            let c = cell->Some_0;
                            &&& a1_ok(c@) && a1_col(c@) <= u16::MAX
                            &&& final(self).comments@.len() == old(self).comments@.len() + 1
                            &&& final(self).comments@.drop_last() == old(self).comments@
                            &&& final(self).comments@.last().sheet@ == sheet@
                            &&& final(self).comments@.last().row == a1_row(c@)
                            &&& final(self).comments@.last().col == a1_col(c@)
                            &&& final(self).comments@.last().text == text->Some_0
                            &&& final(self).comments@.last().author == (match author {
                                Some(a) => if a@.len() == 0 {
                                    None
                                } else {
                                    Some(a)
                                },
                                None => None,
                            })
                            &&& unchanged_but_comments(old(self), final(self))
                        } else {
                            *final(self) == *old(self)
                        }
                    },
                    Err(BookError::AlreadySaved) => old(self).saved && *final(self) == *old(self),
                    Err(BookError::UnknownSheet) => !old(self).saved && !has_sheet(
                        old(self).sheet_names@,
                        sheet@,
                    ) && *final(self) == *old(self),
                    Err(BookError::BadAddress(e)) => !old(self).saved && has_sheet(
                        old(self).sheet_names@,
                        sheet@,
                    ) && cell_ok && text is Some && !a1_ok(cell->Some_0@) && e
                        == crate::addr::a1_err(cell->Some_0@) && *final(self) == *old(self),
                    Err(BookError::ColumnOutOfRange) => !old(self).saved && has_sheet(
                        old(self).sheet_names@,
                        sheet@,
                    ) && cell_ok && text is Some && a1_ok(cell->Some_0@) && a1_col(cell->Some_0@)
                        > u16::MAX && *final(self) == *old(self),
                    Err(_) => false,
                }
            }),
    {
        if self.saved {
            return Err(BookError::AlreadySaved);
        }
        if !self.contains_sheet(sheet) {
            return Err(BookError::UnknownSheet);
        }
        let cell_s = match cell {
            Some(c) => if c.as_str().unicode_len() == 0 {
                None
            } else {
                Some(c)
            },
            None => None,
        };
        let (cell_v, text_v) = match (cell_s, text) {
            (Some(c), Some(t)) => (c, t),
            _ => {
                return Ok(());
            },
        };
        let (row, col) = match resolve_cell(cell_v.as_str()) {
            Ok(rc) => rc,
            Err(e) => {
                return Err(e);
            },
        };
        let author2 = match author {
            Some(a) => if a.as_str().unicode_len() == 0 {
                None
            } else {
                Some(a)
            },
            None => None,
        };
        self.comments.push(
            CommentPayload {
                sheet: String::from_str(sheet),
                row,
                col,
                text: text_v,
                author: author2,
            },
        );
        Ok(())
    }

    /// Stage the pane setting of a sheet: a split with raw offsets kept
    /// until save, or a freeze at a top-left cell; a freeze without a
    /// cell stages nothing.
    pub fn set_freeze_panes(
        &mut self,
        sheet: &str,
        mode_split: bool,
        top_left_cell: Option<&String>,
        x_split: i64,
        y_split: i64,
    ) -> (r: Result<(), BookError>)
        ensures
            match r {
                Ok(()) => {
                    &&& !old(self).saved
                    &&& has_sheet(old(self).sheet_names@, sheet@)
                    &&& if mode_split {
                        &&& final(self).panes@.len() == old(self).panes@.len() + 1
                        &&& final(self).panes@.drop_last() == old(self).panes@
                        &&& final(self).panes@.last().sheet@ == sheet@
                        &&& (final(self).panes@.last().setting matches PaneSetting::Split {
                            x_split: xs,
                            y_split: ys,
                        } && xs == x_split && ys == y_split)
                        &&& unchanged_but_panes(old(self), final(self))
                    } else {
                        match top_left_cell {
                            Some(c) => {
                                &&& a1_ok(c@) && a1_col(c@) <= u16::MAX
                                &&& final(self).panes@.len() == old(self).panes@.len() + 1
                                &&& final(self).panes@.drop_last() == old(self).panes@
                                &&& final(self).panes@.last().sheet@ == sheet@
                                &&& (final(self).panes@.last().setting
                                    matches PaneSetting::Freeze { row, col } && row == a1_row(c@)
                                    && col == a1_col(c@))
                                &&& unchanged_but_panes(old(self), final(self))
                            },
                            None => *final(self) == *old(self),
                        }
                    }
                },
                Err(BookError::AlreadySaved) => old(self).saved && *final(self) == *old(self),
                Err(BookError::UnknownSheet) => !old(self).saved && !has_sheet(
                    old(self).sheet_names@,
                    sheet@,
                ) && *final(self) == *old(self),
                Err(BookError::BadAddress(e)) => !old(self).saved && has_sheet(
                    old(self).sheet_names@,
                    sheet@,
                ) && !mode_split && top_left_cell is Some && !a1_ok(top_left_cell->Some_0@) && e
                    == crate::addr::a1_err(top_left_cell->Some_0@) && *final(self) == *old(self),
                Err(BookError::ColumnOutOfRange) => !old(self).saved && has_sheet(
                    old(self).sheet_names@,
                    sheet@,
                ) && !mode_split && top_left_cell is Some && a1_ok(top_left_cell->Some_0@)
                    && a1_col(top_left_cell->Some_0@) > u16::MAX && *final(self) == *old(self),
                Err(_) => false,
            },
    {
        if self.saved {
            return Err(BookError::AlreadySaved);
        }
        if !self.contains_sheet(sheet) {
            return Err(BookError::UnknownSheet);
        }
        if mode_split {
            self.panes.push(
                PaneRecord {
                    sheet: String::from_str(sheet),
                    setting: PaneSetting::Split { x_split, y_split },
                },
            );
            return Ok(());
        }
        match top_left_cell {
            Some(cell) => {
                let (row, col) = match resolve_cell(cell.as_str()) {
                    Ok(rc) => rc,
                    Err(e) => {
                        return Err(e);
                    },
                };
                self.panes.push(
                    PaneRecord {
                        sheet: String::from_str(sheet),
                        setting: PaneSetting::Freeze { row, col },
                    },
                );
                Ok(())
            },
            None => Ok(()),
        }
    }

    /// Stage the print area of a sheet; parsed at save.
    pub fn set_print_area(&mut self, sheet: &str, range_str: &str) -> (r: Result<(), BookError>)
        ensures
            match r {
                Ok(()) => {
                    &&& !old(self).saved
                    &&& has_sheet(old(self).sheet_names@, sheet@)
                    &&& unchanged_but_print_areas(old(self), final(self))
                    &&& final(self).print_areas@.len() == old(self).print_areas@.len() + 1
                    &&& final(self).print_areas@.last().sheet@ == sheet@
                    &&& final(self).print_areas@.last().range@ == range_str@
                    &&& final(self).print_areas@.drop_last() == old(self).print_areas@
                },
                Err(BookError::AlreadySaved) => old(self).saved && *final(self) == *old(self),
                Err(BookError::UnknownSheet) => !old(self).saved && !has_sheet(
                    old(self).sheet_names@,
                    sheet@,
                ) && *final(self) == *old(self),
                Err(_) => false,
            },
    {
        if self.saved {
            return Err(BookError::AlreadySaved);
        }
        if !self.contains_sheet(sheet) {
            return Err(BookError::UnknownSheet);
        }
        self.print_areas.push(
            PrintAreaRecord { sheet: String::from_str(sheet), range: String::from_str(range_str) },
        );
        Ok(())
    }

    /// Stage a conditional format; a payload without a range or rule
    /// type is a silent no-op.
    pub fn add_conditional_format(
        &mut self,
        sheet: &str,
        range: Option<String>,
        rule_type: Option<String>,
        operator: Option<String>,
        formula: Option<String>,
        stop_if_true: bool,
        bg_color: Option<String>,
    ) -> (r: Result<(), BookError>)
        ensures
            match r {
                Ok(()) => {
                    &&& !old(self).saved
                    &&& has_sheet(old(self).sheet_names@, sheet@)
                    &&& if range is Some && rule_type is Some {
                        &&& final(self).conditional_formats@.len() == old(
                            self,
                        ).conditional_formats@.len() + 1
                        &&& final(self).conditional_formats@.drop_last() == old(
                            self,
                        ).conditional_formats@
                        &&& final(self).conditional_formats@.last().sheet@ == sheet@
                        &&& final(self).conditional_formats@.last().range == range->Some_0
                        &&& final(self).conditional_formats@.last().rule_type == rule_type->Some_0
                        &&& final(self).conditional_formats@.last().operator == operator
                        &&& final(self).conditional_formats@.last().formula == formula
                        &&& final(self).conditional_formats@.last().stop_if_true == stop_if_true
                        &&& final(self).conditional_formats@.last().bg_color == bg_color
                        &&& unchanged_but_conditional_formats(old(self), final(self))
                    } else {
                        *final(self) == *old(self)
                    }
                },
                Err(BookError::AlreadySaved) => old(self).saved && *final(self) == *old(self),
                Err(BookError::UnknownSheet) => !old(self).saved && !has_sheet(
                    old(self).sheet_names@,
                    sheet@,
                ) && *final(self) == *old(self),
                Err(_) => false,
            },
    {
        if self.saved {
            return Err(BookError::AlreadySaved);
        }
        if !self.contains_sheet(sheet) {
            return Err(BookError::UnknownSheet);
        }
        let (range_v, rule_v) = match (range, rule_type) {
            (Some(a), Some(b)) => (a, b),
            _ => {
                return Ok(());
            },
        };
        self.conditional_formats.push(
            ConditionalFormatPayload {
                sheet: String::from_str(sheet),
                range: range_v,
                rule_type: rule_v,
                operator,
                formula,
                stop_if_true,
                bg_color,
            },
        );
        Ok(())
    }

    /// Stage a data validation; a payload without a range or type is a
    /// silent no-op. Empty error texts are dropped.
    pub fn add_data_validation(
        &mut self,
        sheet: &str,
        range: Option<String>,
        validation_type: Option<String>,
        operator: Option<String>,
        formula1: Option<String>,
        formula2: Option<String>,
        allow_blank: Option<bool>,
        error_title: Option<String>,
        error_text: Option<String>,
    ) -> (r: Result<(), BookError>)
        ensures
            match r {
                Ok(()) => {
                    &&& !old(self).saved
                    &&& has_sheet(old(self).sheet_names@, sheet@)
                    &&& if range is Some && validation_type is Some {
                        &&& final(self).data_validations@.len() == old(
                            self,
                        ).data_validations@.len() + 1
                        &&& final(self).data_validations@.drop_last() == old(
                            self,
                        ).data_validations@
                        &&& final(self).data_validations@.last().sheet@ == sheet@
                        &&& final(self).data_validations@.last().range == range->Some_0
                        &&& final(self).data_validations@.last().validation_type
                            == validation_type->Some_0
                        &&& final(self).data_validations@.last().operator == operator
                        &&& final(self).data_validations@.last().formula1 == formula1
                        &&& final(self).data_validations@.last().formula2 == formula2
                        &&& final(self).data_validations@.last().allow_blank == allow_blank
                        &&& final(self).data_validations@.last().error_title == (match error_title {
                            Some(t) => if t@.len() == 0 {
                                None
                            } else {
                                Some(t)
                            },
                            None => None,
                        })
                        &&& final(self).data_validations@.last().error_text == (match error_text {
                            Some(t) => if t@.len() == 0 {
                                None
                            } else {
                                Some(t)
                            },
                            None => None,
                        })
                        &&& unchanged_but_data_validations(old(self), final(self))
                    } else {
                        *final(self) == *old(self)
                    }
                },
                Err(BookError::AlreadySaved) => old(self).saved && *final(self) == *old(self),
                Err(BookError::UnknownSheet) => !old(self).saved && !has_sheet(
                    old(self).sheet_names@,
                    sheet@,
                ) && *final(self) == *old(self),
                Err(_) => false,
            },
    {
        if self.saved {
            return Err(BookError::AlreadySaved);
        }
        if !self.contains_sheet(sheet) {
            return Err(BookError::UnknownSheet);
        }
        let (range_v, vtype) = match (range, validation_type) {
            (Some(a), Some(b)) => (a, b),
            _ => {
                return Ok(());
            },
        };
        let et = match error_title {
            Some(t) => if t.as_str().unicode_len() == 0 {
                None
            } else {
                Some(t)
            },
            None => None,
        };
        let em = match error_text {
            Some(t) => if t.as_str().unicode_len() == 0 {
                None
            } else {
                Some(t)
            },
            None => None,
        };
        self.data_validations.push(
            DataValidationPayload {
                sheet: String::from_str(sheet),
                range: range_v,
                validation_type: vtype,
                operator,
                formula1,
                formula2,
                allow_blank,
                error_title: et,
                error_text: em,
            },
        );
        Ok(())
    }

    /// Stage a defined name; a payload without a name or reference is a
    /// silent no-op. A missing scope defaults to the workbook; a sheet
    /// scope remembers the staging sheet.
    pub fn add_named_range(
        &mut self,
        sheet: &str,
        name: Option<String>,
        scope: Option<String>,
        refers_to: Option<String>,
    ) -> (r: Result<(), BookError>)
        ensures
            ({
                let scope_v = match scope {
                    Some(sc) => sc@,
                    None => "workbook"@,
                };
                match r {
                    Ok(()) => {
                        &&& !old(self).saved
                        &&& has_sheet(old(self).sheet_names@, sheet@)
                        &&& if name is Some && refers_to is Some {
                            &&& final(self).named_ranges@.len() == old(self).named_ranges@.len()
                                + 1
                            &&& final(self).named_ranges@.drop_last() == old(self).named_ranges@
                            &&& final(self).named_ranges@.last().name == name->Some_0
                            &&& final(self).named_ranges@.last().refers_to == refers_to->Some_0
                            &&& final(self).named_ranges@.last().scope@ == scope_v
                            &&& (final(self).named_ranges@.last().sheet is Some <==> scope_v
                                == "sheet"@)
                            &&& (final(self).named_ranges@.last().sheet is Some
                                ==> final(self).named_ranges@.last().sheet->Some_0@ == sheet@)
                            &&& unchanged_but_named_ranges(old(self), final(self))
                        } else {
                            *final(self) == *old(self)
                        }
                    },
                    Err(BookError::AlreadySaved) => old(self).saved && *final(self) == *old(self),
                    Err(BookError::UnknownSheet) => !old(self).saved && !has_sheet(
                        old(self).sheet_names@,
                        sheet@,
                    ) && *final(self) == *old(self),
                    Err(_) => false,
                }
            }),
    {
        if self.saved {
            return Err(BookError::AlreadySaved);
        }
        if !self.contains_sheet(sheet) {
            return Err(BookError::UnknownSheet);
        }
        let (name_v, refers_v) = match (name, refers_to) {
            (Some(a), Some(b)) => (a, b),
            _ => {
                return Ok(());
            },
        };
        let scope_v = match scope {
            Some(sc) => sc,
            None => String::from_str("workbook"),
        };
        let sv = chars_of(scope_v.as_str());
        let sheet_scope: Option<String> = if str_eq_chars(&sv, "sheet") {
            Some(String::from_str(sheet))
        } else {
            None
        };
        self.named_ranges.push(
            NamedRangePayload {
                name: name_v,
                scope: scope_v,
                sheet: sheet_scope,
                refers_to: refers_v,
            },
        );
        Ok(())
    }

    /// Stage a table; a payload without a name or range is a silent
    /// no-op. An empty style name is dropped.
    pub fn add_table(
        &mut self,
        sheet: &str,
        name: Option<String>,
        ref_range: Option<String>,
        style: Option<String>,
        columns: Vec<String>,
        totals_row: bool,
        autofilter: Option<bool>,
        header_row: bool,
    ) -> (r: Result<(), BookError>)
        ensures
            match r {
                Ok(()) => {
                    &&& !old(self).saved
                    &&& has_sheet(old(self).sheet_names@, sheet@)
                    &&& if name is Some && ref_range is Some {
                        &&& final(self).tables@.len() == old(self).tables@.len() + 1
                        &&& final(self).tables@.drop_last() == old(self).tables@
                        &&& final(self).tables@.last().sheet@ == sheet@
                        &&& final(self).tables@.last().name == name->Some_0
                        &&& final(self).tables@.last().ref_range == ref_range->Some_0
                        &&& final(self).tables@.last().style == (match style {
                            Some(st) => if st@.len() == 0 {
                                None
                            } else {
                                Some(st)
                            },
                            None => None,
                        })
                        &&& final(self).tables@.last().columns == columns
                        &&& final(self).tables@.last().totals_row == totals_row
                        &&& final(self).tables@.last().autofilter == autofilter
                        &&& final(self).tables@.last().header_row == header_row
                        &&& unchanged_but_tables(old(self), final(self))
                    } else {
                        *final(self) == *old(self)
                    }
                },
                Err(BookError::AlreadySaved) => old(self).saved && *final(self) == *old(self),
                Err(BookError::UnknownSheet) => !old(self).saved && !has_sheet(
                    old(self).sheet_names@,
                    sheet@,
                ) && *final(self) == *old(self),
                Err(_) => false,
            },
    {
        if self.saved {
            return Err(BookError::AlreadySaved);
        }
        if !self.contains_sheet(sheet) {
            return Err(BookError::UnknownSheet);
        }
        let (name_v, ref_v) = match (name, ref_range) {
            (Some(a), Some(b)) => (a, b),
            _ => {
                return Ok(());
            },
        };
        let style2 = match style {
            Some(st) => if st.as_str().unicode_len() == 0 {
                None
            } else {
                Some(st)
            },
            None => None,
        };
        self.tables.push(
            TablePayload {
                sheet: String::from_str(sheet),
                name: name_v,
                ref_range: ref_v,
                style: style2,
                columns,
                totals_row,
                autofilter,
                header_row,
            },
        );
        Ok(())
    }
}

/// The name a sheet reference carries after a rename.
pub open spec fn ren(s: Seq<char>, old_n: Seq<char>, new_n: Seq<char>) -> Seq<char> {
    if s == old_n {
        new_n
    } else {
        s
    }
}

fn ren_exec(s: &String, old_n: &str, new_n: &str) -> (r: String)
    ensures
        r@ == ren(s@, old_n@, new_n@),
{
    let sv = chars_of(s.as_str());
    let ov = chars_of(old_n);
    if chars_eq(&sv, &ov) {
        String::from_str(new_n)
    } else {
        s.clone()
    }
}

impl WriterBook {
    /// Rename a sheet, re-keying every staged record that references it.
    ///
    /// The rename is transactional: on success no staged record
    /// references the old name any more (when the two names differ),
    /// and every record previously keyed to the old name is keyed to
    /// the new one with its content unchanged.
    pub fn rename_sheet(&mut self, old_name: &str, new_name: &str) -> (r: Result<(), BookError>)
        ensures
            match r {
                Ok(()) => {
                    &&& !old(self).saved
                    &&& has_sheet(old(self).sheet_names@, old_name@)
                    &&& !has_sheet(old(self).sheet_names@, new_name@)
                    &&& final(self).sheet_names@.len() == old(self).sheet_names@.len()
                    &&& (forall|i: int|
                        0 <= i < final(self).sheet_names@.len()
                            ==> #[trigger] final(self).sheet_names@[i]@ == ren(
                            old(self).sheet_names@[i]@,
                            old_name@,
                            new_name@,
                        ))
                    &&& final(self).values@.len() == old(self).values@.len()
                    &&& (forall|i: int|
                        0 <= i < final(self).values@.len() ==> {
                            let n = #[trigger] final(self).values@[i];
                            let o = old(self).values@[i];
                            n.sheet@ == ren(o.sheet@, old_name@, new_name@) && n.row == o.row
                                && n.col == o.col && n.payload == o.payload
                        })
                    &&& final(self).formats@.len() == old(self).formats@.len()
                    &&& (forall|i: int|
                        0 <= i < final(self).formats@.len() ==> {
                            let n = #[trigger] final(self).formats@[i];
                            let o = old(self).formats@[i];
                            n.sheet@ == ren(o.sheet@, old_name@, new_name@) && n.row == o.row
                                && n.col == o.col && n.fields == o.fields
                        })
                    &&& final(self).borders@.len() == old(self).borders@.len()
                    &&& (forall|i: int|
                        0 <= i < final(self).borders@.len() ==> {
                            let n = #[trigger] final(self).borders@[i];
                            let o = old(self).borders@[i];
                            n.sheet@ == ren(o.sheet@, old_name@, new_name@) && n.row == o.row
                                && n.col == o.col && n.fields == o.fields
                        })
                    &&& final(self).row_heights@.len() == old(self).row_heights@.len()
                    &&& (forall|i: int|
                        0 <= i < final(self).row_heights@.len() ==> {
                            let n = #[trigger] final(self).row_heights@[i];
                            let o = old(self).row_heights@[i];
                            n.sheet@ == ren(o.sheet@, old_name@, new_name@) && n.row == o.row
                                && n.height_e8 == o.height_e8
                        })
                    &&& final(self).col_widths@.len() == old(self).col_widths@.len()
                    &&& (forall|i: int|
                        0 <= i < final(self).col_widths@.len() ==> {
                            let n = #[trigger] final(self).col_widths@[i];
                            let o = old(self).col_widths@[i];
                            n.sheet@ == ren(o.sheet@, old_name@, new_name@) && n.col == o.col
                                && n.width_e8 == o.width_e8
                        })
                    &&& final(self).merges@.len() == old(self).merges@.len()
                    &&& (forall|i: int|
                        0 <= i < final(self).merges@.len() ==> {
                            let n = #[trigger] final(self).merges@[i];
                            let o = old(self).merges@[i];
                            n.sheet@ == ren(o.sheet@, old_name@, new_name@) && n.first_row
                                == o.first_row && n.first_col == o.first_col && n.last_row
                                == o.last_row && n.last_col == o.last_col
                        })
                    &&& final(self).hyperlinks@.len() == old(self).hyperlinks@.len()
                    &&& (forall|i: int|
                        0 <= i < final(self).hyperlinks@.len() ==> {
                            let n = #[trigger] final(self).hyperlinks@[i];
                            let o = old(self).hyperlinks@[i];
                            n.sheet@ == ren(o.sheet@, old_name@, new_name@) && n.row == o.row
                                && n.col == o.col && n.url == o.url && n.display == o.display
                                && n.tooltip == o.tooltip
                        })
                    &&& final(self).comments@.len() == old(self).comments@.len()
                    &&& (forall|i: int|
                        0 <= i < final(self).comments@.len() ==> {
                            let n = #[trigger] final(self).comments@[i];
                            let o = old(self).comments@[i];
                            n.sheet@ == ren(o.sheet@, old_name@, new_name@) && n.row == o.row
                                && n.col == o.col && n.text == o.text && n.author == o.author
                        })
                    &&& final(self).panes@.len() == old(self).panes@.len()
                    &&& (forall|i: int|
                        0 <= i < final(self).panes@.len() ==> {
                            let n = #[trigger] final(self).panes@[i];
                            let o = old(self).panes@[i];
                            n.sheet@ == ren(o.sheet@, old_name@, new_name@) && n.setting
                                == o.setting
                        })
                    &&& final(self).print_areas@.len() == old(self).print_areas@.len()
                    &&& (forall|i: int|
                        0 <= i < final(self).print_areas@.len() ==> {
                            let n = #[trigger] final(self).print_areas@[i];
                            let o = old(self).print_areas@[i];
                            n.sheet@ == ren(o.sheet@, old_name@, new_name@) && n.range == o.range
                        })
                    &&& final(self).conditional_formats@.len() == old(
                        self,
                    ).conditional_formats@.len()
                    &&& (forall|i: int|
                        0 <= i < final(self).conditional_formats@.len() ==> {
                            let n = #[trigger] final(self).conditional_formats@[i];
                            let o = old(self).conditional_formats@[i];
                            n.sheet@ == ren(o.sheet@, old_name@, new_name@) && n.range == o.range
                                && n.rule_type == o.rule_type && n.operator == o.operator
                                && n.formula == o.formula && n.stop_if_true == o.stop_if_true
                                && n.bg_color == o.bg_color
                        })
                    &&& final(self).data_validations@.len() == old(self).data_validations@.len()
                    &&& (forall|i: int|
                        0 <= i < final(self).data_validations@.len() ==> {
                            let n = #[trigger] final(self).data_validations@[i];
                            let o = old(self).data_validations@[i];
                            n.sheet@ == ren(o.sheet@, old_name@, new_name@) && n.range == o.range
                                && n.validation_type == o.validation_type && n.operator
                                == o.operator && n.formula1 == o.formula1 && n.formula2
                                == o.formula2 && n.allow_blank == o.allow_blank && n.error_title
                                == o.error_title && n.error_text == o.error_text
                        })
                    &&& final(self).tables@.len() == old(self).tables@.len()
                    &&& (forall|i: int|
                        0 <= i < final(self).tables@.len() ==> {
                            let n = #[trigger] final(self).tables@[i];
                            let o = old(self).tables@[i];
                            n.sheet@ == ren(o.sheet@, old_name@, new_name@) && n.name == o.name
                                && n.ref_range == o.ref_range && n.style == o.style && n.columns@
                                == o.columns@ && n.totals_row == o.totals_row && n.autofilter
                                == o.autofilter && n.header_row == o.header_row
                        })
                    &&& final(self).named_ranges == old(self).named_ranges
                    &&& final(self).saved == old(self).saved
                },
                Err(BookError::AlreadySaved) => old(self).saved && *final(self) == *old(self),
                Err(BookError::UnknownSheet) => !old(self).saved && !has_sheet(
                    old(self).sheet_names@,
                    old_name@,
                ) && *final(self) == *old(self),
                Err(BookError::DuplicateSheetName) => !old(self).saved && has_sheet(
                    old(self).sheet_names@,
                    old_name@,
                ) && has_sheet(old(self).sheet_names@, new_name@) && *final(self) == *old(self),
                Err(_) => false,
            },
    {
        if self.saved {
            return Err(BookError::AlreadySaved);
        }
        if !self.contains_sheet(old_name) {
            return Err(BookError::UnknownSheet);
        }
        if self.contains_sheet(new_name) {
            return Err(BookError::DuplicateSheetName);
        }
        let n0 = self.sheet_names.len();
        let mut names: Vec<String> = Vec::new();
        let mut i: usize = 0;
        while i < n0
            invariant
                i <= n0,
                n0 == self.sheet_names@.len(),
                names@.len() == i,
                forall|j: int|
                    0 <= j < i ==> #[trigger] names@[j]@ == ren(
                        self.sheet_names@[j]@,
                        old_name@,
                        new_name@,
                    ),
            decreases n0 - i,
        {
            let nn = ren_exec(&self.sheet_names[i], old_name, new_name);
            names.push(nn);
            i += 1;
        }
        self.sheet_names = names;

        let nv = self.values.len();
        let mut values: Vec<CellRecord> = Vec::new();
        let mut i: usize = 0;
        while i < nv
            invariant
                i <= nv,
                nv == self.values@.len(),
                values@.len() == i,
                forall|j: int|
                    0 <= j < i ==> {
                        let n = #[trigger] values@[j];
                        let o = self.values@[j];
                        n.sheet@ == ren(o.sheet@, old_name@, new_name@) && n.row == o.row && n.col
                            == o.col && n.payload == o.payload
                    },
            decreases nv - i,
        {
            let r = &self.values[i];
            let rec = CellRecord {
                sheet: ren_exec(&r.sheet, old_name, new_name),
                row: r.row,
                col: r.col,
                payload: CellPayload {
                    type_str: r.payload.type_str.clone(),
                    value: opt_clone(&r.payload.value),
                    formula: opt_clone(&r.payload.formula),
                },
            };
            proof {
                assert(rec.payload == self.values@[i as int].payload);
            }
            values.push(rec);
            i += 1;
        }
        self.values = values;

        let nf = self.formats.len();
        let mut formats: Vec<FormatRecord> = Vec::new();
        let mut i: usize = 0;
        while i < nf
            invariant
                i <= nf,
                nf == self.formats@.len(),
                formats@.len() == i,
                forall|j: int|
                    0 <= j < i ==> {
                        let n = #[trigger] formats@[j];
                        let o = self.formats@[j];
                        n.sheet@ == ren(o.sheet@, old_name@, new_name@) && n.row == o.row && n.col
                            == o.col && n.fields == o.fields
                    },
            decreases nf - i,
        {
            let r = &self.formats[i];
            let f = &r.fields;
            let rec = FormatRecord {
                sheet: ren_exec(&r.sheet, old_name, new_name),
                row: r.row,
                col: r.col,
                fields: FormatFields {
                    bold: f.bold,
                    italic: f.italic,
                    underline: opt_clone(&f.underline),
                    strikethrough: f.strikethrough,
                    font_name: opt_clone(&f.font_name),
                    font_size_e8: f.font_size_e8,
                    font_color: opt_clone(&f.font_color),
                    bg_color: opt_clone(&f.bg_color),
                    number_format: opt_clone(&f.number_format),
                    h_align: opt_clone(&f.h_align),
                    v_align: opt_clone(&f.v_align),
                    wrap: f.wrap,
                    rotation: f.rotation,
                    indent: f.indent,
                },
            };
            proof {
                assert(rec.fields == self.formats@[i as int].fields);
            }
            formats.push(rec);
            i += 1;
        }
        self.formats = formats;

        let nb = self.borders.len();
        let mut borders: Vec<BorderRecord> = Vec::new();
        let mut i: usize = 0;
        while i < nb
            invariant
                i <= nb,
                nb == self.borders@.len(),
                borders@.len() == i,
                forall|j: int|
                    0 <= j < i ==> {
                        let n = #[trigger] borders@[j];
                        let o = self.borders@[j];
                        n.sheet@ == ren(o.sheet@, old_name@, new_name@) && n.row == o.row && n.col
                            == o.col && n.fields == o.fields
                    },
            decreases nb - i,
        {
            let r = &self.borders[i];
            let f = &r.fields;
            let rec = BorderRecord {
                sheet: ren_exec(&r.sheet, old_name, new_name),
                row: r.row,
                col: r.col,
                fields: BorderFields {
                    top_style: opt_clone(&f.top_style),
                    top_color: opt_clone(&f.top_color),
                    bottom_style: opt_clone(&f.bottom_style),
                    bottom_color: opt_clone(&f.bottom_color),
                    left_style: opt_clone(&f.left_style),
                    left_color: opt_clone(&f.left_color),
                    right_style: opt_clone(&f.right_style),
                    right_color: opt_clone(&f.right_color),
                    diagonal_up_style: opt_clone(&f.diagonal_up_style),
                    diagonal_up_color: opt_clone(&f.diagonal_up_color),
                    diagonal_down_style: opt_clone(&f.diagonal_down_style),
                    diagonal_down_color: opt_clone(&f.diagonal_down_color),
                },
            };
            proof {
                assert(rec.fields == self.borders@[i as int].fields);
            }
            borders.push(rec);
            i += 1;
        }
        self.borders = borders;

        let nh = self.row_heights.len();
        let mut row_heights: Vec<RowHeightRecord> = Vec::new();
        let mut i: usize = 0;
        while i < nh
            invariant
                i <= nh,
                nh == self.row_heights@.len(),
                row_heights@.len() == i,
                forall|j: int|
                    0 <= j < i ==> {
                        let n = #[trigger] row_heights@[j];
                        let o = self.row_heights@[j];
                        n.sheet@ == ren(o.sheet@, old_name@, new_name@) && n.row == o.row
                            && n.height_e8 == o.height_e8
                    },
            decreases nh - i,
        {
            let r = &self.row_heights[i];
            row_heights.push(
                RowHeightRecord {
                    sheet: ren_exec(&r.sheet, old_name, new_name),
                    row: r.row,
                    height_e8: r.height_e8,
                },
            );
            i += 1;
        }
        self.row_heights = row_heights;

        let nw = self.col_widths.len();
        let mut col_widths: Vec<ColWidthRecord> = Vec::new();
        let mut i: usize = 0;
        while i < nw
            invariant
                i <= nw,
                nw == self.col_widths@.len(),
                col_widths@.len() == i,
                forall|j: int|
                    0 <= j < i ==> {
                        let n = #[trigger] col_widths@[j];
                        let o = self.col_widths@[j];
                        n.sheet@ == ren(o.sheet@, old_name@, new_name@) && n.col == o.col
                            && n.width_e8 == o.width_e8
                    },
            decreases nw - i,
        {
            let r = &self.col_widths[i];
            col_widths.push(
                ColWidthRecord {
                    sheet: ren_exec(&r.sheet, old_name, new_name),
                    col: r.col,
                    width_e8: r.width_e8,
                },
            );
            i += 1;
        }
        self.col_widths = col_widths;

        let nm = self.merges.len();
        let mut merges: Vec<MergeRange> = Vec::new();
        let mut i: usize = 0;
        while i < nm
            invariant
                i <= nm,
                nm == self.merges@.len(),
                merges@.len() == i,
                forall|j: int|
                    0 <= j < i ==> {
                        let n = #[trigger] merges@[j];
                        let o = self.merges@[j];
                        n.sheet@ == ren(o.sheet@, old_name@, new_name@) && n.first_row
                            == o.first_row && n.first_col == o.first_col && n.last_row
                            == o.last_row && n.last_col == o.last_col
                    },
            decreases nm - i,
        {
            let r = &self.merges[i];
            merges.push(
                MergeRange {
                    sheet: ren_exec(&r.sheet, old_name, new_name),
                    first_row: r.first_row,
                    first_col: r.first_col,
                    last_row: r.last_row,
                    last_col: r.last_col,
                },
            );
            i += 1;
        }
        self.merges = merges;

        let nl = self.hyperlinks.len();
        let mut hyperlinks: Vec<HyperlinkPayload> = Vec::new();
        let mut i: usize = 0;
        while i < nl
            invariant
                i <= nl,
                nl == self.hyperlinks@.len(),
                hyperlinks@.len() == i,
                forall|j: int|
                    0 <= j < i ==> {
                        let n = #[trigger] hyperlinks@[j];
                        let o = self.hyperlinks@[j];
                        n.sheet@ == ren(o.sheet@, old_name@, new_name@) && n.row == o.row && n.col
                            == o.col && n.url == o.url && n.display == o.display && n.tooltip
                            == o.tooltip
                    },
            decreases nl - i,
        {
            let r = &self.hyperlinks[i];
            hyperlinks.push(
                HyperlinkPayload {
                    sheet: ren_exec(&r.sheet, old_name, new_name),
                    row: r.row,
                    col: r.col,
                    url: r.url.clone(),
                    display: opt_clone(&r.display),
                    tooltip: opt_clone(&r.tooltip),
                },
            );
            i += 1;
        }
        self.hyperlinks = hyperlinks;

        let nc = self.comments.len();
        let mut comments: Vec<CommentPayload> = Vec::new();
        let mut i: usize = 0;
        while i < nc
            invariant
                i <= nc,
                nc == self.comments@.len(),
                comments@.len() == i,
                forall|j: int|
                    0 <= j < i ==> {
                        let n = #[trigger] comments@[j];
                        let o = self.comments@[j];
                        n.sheet@ == ren(o.sheet@, old_name@, new_name@) && n.row == o.row && n.col
                            == o.col && n.text == o.text && n.author == o.author
                    },
            decreases nc - i,
        {
            let r = &self.comments[i];
            comments.push(
                CommentPayload {
                    sheet: ren_exec(&r.sheet, old_name, new_name),
                    row: r.row,
                    col: r.col,
                    text: r.text.clone(),
                    author: opt_clone(&r.author),
                },
            );
            i += 1;
        }
        self.comments = comments;

        let np = self.panes.len();
        let mut panes: Vec<PaneRecord> = Vec::new();
        let mut i: usize = 0;
        while i < np
            invariant
                i <= np,
                np == self.panes@.len(),
                panes@.len() == i,
                forall|j: int|
                    0 <= j < i ==> {
                        let n = #[trigger] panes@[j];
                        let o = self.panes@[j];
                        n.sheet@ == ren(o.sheet@, old_name@, new_name@) && n.setting == o.setting
                    },
            decreases np - i,
        {
            let r = &self.panes[i];
            let setting = match &r.setting {
                PaneSetting::Freeze { row, col } => PaneSetting::Freeze { row: *row, col: *col },
                PaneSetting::Split { x_split, y_split } => PaneSetting::Split {
                    x_split: *x_split,
                    y_split: *y_split,
                },
            };
            proof {
                assert(setting == self.panes@[i as int].setting);
            }
            panes.push(PaneRecord { sheet: ren_exec(&r.sheet, old_name, new_name), setting });
            i += 1;
        }
        self.panes = panes;

        let na = self.print_areas.len();
        let mut print_areas: Vec<PrintAreaRecord> = Vec::new();
        let mut i: usize = 0;
        while i < na
            invariant
                i <= na,
                na == self.print_areas@.len(),
                print_areas@.len() == i,
                forall|j: int|
                    0 <= j < i ==> {
                        let n = #[trigger] print_areas@[j];
                        let o = self.print_areas@[j];
                        n.sheet@ == ren(o.sheet@, old_name@, new_name@) && n.range == o.range
                    },
            decreases na - i,
        {
            let r = &self.print_areas[i];
            print_areas.push(
                PrintAreaRecord {
                    sheet: ren_exec(&r.sheet, old_name, new_name),
                    range: r.range.clone(),
                },
            );
            i += 1;
        }
        self.print_areas = print_areas;

        let ncf = self.conditional_formats.len();
        let mut cfs: Vec<ConditionalFormatPayload> = Vec::new();
        let mut i: usize = 0;
        while i < ncf
            invariant
                i <= ncf,
                ncf == self.conditional_formats@.len(),
                cfs@.len() == i,
                forall|j: int|
                    0 <= j < i ==> {
                        let n = #[trigger] cfs@[j];
                        let o = self.conditional_formats@[j];
                        n.sheet@ == ren(o.sheet@, old_name@, new_name@) && n.range == o.range
                            && n.rule_type == o.rule_type && n.operator == o.operator && n.formula
                            == o.formula && n.stop_if_true == o.stop_if_true && n.bg_color
                            == o.bg_color
                    },
            decreases ncf - i,
        {
            let r = &self.conditional_formats[i];
            cfs.push(
                ConditionalFormatPayload {
                    sheet: ren_exec(&r.sheet, old_name, new_name),
                    range: r.range.clone(),
                    rule_type: r.rule_type.clone(),
                    operator: opt_clone(&r.operator),
                    formula: opt_clone(&r.formula),
                    stop_if_true: r.stop_if_true,
                    bg_color: opt_clone(&r.bg_color),
                },
            );
            i += 1;
        }
        self.conditional_formats = cfs;

        let ndv = self.data_validations.len();
        let mut dvs: Vec<DataValidationPayload> = Vec::new();
        let mut i: usize = 0;
        while i < ndv
            invariant
                i <= ndv,
                ndv == self.data_validations@.len(),
                dvs@.len() == i,
                forall|j: int|
                    0 <= j < i ==> {
                        let n = #[trigger] dvs@[j];
                        let o = self.data_validations@[j];
                        n.sheet@ == ren(o.sheet@, old_name@, new_name@) && n.range == o.range
                            && n.validation_type == o.validation_type && n.operator == o.operator
                            && n.formula1 == o.formula1 && n.formula2 == o.formula2
                            && n.allow_blank == o.allow_blank && n.error_title == o.error_title
                            && n.error_text == o.error_text
                    },
            decreases ndv - i,
        {
            let r = &self.data_validations[i];
            dvs.push(
                DataValidationPayload {
                    sheet: ren_exec(&r.sheet, old_name, new_name),
                    range: r.range.clone(),
                    validation_type: r.validation_type.clone(),
                    operator: opt_clone(&r.operator),
                    formula1: opt_clone(&r.formula1),
                    formula2: opt_clone(&r.formula2),
                    allow_blank: r.allow_blank,
                    error_title: opt_clone(&r.error_title),
                    error_text: opt_clone(&r.error_text),
                },
            );
            i += 1;
        }
        self.data_validations = dvs;

        let nt = self.tables.len();
        let mut tables: Vec<TablePayload> = Vec::new();
        let mut i: usize = 0;
        while i < nt
            invariant
                i <= nt,
                nt == self.tables@.len(),
                tables@.len() == i,
                forall|j: int|
                    0 <= j < i ==> {
                        let n = #[trigger] tables@[j];
                        let o = self.tables@[j];
                        n.sheet@ == ren(o.sheet@, old_name@, new_name@) && n.name == o.name
                            && n.ref_range == o.ref_range && n.style == o.style && n.columns@
                            == o.columns@ && n.totals_row == o.totals_row && n.autofilter
                            == o.autofilter && n.header_row == o.header_row
                    },
            decreases nt - i,
        {
            let r = &self.tables[i];
            let mut cols: Vec<String> = Vec::new();
            let mut k: usize = 0;
            while k < r.columns.len()
                invariant
                    k <= r.columns@.len(),
                    cols@ == r.columns@.take(k as int),
                decreases r.columns@.len() - k,
            {
                proof {
                    assert(r.columns@.take(k + 1 as int) =~= r.columns@.take(k as int).push(
                        r.columns@[k as int],
                    ));
                }
                cols.push(r.columns[k].clone());
                k += 1;
            }
            proof {
                assert(r.columns@.take(r.columns@.len() as int) =~= r.columns@);
            }
            tables.push(
                TablePayload {
                    sheet: ren_exec(&r.sheet, old_name, new_name),
                    name: r.name.clone(),
                    ref_range: r.ref_range.clone(),
                    style: opt_clone(&r.style),
                    columns: cols,
                    totals_row: r.totals_row,
                    autofilter: r.autofilter,
                    header_row: r.header_row,
                },
            );
            i += 1;
        }
        self.tables = tables;

        Ok(())
    }
}

/// Transactional rename, stated over the staged cell table: after the
/// rename nothing references the old name, and every value previously
/// addressable at (old, row, col) is addressable at (new, row, col).
pub proof fn lemma_rename_transactional(
    vals: Seq<CellRecordV>,
    renamed: Seq<CellRecordV>,
    old_n: Seq<char>,
    new_n: Seq<char>,
    row: int,
    col: int,
)
    requires
        old_n != new_n,
        vals.len() == renamed.len(),
        forall|i: int|
            0 <= i < vals.len() ==> {
                let n = #[trigger] renamed[i];
                let o = vals[i];
                n.sheet == ren(o.sheet, old_n, new_n) && n.row == o.row && n.col == o.col
                    && n.payload == o.payload
            },
        forall|i: int| 0 <= i < vals.len() ==> #[trigger] vals[i].sheet != new_n,
    ensures
        forall|i: int| 0 <= i < renamed.len() ==> #[trigger] renamed[i].sheet != old_n,
        value_at(renamed, new_n, row, col) == value_at(vals, old_n, row, col),
        value_at(renamed, old_n, row, col) is None,
    decreases vals.len(),
{
    assert forall|i: int| 0 <= i < renamed.len() implies #[trigger] renamed[i].sheet != old_n by {
        assert(renamed[i].sheet == ren(vals[i].sheet, old_n, new_n));
    }
    if vals.len() == 0 {
    } else {
        let v2 = vals.drop_last();
        let r2 = renamed.drop_last();
        assert(forall|i: int|
            0 <= i < v2.len() ==> {
                let n = #[trigger] r2[i];
                let o = v2[i];
                n.sheet == ren(o.sheet, old_n, new_n) && n.row == o.row && n.col == o.col
                    && n.payload == o.payload
            }) by {
            assert(forall|i: int| 0 <= i < v2.len() ==> r2[i] == renamed[i] && v2[i] == vals[i]);
        }
        assert(forall|i: int| 0 <= i < v2.len() ==> #[trigger] v2[i].sheet != new_n) by {
            assert(forall|i: int| 0 <= i < v2.len() ==> v2[i] == vals[i]);
        }
        lemma_rename_transactional(v2, r2, old_n, new_n, row, col);
        assert(renamed.last().sheet == ren(vals.last().sheet, old_n, new_n));
        assert(vals.last().sheet != new_n);
    }
}

} // verus!
use vstd::prelude::*;

verus! {

/// One element of a bulk value grid, its type already inferred from its
/// native shape: numbers as decimal text, text, or a boolean.
pub enum BulkValue {
    Num(String),
    Text(String),
    Bool(bool),
}

pub enum BulkValueV {
    Num(Seq<char>),
    Text(Seq<char>),
    Bool(bool),
}

impl View for BulkValue {
    type V = BulkValueV;

    open spec fn view(&self) -> BulkValueV {
        match self {
            BulkValue::Num(s) => BulkValueV::Num(s@),
            BulkValue::Text(s) => BulkValueV::Text(s@),
            BulkValue::Bool(b) => BulkValueV::Bool(*b),
        }
    }
}

/// The staged payload of one bulk element.
pub open spec fn bulk_payload(b: BulkValueV) -> CellPayloadV {
    match b {
        BulkValueV::Num(t) => CellPayloadV { type_str: "number"@, value: Some(t), formula: None },
        BulkValueV::Text(t) => CellPayloadV { type_str: "string"@, value: Some(t), formula: None },
        BulkValueV::Bool(b) => CellPayloadV {
            type_str: "boolean"@,
            value: Some(if b {
                "true"@
            } else {
                "false"@
            }),
            formula: None,
        },
    }
}

/// The records a bulk write stages: one per present element, at the
/// grid origin plus the element's offsets.
pub open spec fn bulk_records(
    sheet: Seq<char>,
    base_row: int,
    base_col: int,
    items: Seq<(u32, u32, BulkValueV)>,
) -> Seq<CellRecordV>
    decreases items.len(),
{
    if items.len() == 0 {
        Seq::empty()
    } else {
        bulk_records(sheet, base_row, base_col, items.drop_last()).push(
            CellRecordV {
                sheet,
                row: base_row + items.last().0,
                col: base_col + items.last().1,
                payload: bulk_payload(items.last().2),
            },
        )
    }
}

pub open spec fn bulk_in_range(base_row: int, base_col: int, items: Seq<(u32, u32, BulkValueV)>)
    -> bool {
    forall|i: int|
        0 <= i < items.len() ==> base_row + (#[trigger] items[i]).0 <= u32::MAX && base_col
            + items[i].1 <= u16::MAX
}

fn bulk_payload_exec(b: &BulkValue) -> (r: CellPayload)
    ensures
        r@ == bulk_payload(b@),
{
    match b {
        BulkValue::Num(t) => CellPayload {
            type_str: String::from_str("number"),
            value: Some(t.clone()),
            formula: None,
        },
        BulkValue::Text(t) => CellPayload {
            type_str: String::from_str("string"),
            value: Some(t.clone()),
            formula: None,
        },
        BulkValue::Bool(b) => CellPayload {
            type_str: String::from_str("boolean"),
            value: Some(
                if *b {
                    String::from_str("true")
                } else {
                    String::from_str("false")
                },
            ),
            formula: None,
        },
    }
}

pub open spec fn bulk_items_view(items: Seq<(u32, u32, BulkValue)>) -> Seq<(u32, u32, BulkValueV)> {
    items.map_values(|t: (u32, u32, BulkValue)| (t.0, t.1, t.2@))
}

impl WriterBook {
    /// Stage a rectangular grid of inferred values: one record per
    /// present element, given as (row offset, column offset, value)
    /// from the grid origin. Fails, staging nothing, when the sheet is
    /// unknown, the origin does not resolve, or an element falls past
    /// the coordinate space.
    pub fn write_sheet_values(
        &mut self,
        sheet: &str,
        start_a1: &str,
        items: Vec<(u32, u32, BulkValue)>,
    ) -> (r: Result<(), BookError>)
        ensures
            match r {
                Ok(()) => {
                    &&& has_sheet(old(self).sheet_names@, sheet@)
                    &&& a1_ok(start_a1@) && a1_col(start_a1@) <= u16::MAX
                    &&& final(self).values@.map_values(|x: CellRecord| x@) == old(
                        self,
                    ).values@.map_values(|x: CellRecord| x@) + bulk_records(
                        sheet@,
                        a1_row(start_a1@),
                        a1_col(start_a1@),
                        bulk_items_view(items@),
                    )
                    &&& !old(self).saved
                    &&& (forall|j: int|
                        0 <= j < items@.len() ==> a1_row(start_a1@) + (#[trigger] items@[j]).0
                            <= u32::MAX && a1_col(start_a1@) + items@[j].1 <= u16::MAX)
                    &&& unchanged_but_values(old(self), final(self))
                },
                Err(BookError::AlreadySaved) => old(self).saved && *final(self) == *old(self),
                Err(BookError::UnknownSheet) => !old(self).saved && !has_sheet(
                    old(self).sheet_names@,
                    sheet@,
                ) && *final(self) == *old(self),
                Err(BookError::BadAddress(e)) => !old(self).saved && has_sheet(
                    old(self).sheet_names@,
                    sheet@,
                ) && !a1_ok(start_a1@) && e == crate::addr::a1_err(start_a1@) && *final(self)
                    == *old(self),
                Err(BookError::ColumnOutOfRange) => !old(self).saved && has_sheet(
                    old(self).sheet_names@,
                    sheet@,
                ) && a1_ok(start_a1@) && (a1_col(start_a1@) > u16::MAX || exists|j: int|
                    0 <= j < items@.len() && a1_col(start_a1@) + (#[trigger] items@[j]).1
                        > u16::MAX) && *final(self) == *old(self),
                Err(BookError::RowOutOfRange) => !old(self).saved && has_sheet(
                    old(self).sheet_names@,
                    sheet@,
                ) && a1_ok(start_a1@) && a1_col(start_a1@) <= u16::MAX && (exists|j: int|
                    0 <= j < items@.len() && a1_row(start_a1@) + (#[trigger] items@[j]).0
                        > u32::MAX) && *final(self) == *old(self),
                Err(_) => false,
            },
    {
        if self.saved {
            return Err(BookError::AlreadySaved);
        }
        if !self.contains_sheet(sheet) {
            return Err(BookError::UnknownSheet);
        }
        let (base_row, base_col) = match resolve_cell(start_a1) {
            Ok(rc) => rc,
            Err(e) => {
                return Err(e);
            },
        };
        // Validate every offset before staging anything.
        let ghost iv = bulk_items_view(items@);
        let mut i: usize = 0;
        while i < items.len()
            invariant
                i <= items@.len(),
                iv == bulk_items_view(items@),
                *self == *old(self),
                !old(self).saved,
                has_sheet(old(self).sheet_names@, sheet@),
                a1_ok(start_a1@),
                base_row == a1_row(start_a1@),
                base_col == a1_col(start_a1@),
                base_col <= u16::MAX,
                forall|j: int|
                    0 <= j < i ==> base_row + (#[trigger] iv[j]).0 <= u32::MAX && base_col
                        + iv[j].1 <= u16::MAX,
            decreases items@.len() - i,
        {
            let (dr, dc, _) = &items[i];
            proof {
                assert(iv[i as int].0 == items@[i as int].0);
                assert(iv[i as int].1 == items@[i as int].1);
            }
            if *dr > u32::MAX - base_row {
                proof {
                    assert(a1_row(start_a1@) + items@[i as int].0 > u32::MAX);
                }
                return Err(BookError::RowOutOfRange);
            }
            if *dc > (u16::MAX as u32) - (base_col as u32) {
                proof {
                    assert(a1_col(start_a1@) + items@[i as int].1 > u16::MAX);
                }
                return Err(BookError::ColumnOutOfRange);
            }
            i += 1;
        }
        let mut i: usize = 0;
        let ghost base_vals = self.values@.map_values(|x: CellRecord| x@);
        proof {
            assert(base_vals + bulk_records(sheet@, base_row as int, base_col as int, iv.take(0))
                =~= base_vals);
        }
        while i < items.len()
            invariant
                i <= items@.len(),
                iv == bulk_items_view(items@),
                base_row <= u32::MAX,
                base_col <= u16::MAX,
                forall|j: int|
                    0 <= j < items@.len() ==> base_row + (#[trigger] iv[j]).0 <= u32::MAX
                        && base_col + iv[j].1 <= u16::MAX,
                self.values@.map_values(|x: CellRecord| x@) == base_vals + bulk_records(
                    sheet@,
                    base_row as int,
                    base_col as int,
                    iv.take(i as int),
                ),
                unchanged_but_values(old(self), self),
                self.sheet_names == old(self).sheet_names,
            decreases items@.len() - i,
        {
            proof {
                assert(iv.take(i + 1 as int).drop_last() =~= iv.take(i as int));
                assert(iv.take(i + 1 as int).last() == iv[i as int]);
                assert(iv[i as int].0 == items@[i as int].0);
                assert(iv[i as int].1 == items@[i as int].1);
                assert(iv[i as int].2 == items@[i as int].2@);
            }
            let (dr, dc, b) = &items[i];
            let rec = CellRecord {
                sheet: String::from_str(sheet),
                row: base_row + *dr,
                col: base_col + (*dc as u16),
                payload: bulk_payload_exec(b),
            };
            proof {
                assert(rec@ == CellRecordV {
                    sheet: sheet@,
                    row: base_row as int + iv[i as int].0,
                    col: base_col as int + iv[i as int].1,
                    payload: bulk_payload(iv[i as int].2),
                });
                assert(bulk_records(sheet@, base_row as int, base_col as int, iv.take(i + 1 as int))
                    =~= bulk_records(sheet@, base_row as int, base_col as int, iv.take(i as int)).push(
                    rec@,
                ));
            }
            let ghost vs_pre = self.values@;
            let ghost rec_v = rec@;
            self.values.push(rec);
            proof {
                assert(self.values@ =~= vs_pre.push(rec));
                assert(self.values@.map_values(|x: CellRecord| x@) =~= vs_pre.map_values(
                    |x: CellRecord| x@,
                ).push(rec_v));
                assert(self.values@.map_values(|x: CellRecord| x@) =~= base_vals + bulk_records(
                    sheet@,
                    base_row as int,
                    base_col as int,
                    iv.take(i + 1 as int),
                ));
            }
            i += 1;
        }
        proof {
            assert(iv.take(iv.len() as int) =~= iv);
            assert forall|j: int|
                0 <= j < items@.len() implies a1_row(start_a1@) + (#[trigger] items@[j]).0
                <= u32::MAX && a1_col(start_a1@) + items@[j].1 <= u16::MAX by {
                assert(iv[j].0 == items@[j].0);
                assert(iv[j].1 == items@[j].1);
            }
        }
        Ok(())
    }

    /// Stage a grid of format fields: one record per present element,
    /// offsets as in `write_sheet_values`.
    pub fn write_sheet_formats(
        &mut self,
        sheet: &str,
        start_a1: &str,
        items: Vec<(u32, u32, FormatFields)>,
    ) -> (r: Result<(), BookError>)
        ensures
            match r {
                Ok(()) => {
                    &&& has_sheet(old(self).sheet_names@, sheet@)
                    &&& a1_ok(start_a1@) && a1_col(start_a1@) <= u16::MAX
                    &&& final(self).formats@.len() == old(self).formats@.len() + items@.len()
                    &&& (forall|j: int|
                        0 <= j < old(self).formats@.len() ==> #[trigger] final(self).formats@[j]
                            == old(self).formats@[j])
                    &&& (forall|j: int|
                        0 <= j < items@.len() ==> {
                            let n = #[trigger] final(self).formats@[old(self).formats@.len() + j];
                            n.sheet@ == sheet@ && n.row == a1_row(start_a1@) + items@[j].0 && n.col
                                == a1_col(start_a1@) + items@[j].1 && n.fields == items@[j].2
                        })
                    &&& !old(self).saved
                    &&& (forall|j: int|
                        0 <= j < items@.len() ==> a1_row(start_a1@) + (#[trigger] items@[j]).0
                            <= u32::MAX && a1_col(start_a1@) + items@[j].1 <= u16::MAX)
                    &&& unchanged_but_formats(old(self), final(self))
                },
                Err(BookError::AlreadySaved) => old(self).saved && *final(self) == *old(self),
                Err(BookError::UnknownSheet) => !old(self).saved && !has_sheet(
                    old(self).sheet_names@,
                    sheet@,
                ) && *final(self) == *old(self),
                Err(BookError::BadAddress(e)) => !old(self).saved && has_sheet(
                    old(self).sheet_names@,
                    sheet@,
                ) && !a1_ok(start_a1@) && e == crate::addr::a1_err(start_a1@) && *final(self)
                    == *old(self),
                Err(BookError::ColumnOutOfRange) => !old(self).saved && has_sheet(
                    old(self).sheet_names@,
                    sheet@,
                ) && a1_ok(start_a1@) && (a1_col(start_a1@) > u16::MAX || exists|j: int|
                    0 <= j < items@.len() && a1_col(start_a1@) + (#[trigger] items@[j]).1
                        > u16::MAX) && *final(self) == *old(self),
                Err(BookError::RowOutOfRange) => !old(self).saved && has_sheet(
                    old(self).sheet_names@,
                    sheet@,
                ) && a1_ok(start_a1@) && a1_col(start_a1@) <= u16::MAX && (exists|j: int|
                    0 <= j < items@.len() && a1_row(start_a1@) + (#[trigger] items@[j]).0
                        > u32::MAX) && *final(self) == *old(self),
                Err(_) => false,
            },
    {
        if self.saved {
            return Err(BookError::AlreadySaved);
        }
        if !self.contains_sheet(sheet) {
            return Err(BookError::UnknownSheet);
        }
        let (base_row, base_col) = match resolve_cell(start_a1) {
            Ok(rc) => rc,
            Err(e) => {
                return Err(e);
            },
        };
        let mut i: usize = 0;
        while i < items.len()
            invariant
                i <= items@.len(),
                *self == *old(self),
                !old(self).saved,
                has_sheet(old(self).sheet_names@, sheet@),
                a1_ok(start_a1@),
                base_row == a1_row(start_a1@),
                base_col == a1_col(start_a1@),
                base_col <= u16::MAX,
                forall|j: int|
                    0 <= j < i ==> base_row + (#[trigger] items@[j]).0 <= u32::MAX && base_col
                        + items@[j].1 <= u16::MAX,
            decreases items@.len() - i,
        {
            let (dr, dc, _) = &items[i];
            if *dr > u32::MAX - base_row {
                return Err(BookError::RowOutOfRange);
            }
            if *dc > (u16::MAX as u32) - (base_col as u32) {
                return Err(BookError::ColumnOutOfRange);
            }
            i += 1;
        }
        let mut i: usize = 0;
        let ghost base_len = self.formats@.len();
        while i < items.len()
            invariant
                i <= items@.len(),
                base_row <= u32::MAX,
                base_col <= u16::MAX,
                forall|j: int|
                    0 <= j < items@.len() ==> base_row + (#[trigger] items@[j]).0 <= u32::MAX
                        && base_col + items@[j].1 <= u16::MAX,
                self.formats@.len() == base_len + i,
                forall|j: int|
                    0 <= j < base_len ==> #[trigger] self.formats@[j] == old(self).formats@[j],
                forall|j: int|
                    0 <= j < i ==> {
                        let n = #[trigger] self.formats@[base_len + j];
                        n.sheet@ == sheet@ && n.row == base_row + items@[j].0 && n.col == base_col
                            + items@[j].1 && n.fields == items@[j].2
                    },
                base_len == old(self).formats@.len(),
                unchanged_but_formats(old(self), self),
                self.sheet_names == old(self).sheet_names,
            decreases items@.len() - i,
        {
            let (dr, dc, fields) = &items[i];
            let rec = FormatRecord {
                sheet: String::from_str(sheet),
                row: base_row + *dr,
                col: base_col + (*dc as u16),
                fields: clone_format_fields(fields),
            };
            self.formats.push(rec);
            i += 1;
        }
        Ok(())
    }
}

/// A field-for-field copy of staged format fields.
fn clone_format_fields(f: &FormatFields) -> (r: FormatFields)
    ensures
        r == *f,
{
    FormatFields {
        bold: f.bold,
        italic: f.italic,
        underline: opt_clone(&f.underline),
        strikethrough: f.strikethrough,
        font_name: opt_clone(&f.font_name),
        font_size_e8: f.font_size_e8,
        font_color: opt_clone(&f.font_color),
        bg_color: opt_clone(&f.bg_color),
        number_format: opt_clone(&f.number_format),
        h_align: opt_clone(&f.h_align),
        v_align: opt_clone(&f.v_align),
        wrap: f.wrap,
        rotation: f.rotation,
        indent: f.indent,
    }
}

} // verus!
use vstd::prelude::*;

verus! {

/// A field-for-field copy of staged border fields.
fn clone_border_fields(f: &BorderFields) -> (r: BorderFields)
    ensures
        r == *f,
{
    BorderFields {
        top_style: opt_clone(&f.top_style),
        top_color: opt_clone(&f.top_color),
        bottom_style: opt_clone(&f.bottom_style),
        bottom_color: opt_clone(&f.bottom_color),
        left_style: opt_clone(&f.left_style),
        left_color: opt_clone(&f.left_color),
        right_style: opt_clone(&f.right_style),
        right_color: opt_clone(&f.right_color),
        diagonal_up_style: opt_clone(&f.diagonal_up_style),
        diagonal_up_color: opt_clone(&f.diagonal_up_color),
        diagonal_down_style: opt_clone(&f.diagonal_down_style),
        diagonal_down_color: opt_clone(&f.diagonal_down_color),
    }
}

impl WriterBook {
    /// Stage a grid of border fields: one record per present element,
    /// offsets as in `write_sheet_values`.
    pub fn write_sheet_borders(
        &mut self,
        sheet: &str,
        start_a1: &str,
        items: Vec<(u32, u32, BorderFields)>,
    ) -> (r: Result<(), BookError>)
        ensures
            match r {
                Ok(()) => {
                    &&& has_sheet(old(self).sheet_names@, sheet@)
                    &&& a1_ok(start_a1@) && a1_col(start_a1@) <= u16::MAX
                    &&& final(self).borders@.len() == old(self).borders@.len() + items@.len()
                    &&& (forall|j: int|
                        0 <= j < old(self).borders@.len() ==> #[trigger] final(self).borders@[j]
                            == old(self).borders@[j])
                    &&& (forall|j: int|
                        0 <= j < items@.len() ==> {
                            let n = #[trigger] final(self).borders@[old(self).borders@.len() + j];
                            n.sheet@ == sheet@ && n.row == a1_row(start_a1@) + items@[j].0 && n.col
                                == a1_col(start_a1@) + items@[j].1 && n.fields == items@[j].2
                        })
                    &&& !old(self).saved
                    &&& (forall|j: int|
                        0 <= j < items@.len() ==> a1_row(start_a1@) + (#[trigger] items@[j]).0
                            <= u32::MAX && a1_col(start_a1@) + items@[j].1 <= u16::MAX)
                    &&& unchanged_but_borders(old(self), final(self))
                },
                Err(BookError::AlreadySaved) => old(self).saved && *final(self) == *old(self),
                Err(BookError::UnknownSheet) => !old(self).saved && !has_sheet(
                    old(self).sheet_names@,
                    sheet@,
                ) && *final(self) == *old(self),
                Err(BookError::BadAddress(e)) => !old(self).saved && has_sheet(
                    old(self).sheet_names@,
                    sheet@,
                ) && !a1_ok(start_a1@) && e == crate::addr::a1_err(start_a1@) && *final(self)
                    == *old(self),
                Err(BookError::ColumnOutOfRange) => !old(self).saved && has_sheet(
                    old(self).sheet_names@,
                    sheet@,
                ) && a1_ok(start_a1@) && (a1_col(start_a1@) > u16::MAX || exists|j: int|
                    0 <= j < items@.len() && a1_col(start_a1@) + (#[trigger] items@[j]).1
                        > u16::MAX) && *final(self) == *old(self),
                Err(BookError::RowOutOfRange) => !old(self).saved && has_sheet(
                    old(self).sheet_names@,
                    sheet@,
                ) && a1_ok(start_a1@) && a1_col(start_a1@) <= u16::MAX && (exists|j: int|
                    0 <= j < items@.len() && a1_row(start_a1@) + (#[trigger] items@[j]).0
                        > u32::MAX) && *final(self) == *old(self),
                Err(_) => false,
            },
    {
        if self.saved {
            return Err(BookError::AlreadySaved);
        }
        if !self.contains_sheet(sheet) {
            return Err(BookError::UnknownSheet);
        }
        let (base_row, base_col) = match resolve_cell(start_a1) {
            Ok(rc) => rc,
            Err(e) => {
                return Err(e);
            },
        };
        let mut i: usize = 0;
        while i < items.len()
            invariant
                i <= items@.len(),
                *self == *old(self),
                !old(self).saved,
                has_sheet(old(self).sheet_names@, sheet@),
                a1_ok(start_a1@),
                base_row == a1_row(start_a1@),
                base_col == a1_col(start_a1@),
                base_col <= u16::MAX,
                forall|j: int|
                    0 <= j < i ==> base_row + (#[trigger] items@[j]).0 <= u32::MAX && base_col
                        + items@[j].1 <= u16::MAX,
            decreases items@.len() - i,
        {
            let (dr, dc, _) = &items[i];
            if *dr > u32::MAX - base_row {
                return Err(BookError::RowOutOfRange);
            }
            if *dc > (u16::MAX as u32) - (base_col as u32) {
                return Err(BookError::ColumnOutOfRange);
            }
            i += 1;
        }
        let mut i: usize = 0;
        let ghost base_len = self.borders@.len();
        while i < items.len()
            invariant
                i <= items@.len(),
                base_row <= u32::MAX,
                base_col <= u16::MAX,
                forall|j: int|
                    0 <= j < items@.len() ==> base_row + (#[trigger] items@[j]).0 <= u32::MAX
                        && base_col + items@[j].1 <= u16::MAX,
                self.borders@.len() == base_len + i,
                forall|j: int|
                    0 <= j < base_len ==> #[trigger] self.borders@[j] == old(self).borders@[j],
                forall|j: int|
                    0 <= j < i ==> {
                        let n = #[trigger] self.borders@[base_len + j];
                        n.sheet@ == sheet@ && n.row == base_row + items@[j].0 && n.col == base_col
                            + items@[j].1 && n.fields == items@[j].2
                    },
                base_len == old(self).borders@.len(),
                unchanged_but_borders(old(self), self),
                self.sheet_names == old(self).sheet_names,
            decreases items@.len() - i,
        {
            let (dr, dc, fields) = &items[i];
            let rec = BorderRecord {
                sheet: String::from_str(sheet),
                row: base_row + *dr,
                col: base_col + (*dc as u16),
                fields: clone_border_fields(fields),
            };
            self.borders.push(rec);
            i += 1;
        }
        Ok(())
    }
}

} // verus!
