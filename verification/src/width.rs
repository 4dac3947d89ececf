use vstd::prelude::*;

verus! {

/// Widths, heights and sizes are carried as non-negative fixed-point
/// numbers with eight decimal places, so the two stored padding
/// constants and the four-decimal rounding rule are exact.
pub open spec fn width_scale() -> int {
    100000000
}

/// Font-metric padding that the default font adds to a stored width.
pub open spec fn calibri_pad_e8() -> int {
    83203125  // 0.83203125
}

/// Padding added under the alternative font metrics.
pub open spec fn alt_pad_e8() -> int {
    71093750  // 0.7109375
}

/// Tolerance when matching the fractional part against a padding.
pub open spec fn width_tol_e8() -> int {
    50000  // 0.0005
}

/// Round half up to four decimal places.
pub open spec fn round4_e8(x: int) -> int {
    ((x + 5000) / 10000) * 10000
}

pub open spec fn near(a: int, b: int) -> bool {
    -width_tol_e8() < a - b < width_tol_e8()
}

/// The authored width recovered from a stored width: when the fractional
/// part matches one of the two known paddings within tolerance and the
/// padded value stays non-negative, subtract that padding; in every case
/// round to four decimal places.
pub open spec fn depadded_width(w: int) -> int {
    let frac = w % width_scale();
    if near(frac, calibri_pad_e8()) && w - calibri_pad_e8() >= 0 {
        round4_e8(w - calibri_pad_e8())
    } else if near(frac, alt_pad_e8()) && w - alt_pad_e8() >= 0 {
        round4_e8(w - alt_pad_e8())
    } else {
        round4_e8(w)
    }
}

/// Strip the font-metric padding from a stored column width.
///
/// The stored width `10 + 0.83203125` yields exactly `10`; a width whose
/// fraction matches no padding is only rounded to four decimal places.
pub fn strip_excel_padding(w_e8: u64) -> (r: u64)
    requires
        w_e8 < 0x1000_0000_0000_0000,
    ensures
        r == depadded_width(w_e8 as int),
{
    let frac = w_e8 % 100000000;
    let cal: u64 = 83203125;
    let alt: u64 = 71093750;
    let tol: u64 = 50000;
    let near_cal = if frac >= cal { frac - cal < tol } else { cal - frac < tol };
    let near_alt = if frac >= alt { frac - alt < tol } else { alt - frac < tol };
    if near_cal && w_e8 >= cal {
        round4(w_e8 - cal)
    } else if near_alt && w_e8 >= alt {
        round4(w_e8 - alt)
    } else {
        round4(w_e8)
    }
}

fn round4(x: u64) -> (r: u64)
    requires
        x < 0x2000_0000_0000_0000,
    ensures
        r == round4_e8(x as int),
{
    ((x + 5000) / 10000) * 10000
}

/// A stored row height is reported only when the row was explicitly
/// sized; computed default heights are not.
pub fn custom_row_height(height_e8: u64, custom_height: bool) -> (r: Option<u64>)
    ensures
        r == if custom_height {
            Some(height_e8)
        } else {
            None::<u64>
        },
{
    if custom_height {
        Some(height_e8)
    } else {
        None
    }
}

/// A stored column width is reported only when the column was explicitly
/// sized, and then with the padding stripped.
pub fn custom_col_width(width_e8: u64, custom_width: bool) -> (r: Option<u64>)
    requires
        width_e8 < 0x1000_0000_0000_0000,
    ensures
        r == if custom_width {
            Some(depadded_width(width_e8 as int) as u64)
        } else {
            None::<u64>
        },
{
    if custom_width {
        Some(strip_excel_padding(width_e8))
    } else {
        None
    }
}

} // verus!
