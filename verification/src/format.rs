//! Human-readable rendering of a byte count: the value is scaled by a 1024
//! divisor through bytes, kilobytes, megabytes and gigabytes (never further,
//! even for larger sizes), and printed with exactly two decimal places.

use vstd::prelude::*;
use vstd::string::*;

use crate::text::digit_char;
use crate::text::decimal_rep;
use crate::text::push_char;
use crate::text::push_decimal;

verus! {

/// Which unit a size is shown in: 0 bytes, 1 kilobytes, 2 megabytes,
/// 3 gigabytes. The scale is capped at gigabytes.
pub open spec fn unit_index(size: nat) -> nat {
    if size < 1024 {
        0
    } else if size < 1048576 {
        1
    } else if size < 1073741824 {
        2
    } else {
        3
    }
}

/// The divisor belonging to a unit: 1024 raised to the unit index.
pub open spec fn unit_divisor(size: nat) -> nat {
    if size < 1024 {
        1
    } else if size < 1048576 {
        1024
    } else if size < 1073741824 {
        1048576
    } else {
        1073741824
    }
}

/// The unit suffix a size is shown with.
pub open spec fn unit_suffix(size: nat) -> Seq<char> {
    if size < 1024 {
        "B"@
    } else if size < 1048576 {
        "KB"@
    } else if size < 1073741824 {
        "MB"@
    } else {
        "GB"@
    }
}

/// The scaled value in hundredths of a unit, rounded half up: the nearest
/// integer to `100 * size / divisor`.
pub open spec fn scaled_hundredths(size: nat) -> nat {
    (size * 100 + unit_divisor(size) / 2) / unit_divisor(size)
}

/// The rendering of a byte count: the scaled value with two decimal places,
/// one space, and the unit suffix.
pub open spec fn size_text(size: nat) -> Seq<char> {
    let h = scaled_hundredths(size);
    decimal_rep(h / 100) + seq!['.', digit_char((h / 10) % 10), digit_char(h % 10), ' ']
        + unit_suffix(size)
}

/// Renders a byte count for display, as `size_text` describes: the size is
/// scaled into the unit fitting its magnitude (1024 bytes to the kilobyte and
/// so on, capped at gigabytes) and shown with two decimal places.
pub fn human_readable_size(size: u64) -> (r: String)
    ensures
        r@ == size_text(size as nat),
{
    let divisor: u64 = if size < 1024 {
        1
    } else if size < 1048576 {
        1024
    } else if size < 1073741824 {
        1048576
    } else {
        1073741824
    };
    let wide: u128 = (size as u128) * 100 + (divisor as u128) / 2;
    let hundredths_wide: u128 = wide / (divisor as u128);
    proof {
        assert(hundredths_wide <= wide) by (nonlinear_arith)
            requires
                hundredths_wide == wide / (divisor as u128),
                divisor >= 1,
                wide >= 0,
        ;
        assert(wide <= u64::MAX as u128 * 100 + 1073741824u128 / 2);
        assert(divisor as u128 >= 1024 ==> hundredths_wide * 1024 <= wide) by (nonlinear_arith)
            requires
                hundredths_wide == wide / (divisor as u128),
                divisor >= 1,
                wide >= 0,
        ;
        assert(hundredths_wide <= u64::MAX as u128);
    }
    let hundredths: u64 = hundredths_wide as u64;
    assert(hundredths == scaled_hundredths(size as nat));
    let mut out = String::new();
    push_decimal(&mut out, hundredths / 100);
    push_char(&mut out, '.');
    let d1 = crate::text::digit_of((hundredths / 10) % 10);
    push_char(&mut out, d1);
    let d2 = crate::text::digit_of(hundredths % 10);
    push_char(&mut out, d2);
    push_char(&mut out, ' ');
    if size < 1024 {
        out.append("B");
    } else if size < 1048576 {
        out.append("KB");
    } else if size < 1073741824 {
        out.append("MB");
    } else {
        out.append("GB");
    }
    proof {
        assert(out@ =~= size_text(size as nat));
    }
    out
}

} // verus!
