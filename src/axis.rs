//! Chart axis bounds for a range of values held in fixed point.
use vstd::arithmetic::div_mod::{lemma_fundamental_div_mod, lemma_fundamental_div_mod_converse};
use vstd::prelude::*;

verus! {

/// Values are held as integers in millionths of a whole unit.
pub const MICROS_PER_UNIT: i64 = 1_000_000;

/// Padding used on each side when the range has zero width: one hundredth
/// of a unit.
pub const DEGENERATE_PADDING: i64 = 10_000;

/// The padding added on each side of `[lo, hi]`: an eighth of its width,
/// or `DEGENERATE_PADDING` when the width is zero.
pub open spec fn padding(lo: int, hi: int) -> int {
    if lo == hi {
        DEGENERATE_PADDING as int
    } else {
        (hi - lo) / 8
    }
}

/// The greatest whole unit at or below `x` (in millionths).
pub open spec fn floor_units(x: int) -> int {
    x / (MICROS_PER_UNIT as int)
}

/// The least whole unit at or above `x` (in millionths).
pub open spec fn ceil_units(x: int) -> int {
    -((-x) / (MICROS_PER_UNIT as int))
}

/// The axis shown for values ranging over `[lo, hi]`, in whole units.
pub open spec fn axis_of(lo: int, hi: int) -> (int, int) {
    (floor_units(lo - padding(lo, hi)), ceil_units(hi + padding(lo, hi)))
}

fn floor_div_units(x: i128) -> (r: i128)
    requires
        -0x2_0000_0000_0000_0000 <= x <= 0x2_0000_0000_0000_0000,
    ensures
        r == floor_units(x as int),
        -0x1_0000_0000_0000 <= r <= 0x1_0000_0000_0000,
{
    let s: u128 = MICROS_PER_UNIT as u128;
    if x >= 0 {
        let q = (x as u128) / s;
        proof {
            lemma_fundamental_div_mod(x as int, s as int);
            assert(q as int * (s as int) <= x) by (nonlinear_arith)
                requires
                    x as int == (s as int) * (q as int) + (x as int % s as int),
                    x as int % s as int >= 0,
            ;
            assert(q <= 0x1_0000_0000_0000) by (nonlinear_arith)
                requires
                    q as int * 1_000_000 <= x,
                    x <= 0x2_0000_0000_0000_0000,
            ;
        }
        q as i128
    } else {
        let y: u128 = (-x) as u128;
        let q = (y + (s - 1)) / s;
        proof {
            let yy = y as int + 999_999;
            lemma_fundamental_div_mod(yy, 1_000_000);
            let m = yy % 1_000_000;
            assert(yy == 1_000_000 * (q as int) + m);
            lemma_fundamental_div_mod_converse(x as int, 1_000_000, -(q as int), 999_999 - m);
            assert(q <= 0x1_0000_0000_0000) by (nonlinear_arith)
                requires
                    yy == 1_000_000 * (q as int) + m,
                    m >= 0,
                    yy <= 0x2_0000_0000_0000_0000 + 999_999,
            ;
        }
        -(q as i128)
    }
}

/// The axis range in whole units for values in `[lo, hi]` (in millionths):
/// padded on each side and rounded outward.
pub fn axis_range(lo: i64, hi: i64) -> (r: (i64, i64))
    requires
        lo <= hi,
    ensures
        r.0 == axis_of(lo as int, hi as int).0,
        r.1 == axis_of(lo as int, hi as int).1,
        r.0 < r.1,
{
    let pad: i128 = if lo == hi {
        DEGENERATE_PADDING as i128
    } else {
        (hi as i128 - lo as i128) / 8
    };
    let a = floor_div_units(lo as i128 - pad);
    let b = -floor_div_units(-(hi as i128 + pad));
    proof {
        lemma_axis_nondegenerate(lo as int, hi as int);
    }
    (a as i64, b as i64)
}

/// For every range `lo <= hi`, the axis has non-zero width: its lower end is
/// strictly below its upper end, also when all values are equal.
pub proof fn lemma_axis_nondegenerate(lo: int, hi: int)
    requires
        lo <= hi,
    ensures
        axis_of(lo, hi).0 < axis_of(lo, hi).1,
{
    let p = padding(lo, hi);
    let a = lo - p;
    let b = hi + p;
    assert(a < b);
    lemma_fundamental_div_mod(a, 1_000_000);
    lemma_fundamental_div_mod(-b, 1_000_000);
    let f = a / 1_000_000;
    let g = (-b) / 1_000_000;
    assert(f * 1_000_000 <= a);
    assert(g * 1_000_000 <= -b);
    assert(f < -g) by (nonlinear_arith)
        requires
            f * 1_000_000 <= a,
            g * 1_000_000 <= -b,
            a < b,
    ;
}

} // verus!
