//! Finite sums in GF(16): sums of a function over a range of integers, and
//! sums of a function of two arguments over a rectangle or a triangle.

use crate::f16::{
    gf16_add, gf16_mul, lemma_add_closed, lemma_add_laws, lemma_add_self, lemma_mul_distributes,
    lemma_mul_one_zero,
};
use crate::linear_laws::lemma_add_regroup;
use vstd::prelude::*;

verus! {

/// The sum of `f(k)` for `k` from `lo` up to, not including, `hi`.
pub open spec fn sum_over(f: spec_fn(int) -> u8, lo: int, hi: int) -> u8
    decreases hi - lo,
{
    if hi <= lo {
        0u8
    } else {
        gf16_add(sum_over(f, lo, hi - 1), f(hi - 1))
    }
}

/// The sum of `g(a, b)` over `b` from `lo` up to `hi`, for a fixed `a`.
pub open spec fn row_sum(g: spec_fn(int, int) -> u8, a: int, lo: int, hi: int) -> u8
    decreases hi - lo,
{
    if hi <= lo {
        0u8
    } else {
        gf16_add(row_sum(g, a, lo, hi - 1), g(a, hi - 1))
    }
}

/// The sum of `g(a, b)` over `a` from `lo` up to `hi`, for a fixed `b`.
pub open spec fn col_sum(g: spec_fn(int, int) -> u8, b: int, lo: int, hi: int) -> u8
    decreases hi - lo,
{
    if hi <= lo {
        0u8
    } else {
        gf16_add(col_sum(g, b, lo, hi - 1), g(hi - 1, b))
    }
}

/// The sum of `g` over the rectangle of `a` in `[0, rows)` and `b` in
/// `[0, cols)`, row after row.
pub open spec fn rect_sum(g: spec_fn(int, int) -> u8, rows: int, cols: int) -> u8
    decreases rows,
{
    if rows <= 0 {
        0u8
    } else {
        gf16_add(rect_sum(g, rows - 1, cols), row_sum(g, rows - 1, 0, cols))
    }
}

/// The sum of `g` over the same rectangle, column after column.
pub open spec fn rect_sum_by_cols(g: spec_fn(int, int) -> u8, rows: int, cols: int) -> u8
    decreases cols,
{
    if cols <= 0 {
        0u8
    } else {
        gf16_add(rect_sum_by_cols(g, rows, cols - 1), col_sum(g, cols - 1, 0, rows))
    }
}

/// The sum of `g(a, b)` over the upper triangle `a <= b < n`, for the rows
/// `a` below `rows`.
pub open spec fn upper_sum(g: spec_fn(int, int) -> u8, n: int, rows: int) -> u8
    decreases rows,
{
    if rows <= 0 {
        0u8
    } else {
        gf16_add(upper_sum(g, n, rows - 1), row_sum(g, rows - 1, rows - 1, n))
    }
}

/// The sum of `g(a, b)` over the upper triangle `a <= b`, for the columns
/// `b` below `cols`.
pub open spec fn upper_sum_by_cols(g: spec_fn(int, int) -> u8, cols: int) -> u8
    decreases cols,
{
    if cols <= 0 {
        0u8
    } else {
        gf16_add(upper_sum_by_cols(g, cols - 1), col_sum(g, cols - 1, 0, cols))
    }
}

/// Whether `f` is a nibble at every point of `[lo, hi)`.
pub open spec fn nibbles_on(f: spec_fn(int) -> u8, lo: int, hi: int) -> bool {
    forall|k: int| lo <= k < hi ==> #[trigger] f(k) < 16
}

/// Whether `g` is a nibble at every point of the rectangle.
pub open spec fn nibbles_in(g: spec_fn(int, int) -> u8, lo1: int, hi1: int, lo2: int, hi2: int) -> bool {
    forall|a: int, b: int| lo1 <= a < hi1 && lo2 <= b < hi2 ==> #[trigger] g(a, b) < 16
}

/// A sum of nibbles is a nibble.
pub proof fn lemma_sum_nibble(f: spec_fn(int) -> u8, lo: int, hi: int)
    requires
        nibbles_on(f, lo, hi),
    ensures
        sum_over(f, lo, hi) < 16,
    decreases hi - lo,
{
    if hi > lo {
        lemma_sum_nibble(f, lo, hi - 1);
        assert(f(hi - 1) < 16);
        lemma_add_closed(sum_over(f, lo, hi - 1), f(hi - 1));
    }
}

/// A sum over a row of nibbles is a nibble.
pub proof fn lemma_row_sum_nibble(g: spec_fn(int, int) -> u8, a: int, lo: int, hi: int)
    requires
        forall|b: int| lo <= b < hi ==> #[trigger] g(a, b) < 16,
    ensures
        row_sum(g, a, lo, hi) < 16,
    decreases hi - lo,
{
    if hi > lo {
        lemma_row_sum_nibble(g, a, lo, hi - 1);
        assert(g(a, hi - 1) < 16);
        lemma_add_closed(row_sum(g, a, lo, hi - 1), g(a, hi - 1));
    }
}

/// A sum over a column of nibbles is a nibble.
pub proof fn lemma_col_sum_nibble(g: spec_fn(int, int) -> u8, b: int, lo: int, hi: int)
    requires
        forall|a: int| lo <= a < hi ==> #[trigger] g(a, b) < 16,
    ensures
        col_sum(g, b, lo, hi) < 16,
    decreases hi - lo,
{
    if hi > lo {
        lemma_col_sum_nibble(g, b, lo, hi - 1);
        assert(g(hi - 1, b) < 16);
        lemma_add_closed(col_sum(g, b, lo, hi - 1), g(hi - 1, b));
    }
}

/// Functions that agree on a row have the same sum over it.
pub proof fn lemma_row_sum_ext(
    g: spec_fn(int, int) -> u8,
    h: spec_fn(int, int) -> u8,
    a: int,
    lo: int,
    hi: int,
)
    requires
        forall|b: int| lo <= b < hi ==> #[trigger] g(a, b) == h(a, b),
    ensures
        row_sum(g, a, lo, hi) == row_sum(h, a, lo, hi),
    decreases hi - lo,
{
    if hi > lo {
        lemma_row_sum_ext(g, h, a, lo, hi - 1);
        assert(g(a, hi - 1) == h(a, hi - 1));
    }
}

/// The sum over a row is the sum of the function with its first argument fixed.
pub proof fn lemma_row_sum_as_sum(
    g: spec_fn(int, int) -> u8,
    f: spec_fn(int) -> u8,
    a: int,
    lo: int,
    hi: int,
)
    requires
        forall|b: int| lo <= b < hi ==> #[trigger] f(b) == g(a, b),
    ensures
        row_sum(g, a, lo, hi) == sum_over(f, lo, hi),
    decreases hi - lo,
{
    if hi > lo {
        lemma_row_sum_as_sum(g, f, a, lo, hi - 1);
        assert(f(hi - 1) == g(a, hi - 1));
    }
}

/// The sum over a column is the sum of the function with its second argument fixed.
pub proof fn lemma_col_sum_as_sum(
    g: spec_fn(int, int) -> u8,
    f: spec_fn(int) -> u8,
    b: int,
    lo: int,
    hi: int,
)
    requires
        forall|a: int| lo <= a < hi ==> #[trigger] f(a) == g(a, b),
    ensures
        col_sum(g, b, lo, hi) == sum_over(f, lo, hi),
    decreases hi - lo,
{
    if hi > lo {
        lemma_col_sum_as_sum(g, f, b, lo, hi - 1);
        assert(f(hi - 1) == g(hi - 1, b));
    }
}

/// The sum of a pointwise sum is the sum of the sums.
pub proof fn lemma_sum_add(
    f: spec_fn(int) -> u8,
    g: spec_fn(int) -> u8,
    h: spec_fn(int) -> u8,
    lo: int,
    hi: int,
)
    requires
        forall|k: int| lo <= k < hi ==> #[trigger] h(k) == gf16_add(f(k), g(k)),
    ensures
        sum_over(h, lo, hi) == gf16_add(sum_over(f, lo, hi), sum_over(g, lo, hi)),
    decreases hi - lo,
{
    if hi > lo {
        lemma_sum_add(f, g, h, lo, hi - 1);
        assert(h(hi - 1) == gf16_add(f(hi - 1), g(hi - 1)));
        lemma_add_regroup(
            sum_over(f, lo, hi - 1),
            sum_over(g, lo, hi - 1),
            f(hi - 1),
            g(hi - 1),
        );
    } else {
        lemma_add_self(0);
    }
}

/// A factor common to every term of a sum can be taken out of it.
pub proof fn lemma_sum_scale(
    f: spec_fn(int) -> u8,
    h: spec_fn(int) -> u8,
    s: u8,
    lo: int,
    hi: int,
)
    requires
        nibbles_on(f, lo, hi),
        s < 16,
        forall|k: int| lo <= k < hi ==> #[trigger] h(k) == gf16_mul(f(k), s),
    ensures
        sum_over(h, lo, hi) == gf16_mul(sum_over(f, lo, hi), s),
    decreases hi - lo,
{
    if hi > lo {
        lemma_sum_scale(f, h, s, lo, hi - 1);
        lemma_sum_nibble(f, lo, hi - 1);
        assert(f(hi - 1) < 16);
        assert(h(hi - 1) == gf16_mul(f(hi - 1), s));
        lemma_mul_distributes(s, sum_over(f, lo, hi - 1), f(hi - 1));
    } else {
        lemma_mul_one_zero(s);
    }
}

/// A sum of zeros is zero.
pub proof fn lemma_sum_zero(f: spec_fn(int) -> u8, lo: int, hi: int)
    requires
        forall|k: int| lo <= k < hi ==> #[trigger] f(k) == 0,
    ensures
        sum_over(f, lo, hi) == 0,
    decreases hi - lo,
{
    if hi > lo {
        lemma_sum_zero(f, lo, hi - 1);
        assert(f(hi - 1) == 0);
        lemma_add_self(0);
    }
}

/// A sum over a range is the sum over its two parts.
pub proof fn lemma_sum_split(f: spec_fn(int) -> u8, lo: int, mid: int, hi: int)
    requires
        lo <= mid <= hi,
    ensures
        sum_over(f, lo, hi) == gf16_add(sum_over(f, lo, mid), sum_over(f, mid, hi)),
    decreases hi - mid,
{
    if hi > mid {
        lemma_sum_split(f, lo, mid, hi - 1);
        lemma_add_laws(sum_over(f, lo, mid), sum_over(f, mid, hi - 1), f(hi - 1));
    } else {
        lemma_add_laws(sum_over(f, lo, mid), 0, 0);
    }
}

/// A sum over a rectangle is the sum of the sums over its rows.
pub proof fn lemma_rect_sum_as_sum(
    g: spec_fn(int, int) -> u8,
    f: spec_fn(int) -> u8,
    rows: int,
    cols: int,
)
    requires
        forall|a: int| 0 <= a < rows ==> #[trigger] f(a) == row_sum(g, a, 0, cols),
    ensures
        rect_sum(g, rows, cols) == sum_over(f, 0, rows),
    decreases rows,
{
    if rows > 0 {
        lemma_rect_sum_as_sum(g, f, rows - 1, cols);
        assert(f(rows - 1) == row_sum(g, rows - 1, 0, cols));
    }
}

/// A sum over a rectangle, taken column after column, is the sum of the
/// sums over its columns.
pub proof fn lemma_rect_sum_by_cols_as_sum(
    g: spec_fn(int, int) -> u8,
    f: spec_fn(int) -> u8,
    rows: int,
    cols: int,
)
    requires
        forall|b: int| 0 <= b < cols ==> #[trigger] f(b) == col_sum(g, b, 0, rows),
    ensures
        rect_sum_by_cols(g, rows, cols) == sum_over(f, 0, cols),
    decreases cols,
{
    if cols > 0 {
        lemma_rect_sum_by_cols_as_sum(g, f, rows, cols - 1);
        assert(f(cols - 1) == col_sum(g, cols - 1, 0, rows));
    }
}

/// One more column adds its column sum to a rectangle taken row after row.
pub proof fn lemma_rect_sum_widen(g: spec_fn(int, int) -> u8, rows: int, cols: int)
    requires
        0 <= rows,
        0 < cols,
    ensures
        rect_sum(g, rows, cols) == gf16_add(
            rect_sum(g, rows, cols - 1),
            col_sum(g, cols - 1, 0, rows),
        ),
    decreases rows,
{
    if rows > 0 {
        lemma_rect_sum_widen(g, rows - 1, cols);
        lemma_add_regroup(
            rect_sum(g, rows - 1, cols - 1),
            col_sum(g, cols - 1, 0, rows - 1),
            row_sum(g, rows - 1, 0, cols - 1),
            g(rows - 1, cols - 1),
        );
    } else {
        lemma_add_self(0);
    }
}

/// The order of summation over a rectangle does not matter.
pub proof fn lemma_rect_sum_exchange(g: spec_fn(int, int) -> u8, rows: int, cols: int)
    requires
        0 <= rows,
        0 <= cols,
    ensures
        rect_sum(g, rows, cols) == rect_sum_by_cols(g, rows, cols),
    decreases cols,
{
    if cols > 0 {
        lemma_rect_sum_exchange(g, rows, cols - 1);
        lemma_rect_sum_widen(g, rows, cols);
    } else {
        lemma_rect_sum_empty(g, rows);
    }
}

/// A rectangle without columns sums to zero.
pub proof fn lemma_rect_sum_empty(g: spec_fn(int, int) -> u8, rows: int)
    ensures
        rect_sum(g, rows, 0) == 0,
    decreases rows,
{
    if rows > 0 {
        lemma_rect_sum_empty(g, rows - 1);
        lemma_add_self(0);
    }
}

/// The sum over a row of a pointwise sum is the sum of the row sums.
pub proof fn lemma_row_sum_add(
    f: spec_fn(int, int) -> u8,
    g: spec_fn(int, int) -> u8,
    h: spec_fn(int, int) -> u8,
    a: int,
    lo: int,
    hi: int,
)
    requires
        forall|b: int| lo <= b < hi ==> #[trigger] h(a, b) == gf16_add(f(a, b), g(a, b)),
    ensures
        row_sum(h, a, lo, hi) == gf16_add(row_sum(f, a, lo, hi), row_sum(g, a, lo, hi)),
    decreases hi - lo,
{
    if hi > lo {
        lemma_row_sum_add(f, g, h, a, lo, hi - 1);
        assert(h(a, hi - 1) == gf16_add(f(a, hi - 1), g(a, hi - 1)));
        lemma_add_regroup(
            row_sum(f, a, lo, hi - 1),
            row_sum(g, a, lo, hi - 1),
            f(a, hi - 1),
            g(a, hi - 1),
        );
    } else {
        lemma_add_self(0);
    }
}

/// The sum over a rectangle of a pointwise sum is the sum of the sums.
pub proof fn lemma_rect_sum_add(
    f: spec_fn(int, int) -> u8,
    g: spec_fn(int, int) -> u8,
    h: spec_fn(int, int) -> u8,
    rows: int,
    cols: int,
)
    requires
        forall|a: int, b: int|
            0 <= a < rows && 0 <= b < cols ==> #[trigger] h(a, b) == gf16_add(f(a, b), g(a, b)),
    ensures
        rect_sum(h, rows, cols) == gf16_add(rect_sum(f, rows, cols), rect_sum(g, rows, cols)),
    decreases rows,
{
    if rows > 0 {
        lemma_rect_sum_add(f, g, h, rows - 1, cols);
        lemma_row_sum_add(f, g, h, rows - 1, 0, cols);
        lemma_add_regroup(
            rect_sum(f, rows - 1, cols),
            rect_sum(g, rows - 1, cols),
            row_sum(f, rows - 1, 0, cols),
            row_sum(g, rows - 1, 0, cols),
        );
    } else {
        lemma_add_self(0);
    }
}

/// The sum over a triangle of a pointwise sum is the sum of the sums.
pub proof fn lemma_upper_sum_add(
    f: spec_fn(int, int) -> u8,
    g: spec_fn(int, int) -> u8,
    h: spec_fn(int, int) -> u8,
    n: int,
    rows: int,
)
    requires
        rows <= n,
        forall|a: int, b: int|
            0 <= a <= b < n ==> #[trigger] h(a, b) == gf16_add(f(a, b), g(a, b)),
    ensures
        upper_sum(h, n, rows) == gf16_add(upper_sum(f, n, rows), upper_sum(g, n, rows)),
    decreases rows,
{
    if rows > 0 {
        lemma_upper_sum_add(f, g, h, n, rows - 1);
        lemma_row_sum_add(f, g, h, rows - 1, rows - 1, n);
        lemma_add_regroup(
            upper_sum(f, n, rows - 1),
            upper_sum(g, n, rows - 1),
            row_sum(f, rows - 1, rows - 1, n),
            row_sum(g, rows - 1, rows - 1, n),
        );
    } else {
        lemma_add_self(0);
    }
}

/// Functions that agree on a rectangle have the same sum over it.
pub proof fn lemma_rect_sum_ext(
    g: spec_fn(int, int) -> u8,
    h: spec_fn(int, int) -> u8,
    rows: int,
    cols: int,
)
    requires
        forall|a: int, b: int| 0 <= a < rows && 0 <= b < cols ==> #[trigger] g(a, b) == h(a, b),
    ensures
        rect_sum(g, rows, cols) == rect_sum(h, rows, cols),
    decreases rows,
{
    if rows > 0 {
        lemma_rect_sum_ext(g, h, rows - 1, cols);
        lemma_row_sum_ext(g, h, rows - 1, 0, cols);
    }
}

/// Functions that agree on a triangle have the same sum over it.
pub proof fn lemma_upper_sum_ext(
    g: spec_fn(int, int) -> u8,
    h: spec_fn(int, int) -> u8,
    n: int,
    rows: int,
)
    requires
        rows <= n,
        forall|a: int, b: int| 0 <= a <= b < n ==> #[trigger] g(a, b) == h(a, b),
    ensures
        upper_sum(g, n, rows) == upper_sum(h, n, rows),
    decreases rows,
{
    if rows > 0 {
        lemma_upper_sum_ext(g, h, n, rows - 1);
        lemma_row_sum_ext(g, h, rows - 1, rows - 1, n);
    }
}

/// A sum over a triangle is the sum of the sums over its rows.
pub proof fn lemma_upper_sum_as_sum(
    g: spec_fn(int, int) -> u8,
    f: spec_fn(int) -> u8,
    n: int,
    rows: int,
)
    requires
        forall|a: int| 0 <= a < rows ==> #[trigger] f(a) == row_sum(g, a, a, n),
    ensures
        upper_sum(g, n, rows) == sum_over(f, 0, rows),
    decreases rows,
{
    if rows > 0 {
        lemma_upper_sum_as_sum(g, f, n, rows - 1);
        assert(f(rows - 1) == row_sum(g, rows - 1, rows - 1, n));
    }
}

/// A sum of zeros over a row is zero.
pub proof fn lemma_row_sum_zero(g: spec_fn(int, int) -> u8, a: int, lo: int, hi: int)
    requires
        forall|b: int| lo <= b < hi ==> #[trigger] g(a, b) == 0,
    ensures
        row_sum(g, a, lo, hi) == 0,
    decreases hi - lo,
{
    if hi > lo {
        lemma_row_sum_zero(g, a, lo, hi - 1);
        assert(g(a, hi - 1) == 0);
        lemma_add_self(0);
    }
}

/// A sum of zeros over a triangle is zero.
pub proof fn lemma_upper_sum_zero(g: spec_fn(int, int) -> u8, n: int, rows: int)
    requires
        rows <= n,
        forall|a: int, b: int| 0 <= a <= b < n ==> #[trigger] g(a, b) == 0,
    ensures
        upper_sum(g, n, rows) == 0,
    decreases rows,
{
    if rows > 0 {
        lemma_upper_sum_zero(g, n, rows - 1);
        lemma_row_sum_zero(g, rows - 1, rows - 1, n);
        lemma_add_self(0);
    }
}

/// A sum of nibbles over a rectangle is a nibble.
pub proof fn lemma_rect_sum_nibble(g: spec_fn(int, int) -> u8, rows: int, cols: int)
    requires
        nibbles_in(g, 0, rows, 0, cols),
    ensures
        rect_sum(g, rows, cols) < 16,
    decreases rows,
{
    if rows > 0 {
        lemma_rect_sum_nibble(g, rows - 1, cols);
        assert forall|b: int| 0 <= b < cols implies #[trigger] g(rows - 1, b) < 16 by {}
        lemma_row_sum_nibble(g, rows - 1, 0, cols);
        lemma_add_closed(rect_sum(g, rows - 1, cols), row_sum(g, rows - 1, 0, cols));
    }
}

/// A sum of nibbles over a triangle is a nibble.
pub proof fn lemma_upper_sum_nibble(g: spec_fn(int, int) -> u8, n: int, rows: int)
    requires
        rows <= n,
        forall|a: int, b: int| 0 <= a <= b < n ==> #[trigger] g(a, b) < 16,
    ensures
        upper_sum(g, n, rows) < 16,
    decreases rows,
{
    if rows > 0 {
        lemma_upper_sum_nibble(g, n, rows - 1);
        assert forall|b: int| rows - 1 <= b < n implies #[trigger] g(rows - 1, b) < 16 by {}
        lemma_row_sum_nibble(g, rows - 1, rows - 1, n);
        lemma_add_closed(upper_sum(g, n, rows - 1), row_sum(g, rows - 1, rows - 1, n));
    }
}

/// The sum of `g` over the rows `a` in `[lo, hi)` and the columns `b` in
/// `[0, cols)`, row after row.
pub open spec fn band_sum(g: spec_fn(int, int) -> u8, lo: int, hi: int, cols: int) -> u8
    decreases hi - lo,
{
    if hi <= lo {
        0u8
    } else {
        gf16_add(band_sum(g, lo, hi - 1, cols), row_sum(g, hi - 1, 0, cols))
    }
}

/// The sum of `g` over the same band, column after column.
pub open spec fn band_sum_by_cols(g: spec_fn(int, int) -> u8, lo: int, hi: int, cols: int) -> u8
    decreases cols,
{
    if cols <= 0 {
        0u8
    } else {
        gf16_add(band_sum_by_cols(g, lo, hi, cols - 1), col_sum(g, cols - 1, lo, hi))
    }
}

/// One more column adds its column sum to a band taken row after row.
pub proof fn lemma_band_sum_widen(g: spec_fn(int, int) -> u8, lo: int, hi: int, cols: int)
    requires
        lo <= hi,
        0 < cols,
    ensures
        band_sum(g, lo, hi, cols) == gf16_add(
            band_sum(g, lo, hi, cols - 1),
            col_sum(g, cols - 1, lo, hi),
        ),
    decreases hi - lo,
{
    if hi > lo {
        lemma_band_sum_widen(g, lo, hi - 1, cols);
        lemma_add_regroup(
            band_sum(g, lo, hi - 1, cols - 1),
            col_sum(g, cols - 1, lo, hi - 1),
            row_sum(g, hi - 1, 0, cols - 1),
            g(hi - 1, cols - 1),
        );
    } else {
        lemma_add_self(0);
    }
}

/// A band without columns sums to zero.
pub proof fn lemma_band_sum_empty(g: spec_fn(int, int) -> u8, lo: int, hi: int)
    ensures
        band_sum(g, lo, hi, 0) == 0,
    decreases hi - lo,
{
    if hi > lo {
        lemma_band_sum_empty(g, lo, hi - 1);
        lemma_add_self(0);
    }
}

/// The order of summation over a band does not matter.
pub proof fn lemma_band_sum_exchange(g: spec_fn(int, int) -> u8, lo: int, hi: int, cols: int)
    requires
        lo <= hi,
        0 <= cols,
    ensures
        band_sum(g, lo, hi, cols) == band_sum_by_cols(g, lo, hi, cols),
    decreases cols,
{
    if cols > 0 {
        lemma_band_sum_exchange(g, lo, hi, cols - 1);
        lemma_band_sum_widen(g, lo, hi, cols);
    } else {
        lemma_band_sum_empty(g, lo, hi);
    }
}

/// A sum over a band is the sum of the sums over its rows.
pub proof fn lemma_band_sum_as_sum(
    g: spec_fn(int, int) -> u8,
    f: spec_fn(int) -> u8,
    lo: int,
    hi: int,
    cols: int,
)
    requires
        forall|a: int| lo <= a < hi ==> #[trigger] f(a) == row_sum(g, a, 0, cols),
    ensures
        band_sum(g, lo, hi, cols) == sum_over(f, lo, hi),
    decreases hi - lo,
{
    if hi > lo {
        lemma_band_sum_as_sum(g, f, lo, hi - 1, cols);
        assert(f(hi - 1) == row_sum(g, hi - 1, 0, cols));
    }
}

/// A sum over a band, taken column after column, is the sum of the sums
/// over its columns.
pub proof fn lemma_band_sum_by_cols_as_sum(
    g: spec_fn(int, int) -> u8,
    f: spec_fn(int) -> u8,
    lo: int,
    hi: int,
    cols: int,
)
    requires
        forall|b: int| 0 <= b < cols ==> #[trigger] f(b) == col_sum(g, b, lo, hi),
    ensures
        band_sum_by_cols(g, lo, hi, cols) == sum_over(f, 0, cols),
    decreases cols,
{
    if cols > 0 {
        lemma_band_sum_by_cols_as_sum(g, f, lo, hi, cols - 1);
        assert(f(cols - 1) == col_sum(g, cols - 1, lo, hi));
    }
}

/// A row sum over one position is the value there.
pub proof fn lemma_row_sum_single(g: spec_fn(int, int) -> u8, a: int, b: int)
    ensures
        row_sum(g, a, b, b + 1) == g(a, b),
{
    assert(row_sum(g, a, b, b) == 0);
    lemma_add_laws(g(a, b), 0, 0);
}

/// The sum over the entries of a square is the sum over its upper triangle
/// of each diagonal entry and of each pair of mirror images.
pub proof fn lemma_square_as_upper(
    g: spec_fn(int, int) -> u8,
    u: spec_fn(int, int) -> u8,
    n: int,
)
    requires
        0 <= n,
        forall|a: int, b: int|
            0 <= a <= b < n ==> #[trigger] u(a, b) == (if a == b {
                g(a, a)
            } else {
                gf16_add(g(a, b), g(b, a))
            }),
    ensures
        rect_sum(g, n, n) == upper_sum(u, n, n),
    decreases n,
{
    if n > 0 {
        lemma_square_as_upper(g, u, n - 1);
        lemma_rect_sum_widen(g, n - 1, n);
        lemma_upper_sum_widen(u, n, n - 1);
        let sq = rect_sum(g, n - 1, n - 1);
        let col = col_sum(g, n - 1, 0, n - 1);
        let row = row_sum(g, n - 1, 0, n - 1);
        let d = g(n - 1, n - 1);
        assert(u(n - 1, n - 1) == d);
        lemma_row_sum_single(u, n - 1, n - 1);
        assert forall|a: int| 0 <= a < n - 1 implies #[trigger] u(a, n - 1) == gf16_add(
            g(a, n - 1),
            g(n - 1, a),
        ) by {}
        lemma_col_pairs(g, u, n - 1, n - 1);
        lemma_add_laws(sq, col, gf16_add(row, d));
        lemma_add_laws(col, row, d);
        lemma_add_laws(sq, gf16_add(col, row), d);
    }
}

/// One more column adds its part above the diagonal to a triangle whose
/// rows stop before it.
pub proof fn lemma_upper_sum_widen(u: spec_fn(int, int) -> u8, n: int, rows: int)
    requires
        0 <= rows < n,
    ensures
        upper_sum(u, n, rows) == gf16_add(upper_sum(u, n - 1, rows), col_sum(u, n - 1, 0, rows)),
    decreases rows,
{
    if rows > 0 {
        lemma_upper_sum_widen(u, n, rows - 1);
        lemma_add_regroup(
            upper_sum(u, n - 1, rows - 1),
            col_sum(u, n - 1, 0, rows - 1),
            row_sum(u, rows - 1, rows - 1, n - 1),
            u(rows - 1, n - 1),
        );
    } else {
        lemma_add_self(0);
    }
}

/// The part of column `c` above the diagonal, in a function that pairs
/// mirror images, is the column of the square plus its mirror row.
pub proof fn lemma_col_pairs(
    g: spec_fn(int, int) -> u8,
    u: spec_fn(int, int) -> u8,
    c: int,
    rows: int,
)
    requires
        0 <= rows <= c,
        forall|a: int| 0 <= a < rows ==> #[trigger] u(a, c) == gf16_add(g(a, c), g(c, a)),
    ensures
        col_sum(u, c, 0, rows) == gf16_add(col_sum(g, c, 0, rows), row_sum(g, c, 0, rows)),
    decreases rows,
{
    if rows > 0 {
        lemma_col_pairs(g, u, c, rows - 1);
        assert(u(rows - 1, c) == gf16_add(g(rows - 1, c), g(c, rows - 1)));
        lemma_add_regroup(
            col_sum(g, c, 0, rows - 1),
            row_sum(g, c, 0, rows - 1),
            g(rows - 1, c),
            g(c, rows - 1),
        );
    } else {
        lemma_add_self(0);
    }
}

/// The order of summation over a triangle does not matter.
pub proof fn lemma_upper_sum_exchange(u: spec_fn(int, int) -> u8, n: int)
    requires
        0 <= n,
    ensures
        upper_sum(u, n, n) == upper_sum_by_cols(u, n),
    decreases n,
{
    if n > 0 {
        lemma_upper_sum_exchange(u, n - 1);
        lemma_upper_sum_widen(u, n, n - 1);
        lemma_row_sum_single(u, n - 1, n - 1);
        lemma_add_laws(
            upper_sum(u, n - 1, n - 1),
            col_sum(u, n - 1, 0, n - 1),
            u(n - 1, n - 1),
        );
    }
}

/// A sum over a triangle, taken column after column, is the sum of the
/// sums over the parts of its columns on and above the diagonal.
pub proof fn lemma_upper_sum_by_cols_as_sum(
    u: spec_fn(int, int) -> u8,
    f: spec_fn(int) -> u8,
    cols: int,
)
    requires
        forall|b: int| 0 <= b < cols ==> #[trigger] f(b) == col_sum(u, b, 0, b + 1),
    ensures
        upper_sum_by_cols(u, cols) == sum_over(f, 0, cols),
    decreases cols,
{
    if cols > 0 {
        lemma_upper_sum_by_cols_as_sum(u, f, cols - 1);
        assert(f(cols - 1) == col_sum(u, cols - 1, 0, cols));
    }
}

/// A factor common to every term of a row sum can be taken out of it.
pub proof fn lemma_row_sum_scale(
    g: spec_fn(int, int) -> u8,
    h: spec_fn(int, int) -> u8,
    a: int,
    s: u8,
    lo: int,
    hi: int,
)
    requires
        forall|b: int| lo <= b < hi ==> #[trigger] g(a, b) < 16,
        s < 16,
        forall|b: int| lo <= b < hi ==> #[trigger] h(a, b) == gf16_mul(g(a, b), s),
    ensures
        row_sum(h, a, lo, hi) == gf16_mul(row_sum(g, a, lo, hi), s),
    decreases hi - lo,
{
    if hi > lo {
        lemma_row_sum_scale(g, h, a, s, lo, hi - 1);
        assert forall|b: int| lo <= b < hi - 1 implies #[trigger] g(a, b) < 16 by {}
        lemma_row_sum_nibble(g, a, lo, hi - 1);
        assert(g(a, hi - 1) < 16);
        assert(h(a, hi - 1) == gf16_mul(g(a, hi - 1), s));
        lemma_mul_distributes(s, row_sum(g, a, lo, hi - 1), g(a, hi - 1));
    } else {
        lemma_mul_one_zero(s);
    }
}

/// A factor common to every term of a column sum can be taken out of it.
pub proof fn lemma_col_sum_scale(
    g: spec_fn(int, int) -> u8,
    h: spec_fn(int, int) -> u8,
    b: int,
    s: u8,
    lo: int,
    hi: int,
)
    requires
        forall|a: int| lo <= a < hi ==> #[trigger] g(a, b) < 16,
        s < 16,
        forall|a: int| lo <= a < hi ==> #[trigger] h(a, b) == gf16_mul(g(a, b), s),
    ensures
        col_sum(h, b, lo, hi) == gf16_mul(col_sum(g, b, lo, hi), s),
    decreases hi - lo,
{
    if hi > lo {
        lemma_col_sum_scale(g, h, b, s, lo, hi - 1);
        assert forall|a: int| lo <= a < hi - 1 implies #[trigger] g(a, b) < 16 by {}
        lemma_col_sum_nibble(g, b, lo, hi - 1);
        assert(g(hi - 1, b) < 16);
        assert(h(hi - 1, b) == gf16_mul(g(hi - 1, b), s));
        lemma_mul_distributes(s, col_sum(g, b, lo, hi - 1), g(hi - 1, b));
    } else {
        lemma_mul_one_zero(s);
    }
}

/// A sum over `rows * cols` consecutive integers is the sum over the
/// rectangle of the values at `a * cols + b`.
pub proof fn lemma_sum_flatten(
    f: spec_fn(int) -> u8,
    g: spec_fn(int, int) -> u8,
    rows: int,
    cols: int,
)
    requires
        0 <= rows,
        0 <= cols,
        forall|a: int, b: int|
            0 <= a < rows && 0 <= b < cols ==> #[trigger] g(a, b) == f(a * cols + b),
    ensures
        sum_over(f, 0, rows * cols) == rect_sum(g, rows, cols),
    decreases rows,
{
    if rows > 0 {
        lemma_sum_flatten(f, g, rows - 1, cols);
        assert((rows - 1) * cols + cols == rows * cols) by (nonlinear_arith);
        assert(0 <= (rows - 1) * cols) by (nonlinear_arith)
            requires
                rows >= 1,
                cols >= 0,
        ;
        lemma_sum_split(f, 0, (rows - 1) * cols, rows * cols);
        lemma_row_as_run(f, g, rows - 1, cols, cols);
    } else {
        assert(rows * cols == 0) by (nonlinear_arith)
            requires
                rows == 0,
        ;
    }
}

/// A row of the rectangle is a run of consecutive integers.
pub proof fn lemma_row_as_run(
    f: spec_fn(int) -> u8,
    g: spec_fn(int, int) -> u8,
    a: int,
    cols: int,
    hi: int,
)
    requires
        0 <= hi <= cols,
        forall|b: int| 0 <= b < cols ==> #[trigger] g(a, b) == f(a * cols + b),
    ensures
        row_sum(g, a, 0, hi) == sum_over(f, a * cols, a * cols + hi),
    decreases hi,
{
    if hi > 0 {
        lemma_row_as_run(f, g, a, cols, hi - 1);
        assert(g(a, hi - 1) == f(a * cols + (hi - 1)));
    }
}

/// A sum whose terms are zero except at one point is the value there.
pub proof fn lemma_sum_one_point(f: spec_fn(int) -> u8, lo: int, hi: int, p: int)
    requires
        lo <= p < hi,
        forall|k: int| lo <= k < hi && k != p ==> #[trigger] f(k) == 0,
    ensures
        sum_over(f, lo, hi) == f(p),
{
    lemma_sum_split(f, lo, p, hi);
    lemma_sum_split(f, p, p + 1, hi);
    lemma_sum_zero(f, lo, p);
    lemma_sum_zero(f, p + 1, hi);
    assert(sum_over(f, p, p) == 0);
    lemma_add_laws(f(p), 0, 0);
}

/// A sum whose terms are zero except at two points is the sum of the values there.
pub proof fn lemma_sum_two_points(f: spec_fn(int) -> u8, lo: int, hi: int, p: int, q: int)
    requires
        lo <= p < q < hi,
        forall|k: int| lo <= k < hi && k != p && k != q ==> #[trigger] f(k) == 0,
    ensures
        sum_over(f, lo, hi) == gf16_add(f(p), f(q)),
{
    lemma_sum_split(f, lo, q, hi);
    lemma_sum_one_point(f, lo, q, p);
    lemma_sum_one_point(f, q, hi, q);
}

} // verus!
