//! What the reduction of a linear system keeps and what back-substitution
//! gives: the reduced system has the solutions of the system it came from,
//! and a vector that back-substitution returns solves both.

use crate::f16::{
    all_nibbles, gf16_add, gf16_inv, gf16_mul, lemma_add_closed, lemma_add_laws, lemma_add_self,
    lemma_mul_associates, lemma_mul_closed, lemma_mul_commutes, lemma_mul_distributes,
    lemma_mul_inverse, lemma_mul_one_zero,
};
use crate::matrix::{
    back_substitute, clear_column, clear_column_rhs, find_pivot, first_nonzero, has_shape,
    has_unit_pivot, pivot_step, row_echelon, row_echelon_from, scale_row_of, swap_rows_of,
};
use crate::mayo_operations::sample_solution;
use crate::vector::{dot_range, seq_add, seq_dot, seq_scale, swap_entries};
use vstd::prelude::*;

verus! {

/// Whether every entry of every row is a nibble.
pub open spec fn nibble_rows(a: Seq<Seq<u8>>) -> bool {
    forall|r: int| 0 <= r < a.len() ==> all_nibbles(#[trigger] a[r])
}

/// Whether `x` solves the system `a x = y`: every row of `a` times `x` is
/// the entry of `y` for that row.
pub open spec fn solves(a: Seq<Seq<u8>>, y: Seq<u8>, x: Seq<u8>) -> bool {
    forall|r: int| 0 <= r < a.len() ==> seq_dot(#[trigger] a[r], x) == y[r]
}

/// Four-term sums in GF(16) can be regrouped pairwise.
pub proof fn lemma_add_regroup(p: u8, q: u8, r: u8, t: u8)
    ensures
        gf16_add(gf16_add(p, q), gf16_add(r, t)) == gf16_add(gf16_add(p, r), gf16_add(q, t)),
{
    assert((p ^ q) ^ (r ^ t) == (p ^ r) ^ (q ^ t)) by (bit_vector);
}

/// A partial dot product of nibbles is a nibble.
pub proof fn lemma_dot_nibble(a: Seq<u8>, x: Seq<u8>, lo: int, hi: int)
    requires
        all_nibbles(a),
        all_nibbles(x),
        0 <= lo,
        hi <= a.len(),
        hi <= x.len(),
    ensures
        dot_range(a, x, lo, hi) < 16,
    decreases hi - lo,
{
    if hi > lo {
        lemma_dot_nibble(a, x, lo, hi - 1);
        lemma_mul_closed(a[hi - 1], x[hi - 1]);
        lemma_add_closed(dot_range(a, x, lo, hi - 1), gf16_mul(a[hi - 1], x[hi - 1]));
    }
}

/// The dot product is linear in its first argument: scaling a row scales
/// its dot product.
pub proof fn lemma_dot_scale(a: Seq<u8>, x: Seq<u8>, s: u8, lo: int, hi: int)
    requires
        all_nibbles(a),
        all_nibbles(x),
        s < 16,
        0 <= lo,
        hi <= a.len(),
        hi <= x.len(),
    ensures
        dot_range(seq_scale(a, s), x, lo, hi) == gf16_mul(dot_range(a, x, lo, hi), s),
    decreases hi - lo,
{
    if hi > lo {
        lemma_dot_scale(a, x, s, lo, hi - 1);
        lemma_dot_nibble(a, x, lo, hi - 1);
        let d = dot_range(a, x, lo, hi - 1);
        let e = a[hi - 1];
        let f = x[hi - 1];
        lemma_mul_closed(e, f);
        lemma_mul_distributes(s, d, gf16_mul(e, f));
        lemma_mul_associates(e, s, f);
        lemma_mul_commutes(s, f);
        lemma_mul_associates(e, f, s);
        assert(seq_scale(a, s)[hi - 1] == gf16_mul(e, s));
    } else {
        lemma_mul_one_zero(s);
    }
}

/// The dot product is additive in its first argument.
pub proof fn lemma_dot_add(a: Seq<u8>, b: Seq<u8>, x: Seq<u8>, lo: int, hi: int)
    requires
        all_nibbles(a),
        all_nibbles(b),
        all_nibbles(x),
        0 <= lo,
        hi <= a.len(),
        hi <= b.len(),
        hi <= x.len(),
    ensures
        dot_range(seq_add(a, b), x, lo, hi) == gf16_add(
            dot_range(a, x, lo, hi),
            dot_range(b, x, lo, hi),
        ),
    decreases hi - lo,
{
    if hi > lo {
        lemma_dot_add(a, b, x, lo, hi - 1);
        let e = a[hi - 1];
        let g = b[hi - 1];
        let f = x[hi - 1];
        lemma_mul_distributes(f, e, g);
        lemma_add_regroup(
            dot_range(a, x, lo, hi - 1),
            dot_range(b, x, lo, hi - 1),
            gf16_mul(e, f),
            gf16_mul(g, f),
        );
        assert(seq_add(a, b)[hi - 1] == gf16_add(e, g));
    } else {
        lemma_add_self(0);
    }
}

/// Adding the same element to both sides of an equation can be undone.
pub proof fn lemma_add_cancel(a: u8, b: u8, c: u8)
    ensures
        gf16_add(a, c) == gf16_add(b, c) <==> a == b,
{
    assert((a ^ c == b ^ c) <==> (a == b)) by (bit_vector);
}

/// Whether `a`, `y` and `x` are a system of `ncols` unknowns over nibbles:
/// every row of `a` has `ncols` entries, `y` has one entry for each row, and
/// `x` one for each unknown.
pub open spec fn is_system(a: Seq<Seq<u8>>, y: Seq<u8>, x: Seq<u8>, ncols: nat) -> bool {
    &&& has_shape(a, a.len(), ncols)
    &&& nibble_rows(a)
    &&& y.len() == a.len()
    &&& all_nibbles(y)
    &&& x.len() == ncols
    &&& all_nibbles(x)
}

/// Exchanging two equations changes no solution.
pub proof fn lemma_swap_solutions(a: Seq<Seq<u8>>, y: Seq<u8>, i: int, p: int, x: Seq<u8>)
    requires
        y.len() == a.len(),
        0 <= i < a.len(),
        0 <= p < a.len(),
    ensures
        solves(swap_rows_of(a, i, p), swap_entries(y, i, p), x) <==> solves(a, y, x),
{
    let a1 = swap_rows_of(a, i, p);
    let y1 = swap_entries(y, i, p);
    if solves(a, y, x) {
        assert forall|r: int| 0 <= r < a1.len() implies seq_dot(#[trigger] a1[r], x) == y1[r] by {
            if r == i {
                assert(a1[r] == a[p]);
            } else if r == p {
                assert(a1[r] == a[i]);
            } else {
                assert(a1[r] == a[r]);
            }
        }
    }
    if solves(a1, y1, x) {
        assert forall|r: int| 0 <= r < a.len() implies seq_dot(#[trigger] a[r], x) == y[r] by {
            if r == i {
                assert(a1[p] == a[i]);
            } else if r == p {
                assert(a1[i] == a[p]);
            } else {
                assert(a1[r] == a[r]);
            }
        }
    }
}

/// Multiplying an equation by an invertible element changes no solution.
pub proof fn lemma_scale_solutions(
    a: Seq<Seq<u8>>,
    y: Seq<u8>,
    p: int,
    s: u8,
    t: u8,
    ncols: nat,
    x: Seq<u8>,
)
    requires
        is_system(a, y, x, ncols),
        0 <= p < a.len(),
        s < 16,
        t < 16,
        gf16_mul(s, t) == 1,
    ensures
        solves(scale_row_of(a, p, s), y.update(p, gf16_mul(y[p], s)), x) <==> solves(a, y, x),
{
    let a2 = scale_row_of(a, p, s);
    let y2 = y.update(p, gf16_mul(y[p], s));
    assert(a[p].len() == ncols);
    assert(all_nibbles(a[p]));
    lemma_dot_scale(a[p], x, s, 0, ncols as int);
    lemma_dot_nibble(a[p], x, 0, ncols as int);
    let d = seq_dot(a[p], x);
    assert(seq_scale(a[p], s).len() == ncols);
    assert(seq_dot(a2[p], x) == gf16_mul(d, s));
    if solves(a, y, x) {
        assert forall|r: int| 0 <= r < a2.len() implies seq_dot(#[trigger] a2[r], x) == y2[r] by {
            if r != p {
                assert(a2[r] == a[r]);
            }
        }
    }
    if solves(a2, y2, x) {
        assert forall|r: int| 0 <= r < a.len() implies seq_dot(#[trigger] a[r], x) == y[r] by {
            if r != p {
                assert(a2[r] == a[r]);
            } else {
                assert(seq_dot(a2[p], x) == y2[p]);
                assert(y[p] < 16);
                lemma_mul_associates(d, s, t);
                lemma_mul_associates(y[p], s, t);
                lemma_mul_one_zero(d);
                lemma_mul_one_zero(y[p]);
            }
        }
    }
}

/// Adding multiples of one equation to the others changes no solution.
pub proof fn lemma_clear_solutions(
    a: Seq<Seq<u8>>,
    y: Seq<u8>,
    p: int,
    col: int,
    ncols: nat,
    x: Seq<u8>,
)
    requires
        is_system(a, y, x, ncols),
        0 <= p < a.len(),
        0 <= col < ncols,
    ensures
        solves(clear_column(a, p, col), clear_column_rhs(a, y, p, col), x) <==> solves(a, y, x),
{
    let a3 = clear_column(a, p, col);
    let y3 = clear_column_rhs(a, y, p, col);
    assert(a[p].len() == ncols);
    assert(all_nibbles(a[p]));
    lemma_dot_nibble(a[p], x, 0, ncols as int);
    let dp = seq_dot(a[p], x);
    assert forall|r: int| 0 <= r < a.len() && r != p implies seq_dot(#[trigger] a3[r], x)
        == gf16_add(seq_dot(a[r], x), gf16_mul(dp, a[r][col])) by {
        assert(a[r].len() == ncols);
        assert(all_nibbles(a[r]));
        let f = a[r][col];
        let scaled = seq_scale(a[p], f);
        assert(all_nibbles(scaled)) by {
            assert forall|k: int| 0 <= k < scaled.len() implies #[trigger] scaled[k] < 16 by {
                lemma_mul_closed(a[p][k], f);
            }
        }
        lemma_dot_add(a[r], scaled, x, 0, ncols as int);
        lemma_dot_scale(a[p], x, f, 0, ncols as int);
        assert(seq_add(a[r], scaled).len() == ncols);
    }
    assert(a3[p] == a[p]);
    if solves(a, y, x) {
        assert forall|r: int| 0 <= r < a3.len() implies seq_dot(#[trigger] a3[r], x) == y3[r] by {
            if r != p {
                assert(seq_dot(a[r], x) == y[r]);
                assert(seq_dot(a[p], x) == y[p]);
                assert(all_nibbles(a[r]));
                lemma_mul_commutes(y[p], a[r][col]);
            } else {
                assert(seq_dot(a[p], x) == y[p]);
            }
        }
    }
    if solves(a3, y3, x) {
        assert(seq_dot(a3[p], x) == y3[p]);
        assert(dp == y[p]);
        assert forall|r: int| 0 <= r < a.len() implies seq_dot(#[trigger] a[r], x) == y[r] by {
            if r != p {
                assert(seq_dot(a3[r], x) == y3[r]);
                assert(all_nibbles(a[r]));
                lemma_mul_commutes(y[p], a[r][col]);
                lemma_add_cancel(seq_dot(a[r], x), y[r], gf16_mul(dp, a[r][col]));
            }
        }
    }
}

/// The pivot search returns a row at or after its start that is not zero
/// in the column, or the number of rows; every row it passed is zero there.
pub proof fn lemma_find_pivot(a: Seq<Seq<u8>>, col: int, from: int)
    requires
        0 <= from <= a.len(),
    ensures
        from <= find_pivot(a, col, from) <= a.len(),
        find_pivot(a, col, from) < a.len() ==> a[find_pivot(a, col, from)][col] != 0,
        forall|r: int| from <= r < find_pivot(a, col, from) ==> (#[trigger] a[r])[col] == 0,
    decreases a.len() - from,
{
    if from < a.len() && a[from][col] == 0 {
        lemma_find_pivot(a, col, from + 1);
    }
}

/// One pivot keeps the shape of the system and its solutions.
pub proof fn lemma_pivot_step(
    a: Seq<Seq<u8>>,
    y: Seq<u8>,
    i: int,
    p: int,
    col: int,
    ncols: nat,
    x: Seq<u8>,
)
    requires
        is_system(a, y, x, ncols),
        0 <= p <= i < a.len(),
        0 <= col < ncols,
        a[i][col] != 0,
    ensures
        is_system(pivot_step(a, y, i, p, col).0, pivot_step(a, y, i, p, col).1, x, ncols),
        pivot_step(a, y, i, p, col).0.len() == a.len(),
        solves(pivot_step(a, y, i, p, col).0, pivot_step(a, y, i, p, col).1, x) <==> solves(
            a,
            y,
            x,
        ),
{
    let a1 = swap_rows_of(a, i, p);
    let y1 = swap_entries(y, i, p);
    lemma_swap_solutions(a, y, i, p, x);
    assert(is_system(a1, y1, x, ncols)) by {
        assert forall|r: int| 0 <= r < a1.len() implies (#[trigger] a1[r]).len() == ncols
            && all_nibbles(a1[r]) by {
            if r == i {
                assert(a1[r] == a[p]);
            } else if r == p {
                assert(a1[r] == a[i]);
            } else {
                assert(a1[r] == a[r]);
            }
        }
        assert forall|r: int| 0 <= r < y1.len() implies #[trigger] y1[r] < 16 by {
            assert(y[r] < 16 && y[i] < 16 && y[p] < 16);
        }
    }
    let piv = a1[p][col];
    assert(a1[p] == a[i]);
    assert(all_nibbles(a[i]));
    assert(piv < 16);
    lemma_mul_inverse(piv);
    let inv = gf16_inv(piv);
    let a2 = scale_row_of(a1, p, inv);
    let y2 = y1.update(p, gf16_mul(y1[p], inv));
    lemma_scale_solutions(a1, y1, p, inv, piv, ncols, x);
    assert(is_system(a2, y2, x, ncols)) by {
        assert forall|r: int| 0 <= r < a2.len() implies (#[trigger] a2[r]).len() == ncols
            && all_nibbles(a2[r]) by {
            if r == p {
                assert(a1[p].len() == ncols);
                assert forall|k: int| 0 <= k < a2[r].len() implies #[trigger] a2[r][k] < 16 by {
                    lemma_mul_closed(a1[p][k], inv);
                }
            } else {
                assert(a2[r] == a1[r]);
            }
        }
        assert forall|r: int| 0 <= r < y2.len() implies #[trigger] y2[r] < 16 by {
            if r == p {
                assert(y1[p] < 16);
                lemma_mul_closed(y1[p], inv);
            } else {
                assert(y1[r] < 16);
            }
        }
    }
    lemma_clear_solutions(a2, y2, p, col, ncols, x);
    let a3 = clear_column(a2, p, col);
    let y3 = clear_column_rhs(a2, y2, p, col);
    assert(is_system(a3, y3, x, ncols)) by {
        assert(a2[p].len() == ncols && all_nibbles(a2[p]));
        assert forall|r: int| 0 <= r < a3.len() implies (#[trigger] a3[r]).len() == ncols
            && all_nibbles(a3[r]) by {
            assert(a2[r].len() == ncols && all_nibbles(a2[r]));
            if r != p {
                assert forall|k: int| 0 <= k < a3[r].len() implies #[trigger] a3[r][k] < 16 by {
                    lemma_mul_closed(a2[p][k], a2[r][col]);
                    lemma_add_closed(a2[r][k], gf16_mul(a2[p][k], a2[r][col]));
                }
            }
        }
        assert forall|r: int| 0 <= r < y3.len() implies #[trigger] y3[r] < 16 by {
            assert(a2[r].len() == ncols && all_nibbles(a2[r]));
            assert(y2[r] < 16 && y2[p] < 16);
            if r != p {
                lemma_mul_closed(a2[r][col], y2[p]);
                lemma_add_closed(y2[r], gf16_mul(a2[r][col], y2[p]));
            }
        }
    }
}

/// The reduced system has the shape of the system it came from and exactly
/// its solutions, and the rank is no more than the number of rows.
pub proof fn lemma_row_echelon_solutions(
    a: Seq<Seq<u8>>,
    y: Seq<u8>,
    ncols: nat,
    col: int,
    p: int,
    x: Seq<u8>,
)
    requires
        is_system(a, y, x, ncols),
        0 <= col,
        0 <= p <= a.len(),
    ensures
        is_system(
            row_echelon_from(a, y, ncols as int, col, p).0,
            row_echelon_from(a, y, ncols as int, col, p).1,
            x,
            ncols,
        ),
        row_echelon_from(a, y, ncols as int, col, p).0.len() == a.len(),
        p <= row_echelon_from(a, y, ncols as int, col, p).2 <= a.len(),
        solves(
            row_echelon_from(a, y, ncols as int, col, p).0,
            row_echelon_from(a, y, ncols as int, col, p).1,
            x,
        ) <==> solves(a, y, x),
    decreases ncols - col,
{
    if col >= ncols || p >= a.len() {
    } else {
        lemma_find_pivot(a, col, p);
        let i = find_pivot(a, col, p);
        if i >= a.len() {
            lemma_row_echelon_solutions(a, y, ncols, col + 1, p, x);
        } else {
            lemma_pivot_step(a, y, i, p, col, ncols, x);
            let next = pivot_step(a, y, i, p, col);
            lemma_row_echelon_solutions(next.0, next.1, ncols, col + 1, p + 1, x);
        }
    }
}

/// The search for the leading entry returns a position at or after its
/// start where the row is not zero, or the length of the row; every entry
/// it passed is zero.
pub proof fn lemma_first_nonzero(row: Seq<u8>, from: int)
    requires
        0 <= from <= row.len(),
    ensures
        from <= first_nonzero(row, from) <= row.len(),
        first_nonzero(row, from) < row.len() ==> row[first_nonzero(row, from)] != 0,
        forall|k: int| from <= k < first_nonzero(row, from) ==> #[trigger] row[k] == 0,
    decreases row.len() - from,
{
    if from < row.len() && row[from] == 0 {
        lemma_first_nonzero(row, from + 1);
    }
}

/// A position that is not zero and has only zeros before it is the leading entry.
pub proof fn lemma_leading_entry(row: Seq<u8>, pc: int)
    requires
        0 <= pc < row.len(),
        row[pc] != 0,
        forall|k: int| 0 <= k < pc ==> #[trigger] row[k] == 0,
    ensures
        first_nonzero(row, 0) == pc,
{
    lemma_first_nonzero(row, 0);
    let f = first_nonzero(row, 0);
    if f < pc {
        assert(row[f] == 0);
    } else if f > pc {
        assert(row[pc] == 0);
    }
}

/// A row of zeros has no leading entry.
pub proof fn lemma_zero_row(row: Seq<u8>)
    requires
        forall|k: int| 0 <= k < row.len() ==> #[trigger] row[k] == 0,
    ensures
        first_nonzero(row, 0) == row.len(),
{
    lemma_first_nonzero(row, 0);
    let f = first_nonzero(row, 0);
    if f < row.len() {
        assert(row[f] == 0);
    }
}

/// Whether every row at or after `p` is zero in every column before `col`.
pub open spec fn cleared_below(a: Seq<Seq<u8>>, col: int, p: int) -> bool {
    forall|r: int, k: int| p <= r < a.len() && 0 <= k < col ==> #[trigger] a[r][k] == 0
}

/// Whether column `pc` is zero in every row but `r`.
pub open spec fn column_clear_but(a: Seq<Seq<u8>>, r: int, pc: int) -> bool {
    forall|r2: int| 0 <= r2 < a.len() && r2 != r ==> #[trigger] a[r2][pc] == 0
}

/// Whether row `r` is a pivot row with its pivot before column `col`: its
/// leading entry is one, and its column is zero in every other row.
pub open spec fn pivot_row(a: Seq<Seq<u8>>, r: int, col: int) -> bool {
    let pc = first_nonzero(a[r], 0);
    &&& 0 <= pc < col
    &&& pc < a[r].len()
    &&& a[r][pc] == 1
    &&& column_clear_but(a, r, pc)
}

/// The state of the reduction before column `col`, with `p` pivots placed:
/// the first `p` rows are pivot rows, and the rows after them are zero in
/// every column before `col`.
pub open spec fn pivots_placed(a: Seq<Seq<u8>>, col: int, p: int) -> bool {
    &&& forall|r: int| 0 <= r < p ==> #[trigger] pivot_row(a, r, col)
    &&& cleared_below(a, col, p)
}

/// Whether a system is in reduced row-echelon form: every row is zero or
/// has a leading one whose column is zero in every other row.
pub open spec fn is_reduced(a: Seq<Seq<u8>>, ncols: int) -> bool {
    forall|r: int|
        0 <= r < a.len() ==> first_nonzero(#[trigger] a[r], 0) >= ncols || pivot_row(a, r, ncols)
}

/// What one pivot at row `p` and column `col` leaves in the matrix, when
/// the rows at or after `p` were zero before `col`: row `p` leads with a one
/// at `col`, column `col` is zero elsewhere, and nothing before `col` changes
/// in the rows before `p`.
pub proof fn lemma_pivot_step_entries(
    a: Seq<Seq<u8>>,
    y: Seq<u8>,
    i: int,
    p: int,
    col: int,
    ncols: nat,
)
    requires
        has_shape(a, a.len(), ncols),
        nibble_rows(a),
        0 <= p <= i < a.len(),
        0 <= col < ncols,
        a[i][col] != 0,
        cleared_below(a, col, p),
    ensures
        pivot_step(a, y, i, p, col).0.len() == a.len(),
        has_shape(pivot_step(a, y, i, p, col).0, a.len(), ncols),
        forall|k: int| 0 <= k < col ==> #[trigger] pivot_step(a, y, i, p, col).0[p][k] == 0,
        pivot_step(a, y, i, p, col).0[p][col] == 1,
        forall|r: int|
            0 <= r < a.len() && r != p ==> #[trigger] pivot_step(a, y, i, p, col).0[r][col] == 0,
        forall|r: int, k: int|
            0 <= r < p && 0 <= k < col ==> #[trigger] pivot_step(a, y, i, p, col).0[r][k]
                == a[r][k],
        forall|r: int, k: int|
            p < r < a.len() && 0 <= k < col ==> #[trigger] pivot_step(a, y, i, p, col).0[r][k]
                == 0,
{
    let a1 = swap_rows_of(a, i, p);
    let piv = a1[p][col];
    assert(a1[p] == a[i]);
    assert(all_nibbles(a[i]));
    lemma_mul_inverse(piv);
    let inv = gf16_inv(piv);
    let a2 = scale_row_of(a1, p, inv);
    let b = clear_column(a2, p, col);
    assert(b == pivot_step(a, y, i, p, col).0);
    assert forall|r: int| 0 <= r < a.len() implies (#[trigger] a1[r]).len() == ncols && all_nibbles(
        a1[r],
    ) by {
        if r == i {
            assert(a1[r] == a[p]);
        } else if r == p {
            assert(a1[r] == a[i]);
        } else {
            assert(a1[r] == a[r]);
        }
    }
    assert forall|r: int, k: int| p <= r < a.len() && 0 <= k < col implies #[trigger] a1[r][k]
        == 0 by {
        assert(a[r][k] == 0 && a[i][k] == 0 && a[p][k] == 0);
    }
    assert(a1[p].len() == ncols);
    assert forall|k: int| 0 <= k < col implies #[trigger] a2[p][k] == 0 by {
        assert(a1[p][k] == 0);
        lemma_mul_one_zero(inv);
    }
    assert(a2[p][col] == 1);
    assert(b[p] == a2[p]);
    assert forall|r: int| 0 <= r < a.len() implies (#[trigger] b[r]).len() == ncols by {
        assert(a2[r].len() == ncols) by {
            if r != p {
                assert(a2[r] == a1[r]);
            }
        }
    }
    assert forall|r: int| 0 <= r < a.len() && r != p implies #[trigger] b[r][col] == 0 by {
        assert(a2[r] == a1[r]);
        assert(a1[r].len() == ncols && all_nibbles(a1[r]));
        let f = a2[r][col];
        lemma_mul_one_zero(f);
        lemma_add_self(f);
    }
    assert forall|r: int, k: int| 0 <= r < a.len() && r != p && 0 <= k < col implies b[r][k]
        == a1[r][k] by {
        assert(a2[r] == a1[r]);
        assert(a1[r].len() == ncols && all_nibbles(a1[r]));
        assert(a2[p][k] == 0);
        lemma_mul_one_zero(a2[r][col]);
        lemma_add_laws(a1[r][k], 0, 0);
    }
    assert forall|r: int, k: int| 0 <= r < p && 0 <= k < col implies #[trigger] b[r][k]
        == a[r][k] by {
        assert(b[r][k] == a1[r][k]);
        assert(a1[r] == a[r]);
    }
    assert forall|r: int, k: int| p < r < a.len() && 0 <= k < col implies #[trigger] b[r][k]
        == 0 by {
        assert(b[r][k] == a1[r][k]);
        assert(a1[r][k] == 0);
    }
}

/// One pivot moves the reduction on by a column and a pivot row.
pub proof fn lemma_pivot_step_structure(
    a: Seq<Seq<u8>>,
    y: Seq<u8>,
    i: int,
    p: int,
    col: int,
    ncols: nat,
)
    requires
        has_shape(a, a.len(), ncols),
        nibble_rows(a),
        0 <= p <= i < a.len(),
        0 <= col < ncols,
        a[i][col] != 0,
        pivots_placed(a, col, p),
    ensures
        pivots_placed(pivot_step(a, y, i, p, col).0, col + 1, p + 1),
{
    lemma_pivot_step_entries(a, y, i, p, col, ncols);
    let b = pivot_step(a, y, i, p, col).0;
    assert forall|r: int| 0 <= r < p + 1 implies #[trigger] pivot_row(b, r, col + 1) by {
        assert(b[r].len() == ncols);
        if r < p {
            assert(pivot_row(a, r, col));
            let pc = first_nonzero(a[r], 0);
            lemma_first_nonzero(a[r], 0);
            assert forall|k: int| 0 <= k < pc implies #[trigger] b[r][k] == 0 by {
                assert(b[r][k] == a[r][k]);
                assert(a[r][k] == 0);
            }
            assert(b[r][pc] == a[r][pc]);
            lemma_leading_entry(b[r], pc);
            assert forall|r2: int| 0 <= r2 < b.len() && r2 != r implies #[trigger] b[r2][pc]
                == 0 by {
                if r2 < p {
                    assert(b[r2][pc] == a[r2][pc]);
                    assert(a[r2][pc] == 0);
                } else if r2 == p {
                    assert(b[p][pc] == 0);
                } else {
                    assert(b[r2][pc] == 0);
                }
            }
        } else {
            assert forall|k: int| 0 <= k < col implies #[trigger] b[p][k] == 0 by {}
            lemma_leading_entry(b[p], col);
            assert forall|r2: int| 0 <= r2 < b.len() && r2 != p implies #[trigger] b[r2][col]
                == 0 by {}
        }
    }
    assert forall|r: int, k: int| p + 1 <= r < b.len() && 0 <= k < col + 1 implies #[trigger] b[r][k]
        == 0 by {
        if k < col {
            assert(b[r][k] == 0);
        } else {
            assert(b[r][col] == 0);
        }
    }
}

/// A column without a pivot moves the reduction on by a column.
pub proof fn lemma_skip_column_structure(a: Seq<Seq<u8>>, col: int, p: int)
    requires
        0 <= p <= a.len(),
        0 <= col,
        pivots_placed(a, col, p),
        forall|r: int| p <= r < a.len() ==> (#[trigger] a[r])[col] == 0,
    ensures
        pivots_placed(a, col + 1, p),
{
    assert forall|r: int| 0 <= r < p implies #[trigger] pivot_row(a, r, col + 1) by {
        assert(pivot_row(a, r, col));
    }
    assert forall|r: int, k: int| p <= r < a.len() && 0 <= k < col + 1 implies #[trigger] a[r][k]
        == 0 by {
        if k == col {
            assert(a[r][col] == 0);
        }
    }
}

/// The reduction ends in reduced row-echelon form.
pub proof fn lemma_row_echelon_reduced(
    a: Seq<Seq<u8>>,
    y: Seq<u8>,
    ncols: nat,
    col: int,
    p: int,
    x: Seq<u8>,
)
    requires
        is_system(a, y, x, ncols),
        0 <= col <= ncols,
        0 <= p <= a.len(),
        pivots_placed(a, col, p),
    ensures
        is_reduced(row_echelon_from(a, y, ncols as int, col, p).0, ncols as int),
    decreases ncols - col,
{
    if col >= ncols || p >= a.len() {
        assert forall|r: int| 0 <= r < a.len() implies first_nonzero(#[trigger] a[r], 0) >= ncols
            || pivot_row(a, r, ncols as int) by {
            assert(a[r].len() == ncols);
            if r < p {
                assert(pivot_row(a, r, col));
            } else {
                assert forall|k: int| 0 <= k < a[r].len() implies #[trigger] a[r][k] == 0 by {}
                lemma_zero_row(a[r]);
            }
        }
    } else {
        lemma_find_pivot(a, col, p);
        let i = find_pivot(a, col, p);
        if i >= a.len() {
            lemma_skip_column_structure(a, col, p);
            lemma_row_echelon_reduced(a, y, ncols, col + 1, p, x);
        } else {
            lemma_pivot_step(a, y, i, p, col, ncols, x);
            lemma_pivot_step_structure(a, y, i, p, col, ncols);
            let next = pivot_step(a, y, i, p, col);
            lemma_row_echelon_reduced(next.0, next.1, ncols, col + 1, p + 1, x);
        }
    }
}

/// Row reduction is sound: the reduced system is in reduced row-echelon
/// form, has the shape of the system it came from, and has exactly its
/// solutions; the rank is at most the number of rows.
pub proof fn lemma_row_echelon(a: Seq<Seq<u8>>, y: Seq<u8>, ncols: nat, x: Seq<u8>)
    requires
        is_system(a, y, x, ncols),
    ensures
        is_system(row_echelon(a, y, ncols as int).0, row_echelon(a, y, ncols as int).1, x, ncols),
        row_echelon(a, y, ncols as int).0.len() == a.len(),
        is_reduced(row_echelon(a, y, ncols as int).0, ncols as int),
        0 <= row_echelon(a, y, ncols as int).2 <= a.len(),
        solves(row_echelon(a, y, ncols as int).0, row_echelon(a, y, ncols as int).1, x) <==> solves(
            a,
            y,
            x,
        ),
{
    lemma_row_echelon_solutions(a, y, ncols, 0, 0, x);
    lemma_row_echelon_reduced(a, y, ncols, 0, 0, x);
}

/// A dot product over a range is the sum of the dot products over its two parts.
pub proof fn lemma_dot_split(row: Seq<u8>, x: Seq<u8>, lo: int, mid: int, hi: int)
    requires
        lo <= mid <= hi,
    ensures
        dot_range(row, x, lo, hi) == gf16_add(dot_range(row, x, lo, mid), dot_range(row, x, mid, hi)),
    decreases hi - mid,
{
    if hi > mid {
        lemma_dot_split(row, x, lo, mid, hi - 1);
        lemma_add_laws(
            dot_range(row, x, lo, mid),
            dot_range(row, x, mid, hi - 1),
            gf16_mul(row[hi - 1], x[hi - 1]),
        );
    } else {
        lemma_add_laws(dot_range(row, x, lo, mid), 0, 0);
    }
}

/// Where the row is zero throughout a range, the dot product over it is zero.
pub proof fn lemma_dot_zero_row(row: Seq<u8>, x: Seq<u8>, lo: int, hi: int)
    requires
        0 <= lo,
        hi <= row.len(),
        hi <= x.len(),
        all_nibbles(x),
        forall|k: int| lo <= k < hi ==> #[trigger] row[k] == 0,
    ensures
        dot_range(row, x, lo, hi) == 0,
    decreases hi - lo,
{
    if hi > lo {
        lemma_dot_zero_row(row, x, lo, hi - 1);
        assert(row[hi - 1] == 0);
        lemma_mul_one_zero(x[hi - 1]);
        lemma_add_self(0);
    }
}

/// Changing an entry of `x` outside a range, or where the row is zero,
/// leaves the dot product over the range as it was.
pub proof fn lemma_dot_update(row: Seq<u8>, x: Seq<u8>, k: int, v: u8, lo: int, hi: int)
    requires
        0 <= lo,
        hi <= row.len(),
        hi <= x.len(),
        0 <= k < x.len(),
        v < 16,
        k < lo || k >= hi || row[k] == 0,
        all_nibbles(x),
    ensures
        dot_range(row, x.update(k, v), lo, hi) == dot_range(row, x, lo, hi),
    decreases hi - lo,
{
    if hi > lo {
        lemma_dot_update(row, x, k, v, lo, hi - 1);
        if k == hi - 1 {
            lemma_mul_one_zero(v);
            lemma_mul_one_zero(x[k]);
        }
    }
}

/// Back-substitution through the first `i` rows of a reduced system, where
/// it has a result: the result satisfies each of those rows, and leaves the
/// value of every later row as the starting assignment had it.
pub proof fn lemma_back_substitute_rows(
    a: Seq<Seq<u8>>,
    y: Seq<u8>,
    xi: Seq<u8>,
    ncols: nat,
    i: int,
)
    requires
        is_system(a, y, xi, ncols),
        is_reduced(a, ncols as int),
        0 <= i <= a.len(),
        back_substitute(a, y, xi, i).is_some(),
    ensures
        back_substitute(a, y, xi, i).unwrap().len() == ncols,
        all_nibbles(back_substitute(a, y, xi, i).unwrap()),
        forall|r: int|
            0 <= r < i ==> seq_dot(#[trigger] a[r], back_substitute(a, y, xi, i).unwrap()) == y[r],
        forall|r: int|
            i <= r < a.len() ==> seq_dot(#[trigger] a[r], back_substitute(a, y, xi, i).unwrap())
                == seq_dot(a[r], xi),
    decreases i,
{
    if i > 0 {
        let r = i - 1;
        let row = a[r];
        assert(row.len() == ncols);
        assert(all_nibbles(row));
        let pc = first_nonzero(row, 0);
        lemma_first_nonzero(row, 0);
        if !has_unit_pivot(row) {
            lemma_back_substitute_rows(a, y, xi, ncols, r);
            let x = back_substitute(a, y, xi, r).unwrap();
            assert(!pivot_row(a, r, ncols as int));
            assert(pc >= ncols);
            lemma_dot_zero_row(row, xi, 0, ncols as int);
            assert(seq_dot(a[r], x) == seq_dot(a[r], xi));
        } else {
            let known = dot_range(row, xi, pc + 1, ncols as int);
            lemma_dot_nibble(row, xi, pc + 1, ncols as int);
            assert(y[r] < 16);
            lemma_add_closed(y[r], known);
            let value = gf16_add(y[r], known);
            let next = xi.update(pc, value);
            assert(all_nibbles(next)) by {
                assert forall|k: int| 0 <= k < next.len() implies #[trigger] next[k] < 16 by {
                    if k != pc {
                        assert(xi[k] < 16);
                    }
                }
            }
            lemma_back_substitute_rows(a, y, next, ncols, r);
            let x = back_substitute(a, y, next, r).unwrap();
            // Row r under the updated assignment.
            lemma_dot_split(row, next, 0, pc, ncols as int);
            lemma_dot_split(row, next, pc, pc + 1, ncols as int);
            lemma_dot_zero_row(row, next, 0, pc);
            lemma_dot_update(row, xi, pc, value, pc + 1, ncols as int);
            assert(dot_range(row, next, pc, pc + 1) == gf16_mul(row[pc], next[pc])) by {
                assert(dot_range(row, next, pc, pc) == 0);
                lemma_add_laws(gf16_mul(row[pc], next[pc]), 0, 0);
            }
            lemma_mul_one_zero(value);
            assert(seq_dot(row, next) == y[r]) by {
                lemma_add_laws(value, known, 0);
                lemma_add_laws(y[r], known, known);
                lemma_add_self(known);
            }
            assert(seq_dot(a[r], x) == seq_dot(a[r], next));
            // Later rows do not see the change in column pc.
            assert(pivot_row(a, r, ncols as int));
            assert forall|r2: int| i <= r2 < a.len() implies seq_dot(#[trigger] a[r2], x)
                == seq_dot(a[r2], xi) by {
                assert(seq_dot(a[r2], x) == seq_dot(a[r2], next));
                assert(a[r2].len() == ncols);
                assert(a[r2][pc] == 0);
                lemma_dot_update(a[r2], xi, pc, value, 0, ncols as int);
            }
        }
    }
}

/// Back-substitution is sound: where it has a result for a reduced system,
/// the result solves the system.
pub proof fn lemma_back_substitute_solves(a: Seq<Seq<u8>>, y: Seq<u8>, x0: Seq<u8>, ncols: nat)
    requires
        is_system(a, y, x0, ncols),
        is_reduced(a, ncols as int),
        back_substitute(a, y, x0, a.len() as int).is_some(),
    ensures
        is_system(a, y, back_substitute(a, y, x0, a.len() as int).unwrap(), ncols),
        solves(a, y, back_substitute(a, y, x0, a.len() as int).unwrap()),
{
    lemma_back_substitute_rows(a, y, x0, ncols, a.len() as int);
}

/// Back-substitution is complete: where it has no result for the first `i`
/// rows of a reduced system, the system has no solution at all.
pub proof fn lemma_back_substitute_none(
    a: Seq<Seq<u8>>,
    y: Seq<u8>,
    xi: Seq<u8>,
    ncols: nat,
    i: int,
    x: Seq<u8>,
)
    requires
        is_system(a, y, xi, ncols),
        is_reduced(a, ncols as int),
        x.len() == ncols,
        all_nibbles(x),
        0 <= i <= a.len(),
        back_substitute(a, y, xi, i).is_none(),
    ensures
        !solves(a, y, x),
    decreases i,
{
    if i > 0 {
        let r = i - 1;
        let row = a[r];
        assert(row.len() == ncols);
        assert(all_nibbles(row));
        let pc = first_nonzero(row, 0);
        lemma_first_nonzero(row, 0);
        if !has_unit_pivot(row) {
            if y[r] != 0 {
                assert(!pivot_row(a, r, ncols as int));
                assert(pc >= ncols);
                lemma_dot_zero_row(row, x, 0, ncols as int);
                assert(seq_dot(a[r], x) != y[r]);
            } else {
                lemma_back_substitute_none(a, y, xi, ncols, r, x);
            }
        } else {
            let known = dot_range(row, xi, pc + 1, ncols as int);
            lemma_dot_nibble(row, xi, pc + 1, ncols as int);
            assert(y[r] < 16);
            lemma_add_closed(y[r], known);
            let value = gf16_add(y[r], known);
            let next = xi.update(pc, value);
            assert(all_nibbles(next)) by {
                assert forall|k: int| 0 <= k < next.len() implies #[trigger] next[k] < 16 by {
                    if k != pc {
                        assert(xi[k] < 16);
                    }
                }
            }
            lemma_back_substitute_none(a, y, next, ncols, r, x);
        }
    }
}

/// Solving is sound and complete: the assignment that elimination and
/// back-substitution give solves the system, and they give none only where
/// no assignment solves it.
pub proof fn lemma_sample_solution(a: Seq<Seq<u8>>, y: Seq<u8>, free: Seq<u8>, ncols: nat, x: Seq<u8>)
    requires
        is_system(a, y, free, ncols),
        x.len() == ncols,
        all_nibbles(x),
    ensures
        match sample_solution(a, y, free, ncols as int) {
            Some(s) => is_system(a, y, s, ncols) && solves(a, y, s),
            None => !solves(a, y, x),
        },
{
    let reduced = row_echelon(a, y, ncols as int);
    lemma_row_echelon(a, y, ncols, free);
    match back_substitute(reduced.0, reduced.1, free, a.len() as int) {
        Some(s) => {
            lemma_back_substitute_solves(reduced.0, reduced.1, free, ncols);
            lemma_row_echelon(a, y, ncols, s);
        },
        None => {
            lemma_row_echelon(a, y, ncols, x);
            lemma_back_substitute_none(reduced.0, reduced.1, free, ncols, a.len() as int, x);
        },
    }
}

} // verus!
