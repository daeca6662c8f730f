//! Dense matrices over GF(16): construction, products, the elementary row
//! operations, reduction of an augmented system and back-substitution.

use crate::f16::{all_nibbles, F16, gf16_add, gf16_inv, gf16_mul, lemma_values_push, values};
use crate::linear_laws::{
    is_reduced, lemma_back_substitute_none, lemma_back_substitute_solves, lemma_row_echelon,
    nibble_rows, solves,
};
use crate::text::{with_number, with_three_numbers, with_two_numbers};
use crate::vector::{
    decode_nibbles, dot_range, encode_nibbles, packed_len, seq_add, seq_dot, seq_scale, seq_zero,
    swap_entries, Vector, vector_views,
};
use vstd::prelude::*;

verus! {

/// Whether `m` has `rows` rows of `cols` entries each.
pub open spec fn has_shape(m: Seq<Seq<u8>>, rows: nat, cols: nat) -> bool {
    &&& m.len() == rows
    &&& forall|r: int| 0 <= r < m.len() ==> (#[trigger] m[r]).len() == cols
}

/// The rows that a row-major sequence of `rows * cols` entries holds.
pub open spec fn unflatten(s: Seq<u8>, rows: nat, cols: nat) -> Seq<Seq<u8>> {
    Seq::new(rows, |r: int| Seq::new(cols, |c: int| s[r * cols + c]))
}

/// The rows of `m` one after another.
pub open spec fn flatten(m: Seq<Seq<u8>>) -> Seq<u8>
    decreases m.len(),
{
    if m.len() == 0 {
        Seq::empty()
    } else {
        flatten(m.drop_last()) + m.last()
    }
}

/// The zero matrix.
pub open spec fn mat_zero(rows: nat, cols: nat) -> Seq<Seq<u8>> {
    Seq::new(rows, |r: int| seq_zero(cols))
}

/// The identity matrix of size `n`.
pub open spec fn mat_identity(n: nat) -> Seq<Seq<u8>> {
    Seq::new(
        n,
        |r: int|
            Seq::new(
                n,
                |c: int|
                    if r == c {
                        1u8
                    } else {
                        0u8
                    },
            ),
    )
}

/// Column `c` of `m`.
pub open spec fn column(m: Seq<Seq<u8>>, c: int) -> Seq<u8> {
    Seq::new(m.len(), |k: int| m[k][c])
}

/// The transpose of a matrix with `cols` columns.
pub open spec fn mat_transpose(m: Seq<Seq<u8>>, cols: nat) -> Seq<Seq<u8>> {
    Seq::new(cols, |c: int| column(m, c))
}

/// The upper-triangular fold of a square matrix: the diagonal stays, each entry
/// above it takes its mirror image in, and everything below is zero.
pub open spec fn mat_upper(m: Seq<Seq<u8>>) -> Seq<Seq<u8>> {
    Seq::new(
        m.len(),
        |i: int|
            Seq::new(
                m.len(),
                |j: int|
                    if i == j {
                        m[i][i]
                    } else if i < j {
                        gf16_add(m[i][j], m[j][i])
                    } else {
                        0u8
                    },
            ),
    )
}

/// The product of a matrix and a vector.
pub open spec fn mat_vec(m: Seq<Seq<u8>>, v: Seq<u8>) -> Seq<u8> {
    Seq::new(m.len(), |r: int| seq_dot(m[r], v))
}

/// Every entry of `m` multiplied by `s`.
pub open spec fn mat_scale(m: Seq<Seq<u8>>, s: u8) -> Seq<Seq<u8>> {
    Seq::new(m.len(), |r: int| seq_scale(m[r], s))
}

/// The entrywise sum of two matrices of one shape.
pub open spec fn mat_add(a: Seq<Seq<u8>>, b: Seq<Seq<u8>>) -> Seq<Seq<u8>> {
    Seq::new(a.len(), |r: int| seq_add(a[r], b[r]))
}

/// The product of `a` and `b`, where `b` has `bcols` columns.
pub open spec fn mat_mul(a: Seq<Seq<u8>>, b: Seq<Seq<u8>>, bcols: nat) -> Seq<Seq<u8>> {
    Seq::new(a.len(), |r: int| Seq::new(bcols, |c: int| seq_dot(a[r], column(b, c))))
}

/// `m` with rows `r1` and `r2` exchanged; unchanged when either is no row.
pub open spec fn swap_rows_of(m: Seq<Seq<u8>>, r1: int, r2: int) -> Seq<Seq<u8>> {
    if 0 <= r1 < m.len() && 0 <= r2 < m.len() {
        m.update(r1, m[r2]).update(r2, m[r1])
    } else {
        m
    }
}

/// `m` with row `r` multiplied by `s`; unchanged when `r` is no row.
pub open spec fn scale_row_of(m: Seq<Seq<u8>>, r: int, s: u8) -> Seq<Seq<u8>> {
    if 0 <= r < m.len() {
        m.update(r, seq_scale(m[r], s))
    } else {
        m
    }
}

/// `m` with `s` times row `source` added to row `target`; unchanged when
/// either is no row.
pub open spec fn add_row_multiple_of(m: Seq<Seq<u8>>, target: int, source: int, s: u8) -> Seq<
    Seq<u8>,
> {
    if 0 <= target < m.len() && 0 <= source < m.len() {
        m.update(target, seq_add(m[target], seq_scale(m[source], s)))
    } else {
        m
    }
}

/// The first row at or after `from` whose entry in column `col` is not zero;
/// the number of rows when there is none.
pub open spec fn find_pivot(a: Seq<Seq<u8>>, col: int, from: int) -> int
    decreases a.len() - from,
{
    if from >= a.len() {
        a.len() as int
    } else if a[from][col] != 0 {
        from
    } else {
        find_pivot(a, col, from + 1)
    }
}

/// `a` after column `col` has been cleared with pivot row `p`: every other
/// row `r` has `a[r][col]` times the pivot row added to it.
pub open spec fn clear_column(a: Seq<Seq<u8>>, p: int, col: int) -> Seq<Seq<u8>> {
    Seq::new(
        a.len(),
        |r: int|
            if r == p {
                a[p]
            } else {
                seq_add(a[r], seq_scale(a[p], a[r][col]))
            },
    )
}

/// The right-hand side after the same clearing: entry `r` has `a[r][col]`
/// times entry `p` added to it.
pub open spec fn clear_column_rhs(a: Seq<Seq<u8>>, y: Seq<u8>, p: int, col: int) -> Seq<u8> {
    Seq::new(
        y.len(),
        |r: int|
            if r == p {
                y[p]
            } else {
                gf16_add(y[r], gf16_mul(a[r][col], y[p]))
            },
    )
}

/// One pivot of the reduction of `[a | y]`: row `i` comes to position `p`, is
/// normalised by the inverse of its entry in column `col`, and clears that
/// column in every other row.
pub open spec fn pivot_step(a: Seq<Seq<u8>>, y: Seq<u8>, i: int, p: int, col: int) -> (
    Seq<Seq<u8>>,
    Seq<u8>,
) {
    let a1 = swap_rows_of(a, i, p);
    let y1 = swap_entries(y, i, p);
    let inv = gf16_inv(a1[p][col]);
    let a2 = scale_row_of(a1, p, inv);
    let y2 = y1.update(p, gf16_mul(y1[p], inv));
    (clear_column(a2, p, col), clear_column_rhs(a2, y2, p, col))
}

/// The reduction of `[a | y]` from column `col` on, with `p` pivots placed so
/// far: the reduced matrix, the reduced right-hand side and the rank.
pub open spec fn row_echelon_from(a: Seq<Seq<u8>>, y: Seq<u8>, ncols: int, col: int, p: int) -> (
    Seq<Seq<u8>>,
    Seq<u8>,
    int,
)
    decreases ncols - col,
{
    if col >= ncols || p >= a.len() {
        (a, y, p)
    } else {
        let i = find_pivot(a, col, p);
        if i >= a.len() {
            row_echelon_from(a, y, ncols, col + 1, p)
        } else {
            let next = pivot_step(a, y, i, p, col);
            row_echelon_from(next.0, next.1, ncols, col + 1, p + 1)
        }
    }
}

/// The reduced row-echelon form of the augmented system `[a | y]`, with its rank.
pub open spec fn row_echelon(a: Seq<Seq<u8>>, y: Seq<u8>, ncols: int) -> (
    Seq<Seq<u8>>,
    Seq<u8>,
    int,
) {
    row_echelon_from(a, y, ncols, 0, 0)
}

/// The first position at or after `from` where `row` is not zero; the length
/// of the row when there is none.
pub open spec fn first_nonzero(row: Seq<u8>, from: int) -> int
    decreases row.len() - from,
{
    if from >= row.len() {
        row.len() as int
    } else if row[from] != 0 {
        from
    } else {
        first_nonzero(row, from + 1)
    }
}

/// Whether row `r` of a reduced system fixes a variable: it has a leading
/// entry and that entry is one.
pub open spec fn has_unit_pivot(row: Seq<u8>) -> bool {
    let pc = first_nonzero(row, 0);
    pc < row.len() && row[pc] == 1
}

/// Back-substitution through rows `i - 1` down to `0` of a reduced system,
/// starting from the assignment `x`. A row with a unit pivot sets its pivot
/// variable from the right-hand side and the variables after it; any other
/// row must have a zero right-hand side, or there is no solution.
pub open spec fn back_substitute(a: Seq<Seq<u8>>, y: Seq<u8>, x: Seq<u8>, i: int) -> Option<
    Seq<u8>,
>
    decreases i,
{
    if i <= 0 {
        Some(x)
    } else {
        let r = i - 1;
        let pc = first_nonzero(a[r], 0);
        if !has_unit_pivot(a[r]) {
            if y[r] != 0 {
                None
            } else {
                back_substitute(a, y, x, r)
            }
        } else {
            let known = dot_range(a[r], x, pc + 1, a[r].len() as int);
            back_substitute(a, y, x.update(pc, gf16_add(y[r], known)), r)
        }
    }
}

/// The first row, going up from row `i - 1`, that stops back-substitution:
/// it fixes no variable and its right-hand side is not zero. Minus one when
/// no row does.
pub open spec fn blocking_row(a: Seq<Seq<u8>>, y: Seq<u8>, i: int) -> int
    decreases i,
{
    if i <= 0 {
        -1
    } else if !has_unit_pivot(a[i - 1]) && y[i - 1] != 0 {
        i - 1
    } else {
        blocking_row(a, y, i - 1)
    }
}

/// Row-major positions stay inside the matrix and step from row to row.
pub proof fn lemma_flat_index(r: int, c: int, rows: int, cols: int)
    requires
        0 <= r < rows,
        0 <= c < cols,
    ensures
        0 <= r * cols + c < rows * cols,
        (r + 1) * cols == r * cols + cols,
{
    assert(0 <= r * cols + c < rows * cols && (r + 1) * cols == r * cols + cols)
        by (nonlinear_arith)
        requires
            0 <= r < rows,
            0 <= c < cols,
    ;
}

/// A matrix of field elements with `rows` rows and `cols` columns.
#[derive(Debug, PartialEq, Eq)]
pub struct Matrix {
    data: Vec<Vector>,
    nrows: usize,
    ncols: usize,
}

impl Matrix {
    /// Whether the rows are as many and as long as the shape says. Every matrix
    /// that this library hands out is well formed.
    pub open spec fn wf(&self) -> bool {
        has_shape(self@, self.spec_rows(), self.spec_cols())
    }

    /// The rows, each a sequence of nibbles.
    pub closed spec fn view(&self) -> Seq<Seq<u8>> {
        Seq::new(self.data@.len(), |r: int| self.data@[r]@)
    }

    /// The number of rows.
    pub closed spec fn spec_rows(&self) -> nat {
        self.nrows as nat
    }

    /// The number of columns.
    pub closed spec fn spec_cols(&self) -> nat {
        self.ncols as nat
    }

    /// The matrix of the given shape that holds `elements` in row-major
    /// order; an error unless there are `rows * cols` of them.
    pub fn new(rows: usize, cols: usize, elements: Vec<F16>) -> (r: Result<Matrix, String>)
        ensures
            r.is_ok() <==> rows * cols == elements@.len(),
            r.is_ok() ==> {
                &&& r.unwrap().wf()
                &&& r.unwrap().spec_rows() == rows
                &&& r.unwrap().spec_cols() == cols
                &&& r.unwrap()@ == unflatten(values(elements@), rows as nat, cols as nat)
            },
    {
        assert((rows as u128) * (cols as u128) <= u128::MAX) by (nonlinear_arith)
            requires
                rows <= 0xffff_ffff_ffff_ffff,
                cols <= 0xffff_ffff_ffff_ffff,
        ;
        if (rows as u128) * (cols as u128) != elements.len() as u128 {
            return Err(with_three_numbers(
                "Invalid dimensions: ",
                rows,
                "x",
                cols,
                " does not match element count ",
                elements.len(),
                "",
            ));
        }
        Ok(Matrix::from_flat(rows, cols, elements.as_slice()))
    }

    /// The matrix of the given shape that holds the `rows * cols` entries of
    /// `elements` in row-major order.
    pub fn from_flat(rows: usize, cols: usize, elements: &[F16]) -> (m: Matrix)
        requires
            rows * cols == elements@.len(),
        ensures
            m.wf(),
            m.spec_rows() == rows,
            m.spec_cols() == cols,
            m@ == unflatten(values(elements@), rows as nat, cols as nat),
    {
        let total = elements.len();
        let mut data: Vec<Vector> = Vec::with_capacity(rows);
        let mut k: usize = 0;
        let mut r: usize = 0;
        while r < rows
            invariant
                r <= rows,
                total == elements@.len(),
                rows * cols == elements@.len(),
                k == r * cols,
                data@.len() == r,
                forall|i: int| 0 <= i < r ==> (#[trigger] data@[i])@ == unflatten(
                    values(elements@),
                    rows as nat,
                    cols as nat,
                )[i],
            decreases rows - r,
        {
            let mut row: Vec<F16> = Vec::with_capacity(cols);
            let mut c: usize = 0;
            while c < cols
                invariant
                    c <= cols,
                    r < rows,
                    total == elements@.len(),
                    rows * cols == elements@.len(),
                    k == r * cols + c,
                    row@.len() == c,
                    forall|j: int| 0 <= j < c ==> (#[trigger] row@[j])@ == values(elements@)[r * cols + j],
                decreases cols - c,
            {
                proof {
                    lemma_flat_index(r as int, c as int, rows as int, cols as int);
                    assert(k < elements@.len());
                }
                row.push(elements[k]);
                k += 1;
                c += 1;
            }
            proof {
                assert((r + 1) * cols == r * cols + cols) by (nonlinear_arith);
            }
            let rv = Vector::new(row);
            assert(rv@ =~= unflatten(values(elements@), rows as nat, cols as nat)[r as int]);
            data.push(rv);
            r += 1;
        }
        let m = Matrix { data, nrows: rows, ncols: cols };
        assert(m@ =~= unflatten(values(elements@), rows as nat, cols as nat));
        m
    }

    /// The matrix whose rows are `rows`, each of which must have `cols` entries.
    pub fn from_rows(rows: Vec<Vector>, cols: usize) -> (r: Matrix)
        requires
            forall|i: int| 0 <= i < rows@.len() ==> (#[trigger] rows@[i])@.len() == cols,
        ensures
            r.wf(),
            r.spec_rows() == rows@.len(),
            r.spec_cols() == cols,
            r@ == vector_views(rows@),
    {
        let n = rows.len();
        let m = Matrix { data: rows, nrows: n, ncols: cols };
        assert(m@ =~= vector_views(rows@));
        m
    }

    /// The zero matrix of the given shape.
    pub fn zero(rows: usize, cols: usize) -> (r: Matrix)
        ensures
            r.wf(),
            r.spec_rows() == rows,
            r.spec_cols() == cols,
            r@ == mat_zero(rows as nat, cols as nat),
    {
        let mut data: Vec<Vector> = Vec::with_capacity(rows);
        let mut i: usize = 0;
        while i < rows
            invariant
                i <= rows,
                data@.len() == i,
                forall|t: int| 0 <= t < i ==> (#[trigger] data@[t])@ == seq_zero(cols as nat),
            decreases rows - i,
        {
            data.push(Vector::zero(cols));
            i += 1;
        }
        let m = Matrix { data, nrows: rows, ncols: cols };
        assert(m@ =~= mat_zero(rows as nat, cols as nat));
        m
    }

    /// The identity matrix of size `n`.
    pub fn identity(n: usize) -> (r: Matrix)
        ensures
            r.wf(),
            r.spec_rows() == n,
            r.spec_cols() == n,
            r@ == mat_identity(n as nat),
    {
        let mut data: Vec<Vector> = Vec::with_capacity(n);
        let mut i: usize = 0;
        while i < n
            invariant
                i <= n,
                data@.len() == i,
                forall|t: int| 0 <= t < i ==> (#[trigger] data@[t])@ == mat_identity(n as nat)[t],
            decreases n - i,
        {
            let mut row = Vector::zero(n);
            row.set(i, F16::new(1));
            assert(row@ =~= mat_identity(n as nat)[i as int]);
            data.push(row);
            i += 1;
        }
        let m = Matrix { data, nrows: n, ncols: n };
        assert(m@ =~= mat_identity(n as nat));
        m
    }

    /// The number of rows.
    pub fn rows(&self) -> (n: usize)
        ensures
            n == self.spec_rows(),
    {
        self.nrows
    }

    /// The number of columns.
    pub fn cols(&self) -> (n: usize)
        ensures
            n == self.spec_cols(),
    {
        self.ncols
    }

    /// The entry at (`row`, `col`), if the matrix has it.
    pub fn get(&self, row: usize, col: usize) -> (r: Option<F16>)
        requires
            self.wf(),
        ensures
            r.is_some() <==> row < self.spec_rows() && col < self.spec_cols(),
            r.is_some() ==> r.unwrap()@ == self@[row as int][col as int] && r.unwrap()@ < 16,
    {
        if row < self.nrows && col < self.ncols {
            assert(self@[row as int].len() == self.ncols);
            Some(self.data[row].at(col))
        } else {
            None
        }
    }

    /// Replaces the entry at (`row`, `col`). Outside the matrix nothing changes
    /// and an error is returned.
    pub fn set(&mut self, row: usize, col: usize, value: F16) -> (r: Result<(), String>)
        requires
            old(self).wf(),
        ensures
            final(self).wf(),
            r.is_ok() <==> row < old(self).spec_rows() && col < old(self).spec_cols(),
            r.is_ok() ==> final(self)@ == old(self)@.update(
                row as int,
                old(self)@[row as int].update(col as int, value@),
            ),
            r.is_err() ==> final(self)@ == old(self)@,
            final(self).spec_rows() == old(self).spec_rows(),
            final(self).spec_cols() == old(self).spec_cols(),
    {
        if row < self.nrows && col < self.ncols {
            assert(self@[row as int].len() == self.ncols);
            let mut new_row = self.data[row].duplicate();
            new_row.set(col, value);
            self.replace_row(row, new_row);
            Ok(())
        } else {
            Err(with_two_numbers("Set out of bounds: (", row, ", ", col, ")"))
        }
    }

    /// Puts `new_row` in place of row `row`.
    fn replace_row(&mut self, row: usize, new_row: Vector)
        requires
            old(self).wf(),
            row < old(self).spec_rows(),
            new_row@.len() == old(self).spec_cols(),
        ensures
            final(self).wf(),
            final(self)@ == old(self)@.update(row as int, new_row@),
            final(self).spec_rows() == old(self).spec_rows(),
            final(self).spec_cols() == old(self).spec_cols(),
    {
        self.data[row] = new_row;
        assert(self@ =~= old(self)@.update(row as int, new_row@));
    }

    /// Row `row_idx` as a vector, if the matrix has it.
    pub fn get_row_vec(&self, row_idx: usize) -> (r: Option<Vector>)
        requires
            self.wf(),
        ensures
            r.is_some() <==> row_idx < self.spec_rows(),
            r.is_some() ==> r.unwrap()@ == self@[row_idx as int],
    {
        if row_idx < self.nrows {
            Some(self.data[row_idx].duplicate())
        } else {
            None
        }
    }
}

impl Matrix {
    /// The transpose.
    pub fn transpose(&self) -> (r: Matrix)
        requires
            self.wf(),
        ensures
            r.wf(),
            r.spec_rows() == self.spec_cols(),
            r.spec_cols() == self.spec_rows(),
            r@ == mat_transpose(self@, self.spec_cols()),
    {
        let mut data: Vec<Vector> = Vec::with_capacity(self.ncols);
        let mut c: usize = 0;
        while c < self.ncols
            invariant
                self.wf(),
                c <= self.ncols,
                data@.len() == c,
                forall|t: int| 0 <= t < c ==> (#[trigger] data@[t])@ == column(self@, t),
            decreases self.ncols - c,
        {
            let mut col: Vec<F16> = Vec::with_capacity(self.nrows);
            let mut r: usize = 0;
            while r < self.nrows
                invariant
                    self.wf(),
                    c < self.ncols,
                    r <= self.nrows,
                    col@.len() == r,
                    forall|t: int| 0 <= t < r ==> (#[trigger] col@[t])@ == self@[t][c as int],
                decreases self.nrows - r,
            {
                assert(self@[r as int].len() == self.ncols);
                col.push(self.data[r].at(c));
                r += 1;
            }
            let cv = Vector::new(col);
            assert(cv@ =~= column(self@, c as int));
            data.push(cv);
            c += 1;
        }
        let m = Matrix { data, nrows: self.ncols, ncols: self.nrows };
        assert(m@ =~= mat_transpose(self@, self.spec_cols()));
        m
    }

    /// The upper-triangular fold of a square matrix; an error for any other shape.
    pub fn upper(&self) -> (r: Result<Matrix, String>)
        requires
            self.wf(),
        ensures
            r.is_ok() <==> self.spec_rows() == self.spec_cols(),
            r.is_ok() ==> {
                &&& r.unwrap().wf()
                &&& r.unwrap().spec_rows() == self.spec_rows()
                &&& r.unwrap().spec_cols() == self.spec_cols()
                &&& r.unwrap()@ == mat_upper(self@)
            },
    {
        if self.nrows != self.ncols {
            return Err("Upper function requires a square matrix".to_string());
        }
        let n = self.nrows;
        let mut data: Vec<Vector> = Vec::with_capacity(n);
        let mut i: usize = 0;
        while i < n
            invariant
                self.wf(),
                n == self.nrows,
                n == self.ncols,
                i <= n,
                data@.len() == i,
                forall|t: int| 0 <= t < i ==> (#[trigger] data@[t])@ == mat_upper(self@)[t],
            decreases n - i,
        {
            let mut row: Vec<F16> = Vec::with_capacity(n);
            let mut j: usize = 0;
            while j < n
                invariant
                    self.wf(),
                    n == self.nrows,
                    n == self.ncols,
                    i < n,
                    j <= n,
                    row@.len() == j,
                    forall|t: int| 0 <= t < j ==> (#[trigger] row@[t])@ == mat_upper(self@)[i as int][t],
                decreases n - j,
            {
                assert(self@[i as int].len() == n);
                assert(self@[j as int].len() == n);
                let e = if i == j {
                    self.data[i].at(i)
                } else if i < j {
                    self.data[i].at(j) + self.data[j].at(i)
                } else {
                    F16::new(0)
                };
                row.push(e);
                j += 1;
            }
            let rv = Vector::new(row);
            assert(rv@ =~= mat_upper(self@)[i as int]);
            data.push(rv);
            i += 1;
        }
        let m = Matrix { data, nrows: n, ncols: n };
        assert(m@ =~= mat_upper(self@));
        Ok(m)
    }

    /// The nibble-packed bytes of the rows, one after another.
    pub fn encode_o(&self) -> (r: Vec<u8>)
        requires
            self.wf(),
        ensures
            r@ == encode_nibbles(flatten(self@)),
    {
        let mut flat: Vec<F16> = Vec::new();
        let mut i: usize = 0;
        assert(self@.take(0) =~= Seq::<Seq<u8>>::empty());
        while i < self.nrows
            invariant
                self.wf(),
                i <= self.nrows,
                values(flat@) == flatten(self@.take(i as int)),
            decreases self.nrows - i,
        {
            let ghost before = values(flat@);
            let mut j: usize = 0;
            assert(self@[i as int].len() == self.ncols);
            while j < self.ncols
                invariant
                    self.wf(),
                    i < self.nrows,
                    j <= self.ncols,
                    self@[i as int].len() == self.ncols,
                    values(flat@) == before + self@[i as int].take(j as int),
                decreases self.ncols - j,
            {
                let e = self.data[i].at(j);
                proof {
                    lemma_values_push(flat@, e);
                    assert(before + self@[i as int].take(j as int + 1) =~= (before + self@[i as int].take(
                        j as int,
                    )).push(e@));
                }
                flat.push(e);
                j += 1;
            }
            proof {
                let next = self@.take(i as int + 1);
                assert(next.drop_last() =~= self@.take(i as int));
                assert(next.last() == self@[i as int]);
                assert(self@[i as int].take(self.ncols as int) =~= self@[i as int]);
            }
            i += 1;
        }
        assert(self@.take(self.nrows as int) =~= self@);
        Vector::new(flat).encode_vec()
    }

    /// The matrix of the given shape that `byte_string` packs, row after row.
    /// The byte string must be exactly as long as `rows * cols` nibbles need.
    pub fn decode_o(rows: usize, cols: usize, byte_string: &[u8]) -> (r: Result<Matrix, String>)
        ensures
            r.is_ok() <==> rows * cols <= usize::MAX && byte_string@.len() == packed_len(
                (rows * cols) as nat,
            ),
            r.is_ok() ==> {
                &&& r.unwrap().wf()
                &&& r.unwrap().spec_rows() == rows
                &&& r.unwrap().spec_cols() == cols
                &&& r.unwrap()@ == unflatten(
                    decode_nibbles(byte_string@, (rows * cols) as nat),
                    rows as nat,
                    cols as nat,
                )
            },
    {
        assert((rows as u128) * (cols as u128) <= u128::MAX) by (nonlinear_arith)
            requires
                rows <= 0xffff_ffff_ffff_ffff,
                cols <= 0xffff_ffff_ffff_ffff,
        ;
        let wide = (rows as u128) * (cols as u128);
        if wide > usize::MAX as u128 {
            return Err(with_two_numbers("Invalid dimensions: ", rows, "x", cols, " is too large"));
        }
        let count = wide as usize;
        match Vector::decode_vec(count, byte_string) {
            Ok(v) => {
                let elements = v.into_elements();
                assert(values(elements@).len() == elements@.len());
                assert(elements@.len() == rows * cols);
                Matrix::new(rows, cols, elements)
            },
            Err(e) => Err(e),
        }
    }

    /// The product of this matrix and `vector`, whose length must be the
    /// number of columns; an error otherwise.
    pub fn multiply_vector(&self, vector: &Vector) -> (r: Result<Vector, String>)
        requires
            self.wf(),
        ensures
            r.is_ok() <==> self.spec_cols() == vector@.len(),
            r.is_ok() ==> r.unwrap()@ == mat_vec(self@, vector@),
    {
        if self.ncols != vector.len() {
            return Err(with_two_numbers(
                "Matrix-vector multiplication error: Matrix cols (",
                self.ncols,
                ") must equal vector length (",
                vector.len(),
                ").",
            ));
        }
        Ok(self.times_vector(vector))
    }

    /// The product of this matrix and `vector`, whose length must be the
    /// number of columns.
    pub fn times_vector(&self, vector: &Vector) -> (r: Vector)
        requires
            self.wf(),
            self.spec_cols() == vector@.len(),
        ensures
            r@ == mat_vec(self@, vector@),
            r@.len() == self.spec_rows(),
    {
        let mut out: Vec<F16> = Vec::with_capacity(self.nrows);
        let mut r: usize = 0;
        while r < self.nrows
            invariant
                self.wf(),
                self.ncols == vector@.len(),
                r <= self.nrows,
                out@.len() == r,
                forall|t: int| 0 <= t < r ==> (#[trigger] out@[t])@ == seq_dot(self@[t], vector@),
            decreases self.nrows - r,
        {
            assert(self@[r as int].len() == self.ncols);
            out.push(self.data[r].dot(vector));
            r += 1;
        }
        let v = Vector::new(out);
        assert(v@ =~= mat_vec(self@, vector@));
        v
    }

    /// Every entry multiplied by `scalar`.
    pub fn multiply_scalar(&self, scalar: F16) -> (r: Matrix)
        requires
            self.wf(),
        ensures
            r.wf(),
            r.spec_rows() == self.spec_rows(),
            r.spec_cols() == self.spec_cols(),
            r@ == mat_scale(self@, scalar@),
    {
        let mut data: Vec<Vector> = Vec::with_capacity(self.nrows);
        let mut i: usize = 0;
        while i < self.nrows
            invariant
                self.wf(),
                i <= self.nrows,
                data@.len() == i,
                forall|t: int| 0 <= t < i ==> (#[trigger] data@[t])@ == seq_scale(self@[t], scalar@),
            decreases self.nrows - i,
        {
            data.push(self.data[i].scale(scalar));
            i += 1;
        }
        let m = Matrix { data, nrows: self.nrows, ncols: self.ncols };
        assert(m@ =~= mat_scale(self@, scalar@));
        assert forall|t: int| 0 <= t < m@.len() implies (#[trigger] m@[t]).len() == self.ncols by {
            assert(self@[t].len() == self.ncols);
        }
        m
    }

    /// Exchanges rows `r1` and `r2`; does nothing when either is no row.
    pub fn swap_rows(&mut self, r1: usize, r2: usize)
        requires
            old(self).wf(),
        ensures
            final(self).wf(),
            final(self).spec_rows() == old(self).spec_rows(),
            final(self).spec_cols() == old(self).spec_cols(),
            final(self)@ == swap_rows_of(old(self)@, r1 as int, r2 as int),
    {
        if r1 < self.nrows && r2 < self.nrows && r1 != r2 {
            assert(self@[r1 as int].len() == self.ncols);
            assert(self@[r2 as int].len() == self.ncols);
            let a = self.data[r1].duplicate();
            let b = self.data[r2].duplicate();
            self.data[r1] = b;
            self.data[r2] = a;
            assert(self@ =~= swap_rows_of(old(self)@, r1 as int, r2 as int));
        } else {
            assert(self@ =~= swap_rows_of(old(self)@, r1 as int, r2 as int));
        }
    }

    /// Multiplies row `row_idx` by `scalar`; does nothing when it is no row.
    pub fn multiply_row_by_scalar(&mut self, row_idx: usize, scalar: F16)
        requires
            old(self).wf(),
        ensures
            final(self).wf(),
            final(self).spec_rows() == old(self).spec_rows(),
            final(self).spec_cols() == old(self).spec_cols(),
            final(self)@ == scale_row_of(old(self)@, row_idx as int, scalar@),
    {
        if row_idx < self.nrows {
            assert(self@[row_idx as int].len() == self.ncols);
            let scaled = self.data[row_idx].scale(scalar);
            self.data[row_idx] = scaled;
            assert(self@ =~= scale_row_of(old(self)@, row_idx as int, scalar@));
        }
    }

    /// Adds `scalar` times row `source_row_idx` to row `target_row_idx`; does
    /// nothing when either is no row.
    pub fn add_multiple_of_row_to_another(
        &mut self,
        target_row_idx: usize,
        source_row_idx: usize,
        scalar: F16,
    )
        requires
            old(self).wf(),
        ensures
            final(self).wf(),
            final(self).spec_rows() == old(self).spec_rows(),
            final(self).spec_cols() == old(self).spec_cols(),
            final(self)@ == add_row_multiple_of(
                old(self)@,
                target_row_idx as int,
                source_row_idx as int,
                scalar@,
            ),
    {
        if target_row_idx < self.nrows && source_row_idx < self.nrows {
            assert(self@[target_row_idx as int].len() == self.ncols);
            assert(self@[source_row_idx as int].len() == self.ncols);
            let scaled = self.data[source_row_idx].scale(scalar);
            let sum = self.data[target_row_idx].plus(&scaled);
            self.data[target_row_idx] = sum;
            assert(self@ =~= add_row_multiple_of(
                old(self)@,
                target_row_idx as int,
                source_row_idx as int,
                scalar@,
            ));
        }
    }
}

impl core::ops::Add for &Matrix {
    type Output = Result<Matrix, String>;

    /// The entrywise sum; an error when the shapes differ.
    fn add(self, rhs: &Matrix) -> (r: Result<Matrix, String>)
        ensures
            r.is_ok() <==> self.spec_rows() == rhs.spec_rows() && self.spec_cols()
                == rhs.spec_cols(),
            r.is_ok() ==> {
                &&& r.unwrap().wf()
                &&& r.unwrap().spec_rows() == self.spec_rows()
                &&& r.unwrap().spec_cols() == self.spec_cols()
                &&& r.unwrap()@ == mat_add(self@, rhs@)
            },
    {
        if self.nrows != rhs.nrows || self.ncols != rhs.ncols {
            return Err("Matrix addition requires matrices of the same dimensions".to_string());
        }
        let mut data: Vec<Vector> = Vec::with_capacity(self.nrows);
        let mut i: usize = 0;
        while i < self.nrows
            invariant
                self.wf(),
                rhs.wf(),
                self.nrows == rhs.nrows,
                self.ncols == rhs.ncols,
                i <= self.nrows,
                data@.len() == i,
                forall|t: int| 0 <= t < i ==> (#[trigger] data@[t])@ == seq_add(self@[t], rhs@[t]),
            decreases self.nrows - i,
        {
            assert(self@[i as int].len() == self.ncols);
            assert(rhs@[i as int].len() == self.ncols);
            data.push(self.data[i].plus(&rhs.data[i]));
            i += 1;
        }
        let m = Matrix { data, nrows: self.nrows, ncols: self.ncols };
        assert(m@ =~= mat_add(self@, rhs@));
        assert forall|t: int| 0 <= t < m@.len() implies (#[trigger] m@[t]).len() == self.ncols by {
            assert(self@[t].len() == self.ncols);
        }
        Ok(m)
    }
}

impl vstd::std_specs::ops::AddSpecImpl for &Matrix {
    open spec fn obeys_add_spec() -> bool {
        false
    }

    open spec fn add_req(self, rhs: &Matrix) -> bool {
        self.wf() && rhs.wf()
    }

    open spec fn add_spec(self, rhs: &Matrix) -> Result<Matrix, String> {
        Ok(*self)
    }
}

impl core::ops::Mul for &Matrix {
    type Output = Result<Matrix, String>;

    /// The matrix product; an error unless the columns of the left factor are
    /// as many as the rows of the right one.
    fn mul(self, rhs: &Matrix) -> (r: Result<Matrix, String>)
        ensures
            r.is_ok() <==> self.spec_cols() == rhs.spec_rows(),
            r.is_ok() ==> {
                &&& r.unwrap().wf()
                &&& r.unwrap().spec_rows() == self.spec_rows()
                &&& r.unwrap().spec_cols() == rhs.spec_cols()
                &&& r.unwrap()@ == mat_mul(self@, rhs@, rhs.spec_cols())
            },
    {
        if self.ncols != rhs.nrows {
            return Err(with_two_numbers(
                "Matrix multiplication error: LHS cols (",
                self.ncols,
                ") must equal RHS rows (",
                rhs.nrows,
                ")",
            ));
        }
        let rt = rhs.transpose();
        let mut data: Vec<Vector> = Vec::with_capacity(self.nrows);
        let mut r: usize = 0;
        while r < self.nrows
            invariant
                self.wf(),
                rhs.wf(),
                rt.wf(),
                rt.nrows == rhs.ncols,
                rt.ncols == rhs.nrows,
                rt@ == mat_transpose(rhs@, rhs.spec_cols()),
                self.ncols == rhs.nrows,
                r <= self.nrows,
                data@.len() == r,
                forall|t: int| 0 <= t < r ==> (#[trigger] data@[t])@ == mat_mul(self@, rhs@, rhs.spec_cols())[t],
            decreases self.nrows - r,
        {
            let mut row: Vec<F16> = Vec::with_capacity(rhs.ncols);
            let mut c: usize = 0;
            while c < rhs.ncols
                invariant
                    self.wf(),
                    rhs.wf(),
                    rt.wf(),
                    rt.nrows == rhs.ncols,
                    rt.ncols == rhs.nrows,
                    rt@ == mat_transpose(rhs@, rhs.spec_cols()),
                    self.ncols == rhs.nrows,
                    r < self.nrows,
                    c <= rhs.ncols,
                    row@.len() == c,
                    forall|t: int| 0 <= t < c ==> (#[trigger] row@[t])@ == seq_dot(self@[r as int], column(rhs@, t)),
                decreases rhs.ncols - c,
            {
                assert(self@[r as int].len() == self.ncols);
                assert(rt@[c as int].len() == rt.ncols);
                row.push(self.data[r].dot(&rt.data[c]));
                c += 1;
            }
            let rv = Vector::new(row);
            assert(rv@ =~= mat_mul(self@, rhs@, rhs.spec_cols())[r as int]);
            data.push(rv);
            r += 1;
        }
        let m = Matrix { data, nrows: self.nrows, ncols: rhs.ncols };
        assert(m@ =~= mat_mul(self@, rhs@, rhs.spec_cols()));
        Ok(m)
    }
}

impl vstd::std_specs::ops::MulSpecImpl for &Matrix {
    open spec fn obeys_mul_spec() -> bool {
        false
    }

    open spec fn mul_req(self, rhs: &Matrix) -> bool {
        self.wf() && rhs.wf()
    }

    open spec fn mul_spec(self, rhs: &Matrix) -> Result<Matrix, String> {
        Ok(*self)
    }
}

impl Matrix {
    /// Every entry of a matrix is a nibble.
    pub proof fn lemma_nibble_rows(&self)
        ensures
            nibble_rows(self@),
    {
        assert forall|r: int| 0 <= r < self@.len() implies all_nibbles(#[trigger] self@[r]) by {
            self.data@[r].lemma_nibbles();
        }
    }

    /// The entry at (`row`, `col`), which must be inside the matrix.
    pub fn entry(&self, row: usize, col: usize) -> (r: F16)
        requires
            self.wf(),
            row < self.spec_rows(),
            col < self.spec_cols(),
        ensures
            r@ == self@[row as int][col as int],
            r@ < 16,
    {
        assert(self@[row as int].len() == self.ncols);
        self.data[row].at(col)
    }

    /// Brings the augmented system `[self | rhs_vector]` into reduced
    /// row-echelon form in place and returns the rank. Column by column, the
    /// first row at or below the pivot position with a nonzero entry is
    /// swapped up, normalised and used to clear the column everywhere else.
    /// The vector must have one entry for each row; otherwise nothing changes
    /// and an error is returned.
    pub fn transform_to_row_echelon_augmented(&mut self, rhs_vector: &mut Vector) -> (r: Result<
        usize,
        String,
    >)
        requires
            old(self).wf(),
        ensures
            final(self).wf(),
            final(self).spec_rows() == old(self).spec_rows(),
            final(self).spec_cols() == old(self).spec_cols(),
            final(rhs_vector)@.len() == old(rhs_vector)@.len(),
            r.is_ok() <==> old(self).spec_rows() == old(rhs_vector)@.len(),
            r.is_err() ==> final(self)@ == old(self)@ && final(rhs_vector)@ == old(rhs_vector)@,
            r.is_ok() ==> (final(self)@, final(rhs_vector)@, r.unwrap() as int) == row_echelon(
                old(self)@,
                old(rhs_vector)@,
                old(self).spec_cols() as int,
            ),
            r.is_ok() ==> r.unwrap() <= old(self).spec_rows(),
            r.is_ok() ==> is_reduced(final(self)@, old(self).spec_cols() as int),
            r.is_ok() ==> forall|x: Seq<u8>|
                x.len() == old(self).spec_cols() && all_nibbles(x) ==> (#[trigger] solves(
                    final(self)@,
                    final(rhs_vector)@,
                    x,
                ) <==> solves(old(self)@, old(rhs_vector)@, x)),
    {
        if self.nrows != rhs_vector.len() {
            return Err("Matrix rows must match rhs_vector length for augmented system.".to_string());
        }
        proof {
            self.lemma_nibble_rows();
            rhs_vector.lemma_nibbles();
            let a0 = self@;
            let y0 = rhs_vector@;
            let ncols = self.spec_cols();
            assert forall|x: Seq<u8>| x.len() == ncols && all_nibbles(x) implies (#[trigger] solves(
                row_echelon(a0, y0, ncols as int).0,
                row_echelon(a0, y0, ncols as int).1,
                x,
            ) <==> solves(a0, y0, x)) by {
                lemma_row_echelon(a0, y0, ncols, x);
            }
            lemma_row_echelon(a0, y0, ncols, crate::vector::seq_zero(ncols));
        }
        let mut pivot_row: usize = 0;
        let mut j: usize = 0;
        while j < self.ncols && pivot_row < self.nrows
            invariant
                self.wf(),
                self.spec_rows() == old(self).spec_rows(),
                self.spec_cols() == old(self).spec_cols(),
                rhs_vector@.len() == self.nrows,
                j <= self.ncols,
                pivot_row <= self.nrows,
                row_echelon_from(
                    self@,
                    rhs_vector@,
                    self.ncols as int,
                    j as int,
                    pivot_row as int,
                ) == row_echelon(old(self)@, old(rhs_vector)@, self.ncols as int),
            decreases self.ncols - j,
        {
            let ghost a = self@;
            let ghost y = rhs_vector@;
            let mut i: usize = pivot_row;
            while i < self.nrows && self.entry(i, j).value() == 0
                invariant
                    self.wf(),
                    j < self.ncols,
                    pivot_row <= i <= self.nrows,
                    find_pivot(self@, j as int, i as int) == find_pivot(
                        self@,
                        j as int,
                        pivot_row as int,
                    ),
                decreases self.nrows - i,
            {
                i += 1;
            }
            if i < self.nrows {
                self.swap_rows(i, pivot_row);
                rhs_vector.swap(i, pivot_row);
                let pivot_val = self.entry(pivot_row, j);
                assert(pivot_val@ != 0) by {
                    assert(a[i as int].len() == self.ncols);
                    assert(a[pivot_row as int].len() == self.ncols);
                }
                match pivot_val.inverse() {
                    Some(inv_pivot) => {
                        self.multiply_row_by_scalar(pivot_row, inv_pivot);
                        let scaled = rhs_vector.at(pivot_row) * inv_pivot;
                        rhs_vector.set(pivot_row, scaled);
                    },
                    None => {
                        return Err(with_two_numbers("Pivot element at (", pivot_row, ",", j, ") has no inverse."));
                    },
                }
                let ghost a2 = self@;
                let ghost y2 = rhs_vector@;
                let mut k: usize = 0;
                while k < self.nrows
                    invariant
                        self.wf(),
                        self.spec_rows() == old(self).spec_rows(),
                        self.spec_cols() == old(self).spec_cols(),
                        has_shape(a2, self.spec_rows(), self.spec_cols()),
                        rhs_vector@.len() == self.nrows,
                        y2.len() == self.nrows,
                        j < self.ncols,
                        pivot_row < self.nrows,
                        k <= self.nrows,
                        forall|t: int|
                            0 <= t < k ==> #[trigger] self@[t] == clear_column(
                                a2,
                                pivot_row as int,
                                j as int,
                            )[t],
                        forall|t: int| k <= t < self.nrows ==> #[trigger] self@[t] == a2[t],
                        self@[pivot_row as int] == a2[pivot_row as int],
                        forall|t: int|
                            0 <= t < k ==> #[trigger] rhs_vector@[t] == clear_column_rhs(
                                a2,
                                y2,
                                pivot_row as int,
                                j as int,
                            )[t],
                        forall|t: int| k <= t < self.nrows ==> #[trigger] rhs_vector@[t] == y2[t],
                        rhs_vector@[pivot_row as int] == y2[pivot_row as int],
                    decreases self.nrows - k,
                {
                    if k != pivot_row {
                        let ghost before = self@;
                        let ghost before_y = rhs_vector@;
                        let factor = self.entry(k, j);
                        self.add_multiple_of_row_to_another(k, pivot_row, factor);
                        let delta = factor * rhs_vector.at(pivot_row);
                        let updated = rhs_vector.at(k) + delta;
                        rhs_vector.set(k, updated);
                        assert(self@[k as int] == clear_column(a2, pivot_row as int, j as int)[k as int]);
                        assert forall|t: int| k < t < self.nrows implies #[trigger] self@[t]
                            == a2[t] by {
                            assert(before[t] == a2[t]);
                        }
                        assert forall|t: int| 0 <= t < k implies #[trigger] self@[t]
                            == clear_column(a2, pivot_row as int, j as int)[t] by {
                            assert(before[t] == clear_column(a2, pivot_row as int, j as int)[t]);
                        }
                        assert forall|t: int| 0 <= t < k implies #[trigger] rhs_vector@[t]
                            == clear_column_rhs(a2, y2, pivot_row as int, j as int)[t] by {
                            assert(before_y[t] == clear_column_rhs(
                                a2,
                                y2,
                                pivot_row as int,
                                j as int,
                            )[t]);
                        }
                        assert forall|t: int| k < t < self.nrows implies #[trigger] rhs_vector@[t]
                            == y2[t] by {
                            assert(before_y[t] == y2[t]);
                        }
                    }
                    k += 1;
                }
                proof {
                    let next = pivot_step(a, y, i as int, pivot_row as int, j as int);
                    assert(self@ =~= next.0);
                    assert(rhs_vector@ =~= next.1);
                }
                pivot_row += 1;
            }
            j += 1;
        }
        Ok(pivot_row)
    }

    /// Back-substitution through a reduced system, starting from the
    /// assignment `start`: the entries of `start` at the variables that no row
    /// fixes stay as they are. The error is the row that shows the system to
    /// have no solution.
    pub fn back_substitute_from(&self, rhs_vector: &Vector, start: Vector) -> (r: Result<
        Vector,
        usize,
    >)
        requires
            self.wf(),
            self.spec_rows() == rhs_vector@.len(),
            self.spec_cols() == start@.len(),
        ensures
            r.is_ok() <==> back_substitute(
                self@,
                rhs_vector@,
                start@,
                self.spec_rows() as int,
            ).is_some(),
            r.is_ok() ==> r.unwrap()@ == back_substitute(
                self@,
                rhs_vector@,
                start@,
                self.spec_rows() as int,
            ).unwrap(),
            r.is_ok() ==> r.unwrap()@.len() == self.spec_cols(),
            r.is_err() ==> r.unwrap_err() as int == blocking_row(
                self@,
                rhs_vector@,
                self.spec_rows() as int,
            ),
            r.is_ok() && is_reduced(self@, self.spec_cols() as int) ==> solves(
                self@,
                rhs_vector@,
                r.unwrap()@,
            ),
            r.is_err() && is_reduced(self@, self.spec_cols() as int) ==> forall|x: Seq<u8>|
                x.len() == self.spec_cols() && all_nibbles(x) ==> !#[trigger] solves(
                    self@,
                    rhs_vector@,
                    x,
                ),
    {
        proof {
            self.lemma_nibble_rows();
            rhs_vector.lemma_nibbles();
            start.lemma_nibbles();
            let ncols = self.spec_cols();
            if is_reduced(self@, ncols as int) {
                if back_substitute(self@, rhs_vector@, start@, self.spec_rows() as int).is_some() {
                    lemma_back_substitute_solves(self@, rhs_vector@, start@, ncols);
                } else {
                    assert forall|x: Seq<u8>| x.len() == ncols && all_nibbles(x) implies !#[trigger] solves(
                        self@,
                        rhs_vector@,
                        x,
                    ) by {
                        lemma_back_substitute_none(
                            self@,
                            rhs_vector@,
                            start@,
                            ncols,
                            self.spec_rows() as int,
                            x,
                        );
                    }
                }
            }
        }
        let mut solution = start;
        let mut i: usize = self.nrows;
        while i > 0
            invariant
                self.wf(),
                self.spec_rows() == rhs_vector@.len(),
                self.spec_cols() == solution@.len(),
                i <= self.nrows,
                back_substitute(self@, rhs_vector@, solution@, i as int) == back_substitute(
                    self@,
                    rhs_vector@,
                    start@,
                    self.spec_rows() as int,
                ),
                blocking_row(self@, rhs_vector@, self.spec_rows() as int) == blocking_row(
                    self@,
                    rhs_vector@,
                    i as int,
                ),
                is_reduced(self@, self.spec_cols() as int) && back_substitute(
                    self@,
                    rhs_vector@,
                    start@,
                    self.spec_rows() as int,
                ).is_none() ==> forall|x: Seq<u8>|
                    x.len() == self.spec_cols() && all_nibbles(x) ==> !#[trigger] solves(
                        self@,
                        rhs_vector@,
                        x,
                    ),
                is_reduced(self@, self.spec_cols() as int) && back_substitute(
                    self@,
                    rhs_vector@,
                    start@,
                    self.spec_rows() as int,
                ).is_some() ==> solves(
                    self@,
                    rhs_vector@,
                    back_substitute(self@, rhs_vector@, start@, self.spec_rows() as int).unwrap(),
                ),
            decreases i,
        {
            let row = i - 1;
            assert(self@[row as int].len() == self.ncols);
            let mut pc: usize = 0;
            while pc < self.ncols && self.entry(row, pc).value() == 0
                invariant
                    self.wf(),
                    row < self.nrows,
                    pc <= self.ncols,
                    self@[row as int].len() == self.ncols,
                    first_nonzero(self@[row as int], pc as int) == first_nonzero(
                        self@[row as int],
                        0,
                    ),
                decreases self.ncols - pc,
            {
                pc += 1;
            }
            let unit = pc < self.ncols && self.entry(row, pc).value() == 1;
            if !unit {
                if rhs_vector.at(row).value() != 0 {
                    return Err(row);
                }
            } else {
                let known = self.data[row].dot_between(&solution, pc + 1, self.ncols);
                let value = rhs_vector.at(row) + known;
                solution.set(pc, value);
            }
            i = row;
        }
        Ok(solution)
    }

    /// A solution of the reduced system `[self | rhs_vector]` in which every
    /// variable that no row fixes is zero. An error when the vector does not
    /// have one entry for each row, or when some row that fixes no variable
    /// has a nonzero right-hand side.
    pub fn solve_from_row_echelon(&self, rhs_vector: &Vector) -> (r: Result<Vector, String>)
        requires
            self.wf(),
        ensures
            r.is_ok() <==> self.spec_rows() == rhs_vector@.len() && back_substitute(
                self@,
                rhs_vector@,
                seq_zero(self.spec_cols()),
                self.spec_rows() as int,
            ).is_some(),
            r.is_ok() ==> r.unwrap()@ == back_substitute(
                self@,
                rhs_vector@,
                seq_zero(self.spec_cols()),
                self.spec_rows() as int,
            ).unwrap(),
            r.is_ok() && is_reduced(self@, self.spec_cols() as int) ==> solves(
                self@,
                rhs_vector@,
                r.unwrap()@,
            ),
            r.is_err() && self.spec_rows() == rhs_vector@.len() && is_reduced(
                self@,
                self.spec_cols() as int,
            ) ==> forall|x: Seq<u8>|
                x.len() == self.spec_cols() && all_nibbles(x) ==> !#[trigger] solves(
                    self@,
                    rhs_vector@,
                    x,
                ),
    {
        if self.nrows != rhs_vector.len() {
            return Err("Matrix rows must match rhs_vector length.".to_string());
        }
        match self.back_substitute_from(rhs_vector, Vector::zero(self.ncols)) {
            Ok(solution) => Ok(solution),
            Err(row) => Err(with_number(
                "Inconsistent system: zero row in matrix for non-zero RHS at row ",
                row,
                ".",
            )),
        }
    }
}

impl Clone for Matrix {
    /// A copy with the same shape and entries.
    fn clone(&self) -> (r: Matrix)
        ensures
            self.wf() ==> r.wf(),
            r@ == self@,
            r.spec_rows() == self.spec_rows(),
            r.spec_cols() == self.spec_cols(),
    {
        let mut data: Vec<Vector> = Vec::new();
        let mut i: usize = 0;
        while i < self.data.len()
            invariant
                i <= self.data@.len(),
                data@.len() == i,
                forall|t: int| 0 <= t < i ==> (#[trigger] data@[t])@ == self.data@[t]@,
            decreases self.data@.len() - i,
        {
            data.push(self.data[i].duplicate());
            i += 1;
        }
        let m = Matrix { data, nrows: self.nrows, ncols: self.ncols };
        assert(m@ =~= self@);
        m
    }
}

} // verus!
