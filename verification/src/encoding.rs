//! The bitsliced serialisation of batches and of sequences of matrices.
//!
//! A batch of `m` field elements, `m` a multiple of eight, becomes four bit
//! planes of `m / 8` bytes each: plane `p` holds bit `p` of every element,
//! eight elements to a byte, the first element in the lowest bit.

use crate::f16::{F16, values};
use crate::matrix::Matrix;
use crate::params::{
    L_IS_TRIANGULAR, L_MAT_COLS, L_MAT_ROWS, M_PARAM, P1_IS_TRIANGULAR, P1_MAT_COLS, P1_MAT_ROWS,
    P2_IS_TRIANGULAR, P2_MAT_COLS, P2_MAT_ROWS, P3_IS_TRIANGULAR, P3_MAT_COLS, P3_MAT_ROWS,
};
use crate::text::{decimal, decimal_text, with_number, with_three_numbers};
use vstd::prelude::*;
use vstd::string::StringExecFns;

verus! {

/// Bit `plane` of each of the `count` elements from `base` on, element `j`
/// in bit `j` of the result.
pub open spec fn pack_bits(v: Seq<u8>, base: int, plane: u8, count: u8) -> u8
    decreases count,
{
    if count == 0 {
        0u8
    } else {
        pack_bits(v, base, plane, (count - 1) as u8) | (((v[base + count - 1] >> plane) & 1) << (
        count - 1) as u8)
    }
}

/// One bit plane of a batch: a byte for every eight elements.
pub open spec fn plane_bytes(v: Seq<u8>, plane: u8) -> Seq<u8> {
    Seq::new(v.len() / 8, |b: int| pack_bits(v, 8 * b, plane, 8))
}

/// The bitsliced form of a batch: its four bit planes, lowest first.
pub open spec fn bitsliced(v: Seq<u8>) -> Seq<u8> {
    plane_bytes(v, 0) + plane_bytes(v, 1) + plane_bytes(v, 2) + plane_bytes(v, 3)
}

/// The entries at (`row`, `col`) of all the matrices, in order.
pub open spec fn position_batch(mats: Seq<Seq<Seq<u8>>>, row: int, col: int) -> Seq<u8> {
    Seq::new(mats.len(), |i: int| mats[i][row][col])
}

/// The bitsliced batches of the positions of row `row` from column `from`
/// up to, not including, column `to`.
pub open spec fn row_bytes(mats: Seq<Seq<Seq<u8>>>, row: int, from: int, to: int) -> Seq<u8>
    decreases to - from,
{
    if to <= from {
        Seq::empty()
    } else {
        row_bytes(mats, row, from, to - 1) + bitsliced(position_batch(mats, row, to - 1))
    }
}

/// The bitsliced batches of the positions of the first `rows` rows, in
/// row-major order; of a triangular sequence only the positions on and above
/// the diagonal.
pub open spec fn matrices_bytes(mats: Seq<Seq<Seq<u8>>>, rows: int, cols: int, triangular: bool) -> Seq<
    u8,
>
    decreases rows,
{
    if rows <= 0 {
        Seq::empty()
    } else {
        matrices_bytes(mats, rows - 1, cols, triangular) + row_bytes(
            mats,
            rows - 1,
            if triangular {
                rows - 1
            } else {
                0
            },
            cols,
        )
    }
}

/// The entries of each matrix of a sequence.
pub open spec fn matrix_views(matrices: Seq<Matrix>) -> Seq<Seq<Seq<u8>>> {
    Seq::new(matrices.len(), |i: int| matrices[i]@)
}

/// Whether every matrix of the sequence is well formed.
pub open spec fn all_wf(matrices: Seq<Matrix>) -> bool {
    forall|i: int| 0 <= i < matrices.len() ==> (#[trigger] matrices[i]).wf()
}

/// Whether every matrix of the sequence has `r` rows and `c` columns.
pub open spec fn all_of_shape(matrices: Seq<Matrix>, r: nat, c: nat) -> bool {
    forall|i: int|
        0 <= i < matrices.len() ==> (#[trigger] matrices[i]).spec_rows() == r
            && matrices[i].spec_cols() == c
}

/// Whether a sequence of matrices can be bitsliced: it is empty, or it holds
/// a multiple of eight matrices of the stated shape, square if triangular.
pub open spec fn can_bitslice(matrices: Seq<Matrix>, r: nat, c: nat, triangular: bool) -> bool {
    matrices.len() == 0 || (matrices.len() % 8 == 0 && all_of_shape(matrices, r, c) && (triangular
        ==> r == c))
}

/// Whether a matrix has `r` rows and `c` columns.
pub open spec fn fits(matrix: Matrix, r: nat, c: nat) -> bool {
    matrix.spec_rows() == r && matrix.spec_cols() == c
}

/// The index of the first matrix from `from` on that does not have `r` rows
/// and `c` columns; the length of the sequence when there is none.
pub open spec fn first_misfit(matrices: Seq<Matrix>, r: nat, c: nat, from: nat) -> nat
    decreases matrices.len() - from,
{
    if from >= matrices.len() {
        matrices.len()
    } else if !fits(matrices[from as int], r, c) {
        from
    } else {
        first_misfit(matrices, r, c, from + 1)
    }
}

/// The error text for a count of matrices that is no multiple of eight.
pub open spec fn multiple_error(count: nat) -> Seq<char> {
    "Number of matrices m ("@ + decimal_text(count)
        + ") must be a multiple of 8 for bitsliced encoding."@
}

/// The error text for matrix `idx`, which has `rows` rows and `cols` columns
/// where `r` and `c` were expected.
pub open spec fn shape_error(idx: nat, r: nat, c: nat, rows: nat, cols: nat) -> Seq<char> {
    "Matrix "@ + decimal_text(idx) + " has incorrect dimensions: expected "@ + decimal_text(r) + "x"@
        + decimal_text(c) + ", got "@ + decimal_text(rows) + "x"@ + decimal_text(cols)
}

/// The error text for a triangular shape that is not square.
pub open spec fn square_error() -> Seq<char> {
    "Triangular matrices must be square."@
}

/// The error text for a sequence of matrices that cannot be bitsliced. The
/// count is judged first. Then the matrices are judged in order, each by its
/// shape and, if that fits, by whether a triangular shape is square: so the
/// text speaks of the first matrix if that has another shape, of the shape
/// not being square if it is triangular and not square, and of the first
/// matrix of another shape otherwise.
pub open spec fn bitslice_error(matrices: Seq<Matrix>, r: nat, c: nat, triangular: bool) -> Seq<
    char,
> {
    let i = first_misfit(matrices, r, c, 0);
    if matrices.len() % 8 != 0 {
        multiple_error(matrices.len())
    } else if !fits(matrices[0], r, c) {
        shape_error(0, r, c, matrices[0].spec_rows(), matrices[0].spec_cols())
    } else if triangular && r != c {
        square_error()
    } else {
        shape_error(i, r, c, matrices[i as int].spec_rows(), matrices[i as int].spec_cols())
    }
}

/// The first matrix of another shape is the one before which all fit.
pub proof fn lemma_first_misfit(matrices: Seq<Matrix>, r: nat, c: nat, from: nat, idx: nat)
    requires
        from <= idx < matrices.len(),
        forall|i: int| from <= i < idx ==> fits(#[trigger] matrices[i], r, c),
        !fits(matrices[idx as int], r, c),
    ensures
        first_misfit(matrices, r, c, from) == idx,
    decreases idx - from,
{
    if from < idx {
        assert(fits(matrices[from as int], r, c));
        lemma_first_misfit(matrices, r, c, from + 1, idx);
    }
}

/// The error text for `got` matrices where the default parameter set has
/// `M_PARAM`; `middle` names the family of matrices.
pub open spec fn count_error(middle: Seq<char>, got: nat) -> Seq<char> {
    "Expected "@ + decimal_text(M_PARAM as nat) + middle + decimal_text(got)
}

/// The error text for a family of matrices of the default parameter set
/// that cannot be encoded: the count is judged against `M_PARAM` first, then
/// the sequence as for any bitsliced encoding.
pub open spec fn family_error(
    middle: Seq<char>,
    matrices: Seq<Matrix>,
    r: nat,
    c: nat,
    triangular: bool,
) -> Seq<char> {
    if matrices.len() != M_PARAM {
        count_error(middle, matrices.len())
    } else {
        bitslice_error(matrices, r, c, triangular)
    }
}

/// The bitsliced form of a batch whose length is a multiple of eight; an
/// error for any other length.
pub fn encode_bitsliced_vector(v: &[F16]) -> (r: Result<Vec<u8>, String>)
    ensures
        r.is_ok() <==> v@.len() % 8 == 0,
        r.is_ok() ==> r.unwrap()@ == bitsliced(values(v@)),
{
    let m = v.len();
    if m % 8 != 0 {
        return Err(with_number(
            "Vector length m (",
            m,
            ") must be a multiple of 8 for bitsliced encoding.",
        ));
    }
    let per_plane = m / 8;
    let mut out: Vec<u8> = Vec::new();
    let mut plane: u8 = 0;
    while plane < 4
        invariant
            plane <= 4,
            m == v@.len(),
            m % 8 == 0,
            per_plane == m / 8,
            plane == 0 ==> out@ == Seq::<u8>::empty(),
            plane == 1 ==> out@ == plane_bytes(values(v@), 0),
            plane == 2 ==> out@ == plane_bytes(values(v@), 0) + plane_bytes(values(v@), 1),
            plane == 3 ==> out@ == plane_bytes(values(v@), 0) + plane_bytes(values(v@), 1)
                + plane_bytes(values(v@), 2),
            plane == 4 ==> out@ == bitsliced(values(v@)),
        decreases 4 - plane,
    {
        let ghost before = out@;
        let mut b: usize = 0;
        while b < per_plane
            invariant
                b <= per_plane,
                plane < 4,
                m == v@.len(),
                m % 8 == 0,
                per_plane == m / 8,
                out@ == before + plane_bytes(values(v@), plane).take(b as int),
            decreases per_plane - b,
        {
            let mut current: u8 = 0;
            let mut bit: u8 = 0;
            while bit < 8
                invariant
                    bit <= 8,
                    plane < 4,
                    b < per_plane,
                    m == v@.len(),
                    per_plane == m / 8,
                    current == pack_bits(values(v@), 8 * b, plane, bit),
                decreases 8 - bit,
            {
                let value = v[b * 8 + bit as usize].value();
                current = current | (((value >> plane) & 1) << bit);
                bit += 1;
            }
            proof {
                let p = plane_bytes(values(v@), plane);
                assert(p.take(b as int + 1) =~= p.take(b as int).push(current));
                assert(before + p.take(b as int + 1) =~= (before + p.take(b as int)).push(current));
            }
            out.push(current);
            b += 1;
        }
        proof {
            let p = plane_bytes(values(v@), plane);
            assert(p.take(per_plane as int) =~= p);
            assert(before + Seq::<u8>::empty() =~= before);
            assert(Seq::<u8>::empty() + p =~= p);
        }
        plane += 1;
    }
    Ok(out)
}

/// The bitsliced form of a sequence of matrices of `r` rows and `c` columns:
/// for every position in row-major order, the bitsliced batch of the entries
/// that the matrices have there. With `is_triangular`, only the positions on
/// and above the diagonal are written. An empty sequence gives no bytes; a
/// count that is no multiple of eight, a matrix of another shape, or a
/// triangular shape that is not square is an error.
pub fn encode_bitsliced_matrices(matrices: &[Matrix], r: usize, c: usize, is_triangular: bool) -> (res:
    Result<Vec<u8>, String>)
    requires
        all_wf(matrices@),
    ensures
        res.is_ok() <==> can_bitslice(matrices@, r as nat, c as nat, is_triangular),
        res.is_ok() ==> res.unwrap()@ == (if matrices@.len() == 0 {
            Seq::<u8>::empty()
        } else {
            matrices_bytes(matrix_views(matrices@), r as int, c as int, is_triangular)
        }),
        res.is_err() ==> res.unwrap_err()@ == bitslice_error(
            matrices@,
            r as nat,
            c as nat,
            is_triangular,
        ),
{
    let m = matrices.len();
    if m == 0 {
        return Ok(Vec::new());
    }
    if m % 8 != 0 {
        return Err(with_number(
            "Number of matrices m (",
            m,
            ") must be a multiple of 8 for bitsliced encoding.",
        ));
    }
    let mut idx: usize = 0;
    while idx < m
        invariant
            idx <= m,
            m == matrices@.len(),
            m > 0,
            m % 8 == 0,
            forall|i: int|
                0 <= i < idx ==> (#[trigger] matrices@[i]).spec_rows() == r
                    && matrices@[i].spec_cols() == c,
            idx > 0 ==> (is_triangular ==> r == c),
        decreases m - idx,
    {
        let rows = matrices[idx].rows();
        let cols = matrices[idx].cols();
        if rows != r || cols != c {
            proof {
                if idx > 0 {
                    assert(fits(matrices@[0], r as nat, c as nat));
                    lemma_first_misfit(matrices@, r as nat, c as nat, 0, idx as nat);
                }
            }
            let expected = with_three_numbers(
                "Matrix ",
                idx,
                " has incorrect dimensions: expected ",
                r,
                "x",
                c,
                ", got ",
            );
            return Err(expected.concat(decimal(rows).as_str()).concat("x").concat(decimal(cols).as_str()));
        }
        if is_triangular && r != c {
            assert(fits(matrices@[0], r as nat, c as nat));
            return Err("Triangular matrices must be square.".to_string());
        }
        idx += 1;
    }
    let ghost views = matrix_views(matrices@);
    let mut out: Vec<u8> = Vec::new();
    let mut row: usize = 0;
    while row < r
        invariant
            row <= r,
            m == matrices@.len(),
            m % 8 == 0,
            all_wf(matrices@),
            all_of_shape(matrices@, r as nat, c as nat),
            views == matrix_views(matrices@),
            out@ == matrices_bytes(views, row as int, c as int, is_triangular),
        decreases r - row,
    {
        let start: usize = if is_triangular {
            row
        } else {
            0
        };
        let ghost before = out@;
        let mut col: usize = start;
        if start < c {
            while col < c
                invariant
                    start <= col <= c,
                    row < r,
                    m == matrices@.len(),
                    m % 8 == 0,
                    all_wf(matrices@),
                    all_of_shape(matrices@, r as nat, c as nat),
                    views == matrix_views(matrices@),
                    out@ == before + row_bytes(views, row as int, start as int, col as int),
                decreases c - col,
            {
                let mut batch: Vec<F16> = Vec::with_capacity(m);
                let mut i: usize = 0;
                while i < m
                    invariant
                        i <= m,
                        row < r,
                        col < c,
                        m == matrices@.len(),
                        all_wf(matrices@),
                        all_of_shape(matrices@, r as nat, c as nat),
                        views == matrix_views(matrices@),
                        batch@.len() == i,
                        forall|t: int|
                            0 <= t < i ==> (#[trigger] batch@[t])@ == views[t][row as int][col as int],
                    decreases m - i,
                {
                    assert(matrices@[i as int].wf());
                    batch.push(matrices[i].entry(row, col));
                    i += 1;
                }
                assert(values(batch@) =~= position_batch(views, row as int, col as int));
                match encode_bitsliced_vector(batch.as_slice()) {
                    Ok(bytes) => {
                        extend_bytes(&mut out, &bytes);
                    },
                    Err(e) => {
                        return Err(e);
                    },
                }
                proof {
                    let rb = row_bytes(views, row as int, start as int, col as int);
                    let piece = bitsliced(position_batch(views, row as int, col as int));
                    assert(before + rb + piece =~= before + (rb + piece));
                }
                col += 1;
            }
        } else {
            assert(before + row_bytes(views, row as int, start as int, c as int) =~= before);
        }
        row += 1;
    }
    Ok(out)
}

/// Appends `extra` to `out`.
pub fn extend_bytes(out: &mut Vec<u8>, extra: &Vec<u8>)
    ensures
        final(out)@ == old(out)@ + extra@,
{
    let mut i: usize = 0;
    while i < extra.len()
        invariant
            i <= extra.len(),
            out@ == old(out)@ + extra@.take(i as int),
        decreases extra.len() - i,
    {
        proof {
            assert(old(out)@ + extra@.take(i as int + 1) =~= (old(out)@ + extra@.take(i as int)).push(
                extra@[i as int],
            ));
        }
        out.push(extra[i]);
        i += 1;
    }
    assert(extra@.take(extra.len() as int) =~= extra@);
}

/// The bitsliced form of the `P1` matrices of the default parameter set,
/// which must be `M_PARAM` many and of the shape of that family. Any other
/// count is an error, and so is whatever the bitsliced encoding refuses: the
/// text of the error says which. The encoding wants a multiple of eight
/// matrices, so as long as `M_PARAM` is none, every sequence is refused.
pub fn encode_p1(p1_matrices: &[Matrix]) -> (r: Result<Vec<u8>, String>)
    requires
        all_wf(p1_matrices@),
    ensures
        r.is_ok() <==> p1_matrices@.len() == M_PARAM && can_bitslice(
            p1_matrices@,
            P1_MAT_ROWS as nat,
            P1_MAT_COLS as nat,
            P1_IS_TRIANGULAR,
        ),
        r.is_ok() ==> r.unwrap()@ == matrices_bytes(
            matrix_views(p1_matrices@),
            P1_MAT_ROWS as int,
            P1_MAT_COLS as int,
            P1_IS_TRIANGULAR,
        ),
        r.is_err() ==> r.unwrap_err()@ == family_error(
            " P1 matrices, got "@,
            p1_matrices@,
            P1_MAT_ROWS as nat,
            P1_MAT_COLS as nat,
            P1_IS_TRIANGULAR,
        ),
{
    if p1_matrices.len() != M_PARAM {
        let expected = with_number("Expected ", M_PARAM, " P1 matrices, got ");
        return Err(expected.concat(decimal(p1_matrices.len()).as_str()));
    }
    encode_bitsliced_matrices(p1_matrices, P1_MAT_ROWS, P1_MAT_COLS, P1_IS_TRIANGULAR)
}

/// The bitsliced form of the `P2` matrices of the default parameter set,
/// which must be `M_PARAM` many and of the shape of that family. Any other
/// count is an error, and so is whatever the bitsliced encoding refuses: the
/// text of the error says which. The encoding wants a multiple of eight
/// matrices, so as long as `M_PARAM` is none, every sequence is refused.
pub fn encode_p2(p2_matrices: &[Matrix]) -> (r: Result<Vec<u8>, String>)
    requires
        all_wf(p2_matrices@),
    ensures
        r.is_ok() <==> p2_matrices@.len() == M_PARAM && can_bitslice(
            p2_matrices@,
            P2_MAT_ROWS as nat,
            P2_MAT_COLS as nat,
            P2_IS_TRIANGULAR,
        ),
        r.is_ok() ==> r.unwrap()@ == matrices_bytes(
            matrix_views(p2_matrices@),
            P2_MAT_ROWS as int,
            P2_MAT_COLS as int,
            P2_IS_TRIANGULAR,
        ),
        r.is_err() ==> r.unwrap_err()@ == family_error(
            " P2 matrices, got "@,
            p2_matrices@,
            P2_MAT_ROWS as nat,
            P2_MAT_COLS as nat,
            P2_IS_TRIANGULAR,
        ),
{
    if p2_matrices.len() != M_PARAM {
        let expected = with_number("Expected ", M_PARAM, " P2 matrices, got ");
        return Err(expected.concat(decimal(p2_matrices.len()).as_str()));
    }
    encode_bitsliced_matrices(p2_matrices, P2_MAT_ROWS, P2_MAT_COLS, P2_IS_TRIANGULAR)
}

/// The bitsliced form of the `P3` matrices of the default parameter set,
/// which must be `M_PARAM` many and of the shape of that family. Any other
/// count is an error, and so is whatever the bitsliced encoding refuses: the
/// text of the error says which. The encoding wants a multiple of eight
/// matrices, so as long as `M_PARAM` is none, every sequence is refused.
pub fn encode_p3(p3_matrices: &[Matrix]) -> (r: Result<Vec<u8>, String>)
    requires
        all_wf(p3_matrices@),
    ensures
        r.is_ok() <==> p3_matrices@.len() == M_PARAM && can_bitslice(
            p3_matrices@,
            P3_MAT_ROWS as nat,
            P3_MAT_COLS as nat,
            P3_IS_TRIANGULAR,
        ),
        r.is_ok() ==> r.unwrap()@ == matrices_bytes(
            matrix_views(p3_matrices@),
            P3_MAT_ROWS as int,
            P3_MAT_COLS as int,
            P3_IS_TRIANGULAR,
        ),
        r.is_err() ==> r.unwrap_err()@ == family_error(
            " P3 matrices, got "@,
            p3_matrices@,
            P3_MAT_ROWS as nat,
            P3_MAT_COLS as nat,
            P3_IS_TRIANGULAR,
        ),
{
    if p3_matrices.len() != M_PARAM {
        let expected = with_number("Expected ", M_PARAM, " P3 matrices, got ");
        return Err(expected.concat(decimal(p3_matrices.len()).as_str()));
    }
    encode_bitsliced_matrices(p3_matrices, P3_MAT_ROWS, P3_MAT_COLS, P3_IS_TRIANGULAR)
}

/// The bitsliced form of the `L` matrices of the default parameter set,
/// which must be `M_PARAM` many and of the shape of that family. Any other
/// count is an error, and so is whatever the bitsliced encoding refuses: the
/// text of the error says which. The encoding wants a multiple of eight
/// matrices, so as long as `M_PARAM` is none, every sequence is refused.
pub fn encode_l(l_matrices: &[Matrix]) -> (r: Result<Vec<u8>, String>)
    requires
        all_wf(l_matrices@),
    ensures
        r.is_ok() <==> l_matrices@.len() == M_PARAM && can_bitslice(
            l_matrices@,
            L_MAT_ROWS as nat,
            L_MAT_COLS as nat,
            L_IS_TRIANGULAR,
        ),
        r.is_ok() ==> r.unwrap()@ == matrices_bytes(
            matrix_views(l_matrices@),
            L_MAT_ROWS as int,
            L_MAT_COLS as int,
            L_IS_TRIANGULAR,
        ),
        r.is_err() ==> r.unwrap_err()@ == family_error(
            " L matrices, got "@,
            l_matrices@,
            L_MAT_ROWS as nat,
            L_MAT_COLS as nat,
            L_IS_TRIANGULAR,
        ),
{
    if l_matrices.len() != M_PARAM {
        let expected = with_number("Expected ", M_PARAM, " L matrices, got ");
        return Err(expected.concat(decimal(l_matrices.len()).as_str()));
    }
    encode_bitsliced_matrices(l_matrices, L_MAT_ROWS, L_MAT_COLS, L_IS_TRIANGULAR)
}

} // verus!
