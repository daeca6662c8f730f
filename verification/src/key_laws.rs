//! The batches that key expansion derives, one equation at a time: every
//! entry of `P1 * O`, of `O^T * L`, of `Upper(O^T * L)` and of `v^T * L` as a
//! sum over the positions that feed it.

use crate::f16::{gf16_add, gf16_mul};
use crate::matrix::lemma_flat_index;
use crate::mayo_operations::{
    batches_add, lemma_position, lemma_row_start_closed, lemma_row_start_monotone,
    lemma_upper_row_len, lemma_upper_rows_len, o_transpose_times, otl_entry, p1_times_o, p1o_entry,
    row_start, upper_index, upper_row, upper_rows, vinegar_times, vl_entry,
};
use crate::params::{ParamSet, triangle};
use crate::sums::sum_over;
use crate::vector::seq_add;
use vstd::prelude::*;

verus! {

/// The term of an entry of `P1 * O` for the summation index `b`: the batch
/// of `P1` at the triangle position of `a` and `b`, times `O[b][c]`.
pub open spec fn p1o_term(p1: Seq<Seq<u8>>, om: Seq<Seq<u8>>, v: int, a: int, c: int, e: int) -> spec_fn(
    int,
) -> u8 {
    |b: int|
        gf16_mul(
            p1[if a <= b {
                upper_index(v, a, b)
            } else {
                upper_index(v, b, a)
            }][e],
            om[b][c],
        )
}

/// The term of an entry of `O^T * L` for the summation index `a`.
pub open spec fn otl_term(l: Seq<Seq<u8>>, om: Seq<Seq<u8>>, o: int, r: int, c: int, e: int) -> spec_fn(
    int,
) -> u8 {
    |a: int| gf16_mul(l[a * o + c][e], om[a][r])
}

/// The term of an entry of `v^T * L` for the summation index `a`.
pub open spec fn vl_term(l: Seq<Seq<u8>>, vin: Seq<u8>, o: int, c: int, e: int) -> spec_fn(int) -> u8 {
    |a: int| gf16_mul(l[a * o + c][e], vin[a])
}

/// Entry `e` of a partial entry of `P1 * O` is the sum of its terms.
pub proof fn lemma_p1o_entry(
    p1: Seq<Seq<u8>>,
    om: Seq<Seq<u8>>,
    v: int,
    a: int,
    c: int,
    lo: int,
    hi: int,
    m: nat,
    e: int,
)
    requires
        0 <= e < m,
    ensures
        p1o_entry(p1, om, v, a, c, lo, hi, m).len() == m,
        p1o_entry(p1, om, v, a, c, lo, hi, m)[e] == sum_over(
            p1o_term(p1, om, v, a, c, e),
            lo,
            hi,
        ),
    decreases hi - lo,
{
    if hi > lo {
        lemma_p1o_entry(p1, om, v, a, c, lo, hi - 1, m, e);
    }
}

/// Entry `e` of the batch of `P1 * O`, or of `P1^T * O`, at (`a`, `c`).
pub proof fn lemma_p1_times_o_entry(
    ps: ParamSet,
    p1: Seq<Seq<u8>>,
    om: Seq<Seq<u8>>,
    transposed: bool,
    a: int,
    c: int,
    e: int,
)
    requires
        ps.wf(),
        0 <= a < ps.spec_v(),
        0 <= c < ps.o,
        0 <= e < ps.m,
    ensures
        p1_times_o(ps, p1, om, transposed).len() == ps.spec_p2_count(),
        0 <= a * ps.o + c < ps.spec_p2_count(),
        p1_times_o(ps, p1, om, transposed)[a * ps.o + c].len() == ps.m,
        p1_times_o(ps, p1, om, transposed)[a * ps.o + c][e] == sum_over(
            p1o_term(p1, om, ps.spec_v() as int, a, c, e),
            if transposed {
                0
            } else {
                a
            },
            if transposed {
                a + 1
            } else {
                ps.spec_v() as int
            },
        ),
{
    lemma_flat_index(a, c, ps.spec_v() as int, ps.o as int);
    lemma_position(a, c, ps.o as int);
    lemma_p1o_entry(
        p1,
        om,
        ps.spec_v() as int,
        a,
        c,
        if transposed {
            0
        } else {
            a
        },
        if transposed {
            a + 1
        } else {
            ps.spec_v() as int
        },
        ps.m as nat,
        e,
    );
}

/// Entry `e` of a partial entry of `O^T * L` is the sum of its terms.
pub proof fn lemma_otl_entry(
    l: Seq<Seq<u8>>,
    om: Seq<Seq<u8>>,
    o: int,
    r: int,
    c: int,
    a_hi: int,
    m: nat,
    e: int,
)
    requires
        0 <= e < m,
    ensures
        otl_entry(l, om, o, r, c, a_hi, m).len() == m,
        otl_entry(l, om, o, r, c, a_hi, m)[e] == sum_over(otl_term(l, om, o, r, c, e), 0, a_hi),
    decreases a_hi,
{
    if a_hi > 0 {
        lemma_otl_entry(l, om, o, r, c, a_hi - 1, m, e);
    }
}

/// Entry `e` of the batch of `O^T * L` at (`r`, `c`).
pub proof fn lemma_o_transpose_times_entry(
    ps: ParamSet,
    om: Seq<Seq<u8>>,
    l: Seq<Seq<u8>>,
    r: int,
    c: int,
    e: int,
)
    requires
        ps.wf(),
        0 <= r < ps.o,
        0 <= c < ps.o,
        0 <= e < ps.m,
    ensures
        o_transpose_times(ps, om, l).len() == ps.o * ps.o,
        0 <= r * ps.o + c < ps.o * ps.o,
        o_transpose_times(ps, om, l)[r * ps.o + c].len() == ps.m,
        o_transpose_times(ps, om, l)[r * ps.o + c][e] == sum_over(
            otl_term(l, om, ps.o as int, r, c, e),
            0,
            ps.spec_v() as int,
        ),
{
    lemma_flat_index(r, c, ps.o as int, ps.o as int);
    lemma_position(r, c, ps.o as int);
    lemma_otl_entry(l, om, ps.o as int, r, c, ps.spec_v() as int, ps.m as nat, e);
}

/// Entry `e` of a partial entry of `v^T * L` is the sum of its terms.
pub proof fn lemma_vl_entry(
    l: Seq<Seq<u8>>,
    vin: Seq<u8>,
    o: int,
    c: int,
    a_hi: int,
    m: nat,
    e: int,
)
    requires
        0 <= e < m,
    ensures
        vl_entry(l, vin, o, c, a_hi, m).len() == m,
        vl_entry(l, vin, o, c, a_hi, m)[e] == sum_over(vl_term(l, vin, o, c, e), 0, a_hi),
    decreases a_hi,
{
    if a_hi > 0 {
        lemma_vl_entry(l, vin, o, c, a_hi - 1, m, e);
    }
}

/// Entry `e` of batch `c` of `v^T * L`.
pub proof fn lemma_vinegar_times_entry(
    ps: ParamSet,
    vin: Seq<u8>,
    l: Seq<Seq<u8>>,
    c: int,
    e: int,
)
    requires
        0 <= c < ps.o,
        0 <= e < ps.m,
    ensures
        vinegar_times(ps, vin, l).len() == ps.o,
        vinegar_times(ps, vin, l)[c].len() == ps.m,
        vinegar_times(ps, vin, l)[c][e] == sum_over(
            vl_term(l, vin, ps.o as int, c, e),
            0,
            ps.spec_v() as int,
        ),
{
    lemma_vl_entry(l, vin, ps.o as int, c, ps.spec_v() as int, ps.m as nat, e);
}

/// The batch of the upper fold for the position (`r`, `c`): the diagonal
/// batch itself, or the sum of the batch and its mirror image.
pub open spec fn folded(full: Seq<Seq<u8>>, o: int, r: int, c: int) -> Seq<u8> {
    if r == c {
        full[r * o + r]
    } else {
        seq_add(full[r * o + c], full[c * o + r])
    }
}

/// A row of the upper fold holds the folded batches of its columns, in order.
pub proof fn lemma_upper_row_index(full: Seq<Seq<u8>>, o: int, r: int, c_hi: int, c: int)
    requires
        r <= c < c_hi,
    ensures
        upper_row(full, o, r, c_hi).len() == c_hi - r,
        upper_row(full, o, r, c_hi)[c - r] == folded(full, o, r, c),
    decreases c_hi - r,
{
    lemma_upper_row_len(full, o, r, c_hi);
    lemma_upper_row_len(full, o, r, c_hi - 1);
    if c < c_hi - 1 {
        lemma_upper_row_index(full, o, r, c_hi - 1, c);
    }
}

/// The upper fold holds, at the triangle position of (`r`, `c`), the folded
/// batch of that position.
pub proof fn lemma_upper_rows_index(full: Seq<Seq<u8>>, o: int, r_hi: int, r: int, c: int)
    requires
        0 <= r <= c < o,
        r < r_hi <= o,
    ensures
        upper_rows(full, o, r_hi).len() == row_start(o, r_hi),
        0 <= upper_index(o, r, c) < row_start(o, r_hi),
        upper_rows(full, o, r_hi)[upper_index(o, r, c)] == folded(full, o, r, c),
    decreases r_hi,
{
    lemma_upper_rows_len(full, o, r_hi);
    lemma_upper_rows_len(full, o, r_hi - 1);
    lemma_row_start_closed(o, r);
    lemma_row_start_monotone(o, r + 1, r_hi);
    if r < r_hi - 1 {
        lemma_upper_rows_index(full, o, r_hi - 1, r, c);
    } else {
        lemma_upper_row_index(full, o, r, o, c);
    }
}

/// Entry `e` of a sum of batches is the sum of the entries.
pub proof fn lemma_batches_add_entry(a: Seq<Seq<u8>>, b: Seq<Seq<u8>>, t: int, e: int)
    requires
        0 <= t < a.len(),
        0 <= e < a[t].len(),
    ensures
        batches_add(a, b).len() == a.len(),
        batches_add(a, b)[t].len() == a[t].len(),
        batches_add(a, b)[t][e] == gf16_add(a[t][e], b[t][e]),
{
}

} // verus!
