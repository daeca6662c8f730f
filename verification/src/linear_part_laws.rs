//! The part of a pair term that is linear in the oil values: the polar form
//! of the public map between a vinegar input and an oil input is the
//! product of `v^T (L + P1^T O)` with the oil values.

use crate::f16::{
    all_nibbles, gf16_add, gf16_mul, lemma_add_closed, lemma_add_laws, lemma_add_self,
    lemma_mul_closed, lemma_mul_commutes, lemma_mul_distributes, lemma_mul_one_zero,
};
use crate::key_laws::{
    lemma_batches_add_entry, lemma_p1_times_o_entry, lemma_vinegar_times_entry, p1o_term, vl_term,
};
use crate::mayo_operations::{
    batches_add, lemma_upper_index_bound, p1_times_o, upper_index, vinegar_times,
};
use crate::params::ParamSet;
use crate::scheme_laws::{batches_ok, input_ok, polar_entry, rect_polar_term, tri_polar_term};
use crate::sums::{
    col_sum, lemma_band_sum_as_sum, lemma_band_sum_by_cols_as_sum, lemma_band_sum_exchange,
    lemma_col_sum_as_sum, lemma_col_sum_scale, lemma_rect_sum_as_sum, lemma_rect_sum_by_cols_as_sum,
    lemma_rect_sum_exchange, lemma_row_sum_add, lemma_row_sum_as_sum, lemma_row_sum_nibble,
    lemma_row_sum_scale, lemma_sum_add, lemma_sum_nibble, lemma_sum_scale, lemma_upper_sum_add,
    lemma_upper_sum_as_sum, lemma_upper_sum_by_cols_as_sum, lemma_upper_sum_exchange,
    lemma_upper_sum_zero, nibbles_on, row_sum, sum_over,
};
use crate::trapdoor_laws::{
    bx_term, fix_first, key_ok, l_of, lemma_l_entry, lemma_mul_three, lemma_oil_input, oil_input,
    ox_term,
};
use crate::vector::seq_zero;
use vstd::prelude::*;

verus! {

/// The position in triangular storage of the pair `a`, `b`, whichever is smaller.
pub open spec fn sym_index(v: int, a: int, b: int) -> int {
    if a <= b {
        upper_index(v, a, b)
    } else {
        upper_index(v, b, a)
    }
}

/// The term `P1[a, b][e] * O[b][c]`, with the pair taken in either order.
pub open spec fn spo_term(p1: Seq<Seq<u8>>, om: Seq<Seq<u8>>, v: int, a: int, e: int) -> spec_fn(
    int,
    int,
) -> u8 {
    |b: int, c: int| gf16_mul(p1[sym_index(v, a, b)][e], om[b][c])
}

/// The term `P1[a, b][e] * O[b][c] * x[c]`, with the pair taken in either order.
pub open spec fn spox_term(
    p1: Seq<Seq<u8>>,
    om: Seq<Seq<u8>>,
    x: Seq<u8>,
    v: int,
    a: int,
    e: int,
) -> spec_fn(int, int) -> u8 {
    |b: int, c: int| gf16_mul(gf16_mul(p1[sym_index(v, a, b)][e], om[b][c]), x[c])
}

/// The term `(O x)[b] * P1[a, b][e]`, with the pair taken in either order.
pub open spec fn swc_term(
    p1: Seq<Seq<u8>>,
    om: Seq<Seq<u8>>,
    x: Seq<u8>,
    v: int,
    o: int,
    a: int,
    e: int,
) -> spec_fn(int) -> u8 {
    |b: int| gf16_mul(row_sum(ox_term(om, x), b, 0, o), p1[sym_index(v, a, b)][e])
}

/// Where the sum for row `a` of `P1 * O`, or of `P1^T * O`, starts.
pub open spec fn range_lo(transposed: bool, a: int) -> int {
    if transposed {
        0
    } else {
        a
    }
}

/// Where the sum for row `a` of `P1 * O`, or of `P1^T * O`, ends.
pub open spec fn range_hi(transposed: bool, a: int, v: int) -> int {
    if transposed {
        a + 1
    } else {
        v
    }
}

/// A coefficient of `P1` at the pair `a`, `b` is a nibble.
pub proof fn lemma_sym_coefficient(
    ps: ParamSet,
    p1: Seq<Seq<u8>>,
    p2: Seq<Seq<u8>>,
    om: Seq<Seq<u8>>,
    x: Seq<u8>,
    a: int,
    b: int,
    e: int,
)
    requires
        key_ok(ps, p1, p2, om, x),
        0 <= a < ps.spec_v(),
        0 <= b < ps.spec_v(),
        0 <= e < ps.m,
    ensures
        p1[sym_index(ps.spec_v() as int, a, b)][e] < 16,
{
    let v = ps.spec_v() as int;
    if a <= b {
        lemma_upper_index_bound(v, a, b);
    } else {
        lemma_upper_index_bound(v, b, a);
    }
    assert(all_nibbles(p1[sym_index(v, a, b)]));
    assert(p1[sym_index(v, a, b)].len() == ps.m);
}

/// Row `a` of `P1 * O`, or of `P1^T * O`, times `x`: the sum over `b` of
/// entry `b` of `O x` times the coefficient of the pair `a`, `b`.
pub proof fn lemma_p1o_row(
    ps: ParamSet,
    p1: Seq<Seq<u8>>,
    p2: Seq<Seq<u8>>,
    om: Seq<Seq<u8>>,
    x: Seq<u8>,
    transposed: bool,
    a: int,
    e: int,
)
    requires
        key_ok(ps, p1, p2, om, x),
        0 <= a < ps.spec_v(),
        0 <= e < ps.m,
    ensures
        row_sum(bx_term(p1_times_o(ps, p1, om, transposed), x, ps.o as int, e), a, 0, ps.o as int)
            == sum_over(
            swc_term(p1, om, x, ps.spec_v() as int, ps.o as int, a, e),
            range_lo(transposed, a),
            range_hi(transposed, a, ps.spec_v() as int),
        ),
        nibbles_on(
            swc_term(p1, om, x, ps.spec_v() as int, ps.o as int, a, e),
            0,
            ps.spec_v() as int,
        ),
        forall|c: int|
            0 <= c < ps.o ==> #[trigger] p1_times_o(ps, p1, om, transposed)[a * ps.o + c][e] < 16,
{
    let v = ps.spec_v() as int;
    let o = ps.o as int;
    let lo = range_lo(transposed, a);
    let hi = range_hi(transposed, a, v);
    lemma_oil_input(ps, om, x);
    let p1o = p1_times_o(ps, p1, om, transposed);
    let k = spox_term(p1, om, x, v, a, e);
    let po = spo_term(p1, om, v, a, e);
    let bx = bx_term(p1o, x, o, e);
    let f = fix_first(bx, a);
    assert forall|c: int| 0 <= c < o implies #[trigger] p1o[a * o + c][e] < 16 by {
        lemma_p1_times_o_entry(ps, p1, om, transposed, a, c, e);
        let term = p1o_term(p1, om, v, a, c, e);
        assert forall|b: int| lo <= b < hi implies #[trigger] term(b) < 16 by {
            lemma_sym_coefficient(ps, p1, p2, om, x, a, b, e);
            assert(all_nibbles(om[b]));
            assert(om[b].len() == o);
            lemma_mul_closed(p1[sym_index(v, a, b)][e], om[b][c]);
        }
        lemma_sum_nibble(term, lo, hi);
    }
    assert forall|c: int| 0 <= c < o implies #[trigger] f(c) == col_sum(k, c, lo, hi) by {
        lemma_p1_times_o_entry(ps, p1, om, transposed, a, c, e);
        let term = p1o_term(p1, om, v, a, c, e);
        assert forall|b: int| lo <= b < hi implies #[trigger] term(b) == po(b, c) by {}
        lemma_col_sum_as_sum(po, term, c, lo, hi);
        assert forall|b: int| lo <= b < hi implies #[trigger] po(b, c) < 16 by {
            lemma_sym_coefficient(ps, p1, p2, om, x, a, b, e);
            assert(all_nibbles(om[b]));
            assert(om[b].len() == o);
            lemma_mul_closed(p1[sym_index(v, a, b)][e], om[b][c]);
        }
        assert forall|b: int| lo <= b < hi implies #[trigger] k(b, c) == gf16_mul(
            po(b, c),
            x[c],
        ) by {}
        assert(x[c] < 16);
        lemma_col_sum_scale(po, k, c, x[c], lo, hi);
    }
    lemma_band_sum_by_cols_as_sum(k, f, lo, hi, o);
    assert forall|c: int| 0 <= c < o implies #[trigger] f(c) == bx(a, c) by {}
    lemma_row_sum_as_sum(bx, f, a, 0, o);
    let f1 = swc_term(p1, om, x, v, o, a, e);
    assert forall|b: int| 0 <= b < v implies #[trigger] f1(b) < 16 by {
        lemma_sym_coefficient(ps, p1, p2, om, x, a, b, e);
        assert(row_sum(ox_term(om, x), b, 0, o) < 16);
        lemma_mul_closed(row_sum(ox_term(om, x), b, 0, o), p1[sym_index(v, a, b)][e]);
    }
    assert forall|b: int| lo <= b < hi implies #[trigger] f1(b) == row_sum(k, b, 0, o) by {
        lemma_sym_coefficient(ps, p1, p2, om, x, a, b, e);
        let coefficient = p1[sym_index(v, a, b)][e];
        assert(all_nibbles(om[b]));
        assert(om[b].len() == o);
        let g = ox_term(om, x);
        assert forall|c: int| 0 <= c < o implies #[trigger] g(b, c) < 16 by {
            assert(x[c] < 16);
            lemma_mul_closed(om[b][c], x[c]);
        }
        assert forall|c: int| 0 <= c < o implies #[trigger] k(b, c) == gf16_mul(
            g(b, c),
            coefficient,
        ) by {
            assert(x[c] < 16);
            lemma_mul_three(coefficient, om[b][c], x[c]);
        }
        lemma_row_sum_scale(g, k, b, coefficient, 0, o);
    }
    lemma_band_sum_as_sum(k, f1, lo, hi, o);
    lemma_band_sum_exchange(k, lo, hi, o);
}

/// The batches of `L + P1^T * O`.
pub open spec fn ls_of(ps: ParamSet, p1: Seq<Seq<u8>>, p2: Seq<Seq<u8>>, om: Seq<Seq<u8>>) -> Seq<
    Seq<u8>,
> {
    batches_add(l_of(ps, p1, p2, om), p1_times_o(ps, p1, om, true))
}

/// A function of two arguments with its second argument fixed.
pub open spec fn fix_second(g: spec_fn(int, int) -> u8, b: int) -> spec_fn(int) -> u8 {
    |a: int| g(a, b)
}

/// The term `P1[i, j][e] * (vin[i] * (O x)[j])`.
pub open spec fn ua_term(
    p1: Seq<Seq<u8>>,
    om: Seq<Seq<u8>>,
    vin: Seq<u8>,
    x: Seq<u8>,
    v: int,
    o: int,
    e: int,
) -> spec_fn(int, int) -> u8 {
    |i: int, j: int|
        gf16_mul(
            p1[upper_index(v, i, j)][e],
            gf16_mul(vin[i], row_sum(ox_term(om, x), j, 0, o)),
        )
}

/// The term `P1[i, j][e] * ((O x)[i] * vin[j])`.
pub open spec fn ub_term(
    p1: Seq<Seq<u8>>,
    om: Seq<Seq<u8>>,
    vin: Seq<u8>,
    x: Seq<u8>,
    v: int,
    o: int,
    e: int,
) -> spec_fn(int, int) -> u8 {
    |i: int, j: int|
        gf16_mul(
            p1[upper_index(v, i, j)][e],
            gf16_mul(row_sum(ox_term(om, x), i, 0, o), vin[j]),
        )
}

/// The term `B[a, c][e] * vin[a]`, as a function of `a` and `c`.
pub open spec fn bv_term(b: Seq<Seq<u8>>, vin: Seq<u8>, o: int, e: int) -> spec_fn(int, int) -> u8 {
    |a: int, c: int| gf16_mul(b[a * o + c][e], vin[a])
}

/// The term `B[a, c][e] * vin[a] * x[c]`.
pub open spec fn bvx_term(b: Seq<Seq<u8>>, vin: Seq<u8>, x: Seq<u8>, o: int, e: int) -> spec_fn(
    int,
    int,
) -> u8 {
    |a: int, c: int| gf16_mul(gf16_mul(b[a * o + c][e], vin[a]), x[c])
}

/// The term `M[c][e] * x[c]` of the product of the linear part with the oil values.
pub open spec fn mx_term(mb: Seq<Seq<u8>>, x: Seq<u8>, e: int) -> spec_fn(int) -> u8 {
    |c: int| gf16_mul(mb[c][e], x[c])
}

/// The term `(row a of B times x) * vin[a]`.
pub open spec fn gv_term(b: Seq<Seq<u8>>, vin: Seq<u8>, x: Seq<u8>, o: int, e: int) -> spec_fn(
    int,
) -> u8 {
    |a: int| gf16_mul(row_sum(bx_term(b, x, o, e), a, 0, o), vin[a])
}

/// The vinegar input for the vinegar vector `vin`: `vin` followed by zeros.
pub open spec fn vinegar_input(vin: Seq<u8>, o: nat) -> Seq<u8> {
    vin + seq_zero(o)
}

/// Every entry of `L + P1^T * O` is the sum of the entries of `P1 * O`, of
/// `P2` and of `P1^T * O`, all nibbles.
pub proof fn lemma_ls_entry(
    ps: ParamSet,
    p1: Seq<Seq<u8>>,
    p2: Seq<Seq<u8>>,
    om: Seq<Seq<u8>>,
    x: Seq<u8>,
    a: int,
    c: int,
    e: int,
)
    requires
        key_ok(ps, p1, p2, om, x),
        0 <= a < ps.spec_v(),
        0 <= c < ps.o,
        0 <= e < ps.m,
    ensures
        0 <= a * ps.o + c < ps.spec_p2_count(),
        ls_of(ps, p1, p2, om).len() == ps.spec_p2_count(),
        ls_of(ps, p1, p2, om)[a * ps.o + c].len() == ps.m,
        ls_of(ps, p1, p2, om)[a * ps.o + c][e] == gf16_add(
            l_of(ps, p1, p2, om)[a * ps.o + c][e],
            p1_times_o(ps, p1, om, true)[a * ps.o + c][e],
        ),
        l_of(ps, p1, p2, om)[a * ps.o + c][e] < 16,
        p1_times_o(ps, p1, om, true)[a * ps.o + c][e] < 16,
        ls_of(ps, p1, p2, om)[a * ps.o + c][e] < 16,
{
    lemma_l_entry(ps, p1, p2, om, x, a, c, e);
    lemma_p1o_row(ps, p1, p2, om, x, true, a, e);
    lemma_p1_times_o_entry(ps, p1, om, true, a, c, e);
    lemma_batches_add_entry(
        l_of(ps, p1, p2, om),
        p1_times_o(ps, p1, om, true),
        a * ps.o + c,
        e,
    );
    lemma_add_closed(
        l_of(ps, p1, p2, om)[a * ps.o + c][e],
        p1_times_o(ps, p1, om, true)[a * ps.o + c][e],
    );
}

/// Row `a` of `L + P1^T * O` times `x` is the sum of the rows of `P1 * O`,
/// of `P2` and of `P1^T * O` times `x`.
pub proof fn lemma_ls_row(
    ps: ParamSet,
    p1: Seq<Seq<u8>>,
    p2: Seq<Seq<u8>>,
    om: Seq<Seq<u8>>,
    x: Seq<u8>,
    a: int,
    e: int,
)
    requires
        key_ok(ps, p1, p2, om, x),
        0 <= a < ps.spec_v(),
        0 <= e < ps.m,
    ensures
        row_sum(bx_term(ls_of(ps, p1, p2, om), x, ps.o as int, e), a, 0, ps.o as int) == gf16_add(
            gf16_add(
                row_sum(
                    bx_term(p1_times_o(ps, p1, om, false), x, ps.o as int, e),
                    a,
                    0,
                    ps.o as int,
                ),
                row_sum(bx_term(p2, x, ps.o as int, e), a, 0, ps.o as int),
            ),
            row_sum(bx_term(p1_times_o(ps, p1, om, true), x, ps.o as int, e), a, 0, ps.o as int),
        ),
        row_sum(bx_term(p1_times_o(ps, p1, om, false), x, ps.o as int, e), a, 0, ps.o as int) < 16,
        row_sum(bx_term(p2, x, ps.o as int, e), a, 0, ps.o as int) < 16,
        row_sum(bx_term(p1_times_o(ps, p1, om, true), x, ps.o as int, e), a, 0, ps.o as int) < 16,
        row_sum(bx_term(ls_of(ps, p1, p2, om), x, ps.o as int, e), a, 0, ps.o as int) < 16,
{
    let o = ps.o as int;
    let p1o = p1_times_o(ps, p1, om, false);
    let p1to = p1_times_o(ps, p1, om, true);
    let l = l_of(ps, p1, p2, om);
    let ls = ls_of(ps, p1, p2, om);
    let fa = bx_term(p1o, x, o, e);
    let fb = bx_term(p2, x, o, e);
    let fl = bx_term(l, x, o, e);
    let ft = bx_term(p1to, x, o, e);
    let fs = bx_term(ls, x, o, e);
    assert forall|c: int| 0 <= c < o implies #[trigger] fl(a, c) == gf16_add(fa(a, c), fb(a, c)) by {
        lemma_l_entry(ps, p1, p2, om, x, a, c, e);
        assert(x[c] < 16);
        lemma_mul_distributes(x[c], p1o[a * o + c][e], p2[a * o + c][e]);
    }
    lemma_row_sum_add(fa, fb, fl, a, 0, o);
    assert forall|c: int| 0 <= c < o implies #[trigger] fs(a, c) == gf16_add(fl(a, c), ft(a, c)) by {
        lemma_ls_entry(ps, p1, p2, om, x, a, c, e);
        assert(x[c] < 16);
        lemma_mul_distributes(x[c], l[a * o + c][e], p1to[a * o + c][e]);
    }
    lemma_row_sum_add(fl, ft, fs, a, 0, o);
    assert forall|c: int| 0 <= c < o implies #[trigger] fa(a, c) < 16 by {
        lemma_l_entry(ps, p1, p2, om, x, a, c, e);
        assert(x[c] < 16);
        lemma_mul_closed(p1o[a * o + c][e], x[c]);
    }
    assert forall|c: int| 0 <= c < o implies #[trigger] fb(a, c) < 16 by {
        lemma_l_entry(ps, p1, p2, om, x, a, c, e);
        assert(x[c] < 16);
        lemma_mul_closed(p2[a * o + c][e], x[c]);
    }
    assert forall|c: int| 0 <= c < o implies #[trigger] ft(a, c) < 16 by {
        lemma_ls_entry(ps, p1, p2, om, x, a, c, e);
        assert(x[c] < 16);
        lemma_mul_closed(p1to[a * o + c][e], x[c]);
    }
    assert forall|c: int| 0 <= c < o implies #[trigger] fs(a, c) < 16 by {
        lemma_ls_entry(ps, p1, p2, om, x, a, c, e);
        assert(x[c] < 16);
        lemma_mul_closed(ls[a * o + c][e], x[c]);
    }
    lemma_row_sum_nibble(fa, a, 0, o);
    lemma_row_sum_nibble(fb, a, 0, o);
    lemma_row_sum_nibble(ft, a, 0, o);
    lemma_row_sum_nibble(fs, a, 0, o);
}

/// The product of `v^T (L + P1^T O)` with the oil values `x`, for equation
/// `e`, is the sum over `a` of row `a` of `L + P1^T O` times `x`, times `vin[a]`.
pub proof fn lemma_linear_part_by_rows(
    ps: ParamSet,
    p1: Seq<Seq<u8>>,
    p2: Seq<Seq<u8>>,
    om: Seq<Seq<u8>>,
    vin: Seq<u8>,
    x: Seq<u8>,
    e: int,
)
    requires
        key_ok(ps, p1, p2, om, x),
        input_ok(vin, ps.spec_v()),
        0 <= e < ps.m,
    ensures
        sum_over(
            mx_term(vinegar_times(ps, vin, ls_of(ps, p1, p2, om)), x, e),
            0,
            ps.o as int,
        ) == sum_over(
            gv_term(ls_of(ps, p1, p2, om), vin, x, ps.o as int, e),
            0,
            ps.spec_v() as int,
        ),
{
    let v = ps.spec_v() as int;
    let o = ps.o as int;
    let ls = ls_of(ps, p1, p2, om);
    let mb = vinegar_times(ps, vin, ls);
    let r = bvx_term(ls, vin, x, o, e);
    let lv = bv_term(ls, vin, o, e);
    let mx = mx_term(mb, x, e);
    let gv = gv_term(ls, vin, x, o, e);
    let bx = bx_term(ls, x, o, e);
    assert forall|c: int| 0 <= c < o implies #[trigger] mx(c) == col_sum(r, c, 0, v) by {
        lemma_vinegar_times_entry(ps, vin, ls, c, e);
        let term = vl_term(ls, vin, o, c, e);
        assert forall|a: int| 0 <= a < v implies #[trigger] term(a) == lv(a, c) by {}
        lemma_col_sum_as_sum(lv, term, c, 0, v);
        assert forall|a: int| 0 <= a < v implies #[trigger] lv(a, c) < 16 by {
            lemma_ls_entry(ps, p1, p2, om, x, a, c, e);
            assert(vin[a] < 16);
            lemma_mul_closed(ls[a * o + c][e], vin[a]);
        }
        assert forall|a: int| 0 <= a < v implies #[trigger] r(a, c) == gf16_mul(lv(a, c), x[c]) by {}
        assert(x[c] < 16);
        lemma_col_sum_scale(lv, r, c, x[c], 0, v);
    }
    lemma_rect_sum_by_cols_as_sum(r, mx, v, o);
    assert forall|a: int| 0 <= a < v implies #[trigger] gv(a) == row_sum(r, a, 0, o) by {
        assert(vin[a] < 16);
        assert forall|c: int| 0 <= c < o implies #[trigger] bx(a, c) < 16 by {
            lemma_ls_entry(ps, p1, p2, om, x, a, c, e);
            assert(x[c] < 16);
            lemma_mul_closed(ls[a * o + c][e], x[c]);
        }
        assert forall|c: int| 0 <= c < o implies #[trigger] r(a, c) == gf16_mul(
            bx(a, c),
            vin[a],
        ) by {
            lemma_ls_entry(ps, p1, p2, om, x, a, c, e);
            assert(x[c] < 16);
            lemma_mul_three(ls[a * o + c][e], x[c], vin[a]);
        }
        lemma_row_sum_scale(bx, r, a, vin[a], 0, o);
    }
    lemma_rect_sum_as_sum(r, gv, v, o);
    lemma_rect_sum_exchange(r, v, o);
}

/// The pointwise sum of two functions.
pub open spec fn plus1(f: spec_fn(int) -> u8, g: spec_fn(int) -> u8) -> spec_fn(int) -> u8 {
    |a: int| gf16_add(f(a), g(a))
}

/// The vinegar input has `n` nibbles: the vinegar vector, then zeros.
pub proof fn lemma_vinegar_input(ps: ParamSet, vin: Seq<u8>)
    requires
        ps.wf(),
        input_ok(vin, ps.spec_v()),
    ensures
        input_ok(vinegar_input(vin, ps.o as nat), ps.n as nat),
        forall|i: int|
            0 <= i < ps.spec_v() ==> #[trigger] vinegar_input(vin, ps.o as nat)[i] == vin[i],
        forall|c: int|
            0 <= c < ps.o ==> #[trigger] vinegar_input(vin, ps.o as nat)[ps.spec_v() + c] == 0,
{
    let va = vinegar_input(vin, ps.o as nat);
    assert forall|k: int| 0 <= k < va.len() implies #[trigger] va[k] < 16 by {
        if k < ps.spec_v() {
            assert(va[k] == vin[k]);
        } else {
            assert(va[k] == seq_zero(ps.o as nat)[k - ps.spec_v()]);
        }
    }
}

/// The linear part of a pair term: the polar form of the public map between
/// the vinegar input of `vin` and the oil input of `x` is the product of
/// `vin^T (L + P1^T O)` with `x`.
pub proof fn lemma_polar_linear(
    ps: ParamSet,
    p1: Seq<Seq<u8>>,
    p2: Seq<Seq<u8>>,
    p3: Seq<Seq<u8>>,
    om: Seq<Seq<u8>>,
    vin: Seq<u8>,
    x: Seq<u8>,
    e: int,
)
    requires
        key_ok(ps, p1, p2, om, x),
        batches_ok(p3, ps.spec_p3_count(), ps.m as nat),
        input_ok(vin, ps.spec_v()),
        0 <= e < ps.m,
    ensures
        polar_entry(
            p1,
            p2,
            p3,
            vinegar_input(vin, ps.o as nat),
            oil_input(om, x),
            ps.spec_v() as int,
            ps.o as int,
            e,
        ) == sum_over(
            mx_term(vinegar_times(ps, vin, ls_of(ps, p1, p2, om)), x, e),
            0,
            ps.o as int,
        ),
{
    let v = ps.spec_v() as int;
    let o = ps.o as int;
    let va = vinegar_input(vin, ps.o as nat);
    let oi = oil_input(om, x);
    let p1o = p1_times_o(ps, p1, om, false);
    let p1to = p1_times_o(ps, p1, om, true);
    let ls = ls_of(ps, p1, p2, om);
    lemma_oil_input(ps, om, x);
    lemma_vinegar_input(ps, vin);
    // The oil triangle contributes nothing.
    let t3 = tri_polar_term(p3, va, oi, v, o, e);
    assert forall|i: int, j: int| 0 <= i <= j < o implies #[trigger] t3(i, j) == 0 by {
        lemma_upper_index_bound(o, i, j);
        assert(all_nibbles(p3[upper_index(o, i, j)]));
        assert(p3[upper_index(o, i, j)].len() == ps.m);
        assert(va[v + i] == 0 && va[v + j] == 0);
        assert(oi[v + i] == x[i] && oi[v + j] == x[j]);
        assert(x[i] < 16 && x[j] < 16);
        lemma_mul_one_zero(x[i]);
        lemma_mul_one_zero(x[j]);
        lemma_add_self(0);
        lemma_mul_one_zero(p3[upper_index(o, i, j)][e]);
    }
    lemma_upper_sum_zero(t3, o, o);
    // The mixed rectangle, row after row.
    let t2 = rect_polar_term(p2, va, oi, v, o, e);
    let gvb = gv_term(p2, vin, x, o, e);
    assert forall|i: int| 0 <= i < v implies #[trigger] gvb(i) == row_sum(t2, i, 0, o) by {
        let g = bx_term(p2, x, o, e);
        assert(vin[i] < 16);
        assert(va[i] == vin[i]);
        let wi = row_sum(ox_term(om, x), i, 0, o);
        assert(oi[i] == wi);
        assert(wi < 16);
        assert forall|c: int| 0 <= c < o implies #[trigger] g(i, c) < 16 by {
            lemma_l_entry(ps, p1, p2, om, x, i, c, e);
            assert(x[c] < 16);
            lemma_mul_closed(p2[i * o + c][e], x[c]);
        }
        assert forall|c: int| 0 <= c < o implies #[trigger] t2(i, c) == gf16_mul(
            g(i, c),
            vin[i],
        ) by {
            lemma_l_entry(ps, p1, p2, om, x, i, c, e);
            assert(x[c] < 16);
            assert(va[v + c] == 0);
            assert(oi[v + c] == x[c]);
            lemma_mul_one_zero(wi);
            lemma_add_laws(gf16_mul(vin[i], x[c]), 0, 0);
            lemma_mul_three(p2[i * o + c][e], x[c], vin[i]);
        }
        lemma_row_sum_scale(g, t2, i, vin[i], 0, o);
    }
    lemma_rect_sum_as_sum(t2, gvb, v, o);
    // The vinegar triangle splits in two.
    let t1 = tri_polar_term(p1, va, oi, 0, v, e);
    let ua = ua_term(p1, om, vin, x, v, o, e);
    let ub = ub_term(p1, om, vin, x, v, o, e);
    assert forall|i: int, j: int| 0 <= i <= j < v implies #[trigger] t1(i, j) == gf16_add(
        ua(i, j),
        ub(i, j),
    ) by {
        lemma_sym_coefficient(ps, p1, p2, om, x, i, j, e);
        assert(va[i] == vin[i] && va[j] == vin[j]);
        let wi = row_sum(ox_term(om, x), i, 0, o);
        let wj = row_sum(ox_term(om, x), j, 0, o);
        assert(oi[i] == wi && oi[j] == wj);
        assert(wi < 16 && wj < 16);
        assert(vin[i] < 16 && vin[j] < 16);
        lemma_mul_closed(vin[i], wj);
        lemma_mul_closed(wi, vin[j]);
        lemma_mul_distributes(
            p1[upper_index(v, i, j)][e],
            gf16_mul(vin[i], wj),
            gf16_mul(wi, vin[j]),
        );
    }
    lemma_upper_sum_add(ua, ub, t1, v, v);
    // The first half, row after row.
    let gva = gv_term(p1o, vin, x, o, e);
    assert forall|i: int| 0 <= i < v implies #[trigger] gva(i) == row_sum(ua, i, i, v) by {
        lemma_p1o_row(ps, p1, p2, om, x, false, i, e);
        let f = swc_term(p1, om, x, v, o, i, e);
        let h = fix_first(ua, i);
        assert(vin[i] < 16);
        assert forall|j: int| i <= j < v implies #[trigger] h(j) == gf16_mul(f(j), vin[i]) by {
            lemma_sym_coefficient(ps, p1, p2, om, x, i, j, e);
            let wj = row_sum(ox_term(om, x), j, 0, o);
            assert(wj < 16);
            lemma_mul_three(wj, p1[upper_index(v, i, j)][e], vin[i]);
            lemma_mul_three(p1[upper_index(v, i, j)][e], vin[i], wj);
        }
        assert(nibbles_on(f, i, v));
        lemma_sum_scale(f, h, vin[i], i, v);
        assert forall|j: int| i <= j < v implies #[trigger] h(j) == ua(i, j) by {}
        lemma_row_sum_as_sum(ua, h, i, i, v);
    }
    lemma_upper_sum_as_sum(ua, gva, v, v);
    // The second half, column after column.
    lemma_upper_sum_exchange(ub, v);
    let gvt = gv_term(p1to, vin, x, o, e);
    assert forall|j: int| 0 <= j < v implies #[trigger] gvt(j) == col_sum(ub, j, 0, j + 1) by {
        lemma_p1o_row(ps, p1, p2, om, x, true, j, e);
        let f = swc_term(p1, om, x, v, o, j, e);
        let h = fix_second(ub, j);
        assert(vin[j] < 16);
        assert forall|i: int| 0 <= i < j + 1 implies #[trigger] h(i) == gf16_mul(f(i), vin[j]) by {
            lemma_sym_coefficient(ps, p1, p2, om, x, j, i, e);
            assert(sym_index(v, j, i) == upper_index(v, i, j));
            let wi = row_sum(ox_term(om, x), i, 0, o);
            assert(wi < 16);
            lemma_mul_commutes(wi, p1[upper_index(v, i, j)][e]);
            lemma_mul_three(p1[upper_index(v, i, j)][e], wi, vin[j]);
        }
        assert(nibbles_on(f, 0, j + 1));
        lemma_sum_scale(f, h, vin[j], 0, j + 1);
        assert forall|i: int| 0 <= i < j + 1 implies #[trigger] h(i) == ub(i, j) by {}
        lemma_col_sum_as_sum(ub, h, j, 0, j + 1);
    }
    lemma_upper_sum_by_cols_as_sum(ub, gvt, v);
    // The other side, row after row.
    lemma_linear_part_by_rows(ps, p1, p2, om, vin, x, e);
    let gvs = gv_term(ls, vin, x, o, e);
    let gab = plus1(gva, gvb);
    assert forall|a: int| 0 <= a < v implies #[trigger] gvs(a) == gf16_add(gab(a), gvt(a)) by {
        lemma_ls_row(ps, p1, p2, om, x, a, e);
        let ga = row_sum(bx_term(p1o, x, o, e), a, 0, o);
        let gb = row_sum(bx_term(p2, x, o, e), a, 0, o);
        let gt = row_sum(bx_term(p1to, x, o, e), a, 0, o);
        assert(vin[a] < 16);
        lemma_add_closed(ga, gb);
        lemma_mul_distributes(vin[a], gf16_add(ga, gb), gt);
        lemma_mul_distributes(vin[a], ga, gb);
    }
    lemma_sum_add(gab, gvt, gvs, 0, v);
    assert forall|a: int| 0 <= a < v implies #[trigger] gab(a) == gf16_add(gva(a), gvb(a)) by {}
    lemma_sum_add(gva, gvb, gab, 0, v);
    let sa = sum_over(gva, 0, v);
    let sb = sum_over(gvb, 0, v);
    let st = sum_over(gvt, 0, v);
    assert(gf16_add(gf16_add(gf16_add(sa, st), sb), 0) == gf16_add(gf16_add(sa, sb), st)) by {
        lemma_add_laws(gf16_add(gf16_add(sa, st), sb), 0, 0);
        crate::linear_laws::lemma_add_regroup(sa, st, sb, 0);
        lemma_add_laws(sb, 0, 0);
        lemma_add_laws(st, 0, 0);
    }
}

} // verus!
