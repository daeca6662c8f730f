//! The trapdoor: the public map of a key vanishes on the oil space, the
//! inputs `(O x, x)`. This is what `P3 = Upper(O^T (P1 O + P2))` is made for.

use crate::f16::{
    all_nibbles, gf16_add, gf16_mul, lemma_add_closed, lemma_add_self, lemma_mul_associates,
    lemma_mul_closed, lemma_mul_commutes, lemma_mul_distributes,
};
use crate::key_laws::{
    folded, lemma_batches_add_entry, lemma_o_transpose_times_entry, lemma_p1_times_o_entry,
    lemma_upper_rows_index, otl_term, p1o_term,
};
use crate::linear_laws::{lemma_dot_nibble, nibble_rows};
use crate::matrix::{has_shape, lemma_flat_index, mat_vec};
use crate::mayo_operations::{
    batches_add, lemma_upper_index_bound, o_transpose_times, p1_times_o, upper_index, upper_rows,
};
use crate::params::{ParamSet, triangle};
use crate::scheme_laws::{batches_ok, input_ok, quad_entry, rect_term, tri_term};
use crate::sums::{
    col_sum, lemma_band_sum_as_sum, lemma_band_sum_by_cols_as_sum, lemma_band_sum_exchange,
    lemma_col_sum_as_sum, lemma_col_sum_nibble, lemma_col_sum_scale, lemma_rect_sum_as_sum,
    lemma_rect_sum_by_cols_as_sum, lemma_rect_sum_exchange, lemma_row_sum_add, lemma_row_sum_as_sum,
    lemma_row_sum_nibble, lemma_row_sum_scale, lemma_square_as_upper, lemma_sum_add,
    lemma_sum_nibble, lemma_sum_scale, lemma_upper_sum_as_sum, rect_sum, row_sum, sum_over,
    upper_sum,
};
use crate::vector::{dot_range, seq_dot};
use vstd::prelude::*;

verus! {

/// Products of three nibbles can be taken in any order.
pub proof fn lemma_mul_three(a: u8, b: u8, c: u8)
    requires
        a < 16,
        b < 16,
        c < 16,
    ensures
        gf16_mul(gf16_mul(a, b), c) == gf16_mul(gf16_mul(b, c), a),
        gf16_mul(gf16_mul(a, b), c) == gf16_mul(a, gf16_mul(c, b)),
        gf16_mul(gf16_mul(a, b), c) == gf16_mul(gf16_mul(a, c), b),
        gf16_mul(gf16_mul(a, b), c) == gf16_mul(a, gf16_mul(b, c)),
{
    assert(gf16_mul(gf16_mul(a, b), c) == gf16_mul(gf16_mul(b, c), a) && gf16_mul(
        gf16_mul(a, b),
        c,
    ) == gf16_mul(a, gf16_mul(c, b)) && gf16_mul(gf16_mul(a, b), c) == gf16_mul(
        gf16_mul(a, c),
        b,
    ) && gf16_mul(gf16_mul(a, b), c) == gf16_mul(a, gf16_mul(b, c))) by (bit_vector)
        requires
            a < 16,
            b < 16,
            c < 16,
    ;
}

/// The term `O[b][c] * x[c]` of an entry of `O x`.
pub open spec fn ox_term(om: Seq<Seq<u8>>, x: Seq<u8>) -> spec_fn(int, int) -> u8 {
    |b: int, c: int| gf16_mul(om[b][c], x[c])
}

/// The term `B[a o + c][e] * x[c]` of the product of a row of batches with `x`.
pub open spec fn bx_term(b: Seq<Seq<u8>>, x: Seq<u8>, o: int, e: int) -> spec_fn(int, int) -> u8 {
    |a: int, c: int| gf16_mul(b[a * o + c][e], x[c])
}

/// The oil input for the oil values `x`: `O x` followed by `x`.
pub open spec fn oil_input(om: Seq<Seq<u8>>, x: Seq<u8>) -> Seq<u8> {
    mat_vec(om, x) + x
}

/// Whether the parts of a key and the oil values `x` have the shapes of the
/// parameter set and hold nibbles.
pub open spec fn key_ok(
    ps: ParamSet,
    p1: Seq<Seq<u8>>,
    p2: Seq<Seq<u8>>,
    om: Seq<Seq<u8>>,
    x: Seq<u8>,
) -> bool {
    &&& ps.wf()
    &&& batches_ok(p1, ps.spec_p1_count(), ps.m as nat)
    &&& batches_ok(p2, ps.spec_p2_count(), ps.m as nat)
    &&& has_shape(om, ps.spec_v(), ps.o as nat)
    &&& nibble_rows(om)
    &&& input_ok(x, ps.o as nat)
}

/// A partial dot product of a row of `O` with `x` is a row sum of the terms.
pub proof fn lemma_dot_as_row_sum(om: Seq<Seq<u8>>, x: Seq<u8>, b: int, hi: int)
    ensures
        dot_range(om[b], x, 0, hi) == row_sum(ox_term(om, x), b, 0, hi),
    decreases hi,
{
    if hi > 0 {
        lemma_dot_as_row_sum(om, x, b, hi - 1);
    }
}

/// The oil input has `n` nibbles: its first `v` entries are those of
/// `O x`, and the `o` entries after them are `x`.
pub proof fn lemma_oil_input(ps: ParamSet, om: Seq<Seq<u8>>, x: Seq<u8>)
    requires
        ps.wf(),
        has_shape(om, ps.spec_v(), ps.o as nat),
        nibble_rows(om),
        input_ok(x, ps.o as nat),
    ensures
        input_ok(oil_input(om, x), ps.n as nat),
        forall|b: int|
            0 <= b < ps.spec_v() ==> #[trigger] oil_input(om, x)[b] == row_sum(
                ox_term(om, x),
                b,
                0,
                ps.o as int,
            ),
        forall|b: int|
            0 <= b < ps.spec_v() ==> #[trigger] row_sum(ox_term(om, x), b, 0, ps.o as int) < 16,
        forall|c: int| 0 <= c < ps.o ==> #[trigger] oil_input(om, x)[ps.spec_v() + c] == x[c],
{
    let w = mat_vec(om, x);
    let inp = oil_input(om, x);
    assert forall|b: int| 0 <= b < ps.spec_v() implies #[trigger] row_sum(
        ox_term(om, x),
        b,
        0,
        ps.o as int,
    ) < 16 && inp[b] == row_sum(ox_term(om, x), b, 0, ps.o as int) by {
        assert(om[b].len() == ps.o);
        assert(all_nibbles(om[b]));
        lemma_dot_as_row_sum(om, x, b, ps.o as int);
        lemma_dot_nibble(om[b], x, 0, ps.o as int);
        assert(w[b] == seq_dot(om[b], x));
    }
    assert forall|b: int| 0 <= b < ps.spec_v() implies #[trigger] inp[b] == row_sum(
        ox_term(om, x),
        b,
        0,
        ps.o as int,
    ) by {
        assert(row_sum(ox_term(om, x), b, 0, ps.o as int) < 16);
    }
    assert forall|k: int| 0 <= k < inp.len() implies #[trigger] inp[k] < 16 by {
        if k < ps.spec_v() {
            assert(row_sum(ox_term(om, x), k, 0, ps.o as int) < 16);
        } else {
            assert(inp[k] == x[k - ps.spec_v()]);
        }
    }
}

/// A function of two arguments with its first argument fixed.
pub open spec fn fix_first(g: spec_fn(int, int) -> u8, a: int) -> spec_fn(int) -> u8 {
    |b: int| g(a, b)
}

/// The term `P1[a, b][e] * O[b][c]` of an entry of `P1 * O`, as a function
/// of `b` and `c`.
pub open spec fn po_term(p1: Seq<Seq<u8>>, om: Seq<Seq<u8>>, v: int, a: int, e: int) -> spec_fn(
    int,
    int,
) -> u8 {
    |b: int, c: int| gf16_mul(p1[upper_index(v, a, b)][e], om[b][c])
}

/// The term `P1[a, b][e] * O[b][c] * x[c]`.
pub open spec fn pox_term(
    p1: Seq<Seq<u8>>,
    om: Seq<Seq<u8>>,
    x: Seq<u8>,
    v: int,
    a: int,
    e: int,
) -> spec_fn(int, int) -> u8 {
    |b: int, c: int| gf16_mul(gf16_mul(p1[upper_index(v, a, b)][e], om[b][c]), x[c])
}

/// The term `(O x)[b] * P1[a, b][e]`.
pub open spec fn wc_term(
    p1: Seq<Seq<u8>>,
    om: Seq<Seq<u8>>,
    x: Seq<u8>,
    v: int,
    o: int,
    a: int,
    e: int,
) -> spec_fn(int) -> u8 {
    |b: int| gf16_mul(row_sum(ox_term(om, x), b, 0, o), p1[upper_index(v, a, b)][e])
}

/// The mixed part of the public map at the oil input, row `a`: the row of
/// `P2` times `x`, times entry `a` of `O x`.
pub proof fn lemma_oil_rect_row(
    ps: ParamSet,
    p1: Seq<Seq<u8>>,
    p2: Seq<Seq<u8>>,
    om: Seq<Seq<u8>>,
    x: Seq<u8>,
    a: int,
    e: int,
)
    requires
        key_ok(ps, p1, p2, om, x),
        0 <= a < ps.spec_v(),
        0 <= e < ps.m,
    ensures
        row_sum(
            rect_term(p2, oil_input(om, x), ps.spec_v() as int, ps.o as int, e),
            a,
            0,
            ps.o as int,
        ) == gf16_mul(
            row_sum(bx_term(p2, x, ps.o as int, e), a, 0, ps.o as int),
            row_sum(ox_term(om, x), a, 0, ps.o as int),
        ),
{
    let v = ps.spec_v() as int;
    let o = ps.o as int;
    let inp = oil_input(om, x);
    lemma_oil_input(ps, om, x);
    let wa = row_sum(ox_term(om, x), a, 0, o);
    assert(inp[a] == wa);
    assert(wa < 16);
    let g = bx_term(p2, x, o, e);
    let h = rect_term(p2, inp, v, o, e);
    assert forall|c: int| 0 <= c < o implies #[trigger] g(a, c) < 16 by {
        lemma_flat_index(a, c, v, o);
        assert(all_nibbles(p2[a * o + c]));
        assert(p2[a * o + c].len() == ps.m);
        assert(x[c] < 16);
        lemma_mul_closed(p2[a * o + c][e], x[c]);
    }
    assert forall|c: int| 0 <= c < o implies #[trigger] h(a, c) == gf16_mul(g(a, c), wa) by {
        lemma_flat_index(a, c, v, o);
        assert(all_nibbles(p2[a * o + c]));
        assert(p2[a * o + c].len() == ps.m);
        assert(x[c] < 16);
        assert(inp[v + c] == x[c]);
        lemma_mul_three(p2[a * o + c][e], x[c], wa);
    }
    lemma_row_sum_scale(g, h, a, wa, 0, o);
}

/// The vinegar part of the public map at the oil input, row `a`: the row of
/// `P1 * O` times `x`, times entry `a` of `O x`.
pub proof fn lemma_oil_tri_row(
    ps: ParamSet,
    p1: Seq<Seq<u8>>,
    p2: Seq<Seq<u8>>,
    om: Seq<Seq<u8>>,
    x: Seq<u8>,
    a: int,
    e: int,
)
    requires
        key_ok(ps, p1, p2, om, x),
        0 <= a < ps.spec_v(),
        0 <= e < ps.m,
    ensures
        row_sum(tri_term(p1, oil_input(om, x), 0, ps.spec_v() as int, e), a, a, ps.spec_v() as int)
            == gf16_mul(
            row_sum(bx_term(p1_times_o(ps, p1, om, false), x, ps.o as int, e), a, 0, ps.o as int),
            row_sum(ox_term(om, x), a, 0, ps.o as int),
        ),
        row_sum(bx_term(p1_times_o(ps, p1, om, false), x, ps.o as int, e), a, 0, ps.o as int) < 16,
{
    let v = ps.spec_v() as int;
    let o = ps.o as int;
    let inp = oil_input(om, x);
    lemma_oil_input(ps, om, x);
    let p1o = p1_times_o(ps, p1, om, false);
    let wa = row_sum(ox_term(om, x), a, 0, o);
    assert(wa < 16);
    let k = pox_term(p1, om, x, v, a, e);
    let po = po_term(p1, om, v, a, e);
    let bx = bx_term(p1o, x, o, e);
    let f = fix_first(bx, a);
    // Column after column, the band gives the row of P1 * O times x.
    assert forall|c: int| 0 <= c < o implies #[trigger] f(c) == col_sum(k, c, a, v) by {
        lemma_p1_times_o_entry(ps, p1, om, false, a, c, e);
        let term = p1o_term(p1, om, v, a, c, e);
        assert forall|b: int| a <= b < v implies #[trigger] term(b) == po(b, c) by {}
        lemma_col_sum_as_sum(po, term, c, a, v);
        assert forall|b: int| a <= b < v implies #[trigger] po(b, c) < 16 by {
            lemma_upper_index_bound(v, a, b);
            assert(all_nibbles(p1[upper_index(v, a, b)]));
            assert(p1[upper_index(v, a, b)].len() == ps.m);
            assert(all_nibbles(om[b]));
            assert(om[b].len() == o);
            lemma_mul_closed(p1[upper_index(v, a, b)][e], om[b][c]);
        }
        assert forall|b: int| a <= b < v implies #[trigger] k(b, c) == gf16_mul(po(b, c), x[c]) by {}
        assert(x[c] < 16);
        lemma_col_sum_scale(po, k, c, x[c], a, v);
    }
    lemma_band_sum_by_cols_as_sum(k, f, a, v, o);
    assert forall|c: int| 0 <= c < o implies #[trigger] f(c) == bx(a, c) by {}
    lemma_row_sum_as_sum(bx, f, a, 0, o);
    // Row after row, the band gives the entries of O x times the coefficients.
    let f1 = wc_term(p1, om, x, v, o, a, e);
    assert forall|b: int| a <= b < v implies #[trigger] f1(b) == row_sum(k, b, 0, o) && f1(b)
        < 16 by {
        lemma_upper_index_bound(v, a, b);
        assert(all_nibbles(p1[upper_index(v, a, b)]));
        assert(p1[upper_index(v, a, b)].len() == ps.m);
        let coefficient = p1[upper_index(v, a, b)][e];
        assert(all_nibbles(om[b]));
        assert(om[b].len() == o);
        let g = ox_term(om, x);
        assert forall|c: int| 0 <= c < o implies #[trigger] g(b, c) < 16 by {
            assert(x[c] < 16);
            lemma_mul_closed(om[b][c], x[c]);
        }
        assert forall|c: int| 0 <= c < o implies #[trigger] k(b, c) == gf16_mul(
            g(b, c),
            coefficient,
        ) by {
            assert(x[c] < 16);
            lemma_mul_three(coefficient, om[b][c], x[c]);
        }
        lemma_row_sum_scale(g, k, b, coefficient, 0, o);
        assert(row_sum(ox_term(om, x), b, 0, o) < 16);
        lemma_mul_closed(row_sum(ox_term(om, x), b, 0, o), coefficient);
    }
    lemma_band_sum_as_sum(k, f1, a, v, o);
    lemma_band_sum_exchange(k, a, v, o);
    // Times entry a of O x, the terms are those of the triangular form.
    let t = tri_term(p1, inp, 0, v, e);
    let h1 = fix_first(t, a);
    assert forall|b: int| a <= b < v implies #[trigger] h1(b) == gf16_mul(f1(b), wa) by {
        lemma_upper_index_bound(v, a, b);
        assert(all_nibbles(p1[upper_index(v, a, b)]));
        assert(p1[upper_index(v, a, b)].len() == ps.m);
        let coefficient = p1[upper_index(v, a, b)][e];
        let wb = row_sum(ox_term(om, x), b, 0, o);
        assert(wb < 16);
        assert(inp[a] == wa);
        assert(inp[b] == wb);
        lemma_mul_three(wb, coefficient, wa);
        lemma_mul_three(coefficient, wa, wb);
    }
    assert(crate::sums::nibbles_on(f1, a, v));
    lemma_sum_scale(f1, h1, wa, a, v);
    assert forall|b: int| a <= b < v implies #[trigger] h1(b) == t(a, b) by {}
    lemma_row_sum_as_sum(t, h1, a, a, v);
    lemma_sum_nibble(f1, a, v);
}

/// The batches of `L = P2 + P1 * O`.
pub open spec fn l_of(ps: ParamSet, p1: Seq<Seq<u8>>, p2: Seq<Seq<u8>>, om: Seq<Seq<u8>>) -> Seq<
    Seq<u8>,
> {
    batches_add(p1_times_o(ps, p1, om, false), p2)
}

/// Every entry of `P1 * O`, and of `L`, is a nibble, and `L` has a batch of
/// `m` entries for every pair of a vinegar and an oil variable.
pub proof fn lemma_l_entry(
    ps: ParamSet,
    p1: Seq<Seq<u8>>,
    p2: Seq<Seq<u8>>,
    om: Seq<Seq<u8>>,
    x: Seq<u8>,
    a: int,
    c: int,
    e: int,
)
    requires
        key_ok(ps, p1, p2, om, x),
        0 <= a < ps.spec_v(),
        0 <= c < ps.o,
        0 <= e < ps.m,
    ensures
        0 <= a * ps.o + c < ps.spec_p2_count(),
        l_of(ps, p1, p2, om).len() == ps.spec_p2_count(),
        l_of(ps, p1, p2, om)[a * ps.o + c].len() == ps.m,
        p1_times_o(ps, p1, om, false)[a * ps.o + c][e] < 16,
        p2[a * ps.o + c][e] < 16,
        l_of(ps, p1, p2, om)[a * ps.o + c][e] == gf16_add(
            p1_times_o(ps, p1, om, false)[a * ps.o + c][e],
            p2[a * ps.o + c][e],
        ),
        l_of(ps, p1, p2, om)[a * ps.o + c][e] < 16,
{
    let v = ps.spec_v() as int;
    let o = ps.o as int;
    lemma_p1_times_o_entry(ps, p1, om, false, a, c, e);
    let p1o = p1_times_o(ps, p1, om, false);
    lemma_batches_add_entry(p1o, p2, a * o + c, e);
    let term = p1o_term(p1, om, v, a, c, e);
    assert forall|b: int| a <= b < v implies #[trigger] term(b) < 16 by {
        lemma_upper_index_bound(v, a, b);
        assert(all_nibbles(p1[upper_index(v, a, b)]));
        assert(p1[upper_index(v, a, b)].len() == ps.m);
        assert(all_nibbles(om[b]));
        assert(om[b].len() == o);
        lemma_mul_closed(p1[upper_index(v, a, b)][e], om[b][c]);
    }
    lemma_sum_nibble(term, a, v);
    assert(all_nibbles(p2[a * o + c]));
    assert(p2[a * o + c].len() == ps.m);
    lemma_add_closed(p1o[a * o + c][e], p2[a * o + c][e]);
}

/// The term `G(a) * (O x)[a]` of the double sum that both halves of the
/// public map at the oil input come to, where `G(a)` is row `a` of `L`
/// times `x`.
pub open spec fn wg_term(l: Seq<Seq<u8>>, om: Seq<Seq<u8>>, x: Seq<u8>, o: int, e: int) -> spec_fn(
    int,
) -> u8 {
    |a: int|
        gf16_mul(row_sum(bx_term(l, x, o, e), a, 0, o), row_sum(ox_term(om, x), a, 0, o))
}

/// The row sums of a triangular function, as a function of the row.
pub open spec fn tri_rows(t: spec_fn(int, int) -> u8, n: int) -> spec_fn(int) -> u8 {
    |a: int| row_sum(t, a, a, n)
}

/// The row sums of a function on a rectangle, as a function of the row.
pub open spec fn rect_rows(t: spec_fn(int, int) -> u8, cols: int) -> spec_fn(int) -> u8 {
    |a: int| row_sum(t, a, 0, cols)
}

/// Row `a` of `L` times `x` is a nibble.
pub proof fn lemma_g_nibble(
    ps: ParamSet,
    p1: Seq<Seq<u8>>,
    p2: Seq<Seq<u8>>,
    om: Seq<Seq<u8>>,
    x: Seq<u8>,
    a: int,
    e: int,
)
    requires
        key_ok(ps, p1, p2, om, x),
        0 <= a < ps.spec_v(),
        0 <= e < ps.m,
    ensures
        row_sum(bx_term(l_of(ps, p1, p2, om), x, ps.o as int, e), a, 0, ps.o as int) < 16,
{
    let o = ps.o as int;
    let g = bx_term(l_of(ps, p1, p2, om), x, o, e);
    assert forall|c: int| 0 <= c < o implies #[trigger] g(a, c) < 16 by {
        lemma_l_entry(ps, p1, p2, om, x, a, c, e);
        assert(x[c] < 16);
        lemma_mul_closed(l_of(ps, p1, p2, om)[a * o + c][e], x[c]);
    }
    lemma_row_sum_nibble(g, a, 0, o);
}

/// The vinegar and the mixed part of the public map at the oil input come
/// to the sum over `a` of `G(a) * (O x)[a]`.
pub proof fn lemma_oil_vinegar_half(
    ps: ParamSet,
    p1: Seq<Seq<u8>>,
    p2: Seq<Seq<u8>>,
    om: Seq<Seq<u8>>,
    x: Seq<u8>,
    e: int,
)
    requires
        key_ok(ps, p1, p2, om, x),
        0 <= e < ps.m,
    ensures
        gf16_add(
            upper_sum(
                tri_term(p1, oil_input(om, x), 0, ps.spec_v() as int, e),
                ps.spec_v() as int,
                ps.spec_v() as int,
            ),
            rect_sum(
                rect_term(p2, oil_input(om, x), ps.spec_v() as int, ps.o as int, e),
                ps.spec_v() as int,
                ps.o as int,
            ),
        ) == sum_over(
            wg_term(l_of(ps, p1, p2, om), om, x, ps.o as int, e),
            0,
            ps.spec_v() as int,
        ),
{
    let v = ps.spec_v() as int;
    let o = ps.o as int;
    let inp = oil_input(om, x);
    let l = l_of(ps, p1, p2, om);
    let p1o = p1_times_o(ps, p1, om, false);
    let t1 = tri_term(p1, inp, 0, v, e);
    let t2 = rect_term(p2, inp, v, o, e);
    let r1 = tri_rows(t1, v);
    let r2 = rect_rows(t2, o);
    let wg = wg_term(l, om, x, o, e);
    lemma_oil_input(ps, om, x);
    assert forall|a: int| 0 <= a < v implies #[trigger] wg(a) == gf16_add(r1(a), r2(a)) by {
        lemma_oil_tri_row(ps, p1, p2, om, x, a, e);
        lemma_oil_rect_row(ps, p1, p2, om, x, a, e);
        let ga = row_sum(bx_term(p1o, x, o, e), a, 0, o);
        let gb = row_sum(bx_term(p2, x, o, e), a, 0, o);
        let wa = row_sum(ox_term(om, x), a, 0, o);
        assert(wa < 16);
        let fa = bx_term(p1o, x, o, e);
        let fb = bx_term(p2, x, o, e);
        let fl = bx_term(l, x, o, e);
        assert forall|c: int| 0 <= c < o implies #[trigger] fl(a, c) == gf16_add(
            fa(a, c),
            fb(a, c),
        ) by {
            lemma_l_entry(ps, p1, p2, om, x, a, c, e);
            assert(x[c] < 16);
            lemma_mul_distributes(x[c], p1o[a * o + c][e], p2[a * o + c][e]);
        }
        lemma_row_sum_add(fa, fb, fl, a, 0, o);
        assert forall|c: int| 0 <= c < o implies #[trigger] fb(a, c) < 16 by {
            lemma_l_entry(ps, p1, p2, om, x, a, c, e);
            assert(x[c] < 16);
            lemma_mul_closed(p2[a * o + c][e], x[c]);
        }
        lemma_row_sum_nibble(fb, a, 0, o);
        lemma_mul_distributes(wa, ga, gb);
    }
    lemma_sum_add(r1, r2, wg, 0, v);
    assert forall|a: int| 0 <= a < v implies #[trigger] r1(a) == row_sum(t1, a, a, v) by {}
    lemma_upper_sum_as_sum(t1, r1, v, v);
    assert forall|a: int| 0 <= a < v implies #[trigger] r2(a) == row_sum(t2, a, 0, o) by {}
    lemma_rect_sum_as_sum(t2, r2, v, o);
}

/// A product of two products of nibbles can be paired the other way.
pub proof fn lemma_mul_four(a: u8, b: u8, c: u8, d: u8)
    requires
        a < 16,
        b < 16,
        c < 16,
        d < 16,
    ensures
        gf16_mul(gf16_mul(a, b), gf16_mul(c, d)) == gf16_mul(gf16_mul(c, a), gf16_mul(b, d)),
{
    let cd = gf16_mul(c, d);
    let bd = gf16_mul(b, d);
    lemma_mul_closed(c, d);
    lemma_mul_closed(b, d);
    lemma_mul_closed(b, c);
    lemma_mul_associates(a, b, cd);
    lemma_mul_associates(b, c, d);
    lemma_mul_commutes(b, c);
    lemma_mul_associates(c, b, d);
    lemma_mul_associates(a, c, bd);
    lemma_mul_commutes(a, c);
}

/// The batches of `O^T * L`.
pub open spec fn full_of(ps: ParamSet, p1: Seq<Seq<u8>>, p2: Seq<Seq<u8>>, om: Seq<Seq<u8>>) -> Seq<
    Seq<u8>,
> {
    o_transpose_times(ps, om, l_of(ps, p1, p2, om))
}

/// The batches of `P3 = Upper(O^T * L)`.
pub open spec fn p3_of(ps: ParamSet, p1: Seq<Seq<u8>>, p2: Seq<Seq<u8>>, om: Seq<Seq<u8>>) -> Seq<
    Seq<u8>,
> {
    upper_rows(full_of(ps, p1, p2, om), ps.o as int, ps.o as int)
}

/// The term `L[a, c][e] * O[a][r]` of an entry of `O^T * L`, as a function
/// of `a` and `c`.
pub open spec fn lo_term(l: Seq<Seq<u8>>, om: Seq<Seq<u8>>, o: int, r: int, e: int) -> spec_fn(
    int,
    int,
) -> u8 {
    |a: int, c: int| gf16_mul(l[a * o + c][e], om[a][r])
}

/// The term `(O[a][r] * x[r]) * (L[a, c][e] * x[c])`.
pub open spec fn h_term(
    l: Seq<Seq<u8>>,
    om: Seq<Seq<u8>>,
    x: Seq<u8>,
    o: int,
    r: int,
    e: int,
) -> spec_fn(int, int) -> u8 {
    |a: int, c: int| gf16_mul(gf16_mul(om[a][r], x[r]), gf16_mul(l[a * o + c][e], x[c]))
}

/// The term `G(a) * (O[a][r] * x[r])`.
pub open spec fn j_term(l: Seq<Seq<u8>>, om: Seq<Seq<u8>>, x: Seq<u8>, o: int, e: int) -> spec_fn(
    int,
    int,
) -> u8 {
    |a: int, r: int|
        gf16_mul(row_sum(bx_term(l, x, o, e), a, 0, o), gf16_mul(om[a][r], x[r]))
}

/// The term `F[r, c][e] * (x[r] * x[c])` of the full square of `O^T * L`.
pub open spec fn fxx_term(full: Seq<Seq<u8>>, x: Seq<u8>, o: int, e: int) -> spec_fn(int, int) -> u8 {
    |r: int, c: int| gf16_mul(full[r * o + c][e], gf16_mul(x[r], x[c]))
}

/// Entry `e` of the batch of `O^T * L` at (`r`, `c`): a sum of nibbles.
pub proof fn lemma_full_entry(
    ps: ParamSet,
    p1: Seq<Seq<u8>>,
    p2: Seq<Seq<u8>>,
    om: Seq<Seq<u8>>,
    x: Seq<u8>,
    r: int,
    c: int,
    e: int,
)
    requires
        key_ok(ps, p1, p2, om, x),
        0 <= r < ps.o,
        0 <= c < ps.o,
        0 <= e < ps.m,
    ensures
        full_of(ps, p1, p2, om).len() == ps.o * ps.o,
        0 <= r * ps.o + c < ps.o * ps.o,
        full_of(ps, p1, p2, om)[r * ps.o + c].len() == ps.m,
        full_of(ps, p1, p2, om)[r * ps.o + c][e] == col_sum(
            lo_term(l_of(ps, p1, p2, om), om, ps.o as int, r, e),
            c,
            0,
            ps.spec_v() as int,
        ),
        full_of(ps, p1, p2, om)[r * ps.o + c][e] < 16,
        forall|a: int|
            0 <= a < ps.spec_v() ==> #[trigger] lo_term(l_of(ps, p1, p2, om), om, ps.o as int, r, e)(
                a,
                c,
            ) < 16,
{
    let v = ps.spec_v() as int;
    let o = ps.o as int;
    let l = l_of(ps, p1, p2, om);
    lemma_o_transpose_times_entry(ps, om, l, r, c, e);
    let term = otl_term(l, om, o, r, c, e);
    let lo = lo_term(l, om, o, r, e);
    assert forall|a: int| 0 <= a < v implies #[trigger] term(a) == lo(a, c) by {}
    lemma_col_sum_as_sum(lo, term, c, 0, v);
    assert forall|a: int| 0 <= a < v implies #[trigger] lo(a, c) < 16 by {
        lemma_l_entry(ps, p1, p2, om, x, a, c, e);
        assert(all_nibbles(om[a]));
        assert(om[a].len() == o);
        lemma_mul_closed(l[a * o + c][e], om[a][r]);
    }
    lemma_col_sum_nibble(lo, c, 0, v);
}

/// Row `r` of the full square of `O^T * L`, weighted with `x[r] * x[c]`, is
/// the sum over `a` of `G(a) * (O[a][r] * x[r])`.
pub proof fn lemma_oil_square_row(
    ps: ParamSet,
    p1: Seq<Seq<u8>>,
    p2: Seq<Seq<u8>>,
    om: Seq<Seq<u8>>,
    x: Seq<u8>,
    r: int,
    e: int,
)
    requires
        key_ok(ps, p1, p2, om, x),
        0 <= r < ps.o,
        0 <= e < ps.m,
    ensures
        row_sum(fxx_term(full_of(ps, p1, p2, om), x, ps.o as int, e), r, 0, ps.o as int)
            == col_sum(
            j_term(l_of(ps, p1, p2, om), om, x, ps.o as int, e),
            r,
            0,
            ps.spec_v() as int,
        ),
{
    let v = ps.spec_v() as int;
    let o = ps.o as int;
    let l = l_of(ps, p1, p2, om);
    let full = full_of(ps, p1, p2, om);
    let k3 = fxx_term(full, x, o, e);
    let h = h_term(l, om, x, o, r, e);
    let lo = lo_term(l, om, o, r, e);
    let j = j_term(l, om, x, o, e);
    let bx = bx_term(l, x, o, e);
    assert(x[r] < 16);
    // Column after column: the entries of the weighted square.
    let by_col = fix_first(k3, r);
    assert forall|c: int| 0 <= c < o implies #[trigger] by_col(c) == col_sum(h, c, 0, v) by {
        lemma_full_entry(ps, p1, p2, om, x, r, c, e);
        assert(x[c] < 16);
        let weight = gf16_mul(x[r], x[c]);
        lemma_mul_closed(x[r], x[c]);
        assert forall|a: int| 0 <= a < v implies #[trigger] h(a, c) == gf16_mul(
            lo(a, c),
            weight,
        ) by {
            lemma_l_entry(ps, p1, p2, om, x, a, c, e);
            assert(all_nibbles(om[a]));
            assert(om[a].len() == o);
            lemma_mul_four(om[a][r], x[r], l[a * o + c][e], x[c]);
        }
        lemma_col_sum_scale(lo, h, c, weight, 0, v);
    }
    lemma_rect_sum_by_cols_as_sum(h, by_col, v, o);
    assert forall|c: int| 0 <= c < o implies #[trigger] by_col(c) == k3(r, c) by {}
    lemma_row_sum_as_sum(k3, by_col, r, 0, o);
    // Row after row: G(a) times O[a][r] x[r].
    let by_row = |a: int| j(a, r);
    assert forall|a: int| 0 <= a < v implies #[trigger] by_row(a) == row_sum(h, a, 0, o) by {
        assert(all_nibbles(om[a]));
        assert(om[a].len() == o);
        let s = gf16_mul(om[a][r], x[r]);
        lemma_mul_closed(om[a][r], x[r]);
        assert forall|c: int| 0 <= c < o implies #[trigger] bx(a, c) < 16 by {
            lemma_l_entry(ps, p1, p2, om, x, a, c, e);
            assert(x[c] < 16);
            lemma_mul_closed(l[a * o + c][e], x[c]);
        }
        assert forall|c: int| 0 <= c < o implies #[trigger] h(a, c) == gf16_mul(bx(a, c), s) by {
            lemma_l_entry(ps, p1, p2, om, x, a, c, e);
            assert(x[c] < 16);
            lemma_mul_closed(l[a * o + c][e], x[c]);
            lemma_mul_commutes(s, gf16_mul(l[a * o + c][e], x[c]));
        }
        lemma_row_sum_scale(bx, h, a, s, 0, o);
        lemma_g_nibble(ps, p1, p2, om, x, a, e);
        lemma_mul_commutes(row_sum(bx, a, 0, o), s);
    }
    lemma_rect_sum_as_sum(h, by_row, v, o);
    assert forall|a: int| 0 <= a < v implies #[trigger] by_row(a) == j(a, r) by {}
    lemma_col_sum_as_sum(j, by_row, r, 0, v);
    lemma_rect_sum_exchange(h, v, o);
}

/// The oil part of the public map at the oil input comes to the same sum
/// over `a` of `G(a) * (O x)[a]` as the other two parts together.
pub proof fn lemma_oil_oil_half(
    ps: ParamSet,
    p1: Seq<Seq<u8>>,
    p2: Seq<Seq<u8>>,
    om: Seq<Seq<u8>>,
    x: Seq<u8>,
    e: int,
)
    requires
        key_ok(ps, p1, p2, om, x),
        0 <= e < ps.m,
    ensures
        upper_sum(
            tri_term(
                p3_of(ps, p1, p2, om),
                oil_input(om, x),
                ps.spec_v() as int,
                ps.o as int,
                e,
            ),
            ps.o as int,
            ps.o as int,
        ) == sum_over(
            wg_term(l_of(ps, p1, p2, om), om, x, ps.o as int, e),
            0,
            ps.spec_v() as int,
        ),
{
    let v = ps.spec_v() as int;
    let o = ps.o as int;
    let inp = oil_input(om, x);
    let l = l_of(ps, p1, p2, om);
    let full = full_of(ps, p1, p2, om);
    let p3 = p3_of(ps, p1, p2, om);
    let k3 = fxx_term(full, x, o, e);
    let u = tri_term(p3, inp, v, o, e);
    let j = j_term(l, om, x, o, e);
    let wg = wg_term(l, om, x, o, e);
    lemma_oil_input(ps, om, x);
    // The triangle of P3 pairs the mirror images of the square.
    assert forall|r: int, c: int| 0 <= r <= c < o implies #[trigger] u(r, c) == (if r == c {
        k3(r, r)
    } else {
        gf16_add(k3(r, c), k3(c, r))
    }) by {
        lemma_upper_rows_index(full, o, o, r, c);
        lemma_full_entry(ps, p1, p2, om, x, r, c, e);
        lemma_full_entry(ps, p1, p2, om, x, c, r, e);
        lemma_full_entry(ps, p1, p2, om, x, r, r, e);
        assert(inp[v + r] == x[r]);
        assert(inp[v + c] == x[c]);
        assert(x[r] < 16 && x[c] < 16);
        assert(p3[upper_index(o, r, c)] == folded(full, o, r, c));
        if r != c {
            lemma_mul_closed(x[r], x[c]);
            lemma_mul_commutes(x[r], x[c]);
            lemma_mul_distributes(gf16_mul(x[r], x[c]), full[r * o + c][e], full[c * o + r][e]);
        }
    }
    lemma_square_as_upper(k3, u, o);
    // The square, row after row, is a rectangle of the terms G(a) O[a][r] x[r].
    let rows = rect_rows(k3, o);
    assert forall|r: int| 0 <= r < o implies #[trigger] rows(r) == col_sum(j, r, 0, v) by {
        lemma_oil_square_row(ps, p1, p2, om, x, r, e);
    }
    assert forall|r: int| 0 <= r < o implies #[trigger] rows(r) == row_sum(k3, r, 0, o) by {}
    lemma_rect_sum_as_sum(k3, rows, o, o);
    lemma_rect_sum_by_cols_as_sum(j, rows, v, o);
    lemma_rect_sum_exchange(j, v, o);
    // Row after row, that rectangle gives G(a) times entry a of O x.
    assert forall|a: int| 0 <= a < v implies #[trigger] wg(a) == row_sum(j, a, 0, o) by {
        lemma_g_nibble(ps, p1, p2, om, x, a, e);
        let ga = row_sum(bx_term(l, x, o, e), a, 0, o);
        let g = ox_term(om, x);
        assert(all_nibbles(om[a]));
        assert(om[a].len() == o);
        assert forall|r: int| 0 <= r < o implies #[trigger] g(a, r) < 16 by {
            assert(x[r] < 16);
            lemma_mul_closed(om[a][r], x[r]);
        }
        assert forall|r: int| 0 <= r < o implies #[trigger] j(a, r) == gf16_mul(g(a, r), ga) by {
            assert(x[r] < 16);
            lemma_mul_closed(om[a][r], x[r]);
            lemma_mul_commutes(ga, gf16_mul(om[a][r], x[r]));
        }
        lemma_row_sum_scale(g, j, a, ga, 0, o);
        assert(row_sum(g, a, 0, o) < 16);
        lemma_mul_commutes(ga, row_sum(g, a, 0, o));
    }
    lemma_rect_sum_as_sum(j, wg, v, o);
}

/// The trapdoor, one equation at a time: the public map of a key vanishes
/// at every oil input.
pub proof fn lemma_oil_entry_vanishes(
    ps: ParamSet,
    p1: Seq<Seq<u8>>,
    p2: Seq<Seq<u8>>,
    om: Seq<Seq<u8>>,
    x: Seq<u8>,
    e: int,
)
    requires
        key_ok(ps, p1, p2, om, x),
        0 <= e < ps.m,
    ensures
        quad_entry(
            p1,
            p2,
            p3_of(ps, p1, p2, om),
            oil_input(om, x),
            ps.spec_v() as int,
            ps.o as int,
            e,
        ) == 0,
{
    lemma_oil_vinegar_half(ps, p1, p2, om, x, e);
    lemma_oil_oil_half(ps, p1, p2, om, x, e);
    lemma_add_self(
        sum_over(wg_term(l_of(ps, p1, p2, om), om, x, ps.o as int, e), 0, ps.spec_v() as int),
    );
}

} // verus!
