//! The algebra behind the scheme, one equation at a time: the public map as
//! a quadratic form, its polar form, the vanishing of the map on the oil
//! space, and the linearity of the whipped fold.

use crate::f16::{
    all_nibbles, gf16_add, gf16_mul, lemma_add_closed, lemma_add_laws, lemma_mul_closed,
    lemma_mul_distributes,
};
use crate::linear_laws::nibble_rows;
use crate::matrix::{has_shape, lemma_flat_index};
use crate::mayo_operations::{
    lemma_upper_index_bound, quad_map, rect_fold, rect_row_fold, tri_fold, tri_row_fold,
    upper_index,
};
use crate::params::triangle;
use crate::sums::{
    lemma_rect_sum_add, lemma_rect_sum_ext, lemma_upper_sum_add, lemma_upper_sum_ext, rect_sum,
    row_sum, upper_sum,
};
use crate::vector::{seq_add, seq_zero};
use vstd::prelude::*;

verus! {

/// The term of a triangular form at position (`a`, `b`) for equation `e`:
/// the coefficient times `x[off + a] * x[off + b]`.
pub open spec fn tri_term(p: Seq<Seq<u8>>, x: Seq<u8>, off: int, n: int, e: int) -> spec_fn(
    int,
    int,
) -> u8 {
    |a: int, b: int| gf16_mul(p[upper_index(n, a, b)][e], gf16_mul(x[off + a], x[off + b]))
}

/// The term of the mixed form at position (`a`, `c`) for equation `e`: the
/// coefficient times `x[a] * x[v + c]`.
pub open spec fn rect_term(p: Seq<Seq<u8>>, x: Seq<u8>, v: int, o: int, e: int) -> spec_fn(
    int,
    int,
) -> u8 {
    |a: int, c: int| gf16_mul(p[a * o + c][e], gf16_mul(x[a], x[v + c]))
}

/// The public map at `x` for equation `e`, as a sum over the positions of
/// the three coefficient sequences.
pub open spec fn quad_entry(
    p1: Seq<Seq<u8>>,
    p2: Seq<Seq<u8>>,
    p3: Seq<Seq<u8>>,
    x: Seq<u8>,
    v: int,
    o: int,
    e: int,
) -> u8 {
    gf16_add(
        gf16_add(upper_sum(tri_term(p1, x, 0, v, e), v, v), rect_sum(rect_term(p2, x, v, o, e), v, o)),
        upper_sum(tri_term(p3, x, v, o, e), o, o),
    )
}

/// Entry `e` of a row of the triangular fold is the entry of the
/// accumulator plus the sum of the row's terms.
pub proof fn lemma_tri_row_fold_entry(
    acc: Seq<u8>,
    p: Seq<Seq<u8>>,
    x: Seq<u8>,
    off: int,
    n: int,
    a: int,
    b_hi: int,
    e: int,
)
    requires
        0 <= e < acc.len(),
    ensures
        tri_row_fold(acc, p, x, off, n, a, b_hi).len() == acc.len(),
        tri_row_fold(acc, p, x, off, n, a, b_hi)[e] == gf16_add(
            acc[e],
            row_sum(tri_term(p, x, off, n, e), a, a, b_hi),
        ),
    decreases b_hi - a,
{
    if b_hi > a {
        lemma_tri_row_fold_entry(acc, p, x, off, n, a, b_hi - 1, e);
        lemma_add_laws(
            acc[e],
            row_sum(tri_term(p, x, off, n, e), a, a, b_hi - 1),
            tri_term(p, x, off, n, e)(a, b_hi - 1),
        );
    } else {
        lemma_add_laws(acc[e], 0, 0);
    }
}

/// Entry `e` of the triangular fold is the entry of the accumulator plus
/// the sum of the terms over the triangle.
pub proof fn lemma_tri_fold_entry(
    acc: Seq<u8>,
    p: Seq<Seq<u8>>,
    x: Seq<u8>,
    off: int,
    n: int,
    a_hi: int,
    e: int,
)
    requires
        0 <= e < acc.len(),
    ensures
        tri_fold(acc, p, x, off, n, a_hi).len() == acc.len(),
        tri_fold(acc, p, x, off, n, a_hi)[e] == gf16_add(
            acc[e],
            upper_sum(tri_term(p, x, off, n, e), n, a_hi),
        ),
    decreases a_hi,
{
    if a_hi > 0 {
        lemma_tri_fold_entry(acc, p, x, off, n, a_hi - 1, e);
        let inner = tri_fold(acc, p, x, off, n, a_hi - 1);
        lemma_tri_row_fold_entry(inner, p, x, off, n, a_hi - 1, n, e);
        lemma_add_laws(
            acc[e],
            upper_sum(tri_term(p, x, off, n, e), n, a_hi - 1),
            row_sum(tri_term(p, x, off, n, e), a_hi - 1, a_hi - 1, n),
        );
    } else {
        lemma_add_laws(acc[e], 0, 0);
    }
}

/// Entry `e` of a row of the mixed fold is the entry of the accumulator
/// plus the sum of the row's terms.
pub proof fn lemma_rect_row_fold_entry(
    acc: Seq<u8>,
    p: Seq<Seq<u8>>,
    x: Seq<u8>,
    v: int,
    o: int,
    a: int,
    b_hi: int,
    e: int,
)
    requires
        0 <= e < acc.len(),
    ensures
        rect_row_fold(acc, p, x, v, o, a, b_hi).len() == acc.len(),
        rect_row_fold(acc, p, x, v, o, a, b_hi)[e] == gf16_add(
            acc[e],
            row_sum(rect_term(p, x, v, o, e), a, 0, b_hi),
        ),
    decreases b_hi,
{
    if b_hi > 0 {
        lemma_rect_row_fold_entry(acc, p, x, v, o, a, b_hi - 1, e);
        lemma_add_laws(
            acc[e],
            row_sum(rect_term(p, x, v, o, e), a, 0, b_hi - 1),
            rect_term(p, x, v, o, e)(a, b_hi - 1),
        );
    } else {
        lemma_add_laws(acc[e], 0, 0);
    }
}

/// Entry `e` of the mixed fold is the entry of the accumulator plus the sum
/// of the terms over the rectangle.
pub proof fn lemma_rect_fold_entry(
    acc: Seq<u8>,
    p: Seq<Seq<u8>>,
    x: Seq<u8>,
    v: int,
    o: int,
    a_hi: int,
    e: int,
)
    requires
        0 <= e < acc.len(),
    ensures
        rect_fold(acc, p, x, v, o, a_hi).len() == acc.len(),
        rect_fold(acc, p, x, v, o, a_hi)[e] == gf16_add(
            acc[e],
            rect_sum(rect_term(p, x, v, o, e), a_hi, o),
        ),
    decreases a_hi,
{
    if a_hi > 0 {
        lemma_rect_fold_entry(acc, p, x, v, o, a_hi - 1, e);
        let inner = rect_fold(acc, p, x, v, o, a_hi - 1);
        lemma_rect_row_fold_entry(inner, p, x, v, o, a_hi - 1, o, e);
        lemma_add_laws(
            acc[e],
            rect_sum(rect_term(p, x, v, o, e), a_hi - 1, o),
            row_sum(rect_term(p, x, v, o, e), a_hi - 1, 0, o),
        );
    } else {
        lemma_add_laws(acc[e], 0, 0);
    }
}

/// The public map has `m` entries, and entry `e` is the quadratic form of
/// equation `e`.
pub proof fn lemma_quad_map_entry(
    p1: Seq<Seq<u8>>,
    p2: Seq<Seq<u8>>,
    p3: Seq<Seq<u8>>,
    x: Seq<u8>,
    v: int,
    o: int,
    m: nat,
    e: int,
)
    requires
        0 <= e < m,
    ensures
        quad_map(p1, p2, p3, x, v, o, m).len() == m,
        quad_map(p1, p2, p3, x, v, o, m)[e] == quad_entry(p1, p2, p3, x, v, o, e),
{
    let z = seq_zero(m);
    lemma_tri_fold_entry(z, p1, x, 0, v, v, e);
    let s1 = tri_fold(z, p1, x, 0, v, v);
    lemma_rect_fold_entry(s1, p2, x, v, o, v, e);
    let s2 = rect_fold(s1, p2, x, v, o, v);
    lemma_tri_fold_entry(s2, p3, x, v, o, o, e);
    lemma_add_laws(upper_sum(tri_term(p1, x, 0, v, e), v, v), 0, 0);
}

/// Whether `p` holds `count` batches of `m` nibbles each.
pub open spec fn batches_ok(p: Seq<Seq<u8>>, count: nat, m: nat) -> bool {
    has_shape(p, count, m) && nibble_rows(p)
}

/// Whether `x` is an input of `n` nibbles.
pub open spec fn input_ok(x: Seq<u8>, n: nat) -> bool {
    x.len() == n && all_nibbles(x)
}

/// The pointwise sum of two functions of two arguments.
pub open spec fn plus2(f: spec_fn(int, int) -> u8, g: spec_fn(int, int) -> u8) -> spec_fn(
    int,
    int,
) -> u8 {
    |a: int, b: int| gf16_add(f(a, b), g(a, b))
}

/// The term of the polar form of a triangular form at position (`i`, `j`):
/// the coefficient times `a_i b_j + b_i a_j`.
pub open spec fn tri_polar_term(
    p: Seq<Seq<u8>>,
    a: Seq<u8>,
    b: Seq<u8>,
    off: int,
    n: int,
    e: int,
) -> spec_fn(int, int) -> u8 {
    |i: int, j: int|
        gf16_mul(
            p[upper_index(n, i, j)][e],
            gf16_add(gf16_mul(a[off + i], b[off + j]), gf16_mul(b[off + i], a[off + j])),
        )
}

/// The term of the polar form of the mixed form at position (`i`, `c`).
pub open spec fn rect_polar_term(
    p: Seq<Seq<u8>>,
    a: Seq<u8>,
    b: Seq<u8>,
    v: int,
    o: int,
    e: int,
) -> spec_fn(int, int) -> u8 {
    |i: int, c: int|
        gf16_mul(
            p[i * o + c][e],
            gf16_add(gf16_mul(a[i], b[v + c]), gf16_mul(b[i], a[v + c])),
        )
}

/// The polar form of the public map at `a` and `b` for equation `e`.
pub open spec fn polar_entry(
    p1: Seq<Seq<u8>>,
    p2: Seq<Seq<u8>>,
    p3: Seq<Seq<u8>>,
    a: Seq<u8>,
    b: Seq<u8>,
    v: int,
    o: int,
    e: int,
) -> u8 {
    gf16_add(
        gf16_add(
            upper_sum(tri_polar_term(p1, a, b, 0, v, e), v, v),
            rect_sum(rect_polar_term(p2, a, b, v, o, e), v, o),
        ),
        upper_sum(tri_polar_term(p3, a, b, v, o, e), o, o),
    )
}

/// Nine terms in three groups of three can be regrouped the other way.
pub proof fn lemma_add_regroup_nine(
    x1: u8,
    y1: u8,
    z1: u8,
    x2: u8,
    y2: u8,
    z2: u8,
    x3: u8,
    y3: u8,
    z3: u8,
)
    ensures
        gf16_add(
            gf16_add(
                gf16_add(gf16_add(x1, y1), z1),
                gf16_add(gf16_add(x2, y2), z2),
            ),
            gf16_add(gf16_add(x3, y3), z3),
        ) == gf16_add(
            gf16_add(
                gf16_add(gf16_add(x1, x2), x3),
                gf16_add(gf16_add(y1, y2), y3),
            ),
            gf16_add(gf16_add(z1, z2), z3),
        ),
{
    assert((((x1 ^ y1) ^ z1) ^ ((x2 ^ y2) ^ z2)) ^ ((x3 ^ y3) ^ z3) == (((x1 ^ x2) ^ x3) ^ ((y1 ^ y2)
        ^ y3)) ^ ((z1 ^ z2) ^ z3)) by (bit_vector);
}

/// The product of two sums, times a coefficient: the two squares and the
/// two mixed products.
pub proof fn lemma_polar_term(c: u8, ai: u8, bi: u8, aj: u8, bj: u8)
    requires
        c < 16,
        ai < 16,
        bi < 16,
        aj < 16,
        bj < 16,
    ensures
        gf16_mul(c, gf16_mul(gf16_add(ai, bi), gf16_add(aj, bj))) == gf16_add(
            gf16_add(gf16_mul(c, gf16_mul(ai, aj)), gf16_mul(c, gf16_mul(bi, bj))),
            gf16_mul(c, gf16_add(gf16_mul(ai, bj), gf16_mul(bi, aj))),
        ),
{
    lemma_add_closed(aj, bj);
    lemma_mul_distributes(gf16_add(aj, bj), ai, bi);
    lemma_mul_distributes(ai, aj, bj);
    lemma_mul_distributes(bi, aj, bj);
    let p = gf16_mul(ai, aj);
    let q = gf16_mul(ai, bj);
    let r = gf16_mul(bi, aj);
    let t = gf16_mul(bi, bj);
    lemma_mul_closed(ai, aj);
    lemma_mul_closed(ai, bj);
    lemma_mul_closed(bi, aj);
    lemma_mul_closed(bi, bj);
    assert(gf16_mul(gf16_add(ai, bi), gf16_add(aj, bj)) == gf16_add(gf16_add(p, q), gf16_add(r, t)));
    assert(gf16_add(gf16_add(p, q), gf16_add(r, t)) == gf16_add(gf16_add(p, t), gf16_add(q, r)))
        by {
        assert((p ^ q) ^ (r ^ t) == (p ^ t) ^ (q ^ r)) by (bit_vector);
    }
    lemma_add_closed(p, t);
    lemma_add_closed(q, r);
    lemma_mul_distributes(c, gf16_add(p, t), gf16_add(q, r));
    lemma_mul_distributes(c, p, t);
}

/// A triangular form at a sum of two inputs: the form at each, plus the polar form.
pub proof fn lemma_tri_polar(
    p: Seq<Seq<u8>>,
    a: Seq<u8>,
    b: Seq<u8>,
    off: int,
    n: nat,
    m: nat,
    e: int,
)
    requires
        batches_ok(p, triangle(n), m),
        0 <= e < m,
        0 <= off,
        off + n <= a.len(),
        a.len() == b.len(),
        all_nibbles(a),
        all_nibbles(b),
    ensures
        upper_sum(tri_term(p, seq_add(a, b), off, n as int, e), n as int, n as int) == gf16_add(
            gf16_add(
                upper_sum(tri_term(p, a, off, n as int, e), n as int, n as int),
                upper_sum(tri_term(p, b, off, n as int, e), n as int, n as int),
            ),
            upper_sum(tri_polar_term(p, a, b, off, n as int, e), n as int, n as int),
        ),
{
    let ta = tri_term(p, a, off, n as int, e);
    let tb = tri_term(p, b, off, n as int, e);
    let tab = tri_term(p, seq_add(a, b), off, n as int, e);
    let pol = tri_polar_term(p, a, b, off, n as int, e);
    let squares = plus2(ta, tb);
    let all = plus2(squares, pol);
    assert forall|i: int, j: int| 0 <= i <= j < n implies #[trigger] tab(i, j) == all(i, j) by {
        lemma_upper_index_bound(n as int, i, j);
        let c = p[upper_index(n as int, i, j)][e];
        assert(all_nibbles(p[upper_index(n as int, i, j)]));
        assert(p[upper_index(n as int, i, j)].len() == m);
        assert(c < 16);
        assert(a[off + i] < 16 && a[off + j] < 16 && b[off + i] < 16 && b[off + j] < 16);
        lemma_polar_term(c, a[off + i], b[off + i], a[off + j], b[off + j]);
    }
    lemma_upper_sum_ext(tab, all, n as int, n as int);
    lemma_upper_sum_add(squares, pol, all, n as int, n as int);
    lemma_upper_sum_add(ta, tb, squares, n as int, n as int);
}

/// The mixed form at a sum of two inputs: the form at each, plus the polar form.
pub proof fn lemma_rect_polar(
    p: Seq<Seq<u8>>,
    a: Seq<u8>,
    b: Seq<u8>,
    v: nat,
    o: nat,
    m: nat,
    e: int,
)
    requires
        batches_ok(p, v * o, m),
        0 <= e < m,
        v + o <= a.len(),
        a.len() == b.len(),
        all_nibbles(a),
        all_nibbles(b),
    ensures
        rect_sum(rect_term(p, seq_add(a, b), v as int, o as int, e), v as int, o as int)
            == gf16_add(
            gf16_add(
                rect_sum(rect_term(p, a, v as int, o as int, e), v as int, o as int),
                rect_sum(rect_term(p, b, v as int, o as int, e), v as int, o as int),
            ),
            rect_sum(rect_polar_term(p, a, b, v as int, o as int, e), v as int, o as int),
        ),
{
    let ta = rect_term(p, a, v as int, o as int, e);
    let tb = rect_term(p, b, v as int, o as int, e);
    let tab = rect_term(p, seq_add(a, b), v as int, o as int, e);
    let pol = rect_polar_term(p, a, b, v as int, o as int, e);
    let squares = plus2(ta, tb);
    let all = plus2(squares, pol);
    assert forall|i: int, c: int| 0 <= i < v && 0 <= c < o implies #[trigger] tab(i, c) == all(
        i,
        c,
    ) by {
        lemma_flat_index(i, c, v as int, o as int);
        let k = p[i * o + c][e];
        assert(all_nibbles(p[i * o + c]));
        assert(p[i * o + c].len() == m);
        assert(k < 16);
        assert(a[i] < 16 && a[v + c] < 16 && b[i] < 16 && b[v + c] < 16);
        lemma_polar_term(k, a[i], b[i], a[v + c], b[v + c]);
    }
    lemma_rect_sum_ext(tab, all, v as int, o as int);
    lemma_rect_sum_add(squares, pol, all, v as int, o as int);
    lemma_rect_sum_add(ta, tb, squares, v as int, o as int);
}

/// Whether `p1`, `p2` and `p3` are coefficient batches of nibbles for `v`
/// vinegar and `o` oil variables and `m` equations.
pub open spec fn map_ok(p1: Seq<Seq<u8>>, p2: Seq<Seq<u8>>, p3: Seq<Seq<u8>>, v: nat, o: nat, m: nat) -> bool {
    &&& batches_ok(p1, triangle(v), m)
    &&& batches_ok(p2, v * o, m)
    &&& batches_ok(p3, triangle(o), m)
}

/// The polar identity: the public map at a sum of two inputs is the map at
/// each of them plus their polar form.
pub proof fn lemma_polar_identity(
    p1: Seq<Seq<u8>>,
    p2: Seq<Seq<u8>>,
    p3: Seq<Seq<u8>>,
    a: Seq<u8>,
    b: Seq<u8>,
    v: nat,
    o: nat,
    m: nat,
    e: int,
)
    requires
        map_ok(p1, p2, p3, v, o, m),
        0 <= e < m,
        input_ok(a, v + o),
        input_ok(b, v + o),
    ensures
        quad_entry(p1, p2, p3, seq_add(a, b), v as int, o as int, e) == gf16_add(
            gf16_add(
                quad_entry(p1, p2, p3, a, v as int, o as int, e),
                quad_entry(p1, p2, p3, b, v as int, o as int, e),
            ),
            polar_entry(p1, p2, p3, a, b, v as int, o as int, e),
        ),
{
    lemma_tri_polar(p1, a, b, 0, v, m, e);
    lemma_rect_polar(p2, a, b, v, o, m, e);
    lemma_tri_polar(p3, a, b, v as int, o, m, e);
    let vi = v as int;
    let oi = o as int;
    lemma_add_regroup_nine(
        upper_sum(tri_term(p1, a, 0, vi, e), vi, vi),
        upper_sum(tri_term(p1, b, 0, vi, e), vi, vi),
        upper_sum(tri_polar_term(p1, a, b, 0, vi, e), vi, vi),
        rect_sum(rect_term(p2, a, vi, oi, e), vi, oi),
        rect_sum(rect_term(p2, b, vi, oi, e), vi, oi),
        rect_sum(rect_polar_term(p2, a, b, vi, oi, e), vi, oi),
        upper_sum(tri_term(p3, a, vi, oi, e), oi, oi),
        upper_sum(tri_term(p3, b, vi, oi, e), oi, oi),
        upper_sum(tri_polar_term(p3, a, b, vi, oi, e), oi, oi),
    );
}

/// The polar term is additive in its first input.
pub proof fn lemma_polar_term_add(c: u8, ai: u8, a2i: u8, aj: u8, a2j: u8, bi: u8, bj: u8)
    requires
        c < 16,
        ai < 16,
        a2i < 16,
        aj < 16,
        a2j < 16,
        bi < 16,
        bj < 16,
    ensures
        gf16_mul(
            c,
            gf16_add(gf16_mul(gf16_add(ai, a2i), bj), gf16_mul(bi, gf16_add(aj, a2j))),
        ) == gf16_add(
            gf16_mul(c, gf16_add(gf16_mul(ai, bj), gf16_mul(bi, aj))),
            gf16_mul(c, gf16_add(gf16_mul(a2i, bj), gf16_mul(bi, a2j))),
        ),
{
    lemma_mul_distributes(bj, ai, a2i);
    lemma_mul_distributes(bi, aj, a2j);
    let p = gf16_mul(ai, bj);
    let q = gf16_mul(a2i, bj);
    let r = gf16_mul(bi, aj);
    let t = gf16_mul(bi, a2j);
    lemma_mul_closed(ai, bj);
    lemma_mul_closed(a2i, bj);
    lemma_mul_closed(bi, aj);
    lemma_mul_closed(bi, a2j);
    assert(gf16_add(gf16_add(p, q), gf16_add(r, t)) == gf16_add(gf16_add(p, r), gf16_add(q, t)))
        by {
        assert((p ^ q) ^ (r ^ t) == (p ^ r) ^ (q ^ t)) by (bit_vector);
    }
    lemma_add_closed(p, r);
    lemma_add_closed(q, t);
    lemma_mul_distributes(c, gf16_add(p, r), gf16_add(q, t));
}

/// The polar form is additive in its first input.
pub proof fn lemma_polar_add(
    p1: Seq<Seq<u8>>,
    p2: Seq<Seq<u8>>,
    p3: Seq<Seq<u8>>,
    a: Seq<u8>,
    a2: Seq<u8>,
    b: Seq<u8>,
    v: nat,
    o: nat,
    m: nat,
    e: int,
)
    requires
        map_ok(p1, p2, p3, v, o, m),
        0 <= e < m,
        input_ok(a, v + o),
        input_ok(a2, v + o),
        input_ok(b, v + o),
    ensures
        polar_entry(p1, p2, p3, seq_add(a, a2), b, v as int, o as int, e) == gf16_add(
            polar_entry(p1, p2, p3, a, b, v as int, o as int, e),
            polar_entry(p1, p2, p3, a2, b, v as int, o as int, e),
        ),
{
    let vi = v as int;
    let oi = o as int;
    let s = seq_add(a, a2);
    // The vinegar triangle.
    let f1 = tri_polar_term(p1, a, b, 0, vi, e);
    let g1 = tri_polar_term(p1, a2, b, 0, vi, e);
    let h1 = tri_polar_term(p1, s, b, 0, vi, e);
    assert forall|i: int, j: int| 0 <= i <= j < v implies #[trigger] h1(i, j) == gf16_add(
        f1(i, j),
        g1(i, j),
    ) by {
        lemma_upper_index_bound(vi, i, j);
        assert(all_nibbles(p1[upper_index(vi, i, j)]));
        assert(p1[upper_index(vi, i, j)].len() == m);
        assert(a[i] < 16 && a[j] < 16 && a2[i] < 16 && a2[j] < 16 && b[i] < 16 && b[j] < 16);
        lemma_polar_term_add(p1[upper_index(vi, i, j)][e], a[i], a2[i], a[j], a2[j], b[i], b[j]);
    }
    lemma_upper_sum_add(f1, g1, h1, vi, vi);
    // The mixed rectangle.
    let f2 = rect_polar_term(p2, a, b, vi, oi, e);
    let g2 = rect_polar_term(p2, a2, b, vi, oi, e);
    let h2 = rect_polar_term(p2, s, b, vi, oi, e);
    assert forall|i: int, c: int| 0 <= i < v && 0 <= c < o implies #[trigger] h2(i, c) == gf16_add(
        f2(i, c),
        g2(i, c),
    ) by {
        lemma_flat_index(i, c, vi, oi);
        assert(all_nibbles(p2[i * o + c]));
        assert(p2[i * o + c].len() == m);
        assert(a[i] < 16 && a[v + c] < 16 && a2[i] < 16 && a2[v + c] < 16 && b[i] < 16 && b[v + c]
            < 16);
        lemma_polar_term_add(p2[i * o + c][e], a[i], a2[i], a[v + c], a2[v + c], b[i], b[v + c]);
    }
    lemma_rect_sum_add(f2, g2, h2, vi, oi);
    // The oil triangle.
    let f3 = tri_polar_term(p3, a, b, vi, oi, e);
    let g3 = tri_polar_term(p3, a2, b, vi, oi, e);
    let h3 = tri_polar_term(p3, s, b, vi, oi, e);
    assert forall|i: int, j: int| 0 <= i <= j < o implies #[trigger] h3(i, j) == gf16_add(
        f3(i, j),
        g3(i, j),
    ) by {
        lemma_upper_index_bound(oi, i, j);
        assert(all_nibbles(p3[upper_index(oi, i, j)]));
        assert(p3[upper_index(oi, i, j)].len() == m);
        assert(a[v + i] < 16 && a[v + j] < 16 && a2[v + i] < 16 && a2[v + j] < 16 && b[v + i] < 16
            && b[v + j] < 16);
        lemma_polar_term_add(
            p3[upper_index(oi, i, j)][e],
            a[v + i],
            a2[v + i],
            a[v + j],
            a2[v + j],
            b[v + i],
            b[v + j],
        );
    }
    lemma_upper_sum_add(f3, g3, h3, oi, oi);
    assert(gf16_add(
        gf16_add(
            gf16_add(upper_sum(f1, vi, vi), upper_sum(g1, vi, vi)),
            gf16_add(rect_sum(f2, vi, oi), rect_sum(g2, vi, oi)),
        ),
        gf16_add(upper_sum(f3, oi, oi), upper_sum(g3, oi, oi)),
    ) == gf16_add(
        gf16_add(gf16_add(upper_sum(f1, vi, vi), rect_sum(f2, vi, oi)), upper_sum(f3, oi, oi)),
        gf16_add(gf16_add(upper_sum(g1, vi, vi), rect_sum(g2, vi, oi)), upper_sum(g3, oi, oi)),
    )) by {
        crate::whip_laws::lemma_six_terms(
            upper_sum(f1, vi, vi),
            rect_sum(f2, vi, oi),
            upper_sum(f3, oi, oi),
            upper_sum(g1, vi, vi),
            rect_sum(g2, vi, oi),
            upper_sum(g3, oi, oi),
        );
    }
}

/// The polar form is symmetric.
pub proof fn lemma_polar_symmetric(
    p1: Seq<Seq<u8>>,
    p2: Seq<Seq<u8>>,
    p3: Seq<Seq<u8>>,
    a: Seq<u8>,
    b: Seq<u8>,
    v: nat,
    o: nat,
    e: int,
)
    ensures
        polar_entry(p1, p2, p3, a, b, v as int, o as int, e) == polar_entry(
            p1,
            p2,
            p3,
            b,
            a,
            v as int,
            o as int,
            e,
        ),
{
    let vi = v as int;
    let oi = o as int;
    let f1 = tri_polar_term(p1, a, b, 0, vi, e);
    let g1 = tri_polar_term(p1, b, a, 0, vi, e);
    assert forall|i: int, j: int| 0 <= i <= j < v implies #[trigger] f1(i, j) == g1(i, j) by {
        lemma_add_laws(gf16_mul(a[i], b[j]), gf16_mul(b[i], a[j]), 0);
    }
    lemma_upper_sum_ext(f1, g1, vi, vi);
    let f2 = rect_polar_term(p2, a, b, vi, oi, e);
    let g2 = rect_polar_term(p2, b, a, vi, oi, e);
    assert forall|i: int, c: int| 0 <= i < v && 0 <= c < o implies #[trigger] f2(i, c) == g2(
        i,
        c,
    ) by {
        lemma_add_laws(gf16_mul(a[i], b[v + c]), gf16_mul(b[i], a[v + c]), 0);
    }
    lemma_rect_sum_ext(f2, g2, vi, oi);
    let f3 = tri_polar_term(p3, a, b, vi, oi, e);
    let g3 = tri_polar_term(p3, b, a, vi, oi, e);
    assert forall|i: int, j: int| 0 <= i <= j < o implies #[trigger] f3(i, j) == g3(i, j) by {
        lemma_add_laws(gf16_mul(a[v + i], b[v + j]), gf16_mul(b[v + i], a[v + j]), 0);
    }
    lemma_upper_sum_ext(f3, g3, oi, oi);
}

} // verus!
