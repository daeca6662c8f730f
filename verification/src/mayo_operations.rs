//! The batched algebra of the scheme: the index map of triangular storage,
//! the public quadratic map and its whipped extension, the matrices that key
//! expansion derives, and the linear system that signing solves.

use crate::f16::{all_nibbles, F16, gf16_mul, lemma_values_nibbles, lemma_values_push, values};
use crate::linear_laws::{nibble_rows, solves};
use crate::linear_part_laws::ls_of;
use crate::matrix::{
    back_substitute, flatten, has_shape, lemma_flat_index, mat_transpose, mat_vec, Matrix,
    row_echelon, unflatten,
};
use crate::mvector::{add_scaled, mul_x_add, MVector};
use crate::params::{ParamSet, triangle};
use crate::system_laws::lemma_solution_signs;
use crate::trapdoor_laws::p3_of;
use crate::vector::{seq_add, seq_zero, Vector, vector_views};
use vstd::arithmetic::div_mod::lemma_fundamental_div_mod_converse;
use vstd::prelude::*;

verus! {

/// The position, in the row-major order of an upper triangle of size `n`, at
/// which row `r` starts.
pub open spec fn row_start(n: int, r: int) -> int
    decreases r,
{
    if r <= 0 {
        0
    } else {
        row_start(n, r - 1) + (n - (r - 1))
    }
}

/// The position of entry (`r`, `c`), `r <= c`, in the row-major order of an
/// upper triangle of size `n`. Every reader of triangular storage goes
/// through this map.
pub open spec fn upper_index(n: int, r: int, c: int) -> int {
    row_start(n, r) + (c - r)
}

/// Twice the start of row `r` is `r * (2n - r + 1)`.
pub proof fn lemma_row_start_closed(n: int, r: int)
    requires
        0 <= r <= n,
    ensures
        2 * row_start(n, r) == r * (2 * n - r + 1),
        row_start(n, r) >= 0,
    decreases r,
{
    if r > 0 {
        lemma_row_start_closed(n, r - 1);
        assert(r * (2 * n - r + 1) == (r - 1) * (2 * n - (r - 1) + 1) + 2 * (n - (r - 1)))
            by (nonlinear_arith);
    } else {
        assert(r * (2 * n - r + 1) == 0) by (nonlinear_arith)
            requires
                r == 0,
        ;
    }
}

/// An upper triangle of size `n` has `n * (n + 1) / 2` positions.
pub proof fn lemma_row_start_total(n: nat)
    ensures
        row_start(n as int, n as int) == triangle(n),
{
    lemma_row_start_closed(n as int, n as int);
    assert(n * (2 * n - n + 1) == n * (n + 1)) by (nonlinear_arith);
}

/// Rows start in increasing order.
pub proof fn lemma_row_start_monotone(n: int, r1: int, r2: int)
    requires
        0 <= r1 <= r2 <= n,
    ensures
        row_start(n, r1) <= row_start(n, r2),
    decreases r2 - r1,
{
    if r1 < r2 {
        lemma_row_start_monotone(n, r1, r2 - 1);
    }
}

/// Every position of the upper triangle lies inside its storage, and the
/// positions of a row follow one another.
pub proof fn lemma_upper_index_bound(n: int, r: int, c: int)
    requires
        0 <= r <= c < n,
    ensures
        0 <= upper_index(n, r, c) < row_start(n, n),
        upper_index(n, r, c) < triangle(n as nat),
{
    lemma_row_start_closed(n, r);
    lemma_row_start_monotone(n, r + 1, n);
    lemma_row_start_total(n as nat);
}

/// The position of entry (`r`, `c`), `r <= c < n`, of an upper triangle of size `n`.
pub fn upper_index_of(n: usize, r: usize, c: usize) -> (idx: usize)
    requires
        r <= c < n <= 1024,
    ensures
        idx == upper_index(n as int, r as int, c as int),
        idx < triangle(n as nat),
{
    proof {
        lemma_row_start_closed(n as int, r as int);
        lemma_upper_index_bound(n as int, r as int, c as int);
        assert(r * (2 * n - r + 1) <= 1024 * 2049) by (nonlinear_arith)
            requires
                0 <= r <= 1024,
                0 <= n <= 1024,
                r <= n,
        ;
    }
    r * (2 * n - r + 1) / 2 + (c - r)
}

/// The entries of each batch of a sequence.
pub open spec fn batch_views(b: Seq<MVector>) -> Seq<Seq<u8>> {
    Seq::new(b.len(), |i: int| b[i]@)
}

/// `acc` plus, for every `b` from `a` up to `b_hi`, the batch of `p` at
/// position (`a`, `b`) of the triangle times `x[off + a] * x[off + b]`.
pub open spec fn tri_row_fold(
    acc: Seq<u8>,
    p: Seq<Seq<u8>>,
    x: Seq<u8>,
    off: int,
    n: int,
    a: int,
    b_hi: int,
) -> Seq<u8>
    decreases b_hi - a,
{
    if b_hi <= a {
        acc
    } else {
        add_scaled(
            tri_row_fold(acc, p, x, off, n, a, b_hi - 1),
            p[upper_index(n, a, b_hi - 1)],
            gf16_mul(x[off + a], x[off + b_hi - 1]),
        )
    }
}

/// `acc` plus the quadratic form of the triangular batches `p` at the `n`
/// entries of `x` from `off` on, summed over the rows below `a_hi`.
pub open spec fn tri_fold(acc: Seq<u8>, p: Seq<Seq<u8>>, x: Seq<u8>, off: int, n: int, a_hi: int) -> Seq<
    u8,
>
    decreases a_hi,
{
    if a_hi <= 0 {
        acc
    } else {
        tri_row_fold(tri_fold(acc, p, x, off, n, a_hi - 1), p, x, off, n, a_hi - 1, n)
    }
}

/// `acc` plus, for every `b` below `b_hi`, the batch of `p` at position
/// (`a`, `b`) of a `v` by `o` matrix times `x[a] * x[v + b]`.
pub open spec fn rect_row_fold(
    acc: Seq<u8>,
    p: Seq<Seq<u8>>,
    x: Seq<u8>,
    v: int,
    o: int,
    a: int,
    b_hi: int,
) -> Seq<u8>
    decreases b_hi,
{
    if b_hi <= 0 {
        acc
    } else {
        add_scaled(
            rect_row_fold(acc, p, x, v, o, a, b_hi - 1),
            p[a * o + b_hi - 1],
            gf16_mul(x[a], x[v + b_hi - 1]),
        )
    }
}

/// `acc` plus the bilinear form of the dense batches `p` between the vinegar
/// and the oil part of `x`, summed over the rows below `a_hi`.
pub open spec fn rect_fold(acc: Seq<u8>, p: Seq<Seq<u8>>, x: Seq<u8>, v: int, o: int, a_hi: int) -> Seq<
    u8,
>
    decreases a_hi,
{
    if a_hi <= 0 {
        acc
    } else {
        rect_row_fold(rect_fold(acc, p, x, v, o, a_hi - 1), p, x, v, o, a_hi - 1, o)
    }
}

/// The public map at one input `x = (x_v, x_o)`, for all `m` equations at once:
/// `x_v^T P1 x_v + x_v^T P2 x_o + x_o^T P3 x_o`.
pub open spec fn quad_map(
    p1: Seq<Seq<u8>>,
    p2: Seq<Seq<u8>>,
    p3: Seq<Seq<u8>>,
    x: Seq<u8>,
    v: int,
    o: int,
    m: nat,
) -> Seq<u8> {
    tri_fold(rect_fold(tri_fold(seq_zero(m), p1, x, 0, v, v), p2, x, v, o, v), p3, x, v, o, o)
}

/// Whether `p1`, `p2` and `p3` are the coefficient batches of a public map of
/// the parameter set: one batch of `m` entries for every position.
pub open spec fn map_shaped(ps: ParamSet, p1: Seq<Seq<u8>>, p2: Seq<Seq<u8>>, p3: Seq<Seq<u8>>) -> bool {
    &&& has_shape(p1, ps.spec_p1_count(), ps.m as nat)
    &&& has_shape(p2, ps.spec_p2_count(), ps.m as nat)
    &&& has_shape(p3, ps.spec_p3_count(), ps.m as nat)
}

/// Adds to `acc` the quadratic form of the triangular batches `p` at the `n`
/// entries of `x` from `off` on.
pub fn accumulate_triangular(acc: &mut MVector, p: &[MVector], x: &Vector, off: usize, n: usize)
    requires
        n <= 1024,
        off + n <= x@.len(),
        has_shape(batch_views(p@), triangle(n as nat), old(acc)@.len()),
    ensures
        final(acc)@ == tri_fold(old(acc)@, batch_views(p@), x@, off as int, n as int, n as int),
        final(acc)@.len() == old(acc)@.len(),
{
    let ghost pv = batch_views(p@);
    let ghost m = acc@.len();
    let xlen = x.len();
    let mut pos: usize = 0;
    let mut a: usize = 0;
    while a < n
        invariant
            a <= n <= 1024,
            xlen == x@.len(),
            off + n <= x@.len(),
            pv == batch_views(p@),
            has_shape(pv, triangle(n as nat), m),
            acc@.len() == m,
            pos == row_start(n as int, a as int),
            acc@ == tri_fold(old(acc)@, pv, x@, off as int, n as int, a as int),
        decreases n - a,
    {
        let xa = x.at(off + a);
        let ghost row_acc = acc@;
        let mut b: usize = a;
        while b < n
            invariant
                a <= b <= n <= 1024,
                a < n,
                xlen == x@.len(),
                off + n <= x@.len(),
                pv == batch_views(p@),
                has_shape(pv, triangle(n as nat), m),
                acc@.len() == m,
                xa@ == x@[off + a],
                pos == upper_index(n as int, a as int, b as int),
                acc@ == tri_row_fold(row_acc, pv, x@, off as int, n as int, a as int, b as int),
            decreases n - b,
        {
            proof {
                lemma_upper_index_bound(n as int, a as int, b as int);
                assert(pv[pos as int].len() == m);
            }
            let scalar = xa * x.at(off + b);
            acc.accumulate(&p[pos], scalar);
            pos += 1;
            b += 1;
        }
        a += 1;
    }
}

/// Adds to `acc` the bilinear form of the dense `v` by `o` batches `p`
/// between the first `v` entries of `x` and the `o` entries after them.
pub fn accumulate_rectangular(acc: &mut MVector, p: &[MVector], x: &Vector, v: usize, o: usize)
    requires
        v <= 1024,
        o <= 1024,
        v + o <= x@.len(),
        has_shape(batch_views(p@), (v * o) as nat, old(acc)@.len()),
    ensures
        final(acc)@ == rect_fold(old(acc)@, batch_views(p@), x@, v as int, o as int, v as int),
        final(acc)@.len() == old(acc)@.len(),
{
    let ghost pv = batch_views(p@);
    let ghost m = acc@.len();
    let xlen = x.len();
    let mut pos: usize = 0;
    let mut a: usize = 0;
    while a < v
        invariant
            a <= v <= 1024,
            o <= 1024,
            xlen == x@.len(),
            v + o <= x@.len(),
            pv == batch_views(p@),
            has_shape(pv, (v * o) as nat, m),
            acc@.len() == m,
            pos == a * o,
            acc@ == rect_fold(old(acc)@, pv, x@, v as int, o as int, a as int),
        decreases v - a,
    {
        let xa = x.at(a);
        let ghost row_acc = acc@;
        let mut b: usize = 0;
        while b < o
            invariant
                b <= o <= 1024,
                a < v <= 1024,
                xlen == x@.len(),
                v + o <= x@.len(),
                pv == batch_views(p@),
                has_shape(pv, (v * o) as nat, m),
                acc@.len() == m,
                xa@ == x@[a as int],
                pos == a * o + b,
                acc@ == rect_row_fold(row_acc, pv, x@, v as int, o as int, a as int, b as int),
            decreases o - b,
        {
            proof {
                lemma_flat_index(a as int, b as int, v as int, o as int);
                assert(pv[pos as int].len() == m);
            }
            let scalar = xa * x.at(v + b);
            acc.accumulate(&p[pos], scalar);
            pos += 1;
            b += 1;
        }
        proof {
            lemma_flat_index(a as int, 0, v as int, o as int + 1);
            assert((a + 1) * o == a * o + o) by (nonlinear_arith);
        }
        a += 1;
    }
}

/// The public map at the input `x`, for all equations at once.
pub fn eval_polynomial(ps: &ParamSet, x: &Vector, p1: &[MVector], p2: &[MVector], p3: &[MVector]) -> (r:
    MVector)
    requires
        ps.wf(),
        x@.len() == ps.n,
        map_shaped(*ps, batch_views(p1@), batch_views(p2@), batch_views(p3@)),
    ensures
        r@ == quad_map(
            batch_views(p1@),
            batch_views(p2@),
            batch_views(p3@),
            x@,
            ps.spec_v() as int,
            ps.o as int,
            ps.m as nat,
        ),
        r@.len() == ps.m,
{
    let v = ps.v();
    let mut acc = MVector::zero(ps.m);
    accumulate_triangular(&mut acc, p1, x, 0, v);
    accumulate_rectangular(&mut acc, p2, x, v, ps.o);
    accumulate_triangular(&mut acc, p3, x, v, ps.o);
    acc
}

/// The public map at the input `x`; another name for [`eval_polynomial`].
pub fn evaluate_mayo_at_point(
    ps: &ParamSet,
    x: &Vector,
    p1: &[MVector],
    p2: &[MVector],
    p3: &[MVector],
) -> (r: MVector)
    requires
        ps.wf(),
        x@.len() == ps.n,
        map_shaped(*ps, batch_views(p1@), batch_views(p2@), batch_views(p3@)),
    ensures
        r@ == quad_map(
            batch_views(p1@),
            batch_views(p2@),
            batch_views(p3@),
            x@,
            ps.spec_v() as int,
            ps.o as int,
            ps.m as nat,
        ),
        r@.len() == ps.m,
{
    eval_polynomial(ps, x, p1, p2, p3)
}

/// The coefficient batches of a public map: `p1` on the upper triangle of
/// the vinegar variables, `p2` between vinegar and oil variables, `p3` on the
/// upper triangle of the oil variables.
pub struct PublicMap {
    pub p1: Seq<Seq<u8>>,
    pub p2: Seq<Seq<u8>>,
    pub p3: Seq<Seq<u8>>,
}

/// The public map `pm` at one input `x`.
pub open spec fn map_at(ps: ParamSet, pm: PublicMap, x: Seq<u8>) -> Seq<u8> {
    quad_map(pm.p1, pm.p2, pm.p3, x, ps.spec_v() as int, ps.o as int, ps.m as nat)
}

/// The term of the whipped map for the pair (`i`, `j`), `i <= j`: the map at
/// `s[i]` on the diagonal, and off it the differential
/// `P(s[i] + s[j]) - P(s[i]) - P(s[j])`.
pub open spec fn pair_term(ps: ParamSet, pm: PublicMap, s: Seq<Seq<u8>>, i: int, j: int) -> Seq<u8> {
    if i == j {
        map_at(ps, pm, s[i])
    } else {
        seq_add(
            seq_add(map_at(ps, pm, seq_add(s[i], s[j])), map_at(ps, pm, s[i])),
            map_at(ps, pm, s[j]),
        )
    }
}

/// Horner steps for the pairs (`i`, `j`) with `j` from `i` up to `j_hi`.
pub open spec fn whip_row(
    acc: Seq<u8>,
    ps: ParamSet,
    pm: PublicMap,
    s: Seq<Seq<u8>>,
    i: int,
    j_hi: int,
) -> Seq<u8>
    decreases j_hi - i,
{
    if j_hi <= i {
        acc
    } else {
        mul_x_add(
            whip_row(acc, ps, pm, s, i, j_hi - 1),
            ps.f_tail@,
            pair_term(ps, pm, s, i, j_hi - 1),
        )
    }
}

/// Horner steps for the rows `k - 1` down to `i_lo`, from a zero accumulator.
pub open spec fn whip_rows(ps: ParamSet, pm: PublicMap, s: Seq<Seq<u8>>, i_lo: int) -> Seq<u8>
    decreases ps.k - i_lo,
{
    if i_lo >= ps.k {
        seq_zero(ps.m as nat)
    } else {
        whip_row(whip_rows(ps, pm, s, i_lo + 1), ps, pm, s, i_lo, ps.k as int)
    }
}

/// The whipped map at the `k` inputs `s`: the `k (k + 1) / 2` pair terms
/// folded into one batch by Horner steps in `X`, row `k - 1` first and
/// within a row the diagonal first, so that the pair (`0`, `k - 1`) has
/// weight one.
pub open spec fn whipped_map(ps: ParamSet, pm: PublicMap, s: Seq<Seq<u8>>) -> Seq<u8> {
    whip_rows(ps, pm, s, 0)
}

/// The public map that three sequences of batches hold.
pub open spec fn map_of(p1: Seq<MVector>, p2: Seq<MVector>, p3: Seq<MVector>) -> PublicMap {
    PublicMap { p1: batch_views(p1), p2: batch_views(p2), p3: batch_views(p3) }
}

/// Whether `s` is `k` inputs of `n` entries each.
pub open spec fn inputs_shaped(ps: ParamSet, s: Seq<Seq<u8>>) -> bool {
    has_shape(s, ps.k as nat, ps.n as nat)
}

/// The whipped map at the `k` inputs `s`, for all equations at once.
pub fn eval_mayo_polynomial(
    ps: &ParamSet,
    s: &[Vector],
    p1: &[MVector],
    p2: &[MVector],
    p3: &[MVector],
) -> (r: MVector)
    requires
        ps.wf(),
        inputs_shaped(*ps, vector_views(s@)),
        map_shaped(*ps, batch_views(p1@), batch_views(p2@), batch_views(p3@)),
    ensures
        r@ == whipped_map(*ps, map_of(p1@, p2@, p3@), vector_views(s@)),
        r@.len() == ps.m,
{
    let ghost pm = map_of(p1@, p2@, p3@);
    let ghost sv = vector_views(s@);
    let k = ps.k;
    let mut singles: Vec<MVector> = Vec::with_capacity(k);
    let mut t: usize = 0;
    while t < k
        invariant
            t <= k,
            k == ps.k,
            ps.wf(),
            sv == vector_views(s@),
            inputs_shaped(*ps, sv),
            pm == map_of(p1@, p2@, p3@),
            map_shaped(*ps, batch_views(p1@), batch_views(p2@), batch_views(p3@)),
            singles@.len() == t,
            forall|u: int| 0 <= u < t ==> (#[trigger] singles@[u])@ == map_at(*ps, pm, sv[u]),
            forall|u: int| 0 <= u < t ==> (#[trigger] singles@[u])@.len() == ps.m,
        decreases k - t,
    {
        assert(sv[t as int].len() == ps.n);
        let e = eval_polynomial(ps, &s[t], p1, p2, p3);
        singles.push(e);
        t += 1;
    }
    let mut acc = MVector::zero(ps.m);
    let mut i: usize = k;
    while i > 0
        invariant
            i <= k,
            k == ps.k,
            ps.wf(),
            sv == vector_views(s@),
            inputs_shaped(*ps, sv),
            pm == map_of(p1@, p2@, p3@),
            map_shaped(*ps, batch_views(p1@), batch_views(p2@), batch_views(p3@)),
            singles@.len() == k,
            forall|u: int| 0 <= u < k ==> (#[trigger] singles@[u])@ == map_at(*ps, pm, sv[u]),
            forall|u: int| 0 <= u < k ==> (#[trigger] singles@[u])@.len() == ps.m,
            acc@.len() == ps.m,
            acc@ == whip_rows(*ps, pm, sv, i as int),
        decreases i,
    {
        let row = i - 1;
        let ghost row_acc = acc@;
        let mut j: usize = row;
        while j < k
            invariant
                row <= j <= k,
                row < k,
                k == ps.k,
                ps.wf(),
                sv == vector_views(s@),
                inputs_shaped(*ps, sv),
                pm == map_of(p1@, p2@, p3@),
                map_shaped(*ps, batch_views(p1@), batch_views(p2@), batch_views(p3@)),
                singles@.len() == k,
                forall|u: int| 0 <= u < k ==> (#[trigger] singles@[u])@ == map_at(*ps, pm, sv[u]),
                forall|u: int| 0 <= u < k ==> (#[trigger] singles@[u])@.len() == ps.m,
                acc@.len() == ps.m,
                acc@ == whip_row(row_acc, *ps, pm, sv, row as int, j as int),
            decreases k - j,
        {
            assert(sv[row as int].len() == ps.n);
            assert(sv[j as int].len() == ps.n);
            let term = if row == j {
                singles[row].duplicate()
            } else {
                let both = s[row].plus(&s[j]);
                let e = eval_polynomial(ps, &both, p1, p2, p3);
                e.sum_with(&singles[row]).sum_with(&singles[j])
            };
            assert(term@ == pair_term(*ps, pm, sv, row as int, j as int));
            acc = acc.horner_step(&ps.f_tail, &term);
            j += 1;
        }
        i = row;
    }
    acc
}

/// The entry at row `r` and column `c` of the flattened batches is where
/// row-major order puts it, and the flattened batches have `count * m` entries.
pub proof fn lemma_flatten_index(b: Seq<Seq<u8>>, count: nat, m: nat, r: int, c: int)
    requires
        has_shape(b, count, m),
        0 <= r < count,
        0 <= c < m,
    ensures
        flatten(b).len() == count * m,
        0 <= r * m + c < count * m,
        flatten(b)[r * m + c] == b[r][c],
    decreases count,
{
    lemma_flatten_len(b, count, m);
    lemma_flat_index(r, c, count as int, m as int);
    let init = b.drop_last();
    lemma_flatten_len(init, (count - 1) as nat, m);
    if r < count - 1 {
        lemma_flatten_index(init, (count - 1) as nat, m, r, c);
        lemma_flat_index(r, c, count - 1, m as int);
        assert(init[r] == b[r]);
    } else {
        assert(b.last() == b[r]);
        assert((count - 1) * m + c - (count - 1) * m == c);
    }
}

/// The flattened batches have `count * m` entries.
pub proof fn lemma_flatten_len(b: Seq<Seq<u8>>, count: nat, m: nat)
    requires
        has_shape(b, count, m),
    ensures
        flatten(b).len() == count * m,
    decreases count,
{
    if count > 0 {
        let init = b.drop_last();
        lemma_flatten_len(init, (count - 1) as nat, m);
        assert(b.last().len() == m);
        assert((count - 1) * m + m == count * m) by (nonlinear_arith);
    } else {
        assert(count * m == 0) by (nonlinear_arith)
            requires
                count == 0,
        ;
    }
}

/// Flattening batches and cutting the result up again gives the batches back.
pub proof fn lemma_flatten_unflatten(b: Seq<Seq<u8>>, count: nat, m: nat)
    requires
        has_shape(b, count, m),
    ensures
        flatten(b).len() == count * m,
        unflatten(flatten(b), count, m) == b,
{
    lemma_flatten_len(b, count, m);
    let u = unflatten(flatten(b), count, m);
    assert forall|r: int| 0 <= r < count implies #[trigger] u[r] == b[r] by {
        assert(b[r].len() == m);
        assert forall|c: int| 0 <= c < m implies u[r][c] == b[r][c] by {
            lemma_flatten_index(b, count, m, r, c);
        }
        assert(u[r] =~= b[r]);
    }
    assert(u =~= b);
}

/// A position of a dense matrix with `o` columns gives its row and column back.
pub proof fn lemma_position(a: int, c: int, o: int)
    requires
        0 <= a,
        0 <= c < o,
    ensures
        (a * o + c) / o == a,
        (a * o + c) % o == c,
{
    lemma_fundamental_div_mod_converse(a * o + c, o, a, c);
}

/// The position of entry (`a`, `c`) of a dense matrix of `rows` by `cols`.
pub fn flat_index_of(a: usize, c: usize, rows: usize, cols: usize) -> (idx: usize)
    requires
        a < rows <= 1024,
        c < cols <= 1024,
    ensures
        idx == a * cols + c,
        idx < rows * cols,
{
    proof {
        lemma_flat_index(a as int, c as int, rows as int, cols as int);
        assert(rows * cols <= 1024 * 1024) by (nonlinear_arith)
            requires
                rows <= 1024,
                cols <= 1024,
        ;
        assert(0 <= a * cols) by (nonlinear_arith)
            requires
                0 <= a,
                0 <= cols,
        ;
    }
    a * cols + c
}

/// The batches that a flat sequence of `count * m` entries holds, `m` to a batch.
pub fn batches_from_flat(flat: &[F16], count: usize, m: usize) -> (r: Vec<MVector>)
    requires
        flat@.len() == count * m,
    ensures
        batch_views(r@) == unflatten(values(flat@), count as nat, m as nat),
        has_shape(batch_views(r@), count as nat, m as nat),
{
    let total = flat.len();
    let mut out: Vec<MVector> = Vec::with_capacity(count);
    let mut k: usize = 0;
    let mut r: usize = 0;
    while r < count
        invariant
            r <= count,
            total == flat@.len(),
            total == count * m,
            k == r * m,
            out@.len() == r,
            forall|i: int|
                0 <= i < r ==> (#[trigger] out@[i])@ == unflatten(
                    values(flat@),
                    count as nat,
                    m as nat,
                )[i],
        decreases count - r,
    {
        let mut row: Vec<F16> = Vec::with_capacity(m);
        let mut c: usize = 0;
        while c < m
            invariant
                c <= m,
                r < count,
                total == flat@.len(),
                total == count * m,
                k == r * m + c,
                row@.len() == c,
                forall|j: int| 0 <= j < c ==> (#[trigger] row@[j])@ == values(flat@)[r * m + j],
            decreases m - c,
        {
            proof {
                lemma_flat_index(r as int, c as int, count as int, m as int);
            }
            row.push(flat[k]);
            k += 1;
            c += 1;
        }
        proof {
            assert((r + 1) * m == r * m + m) by (nonlinear_arith);
        }
        let batch = MVector { elements: row };
        assert(batch@ =~= unflatten(values(flat@), count as nat, m as nat)[r as int]);
        out.push(batch);
        r += 1;
    }
    assert(batch_views(out@) =~= unflatten(values(flat@), count as nat, m as nat));
    out
}

/// The entries of the batches, one batch after another.
pub fn flat_from_batches(b: &[MVector]) -> (r: Vec<F16>)
    ensures
        values(r@) == flatten(batch_views(b@)),
{
    let ghost bv = batch_views(b@);
    let mut flat: Vec<F16> = Vec::new();
    let mut i: usize = 0;
    assert(bv.take(0) =~= Seq::<Seq<u8>>::empty());
    while i < b.len()
        invariant
            i <= b@.len(),
            bv == batch_views(b@),
            values(flat@) == flatten(bv.take(i as int)),
        decreases b@.len() - i,
    {
        let ghost before = values(flat@);
        let n = b[i].len();
        let mut j: usize = 0;
        while j < n
            invariant
                i < b@.len(),
                j <= n,
                n == b@[i as int]@.len(),
                bv == batch_views(b@),
                values(flat@) == before + bv[i as int].take(j as int),
            decreases n - j,
        {
            let e = b[i].at(j);
            proof {
                lemma_values_push(flat@, e);
                assert(before + bv[i as int].take(j as int + 1) =~= (before + bv[i as int].take(
                    j as int,
                )).push(e@));
            }
            flat.push(e);
            j += 1;
        }
        proof {
            let next = bv.take(i as int + 1);
            assert(next.drop_last() =~= bv.take(i as int));
            assert(next.last() == bv[i as int]);
            assert(bv[i as int].take(n as int) =~= bv[i as int]);
        }
        i += 1;
    }
    assert(bv.take(b@.len() as int) =~= bv);
    flat
}

/// The sum, over `b` from `lo` up to `hi`, of the batch of `p1` at the
/// triangle position of `a` and `b` times `O[b][c]`.
pub open spec fn p1o_entry(
    p1: Seq<Seq<u8>>,
    om: Seq<Seq<u8>>,
    v: int,
    a: int,
    c: int,
    lo: int,
    hi: int,
    m: nat,
) -> Seq<u8>
    decreases hi - lo,
{
    if hi <= lo {
        seq_zero(m)
    } else {
        add_scaled(
            p1o_entry(p1, om, v, a, c, lo, hi - 1, m),
            p1[if a <= hi - 1 {
                upper_index(v, a, hi - 1)
            } else {
                upper_index(v, hi - 1, a)
            }],
            om[hi - 1][c],
        )
    }
}

/// The `v` by `o` batches of `P1 * O`, where `P1` is upper triangular;
/// with `transposed`, of `P1^T * O`.
pub open spec fn p1_times_o(ps: ParamSet, p1: Seq<Seq<u8>>, om: Seq<Seq<u8>>, transposed: bool) -> Seq<
    Seq<u8>,
> {
    Seq::new(
        ps.spec_p2_count(),
        |t: int|
            p1o_entry(
                p1,
                om,
                ps.spec_v() as int,
                t / (ps.o as int),
                t % (ps.o as int),
                if transposed {
                    0
                } else {
                    t / (ps.o as int)
                },
                if transposed {
                    t / (ps.o as int) + 1
                } else {
                    ps.spec_v() as int
                },
                ps.m as nat,
            ),
    )
}

/// The entrywise sum of two sequences of batches of one shape.
pub open spec fn batches_add(a: Seq<Seq<u8>>, b: Seq<Seq<u8>>) -> Seq<Seq<u8>> {
    Seq::new(a.len(), |i: int| seq_add(a[i], b[i]))
}

/// The sum, over `a` below `a_hi`, of the batch of `l` at (`a`, `c`) times `O[a][r]`.
pub open spec fn otl_entry(
    l: Seq<Seq<u8>>,
    om: Seq<Seq<u8>>,
    o: int,
    r: int,
    c: int,
    a_hi: int,
    m: nat,
) -> Seq<u8>
    decreases a_hi,
{
    if a_hi <= 0 {
        seq_zero(m)
    } else {
        add_scaled(otl_entry(l, om, o, r, c, a_hi - 1, m), l[(a_hi - 1) * o + c], om[a_hi - 1][r])
    }
}

/// The `o` by `o` batches of `O^T * L`.
pub open spec fn o_transpose_times(ps: ParamSet, om: Seq<Seq<u8>>, l: Seq<Seq<u8>>) -> Seq<Seq<u8>> {
    Seq::new(
        (ps.o * ps.o) as nat,
        |t: int|
            otl_entry(
                l,
                om,
                ps.o as int,
                t / (ps.o as int),
                t % (ps.o as int),
                ps.spec_v() as int,
                ps.m as nat,
            ),
    )
}

/// The batches of row `r` of the upper fold of an `o` by `o` sequence, for
/// the columns from `r` up to `c_hi`.
pub open spec fn upper_row(full: Seq<Seq<u8>>, o: int, r: int, c_hi: int) -> Seq<Seq<u8>>
    decreases c_hi - r,
{
    if c_hi <= r {
        Seq::empty()
    } else {
        upper_row(full, o, r, c_hi - 1).push(
            if r == c_hi - 1 {
                full[r * o + r]
            } else {
                seq_add(full[r * o + (c_hi - 1)], full[(c_hi - 1) * o + r])
            },
        )
    }
}

/// The upper fold of an `o` by `o` sequence of batches, rows below `r_hi`:
/// the diagonal stays and each position above it takes its mirror image in.
pub open spec fn upper_rows(full: Seq<Seq<u8>>, o: int, r_hi: int) -> Seq<Seq<u8>>
    decreases r_hi,
{
    if r_hi <= 0 {
        Seq::empty()
    } else {
        upper_rows(full, o, r_hi - 1) + upper_row(full, o, r_hi - 1, o)
    }
}

/// The oil matrix has the shape that the parameter set gives it.
pub open spec fn oil_shaped(ps: ParamSet, om: &Matrix) -> bool {
    &&& om.wf()
    &&& om.spec_rows() == ps.spec_v()
    &&& om.spec_cols() == ps.o
}

/// The batches of `P1 * O` or, with `transposed`, of `P1^T * O`.
pub fn p1_times_o_operator(ps: &ParamSet, p1: &[MVector], matrix_o: &Matrix, transposed: bool) -> (r:
    Vec<MVector>)
    requires
        ps.wf(),
        has_shape(batch_views(p1@), ps.spec_p1_count(), ps.m as nat),
        oil_shaped(*ps, matrix_o),
    ensures
        batch_views(r@) == p1_times_o(*ps, batch_views(p1@), matrix_o@, transposed),
        has_shape(batch_views(r@), ps.spec_p2_count(), ps.m as nat),
{
    let v = ps.v();
    let o = ps.o;
    let ghost pv = batch_views(p1@);
    let ghost om = matrix_o@;
    let ghost target = p1_times_o(*ps, pv, om, transposed);
    let mut out: Vec<MVector> = Vec::new();
    let mut a: usize = 0;
    while a < v
        invariant
            a <= v,
            v == ps.spec_v(),
            o == ps.o,
            ps.wf(),
            pv == batch_views(p1@),
            om == matrix_o@,
            target == p1_times_o(*ps, pv, om, transposed),
            has_shape(pv, ps.spec_p1_count(), ps.m as nat),
            oil_shaped(*ps, matrix_o),
            out@.len() == a * o,
            forall|t: int| 0 <= t < out@.len() ==> (#[trigger] out@[t])@ == target[t],
            forall|t: int| 0 <= t < out@.len() ==> (#[trigger] out@[t])@.len() == ps.m,
        decreases v - a,
    {
        let mut c: usize = 0;
        while c < o
            invariant
                c <= o,
                a < v,
                v == ps.spec_v(),
                o == ps.o,
                ps.wf(),
                pv == batch_views(p1@),
                om == matrix_o@,
                target == p1_times_o(*ps, pv, om, transposed),
                has_shape(pv, ps.spec_p1_count(), ps.m as nat),
                oil_shaped(*ps, matrix_o),
                out@.len() == a * o + c,
                forall|t: int| 0 <= t < out@.len() ==> (#[trigger] out@[t])@ == target[t],
                forall|t: int| 0 <= t < out@.len() ==> (#[trigger] out@[t])@.len() == ps.m,
            decreases o - c,
        {
            let lo: usize = if transposed {
                0
            } else {
                a
            };
            let hi: usize = if transposed {
                a + 1
            } else {
                v
            };
            let mut acc = MVector::zero(ps.m);
            let mut b: usize = lo;
            while b < hi
                invariant
                    lo <= b <= hi <= v,
                    c < o,
                    a < v,
                    v == ps.spec_v(),
                    o == ps.o,
                    ps.wf(),
                    pv == batch_views(p1@),
                    om == matrix_o@,
                    has_shape(pv, ps.spec_p1_count(), ps.m as nat),
                    oil_shaped(*ps, matrix_o),
                    acc@.len() == ps.m,
                    acc@ == p1o_entry(pv, om, v as int, a as int, c as int, lo as int, b as int, ps.m as nat),
                decreases hi - b,
            {
                let pos = if a <= b {
                    upper_index_of(v, a, b)
                } else {
                    upper_index_of(v, b, a)
                };
                assert(pv[pos as int].len() == ps.m);
                acc.accumulate(&p1[pos], matrix_o.entry(b, c));
                b += 1;
            }
            proof {
                lemma_position(a as int, c as int, o as int);
                lemma_flat_index(a as int, c as int, v as int, o as int);
            }
            out.push(acc);
            c += 1;
        }
        proof {
            assert((a + 1) * o == a * o + o) by (nonlinear_arith);
        }
        a += 1;
    }
    assert(batch_views(out@) =~= target);
    out
}

/// The entrywise sum of two sequences of batches of one shape.
pub fn add_mvector_sequences_operator(seq1: &[MVector], seq2: &[MVector]) -> (r: Vec<MVector>)
    requires
        seq1@.len() == seq2@.len(),
        forall|i: int|
            0 <= i < seq1@.len() ==> (#[trigger] batch_views(seq1@)[i]).len() == batch_views(
                seq2@,
            )[i].len(),
    ensures
        batch_views(r@) == batches_add(batch_views(seq1@), batch_views(seq2@)),
        r@.len() == seq1@.len(),
        forall|i: int|
            0 <= i < r@.len() ==> (#[trigger] batch_views(r@)[i]).len() == batch_views(
                seq1@,
            )[i].len(),
{
    let mut out: Vec<MVector> = Vec::with_capacity(seq1.len());
    let mut i: usize = 0;
    while i < seq1.len()
        invariant
            i <= seq1@.len(),
            seq1@.len() == seq2@.len(),
            forall|i: int|
                0 <= i < seq1@.len() ==> (#[trigger] batch_views(seq1@)[i]).len() == batch_views(
                    seq2@,
                )[i].len(),
            out@.len() == i,
            forall|t: int| 0 <= t < i ==> (#[trigger] out@[t])@ == seq_add(seq1@[t]@, seq2@[t]@),
        decreases seq1@.len() - i,
    {
        assert(batch_views(seq1@)[i as int].len() == batch_views(seq2@)[i as int].len());
        out.push(seq1[i].sum_with(&seq2[i]));
        i += 1;
    }
    assert(batch_views(out@) =~= batches_add(batch_views(seq1@), batch_views(seq2@)));
    out
}

/// The `o` by `o` batches of `O^T * L`, for `v` by `o` batches `L`.
pub fn o_transpose_times_mvector_sequence_operator(ps: &ParamSet, matrix_o: &Matrix, l: &[MVector]) -> (r:
    Vec<MVector>)
    requires
        ps.wf(),
        oil_shaped(*ps, matrix_o),
        has_shape(batch_views(l@), ps.spec_p2_count(), ps.m as nat),
    ensures
        batch_views(r@) == o_transpose_times(*ps, matrix_o@, batch_views(l@)),
        has_shape(batch_views(r@), (ps.o * ps.o) as nat, ps.m as nat),
{
    let v = ps.v();
    let o = ps.o;
    let ghost lv = batch_views(l@);
    let ghost om = matrix_o@;
    let ghost target = o_transpose_times(*ps, om, lv);
    let mut out: Vec<MVector> = Vec::new();
    let mut r: usize = 0;
    while r < o
        invariant
            r <= o,
            v == ps.spec_v(),
            o == ps.o,
            ps.wf(),
            lv == batch_views(l@),
            om == matrix_o@,
            target == o_transpose_times(*ps, om, lv),
            has_shape(lv, ps.spec_p2_count(), ps.m as nat),
            oil_shaped(*ps, matrix_o),
            out@.len() == r * o,
            forall|t: int| 0 <= t < out@.len() ==> (#[trigger] out@[t])@ == target[t],
            forall|t: int| 0 <= t < out@.len() ==> (#[trigger] out@[t])@.len() == ps.m,
        decreases o - r,
    {
        let mut c: usize = 0;
        while c < o
            invariant
                c <= o,
                r < o,
                v == ps.spec_v(),
                o == ps.o,
                ps.wf(),
                lv == batch_views(l@),
                om == matrix_o@,
                target == o_transpose_times(*ps, om, lv),
                has_shape(lv, ps.spec_p2_count(), ps.m as nat),
                oil_shaped(*ps, matrix_o),
                out@.len() == r * o + c,
                forall|t: int| 0 <= t < out@.len() ==> (#[trigger] out@[t])@ == target[t],
                forall|t: int| 0 <= t < out@.len() ==> (#[trigger] out@[t])@.len() == ps.m,
            decreases o - c,
        {
            let mut acc = MVector::zero(ps.m);
            let mut a: usize = 0;
            while a < v
                invariant
                    a <= v,
                    c < o,
                    r < o,
                    v == ps.spec_v(),
                    o == ps.o,
                    ps.wf(),
                    lv == batch_views(l@),
                    om == matrix_o@,
                    has_shape(lv, ps.spec_p2_count(), ps.m as nat),
                    oil_shaped(*ps, matrix_o),
                    acc@.len() == ps.m,
                    acc@ == otl_entry(lv, om, o as int, r as int, c as int, a as int, ps.m as nat),
                decreases v - a,
            {
                let pos = flat_index_of(a, c, v, o);
                assert(lv[pos as int].len() == ps.m);
                acc.accumulate(&l[pos], matrix_o.entry(a, r));
                a += 1;
            }
            proof {
                lemma_position(r as int, c as int, o as int);
                lemma_flat_index(r as int, c as int, o as int, o as int);
            }
            out.push(acc);
            c += 1;
        }
        proof {
            assert((r + 1) * o == r * o + o) by (nonlinear_arith);
        }
        r += 1;
    }
    assert(batch_views(out@) =~= target);
    out
}

/// The upper fold has one batch for every position of the triangle.
pub proof fn lemma_upper_rows_len(full: Seq<Seq<u8>>, o: int, r_hi: int)
    requires
        0 <= r_hi <= o,
    ensures
        upper_rows(full, o, r_hi).len() == row_start(o, r_hi),
    decreases r_hi,
{
    if r_hi > 0 {
        lemma_upper_rows_len(full, o, r_hi - 1);
        lemma_upper_row_len(full, o, r_hi - 1, o);
    }
}

/// A row of the upper fold has one batch for every column it covers.
pub proof fn lemma_upper_row_len(full: Seq<Seq<u8>>, o: int, r: int, c_hi: int)
    requires
        r <= c_hi,
    ensures
        upper_row(full, o, r, c_hi).len() == c_hi - r,
    decreases c_hi - r,
{
    if c_hi > r {
        lemma_upper_row_len(full, o, r, c_hi - 1);
    }
}

/// The upper fold of `o` by `o` batches: `Upper(M)`, one batch for every
/// position on or above the diagonal.
pub fn upper_of_batches(ps: &ParamSet, full: &[MVector]) -> (r: Vec<MVector>)
    requires
        ps.wf(),
        has_shape(batch_views(full@), (ps.o * ps.o) as nat, ps.m as nat),
    ensures
        batch_views(r@) == upper_rows(batch_views(full@), ps.o as int, ps.o as int),
        has_shape(batch_views(r@), ps.spec_p3_count(), ps.m as nat),
{
    let o = ps.o;
    let ghost fv = batch_views(full@);
    let mut out: Vec<MVector> = Vec::new();
    let mut r: usize = 0;
    while r < o
        invariant
            r <= o,
            o == ps.o,
            ps.wf(),
            fv == batch_views(full@),
            has_shape(fv, (ps.o * ps.o) as nat, ps.m as nat),
            batch_views(out@) == upper_rows(fv, o as int, r as int),
            forall|t: int| 0 <= t < out@.len() ==> (#[trigger] out@[t])@.len() == ps.m,
        decreases o - r,
    {
        let ghost before = batch_views(out@);
        let mut c: usize = r;
        while c < o
            invariant
                r <= c <= o,
                r < o,
                o == ps.o,
                ps.wf(),
                fv == batch_views(full@),
                has_shape(fv, (ps.o * ps.o) as nat, ps.m as nat),
                batch_views(out@) == before + upper_row(fv, o as int, r as int, c as int),
                forall|t: int| 0 <= t < out@.len() ==> (#[trigger] out@[t])@.len() == ps.m,
            decreases o - c,
        {
            let above = flat_index_of(r, c, o, o);
            let below = flat_index_of(c, r, o, o);
            assert(fv[above as int].len() == ps.m);
            assert(fv[below as int].len() == ps.m);
            let batch = if r == c {
                full[above].duplicate()
            } else {
                full[above].sum_with(&full[below])
            };
            proof {
                let ghost prev = batch_views(out@);
                assert(batch_views(out@.push(batch)) =~= prev.push(batch@));
                assert(before + upper_row(fv, o as int, r as int, c as int + 1) =~= (before
                    + upper_row(fv, o as int, r as int, c as int)).push(batch@));
            }
            out.push(batch);
            c += 1;
        }
        r += 1;
    }
    proof {
        lemma_upper_rows_len(fv, o as int, o as int);
        lemma_row_start_total(o as nat);
    }
    out
}

/// The sum, over `a` below `a_hi`, of the batch of `l` at (`a`, `c`) times `vin[a]`.
pub open spec fn vl_entry(l: Seq<Seq<u8>>, vin: Seq<u8>, o: int, c: int, a_hi: int, m: nat) -> Seq<u8>
    decreases a_hi,
{
    if a_hi <= 0 {
        seq_zero(m)
    } else {
        add_scaled(vl_entry(l, vin, o, c, a_hi - 1, m), l[(a_hi - 1) * o + c], vin[a_hi - 1])
    }
}

/// The `o` batches of `vin^T * L`, for a vinegar vector `vin` and `v` by `o` batches `L`.
pub open spec fn vinegar_times(ps: ParamSet, vin: Seq<u8>, l: Seq<Seq<u8>>) -> Seq<Seq<u8>> {
    Seq::new(
        ps.o as nat,
        |c: int| vl_entry(l, vin, ps.o as int, c, ps.spec_v() as int, ps.m as nat),
    )
}

/// What the pair (`i`, `j`) adds to the system column of oil variable `c`
/// of input `block`: the linear part of the pair term in that variable.
pub open spec fn system_addend(
    ms: Seq<Seq<Seq<u8>>>,
    i: int,
    j: int,
    block: int,
    c: int,
    m: nat,
) -> Seq<u8> {
    if block == i {
        ms[j][c]
    } else if block == j {
        ms[i][c]
    } else {
        seq_zero(m)
    }
}

/// Horner steps of a system column for the pairs (`i`, `j`) with `j` from `i` up to `j_hi`.
pub open spec fn column_row(
    acc: Seq<u8>,
    ps: ParamSet,
    ms: Seq<Seq<Seq<u8>>>,
    block: int,
    c: int,
    i: int,
    j_hi: int,
) -> Seq<u8>
    decreases j_hi - i,
{
    if j_hi <= i {
        acc
    } else {
        mul_x_add(
            column_row(acc, ps, ms, block, c, i, j_hi - 1),
            ps.f_tail@,
            system_addend(ms, i, j_hi - 1, block, c, ps.m as nat),
        )
    }
}

/// Horner steps of a system column for the rows `k - 1` down to `i_lo`.
pub open spec fn column_rows(ps: ParamSet, ms: Seq<Seq<Seq<u8>>>, block: int, c: int, i_lo: int) -> Seq<
    u8,
>
    decreases ps.k - i_lo,
{
    if i_lo >= ps.k {
        seq_zero(ps.m as nat)
    } else {
        column_row(column_rows(ps, ms, block, c, i_lo + 1), ps, ms, block, c, i_lo, ps.k as int)
    }
}

/// The columns of the signing system, one for every oil variable of every
/// input, each the whipped fold of what the pairs add to it.
pub open spec fn system_columns(ps: ParamSet, ms: Seq<Seq<Seq<u8>>>) -> Seq<Seq<u8>> {
    Seq::new(
        (ps.k * ps.o) as nat,
        |col: int| column_rows(ps, ms, col / (ps.o as int), col % (ps.o as int), 0),
    )
}

/// The matrix of the signing system, `m` rows by `k * o` columns.
pub open spec fn system_matrix(ps: ParamSet, ms: Seq<Seq<Seq<u8>>>) -> Seq<Seq<u8>> {
    mat_transpose(system_columns(ps, ms), ps.m as nat)
}

/// A solution of `a x = y`: the system is reduced and back-substituted from
/// the assignment `free`, which the variables without a pivot keep.
pub open spec fn sample_solution(a: Seq<Seq<u8>>, y: Seq<u8>, free: Seq<u8>, ncols: int) -> Option<
    Seq<u8>,
> {
    let reduced = row_echelon(a, y, ncols);
    back_substitute(reduced.0, reduced.1, free, a.len() as int)
}

/// The part of `x` that belongs to input `i`.
pub open spec fn oil_part(ps: ParamSet, x: Seq<u8>, i: int) -> Seq<u8> {
    x.subrange(i * ps.o, i * ps.o + ps.o)
}

/// The `k` inputs of a signature: input `i` is the vinegar vector plus `O`
/// times the oil part, followed by the oil part.
pub open spec fn signature_inputs(ps: ParamSet, vins: Seq<Seq<u8>>, om: Seq<Seq<u8>>, x: Seq<u8>) -> Seq<
    Seq<u8>,
> {
    Seq::new(
        ps.k as nat,
        |i: int| seq_add(vins[i], mat_vec(om, oil_part(ps, x, i))) + oil_part(ps, x, i),
    )
}

/// The `k` vinegar vectors, each followed by `o` zeros.
pub open spec fn vinegar_inputs(ps: ParamSet, vins: Seq<Seq<u8>>) -> Seq<Seq<u8>> {
    Seq::new(ps.k as nat, |i: int| vins[i] + seq_zero(ps.o as nat))
}

/// The linear parts of the `k` vinegar vectors.
pub open spec fn linear_parts(ps: ParamSet, vins: Seq<Seq<u8>>, l: Seq<Seq<u8>>) -> Seq<Seq<Seq<u8>>> {
    Seq::new(ps.k as nat, |i: int| vinegar_times(ps, vins[i], l))
}

/// The right-hand side of the signing system: the target minus the whipped
/// map at the vinegar vectors alone.
pub open spec fn system_rhs(ps: ParamSet, pm: PublicMap, t: Seq<u8>, vins: Seq<Seq<u8>>) -> Seq<u8> {
    seq_add(t, whipped_map(ps, pm, vinegar_inputs(ps, vins)))
}

/// One signing attempt: the inputs of the signature for the vinegar vectors
/// `vins`, if the signing system has a solution. `l` holds the batches of
/// `(P1 + P1^T) * O + P2`.
pub open spec fn attempt_inputs(
    ps: ParamSet,
    pm: PublicMap,
    om: Seq<Seq<u8>>,
    l: Seq<Seq<u8>>,
    t: Seq<u8>,
    vins: Seq<Seq<u8>>,
    free: Seq<u8>,
) -> Option<Seq<Seq<u8>>> {
    match sample_solution(
        system_matrix(ps, linear_parts(ps, vins, l)),
        system_rhs(ps, pm, t, vins),
        free,
        (ps.k * ps.o) as int,
    ) {
        Some(x) => Some(signature_inputs(ps, vins, om, x)),
        None => None,
    }
}

/// The entries of each batch of each row of a grid.
pub open spec fn grid_views(g: Seq<Vec<MVector>>) -> Seq<Seq<Seq<u8>>> {
    Seq::new(g.len(), |i: int| batch_views(g[i]@))
}

/// Whether `g` holds, for each of the `k` inputs, `o` batches of `m` entries.
pub open spec fn grid_shaped(ps: ParamSet, g: Seq<Seq<Seq<u8>>>) -> bool {
    &&& g.len() == ps.k
    &&& forall|i: int| 0 <= i < g.len() ==> has_shape(#[trigger] g[i], ps.o as nat, ps.m as nat)
}

/// The `o` batches of `vin^T * L`.
pub fn vinegar_times_l(ps: &ParamSet, vin: &Vector, l: &[MVector]) -> (r: Vec<MVector>)
    requires
        ps.wf(),
        vin@.len() == ps.spec_v(),
        has_shape(batch_views(l@), ps.spec_p2_count(), ps.m as nat),
    ensures
        batch_views(r@) == vinegar_times(*ps, vin@, batch_views(l@)),
        has_shape(batch_views(r@), ps.o as nat, ps.m as nat),
{
    let v = ps.v();
    let o = ps.o;
    let ghost lv = batch_views(l@);
    let mut out: Vec<MVector> = Vec::with_capacity(o);
    let mut c: usize = 0;
    while c < o
        invariant
            c <= o,
            v == ps.spec_v(),
            o == ps.o,
            ps.wf(),
            vin@.len() == v,
            lv == batch_views(l@),
            has_shape(lv, ps.spec_p2_count(), ps.m as nat),
            out@.len() == c,
            forall|t: int|
                0 <= t < c ==> (#[trigger] out@[t])@ == vl_entry(
                    lv,
                    vin@,
                    o as int,
                    t,
                    v as int,
                    ps.m as nat,
                ),
            forall|t: int| 0 <= t < c ==> (#[trigger] out@[t])@.len() == ps.m,
        decreases o - c,
    {
        let mut acc = MVector::zero(ps.m);
        let mut a: usize = 0;
        while a < v
            invariant
                a <= v,
                c < o,
                v == ps.spec_v(),
                o == ps.o,
                ps.wf(),
                vin@.len() == v,
                lv == batch_views(l@),
                has_shape(lv, ps.spec_p2_count(), ps.m as nat),
                acc@.len() == ps.m,
                acc@ == vl_entry(lv, vin@, o as int, c as int, a as int, ps.m as nat),
            decreases v - a,
        {
            let pos = flat_index_of(a, c, v, o);
            assert(lv[pos as int].len() == ps.m);
            acc.accumulate(&l[pos], vin.at(a));
            a += 1;
        }
        out.push(acc);
        c += 1;
    }
    assert(batch_views(out@) =~= vinegar_times(*ps, vin@, lv));
    out
}

/// The column of the signing system for oil variable `c` of input `block`.
pub fn system_column(ps: &ParamSet, ms: &[Vec<MVector>], block: usize, c: usize) -> (r: Vector)
    requires
        ps.wf(),
        grid_shaped(*ps, grid_views(ms@)),
        block < ps.k,
        c < ps.o,
    ensures
        r@ == column_rows(*ps, grid_views(ms@), block as int, c as int, 0),
        r@.len() == ps.m,
{
    let ghost g = grid_views(ms@);
    let k = ps.k;
    let zero = MVector::zero(ps.m);
    let mut acc = MVector::zero(ps.m);
    let mut i: usize = k;
    while i > 0
        invariant
            i <= k,
            k == ps.k,
            ps.wf(),
            g == grid_views(ms@),
            grid_shaped(*ps, g),
            block < k,
            c < ps.o,
            zero@ == seq_zero(ps.m as nat),
            acc@.len() == ps.m,
            acc@ == column_rows(*ps, g, block as int, c as int, i as int),
        decreases i,
    {
        let row = i - 1;
        let ghost row_acc = acc@;
        let mut j: usize = row;
        while j < k
            invariant
                row <= j <= k,
                row < k,
                k == ps.k,
                ps.wf(),
                g == grid_views(ms@),
                grid_shaped(*ps, g),
                block < k,
                c < ps.o,
                zero@ == seq_zero(ps.m as nat),
                acc@.len() == ps.m,
                acc@ == column_row(row_acc, *ps, g, block as int, c as int, row as int, j as int),
            decreases k - j,
        {
            assert(has_shape(g[row as int], ps.o as nat, ps.m as nat));
            assert(has_shape(g[j as int], ps.o as nat, ps.m as nat));
            assert(g[row as int][c as int].len() == ps.m);
            assert(g[j as int][c as int].len() == ps.m);
            if block == row {
                acc = acc.horner_step(&ps.f_tail, &ms[j][c]);
            } else if block == j {
                acc = acc.horner_step(&ps.f_tail, &ms[row][c]);
            } else {
                acc = acc.horner_step(&ps.f_tail, &zero);
            }
            j += 1;
        }
        i = row;
    }
    Vector::new(acc.elements)
}

/// The matrix of the signing system for the linear parts `ms` of the vinegar vectors.
pub fn compute_a_system_matrix_for_sign_operator(ps: &ParamSet, ms: &[Vec<MVector>]) -> (r: Matrix)
    requires
        ps.wf(),
        grid_shaped(*ps, grid_views(ms@)),
    ensures
        r.wf(),
        r.spec_rows() == ps.m,
        r.spec_cols() == ps.k * ps.o,
        r@ == system_matrix(*ps, grid_views(ms@)),
{
    let ghost g = grid_views(ms@);
    let k = ps.k;
    let o = ps.o;
    let mut columns: Vec<Vector> = Vec::new();
    let mut block: usize = 0;
    while block < k
        invariant
            block <= k,
            k == ps.k,
            o == ps.o,
            ps.wf(),
            g == grid_views(ms@),
            grid_shaped(*ps, g),
            columns@.len() == block * o,
            forall|t: int|
                0 <= t < columns@.len() ==> (#[trigger] columns@[t])@ == system_columns(*ps, g)[t],
            forall|t: int| 0 <= t < columns@.len() ==> (#[trigger] columns@[t])@.len() == ps.m,
        decreases k - block,
    {
        let mut c: usize = 0;
        while c < o
            invariant
                c <= o,
                block < k,
                k == ps.k,
                o == ps.o,
                ps.wf(),
                g == grid_views(ms@),
                grid_shaped(*ps, g),
                columns@.len() == block * o + c,
                forall|t: int|
                    0 <= t < columns@.len() ==> (#[trigger] columns@[t])@ == system_columns(
                        *ps,
                        g,
                    )[t],
                forall|t: int| 0 <= t < columns@.len() ==> (#[trigger] columns@[t])@.len() == ps.m,
            decreases o - c,
        {
            let column = system_column(ps, ms, block, c);
            proof {
                lemma_position(block as int, c as int, o as int);
                lemma_flat_index(block as int, c as int, k as int, o as int);
            }
            columns.push(column);
            c += 1;
        }
        proof {
            assert((block + 1) * o == block * o + o) by (nonlinear_arith);
        }
        block += 1;
    }
    assert(vector_views(columns@) =~= system_columns(*ps, g));
    let by_column = Matrix::from_rows(columns, ps.m);
    by_column.transpose()
}

/// A solution of the system `[a_matrix | y_vector]`, with the variables that
/// the reduced system leaves free taken from `free`; `None` when the system
/// has no solution. The vector must have one entry for each row and `free`
/// one for each column.
pub fn sample_solution_operator(a_matrix: Matrix, y_vector: Vector, free: Vector) -> (r: Option<Vector>)
    requires
        a_matrix.wf(),
        a_matrix.spec_rows() == y_vector@.len(),
        a_matrix.spec_cols() == free@.len(),
    ensures
        r.is_some() <==> sample_solution(
            a_matrix@,
            y_vector@,
            free@,
            a_matrix.spec_cols() as int,
        ).is_some(),
        r.is_some() ==> r.unwrap()@ == sample_solution(
            a_matrix@,
            y_vector@,
            free@,
            a_matrix.spec_cols() as int,
        ).unwrap(),
        r.is_some() ==> r.unwrap()@.len() == a_matrix.spec_cols(),
        r.is_some() ==> solves(a_matrix@, y_vector@, r.unwrap()@),
        r.is_none() ==> forall|x: Seq<u8>|
            x.len() == a_matrix.spec_cols() && all_nibbles(x) ==> !#[trigger] solves(
                a_matrix@,
                y_vector@,
                x,
            ),
{
    let mut a = a_matrix;
    let mut y = y_vector;
    match a.transform_to_row_echelon_augmented(&mut y) {
        Ok(_) => {
            match a.back_substitute_from(&y, free) {
                Ok(x) => {
                    proof {
                        x.lemma_nibbles();
                    }
                    Some(x)
                },
                Err(_) => {
                    assert forall|x: Seq<u8>|
                        x.len() == a_matrix.spec_cols() && all_nibbles(x) implies !#[trigger] solves(
                        a_matrix@,
                        y_vector@,
                        x,
                    ) by {
                        assert(!solves(a@, y@, x));
                    }
                    None
                },
            }
        },
        Err(_) => None,
    }
}

/// A solution of `matrix * x = target` in which every variable that the
/// reduced system leaves free is zero. `None` when the matrix has no row or
/// no column, when `target` does not have one entry for each row, or when
/// the system has no solution.
pub fn solve_linear_system_gf16(matrix: &Matrix, target: &Vector) -> (r: Option<Vector>)
    requires
        matrix.wf(),
    ensures
        r.is_some() <==> matrix.spec_rows() > 0 && matrix.spec_cols() > 0 && target@.len()
            == matrix.spec_rows() && sample_solution(
            matrix@,
            target@,
            seq_zero(matrix.spec_cols()),
            matrix.spec_cols() as int,
        ).is_some(),
        r.is_some() ==> r.unwrap()@ == sample_solution(
            matrix@,
            target@,
            seq_zero(matrix.spec_cols()),
            matrix.spec_cols() as int,
        ).unwrap(),
        r.is_some() ==> solves(matrix@, target@, r.unwrap()@),
        r.is_none() && matrix.spec_rows() > 0 && matrix.spec_cols() > 0 && target@.len()
            == matrix.spec_rows() ==> forall|x: Seq<u8>|
            x.len() == matrix.spec_cols() && all_nibbles(x) ==> !#[trigger] solves(
                matrix@,
                target@,
                x,
            ),
{
    if matrix.rows() == 0 || matrix.cols() == 0 || target.len() != matrix.rows() {
        return None;
    }
    sample_solution_operator(matrix.clone(), target.duplicate(), Vector::zero(matrix.cols()))
}

/// The inputs of a signature for the vinegar vectors `vins` and the solution
/// `x` of the signing system.
pub fn assemble_inputs(ps: &ParamSet, vins: &[Vector], matrix_o: &Matrix, x: &Vector) -> (r: Vec<Vector>)
    requires
        ps.wf(),
        has_shape(vector_views(vins@), ps.k as nat, ps.spec_v()),
        oil_shaped(*ps, matrix_o),
        x@.len() == ps.k * ps.o,
    ensures
        vector_views(r@) == signature_inputs(*ps, vector_views(vins@), matrix_o@, x@),
        inputs_shaped(*ps, vector_views(r@)),
{
    let k = ps.k;
    let o = ps.o;
    let ghost vv = vector_views(vins@);
    let ghost target = signature_inputs(*ps, vv, matrix_o@, x@);
    let xlen = x.len();
    let mut out: Vec<Vector> = Vec::with_capacity(k);
    let mut i: usize = 0;
    while i < k
        invariant
            i <= k,
            xlen == x@.len(),
            k == ps.k,
            o == ps.o,
            ps.wf(),
            vv == vector_views(vins@),
            has_shape(vv, ps.k as nat, ps.spec_v()),
            oil_shaped(*ps, matrix_o),
            x@.len() == ps.k * ps.o,
            target == signature_inputs(*ps, vv, matrix_o@, x@),
            out@.len() == i,
            forall|t: int| 0 <= t < i ==> (#[trigger] out@[t])@ == target[t],
            forall|t: int| 0 <= t < i ==> (#[trigger] out@[t])@.len() == ps.n,
        decreases k - i,
    {
        let lo = flat_index_of(i, 0, k, o);
        proof {
            lemma_flat_index(i as int, o as int - 1, k as int, o as int);
        }
        let oil = x.slice(lo, lo + o);
        assert(oil@ == oil_part(*ps, x@, i as int));
        assert(vv[i as int].len() == ps.spec_v());
        let shift = matrix_o.times_vector(&oil);
        out.push(vins[i].plus(&shift).concat(&oil));
        i += 1;
    }
    assert(vector_views(out@) =~= target);
    out
}

/// The `k` vinegar vectors, each followed by `o` zeros.
pub fn pad_vinegars(ps: &ParamSet, vins: &[Vector]) -> (r: Vec<Vector>)
    requires
        ps.wf(),
        has_shape(vector_views(vins@), ps.k as nat, ps.spec_v()),
    ensures
        vector_views(r@) == vinegar_inputs(*ps, vector_views(vins@)),
        inputs_shaped(*ps, vector_views(r@)),
{
    let ghost vv = vector_views(vins@);
    let zeros = Vector::zero(ps.o);
    let mut out: Vec<Vector> = Vec::with_capacity(ps.k);
    let mut i: usize = 0;
    while i < ps.k
        invariant
            i <= ps.k,
            ps.wf(),
            vv == vector_views(vins@),
            has_shape(vv, ps.k as nat, ps.spec_v()),
            zeros@ == seq_zero(ps.o as nat),
            out@.len() == i,
            forall|t: int| 0 <= t < i ==> (#[trigger] out@[t])@ == vv[t] + seq_zero(ps.o as nat),
            forall|t: int| 0 <= t < i ==> (#[trigger] out@[t])@.len() == ps.n,
        decreases ps.k - i,
    {
        assert(vv[i as int].len() == ps.spec_v());
        out.push(vins[i].concat(&zeros));
        i += 1;
    }
    assert(vector_views(out@) =~= vinegar_inputs(*ps, vv));
    out
}

/// The right-hand side of the signing system.
pub fn compute_rhs_for_sign_operator(
    ps: &ParamSet,
    vins: &[Vector],
    p1: &[MVector],
    p2: &[MVector],
    p3: &[MVector],
    t: &Vector,
) -> (r: Vector)
    requires
        ps.wf(),
        has_shape(vector_views(vins@), ps.k as nat, ps.spec_v()),
        map_shaped(*ps, batch_views(p1@), batch_views(p2@), batch_views(p3@)),
        t@.len() == ps.m,
    ensures
        r@ == system_rhs(*ps, map_of(p1@, p2@, p3@), t@, vector_views(vins@)),
        r@.len() == ps.m,
{
    let padded = pad_vinegars(ps, vins);
    let constant = eval_mayo_polynomial(ps, padded.as_slice(), p1, p2, p3);
    t.plus(&Vector::new(constant.elements))
}

/// The linear parts of the vinegar vectors: for each, the batches of `vin^T * L`.
pub fn compute_m_operator(ps: &ParamSet, vins: &[Vector], l: &[MVector]) -> (r: Vec<Vec<MVector>>)
    requires
        ps.wf(),
        has_shape(vector_views(vins@), ps.k as nat, ps.spec_v()),
        has_shape(batch_views(l@), ps.spec_p2_count(), ps.m as nat),
    ensures
        grid_views(r@) == linear_parts(*ps, vector_views(vins@), batch_views(l@)),
        grid_shaped(*ps, grid_views(r@)),
{
    let ghost vv = vector_views(vins@);
    let ghost lv = batch_views(l@);
    let mut out: Vec<Vec<MVector>> = Vec::with_capacity(ps.k);
    let mut i: usize = 0;
    while i < ps.k
        invariant
            i <= ps.k,
            ps.wf(),
            vv == vector_views(vins@),
            lv == batch_views(l@),
            has_shape(vv, ps.k as nat, ps.spec_v()),
            has_shape(lv, ps.spec_p2_count(), ps.m as nat),
            out@.len() == i,
            forall|t: int| 0 <= t < i ==> batch_views((#[trigger] out@[t])@) == vinegar_times(*ps, vv[t], lv),
            forall|t: int|
                0 <= t < i ==> has_shape(batch_views((#[trigger] out@[t])@), ps.o as nat, ps.m as nat),
        decreases ps.k - i,
    {
        assert(vv[i as int].len() == ps.spec_v());
        out.push(vinegar_times_l(ps, &vins[i], l));
        i += 1;
    }
    assert(grid_views(out@) =~= linear_parts(*ps, vv, lv));
    out
}

/// The entries of batches are nibbles.
pub proof fn lemma_batch_nibbles(b: Seq<MVector>)
    ensures
        nibble_rows(batch_views(b)),
{
    assert forall|r: int| 0 <= r < batch_views(b).len() implies all_nibbles(
        #[trigger] batch_views(b)[r],
    ) by {
        lemma_values_nibbles(b[r].elements@);
    }
}

/// The entries of vectors are nibbles.
pub proof fn lemma_vector_nibbles(s: Seq<Vector>)
    ensures
        nibble_rows(vector_views(s)),
{
    assert forall|r: int| 0 <= r < vector_views(s).len() implies all_nibbles(
        #[trigger] vector_views(s)[r],
    ) by {
        s[r].lemma_nibbles();
    }
}

/// One signing attempt: the inputs of a signature for the vinegar vectors
/// `vins`, with the free variables of the signing system taken from `free`;
/// `None` when the system has no solution. `p3` must be the `P3` of the key
/// and `l` its `L + P1^T O`; then the whipped map at the inputs that are
/// returned is the target.
pub fn sign_attempt(
    ps: &ParamSet,
    p1: &[MVector],
    p2: &[MVector],
    p3: &[MVector],
    matrix_o: &Matrix,
    l: &[MVector],
    t: &Vector,
    vins: &[Vector],
    free: Vector,
) -> (r: Option<Vec<Vector>>)
    requires
        ps.wf(),
        map_shaped(*ps, batch_views(p1@), batch_views(p2@), batch_views(p3@)),
        oil_shaped(*ps, matrix_o),
        has_shape(batch_views(l@), ps.spec_p2_count(), ps.m as nat),
        t@.len() == ps.m,
        has_shape(vector_views(vins@), ps.k as nat, ps.spec_v()),
        free@.len() == ps.k * ps.o,
        batch_views(p3@) == p3_of(*ps, batch_views(p1@), batch_views(p2@), matrix_o@),
        batch_views(l@) == ls_of(*ps, batch_views(p1@), batch_views(p2@), matrix_o@),
    ensures
        r.is_some() ==> whipped_map(
            *ps,
            map_of(p1@, p2@, p3@),
            vector_views(r.unwrap()@),
        ) == t@,
        r.is_some() <==> attempt_inputs(
            *ps,
            map_of(p1@, p2@, p3@),
            matrix_o@,
            batch_views(l@),
            t@,
            vector_views(vins@),
            free@,
        ).is_some(),
        r.is_some() ==> vector_views(r.unwrap()@) == attempt_inputs(
            *ps,
            map_of(p1@, p2@, p3@),
            matrix_o@,
            batch_views(l@),
            t@,
            vector_views(vins@),
            free@,
        ).unwrap(),
        r.is_some() ==> inputs_shaped(*ps, vector_views(r.unwrap()@)),
{
    let ms = compute_m_operator(ps, vins, l);
    let a = compute_a_system_matrix_for_sign_operator(ps, ms.as_slice());
    let y = compute_rhs_for_sign_operator(ps, vins, p1, p2, p3, t);
    match sample_solution_operator(a, y, free) {
        Some(x) => {
            proof {
                lemma_batch_nibbles(p1@);
                lemma_batch_nibbles(p2@);
                lemma_batch_nibbles(p3@);
                lemma_vector_nibbles(vins@);
                matrix_o.lemma_nibble_rows();
                x.lemma_nibbles();
                t.lemma_nibbles();
                lemma_solution_signs(
                    *ps,
                    map_of(p1@, p2@, p3@),
                    matrix_o@,
                    vector_views(vins@),
                    x@,
                    t@,
                );
            }
            Some(assemble_inputs(ps, vins, matrix_o, &x))
        },
        None => None,
    }
}

/// The `count` vectors of `len` entries that `flat` holds one after another.
pub fn vectors_from_flat(flat: &Vector, count: usize, len: usize) -> (r: Vec<Vector>)
    requires
        flat@.len() == count * len,
    ensures
        vector_views(r@) == unflatten(flat@, count as nat, len as nat),
        has_shape(vector_views(r@), count as nat, len as nat),
{
    let total = flat.len();
    let mut out: Vec<Vector> = Vec::with_capacity(count);
    let mut start: usize = 0;
    let mut i: usize = 0;
    while i < count
        invariant
            i <= count,
            total == flat@.len(),
            total == count * len,
            start == i * len,
            out@.len() == i,
            forall|t: int|
                0 <= t < i ==> (#[trigger] out@[t])@ == unflatten(flat@, count as nat, len as nat)[t],
        decreases count - i,
    {
        proof {
            assert((i + 1) * len == i * len + len) by (nonlinear_arith);
            assert((i + 1) * len <= count * len) by (nonlinear_arith)
                requires
                    i + 1 <= count,
                    0 <= len,
            ;
        }
        let piece = flat.slice(start, start + len);
        assert(piece@ =~= unflatten(flat@, count as nat, len as nat)[i as int]);
        out.push(piece);
        start += len;
        i += 1;
    }
    assert(vector_views(out@) =~= unflatten(flat@, count as nat, len as nat));
    out
}

/// The entries of the vectors, one vector after another.
pub fn flatten_vectors(vectors: &[Vector]) -> (r: Vector)
    ensures
        r@ == flatten(vector_views(vectors@)),
{
    let ghost vv = vector_views(vectors@);
    let mut flat = Vector::zero(0);
    let mut i: usize = 0;
    assert(vv.take(0) =~= Seq::<Seq<u8>>::empty());
    assert(flat@ =~= flatten(vv.take(0)));
    while i < vectors.len()
        invariant
            i <= vectors@.len(),
            vv == vector_views(vectors@),
            flat@ == flatten(vv.take(i as int)),
        decreases vectors@.len() - i,
    {
        proof {
            let next = vv.take(i as int + 1);
            assert(next.drop_last() =~= vv.take(i as int));
            assert(next.last() == vv[i as int]);
        }
        flat = flat.concat(&vectors[i]);
        i += 1;
    }
    assert(vv.take(vectors@.len() as int) =~= vv);
    flat
}

} // verus!
