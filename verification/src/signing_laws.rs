//! Why signing works: at the inputs that a solution of the signing system
//! gives, the whipped map is the target.

use crate::f16::{
    all_nibbles, gf16_add, gf16_mul, lemma_add_closed, lemma_add_laws, lemma_add_self,
    lemma_mul_closed, lemma_mul_distributes,
};
use crate::linear_laws::nibble_rows;
use crate::linear_part_laws::{
    lemma_polar_linear, lemma_vinegar_input, ls_of, mx_term, vinegar_input,
};
use crate::matrix::{has_shape, lemma_flat_index, mat_vec};
use crate::mayo_operations::{
    lemma_upper_index_bound, linear_parts, map_at, oil_part, pair_term, PublicMap, signature_inputs,
    upper_index, vinegar_inputs, vinegar_times,
};
use crate::params::ParamSet;
use crate::scheme_laws::{
    batches_ok, input_ok, lemma_polar_add, lemma_polar_identity, lemma_polar_symmetric,
    lemma_quad_map_entry, map_ok, polar_entry, quad_entry, rect_term, tri_term,
};
use crate::sums::{lemma_rect_sum_nibble, lemma_upper_sum_nibble, rect_sum, sum_over, upper_sum};
use crate::trapdoor_laws::{key_ok, lemma_oil_entry_vanishes, lemma_oil_input, oil_input, p3_of};
use crate::vector::{dot_range, seq_add, seq_dot, seq_zero};
use vstd::prelude::*;

verus! {

/// The dot product is additive in its second argument.
pub proof fn lemma_dot_add_right(a: Seq<u8>, x: Seq<u8>, y: Seq<u8>, lo: int, hi: int)
    requires
        all_nibbles(a),
        all_nibbles(x),
        all_nibbles(y),
        0 <= lo,
        hi <= a.len(),
        hi <= x.len(),
        hi <= y.len(),
    ensures
        dot_range(a, seq_add(x, y), lo, hi) == gf16_add(
            dot_range(a, x, lo, hi),
            dot_range(a, y, lo, hi),
        ),
    decreases hi - lo,
{
    if hi > lo {
        lemma_dot_add_right(a, x, y, lo, hi - 1);
        lemma_mul_distributes(a[hi - 1], x[hi - 1], y[hi - 1]);
        crate::linear_laws::lemma_add_regroup(
            dot_range(a, x, lo, hi - 1),
            dot_range(a, y, lo, hi - 1),
            gf16_mul(a[hi - 1], x[hi - 1]),
            gf16_mul(a[hi - 1], y[hi - 1]),
        );
        assert(seq_add(x, y)[hi - 1] == gf16_add(x[hi - 1], y[hi - 1]));
    } else {
        lemma_add_self(0);
    }
}

/// The sum of two sequences of nibbles of one length is a sequence of
/// nibbles of that length.
pub proof fn lemma_seq_add_ok(a: Seq<u8>, b: Seq<u8>, n: nat)
    requires
        input_ok(a, n),
        input_ok(b, n),
    ensures
        input_ok(seq_add(a, b), n),
{
    assert forall|k: int| 0 <= k < n implies #[trigger] seq_add(a, b)[k] < 16 by {
        assert(a[k] < 16 && b[k] < 16);
        lemma_add_closed(a[k], b[k]);
    }
}

/// The oil space is closed under addition: the oil input of a sum of oil
/// values is the sum of the oil inputs.
pub proof fn lemma_oil_input_add(ps: ParamSet, om: Seq<Seq<u8>>, x: Seq<u8>, y: Seq<u8>)
    requires
        ps.wf(),
        has_shape(om, ps.spec_v(), ps.o as nat),
        nibble_rows(om),
        input_ok(x, ps.o as nat),
        input_ok(y, ps.o as nat),
    ensures
        oil_input(om, seq_add(x, y)) == seq_add(oil_input(om, x), oil_input(om, y)),
        input_ok(seq_add(x, y), ps.o as nat),
{
    lemma_seq_add_ok(x, y, ps.o as nat);
    let left = oil_input(om, seq_add(x, y));
    let right = seq_add(oil_input(om, x), oil_input(om, y));
    assert forall|k: int| 0 <= k < left.len() implies left[k] == right[k] by {
        if k < ps.spec_v() {
            assert(om[k].len() == ps.o);
            assert(all_nibbles(om[k]));
            lemma_dot_add_right(om[k], x, y, 0, ps.o as int);
            assert(mat_vec(om, x)[k] == seq_dot(om[k], x));
            assert(mat_vec(om, y)[k] == seq_dot(om[k], y));
            assert(mat_vec(om, seq_add(x, y))[k] == seq_dot(om[k], seq_add(x, y)));
        }
    }
    assert(left =~= right);
}

/// The public map at an input of nibbles has `m` nibbles.
pub proof fn lemma_map_ok(ps: ParamSet, pm: PublicMap, x: Seq<u8>)
    requires
        ps.wf(),
        map_ok(pm.p1, pm.p2, pm.p3, ps.spec_v(), ps.o as nat, ps.m as nat),
        input_ok(x, ps.n as nat),
    ensures
        input_ok(map_at(ps, pm, x), ps.m as nat),
{
    let v = ps.spec_v() as int;
    let o = ps.o as int;
    let q = map_at(ps, pm, x);
    lemma_quad_map_entry(pm.p1, pm.p2, pm.p3, x, v, o, ps.m as nat, 0);
    assert forall|e: int| 0 <= e < ps.m implies #[trigger] q[e] < 16 by {
        lemma_quad_map_entry(pm.p1, pm.p2, pm.p3, x, v, o, ps.m as nat, e);
        let t1 = tri_term(pm.p1, x, 0, v, e);
        let t2 = rect_term(pm.p2, x, v, o, e);
        let t3 = tri_term(pm.p3, x, v, o, e);
        assert forall|a: int, b: int| 0 <= a <= b < v implies #[trigger] t1(a, b) < 16 by {
            lemma_upper_index_bound(v, a, b);
            assert(all_nibbles(pm.p1[upper_index(v, a, b)]));
            assert(pm.p1[upper_index(v, a, b)].len() == ps.m);
            assert(x[a] < 16 && x[b] < 16);
            lemma_mul_closed(x[a], x[b]);
            lemma_mul_closed(pm.p1[upper_index(v, a, b)][e], gf16_mul(x[a], x[b]));
        }
        lemma_upper_sum_nibble(t1, v, v);
        assert forall|a: int, c: int| 0 <= a < v && 0 <= c < o implies #[trigger] t2(a, c)
            < 16 by {
            lemma_flat_index(a, c, v, o);
            assert(all_nibbles(pm.p2[a * o + c]));
            assert(pm.p2[a * o + c].len() == ps.m);
            assert(x[a] < 16 && x[v + c] < 16);
            lemma_mul_closed(x[a], x[v + c]);
            lemma_mul_closed(pm.p2[a * o + c][e], gf16_mul(x[a], x[v + c]));
        }
        lemma_rect_sum_nibble(t2, v, o);
        assert forall|a: int, b: int| 0 <= a <= b < o implies #[trigger] t3(a, b) < 16 by {
            lemma_upper_index_bound(o, a, b);
            assert(all_nibbles(pm.p3[upper_index(o, a, b)]));
            assert(pm.p3[upper_index(o, a, b)].len() == ps.m);
            assert(x[v + a] < 16 && x[v + b] < 16);
            lemma_mul_closed(x[v + a], x[v + b]);
            lemma_mul_closed(pm.p3[upper_index(o, a, b)][e], gf16_mul(x[v + a], x[v + b]));
        }
        lemma_upper_sum_nibble(t3, o, o);
        lemma_add_closed(upper_sum(t1, v, v), rect_sum(t2, v, o));
        lemma_add_closed(
            gf16_add(upper_sum(t1, v, v), rect_sum(t2, v, o)),
            upper_sum(t3, o, o),
        );
    }
}

/// The trapdoor: the public map of a key is zero at every oil input.
pub proof fn lemma_oil_space_vanishes(
    ps: ParamSet,
    p1: Seq<Seq<u8>>,
    p2: Seq<Seq<u8>>,
    om: Seq<Seq<u8>>,
    x: Seq<u8>,
)
    requires
        key_ok(ps, p1, p2, om, x),
    ensures
        map_at(ps, PublicMap { p1, p2, p3: p3_of(ps, p1, p2, om) }, oil_input(om, x)) == seq_zero(
            ps.m as nat,
        ),
{
    let pm = PublicMap { p1, p2, p3: p3_of(ps, p1, p2, om) };
    let q = map_at(ps, pm, oil_input(om, x));
    lemma_quad_map_entry(
        pm.p1,
        pm.p2,
        pm.p3,
        oil_input(om, x),
        ps.spec_v() as int,
        ps.o as int,
        ps.m as nat,
        0,
    );
    assert forall|e: int| 0 <= e < ps.m implies q[e] == 0 by {
        lemma_quad_map_entry(
            pm.p1,
            pm.p2,
            pm.p3,
            oil_input(om, x),
            ps.spec_v() as int,
            ps.o as int,
            ps.m as nat,
            e,
        );
        lemma_oil_entry_vanishes(ps, p1, p2, om, x, e);
    }
    assert(q =~= seq_zero(ps.m as nat));
}

/// Whether the parts of a key, the vinegar vectors and the oil values have
/// the shapes of the parameter set and hold nibbles, and `pm` is the public
/// map of the key.
pub open spec fn signing_ok(
    ps: ParamSet,
    pm: PublicMap,
    om: Seq<Seq<u8>>,
    vins: Seq<Seq<u8>>,
    x: Seq<u8>,
) -> bool {
    &&& ps.wf()
    &&& map_ok(pm.p1, pm.p2, pm.p3, ps.spec_v(), ps.o as nat, ps.m as nat)
    &&& pm.p3 == p3_of(ps, pm.p1, pm.p2, om)
    &&& has_shape(om, ps.spec_v(), ps.o as nat)
    &&& nibble_rows(om)
    &&& has_shape(vins, ps.k as nat, ps.spec_v())
    &&& nibble_rows(vins)
    &&& input_ok(x, (ps.k * ps.o) as nat)
}

/// The part of a pair term that is linear in the oil values, for equation
/// `e`: on the diagonal the linear part of input `i` at its own oil values,
/// off it the linear part of each input at the oil values of the other.
pub open spec fn lin_entry(
    ps: ParamSet,
    ms: Seq<Seq<Seq<u8>>>,
    x: Seq<u8>,
    i: int,
    j: int,
    e: int,
) -> u8 {
    if i == j {
        sum_over(mx_term(ms[i], oil_part(ps, x, i), e), 0, ps.o as int)
    } else {
        gf16_add(
            sum_over(mx_term(ms[i], oil_part(ps, x, j), e), 0, ps.o as int),
            sum_over(mx_term(ms[j], oil_part(ps, x, i), e), 0, ps.o as int),
        )
    }
}

/// Input `i` of a signature is the sum of its vinegar input and its oil
/// input, both inputs of nibbles.
pub proof fn lemma_signature_input(
    ps: ParamSet,
    pm: PublicMap,
    om: Seq<Seq<u8>>,
    vins: Seq<Seq<u8>>,
    x: Seq<u8>,
    i: int,
)
    requires
        signing_ok(ps, pm, om, vins, x),
        0 <= i < ps.k,
    ensures
        input_ok(vins[i], ps.spec_v()),
        input_ok(oil_part(ps, x, i), ps.o as nat),
        key_ok(ps, pm.p1, pm.p2, om, oil_part(ps, x, i)),
        vinegar_inputs(ps, vins)[i] == vinegar_input(vins[i], ps.o as nat),
        signature_inputs(ps, vins, om, x)[i] == seq_add(
            vinegar_input(vins[i], ps.o as nat),
            oil_input(om, oil_part(ps, x, i)),
        ),
        input_ok(vinegar_input(vins[i], ps.o as nat), ps.n as nat),
        input_ok(oil_input(om, oil_part(ps, x, i)), ps.n as nat),
        input_ok(signature_inputs(ps, vins, om, x)[i], ps.n as nat),
{
    let xi = oil_part(ps, x, i);
    lemma_flat_index(i, ps.o - 1, ps.k as int, ps.o as int);
    assert(vins[i].len() == ps.spec_v());
    assert(all_nibbles(vins[i]));
    assert forall|c: int| 0 <= c < xi.len() implies #[trigger] xi[c] < 16 by {
        assert(xi[c] == x[i * ps.o + c]);
    }
    lemma_vinegar_input(ps, vins[i]);
    lemma_oil_input(ps, om, xi);
    let va = vinegar_input(vins[i], ps.o as nat);
    let oi = oil_input(om, xi);
    let si = signature_inputs(ps, vins, om, x)[i];
    let sum = seq_add(va, oi);
    assert(mat_vec(om, xi).len() == ps.spec_v());
    assert forall|c: int| 0 <= c < si.len() implies si[c] == sum[c] by {
        if c >= ps.spec_v() {
            assert(va[ps.spec_v() + (c - ps.spec_v())] == 0);
            lemma_add_laws(oi[c], 0, 0);
        }
    }
    assert(si =~= sum);
    crate::signing_laws::lemma_seq_add_ok(va, oi, ps.n as nat);
}

/// The public map at `x` for equation `e`.
#[verifier::opaque]
pub open spec fn qe(ps: ParamSet, pm: PublicMap, x: Seq<u8>, e: int) -> u8 {
    quad_entry(pm.p1, pm.p2, pm.p3, x, ps.spec_v() as int, ps.o as int, e)
}

/// The polar form of the public map at `a` and `b` for equation `e`.
#[verifier::opaque]
pub open spec fn bq(ps: ParamSet, pm: PublicMap, a: Seq<u8>, b: Seq<u8>, e: int) -> u8 {
    polar_entry(pm.p1, pm.p2, pm.p3, a, b, ps.spec_v() as int, ps.o as int, e)
}

/// Entry `e` of the public map at `x`.
pub proof fn lemma_qe_map(ps: ParamSet, pm: PublicMap, x: Seq<u8>, e: int)
    requires
        0 <= e < ps.m,
    ensures
        map_at(ps, pm, x).len() == ps.m,
        map_at(ps, pm, x)[e] == qe(ps, pm, x, e),
{
    reveal(qe);
    lemma_quad_map_entry(pm.p1, pm.p2, pm.p3, x, ps.spec_v() as int, ps.o as int, ps.m as nat, e);
}

/// The polar identity.
pub proof fn lemma_bq_identity(ps: ParamSet, pm: PublicMap, a: Seq<u8>, b: Seq<u8>, e: int)
    requires
        ps.wf(),
        map_ok(pm.p1, pm.p2, pm.p3, ps.spec_v(), ps.o as nat, ps.m as nat),
        input_ok(a, ps.n as nat),
        input_ok(b, ps.n as nat),
        0 <= e < ps.m,
    ensures
        qe(ps, pm, seq_add(a, b), e) == gf16_add(
            gf16_add(qe(ps, pm, a, e), qe(ps, pm, b, e)),
            bq(ps, pm, a, b, e),
        ),
{
    reveal(qe);
    reveal(bq);
    lemma_polar_identity(pm.p1, pm.p2, pm.p3, a, b, ps.spec_v(), ps.o as nat, ps.m as nat, e);
}

/// The polar form is additive in its first input.
pub proof fn lemma_bq_add(
    ps: ParamSet,
    pm: PublicMap,
    a: Seq<u8>,
    a2: Seq<u8>,
    b: Seq<u8>,
    e: int,
)
    requires
        ps.wf(),
        map_ok(pm.p1, pm.p2, pm.p3, ps.spec_v(), ps.o as nat, ps.m as nat),
        input_ok(a, ps.n as nat),
        input_ok(a2, ps.n as nat),
        input_ok(b, ps.n as nat),
        0 <= e < ps.m,
    ensures
        bq(ps, pm, seq_add(a, a2), b, e) == gf16_add(bq(ps, pm, a, b, e), bq(ps, pm, a2, b, e)),
{
    reveal(bq);
    lemma_polar_add(pm.p1, pm.p2, pm.p3, a, a2, b, ps.spec_v(), ps.o as nat, ps.m as nat, e);
}

/// The polar form is symmetric.
pub proof fn lemma_bq_symmetric(ps: ParamSet, pm: PublicMap, a: Seq<u8>, b: Seq<u8>, e: int)
    ensures
        bq(ps, pm, a, b, e) == bq(ps, pm, b, a, e),
{
    reveal(bq);
    lemma_polar_symmetric(pm.p1, pm.p2, pm.p3, a, b, ps.spec_v(), ps.o as nat, e);
}

/// The public map of a key is zero at an oil input, for every equation.
pub proof fn lemma_qe_oil(ps: ParamSet, pm: PublicMap, om: Seq<Seq<u8>>, x: Seq<u8>, e: int)
    requires
        key_ok(ps, pm.p1, pm.p2, om, x),
        pm.p3 == p3_of(ps, pm.p1, pm.p2, om),
        0 <= e < ps.m,
    ensures
        qe(ps, pm, oil_input(om, x), e) == 0,
{
    reveal(qe);
    lemma_oil_entry_vanishes(ps, pm.p1, pm.p2, om, x, e);
}

/// The polar form between a vinegar input and an oil input is the linear part.
pub proof fn lemma_bq_linear(
    ps: ParamSet,
    pm: PublicMap,
    om: Seq<Seq<u8>>,
    vin: Seq<u8>,
    x: Seq<u8>,
    e: int,
)
    requires
        key_ok(ps, pm.p1, pm.p2, om, x),
        batches_ok(pm.p3, ps.spec_p3_count(), ps.m as nat),
        input_ok(vin, ps.spec_v()),
        0 <= e < ps.m,
    ensures
        bq(ps, pm, vinegar_input(vin, ps.o as nat), oil_input(om, x), e) == sum_over(
            mx_term(vinegar_times(ps, vin, ls_of(ps, pm.p1, pm.p2, om)), x, e),
            0,
            ps.o as int,
        ),
{
    reveal(bq);
    lemma_polar_linear(ps, pm.p1, pm.p2, pm.p3, om, vin, x, e);
}

/// The polar form of two oil inputs of a key is zero.
pub proof fn lemma_bq_oil(
    ps: ParamSet,
    pm: PublicMap,
    om: Seq<Seq<u8>>,
    x: Seq<u8>,
    y: Seq<u8>,
    e: int,
)
    requires
        key_ok(ps, pm.p1, pm.p2, om, x),
        input_ok(y, ps.o as nat),
        map_ok(pm.p1, pm.p2, pm.p3, ps.spec_v(), ps.o as nat, ps.m as nat),
        pm.p3 == p3_of(ps, pm.p1, pm.p2, om),
        0 <= e < ps.m,
    ensures
        bq(ps, pm, oil_input(om, x), oil_input(om, y), e) == 0,
{
    lemma_oil_input_add(ps, om, x, y);
    lemma_oil_input(ps, om, x);
    lemma_oil_input(ps, om, y);
    lemma_bq_identity(ps, pm, oil_input(om, x), oil_input(om, y), e);
    lemma_qe_oil(ps, pm, om, x, e);
    lemma_qe_oil(ps, pm, om, y, e);
    lemma_qe_oil(ps, pm, om, seq_add(x, y), e);
    lemma_add_self(0);
    lemma_add_laws(bq(ps, pm, oil_input(om, x), oil_input(om, y), e), 0, 0);
}

/// The polar form of two sums of a vinegar and an oil input: four polar
/// forms, of which the one between the two oil inputs is zero.
pub proof fn lemma_bq_four(
    ps: ParamSet,
    pm: PublicMap,
    va: Seq<u8>,
    oa: Seq<u8>,
    vb: Seq<u8>,
    ob: Seq<u8>,
    e: int,
)
    requires
        ps.wf(),
        map_ok(pm.p1, pm.p2, pm.p3, ps.spec_v(), ps.o as nat, ps.m as nat),
        input_ok(va, ps.n as nat),
        input_ok(oa, ps.n as nat),
        input_ok(vb, ps.n as nat),
        input_ok(ob, ps.n as nat),
        0 <= e < ps.m,
    ensures
        bq(ps, pm, seq_add(va, oa), seq_add(vb, ob), e) == gf16_add(
            gf16_add(bq(ps, pm, va, vb, e), bq(ps, pm, va, ob, e)),
            gf16_add(bq(ps, pm, vb, oa, e), bq(ps, pm, oa, ob, e)),
        ),
{
    let sb = seq_add(vb, ob);
    lemma_seq_add_ok(vb, ob, ps.n as nat);
    lemma_bq_add(ps, pm, va, oa, sb, e);
    lemma_bq_symmetric(ps, pm, va, sb, e);
    lemma_bq_add(ps, pm, vb, ob, va, e);
    lemma_bq_symmetric(ps, pm, vb, va, e);
    lemma_bq_symmetric(ps, pm, ob, va, e);
    lemma_bq_symmetric(ps, pm, oa, sb, e);
    lemma_bq_add(ps, pm, vb, ob, oa, e);
    lemma_bq_symmetric(ps, pm, ob, oa, e);
}

/// A value that is a sum of two others and a third comes back when the two
/// are added to it again; and four polar parts regroup around the one that
/// vanishes.
pub proof fn lemma_pair_regroup(
    q12: u8,
    q1: u8,
    q2: u8,
    b: u8,
    r12: u8,
    r1: u8,
    r2: u8,
    bvv: u8,
    lij: u8,
    lji: u8,
    boo: u8,
)
    requires
        q12 == gf16_add(gf16_add(q1, q2), b),
        r12 == gf16_add(gf16_add(r1, r2), bvv),
        b == gf16_add(gf16_add(bvv, lij), gf16_add(lji, boo)),
        boo == 0,
    ensures
        gf16_add(gf16_add(q12, q1), q2) == gf16_add(
            gf16_add(gf16_add(r12, r1), r2),
            gf16_add(lij, lji),
        ),
{
    assert(((q12 ^ q1) ^ q2) == (((r12 ^ r1) ^ r2) ^ (lij ^ lji))) by (bit_vector)
        requires
            q12 == (q1 ^ q2) ^ b,
            r12 == (r1 ^ r2) ^ bvv,
            b == (bvv ^ lij) ^ (lji ^ boo),
            boo == 0,
    ;
}

/// A diagonal pair term at the inputs of a signature, one equation at a
/// time: the term at the vinegar input plus the linear part.
pub proof fn lemma_pair_term_diagonal(
    ps: ParamSet,
    pm: PublicMap,
    om: Seq<Seq<u8>>,
    vins: Seq<Seq<u8>>,
    x: Seq<u8>,
    i: int,
    e: int,
)
    requires
        signing_ok(ps, pm, om, vins, x),
        0 <= i < ps.k,
        0 <= e < ps.m,
    ensures
        pair_term(ps, pm, signature_inputs(ps, vins, om, x), i, i).len() == ps.m,
        pair_term(ps, pm, vinegar_inputs(ps, vins), i, i).len() == ps.m,
        pair_term(ps, pm, signature_inputs(ps, vins, om, x), i, i)[e] == gf16_add(
            pair_term(ps, pm, vinegar_inputs(ps, vins), i, i)[e],
            lin_entry(ps, linear_parts(ps, vins, ls_of(ps, pm.p1, pm.p2, om)), x, i, i, e),
        ),
{
    let s = signature_inputs(ps, vins, om, x);
    let vh = vinegar_inputs(ps, vins);
    let ls = ls_of(ps, pm.p1, pm.p2, om);
    let ms = linear_parts(ps, vins, ls);
    lemma_signature_input(ps, pm, om, vins, x, i);
    let xi = oil_part(ps, x, i);
    let va = vinegar_input(vins[i], ps.o as nat);
    let oa = oil_input(om, xi);
    assert(ms[i] == vinegar_times(ps, vins[i], ls));
    lemma_qe_map(ps, pm, s[i], e);
    lemma_qe_map(ps, pm, va, e);
    lemma_bq_identity(ps, pm, va, oa, e);
    lemma_qe_oil(ps, pm, om, xi, e);
    lemma_bq_linear(ps, pm, om, vins[i], xi, e);
    lemma_add_laws(qe(ps, pm, va, e), 0, 0);
}

/// A pair term off the diagonal at the inputs of a signature, one equation
/// at a time: the term at the vinegar inputs plus the two linear parts.
pub proof fn lemma_pair_term_off_diagonal(
    ps: ParamSet,
    pm: PublicMap,
    om: Seq<Seq<u8>>,
    vins: Seq<Seq<u8>>,
    x: Seq<u8>,
    i: int,
    j: int,
    e: int,
)
    requires
        signing_ok(ps, pm, om, vins, x),
        0 <= i < j < ps.k,
        0 <= e < ps.m,
    ensures
        pair_term(ps, pm, signature_inputs(ps, vins, om, x), i, j).len() == ps.m,
        pair_term(ps, pm, vinegar_inputs(ps, vins), i, j).len() == ps.m,
        pair_term(ps, pm, signature_inputs(ps, vins, om, x), i, j)[e] == gf16_add(
            pair_term(ps, pm, vinegar_inputs(ps, vins), i, j)[e],
            lin_entry(ps, linear_parts(ps, vins, ls_of(ps, pm.p1, pm.p2, om)), x, i, j, e),
        ),
{
    let s = signature_inputs(ps, vins, om, x);
    let vh = vinegar_inputs(ps, vins);
    let ls = ls_of(ps, pm.p1, pm.p2, om);
    let ms = linear_parts(ps, vins, ls);
    lemma_signature_input(ps, pm, om, vins, x, i);
    lemma_signature_input(ps, pm, om, vins, x, j);
    let xi = oil_part(ps, x, i);
    let xj = oil_part(ps, x, j);
    let va = vinegar_input(vins[i], ps.o as nat);
    let vb = vinegar_input(vins[j], ps.o as nat);
    let oa = oil_input(om, xi);
    let ob = oil_input(om, xj);
    let sa = s[i];
    let sb = s[j];
    assert(ms[i] == vinegar_times(ps, vins[i], ls));
    assert(ms[j] == vinegar_times(ps, vins[j], ls));
    let sab = seq_add(sa, sb);
    let vab = seq_add(va, vb);
    lemma_qe_map(ps, pm, sab, e);
    lemma_qe_map(ps, pm, sa, e);
    lemma_qe_map(ps, pm, sb, e);
    lemma_qe_map(ps, pm, vab, e);
    lemma_qe_map(ps, pm, va, e);
    lemma_qe_map(ps, pm, vb, e);
    lemma_bq_identity(ps, pm, sa, sb, e);
    lemma_bq_identity(ps, pm, va, vb, e);
    lemma_bq_four(ps, pm, va, oa, vb, ob, e);
    lemma_bq_linear(ps, pm, om, vins[i], xj, e);
    lemma_bq_linear(ps, pm, om, vins[j], xi, e);
    lemma_bq_oil(ps, pm, om, xi, xj, e);
    lemma_pair_regroup(
        qe(ps, pm, sab, e),
        qe(ps, pm, sa, e),
        qe(ps, pm, sb, e),
        bq(ps, pm, sa, sb, e),
        qe(ps, pm, vab, e),
        qe(ps, pm, va, e),
        qe(ps, pm, vb, e),
        bq(ps, pm, va, vb, e),
        bq(ps, pm, va, ob, e),
        bq(ps, pm, vb, oa, e),
        bq(ps, pm, oa, ob, e),
    );
}

} // verus!
