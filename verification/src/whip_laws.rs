//! The whipped fold is linear: folding sums of terms, or multiples of
//! terms, gives the sum, or the multiple, of the folds.

use crate::f16::{
    all_nibbles, gf16_add, gf16_mul, lemma_add_closed, lemma_add_self, lemma_low_nibble,
    lemma_mul_associates, lemma_mul_closed, lemma_mul_commutes, lemma_mul_distributes,
    lemma_mul_one_zero,
};
use crate::mayo_operations::{
    column_row, column_rows, pair_term, PublicMap, system_addend, whip_row, whip_rows,
};
use crate::mvector::mul_x_add;
use crate::params::ParamSet;
use crate::vector::{seq_add, seq_scale, seq_zero};
use vstd::prelude::*;

verus! {

/// Horner steps over the terms `t(i, j)` for `j` from `i` up to `j_hi`.
pub open spec fn fold_row(
    acc: Seq<u8>,
    tail: Seq<u8>,
    t: spec_fn(int, int) -> Seq<u8>,
    i: int,
    j_hi: int,
) -> Seq<u8>
    decreases j_hi - i,
{
    if j_hi <= i {
        acc
    } else {
        mul_x_add(fold_row(acc, tail, t, i, j_hi - 1), tail, t(i, j_hi - 1))
    }
}

/// Horner steps over the terms of the rows `k - 1` down to `i_lo`, from a
/// zero accumulator of `m` entries.
pub open spec fn fold_rows(
    tail: Seq<u8>,
    t: spec_fn(int, int) -> Seq<u8>,
    k: int,
    m: nat,
    i_lo: int,
) -> Seq<u8>
    decreases k - i_lo,
{
    if i_lo >= k {
        seq_zero(m)
    } else {
        fold_row(fold_rows(tail, t, k, m, i_lo + 1), tail, t, i_lo, k)
    }
}

/// Whether every term of the pairs `i <= j < k` has `m` nibbles.
pub open spec fn terms_ok(t: spec_fn(int, int) -> Seq<u8>, k: int, m: nat) -> bool {
    forall|i: int, j: int|
        0 <= i <= j < k ==> (#[trigger] t(i, j)).len() == m && all_nibbles(t(i, j))
}

/// A Horner step keeps the length and gives nibbles.
pub proof fn lemma_step_ok(acc: Seq<u8>, tail: Seq<u8>, add: Seq<u8>, m: nat)
    requires
        acc.len() == m,
        add.len() == m,
        m >= 4,
        tail.len() == 4,
        all_nibbles(acc),
        all_nibbles(add),
    ensures
        mul_x_add(acc, tail, add).len() == m,
        all_nibbles(mul_x_add(acc, tail, add)),
{
    let r = mul_x_add(acc, tail, add);
    assert forall|e: int| 0 <= e < r.len() implies #[trigger] r[e] < 16 by {
        let shifted = if e == 0 {
            0u8
        } else {
            acc[e - 1]
        };
        let red = if e < 4 {
            gf16_mul(acc[m - 1], tail[e] & 0x0f)
        } else {
            0u8
        };
        if e > 0 {
            assert(acc[e - 1] < 16);
        }
        assert(acc[m - 1] < 16);
        if e < 4 {
            lemma_low_nibble(tail[e]);
            lemma_mul_closed(acc[m - 1], tail[e] & 0x0f);
        }
        lemma_add_closed(shifted, red);
        assert(add[e] < 16);
        lemma_add_closed(gf16_add(shifted, red), add[e]);
    }
}

/// A Horner step is additive: the step of two sums is the sum of the steps.
pub proof fn lemma_step_add(
    acc1: Seq<u8>,
    acc2: Seq<u8>,
    tail: Seq<u8>,
    add1: Seq<u8>,
    add2: Seq<u8>,
    m: nat,
)
    requires
        acc1.len() == m,
        acc2.len() == m,
        add1.len() == m,
        add2.len() == m,
        m >= 4,
        tail.len() == 4,
        all_nibbles(acc1),
        all_nibbles(acc2),
    ensures
        mul_x_add(seq_add(acc1, acc2), tail, seq_add(add1, add2)) == seq_add(
            mul_x_add(acc1, tail, add1),
            mul_x_add(acc2, tail, add2),
        ),
{
    let left = mul_x_add(seq_add(acc1, acc2), tail, seq_add(add1, add2));
    let right = seq_add(mul_x_add(acc1, tail, add1), mul_x_add(acc2, tail, add2));
    assert forall|e: int| 0 <= e < m implies left[e] == right[e] by {
        let s1 = if e == 0 {
            0u8
        } else {
            acc1[e - 1]
        };
        let s2 = if e == 0 {
            0u8
        } else {
            acc2[e - 1]
        };
        let top1 = acc1[m - 1];
        let top2 = acc2[m - 1];
        assert(top1 < 16 && top2 < 16);
        let r1 = if e < 4 {
            gf16_mul(top1, tail[e] & 0x0f)
        } else {
            0u8
        };
        let r2 = if e < 4 {
            gf16_mul(top2, tail[e] & 0x0f)
        } else {
            0u8
        };
        if e < 4 {
            lemma_low_nibble(tail[e]);
            lemma_mul_distributes(tail[e] & 0x0f, top1, top2);
        } else {
            lemma_add_self(0);
        }
        if e == 0 {
            lemma_add_self(0);
        }
        lemma_six_terms(s1, r1, add1[e], s2, r2, add2[e]);
    }
    assert(left =~= right);
}

/// Six terms in two groups of three can be regrouped in three pairs.
pub proof fn lemma_six_terms(s1: u8, r1: u8, a1: u8, s2: u8, r2: u8, a2: u8)
    ensures
        gf16_add(gf16_add(gf16_add(s1, s2), gf16_add(r1, r2)), gf16_add(a1, a2)) == gf16_add(
            gf16_add(gf16_add(s1, r1), a1),
            gf16_add(gf16_add(s2, r2), a2),
        ),
{
    assert(((s1 ^ s2) ^ (r1 ^ r2)) ^ (a1 ^ a2) == ((s1 ^ r1) ^ a1) ^ ((s2 ^ r2) ^ a2))
        by (bit_vector);
}

/// A Horner step is homogeneous: the step of multiples is the multiple of the step.
pub proof fn lemma_step_scale(acc: Seq<u8>, tail: Seq<u8>, add: Seq<u8>, s: u8, m: nat)
    requires
        acc.len() == m,
        add.len() == m,
        m >= 4,
        tail.len() == 4,
        all_nibbles(acc),
        all_nibbles(add),
        s < 16,
    ensures
        mul_x_add(seq_scale(acc, s), tail, seq_scale(add, s)) == seq_scale(
            mul_x_add(acc, tail, add),
            s,
        ),
{
    let left = mul_x_add(seq_scale(acc, s), tail, seq_scale(add, s));
    let right = seq_scale(mul_x_add(acc, tail, add), s);
    assert forall|e: int| 0 <= e < m implies left[e] == right[e] by {
        let shifted = if e == 0 {
            0u8
        } else {
            acc[e - 1]
        };
        let top = acc[m - 1];
        assert(top < 16);
        let red = if e < 4 {
            gf16_mul(top, tail[e] & 0x0f)
        } else {
            0u8
        };
        if e > 0 {
            assert(acc[e - 1] < 16);
        }
        if e < 4 {
            lemma_low_nibble(tail[e]);
            lemma_mul_closed(top, tail[e] & 0x0f);
            lemma_mul_associates(top, s, tail[e] & 0x0f);
            lemma_mul_commutes(s, tail[e] & 0x0f);
            lemma_mul_associates(top, tail[e] & 0x0f, s);
        }
        lemma_mul_one_zero(s);
        assert(add[e] < 16);
        lemma_add_closed(shifted, red);
        lemma_mul_distributes(s, gf16_add(shifted, red), add[e]);
        lemma_mul_distributes(s, shifted, red);
    }
    assert(left =~= right);
}

/// A row of the fold keeps the length and gives nibbles.
pub proof fn lemma_fold_row_ok(
    acc: Seq<u8>,
    tail: Seq<u8>,
    t: spec_fn(int, int) -> Seq<u8>,
    k: int,
    m: nat,
    i: int,
    j_hi: int,
)
    requires
        acc.len() == m,
        all_nibbles(acc),
        m >= 4,
        tail.len() == 4,
        terms_ok(t, k, m),
        0 <= i <= j_hi <= k,
    ensures
        fold_row(acc, tail, t, i, j_hi).len() == m,
        all_nibbles(fold_row(acc, tail, t, i, j_hi)),
    decreases j_hi - i,
{
    if j_hi > i {
        lemma_fold_row_ok(acc, tail, t, k, m, i, j_hi - 1);
        assert(t(i, j_hi - 1).len() == m && all_nibbles(t(i, j_hi - 1)));
        lemma_step_ok(fold_row(acc, tail, t, i, j_hi - 1), tail, t(i, j_hi - 1), m);
    }
}

/// The fold keeps the length and gives nibbles.
pub proof fn lemma_fold_rows_ok(
    tail: Seq<u8>,
    t: spec_fn(int, int) -> Seq<u8>,
    k: int,
    m: nat,
    i_lo: int,
)
    requires
        m >= 4,
        tail.len() == 4,
        terms_ok(t, k, m),
        0 <= i_lo <= k,
    ensures
        fold_rows(tail, t, k, m, i_lo).len() == m,
        all_nibbles(fold_rows(tail, t, k, m, i_lo)),
    decreases k - i_lo,
{
    if i_lo < k {
        lemma_fold_rows_ok(tail, t, k, m, i_lo + 1);
        lemma_fold_row_ok(fold_rows(tail, t, k, m, i_lo + 1), tail, t, k, m, i_lo, k);
    }
}

/// Whether `t` is the pointwise sum of `t1` and `t2` on the pairs `i <= j < k`.
pub open spec fn terms_sum(
    t: spec_fn(int, int) -> Seq<u8>,
    t1: spec_fn(int, int) -> Seq<u8>,
    t2: spec_fn(int, int) -> Seq<u8>,
    k: int,
) -> bool {
    forall|i: int, j: int| 0 <= i <= j < k ==> #[trigger] t(i, j) == seq_add(t1(i, j), t2(i, j))
}

/// Whether `t` is `s` times `t1` on the pairs `i <= j < k`.
pub open spec fn terms_scaled(
    t: spec_fn(int, int) -> Seq<u8>,
    t1: spec_fn(int, int) -> Seq<u8>,
    s: u8,
    k: int,
) -> bool {
    forall|i: int, j: int| 0 <= i <= j < k ==> #[trigger] t(i, j) == seq_scale(t1(i, j), s)
}

/// A row of the fold is additive.
pub proof fn lemma_fold_row_add(
    acc1: Seq<u8>,
    acc2: Seq<u8>,
    tail: Seq<u8>,
    t: spec_fn(int, int) -> Seq<u8>,
    t1: spec_fn(int, int) -> Seq<u8>,
    t2: spec_fn(int, int) -> Seq<u8>,
    k: int,
    m: nat,
    i: int,
    j_hi: int,
)
    requires
        acc1.len() == m,
        acc2.len() == m,
        all_nibbles(acc1),
        all_nibbles(acc2),
        m >= 4,
        tail.len() == 4,
        terms_ok(t1, k, m),
        terms_ok(t2, k, m),
        terms_sum(t, t1, t2, k),
        0 <= i <= j_hi <= k,
    ensures
        fold_row(seq_add(acc1, acc2), tail, t, i, j_hi) == seq_add(
            fold_row(acc1, tail, t1, i, j_hi),
            fold_row(acc2, tail, t2, i, j_hi),
        ),
    decreases j_hi - i,
{
    if j_hi > i {
        lemma_fold_row_add(acc1, acc2, tail, t, t1, t2, k, m, i, j_hi - 1);
        lemma_fold_row_ok(acc1, tail, t1, k, m, i, j_hi - 1);
        lemma_fold_row_ok(acc2, tail, t2, k, m, i, j_hi - 1);
        assert(t(i, j_hi - 1) == seq_add(t1(i, j_hi - 1), t2(i, j_hi - 1)));
        assert(t1(i, j_hi - 1).len() == m && t2(i, j_hi - 1).len() == m);
        lemma_step_add(
            fold_row(acc1, tail, t1, i, j_hi - 1),
            fold_row(acc2, tail, t2, i, j_hi - 1),
            tail,
            t1(i, j_hi - 1),
            t2(i, j_hi - 1),
            m,
        );
    }
}

/// The fold is additive: the fold of sums of terms is the sum of the folds.
pub proof fn lemma_fold_rows_add(
    tail: Seq<u8>,
    t: spec_fn(int, int) -> Seq<u8>,
    t1: spec_fn(int, int) -> Seq<u8>,
    t2: spec_fn(int, int) -> Seq<u8>,
    k: int,
    m: nat,
    i_lo: int,
)
    requires
        m >= 4,
        tail.len() == 4,
        terms_ok(t1, k, m),
        terms_ok(t2, k, m),
        terms_sum(t, t1, t2, k),
        0 <= i_lo <= k,
    ensures
        fold_rows(tail, t, k, m, i_lo) == seq_add(
            fold_rows(tail, t1, k, m, i_lo),
            fold_rows(tail, t2, k, m, i_lo),
        ),
    decreases k - i_lo,
{
    if i_lo < k {
        lemma_fold_rows_add(tail, t, t1, t2, k, m, i_lo + 1);
        lemma_fold_rows_ok(tail, t1, k, m, i_lo + 1);
        lemma_fold_rows_ok(tail, t2, k, m, i_lo + 1);
        lemma_fold_row_add(
            fold_rows(tail, t1, k, m, i_lo + 1),
            fold_rows(tail, t2, k, m, i_lo + 1),
            tail,
            t,
            t1,
            t2,
            k,
            m,
            i_lo,
            k,
        );
    } else {
        assert(seq_zero(m) =~= seq_add(seq_zero(m), seq_zero(m))) by {
            lemma_add_self(0);
        }
    }
}

/// A row of the fold is homogeneous.
pub proof fn lemma_fold_row_scale(
    acc: Seq<u8>,
    tail: Seq<u8>,
    t: spec_fn(int, int) -> Seq<u8>,
    t1: spec_fn(int, int) -> Seq<u8>,
    s: u8,
    k: int,
    m: nat,
    i: int,
    j_hi: int,
)
    requires
        acc.len() == m,
        all_nibbles(acc),
        m >= 4,
        tail.len() == 4,
        s < 16,
        terms_ok(t1, k, m),
        terms_scaled(t, t1, s, k),
        0 <= i <= j_hi <= k,
    ensures
        fold_row(seq_scale(acc, s), tail, t, i, j_hi) == seq_scale(
            fold_row(acc, tail, t1, i, j_hi),
            s,
        ),
    decreases j_hi - i,
{
    if j_hi > i {
        lemma_fold_row_scale(acc, tail, t, t1, s, k, m, i, j_hi - 1);
        lemma_fold_row_ok(acc, tail, t1, k, m, i, j_hi - 1);
        assert(t(i, j_hi - 1) == seq_scale(t1(i, j_hi - 1), s));
        assert(t1(i, j_hi - 1).len() == m && all_nibbles(t1(i, j_hi - 1)));
        lemma_step_scale(fold_row(acc, tail, t1, i, j_hi - 1), tail, t1(i, j_hi - 1), s, m);
    }
}

/// The fold is homogeneous: the fold of multiples of terms is the multiple
/// of the fold.
pub proof fn lemma_fold_rows_scale(
    tail: Seq<u8>,
    t: spec_fn(int, int) -> Seq<u8>,
    t1: spec_fn(int, int) -> Seq<u8>,
    s: u8,
    k: int,
    m: nat,
    i_lo: int,
)
    requires
        m >= 4,
        tail.len() == 4,
        s < 16,
        terms_ok(t1, k, m),
        terms_scaled(t, t1, s, k),
        0 <= i_lo <= k,
    ensures
        fold_rows(tail, t, k, m, i_lo) == seq_scale(fold_rows(tail, t1, k, m, i_lo), s),
    decreases k - i_lo,
{
    if i_lo < k {
        lemma_fold_rows_scale(tail, t, t1, s, k, m, i_lo + 1);
        lemma_fold_rows_ok(tail, t1, k, m, i_lo + 1);
        lemma_fold_row_scale(
            fold_rows(tail, t1, k, m, i_lo + 1),
            tail,
            t,
            t1,
            s,
            k,
            m,
            i_lo,
            k,
        );
    } else {
        assert(seq_zero(m) =~= seq_scale(seq_zero(m), s)) by {
            lemma_mul_one_zero(s);
        }
    }
}

/// The pair terms of the whipped map, as a function of the pair.
pub open spec fn pair_terms(ps: ParamSet, pm: PublicMap, s: Seq<Seq<u8>>) -> spec_fn(int, int) -> Seq<
    u8,
> {
    |i: int, j: int| pair_term(ps, pm, s, i, j)
}

/// What the pairs add to one column of the signing system, as a function of the pair.
pub open spec fn addend_terms(ms: Seq<Seq<Seq<u8>>>, block: int, c: int, m: nat) -> spec_fn(
    int,
    int,
) -> Seq<u8> {
    |i: int, j: int| system_addend(ms, i, j, block, c, m)
}

/// A row of the whipped map is a row of the fold of its pair terms.
pub proof fn lemma_whip_row_is_fold(
    acc: Seq<u8>,
    ps: ParamSet,
    pm: PublicMap,
    s: Seq<Seq<u8>>,
    i: int,
    j_hi: int,
)
    ensures
        whip_row(acc, ps, pm, s, i, j_hi) == fold_row(
            acc,
            ps.f_tail@,
            pair_terms(ps, pm, s),
            i,
            j_hi,
        ),
    decreases j_hi - i,
{
    if j_hi > i {
        lemma_whip_row_is_fold(acc, ps, pm, s, i, j_hi - 1);
    }
}

/// The whipped map is the fold of its pair terms.
pub proof fn lemma_whip_rows_is_fold(ps: ParamSet, pm: PublicMap, s: Seq<Seq<u8>>, i_lo: int)
    ensures
        whip_rows(ps, pm, s, i_lo) == fold_rows(
            ps.f_tail@,
            pair_terms(ps, pm, s),
            ps.k as int,
            ps.m as nat,
            i_lo,
        ),
    decreases ps.k - i_lo,
{
    if i_lo < ps.k {
        lemma_whip_rows_is_fold(ps, pm, s, i_lo + 1);
        lemma_whip_row_is_fold(whip_rows(ps, pm, s, i_lo + 1), ps, pm, s, i_lo, ps.k as int);
    }
}

/// A row of a system column is a row of the fold of its addends.
pub proof fn lemma_column_row_is_fold(
    acc: Seq<u8>,
    ps: ParamSet,
    ms: Seq<Seq<Seq<u8>>>,
    block: int,
    c: int,
    i: int,
    j_hi: int,
)
    ensures
        column_row(acc, ps, ms, block, c, i, j_hi) == fold_row(
            acc,
            ps.f_tail@,
            addend_terms(ms, block, c, ps.m as nat),
            i,
            j_hi,
        ),
    decreases j_hi - i,
{
    if j_hi > i {
        lemma_column_row_is_fold(acc, ps, ms, block, c, i, j_hi - 1);
    }
}

/// A system column is the fold of its addends.
pub proof fn lemma_column_rows_is_fold(
    ps: ParamSet,
    ms: Seq<Seq<Seq<u8>>>,
    block: int,
    c: int,
    i_lo: int,
)
    ensures
        column_rows(ps, ms, block, c, i_lo) == fold_rows(
            ps.f_tail@,
            addend_terms(ms, block, c, ps.m as nat),
            ps.k as int,
            ps.m as nat,
            i_lo,
        ),
    decreases ps.k - i_lo,
{
    if i_lo < ps.k {
        lemma_column_rows_is_fold(ps, ms, block, c, i_lo + 1);
        lemma_column_row_is_fold(
            column_rows(ps, ms, block, c, i_lo + 1),
            ps,
            ms,
            block,
            c,
            i_lo,
            ps.k as int,
        );
    }
}

} // verus!
