//! The signing system, column by column: the whipped fold of the linear
//! parts of the pair terms is the system matrix times the oil values.

use crate::f16::{
    all_nibbles, gf16_add, gf16_mul, lemma_add_closed, lemma_add_laws, lemma_add_self,
    lemma_low_nibble, lemma_mul_closed, lemma_mul_one_zero,
};
use crate::key_laws::{lemma_vinegar_times_entry, vl_term};
use crate::linear_laws::{nibble_rows, solves};
use crate::linear_part_laws::{lemma_ls_entry, ls_of, mx_term};
use crate::matrix::{column, has_shape, lemma_flat_index};
use crate::mayo_operations::{
    column_rows, lemma_position, linear_parts, map_at, oil_part, PublicMap, signature_inputs,
    system_addend, system_columns, system_matrix, system_rhs, vinegar_inputs, vinegar_times,
    whipped_map,
};
use crate::params::ParamSet;
use crate::scheme_laws::input_ok;
use crate::signing_laws::{
    lemma_map_ok, lemma_pair_term_diagonal, lemma_pair_term_off_diagonal, lemma_seq_add_ok,
    lemma_signature_input, lin_entry, signing_ok,
};
use crate::sums::{
    lemma_rect_sum_as_sum, lemma_row_sum_as_sum, lemma_row_sum_zero, lemma_sum_flatten,
    lemma_sum_nibble, lemma_sum_one_point, lemma_sum_two_points, row_sum, sum_over,
};
use crate::trapdoor_laws::rect_rows;
use crate::vector::{dot_range, seq_add, seq_dot, seq_scale, seq_zero};
use crate::whip_laws::{
    addend_terms, fold_rows, lemma_column_rows_is_fold, lemma_fold_rows_add, lemma_fold_rows_ok,
    lemma_fold_rows_scale, lemma_whip_rows_is_fold, pair_terms, terms_ok, terms_scaled, terms_sum,
};
use vstd::prelude::*;

verus! {

/// Whether `ms` holds, for each of the `k` inputs, `o` batches of `m` nibbles.
pub open spec fn grid_ok(ps: ParamSet, ms: Seq<Seq<Seq<u8>>>) -> bool {
    &&& ms.len() == ps.k
    &&& forall|i: int, c: int|
        0 <= i < ps.k && 0 <= c < ps.o ==> (#[trigger] ms[i][c]).len() == ps.m && all_nibbles(
            ms[i][c],
        )
}

/// What the pair (`i`, `j`) adds to the system column `col`.
pub open spec fn col_addend(ps: ParamSet, ms: Seq<Seq<Seq<u8>>>, i: int, j: int, col: int) -> Seq<
    u8,
> {
    system_addend(ms, i, j, col / (ps.o as int), col % (ps.o as int), ps.m as nat)
}

/// The linear part of the pair term (`i`, `j`) from the first `n` oil
/// values: the sum of their addends, each times its oil value.
pub open spec fn lin_sum(
    ps: ParamSet,
    ms: Seq<Seq<Seq<u8>>>,
    x: Seq<u8>,
    i: int,
    j: int,
    n: int,
) -> Seq<u8>
    decreases n,
{
    if n <= 0 {
        seq_zero(ps.m as nat)
    } else {
        seq_add(
            lin_sum(ps, ms, x, i, j, n - 1),
            seq_scale(col_addend(ps, ms, i, j, n - 1), x[n - 1]),
        )
    }
}

/// The linear parts of all pair terms from the first `n` oil values.
pub open spec fn lin_terms(ps: ParamSet, ms: Seq<Seq<Seq<u8>>>, x: Seq<u8>, n: int) -> spec_fn(
    int,
    int,
) -> Seq<u8> {
    |i: int, j: int| lin_sum(ps, ms, x, i, j, n)
}

/// The addends of the system column `col`, each times the oil value `s`.
pub open spec fn scaled_terms(ps: ParamSet, ms: Seq<Seq<Seq<u8>>>, col: int, s: u8) -> spec_fn(
    int,
    int,
) -> Seq<u8> {
    |i: int, j: int| seq_scale(col_addend(ps, ms, i, j, col), s)
}

/// The first `n` columns of the signing system, each times its oil value, summed.
pub open spec fn columns_sum(ps: ParamSet, ms: Seq<Seq<Seq<u8>>>, x: Seq<u8>, n: int) -> Seq<u8>
    decreases n,
{
    if n <= 0 {
        seq_zero(ps.m as nat)
    } else {
        seq_add(
            columns_sum(ps, ms, x, n - 1),
            seq_scale(system_columns(ps, ms)[n - 1], x[n - 1]),
        )
    }
}

/// A column number gives an input and one of its oil variables.
pub proof fn lemma_column_position(ps: ParamSet, col: int)
    requires
        ps.wf(),
        0 <= col < ps.k * ps.o,
    ensures
        0 <= col / (ps.o as int) < ps.k,
        0 <= col % (ps.o as int) < ps.o,
        col == (col / (ps.o as int)) * ps.o + col % (ps.o as int),
{
    let o = ps.o as int;
    vstd::arithmetic::div_mod::lemma_fundamental_div_mod(col, o);
    vstd::arithmetic::div_mod::lemma_mod_bound(col, o);
    assert(col / o < ps.k) by (nonlinear_arith)
        requires
            col < ps.k * o,
            col == o * (col / o) + col % o,
            0 <= col % o,
            o > 0,
    ;
    assert(0 <= col / o) by (nonlinear_arith)
        requires
            col >= 0,
            col == o * (col / o) + col % o,
            col % o < o,
            o > 0,
    ;
    assert(o * (col / o) == (col / o) * o) by (nonlinear_arith);
}

/// The addends of a column have `m` nibbles.
pub proof fn lemma_addend_terms_ok(ps: ParamSet, ms: Seq<Seq<Seq<u8>>>, block: int, c: int)
    requires
        grid_ok(ps, ms),
        0 <= block < ps.k,
        0 <= c < ps.o,
    ensures
        terms_ok(addend_terms(ms, block, c, ps.m as nat), ps.k as int, ps.m as nat),
{
    let t = addend_terms(ms, block, c, ps.m as nat);
    assert forall|i: int, j: int| 0 <= i <= j < ps.k implies (#[trigger] t(i, j)).len() == ps.m
        && all_nibbles(t(i, j)) by {
        assert(ms[i][c].len() == ps.m && all_nibbles(ms[i][c]));
        assert(ms[j][c].len() == ps.m && all_nibbles(ms[j][c]));
    }
}

/// A multiple of a sequence of nibbles is a sequence of nibbles.
pub proof fn lemma_seq_scale_ok(a: Seq<u8>, s: u8)
    requires
        all_nibbles(a),
        s < 16,
    ensures
        all_nibbles(seq_scale(a, s)),
        seq_scale(a, s).len() == a.len(),
{
    assert forall|k: int| 0 <= k < a.len() implies #[trigger] seq_scale(a, s)[k] < 16 by {
        assert(a[k] < 16);
        lemma_mul_closed(a[k], s);
    }
}

/// The partial linear parts have `m` nibbles.
pub proof fn lemma_lin_terms_ok(ps: ParamSet, ms: Seq<Seq<Seq<u8>>>, x: Seq<u8>, n: int)
    requires
        ps.wf(),
        grid_ok(ps, ms),
        x.len() == ps.k * ps.o,
        all_nibbles(x),
        0 <= n <= ps.k * ps.o,
    ensures
        terms_ok(lin_terms(ps, ms, x, n), ps.k as int, ps.m as nat),
    decreases n,
{
    let t = lin_terms(ps, ms, x, n);
    if n > 0 {
        lemma_lin_terms_ok(ps, ms, x, n - 1);
        lemma_column_position(ps, n - 1);
        let block = (n - 1) / (ps.o as int);
        let c = (n - 1) % (ps.o as int);
        lemma_addend_terms_ok(ps, ms, block, c);
        let prev = lin_terms(ps, ms, x, n - 1);
        let addend = addend_terms(ms, block, c, ps.m as nat);
        assert forall|i: int, j: int| 0 <= i <= j < ps.k implies (#[trigger] t(i, j)).len() == ps.m
            && all_nibbles(t(i, j)) by {
            assert(prev(i, j).len() == ps.m && all_nibbles(prev(i, j)));
            assert(addend(i, j).len() == ps.m && all_nibbles(addend(i, j)));
            assert(x[n - 1] < 16);
            lemma_seq_scale_ok(addend(i, j), x[n - 1]);
            let scaled = seq_scale(addend(i, j), x[n - 1]);
            assert forall|e: int| 0 <= e < ps.m implies #[trigger] t(i, j)[e] < 16 by {
                assert(prev(i, j)[e] < 16 && scaled[e] < 16);
                lemma_add_closed(prev(i, j)[e], scaled[e]);
            }
        }
    } else {
        assert forall|i: int, j: int| 0 <= i <= j < ps.k implies (#[trigger] t(i, j)).len() == ps.m
            && all_nibbles(t(i, j)) by {}
    }
}

/// The whipped fold of the linear parts from the first `n` oil values is
/// the sum of the first `n` columns of the system, each times its oil value.
pub proof fn lemma_fold_of_linear_parts(ps: ParamSet, ms: Seq<Seq<Seq<u8>>>, x: Seq<u8>, n: int)
    requires
        ps.wf(),
        grid_ok(ps, ms),
        x.len() == ps.k * ps.o,
        all_nibbles(x),
        0 <= n <= ps.k * ps.o,
    ensures
        fold_rows(ps.f_tail@, lin_terms(ps, ms, x, n), ps.k as int, ps.m as nat, 0) == columns_sum(
            ps,
            ms,
            x,
            n,
        ),
    decreases n,
{
    let tail = ps.f_tail@;
    let k = ps.k as int;
    let m = ps.m as nat;
    if n > 0 {
        lemma_fold_of_linear_parts(ps, ms, x, n - 1);
        lemma_column_position(ps, n - 1);
        let block = (n - 1) / (ps.o as int);
        let c = (n - 1) % (ps.o as int);
        let s = x[n - 1];
        assert(s < 16);
        let t = lin_terms(ps, ms, x, n);
        let prev = lin_terms(ps, ms, x, n - 1);
        let scaled = scaled_terms(ps, ms, n - 1, s);
        let addend = addend_terms(ms, block, c, m);
        lemma_lin_terms_ok(ps, ms, x, n - 1);
        lemma_addend_terms_ok(ps, ms, block, c);
        assert(terms_ok(scaled, k, m)) by {
            assert forall|i: int, j: int| 0 <= i <= j < k implies (#[trigger] scaled(i, j)).len()
                == m && all_nibbles(scaled(i, j)) by {
                assert(addend(i, j).len() == m && all_nibbles(addend(i, j)));
                lemma_seq_scale_ok(addend(i, j), s);
            }
        }
        assert(terms_sum(t, prev, scaled, k)) by {
            assert forall|i: int, j: int| 0 <= i <= j < k implies #[trigger] t(i, j) == seq_add(
                prev(i, j),
                scaled(i, j),
            ) by {}
        }
        lemma_fold_rows_add(tail, t, prev, scaled, k, m, 0);
        assert(terms_scaled(scaled, addend, s, k)) by {
            assert forall|i: int, j: int| 0 <= i <= j < k implies #[trigger] scaled(i, j)
                == seq_scale(addend(i, j), s) by {}
        }
        lemma_fold_rows_scale(tail, scaled, addend, s, k, m, 0);
        lemma_column_rows_is_fold(ps, ms, block, c, 0);
        assert(system_columns(ps, ms)[n - 1] == column_rows(ps, ms, block, c, 0));
    } else {
        lemma_fold_zero(ps, lin_terms(ps, ms, x, 0), 0);
    }
}

/// The whipped fold of zero terms is zero.
pub proof fn lemma_fold_zero(ps: ParamSet, t: spec_fn(int, int) -> Seq<u8>, i_lo: int)
    requires
        ps.wf(),
        0 <= i_lo <= ps.k,
        forall|i: int, j: int| 0 <= i <= j < ps.k ==> #[trigger] t(i, j) == seq_zero(ps.m as nat),
    ensures
        fold_rows(ps.f_tail@, t, ps.k as int, ps.m as nat, i_lo) == seq_zero(ps.m as nat),
    decreases ps.k - i_lo,
{
    if i_lo < ps.k {
        lemma_fold_zero(ps, t, i_lo + 1);
        lemma_fold_row_zero(ps, t, i_lo, ps.k as int);
    }
}

/// A row of the whipped fold of zero terms, from zero, is zero.
pub proof fn lemma_fold_row_zero(ps: ParamSet, t: spec_fn(int, int) -> Seq<u8>, i: int, j_hi: int)
    requires
        ps.wf(),
        0 <= i <= j_hi <= ps.k,
        forall|a: int, b: int| 0 <= a <= b < ps.k ==> #[trigger] t(a, b) == seq_zero(ps.m as nat),
    ensures
        crate::whip_laws::fold_row(seq_zero(ps.m as nat), ps.f_tail@, t, i, j_hi) == seq_zero(
            ps.m as nat,
        ),
    decreases j_hi - i,
{
    if j_hi > i {
        lemma_fold_row_zero(ps, t, i, j_hi - 1);
        assert(t(i, j_hi - 1) == seq_zero(ps.m as nat));
        let z = seq_zero(ps.m as nat);
        let r = crate::mvector::mul_x_add(z, ps.f_tail@, z);
        assert forall|e: int| 0 <= e < ps.m implies r[e] == 0 by {
            lemma_low_nibble(ps.f_tail@[if e < 4 {
                e
            } else {
                0
            }]);
            lemma_mul_one_zero(ps.f_tail@[if e < 4 {
                e
            } else {
                0
            }] & 0x0f);
            lemma_add_self(0);
        }
        assert(r =~= z);
    }
}

/// Entry `e` of the sum of the first `n` columns, each times its oil value,
/// is the dot product of row `e` of the system matrix with the oil values,
/// over the first `n` of them.
pub proof fn lemma_columns_sum_entry(
    ps: ParamSet,
    ms: Seq<Seq<Seq<u8>>>,
    x: Seq<u8>,
    n: int,
    e: int,
)
    requires
        ps.wf(),
        0 <= n <= ps.k * ps.o,
        0 <= e < ps.m,
        forall|col: int|
            0 <= col < ps.k * ps.o ==> (#[trigger] system_columns(ps, ms)[col]).len() == ps.m,
    ensures
        columns_sum(ps, ms, x, n).len() == ps.m,
        columns_sum(ps, ms, x, n)[e] == dot_range(system_matrix(ps, ms)[e], x, 0, n),
    decreases n,
{
    if n > 0 {
        lemma_columns_sum_entry(ps, ms, x, n - 1, e);
        assert(system_columns(ps, ms)[n - 1].len() == ps.m);
        assert(system_matrix(ps, ms)[e][n - 1] == system_columns(ps, ms)[n - 1][e]);
    }
}

/// The columns of the signing system have `m` nibbles.
pub proof fn lemma_system_columns_ok(ps: ParamSet, ms: Seq<Seq<Seq<u8>>>, col: int)
    requires
        ps.wf(),
        grid_ok(ps, ms),
        0 <= col < ps.k * ps.o,
    ensures
        system_columns(ps, ms)[col].len() == ps.m,
        all_nibbles(system_columns(ps, ms)[col]),
{
    lemma_column_position(ps, col);
    let block = col / (ps.o as int);
    let c = col % (ps.o as int);
    lemma_addend_terms_ok(ps, ms, block, c);
    lemma_column_rows_is_fold(ps, ms, block, c, 0);
    lemma_fold_rows_ok(
        ps.f_tail@,
        addend_terms(ms, block, c, ps.m as nat),
        ps.k as int,
        ps.m as nat,
        0,
    );
}

/// The term that oil value `col` adds to equation `e` of the linear part
/// of the pair term (`i`, `j`).
pub open spec fn la_term(
    ps: ParamSet,
    ms: Seq<Seq<Seq<u8>>>,
    x: Seq<u8>,
    i: int,
    j: int,
    e: int,
) -> spec_fn(int) -> u8 {
    |col: int| gf16_mul(col_addend(ps, ms, i, j, col)[e], x[col])
}

/// The same term, by input and oil variable.
pub open spec fn lb_term(
    ps: ParamSet,
    ms: Seq<Seq<Seq<u8>>>,
    x: Seq<u8>,
    i: int,
    j: int,
    e: int,
) -> spec_fn(int, int) -> u8 {
    |b: int, c: int| gf16_mul(system_addend(ms, i, j, b, c, ps.m as nat)[e], x[b * ps.o + c])
}

/// Entry `e` of a partial linear part is the sum of its terms.
pub proof fn lemma_lin_sum_entry(
    ps: ParamSet,
    ms: Seq<Seq<Seq<u8>>>,
    x: Seq<u8>,
    i: int,
    j: int,
    n: int,
    e: int,
)
    requires
        ps.wf(),
        grid_ok(ps, ms),
        0 <= i <= j < ps.k,
        0 <= n <= ps.k * ps.o,
        0 <= e < ps.m,
    ensures
        lin_sum(ps, ms, x, i, j, n).len() == ps.m,
        lin_sum(ps, ms, x, i, j, n)[e] == sum_over(la_term(ps, ms, x, i, j, e), 0, n),
    decreases n,
{
    if n > 0 {
        lemma_lin_sum_entry(ps, ms, x, i, j, n - 1, e);
        lemma_column_position(ps, n - 1);
        let block = (n - 1) / (ps.o as int);
        let c = (n - 1) % (ps.o as int);
        assert(ms[i][c].len() == ps.m);
        assert(ms[j][c].len() == ps.m);
        assert(col_addend(ps, ms, i, j, n - 1).len() == ps.m);
    }
}

/// The linear part of the pair term (`i`, `j`) from all oil values, one
/// equation at a time: only the oil values of the inputs `i` and `j` count.
pub proof fn lemma_lin_sum_is_lin_entry(
    ps: ParamSet,
    ms: Seq<Seq<Seq<u8>>>,
    x: Seq<u8>,
    i: int,
    j: int,
    e: int,
)
    requires
        ps.wf(),
        grid_ok(ps, ms),
        input_ok(x, (ps.k * ps.o) as nat),
        0 <= i <= j < ps.k,
        0 <= e < ps.m,
    ensures
        lin_sum(ps, ms, x, i, j, ps.k * ps.o).len() == ps.m,
        lin_sum(ps, ms, x, i, j, ps.k * ps.o)[e] == lin_entry(ps, ms, x, i, j, e),
{
    let k = ps.k as int;
    let o = ps.o as int;
    lemma_lin_sum_entry(ps, ms, x, i, j, k * o, e);
    let la = la_term(ps, ms, x, i, j, e);
    let lb = lb_term(ps, ms, x, i, j, e);
    assert forall|b: int, c: int| 0 <= b < k && 0 <= c < o implies #[trigger] lb(b, c) == la(
        b * o + c,
    ) by {
        lemma_position(b, c, o);
    }
    lemma_sum_flatten(la, lb, k, o);
    let rows = rect_rows(lb, o);
    assert forall|b: int| 0 <= b < k implies #[trigger] rows(b) == row_sum(lb, b, 0, o) by {}
    lemma_rect_sum_as_sum(lb, rows, k, o);
    let xi = oil_part(ps, x, i);
    let xj = oil_part(ps, x, j);
    lemma_flat_index(i, o - 1, k, o);
    lemma_flat_index(j, o - 1, k, o);
    // Row i holds the linear part of input j at the oil values of input i.
    let fi = mx_term(ms[j], xi, e);
    assert forall|c: int| 0 <= c < o implies #[trigger] fi(c) == lb(i, c) by {
        assert(xi[c] == x[i * o + c]);
    }
    lemma_row_sum_as_sum(lb, fi, i, 0, o);
    // Every other row but row j is zero.
    assert forall|b: int| 0 <= b < k && b != i && b != j implies #[trigger] rows(b) == 0 by {
        assert forall|c: int| 0 <= c < o implies #[trigger] lb(b, c) == 0 by {
            lemma_flat_index(b, c, k, o);
            assert(x[b * o + c] < 16);
            lemma_mul_one_zero(x[b * o + c]);
        }
        lemma_row_sum_zero(lb, b, 0, o);
    }
    if i == j {
        lemma_sum_one_point(rows, 0, k, i);
    } else {
        let fj = mx_term(ms[i], xj, e);
        assert forall|c: int| 0 <= c < o implies #[trigger] fj(c) == lb(j, c) by {
            assert(xj[c] == x[j * o + c]);
        }
        lemma_row_sum_as_sum(lb, fj, j, 0, o);
        lemma_sum_two_points(rows, 0, k, i, j);
        lemma_add_laws(sum_over(fi, 0, o), sum_over(fj, 0, o), 0);
    }
}

/// The linear parts of the vinegar vectors hold nibbles.
pub proof fn lemma_linear_parts_ok(
    ps: ParamSet,
    pm: PublicMap,
    om: Seq<Seq<u8>>,
    vins: Seq<Seq<u8>>,
    x: Seq<u8>,
)
    requires
        signing_ok(ps, pm, om, vins, x),
    ensures
        grid_ok(ps, linear_parts(ps, vins, ls_of(ps, pm.p1, pm.p2, om))),
{
    let ls = ls_of(ps, pm.p1, pm.p2, om);
    let ms = linear_parts(ps, vins, ls);
    let z = seq_zero(ps.o as nat);
    assert(input_ok(z, ps.o as nat)) by {
        assert forall|c: int| 0 <= c < z.len() implies #[trigger] z[c] < 16 by {}
    }
    assert forall|i: int, c: int| 0 <= i < ps.k && 0 <= c < ps.o implies (#[trigger] ms[i][c]).len()
        == ps.m && all_nibbles(ms[i][c]) by {
        assert(ms[i] == vinegar_times(ps, vins[i], ls));
        assert(vins[i].len() == ps.spec_v() && all_nibbles(vins[i]));
        lemma_vinegar_times_entry(ps, vins[i], ls, c, 0);
        assert forall|e: int| 0 <= e < ps.m implies #[trigger] ms[i][c][e] < 16 by {
            lemma_vinegar_times_entry(ps, vins[i], ls, c, e);
            let term = vl_term(ls, vins[i], ps.o as int, c, e);
            assert forall|a: int| 0 <= a < ps.spec_v() implies #[trigger] term(a) < 16 by {
                lemma_ls_entry(ps, pm.p1, pm.p2, om, z, a, c, e);
                assert(vins[i][a] < 16);
                lemma_mul_closed(ls[a * ps.o + c][e], vins[i][a]);
            }
            lemma_sum_nibble(term, 0, ps.spec_v() as int);
        }
    }
}

/// The pair terms at inputs of nibbles have `m` nibbles.
pub proof fn lemma_pair_terms_ok(ps: ParamSet, pm: PublicMap, s: Seq<Seq<u8>>)
    requires
        ps.wf(),
        crate::scheme_laws::map_ok(pm.p1, pm.p2, pm.p3, ps.spec_v(), ps.o as nat, ps.m as nat),
        has_shape(s, ps.k as nat, ps.n as nat),
        nibble_rows(s),
    ensures
        terms_ok(pair_terms(ps, pm, s), ps.k as int, ps.m as nat),
{
    let t = pair_terms(ps, pm, s);
    assert forall|i: int, j: int| 0 <= i <= j < ps.k implies (#[trigger] t(i, j)).len() == ps.m
        && all_nibbles(t(i, j)) by {
        assert(s[i].len() == ps.n && all_nibbles(s[i]));
        assert(s[j].len() == ps.n && all_nibbles(s[j]));
        lemma_map_ok(ps, pm, s[i]);
        lemma_map_ok(ps, pm, s[j]);
        if i != j {
            lemma_seq_add_ok(s[i], s[j], ps.n as nat);
            lemma_map_ok(ps, pm, seq_add(s[i], s[j]));
            let q12 = map_at(ps, pm, seq_add(s[i], s[j]));
            let q1 = map_at(ps, pm, s[i]);
            let q2 = map_at(ps, pm, s[j]);
            lemma_seq_add_ok(q12, q1, ps.m as nat);
            lemma_seq_add_ok(seq_add(q12, q1), q2, ps.m as nat);
        }
    }
}

/// Why signing works: where the oil values `x` solve the signing system of
/// a key for the vinegar vectors `vins` and the target `t`, the whipped map
/// at the inputs that `x` gives is `t`.
pub proof fn lemma_solution_signs(
    ps: ParamSet,
    pm: PublicMap,
    om: Seq<Seq<u8>>,
    vins: Seq<Seq<u8>>,
    x: Seq<u8>,
    t: Seq<u8>,
)
    requires
        signing_ok(ps, pm, om, vins, x),
        input_ok(t, ps.m as nat),
        solves(
            system_matrix(ps, linear_parts(ps, vins, ls_of(ps, pm.p1, pm.p2, om))),
            system_rhs(ps, pm, t, vins),
            x,
        ),
    ensures
        whipped_map(ps, pm, signature_inputs(ps, vins, om, x)) == t,
{
    let k = ps.k as int;
    let o = ps.o as int;
    let m = ps.m as nat;
    let tail = ps.f_tail@;
    let ls = ls_of(ps, pm.p1, pm.p2, om);
    let ms = linear_parts(ps, vins, ls);
    let s = signature_inputs(ps, vins, om, x);
    let vh = vinegar_inputs(ps, vins);
    let a = system_matrix(ps, ms);
    let y = system_rhs(ps, pm, t, vins);
    lemma_linear_parts_ok(ps, pm, om, vins, x);
    // Shapes of the two sets of inputs.
    assert(has_shape(s, ps.k as nat, ps.n as nat) && nibble_rows(s) && has_shape(
        vh,
        ps.k as nat,
        ps.n as nat,
    ) && nibble_rows(vh)) by {
        assert forall|i: int| 0 <= i < k implies (#[trigger] s[i]).len() == ps.n && all_nibbles(
            s[i],
        ) by {
            lemma_signature_input(ps, pm, om, vins, x, i);
        }
        assert forall|i: int| 0 <= i < k implies (#[trigger] vh[i]).len() == ps.n && all_nibbles(
            vh[i],
        ) by {
            lemma_signature_input(ps, pm, om, vins, x, i);
        }
    }
    let terms = pair_terms(ps, pm, s);
    let terms0 = pair_terms(ps, pm, vh);
    let linear = lin_terms(ps, ms, x, k * o);
    lemma_pair_terms_ok(ps, pm, vh);
    lemma_lin_terms_ok(ps, ms, x, k * o);
    assert(terms_sum(terms, terms0, linear, k)) by {
        assert forall|i: int, j: int| 0 <= i <= j < k implies #[trigger] terms(i, j) == seq_add(
            terms0(i, j),
            linear(i, j),
        ) by {
            let left = terms(i, j);
            let right = seq_add(terms0(i, j), linear(i, j));
            assert forall|e: int| 0 <= e < m implies left[e] == right[e] by {
                if i == j {
                    lemma_pair_term_diagonal(ps, pm, om, vins, x, i, e);
                } else {
                    lemma_pair_term_off_diagonal(ps, pm, om, vins, x, i, j, e);
                }
                lemma_lin_sum_is_lin_entry(ps, ms, x, i, j, e);
            }
            if i == j {
                lemma_pair_term_diagonal(ps, pm, om, vins, x, i, 0);
            } else {
                lemma_pair_term_off_diagonal(ps, pm, om, vins, x, i, j, 0);
            }
            assert(left =~= right);
        }
    }
    lemma_fold_rows_add(tail, terms, terms0, linear, k, m, 0);
    lemma_whip_rows_is_fold(ps, pm, s, 0);
    lemma_whip_rows_is_fold(ps, pm, vh, 0);
    lemma_fold_of_linear_parts(ps, ms, x, k * o);
    lemma_fold_rows_ok(tail, terms0, k, m, 0);
    let w0 = whipped_map(ps, pm, vh);
    let w = whipped_map(ps, pm, s);
    assert forall|col: int| 0 <= col < k * o implies (#[trigger] system_columns(ps, ms)[col]).len()
        == m by {
        lemma_system_columns_ok(ps, ms, col);
    }
    assert forall|e: int| 0 <= e < m implies w[e] == t[e] by {
        lemma_columns_sum_entry(ps, ms, x, k * o, e);
        assert(a[e].len() == k * o);
        assert(seq_dot(a[e], x) == y[e]);
        assert(y[e] == gf16_add(t[e], w0[e]));
        assert(w[e] == gf16_add(w0[e], y[e]));
        lemma_add_laws(w0[e], gf16_add(t[e], w0[e]), 0);
        lemma_add_laws(t[e], w0[e], w0[e]);
        lemma_add_self(w0[e]);
        lemma_add_laws(t[e], 0, 0);
    }
    assert(w =~= t);
}

} // verus!
