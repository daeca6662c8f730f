use rust_mayo::f16::F16;
use rust_mayo::matrix::Matrix;
use rust_mayo::mayo_operations::{
    accumulate_rectangular, accumulate_triangular, add_mvector_sequences_operator,
    assemble_inputs, batches_from_flat, compute_a_system_matrix_for_sign_operator,
    compute_m_operator, compute_rhs_for_sign_operator, eval_mayo_polynomial, eval_polynomial,
    evaluate_mayo_at_point, flat_from_batches, flat_index_of, flatten_vectors,
    o_transpose_times_mvector_sequence_operator, p1_times_o_operator, pad_vinegars,
    sample_solution_operator, sign_attempt, solve_linear_system_gf16, system_column,
    upper_index_of, upper_of_batches, vectors_from_flat, vinegar_times_l,
};
use rust_mayo::mvector::MVector;
use rust_mayo::params::ParamSet;
use rust_mayo::vector::Vector;

fn f16v(vals: &[u8]) -> Vec<F16> {
    vals.iter().map(|&x| F16::new(x)).collect()
}

fn mv(vals: &[u8]) -> MVector {
    MVector::new(vals.len(), f16v(vals)).unwrap()
}

fn vecf(vals: &[u8]) -> Vector {
    Vector::new(f16v(vals))
}

fn mul(a: u8, b: u8) -> u8 {
    (F16::new(a) * F16::new(b)).value()
}

/// Four equations, two vinegar variables and one oil variable, two inputs.
fn tiny() -> ParamSet {
    ParamSet {
        m: 4,
        n: 3,
        o: 1,
        k: 2,
        salt_bytes: 2,
        digest_bytes: 4,
        sk_seed_bytes: 3,
        pk_seed_bytes: 2,
        f_tail: [8, 1, 1, 0],
        max_attempts: 256,
    }
}

fn tiny_map() -> (Vec<MVector>, Vec<MVector>, Vec<MVector>) {
    (
        vec![mv(&[1, 0, 0, 0]), mv(&[0, 1, 0, 0]), mv(&[0, 0, 1, 0])],
        vec![mv(&[0, 0, 0, 1]), mv(&[1, 1, 0, 0])],
        vec![mv(&[0, 0, 0, 2])],
    )
}

#[test]
fn test_upper_index_exact_positions() {
    assert_eq!(upper_index_of(4, 0, 0), 0);
    assert_eq!(upper_index_of(4, 0, 3), 3);
    assert_eq!(upper_index_of(4, 1, 1), 4);
    assert_eq!(upper_index_of(4, 1, 3), 6);
    assert_eq!(upper_index_of(4, 2, 2), 7);
    assert_eq!(upper_index_of(4, 3, 3), 9);
    assert_eq!(upper_index_of(78, 77, 77), 3080);
    assert_eq!(flat_index_of(2, 3, 5, 7), 17);
}

#[test]
fn test_eval_polynomial_exact_value() {
    let ps = tiny();
    assert!(ps.is_valid());
    let (p1, p2, p3) = tiny_map();
    // x = (1, 2 | 3): x0 x0 = 1, x0 x1 = 2, x1 x1 = 4, x0 x2 = 3, x1 x2 = 6, x2 x2 = 5.
    let x = vecf(&[1, 2, 3]);
    let value = eval_polynomial(&ps, &x, &p1, &p2, &p3);
    assert_eq!(value, mv(&[7, 4, 4, 9]));
    assert_eq!(evaluate_mayo_at_point(&ps, &x, &p1, &p2, &p3), value);
    // The map is homogeneous of degree two: P(2 x) = 4 P(x).
    let doubled = eval_polynomial(&ps, &x.scale(F16::new(2)), &p1, &p2, &p3);
    assert_eq!(doubled, value.scale(F16::new(4)));
}

#[test]
fn test_accumulate_parts_exact_values() {
    let (p1, p2, _) = tiny_map();
    let x = vecf(&[1, 2, 3]);
    let mut acc = MVector::zero(4);
    accumulate_triangular(&mut acc, &p1, &x, 0, 2);
    assert_eq!(acc, mv(&[1, 2, 4, 0]));
    accumulate_rectangular(&mut acc, &p2, &x, 2, 1);
    assert_eq!(acc, mv(&[1 ^ 6, 2 ^ 6, 4, 3]));
}

#[test]
fn test_whipped_map_is_the_horner_fold_of_the_pair_terms() {
    let ps = tiny();
    let (p1, p2, p3) = tiny_map();
    let x = vecf(&[1, 2, 3]);
    let y = vecf(&[4, 0, 9]);
    let px = eval_polynomial(&ps, &x, &p1, &p2, &p3);
    let py = eval_polynomial(&ps, &y, &p1, &p2, &p3);
    let pxy = eval_polynomial(&ps, &x.plus(&y), &p1, &p2, &p3);
    let cross = pxy.sum_with(&px).sum_with(&py);
    // Pairs in order (1, 1), (0, 0), (0, 1): ((P(y) X + P(x)) X + cross.
    let step1 = MVector::zero(4).poly_mul_by_x_and_add(&ps.f_tail, &py).unwrap();
    let step2 = step1.poly_mul_by_x_and_add(&ps.f_tail, &px).unwrap();
    let expected = step2.poly_mul_by_x_and_add(&ps.f_tail, &cross).unwrap();
    let value = eval_mayo_polynomial(&ps, &[x.duplicate(), y.duplicate()], &p1, &p2, &p3);
    assert_eq!(value, expected);
    // A plain sum of the three terms is something else.
    assert_ne!(value, px.sum_with(&py).sum_with(&cross));
    // P(y) with y = (4, 0 | 9): b0 16 + c0 36 + d0 81 in the field.
    assert_eq!(py, mv(&[mul(4, 4), 0, 0, mul(4, 9) ^ mul(2, mul(9, 9))]));
}

#[test]
fn test_batches_and_flat_round_trip() {
    let flat = f16v(&[1, 2, 3, 4, 5, 6]);
    let batches = batches_from_flat(&flat, 3, 2);
    assert_eq!(batches, vec![mv(&[1, 2]), mv(&[3, 4]), mv(&[5, 6])]);
    assert_eq!(flat_from_batches(&batches), flat);
    let vectors = vectors_from_flat(&vecf(&[1, 2, 3, 4, 5, 6]), 2, 3);
    assert_eq!(vectors, vec![vecf(&[1, 2, 3]), vecf(&[4, 5, 6])]);
    assert_eq!(flatten_vectors(&vectors), vecf(&[1, 2, 3, 4, 5, 6]));
}

#[test]
fn test_p1_times_o_exact_values() {
    let ps = tiny();
    let (p1, p2, _) = tiny_map();
    let o = Matrix::new(2, 1, f16v(&[2, 3])).unwrap();
    // Row 0: P1[0,0] * 2 + P1[0,1] * 3; row 1: P1[1,1] * 3.
    let upper = p1_times_o_operator(&ps, &p1, &o, false);
    assert_eq!(upper, vec![mv(&[2, 3, 0, 0]), mv(&[0, 0, 3, 0])]);
    // Transposed: row 0: P1[0,0] * 2; row 1: P1[0,1] * 2 + P1[1,1] * 3.
    let lower = p1_times_o_operator(&ps, &p1, &o, true);
    assert_eq!(lower, vec![mv(&[2, 0, 0, 0]), mv(&[0, 2, 3, 0])]);
    let l = add_mvector_sequences_operator(&upper, &p2);
    assert_eq!(l, vec![mv(&[2, 3, 0, 1]), mv(&[1, 1, 3, 0])]);
    // O^T L = 2 * L[0] + 3 * L[1].
    let full = o_transpose_times_mvector_sequence_operator(&ps, &o, &l);
    assert_eq!(
        full,
        vec![mv(&[mul(2, 2) ^ 3, mul(2, 3) ^ 3, mul(3, 3), 2])]
    );
    assert_eq!(upper_of_batches(&ps, &full), full);
}

#[test]
fn test_upper_of_batches_folds_the_mirror_image_in() {
    let ps = ParamSet { n: 4, o: 2, ..tiny() };
    let full = vec![mv(&[1, 0, 0, 0]), mv(&[2, 0, 0, 0]), mv(&[4, 0, 0, 0]), mv(&[8, 0, 0, 0])];
    assert_eq!(
        upper_of_batches(&ps, &full),
        vec![mv(&[1, 0, 0, 0]), mv(&[6, 0, 0, 0]), mv(&[8, 0, 0, 0])]
    );
}

#[test]
fn test_oil_space_is_where_the_public_map_vanishes() {
    let ps = tiny();
    let (p1, p2, _) = tiny_map();
    let o = Matrix::new(2, 1, f16v(&[2, 3])).unwrap();
    let l = add_mvector_sequences_operator(&p1_times_o_operator(&ps, &p1, &o, false), &p2);
    let p3 = upper_of_batches(&ps, &o_transpose_times_mvector_sequence_operator(&ps, &o, &l));
    for x in 0..16u8 {
        let input = vecf(&[mul(2, x), mul(3, x), x]);
        assert_eq!(eval_polynomial(&ps, &input, &p1, &p2, &p3), MVector::zero(4));
    }
}

#[test]
fn test_linear_parts_and_system() {
    let ps = tiny();
    let l = vec![mv(&[2, 3, 0, 1]), mv(&[1, 1, 3, 0])];
    let vin = vecf(&[1, 2]);
    // 1 * L[0] + 2 * L[1].
    let part = vinegar_times_l(&ps, &vin, &l);
    assert_eq!(part, vec![mv(&[2 ^ 2, 3 ^ 2, 6, 1])]);
    let vins = vec![vecf(&[1, 2]), vecf(&[3, 0])];
    let ms = compute_m_operator(&ps, &vins, &l);
    assert_eq!(ms.len(), 2);
    assert_eq!(ms[0], part);
    // The column of the oil variable of input 0 takes M_0 from the pair
    // (0, 0) and M_1 from the pair (0, 1); the pair (1, 1) adds nothing.
    let zero = MVector::zero(4);
    let expected = zero
        .poly_mul_by_x_and_add(&ps.f_tail, &zero)
        .unwrap()
        .poly_mul_by_x_and_add(&ps.f_tail, &ms[0][0])
        .unwrap()
        .poly_mul_by_x_and_add(&ps.f_tail, &ms[1][0])
        .unwrap();
    assert_eq!(system_column(&ps, &ms, 0, 0), Vector::new(expected.elements));
    let a = compute_a_system_matrix_for_sign_operator(&ps, &ms);
    assert_eq!(a.rows(), 4);
    assert_eq!(a.cols(), 2);
    for e in 0..4 {
        assert_eq!(a.get(e, 0), system_column(&ps, &ms, 0, 0).get(e));
        assert_eq!(a.get(e, 1), system_column(&ps, &ms, 1, 0).get(e));
    }
}

#[test]
fn test_solvers_exact_values() {
    let a = Matrix::new(2, 3, f16v(&[1, 1, 0, 0, 0, 1])).unwrap();
    let y = vecf(&[1, 5]);
    // x2 = 5, x0 + x1 = 1: with x1 free and zero, x0 = 1.
    assert_eq!(solve_linear_system_gf16(&a, &y), Some(vecf(&[1, 0, 5])));
    // With x1 taken from the free values, x0 = 1 + x1.
    let free = vecf(&[9, 4, 9]);
    assert_eq!(
        sample_solution_operator(a.clone(), y.duplicate(), free),
        Some(vecf(&[5, 4, 5]))
    );
    let inconsistent = Matrix::new(2, 1, f16v(&[1, 1])).unwrap();
    assert_eq!(solve_linear_system_gf16(&inconsistent, &vecf(&[1, 2])), None);
    assert_eq!(solve_linear_system_gf16(&a, &vecf(&[1])), None);
    assert_eq!(solve_linear_system_gf16(&Matrix::zero(0, 3), &Vector::zero(0)), None);
}

#[test]
fn test_assemble_inputs_and_padding() {
    let ps = tiny();
    let o = Matrix::new(2, 1, f16v(&[2, 3])).unwrap();
    let vins = vec![vecf(&[1, 2]), vecf(&[3, 0])];
    let x = vecf(&[1, 2]);
    // Input 0: (1 + 2 * 1, 2 + 3 * 1 | 1); input 1: (3 + 2 * 2, 0 + 3 * 2 | 2).
    assert_eq!(
        assemble_inputs(&ps, &vins, &o, &x),
        vec![vecf(&[3, 1, 1]), vecf(&[3 ^ 4, 6, 2])]
    );
    assert_eq!(pad_vinegars(&ps, &vins), vec![vecf(&[1, 2, 0]), vecf(&[3, 0, 0])]);
}

#[test]
fn test_sign_attempt_solves_the_whipped_equation() {
    // Four equations and two inputs with two oil variables each.
    let ps = ParamSet { n: 5, o: 2, ..tiny() };
    assert!(ps.is_valid());
    let m = 4usize;
    let p1: Vec<MVector> = (0..6usize)
        .map(|p| mv(&(0..m).map(|e| ((p * 5 + e * 3 + 1) % 16) as u8).collect::<Vec<u8>>()))
        .collect();
    let p2: Vec<MVector> = (0..6usize)
        .map(|p| mv(&(0..m).map(|e| ((p * 7 + e * 11 + 2) % 16) as u8).collect::<Vec<u8>>()))
        .collect();
    let o = Matrix::new(3, 2, f16v(&[1, 7, 9, 2, 4, 4])).unwrap();
    let upper = p1_times_o_operator(&ps, &p1, &o, false);
    let keygen_l = add_mvector_sequences_operator(&upper, &p2);
    let p3 = upper_of_batches(&ps, &o_transpose_times_mvector_sequence_operator(&ps, &o, &keygen_l));
    let l = add_mvector_sequences_operator(&keygen_l, &p1_times_o_operator(&ps, &p1, &o, true));
    let mut solved = 0;
    for trial in 0..16u8 {
        let t = vecf(&[trial, 3, 9, 12]);
        let vins = vec![vecf(&[1, trial, 5]), vecf(&[7, 2, trial])];
        let free = vecf(&[trial, 1, 2, 3]);
        let y = compute_rhs_for_sign_operator(&ps, &vins, &p1, &p2, &p3, &t);
        assert_eq!(y.len(), 4);
        if let Some(inputs) = sign_attempt(&ps, &p1, &p2, &p3, &o, &l, &t, &vins, free) {
            solved += 1;
            let value = eval_mayo_polynomial(&ps, &inputs, &p1, &p2, &p3);
            assert_eq!(Vector::new(value.elements), t);
        }
    }
    assert!(solved > 0);
}
