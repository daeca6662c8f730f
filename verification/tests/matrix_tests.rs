use rust_mayo::f16::F16;
use rust_mayo::matrix::Matrix;
use rust_mayo::vector::Vector;

fn f16v(vals: &[u8]) -> Vec<F16> {
    vals.iter().map(|&x| F16::new(x)).collect()
}

fn f16m(r: usize, c: usize, vals: &[u8]) -> Matrix {
    Matrix::new(r, c, vals.iter().map(|&x| F16::new(x)).collect()).unwrap()
}

#[test]
fn test_matrix_new_and_get() {
    let m = f16m(2, 2, &[1, 2, 3, 4]);
    assert_eq!(m.rows(), 2);
    assert_eq!(m.cols(), 2);
    assert_eq!(m.get(0, 0), Some(F16::new(1)));
    assert_eq!(m.get(1, 1), Some(F16::new(4)));
    assert_eq!(m.get(2, 0), None);
}

#[test]
fn test_matrix_set() {
    let mut m = Matrix::zero(2, 2);
    m.set(0, 1, F16::new(5)).unwrap();
    assert_eq!(m.get(0, 1), Some(F16::new(5)));
}

#[test]
fn test_matrix_new_wrong_count_is_error() {
    let result = Matrix::new(2, 2, vec![F16::new(1)]);
    assert!(result.is_err());
    if let Err(e) = result {
        assert_eq!(e, "Invalid dimensions: 2x2 does not match element count 1");
    }
}

#[test]
fn test_matrix_identity() {
    let id2 = Matrix::identity(2);
    assert_eq!(id2, f16m(2, 2, &[1, 0, 0, 1]));
    let m = f16m(2, 2, &[1, 2, 3, 4]);
    assert_eq!((&m * &id2).unwrap(), m);
    assert_eq!((&id2 * &m).unwrap(), m);
}

#[test]
fn test_matrix_transpose() {
    let m1 = f16m(2, 3, &[1, 2, 3, 4, 5, 6]);
    let m1_t = f16m(3, 2, &[1, 4, 2, 5, 3, 6]);
    assert_eq!(m1.transpose(), m1_t);
}

#[test]
fn test_matrix_add() {
    let m1 = f16m(2, 2, &[1, 2, 3, 4]);
    let m2 = f16m(2, 2, &[5, 6, 7, 8]);
    let expected = f16m(2, 2, &[1 ^ 5, 2 ^ 6, 3 ^ 7, 4 ^ 8]);
    assert_eq!((&m1 + &m2).unwrap(), expected);
}

#[test]
fn test_matrix_add_fail() {
    let m1 = f16m(2, 2, &[1, 2, 3, 4]);
    let m2 = f16m(2, 3, &[1, 2, 3, 4, 5, 6]);
    assert!((&m1 + &m2).is_err());
}

#[test]
fn test_matrix_mul() {
    let m1 = f16m(2, 2, &[1, 2, 3, 4]);
    let m2 = f16m(2, 2, &[2, 0, 1, 2]);
    let expected = f16m(2, 2, &[0, 4, 2, 8]);
    assert_eq!((&m1 * &m2).unwrap(), expected);
}

#[test]
fn test_matrix_mul_fail() {
    let m1 = f16m(2, 3, &[1, 2, 3, 4, 5, 6]);
    let m2 = f16m(2, 2, &[1, 2, 3, 4]);
    assert!((&m1 * &m2).is_err());
}

#[test]
fn test_matrix_upper() {
    let m = f16m(3, 3, &[1, 2, 3, 4, 5, 6, 7, 8, 9]);
    let expected = f16m(
        3,
        3,
        &[1, F16::new(2 ^ 4).value(), F16::new(3 ^ 7).value(), 0, 5, F16::new(6 ^ 8).value(), 0, 0, 9],
    );
    assert_eq!(m.upper().unwrap(), expected);
}

#[test]
fn test_matrix_upper_fail_non_square() {
    let m = f16m(2, 3, &[1, 2, 3, 4, 5, 6]);
    assert!(m.upper().is_err());
}

#[test]
fn test_encode_decode_o_matrix() {
    let rows = 2;
    let cols = 3;
    let m = f16m(rows, cols, &[1, 2, 3, 10, 11, 12]);
    let encoded = m.encode_o();
    assert_eq!(encoded, vec![0x21, 0xA3, 0xCB]);

    let decoded = Matrix::decode_o(rows, cols, &encoded).unwrap();
    assert_eq!(m, decoded);
}

#[test]
fn test_encode_decode_o_matrix_odd_elements() {
    let rows = 1;
    let cols = 3;
    let m = f16m(rows, cols, &[5, 7, 9]);
    let encoded = m.encode_o();
    assert_eq!(encoded, vec![0x75, 0x09]);

    let decoded = Matrix::decode_o(rows, cols, &encoded).unwrap();
    assert_eq!(m, decoded);
}

#[test]
fn test_matrix_vector_mul() {
    let m = f16m(2, 2, &[1, 2, 3, 4]);
    let v = Vector::new(f16v(&[2, 1]));
    let expected = Vector::new(f16v(&[0, 2]));
    assert_eq!(m.multiply_vector(&v).unwrap(), expected);
}

#[test]
fn test_matrix_vector_mul_fail_dim() {
    let m = f16m(2, 2, &[1, 2, 3, 4]);
    let v = Vector::new(f16v(&[1, 2, 3]));
    assert!(m.multiply_vector(&v).is_err());
}

#[test]
fn test_matrix_scalar_mul() {
    let m = f16m(2, 2, &[1, 2, 3, 4]);
    let s = F16::new(2);
    let expected = f16m(2, 2, &[2, 4, 6, 8]);
    assert_eq!(m.multiply_scalar(s), expected);
}

#[test]
fn test_swap_rows_impl() {
    let mut m = f16m(2, 2, &[1, 2, 3, 4]);
    m.swap_rows(0, 1);
    assert_eq!(m, f16m(2, 2, &[3, 4, 1, 2]));

    let mut m2 = f16m(3, 2, &[1, 2, 3, 4, 5, 6]);
    m2.swap_rows(0, 2);
    assert_eq!(m2, f16m(3, 2, &[5, 6, 3, 4, 1, 2]));
    m2.swap_rows(0, 0);
    assert_eq!(m2, f16m(3, 2, &[5, 6, 3, 4, 1, 2]));
}

#[test]
fn test_multiply_row_by_scalar_impl() {
    let mut m = f16m(2, 2, &[1, 2, 3, 4]);
    m.multiply_row_by_scalar(0, F16::new(2));
    assert_eq!(m, f16m(2, 2, &[2, 4, 3, 4]));
}

#[test]
fn test_add_multiple_of_row_to_another_impl() {
    let mut m = f16m(2, 2, &[1, 1, 1, 0]);
    m.add_multiple_of_row_to_another(1, 0, F16::new(1));
    assert_eq!(m, f16m(2, 2, &[1, 1, 0, 1]));
}

#[test]
fn test_to_row_echelon_square_invertible() {
    let mut a = f16m(2, 2, &[1, 1, 1, 0]);
    let y_elems = f16v(&[1, 0]);
    let mut y = Vector::new(y_elems);
    let rank = a.transform_to_row_echelon_augmented(&mut y).unwrap();
    assert_eq!(rank, 2);
    assert_eq!(a, Matrix::identity(2));
    assert_eq!(y, Vector::new(f16v(&[0, 1])));
}

#[test]
fn test_to_row_echelon_three_by_three_invertible() {
    let mut a = f16m(3, 3, &[1, 1, 0, 0, 1, 1, 1, 0, 0]);
    let mut y = Vector::new(f16v(&[1, 1, 0]));
    let rank = a.transform_to_row_echelon_augmented(&mut y).unwrap();
    assert_eq!(rank, 3);
    assert_eq!(a, Matrix::identity(3));
    assert_eq!(y, Vector::new(f16v(&[0, 1, 0])));
}

#[test]
fn test_to_row_echelon_rows_that_sum_to_zero() {
    // The three rows add up to zero, so the rank is two.
    let mut a = f16m(3, 3, &[1, 2, 3, 2, 3, 1, 3, 1, 2]);
    let mut y = Vector::new(f16v(&[1, 2, 3]));
    let rank = a.transform_to_row_echelon_augmented(&mut y).unwrap();
    assert_eq!(rank, 2);
    assert_eq!(a.get_row_vec(2), Some(Vector::zero(3)));
    assert_eq!(y.get(2), Some(F16::new(0)));
}

#[test]
fn test_to_row_echelon_rank_deficient() {
    let mut a = f16m(3, 3, &[1, 1, 1, 1, 1, 1, 0, 0, 1]);
    let mut y = Vector::new(f16v(&[1, 1, 0]));
    let rank = a.transform_to_row_echelon_augmented(&mut y).unwrap();
    assert_eq!(rank, 2);
    let expected_a_ref = f16m(3, 3, &[1, 1, 0, 0, 0, 1, 0, 0, 0]);
    let expected_y_transformed = Vector::new(f16v(&[1, 0, 0]));
    assert_eq!(a, expected_a_ref);
    assert_eq!(y, expected_y_transformed);
}

#[test]
fn test_to_row_echelon_already_ref() {
    let mut a = f16m(2, 3, &[1, 2, 3, 0, 1, 4]);
    let mut y = Vector::new(f16v(&[5, 6]));

    let rank = a.transform_to_row_echelon_augmented(&mut y).unwrap();
    assert_eq!(rank, 2);

    let expected_a_ref = f16m(2, 3, &[1, 0, 11, 0, 1, 4]);
    let expected_y_transformed = Vector::new(f16v(&[9, 6]));

    assert_eq!(a, expected_a_ref);
    assert_eq!(y, expected_y_transformed);
}

#[test]
fn test_solve_from_ref_square_invertible() {
    let a_ref = Matrix::identity(2);
    let y_transformed = Vector::new(f16v(&[0, 1]));
    let solution = a_ref.solve_from_row_echelon(&y_transformed).unwrap();
    assert_eq!(solution, Vector::new(f16v(&[0, 1])));
}

#[test]
fn test_solve_from_ref_3x3() {
    let mut a = f16m(3, 3, &[1, 1, 0, 0, 1, 1, 1, 0, 1]);
    let mut y = Vector::new(f16v(&[1, 1, 0]));
    a.transform_to_row_echelon_augmented(&mut y).unwrap();

    let solution = a.solve_from_row_echelon(&y).unwrap();
    assert_eq!(solution, Vector::new(f16v(&[0, 1, 0])));
}

#[test]
fn test_solve_from_ref_rank_deficient_consistent() {
    let a_ref = f16m(3, 3, &[1, 1, 0, 0, 0, 1, 0, 0, 0]);
    let y_transformed = Vector::new(f16v(&[1, 0, 0]));
    let solution = a_ref.solve_from_row_echelon(&y_transformed).unwrap();
    assert_eq!(solution, Vector::new(f16v(&[1, 0, 0])));
}

#[test]
fn test_solve_from_ref_inconsistent() {
    let a_ref = f16m(2, 2, &[1, 1, 0, 0]);
    let y_transformed = Vector::new(f16v(&[1, 1]));

    let result = a_ref.solve_from_row_echelon(&y_transformed);
    assert!(result.is_err());
    if let Err(e) = result {
        assert!(e.contains("Inconsistent system: zero row in matrix for non-zero RHS at row 1."));
    }
}

#[test]
fn test_row_echelon_wrong_length_changes_nothing() {
    let mut a = f16m(2, 2, &[1, 2, 3, 4]);
    let mut y = Vector::new(f16v(&[1, 2, 3]));
    assert!(a.transform_to_row_echelon_augmented(&mut y).is_err());
    assert_eq!(a, f16m(2, 2, &[1, 2, 3, 4]));
    assert_eq!(y, Vector::new(f16v(&[1, 2, 3])));
    assert!(a.solve_from_row_echelon(&y).is_err());
}

#[test]
fn test_solution_of_the_reduced_system_solves_the_first() {
    let a0 = f16m(3, 4, &[3, 7, 1, 9, 2, 0, 5, 5, 1, 7, 4, 12]);
    let y0 = Vector::new(f16v(&[4, 9, 13]));
    let mut a = a0.clone();
    let mut y = y0.duplicate();
    let rank = a.transform_to_row_echelon_augmented(&mut y).unwrap();
    assert!(rank <= 3);
    let free = Vector::new(f16v(&[6, 6, 6, 6]));
    match a.back_substitute_from(&y, free) {
        Ok(x) => assert_eq!(a0.multiply_vector(&x).unwrap(), y0),
        Err(_) => panic!("a system of full row rank has a solution"),
    }
}

#[test]
fn test_matrix_row_and_out_of_range() {
    let mut m = f16m(2, 2, &[1, 2, 3, 4]);
    assert_eq!(m.get_row_vec(1), Some(Vector::new(f16v(&[3, 4]))));
    assert_eq!(m.get_row_vec(2), None);
    assert!(m.set(2, 0, F16::new(1)).is_err());
    assert_eq!(m, f16m(2, 2, &[1, 2, 3, 4]));
    m.multiply_row_by_scalar(5, F16::new(2));
    m.add_multiple_of_row_to_another(0, 7, F16::new(2));
    assert_eq!(m, f16m(2, 2, &[1, 2, 3, 4]));
    assert!(Matrix::decode_o(2, 2, &[1]).is_err());
    assert_eq!(m.entry(1, 0), F16::new(3));
    assert_eq!(m.times_vector(&Vector::new(f16v(&[2, 1]))), Vector::new(f16v(&[0, 2])));
}
