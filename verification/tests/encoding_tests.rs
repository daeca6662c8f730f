use rust_mayo::encoding::{
    encode_bitsliced_matrices, encode_bitsliced_vector, encode_l, encode_p1, encode_p2, encode_p3,
};
use rust_mayo::f16::F16;
use rust_mayo::matrix::Matrix;

fn f16v(vals: &[u8]) -> Vec<F16> {
    vals.iter().map(|&x| F16::new(x)).collect()
}

fn f16m(r: usize, c: usize, vals: &[u8]) -> Matrix {
    Matrix::new(r, c, vals.iter().map(|&x| F16::new(x)).collect()).unwrap()
}

#[test]
fn test_encode_bitsliced_vector_empty() {
    assert_eq!(encode_bitsliced_vector(&[]).unwrap(), Vec::new());
}

#[test]
fn test_encode_bitsliced_vector_m_not_multiple_of_8() {
    let v = f16v(&[1, 2, 3, 4, 5, 6, 7]);
    assert!(encode_bitsliced_vector(&v).is_err());
}

#[test]
fn test_encode_bitsliced_vector_m8() {
    let v = f16v(&[1, 0, 0, 0, 0, 0, 0, 0]);
    let expected = vec![0x01, 0x00, 0x00, 0x00];
    assert_eq!(encode_bitsliced_vector(&v).unwrap(), expected);

    let v2 = f16v(&[0, 0, 0, 0, 0, 0, 0, 0x8]);
    let expected2 = vec![0x00, 0x00, 0x00, 0x80];
    assert_eq!(encode_bitsliced_vector(&v2).unwrap(), expected2);

    let v3 = f16v(&[0xF, 0xF, 0xF, 0xF, 0xF, 0xF, 0xF, 0xF]);
    let expected3 = vec![0xFF, 0xFF, 0xFF, 0xFF];
    assert_eq!(encode_bitsliced_vector(&v3).unwrap(), expected3);
}

#[test]
fn test_encode_bitsliced_vector_m16() {
    let mut elems = vec![0u8; 16];
    elems[0] = 1;
    elems[8] = 2;
    let v = f16v(&elems);
    let expected = vec![0x01, 0x00, 0x00, 0x01, 0x00, 0x00, 0x00, 0x00];
    assert_eq!(encode_bitsliced_vector(&v).unwrap(), expected);
}

#[test]
fn test_encode_bitsliced_matrices_empty() {
    let matrices: Vec<Matrix> = Vec::new();
    assert_eq!(encode_bitsliced_matrices(&matrices, 2, 2, false).unwrap(), Vec::new());
}

#[test]
fn test_encode_bitsliced_matrices_m_not_multiple_of_8() {
    let matrices = vec![f16m(1, 1, &[1])];
    assert!(encode_bitsliced_matrices(&matrices, 1, 1, false).is_err());
}

#[test]
fn test_encode_bitsliced_matrices_r1_c1_m8_nontri() {
    let mut matrices = Vec::new();
    matrices.push(f16m(1, 1, &[1]));
    for _ in 0..7 {
        matrices.push(f16m(1, 1, &[0]));
    }
    let expected_output = vec![0x01, 0x00, 0x00, 0x00];
    assert_eq!(encode_bitsliced_matrices(&matrices, 1, 1, false).unwrap(), expected_output);

    let mut matrices2 = Vec::new();
    for _ in 0..7 {
        matrices2.push(f16m(1, 1, &[0]));
    }
    matrices2.push(f16m(1, 1, &[0x8]));
    let expected_output2 = vec![0x00, 0x00, 0x00, 0x80];
    assert_eq!(encode_bitsliced_matrices(&matrices2, 1, 1, false).unwrap(), expected_output2);
}

#[test]
fn test_encode_bitsliced_matrices_r2_c1_m8_nontri() {
    let mut matrices = Vec::new();
    matrices.push(f16m(2, 1, &[1, 0]));
    for _ in 0..7 {
        matrices.push(f16m(2, 1, &[0, 0]));
    }
    let encoded_v0 = vec![0x01, 0, 0, 0];
    let encoded_v1 = vec![0x00, 0, 0, 0];
    let mut expected_output = Vec::new();
    expected_output.extend(encoded_v0);
    expected_output.extend(encoded_v1);

    assert_eq!(encode_bitsliced_matrices(&matrices, 2, 1, false).unwrap(), expected_output);
}

#[test]
fn test_encode_bitsliced_matrices_r2_c2_m8_tri() {
    let mut matrices = Vec::new();
    matrices.push(f16m(2, 2, &[1, 2, 99, 3]));
    for _ in 0..7 {
        matrices.push(f16m(2, 2, &[0, 0, 99, 0]));
    }
    let enc_v0 = vec![0x01, 0x00, 0x00, 0x00];
    let enc_v1 = vec![0x00, 0x01, 0x00, 0x00];
    let enc_v2 = vec![0x01, 0x01, 0x00, 0x00];

    let mut expected_output = Vec::new();
    expected_output.extend(enc_v0);
    expected_output.extend(enc_v1);
    expected_output.extend(enc_v2);

    assert_eq!(encode_bitsliced_matrices(&matrices, 2, 2, true).unwrap(), expected_output);
}

#[test]
fn test_encode_bitsliced_matrices_shape_errors() {
    let mut matrices = Vec::new();
    for _ in 0..8 {
        matrices.push(f16m(2, 1, &[0, 0]));
    }
    assert!(encode_bitsliced_matrices(&matrices, 1, 2, false).is_err());
    assert!(encode_bitsliced_matrices(&matrices, 2, 1, true).is_err());
}

#[test]
fn test_encode_wrappers_reject_other_counts() {
    let eight: Vec<Matrix> = (0..8).map(|_| Matrix::zero(78, 78)).collect();
    assert!(encode_p1(&eight).is_err());
    let few: Vec<Matrix> = (0..8).map(|_| Matrix::zero(78, 8)).collect();
    assert!(encode_p2(&few).is_err());
    assert!(encode_l(&few).is_err());
    let small: Vec<Matrix> = (0..8).map(|_| Matrix::zero(8, 8)).collect();
    assert!(encode_p3(&small).is_err());
}

#[test]
fn test_encode_bitsliced_matrices_error_texts() {
    let three: Vec<Matrix> = (0..3).map(|_| Matrix::zero(2, 2)).collect();
    assert_eq!(
        encode_bitsliced_matrices(&three, 2, 2, false).unwrap_err(),
        "Number of matrices m (3) must be a multiple of 8 for bitsliced encoding."
    );

    let mut mixed: Vec<Matrix> = (0..8).map(|_| Matrix::zero(2, 2)).collect();
    mixed[3] = Matrix::zero(1, 2);
    mixed[5] = Matrix::zero(2, 3);
    assert_eq!(
        encode_bitsliced_matrices(&mixed, 2, 2, false).unwrap_err(),
        "Matrix 3 has incorrect dimensions: expected 2x2, got 1x2"
    );

    let tall: Vec<Matrix> = (0..8).map(|_| Matrix::zero(2, 1)).collect();
    assert_eq!(
        encode_bitsliced_matrices(&tall, 2, 1, true).unwrap_err(),
        "Triangular matrices must be square."
    );
    assert_eq!(
        encode_bitsliced_matrices(&tall, 1, 2, true).unwrap_err(),
        "Matrix 0 has incorrect dimensions: expected 1x2, got 2x1"
    );

    let mut late: Vec<Matrix> = (0..16).map(|_| Matrix::zero(12, 10)).collect();
    late[15] = Matrix::zero(10, 12);
    assert_eq!(
        encode_bitsliced_matrices(&late, 12, 10, false).unwrap_err(),
        "Matrix 15 has incorrect dimensions: expected 12x10, got 10x12"
    );
}

#[test]
fn test_encode_wrappers_error_texts() {
    let none: Vec<Matrix> = Vec::new();
    assert_eq!(encode_p1(&none).unwrap_err(), "Expected 78 P1 matrices, got 0");
    assert_eq!(encode_p2(&none).unwrap_err(), "Expected 78 P2 matrices, got 0");
    assert_eq!(encode_p3(&none).unwrap_err(), "Expected 78 P3 matrices, got 0");
    assert_eq!(encode_l(&none).unwrap_err(), "Expected 78 L matrices, got 0");

    let eight: Vec<Matrix> = (0..8).map(|_| Matrix::zero(8, 8)).collect();
    assert_eq!(encode_p3(&eight).unwrap_err(), "Expected 78 P3 matrices, got 8");
    let many: Vec<Matrix> = (0..104).map(|_| Matrix::zero(78, 8)).collect();
    assert_eq!(encode_p2(&many).unwrap_err(), "Expected 78 P2 matrices, got 104");
    assert_eq!(encode_l(&many).unwrap_err(), "Expected 78 L matrices, got 104");
}

#[test]
fn test_encode_wrappers_with_the_full_count() {
    let refused = "Number of matrices m (78) must be a multiple of 8 for bitsliced encoding.";
    let p1: Vec<Matrix> = (0..78).map(|_| Matrix::zero(78, 78)).collect();
    assert_eq!(encode_p1(&p1).unwrap_err(), refused);
    let p2: Vec<Matrix> = (0..78).map(|_| Matrix::zero(78, 8)).collect();
    assert_eq!(encode_p2(&p2).unwrap_err(), refused);
    assert_eq!(encode_l(&p2).unwrap_err(), refused);
    let p3: Vec<Matrix> = (0..78).map(|_| Matrix::zero(8, 8)).collect();
    assert_eq!(encode_p3(&p3).unwrap_err(), refused);
    // The count is judged before any shape.
    assert_eq!(encode_p1(&p3).unwrap_err(), refused);
}
