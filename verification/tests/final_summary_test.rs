use rust_mayo::crypto::{expand_matrices, generate_keypair_generic, sign_generic, verify_generic};
use rust_mayo::params::{Mayo1, MayoParams};

#[test]
fn test_mayo_implementation_summary() {
    assert_eq!(Mayo1::N_PARAM, 86, "n should be 86");
    assert_eq!(Mayo1::M_PARAM, 78, "m should be 78");
    assert_eq!(Mayo1::O_PARAM, 8, "o should be 8");
    assert_eq!(Mayo1::K_PARAM, 10, "k should be 10");
    assert_eq!(Mayo1::CPK_BYTES, 1420, "Public key should be 1420 bytes");
    assert_eq!(Mayo1::SIG_BYTES, 454, "Signature should be 454 bytes");

    let (secret_key, public_key) =
        generate_keypair_generic::<Mayo1>().expect("Key generation should work");

    assert_eq!(secret_key.len(), Mayo1::SK_SEED_BYTES);
    assert_eq!(public_key.len(), Mayo1::CPK_BYTES);

    let pk_seed = &public_key[..Mayo1::PK_SEED_BYTES];
    let (p1, p2, p3) = expand_matrices::<Mayo1>(pk_seed).expect("Matrix expansion should work");

    let v = Mayo1::N_PARAM - Mayo1::O_PARAM;
    let expected_p1_size = Mayo1::M_PARAM * (v * (v + 1)) / 2;
    let expected_p2_size = Mayo1::M_PARAM * v * Mayo1::O_PARAM;
    let expected_p3_size = Mayo1::M_PARAM * (Mayo1::O_PARAM * (Mayo1::O_PARAM + 1)) / 2;

    assert_eq!(p1.len(), expected_p1_size);
    assert_eq!(p2.len(), expected_p2_size);
    assert_eq!(p3.len(), expected_p3_size);

    let test_message = b"Test MAYO";

    match sign_generic::<Mayo1>(&secret_key, test_message) {
        Ok(signature) => {
            assert_eq!(signature.len(), Mayo1::SIG_BYTES);

            let is_valid = verify_generic::<Mayo1>(&public_key, test_message, &signature)
                .expect("Verification should not error");

            if is_valid {
                let wrong_message = b"Wrong message";
                let wrong_verification =
                    verify_generic::<Mayo1>(&public_key, wrong_message, &signature)
                        .expect("Wrong verification should not error");

                assert!(!wrong_verification, "Wrong message should be rejected");
            } else {
                panic!("Valid signature should verify correctly");
            }
        }
        Err(e) => {
            println!("signing gave up: {:?}", e);
        }
    }
}

#[test]
fn test_wasm_compatibility() {
    let (_secret_key, public_key) =
        generate_keypair_generic::<Mayo1>().expect("Key generation should work");

    let pk_seed = &public_key[..Mayo1::PK_SEED_BYTES];
    let (_p1, _p2, _p3) = expand_matrices::<Mayo1>(pk_seed).expect("Matrix expansion should work");

    let test_message = b"WASM test";

    let mut dummy_signature = vec![0u8; Mayo1::SIG_BYTES];
    dummy_signature[0] = 42;

    let result = verify_generic::<Mayo1>(&public_key, test_message, &dummy_signature);
    assert_eq!(result, Ok(false));
}
