use rust_mayo::crypto::{generate_keypair_generic, sign_generic, verify_generic};
use rust_mayo::params::{Mayo1, MayoParams};

#[test]
fn test_mayo_full_workflow() {
    run_mayo_variant::<Mayo1>("MAYO-1");
}

fn run_mayo_variant<P: MayoParams>(name: &str) {
    let (secret_key, public_key) =
        generate_keypair_generic::<P>().expect("Key generation should succeed");

    assert_eq!(secret_key.len(), P::SK_SEED_BYTES);
    assert_eq!(public_key.len(), P::CPK_BYTES);

    let test_messages = [
        b"Hello MAYO!".as_slice(),
        b"Test message for cryptographic signature".as_slice(),
        b"".as_slice(),
        b"A".as_slice(),
        &[0u8; 1000],
    ];

    for (i, message) in test_messages.iter().enumerate() {
        let signature =
            sign_generic::<P>(&secret_key, message).expect("Signing should succeed");

        assert_eq!(signature.len(), P::SIG_BYTES);

        let is_valid = verify_generic::<P>(&public_key, message, &signature)
            .expect("Verification should not error");

        assert!(is_valid, "Signature should be valid for message {} of {}", i, name);

        let wrong_message = b"Different message";
        let is_invalid = verify_generic::<P>(&public_key, wrong_message, &signature)
            .expect("Verification should not error");
        assert!(!is_invalid);

        let mut corrupted_sig = signature.clone();
        if !corrupted_sig.is_empty() {
            corrupted_sig[0] ^= 0xFF;
            let is_corrupted_invalid = verify_generic::<P>(&public_key, message, &corrupted_sig)
                .expect("Verification should not error");
            assert!(!is_corrupted_invalid);
        }
    }
}

#[test]
fn test_mayo_edge_cases() {
    let (secret_key, public_key) =
        generate_keypair_generic::<Mayo1>().expect("Key generation should succeed");

    let empty_message = b"";
    let signature = sign_generic::<Mayo1>(&secret_key, empty_message)
        .expect("Signing empty message should succeed");

    let is_valid = verify_generic::<Mayo1>(&public_key, empty_message, &signature)
        .expect("Verification should not error");
    assert!(is_valid);

    let large_message = vec![0x42u8; 10000];
    let large_signature = sign_generic::<Mayo1>(&secret_key, &large_message)
        .expect("Signing large message should succeed");

    let is_large_valid = verify_generic::<Mayo1>(&public_key, &large_message, &large_signature)
        .expect("Verification should not error");
    assert!(is_large_valid);

    let short_sk = vec![0u8; Mayo1::SK_SEED_BYTES - 1];
    let sign_result = sign_generic::<Mayo1>(&short_sk, b"test");
    assert!(sign_result.is_err(), "Signing with short secret key should fail");

    let short_pk = vec![0u8; Mayo1::CPK_BYTES - 1];
    let verify_result = verify_generic::<Mayo1>(&short_pk, b"test", &signature);
    assert!(
        verify_result.is_ok() && !verify_result.unwrap(),
        "Verification with short public key should fail"
    );
}

#[test]
fn test_mayo_deterministic_behavior() {
    let (sk1, pk1) = generate_keypair_generic::<Mayo1>().unwrap();
    let (sk2, pk2) = generate_keypair_generic::<Mayo1>().unwrap();

    assert_ne!(sk1, sk2, "Secret keys should be different");
    assert_ne!(pk1, pk2, "Public keys should be different");

    let message = b"Test message for deterministic check";
    let sig1 = sign_generic::<Mayo1>(&sk1, message).unwrap();
    let sig2 = sign_generic::<Mayo1>(&sk1, message).unwrap();

    assert_ne!(sig1, sig2, "Signatures should be different due to random salt");

    assert!(verify_generic::<Mayo1>(&pk1, message, &sig1).unwrap());
    assert!(verify_generic::<Mayo1>(&pk1, message, &sig2).unwrap());
}

#[test]
fn test_mayo_cross_compatibility() {
    let (sk1, pk1) = generate_keypair_generic::<Mayo1>().unwrap();
    let (_sk2, pk2) = generate_keypair_generic::<Mayo1>().unwrap();

    let message = b"Cross-compatibility test message";

    let signature1 = sign_generic::<Mayo1>(&sk1, message).unwrap();

    assert!(verify_generic::<Mayo1>(&pk1, message, &signature1).unwrap());

    let cross_verify = verify_generic::<Mayo1>(&pk2, message, &signature1).unwrap();
    assert!(!cross_verify);
}
