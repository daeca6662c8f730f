use rust_mayo::crypto::{
    attempt_signature, compute_mayo_polynomial, compute_sps, concat_bytes, copy_bytes,
    count_exact_matches, decode_elements, derive_target, encode_elements, expand_matrices,
    expand_public_batches, expand_secret_key, expand_seed, generate_keypair, keypair_from_seed,
    shake256_digest, sign, sign_with_limited_attempts, sign_with_salt, split_expansion, verify,
    verify_expanded, verify_generic, verify_with, CryptoError,
};
use rust_mayo::f16::F16;
use rust_mayo::params::{
    checked_params, params_of, Mayo1, Mayo2, Mayo3, Mayo5, MayoParams, ParamSet,
};

fn tiny() -> ParamSet {
    ParamSet {
        m: 4,
        n: 5,
        o: 2,
        k: 2,
        salt_bytes: 2,
        digest_bytes: 4,
        sk_seed_bytes: 3,
        pk_seed_bytes: 2,
        f_tail: [8, 1, 1, 0],
        max_attempts: 256,
    }
}

#[test]
fn test_shake256_known_answers() {
    assert_eq!(
        shake256_digest(b"", 32),
        vec![
            0x46, 0xb9, 0xdd, 0x2b, 0x0b, 0xa8, 0x8d, 0x13, 0x23, 0x3b, 0x3f, 0xeb, 0x74, 0x3e,
            0xeb, 0x24, 0x3f, 0xcd, 0x52, 0xea, 0x62, 0xb8, 0x1b, 0x82, 0xb5, 0x0c, 0x27, 0x64,
            0x6e, 0xd5, 0x76, 0x2f
        ]
    );
    assert_eq!(
        shake256_digest(b"abc", 16),
        vec![
            0x48, 0x33, 0x66, 0x60, 0x13, 0x60, 0xa8, 0x77, 0x1c, 0x68, 0x63, 0x08, 0x0c, 0xc4,
            0x11, 0x4d
        ]
    );
    assert_eq!(shake256_digest(b"abc", 0), Vec::<u8>::new());
    assert_eq!(shake256_digest(b"abc", 200)[..16], shake256_digest(b"abc", 16)[..]);
}

#[test]
fn test_byte_helpers() {
    assert_eq!(concat_bytes(&[1, 2], &[3]), vec![1, 2, 3]);
    assert_eq!(copy_bytes(&[1, 2, 3, 4], 1, 3), vec![2, 3]);
    assert_eq!(decode_elements(&[0x21, 0x43], 3), vec![1, 2, 3]);
    assert_eq!(decode_elements(&[0x21], 4), vec![1, 2, 0, 0]);
    assert_eq!(encode_elements(&[1, 2, 3]), vec![0x21, 0x03]);
    assert_eq!(encode_elements(&[0x11, 0xf2]), vec![0x21]);
    let evaluation = vec![F16::new(1), F16::new(2), F16::new(3)];
    assert_eq!(count_exact_matches(&evaluation, &[1, 9, 3]), 2);
    assert_eq!(count_exact_matches(&evaluation, &[1, 2]), 2);
    assert_eq!(count_exact_matches(&evaluation, &[1, 2, 3, 4]), 3);
}

#[test]
fn test_error_messages() {
    assert_eq!(CryptoError::KeyGenerationError.message(), "Key generation failed");
    assert_eq!(CryptoError::SigningError.message(), "Signing failed");
    assert_eq!(CryptoError::VerificationError.message(), "Verification failed");
    assert_eq!(CryptoError::InvalidKeyLength.message(), "Invalid key length");
    assert_eq!(CryptoError::MatrixError.message(), "Matrix operation failed");
    assert_eq!(CryptoError::ParameterError.message(), "Invalid parameters");
}

#[test]
fn test_expansion_of_the_zero_seed_is_pinned() {
    // SHAKE256 of twenty-four zero bytes starts 5a bc 9b cb.
    let seed = vec![0u8; Mayo1::SK_SEED_BYTES];
    let (p1, p2, p3) = expand_matrices::<Mayo1>(&seed).unwrap();
    let head: Vec<u8> = p1[..8].iter().map(|x| x.value()).collect();
    assert_eq!(head, vec![10, 5, 12, 11, 11, 9, 11, 12]);
    assert_eq!(p1.len(), 78 * 3081);
    assert_eq!(p2.len(), 78 * 624);
    assert_eq!(p3.len(), 78 * 36);
    let stream = shake256_digest(&seed, (78 * 3741 + 1) / 2);
    let ps = params_of::<Mayo1>();
    let (q1, q2, q3) = split_expansion(&ps, &stream);
    assert_eq!((p1.clone(), p2.clone(), p3.clone()), (q1, q2, q3));
    let (b1, b2) = expand_public_batches(&ps, &stream);
    assert_eq!(b1.len(), 3081);
    assert_eq!(b2.len(), 624);
    assert_eq!(b1[1].elements[..], p1[78..156]);
    assert_eq!(b2[0].elements[..], p2[..78]);
}

#[test]
fn test_public_key_of_the_zero_seed_is_pinned() {
    let ps = params_of::<Mayo1>();
    let seed = vec![0u8; 24];
    let (sk, pk) = keypair_from_seed(&ps, &seed).unwrap();
    assert_eq!(sk, seed);
    assert_eq!(pk.len(), 1420);
    assert_eq!(
        pk[..24],
        [
            0x5a, 0xbc, 0x9b, 0xcb, 0xd9, 0x93, 0x7e, 0x33, 0xe2, 0xd1, 0x7e, 0x48, 0xa9, 0x05,
            0x53, 0x4d, 0xee, 0xe0, 0x46, 0x57, 0x57, 0xbc, 0x6e, 0x97
        ]
    );
    assert_eq!(pk[1412..], [0xa7, 0xf0, 0xe1, 0xcd, 0x4e, 0xcc, 0x8b, 0x51]);
    let sum: u32 = pk.iter().map(|&b| b as u32).sum();
    assert_eq!(sum, 178050);
    let pk_seed = &pk[..16];
    let (p1, _, _) = expand_matrices::<Mayo1>(pk_seed).unwrap();
    let head: Vec<u8> = p1[..8].iter().map(|x| x.value()).collect();
    assert_eq!(head, vec![6, 10, 13, 11, 12, 9, 1, 0]);
}

#[test]
fn test_public_key_of_a_second_parameter_set_is_pinned() {
    let ps = params_of::<Mayo2>();
    let (_, pk) = keypair_from_seed(&ps, &vec![1u8; 24]).unwrap();
    assert_eq!(pk.len(), Mayo2::CPK_BYTES);
    assert_eq!(pk.len(), 5488);
    assert_eq!(
        pk[..20],
        [
            0x51, 0x97, 0xcd, 0xad, 0x64, 0x7e, 0xe6, 0x17, 0x2a, 0x0a, 0x11, 0x8a, 0x77, 0x24,
            0xd8, 0x6b, 0xd3, 0xe3, 0xe8, 0x11
        ]
    );
    assert_eq!(pk[5484..], [0x1e, 0x44, 0xc8, 0xfa]);
    let sum: u32 = pk.iter().map(|&b| b as u32).sum();
    assert_eq!(sum, 703577);
}

#[test]
fn test_signing_is_a_function_of_key_message_and_salt() {
    let ps = params_of::<Mayo1>();
    let sk = vec![5u8; 24];
    let salt = vec![8u8; 24];
    let first = sign_with_salt(&ps, &sk, b"same", &salt).unwrap();
    let second = sign_with_salt(&ps, &sk, b"same", &salt).unwrap();
    assert_eq!(first, second);
    assert_eq!(first[430..], salt[..]);
    let other_salt = vec![9u8; 24];
    let third = sign_with_salt(&ps, &sk, b"same", &other_salt).unwrap();
    assert_ne!(first, third);
    let (_, pk) = keypair_from_seed(&ps, &sk).unwrap();
    assert!(verify_with(&ps, &pk, b"same", &first));
    assert!(verify_with(&ps, &pk, b"same", &third));
}

#[test]
fn test_single_bit_flips_are_rejected() {
    let ps = params_of::<Mayo1>();
    let sk = vec![0x21u8; 24];
    let (_, pk) = keypair_from_seed(&ps, &sk).unwrap();
    let message = b"flip one bit of me".to_vec();
    let signature = sign_with_salt(&ps, &sk, &message, &vec![4u8; 24]).unwrap();
    assert!(verify_with(&ps, &pk, &message, &signature));
    for position in [0usize, 1, 7, 100, 429, 430, 440, 453] {
        for bit in [0u8, 3, 7] {
            let mut tampered = signature.clone();
            tampered[position] ^= 1 << bit;
            assert!(!verify_with(&ps, &pk, &message, &tampered));
        }
    }
    for position in [0usize, 5, 17] {
        for bit in [0u8, 6] {
            let mut tampered = message.clone();
            tampered[position] ^= 1 << bit;
            assert!(!verify_with(&ps, &pk, &tampered, &signature));
        }
    }
    let mut other_key = pk.clone();
    other_key[20] ^= 1;
    assert!(!verify_with(&ps, &other_key, &message, &signature));
}

#[test]
fn test_boundary_messages_and_lengths() {
    let (sk, pk) = generate_keypair().unwrap();
    // The empty message, and messages around one block of the hash (136 bytes).
    for length in [0usize, 135, 136, 137] {
        let message = vec![0xa5u8; length];
        let signature = sign(&sk, &message).unwrap();
        assert_eq!(signature.len(), 454);
        assert_eq!(verify(&pk, &message, &signature), Ok(true));
    }
    let signature = sign(&sk, b"lengths").unwrap();
    assert_eq!(verify(&pk, b"lengths", &signature[..453]), Ok(false));
    let mut longer = signature.clone();
    longer.push(0);
    assert_eq!(verify(&pk, b"lengths", &longer), Ok(false));
    assert_eq!(verify(&pk, b"lengths", &[]), Ok(false));
    assert_eq!(verify(&pk[..1419], b"lengths", &signature), Ok(false));
    let mut longer_key = pk.clone();
    longer_key.push(0);
    assert_eq!(verify(&longer_key, b"lengths", &signature), Ok(false));
    assert_eq!(sign(&sk[..23], b"lengths"), Err(CryptoError::InvalidKeyLength));
    let mut longer_secret = sk.clone();
    longer_secret.push(0);
    assert_eq!(sign(&longer_secret, b"lengths"), Err(CryptoError::InvalidKeyLength));
}

#[test]
fn test_every_parameter_set_signs_and_verifies() {
    for (ps, seed_len) in [
        (checked_params::<Mayo2>().unwrap(), 24usize),
        (checked_params::<Mayo3>().unwrap(), 32),
        (checked_params::<Mayo5>().unwrap(), 40),
    ] {
        let seed = vec![0x17u8; seed_len];
        let (sk, pk) = keypair_from_seed(&ps, &seed).unwrap();
        assert_eq!(pk.len(), ps.cpk_bytes());
        let salt = vec![0x33u8; ps.salt_bytes];
        let signature = sign_with_salt(&ps, &sk, b"every set", &salt).unwrap();
        assert_eq!(signature.len(), ps.sig_bytes());
        assert!(verify_with(&ps, &pk, b"every set", &signature));
        assert!(!verify_with(&ps, &pk, b"every sez", &signature));
    }
}

#[test]
fn test_sign_with_salt_errors() {
    let ps = params_of::<Mayo1>();
    assert_eq!(
        sign_with_salt(&ps, &[0u8; 23], b"m", &[0u8; 24]),
        Err(CryptoError::InvalidKeyLength)
    );
    assert_eq!(
        sign_with_salt(&ps, &[0u8; 24], b"m", &[0u8; 23]),
        Err(CryptoError::ParameterError)
    );
    assert_eq!(keypair_from_seed(&ps, &[0u8; 25]), Err(CryptoError::InvalidKeyLength));
}

#[test]
fn test_signing_gives_up_when_no_attempt_can_succeed() {
    // One oil variable cannot meet eight equations.
    let ps = ParamSet {
        m: 8,
        n: 3,
        o: 1,
        k: 1,
        salt_bytes: 2,
        digest_bytes: 4,
        sk_seed_bytes: 3,
        pk_seed_bytes: 2,
        f_tail: [8, 1, 1, 0],
        max_attempts: 40,
    };
    assert!(ps.is_valid());
    assert_eq!(sign_with_salt(&ps, &[1, 2, 3], b"m", &[7, 7]), Err(CryptoError::SigningError));
}

#[test]
fn test_tiny_parameter_set_end_to_end() {
    let ps = tiny();
    assert!(ps.is_valid());
    let mut signed = 0;
    for tag in 0..8u8 {
        let sk = [tag, 2, 3];
        let (_, pk) = keypair_from_seed(&ps, &sk).unwrap();
        assert_eq!(pk.len(), ps.cpk_bytes());
        match sign_with_salt(&ps, &sk, &[tag], &[9, tag]) {
            Ok(signature) => {
                signed += 1;
                assert_eq!(signature.len(), ps.sig_bytes());
                assert!(verify_with(&ps, &pk, &[tag], &signature));
            }
            Err(e) => assert_eq!(e, CryptoError::SigningError),
        }
    }
    assert!(signed > 0);
}

#[test]
fn test_attempts_and_expanded_verification_agree() {
    let ps = tiny();
    let sk = [4u8, 2, 3];
    let key = expand_seed(&ps, &sk);
    let e = shake256_digest(&sk, ps.secret_bytes());
    let stream = shake256_digest(&e[..2], ps.expansion_bytes());
    let again = expand_secret_key(&ps, &e, &stream);
    assert_eq!(key.public_key, again.public_key);
    assert_eq!(key.p3, again.p3);
    assert_eq!(key.matrix_o, again.matrix_o);
    let digest = shake256_digest(b"m", ps.digest_bytes);
    let salt = [1u8, 2];
    let t = derive_target(&ps, &digest, &salt);
    assert_eq!(t.len(), 4);
    let mut found = 0;
    for ctr in 0..32u8 {
        let vb = shake256_digest(&[&digest[..], &salt[..], &[ctr][..]].concat(), ps.attempt_bytes());
        if let Some(signature) = attempt_signature(&ps, &key, &t, &vb, &salt) {
            found += 1;
            assert!(verify_expanded(&ps, &key.p1, &key.p2, &key.public_key, &t, &signature));
            assert_eq!(signature[signature.len() - 2..], salt);
        }
    }
    assert!(found > 0);
}

#[test]
fn test_limited_attempts() {
    let (sk, pk) = generate_keypair().unwrap();
    assert_eq!(
        sign_with_limited_attempts::<Mayo1>(&sk, b"m", 0),
        Err(CryptoError::ParameterError)
    );
    let signature = sign_with_limited_attempts::<Mayo1>(&sk, b"m", 16).unwrap();
    assert_eq!(verify(&pk, b"m", &signature), Ok(true));
}

#[test]
fn test_compute_sps_rejects_wrong_shapes() {
    let (p1, p2, p3) = expand_matrices::<Mayo1>(&[1u8; 16]).unwrap();
    let rows = vec![vec![1u8; 86]; 10];
    let value = compute_sps::<Mayo1>(&rows, &p1, &p2, &p3).unwrap();
    assert_eq!(value, compute_mayo_polynomial::<Mayo1>(&rows, &p1, &p2, &p3).unwrap());
    assert_eq!(
        compute_sps::<Mayo1>(&rows[..9], &p1, &p2, &p3),
        Err(CryptoError::ParameterError)
    );
    assert_eq!(
        compute_sps::<Mayo1>(&rows, &p1[1..], &p2, &p3),
        Err(CryptoError::ParameterError)
    );
    let mut short_row = rows.clone();
    short_row[3].pop();
    assert_eq!(
        compute_sps::<Mayo1>(&short_row, &p1, &p2, &p3),
        Err(CryptoError::ParameterError)
    );
    // Only the low nibble of an entry counts.
    let mut high_bits = rows.clone();
    high_bits[0][0] = 0x31;
    assert_eq!(compute_sps::<Mayo1>(&high_bits, &p1, &p2, &p3).unwrap(), value);
}

/// A parameter set whose stated public key length is one byte too long.
struct Inconsistent;

impl MayoParams for Inconsistent {
    const M_PARAM: usize = 78;
    const N_PARAM: usize = 86;
    const O_PARAM: usize = 8;
    const K_PARAM: usize = 10;
    const KO_PARAM: usize = 80;
    const P1_ELEMS_PER_MATRIX: usize = 3081;
    const P2_ELEMS_PER_MATRIX: usize = 624;
    const P3_ELEMS_PER_MATRIX: usize = 36;
    const SALT_BYTES: usize = 24;
    const DIGEST_BYTES: usize = 32;
    const SK_SEED_BYTES: usize = 24;
    const PK_SEED_BYTES: usize = 16;
    const O_BYTES: usize = 312;
    const P1_BYTES: usize = 120159;
    const P2_BYTES: usize = 24336;
    const P3_BYTES: usize = 1404;
    const CSK_BYTES: usize = 24;
    const CPK_BYTES: usize = 1421;
    const SIG_BYTES: usize = 454;
    const R_BYTES: usize = 40;
    const V_BYTES: usize = 39;
    const O_ELTS: usize = 624;
    const L_BYTES: usize = 24336;
    const ESK_BYTES: usize = 144855;
    const EPK_BYTES: usize = 145899;
    const P1_MAT_ROWS: usize = 78;
    const P1_MAT_COLS: usize = 78;
    const P1_IS_TRIANGULAR: bool = true;
    const P2_MAT_ROWS: usize = 78;
    const P2_MAT_COLS: usize = 8;
    const P2_IS_TRIANGULAR: bool = false;
    const P3_MAT_ROWS: usize = 8;
    const P3_MAT_COLS: usize = 8;
    const P3_IS_TRIANGULAR: bool = true;
    const L_MAT_ROWS: usize = 78;
    const L_MAT_COLS: usize = 8;
    const L_IS_TRIANGULAR: bool = false;
    const F_TAIL: [u8; 4] = [8, 1, 1, 0];

    fn name() -> &'static str {
        "inconsistent"
    }

    fn security_level() -> usize {
        0
    }
}

#[test]
fn test_unusable_parameter_set_is_a_parameter_error() {
    assert!(checked_params::<Inconsistent>().is_none());
    assert_eq!(expand_matrices::<Inconsistent>(&[0u8; 16]), Err(CryptoError::ParameterError));
    assert_eq!(
        verify_generic::<Inconsistent>(&[0u8; 1421], b"m", &[0u8; 454]),
        Err(CryptoError::ParameterError)
    );
    assert_eq!(
        rust_mayo::crypto::sign_generic::<Inconsistent>(&[0u8; 24], b"m"),
        Err(CryptoError::ParameterError)
    );
    assert_eq!(
        rust_mayo::crypto::generate_keypair_generic::<Inconsistent>(),
        Err(CryptoError::ParameterError)
    );
    assert_eq!(
        rust_mayo::crypto::test_basic_crypto_operations::<Inconsistent>(),
        Err(CryptoError::ParameterError)
    );
}
