use rust_mayo::params::{
    bounded_product, checked_params, params_of, tri_count, Mayo1, Mayo2, Mayo3, Mayo5, MayoParams,
    ParamSet, MAX_SIGN_ATTEMPTS,
};

fn check_set<P: MayoParams>(name: &str, level: usize) {
    assert_eq!(P::name(), name);
    assert_eq!(P::security_level(), level);
    let ps = checked_params::<P>().unwrap();
    assert_eq!(ps, params_of::<P>());
    assert_eq!(ps.max_attempts, MAX_SIGN_ATTEMPTS);
    let v = P::N_PARAM - P::O_PARAM;
    assert_eq!(ps.v(), v);
    assert_eq!(ps.p1_count(), P::P1_ELEMS_PER_MATRIX);
    assert_eq!(ps.p2_count(), P::P2_ELEMS_PER_MATRIX);
    assert_eq!(ps.p3_count(), P::P3_ELEMS_PER_MATRIX);
    assert_eq!(ps.o_bytes(), P::O_BYTES);
    assert_eq!(ps.cpk_bytes(), P::CPK_BYTES);
    assert_eq!(ps.sig_bytes(), P::SIG_BYTES);
    assert_eq!(ps.v_bytes(), P::V_BYTES);
    assert_eq!(ps.r_bytes(), P::R_BYTES);
    assert_eq!(ps.solution_bytes() + P::SALT_BYTES, P::SIG_BYTES);
    assert_eq!(ps.secret_bytes(), P::PK_SEED_BYTES + P::O_BYTES);
    assert_eq!(ps.attempt_bytes(), P::K_PARAM * P::V_BYTES + P::R_BYTES);
    assert_eq!(ps.total_elements(), 2 * (P::P1_BYTES + P::P2_BYTES + P::P3_BYTES));
    assert_eq!(ps.expansion_bytes(), P::EPK_BYTES);
    assert_eq!(P::KO_PARAM, P::K_PARAM * P::O_PARAM);
    assert_eq!(P::ESK_BYTES, P::SK_SEED_BYTES + P::O_BYTES + P::P1_BYTES + P::L_BYTES);
    assert_eq!(ps.f_tail, P::F_TAIL);
}

#[test]
fn test_named_parameter_sets_are_consistent() {
    check_set::<Mayo1>("MAYO-1", 1);
    check_set::<Mayo2>("MAYO-2", 2);
    check_set::<Mayo3>("MAYO-3", 3);
    check_set::<Mayo5>("MAYO-5", 5);
}

#[test]
fn test_counts_exact_values() {
    assert_eq!(tri_count(0), 0);
    assert_eq!(tri_count(1), 1);
    assert_eq!(tri_count(78), 3081);
    assert_eq!(tri_count(1024), 524800);
    assert_eq!(bounded_product(78, 8), 624);
    let ps = params_of::<Mayo1>();
    assert_eq!(ps.batch_elements(3081), 240318);
}

#[test]
fn test_parameter_validity() {
    let good = params_of::<Mayo1>();
    assert!(good.is_valid());
    assert!(!ParamSet { m: 3, ..good }.is_valid());
    assert!(!ParamSet { o: 0, ..good }.is_valid());
    assert!(!ParamSet { o: 86, ..good }.is_valid());
    assert!(!ParamSet { n: 1025, ..good }.is_valid());
    assert!(!ParamSet { k: 0, ..good }.is_valid());
    assert!(!ParamSet { max_attempts: 257, ..good }.is_valid());
    assert!(!ParamSet { max_attempts: 0, ..good }.is_valid());
    assert!(!ParamSet { digest_bytes: 0, ..good }.is_valid());
    assert!(ParamSet { salt_bytes: 0, ..good }.is_valid());
}
