use rust_mayo::crypto::test_basic_crypto_operations;
use rust_mayo::params::Mayo1;

#[test]
fn test_mayo_basic_operations() {
    match test_basic_crypto_operations::<Mayo1>() {
        Ok(()) => {}
        Err(e) => panic!("Basic crypto operations test failed: {}", e.message()),
    }
}
