use rust_mayo::f16::F16;

#[test]
fn test_f16_new() {
    assert_eq!(F16::new(0).value(), 0);
    assert_eq!(F16::new(15).value(), 15);
    assert_eq!(F16::new(16).value(), 0);
    assert_eq!(F16::new(0xAB).value(), 0x0B);
}

#[test]
fn test_f16_add() {
    let a = F16::new(0x0A);
    let b = F16::new(0x03);
    assert_eq!(a + b, F16::new(0x09));
}

#[test]
fn test_f16_sub() {
    let a = F16::new(0x0A);
    let b = F16::new(0x03);
    assert_eq!(a - b, F16::new(0x09));
}

#[test]
fn test_f16_mul_identity() {
    let a = F16::new(0x0A);
    let identity = F16::new(0x01);
    assert_eq!(a * identity, a);
    assert_eq!(identity * a, a);
}

#[test]
fn test_f16_mul_by_zero() {
    let a = F16::new(0x0A);
    let zero = F16::new(0x00);
    assert_eq!(a * zero, zero);
    assert_eq!(zero * a, zero);
}

#[test]
fn test_f16_mul_x_times_x() {
    let x_val = F16::new(0b0010);
    let x_squared = F16::new(0b0100);
    assert_eq!(x_val * x_val, x_squared);
}

#[test]
fn test_f16_mul_x2_times_x2() {
    let x2_val = F16::new(0b0100);
    let x_plus_1 = F16::new(0b0011);
    assert_eq!(x2_val * x2_val, x_plus_1);
}

#[test]
fn test_f16_mul_complex_1() {
    let x_plus_1 = F16::new(0b0011);
    let x2_plus_1 = F16::new(0b0101);
    let expected = F16::new(0b1111);
    assert_eq!(x_plus_1 * x2_plus_1, expected, "LHS: {:?}, RHS: {:?}", (x_plus_1 * x2_plus_1), expected);
}

#[test]
fn test_f16_mul_x3_times_x2() {
    let x3_val = F16::new(0b1000);
    let x2_val = F16::new(0b0100);
    let expected = F16::new(0b0110);
    assert_eq!(x3_val * x2_val, expected, "LHS: {:?}, RHS: {:?}", (x3_val * x2_val), expected);
}

#[test]
fn test_f16_inverse() {
    assert_eq!(F16::new(1).inverse(), Some(F16::new(1)), "Inverse of 1");

    let x_val = F16::new(0b0010);
    let x_inv_expected = F16::new(0b1001);
    assert_eq!(x_val.inverse(), Some(x_inv_expected), "Inverse of x");
    if let Some(inv) = x_val.inverse() {
        assert_eq!(x_val * inv, F16::new(1), "x * x^-1 should be 1");
    }

    for i in 1..16 {
        let val = F16::new(i);
        match val.inverse() {
            Some(inv) => assert_eq!(val * inv, F16::new(1), "Inverse check failed for F16({})", i),
            None => panic!("Inverse not found for non-zero element F16({})", i),
        }
    }
    assert_eq!(F16::new(0).inverse(), None, "Inverse of 0");
}

#[test]
fn test_f16_encode_decode() {
    for i in 0..16u8 {
        let f_element = F16::new(i);
        let encoded_val = f_element.encode_f16();
        assert_eq!(encoded_val, i, "Encoding failed for {}", i);
        let decoded_element = F16::decode_f16(encoded_val);
        assert_eq!(decoded_element, f_element, "Decoding failed for {}", i);
    }
    let decoded_masked = F16::decode_f16(0xAB);
    assert_eq!(decoded_masked, F16::new(0x0B), "Masking during decode failed");
}

#[test]
fn test_f16_field_laws_exhaustive() {
    for a in 0..16u8 {
        let fa = F16::new(a);
        assert_eq!(fa + fa, F16::new(0));
        for b in 0..16u8 {
            let fb = F16::new(b);
            assert_eq!(fa * fb, fb * fa);
            for c in 0..16u8 {
                let fc = F16::new(c);
                assert_eq!(fa * (fb + fc), fa * fb + fa * fc);
                assert_eq!((fa * fb) * fc, fa * (fb * fc));
            }
        }
    }
}

#[test]
fn test_f16_div_is_mul_by_inverse() {
    let a = F16::new(7);
    let b = F16::new(11);
    assert_eq!((a / b) * b, a);
    assert_eq!(F16::new(6) / F16::new(2), F16::new(3));
}

#[test]
fn test_f16_mul_exact_values() {
    assert_eq!((F16::new(9) * F16::new(2)).value(), 1);
    assert_eq!((F16::new(15) * F16::new(15)).value(), 10);
    assert_eq!((F16::new(8) * F16::new(8)).value(), 12);
}
