use rust_mayo::f16::F16;
use rust_mayo::vector::Vector;

fn f16v(vals: &[u8]) -> Vec<F16> {
    vals.iter().map(|&x| F16::new(x)).collect()
}

#[test]
fn test_vector_new_and_len() {
    let v = Vector::new(f16v(&[1, 2, 3]));
    assert_eq!(v.len(), 3);
    assert_eq!(v.get(0), Some(F16::new(1)));
    assert_eq!(v.get(3), None);
}

#[test]
fn test_vector_zero() {
    let v = Vector::zero(4);
    assert_eq!(v.len(), 4);
    assert_eq!(v.elements(), &[F16::new(0); 4]);
}

#[test]
fn test_vector_add() {
    let v1 = Vector::new(f16v(&[1, 2, 3]));
    let v2 = Vector::new(f16v(&[4, 5, 6]));
    let expected = Vector::new(f16v(&[1 ^ 4, 2 ^ 5, 3 ^ 6]));
    assert_eq!((&v1 + &v2), expected);
}

#[test]
fn test_vector_scalar_mul() {
    let v = Vector::new(f16v(&[1, 2, 3]));
    let s = F16::new(2);
    let expected = Vector::new(f16v(&[
        (F16::new(1) * s).value(),
        (F16::new(2) * s).value(),
        (F16::new(3) * s).value(),
    ]));
    assert_eq!(&v * s, expected);
    assert_eq!(s * &v, expected);
}

#[test]
fn test_encode_vec_even_len() {
    let v = Vector::new(f16v(&[1, 2, 3, 4]));
    let encoded = v.encode_vec();
    assert_eq!(encoded, vec![0x21, 0x43]);
}

#[test]
fn test_encode_vec_odd_len() {
    let v = Vector::new(f16v(&[1, 2, 3]));
    let encoded = v.encode_vec();
    assert_eq!(encoded, vec![0x21, 0x03]);
}

#[test]
fn test_encode_vec_single_len() {
    let v = Vector::new(f16v(&[0xA]));
    let encoded = v.encode_vec();
    assert_eq!(encoded, vec![0x0A]);
}

#[test]
fn test_decode_vec_even_len() {
    let bytes = vec![0x21, 0x43];
    let decoded = Vector::decode_vec(4, &bytes).unwrap();
    let expected = Vector::new(f16v(&[1, 2, 3, 4]));
    assert_eq!(decoded, expected);
}

#[test]
fn test_decode_vec_odd_len() {
    let bytes = vec![0x21, 0x03];
    let decoded = Vector::decode_vec(3, &bytes).unwrap();
    let expected = Vector::new(f16v(&[1, 2, 3]));
    assert_eq!(decoded, expected);
}

#[test]
fn test_decode_vec_single_len() {
    let bytes = vec![0x0A];
    let decoded = Vector::decode_vec(1, &bytes).unwrap();
    let expected = Vector::new(f16v(&[0xA]));
    assert_eq!(decoded, expected);
}

#[test]
fn test_decode_vec_invalid_len() {
    let bytes = vec![0x21];
    assert!(Vector::decode_vec(3, &bytes).is_err());
    assert!(Vector::decode_vec(4, &bytes).is_err());
}

#[test]
fn test_encode_decode_roundtrip() {
    let v1 = Vector::new(f16v(&[1, 5, 2, 8, 10, 3, 7, 0, 15, 4]));
    let encoded1 = v1.encode_vec();
    let decoded1 = Vector::decode_vec(v1.len(), &encoded1).unwrap();
    assert_eq!(v1, decoded1);

    let v2 = Vector::new(f16v(&[11, 6, 1, 9, 13, 2, 0, 8, 3]));
    let encoded2 = v2.encode_vec();
    let decoded2 = Vector::decode_vec(v2.len(), &encoded2).unwrap();
    assert_eq!(v2, decoded2);
}

#[test]
fn test_roundtrip_every_length_up_to_forty() {
    for n in 0..40usize {
        let vals: Vec<u8> = (0..n).map(|i| ((i * 7 + 3) % 16) as u8).collect();
        let v = Vector::new(f16v(&vals));
        let bytes = v.encode_vec();
        assert_eq!(bytes.len(), (n + 1) / 2);
        assert_eq!(Vector::decode_vec(n, &bytes).unwrap(), v);
    }
}

#[test]
fn test_vector_empty_and_dot() {
    assert!(Vector::zero(0).is_empty());
    assert!(!Vector::zero(1).is_empty());
    let a = Vector::new(f16v(&[1, 2, 3]));
    let b = Vector::new(f16v(&[2, 2, 1]));
    // 1*2 + 2*2 + 3*1 = 2 + 4 + 3 = 5
    assert_eq!(a.dot(&b), F16::new(5));
    assert_eq!(a.dot_between(&b, 1, 3), F16::new(7));
}

#[test]
fn test_vector_slice_concat_swap() {
    let a = Vector::new(f16v(&[1, 2, 3, 4]));
    assert_eq!(a.slice(1, 3), Vector::new(f16v(&[2, 3])));
    assert_eq!(a.slice(1, 3).concat(&a.slice(0, 1)), Vector::new(f16v(&[2, 3, 1])));
    let mut b = a.duplicate();
    b.swap(0, 3);
    assert_eq!(b, Vector::new(f16v(&[4, 2, 3, 1])));
    b.swap(0, 9);
    assert_eq!(b, Vector::new(f16v(&[4, 2, 3, 1])));
    b.set(1, F16::new(9));
    assert_eq!(b.at(1), F16::new(9));
    assert_eq!(Vector::from_values(&[0x1f, 2]), Vector::new(f16v(&[15, 2])));
    assert_eq!(Vector::decode_at(&[0xff, 0x21, 0x03], 1, 3), Vector::new(f16v(&[1, 2, 3])));
}
