use rust_mayo::f16::F16;
use rust_mayo::mvector::MVector;

fn f16mv(m_param: usize, vals: &[u8]) -> MVector {
    MVector::new(m_param, vals.iter().map(|&x| F16::new(x)).collect()).unwrap()
}

#[test]
fn test_mvector_new_zero() {
    let mv = MVector::zero(10);
    assert_eq!(mv.len(), 10);
    assert!(mv.elements.iter().all(|&x| x == F16::new(0)));

    let mv2 = f16mv(3, &[1, 2, 3]);
    assert_eq!(mv2.len(), 3);
    assert_eq!(mv2.elements[0].value(), 1);
}

#[test]
fn test_mvector_add() {
    let mv1 = f16mv(2, &[1, 2]);
    let mv2 = f16mv(2, &[3, 4]);
    let expected = f16mv(2, &[1 ^ 3, 2 ^ 4]);
    assert_eq!((&mv1 + &mv2).unwrap(), expected);
}

#[test]
fn test_mvector_scalar_mul() {
    let mv = f16mv(2, &[3, 5]);
    let s = F16::new(2);
    let expected = f16mv(2, &[6, 10]);
    assert_eq!(&mv * s, expected);
    assert_eq!(s * &mv, expected);
}

#[test]
fn test_mvector_to_from_limbs_bytes_roundtrip() {
    let m_param = 64;
    let m_vec_limbs = (m_param + 15) / 16;

    let mut f16_elements = Vec::new();
    for i in 0..m_param {
        f16_elements.push(F16::new((i % 16) as u8));
    }
    let mv = MVector::new(m_param, f16_elements).unwrap();

    let limbs_bytes = mv.to_limbs_bytes(m_vec_limbs).unwrap();
    assert_eq!(limbs_bytes.len(), (m_param + 1) / 2);

    let mv_reconstructed = MVector::from_limbs_bytes(&limbs_bytes, m_param, m_vec_limbs).unwrap();
    assert_eq!(mv, mv_reconstructed, "MVector to/from limbs_bytes roundtrip failed");
}

#[test]
fn test_mvector_to_from_limbs_bytes_odd_m_param() {
    let m_param = 7;
    let m_vec_limbs = (m_param + 15) / 16;

    let f16_elements = vec![
        F16::new(1),
        F16::new(2),
        F16::new(3),
        F16::new(4),
        F16::new(5),
        F16::new(6),
        F16::new(7),
    ];
    let mv = MVector::new(m_param, f16_elements).unwrap();

    let limbs_bytes = mv.to_limbs_bytes(m_vec_limbs).unwrap();
    assert_eq!(limbs_bytes.len(), (m_param + 1) / 2);

    let mv_reconstructed = MVector::from_limbs_bytes(&limbs_bytes, m_param, m_vec_limbs).unwrap();
    assert_eq!(mv, mv_reconstructed);
}

#[test]
fn test_mvector_from_limbs_bytes_specific() {
    let bytes = vec![0x21, 0x43];
    let m_param = 4;
    let m_vec_limbs = 1;
    let mv = MVector::from_limbs_bytes(&bytes, m_param, m_vec_limbs).unwrap();
    let expected_elements = vec![F16::new(1), F16::new(2), F16::new(3), F16::new(4)];
    assert_eq!(mv.elements, expected_elements);
}

#[test]
fn test_mvector_to_limbs_bytes_specific() {
    let elements = vec![F16::new(1), F16::new(2), F16::new(3), F16::new(4)];
    let m_param = 4;
    let m_vec_limbs = 1;
    let mv = MVector::new(m_param, elements).unwrap();
    let bytes = mv.to_limbs_bytes(m_vec_limbs).unwrap();
    assert_eq!(bytes, vec![0x21, 0x43]);
}

#[test]
fn test_mvector_errors() {
    assert!(MVector::new(3, vec![F16::new(1)]).is_err());
    assert!((&f16mv(2, &[1, 2]) + &f16mv(3, &[1, 2, 3])).is_err());
    assert!(MVector::from_limbs_bytes(&[0x21], 4, 1).is_err());
    assert!(MVector::from_limbs_bytes(&[0u8; 9], 17, 1).is_err());
    assert!(f16mv(17, &[0; 17]).to_limbs_bytes(1).is_err());
    assert!(MVector::zero(0).is_empty());
    assert_eq!(MVector::zero(0).to_limbs_bytes(0).unwrap(), Vec::<u8>::new());
}

#[test]
fn test_poly_mul_by_x_and_add_shifts_and_reduces() {
    let tail = [8u8, 1, 1, 0];
    // X * (1 + 2 X^4) + (3, 0, 0, 0, 0) with X^5 = tail: the top coefficient 2
    // comes back as 2 * (8, 1, 1, 0).
    let acc = f16mv(5, &[1, 0, 0, 0, 2]);
    let addend = f16mv(5, &[3, 0, 0, 0, 0]);
    let expected = f16mv(
        5,
        &[
            (F16::new(2) * F16::new(8)).value() ^ 3,
            1 ^ 2,
            2,
            0,
            0,
        ],
    );
    assert_eq!(acc.poly_mul_by_x_and_add(&tail, &addend).unwrap(), expected);
    // Without a top coefficient the step is a plain shift plus the addend.
    let plain = f16mv(5, &[5, 6, 7, 9, 0]);
    assert_eq!(
        plain.poly_mul_by_x_and_add(&tail, &MVector::zero(5)).unwrap(),
        f16mv(5, &[0, 5, 6, 7, 9])
    );
    assert_ne!(plain.poly_mul_by_x_and_add(&tail, &addend).unwrap(), plain.plus(&addend).unwrap());
}

#[test]
fn test_poly_mul_by_x_and_add_errors() {
    let tail = [8u8, 1, 1, 0];
    let acc = f16mv(5, &[1, 0, 0, 0, 2]);
    assert!(acc.poly_mul_by_x_and_add(&tail, &MVector::zero(4)).is_err());
    assert!(acc.poly_mul_by_x_and_add(&tail[..3], &MVector::zero(5)).is_err());
    assert!(MVector::zero(3).poly_mul_by_x_and_add(&tail, &MVector::zero(3)).is_err());
}

#[test]
fn test_mvector_accumulate() {
    let mut acc = f16mv(3, &[1, 2, 3]);
    acc.accumulate(&f16mv(3, &[1, 1, 2]), F16::new(2));
    assert_eq!(acc, f16mv(3, &[1 ^ 2, 2 ^ 2, 3 ^ 4]));
    assert_eq!(acc.at(2), F16::new(7));
    assert_eq!(acc.duplicate(), acc);
}
