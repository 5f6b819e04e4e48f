use key_share::scalar::{NonZeroScalar, Scalar};
use rand_core::OsRng;

const ORDER: [u8; 32] = [
    0xFF, 0xFF, 0xFF, 0xFF, 0xFF, 0xFF, 0xFF, 0xFF, 0xFF, 0xFF, 0xFF, 0xFF, 0xFF, 0xFF, 0xFF, 0xFE,
    0xBA, 0xAE, 0xDC, 0xE6, 0xAF, 0x48, 0xA0, 0x3B, 0xBF, 0xD2, 0x5E, 0x8C, 0xD0, 0x36, 0x41, 0x41,
];

fn order_minus(k: u8) -> Scalar {
    let mut bytes = ORDER;
    bytes[31] -= k;
    Scalar::from_be_bytes(&bytes).unwrap()
}

#[test]
fn small_integers_are_encoded_big_endian() {
    let mut expected = [0u8; 32];
    assert_eq!(Scalar::zero().to_be_bytes(), expected);
    expected[31] = 1;
    assert_eq!(Scalar::one().to_be_bytes(), expected);
    expected[30] = 0x12;
    expected[31] = 0x34;
    assert_eq!(Scalar::from_u16(0x1234).to_be_bytes(), expected);
    expected[30] = 0xFF;
    expected[31] = 0xFF;
    assert_eq!(Scalar::from_u16(u16::MAX).to_be_bytes(), expected);
}

#[test]
fn decoding_accepts_exactly_what_is_below_the_order() {
    assert!(Scalar::from_be_bytes(&ORDER).is_none());
    assert!(Scalar::from_be_bytes(&[0xFF; 32]).is_none());
    let mut above = ORDER;
    above[31] += 1;
    assert!(Scalar::from_be_bytes(&above).is_none());
    let mut below = ORDER;
    below[31] -= 1;
    assert_eq!(Scalar::from_be_bytes(&below).unwrap().to_be_bytes(), below);
    assert!(Scalar::from_be_bytes(&[0; 32]).unwrap().is_zero());
}

#[test]
fn arithmetic_is_modulo_the_order() {
    let three = Scalar::from_u16(3);
    let four = Scalar::from_u16(4);
    assert!(three.add(&four).equals(&Scalar::from_u16(7)));
    assert!(three.mul(&four).equals(&Scalar::from_u16(12)));
    assert!(four.sub(&three).equals(&Scalar::one()));
    // 3 - 4 = q - 1
    assert!(three.sub(&four).equals(&order_minus(1)));
    // (q - 1) + 2 = 1
    assert!(order_minus(1).add(&Scalar::from_u16(2)).equals(&Scalar::one()));
    // (q - 1) * (q - 1) = 1 and (q - 2) * 3 = q - 6
    assert!(order_minus(1).mul(&order_minus(1)).equals(&Scalar::one()));
    assert!(order_minus(2).mul(&three).equals(&order_minus(6)));
    assert!(Scalar::from_u16(300)
        .mul(&Scalar::from_u16(300))
        .equals(&Scalar::from_u16(60000).add(&Scalar::from_u16(30000))));
}

#[test]
fn arithmetic_agrees_with_the_curve_library() {
    type Outside = generic_ec::Scalar<generic_ec::curves::Secp256k1>;
    let mut rng = OsRng;
    for _ in 0..20 {
        let a = Scalar::random(&mut rng);
        let b = Scalar::random(&mut rng);
        let x = Outside::from_be_bytes(a.to_be_bytes()).unwrap();
        let y = Outside::from_be_bytes(b.to_be_bytes()).unwrap();
        assert_eq!(a.add(&b).to_be_bytes().as_slice(), (x + y).to_be_bytes().as_bytes());
        assert_eq!(a.sub(&b).to_be_bytes().as_slice(), (x - y).to_be_bytes().as_bytes());
        assert_eq!(a.mul(&b).to_be_bytes().as_slice(), (x * y).to_be_bytes().as_bytes());
        assert_eq!(
            a.invert().unwrap().to_be_bytes().as_slice(),
            x.invert().unwrap().to_be_bytes().as_bytes()
        );
    }
}

#[test]
fn inverse_exists_for_all_but_zero() {
    assert!(Scalar::zero().invert().is_none());
    assert!(Scalar::one().invert().unwrap().equals(&Scalar::one()));
    assert!(order_minus(1).invert().unwrap().equals(&order_minus(1)));
    let mut rng = OsRng;
    for i in [2u16, 3, 7, 65535] {
        let a = Scalar::from_u16(i);
        let inv = a.invert().unwrap();
        assert!(!inv.equals(&a));
        assert!(a.mul(&inv).equals(&Scalar::one()));
    }
    let a = Scalar::random(&mut rng);
    assert!(a.mul(&a.invert().unwrap()).equals(&Scalar::one()));
}

#[test]
fn equality_and_zero_test() {
    assert!(Scalar::zero().is_zero());
    assert!(!Scalar::one().is_zero());
    assert!(!Scalar::from_u16(256).is_zero());
    assert!(Scalar::from_u16(256).equals(&Scalar::from_u16(256)));
    assert!(!Scalar::from_u16(256).equals(&Scalar::from_u16(1)));
    assert!(!order_minus(1).equals(&order_minus(2)));
}

#[test]
fn nonzero_refinement() {
    assert!(NonZeroScalar::from_scalar(Scalar::zero()).is_none());
    let nine = NonZeroScalar::from_scalar(Scalar::from_u16(9)).unwrap();
    assert!(nine.get().equals(&Scalar::from_u16(9)));
    let mut rng = OsRng;
    for _ in 0..10 {
        assert!(!NonZeroScalar::random(&mut rng).get().is_zero());
        assert!(!Scalar::random(&mut rng).is_zero());
    }
    let a = Scalar::random(&mut rng);
    let b = Scalar::random(&mut rng);
    assert!(!a.equals(&b));
}

#[test]
fn random_polynomial_keeps_the_constant_term() {
    let mut rng = OsRng;
    let c = Scalar::from_u16(1234);
    for degree in [0u16, 1, 2, 9] {
        let coefs = Scalar::random_polynomial(&mut rng, degree, &c);
        assert_eq!(coefs.len(), usize::from(degree) + 1);
        assert!(coefs[0].equals(&c));
        for other in &coefs[1..] {
            assert!(!other.equals(&c));
        }
    }
}
