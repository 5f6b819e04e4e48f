use key_share::point::Point;
use key_share::scalar::Scalar;

const GENERATOR: [u8; 33] = [
    0x02, 0x79, 0xBE, 0x66, 0x7E, 0xF9, 0xDC, 0xBB, 0xAC, 0x55, 0xA0, 0x62, 0x95, 0xCE, 0x87, 0x0B,
    0x07, 0x02, 0x9B, 0xFC, 0xDB, 0x2D, 0xCE, 0x28, 0xD9, 0x59, 0xF2, 0x81, 0x5B, 0x16, 0xF8, 0x17,
    0x98,
];

const TWICE_GENERATOR: [u8; 33] = [
    0x02, 0xC6, 0x04, 0x7F, 0x94, 0x41, 0xED, 0x7D, 0x6D, 0x30, 0x45, 0x40, 0x6E, 0x95, 0xC0, 0x7C,
    0xD8, 0x5C, 0x77, 0x8E, 0x4B, 0x8C, 0xEF, 0x3C, 0xA7, 0xAB, 0xAC, 0x09, 0xB9, 0x5C, 0x70, 0x9E,
    0xE5,
];

#[test]
fn multiples_of_the_generator() {
    let g = Point::generator_mul(&Scalar::one());
    assert_eq!(g.to_bytes(), GENERATOR);
    let g2 = Point::generator_mul(&Scalar::from_u16(2));
    assert_eq!(g2.to_bytes(), TWICE_GENERATOR);
    assert_eq!(Point::generator_mul(&Scalar::zero()).to_bytes(), [0u8; 33]);
}

#[test]
fn sums_and_multiples() {
    let g = Point::from_bytes(&GENERATOR).unwrap();
    assert_eq!(g.add(&g).to_bytes(), TWICE_GENERATOR);
    assert_eq!(g.mul(&Scalar::from_u16(2)).to_bytes(), TWICE_GENERATOR);
    let g3 = Point::generator_mul(&Scalar::from_u16(3));
    assert!(g.add(&g).add(&g).equals(&g3));
    assert!(g.mul(&Scalar::from_u16(3)).equals(&g3));
    let g2 = Point::from_bytes(&TWICE_GENERATOR).unwrap();
    assert!(g2.mul(&Scalar::from_u16(5)).equals(&Point::generator_mul(&Scalar::from_u16(10))));
    assert!(!g2.equals(&g));
    // the identity is neutral, and zero times a point is the identity
    let zero = Point::from_bytes(&[0u8; 33]).unwrap();
    assert!(g.add(&zero).equals(&g));
    assert!(g.mul(&Scalar::zero()).equals(&zero));
    // G + (q - 1) G is the identity
    let minus_one = Scalar::zero().sub(&Scalar::one());
    assert!(g.add(&Point::generator_mul(&minus_one)).equals(&zero));
}

#[test]
fn decoding_refuses_what_is_no_point() {
    assert!(Point::from_bytes(&[0x07; 33]).is_none());
    let mut wrong_tag = GENERATOR;
    wrong_tag[0] = 0x04;
    assert!(Point::from_bytes(&wrong_tag).is_none());
    let mut above_the_field = [0xFF; 33];
    above_the_field[0] = 0x02;
    assert!(Point::from_bytes(&above_the_field).is_none());
    let mut other_root = GENERATOR;
    other_root[0] = 0x03;
    let mirrored = Point::from_bytes(&other_root).unwrap();
    assert_eq!(mirrored.to_bytes(), other_root);
    let g = Point::from_bytes(&GENERATOR).unwrap();
    assert_eq!(g.to_bytes(), GENERATOR);
    assert_eq!(g.add(&mirrored).to_bytes(), [0u8; 33]);
}

#[test]
fn operations_agree_with_the_curve_library() {
    type Outside = generic_ec::Point<generic_ec::curves::Secp256k1>;
    let k = Scalar::from_u16(4660);
    let outside_k = generic_ec::Scalar::<generic_ec::curves::Secp256k1>::from(4660u16);
    let p = Outside::generator() * outside_k;
    assert_eq!(
        Point::generator_mul(&k).to_bytes().as_slice(),
        p.to_bytes(true).as_bytes()
    );
    let q = p + Outside::generator();
    let g = Point::from_bytes(&GENERATOR).unwrap();
    assert_eq!(
        Point::generator_mul(&k).add(&g).to_bytes().as_slice(),
        q.to_bytes(true).as_bytes()
    );
    let r = outside_k * q;
    assert_eq!(
        Point::generator_mul(&k).add(&g).mul(&k).to_bytes().as_slice(),
        r.to_bytes(true).as_bytes()
    );
}
