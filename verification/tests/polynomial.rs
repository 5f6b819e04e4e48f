use key_share::polynomial::{evaluate, lagrange_coefficient_at_zero};
use key_share::scalar::Scalar;

fn scalars(values: &[u16]) -> Vec<Scalar> {
    values.iter().map(|v| Scalar::from_u16(*v)).collect()
}

#[test]
fn evaluation_by_the_coefficients() {
    // 7 + 2x + 3x^2
    let f = scalars(&[7, 2, 3]);
    assert!(evaluate(&f, &Scalar::zero()).equals(&Scalar::from_u16(7)));
    assert!(evaluate(&f, &Scalar::one()).equals(&Scalar::from_u16(12)));
    assert!(evaluate(&f, &Scalar::from_u16(2)).equals(&Scalar::from_u16(23)));
    assert!(evaluate(&f, &Scalar::from_u16(10)).equals(&Scalar::from_u16(327)));
    assert!(evaluate(&Vec::new(), &Scalar::from_u16(5)).is_zero());
    assert!(evaluate(&scalars(&[9]), &Scalar::from_u16(5)).equals(&Scalar::from_u16(9)));
}

#[test]
fn lagrange_coefficients_at_zero() {
    let xs = scalars(&[1, 2, 3]);
    let minus_three = Scalar::zero().sub(&Scalar::from_u16(3));
    let l0 = lagrange_coefficient_at_zero(0, &xs).unwrap();
    let l1 = lagrange_coefficient_at_zero(1, &xs).unwrap();
    let l2 = lagrange_coefficient_at_zero(2, &xs).unwrap();
    assert!(l0.equals(&Scalar::from_u16(3)));
    assert!(l1.equals(&minus_three));
    assert!(l2.equals(&Scalar::one()));
    assert!(l0.add(&l1).add(&l2).equals(&Scalar::one()));
    // a single point has the coefficient 1
    assert!(lagrange_coefficient_at_zero(0, &scalars(&[77]))
        .unwrap()
        .equals(&Scalar::one()));
}

#[test]
fn lagrange_coefficient_needs_distinct_points() {
    let xs = scalars(&[1, 2, 1, 4]);
    assert!(lagrange_coefficient_at_zero(0, &xs).is_none());
    assert!(lagrange_coefficient_at_zero(2, &xs).is_none());
    assert!(lagrange_coefficient_at_zero(1, &xs).is_some());
    assert!(lagrange_coefficient_at_zero(3, &xs).is_some());
    assert!(lagrange_coefficient_at_zero(4, &xs).is_none());
    assert!(lagrange_coefficient_at_zero(0, &Vec::new()).is_none());
}

#[test]
fn lagrange_coefficients_agree_with_the_proof_library() {
    type Outside = generic_ec::Scalar<generic_ec::curves::Secp256k1>;
    let values = [5u16, 17, 300, 65535];
    let xs = scalars(&values);
    let outside: Vec<Outside> = values.iter().map(|v| Outside::from(*v)).collect();
    for j in 0..values.len() {
        let expected =
            generic_ec_zkp::polynomial::lagrange_coefficient(Outside::zero(), j, &outside)
                .unwrap();
        assert_eq!(
            lagrange_coefficient_at_zero(j, &xs)
                .unwrap()
                .to_be_bytes()
                .as_slice(),
            expected.to_be_bytes().as_bytes()
        );
    }
    let f = scalars(&[11, 22, 33, 44]);
    let outside_f = generic_ec_zkp::polynomial::Polynomial::from_coefs(
        [11u16, 22, 33, 44].iter().map(|v| Outside::from(*v)).collect(),
    );
    for x in values {
        let expected: Outside = outside_f.value(&Outside::from(x));
        assert_eq!(
            evaluate(&f, &Scalar::from_u16(x)).to_be_bytes().as_slice(),
            expected.to_be_bytes().as_bytes()
        );
    }
}
