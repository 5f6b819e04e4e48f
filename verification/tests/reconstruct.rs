use key_share::key_share::{CoreKeyShare, CurveName, DirtyCoreKeyShare, DirtyKeyInfo, VssSetup};
use key_share::point::Point;
use key_share::reconstruct::{reconstruct_secret_key, ReconstructError};
use key_share::scalar::{NonZeroScalar, Scalar};

fn scalar(i: u16) -> Scalar {
    Scalar::from_u16(i)
}

fn commit(i: u16) -> Point {
    Point::generator_mul(&scalar(i))
}

fn trusted(i: u16, x: u16, key_info: DirtyKeyInfo) -> CoreKeyShare {
    DirtyCoreKeyShare {
        i,
        key_info,
        x: NonZeroScalar::from_scalar(scalar(x)).unwrap(),
    }
    .validate()
    .unwrap()
}

/// Additive shares 3, 4, 5 of the secret 12.
fn additive(i: u16) -> CoreKeyShare {
    let info = DirtyKeyInfo {
        curve: CurveName::Secp256k1,
        shared_public_key: commit(12),
        public_shares: vec![commit(3), commit(4), commit(5)],
        vss_setup: None,
        chain_code: None,
    };
    trusted(i, [3, 4, 5][usize::from(i)], info)
}

/// Shares 9, 21, 41, 69 of the secret 5: the values of 5 + 4x^2 at 1, 2, 3, 4.
fn threshold(i: u16) -> CoreKeyShare {
    let info = DirtyKeyInfo {
        curve: CurveName::Secp256k1,
        shared_public_key: commit(5),
        public_shares: vec![commit(9), commit(21), commit(41), commit(69)],
        vss_setup: Some(VssSetup {
            min_signers: 3,
            evaluation_points: vec![scalar(1), scalar(2), scalar(3), scalar(4)],
        }),
        chain_code: None,
    };
    trusted(i, [9, 21, 41, 69][usize::from(i)], info)
}

#[test]
fn additive_shares_are_summed() {
    let all = vec![additive(0), additive(1), additive(2)];
    assert!(reconstruct_secret_key(&all).unwrap().equals(&scalar(12)));
    let reordered = vec![additive(2), additive(0), additive(1)];
    assert!(reconstruct_secret_key(&reordered).unwrap().equals(&scalar(12)));
}

#[test]
fn additive_scheme_takes_every_share_once() {
    assert_eq!(
        reconstruct_secret_key(&vec![additive(0), additive(1)]).err(),
        Some(ReconstructError::TooFewKeyShares)
    );
    assert_eq!(
        reconstruct_secret_key(&vec![additive(0), additive(1), additive(1)]).err(),
        Some(ReconstructError::DuplicateShares)
    );
    assert_eq!(
        reconstruct_secret_key(&vec![additive(0), additive(1), additive(2), additive(0)]).err(),
        Some(ReconstructError::DuplicateShares)
    );
}

#[test]
fn threshold_shares_are_interpolated() {
    for quorum in [
        vec![0u16, 1, 2],
        vec![3, 1, 0],
        vec![1, 2, 3],
        vec![0, 1, 2, 3],
        vec![3, 2, 1, 0],
    ] {
        let shares: Vec<CoreKeyShare> = quorum.iter().map(|i| threshold(*i)).collect();
        assert!(reconstruct_secret_key(&shares).unwrap().equals(&scalar(5)));
    }
}

#[test]
fn threshold_scheme_takes_a_quorum_of_distinct_shares() {
    assert_eq!(
        reconstruct_secret_key(&vec![threshold(0), threshold(1)]).err(),
        Some(ReconstructError::TooFewKeyShares)
    );
    assert_eq!(
        reconstruct_secret_key(&vec![threshold(0), threshold(1), threshold(0)]).err(),
        Some(ReconstructError::DuplicateShares)
    );
    assert_eq!(
        reconstruct_secret_key(&vec![threshold(2), threshold(2), threshold(2), threshold(2)])
            .err(),
        Some(ReconstructError::DuplicateShares)
    );
}

#[test]
fn shares_must_belong_to_one_key() {
    assert_eq!(
        reconstruct_secret_key(&Vec::new()).err(),
        Some(ReconstructError::NoKeyShares)
    );
    assert_eq!(
        reconstruct_secret_key(&vec![additive(0), threshold(1), additive(2)]).err(),
        Some(ReconstructError::DifferentKeyShares)
    );
    assert_eq!(
        reconstruct_secret_key(&vec![threshold(0), threshold(1), additive(2)]).err(),
        Some(ReconstructError::DifferentKeyShares)
    );
}
