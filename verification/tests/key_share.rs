use key_share::key_share::{
    validate_batch, CurveName, DirtyCoreKeyShare, DirtyKeyInfo, InvalidCoreShare, VssSetup,
};
use key_share::point::Point;
use key_share::scalar::{NonZeroScalar, Scalar};

fn scalar(i: u16) -> Scalar {
    Scalar::from_u16(i)
}

fn nonzero(i: u16) -> NonZeroScalar {
    NonZeroScalar::from_scalar(scalar(i)).unwrap()
}

fn commit(i: u16) -> Point {
    Point::generator_mul(&scalar(i))
}

/// Additive shares 3, 4, 5 of the secret 12.
fn additive_info() -> DirtyKeyInfo {
    DirtyKeyInfo {
        curve: CurveName::Secp256k1,
        shared_public_key: commit(12),
        public_shares: vec![commit(3), commit(4), commit(5)],
        vss_setup: None,
        chain_code: None,
    }
}

/// Shares 8, 11, 14 of the secret 5: the values of 5 + 3x at 1, 2, 3.
fn threshold_info() -> DirtyKeyInfo {
    DirtyKeyInfo {
        curve: CurveName::Secp256k1,
        shared_public_key: commit(5),
        public_shares: vec![commit(8), commit(11), commit(14)],
        vss_setup: Some(VssSetup {
            min_signers: 2,
            evaluation_points: vec![scalar(1), scalar(2), scalar(3)],
        }),
        chain_code: Some([9u8; 32]),
    }
}

fn share(i: u16, x: u16, key_info: DirtyKeyInfo) -> DirtyCoreKeyShare {
    DirtyCoreKeyShare {
        i,
        key_info,
        x: nonzero(x),
    }
}

#[test]
fn valid_shares_pass() {
    for (i, x) in [(0u16, 3u16), (1, 4), (2, 5)] {
        let valid = share(i, x, additive_info()).validate().unwrap();
        assert_eq!(valid.party_index(), i);
        assert!(valid.secret_share().get().equals(&scalar(x)));
        assert!(valid.key_info().same_as(&additive_info()));
        let back = valid.clone().into_inner();
        assert_eq!(back.i, i);
        assert!(back.key_info.same_as(&additive_info()));
    }
    for (i, x) in [(0u16, 8u16), (1, 11), (2, 14)] {
        let valid = share(i, x, threshold_info()).validate().unwrap();
        assert_eq!(valid.key_info().chain_code, Some([9u8; 32]));
        assert_eq!(valid.key_info().vss_setup.as_ref().unwrap().min_signers, 2);
    }
    assert_eq!(additive_info().validate(), Ok(()));
    assert_eq!(threshold_info().validate(), Ok(()));
}

#[test]
fn party_index_and_commitment_are_checked() {
    assert_eq!(
        share(3, 3, additive_info()).validate().err(),
        Some(InvalidCoreShare::PartyIndexOutOfBounds)
    );
    assert_eq!(
        share(1, 3, additive_info()).validate().err(),
        Some(InvalidCoreShare::PartySecretShareDoesntMatchPublicShare)
    );
    assert_eq!(
        share(0, 9, threshold_info()).validate().err(),
        Some(InvalidCoreShare::PartySecretShareDoesntMatchPublicShare)
    );
}

#[test]
fn number_of_parties_is_checked() {
    let mut info = additive_info();
    info.public_shares.clear();
    assert_eq!(info.validate(), Err(InvalidCoreShare::NoParties));
    let mut info = threshold_info();
    info.public_shares.clear();
    assert_eq!(info.validate(), Err(InvalidCoreShare::NoParties));
    let mut info = additive_info();
    info.public_shares = vec![commit(1); 65536];
    assert_eq!(info.validate(), Err(InvalidCoreShare::TooManyParties));
    let mut info = additive_info();
    info.public_shares = vec![commit(12)];
    assert_eq!(info.validate(), Ok(()));
}

#[test]
fn threshold_setup_is_checked() {
    let with = |min_signers: u16, points: &[u16]| {
        let mut info = threshold_info();
        info.vss_setup = Some(VssSetup {
            min_signers,
            evaluation_points: points.iter().map(|p| scalar(*p)).collect(),
        });
        info.validate()
    };
    assert_eq!(with(0, &[1, 2, 3]), Err(InvalidCoreShare::ThresholdTooSmall));
    assert_eq!(with(4, &[1, 2, 3]), Err(InvalidCoreShare::ThresholdTooLarge));
    assert_eq!(with(2, &[1, 2]), Err(InvalidCoreShare::EvaluationPointsLen));
    assert_eq!(
        with(2, &[1, 2, 3, 4]),
        Err(InvalidCoreShare::EvaluationPointsLen)
    );
    assert_eq!(with(2, &[1, 0, 3]), Err(InvalidCoreShare::ZeroEvaluationPoint));
    assert_eq!(
        with(2, &[1, 3, 3]),
        Err(InvalidCoreShare::EvaluationPointsNotDistinct)
    );
    assert_eq!(
        with(2, &[1, 2, 4]),
        Err(InvalidCoreShare::SharesDontMatchPublicKey)
    );
    assert_eq!(with(1, &[1, 2, 3]), Ok(()));
    assert_eq!(with(3, &[1, 2, 3]), Ok(()));
}

#[test]
fn public_key_is_checked() {
    let mut info = additive_info();
    info.shared_public_key = commit(13);
    assert_eq!(info.validate(), Err(InvalidCoreShare::SharesDontMatchPublicKey));
    let mut info = threshold_info();
    info.shared_public_key = commit(6);
    assert_eq!(info.validate(), Err(InvalidCoreShare::SharesDontMatchPublicKey));
    let mut info = threshold_info();
    info.public_shares[2] = commit(15);
    assert_eq!(info.validate(), Err(InvalidCoreShare::SharesDontMatchPublicKey));
    assert_eq!(
        share(0, 8, info).validate().err(),
        Some(InvalidCoreShare::SharesDontMatchPublicKey)
    );
}

#[test]
fn batch_is_accepted_as_a_whole() {
    let batch = vec![
        share(2, 5, additive_info()),
        share(0, 3, additive_info()),
        share(1, 4, additive_info()),
    ];
    let valid = validate_batch(batch).unwrap();
    assert_eq!(valid.len(), 3);
    assert_eq!(valid[0].party_index(), 2);
    assert_eq!(valid[1].party_index(), 0);
    assert_eq!(valid[2].party_index(), 1);
    assert!(valid[0].secret_share().get().equals(&scalar(5)));

    let batch = vec![
        share(0, 8, threshold_info()),
        share(1, 11, threshold_info()),
        share(2, 14, threshold_info()),
    ];
    assert_eq!(validate_batch(batch).unwrap().len(), 3);
}

#[test]
fn batch_is_refused_as_a_whole() {
    assert_eq!(
        validate_batch(Vec::new()).err(),
        Some(InvalidCoreShare::BatchLen)
    );
    let batch = vec![share(0, 3, additive_info()), share(1, 4, additive_info())];
    assert_eq!(validate_batch(batch).err(), Some(InvalidCoreShare::BatchLen));

    let mut other = additive_info();
    other.chain_code = Some([1u8; 32]);
    let batch = vec![
        share(0, 3, additive_info()),
        share(1, 4, other),
        share(2, 5, additive_info()),
    ];
    assert_eq!(
        validate_batch(batch).err(),
        Some(InvalidCoreShare::DifferentKeyInfo)
    );

    let batch = vec![
        share(0, 3, additive_info()),
        share(1, 4, additive_info()),
        share(3, 5, additive_info()),
    ];
    assert_eq!(
        validate_batch(batch).err(),
        Some(InvalidCoreShare::PartyIndexOutOfBounds)
    );

    let batch = vec![
        share(0, 3, additive_info()),
        share(1, 4, additive_info()),
        share(1, 4, additive_info()),
    ];
    assert_eq!(
        validate_batch(batch).err(),
        Some(InvalidCoreShare::PartyIndexRepeated)
    );

    let batch = vec![
        share(0, 3, additive_info()),
        share(1, 4, additive_info()),
        share(2, 6, additive_info()),
    ];
    assert_eq!(
        validate_batch(batch).err(),
        Some(InvalidCoreShare::PartySecretShareDoesntMatchPublicShare)
    );

    let mut wrong = additive_info();
    wrong.shared_public_key = commit(1);
    let batch = vec![
        share(0, 3, wrong.clone()),
        share(1, 4, wrong.clone()),
        share(2, 5, wrong),
    ];
    assert_eq!(
        validate_batch(batch).err(),
        Some(InvalidCoreShare::SharesDontMatchPublicKey)
    );
}

#[test]
fn common_data_is_compared_by_content() {
    assert!(additive_info().same_as(&additive_info()));
    assert!(threshold_info().same_as(&threshold_info().clone()));
    assert!(!additive_info().same_as(&threshold_info()));
    let mut other = threshold_info();
    other.vss_setup.as_mut().unwrap().min_signers = 3;
    assert!(!other.same_as(&threshold_info()));
    let mut other = threshold_info();
    other.vss_setup.as_mut().unwrap().evaluation_points[1] = scalar(7);
    assert!(!other.same_as(&threshold_info()));
    let mut other = threshold_info();
    other.public_shares[0] = commit(1);
    assert!(!other.same_as(&threshold_info()));
    let mut other = threshold_info();
    other.chain_code = None;
    assert!(!other.same_as(&threshold_info()));
    let mut other = threshold_info();
    other.shared_public_key = commit(1);
    assert!(!other.same_as(&threshold_info()));
}
