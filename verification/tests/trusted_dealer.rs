use key_share::key_share::{CoreKeyShare, InvalidCoreShare};
use key_share::point::Point;
use key_share::reconstruct::{reconstruct_secret_key, ReconstructError};
use key_share::scalar::{NonZeroScalar, Scalar};
use key_share::trusted_dealer::{builder, deal, Reason, TrustedDealerBuilder, TrustedDealerError};
use rand_core::{OsRng, RngCore};

fn scalar(i: u16) -> Scalar {
    Scalar::from_u16(i)
}

fn nonzero(i: u16) -> NonZeroScalar {
    NonZeroScalar::from_scalar(scalar(i)).unwrap()
}

/// Picks `count` of the shares at random, none of them twice.
fn choose_multiple(shares: &[CoreKeyShare], rng: &mut OsRng, count: usize) -> Vec<CoreKeyShare> {
    let mut indices: Vec<usize> = (0..shares.len()).collect();
    for k in 0..count {
        let rest = indices.len() - k;
        let pick = k + (rng.next_u32() as usize) % rest;
        indices.swap(k, pick);
    }
    indices[..count].iter().map(|i| shares[*i].clone()).collect()
}

fn generate_sequential(
    b: TrustedDealerBuilder,
    rng: &mut OsRng,
) -> Result<Vec<CoreKeyShare>, TrustedDealerError> {
    b.generate_shares(rng)
}

fn generate_random(
    b: TrustedDealerBuilder,
    rng: &mut OsRng,
) -> Result<Vec<CoreKeyShare>, TrustedDealerError> {
    b.generate_shares_at_random(rng)
}

#[test]
fn trusted_dealer_generates_correct_shares() {
    let mut rng = OsRng;
    let thresholds = [None, Some(2), Some(3), Some(5), Some(7), Some(10)];
    let methods = [generate_sequential, generate_random];

    for n in [2u16, 3, 7, 10] {
        for &t in thresholds
            .iter()
            .filter(|t| t.map(|t| t <= n).unwrap_or(true))
        {
            for generate in methods {
                println!("t={t:?} n={n}");
                let sk = NonZeroScalar::random(&mut rng);
                let builder = builder(n)
                    .set_threshold(t)
                    .set_shared_secret_key(sk);
                let shares = generate(builder, &mut rng).unwrap();
                assert_eq!(shares.len(), usize::from(n));

                // Choose `t` random key shares and reconstruct a secret key
                let t = t.unwrap_or(n);
                let t_shares = choose_multiple(&shares, &mut rng, t.into());

                let sk_reconstructed = reconstruct_secret_key(&t_shares).unwrap();
                assert!(sk.get().equals(&sk_reconstructed));
                assert!(Point::generator_mul(&sk_reconstructed)
                    .equals(&shares[0].key_info().shared_public_key));

                // Check that reconstruction works well with more than `t` shares
                let lowest = n.min(t + 1);
                let k = lowest + (rng.next_u32() % u32::from(n - lowest + 1)) as u16;
                let k_shares = choose_multiple(&shares, &mut rng, k.into());
                let sk_reconstructed2 = reconstruct_secret_key(&k_shares).unwrap();
                assert!(sk_reconstructed.equals(&sk_reconstructed2));
            }
        }
    }
}

#[test]
fn imported_key_is_reconstructed_from_two_quorums() {
    let mut rng = OsRng;
    let sk = NonZeroScalar::random(&mut rng);
    let shares = builder(5)
        .set_threshold(Some(3))
        .set_shared_secret_key(sk)
        .generate_shares(&mut rng)
        .unwrap();
    assert_eq!(shares.len(), 5);
    for (i, share) in shares.iter().enumerate() {
        assert_eq!(usize::from(share.party_index()), i);
        let vss = share.key_info().vss_setup.as_ref().unwrap();
        assert_eq!(vss.min_signers, 3);
        for (j, point) in vss.evaluation_points.iter().enumerate() {
            assert!(point.equals(&scalar(j as u16 + 1)));
        }
        assert!(Point::generator_mul(&sk.get()).equals(&share.key_info().shared_public_key));
    }

    let first = vec![shares[0].clone(), shares[2].clone(), shares[4].clone()];
    assert!(reconstruct_secret_key(&first).unwrap().equals(&sk.get()));
    let second = vec![
        shares[1].clone(),
        shares[2].clone(),
        shares[3].clone(),
        shares[4].clone(),
    ];
    assert!(reconstruct_secret_key(&second).unwrap().equals(&sk.get()));
}

#[test]
fn additive_shares_sum_to_the_secret() {
    let mut rng = OsRng;
    let shares = builder(3).generate_shares(&mut rng).unwrap();
    assert_eq!(shares.len(), 3);
    assert!(shares[0].key_info().vss_setup.is_none());

    let mut sum = Scalar::zero();
    for share in &shares {
        sum = sum.add(&share.secret_share().get());
    }
    let secret = reconstruct_secret_key(&shares).unwrap();
    assert!(secret.equals(&sum));
    let pk = shares[0].key_info().shared_public_key;
    assert!(Point::generator_mul(&secret).equals(&pk));

    let public_shares = &shares[0].key_info().public_shares;
    let public_sum = public_shares[0]
        .add(&public_shares[1])
        .add(&public_shares[2]);
    assert!(public_sum.equals(&pk));
}

#[test]
fn reconstruction_refuses_a_repeated_evaluation_point() {
    let mut rng = OsRng;
    let shares = builder(4)
        .set_threshold(Some(2))
        .generate_shares(&mut rng)
        .unwrap();
    let twice = vec![shares[1].clone(), shares[1].clone()];
    assert_eq!(
        reconstruct_secret_key(&twice).err(),
        Some(ReconstructError::DuplicateShares)
    );
    let thrice = vec![shares[0].clone(), shares[2].clone(), shares[0].clone()];
    assert_eq!(
        reconstruct_secret_key(&thrice).err(),
        Some(ReconstructError::DuplicateShares)
    );
}

#[test]
fn wrong_number_of_evaluation_points_yields_no_shares() {
    let mut rng = OsRng;
    for t in [None, Some(2)] {
        let too_few = builder(3)
            .set_threshold(t)
            .generate_shares_at(vec![nonzero(1), nonzero(2)], &mut rng);
        assert_eq!(
            too_few.err(),
            Some(TrustedDealerError(Reason::InvalidPreimages))
        );
        let too_many = builder(3).set_threshold(t).generate_shares_at(
            vec![nonzero(1), nonzero(2), nonzero(3), nonzero(4)],
            &mut rng,
        );
        assert_eq!(
            too_many.err(),
            Some(TrustedDealerError(Reason::InvalidPreimages))
        );
    }
}

#[test]
fn chain_code_is_shared_by_all_or_absent() {
    let mut rng = OsRng;
    for t in [None, Some(3)] {
        let with = builder(4)
            .set_threshold(t)
            .hd_wallet(true)
            .generate_shares(&mut rng)
            .unwrap();
        let code = with[0].key_info().chain_code.unwrap();
        for share in &with {
            assert_eq!(share.key_info().chain_code, Some(code));
        }
        let without = builder(4)
            .set_threshold(t)
            .hd_wallet(false)
            .generate_shares(&mut rng)
            .unwrap();
        for share in &without {
            assert_eq!(share.key_info().chain_code, None);
        }
    }
    let default = TrustedDealerBuilder::new(2).generate_shares(&mut rng).unwrap();
    assert!(default[0].key_info().chain_code.is_some());
}

#[test]
fn commitments_match_for_every_policy() {
    let mut rng = OsRng;
    let explicit = vec![nonzero(11), nonzero(5), nonzero(900), nonzero(2)];
    let batches = [
        builder(4).set_threshold(Some(3)).generate_shares(&mut rng).unwrap(),
        builder(4)
            .set_threshold(Some(3))
            .generate_shares_at_random(&mut rng)
            .unwrap(),
        builder(4)
            .set_threshold(Some(3))
            .generate_shares_at(explicit, &mut rng)
            .unwrap(),
    ];
    for shares in &batches {
        for share in shares {
            let i = usize::from(share.party_index());
            let commitment = Point::generator_mul(&share.secret_share().get());
            assert!(commitment.equals(&share.key_info().public_shares[i]));
        }
    }
    let points = &batches[2][0].key_info().vss_setup.as_ref().unwrap().evaluation_points;
    assert!(points[2].equals(&scalar(900)));
}

#[test]
fn dealing_with_given_scalars_evaluates_the_polynomial() {
    // f(x) = 5 + 3x at 1, 2, 3
    let shares = deal(
        3,
        Some(2),
        vec![scalar(1), scalar(2), scalar(3)],
        &nonzero(5),
        &vec![scalar(3)],
        None,
    )
    .unwrap();
    let expected = [8u16, 11, 14];
    for (share, e) in shares.iter().zip(expected) {
        assert!(share.secret_share().get().equals(&scalar(e)));
    }
    assert!(Point::generator_mul(&scalar(5)).equals(&shares[0].key_info().shared_public_key));
    let quorum = vec![shares[2].clone(), shares[0].clone()];
    assert!(reconstruct_secret_key(&quorum).unwrap().equals(&scalar(5)));
}

#[test]
fn dealing_with_given_scalars_splits_additively() {
    let code = [7u8; 32];
    let shares = deal(
        3,
        None,
        vec![scalar(1), scalar(2), scalar(3)],
        &nonzero(10),
        &vec![scalar(3), scalar(4)],
        Some(code),
    )
    .unwrap();
    let expected = [3u16, 4, 3];
    for (share, e) in shares.iter().zip(expected) {
        assert!(share.secret_share().get().equals(&scalar(e)));
        assert_eq!(share.key_info().chain_code, Some(code));
    }
    assert!(reconstruct_secret_key(&shares).unwrap().equals(&scalar(10)));
}

#[test]
fn zero_share_fails_the_whole_batch() {
    // f(x) = 6 - 3x vanishes at 2
    let minus_three = Scalar::zero().sub(&scalar(3));
    let r = deal(
        3,
        Some(2),
        vec![scalar(1), scalar(2), scalar(3)],
        &nonzero(6),
        &vec![minus_three],
        None,
    );
    assert_eq!(r.err(), Some(TrustedDealerError(Reason::ZeroShare)));
    // 7 - 7 = 0 for the last party
    let r = deal(2, None, vec![scalar(1), scalar(2)], &nonzero(7), &vec![scalar(7)], None);
    assert_eq!(r.err(), Some(TrustedDealerError(Reason::ZeroShare)));
}

#[test]
fn zero_share_comes_before_the_check_of_the_threshold() {
    // 1 + (q - 1) x vanishes at 1; the threshold 3 is above the 2 parties
    let minus_one = Scalar::zero().sub(&scalar(1));
    let r = deal(
        2,
        Some(3),
        vec![scalar(1), scalar(2)],
        &nonzero(1),
        &vec![minus_one, Scalar::zero()],
        None,
    );
    assert_eq!(r.err(), Some(TrustedDealerError(Reason::ZeroShare)));
    // without a zero share the same threshold is what the batch violates
    let r = deal(
        2,
        Some(3),
        vec![scalar(1), scalar(2)],
        &nonzero(1),
        &vec![scalar(1), Scalar::zero()],
        None,
    );
    assert_eq!(
        r.err(),
        Some(TrustedDealerError(Reason::InvalidKeyShare(
            InvalidCoreShare::ThresholdTooLarge
        )))
    );
}

#[test]
fn degenerate_configurations_are_refused() {
    let mut rng = OsRng;
    let r = builder(0).generate_shares(&mut rng);
    assert_eq!(
        r.err(),
        Some(TrustedDealerError(Reason::InvalidKeyShare(
            InvalidCoreShare::NoParties
        )))
    );
    let r = builder(3).set_threshold(Some(0)).generate_shares(&mut rng);
    assert_eq!(
        r.err(),
        Some(TrustedDealerError(Reason::InvalidKeyShare(
            InvalidCoreShare::ThresholdTooSmall
        )))
    );
    let r = builder(3).set_threshold(Some(4)).generate_shares(&mut rng);
    assert_eq!(
        r.err(),
        Some(TrustedDealerError(Reason::InvalidKeyShare(
            InvalidCoreShare::ThresholdTooLarge
        )))
    );
    let r = builder(3)
        .set_threshold(Some(2))
        .generate_shares_at(vec![nonzero(1), nonzero(2), nonzero(1)], &mut rng);
    assert_eq!(
        r.err(),
        Some(TrustedDealerError(Reason::InvalidKeyShare(
            InvalidCoreShare::EvaluationPointsNotDistinct
        )))
    );
    let r = deal(
        3,
        Some(2),
        vec![scalar(1), scalar(0), scalar(2)],
        &nonzero(5),
        &vec![scalar(3)],
        None,
    );
    assert_eq!(
        r.err(),
        Some(TrustedDealerError(Reason::InvalidKeyShare(
            InvalidCoreShare::ZeroEvaluationPoint
        )))
    );
}

#[test]
fn threshold_of_one_and_of_all() {
    let mut rng = OsRng;
    let sk = NonZeroScalar::random(&mut rng);
    let shares = builder(3)
        .set_threshold(Some(1))
        .set_shared_secret_key(sk)
        .generate_shares(&mut rng)
        .unwrap();
    for share in &shares {
        assert!(share.secret_share().get().equals(&sk.get()));
        assert!(reconstruct_secret_key(&vec![share.clone()])
            .unwrap()
            .equals(&sk.get()));
    }
    let shares = builder(3)
        .set_threshold(Some(3))
        .set_shared_secret_key(sk)
        .generate_shares(&mut rng)
        .unwrap();
    assert!(reconstruct_secret_key(&shares).unwrap().equals(&sk.get()));
    assert_eq!(
        reconstruct_secret_key(&shares[..2].to_vec()).err(),
        Some(ReconstructError::TooFewKeyShares)
    );
}

#[test]
fn error_messages() {
    for reason in [
        Reason::InvalidPreimages,
        Reason::ZeroShare,
        Reason::DeriveKeyShareIndex,
        Reason::InvalidKeyShare(InvalidCoreShare::NoParties),
    ] {
        let error = TrustedDealerError::from(reason);
        assert_eq!(error.message(), "trusted dealer failed to generate shares");
        assert_eq!(error.reason(), reason);
    }
    assert_eq!(
        Reason::InvalidPreimages.message(),
        "invalid share preimages given"
    );
    assert_eq!(
        Reason::ZeroShare.message(),
        "randomly generated share is zero - probability of that is negligible"
    );
    assert_eq!(
        Reason::DeriveKeyShareIndex.message(),
        "deriving key share index failed"
    );
    assert_eq!(
        Reason::InvalidKeyShare(InvalidCoreShare::NoParties).message(),
        "trusted dealer failed to generate shares due to internal error"
    );
}
