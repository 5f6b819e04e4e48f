//! Reconstruction of the shared secret from a quorum of trusted key shares.

use vstd::prelude::*;
use crate::field::{fadd, fmul};
use crate::key_share::{
    batch_differs, batch_index_repeated, trusted_views, CoreKeyShare, KeyInfoView, KeyShareView,
};
use crate::polynomial::{
    lagrange_at_zero, lagrange_coefficient_at_zero, pairwise_distinct, scalar_values,
};
use crate::scalar::Scalar;

verus! {

/// Why a secret could not be reconstructed.
#[derive(Clone, Copy, Debug, PartialEq, Eq, Structural)]
pub enum ReconstructError {
    /// No key share was given.
    NoKeyShares,
    /// The key shares do not belong to one key.
    DifferentKeyShares,
    /// Fewer key shares were given than the scheme requires.
    TooFewKeyShares,
    /// Two of the key shares belong to the same party, or were evaluated at
    /// the same point.
    DuplicateShares,
}

/// Number of shares that the scheme requires: the threshold, or every share
/// where the scheme is additive.
pub open spec fn required_shares(k: KeyInfoView) -> int {
    match k.vss_setup {
        Some(vss) => vss.min_signers,
        None => k.public_shares.len() as int,
    }
}

/// The secret shares that the given key shares contribute.
pub open spec fn contributed_secrets(b: Seq<KeyShareView>) -> Seq<int> {
    Seq::new(b.len(), |k: int| b[k].x)
}

/// The evaluation points of the given key shares of a threshold scheme.
pub open spec fn contributed_points(b: Seq<KeyShareView>) -> Seq<int> {
    Seq::new(b.len(), |k: int| b[k].key_info.vss_setup->Some_0.evaluation_points[b[k].i])
}

/// Sum of the first `len` residues of `ys`.
pub open spec fn scalar_sum_prefix(ys: Seq<int>, len: nat) -> int
    decreases len,
{
    if len == 0 {
        0
    } else {
        fadd(scalar_sum_prefix(ys, (len - 1) as nat), ys[len - 1])
    }
}

/// Sum of the residues `ys`.
pub open spec fn scalar_sum(ys: Seq<int>) -> int {
    scalar_sum_prefix(ys, ys.len())
}

/// Sum over `j < len` of `ys[j]` multiplied by the Lagrange coefficient of
/// `xs[j]` at zero.
pub open spec fn interpolation_prefix(xs: Seq<int>, ys: Seq<int>, len: nat) -> int
    decreases len,
{
    if len == 0 {
        0
    } else {
        fadd(
            interpolation_prefix(xs, ys, (len - 1) as nat),
            fmul(lagrange_at_zero(xs, len - 1), ys[len - 1]),
        )
    }
}

/// Value at zero of the polynomial that takes the value `ys[j]` at `xs[j]`.
pub open spec fn interpolate_at_zero(xs: Seq<int>, ys: Seq<int>) -> int {
    interpolation_prefix(xs, ys, xs.len())
}

/// What reconstruction from the given key shares yields: the secret, or the
/// reason why there is none.
pub open spec fn reconstruction(b: Seq<KeyShareView>) -> Result<int, ReconstructError> {
    if b.len() == 0 {
        Err(ReconstructError::NoKeyShares)
    } else if batch_differs(b) {
        Err(ReconstructError::DifferentKeyShares)
    } else if b.len() < required_shares(b[0].key_info) {
        Err(ReconstructError::TooFewKeyShares)
    } else if b[0].key_info.vss_setup is None {
        if batch_index_repeated(b) {
            Err(ReconstructError::DuplicateShares)
        } else {
            Ok(scalar_sum(contributed_secrets(b)))
        }
    } else {
        if !pairwise_distinct(contributed_points(b)) {
            Err(ReconstructError::DuplicateShares)
        } else {
            Ok(interpolate_at_zero(contributed_points(b), contributed_secrets(b)))
        }
    }
}

/// Whether two of the given party indices, all below `n`, are equal.
fn index_repeated(indices: &Vec<u16>, n: usize) -> (r: bool)
    requires
        forall|k: int| 0 <= k < indices.len() ==> indices@[k] < n,
    ensures
        r == exists|k1: int, k2: int|
            0 <= k1 < k2 < indices.len() && #[trigger] indices@[k1] == #[trigger] indices@[k2],
{
    let mut seen: Vec<bool> = Vec::new();
    let mut k: usize = 0;
    while k < n
        invariant
            0 <= k <= n,
            seen.len() == k,
            forall|m: int| 0 <= m < k ==> !seen@[m],
        decreases n - k,
    {
        seen.push(false);
        k += 1;
    }
    let mut k: usize = 0;
    while k < indices.len()
        invariant
            0 <= k <= indices.len(),
            seen.len() == n,
            forall|m: int| 0 <= m < indices.len() ==> indices@[m] < n,
            forall|idx: int|
                0 <= idx < n ==> (#[trigger] seen@[idx] <==> exists|m: int|
                    0 <= m < k && #[trigger] indices@[m] == idx),
            forall|m1: int, m2: int|
                0 <= m1 < m2 < k ==> #[trigger] indices@[m1] != #[trigger] indices@[m2],
        decreases indices.len() - k,
    {
        let idx = indices[k] as usize;
        if seen[idx] {
            proof {
                let m = choose|m: int| 0 <= m < k && #[trigger] indices@[m] == idx;
                assert(indices@[m] == indices@[k as int]);
            }
            return true;
        }
        let ghost before = seen@;
        seen.set(idx, true);
        proof {
            assert forall|j: int| 0 <= j < n implies (#[trigger] seen@[j] <==> exists|m: int|
                0 <= m < k + 1 && #[trigger] indices@[m] == j) by {
                if j == idx {
                    assert(indices@[k as int] == j);
                } else {
                    assert(seen@[j] == before[j]);
                    if before[j] {
                        let m = choose|m: int| 0 <= m < k && #[trigger] indices@[m] == j;
                        assert(0 <= m < k + 1 && indices@[m] == j);
                    }
                }
            }
        }
        k += 1;
    }
    false
}

/// Reconstructs the shared secret from key shares of one key.
///
/// An additive scheme takes one share of every party and adds the secret
/// shares up. A threshold scheme takes at least `min_signers` shares with
/// pairwise different evaluation points and interpolates at zero. The shares
/// are trusted as they are: nothing is checked of them again.
pub fn reconstruct_secret_key(shares: &Vec<CoreKeyShare>) -> (r: Result<Scalar, ReconstructError>)
    ensures
        match reconstruction(trusted_views(shares@)) {
            Ok(secret) => r is Ok && r->Ok_0@ == secret,
            Err(e) => r == Err::<Scalar, ReconstructError>(e),
        },
{
    let ghost b = trusted_views(shares@);
    let len = shares.len();
    if len == 0 {
        return Err(ReconstructError::NoKeyShares);
    }
    let first = shares[0].key_info();
    let mut k: usize = 1;
    while k < len
        invariant
            1 <= k <= len,
            len == shares.len(),
            b == trusted_views(shares@),
            first@ == b[0].key_info,
            forall|m: int| 0 <= m < k ==> (#[trigger] b[m]).key_info == b[0].key_info,
        decreases len - k,
    {
        if !shares[k].key_info().same_as(first) {
            proof {
                assert(b[k as int].key_info != b[0].key_info);
            }
            return Err(ReconstructError::DifferentKeyShares);
        }
        k += 1;
    }
    proof {
        assert(!batch_differs(b));
    }
    let n = first.public_shares.len();
    let mut indices: Vec<u16> = Vec::new();
    let mut secrets: Vec<Scalar> = Vec::new();
    let mut k: usize = 0;
    while k < len
        invariant
            0 <= k <= len,
            len == shares.len(),
            b == trusted_views(shares@),
            first@ == b[0].key_info,
            n == first.public_shares.len(),
            !batch_differs(b),
            indices.len() == k,
            secrets.len() == k,
            forall|m: int| 0 <= m < k ==> indices@[m] == (#[trigger] b[m]).i,
            forall|m: int| 0 <= m < k ==> #[trigger] indices@[m] < n,
            forall|m: int| 0 <= m < k ==> (#[trigger] secrets@[m])@ == b[m].x,
        decreases len - k,
    {
        let i = shares[k].party_index();
        proof {
            assert(b[k as int].key_info == b[0].key_info);
        }
        indices.push(i);
        secrets.push(shares[k].secret_share().get());
        k += 1;
    }
    proof {
        assert(scalar_values(secrets@) =~= contributed_secrets(b));
    }
    match &first.vss_setup {
        None => {
            if len < n {
                return Err(ReconstructError::TooFewKeyShares);
            }
            if index_repeated(&indices, n) {
                proof {
                    let (k1, k2) = choose|k1: int, k2: int|
                        0 <= k1 < k2 < indices.len() && #[trigger] indices@[k1]
                            == #[trigger] indices@[k2];
                    assert(b[k1].i == b[k2].i);
                }
                return Err(ReconstructError::DuplicateShares);
            }
            proof {
                if batch_index_repeated(b) {
                    let (k1, k2) = choose|k1: int, k2: int|
                        0 <= k1 < k2 < b.len() && (#[trigger] b[k1]).i == (#[trigger] b[k2]).i;
                    assert(indices@[k1] == indices@[k2]);
                }
            }
            let mut acc = Scalar::zero();
            let mut j: usize = 0;
            while j < len
                invariant
                    0 <= j <= len,
                    secrets.len() == len,
                    acc@ == scalar_sum_prefix(scalar_values(secrets@), j as nat),
                decreases len - j,
            {
                acc = acc.add(&secrets[j]);
                j += 1;
            }
            Ok(acc)
        },
        Some(vss) => {
            if len < vss.min_signers as usize {
                return Err(ReconstructError::TooFewKeyShares);
            }
            let mut points: Vec<Scalar> = Vec::new();
            let mut k: usize = 0;
            while k < len
                invariant
                    0 <= k <= len,
                    indices.len() == len,
                    b.len() == len,
                    vss.evaluation_points.len() == n,
                    b[0].key_info.vss_setup == Some(vss@),
                    !batch_differs(b),
                    points.len() == k,
                    forall|m: int| 0 <= m < len ==> indices@[m] == (#[trigger] b[m]).i,
                    forall|m: int| 0 <= m < len ==> #[trigger] indices@[m] < n,
                    forall|m: int|
                        0 <= m < k ==> (#[trigger] points@[m])@ == contributed_points(b)[m],
                decreases len - k,
            {
                proof {
                    assert(b[k as int].key_info == b[0].key_info);
                    assert(b[k as int].i == indices@[k as int]);
                }
                points.push(vss.evaluation_points[indices[k] as usize]);
                k += 1;
            }
            proof {
                assert(scalar_values(points@) =~= contributed_points(b));
            }
            let mut acc = Scalar::zero();
            let mut j: usize = 0;
            while j < len
                invariant
                    0 <= j <= len,
                    secrets.len() == len,
                    points.len() == len,
                    b.len() == len,
                    b == trusted_views(shares@),
                    !batch_differs(b),
                    b.len() >= required_shares(b[0].key_info),
                    b[0].key_info.vss_setup is Some,
                    scalar_values(points@) == contributed_points(b),
                    scalar_values(secrets@) == contributed_secrets(b),
                    acc@ == interpolation_prefix(
                        scalar_values(points@),
                        scalar_values(secrets@),
                        j as nat,
                    ),
                    forall|a: int, c: int|
                        0 <= a < j && 0 <= c < len && a != c ==> scalar_values(points@)[a]
                            != scalar_values(points@)[c],
                decreases len - j,
            {
                match lagrange_coefficient_at_zero(j, &points) {
                    None => {
                        proof {
                            let m = choose|m: int|
                                0 <= m < points.len() && m != j && points@[m]@
                                    == points@[j as int]@;
                            assert(scalar_values(points@)[m] == scalar_values(points@)[j as int]);
                        }
                        return Err(ReconstructError::DuplicateShares);
                    },
                    Some(lambda) => {
                        acc = acc.add(&lambda.mul(&secrets[j]));
                        proof {
                            assert forall|a: int, c: int|
                                0 <= a < j + 1 && 0 <= c < len && a != c implies scalar_values(
                                points@,
                            )[a] != scalar_values(points@)[c] by {
                                if a == j {
                                    assert(points@[c]@ != points@[j as int]@);
                                }
                            }
                        }
                    },
                }
                j += 1;
            }
            Ok(acc)
        },
    }
}

} // verus!
