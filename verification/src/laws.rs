//! What holds of the key shares that a dealer hands out, and of the secret
//! that is reconstructed from them.

use vstd::prelude::*;
use crate::field::{fsub, group_order};
use crate::interpolation::{cong, lemma_cong_ops, lemma_cong_reduced, lemma_interpolation_at_zero};
use crate::key_share::{
    batch_differs, batch_index_repeated, batch_violation, key_info_violation, share_violation,
    vss_violation, KeyShareView, VssSetupView,
};
use crate::point::generator_mul;
use crate::polynomial::{
    interpolation_points, pairwise_distinct, pairwise_invertible, poly_eval,
};
use crate::reconstruct::{
    contributed_points, contributed_secrets, reconstruction,
    required_shares, scalar_sum, scalar_sum_prefix,
};
use crate::trusted_dealer::{
    configuration_error, dealt, dealt_batch, dealt_key_info, randomness_len, secret_shares,
    DealerConfig,
};

verus! {

/// The key shares `b` are a batch as the configuration `c` asks for, dealt at
/// the evaluation points `preimages`: one share per party, in the order of
/// the parties, each of them free of violations, each secret share matching
/// its public share, all with the same common data, which records the
/// threshold setup, carries a chain code exactly where derivation is
/// supported, and commits to the imported secret where one was imported. No
/// secret share is zero.
pub open spec fn batch_as_configured(
    c: DealerConfig,
    preimages: Seq<int>,
    b: Seq<KeyShareView>,
) -> bool {
    &&& b.len() == c.n
    &&& c.n >= 1
    &&& forall|i: int|
        0 <= i < b.len() ==> {
            &&& (#[trigger] b[i]).i == i
            &&& b[i].key_info == b[0].key_info
            &&& share_violation(b[i]) is None
            &&& b[i].x != 0
            &&& generator_mul(b[i].x) == b[i].key_info.public_shares[i]
        }
    &&& b[0].key_info.public_shares.len() == c.n
    &&& b[0].key_info.chain_code is Some <==> c.hd
    &&& b[0].key_info.vss_setup == match c.t {
        Some(t) => Some(VssSetupView { min_signers: t, evaluation_points: preimages }),
        None => None,
    }
    &&& c.secret matches Some(s) ==> b[0].key_info.shared_public_key == generator_mul(s)
}

/// The key shares that the selection picks from a batch, in its order.
pub open spec fn selected(b: Seq<KeyShareView>, selection: Seq<int>) -> Seq<KeyShareView> {
    Seq::new(selection.len(), |k: int| b[selection[k]])
}

/// The selection picks parties of a batch of `n`, none of them twice.
pub open spec fn selects_distinct(selection: Seq<int>, n: int) -> bool {
    &&& forall|k: int| 0 <= k < selection.len() ==> 0 <= #[trigger] selection[k] < n
    &&& pairwise_distinct(selection)
}

/// Whatever secret, random scalars and chain code go into dealing: a batch
/// that is dealt holds one checked share per party, each secret share matches
/// its public share, the shares are the values of the sharing polynomial or
/// the additive split, every share carries the same chain code, and the
/// shared public key is the generator multiplied by the secret.
pub proof fn lemma_dealt_batch(
    n: int,
    t: Option<int>,
    preimages: Seq<int>,
    secret: int,
    randomness: Seq<int>,
    chain_code: Option<Seq<u8>>,
)
    requires
        dealt(n, t, preimages, secret, randomness, chain_code) is Ok,
        randomness.len() == randomness_len(n, t),
    ensures
        ({
            let b = dealt(n, t, preimages, secret, randomness, chain_code)->Ok_0;
            let shares = secret_shares(t, preimages, secret, randomness);
            &&& b.len() == n
            &&& shares.len() == n
            &&& batch_violation(b) is None
            &&& forall|i: int|
                0 <= i < n ==> {
                    &&& (#[trigger] b[i]).i == i
                    &&& b[i].x == shares[i]
                    &&& b[i].x != 0
                    &&& b[i].key_info == b[0].key_info
                    &&& share_violation(b[i]) is None
                    &&& generator_mul(b[i].x) == b[i].key_info.public_shares[i]
                    &&& b[i].key_info.chain_code == chain_code
                    &&& b[i].key_info.shared_public_key == generator_mul(secret)
                }
            &&& b[0].key_info == dealt_key_info(t, preimages, secret, shares, chain_code)
        }),
{
    let shares = secret_shares(t, preimages, secret, randomness);
    let info = dealt_key_info(t, preimages, secret, shares, chain_code);
    let b = dealt_batch(info, shares);
    assert(configuration_error(n, t, preimages.len() as int) is None);
    assert(batch_violation(b) is None);
    assert(b.len() == b[0].key_info.public_shares.len());
    assert forall|i: int| 0 <= i < b.len() implies {
        &&& (#[trigger] b[i]).i == i
        &&& b[i].x == shares[i]
        &&& b[i].x != 0
        &&& b[i].key_info == b[0].key_info
        &&& share_violation(b[i]) is None
        &&& generator_mul(b[i].x) == b[i].key_info.public_shares[i]
    } by {
        crate::key_share::lemma_batch_shares_valid(b, i);
    }
    match t {
        Some(_) => {
            assert(shares.len() == preimages.len());
        },
        None => {},
    }
}

/// Round trip of a threshold scheme: from the shares that were dealt for a
/// secret with threshold `t`, those of any `t` or more parties reconstruct
/// exactly that secret.
pub proof fn lemma_threshold_round_trip(
    n: int,
    t: int,
    preimages: Seq<int>,
    secret: int,
    randomness: Seq<int>,
    chain_code: Option<Seq<u8>>,
    selection: Seq<int>,
)
    requires
        dealt(n, Some(t), preimages, secret, randomness, chain_code) is Ok,
        randomness.len() == randomness_len(n, Some(t)),
        selects_distinct(selection, n),
        selection.len() >= t,
    ensures
        reconstruction(
            selected(
                dealt(n, Some(t), preimages, secret, randomness, chain_code)->Ok_0,
                selection,
            ),
        ) == Ok::<int, crate::reconstruct::ReconstructError>(secret % group_order()),
{
    let b = dealt(n, Some(t), preimages, secret, randomness, chain_code)->Ok_0;
    lemma_dealt_batch(n, Some(t), preimages, secret, randomness, chain_code);
    let s = selected(b, selection);
    let coefs = seq![secret] + randomness;
    let info = b[0].key_info;
    assert(key_info_violation(info) is None);
    assert(vss_violation(info.vss_setup->Some_0, info.public_shares, info.shared_public_key)
        is None);
    assert(interpolation_points(preimages));
    assert(preimages.len() == n);
    assert(s.len() >= 1);
    assert forall|k: int| 0 <= k < s.len() implies (#[trigger] s[k]).key_info == s[0].key_info by {
        assert(b[selection[k]].key_info == b[0].key_info);
        assert(b[selection[0]].key_info == b[0].key_info);
    }
    assert(!batch_differs(s));
    assert(s[0].key_info == info) by {
        assert(b[selection[0]].key_info == b[0].key_info);
    }
    let xs = contributed_points(s);
    let ys = contributed_secrets(s);
    assert forall|k: int| 0 <= k < xs.len() implies xs[k] == preimages[selection[k]] && ys[k]
        == poly_eval(coefs, xs[k]) by {
        assert(b[selection[k]].key_info == b[0].key_info);
        assert(b[selection[k]].i == selection[k]);
    }
    assert(pairwise_distinct(xs)) by {
        assert forall|a1: int, a2: int|
            0 <= a1 < xs.len() && 0 <= a2 < xs.len() && a1 != a2 implies xs[a1] != xs[a2] by {
            assert(selection[a1] != selection[a2]);
            assert(preimages[selection[a1]] != preimages[selection[a2]]);
        }
    }
    assert(pairwise_invertible(xs)) by {
        assert forall|a1: int, a2: int|
            0 <= a1 < xs.len() && 0 <= a2 < xs.len() && a1 != a2 implies crate::field::invertible(
            #[trigger] fsub(xs[a1], xs[a2]),
        ) by {
            assert(selection[a1] != selection[a2]);
            assert(crate::field::invertible(
                fsub(preimages[selection[a1]], preimages[selection[a2]]),
            ));
        }
    }
    lemma_interpolation_at_zero(xs, ys, coefs);
    assert(coefs[0] == secret);
}

/// Sum of the numbers `zs`, as an integer.
pub open spec fn plain_sum(zs: Seq<int>) -> int
    decreases zs.len(),
{
    if zs.len() == 0 {
        0
    } else {
        plain_sum(zs.drop_last()) + zs.last()
    }
}

/// The sum of residues is congruent to the sum of integers.
pub proof fn lemma_scalar_sum_is_plain(zs: Seq<int>, len: nat)
    requires
        len <= zs.len(),
    ensures
        cong(scalar_sum_prefix(zs, len), plain_sum(zs.take(len as int))),
    decreases len,
{
    if len > 0 {
        let m = (len - 1) as nat;
        lemma_scalar_sum_is_plain(zs, m);
        assert(zs.take(len as int).drop_last() =~= zs.take(m as int));
        lemma_cong_ops(scalar_sum_prefix(zs, m), zs[m as int]);
        crate::interpolation::lemma_cong_refl(zs[m as int]);
        crate::interpolation::lemma_cong_add(
            scalar_sum_prefix(zs, m),
            plain_sum(zs.take(m as int)),
            zs[m as int],
            zs[m as int],
        );
        crate::interpolation::lemma_cong_trans(
            scalar_sum_prefix(zs, len),
            scalar_sum_prefix(zs, m) + zs[m as int],
            plain_sum(zs.take(m as int)) + zs[m as int],
        );
    }
}

/// Taking one number out of a list lowers the sum by that number.
pub proof fn lemma_plain_sum_remove(zs: Seq<int>, p: int)
    requires
        0 <= p < zs.len(),
    ensures
        plain_sum(zs) == plain_sum(zs.remove(p)) + zs[p],
    decreases zs.len(),
{
    if p == zs.len() - 1 {
        assert(zs.remove(p) =~= zs.drop_last());
    } else {
        lemma_plain_sum_remove(zs.drop_last(), p);
        assert(zs.remove(p).drop_last() =~= zs.drop_last().remove(p));
        assert(zs.remove(p).last() == zs.last());
    }
}

/// A selection of parties of `n`, none of them twice, holds at most `n`
/// parties.
pub proof fn lemma_selection_len(selection: Seq<int>, n: int)
    requires
        n >= 0,
        selects_distinct(selection, n),
    ensures
        selection.len() <= n,
    decreases n,
{
    if selection.len() > 0 {
        assert(0 <= selection[0] < n);
        if exists|p: int| 0 <= p < selection.len() && selection[p] == n - 1 {
            let p = choose|p: int| 0 <= p < selection.len() && selection[p] == n - 1;
            lemma_selection_remove(selection, n, p);
            lemma_selection_len(selection.remove(p), n - 1);
        } else {
            assert(selects_distinct(selection, n - 1));
            lemma_selection_len(selection, n - 1);
        }
    }
}

/// Without the place that holds party `n - 1`, a selection of parties of `n`
/// is one of parties of `n - 1`.
pub proof fn lemma_selection_remove(selection: Seq<int>, n: int, p: int)
    requires
        selects_distinct(selection, n),
        0 <= p < selection.len(),
        selection[p] == n - 1,
    ensures
        selects_distinct(selection.remove(p), n - 1),
{
    let rest = selection.remove(p);
    assert forall|k: int| 0 <= k < rest.len() implies 0 <= #[trigger] rest[k] < n - 1 by {
        if k < p {
            assert(rest[k] == selection[k]);
            assert(selection[k] != selection[p]);
        } else {
            assert(rest[k] == selection[k + 1]);
            assert(selection[k + 1] != selection[p]);
        }
    }
    assert forall|a: int, b: int|
        0 <= a < rest.len() && 0 <= b < rest.len() && a != b implies rest[a] != rest[b] by {
        let a2 = if a < p {
            a
        } else {
            a + 1
        };
        let b2 = if b < p {
            b
        } else {
            b + 1
        };
        assert(rest[a] == selection[a2]);
        assert(rest[b] == selection[b2]);
        assert(selection[a2] != selection[b2]);
    }
}

/// The numbers `ys`, taken in the order of a selection that picks every
/// place once, add up to the same as in their own order.
pub proof fn lemma_plain_sum_permuted(ys: Seq<int>, selection: Seq<int>)
    requires
        selects_distinct(selection, ys.len() as int),
        selection.len() == ys.len(),
    ensures
        plain_sum(Seq::new(selection.len(), |k: int| ys[selection[k]])) == plain_sum(ys),
    decreases ys.len(),
{
    let n = ys.len() as int;
    let picked = Seq::new(selection.len(), |k: int| ys[selection[k]]);
    if n > 0 {
        if !exists|p: int| 0 <= p < selection.len() && selection[p] == n - 1 {
            assert(selects_distinct(selection, n - 1));
            lemma_selection_len(selection, n - 1);
        }
        let p = choose|p: int| 0 <= p < selection.len() && selection[p] == n - 1;
        let rest = selection.remove(p);
        let front = ys.drop_last();
        lemma_selection_remove(selection, n, p);
        lemma_plain_sum_permuted(front, rest);
        lemma_plain_sum_remove(picked, p);
        let picked_rest = Seq::new(rest.len(), |k: int| front[rest[k]]);
        assert(picked.remove(p) =~= picked_rest) by {
            assert forall|k: int| 0 <= k < rest.len() implies picked.remove(p)[k]
                == picked_rest[k] by {
                assert(0 <= rest[k] < n - 1);
                if k < p {
                    assert(rest[k] == selection[k]);
                } else {
                    assert(rest[k] == selection[k + 1]);
                }
            }
        }
    } else {
        assert(picked =~= ys);
    }
}

/// Round trip of an additive scheme: the shares that were dealt for a secret,
/// those of all parties in any order, reconstruct exactly that secret.
pub proof fn lemma_additive_round_trip(
    n: int,
    preimages: Seq<int>,
    secret: int,
    randomness: Seq<int>,
    chain_code: Option<Seq<u8>>,
    selection: Seq<int>,
)
    requires
        dealt(n, None, preimages, secret, randomness, chain_code) is Ok,
        randomness.len() == randomness_len(n, None),
        selects_distinct(selection, n),
        selection.len() == n,
    ensures
        reconstruction(
            selected(dealt(n, None, preimages, secret, randomness, chain_code)->Ok_0, selection),
        ) == Ok::<int, crate::reconstruct::ReconstructError>(secret % group_order()),
{
    let q = group_order();
    let b = dealt(n, None, preimages, secret, randomness, chain_code)->Ok_0;
    lemma_dealt_batch(n, None, preimages, secret, randomness, chain_code);
    let s = selected(b, selection);
    let shares = secret_shares(None, preimages, secret, randomness);
    assert forall|k: int| 0 <= k < s.len() implies (#[trigger] s[k]).key_info == s[0].key_info by {
        assert(b[selection[k]].key_info == b[0].key_info);
        assert(b[selection[0]].key_info == b[0].key_info);
    }
    assert(!batch_differs(s));
    assert(s[0].key_info == b[0].key_info) by {
        assert(b[selection[0]].key_info == b[0].key_info);
    }
    assert(!batch_index_repeated(s)) by {
        assert forall|k1: int, k2: int| 0 <= k1 < k2 < s.len() implies (#[trigger] s[k1]).i != (
        #[trigger] s[k2]).i by {
            assert(b[selection[k1]].i == selection[k1]);
            assert(b[selection[k2]].i == selection[k2]);
            assert(selection[k1] != selection[k2]);
        }
    }
    let ys = contributed_secrets(s);
    assert(ys =~= Seq::new(selection.len(), |k: int| shares[selection[k]])) by {
        assert forall|k: int| 0 <= k < ys.len() implies ys[k] == shares[selection[k]] by {
            assert(b[selection[k]].x == shares[selection[k]]);
        }
    }
    // the shares add up to the secret in their own order, hence in any
    let rest = scalar_sum(randomness);
    let last = fsub(secret, rest);
    lemma_plain_sum_permuted(shares, selection);
    lemma_scalar_sum_is_plain(ys, ys.len());
    assert(ys.take(ys.len() as int) =~= ys);
    lemma_scalar_sum_is_plain(randomness, randomness.len());
    assert(randomness.take(randomness.len() as int) =~= randomness);
    assert(shares.drop_last() =~= randomness);
    assert(plain_sum(shares) == plain_sum(randomness) + last);
    lemma_cong_ops(secret, rest);
    crate::interpolation::lemma_cong_sym(rest, plain_sum(randomness));
    crate::interpolation::lemma_cong_add(plain_sum(randomness), rest, last, secret - rest);
    crate::interpolation::lemma_cong_trans(scalar_sum(ys), plain_sum(shares), secret);
    crate::interpolation::lemma_cong_mod(secret);
    crate::interpolation::lemma_cong_trans(scalar_sum(ys), secret, secret % q);
    lemma_cong_reduced(scalar_sum(ys), secret % q);
}

/// Quorum superset invariance: of the shares that were dealt for a secret,
/// any two selections that each suffice to reconstruct, the one with more
/// shares than the other or not, reconstruct the same.
pub proof fn lemma_quorums_agree(
    n: int,
    t: Option<int>,
    preimages: Seq<int>,
    secret: int,
    randomness: Seq<int>,
    chain_code: Option<Seq<u8>>,
    smaller: Seq<int>,
    larger: Seq<int>,
)
    requires
        dealt(n, t, preimages, secret, randomness, chain_code) is Ok,
        randomness.len() == randomness_len(n, t),
        selects_distinct(smaller, n),
        selects_distinct(larger, n),
        smaller.len() >= required_shares(
            dealt(n, t, preimages, secret, randomness, chain_code)->Ok_0[0].key_info,
        ),
        larger.len() >= smaller.len(),
    ensures
        reconstruction(
            selected(dealt(n, t, preimages, secret, randomness, chain_code)->Ok_0, smaller),
        ) == reconstruction(
            selected(dealt(n, t, preimages, secret, randomness, chain_code)->Ok_0, larger),
        ),
        reconstruction(
            selected(dealt(n, t, preimages, secret, randomness, chain_code)->Ok_0, smaller),
        ) is Ok,
{
    lemma_dealt_batch(n, t, preimages, secret, randomness, chain_code);
    match t {
        Some(t) => {
            lemma_threshold_round_trip(n, t, preimages, secret, randomness, chain_code, smaller);
            lemma_threshold_round_trip(n, t, preimages, secret, randomness, chain_code, larger);
        },
        None => {
            lemma_selection_len(smaller, n);
            lemma_selection_len(larger, n);
            lemma_additive_round_trip(n, preimages, secret, randomness, chain_code, smaller);
            lemma_additive_round_trip(n, preimages, secret, randomness, chain_code, larger);
        },
    }
}

} // verus!
