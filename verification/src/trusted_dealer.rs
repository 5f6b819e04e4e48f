//! Trusted dealer: generates all key shares of a key in one place.
//!
//! A dealer holds the whole secret while it runs, so it is a single point of
//! failure and of trust. It serves to import an existing key into threshold
//! custody, and to make key shares for tests.

use vstd::prelude::*;
use rand_core::RngCore;
use crate::field::{fsub, group_order};
use crate::laws::{batch_as_configured, lemma_dealt_batch};
use crate::key_share::{
    batch_violation, chain_code_view, has_zero, trusted_views, validate_batch, CoreKeyShare,
    CurveName, DirtyCoreKeyShare, DirtyKeyInfo, InvalidCoreShare, KeyInfoView, KeyShareView, VssSetup,
    VssSetupView,
};
use crate::point::{generator_mul, Point};
use crate::polynomial::{evaluate, poly_eval, scalar_values};
use crate::reconstruct::{scalar_sum, scalar_sum_prefix};
use crate::scalar::{NonZeroScalar, Scalar};

verus! {

/// Why the dealer generated no shares.
#[derive(Clone, Copy, Debug, PartialEq, Eq, Structural)]
pub enum Reason {
    /// The batch of shares that was assembled violates an invariant.
    InvalidKeyShare(InvalidCoreShare),
    /// A party index does not map to a scalar other than zero.
    DeriveKeyShareIndex,
    /// A generated secret share is zero.
    ZeroShare,
    /// The number of evaluation points given is not the number of parties.
    InvalidPreimages,
}

/// Error explaining why the trusted dealer failed to generate shares.
#[derive(Clone, Copy, Debug, PartialEq, Eq, Structural)]
pub struct TrustedDealerError(pub Reason);

impl From<Reason> for TrustedDealerError {
    fn from(err: Reason) -> (r: Self) {
        TrustedDealerError(err)
    }
}

impl vstd::std_specs::convert::FromSpecImpl<Reason> for TrustedDealerError {
    open spec fn obeys_from_spec() -> bool {
        true
    }

    open spec fn from_spec(err: Reason) -> Self {
        TrustedDealerError(err)
    }
}

impl Reason {
    /// What went wrong, in words.
    pub fn message(&self) -> (r: String)
        ensures
            r@ == match *self {
                Reason::InvalidKeyShare(_) =>
                    "trusted dealer failed to generate shares due to internal error"@,
                Reason::DeriveKeyShareIndex => "deriving key share index failed"@,
                Reason::ZeroShare =>
                    "randomly generated share is zero - probability of that is negligible"@,
                Reason::InvalidPreimages => "invalid share preimages given"@,
            },
    {
        match self {
            Reason::InvalidKeyShare(_) =>
                "trusted dealer failed to generate shares due to internal error".to_owned(),
            Reason::DeriveKeyShareIndex => "deriving key share index failed".to_owned(),
            Reason::ZeroShare =>
                "randomly generated share is zero - probability of that is negligible".to_owned(),
            Reason::InvalidPreimages => "invalid share preimages given".to_owned(),
        }
    }
}

impl TrustedDealerError {
    /// What the error says of itself: one sentence, whatever the reason.
    pub fn message(&self) -> (r: String)
        ensures
            r@ == "trusted dealer failed to generate shares"@,
    {
        "trusted dealer failed to generate shares".to_owned()
    }

    /// Why the dealer failed.
    pub fn reason(&self) -> (r: Reason)
        ensures
            r == self.0,
    {
        self.0
    }
}

/// Why a configuration is refused before anything is drawn at random: the
/// number of evaluation points is not the number of parties, or there is
/// nothing to sample, because there is no party or the threshold is zero. A
/// threshold above the number of parties is not refused here: the shares are
/// computed all the same, and the check of the batch reports it.
pub open spec fn configuration_error(n: int, t: Option<int>, preimages: int) -> Option<Reason> {
    if preimages != n {
        Some(Reason::InvalidPreimages)
    } else if n == 0 {
        Some(Reason::InvalidKeyShare(InvalidCoreShare::NoParties))
    } else {
        match t {
            Some(t) => if t < 1 {
                Some(Reason::InvalidKeyShare(InvalidCoreShare::ThresholdTooSmall))
            } else {
                None
            },
            None => None,
        }
    }
}

/// Number of scalars that sharing a secret takes besides the secret: the
/// coefficients of the polynomial above the constant term, or every additive
/// share but the last.
pub open spec fn randomness_len(n: int, t: Option<int>) -> int {
    match t {
        Some(t) => t - 1,
        None => n - 1,
    }
}

/// The scalars given in place of the random ones are as many as the scheme
/// takes, where the configuration yields shares at all.
pub open spec fn randomness_fits(n: int, t: Option<int>, preimages: int, randomness: int) -> bool {
    configuration_error(n, t, preimages) is None ==> randomness == randomness_len(n, t)
}

/// The secret shares of all parties. With a threshold, party `i` gets the
/// value at `preimages[i]` of the polynomial with constant term `secret` and
/// further coefficients `randomness`. Without one, the parties get
/// `randomness` and the last party what is missing to the secret.
pub open spec fn secret_shares(
    t: Option<int>,
    preimages: Seq<int>,
    secret: int,
    randomness: Seq<int>,
) -> Seq<int> {
    match t {
        Some(_) => Seq::new(
            preimages.len(),
            |i: int| poly_eval(seq![secret] + randomness, preimages[i]),
        ),
        None => randomness.push(fsub(secret, scalar_sum(randomness))),
    }
}

/// The data common to all parties of a key that was dealt.
pub open spec fn dealt_key_info(
    t: Option<int>,
    preimages: Seq<int>,
    secret: int,
    shares: Seq<int>,
    chain_code: Option<Seq<u8>>,
) -> KeyInfoView {
    KeyInfoView {
        curve: CurveName::Secp256k1,
        shared_public_key: generator_mul(secret),
        public_shares: Seq::new(shares.len(), |i: int| generator_mul(shares[i])),
        vss_setup: match t {
            Some(t) => Some(VssSetupView { min_signers: t, evaluation_points: preimages }),
            None => None,
        },
        chain_code,
    }
}

/// The batch of key shares that holds the secret share `shares[i]` for party
/// `i` and the same common data for every party.
pub open spec fn dealt_batch(info: KeyInfoView, shares: Seq<int>) -> Seq<KeyShareView> {
    Seq::new(shares.len(), |i: int| KeyShareView { i, key_info: info, x: shares[i] })
}

/// What dealing yields for a given secret and given scalars in place of the
/// random ones: the key shares of all parties, or the reason why there are
/// none.
pub open spec fn dealt(
    n: int,
    t: Option<int>,
    preimages: Seq<int>,
    secret: int,
    randomness: Seq<int>,
    chain_code: Option<Seq<u8>>,
) -> Result<Seq<KeyShareView>, TrustedDealerError> {
    match configuration_error(n, t, preimages.len() as int) {
        Some(reason) => Err(TrustedDealerError(reason)),
        None => {
            let shares = secret_shares(t, preimages, secret, randomness);
            if has_zero(shares) {
                Err(TrustedDealerError(Reason::ZeroShare))
            } else {
                let batch = dealt_batch(
                    dealt_key_info(t, preimages, secret, shares, chain_code),
                    shares,
                );
                match batch_violation(batch) {
                    Some(e) => Err(TrustedDealerError(Reason::InvalidKeyShare(e))),
                    None => Ok(batch),
                }
            }
        },
    }
}

/// Mathematical content of an optional threshold.
pub open spec fn threshold_view(t: Option<u16>) -> Option<int> {
    match t {
        Some(t) => Some(t as int),
        None => None,
    }
}

/// Mathematical content of what a dealer returns.
pub open spec fn outcome(r: Result<Vec<CoreKeyShare>, TrustedDealerError>) -> Result<
    Seq<KeyShareView>,
    TrustedDealerError,
> {
    match r {
        Ok(shares) => Ok(trusted_views(shares@)),
        Err(e) => Err(e),
    }
}

/// Checks what can be checked of a configuration before anything is drawn at
/// random.
pub fn check_configuration(n: u16, t: Option<u16>, preimages: usize) -> (r: Result<
    (),
    TrustedDealerError,
>)
    ensures
        match configuration_error(n as int, threshold_view(t), preimages as int) {
            Some(reason) => r == Err::<(), TrustedDealerError>(TrustedDealerError(reason)),
            None => r is Ok,
        },
{
    if preimages != n as usize {
        return Err(TrustedDealerError(Reason::InvalidPreimages));
    }
    if n == 0 {
        return Err(TrustedDealerError(Reason::InvalidKeyShare(InvalidCoreShare::NoParties)));
    }
    match t {
        Some(t) => {
            if t < 1 {
                return Err(
                    TrustedDealerError(
                        Reason::InvalidKeyShare(InvalidCoreShare::ThresholdTooSmall),
                    ),
                );
            }
            Ok(())
        },
        None => Ok(()),
    }
}

/// Whether `randomness` scalars are as many as dealing takes for `n` parties,
/// the threshold `t` and `preimages` evaluation points.
pub fn configuration_fits(n: u16, t: Option<u16>, preimages: usize, randomness: usize) -> (r: bool)
    ensures
        r == randomness_fits(
            n as int,
            threshold_view(t),
            preimages as int,
            randomness as int,
        ),
{
    match check_configuration(n, t, preimages) {
        Err(_) => true,
        Ok(()) => match t {
            Some(t) => randomness == (t - 1) as usize,
            None => randomness == (n - 1) as usize,
        },
    }
}

/// Evaluates the polynomial with constant term `secret` and further
/// coefficients `randomness` at each of the points `preimages`.
pub fn share_polynomially(secret: &Scalar, randomness: &Vec<Scalar>, preimages: &Vec<Scalar>) -> (r:
    Vec<Scalar>)
    ensures
        scalar_values(r@) == secret_shares(
            Some(randomness.len() + 1),
            scalar_values(preimages@),
            secret@,
            scalar_values(randomness@),
        ),
{
    let mut coefs: Vec<Scalar> = Vec::new();
    coefs.push(*secret);
    let mut k: usize = 0;
    while k < randomness.len()
        invariant
            0 <= k <= randomness.len(),
            coefs.len() == k + 1,
            coefs@[0]@ == secret@,
            forall|m: int| 0 <= m < k ==> coefs@[m + 1]@ == randomness@[m]@,
        decreases randomness.len() - k,
    {
        coefs.push(randomness[k]);
        k += 1;
    }
    proof {
        assert(scalar_values(coefs@) =~= seq![secret@] + scalar_values(randomness@));
    }
    let mut out: Vec<Scalar> = Vec::new();
    let mut i: usize = 0;
    while i < preimages.len()
        invariant
            0 <= i <= preimages.len(),
            out.len() == i,
            scalar_values(coefs@) == seq![secret@] + scalar_values(randomness@),
            forall|m: int|
                0 <= m < i ==> (#[trigger] out@[m])@ == poly_eval(
                    scalar_values(coefs@),
                    preimages@[m]@,
                ),
        decreases preimages.len() - i,
    {
        out.push(evaluate(&coefs, &preimages[i]));
        i += 1;
    }
    proof {
        assert(scalar_values(out@) =~= secret_shares(
            Some(randomness.len() + 1),
            scalar_values(preimages@),
            secret@,
            scalar_values(randomness@),
        ));
    }
    out
}

/// Splits `secret` into the shares `randomness` and one more, which is what
/// is missing to the secret.
pub fn share_additively(secret: &Scalar, randomness: &Vec<Scalar>) -> (r: Vec<Scalar>)
    ensures
        scalar_values(r@) == secret_shares(
            None,
            Seq::<int>::empty(),
            secret@,
            scalar_values(randomness@),
        ),
{
    let mut out: Vec<Scalar> = Vec::new();
    let mut sum = Scalar::zero();
    let mut k: usize = 0;
    while k < randomness.len()
        invariant
            0 <= k <= randomness.len(),
            out.len() == k,
            forall|m: int| 0 <= m < k ==> (#[trigger] out@[m])@ == randomness@[m]@,
            sum@ == scalar_sum_prefix(scalar_values(randomness@), k as nat),
        decreases randomness.len() - k,
    {
        sum = sum.add(&randomness[k]);
        out.push(randomness[k]);
        k += 1;
    }
    out.push(secret.sub(&sum));
    proof {
        assert(scalar_values(out@) =~= scalar_values(randomness@).push(
            fsub(secret@, scalar_sum(scalar_values(randomness@))),
        ));
    }
    out
}

/// Refines secret shares to scalars other than zero; `None` where one of
/// them is zero.
pub fn nonzero_shares(shares: &Vec<Scalar>) -> (r: Option<Vec<NonZeroScalar>>)
    ensures
        r is None <==> has_zero(scalar_values(shares@)),
        r matches Some(v) ==> nonzero_values(v@) == scalar_values(shares@),
{
    let mut out: Vec<NonZeroScalar> = Vec::new();
    let mut k: usize = 0;
    while k < shares.len()
        invariant
            0 <= k <= shares.len(),
            out.len() == k,
            forall|m: int| 0 <= m < k ==> (#[trigger] out@[m])@ == shares@[m]@,
            forall|m: int| 0 <= m < k ==> scalar_values(shares@)[m] != 0,
        decreases shares.len() - k,
    {
        match NonZeroScalar::from_scalar(shares[k]) {
            None => {
                proof {
                    assert(scalar_values(shares@)[k as int] == 0);
                }
                return None;
            },
            Some(x) => {
                out.push(x);
            },
        }
        k += 1;
    }
    proof {
        assert(nonzero_values(out@) =~= scalar_values(shares@));
    }
    Some(out)
}

/// The residues that a list of scalars other than zero stands for.
pub open spec fn nonzero_values(v: Seq<NonZeroScalar>) -> Seq<int> {
    Seq::new(v.len(), |i: int| v[i]@)
}

/// Mathematical content of an optional threshold setup.
pub open spec fn setup_view(t: Option<u16>, preimages: Seq<int>) -> Option<VssSetupView> {
    match t {
        Some(t) => Some(VssSetupView { min_signers: t as int, evaluation_points: preimages }),
        None => None,
    }
}

/// Packages the secret shares with the data common to all parties, one key
/// share per party, and checks the batch: either every share comes back in
/// its trusted form, or none does.
pub fn assemble_shares(
    secret_shares: &Vec<NonZeroScalar>,
    secret: &Scalar,
    t: Option<u16>,
    preimages: Vec<Scalar>,
    chain_code: Option<hd_wallet::ChainCode>,
) -> (r: Result<Vec<CoreKeyShare>, TrustedDealerError>)
    requires
        secret_shares.len() <= u16::MAX,
    ensures
        ({
            let batch = dealt_batch(
                dealt_key_info(
                    threshold_view(t),
                    scalar_values(preimages@),
                    secret@,
                    nonzero_values(secret_shares@),
                    chain_code_view(chain_code),
                ),
                nonzero_values(secret_shares@),
            );
            match batch_violation(batch) {
                Some(e) => r == Err::<Vec<CoreKeyShare>, TrustedDealerError>(
                    TrustedDealerError(Reason::InvalidKeyShare(e)),
                ),
                None => r is Ok && trusted_views(r->Ok_0@) == batch,
            }
        }),
{
    let n = secret_shares.len();
    let ghost xs = nonzero_values(secret_shares@);
    let mut public_shares: Vec<Point> = Vec::new();
    let mut k: usize = 0;
    while k < n
        invariant
            0 <= k <= n,
            n == secret_shares.len(),
            xs == nonzero_values(secret_shares@),
            public_shares.len() == k,
            forall|m: int| 0 <= m < k ==> (#[trigger] public_shares@[m])@ == generator_mul(xs[m]),
        decreases n - k,
    {
        let x = secret_shares[k].get();
        public_shares.push(Point::generator_mul(&x));
        k += 1;
    }
    let vss_setup = match t {
        Some(t) => Some(VssSetup { min_signers: t, evaluation_points: preimages }),
        None => None,
    };
    let key_info = DirtyKeyInfo {
        curve: CurveName::default(),
        shared_public_key: Point::generator_mul(secret),
        public_shares,
        vss_setup,
        chain_code,
    };
    let ghost info = dealt_key_info(
        threshold_view(t),
        scalar_values(preimages@),
        secret@,
        xs,
        chain_code_view(chain_code),
    );
    proof {
        assert(key_info@.public_shares =~= info.public_shares);
        assert(key_info@ == info);
    }
    let mut batch: Vec<DirtyCoreKeyShare> = Vec::new();
    let mut k: usize = 0;
    while k < n
        invariant
            0 <= k <= n,
            n == secret_shares.len(),
            n <= u16::MAX,
            xs == nonzero_values(secret_shares@),
            key_info@ == info,
            batch.len() == k,
            forall|m: int| 0 <= m < k ==> (#[trigger] batch@[m])@ == dealt_batch(info, xs)[m],
        decreases n - k,
    {
        batch.push(DirtyCoreKeyShare { i: k as u16, key_info: key_info.clone(), x: secret_shares[k] });
        k += 1;
    }
    proof {
        assert(crate::key_share::share_views(batch@) =~= dealt_batch(info, xs));
    }
    match validate_batch(batch) {
        Ok(shares) => Ok(shares),
        Err(e) => Err(TrustedDealerError(Reason::InvalidKeyShare(e))),
    }
}

/// Deals the key shares of all parties for a given secret, with given scalars
/// in place of the random ones.
///
/// With a threshold `t`, `randomness` holds the `t - 1` coefficients of the
/// sharing polynomial above its constant term, which is the secret. Without
/// one, it holds the secret shares of all parties but the last.
pub fn deal(
    n: u16,
    t: Option<u16>,
    preimages: Vec<Scalar>,
    secret: &NonZeroScalar,
    randomness: &Vec<Scalar>,
    chain_code: Option<hd_wallet::ChainCode>,
) -> (r: Result<Vec<CoreKeyShare>, TrustedDealerError>)
    requires
        randomness_fits(
            n as int,
            threshold_view(t),
            preimages.len() as int,
            randomness.len() as int,
        ),
    ensures
        outcome(r) == dealt(
            n as int,
            threshold_view(t),
            scalar_values(preimages@),
            secret@,
            scalar_values(randomness@),
            chain_code_view(chain_code),
        ),
{
    match check_configuration(n, t, preimages.len()) {
        Err(e) => {
            return Err(e);
        },
        Ok(()) => {},
    }
    let secret = secret.get();
    let shares = match t {
        Some(_) => share_polynomially(&secret, randomness, &preimages),
        None => share_additively(&secret, randomness),
    };
    match nonzero_shares(&shares) {
        None => Err(TrustedDealerError(Reason::ZeroShare)),
        Some(secret_shares) => assemble_shares(&secret_shares, &secret, t, preimages, chain_code),
    }
}

/// Mathematical content of a dealer's configuration.
pub struct DealerConfig {
    /// Number of parties.
    pub n: int,
    /// Threshold, where the scheme is a threshold scheme.
    pub t: Option<int>,
    /// The secret to share, where one was imported.
    pub secret: Option<int>,
    /// Whether the key gets a chain code.
    pub hd: bool,
}

/// The dealer may return `result` for the configuration `c` and the
/// evaluation points `preimages`: it is what dealing yields for some residue
/// other than zero as the secret, which is the imported one where there is one, for some
/// scalars in place of the random ones, and for some chain code of 32 bytes,
/// which is present exactly where the key supports derivation. The scalars
/// are as many as the scheme takes.
pub open spec fn may_deal(
    c: DealerConfig,
    preimages: Seq<int>,
    result: Result<Seq<KeyShareView>, TrustedDealerError>,
) -> bool {
    exists|secret: int, randomness: Seq<int>, chain_code: Option<Seq<u8>>|
        {
            &&& #[trigger] dealt(c.n, c.t, preimages, secret, randomness, chain_code) == result
            &&& 0 < secret < group_order()
            &&& randomness_fits(c.n, c.t, preimages.len() as int, randomness.len() as int)
            &&& c.secret matches Some(s) ==> secret == s
            &&& chain_code is Some <==> c.hd
            &&& chain_code matches Some(bytes) ==> bytes.len() == 32
        }
}

/// The evaluation points `1, 2, .., n`.
pub open spec fn sequential_points(n: int) -> Seq<int> {
    Seq::new(n as nat, |i: int| i + 1)
}

/// Trusted dealer builder.
#[derive(Clone, Copy)]
pub struct TrustedDealerBuilder {
    t: Option<u16>,
    n: u16,
    shared_secret_key: Option<NonZeroScalar>,
    enable_hd: bool,
}

/// Constructs a trusted dealer builder for `n` key shares.
pub fn builder(n: u16) -> (r: TrustedDealerBuilder)
    ensures
        r@ == (DealerConfig { n: n as int, t: None, secret: None, hd: true }),
{
    TrustedDealerBuilder::new(n)
}

/// Mathematical content of an optional secret.
pub open spec fn secret_view(sk: Option<NonZeroScalar>) -> Option<int> {
    match sk {
        Some(sk) => Some(sk@),
        None => None,
    }
}

impl TrustedDealerBuilder {
    /// Mathematical content of the configuration.
    pub closed spec fn view(self) -> DealerConfig {
        DealerConfig {
            n: self.n as int,
            t: threshold_view(self.t),
            secret: secret_view(self.shared_secret_key),
            hd: self.enable_hd,
        }
    }

    /// Constructs a trusted dealer builder for `n` key shares: an additive
    /// scheme, a secret drawn at random, and a chain code.
    pub fn new(n: u16) -> (r: Self)
        ensures
            r@ == (DealerConfig { n: n as int, t: None, secret: None, hd: true }),
    {
        TrustedDealerBuilder { t: None, n, shared_secret_key: None, enable_hd: true }
    }

    /// Sets the threshold. With `Some(t)` the shares are those of a t-out-of-n
    /// scheme; with `None` they are additive shares of an n-out-of-n scheme.
    pub fn set_threshold(self, t: Option<u16>) -> (r: Self)
        ensures
            r@ == (DealerConfig { t: threshold_view(t), ..self@ }),
    {
        TrustedDealerBuilder { t, ..self }
    }

    /// Sets the secret key that the shares will share.
    pub fn set_shared_secret_key(self, sk: NonZeroScalar) -> (r: Self)
        ensures
            r@ == (DealerConfig { secret: Some(sk@), ..self@ }),
    {
        TrustedDealerBuilder { shared_secret_key: Some(sk), ..self }
    }

    /// Says whether the key shall support hierarchical derivation.
    pub fn hd_wallet(self, v: bool) -> (r: Self)
        ensures
            r@ == (DealerConfig { hd: v, ..self@ }),
    {
        TrustedDealerBuilder { enable_hd: v, ..self }
    }

    /// Generates the key shares of all parties. A threshold scheme shares the
    /// secret at the points `1` to `n`.
    pub fn generate_shares(self, rng: &mut rand_core::OsRng) -> (r: Result<
        Vec<CoreKeyShare>,
        TrustedDealerError,
    >)
        ensures
            may_deal(self@, sequential_points(self@.n), outcome(r)),
            r matches Ok(shares) ==> batch_as_configured(
                self@,
                sequential_points(self@.n),
                trusted_views(shares@),
            ),
            r is Err ==> r->Err_0.0 != Reason::DeriveKeyShareIndex && r->Err_0.0
                != Reason::InvalidPreimages,
            configuration_error(self@.n, self@.t, self@.n) is Some ==> *final(rng) == *old(rng),
    {
        let mut points: Vec<NonZeroScalar> = Vec::new();
        let mut k: usize = 0;
        while k < self.n as usize
            invariant
                0 <= k <= self.n,
                points.len() == k,
                forall|m: int| 0 <= m < k ==> (#[trigger] points@[m])@ == m + 1,
            decreases self.n - k,
        {
            match NonZeroScalar::from_scalar(Scalar::from_u16((k + 1) as u16)) {
                Some(point) => {
                    points.push(point);
                },
                None => {
                    return Err(TrustedDealerError(Reason::DeriveKeyShareIndex));
                },
            }
            k += 1;
        }
        proof {
            assert(nonzero_values(points@) =~= sequential_points(self@.n));
        }
        self.generate_shares_at(points, rng)
    }

    /// Generates the key shares of all parties. A threshold scheme shares the
    /// secret at points drawn at random, none of them zero. Points that
    /// coincide are found when the batch is checked.
    pub fn generate_shares_at_random(self, rng: &mut rand_core::OsRng) -> (r: Result<
        Vec<CoreKeyShare>,
        TrustedDealerError,
    >)
        ensures
            exists|preimages: Seq<int>|
                {
                    &&& #[trigger] may_deal(self@, preimages, outcome(r))
                    &&& preimages.len() == self@.n
                    &&& !has_zero(preimages)
                    &&& r matches Ok(shares) ==> batch_as_configured(
                        self@,
                        preimages,
                        trusted_views(shares@),
                    )
                },
    {
        let mut points: Vec<NonZeroScalar> = Vec::new();
        let mut k: usize = 0;
        while k < self.n as usize
            invariant
                0 <= k <= self.n,
                points.len() == k,
                forall|m: int| 0 <= m < k ==> (#[trigger] points@[m])@ != 0,
            decreases self.n - k,
        {
            points.push(NonZeroScalar::random(rng));
            k += 1;
        }
        let ghost preimages = nonzero_values(points@);
        let r = self.generate_shares_at(points, rng);
        proof {
            assert(!has_zero(preimages)) by {
                if has_zero(preimages) {
                    let m = choose|m: int| 0 <= m < preimages.len() && preimages[m] == 0;
                    assert(points@[m]@ == 0);
                }
            }
            assert(may_deal(self@, preimages, outcome(r)));
        }
        r
    }

    /// Generates the key shares of all parties. A threshold scheme shares the
    /// secret at the given points, one per party; an additive scheme ignores
    /// what the points are.
    ///
    /// Either all `n` shares are returned, each of them checked, or none is.
    /// A list of points of the wrong length is refused before anything is
    /// drawn at random, and so is a configuration without a party or with the
    /// threshold zero: the randomness source is then as it was.
    pub fn generate_shares_at(
        self,
        preimages: Vec<NonZeroScalar>,
        rng: &mut rand_core::OsRng,
    ) -> (r: Result<Vec<CoreKeyShare>, TrustedDealerError>)
        ensures
            may_deal(self@, nonzero_values(preimages@), outcome(r)),
            r matches Ok(shares) ==> batch_as_configured(
                self@,
                nonzero_values(preimages@),
                trusted_views(shares@),
            ),
            preimages.len() != self@.n <==> r == Err::<Vec<CoreKeyShare>, TrustedDealerError>(
                TrustedDealerError(Reason::InvalidPreimages),
            ),
            r is Err ==> r->Err_0.0 != Reason::DeriveKeyShareIndex,
            configuration_error(self@.n, self@.t, preimages.len() as int) is Some ==> *final(rng)
                == *old(rng),
    {
        let ghost c = self@;
        let ghost points = nonzero_values(preimages@);
        match check_configuration(self.n, self.t, preimages.len()) {
            Err(e) => {
                proof {
                    let secret = match c.secret {
                        Some(s) => s,
                        None => 1,
                    };
                    let code = if c.hd {
                        Some(Seq::new(32, |i: int| 0u8))
                    } else {
                        None
                    };
                    if let Some(sk) = self.shared_secret_key {
                        use_type_invariant(sk);
                        sk.lemma_nonzero();
                    }
                    assert(dealt(c.n, c.t, points, secret, Seq::<int>::empty(), code) == outcome(
                        Err(e),
                    ));
                }
                return Err(e);
            },
            Ok(()) => {},
        }
        let secret = match self.shared_secret_key {
            Some(sk) => sk,
            None => NonZeroScalar::random(rng),
        };
        let secret_scalar = secret.get();
        let randomness = match self.t {
            Some(t) => {
                let coefs = Scalar::random_polynomial(rng, t - 1, &secret_scalar);
                let mut tail: Vec<Scalar> = Vec::new();
                let mut k: usize = 1;
                while k < coefs.len()
                    invariant
                        1 <= k <= coefs.len(),
                        tail.len() == k - 1,
                    decreases coefs.len() - k,
                {
                    tail.push(coefs[k]);
                    k += 1;
                }
                tail
            },
            None => {
                let mut shares: Vec<Scalar> = Vec::new();
                let mut k: usize = 1;
                while k < self.n as usize
                    invariant
                        1 <= k <= self.n,
                        shares.len() == k - 1,
                    decreases self.n - k,
                {
                    shares.push(Scalar::random(rng));
                    k += 1;
                }
                shares
            },
        };
        let chain_code = if self.enable_hd {
            let mut code: hd_wallet::ChainCode = [0u8; 32];
            fill_chain_code(rng, &mut code);
            Some(code)
        } else {
            None
        };
        let mut evaluation_points: Vec<Scalar> = Vec::new();
        let mut k: usize = 0;
        while k < preimages.len()
            invariant
                0 <= k <= preimages.len(),
                evaluation_points.len() == k,
                forall|m: int| 0 <= m < k ==> (#[trigger] evaluation_points@[m])@ == preimages@[m]@,
            decreases preimages.len() - k,
        {
            evaluation_points.push(preimages[k].get());
            k += 1;
        }
        proof {
            assert(scalar_values(evaluation_points@) =~= points);
        }
        let r = deal(self.n, self.t, evaluation_points, &secret, &randomness, chain_code);
        proof {
            assert(dealt(
                c.n,
                c.t,
                points,
                secret@,
                scalar_values(randomness@),
                chain_code_view(chain_code),
            ) == outcome(r));
            if r is Ok {
                lemma_dealt_batch(
                    c.n,
                    c.t,
                    points,
                    secret@,
                    scalar_values(randomness@),
                    chain_code_view(chain_code),
                );
            }
        }
        r
    }
}

/// Fills a chain code with bytes from the operating system's randomness
/// source, by `rand_core::RngCore::fill_bytes`. Nothing is known of the bytes
/// that it holds afterwards. The call panics if the randomness source fails.
#[verifier::external_body]
fn fill_chain_code(rng: &mut rand_core::OsRng, code: &mut hd_wallet::ChainCode) {
    rng.fill_bytes(code);
}

} // verus!
