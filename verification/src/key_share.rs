//! Key shares: the data that one party holds of a shared key, and the checks
//! that a candidate share must pass before it is trusted.

use vstd::prelude::*;
use crate::point::{generator_mul, point_add, point_mul, Point};
use crate::field::{fsub, invertible};
use crate::polynomial::{
    interpolation_points, lagrange_at_zero, lagrange_coefficient_at_zero, pairwise_distinct,
    pairwise_invertible, scalar_values,
};
use crate::scalar::{NonZeroScalar, Scalar};

verus! {

/// What a threshold scheme adds to the group's data.
#[derive(Debug)]
pub struct VssSetup {
    /// Number of parties that can reconstruct the key.
    pub min_signers: u16,
    /// The point at which each party's share was evaluated, by party index.
    pub evaluation_points: Vec<Scalar>,
}

/// The curve that a key lives on. It is recorded with the key for those who
/// use the key later.
#[derive(Clone, Copy, Debug, PartialEq, Eq, Structural)]
pub enum CurveName {
    /// The curve secp256k1.
    Secp256k1,
}

impl Default for CurveName {
    fn default() -> (r: Self)
        ensures
            r == CurveName::Secp256k1,
    {
        CurveName::Secp256k1
    }
}

/// The data that all parties of one key hold in common, not yet checked.
#[derive(Debug)]
pub struct DirtyKeyInfo {
    /// The curve of the key.
    pub curve: CurveName,
    /// Public key of the shared secret.
    pub shared_public_key: Point,
    /// Public commitment to each party's secret share, by party index.
    pub public_shares: Vec<Point>,
    /// Present for a threshold scheme, absent for an additive one.
    pub vss_setup: Option<VssSetup>,
    /// Chain code for hierarchical derivation, where the key supports it.
    pub chain_code: Option<hd_wallet::ChainCode>,
}

/// One party's share of a key, not yet checked.
pub struct DirtyCoreKeyShare {
    /// Index of the party among the `n` parties.
    pub i: u16,
    /// The data common to all parties.
    pub key_info: DirtyKeyInfo,
    /// The party's secret share.
    pub x: NonZeroScalar,
}

/// One party's share of a key that has passed every check.
pub struct CoreKeyShare {
    share: DirtyCoreKeyShare,
}

/// Mathematical content of a [`VssSetup`].
pub struct VssSetupView {
    pub min_signers: int,
    pub evaluation_points: Seq<int>,
}

/// Mathematical content of a [`DirtyKeyInfo`].
pub struct KeyInfoView {
    pub curve: CurveName,
    pub shared_public_key: Seq<u8>,
    pub public_shares: Seq<Seq<u8>>,
    pub vss_setup: Option<VssSetupView>,
    pub chain_code: Option<Seq<u8>>,
}

/// Mathematical content of a key share.
pub struct KeyShareView {
    pub i: int,
    pub key_info: KeyInfoView,
    pub x: int,
}

/// The invariant of a key share that a candidate violates.
#[derive(Clone, Copy, Debug, PartialEq, Eq, Structural)]
pub enum InvalidCoreShare {
    /// The party index is not below the number of parties.
    PartyIndexOutOfBounds,
    /// The secret share does not match the party's public share.
    PartySecretShareDoesntMatchPublicShare,
    /// There is no party.
    NoParties,
    /// The number of parties does not fit in 16 bits.
    TooManyParties,
    /// The threshold is zero.
    ThresholdTooSmall,
    /// The threshold exceeds the number of parties.
    ThresholdTooLarge,
    /// The number of evaluation points is not the number of parties.
    EvaluationPointsLen,
    /// An evaluation point is zero.
    ZeroEvaluationPoint,
    /// Two evaluation points are equal, or their difference has no inverse.
    EvaluationPointsNotDistinct,
    /// The public shares do not add up to the shared public key.
    SharesDontMatchPublicKey,
    /// A batch does not hold one share per party.
    BatchLen,
    /// Two shares of a batch differ in the data common to all parties.
    DifferentKeyInfo,
    /// Two shares of a batch carry the same party index.
    PartyIndexRepeated,
}

/// The encodings of a list of points.
pub open spec fn point_encodings(v: Seq<Point>) -> Seq<Seq<u8>> {
    Seq::new(v.len(), |i: int| v[i]@)
}

/// Sum of the first `len` points of `ps`, for `len >= 1`.
pub open spec fn point_sum_prefix(ps: Seq<Seq<u8>>, len: nat) -> Seq<u8>
    decreases len,
{
    if len <= 1 {
        ps[0]
    } else {
        point_add(point_sum_prefix(ps, (len - 1) as nat), ps[len - 1])
    }
}

/// Sum of the points `ps`, of which there is at least one.
pub open spec fn point_sum(ps: Seq<Seq<u8>>) -> Seq<u8> {
    point_sum_prefix(ps, ps.len())
}

/// Sum over `j < len` of the point `ps[j]` multiplied by the Lagrange
/// coefficient of `xs[j]` at zero, for `len >= 1`.
pub open spec fn extrapolation_prefix(xs: Seq<int>, ps: Seq<Seq<u8>>, len: nat) -> Seq<u8>
    decreases len,
{
    if len <= 1 {
        point_mul(lagrange_at_zero(xs, 0), ps[0])
    } else {
        point_add(
            extrapolation_prefix(xs, ps, (len - 1) as nat),
            point_mul(lagrange_at_zero(xs, len - 1), ps[len - 1]),
        )
    }
}

/// Value at zero of the commitment polynomial that takes the value `ps[j]` at
/// `xs[j]`.
pub open spec fn extrapolation_at_zero(xs: Seq<int>, ps: Seq<Seq<u8>>) -> Seq<u8> {
    extrapolation_prefix(xs, ps, ps.len())
}

/// Some evaluation point is zero.
pub open spec fn has_zero(xs: Seq<int>) -> bool {
    exists|k: int| 0 <= k < xs.len() && xs[k] == 0
}

/// The first invariant that a threshold setup violates for `n` parties whose
/// public shares are `ps` and whose public key is `pk`, if any.
pub open spec fn vss_violation(vss: VssSetupView, ps: Seq<Seq<u8>>, pk: Seq<u8>) -> Option<
    InvalidCoreShare,
> {
    if vss.min_signers < 1 {
        Some(InvalidCoreShare::ThresholdTooSmall)
    } else if vss.min_signers > ps.len() {
        Some(InvalidCoreShare::ThresholdTooLarge)
    } else if vss.evaluation_points.len() != ps.len() {
        Some(InvalidCoreShare::EvaluationPointsLen)
    } else if has_zero(vss.evaluation_points) {
        Some(InvalidCoreShare::ZeroEvaluationPoint)
    } else if !interpolation_points(vss.evaluation_points) {
        Some(InvalidCoreShare::EvaluationPointsNotDistinct)
    } else if extrapolation_at_zero(vss.evaluation_points, ps) != pk {
        Some(InvalidCoreShare::SharesDontMatchPublicKey)
    } else {
        None
    }
}

/// The first invariant that the common data of a key violates, if any.
pub open spec fn key_info_violation(k: KeyInfoView) -> Option<InvalidCoreShare> {
    if k.public_shares.len() == 0 {
        Some(InvalidCoreShare::NoParties)
    } else if k.public_shares.len() > u16::MAX {
        Some(InvalidCoreShare::TooManyParties)
    } else {
        match k.vss_setup {
            None => if point_sum(k.public_shares) != k.shared_public_key {
                Some(InvalidCoreShare::SharesDontMatchPublicKey)
            } else {
                None
            },
            Some(vss) => vss_violation(vss, k.public_shares, k.shared_public_key),
        }
    }
}

/// The first invariant that a candidate key share violates, if any.
pub open spec fn share_violation(s: KeyShareView) -> Option<InvalidCoreShare> {
    if s.i >= s.key_info.public_shares.len() {
        Some(InvalidCoreShare::PartyIndexOutOfBounds)
    } else if generator_mul(s.x) != s.key_info.public_shares[s.i] {
        Some(InvalidCoreShare::PartySecretShareDoesntMatchPublicShare)
    } else {
        key_info_violation(s.key_info)
    }
}

impl VssSetup {
    /// Mathematical content of the setup.
    pub open spec fn view(self) -> VssSetupView {
        VssSetupView {
            min_signers: self.min_signers as int,
            evaluation_points: scalar_values(self.evaluation_points@),
        }
    }
}

/// Mathematical content of an optional setup.
pub open spec fn vss_view(v: Option<VssSetup>) -> Option<VssSetupView> {
    match v {
        None => None,
        Some(vss) => Some(vss@),
    }
}

/// Mathematical content of an optional chain code.
pub open spec fn chain_code_view(c: Option<hd_wallet::ChainCode>) -> Option<Seq<u8>> {
    match c {
        None => None,
        Some(code) => Some(code@),
    }
}

impl DirtyKeyInfo {
    /// Mathematical content of the common data.
    pub open spec fn view(self) -> KeyInfoView {
        KeyInfoView {
            curve: self.curve,
            shared_public_key: self.shared_public_key@,
            public_shares: point_encodings(self.public_shares@),
            vss_setup: vss_view(self.vss_setup),
            chain_code: chain_code_view(self.chain_code),
        }
    }
}

impl DirtyCoreKeyShare {
    /// Mathematical content of the candidate share.
    pub open spec fn view(self) -> KeyShareView {
        KeyShareView { i: self.i as int, key_info: self.key_info@, x: self.x@ }
    }
}

/// A copy of a list of scalars.
fn copy_scalars(v: &Vec<Scalar>) -> (r: Vec<Scalar>)
    ensures
        r@ == v@,
{
    let mut out: Vec<Scalar> = Vec::new();
    let mut k: usize = 0;
    while k < v.len()
        invariant
            0 <= k <= v.len(),
            out@ == v@.subrange(0, k as int),
        decreases v.len() - k,
    {
        out.push(v[k]);
        proof {
            assert(out@ =~= v@.subrange(0, k as int + 1));
        }
        k += 1;
    }
    proof {
        assert(out@ =~= v@);
    }
    out
}

/// A copy of a list of points.
fn copy_points(v: &Vec<Point>) -> (r: Vec<Point>)
    ensures
        r@ == v@,
{
    let mut out: Vec<Point> = Vec::new();
    let mut k: usize = 0;
    while k < v.len()
        invariant
            0 <= k <= v.len(),
            out@ == v@.subrange(0, k as int),
        decreases v.len() - k,
    {
        out.push(v[k]);
        proof {
            assert(out@ =~= v@.subrange(0, k as int + 1));
        }
        k += 1;
    }
    proof {
        assert(out@ =~= v@);
    }
    out
}

impl Clone for VssSetup {
    fn clone(&self) -> (r: Self)
        ensures
            r@ == self@,
    {
        VssSetup {
            min_signers: self.min_signers,
            evaluation_points: copy_scalars(&self.evaluation_points),
        }
    }
}

impl Clone for DirtyKeyInfo {
    fn clone(&self) -> (r: Self)
        ensures
            r@ == self@,
    {
        let vss_setup = match &self.vss_setup {
            None => None,
            Some(vss) => Some(vss.clone()),
        };
        DirtyKeyInfo {
            curve: self.curve,
            shared_public_key: self.shared_public_key,
            public_shares: copy_points(&self.public_shares),
            vss_setup,
            chain_code: self.chain_code,
        }
    }
}

impl Clone for DirtyCoreKeyShare {
    fn clone(&self) -> (r: Self)
        ensures
            r@ == self@,
    {
        DirtyCoreKeyShare { i: self.i, key_info: self.key_info.clone(), x: self.x }
    }
}

impl Clone for CoreKeyShare {
    fn clone(&self) -> (r: Self)
        ensures
            r@ == self@,
    {
        proof {
            use_type_invariant(self);
        }
        CoreKeyShare { share: self.share.clone() }
    }
}

/// Adds up the points `ps`.
fn sum_points(ps: &Vec<Point>) -> (r: Point)
    requires
        ps.len() >= 1,
    ensures
        r@ == point_sum(point_encodings(ps@)),
{
    let mut acc = ps[0];
    let mut k: usize = 1;
    while k < ps.len()
        invariant
            1 <= k <= ps.len(),
            acc@ == point_sum_prefix(point_encodings(ps@), k as nat),
        decreases ps.len() - k,
    {
        acc = acc.add(&ps[k]);
        k += 1;
    }
    acc
}

/// Extrapolates the commitments `ps`, given at the points `xs`, to zero;
/// `None` where two of the points are equal.
fn extrapolate_at_zero(xs: &Vec<Scalar>, ps: &Vec<Point>) -> (r: Option<Point>)
    requires
        xs.len() == ps.len(),
        ps.len() >= 1,
    ensures
        r is Some <==> pairwise_distinct(scalar_values(xs@)),
        r is Some ==> pairwise_invertible(scalar_values(xs@)),
        r matches Some(p) ==> p@ == extrapolation_at_zero(
            scalar_values(xs@),
            point_encodings(ps@),
        ),
{
    let ghost vals = scalar_values(xs@);
    let ghost encs = point_encodings(ps@);
    let mut acc = ps[0];
    let mut j: usize = 0;
    while j < ps.len()
        invariant
            0 <= j <= ps.len(),
            xs.len() == ps.len(),
            ps.len() >= 1,
            vals == scalar_values(xs@),
            encs == point_encodings(ps@),
            j >= 1 ==> acc@ == extrapolation_prefix(vals, encs, j as nat),
            forall|a: int, b: int|
                0 <= a < j && 0 <= b < xs.len() && a != b ==> vals[a] != vals[b],
            forall|a: int, b: int|
                0 <= a < j && 0 <= b < xs.len() && a != b ==> invertible(
                    #[trigger] fsub(vals[b], vals[a]),
                ),
        decreases ps.len() - j,
    {
        match lagrange_coefficient_at_zero(j, xs) {
            None => {
                proof {
                    let m = choose|m: int|
                        0 <= m < xs.len() && m != j && xs@[m]@ == xs@[j as int]@;
                    assert(vals[m] == vals[j as int]);
                }
                return None;
            },
            Some(lambda) => {
                let term = ps[j].mul(&lambda);
                if j == 0 {
                    acc = term;
                } else {
                    acc = acc.add(&term);
                }
                proof {
                    assert forall|a: int, b: int|
                        0 <= a < j + 1 && 0 <= b < xs.len() && a != b implies vals[a]
                        != vals[b] by {
                        if a == j {
                            assert(xs@[b]@ != xs@[j as int]@);
                        }
                    }
                }
            },
        }
        j += 1;
    }
    Some(acc)
}

/// Whether some scalar of `xs` is zero.
fn any_zero(xs: &Vec<Scalar>) -> (r: bool)
    ensures
        r == has_zero(scalar_values(xs@)),
{
    let mut k: usize = 0;
    while k < xs.len()
        invariant
            0 <= k <= xs.len(),
            forall|m: int| 0 <= m < k ==> scalar_values(xs@)[m] != 0,
        decreases xs.len() - k,
    {
        if xs[k].is_zero() {
            proof {
                assert(scalar_values(xs@)[k as int] == 0);
            }
            return true;
        }
        k += 1;
    }
    false
}

/// Turns a violation, or its absence, into the result of a check.
pub open spec fn check_result(v: Option<InvalidCoreShare>) -> Result<(), InvalidCoreShare> {
    match v {
        None => Ok(()),
        Some(e) => Err(e),
    }
}

impl DirtyKeyInfo {
    /// Checks the invariants of the common data and reports the first that is
    /// violated.
    pub fn validate(&self) -> (r: Result<(), InvalidCoreShare>)
        ensures
            r == check_result(key_info_violation(self@)),
    {
        let n = self.public_shares.len();
        if n == 0 {
            return Err(InvalidCoreShare::NoParties);
        }
        if n > 65535 {
            return Err(InvalidCoreShare::TooManyParties);
        }
        match &self.vss_setup {
            None => {
                let sum = sum_points(&self.public_shares);
                if !sum.equals(&self.shared_public_key) {
                    return Err(InvalidCoreShare::SharesDontMatchPublicKey);
                }
                Ok(())
            },
            Some(vss) => {
                if vss.min_signers < 1 {
                    return Err(InvalidCoreShare::ThresholdTooSmall);
                }
                if vss.min_signers as usize > n {
                    return Err(InvalidCoreShare::ThresholdTooLarge);
                }
                if vss.evaluation_points.len() != n {
                    return Err(InvalidCoreShare::EvaluationPointsLen);
                }
                if any_zero(&vss.evaluation_points) {
                    return Err(InvalidCoreShare::ZeroEvaluationPoint);
                }
                match extrapolate_at_zero(&vss.evaluation_points, &self.public_shares) {
                    None => Err(InvalidCoreShare::EvaluationPointsNotDistinct),
                    Some(pk) => {
                        if !pk.equals(&self.shared_public_key) {
                            return Err(InvalidCoreShare::SharesDontMatchPublicKey);
                        }
                        Ok(())
                    },
                }
            },
        }
    }
}

impl DirtyCoreKeyShare {
    /// Checks every invariant of the candidate share. A share that passes is
    /// handed back in its trusted form, unchanged; otherwise the first
    /// violated invariant is reported.
    pub fn validate(self) -> (r: Result<CoreKeyShare, InvalidCoreShare>)
        ensures
            match share_violation(self@) {
                None => r is Ok && r->Ok_0@ == self@,
                Some(e) => r == Err::<CoreKeyShare, InvalidCoreShare>(e),
            },
    {
        if self.i as usize >= self.key_info.public_shares.len() {
            return Err(InvalidCoreShare::PartyIndexOutOfBounds);
        }
        let x = self.x.get();
        let commitment = Point::generator_mul(&x);
        if !commitment.equals(&self.key_info.public_shares[self.i as usize]) {
            return Err(InvalidCoreShare::PartySecretShareDoesntMatchPublicShare);
        }
        match self.key_info.validate() {
            Err(e) => Err(e),
            Ok(()) => Ok(CoreKeyShare { share: self }),
        }
    }
}

impl CoreKeyShare {
    /// The share violates no invariant.
    #[verifier::type_invariant]
    pub closed spec fn trusted(self) -> bool {
        share_violation(self.share@) is None
    }

    /// Mathematical content of the share.
    pub closed spec fn view(self) -> KeyShareView {
        self.share@
    }

    /// Index of the party among the `n` parties.
    pub fn party_index(&self) -> (r: u16)
        ensures
            r == self@.i,
            share_violation(self@) is None,
    {
        proof {
            use_type_invariant(self);
        }
        self.share.i
    }

    /// The party's secret share.
    pub fn secret_share(&self) -> (r: NonZeroScalar)
        ensures
            r@ == self@.x,
    {
        self.share.x
    }

    /// The data common to all parties.
    pub fn key_info(&self) -> (r: &DirtyKeyInfo)
        ensures
            r@ == self@.key_info,
            share_violation(self@) is None,
    {
        proof {
            use_type_invariant(self);
        }
        &self.share.key_info
    }

    /// Gives up the trusted form.
    pub fn into_inner(self) -> (r: DirtyCoreKeyShare)
        ensures
            r@ == self@,
            share_violation(r@) is None,
    {
        proof {
            use_type_invariant(&self);
        }
        self.share
    }
}

/// Whether two lists of points hold the same group elements.
fn points_equal(a: &Vec<Point>, b: &Vec<Point>) -> (r: bool)
    ensures
        r == (point_encodings(a@) == point_encodings(b@)),
{
    if a.len() != b.len() {
        proof {
            assert(point_encodings(a@).len() != point_encodings(b@).len());
        }
        return false;
    }
    let mut k: usize = 0;
    while k < a.len()
        invariant
            0 <= k <= a.len(),
            a.len() == b.len(),
            forall|m: int| 0 <= m < k ==> a@[m]@ == b@[m]@,
        decreases a.len() - k,
    {
        if !a[k].equals(&b[k]) {
            proof {
                assert(point_encodings(a@)[k as int] != point_encodings(b@)[k as int]);
            }
            return false;
        }
        k += 1;
    }
    proof {
        assert(point_encodings(a@) =~= point_encodings(b@));
    }
    true
}

/// Whether two lists of scalars stand for the same residues.
fn scalars_equal(a: &Vec<Scalar>, b: &Vec<Scalar>) -> (r: bool)
    ensures
        r == (scalar_values(a@) == scalar_values(b@)),
{
    if a.len() != b.len() {
        proof {
            assert(scalar_values(a@).len() != scalar_values(b@).len());
        }
        return false;
    }
    let mut k: usize = 0;
    while k < a.len()
        invariant
            0 <= k <= a.len(),
            a.len() == b.len(),
            forall|m: int| 0 <= m < k ==> a@[m]@ == b@[m]@,
        decreases a.len() - k,
    {
        if !a[k].equals(&b[k]) {
            proof {
                assert(scalar_values(a@)[k as int] != scalar_values(b@)[k as int]);
            }
            return false;
        }
        k += 1;
    }
    proof {
        assert(scalar_values(a@) =~= scalar_values(b@));
    }
    true
}

/// Whether two chain codes hold the same bytes.
fn chain_codes_equal(a: &hd_wallet::ChainCode, b: &hd_wallet::ChainCode) -> (r: bool)
    ensures
        r == (a@ == b@),
{
    let mut k: usize = 0;
    while k < 32
        invariant
            0 <= k <= 32,
            forall|m: int| 0 <= m < k ==> a@[m] == b@[m],
        decreases 32 - k,
    {
        if a[k] != b[k] {
            return false;
        }
        k += 1;
    }
    proof {
        assert(a@ =~= b@);
    }
    true
}

impl VssSetup {
    /// Whether two setups have the same mathematical content.
    pub fn same_as(&self, other: &VssSetup) -> (r: bool)
        ensures
            r == (self@ == other@),
    {
        self.min_signers == other.min_signers && scalars_equal(
            &self.evaluation_points,
            &other.evaluation_points,
        )
    }
}

impl DirtyKeyInfo {
    /// Whether two values have the same mathematical content.
    pub fn same_as(&self, other: &DirtyKeyInfo) -> (r: bool)
        ensures
            r == (self@ == other@),
    {
        if self.curve != other.curve {
            return false;
        }
        if !self.shared_public_key.equals(&other.shared_public_key) {
            return false;
        }
        if !points_equal(&self.public_shares, &other.public_shares) {
            return false;
        }
        let same_vss = match (&self.vss_setup, &other.vss_setup) {
            (None, None) => true,
            (Some(a), Some(b)) => a.same_as(b),
            _ => false,
        };
        if !same_vss {
            return false;
        }
        match (&self.chain_code, &other.chain_code) {
            (None, None) => true,
            (Some(a), Some(b)) => chain_codes_equal(a, b),
            _ => false,
        }
    }
}

impl PartialEq for VssSetup {
    fn eq(&self, other: &VssSetup) -> (r: bool) {
        self.same_as(other)
    }
}

impl vstd::std_specs::cmp::PartialEqSpecImpl for VssSetup {
    open spec fn obeys_eq_spec() -> bool {
        true
    }

    open spec fn eq_spec(&self, other: &VssSetup) -> bool {
        self@ == other@
    }
}

impl PartialEq for DirtyKeyInfo {
    fn eq(&self, other: &DirtyKeyInfo) -> (r: bool) {
        self.same_as(other)
    }
}

impl vstd::std_specs::cmp::PartialEqSpecImpl for DirtyKeyInfo {
    open spec fn obeys_eq_spec() -> bool {
        true
    }

    open spec fn eq_spec(&self, other: &DirtyKeyInfo) -> bool {
        self@ == other@
    }
}

/// Mathematical content of a list of candidate shares.
pub open spec fn share_views(v: Seq<DirtyCoreKeyShare>) -> Seq<KeyShareView> {
    Seq::new(v.len(), |k: int| v[k]@)
}

/// Mathematical content of a list of trusted shares.
pub open spec fn trusted_views(v: Seq<CoreKeyShare>) -> Seq<KeyShareView> {
    Seq::new(v.len(), |k: int| v[k]@)
}

/// Some share of the batch differs from the first in the common data.
pub open spec fn batch_differs(b: Seq<KeyShareView>) -> bool {
    exists|k: int| 0 <= k < b.len() && (#[trigger] b[k]).key_info != b[0].key_info
}

/// Some share of the batch has a party index that is not below `n`.
pub open spec fn batch_index_out_of_bounds(b: Seq<KeyShareView>, n: int) -> bool {
    exists|k: int| 0 <= k < b.len() && (#[trigger] b[k]).i >= n
}

/// Two shares of the batch carry the same party index.
pub open spec fn batch_index_repeated(b: Seq<KeyShareView>) -> bool {
    exists|k1: int, k2: int|
        0 <= k1 < k2 < b.len() && (#[trigger] b[k1]).i == (#[trigger] b[k2]).i
}

/// Some secret share of the batch does not match its party's public share.
pub open spec fn batch_commitment_mismatch(b: Seq<KeyShareView>) -> bool {
    exists|k: int|
        0 <= k < b.len() && generator_mul((#[trigger] b[k]).x)
            != b[k].key_info.public_shares[b[k].i]
}

/// The first invariant that a batch of candidate shares violates, if any. A
/// batch that violates none holds one share for each of the `n` parties of one
/// key, every party index once, and each share violates no invariant of its
/// own.
pub open spec fn batch_violation(b: Seq<KeyShareView>) -> Option<InvalidCoreShare> {
    if b.len() == 0 {
        Some(InvalidCoreShare::BatchLen)
    } else if batch_differs(b) {
        Some(InvalidCoreShare::DifferentKeyInfo)
    } else if key_info_violation(b[0].key_info) is Some {
        key_info_violation(b[0].key_info)
    } else if b.len() != b[0].key_info.public_shares.len() {
        Some(InvalidCoreShare::BatchLen)
    } else if batch_index_out_of_bounds(b, b.len() as int) {
        Some(InvalidCoreShare::PartyIndexOutOfBounds)
    } else if batch_index_repeated(b) {
        Some(InvalidCoreShare::PartyIndexRepeated)
    } else if batch_commitment_mismatch(b) {
        Some(InvalidCoreShare::PartySecretShareDoesntMatchPublicShare)
    } else {
        None
    }
}

/// In a batch that violates nothing, no share violates an invariant of its
/// own.
pub proof fn lemma_batch_shares_valid(b: Seq<KeyShareView>, k: int)
    requires
        batch_violation(b) is None,
        0 <= k < b.len(),
    ensures
        share_violation(b[k]) is None,
        b[k].key_info == b[0].key_info,
        b.len() == b[0].key_info.public_shares.len(),
{
}

/// Checks a batch of candidate shares as a whole: either every share is
/// handed back in its trusted form, in the same order, or none is and the
/// first violated invariant is reported.
pub fn validate_batch(shares: Vec<DirtyCoreKeyShare>) -> (r: Result<
    Vec<CoreKeyShare>,
    InvalidCoreShare,
>)
    ensures
        match batch_violation(share_views(shares@)) {
            None => r is Ok && trusted_views(r->Ok_0@) == share_views(shares@),
            Some(e) => r == Err::<Vec<CoreKeyShare>, InvalidCoreShare>(e),
        },
{
    let ghost b = share_views(shares@);
    let len = shares.len();
    if len == 0 {
        return Err(InvalidCoreShare::BatchLen);
    }
    let mut k: usize = 1;
    while k < len
        invariant
            1 <= k <= len,
            len == shares.len(),
            b == share_views(shares@),
            forall|m: int| 0 <= m < k ==> (#[trigger] b[m]).key_info == b[0].key_info,
        decreases len - k,
    {
        if !shares[k].key_info.same_as(&shares[0].key_info) {
            proof {
                assert(b[k as int].key_info != b[0].key_info);
            }
            return Err(InvalidCoreShare::DifferentKeyInfo);
        }
        k += 1;
    }
    proof {
        assert(!batch_differs(b));
    }
    match shares[0].key_info.validate() {
        Err(e) => {
            return Err(e);
        },
        Ok(()) => {},
    }
    let n = shares[0].key_info.public_shares.len();
    if len != n {
        return Err(InvalidCoreShare::BatchLen);
    }
    let mut k: usize = 0;
    while k < len
        invariant
            0 <= k <= len,
            len == shares.len(),
            b == share_views(shares@),
            !batch_differs(b),
            key_info_violation(b[0].key_info) is None,
            b.len() == b[0].key_info.public_shares.len(),
            forall|m: int| 0 <= m < k ==> (#[trigger] b[m]).i < len,
        decreases len - k,
    {
        if shares[k].i as usize >= len {
            proof {
                assert(b[k as int].i >= len);
            }
            return Err(InvalidCoreShare::PartyIndexOutOfBounds);
        }
        k += 1;
    }
    proof {
        assert(!batch_index_out_of_bounds(b, len as int));
    }
    let mut seen: Vec<bool> = Vec::new();
    let mut k: usize = 0;
    while k < len
        invariant
            0 <= k <= len,
            seen.len() == k,
            forall|m: int| 0 <= m < k ==> !seen@[m],
        decreases len - k,
    {
        seen.push(false);
        k += 1;
    }
    let mut k: usize = 0;
    while k < len
        invariant
            0 <= k <= len,
            len == shares.len(),
            seen.len() == len,
            b == share_views(shares@),
            !batch_differs(b),
            key_info_violation(b[0].key_info) is None,
            b.len() == b[0].key_info.public_shares.len(),
            !batch_index_out_of_bounds(b, len as int),
            forall|m: int| 0 <= m < len ==> (#[trigger] b[m]).i < len,
            forall|idx: int|
                0 <= idx < len ==> (#[trigger] seen@[idx] <==> exists|m: int|
                    0 <= m < k && (#[trigger] b[m]).i == idx),
            forall|m1: int, m2: int|
                0 <= m1 < m2 < k ==> (#[trigger] b[m1]).i != (#[trigger] b[m2]).i,
        decreases len - k,
    {
        let idx = shares[k].i as usize;
        proof {
            assert(b[k as int].i == idx);
        }
        if seen[idx] {
            proof {
                let m = choose|m: int| 0 <= m < k && (#[trigger] b[m]).i == idx;
                assert(b[m].i == b[k as int].i);
            }
            return Err(InvalidCoreShare::PartyIndexRepeated);
        }
        let ghost before = seen@;
        seen.set(idx, true);
        proof {
            assert forall|j: int| 0 <= j < len implies (#[trigger] seen@[j] <==> exists|m: int|
                0 <= m < k + 1 && (#[trigger] b[m]).i == j) by {
                if j == idx {
                    assert(b[k as int].i == j);
                } else {
                    assert(seen@[j] == before[j]);
                    if before[j] {
                        let m = choose|m: int| 0 <= m < k && (#[trigger] b[m]).i == j;
                        assert(0 <= m < k + 1 && b[m].i == j);
                    }
                }
            }
        }
        k += 1;
    }
    proof {
        assert(!batch_index_repeated(b));
    }
    let mut k: usize = 0;
    while k < len
        invariant
            0 <= k <= len,
            len == shares.len(),
            b == share_views(shares@),
            !batch_differs(b),
            key_info_violation(b[0].key_info) is None,
            b.len() == b[0].key_info.public_shares.len(),
            !batch_index_out_of_bounds(b, len as int),
            !batch_index_repeated(b),
            len == b[0].key_info.public_shares.len(),
            forall|m: int| 0 <= m < len ==> (#[trigger] b[m]).i < len,
            forall|m: int| 0 <= m < len ==> (#[trigger] b[m]).key_info == b[0].key_info,
            forall|m: int|
                0 <= m < k ==> generator_mul((#[trigger] b[m]).x)
                    == b[m].key_info.public_shares[b[m].i],
        decreases len - k,
    {
        let x = shares[k].x.get();
        let commitment = Point::generator_mul(&x);
        proof {
            assert(b[k as int].i < len);
            assert(b[k as int].key_info == b[0].key_info);
        }
        if !commitment.equals(&shares[k].key_info.public_shares[shares[k].i as usize]) {
            proof {
                assert(generator_mul(b[k as int].x) != b[k as int].key_info.public_shares[b[k as int].i]);
            }
            return Err(InvalidCoreShare::PartySecretShareDoesntMatchPublicShare);
        }
        k += 1;
    }
    proof {
        assert(!batch_commitment_mismatch(b));
        assert(batch_violation(b) is None);
    }
    let mut out: Vec<CoreKeyShare> = Vec::new();
    let mut k: usize = 0;
    while k < len
        invariant
            0 <= k <= len,
            len == shares.len(),
            b == share_views(shares@),
            batch_violation(b) is None,
            out.len() == k,
            forall|m: int| 0 <= m < k ==> (#[trigger] out@[m])@ == b[m],
        decreases len - k,
    {
        let share = shares[k].clone();
        proof {
            lemma_batch_shares_valid(b, k as int);
        }
        out.push(CoreKeyShare { share });
        k += 1;
    }
    proof {
        assert(trusted_views(out@) =~= b);
    }
    Ok(out)
}

} // verus!
