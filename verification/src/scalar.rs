//! Scalars modulo the order of the secp256k1 group.
//!
//! A [`Scalar`] holds the canonical 32-byte big-endian encoding of a residue.
//! The arithmetic itself is done by `generic_ec`; every operation here states
//! which residue comes back.

use vstd::prelude::*;
use generic_ec::curves::Secp256k1;
use crate::field::{fadd, fmul, fsub, group_order, is_inverse};

verus! {

/// `rand_core::OsRng`, the randomness source of the operating system. It is
/// only handed on to the functions that draw from it.
#[verifier::external_type_specification]
#[verifier::external_body]
pub struct ExOsRng(rand_core::OsRng);

/// `generic_ec::errors::InvalidScalar`, the error of decoding a scalar. It
/// holds nothing.
#[verifier::external_type_specification]
#[verifier::external_body]
pub struct ExInvalidScalar(generic_ec::errors::InvalidScalar);

/// The integer that a byte string denotes when read in big-endian order.
pub open spec fn be_value(bytes: Seq<u8>) -> nat
    decreases bytes.len(),
{
    if bytes.len() == 0 {
        0
    } else {
        be_value(bytes.drop_last()) * 256 + bytes.last() as nat
    }
}

/// A scalar, held as its canonical 32-byte big-endian encoding.
#[derive(Clone, Copy, Debug)]
pub struct Scalar {
    bytes: [u8; 32],
}

impl Scalar {
    /// The stored bytes denote an integer below the group order.
    #[verifier::type_invariant]
    pub closed spec fn canonical(self) -> bool {
        be_value(self.bytes@) < group_order()
    }

    /// The integer that the stored bytes denote.
    pub closed spec fn encoded(self) -> int {
        be_value(self.bytes@) as int
    }

    /// The residue that the scalar stands for, in `0 .. group_order()`.
    pub open spec fn view(self) -> int {
        self.encoded() % group_order()
    }

    /// The scalar 0.
    pub fn zero() -> (r: Scalar)
        ensures
            r@ == 0,
    {
        Scalar::from_u16(0)
    }

    /// The scalar 1.
    pub fn one() -> (r: Scalar)
        ensures
            r@ == 1,
    {
        Scalar::from_u16(1)
    }

    /// The scalar that stands for a small integer.
    pub fn from_u16(i: u16) -> (r: Scalar)
        ensures
            r@ == i,
    {
        let hi: u8 = (i / 256) as u8;
        let lo: u8 = (i % 256) as u8;
        let bytes: [u8; 32] = [
            0, 0, 0, 0, 0, 0, 0, 0, 0, 0, 0, 0, 0, 0, 0, 0,
            0, 0, 0, 0, 0, 0, 0, 0, 0, 0, 0, 0, 0, 0, hi, lo,
        ];
        proof {
            let s = bytes@;
            let s31 = s.drop_last();
            let s30 = s31.drop_last();
            assert(s.last() == lo);
            assert(s31.last() == hi);
            assert forall|k: int| 0 <= k < s30.len() implies s30[k] == 0 by {
                assert(s30[k] == s[k]);
            }
            lemma_be_value_zero(s30);
            assert(be_value(s31) == hi);
            assert(be_value(s) == hi * 256 + lo);
        }
        Scalar { bytes }
    }

    /// Decodes a 32-byte big-endian integer; `None` where it is not below the
    /// group order.
    pub fn from_be_bytes(bytes: &[u8; 32]) -> (r: Option<Scalar>)
        ensures
            r is Some <==> be_value(bytes@) < group_order(),
            r matches Some(s) ==> s@ == be_value(bytes@),
    {
        match scalar_decode(bytes) {
            Ok(s) => Some(s),
            Err(_) => None,
        }
    }

    /// The canonical 32-byte big-endian encoding.
    pub fn to_be_bytes(&self) -> (r: [u8; 32])
        ensures
            be_value(r@) == self@,
    {
        proof {
            use_type_invariant(self);
        }
        self.bytes
    }

    /// Whether this is the scalar 0.
    pub fn is_zero(&self) -> (r: bool)
        ensures
            r == (self@ == 0),
    {
        proof {
            use_type_invariant(self);
        }
        let mut i: usize = 0;
        while i < 32
            invariant
                0 <= i <= 32,
                self.canonical(),
                forall|k: int| 0 <= k < i ==> self.bytes@[k] == 0,
            decreases 32 - i,
        {
            if self.bytes[i] != 0 {
                proof {
                    lemma_be_value_nonzero(self.bytes@, i as int);
                }
                return false;
            }
            i += 1;
        }
        proof {
            lemma_be_value_zero(self.bytes@);
        }
        true
    }

    /// Whether two scalars stand for the same residue.
    pub fn equals(&self, other: &Scalar) -> (r: bool)
        ensures
            r == (self@ == other@),
    {
        proof {
            use_type_invariant(self);
            use_type_invariant(other);
        }
        let mut i: usize = 0;
        while i < 32
            invariant
                0 <= i <= 32,
                self.canonical(),
                other.canonical(),
                forall|k: int| 0 <= k < i ==> self.bytes@[k] == other.bytes@[k],
            decreases 32 - i,
        {
            if self.bytes[i] != other.bytes[i] {
                proof {
                    lemma_be_value_differs(self.bytes@, other.bytes@, i as int);
                }
                return false;
            }
            i += 1;
        }
        proof {
            assert(self.bytes@ =~= other.bytes@);
        }
        true
    }

    /// Sum modulo the group order.
    pub fn add(&self, rhs: &Scalar) -> (r: Scalar)
        ensures
            r@ == fadd(self@, rhs@),
    {
        scalar_add(self, rhs)
    }

    /// Difference modulo the group order.
    pub fn sub(&self, rhs: &Scalar) -> (r: Scalar)
        ensures
            r@ == fsub(self@, rhs@),
    {
        scalar_sub(self, rhs)
    }

    /// Product modulo the group order.
    pub fn mul(&self, rhs: &Scalar) -> (r: Scalar)
        ensures
            r@ == fmul(self@, rhs@),
    {
        scalar_mul(self, rhs)
    }

    /// The multiplicative inverse; `None` for the scalar 0 and for nothing else.
    pub fn invert(&self) -> (r: Option<Scalar>)
        ensures
            r is None <==> self@ == 0,
            r matches Some(v) ==> is_inverse(self@, v@),
    {
        let r = scalar_invert(self);
        proof {
            if let Some(v) = r {
                if self@ == 0 {
                    assert(self@ * v@ == 0);
                }
            }
        }
        r
    }

    /// Draws a scalar other than 0 from the operating system's randomness
    /// source.
    pub fn random(rng: &mut rand_core::OsRng) -> (r: Scalar)
        ensures
            r@ != 0,
    {
        scalar_random(rng)
    }

    /// Draws the coefficients of a polynomial of the given degree whose
    /// constant term is `const_term`, from the constant term upwards.
    pub fn random_polynomial(rng: &mut rand_core::OsRng, degree: u16, const_term: &Scalar) -> (r:
        Vec<Scalar>)
        ensures
            r.len() == degree + 1,
            r@[0]@ == const_term@,
    {
        sample_polynomial(rng, degree as usize, const_term)
    }
}

impl PartialEq for Scalar {
    fn eq(&self, other: &Scalar) -> (r: bool) {
        self.equals(other)
    }
}

impl vstd::std_specs::cmp::PartialEqSpecImpl for Scalar {
    open spec fn obeys_eq_spec() -> bool {
        true
    }

    open spec fn eq_spec(&self, other: &Scalar) -> bool {
        self@ == other@
    }
}

impl Eq for Scalar {

}

/// A scalar other than 0. Secrets are held in this form: it has no `Debug`,
/// so that none is printed by accident.
#[derive(Clone, Copy)]
pub struct NonZeroScalar {
    inner: Scalar,
}

impl NonZeroScalar {
    /// The scalar is not 0.
    #[verifier::type_invariant]
    pub closed spec fn nonzero(self) -> bool {
        self.inner@ != 0
    }

    /// The residue that the scalar stands for.
    pub closed spec fn view(self) -> int {
        self.inner@
    }

    /// Refines a scalar; `None` for the scalar 0 and for nothing else.
    pub fn from_scalar(s: Scalar) -> (r: Option<NonZeroScalar>)
        ensures
            r is Some <==> s@ != 0,
            r matches Some(v) ==> v@ == s@,
    {
        if s.is_zero() {
            None
        } else {
            Some(NonZeroScalar { inner: s })
        }
    }

    /// A value that meets the invariant of the type stands for a residue
    /// other than 0.
    pub proof fn lemma_nonzero(self)
        requires
            self.nonzero(),
        ensures
            0 < self@ < group_order(),
    {
    }

    /// The scalar itself.
    pub fn get(&self) -> (r: Scalar)
        ensures
            r@ == self@,
            r@ != 0,
    {
        proof {
            use_type_invariant(self);
        }
        self.inner
    }

    /// Draws a scalar other than 0 from the operating system's randomness
    /// source: the residue that comes back lies between 1 and the group
    /// order less 1. Which one it is depends on the source alone.
    pub fn random(rng: &mut rand_core::OsRng) -> (r: NonZeroScalar)
        ensures
            0 < r@ < group_order(),
    {
        NonZeroScalar { inner: Scalar::random(rng) }
    }
}

impl PartialEq for NonZeroScalar {
    fn eq(&self, other: &NonZeroScalar) -> (r: bool) {
        self.inner.equals(&other.inner)
    }
}

impl vstd::std_specs::cmp::PartialEqSpecImpl for NonZeroScalar {
    open spec fn obeys_eq_spec() -> bool {
        true
    }

    open spec fn eq_spec(&self, other: &NonZeroScalar) -> bool {
        self@ == other@
    }
}

impl Eq for NonZeroScalar {

}

/// A byte string of zeros denotes 0.
pub proof fn lemma_be_value_zero(s: Seq<u8>)
    requires
        forall|k: int| 0 <= k < s.len() ==> s[k] == 0,
    ensures
        be_value(s) == 0,
    decreases s.len(),
{
    if s.len() > 0 {
        lemma_be_value_zero(s.drop_last());
    }
}

/// A byte string with a byte other than 0 denotes a positive integer.
pub proof fn lemma_be_value_nonzero(s: Seq<u8>, i: int)
    requires
        0 <= i < s.len(),
        s[i] != 0,
    ensures
        be_value(s) > 0,
    decreases s.len(),
{
    if i < s.len() - 1 {
        lemma_be_value_nonzero(s.drop_last(), i);
    }
}

/// Two byte strings of one length that differ in a byte denote different
/// integers.
pub proof fn lemma_be_value_differs(s: Seq<u8>, t: Seq<u8>, i: int)
    requires
        s.len() == t.len(),
        0 <= i < s.len(),
        s[i] != t[i],
    ensures
        be_value(s) != be_value(t),
    decreases s.len(),
{
    if i < s.len() - 1 {
        lemma_be_value_differs(s.drop_last(), t.drop_last(), i);
    }
}

/// Calls `generic_ec::Scalar::from_be_bytes`, which accepts exactly the
/// encodings of integers below the group order and returns that residue. The
/// scalar that comes back is encoded with `to_be_bytes`, as in every wrapper
/// of this file: the bytes denote the residue itself, which is below the
/// group order.
#[verifier::external_body]
fn scalar_decode(bytes: &[u8; 32]) -> (r: Result<Scalar, generic_ec::errors::InvalidScalar>)
    ensures
        r is Ok <==> be_value(bytes@) < group_order(),
        r matches Ok(s) ==> s.canonical() && s@ == be_value(bytes@),
{
    let x = generic_ec::Scalar::<Secp256k1>::from_be_bytes(bytes)?;
    let mut out = [0u8; 32];
    out.copy_from_slice(x.to_be_bytes().as_bytes());
    Ok(Scalar { bytes: out })
}

/// Calls `generic_ec`'s `+` on two scalars: the sum of the residues, reduced
/// modulo the group order.
#[verifier::external_body]
fn scalar_add(a: &Scalar, b: &Scalar) -> (r: Scalar)
    ensures
        r.canonical(),
        r@ == fadd(a@, b@),
{
    let x = generic_ec::Scalar::<Secp256k1>::from_be_bytes_mod_order(a.bytes);
    let y = generic_ec::Scalar::<Secp256k1>::from_be_bytes_mod_order(b.bytes);
    let mut out = [0u8; 32];
    out.copy_from_slice((x + y).to_be_bytes().as_bytes());
    Scalar { bytes: out }
}

/// Calls `generic_ec`'s `-` on two scalars: the difference of the residues,
/// reduced modulo the group order.
#[verifier::external_body]
fn scalar_sub(a: &Scalar, b: &Scalar) -> (r: Scalar)
    ensures
        r.canonical(),
        r@ == fsub(a@, b@),
{
    let x = generic_ec::Scalar::<Secp256k1>::from_be_bytes_mod_order(a.bytes);
    let y = generic_ec::Scalar::<Secp256k1>::from_be_bytes_mod_order(b.bytes);
    let mut out = [0u8; 32];
    out.copy_from_slice((x - y).to_be_bytes().as_bytes());
    Scalar { bytes: out }
}

/// Calls `generic_ec`'s `*` on two scalars: the product of the residues,
/// reduced modulo the group order.
#[verifier::external_body]
fn scalar_mul(a: &Scalar, b: &Scalar) -> (r: Scalar)
    ensures
        r.canonical(),
        r@ == fmul(a@, b@),
{
    let x = generic_ec::Scalar::<Secp256k1>::from_be_bytes_mod_order(a.bytes);
    let y = generic_ec::Scalar::<Secp256k1>::from_be_bytes_mod_order(b.bytes);
    let mut out = [0u8; 32];
    out.copy_from_slice((x * y).to_be_bytes().as_bytes());
    Scalar { bytes: out }
}

/// Calls `generic_ec::Scalar::invert`, which returns `None` for 0 and
/// otherwise the scalar whose product with the argument is 1.
#[verifier::external_body]
fn scalar_invert(a: &Scalar) -> (r: Option<Scalar>)
    ensures
        a@ == 0 ==> r is None,
        a@ != 0 ==> r is Some,
        r matches Some(v) ==> v.canonical() && is_inverse(a@, v@),
{
    let x = generic_ec::Scalar::<Secp256k1>::from_be_bytes_mod_order(a.bytes);
    let inv = x.invert()?;
    let mut out = [0u8; 32];
    out.copy_from_slice(inv.to_be_bytes().as_bytes());
    Some(Scalar { bytes: out })
}

/// Calls `generic_ec::NonZero::<Scalar>::random`, which samples until the
/// scalar is not 0. Nothing else is known of the scalar that comes back. The
/// call panics if the randomness source fails.
#[verifier::external_body]
fn scalar_random(rng: &mut rand_core::OsRng) -> (r: Scalar)
    ensures
        r.canonical(),
        r@ != 0,
{
    let x = generic_ec::NonZero::<generic_ec::Scalar<Secp256k1>>::random(rng);
    let mut out = [0u8; 32];
    out.copy_from_slice(x.to_be_bytes().as_bytes());
    Scalar { bytes: out }
}

/// Calls `generic_ec_zkp::polynomial::Polynomial::sample_with_const_term`,
/// which returns the given constant term followed by `degree` coefficients
/// drawn at random. Nothing is known of the coefficients drawn. The call
/// panics if the randomness source fails.
#[verifier::external_body]
fn sample_polynomial(rng: &mut rand_core::OsRng, degree: usize, const_term: &Scalar) -> (r: Vec<
    Scalar,
>)
    requires
        degree < usize::MAX,
    ensures
        r.len() == degree + 1,
        r@[0]@ == const_term@,
        forall|i: int| 0 <= i < r.len() ==> (#[trigger] r@[i]).canonical(),
{
    let c = generic_ec::Scalar::<Secp256k1>::from_be_bytes_mod_order(const_term.bytes);
    let f = generic_ec_zkp::polynomial::Polynomial::sample_with_const_term(rng, degree, c);
    let mut coefs = Vec::new();
    for a in f.into_coefs() {
        let mut out = [0u8; 32];
        out.copy_from_slice(a.to_be_bytes().as_bytes());
        coefs.push(Scalar { bytes: out });
    }
    coefs
}

} // verus!
