//! Points of the secp256k1 group.
//!
//! A [`Point`] holds the 33-byte compressed encoding of a group element; the
//! identity is encoded as 33 zero bytes. The group law is computed by
//! `generic_ec`. What it returns is not written out here: each operation has a
//! name, and the contracts say which name applies to which arguments.

use vstd::prelude::*;
use generic_ec::curves::Secp256k1;
use crate::field::group_order;
use crate::scalar::{be_value, Scalar};

verus! {

/// `generic_ec::errors::InvalidPoint`, the error of decoding a point. It
/// holds nothing.
#[verifier::external_type_specification]
#[verifier::external_body]
pub struct ExInvalidPoint(generic_ec::errors::InvalidPoint);

/// The compressed encoding of the point that `bytes` decode to with
/// `generic_ec::Point::from_bytes`, or `None` where they decode to no point.
pub uninterp spec fn decode_point(bytes: Seq<u8>) -> Option<Seq<u8>>;

/// The compressed encoding of the group generator multiplied by the scalar
/// that stands for `k`.
pub uninterp spec fn generator_mul(k: int) -> Seq<u8>;

/// The compressed encoding of the sum of the points encoded by `a` and `b`.
pub uninterp spec fn point_add(a: Seq<u8>, b: Seq<u8>) -> Seq<u8>;

/// The compressed encoding of the point encoded by `p` multiplied by the
/// scalar that stands for `k`.
pub uninterp spec fn point_mul(k: int, p: Seq<u8>) -> Seq<u8>;

/// A group element, held as its compressed encoding.
#[derive(Clone, Copy, Debug)]
pub struct Point {
    bytes: [u8; 33],
}

impl Point {
    /// The stored bytes are the encoding of a point.
    #[verifier::type_invariant]
    pub closed spec fn valid(self) -> bool {
        decode_point(self.bytes@) == Some(self.bytes@)
    }

    /// The compressed encoding of the point.
    pub closed spec fn view(self) -> Seq<u8> {
        self.bytes@
    }

    /// Decodes a compressed encoding; `None` where the bytes encode no point.
    pub fn from_bytes(bytes: &[u8; 33]) -> (r: Option<Point>)
        ensures
            r is Some <==> decode_point(bytes@) is Some,
            r matches Some(p) ==> decode_point(bytes@) == Some(p@),
    {
        match point_decode(bytes) {
            Ok(p) => Some(p),
            Err(_) => None,
        }
    }

    /// The compressed encoding of the point.
    pub fn to_bytes(&self) -> (r: [u8; 33])
        ensures
            r@ == self@,
    {
        self.bytes
    }

    /// The generator multiplied by `k`.
    pub fn generator_mul(k: &Scalar) -> (r: Point)
        ensures
            r@ == generator_mul(k@),
    {
        let kb = k.to_be_bytes();
        point_generator_mul(&kb)
    }

    /// The sum of two points.
    pub fn add(&self, rhs: &Point) -> (r: Point)
        ensures
            r@ == point_add(self@, rhs@),
    {
        proof {
            use_type_invariant(self);
            use_type_invariant(rhs);
        }
        point_sum(self, rhs)
    }

    /// The point multiplied by `k`.
    pub fn mul(&self, k: &Scalar) -> (r: Point)
        ensures
            r@ == point_mul(k@, self@),
    {
        proof {
            use_type_invariant(self);
        }
        let kb = k.to_be_bytes();
        point_scale(&kb, self)
    }

    /// Whether two values are the same group element.
    pub fn equals(&self, other: &Point) -> (r: bool)
        ensures
            r == (self@ == other@),
    {
        let mut i: usize = 0;
        while i < 33
            invariant
                0 <= i <= 33,
                forall|k: int| 0 <= k < i ==> self.bytes@[k] == other.bytes@[k],
            decreases 33 - i,
        {
            if self.bytes[i] != other.bytes[i] {
                return false;
            }
            i += 1;
        }
        proof {
            assert(self.bytes@ =~= other.bytes@);
        }
        true
    }
}

impl PartialEq for Point {
    fn eq(&self, other: &Point) -> (r: bool) {
        self.equals(other)
    }
}

impl vstd::std_specs::cmp::PartialEqSpecImpl for Point {
    open spec fn obeys_eq_spec() -> bool {
        true
    }

    open spec fn eq_spec(&self, other: &Point) -> bool {
        self@ == other@
    }
}

impl Eq for Point {

}

/// Calls `generic_ec::Point::from_bytes` and encodes what it returns: the
/// result is the named decoding of the bytes, an error where there is none.
/// The point that comes back is encoded with `to_bytes(true)`, as in every
/// wrapper of this file: such bytes decode to the point that they encode.
#[verifier::external_body]
fn point_decode(bytes: &[u8; 33]) -> (r: Result<Point, generic_ec::errors::InvalidPoint>)
    ensures
        r is Ok <==> decode_point(bytes@) is Some,
        r matches Ok(p) ==> p.valid() && decode_point(bytes@) == Some(p@),
{
    let p = generic_ec::Point::<Secp256k1>::from_bytes(bytes)?;
    let mut out = [0u8; 33];
    out.copy_from_slice(p.to_bytes(true).as_bytes());
    Ok(Point { bytes: out })
}

/// Reduces the big-endian integer `k` modulo the group order and calls
/// `generic_ec`'s `Generator * Scalar`: the result is the named multiple of the
/// generator.
#[verifier::external_body]
fn point_generator_mul(k: &[u8; 32]) -> (r: Point)
    ensures
        r.valid(),
        r@ == generator_mul(be_value(k@) as int % group_order()),
{
    let x = generic_ec::Scalar::<Secp256k1>::from_be_bytes_mod_order(k);
    let p = generic_ec::Point::<Secp256k1>::generator() * x;
    let mut out = [0u8; 33];
    out.copy_from_slice(p.to_bytes(true).as_bytes());
    Point { bytes: out }
}

/// Calls `generic_ec`'s `Point + Point`: the result is the named sum.
#[verifier::external_body]
fn point_sum(a: &Point, b: &Point) -> (r: Point)
    requires
        a.valid(),
        b.valid(),
    ensures
        r.valid(),
        r@ == point_add(a@, b@),
{
    let p = generic_ec::Point::<Secp256k1>::from_bytes(a.bytes).unwrap_or(generic_ec::Point::zero());
    let q = generic_ec::Point::<Secp256k1>::from_bytes(b.bytes).unwrap_or(generic_ec::Point::zero());
    let mut out = [0u8; 33];
    out.copy_from_slice((p + q).to_bytes(true).as_bytes());
    Point { bytes: out }
}

/// Reduces the big-endian integer `k` modulo the group order and calls
/// `generic_ec`'s `Scalar * Point`: the result is the named multiple.
#[verifier::external_body]
fn point_scale(k: &[u8; 32], a: &Point) -> (r: Point)
    requires
        a.valid(),
    ensures
        r.valid(),
        r@ == point_mul(be_value(k@) as int % group_order(), a@),
{
    let x = generic_ec::Scalar::<Secp256k1>::from_be_bytes_mod_order(k);
    let p = generic_ec::Point::<Secp256k1>::from_bytes(a.bytes).unwrap_or(generic_ec::Point::zero());
    let mut out = [0u8; 33];
    out.copy_from_slice((x * p).to_bytes(true).as_bytes());
    Point { bytes: out }
}

} // verus!
