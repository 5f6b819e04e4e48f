//! Arithmetic modulo the order of the secp256k1 group, as specification
//! functions over the integers.

use vstd::prelude::*;
use vstd::arithmetic::div_mod::{lemma_mul_mod_noop_right, lemma_small_mod};

verus! {

/// The order of the secp256k1 group: scalars are integers modulo this number.
pub open spec fn group_order() -> int {
    0xFFFFFFFFFFFFFFFFFFFFFFFFFFFFFFFEBAAEDCE6AF48A03BBFD25E8CD0364141int
}

/// Sum of two residues.
pub open spec fn fadd(a: int, b: int) -> int {
    (a + b) % group_order()
}

/// Difference of two residues.
pub open spec fn fsub(a: int, b: int) -> int {
    (a - b) % group_order()
}

/// Product of two residues.
pub open spec fn fmul(a: int, b: int) -> int {
    (a * b) % group_order()
}

/// `r` is the reduced multiplicative inverse of `a` modulo the group order.
pub open spec fn is_inverse(a: int, r: int) -> bool {
    0 <= r < group_order() && (a * r) % group_order() == 1
}

/// `a` has a multiplicative inverse modulo the group order.
pub open spec fn invertible(a: int) -> bool {
    exists|r: int| is_inverse(a, r)
}

/// The multiplicative inverse of `a`, where it has one.
pub open spec fn finv(a: int) -> int {
    choose|r: int| is_inverse(a, r)
}

/// A residue has at most one reduced inverse.
pub proof fn lemma_inverse_unique(a: int, r1: int, r2: int)
    requires
        is_inverse(a, r1),
        is_inverse(a, r2),
    ensures
        r1 == r2,
{
    let q = group_order();
    lemma_mul_mod_noop_right(r1, a * r2, q);
    lemma_mul_mod_noop_right(r2, a * r1, q);
    assert(r1 * (a * r2) == r2 * (a * r1)) by (nonlinear_arith);
    lemma_small_mod(r1 as nat, q as nat);
    lemma_small_mod(r2 as nat, q as nat);
}

/// A reduced inverse of `a` is the inverse that `finv` names.
pub proof fn lemma_finv_is(a: int, r: int)
    requires
        is_inverse(a, r),
    ensures
        invertible(a),
        finv(a) == r,
{
    lemma_inverse_unique(a, finv(a), r);
}

} // verus!
