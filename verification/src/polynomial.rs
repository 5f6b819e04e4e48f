//! Polynomials over the scalar field and Lagrange interpolation at zero.

use vstd::prelude::*;
use crate::field::{fadd, finv, fmul, fsub, invertible, lemma_finv_is};
use crate::scalar::Scalar;

verus! {

/// The residues that a list of scalars stands for.
pub open spec fn scalar_values(v: Seq<Scalar>) -> Seq<int> {
    Seq::new(v.len(), |i: int| v[i]@)
}

/// Value at `x` of the polynomial whose coefficient of `x^i` is `coefs[i]`.
pub open spec fn poly_eval(coefs: Seq<int>, x: int) -> int
    decreases coefs.len(),
{
    if coefs.len() == 0 {
        0
    } else {
        fadd(fmul(poly_eval(coefs.drop_first(), x), x), coefs[0])
    }
}

/// The factor that the point `xs[m]` contributes to the Lagrange coefficient
/// of `xs[j]` at zero: `xs[m] / (xs[m] - xs[j])`.
pub open spec fn lagrange_factor(xs: Seq<int>, j: int, m: int) -> int {
    fmul(xs[m], finv(fsub(xs[m], xs[j])))
}

/// Product of the Lagrange factors of the points `xs[m]` with `m < len` and
/// `m != j`.
pub open spec fn lagrange_prefix(xs: Seq<int>, j: int, len: nat) -> int
    decreases len,
{
    if len == 0 {
        1
    } else if len - 1 == j {
        lagrange_prefix(xs, j, (len - 1) as nat)
    } else {
        fmul(lagrange_prefix(xs, j, (len - 1) as nat), lagrange_factor(xs, j, len - 1))
    }
}

/// The Lagrange coefficient of `xs[j]` for interpolation at zero over the
/// points `xs`: the product of `xs[m] / (xs[m] - xs[j])` over all `m != j`.
pub open spec fn lagrange_at_zero(xs: Seq<int>, j: int) -> int {
    lagrange_prefix(xs, j, xs.len())
}

/// The residues `xs` are pairwise different.
pub open spec fn pairwise_distinct(xs: Seq<int>) -> bool {
    forall|a: int, b: int| 0 <= a < xs.len() && 0 <= b < xs.len() && a != b ==> xs[a] != xs[b]
}

/// Every difference of two of the residues `xs` has an inverse.
pub open spec fn pairwise_invertible(xs: Seq<int>) -> bool {
    forall|a: int, b: int|
        0 <= a < xs.len() && 0 <= b < xs.len() && a != b ==> invertible(
            #[trigger] fsub(xs[a], xs[b]),
        )
}

/// The residues `xs` can serve as the points of an interpolation: they are
/// pairwise different, and every difference of two of them has an inverse.
/// Modulo a prime the second follows from the first.
pub open spec fn interpolation_points(xs: Seq<int>) -> bool {
    pairwise_distinct(xs) && pairwise_invertible(xs)
}

/// Evaluates a polynomial, given by its coefficients from the constant term
/// upwards, at `x`.
pub fn evaluate(coefs: &Vec<Scalar>, x: &Scalar) -> (r: Scalar)
    ensures
        r@ == poly_eval(scalar_values(coefs@), x@),
{
    let mut acc = Scalar::zero();
    let mut i: usize = coefs.len();
    proof {
        assert(scalar_values(coefs@).subrange(i as int, coefs.len() as int).len() == 0);
    }
    while i > 0
        invariant
            0 <= i <= coefs.len(),
            acc@ == poly_eval(scalar_values(coefs@).subrange(i as int, coefs.len() as int), x@),
        decreases i,
    {
        i -= 1;
        let next = acc.mul(x).add(&coefs[i]);
        proof {
            let all = scalar_values(coefs@);
            let tail = all.subrange(i as int, coefs.len() as int);
            assert(tail.drop_first() =~= all.subrange(i as int + 1, coefs.len() as int));
            assert(tail[0] == coefs@[i as int]@);
        }
        acc = next;
    }
    proof {
        let all = scalar_values(coefs@);
        assert(all.subrange(0, coefs.len() as int) =~= all);
    }
    acc
}

/// The Lagrange coefficient of `xs[j]` for interpolation at zero; `None` where
/// `j` is out of range or another point equals `xs[j]`.
///
/// The function of this name in `generic_ec_zkp` also returns `None` where
/// the coefficient is zero, which it is where another point is zero. This one
/// returns the zero coefficient. Key shares have no evaluation point zero, so
/// that for them the two agree.
pub fn lagrange_coefficient_at_zero(j: usize, xs: &Vec<Scalar>) -> (r: Option<Scalar>)
    ensures
        r is Some <==> j < xs.len() && forall|m: int|
            0 <= m < xs.len() && m != j ==> xs@[m]@ != xs@[j as int]@,
        r matches Some(l) ==> l@ == lagrange_at_zero(scalar_values(xs@), j as int),
        r is Some ==> forall|m: int|
            0 <= m < xs.len() && m != j ==> invertible(
                #[trigger] fsub(scalar_values(xs@)[m], scalar_values(xs@)[j as int]),
            ),
{
    if j >= xs.len() {
        return None;
    }
    let ghost vals = scalar_values(xs@);
    let mut acc = Scalar::one();
    let mut m: usize = 0;
    while m < xs.len()
        invariant
            0 <= m <= xs.len(),
            j < xs.len(),
            vals == scalar_values(xs@),
            acc@ == lagrange_prefix(vals, j as int, m as nat),
            forall|k: int| 0 <= k < m && k != j ==> xs@[k]@ != xs@[j as int]@,
            forall|k: int| 0 <= k < m && k != j ==> invertible(#[trigger] fsub(vals[k], vals[j as int])),
        decreases xs.len() - m,
    {
        if m != j {
            let d = xs[m].sub(&xs[j]);
            match d.invert() {
                None => {
                    return None;
                },
                Some(inv) => {
                    proof {
                        lemma_finv_is(d@, inv@);
                    }
                    acc = acc.mul(&xs[m].mul(&inv));
                },
            }
        }
        m += 1;
    }
    Some(acc)
}

} // verus!
