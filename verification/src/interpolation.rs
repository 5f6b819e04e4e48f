//! Why interpolation at zero gives back the constant term of a polynomial.
//!
//! The proofs work with congruences modulo the group order. They use that a
//! difference of two interpolation points has an inverse, and nothing else of
//! the group order.

use vstd::prelude::*;
use vstd::arithmetic::div_mod::{
    lemma_add_mod_noop, lemma_fundamental_div_mod, lemma_mod_multiples_basic,
    lemma_mul_mod_noop_right, lemma_small_mod,
};
use crate::field::{fadd, finv, fmul, fsub, group_order, invertible};
use crate::polynomial::{lagrange_at_zero, lagrange_prefix, pairwise_invertible, poly_eval};
use crate::reconstruct::{interpolate_at_zero, interpolation_prefix};

verus! {

/// `a` and `b` are congruent modulo the group order.
pub open spec fn cong(a: int, b: int) -> bool {
    (a - b) % group_order() == 0
}

/// A number is congruent to its residue.
pub proof fn lemma_cong_mod(a: int)
    ensures
        cong(a % group_order(), a),
        cong(a, a % group_order()),
{
    let q = group_order();
    lemma_fundamental_div_mod(a, q);
    lemma_mod_multiples_basic(-(a / q), q);
    lemma_mod_multiples_basic(a / q, q);
    assert(a % q - a == (-(a / q)) * q) by (nonlinear_arith)
        requires
            a == q * (a / q) + a % q,
    ;
    assert(a - a % q == (a / q) * q) by (nonlinear_arith)
        requires
            a == q * (a / q) + a % q,
    ;
}

/// Congruence is symmetric.
pub proof fn lemma_cong_sym(a: int, b: int)
    requires
        cong(a, b),
    ensures
        cong(b, a),
{
    lemma_cong_replace(-1, a, b, b);
    assert(-1 * a + b == b - a);
    assert(-1 * b + b == 0);
    assert((b - a - 0) == b - a);
}

/// Congruence is transitive.
pub proof fn lemma_cong_trans(a: int, b: int, c: int)
    requires
        cong(a, b),
        cong(b, c),
    ensures
        cong(a, c),
{
    lemma_add_mod_noop(a - b, b - c, group_order());
}

/// Replacing a factor of a summand by a congruent number keeps the
/// congruence class: `c * t + r` is congruent to `c * u + r`.
pub proof fn lemma_cong_replace(c: int, t: int, u: int, r: int)
    requires
        cong(t, u),
    ensures
        cong(c * t + r, c * u + r),
{
    lemma_mul_mod_noop_right(c, t - u, group_order());
    assert(c * t + r - (c * u + r) == c * (t - u)) by (nonlinear_arith);
    assert(c * 0 == 0);
}

/// Congruent residues are equal.
pub proof fn lemma_cong_reduced(a: int, b: int)
    requires
        cong(a, b),
        0 <= a < group_order(),
        0 <= b < group_order(),
    ensures
        a == b,
{
    let q = group_order();
    if a >= b {
        lemma_small_mod((a - b) as nat, q as nat);
    } else {
        lemma_cong_sym(a, b);
        lemma_small_mod((b - a) as nat, q as nat);
    }
}

/// The field operations are congruent to the operations on integers.
pub proof fn lemma_cong_ops(a: int, b: int)
    ensures
        cong(fadd(a, b), a + b),
        cong(fsub(a, b), a - b),
        cong(fmul(a, b), a * b),
{
    lemma_cong_mod(a + b);
    lemma_cong_mod(a - b);
    lemma_cong_mod(a * b);
}

/// A number with an inverse, multiplied by it, is congruent to 1.
pub proof fn lemma_cong_inverse(d: int)
    requires
        invertible(d),
    ensures
        cong(d * finv(d), 1),
{
    let q = group_order();
    lemma_cong_mod(d * finv(d));
}

/// Products of congruent numbers are congruent.
pub proof fn lemma_cong_mul(a: int, a2: int, b: int, b2: int)
    requires
        cong(a, a2),
        cong(b, b2),
    ensures
        cong(a * b, a2 * b2),
{
    lemma_cong_replace(b, a, a2, 0);
    lemma_cong_replace(a2, b, b2, 0);
    assert(b * a + 0 == a * b) by (nonlinear_arith);
    assert(b * a2 + 0 == a2 * b) by (nonlinear_arith);
    lemma_cong_trans(a * b, a2 * b, a2 * b2);
}

/// Sums of congruent numbers are congruent.
pub proof fn lemma_cong_add(a: int, a2: int, b: int, b2: int)
    requires
        cong(a, a2),
        cong(b, b2),
    ensures
        cong(a + b, a2 + b2),
{
    lemma_cong_replace(1, a, a2, b);
    lemma_cong_replace(1, b, b2, a2);
    assert(1 * b + a2 == a2 + b);
    assert(1 * b2 + a2 == a2 + b2);
    lemma_cong_trans(a + b, a2 + b, a2 + b2);
}

/// Differences of congruent numbers are congruent.
pub proof fn lemma_cong_sub(a: int, a2: int, b: int, b2: int)
    requires
        cong(a, a2),
        cong(b, b2),
    ensures
        cong(a - b, a2 - b2),
{
    lemma_cong_replace(1, a, a2, -b);
    lemma_cong_replace(-1, b, b2, a2);
    assert(-1 * b + a2 == a2 - b);
    assert(-1 * b2 + a2 == a2 - b2);
    lemma_cong_trans(a - b, a2 - b, a2 - b2);
}

/// Every number is congruent to itself.
pub proof fn lemma_cong_refl(a: int)
    ensures
        cong(a, a),
{
}

/// The inverse of a difference, multiplied by the difference, is congruent
/// to 1.
pub proof fn lemma_cong_inverse_of_difference(a: int, b: int)
    requires
        invertible(fsub(a, b)),
    ensures
        cong(finv(fsub(a, b)) * (a - b), 1),
{
    let d = fsub(a, b);
    let u = finv(d);
    lemma_cong_ops(a, b);
    lemma_cong_inverse(d);
    lemma_cong_refl(u);
    lemma_cong_sym(d, a - b);
    lemma_cong_mul(u, u, a - b, d);
    assert(u * d == d * u) by (nonlinear_arith);
    lemma_cong_trans(u * (a - b), u * d, 1);
}

/// Multiplying the first `k` points in turn by the next, `xs[k]`, and
/// dividing by its distance to `xs[j]` extends the coefficient of `xs[j]` by
/// one point.
pub proof fn lemma_prefix_step(xs: Seq<int>, j: int, k: int)
    requires
        0 <= j < xs.len(),
        0 <= k < xs.len(),
        j != k,
        invertible(fsub(xs[k], xs[j])),
    ensures
        cong(
            lagrange_prefix(xs, j, (k + 1) as nat),
            lagrange_prefix(xs, j, k as nat) * (xs[k] * finv(fsub(xs[k], xs[j]))),
        ),
        cong(
            lagrange_prefix(xs, j, (k + 1) as nat) * (xs[k] - xs[j]),
            xs[k] * lagrange_prefix(xs, j, k as nat),
        ),
{
    let b = xs[k];
    let x = xs[j];
    let y = b - x;
    let u = finv(fsub(b, x));
    let f = fmul(b, u);
    let l0 = lagrange_prefix(xs, j, k as nat);
    let l1 = lagrange_prefix(xs, j, (k + 1) as nat);
    assert(l1 == fmul(l0, f));
    lemma_cong_ops(l0, f);
    lemma_cong_ops(b, u);
    lemma_cong_refl(l0);
    lemma_cong_mul(l0, l0, f, b * u);
    lemma_cong_trans(l1, l0 * f, l0 * (b * u));
    // l1 * y = l0 * b * (u * y), and u * y is congruent to 1
    lemma_cong_refl(y);
    lemma_cong_mul(l1, l0 * (b * u), y, y);
    assert((l0 * (b * u)) * y == (l0 * b) * (u * y)) by (nonlinear_arith);
    lemma_cong_inverse_of_difference(b, x);
    lemma_cong_replace(l0 * b, u * y, 1, 0);
    assert((l0 * b) * 1 + 0 == b * l0) by (nonlinear_arith);
    lemma_cong_trans(l1 * y, (l0 * b) * (u * y), b * l0);
}

/// Sum over `j < len` of the coefficient of `xs[j]` among the first `k`
/// points.
pub open spec fn coefficient_sum(xs: Seq<int>, k: nat, len: nat) -> int
    decreases len,
{
    if len == 0 {
        0
    } else {
        coefficient_sum(xs, k, (len - 1) as nat) + lagrange_prefix(xs, len - 1, k)
    }
}

/// Sum over `j < len` of the coefficient of `xs[j]` among the first `k`
/// points, divided by the distance of `xs[i]` to `xs[j]`.
pub open spec fn quotient_sum(xs: Seq<int>, i: int, k: nat, len: nat) -> int
    decreases len,
{
    if len == 0 {
        0
    } else {
        quotient_sum(xs, i, k, (len - 1) as nat) + lagrange_prefix(xs, len - 1, k) * finv(
            fsub(xs[i], xs[len - 1]),
        )
    }
}

/// Sum over `j < len` of the value of the polynomial `g` at `xs[j]`,
/// multiplied by the coefficient of `xs[j]` among the first `k` points.
pub open spec fn value_sum(xs: Seq<int>, g: Seq<int>, k: nat, len: nat) -> int
    decreases len,
{
    if len == 0 {
        0
    } else {
        value_sum(xs, g, k, (len - 1) as nat) + lagrange_prefix(xs, len - 1, k) * poly_eval(
            g,
            xs[len - 1],
        )
    }
}

/// With one more point `xs[k]`, the coefficients of the points before it add
/// up to `xs[k]` times their sum of quotients by the distance to `xs[k]`.
pub proof fn lemma_coefficient_sum_step(xs: Seq<int>, k: nat, len: nat)
    requires
        pairwise_invertible(xs),
        len <= k < xs.len(),
    ensures
        cong(coefficient_sum(xs, k + 1, len), xs[k as int] * quotient_sum(xs, k as int, k, len)),
    decreases len,
{
    if len > 0 {
        let j = (len - 1) as int;
        let b = xs[k as int];
        let u = finv(fsub(b, xs[j]));
        let l0 = lagrange_prefix(xs, j, k);
        let l1 = lagrange_prefix(xs, j, k + 1);
        let c0 = coefficient_sum(xs, k + 1, (len - 1) as nat);
        let t0 = quotient_sum(xs, k as int, k, (len - 1) as nat);
        lemma_coefficient_sum_step(xs, k, (len - 1) as nat);
        lemma_prefix_step(xs, j, k as int);
        lemma_cong_add(c0, b * t0, l1, l0 * (b * u));
        assert(b * t0 + l0 * (b * u) == b * (t0 + l0 * u)) by (nonlinear_arith);
    }
}

/// The quotients by the distances to two points differ by the quotient by
/// both: `(a - b) / ((a - x) (b - x)) = 1 / (b - x) - 1 / (a - x)`.
pub proof fn lemma_partial_fraction(a: int, b: int, x: int)
    requires
        invertible(fsub(a, x)),
        invertible(fsub(b, x)),
    ensures
        cong(
            (a - b) * (finv(fsub(b, x)) * finv(fsub(a, x))),
            finv(fsub(b, x)) - finv(fsub(a, x)),
        ),
{
    let u = finv(fsub(b, x));
    let v = finv(fsub(a, x));
    let p = a - x;
    let r = b - x;
    lemma_cong_inverse_of_difference(a, x);
    lemma_cong_inverse_of_difference(b, x);
    assert((a - b) * (u * v) == u * (v * p) - v * (u * r)) by (nonlinear_arith)
        requires
            p == a - x,
            r == b - x,
    ;
    lemma_cong_replace(u, v * p, 1, 0);
    lemma_cong_replace(v, u * r, 1, 0);
    lemma_cong_sub(u * (v * p) + 0, u * 1 + 0, v * (u * r) + 0, v * 1 + 0);
}

/// With one more point `xs[k]`, the quotients by the distance to a later
/// point `xs[i]` change as partial fractions say.
pub proof fn lemma_quotient_sum_step(xs: Seq<int>, i: int, k: nat, len: nat)
    requires
        pairwise_invertible(xs),
        len <= k < i < xs.len(),
    ensures
        cong(
            (xs[i] - xs[k as int]) * quotient_sum(xs, i, k + 1, len),
            xs[k as int] * (quotient_sum(xs, k as int, k, len) - quotient_sum(xs, i, k, len)),
        ),
    decreases len,
{
    if len > 0 {
        let j = (len - 1) as int;
        let a = xs[i];
        let b = xs[k as int];
        let x = xs[j];
        let u = finv(fsub(b, x));
        let v = finv(fsub(a, x));
        let l0 = lagrange_prefix(xs, j, k);
        let l1 = lagrange_prefix(xs, j, k + 1);
        let s0 = quotient_sum(xs, i, k + 1, (len - 1) as nat);
        let tb = quotient_sum(xs, k as int, k, (len - 1) as nat);
        let ta = quotient_sum(xs, i, k, (len - 1) as nat);
        let d = a - b;
        lemma_quotient_sum_step(xs, i, k, (len - 1) as nat);
        lemma_prefix_step(xs, j, k as int);
        // the new term: d * (l1 * v) is congruent to b * (l0 * u - l0 * v)
        lemma_cong_refl(v);
        lemma_cong_mul(l1, l0 * (b * u), v, v);
        lemma_cong_replace(d, l1 * v, (l0 * (b * u)) * v, 0);
        assert(d * ((l0 * (b * u)) * v) + 0 == (l0 * b) * (d * (u * v))) by (nonlinear_arith);
        lemma_partial_fraction(a, b, x);
        lemma_cong_replace(l0 * b, d * (u * v), u - v, 0);
        assert((l0 * b) * (u - v) + 0 == b * (l0 * u - l0 * v)) by (nonlinear_arith);
        lemma_cong_trans(d * (l1 * v) + 0, (l0 * b) * (d * (u * v)), b * (l0 * u - l0 * v));
        // add it to the sum of the terms before
        lemma_cong_add(d * s0, b * (tb - ta), d * (l1 * v), b * (l0 * u - l0 * v));
        assert(d * s0 + d * (l1 * v) == d * (s0 + l1 * v)) by (nonlinear_arith);
        assert(b * (tb - ta) + b * (l0 * u - l0 * v) == b * ((tb + l0 * u) - (ta + l0 * v)))
            by (nonlinear_arith);
        assert(quotient_sum(xs, i, k + 1, len) == s0 + l1 * v);
        assert(quotient_sum(xs, k as int, k, len) == tb + l0 * u);
        assert(quotient_sum(xs, i, k, len) == ta + l0 * v);
    } else {
        assert((xs[i] - xs[k as int]) * 0 == 0);
        assert(xs[k as int] * (0 - 0) == 0);
    }
}

/// A number that a number with an inverse multiplies to itself is congruent
/// to 1: from `d * x = d` follows `x = 1`.
pub proof fn lemma_cancel(a: int, b: int, x: int)
    requires
        invertible(fsub(a, b)),
        cong((a - b) * x, a - b),
    ensures
        cong(x, 1),
{
    let w = finv(fsub(a, b));
    let d = a - b;
    lemma_cong_inverse_of_difference(a, b);
    lemma_cong_replace(w, d * x, d, 0);
    assert(w * (d * x) + 0 == x * (w * d)) by (nonlinear_arith);
    lemma_cong_replace(x, w * d, 1, 0);
    lemma_cong_sym(x * (w * d) + 0, x * 1 + 0);
    lemma_cong_trans(x, x * (w * d), w * d);
    lemma_cong_trans(x, w * d, 1);
}

/// Interpolating `1 / (xs[i] - x)` over the first `k` points, for a later
/// point `xs[i]`: `xs[i]` times the sum of quotients and the product of the
/// factors of `xs[i]` add up to 1.
pub proof fn lemma_partition_at(xs: Seq<int>, i: int, k: nat)
    requires
        pairwise_invertible(xs),
        k <= i < xs.len(),
    ensures
        cong(xs[i] * quotient_sum(xs, i, k, k) + lagrange_prefix(xs, i, k), 1),
    decreases k,
{
    if k == 0 {
        assert(xs[i] * 0 == 0);
    } else {
        let m = (k - 1) as nat;
        let a = xs[i];
        let b = xs[m as int];
        let d = a - b;
        let w = finv(fsub(a, b));
        let ta = quotient_sum(xs, i, m, m);
        let tb = quotient_sum(xs, m as int, m, m);
        let wa = lagrange_prefix(xs, i, m);
        let wb = lagrange_prefix(xs, m as int, m);
        let wa1 = lagrange_prefix(xs, i, k);
        let s = quotient_sum(xs, i, k, m);
        let t1 = quotient_sum(xs, i, k, k);
        assert(lagrange_prefix(xs, m as int, k) == wb);
        assert(t1 == s + wb * w);
        lemma_quotient_sum_step(xs, i, m, m);
        lemma_partition_at(xs, m as int, m);
        lemma_partition_at(xs, i, m);
        lemma_prefix_step(xs, i, m as int);
        lemma_cong_inverse_of_difference(a, b);
        // d * (a * t1 + wa1) = a * (d * s) + (a * wb) * (w * d) - wa1 * (b - a)
        assert(d * (a * t1 + wa1) == d * (a * t1) + d * wa1) by (nonlinear_arith);
        assert(d * wa1 == -(wa1 * (b - a))) by (nonlinear_arith)
            requires
                d == a - b,
        ;
        assert(a * t1 == a * s + a * (wb * w)) by (nonlinear_arith)
            requires
                t1 == s + wb * w,
        ;
        assert(d * (a * s + a * (wb * w)) == d * (a * s) + d * (a * (wb * w)))
            by (nonlinear_arith);
        assert(d * (a * s) == a * (d * s)) by (nonlinear_arith);
        assert(d * (a * (wb * w)) == (a * wb) * (w * d)) by (nonlinear_arith);
        assert(d * (a * t1 + wa1) == a * (d * s) + (a * wb) * (w * d) - wa1 * (b - a));
        lemma_cong_replace(a, d * s, b * (tb - ta), 0);
        lemma_cong_replace(a * wb, w * d, 1, 0);
        lemma_cong_add(
            a * (d * s) + 0,
            a * (b * (tb - ta)) + 0,
            (a * wb) * (w * d) + 0,
            (a * wb) * 1 + 0,
        );
        lemma_cong_sub(
            a * (d * s) + (a * wb) * (w * d),
            a * (b * (tb - ta)) + (a * wb) * 1,
            wa1 * (b - a),
            b * wa,
        );
        // what came out is a * (b * tb + wb) - b * (a * ta + wa)
        assert(a * (b * (tb - ta)) + (a * wb) * 1 - b * wa == a * (b * tb + wb) - b * (a * ta
            + wa)) by (nonlinear_arith);
        lemma_cong_replace(a, b * tb + wb, 1, 0);
        lemma_cong_replace(b, a * ta + wa, 1, 0);
        lemma_cong_sub(
            a * (b * tb + wb) + 0,
            a * 1 + 0,
            b * (a * ta + wa) + 0,
            b * 1 + 0,
        );
        assert(a * 1 - b * 1 == d);
        lemma_cong_trans(
            d * (a * t1 + wa1),
            a * (b * tb + wb) - b * (a * ta + wa),
            d,
        );
        lemma_cancel(a, b, a * t1 + wa1);
    }
}

/// The coefficients of the first `k` points add up to 1.
pub proof fn lemma_partition_of_unity(xs: Seq<int>, k: nat)
    requires
        pairwise_invertible(xs),
        1 <= k <= xs.len(),
    ensures
        cong(coefficient_sum(xs, k, k), 1),
{
    let m = (k - 1) as nat;
    let b = xs[m as int];
    let tb = quotient_sum(xs, m as int, m, m);
    let wb = lagrange_prefix(xs, m as int, m);
    assert(lagrange_prefix(xs, m as int, k) == wb);
    lemma_coefficient_sum_step(xs, m, m);
    lemma_partition_at(xs, m as int, m);
    lemma_cong_refl(wb);
    lemma_cong_add(coefficient_sum(xs, k, m), b * tb, wb, wb);
    lemma_cong_trans(coefficient_sum(xs, k, k), b * tb + wb, 1);
}

/// Quotient of the polynomial `g`, divided by `x - b`.
pub open spec fn quotient(g: Seq<int>, b: int) -> Seq<int>
    decreases g.len(),
{
    if g.len() <= 1 {
        Seq::empty()
    } else {
        seq![poly_eval(g.drop_first(), b)] + quotient(g.drop_first(), b)
    }
}

/// Division of a polynomial by `x - b` leaves its value at `b`:
/// `g(x) = g(b) + (x - b) * quotient(x)`, and the quotient has one
/// coefficient less.
pub proof fn lemma_division(g: Seq<int>, b: int, x: int)
    requires
        g.len() >= 1,
    ensures
        quotient(g, b).len() == g.len() - 1,
        cong(poly_eval(g, x), poly_eval(g, b) + (x - b) * poly_eval(quotient(g, b), x)),
    decreases g.len(),
{
    let g1 = g.drop_first();
    let c = g[0];
    let gx = poly_eval(g1, x);
    let gb = poly_eval(g1, b);
    // g(x) = g1(x) * x + c and g(b) = g1(b) * b + c
    lemma_cong_ops(gx, x);
    lemma_cong_ops(fmul(gx, x), c);
    lemma_cong_add(fmul(gx, x), gx * x, c, c);
    lemma_cong_trans(poly_eval(g, x), fmul(gx, x) + c, gx * x + c);
    lemma_cong_ops(gb, b);
    lemma_cong_ops(fmul(gb, b), c);
    lemma_cong_add(fmul(gb, b), gb * b, c, c);
    lemma_cong_trans(poly_eval(g, b), fmul(gb, b) + c, gb * b + c);
    if g.len() == 1 {
        assert(gx == 0);
        assert(gb == 0);
        assert(poly_eval(quotient(g, b), x) == 0);
        assert(gx * x + c == c) by (nonlinear_arith)
            requires
                gx == 0,
        ;
        assert(gb * b + c == c) by (nonlinear_arith)
            requires
                gb == 0,
        ;
        assert((x - b) * 0 == 0);
        lemma_cong_sym(poly_eval(g, b), c);
        lemma_cong_trans(poly_eval(g, x), c, poly_eval(g, b));
    } else {
        let r1 = quotient(g1, b);
        let r = quotient(g, b);
        let r1x = poly_eval(r1, x);
        let rx = poly_eval(r, x);
        lemma_division(g1, b, x);
        assert(r.drop_first() =~= r1);
        assert(r[0] == gb);
        // r(x) = r1(x) * x + g1(b)
        lemma_cong_ops(r1x, x);
        lemma_cong_ops(fmul(r1x, x), gb);
        lemma_cong_add(fmul(r1x, x), r1x * x, gb, gb);
        lemma_cong_trans(rx, fmul(r1x, x) + gb, r1x * x + gb);
        // g(x) = (g1(b) + (x - b) * r1(x)) * x + c
        lemma_cong_replace(x, gx, gb + (x - b) * r1x, c);
        assert(x * gx + c == gx * x + c) by (nonlinear_arith);
        lemma_cong_trans(poly_eval(g, x), gx * x + c, x * (gb + (x - b) * r1x) + c);
        // g(b) + (x - b) * r(x) = g1(b) * b + c + (x - b) * (r1(x) * x + g1(b))
        lemma_cong_replace(x - b, rx, r1x * x + gb, poly_eval(g, b));
        lemma_cong_replace(1, poly_eval(g, b), gb * b + c, (x - b) * (r1x * x + gb));
        lemma_cong_trans(
            (x - b) * rx + poly_eval(g, b),
            (x - b) * (r1x * x + gb) + poly_eval(g, b),
            1 * (gb * b + c) + (x - b) * (r1x * x + gb),
        );
        assert(1 * (gb * b + c) + (x - b) * (r1x * x + gb) == x * (gb + (x - b) * r1x) + c)
            by (nonlinear_arith);
        lemma_cong_sym((x - b) * rx + poly_eval(g, b), x * (gb + (x - b) * r1x) + c);
        lemma_cong_trans(
            poly_eval(g, x),
            x * (gb + (x - b) * r1x) + c,
            (x - b) * rx + poly_eval(g, b),
        );
    }
}

/// With one more point `xs[k]`, the values of `g` at the points before it,
/// weighted by their coefficients, add up as the division of `g` by
/// `x - xs[k]` says.
pub proof fn lemma_value_sum_step(xs: Seq<int>, g: Seq<int>, k: nat, len: nat)
    requires
        pairwise_invertible(xs),
        len <= k < xs.len(),
        g.len() >= 1,
    ensures
        cong(
            value_sum(xs, g, k + 1, len),
            poly_eval(g, xs[k as int]) * coefficient_sum(xs, k + 1, len) - xs[k as int]
                * value_sum(xs, quotient(g, xs[k as int]), k, len),
        ),
    decreases len,
{
    let b = xs[k as int];
    let gb = poly_eval(g, b);
    let r = quotient(g, b);
    if len > 0 {
        let j = (len - 1) as int;
        let x = xs[j];
        let gx = poly_eval(g, x);
        let rx = poly_eval(r, x);
        let l0 = lagrange_prefix(xs, j, k);
        let l1 = lagrange_prefix(xs, j, k + 1);
        let vs0 = value_sum(xs, g, k + 1, (len - 1) as nat);
        let cs0 = coefficient_sum(xs, k + 1, (len - 1) as nat);
        let vr0 = value_sum(xs, r, k, (len - 1) as nat);
        lemma_value_sum_step(xs, g, k, (len - 1) as nat);
        lemma_division(g, b, x);
        lemma_prefix_step(xs, j, k as int);
        // the new term: l1 * g(x) is congruent to gb * l1 - b * (l0 * r(x))
        lemma_cong_replace(l1, gx, gb + (x - b) * rx, 0);
        assert(l1 * (gb + (x - b) * rx) + 0 == gb * l1 - (l1 * (b - x)) * rx) by (nonlinear_arith);
        lemma_cong_refl(rx);
        lemma_cong_mul(l1 * (b - x), b * l0, rx, rx);
        lemma_cong_refl(gb * l1);
        lemma_cong_sub(gb * l1, gb * l1, (l1 * (b - x)) * rx, (b * l0) * rx);
        assert((b * l0) * rx == b * (l0 * rx)) by (nonlinear_arith);
        lemma_cong_trans(l1 * gx + 0, gb * l1 - (l1 * (b - x)) * rx, gb * l1 - b * (l0 * rx));
        // add it to the sum of the terms before
        lemma_cong_add(vs0, gb * cs0 - b * vr0, l1 * gx, gb * l1 - b * (l0 * rx));
        assert(gb * cs0 - b * vr0 + (gb * l1 - b * (l0 * rx)) == gb * (cs0 + l1) - b * (vr0 + l0
            * rx)) by (nonlinear_arith);
        assert(value_sum(xs, g, k + 1, len) == vs0 + l1 * gx);
        assert(coefficient_sum(xs, k + 1, len) == cs0 + l1);
        assert(value_sum(xs, r, k, len) == vr0 + l0 * rx);
    } else {
        assert(gb * 0 == 0);
        assert(b * 0 == 0);
    }
}

/// The values of the polynomial without coefficients add up to 0.
pub proof fn lemma_value_sum_of_nothing(xs: Seq<int>, g: Seq<int>, k: nat, len: nat)
    requires
        g.len() == 0,
    ensures
        value_sum(xs, g, k, len) == 0,
    decreases len,
{
    if len > 0 {
        lemma_value_sum_of_nothing(xs, g, k, (len - 1) as nat);
        assert(lagrange_prefix(xs, len - 1, k) * 0 == 0);
    }
}

/// The values of a polynomial with at most `k` coefficients at the first `k`
/// points, weighted by the coefficients of the points, add up to its value at
/// zero.
pub proof fn lemma_value_sum_at_zero(xs: Seq<int>, g: Seq<int>, k: nat)
    requires
        pairwise_invertible(xs),
        g.len() <= k <= xs.len(),
    ensures
        cong(value_sum(xs, g, k, k), poly_eval(g, 0)),
    decreases k,
{
    if g.len() == 0 {
        lemma_value_sum_of_nothing(xs, g, k, k);
    } else {
        let m = (k - 1) as nat;
        let b = xs[m as int];
        let gb = poly_eval(g, b);
        let r = quotient(g, b);
        let r0 = poly_eval(r, 0);
        let wb = lagrange_prefix(xs, m as int, m);
        let csm = coefficient_sum(xs, k, m);
        let csk = coefficient_sum(xs, k, k);
        let vr = value_sum(xs, r, m, m);
        let vsm = value_sum(xs, g, k, m);
        assert(lagrange_prefix(xs, m as int, k) == wb);
        assert(value_sum(xs, g, k, k) == vsm + wb * gb);
        assert(csk == csm + wb);
        lemma_division(g, b, 0);
        lemma_value_sum_step(xs, g, m, m);
        lemma_partition_of_unity(xs, k);
        lemma_value_sum_at_zero(xs, r, m);
        lemma_cong_refl(wb * gb);
        lemma_cong_add(vsm, gb * csm - b * vr, wb * gb, wb * gb);
        assert(gb * csm - b * vr + wb * gb == gb * csk - b * vr) by (nonlinear_arith)
            requires
                csk == csm + wb,
        ;
        lemma_cong_replace(gb, csk, 1, 0);
        lemma_cong_replace(b, vr, r0, 0);
        lemma_cong_sub(gb * csk + 0, gb * 1 + 0, b * vr + 0, b * r0 + 0);
        assert(gb * 1 - b * r0 == gb + (0 - b) * r0) by (nonlinear_arith);
        lemma_cong_trans(value_sum(xs, g, k, k), gb * csk - b * vr, gb + (0 - b) * r0);
        lemma_cong_sym(poly_eval(g, 0), gb + (0 - b) * r0);
        lemma_cong_trans(value_sum(xs, g, k, k), gb + (0 - b) * r0, poly_eval(g, 0));
    }
}

/// The interpolation sum of the values `ys` is the weighted sum of the values
/// of `g`, where `ys` holds the values of `g` at the points.
pub proof fn lemma_interpolation_is_value_sum(xs: Seq<int>, ys: Seq<int>, g: Seq<int>, len: nat)
    requires
        len <= xs.len(),
        forall|j: int| 0 <= j < len ==> ys[j] == poly_eval(g, xs[j]),
    ensures
        cong(interpolation_prefix(xs, ys, len), value_sum(xs, g, xs.len(), len)),
    decreases len,
{
    if len > 0 {
        let j = (len - 1) as int;
        let l = lagrange_at_zero(xs, j);
        let p0 = interpolation_prefix(xs, ys, (len - 1) as nat);
        let v0 = value_sum(xs, g, xs.len(), (len - 1) as nat);
        lemma_interpolation_is_value_sum(xs, ys, g, (len - 1) as nat);
        lemma_cong_ops(l, ys[j]);
        lemma_cong_ops(p0, fmul(l, ys[j]));
        lemma_cong_add(p0, v0, fmul(l, ys[j]), l * ys[j]);
        lemma_cong_trans(interpolation_prefix(xs, ys, len), p0 + fmul(l, ys[j]), v0 + l * ys[j]);
    }
}

/// Interpolation at zero of the values that a polynomial takes at pairwise
/// different points, at least as many as it has coefficients, yields the
/// value of the polynomial at zero, which is its constant term.
pub proof fn lemma_interpolation_at_zero(xs: Seq<int>, ys: Seq<int>, g: Seq<int>)
    requires
        pairwise_invertible(xs),
        g.len() <= xs.len(),
        forall|j: int| 0 <= j < xs.len() ==> ys[j] == poly_eval(g, xs[j]),
    ensures
        interpolate_at_zero(xs, ys) == poly_eval(g, 0),
        g.len() >= 1 ==> interpolate_at_zero(xs, ys) == g[0] % group_order(),
{
    lemma_interpolation_is_value_sum(xs, ys, g, xs.len());
    lemma_value_sum_at_zero(xs, g, xs.len());
    lemma_cong_trans(
        interpolate_at_zero(xs, ys),
        value_sum(xs, g, xs.len(), xs.len()),
        poly_eval(g, 0),
    );
    if xs.len() > 0 && g.len() > 0 {
        lemma_cong_reduced(interpolate_at_zero(xs, ys), poly_eval(g, 0));
    }
    if g.len() >= 1 {
        let p = poly_eval(g.drop_first(), 0);
        assert(p * 0 == 0);
    }
}

} // verus!
