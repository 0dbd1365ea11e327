//! Why combining works: weighting the values of a polynomial at distinct
//! indices with the Lagrange coefficients at zero gives back the constant
//! term, in the scalar field.

use crate::curve::scalar_modulus;
use crate::lagrange::{
    differences_invertible, field_inverse, has_inverse, index_difference, is_inverse_of,
    lagrange_coefficient, lagrange_factor,
};
use crate::sharing::{poly_eval, power_mod};
use vstd::arithmetic::div_mod::{
    lemma_add_mod_noop, lemma_mod_twice, lemma_mul_mod_noop_general, lemma_small_mod,
    lemma_sub_mod_noop,
};
use vstd::arithmetic::power::pow;
use vstd::prelude::*;

verus! {

/// `a` and `b` are the same element of the scalar field.
pub open spec fn congruent(a: int, b: int) -> bool {
    a % (scalar_modulus() as int) == b % (scalar_modulus() as int)
}

/// The sum of a sequence of integers.
pub open spec fn total(terms: Seq<int>) -> int
    decreases terms.len(),
{
    if terms.len() == 0 {
        0
    } else {
        total(terms.drop_last()) + terms.last()
    }
}

/// The Lagrange coefficient at zero of the `i`-th index among all of them.
pub open spec fn coefficient(indices: Seq<u32>, i: int) -> int {
    lagrange_coefficient(indices, i, indices.len()) as int
}

/// The values of a polynomial at the indices, each weighted with the
/// Lagrange coefficient of its index.
pub open spec fn weighted_values(indices: Seq<u32>, coefficients: Seq<nat>) -> Seq<int> {
    Seq::new(
        indices.len(),
        |i: int| poly_eval(coefficients, indices[i] as nat) * coefficient(indices, i),
    )
}

/// The `k`-th powers of the indices, each weighted with the Lagrange
/// coefficient of its index.
spec fn weighted_powers(indices: Seq<u32>, k: nat) -> Seq<int> {
    Seq::new(indices.len(), |i: int| pow(indices[i] as int, k) * coefficient(indices, i))
}

/// The value of a polynomial over the integers.
spec fn poly_int(coefficients: Seq<nat>, x: int) -> int
    decreases coefficients.len(),
{
    if coefficients.len() == 0 {
        0
    } else {
        poly_int(coefficients.drop_last(), x) + coefficients.last() * pow(
            x,
            (coefficients.len() - 1) as nat,
        )
    }
}

/// The values over the integers of a polynomial at the indices, each
/// weighted with the Lagrange coefficient of its index.
spec fn weighted_poly(indices: Seq<u32>, coefficients: Seq<nat>) -> Seq<int> {
    Seq::new(
        indices.len(),
        |i: int| poly_int(coefficients, indices[i] as int) * coefficient(indices, i),
    )
}

/// Products of congruent factors are congruent.
pub proof fn lemma_congruent_mul(a: int, b: int, c: int, d: int)
    requires
        congruent(a, b),
        congruent(c, d),
    ensures
        congruent(a * c, b * d),
{
    let m = scalar_modulus() as int;
    lemma_mul_mod_noop_general(a, c, m);
    lemma_mul_mod_noop_general(b, d, m);
}

/// Sums of congruent terms are congruent.
pub proof fn lemma_congruent_add(a: int, b: int, c: int, d: int)
    requires
        congruent(a, b),
        congruent(c, d),
    ensures
        congruent(a + c, b + d),
{
    let m = scalar_modulus() as int;
    lemma_add_mod_noop(a, c, m);
    lemma_add_mod_noop(b, d, m);
}

/// Differences of congruent terms are congruent.
proof fn lemma_congruent_sub(a: int, b: int, c: int, d: int)
    requires
        congruent(a, b),
        congruent(c, d),
    ensures
        congruent(a - c, b - d),
{
    let m = scalar_modulus() as int;
    lemma_sub_mod_noop(a, c, m);
    lemma_sub_mod_noop(b, d, m);
}

/// Reducing a number keeps its field element.
pub proof fn lemma_congruent_reduced(x: int)
    ensures
        congruent(x % (scalar_modulus() as int), x),
{
    lemma_mod_twice(x, scalar_modulus() as int);
}

/// The factor of `x_j` in the coefficient of `x_i`, times `x_j - x_i`, is `x_j`.
proof fn lemma_factor_cancels(x_i: u32, x_j: u32)
    requires
        has_inverse(index_difference(x_i, x_j)),
    ensures
        congruent(lagrange_factor(x_i, x_j) * (x_j - x_i), x_j as int),
{
    let m = scalar_modulus() as int;
    let d = index_difference(x_i, x_j);
    let inv = field_inverse(d);
    assert(is_inverse_of(inv, d));
    let f = lagrange_factor(x_i, x_j) as int;
    let xj = x_j as int;
    assert(f == (inv * xj) % m);
    lemma_congruent_reduced(inv * xj);
    lemma_congruent_reduced(x_j - x_i);
    assert(d as int == (x_j - x_i) % m);
    lemma_congruent_mul(f, inv * xj, (x_j - x_i) as int, d as int);
    assert((inv * xj) * d == (inv * d) * xj) by (nonlinear_arith);
    lemma_small_mod(1, scalar_modulus());
    assert(congruent((inv * d) as int, 1));
    lemma_congruent_mul((inv * d) as int, 1, xj, xj);
}

/// Multiplying both sides of a congruence by the inverse of a common factor
/// removes the factor.
proof fn lemma_cancel(d: nat, e: int, a: int, b: int)
    requires
        has_inverse(d),
        congruent(d as int, e),
        congruent(e * a, e * b),
    ensures
        congruent(a, b),
{
    let inv = field_inverse(d);
    assert(is_inverse_of(inv, d));
    lemma_small_mod(1, scalar_modulus());
    assert(congruent((inv * d) as int, 1));
    lemma_congruent_mul(inv as int, inv as int, d as int, e);
    assert(congruent(inv * e, 1));
    lemma_congruent_mul(inv * e, 1, a, a);
    lemma_congruent_mul(inv * e, 1, b, b);
    lemma_congruent_mul(inv as int, inv as int, e * a, e * b);
    assert(inv * (e * a) == (inv * e) * a) by (nonlinear_arith);
    assert(inv * (e * b) == (inv * e) * b) by (nonlinear_arith);
}

/// A partial coefficient looks only at the indices before `upto`.
proof fn lemma_coefficient_prefix(indices: Seq<u32>, i: int, upto: nat)
    requires
        0 <= i < indices.len() - 1,
        upto <= indices.len() - 1,
    ensures
        lagrange_coefficient(indices, i, upto) == lagrange_coefficient(
            indices.drop_last(),
            i,
            upto,
        ),
    decreases upto,
{
    if upto > 0 {
        lemma_coefficient_prefix(indices, i, (upto - 1) as nat);
    }
}

/// Without the first index, a partial coefficient lacks that index's factor.
proof fn lemma_coefficient_suffix(indices: Seq<u32>, i: int, upto: nat)
    requires
        1 <= i < indices.len(),
        1 <= upto <= indices.len(),
    ensures
        congruent(
            lagrange_coefficient(indices, i, upto) as int,
            (lagrange_factor(indices[i], indices[0]) * lagrange_coefficient(
                indices.drop_first(),
                i - 1,
                (upto - 1) as nat,
            )) as int,
        ),
    decreases upto,
{
    let m = scalar_modulus() as int;
    let tail = indices.drop_first();
    let f0 = lagrange_factor(indices[i], indices[0]) as int;
    let here = lagrange_coefficient(indices, i, upto) as int;
    let there = lagrange_coefficient(tail, i - 1, (upto - 1) as nat) as int;
    if upto == 1 {
        assert(lagrange_coefficient(indices, i, 0) == 1);
        assert(here == (1 * f0) % m);
        lemma_congruent_reduced(1 * f0);
        assert(there == 1);
        assert(1 * f0 == f0 * there) by (nonlinear_arith)
            requires
                there == 1,
        ;
    } else {
        lemma_coefficient_suffix(indices, i, (upto - 1) as nat);
        let before = lagrange_coefficient(indices, i, (upto - 1) as nat) as int;
        let tail_before = lagrange_coefficient(tail, i - 1, (upto - 2) as nat) as int;
        assert(congruent(before, f0 * tail_before));
        if upto - 1 == i {
            assert(here == before);
            assert(there == tail_before);
        } else {
            let f = lagrange_factor(indices[i], indices[upto - 1]) as int;
            assert(tail[i - 1] == indices[i]);
            assert(tail[upto - 2] == indices[upto - 1]);
            assert(here == (before * f) % m);
            assert(there == (tail_before * f) % m);
            lemma_congruent_reduced(before * f);
            lemma_congruent_reduced(tail_before * f);
            lemma_congruent_mul(before, f0 * tail_before, f, f);
            lemma_congruent_mul(f0, f0, there, tail_before * f);
            assert((f0 * tail_before) * f == f0 * (tail_before * f)) by (nonlinear_arith);
            assert(congruent(here, f0 * there));
        }
    }
}

/// Equal-length sequences that agree term by term in the field have sums
/// that agree in the field.
proof fn lemma_total_congruent(s: Seq<int>, u: Seq<int>)
    requires
        s.len() == u.len(),
        forall|i: int| 0 <= i < s.len() ==> congruent(#[trigger] s[i], u[i]),
    ensures
        congruent(total(s), total(u)),
    decreases s.len(),
{
    if s.len() > 0 {
        lemma_total_congruent(s.drop_last(), u.drop_last());
        lemma_congruent_add(total(s.drop_last()), total(u.drop_last()), s.last(), u.last());
    }
}

/// The sum, taken from the front.
proof fn lemma_total_first(s: Seq<int>)
    requires
        s.len() > 0,
    ensures
        total(s) == s[0] + total(s.drop_first()),
    decreases s.len(),
{
    if s.len() == 1 {
        assert(total(s.drop_last()) == 0);
        assert(total(s.drop_first()) == 0);
    } else {
        lemma_total_first(s.drop_last());
        assert(s.drop_last().drop_first() =~= s.drop_first().drop_last());
        assert(s.drop_first().last() == s.last());
    }
}

/// Sums are linear.
proof fn lemma_total_linear(s: Seq<int>, u: Seq<int>, a: int, b: int, w: Seq<int>)
    requires
        s.len() == u.len() == w.len(),
        forall|i: int| 0 <= i < w.len() ==> #[trigger] w[i] == a * s[i] + b * u[i],
    ensures
        total(w) == a * total(s) + b * total(u),
    decreases w.len(),
{
    if w.len() > 0 {
        lemma_total_linear(s.drop_last(), u.drop_last(), a, b, w.drop_last());
        let ts = total(s.drop_last());
        let tu = total(u.drop_last());
        let sl = s.last();
        let ul = u.last();
        assert(w.last() == a * sl + b * ul);
        assert(a * (ts + sl) + b * (tu + ul) == (a * ts + b * tu) + (a * sl + b * ul))
            by (nonlinear_arith);
    } else {
        assert(a * 0 + b * 0 == 0);
    }
}

/// Dropping an index keeps the differences invertible.
proof fn lemma_invertible_parts(indices: Seq<u32>)
    requires
        indices.len() >= 1,
        differences_invertible(indices),
    ensures
        differences_invertible(indices.drop_last()),
        differences_invertible(indices.drop_first()),
{
    let front = indices.drop_last();
    let tail = indices.drop_first();
    assert forall|i: int, j: int|
        0 <= i < front.len() && 0 <= j < front.len() && i != j implies has_inverse(
        #[trigger] index_difference(front[i], front[j]),
    ) by {
        assert(has_inverse(index_difference(indices[i], indices[j])));
    }
    assert forall|i: int, j: int|
        0 <= i < tail.len() && 0 <= j < tail.len() && i != j implies has_inverse(
        #[trigger] index_difference(tail[i], tail[j]),
    ) by {
        assert(has_inverse(index_difference(indices[i + 1], indices[j + 1])));
    }
}

/// With `x` the last index: `x * M_k - M_(k+1)` over all indices agrees with
/// `x * M_k` over the indices without the last, `M_k` being the weighted sum
/// of `k`-th powers.
proof fn lemma_without_last(indices: Seq<u32>, k: nat)
    requires
        indices.len() >= 2,
        differences_invertible(indices),
    ensures
        congruent(
            indices.last() * total(weighted_powers(indices, k)) - total(
                weighted_powers(indices, k + 1),
            ),
            indices.last() * total(weighted_powers(indices.drop_last(), k)),
        ),
{
    let n = indices.len() as int;
    let x = indices.last() as int;
    let front = indices.drop_last();
    let low = weighted_powers(indices, k);
    let high = weighted_powers(indices, k + 1);
    let diff = Seq::new(indices.len(), |i: int| x * low[i] + (-1) * high[i]);
    lemma_total_linear(low, high, x, -1, diff);
    assert(diff.last() == 0) by {
        reveal(pow);
        let c = coefficient(indices, n - 1);
        let p = pow(x, k);
        assert(pow(x, k + 1) == x * p);
        assert(x * (p * c) + (-1) * ((x * p) * c) == 0) by (nonlinear_arith);
    }
    let scaled = Seq::new(front.len(), |i: int| x * weighted_powers(front, k)[i]);
    let zeros = Seq::new(front.len(), |i: int| 0int);
    lemma_total_linear(weighted_powers(front, k), zeros, x, 0, scaled);
    assert forall|i: int| 0 <= i < n - 1 implies congruent(
        #[trigger] diff.drop_last()[i],
        scaled[i],
    ) by {
        reveal(pow);
        let xi = indices[i] as int;
        let p = pow(xi, k);
        let c = coefficient(indices, i);
        let c_front = coefficient(front, i);
        assert(pow(xi, k + 1) == xi * p);
        assert(diff[i] == p * (c * (x - xi))) by (nonlinear_arith)
            requires
                diff[i] == x * (p * c) + (-1) * ((xi * p) * c),
        ;
        lemma_coefficient_prefix(indices, i, (n - 1) as nat);
        let f = lagrange_factor(indices[i], indices[n - 1]) as int;
        assert(c == (c_front * f) % (scalar_modulus() as int));
        lemma_congruent_reduced(c_front * f);
        assert(has_inverse(index_difference(indices[i], indices[n - 1])));
        lemma_factor_cancels(indices[i], indices[n - 1]);
        lemma_congruent_mul(c, c_front * f, x - xi, x - xi);
        lemma_congruent_mul(c_front, c_front, f * (x - xi), x);
        assert((c_front * f) * (x - xi) == c_front * (f * (x - xi))) by (nonlinear_arith);
        lemma_congruent_mul(p, p, c * (x - xi), c_front * x);
        assert(p * (c_front * x) == x * (p * c_front)) by (nonlinear_arith);
    }
    lemma_total_congruent(diff.drop_last(), scaled);
    assert(x * total(low) + (-1) * total(high) == x * total(low) - total(high));
    assert(x * total(weighted_powers(front, k)) + 0 * total(zeros) == x * total(
        weighted_powers(front, k),
    ));
}

/// With `x` the first index: `x * M_k - M_(k+1)` over all indices agrees with
/// `x * M_k` over the indices without the first.
proof fn lemma_without_first(indices: Seq<u32>, k: nat)
    requires
        indices.len() >= 2,
        differences_invertible(indices),
    ensures
        congruent(
            indices[0] * total(weighted_powers(indices, k)) - total(
                weighted_powers(indices, k + 1),
            ),
            indices[0] * total(weighted_powers(indices.drop_first(), k)),
        ),
{
    let n = indices.len() as int;
    let x = indices[0] as int;
    let tail = indices.drop_first();
    let low = weighted_powers(indices, k);
    let high = weighted_powers(indices, k + 1);
    let diff = Seq::new(indices.len(), |i: int| x * low[i] + (-1) * high[i]);
    lemma_total_linear(low, high, x, -1, diff);
    lemma_total_first(diff);
    assert(diff[0] == 0) by {
        reveal(pow);
        let c = coefficient(indices, 0);
        let p = pow(x, k);
        assert(pow(x, k + 1) == x * p);
        assert(x * (p * c) + (-1) * ((x * p) * c) == 0) by (nonlinear_arith);
    }
    let scaled = Seq::new(tail.len(), |i: int| x * weighted_powers(tail, k)[i]);
    let zeros = Seq::new(tail.len(), |i: int| 0int);
    lemma_total_linear(weighted_powers(tail, k), zeros, x, 0, scaled);
    assert forall|i: int| 0 <= i < n - 1 implies congruent(
        #[trigger] diff.drop_first()[i],
        scaled[i],
    ) by {
        reveal(pow);
        let xi = indices[i + 1] as int;
        let p = pow(xi, k);
        let c = coefficient(indices, i + 1);
        let c_tail = coefficient(tail, i);
        assert(tail[i] == indices[i + 1]);
        assert(pow(xi, k + 1) == xi * p);
        assert(diff[i + 1] == p * (c * (x - xi))) by (nonlinear_arith)
            requires
                diff[i + 1] == x * (p * c) + (-1) * ((xi * p) * c),
        ;
        lemma_coefficient_suffix(indices, i + 1, n as nat);
        let f = lagrange_factor(indices[i + 1], indices[0]) as int;
        assert(has_inverse(index_difference(indices[i + 1], indices[0])));
        lemma_factor_cancels(indices[i + 1], indices[0]);
        lemma_congruent_mul(c, f * c_tail, x - xi, x - xi);
        lemma_congruent_mul(c_tail, c_tail, f * (x - xi), x);
        assert((f * c_tail) * (x - xi) == c_tail * (f * (x - xi))) by (nonlinear_arith);
        lemma_congruent_mul(p, p, c * (x - xi), c_tail * x);
        assert(p * (c_tail * x) == x * (p * c_tail)) by (nonlinear_arith);
    }
    lemma_total_congruent(diff.drop_first(), scaled);
    assert(x * total(low) + (-1) * total(high) == x * total(low) - total(high));
    assert(x * total(weighted_powers(tail, k)) + 0 * total(zeros) == x * total(
        weighted_powers(tail, k),
    ));
}

/// The weighted sum of `k`-th powers is one for `k = 0` and zero for the
/// other `k` below the number of indices.
proof fn lemma_weighted_powers(indices: Seq<u32>, k: nat)
    requires
        k < indices.len(),
        differences_invertible(indices),
    ensures
        congruent(total(weighted_powers(indices, k)), if k == 0 { 1int } else { 0int }),
    decreases indices.len(), k,
{
    let n = indices.len() as int;
    let unit = if k == 0 { 1int } else { 0int };
    let here = total(weighted_powers(indices, k));
    if n == 1 {
        reveal(pow);
        let terms = weighted_powers(indices, 0);
        assert(lagrange_coefficient(indices, 0, 0) == 1);
        assert(coefficient(indices, 0) == 1);
        assert(terms[0] == 1);
        assert(total(terms.drop_last()) == 0);
    } else if k < n - 1 {
        let front = indices.drop_last();
        let tail = indices.drop_first();
        let x_last = indices.last() as int;
        let x_first = indices[0] as int;
        let next = total(weighted_powers(indices, k + 1));
        lemma_invertible_parts(indices);
        lemma_weighted_powers(front, k);
        lemma_weighted_powers(tail, k);
        lemma_without_last(indices, k);
        lemma_without_first(indices, k);
        lemma_congruent_mul(x_last, x_last, total(weighted_powers(front, k)), unit);
        lemma_congruent_mul(x_first, x_first, total(weighted_powers(tail, k)), unit);
        lemma_congruent_sub(
            x_last * here - next,
            x_last * unit,
            x_first * here - next,
            x_first * unit,
        );
        let e = x_last - x_first;
        assert((x_last * here - next) - (x_first * here - next) == e * here)
            by (nonlinear_arith)
            requires
                e == x_last - x_first,
        ;
        assert(x_last * unit - x_first * unit == e * unit) by (nonlinear_arith)
            requires
                e == x_last - x_first,
        ;
        let d = index_difference(indices[0], indices[n - 1]);
        assert(has_inverse(d));
        lemma_congruent_reduced(e);
        lemma_cancel(d, e, here, unit);
    } else {
        let front = indices.drop_last();
        let x_last = indices.last() as int;
        let j = (k - 1) as nat;
        let unit_j = if j == 0 { 1int } else { 0int };
        let below = total(weighted_powers(indices, j));
        lemma_invertible_parts(indices);
        lemma_weighted_powers(indices, j);
        lemma_weighted_powers(front, j);
        lemma_without_last(indices, j);
        lemma_congruent_mul(x_last, x_last, total(weighted_powers(front, j)), unit_j);
        lemma_congruent_mul(x_last, x_last, below, unit_j);
        lemma_congruent_sub(x_last * below, x_last * unit_j, x_last * below - here, x_last * unit_j);
        assert(x_last * below - (x_last * below - here) == here);
    }
}

/// Powers in the field agree with powers over the integers.
proof fn lemma_power_congruent(x: nat, k: nat)
    ensures
        congruent(power_mod(x, k) as int, pow(x as int, k)),
    decreases k,
{
    reveal(pow);
    if k > 0 {
        let before = power_mod(x, (k - 1) as nat) as int;
        lemma_power_congruent(x, (k - 1) as nat);
        lemma_congruent_reduced(before * x);
        lemma_congruent_mul(before, pow(x as int, (k - 1) as nat), x as int, x as int);
        assert(pow(x as int, (k - 1) as nat) * x == x * pow(x as int, (k - 1) as nat))
            by (nonlinear_arith);
    }
}

/// Evaluation in the field agrees with evaluation over the integers.
proof fn lemma_poly_congruent(coefficients: Seq<nat>, x: nat)
    ensures
        congruent(poly_eval(coefficients, x) as int, poly_int(coefficients, x as int)),
    decreases coefficients.len(),
{
    if coefficients.len() > 0 {
        let k = (coefficients.len() - 1) as nat;
        let rest = coefficients.drop_last();
        let c = coefficients.last() as int;
        lemma_poly_congruent(rest, x);
        lemma_power_congruent(x, k);
        lemma_congruent_mul(c, c, power_mod(x, k) as int, pow(x as int, k));
        lemma_congruent_add(
            poly_eval(rest, x) as int,
            poly_int(rest, x as int),
            c * power_mod(x, k),
            c * pow(x as int, k),
        );
        lemma_congruent_reduced(poly_eval(rest, x) + c * power_mod(x, k));
    }
}

/// Over the integers: the weighted values of a polynomial sum to its
/// constant term, in the field.
proof fn lemma_weighted_poly(indices: Seq<u32>, coefficients: Seq<nat>)
    requires
        1 <= coefficients.len() <= indices.len(),
        differences_invertible(indices),
    ensures
        congruent(total(weighted_poly(indices, coefficients)), coefficients[0] as int),
    decreases coefficients.len(),
{
    let k = (coefficients.len() - 1) as nat;
    let rest = coefficients.drop_last();
    let c = coefficients.last() as int;
    let all = weighted_poly(indices, coefficients);
    let lower = weighted_poly(indices, rest);
    let top = weighted_powers(indices, k);
    assert forall|i: int| 0 <= i < all.len() implies #[trigger] all[i] == 1 * lower[i] + c
        * top[i] by {
        let w = coefficient(indices, i);
        let p = pow(indices[i] as int, k);
        let r = poly_int(rest, indices[i] as int);
        assert((r + c * p) * w == 1 * (r * w) + c * (p * w)) by (nonlinear_arith);
    }
    lemma_total_linear(lower, top, 1, c, all);
    lemma_weighted_powers(indices, k);
    if k == 0 {
        let zeros = Seq::new(indices.len(), |i: int| 0int);
        assert forall|i: int| 0 <= i < lower.len() implies #[trigger] lower[i] == 0 * zeros[i] + 0
            * zeros[i] by {
            assert(poly_int(rest, indices[i] as int) == 0);
            assert(0 * coefficient(indices, i) == 0);
        }
        lemma_total_linear(zeros, zeros, 0, 0, lower);
        assert(total(lower) == 0);
        lemma_congruent_mul(c, c, total(top), 1);
        assert(1 * total(lower) + c * total(top) == c * total(top));
        assert(c * 1 == c);
    } else {
        lemma_weighted_poly(indices, rest);
        assert(rest[0] == coefficients[0]);
        lemma_congruent_mul(c, c, total(top), 0);
        assert(c * 0 == 0);
        lemma_congruent_add(total(lower), coefficients[0] as int, c * total(top), 0);
        assert(1 * total(lower) + c * total(top) == total(lower) + c * total(top));
    }
}

/// Interpolation at zero: the values of a polynomial at the indices, each
/// multiplied by the Lagrange coefficient of its index, sum to the constant
/// term in the scalar field, whichever indices are taken, as long as there
/// are at least as many as coefficients and the difference of any two has an
/// inverse.
pub proof fn lemma_interpolation_at_zero(indices: Seq<u32>, coefficients: Seq<nat>)
    requires
        1 <= coefficients.len() <= indices.len(),
        differences_invertible(indices),
    ensures
        congruent(total(weighted_values(indices, coefficients)), coefficients[0] as int),
{
    let field = weighted_values(indices, coefficients);
    let whole = weighted_poly(indices, coefficients);
    assert forall|i: int| 0 <= i < field.len() implies congruent(#[trigger] field[i], whole[i]) by {
        let w = coefficient(indices, i);
        lemma_poly_congruent(coefficients, indices[i] as nat);
        lemma_congruent_mul(
            poly_eval(coefficients, indices[i] as nat) as int,
            poly_int(coefficients, indices[i] as int),
            w,
            w,
        );
    }
    lemma_total_congruent(field, whole);
    lemma_weighted_poly(indices, coefficients);
}

} // verus!
