//! Lagrange coefficients at zero, over the scalar field.

use crate::curve::{
    scalar_from_u32, scalar_inverse, scalar_modulus, scalar_mul, scalar_sub, Scalar,
};
use vstd::arithmetic::div_mod::{lemma_mul_mod_noop_general, lemma_small_mod};
use vstd::prelude::*;

verus! {

/// `b` is a reduced field element whose product with `a` is one.
pub open spec fn is_inverse_of(b: nat, a: nat) -> bool {
    b < scalar_modulus() && (b * a) % scalar_modulus() == 1
}

/// The multiplicative inverse of a nonzero field element.
pub open spec fn field_inverse(a: nat) -> nat {
    choose|b: nat| is_inverse_of(b, a)
}

/// The field element `d` has a multiplicative inverse.
pub open spec fn has_inverse(d: nat) -> bool {
    exists|b: nat| is_inverse_of(b, d)
}

/// The difference `x_j - x_i` as a reduced field element.
pub open spec fn index_difference(x_i: u32, x_j: u32) -> nat {
    ((x_j - x_i) % (scalar_modulus() as int)) as nat
}

/// The difference of any two of the indices has an inverse. Computing the
/// coefficients of distinct indices establishes this, pair by pair.
pub open spec fn differences_invertible(indices: Seq<u32>) -> bool {
    forall|i: int, j: int|
        0 <= i < indices.len() && 0 <= j < indices.len() && i != j ==> has_inverse(
            #[trigger] index_difference(indices[i], indices[j]),
        )
}

/// The factor `x_j / (x_j - x_i)` that index `x_j` contributes to the
/// coefficient of index `x_i`.
pub open spec fn lagrange_factor(x_i: u32, x_j: u32) -> nat {
    (field_inverse(index_difference(x_i, x_j)) * (x_j as nat)) % scalar_modulus()
}

/// The product of the factors of the first `upto` indices other than the
/// `i`-th: with `upto` the number of indices, the Lagrange coefficient of the
/// `i`-th index for interpolation at zero.
pub open spec fn lagrange_coefficient(indices: Seq<u32>, i: int, upto: nat) -> nat
    decreases upto,
{
    if upto == 0 {
        1
    } else {
        let rest = lagrange_coefficient(indices, i, (upto - 1) as nat);
        if upto - 1 == i {
            rest
        } else {
            (rest * lagrange_factor(indices[i], indices[upto - 1])) % scalar_modulus()
        }
    }
}

/// No index occurs twice.
pub open spec fn pairwise_distinct(indices: Seq<u32>) -> bool {
    forall|i: int, j: int| 0 <= i < j < indices.len() ==> indices[i] != indices[j]
}

/// A field element has at most one inverse.
pub proof fn lemma_inverse_unique(a: nat, b: nat, c: nat)
    requires
        b < scalar_modulus(),
        c < scalar_modulus(),
        (b * a) % scalar_modulus() == 1,
        (c * a) % scalar_modulus() == 1,
    ensures
        b == c,
{
    let m = scalar_modulus() as int;
    assert(b * (c * a) == c * (b * a)) by (nonlinear_arith);
    lemma_mul_mod_noop_general(b as int, (c * a) as int, m);
    lemma_mul_mod_noop_general(c as int, (b * a) as int, m);
    assert(b * 1 == b && c * 1 == c);
    lemma_small_mod(b, scalar_modulus());
    lemma_small_mod(c, scalar_modulus());
}

/// Whatever multiplies with `a` to one is `field_inverse(a)`.
pub proof fn lemma_field_inverse_is(a: nat, b: nat)
    requires
        b < scalar_modulus(),
        (b * a) % scalar_modulus() == 1,
    ensures
        field_inverse(a) == b,
{
    assert(is_inverse_of(b, a));
    lemma_inverse_unique(a, b, field_inverse(a));
}

/// Computes the Lagrange coefficient at zero of the `i`-th of the given
/// indices.
pub fn coefficient_at_zero(indices: &Vec<u32>, i: usize) -> (lambda: Scalar)
    requires
        i < indices.len(),
        pairwise_distinct(indices@),
    ensures
        lambda.is_canonical(),
        lambda.value() == lagrange_coefficient(indices@, i as int, indices.len() as nat),
        forall|j: int|
            0 <= j < indices.len() && j != i ==> has_inverse(
                #[trigger] index_difference(indices[i as int], indices[j]),
            ),
{
    let x_i = scalar_from_u32(indices[i]);
    let mut lambda = scalar_from_u32(1);
    let mut j: usize = 0;
    while j < indices.len()
        invariant
            j <= indices.len(),
            i < indices.len(),
            pairwise_distinct(indices@),
            x_i.value() == indices[i as int],
            forall|k: int|
                0 <= k < j && k != i ==> has_inverse(
                    #[trigger] index_difference(indices[i as int], indices[k]),
                ),
            lambda.is_canonical(),
            lambda.value() == lagrange_coefficient(indices@, i as int, j as nat),
        decreases indices.len() - j,
    {
        if i != j {
            let x_j = scalar_from_u32(indices[j]);
            let difference = scalar_sub(&x_j, &x_i);
            assert(difference.value() != 0) by {
                let d = indices[j as int] - indices[i as int];
                assert(d != 0);
                assert(-0x1_0000_0000 < d < 0x1_0000_0000);
                assert(scalar_modulus() > 0x1_0000_0000);
                if d > 0 {
                    lemma_small_mod(d as nat, scalar_modulus());
                } else {
                    lemma_small_mod((d + scalar_modulus()) as nat, scalar_modulus());
                    vstd::arithmetic::div_mod::lemma_mod_add_multiples_vanish(
                        d,
                        scalar_modulus() as int,
                    );
                }
            }
            let inverse = scalar_inverse(&difference);
            let factor = scalar_mul(&inverse, &x_j);
            proof {
                assert(difference.value() == index_difference(indices[i as int], indices[j as int]));
                assert(is_inverse_of(inverse.value(), difference.value()));
                lemma_field_inverse_is(difference.value(), inverse.value());
                assert(factor.value() == lagrange_factor(indices[i as int], indices[j as int]));
            }
            lambda = scalar_mul(&lambda, &factor);
        }
        j += 1;
    }
    lambda
}

} // verus!
