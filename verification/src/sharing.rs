//! The secret-sharing polynomial over the scalar field.

use crate::curve::{scalar_add, scalar_from_u32, scalar_modulus, scalar_mul, scalar_random, Scalar};
use ark_std::rand::RngCore;
use vstd::arithmetic::div_mod::{lemma_add_mod_noop, lemma_mod_twice, lemma_small_mod};
use vstd::prelude::*;

verus! {

/// `x` to the power `k` in the scalar field.
pub open spec fn power_mod(x: nat, k: nat) -> nat
    decreases k,
{
    if k == 0 {
        1
    } else {
        (power_mod(x, (k - 1) as nat) * x) % scalar_modulus()
    }
}

/// The value at `x` of the polynomial with the given coefficients, constant
/// term first, in the scalar field.
pub open spec fn poly_eval(coefficients: Seq<nat>, x: nat) -> nat
    decreases coefficients.len(),
{
    if coefficients.len() == 0 {
        0
    } else {
        (poly_eval(coefficients.drop_last(), x) + coefficients.last() * power_mod(
            x,
            (coefficients.len() - 1) as nat,
        )) % scalar_modulus()
    }
}

/// At zero a polynomial takes the value of its constant term: the secret.
pub proof fn lemma_poly_eval_at_zero(coefficients: Seq<nat>)
    requires
        coefficients.len() >= 1,
    ensures
        poly_eval(coefficients, 0) == coefficients[0] % scalar_modulus(),
    decreases coefficients.len(),
{
    let m = scalar_modulus() as int;
    let k = (coefficients.len() - 1) as nat;
    let rest = coefficients.drop_last();
    if coefficients.len() == 1 {
        assert(poly_eval(rest, 0) == 0);
        assert(power_mod(0, 0) == 1);
        assert(coefficients.last() * 1 == coefficients[0]);
    } else {
        lemma_poly_eval_at_zero(rest);
        assert(rest[0] == coefficients[0]);
        assert(power_mod(0, k) == 0) by {
            assert(power_mod(0, (k - 1) as nat) * 0 == 0);
            lemma_small_mod(0, scalar_modulus());
        }
        assert(coefficients.last() * 0 == 0);
        lemma_mod_twice(coefficients[0] as int, m);
    }
}

/// The field elements that a sequence of scalars stands for.
pub open spec fn scalar_values(scalars: Seq<Scalar>) -> Seq<nat> {
    Seq::new(scalars.len(), |i: int| scalars[i].value())
}

/// The `threshold` coefficients of a fresh polynomial whose constant term is
/// the secret; the others are drawn at random.
pub fn generate<R: RngCore>(secret: Scalar, threshold: usize, rng: &mut R) -> (coefficients: Vec<
    Scalar,
>)
    requires
        threshold >= 1,
    ensures
        coefficients.len() == threshold,
        coefficients[0] == secret,
        forall|i: int| 1 <= i < threshold ==> (#[trigger] coefficients[i]).is_canonical(),
{
    let mut coefficients: Vec<Scalar> = Vec::new();
    coefficients.push(secret);
    let mut i: usize = 1;
    while i < threshold
        invariant
            1 <= i <= threshold,
            coefficients.len() == i,
            coefficients[0] == secret,
            forall|k: int| 1 <= k < i ==> (#[trigger] coefficients[k]).is_canonical(),
        decreases threshold - i,
    {
        let c = scalar_random(rng);
        coefficients.push(c);
        i += 1;
    }
    coefficients
}

/// Evaluates the polynomial at `x`, accumulating one term per coefficient
/// while carrying the running power of `x`.
pub fn evaluate(coefficients: &Vec<Scalar>, x: &Scalar) -> (y: Scalar)
    ensures
        y.is_canonical(),
        y.value() == poly_eval(scalar_values(coefficients@), x.value()),
{
    let ghost values = scalar_values(coefficients@);
    let ghost m = scalar_modulus() as int;
    let mut acc = scalar_from_u32(0);
    let mut x_pow = scalar_from_u32(1);
    let mut i: usize = 0;
    proof {
        lemma_small_mod(0, scalar_modulus());
        assert(values.take(0).len() == 0);
    }
    while i < coefficients.len()
        invariant
            i <= coefficients.len(),
            values == scalar_values(coefficients@),
            m == scalar_modulus(),
            acc.is_canonical(),
            acc.value() == poly_eval(values.take(i as int), x.value()),
            x_pow.value() == power_mod(x.value(), i as nat),
        decreases coefficients.len() - i,
    {
        let term = scalar_mul(&coefficients[i], &x_pow);
        let next = scalar_add(&acc, &term);
        let next_pow = scalar_mul(&x_pow, x);
        proof {
            let prefix = values.take(i as int + 1);
            assert(prefix.drop_last() =~= values.take(i as int));
            assert(prefix.last() == coefficients[i as int].value());
            let c = coefficients[i as int].value() as int;
            let p = x_pow.value() as int;
            lemma_add_mod_noop(acc.value() as int, c * p, m);
            lemma_mod_twice(c * p, m);
            lemma_small_mod(acc.value(), scalar_modulus());
        }
        acc = next;
        x_pow = next_pow;
        i += 1;
    }
    proof {
        assert(values.take(i as int) =~= values);
    }
    acc
}

} // verus!
