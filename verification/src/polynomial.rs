//! Polynomials over the field of 997 elements.

use crate::field::{mod_add, mod_mul, PRIME};
use rand::RngCore;
use vstd::arithmetic::div_mod::{lemma_add_mod_noop, lemma_mul_mod_noop_general};
use vstd::arithmetic::power::{lemma0_pow, lemma_pow0, pow};
use vstd::prelude::*;

verus! {

/// The value at `x`, over the integers, of the polynomial with the given
/// coefficients, constant term first.
pub open spec fn poly_sum(coefficients: Seq<u64>, x: int) -> int
    decreases coefficients.len(),
{
    if coefficients.len() == 0 {
        0
    } else {
        poly_sum(coefficients.drop_last(), x) + coefficients.last() * pow(
            x,
            (coefficients.len() - 1) as nat,
        )
    }
}

/// At zero a polynomial takes the value of its constant term.
pub proof fn lemma_poly_sum_at_zero(coefficients: Seq<u64>)
    requires
        coefficients.len() >= 1,
    ensures
        poly_sum(coefficients, 0) == coefficients[0],
    decreases coefficients.len(),
{
    if coefficients.len() == 1 {
        assert(poly_sum(coefficients.drop_last(), 0) == 0);
        lemma_pow0(0);
    } else {
        lemma_poly_sum_at_zero(coefficients.drop_last());
        lemma0_pow((coefficients.len() - 1) as nat);
    }
}

/// `rand::rng()` and `RngCore::fill_bytes` on eight bytes. Nothing is claimed
/// of the bytes.
#[verifier::external_body]
fn random_bytes() -> (bytes: [u8; 8]) {
    let mut bytes = [0u8; 8];
    rand::rng().fill_bytes(&mut bytes);
    bytes
}

/// The number that eight bytes denote, least significant first.
pub open spec fn u64_le_value(bytes: Seq<u8>) -> int
    recommends
        bytes.len() == 8,
{
    bytes[0] + 0x100 * bytes[1] + 0x1_0000 * bytes[2] + 0x100_0000 * bytes[3] + 0x1_0000_0000
        * bytes[4] + 0x100_0000_0000 * bytes[5] + 0x1_0000_0000_0000 * bytes[6]
        + 0x100_0000_0000_0000 * bytes[7]
}

/// Reads eight bytes as a number, least significant first.
fn u64_from_le(bytes: &[u8; 8]) -> (n: u64)
    ensures
        n == u64_le_value(bytes@),
{
    let low: u64 = bytes[0] as u64 + 0x100 * (bytes[1] as u64) + 0x1_0000 * (bytes[2] as u64)
        + 0x100_0000 * (bytes[3] as u64);
    let high: u64 = bytes[4] as u64 + 0x100 * (bytes[5] as u64) + 0x1_0000 * (bytes[6] as u64)
        + 0x100_0000 * (bytes[7] as u64);
    low + 0x1_0000_0000 * high
}

/// A polynomial of `threshold` coefficients whose constant term is the
/// secret; the others are drawn at random from the field.
pub fn generate_polynomial(secret: u64, threshold: u32) -> (coefficients: Vec<u64>)
    requires
        threshold >= 1,
    ensures
        coefficients.len() == threshold,
        coefficients[0] == secret,
        forall|i: int| 1 <= i < threshold ==> coefficients[i] < PRIME,
{
    let mut coefficients: Vec<u64> = Vec::new();
    coefficients.push(secret);
    let mut i: u32 = 1;
    while i < threshold
        invariant
            1 <= i <= threshold,
            coefficients.len() == i,
            coefficients[0] == secret,
            forall|k: int| 1 <= k < i ==> coefficients[k] < PRIME,
        decreases threshold - i,
    {
        let bytes = random_bytes();
        coefficients.push(u64_from_le(&bytes) % PRIME);
        i += 1;
    }
    coefficients
}

/// Evaluates the polynomial at `x` in the field, carrying the running power
/// of `x`.
pub fn evaluate_polynomial(coefficients: &[u64], x: u64) -> (y: u64)
    ensures
        y == poly_sum(coefficients@, x as int) % (PRIME as int),
{
    let ghost p = PRIME as int;
    let mut result: u64 = 0;
    let mut power: u64 = 1;
    let mut i: usize = 0;
    proof {
        reveal(pow);
        assert(coefficients@.take(0).len() == 0);
    }
    while i < coefficients.len()
        invariant
            i <= coefficients.len(),
            p == PRIME,
            result == poly_sum(coefficients@.take(i as int), x as int) % p,
            power == pow(x as int, i as nat) % p,
        decreases coefficients.len() - i,
    {
        let coeff = coefficients[i];
        proof {
            let prefix = coefficients@.take(i as int + 1);
            assert(prefix.drop_last() =~= coefficients@.take(i as int));
            assert(prefix.last() == coeff);
            let xi = pow(x as int, i as nat);
            lemma_mul_mod_noop_general(coeff as int, xi, p);
            lemma_add_mod_noop(poly_sum(coefficients@.take(i as int), x as int), coeff * xi, p);
            lemma_mul_mod_noop_general(xi, x as int, p);
            reveal(pow);
            assert(pow(x as int, (i + 1) as nat) == x * xi);
            assert(x * xi == xi * x) by (nonlinear_arith);
        }
        result = mod_add(result, mod_mul(coeff, power));
        power = mod_mul(power, x);
        i += 1;
    }
    proof {
        assert(coefficients@.take(i as int) =~= coefficients@);
    }
    result
}

} // verus!
