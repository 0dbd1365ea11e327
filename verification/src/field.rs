//! Arithmetic in the prime field of 997 elements.

use vstd::arithmetic::div_mod::{lemma_mul_mod_noop_general};
use vstd::arithmetic::power::{lemma_pow_mod_noop, pow};
use vstd::prelude::*;

verus! {

/// The modulus of the small field.
pub const PRIME: u64 = 997;

/// `(a + b) mod PRIME`.
pub fn mod_add(a: u64, b: u64) -> (r: u64)
    ensures
        r == (a + b) % (PRIME as int),
{
    let sum: u128 = a as u128 + b as u128;
    (sum % (PRIME as u128)) as u64
}

/// `a - b` in the field, for operands whose difference does not drop below `-PRIME`.
pub fn mod_sub(a: u64, b: u64) -> (r: u64)
    requires
        a >= b || b - a <= PRIME,
    ensures
        a >= b ==> r == a - b,
        a < b ==> r == PRIME - (b - a),
{
    if a >= b {
        a - b
    } else {
        PRIME - (b - a)
    }
}

/// `(a * b) mod PRIME`.
pub fn mod_mul(a: u64, b: u64) -> (r: u64)
    ensures
        r == (a * b) % (PRIME as int),
{
    assert(a * b <= 0xffff_ffff_ffff_ffff * 0xffff_ffff_ffff_ffff) by (nonlinear_arith)
        requires
            0 <= a <= 0xffff_ffff_ffff_ffff,
            0 <= b <= 0xffff_ffff_ffff_ffff,
    ;
    let product: u128 = (a as u128) * (b as u128);
    (product % (PRIME as u128)) as u64
}

/// Squaring the base halves the exponent.
proof fn lemma_pow_of_square(b: int, e: nat)
    ensures
        pow(b * b, e) == pow(b, 2 * e),
    decreases e,
{
    reveal(pow);
    if e > 0 {
        lemma_pow_of_square(b, (e - 1) as nat);
        assert(pow(b, 2 * e) == b * pow(b, (2 * e - 1) as nat));
        assert(pow(b, (2 * e - 1) as nat) == b * pow(b, (2 * e - 2) as nat));
        assert(b * (b * pow(b, (2 * e - 2) as nat)) == (b * b) * pow(b, (2 * e - 2) as nat))
            by (nonlinear_arith);
    }
}

/// One round of square-and-multiply keeps `acc * base^exp` unchanged modulo `m`.
proof fn lemma_square_and_multiply(acc: int, base: int, exp: nat, m: int)
    requires
        m > 0,
        exp > 0,
    ensures
        exp % 2 == 1 ==> (((acc * base) % m) * pow((base * base) % m, exp / 2)) % m == (acc * pow(
            base,
            exp,
        )) % m,
        exp % 2 == 0 ==> (acc * pow((base * base) % m, exp / 2)) % m == (acc * pow(base, exp)) % m,
{
    let half = exp / 2;
    let sq = pow(base * base, half);
    let sqm = pow((base * base) % m, half);
    lemma_pow_of_square(base, half);
    lemma_pow_mod_noop(base * base, half, m);
    assert(sqm % m == sq % m);
    if exp % 2 == 1 {
        reveal(pow);
        assert(pow(base, exp) == base * pow(base, (exp - 1) as nat));
        assert((exp - 1) as nat == 2 * half);
        lemma_mul_mod_noop_general(acc * base, sqm, m);
        lemma_mul_mod_noop_general(acc * base, sq, m);
        assert((acc * base) * sq == acc * (base * sq)) by (nonlinear_arith);
    } else {
        assert(exp == 2 * half);
        lemma_mul_mod_noop_general(acc, sqm, m);
        lemma_mul_mod_noop_general(acc, sq, m);
    }
}

/// `base^exp mod PRIME`, by square-and-multiply.
pub fn mod_pow(base: u64, exp: u64) -> (r: u64)
    ensures
        r == pow(base as int, exp as nat) % (PRIME as int),
{
    if exp == 0 {
        proof {
            reveal(pow);
        }
        return 1;
    }
    let mut result: u64 = 1;
    let mut b: u64 = base;
    let mut e: u64 = exp;
    while e > 0
        invariant
            result < PRIME,
            (result * pow(b as int, e as nat)) % (PRIME as int) == pow(base as int, exp as nat) % (
            PRIME as int),
        decreases e,
    {
        proof {
            lemma_square_and_multiply(result as int, b as int, e as nat, PRIME as int);
        }
        if e % 2 == 1 {
            result = mod_mul(result, b);
        }
        b = mod_mul(b, b);
        e = e / 2;
    }
    proof {
        reveal(pow);
        assert(pow(b as int, 0) == 1);
        assert(result * 1 == result) by (nonlinear_arith);
    }
    result
}

/// The candidate inverse `a^(PRIME - 2) mod PRIME` given by Fermat's little theorem.
pub fn mod_inv(a: u64) -> (r: u64)
    ensures
        r == pow(a as int, (PRIME - 2) as nat) % (PRIME as int),
{
    mod_pow(a, PRIME - 2)
}

} // verus!
