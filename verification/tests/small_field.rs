use std::collections::HashMap;

use threshold_bls::field::{mod_add, mod_inv, mod_mul, mod_pow, mod_sub, PRIME};
use threshold_bls::polynomial::{evaluate_polynomial, generate_polynomial};
use threshold_bls::shamir::{generate_shares, reconstruct_secret};

#[test]
fn test_hello() {
    println!("Hello, world!");
}

#[test]
fn test_mod_pow() {
    assert_eq!(mod_pow(2, 3), 8);
    assert_eq!(mod_pow(2, 4), 16);
    assert_eq!(mod_pow(2, 5), 32);
    assert_eq!(mod_pow(5, 0), 1);
}

#[test]
fn test_mod_inv() {
    assert_eq!(mod_inv(2), mod_pow(2, PRIME - 2));
}

#[test]
fn test_share_generation_and_reconstruction() {
    let threshold: u32 = 3;
    let total_shares: u32 = 5;

    for secret in 1..PRIME - 1 {
        let shares = generate_shares(secret, threshold, total_shares);
        println!("Shares: {:?}", shares);
        assert_eq!(shares.len(), total_shares as usize);

        let mut threshold_shares: HashMap<u32, u64> = HashMap::new();
        for i in 1..=threshold {
            threshold_shares.insert(i, *shares.get(&i).unwrap());
        }

        let reconstructed = reconstruct_secret(&threshold_shares);
        assert_eq!(reconstructed, secret);
    }
}

#[test]
fn test_polynomial_generation() {
    let secret: u64 = 12345;
    let threshold: u32 = 3;
    let polynomial = generate_polynomial(secret, threshold);
    assert_eq!(polynomial.len(), threshold as usize);
}

#[test]
fn test_polynomial_evaluation() {
    let coefficients: Vec<u64> = vec![1, 2, 3];
    let x: u64 = 2;
    let result = evaluate_polynomial(&coefficients, x);
    assert_eq!(result, 17);
}

#[test]
fn mod_add_reduces_the_sum() {
    assert_eq!(mod_add(1, 2), 3);
    assert_eq!(mod_add(996, 1), 0);
    assert_eq!(mod_add(996, 996), 995);
    assert_eq!(mod_add(u64::MAX, u64::MAX), ((u64::MAX as u128 * 2) % 997) as u64);
}

#[test]
fn mod_sub_wraps_below_zero() {
    assert_eq!(mod_sub(5, 3), 2);
    assert_eq!(mod_sub(3, 5), 995);
    assert_eq!(mod_sub(0, 996), 1);
    assert_eq!(mod_sub(7, 7), 0);
    assert_eq!(mod_sub(0, 997), 0);
}

#[test]
fn mod_mul_reduces_the_product() {
    assert_eq!(mod_mul(3, 4), 12);
    assert_eq!(mod_mul(996, 996), 1);
    assert_eq!(mod_mul(500, 2), 3);
    assert_eq!(mod_mul(u64::MAX, u64::MAX), ((u64::MAX as u128 * u64::MAX as u128) % 997) as u64);
}

#[test]
fn mod_pow_reduces_large_powers() {
    assert_eq!(mod_pow(2, 10), 27);
    assert_eq!(mod_pow(0, 0), 1);
    assert_eq!(mod_pow(0, 5), 0);
    assert_eq!(mod_pow(997, 3), 0);
    assert_eq!(mod_pow(998, 12345), 1);
    assert_eq!(mod_pow(3, PRIME - 1), 1);
}

#[test]
fn mod_inv_inverts_every_nonzero_element() {
    for a in 1..PRIME {
        assert_eq!(mod_mul(a, mod_inv(a)), 1);
    }
    assert_eq!(mod_inv(2), 499);
    assert_eq!(mod_inv(0), 0);
}

#[test]
fn polynomial_starts_with_the_secret_and_stays_in_the_field() {
    let polynomial = generate_polynomial(12345, 6);
    assert_eq!(polynomial[0], 12345);
    for coefficient in polynomial.iter().skip(1) {
        assert!(*coefficient < PRIME);
    }
    assert_eq!(generate_polynomial(7, 1), vec![7]);
}

#[test]
fn evaluation_at_zero_is_the_constant_term() {
    let coefficients: Vec<u64> = vec![42, 7, 9];
    assert_eq!(evaluate_polynomial(&coefficients, 0), 42);
    assert_eq!(evaluate_polynomial(&[], 5), 0);
    assert_eq!(evaluate_polynomial(&[1, 2, 3], 100), (1 + 200 + 30000) % 997);
    assert_eq!(evaluate_polynomial(&[1000], 3), 3);
}

#[test]
fn shares_are_the_polynomial_at_the_party_ids() {
    let shares = generate_shares(11, 1, 4);
    assert_eq!(shares.len(), 4);
    for id in 1..=4u32 {
        assert_eq!(shares.get(&id), Some(&11));
    }
    assert!(generate_shares(11, 2, 0).is_empty());
}

#[test]
fn reconstruction_interpolates_at_zero() {
    // f(x) = 5 + 3x + 2x^2: f(1) = 10, f(2) = 19, f(4) = 49.
    let mut shares: HashMap<u32, u64> = HashMap::new();
    shares.insert(4, 49);
    shares.insert(1, 10);
    shares.insert(2, 19);
    assert_eq!(reconstruct_secret(&shares), 5);

    let empty: HashMap<u32, u64> = HashMap::new();
    assert_eq!(reconstruct_secret(&empty), 0);

    let mut single: HashMap<u32, u64> = HashMap::new();
    single.insert(3, 1000);
    assert_eq!(reconstruct_secret(&single), 3);
}

#[test]
fn any_threshold_subset_reconstructs_the_same_secret() {
    let shares = generate_shares(321, 3, 6);
    let subsets: Vec<Vec<u32>> = vec![vec![1, 2, 3], vec![2, 4, 6], vec![6, 5, 1], vec![1, 2, 3, 4]];
    for subset in subsets {
        let mut chosen: HashMap<u32, u64> = HashMap::new();
        for id in subset {
            chosen.insert(id, *shares.get(&id).unwrap());
        }
        assert_eq!(reconstruct_secret(&chosen), 321);
    }
}
