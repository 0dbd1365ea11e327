//! Secret sharing over the field of 997 elements: dealing shares of a secret
//! and reconstructing it by Lagrange interpolation at zero.

use crate::field::{mod_add, mod_inv, mod_mul, mod_sub, PRIME};
use crate::polynomial::{evaluate_polynomial, generate_polynomial, poly_sum};
use std::collections::HashMap;
use vstd::arithmetic::power::pow;
use vstd::prelude::*;

verus! {

broadcast use vstd::std_specs::hash::group_hash_axioms;

/// The shares are the values at `1..=total` of one polynomial of `threshold`
/// coefficients whose constant term is the secret.
pub open spec fn shares_of(
    shares: Map<u32, u64>,
    secret: u64,
    threshold: u32,
    total: u32,
    coefficients: Seq<u64>,
) -> bool {
    &&& coefficients.len() == threshold
    &&& coefficients[0] == secret
    &&& forall|id: u32| shares.dom().contains(id) <==> 1 <= id <= total
    &&& forall|id: u32|
        1 <= id <= total ==> #[trigger] shares[id] == poly_sum(coefficients, id as int) % (
        PRIME as int)
}

/// Deals one share to each of the parties `1..=total_shares`.
pub fn generate_shares(secret: u64, threshold: u32, total_shares: u32) -> (shares: HashMap<
    u32,
    u64,
>)
    requires
        threshold >= 1,
    ensures
        exists|coefficients: Seq<u64>| #[trigger]
            shares_of(shares@, secret, threshold, total_shares, coefficients),
{
    let polynomial = generate_polynomial(secret, threshold);
    let mut shares: HashMap<u32, u64> = HashMap::new();
    let mut id: u32 = 0;
    while id < total_shares
        invariant
            id <= total_shares,
            forall|k: u32| shares@.dom().contains(k) <==> 1 <= k <= id,
            forall|k: u32|
                1 <= k <= id ==> #[trigger] shares@[k] == poly_sum(polynomial@, k as int) % (
                PRIME as int),
        decreases total_shares - id,
    {
        id += 1;
        let share = evaluate_polynomial(polynomial.as_slice(), id as u64);
        shares.insert(id, share);
    }
    assert(shares_of(shares@, secret, threshold, total_shares, polynomial@));
    shares
}

/// The party identifiers below `upto` that hold a share, in ascending order.
pub open spec fn present_ids(shares: Map<u32, u64>, upto: nat) -> Seq<u32>
    decreases upto,
{
    if upto == 0 {
        Seq::empty()
    } else {
        let rest = present_ids(shares, (upto - 1) as nat);
        if shares.dom().contains((upto - 1) as u32) {
            rest.push((upto - 1) as u32)
        } else {
            rest
        }
    }
}

/// The identifiers come in strictly ascending order, each below `upto`.
pub proof fn lemma_present_ids_ascending(shares: Map<u32, u64>, upto: nat)
    requires
        upto <= 0x1_0000_0000,
    ensures
        forall|k: int|
            0 <= k < present_ids(shares, upto).len() ==> #[trigger] present_ids(shares, upto)[k]
                < upto,
        forall|a: int, b: int|
            0 <= a < b < present_ids(shares, upto).len() ==> present_ids(shares, upto)[a]
                < present_ids(shares, upto)[b],
    decreases upto,
{
    let ids = present_ids(shares, upto);
    if upto > 0 {
        let rest = present_ids(shares, (upto - 1) as nat);
        lemma_present_ids_ascending(shares, (upto - 1) as nat);
        assert forall|k: int| 0 <= k < ids.len() implies #[trigger] ids[k] < upto by {
            if k < rest.len() {
                assert(ids[k] == rest[k]);
            }
        }
        assert forall|a: int, b: int| 0 <= a < b < ids.len() implies ids[a] < ids[b] by {
            assert(ids[a] == rest[a]);
            if b < rest.len() {
                assert(ids[b] == rest[b]);
            }
        }
    }
}

/// `i - j` in the field, for identifiers up to `PRIME`.
pub open spec fn id_difference(i: u32, j: u32) -> int {
    if i >= j {
        i - j
    } else {
        PRIME - (j - i)
    }
}

/// The factor `-x_j / (x_i - x_j)` that party `j` contributes to the basis
/// polynomial of party `i` at zero.
pub open spec fn basis_factor(i: u32, j: u32) -> int {
    ((PRIME - j) * (pow(id_difference(i, j), (PRIME - 2) as nat) % (PRIME as int))) % (PRIME as int)
}

/// The product of the factors of the first `upto` parties other than the
/// `i`-th: with `upto` the number of parties, the `i`-th Lagrange basis
/// polynomial at zero.
pub open spec fn basis_at_zero(ids: Seq<u32>, i: int, upto: nat) -> int
    decreases upto,
{
    if upto == 0 {
        1
    } else {
        let rest = basis_at_zero(ids, i, (upto - 1) as nat);
        if upto - 1 == i {
            rest
        } else {
            (rest * basis_factor(ids[i], ids[upto - 1])) % (PRIME as int)
        }
    }
}

/// The interpolated value at zero, summed over the first `upto` parties.
pub open spec fn interpolation_at_zero(shares: Map<u32, u64>, ids: Seq<u32>, upto: nat) -> int
    decreases upto,
{
    if upto == 0 {
        0
    } else {
        (interpolation_at_zero(shares, ids, (upto - 1) as nat) + (shares[ids[upto - 1]]
            * basis_at_zero(ids, upto - 1, ids.len())) % (PRIME as int)) % (PRIME as int)
    }
}

/// The secret that the shares determine: the interpolation at zero over all
/// parties that hold one.
pub open spec fn reconstructed(shares: Map<u32, u64>) -> int {
    let ids = present_ids(shares, (PRIME + 1) as nat);
    interpolation_at_zero(shares, ids, ids.len())
}

/// Reconstructs the secret from the shares of parties whose identifiers do
/// not exceed `PRIME`.
pub fn reconstruct_secret(shares: &HashMap<u32, u64>) -> (secret: u64)
    requires
        forall|id: u32| shares@.dom().contains(id) ==> id <= PRIME,
    ensures
        secret == reconstructed(shares@),
{
    let mut ids: Vec<u32> = Vec::new();
    let mut values: Vec<u64> = Vec::new();
    let mut id: u32 = 0;
    while id <= 997
        invariant
            id <= 998,
            ids@ == present_ids(shares@, id as nat),
            values.len() == ids.len(),
            forall|k: int|
                0 <= k < ids.len() ==> ids[k] <= PRIME && shares@.dom().contains(#[trigger] ids[k])
                    && values[k] == shares@[ids[k]],
        decreases 998 - id,
    {
        match shares.get(&id) {
            Some(value) => {
                ids.push(id);
                values.push(*value);
            },
            None => {},
        }
        id += 1;
    }
    proof {
        lemma_present_ids_ascending(shares@, (PRIME + 1) as nat);
    }
    let mut secret: u64 = 0;
    let mut a: usize = 0;
    while a < ids.len()
        invariant
            a <= ids.len(),
            values.len() == ids.len(),
            ids@ == present_ids(shares@, (PRIME + 1) as nat),
            forall|m: int, n: int| 0 <= m < n < ids.len() ==> ids[m] < ids[n],
            forall|k: int|
                0 <= k < ids.len() ==> ids[k] <= PRIME && values[k] == shares@[#[trigger] ids[k]],
            secret == interpolation_at_zero(shares@, ids@, a as nat),
        decreases ids.len() - a,
    {
        let i = ids[a];
        let mut lagrange: u64 = 1;
        let mut b: usize = 0;
        while b < ids.len()
            invariant
                b <= ids.len(),
                a < ids.len(),
                i == ids[a as int],
                forall|k: int| 0 <= k < ids.len() ==> #[trigger] ids[k] <= PRIME,
                forall|m: int, n: int| 0 <= m < n < ids.len() ==> ids[m] < ids[n],
                lagrange == basis_at_zero(ids@, a as int, b as nat),
            decreases ids.len() - b,
        {
            let j = ids[b];
            if i != j {
                let num = PRIME - j as u64;
                let den = mod_sub(i as u64, j as u64);
                let inverse = mod_inv(den);
                lagrange = mod_mul(lagrange, mod_mul(num, inverse));
            }
            b += 1;
        }
        secret = mod_add(secret, mod_mul(values[a], lagrange));
        a += 1;
    }
    secret
}

} // verus!
