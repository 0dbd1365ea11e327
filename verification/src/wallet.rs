//! The threshold signer: key generation, partial signing, combination of
//! partial signatures and verification.

use crate::curve::{
    g1_add, g1_decode, g1_generator_times, g1_mul, g1_mul_generator, g1_plus, g1_times, g2_decode,
    g2_generator_times, g2_mul_generator, le_nat, pairing, pairing_value, scalar_from_u32,
    scalar_modulus, scalar_random, sha256, sha256_digest, G1Point, G2Point, Scalar,
};
use crate::correctness::{
    lemma_combination_is_signature, lemma_signed_shares_are_multiples, signed_by_picks,
    signed_scalars,
};
use crate::errors::MPCError;
use crate::key::KeyShare;
use crate::lagrange::{
    coefficient_at_zero, differences_invertible, has_inverse, index_difference,
    lagrange_coefficient, pairwise_distinct,
};
use crate::sharing::{evaluate, generate, poly_eval, scalar_values};
use crate::sig::SignatureShare;
use crate::wire::bytes_equal;
use ark_std::rand::RngCore;
use vstd::arithmetic::div_mod::lemma_small_mod;
use vstd::prelude::*;

verus! {

/// The public side of a shared key.
#[derive(Debug)]
pub struct MPCWallet {
    pub threshold: usize,
    pub total_participants: usize,
    pub public_key: G2Point,
}

/// The point of the signature group that a message is mapped to: the
/// generator multiplied by the message's digest, read as a little-endian
/// number and reduced to a scalar.
pub open spec fn message_point(message: Seq<u8>) -> Seq<u8> {
    g1_generator_times(message_scalar(message))
}

/// The scalar that a message is mapped to: its digest, read as a
/// little-endian number and reduced.
pub open spec fn message_scalar(message: Seq<u8>) -> nat {
    le_nat(sha256_digest(message)) % scalar_modulus()
}

/// The public key commits to `secret`, and the signature is the message
/// point multiplied by `secret`.
pub open spec fn signs_with(
    secret: nat,
    signature: Seq<u8>,
    public_key: Seq<u8>,
    message: Seq<u8>,
) -> bool {
    &&& public_key == g2_generator_times(secret)
    &&& signature == g1_generator_times((message_scalar(message) * secret) % scalar_modulus())
}

/// The signature is what the holder of the public key's secret produces for
/// the message.
pub open spec fn is_signature_of(signature: Seq<u8>, public_key: Seq<u8>, message: Seq<u8>) -> bool {
    exists|secret: nat| signs_with(secret, signature, public_key, message)
}

/// The first `count` shares are the generator multiplied by the given
/// scalars.
pub open spec fn shares_are_multiples(
    shares: Seq<SignatureShare>,
    count: nat,
    scalars: Seq<nat>,
) -> bool {
    &&& scalars.len() == count
    &&& forall|k: int|
        0 <= k < count ==> (#[trigger] shares[k]).share.bytes@ == g1_generator_times(scalars[k])
}

/// The sum in the scalar field of the first `upto` scalars, each multiplied
/// by the Lagrange coefficient of its index.
pub open spec fn combined_scalar(indices: Seq<u32>, scalars: Seq<nat>, upto: nat) -> nat
    decreases upto,
{
    if upto == 0 {
        0
    } else {
        (combined_scalar(indices, scalars, (upto - 1) as nat) + (scalars[upto - 1]
            * lagrange_coefficient(indices, upto - 1, indices.len())) % scalar_modulus())
            % scalar_modulus()
    }
}

/// The wallet and the shares are those dealt from the polynomial with the
/// given coefficients: participant `i` holds the value at `i`, the master
/// public key commits to the constant term.
pub open spec fn dealt_from(wallet: MPCWallet, shares: Seq<KeyShare>, coefficients: Seq<nat>) -> bool {
    &&& coefficients.len() >= 1
    &&& wallet.threshold == coefficients.len()
    &&& wallet.total_participants == shares.len()
    &&& wallet.public_key.bytes@ == g2_generator_times(coefficients[0])
    &&& wallet.public_key.is_valid()
    &&& forall|i: int|
        0 <= i < shares.len() ==> {
            &&& (#[trigger] shares[i]).index == i + 1
            &&& shares[i].secret_share.is_canonical()
            &&& shares[i].secret_share.value() == poly_eval(coefficients, (i + 1) as nat)
            &&& shares[i].is_consistent()
            &&& shares[i].public_key_share.is_valid()
        }
}

/// The indices of the first `count` shares.
pub open spec fn share_indices(shares: Seq<SignatureShare>, count: nat) -> Seq<u32> {
    Seq::new(count, |k: int| shares[k].index)
}

/// Each of the first `count` shares is a point of the signature group.
pub open spec fn shares_valid(shares: Seq<SignatureShare>, count: nat) -> bool {
    forall|k: int| 0 <= k < count ==> (#[trigger] shares[k]).share.is_valid()
}

/// The sum of the first `upto` of the first `count` shares, each multiplied by
/// the Lagrange coefficient that its index has among those `count`.
pub open spec fn combined(shares: Seq<SignatureShare>, count: nat, upto: nat) -> Seq<u8>
    decreases upto,
{
    if upto == 0 {
        g1_generator_times(0)
    } else {
        g1_plus(
            combined(shares, count, (upto - 1) as nat),
            g1_times(
                shares[upto - 1].share.bytes@,
                lagrange_coefficient(share_indices(shares, count), upto - 1, count),
            ),
        )
    }
}

impl MPCWallet {
    /// Deals the shares of the polynomial with the given coefficients to
    /// `total_participants` participants, indexed from 1.
    pub fn deal(total_participants: usize, coefficients: &Vec<Scalar>) -> (r: (
        MPCWallet,
        Vec<KeyShare>,
    ))
        requires
            coefficients.len() >= 1,
            total_participants <= u32::MAX,
        ensures
            r.1.len() == total_participants,
            dealt_from(r.0, r.1@, scalar_values(coefficients@)),
    {
        let mut shares: Vec<KeyShare> = Vec::new();
        let mut i: usize = 0;
        while i < total_participants
            invariant
                i <= total_participants <= u32::MAX,
                shares.len() == i,
                forall|k: int|
                    0 <= k < i ==> {
                        &&& (#[trigger] shares[k]).index == k + 1
                        &&& shares[k].secret_share.is_canonical()
                        &&& shares[k].secret_share.value() == poly_eval(
                            scalar_values(coefficients@),
                            (k + 1) as nat,
                        )
                        &&& shares[k].is_consistent()
                        &&& shares[k].public_key_share.is_valid()
                    },
            decreases total_participants - i,
        {
            let index: u32 = (i + 1) as u32;
            let x = scalar_from_u32(index);
            let secret_share = evaluate(coefficients, &x);
            shares.push(KeyShare::new(index, secret_share));
            i += 1;
        }
        let public_key = g2_mul_generator(&coefficients[0]);
        let wallet = MPCWallet { threshold: coefficients.len(), total_participants, public_key };
        (wallet, shares)
    }

    /// Generates a fresh shared key: validates the parameters, draws a
    /// secret and a polynomial with `threshold` coefficients around it, and
    /// deals its shares. The secret itself is not kept.
    pub fn keygen<R: RngCore>(threshold: usize, total_participants: usize, rng: &mut R) -> (r:
        Result<(MPCWallet, Vec<KeyShare>), MPCError>)
        requires
            total_participants <= u32::MAX,
        ensures
            total_participants < 2 ==> r == Err::<(MPCWallet, Vec<KeyShare>), MPCError>(
                MPCError::InvalidParticipants(total_participants),
            ),
            total_participants >= 2 && (threshold < 1 || threshold > total_participants) ==> r
                == Err::<(MPCWallet, Vec<KeyShare>), MPCError>(
                MPCError::InvalidThreshold(threshold),
            ),
            total_participants >= 2 && 1 <= threshold <= total_participants ==> r is Ok && {
                let (wallet, shares) = r->Ok_0;
                &&& wallet.threshold == threshold
                &&& wallet.total_participants == total_participants
                &&& shares.len() == total_participants
                &&& exists|coefficients: Seq<nat>| #[trigger]
                    dealt_from(wallet, shares@, coefficients)
            },
    {
        if total_participants < 2 {
            return Err(MPCError::InvalidParticipants(total_participants));
        }
        if threshold > total_participants || threshold < 1 {
            return Err(MPCError::InvalidThreshold(threshold));
        }
        let secret_key = scalar_random(rng);
        let coefficients = generate(secret_key, threshold, rng);
        let (wallet, shares) = Self::deal(total_participants, &coefficients);
        Ok((wallet, shares))
    }

    /// Maps a message to a point of the signature group: the generator
    /// multiplied by the message's SHA-256 digest as a scalar. This simple
    /// map is deterministic and as collision-resistant as the digest; it is
    /// not one of the standard hash-to-curve constructions.
    pub fn hash_to_curve(message: &[u8]) -> (point: G1Point)
        ensures
            point.bytes@ == message_point(message@),
            point.is_valid(),
    {
        let digest = sha256(message);
        let scalar = Scalar { bytes: digest };
        g1_mul_generator(&scalar)
    }

    /// Whether the bytes are a point of the signature group: they decode,
    /// pass the subgroup check and satisfy the curve equation.
    pub fn is_signature_point(point: &G1Point) -> (valid: bool)
        ensures
            valid == point.is_valid(),
            forall|n: nat| point.bytes@ == #[trigger] g1_generator_times(n) ==> valid,
    {
        match g1_decode(&point.bytes) {
            Ok(on_curve) => on_curve,
            Err(_) => false,
        }
    }

    /// Whether the bytes are a point of the public-key group: they decode,
    /// pass the subgroup check and satisfy the curve equation.
    pub fn is_public_key_point(point: &G2Point) -> (valid: bool)
        ensures
            valid == point.is_valid(),
            forall|n: nat| point.bytes@ == #[trigger] g2_generator_times(n) ==> valid,
    {
        match g2_decode(&point.bytes) {
            Ok(on_curve) => on_curve,
            Err(_) => false,
        }
    }

    /// Whether the first `count` shares carry pairwise distinct indices, as
    /// combination asks of the shares it uses.
    pub fn has_distinct_indices(shares: &[SignatureShare], count: usize) -> (distinct: bool)
        requires
            count <= shares.len(),
        ensures
            distinct == pairwise_distinct(share_indices(shares@, count as nat)),
    {
        let ghost indices = share_indices(shares@, count as nat);
        let mut j: usize = 0;
        while j < count
            invariant
                j <= count <= shares.len(),
                indices == share_indices(shares@, count as nat),
                forall|a: int, b: int| 0 <= a < b < j ==> indices[a] != indices[b],
            decreases count - j,
        {
            let mut i: usize = 0;
            while i < j
                invariant
                    i <= j < count <= shares.len(),
                    indices == share_indices(shares@, count as nat),
                    forall|a: int| 0 <= a < i ==> indices[a] != indices[j as int],
                decreases j - i,
            {
                if shares[i].index == shares[j].index {
                    assert(indices[i as int] == indices[j as int]);
                    return false;
                }
                i += 1;
            }
            j += 1;
        }
        true
    }

    /// Signs a message with one key share: the message point multiplied by
    /// the secret share.
    pub fn sign_share(message: &[u8], key_share: &KeyShare) -> (r: SignatureShare)
        ensures
            r.index == key_share.index,
            r.share.bytes@ == g1_times(message_point(message@), key_share.secret_share.value()),
            r.share.bytes@ == g1_generator_times(
                (message_scalar(message@) * key_share.secret_share.value()) % scalar_modulus(),
            ),
            r.share.is_valid(),
    {
        let message_point = Self::hash_to_curve(message);
        let share = g1_mul(&message_point, &key_share.secret_share);
        SignatureShare { index: key_share.index, share }
    }

    /// Checks a signature against a public key and a message: both must be
    /// points of their groups, and the pairing of the signature with the
    /// `G2` generator must equal that of the message point with the key.
    pub fn verify(public_key: &G2Point, message: &[u8], signature: &G1Point) -> (r: Result<
        (),
        MPCError,
    >)
        ensures
            r is Ok <==> {
                &&& signature.is_valid()
                &&& public_key.is_valid()
                &&& pairing_value(signature.bytes@, g2_generator_times(1)) == pairing_value(
                    message_point(message@),
                    public_key.bytes@,
                )
            },
            r is Err ==> r->Err_0 is VerificationFailed,
            is_signature_of(signature.bytes@, public_key.bytes@, message@) ==> r is Ok,
    {
        let ghost genuine = is_signature_of(signature.bytes@, public_key.bytes@, message@);
        let ghost secret = choose|secret: nat|
            signs_with(secret, signature.bytes@, public_key.bytes@, message@);
        let ghost signed = (message_scalar(message@) * secret) % scalar_modulus();
        if !Self::is_signature_point(signature) || !Self::is_public_key_point(public_key) {
            return Err(MPCError::VerificationFailed);
        }
        let message_point = Self::hash_to_curve(message);
        let g2_generator = g2_mul_generator(&scalar_from_u32(1));
        let lhs = pairing(signature, &g2_generator);
        let rhs = pairing(&message_point, public_key);
        proof {
            if genuine {
                lemma_small_mod(signed, scalar_modulus());
                assert(signed * 1 == signed);
                assert(lhs@ == rhs@);
            }
        }
        if bytes_equal(lhs.as_slice(), rhs.as_slice()) {
            Ok(())
        } else {
            Err(MPCError::VerificationFailed)
        }
    }

    /// Combines the first `threshold` signature shares into the signature of
    /// the shared key, by Lagrange interpolation at zero. The shares used
    /// must carry distinct indices. If they were signed for one message by
    /// key shares of this wallet's dealing, the result is the signature of
    /// the wallet's public key on that message.
    pub fn combine_signature_shares(&self, shares: &[SignatureShare]) -> (r: Result<
        G1Point,
        MPCError,
    >)
        requires
            shares.len() >= self.threshold ==> pairwise_distinct(
                share_indices(shares@, self.threshold as nat),
            ),
        ensures
            shares.len() < self.threshold ==> r is Err && r->Err_0 is InsufficientShares,
            shares.len() >= self.threshold && !shares_valid(shares@, self.threshold as nat) ==> r is Err
                && r->Err_0 is InvalidShare,
            shares.len() >= self.threshold && shares_valid(shares@, self.threshold as nat) ==> r is Ok
                && r->Ok_0.is_valid() && r->Ok_0.bytes@ == combined(
                shares@,
                self.threshold as nat,
                self.threshold as nat,
            ),
            r is Ok ==> differences_invertible(share_indices(shares@, self.threshold as nat)),
            forall|scalars: Seq<nat>| #[trigger]
                shares_are_multiples(shares@, self.threshold as nat, scalars) && shares.len()
                    >= self.threshold ==> r is Ok && r->Ok_0.bytes@ == g1_generator_times(
                    combined_scalar(
                        share_indices(shares@, self.threshold as nat),
                        scalars,
                        self.threshold as nat,
                    ),
                ),
            forall|key_shares: Seq<KeyShare>, coefficients: Seq<nat>, picks: Seq<int>, message: Seq<u8>|
                #[trigger] dealt_from(*self, key_shares, coefficients) && #[trigger] signed_by_picks(
                    shares@,
                    self.threshold as nat,
                    key_shares,
                    picks,
                    message,
                ) ==> r is Ok && is_signature_of(
                    r->Ok_0.bytes@,
                    self.public_key.bytes@,
                    message,
                ),
    {
        let count = self.threshold;
        if shares.len() < count {
            return Err(MPCError::InsufficientShares);
        }
        let mut indices: Vec<u32> = Vec::new();
        let mut k: usize = 0;
        while k < count
            invariant
                k <= count <= shares.len(),
                count == self.threshold,
                indices.len() == k,
                forall|n: int| 0 <= n < k ==> indices[n] == shares[n].index,
                forall|n: int| 0 <= n < k ==> (#[trigger] shares[n]).share.is_valid(),
            decreases count - k,
        {
            if !Self::is_signature_point(&shares[k].share) {
                assert(!shares@[k as int].share.is_valid());
                assert forall|scalars: Seq<nat>| !#[trigger] shares_are_multiples(
                    shares@,
                    count as nat,
                    scalars,
                ) by {
                    if shares_are_multiples(shares@, count as nat, scalars) {
                        assert(shares@[k as int].share.bytes@ == g1_generator_times(
                            scalars[k as int],
                        ));
                    }
                }
                assert forall|
                    key_shares: Seq<KeyShare>,
                    picks: Seq<int>,
                    message: Seq<u8>,
                | !#[trigger] signed_by_picks(shares@, count as nat, key_shares, picks, message) by {
                    if signed_by_picks(shares@, count as nat, key_shares, picks, message) {
                        lemma_signed_shares_are_multiples(
                            shares@,
                            count as nat,
                            key_shares,
                            picks,
                            message,
                        );
                    }
                }
                return Err(MPCError::InvalidShare);
            }
            indices.push(shares[k].index);
            k += 1;
        }
        assert(indices@ =~= share_indices(shares@, count as nat));
        let mut combined_sig = g1_mul_generator(&scalar_from_u32(0));
        let mut i: usize = 0;
        while i < count
            invariant
                i <= count <= shares.len(),
                indices@ == share_indices(shares@, count as nat),
                pairwise_distinct(indices@),
                shares_valid(shares@, count as nat),
                combined_sig.is_valid(),
                combined_sig.bytes@ == combined(shares@, count as nat, i as nat),
                indices.len() == count,
                forall|a: int, b: int|
                    0 <= a < i && 0 <= b < count && a != b ==> has_inverse(
                        #[trigger] index_difference(indices@[a], indices@[b]),
                    ),
                forall|scalars: Seq<nat>| #[trigger]
                    shares_are_multiples(shares@, count as nat, scalars) ==> combined_sig.bytes@
                        == g1_generator_times(combined_scalar(indices@, scalars, i as nat)),
            decreases count - i,
        {
            let ghost before = combined_sig;
            let lambda = coefficient_at_zero(&indices, i);
            let term = g1_mul(&shares[i].share, &lambda);
            combined_sig = g1_add(&combined_sig, &term);
            proof {
                assert forall|scalars: Seq<nat>| #[trigger]
                    shares_are_multiples(
                        shares@,
                        count as nat,
                        scalars,
                    ) implies combined_sig.bytes@ == g1_generator_times(
                    combined_scalar(indices@, scalars, (i + 1) as nat),
                ) by {
                    let share = scalars[i as int];
                    let sum = combined_scalar(indices@, scalars, i as nat);
                    let weighted = (share * lambda.value()) % scalar_modulus();
                    assert(shares@[i as int].share.bytes@ == g1_generator_times(share));
                    assert(term.bytes@ == g1_generator_times(weighted));
                    assert(before.bytes@ == g1_generator_times(sum));
                    assert(combined_sig.bytes@ == g1_generator_times(
                        (sum + weighted) % scalar_modulus(),
                    ));
                }
            }
            i += 1;
        }
        proof {
            assert(differences_invertible(indices@));
            assert forall|
                key_shares: Seq<KeyShare>,
                coefficients: Seq<nat>,
                picks: Seq<int>,
                message: Seq<u8>,
            | #[trigger]
                dealt_from(*self, key_shares, coefficients) && #[trigger] signed_by_picks(
                    shares@,
                    count as nat,
                    key_shares,
                    picks,
                    message,
                ) implies is_signature_of(combined_sig.bytes@, self.public_key.bytes@, message) by {
                lemma_combination_is_signature(
                    *self,
                    key_shares,
                    coefficients,
                    message,
                    shares@,
                    picks,
                );
                assert(shares_are_multiples(
                    shares@,
                    count as nat,
                    signed_scalars(key_shares, picks, message),
                ));
            }
        }
        Ok(combined_sig)
    }
}

} // verus!
