//! The scheme's central properties: shares dealt from one polynomial and
//! signed honestly combine, whichever subset is taken, to the signature of
//! the master key.

use crate::curve::{g1_generator_times, scalar_modulus};
use crate::interpolation::{
    congruent, lemma_congruent_add, lemma_congruent_mul, lemma_congruent_reduced,
    lemma_interpolation_at_zero, total, weighted_values,
};
use crate::key::KeyShare;
use crate::lagrange::{differences_invertible, lagrange_coefficient};
use crate::sharing::poly_eval;
use crate::sig::SignatureShare;
use crate::wallet::{
    combined_scalar, dealt_from, is_signature_of, message_scalar, share_indices,
    shares_are_multiples, signs_with, MPCWallet,
};
use vstd::arithmetic::div_mod::lemma_small_mod;
use vstd::prelude::*;

verus! {

/// Each scalar is `h` times the value of the polynomial at its index.
pub open spec fn scaled_values(
    indices: Seq<u32>,
    coefficients: Seq<nat>,
    h: nat,
    scalars: Seq<nat>,
) -> bool {
    &&& scalars.len() == indices.len()
    &&& forall|k: int|
        0 <= k < indices.len() ==> #[trigger] scalars[k] == (h * poly_eval(
            coefficients,
            indices[k] as nat,
        )) % scalar_modulus()
}

/// The share is what signing the message with the key share gives.
pub open spec fn signed_by(share: SignatureShare, key_share: KeyShare, message: Seq<u8>) -> bool {
    &&& share.index == key_share.index
    &&& share.share.bytes@ == g1_generator_times(
        (message_scalar(message) * key_share.secret_share.value()) % scalar_modulus(),
    )
}

/// The first `count` signature shares were made, in this order, by the key
/// shares at the positions `picks`.
pub open spec fn signed_by_picks(
    shares: Seq<SignatureShare>,
    count: nat,
    key_shares: Seq<KeyShare>,
    picks: Seq<int>,
    message: Seq<u8>,
) -> bool {
    &&& picks.len() == count
    &&& shares.len() >= count
    &&& forall|k: int|
        0 <= k < count ==> 0 <= #[trigger] picks[k] < key_shares.len() && signed_by(
            shares[k],
            key_shares[picks[k]],
            message,
        )
}

/// The scalars by which the generator is multiplied in the shares that the
/// picked key shares sign for the message.
pub open spec fn signed_scalars(key_shares: Seq<KeyShare>, picks: Seq<int>, message: Seq<u8>) -> Seq<
    nat,
> {
    Seq::new(
        picks.len(),
        |k: int|
            (message_scalar(message) * key_shares[picks[k]].secret_share.value())
                % scalar_modulus(),
    )
}

/// Combining the first `upto` scalars gives, in the field, `h` times the sum
/// of the first `upto` weighted values of the polynomial.
proof fn lemma_combined_prefix(
    indices: Seq<u32>,
    coefficients: Seq<nat>,
    h: nat,
    scalars: Seq<nat>,
    upto: nat,
)
    requires
        upto <= indices.len(),
        scaled_values(indices, coefficients, h, scalars),
    ensures
        congruent(
            combined_scalar(indices, scalars, upto) as int,
            h * total(weighted_values(indices, coefficients).take(upto as int)),
        ),
    decreases upto,
{
    let m = scalar_modulus() as int;
    let weighted = weighted_values(indices, coefficients);
    if upto == 0 {
        assert(total(weighted.take(0)) == 0);
        assert(h * 0 == 0);
    } else {
        let k = upto - 1;
        lemma_combined_prefix(indices, coefficients, h, scalars, k as nat);
        let before = combined_scalar(indices, scalars, k as nat) as int;
        let sum_before = total(weighted.take(k));
        let lambda = lagrange_coefficient(indices, k, indices.len()) as int;
        let value = poly_eval(coefficients, indices[k] as nat) as int;
        let scalar = scalars[k] as int;
        assert(weighted.take(upto as int).drop_last() =~= weighted.take(k));
        assert(weighted.take(upto as int).last() == value * lambda);
        assert(total(weighted.take(upto as int)) == sum_before + value * lambda);
        assert(scalar == (h * value) % m);
        lemma_congruent_reduced(h * value);
        lemma_congruent_mul(scalar, h * value, lambda, lambda);
        lemma_congruent_reduced(scalar * lambda);
        lemma_congruent_add(before, h * sum_before, (scalar * lambda) % m, (h * value) * lambda);
        lemma_congruent_reduced(before + (scalar * lambda) % m);
        assert(h * (sum_before + value * lambda) == h * sum_before + (h * value) * lambda)
            by (nonlinear_arith);
    }
}

/// Combining scalars that are `h` times the values of one polynomial at
/// indices whose differences are invertible gives `h` times the constant
/// term, whichever indices they are, provided there are at least as many as
/// coefficients.
pub proof fn lemma_combined_scalar_at_zero(
    indices: Seq<u32>,
    coefficients: Seq<nat>,
    h: nat,
    scalars: Seq<nat>,
)
    requires
        1 <= coefficients.len() <= indices.len(),
        differences_invertible(indices),
        scaled_values(indices, coefficients, h, scalars),
    ensures
        combined_scalar(indices, scalars, indices.len()) == (h * coefficients[0])
            % scalar_modulus(),
{
    let weighted = weighted_values(indices, coefficients);
    let combined = combined_scalar(indices, scalars, indices.len());
    lemma_combined_prefix(indices, coefficients, h, scalars, indices.len());
    assert(weighted.take(indices.len() as int) =~= weighted);
    lemma_interpolation_at_zero(indices, coefficients);
    lemma_congruent_mul(h as int, h as int, total(weighted), coefficients[0] as int);
    assert(combined < scalar_modulus());
    lemma_small_mod(combined, scalar_modulus());
}

/// Honestly signed shares are multiples of the generator, by the scalars
/// that the picked key shares sign with.
pub proof fn lemma_signed_shares_are_multiples(
    shares: Seq<SignatureShare>,
    count: nat,
    key_shares: Seq<KeyShare>,
    picks: Seq<int>,
    message: Seq<u8>,
)
    requires
        signed_by_picks(shares, count, key_shares, picks, message),
    ensures
        shares_are_multiples(shares, count, signed_scalars(key_shares, picks, message)),
{
    let scalars = signed_scalars(key_shares, picks, message);
    assert forall|k: int| 0 <= k < count implies (#[trigger] shares[k]).share.bytes@
        == g1_generator_times(scalars[k]) by {
        assert(signed_by(shares[k], key_shares[picks[k]], message));
    }
}

/// Correctness of the threshold scheme. Take a wallet and key shares dealt
/// from one polynomial, and `threshold` signature shares that distinct key
/// shares signed for one message. Then every share is a multiple of the
/// generator, and the point that combination computes from such shares is
/// the signature of the wallet's public key on the message, which
/// verification accepts. Asked of the indices: that their differences are
/// invertible, which combination establishes of the indices it used.
pub proof fn lemma_combination_is_signature(
    wallet: MPCWallet,
    key_shares: Seq<KeyShare>,
    coefficients: Seq<nat>,
    message: Seq<u8>,
    shares: Seq<SignatureShare>,
    picks: Seq<int>,
)
    requires
        dealt_from(wallet, key_shares, coefficients),
        signed_by_picks(shares, wallet.threshold as nat, key_shares, picks, message),
        differences_invertible(share_indices(shares, wallet.threshold as nat)),
    ensures
        shares_are_multiples(
            shares,
            wallet.threshold as nat,
            signed_scalars(key_shares, picks, message),
        ),
        is_signature_of(
            g1_generator_times(
                combined_scalar(
                    share_indices(shares, wallet.threshold as nat),
                    signed_scalars(key_shares, picks, message),
                    wallet.threshold as nat,
                ),
            ),
            wallet.public_key.bytes@,
            message,
        ),
{
    let count = wallet.threshold as nat;
    let indices = share_indices(shares, count);
    let scalars = signed_scalars(key_shares, picks, message);
    let h = message_scalar(message);
    lemma_picked_scalars(wallet, key_shares, coefficients, message, shares, picks);
    lemma_signed_shares_are_multiples(shares, count, key_shares, picks, message);
    lemma_combined_scalar_at_zero(indices, coefficients, h, scalars);
    assert(signs_with(
        coefficients[0],
        g1_generator_times(combined_scalar(indices, scalars, count)),
        wallet.public_key.bytes@,
        message,
    ));
}

/// Subset independence. Two selections of `threshold` signature shares for
/// one message, each signed by distinct key shares of one dealing, combine to
/// the same scalar, and so, combination giving the generator multiplied by
/// that scalar, to the same signature.
pub proof fn lemma_subsets_agree(
    wallet: MPCWallet,
    key_shares: Seq<KeyShare>,
    coefficients: Seq<nat>,
    message: Seq<u8>,
    first: Seq<SignatureShare>,
    first_picks: Seq<int>,
    second: Seq<SignatureShare>,
    second_picks: Seq<int>,
)
    requires
        dealt_from(wallet, key_shares, coefficients),
        signed_by_picks(first, wallet.threshold as nat, key_shares, first_picks, message),
        signed_by_picks(second, wallet.threshold as nat, key_shares, second_picks, message),
        differences_invertible(share_indices(first, wallet.threshold as nat)),
        differences_invertible(share_indices(second, wallet.threshold as nat)),
    ensures
        combined_scalar(
            share_indices(first, wallet.threshold as nat),
            signed_scalars(key_shares, first_picks, message),
            wallet.threshold as nat,
        ) == combined_scalar(
            share_indices(second, wallet.threshold as nat),
            signed_scalars(key_shares, second_picks, message),
            wallet.threshold as nat,
        ),
{
    let count = wallet.threshold as nat;
    let h = message_scalar(message);
    lemma_picked_scalars(wallet, key_shares, coefficients, message, first, first_picks);
    lemma_picked_scalars(wallet, key_shares, coefficients, message, second, second_picks);
    lemma_combined_scalar_at_zero(
        share_indices(first, count),
        coefficients,
        h,
        signed_scalars(key_shares, first_picks, message),
    );
    lemma_combined_scalar_at_zero(
        share_indices(second, count),
        coefficients,
        h,
        signed_scalars(key_shares, second_picks, message),
    );
}

/// The scalars of honestly signed shares are the message scalar times the
/// polynomial's values at the shares' indices.
proof fn lemma_picked_scalars(
    wallet: MPCWallet,
    key_shares: Seq<KeyShare>,
    coefficients: Seq<nat>,
    message: Seq<u8>,
    shares: Seq<SignatureShare>,
    picks: Seq<int>,
)
    requires
        dealt_from(wallet, key_shares, coefficients),
        signed_by_picks(shares, wallet.threshold as nat, key_shares, picks, message),
    ensures
        scaled_values(
            share_indices(shares, wallet.threshold as nat),
            coefficients,
            message_scalar(message),
            signed_scalars(key_shares, picks, message),
        ),
{
    let count = wallet.threshold as nat;
    let indices = share_indices(shares, count);
    let scalars = signed_scalars(key_shares, picks, message);
    let h = message_scalar(message);
    assert forall|k: int| 0 <= k < count implies #[trigger] scalars[k] == (h * poly_eval(
        coefficients,
        indices[k] as nat,
    )) % scalar_modulus() by {
        let owner = key_shares[picks[k]];
        assert(signed_by(shares[k], owner, message));
        assert(owner.index == picks[k] + 1);
        assert(indices[k] == shares[k].index);
    }
}

} // verus!
