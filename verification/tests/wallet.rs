use ark_bls12_381::{Fr, G1Affine, G1Projective, G2Affine, G2Projective};
use ark_ec::{AffineRepr, CurveGroup, PrimeGroup};
use ark_ff::{Field, PrimeField};
use ark_serialize::{CanonicalDeserialize, CanonicalSerialize};
use ark_std::{test_rng, UniformRand};
use sha2::{Digest, Sha256};

use threshold_bls::curve::{G1Point, G2Point, Scalar};
use threshold_bls::errors::MPCError;
use threshold_bls::key::KeyShare;
use threshold_bls::lagrange::coefficient_at_zero;
use threshold_bls::sharing::{evaluate, generate};
use threshold_bls::sig::SignatureShare;
use threshold_bls::wallet::MPCWallet;

fn scalar_of(value: Fr) -> Scalar {
    let mut bytes = [0u8; 32];
    value.serialize_uncompressed(&mut bytes[..]).unwrap();
    Scalar { bytes }
}

fn fr_of(scalar: &Scalar) -> Fr {
    Fr::from_le_bytes_mod_order(&scalar.bytes)
}

fn small(n: u64) -> Scalar {
    scalar_of(Fr::from(n))
}

fn g1_of(point: G1Affine) -> G1Point {
    let mut bytes = [0u8; 96];
    point.serialize_uncompressed(&mut bytes[..]).unwrap();
    G1Point { bytes }
}

fn g2_of(point: G2Affine) -> G2Point {
    let mut bytes = [0u8; 192];
    point.serialize_uncompressed(&mut bytes[..]).unwrap();
    G2Point { bytes }
}

fn sign_with(message: &[u8], shares: &[KeyShare], picks: &[usize]) -> Vec<SignatureShare> {
    picks.iter().map(|i| MPCWallet::sign_share(message, &shares[*i])).collect()
}

#[test]
fn lib_test_keygen() {
    let threshold: usize = 3;
    let total_participants: usize = 5;
    let mut rng = test_rng();
    let (wallet, shares) = MPCWallet::keygen(threshold, total_participants, &mut rng)
        .expect("Keygen should succeed in test");
    assert_eq!(wallet.threshold, threshold);
    assert_eq!(wallet.total_participants, total_participants);
    assert_eq!(shares.len(), total_participants);
    println!("wallet: {:?}", wallet);
    println!("shares: {:?}", shares);
}

#[test]
fn lib_test_hash_to_curve() {
    let message = b"hello world";
    let point = MPCWallet::hash_to_curve(message);
    println!("point: {:?}", point);
}

#[test]
fn lib_test_sign_and_verify() {
    let mut rng = test_rng();

    let sk = Fr::rand(&mut rng);
    let pk = (G2Projective::generator() * sk).into_affine();

    let key_share = KeyShare { index: 0, secret_share: scalar_of(sk), public_key_share: g2_of(pk) };

    let message = b"hello MPC BLS!";
    let sig = MPCWallet::sign_share(message, &key_share);

    let result = MPCWallet::verify(&g2_of(pk), message, &sig.share);
    assert!(result.is_ok(), "Signature should verify");
}

#[test]
fn lib_test_sign_share() {
    let threshold: usize = 3;
    let total_participants: usize = 5;
    let mut rng = test_rng();
    let (wallet, shares) = MPCWallet::keygen(threshold, total_participants, &mut rng)
        .expect("Keygen should succeed in test");

    let message = b"Send 1 BTC to Alice";

    let sig_share1 = MPCWallet::sign_share(message, &shares[0]);
    let sig_share2 = MPCWallet::sign_share(message, &shares[1]);
    let sig_share3 = MPCWallet::sign_share(message, &shares[2]);

    let signature = wallet
        .combine_signature_shares(&[sig_share1, sig_share2, sig_share3])
        .map_err(|e| {
            println!("Error combining signature shares: {:?}", e);
            e
        })
        .unwrap();

    println!("Generated signature: {:?}", signature);

    let result = MPCWallet::verify(&wallet.public_key, message, &signature)
        .map_err(|e| println!("Error verifying signature: {:?}", e));
    assert!(result.is_ok(), "Signature should verify");
}

#[test]
fn wallet_test_keygen() {
    let threshold: usize = 3;
    let total_participants: usize = 5;
    let mut rng = test_rng();
    let (wallet, shares) = MPCWallet::keygen(threshold, total_participants, &mut rng)
        .expect("Keygen should succeed in test");
    assert_eq!(wallet.threshold, threshold);
    assert_eq!(wallet.total_participants, total_participants);
    assert_eq!(shares.len(), total_participants);
    println!("wallet: {:?}", wallet);
    println!("shares: {:?}", shares);
}

#[test]
fn wallet_test_hash_to_curve() {
    let message = b"hello world";
    let point = MPCWallet::hash_to_curve(message);
    println!("point: {:?}", point);
}

#[test]
fn wallet_test_sign_and_verify() {
    let mut rng = test_rng();

    let sk = Fr::rand(&mut rng);
    let pk = (G2Projective::generator() * sk).into_affine();

    let key_share = KeyShare { index: 0, secret_share: scalar_of(sk), public_key_share: g2_of(pk) };

    let message = b"hello MPC BLS!";
    let sig = MPCWallet::sign_share(message, &key_share);

    let result = MPCWallet::verify(&g2_of(pk), message, &sig.share);
    assert!(result.is_ok(), "Signature should verify");
}

#[test]
fn wallet_test_sign_share() {
    let threshold: usize = 3;
    let total_participants: usize = 5;
    let mut rng = test_rng();
    let (wallet, shares) = MPCWallet::keygen(threshold, total_participants, &mut rng)
        .expect("Keygen should succeed in test");

    let message = b"Send 1 BTC to Alice";

    let sig_share1 = MPCWallet::sign_share(message, &shares[0]);
    let sig_share2 = MPCWallet::sign_share(message, &shares[1]);
    let sig_share3 = MPCWallet::sign_share(message, &shares[2]);

    let signature = wallet
        .combine_signature_shares(&[sig_share1, sig_share2, sig_share3])
        .map_err(|e| {
            println!("Error combining signature shares: {:?}", e);
            e
        })
        .unwrap();

    println!("Generated signature: {:?}", signature);

    let result = MPCWallet::verify(&wallet.public_key, message, &signature)
        .map_err(|e| println!("Error verifying signature: {:?}", e));
    assert!(result.is_ok(), "Signature should verify");
}

#[test]
fn scenario_three_of_five_signs_and_rejects_another_message() {
    let mut rng = test_rng();
    let (wallet, shares) = MPCWallet::keygen(3, 5, &mut rng).unwrap();
    assert_eq!(shares.len(), 5);
    let message = b"Send 1 BTC to Alice";
    let signature = wallet.combine_signature_shares(&sign_with(message, &shares, &[0, 1, 2])).unwrap();
    assert!(MPCWallet::verify(&wallet.public_key, message, &signature).is_ok());
    let other = MPCWallet::verify(&wallet.public_key, b"Send 2 BTC to Alice", &signature);
    assert!(matches!(other, Err(MPCError::VerificationFailed)));
}

#[test]
fn every_threshold_subset_gives_a_signature_that_verifies() {
    let mut rng = test_rng();
    let message = b"threshold subsets";
    for threshold in 1..=4usize {
        let (wallet, shares) = MPCWallet::keygen(threshold, 4, &mut rng).unwrap();
        let subsets: Vec<Vec<usize>> = match threshold {
            1 => vec![vec![0], vec![3]],
            2 => vec![vec![0, 1], vec![3, 1], vec![2, 0]],
            3 => vec![vec![0, 1, 2], vec![3, 2, 1], vec![0, 3, 1]],
            _ => vec![vec![0, 1, 2, 3], vec![3, 1, 0, 2]],
        };
        for subset in subsets {
            let signature =
                wallet.combine_signature_shares(&sign_with(message, &shares, &subset)).unwrap();
            assert!(MPCWallet::verify(&wallet.public_key, message, &signature).is_ok());
        }
    }
}

#[test]
fn different_subsets_combine_to_the_same_signature() {
    let mut rng = test_rng();
    let (wallet, shares) = MPCWallet::keygen(3, 5, &mut rng).unwrap();
    let message = b"subset independence";
    let first = wallet.combine_signature_shares(&sign_with(message, &shares, &[0, 1, 2])).unwrap();
    let second = wallet.combine_signature_shares(&sign_with(message, &shares, &[4, 2, 3])).unwrap();
    let third = wallet.combine_signature_shares(&sign_with(message, &shares, &[1, 3, 0])).unwrap();
    assert_eq!(first, second);
    assert_eq!(first, third);
}

#[test]
fn only_the_first_threshold_shares_are_used() {
    let mut rng = test_rng();
    let (wallet, shares) = MPCWallet::keygen(2, 4, &mut rng).unwrap();
    let message = b"extra shares";
    let two = wallet.combine_signature_shares(&sign_with(message, &shares, &[1, 3])).unwrap();
    let mut more = sign_with(message, &shares, &[1, 3, 0]);
    more.push(SignatureShare { index: 9, share: G1Point { bytes: [7u8; 96] } });
    assert_eq!(wallet.combine_signature_shares(&more).unwrap(), two);
}

#[test]
fn too_few_shares_are_refused() {
    let mut rng = test_rng();
    let (wallet, shares) = MPCWallet::keygen(3, 5, &mut rng).unwrap();
    let message = b"too few";
    let two = sign_with(message, &shares, &[0, 1]);
    assert!(matches!(wallet.combine_signature_shares(&two), Err(MPCError::InsufficientShares)));
    assert!(matches!(wallet.combine_signature_shares(&[]), Err(MPCError::InsufficientShares)));
}

#[test]
fn a_malformed_share_is_refused() {
    let mut rng = test_rng();
    let (wallet, shares) = MPCWallet::keygen(2, 3, &mut rng).unwrap();
    let mut signed = sign_with(b"malformed", &shares, &[0, 1]);
    signed[1].share = G1Point { bytes: [0xffu8; 96] };
    assert!(matches!(wallet.combine_signature_shares(&signed), Err(MPCError::InvalidShare)));
}

#[test]
fn a_changed_message_byte_fails_verification() {
    let mut rng = test_rng();
    let (wallet, shares) = MPCWallet::keygen(2, 3, &mut rng).unwrap();
    let message = b"tamper".to_vec();
    let signature = wallet.combine_signature_shares(&sign_with(&message, &shares, &[0, 2])).unwrap();
    assert!(MPCWallet::verify(&wallet.public_key, &message, &signature).is_ok());
    for position in 0..message.len() {
        let mut changed = message.clone();
        changed[position] ^= 0x01;
        let result = MPCWallet::verify(&wallet.public_key, &changed, &signature);
        assert!(matches!(result, Err(MPCError::VerificationFailed)));
    }
}

#[test]
fn verification_refuses_wrong_keys_and_malformed_points() {
    let mut rng = test_rng();
    let (wallet, shares) = MPCWallet::keygen(2, 3, &mut rng).unwrap();
    let (other_wallet, _) = MPCWallet::keygen(2, 3, &mut rng).unwrap();
    let message = b"wrong key";
    let signature = wallet.combine_signature_shares(&sign_with(message, &shares, &[0, 1])).unwrap();
    assert!(matches!(
        MPCWallet::verify(&other_wallet.public_key, message, &signature),
        Err(MPCError::VerificationFailed)
    ));
    assert!(matches!(
        MPCWallet::verify(&wallet.public_key, message, &G1Point { bytes: [1u8; 96] }),
        Err(MPCError::VerificationFailed)
    ));
    assert!(matches!(
        MPCWallet::verify(&G2Point { bytes: [1u8; 192] }, message, &signature),
        Err(MPCError::VerificationFailed)
    ));
    let single = MPCWallet::sign_share(message, &shares[0]);
    assert!(matches!(
        MPCWallet::verify(&wallet.public_key, message, &single.share),
        Err(MPCError::VerificationFailed)
    ));
}

#[test]
fn keygen_validates_its_parameters() {
    let mut rng = test_rng();
    assert!(matches!(MPCWallet::keygen(0, 5, &mut rng), Err(MPCError::InvalidThreshold(0))));
    assert!(matches!(MPCWallet::keygen(6, 5, &mut rng), Err(MPCError::InvalidThreshold(6))));
    assert!(matches!(MPCWallet::keygen(3, 1, &mut rng), Err(MPCError::InvalidParticipants(1))));
    assert!(matches!(MPCWallet::keygen(0, 0, &mut rng), Err(MPCError::InvalidParticipants(0))));
    assert!(MPCWallet::keygen(1, 2, &mut rng).is_ok());
    assert!(MPCWallet::keygen(5, 5, &mut rng).is_ok());
}

#[test]
fn key_shares_commit_to_their_secrets() {
    let mut rng = test_rng();
    let (_, shares) = MPCWallet::keygen(3, 5, &mut rng).unwrap();
    for (position, share) in shares.iter().enumerate() {
        assert_eq!(share.index as usize, position + 1);
        let expected = (G2Projective::generator() * fr_of(&share.secret_share)).into_affine();
        assert_eq!(share.public_key_share, g2_of(expected));
    }
}

#[test]
fn dealing_evaluates_the_polynomial_at_the_indices() {
    let coefficients = vec![small(1), small(2), small(3)];
    let (wallet, shares) = MPCWallet::deal(3, &coefficients);
    assert_eq!(wallet.threshold, 3);
    assert_eq!(wallet.total_participants, 3);
    assert_eq!(wallet.public_key, g2_of(G2Affine::generator()));
    assert_eq!(shares[0].secret_share, small(6));
    assert_eq!(shares[1].secret_share, small(17));
    assert_eq!(shares[2].secret_share, small(34));
    assert_eq!(shares[1].index, 2);
    let seventeen = (G2Projective::generator() * Fr::from(17u64)).into_affine();
    assert_eq!(shares[1].public_key_share, g2_of(seventeen));
}

#[test]
fn scalar_polynomial_evaluation() {
    let coefficients = vec![small(1), small(2), small(3)];
    assert_eq!(evaluate(&coefficients, &small(2)), small(17));
    assert_eq!(evaluate(&coefficients, &small(0)), small(1));
    assert_eq!(evaluate(&Vec::new(), &small(5)), small(0));
    let minus_one = scalar_of(-Fr::from(1u64));
    assert_eq!(evaluate(&coefficients, &minus_one), small(2));
    let unreduced = Scalar { bytes: [0xffu8; 32] };
    let expected = Fr::from(1u64) + Fr::from(2u64) * fr_of(&unreduced)
        + Fr::from(3u64) * fr_of(&unreduced) * fr_of(&unreduced);
    assert_eq!(evaluate(&coefficients, &unreduced), scalar_of(expected));
}

#[test]
fn generated_coefficients_are_reduced_scalars() {
    let mut rng = test_rng();
    let secret = Scalar { bytes: [0xffu8; 32] };
    let coefficients = generate(secret, 4, &mut rng);
    assert_eq!(coefficients.len(), 4);
    assert_eq!(coefficients[0], secret);
    for coefficient in coefficients.iter().skip(1) {
        assert!(Fr::deserialize_uncompressed(&coefficient.bytes[..]).is_ok());
    }
    assert_ne!(coefficients[1], coefficients[2]);
    assert_eq!(generate(small(9), 1, &mut rng), vec![small(9)]);
}

#[test]
fn lagrange_coefficients_of_one_two_three() {
    let indices: Vec<u32> = vec![1, 2, 3];
    assert_eq!(coefficient_at_zero(&indices, 0), small(3));
    assert_eq!(coefficient_at_zero(&indices, 1), scalar_of(-Fr::from(3u64)));
    assert_eq!(coefficient_at_zero(&indices, 2), small(1));
    assert_eq!(coefficient_at_zero(&vec![7], 0), small(1));
    let pair: Vec<u32> = vec![5, 2];
    let expected = Fr::from(2u64) * (Fr::from(2u64) - Fr::from(5u64)).inverse().unwrap();
    assert_eq!(coefficient_at_zero(&pair, 0), scalar_of(expected));
}

#[test]
fn hash_to_curve_multiplies_the_generator_by_the_digest() {
    let message = b"hello world";
    let digest = Sha256::digest(message);
    let scalar = Fr::from_le_bytes_mod_order(&digest);
    let expected = (G1Projective::generator() * scalar).into_affine();
    assert_eq!(MPCWallet::hash_to_curve(message), g1_of(expected));
    assert_ne!(MPCWallet::hash_to_curve(b"hello worle"), g1_of(expected));
    assert_eq!(MPCWallet::hash_to_curve(message), MPCWallet::hash_to_curve(message));
}

#[test]
fn sign_share_multiplies_the_message_point_by_the_secret() {
    let message = b"partial";
    let secret = Fr::from(123456789u64);
    let public = (G2Projective::generator() * secret).into_affine();
    let key_share =
        KeyShare { index: 4, secret_share: scalar_of(secret), public_key_share: g2_of(public) };
    let signed = MPCWallet::sign_share(message, &key_share);
    let digest = Sha256::digest(message);
    let point = G1Projective::generator() * Fr::from_le_bytes_mod_order(&digest);
    assert_eq!(signed.index, 4);
    assert_eq!(signed.share, g1_of((point * secret).into_affine()));
}

#[test]
fn combination_with_threshold_zero_is_the_identity() {
    let wallet =
        MPCWallet { threshold: 0, total_participants: 2, public_key: g2_of(G2Affine::generator()) };
    let combined = wallet.combine_signature_shares(&[]).unwrap();
    assert_eq!(combined, g1_of(G1Affine::zero()));
}

#[test]
fn group_membership_checks() {
    assert!(MPCWallet::is_signature_point(&g1_of(G1Affine::generator())));
    assert!(MPCWallet::is_signature_point(&g1_of(G1Affine::zero())));
    assert!(!MPCWallet::is_signature_point(&G1Point { bytes: [0u8; 96] }));
    assert!(!MPCWallet::is_signature_point(&G1Point { bytes: [0xffu8; 96] }));
    assert!(MPCWallet::is_public_key_point(&g2_of(G2Affine::generator())));
    assert!(!MPCWallet::is_public_key_point(&G2Point { bytes: [3u8; 192] }));
}

#[test]
fn distinct_indices_are_recognised() {
    let point = g1_of(G1Affine::generator());
    let share = |index: u32| SignatureShare { index, share: point };
    let shares = vec![share(1), share(2), share(3), share(2)];
    assert!(MPCWallet::has_distinct_indices(&shares, 0));
    assert!(MPCWallet::has_distinct_indices(&shares, 1));
    assert!(MPCWallet::has_distinct_indices(&shares, 3));
    assert!(!MPCWallet::has_distinct_indices(&shares, 4));
    assert!(!MPCWallet::has_distinct_indices(&[share(5), share(5)], 2));
}

#[test]
fn a_new_key_share_commits_to_its_secret() {
    let share = KeyShare::new(7, small(17));
    let seventeen = (G2Projective::generator() * Fr::from(17u64)).into_affine();
    assert_eq!(share.index, 7);
    assert_eq!(share.secret_share, small(17));
    assert_eq!(share.public_key_share, g2_of(seventeen));
    assert!(share.check_consistency());
    let forged = KeyShare { index: 7, secret_share: small(18), public_key_share: g2_of(seventeen) };
    assert!(!forged.check_consistency());
    let unreduced = KeyShare::new(1, Scalar { bytes: [0xffu8; 32] });
    assert!(unreduced.check_consistency());
}
