use ark_bls12_381::{Fr, G1Affine, G2Affine};
use ark_ec::AffineRepr;
use ark_serialize::CanonicalSerialize;

use threshold_bls::curve::{G1Point, G2Point, Scalar};
use threshold_bls::errors::MPCError;
use threshold_bls::key::{KeyShare, KEY_SHARE_BYTES};
use threshold_bls::sig::{SignatureShare, SIGNATURE_SHARE_BYTES};
use threshold_bls::wire::{bytes_equal, get_bytes, get_u32, put_bytes, put_u32};

fn scalar_of(value: Fr) -> Scalar {
    let mut bytes = [0u8; 32];
    value.serialize_uncompressed(&mut bytes[..]).unwrap();
    Scalar { bytes }
}

fn g1_generator() -> G1Point {
    let mut bytes = [0u8; 96];
    G1Affine::generator().serialize_uncompressed(&mut bytes[..]).unwrap();
    G1Point { bytes }
}

fn g2_generator() -> G2Point {
    let mut bytes = [0u8; 192];
    G2Affine::generator().serialize_uncompressed(&mut bytes[..]).unwrap();
    G2Point { bytes }
}

#[test]
fn test_key_share_serialization() {
    let key_share = KeyShare {
        index: 1,
        secret_share: scalar_of(Fr::from(1)),
        public_key_share: g2_generator(),
    };
    println!("{:?}", key_share.public_key_share);
    let writer = key_share.serialize();
    let reader = writer.as_slice();
    let key_share2 = KeyShare::deserialize(reader).unwrap();
    assert_eq!(key_share, key_share2);
    println!("writer: {:?}", writer);
    println!("reader: {:?}", reader);
}

#[test]
fn key_share_encoding_is_field_by_field() {
    let key_share = KeyShare {
        index: 0x0403_0201,
        secret_share: scalar_of(Fr::from(258u64)),
        public_key_share: g2_generator(),
    };
    let bytes = key_share.serialize();
    assert_eq!(bytes.len(), KEY_SHARE_BYTES);
    assert_eq!(bytes.len(), 228);
    assert_eq!(&bytes[0..4], &[1u8, 2, 3, 4]);
    assert_eq!(&bytes[4..7], &[2u8, 1, 0]);
    assert!(bytes[7..36].iter().all(|b| *b == 0));
    assert_eq!(&bytes[36..], &g2_generator().bytes[..]);

    let mut expected: Vec<u8> = Vec::new();
    key_share.index.serialize_uncompressed(&mut expected).unwrap();
    Fr::from(258u64).serialize_uncompressed(&mut expected).unwrap();
    G2Affine::generator().serialize_uncompressed(&mut expected).unwrap();
    assert_eq!(bytes, expected);
}

#[test]
fn an_unreduced_secret_is_encoded_reduced() {
    let key_share = KeyShare {
        index: 2,
        secret_share: Scalar { bytes: [0xffu8; 32] },
        public_key_share: g2_generator(),
    };
    let bytes = key_share.serialize();
    let decoded = KeyShare::deserialize(&bytes).unwrap();
    assert_ne!(decoded.secret_share, key_share.secret_share);
    assert_eq!(decoded.serialize(), bytes);
}

#[test]
fn key_share_decoding_ignores_what_follows() {
    let key_share = KeyShare {
        index: 77,
        secret_share: scalar_of(Fr::from(5u64)),
        public_key_share: g2_generator(),
    };
    let mut bytes = key_share.serialize();
    bytes.extend_from_slice(&[9, 9, 9]);
    assert_eq!(KeyShare::deserialize(&bytes).unwrap(), key_share);
}

#[test]
fn malformed_key_shares_are_refused() {
    let key_share = KeyShare {
        index: 1,
        secret_share: scalar_of(Fr::from(1u64)),
        public_key_share: g2_generator(),
    };
    let bytes = key_share.serialize();
    assert!(matches!(KeyShare::deserialize(&bytes[..227]), Err(MPCError::SerializationError(_))));
    assert!(matches!(KeyShare::deserialize(&[]), Err(MPCError::SerializationError(_))));

    let mut bad_scalar = bytes.clone();
    for byte in bad_scalar[4..36].iter_mut() {
        *byte = 0xff;
    }
    assert!(matches!(KeyShare::deserialize(&bad_scalar), Err(MPCError::SerializationError(_))));

    let mut bad_point = bytes.clone();
    bad_point[100] ^= 0x01;
    assert!(matches!(KeyShare::deserialize(&bad_point), Err(MPCError::SerializationError(_))));
    match KeyShare::deserialize(&bad_point) {
        Err(MPCError::SerializationError(reason)) => assert!(!reason.is_empty()),
        _ => panic!("a malformed point must not decode"),
    }
}

#[test]
fn signature_share_round_trip() {
    let share = SignatureShare { index: 3, share: g1_generator() };
    let bytes = share.serialize();
    assert_eq!(bytes.len(), SIGNATURE_SHARE_BYTES);
    assert_eq!(bytes.len(), 100);
    assert_eq!(&bytes[0..4], &[3u8, 0, 0, 0]);
    assert_eq!(&bytes[4..], &g1_generator().bytes[..]);
    assert_eq!(SignatureShare::deserialize(&bytes).unwrap(), share);

    let infinity = {
        let mut raw = [0u8; 96];
        G1Affine::zero().serialize_uncompressed(&mut raw[..]).unwrap();
        SignatureShare { index: u32::MAX, share: G1Point { bytes: raw } }
    };
    assert_eq!(SignatureShare::deserialize(&infinity.serialize()).unwrap(), infinity);
}

#[test]
fn malformed_signature_shares_are_refused() {
    let share = SignatureShare { index: 3, share: g1_generator() };
    let bytes = share.serialize();
    assert!(matches!(
        SignatureShare::deserialize(&bytes[..99]),
        Err(MPCError::SerializationError(_))
    ));
    let mut bad_point = bytes.clone();
    bad_point[50] ^= 0x80;
    assert!(matches!(
        SignatureShare::deserialize(&bad_point),
        Err(MPCError::SerializationError(_))
    ));
    let undecodable = SignatureShare { index: 1, share: G1Point { bytes: [0xffu8; 96] } };
    assert!(matches!(
        SignatureShare::deserialize(&undecodable.serialize()),
        Err(MPCError::SerializationError(_))
    ));
}

#[test]
fn integers_and_fields_are_framed_little_endian() {
    let mut out: Vec<u8> = vec![0xaa];
    put_u32(&mut out, 0xdead_beef);
    put_bytes(&mut out, &[1, 2, 3]);
    put_u32(&mut out, 0);
    assert_eq!(out, vec![0xaa, 0xef, 0xbe, 0xad, 0xde, 1, 2, 3, 0, 0, 0, 0]);
    assert_eq!(get_u32(&out, 1), 0xdead_beef);
    assert_eq!(get_u32(&out, 8), 0);
    assert_eq!(get_u32(&[0xff, 0xff, 0xff, 0xff], 0), u32::MAX);
    let field: [u8; 3] = get_bytes(&out, 5);
    assert_eq!(field, [1, 2, 3]);
    let nothing: [u8; 0] = get_bytes(&out, 12);
    assert_eq!(nothing.len(), 0);
}

#[test]
fn byte_strings_are_compared_in_full() {
    assert!(bytes_equal(&[], &[]));
    assert!(bytes_equal(&[1, 2, 3], &[1, 2, 3]));
    assert!(!bytes_equal(&[1, 2, 3], &[1, 2, 4]));
    assert!(!bytes_equal(&[1, 2, 3], &[1, 2]));
    assert!(!bytes_equal(&[0, 2, 3], &[1, 2, 3]));
}
