//! The boundary to the BLS12-381 arithmetic: scalars and group elements held
//! as their canonical byte encodings, and the operations on them.
//!
//! Every function marked `external_body` here is believed, not proved: each
//! doc comment says which library call it makes and what is claimed of it.

use ark_bls12_381::{Bls12_381, Fr, G1Affine, G1Projective, G2Affine, G2Projective};
use ark_ec::pairing::Pairing;
use ark_ec::{AffineRepr, CurveGroup, PrimeGroup};
use ark_ff::{Field, PrimeField};
use ark_serialize::{CanonicalDeserialize, CanonicalSerialize};
use ark_std::rand::RngCore;
use ark_std::UniformRand;
use sha2::{Digest, Sha256};
use vstd::prelude::*;

verus! {

/// The order of the groups `G1`, `G2` and of the scalar field.
pub open spec fn scalar_modulus() -> nat {
    0x73eda753299d7d483339d80809a1d805 * 0x1_0000_0000_0000_0000 * 0x1_0000_0000_0000_0000
        + 0x53bda402fffe5bfeffffffff00000001
}

/// The number that a byte string denotes, least significant byte first.
pub open spec fn le_nat(bytes: Seq<u8>) -> nat
    decreases bytes.len(),
{
    if bytes.len() == 0 {
        0
    } else {
        bytes[0] as nat + 256 * le_nat(bytes.drop_first())
    }
}

/// An element of the scalar field, as 32 little-endian bytes. Any 32 bytes
/// stand for a scalar: the number they denote, reduced by the modulus.
#[derive(Clone, Copy, Debug, PartialEq, Eq)]
pub struct Scalar {
    pub bytes: [u8; 32],
}

impl Scalar {
    /// The field element, as a number below the modulus.
    pub open spec fn value(&self) -> nat {
        le_nat(self.bytes@) % scalar_modulus()
    }

    /// The bytes are the one encoding that is already reduced.
    pub open spec fn is_canonical(&self) -> bool {
        le_nat(self.bytes@) < scalar_modulus()
    }
}

/// An element of `G1` (signatures and message points), as the 96 bytes of its
/// uncompressed encoding.
#[derive(Clone, Copy, Debug, PartialEq, Eq)]
pub struct G1Point {
    pub bytes: [u8; 96],
}

/// An element of `G2` (public keys), as the 192 bytes of its uncompressed
/// encoding.
#[derive(Clone, Copy, Debug, PartialEq, Eq)]
pub struct G2Point {
    pub bytes: [u8; 192],
}

/// The SHA-256 digest of a message.
pub uninterp spec fn sha256_digest(message: Seq<u8>) -> Seq<u8>;

/// Whether 96 bytes decode, with the subgroup check, to a `G1` point.
pub uninterp spec fn g1_decodes(encoding: Seq<u8>) -> bool;

/// Whether the point that 96 bytes decode to satisfies the curve equation.
pub uninterp spec fn g1_on_curve(encoding: Seq<u8>) -> bool;

/// Whether 192 bytes decode, with the subgroup check, to a `G2` point.
pub uninterp spec fn g2_decodes(encoding: Seq<u8>) -> bool;

/// Whether the point that 192 bytes decode to satisfies the curve equation.
pub uninterp spec fn g2_on_curve(encoding: Seq<u8>) -> bool;

/// The encoding of the `G1` generator multiplied by a scalar.
pub uninterp spec fn g1_generator_times(scalar: nat) -> Seq<u8>;

/// The encoding of the `G2` generator multiplied by a scalar.
pub uninterp spec fn g2_generator_times(scalar: nat) -> Seq<u8>;

/// The encoding of a `G1` point multiplied by a scalar.
pub uninterp spec fn g1_times(point: Seq<u8>, scalar: nat) -> Seq<u8>;

/// The encoding of the sum of two `G1` points.
pub uninterp spec fn g1_plus(left: Seq<u8>, right: Seq<u8>) -> Seq<u8>;

/// The encoding of the pairing of a `G1` point with a `G2` point.
pub uninterp spec fn pairing_value(p: Seq<u8>, q: Seq<u8>) -> Seq<u8>;

/// The bytes encode a point of the prime-order subgroup of `G1`.
pub open spec fn g1_member(encoding: Seq<u8>) -> bool {
    g1_decodes(encoding) && g1_on_curve(encoding)
}

/// The bytes encode a point of the prime-order subgroup of `G2`.
pub open spec fn g2_member(encoding: Seq<u8>) -> bool {
    g2_decodes(encoding) && g2_on_curve(encoding)
}

impl G1Point {
    /// The bytes are the encoding of a point of the signature group.
    pub open spec fn is_valid(&self) -> bool {
        g1_member(self.bytes@)
    }
}

impl G2Point {
    /// The bytes are the encoding of a point of the public-key group.
    pub open spec fn is_valid(&self) -> bool {
        g2_member(self.bytes@)
    }
}

/// `Fr::from_le_bytes_mod_order`, then `Fr`'s `+`. Claimed: the sum of the two
/// field elements, in its reduced encoding.
#[verifier::external_body]
pub(crate) fn scalar_add(a: &Scalar, b: &Scalar) -> (r: Scalar)
    ensures
        r.is_canonical(),
        r.value() == (a.value() + b.value()) % scalar_modulus(),
{
    let sum = Fr::from_le_bytes_mod_order(&a.bytes) + Fr::from_le_bytes_mod_order(&b.bytes);
    let mut bytes = [0u8; 32];
    sum.serialize_uncompressed(&mut bytes[..]).unwrap();
    Scalar { bytes }
}

/// `Fr`'s `-`. Claimed: the difference of the two field elements, in its
/// reduced encoding.
#[verifier::external_body]
pub(crate) fn scalar_sub(a: &Scalar, b: &Scalar) -> (r: Scalar)
    ensures
        r.is_canonical(),
        r.value() == (a.value() - b.value()) % (scalar_modulus() as int),
{
    let diff = Fr::from_le_bytes_mod_order(&a.bytes) - Fr::from_le_bytes_mod_order(&b.bytes);
    let mut bytes = [0u8; 32];
    diff.serialize_uncompressed(&mut bytes[..]).unwrap();
    Scalar { bytes }
}

/// `Fr`'s `*`. Claimed: the product of the two field elements, in its reduced
/// encoding.
#[verifier::external_body]
pub(crate) fn scalar_mul(a: &Scalar, b: &Scalar) -> (r: Scalar)
    ensures
        r.is_canonical(),
        r.value() == (a.value() * b.value()) % scalar_modulus(),
{
    let product = Fr::from_le_bytes_mod_order(&a.bytes) * Fr::from_le_bytes_mod_order(&b.bytes);
    let mut bytes = [0u8; 32];
    product.serialize_uncompressed(&mut bytes[..]).unwrap();
    Scalar { bytes }
}

/// `Field::inverse` on `Fr`, which is `None` only for zero. Claimed: the
/// result times the argument is one, in its reduced encoding.
#[verifier::external_body]
pub(crate) fn scalar_inverse(a: &Scalar) -> (r: Scalar)
    requires
        a.value() != 0,
    ensures
        r.is_canonical(),
        (r.value() * a.value()) % scalar_modulus() == 1,
{
    let inverse = Fr::from_le_bytes_mod_order(&a.bytes).inverse().unwrap();
    let mut bytes = [0u8; 32];
    inverse.serialize_uncompressed(&mut bytes[..]).unwrap();
    Scalar { bytes }
}

/// `Fr::from` on a `u32`. Claimed: the field element of that number, in its
/// reduced encoding.
#[verifier::external_body]
pub(crate) fn scalar_from_u32(n: u32) -> (r: Scalar)
    ensures
        r.is_canonical(),
        r.value() == n,
{
    let mut bytes = [0u8; 32];
    Fr::from(n).serialize_uncompressed(&mut bytes[..]).unwrap();
    Scalar { bytes }
}

/// `Fr::rand`. Claimed: only that the element comes in its reduced encoding.
#[verifier::external_body]
pub(crate) fn scalar_random<R: RngCore>(rng: &mut R) -> (r: Scalar)
    ensures
        r.is_canonical(),
{
    let mut bytes = [0u8; 32];
    Fr::rand(rng).serialize_uncompressed(&mut bytes[..]).unwrap();
    Scalar { bytes }
}

/// `CanonicalDeserialize::deserialize_uncompressed` on `Fr`, which accepts
/// exactly the numbers below the modulus. The error is the decoder's own
/// description.
#[verifier::external_body]
pub(crate) fn scalar_decode(bytes: &[u8; 32]) -> (r: Result<(), String>)
    ensures
        r is Ok <==> le_nat(bytes@) < scalar_modulus(),
{
    match Fr::deserialize_uncompressed(&bytes[..]) {
        Ok(_) => Ok(()),
        Err(e) => Err(e.to_string()),
    }
}

/// `Sha256::digest`.
#[verifier::external_body]
pub(crate) fn sha256(message: &[u8]) -> (digest: [u8; 32])
    ensures
        digest@ == sha256_digest(message@),
{
    Sha256::digest(message).into()
}

/// `G1Affine::deserialize_uncompressed`, then `is_on_curve` on the point. The
/// error is the decoder's own description. Claimed besides the names: the
/// encoding of a multiple of the generator decodes to a point of the curve.
#[verifier::external_body]
pub(crate) fn g1_decode(bytes: &[u8; 96]) -> (r: Result<bool, String>)
    ensures
        r is Ok <==> g1_decodes(bytes@),
        r is Ok ==> r->Ok_0 == g1_on_curve(bytes@),
        forall|n: nat| bytes@ == #[trigger] g1_generator_times(n) ==> r is Ok && r->Ok_0,
{
    match G1Affine::deserialize_uncompressed(&bytes[..]) {
        Ok(point) => Ok(point.is_on_curve()),
        Err(e) => Err(e.to_string()),
    }
}

/// `G2Affine::deserialize_uncompressed`, then `is_on_curve` on the point. The
/// error is the decoder's own description. Claimed besides the names: the
/// encoding of a multiple of the generator decodes to a point of the curve.
#[verifier::external_body]
pub(crate) fn g2_decode(bytes: &[u8; 192]) -> (r: Result<bool, String>)
    ensures
        r is Ok <==> g2_decodes(bytes@),
        r is Ok ==> r->Ok_0 == g2_on_curve(bytes@),
        forall|n: nat| bytes@ == #[trigger] g2_generator_times(n) ==> r is Ok && r->Ok_0,
{
    match G2Affine::deserialize_uncompressed(&bytes[..]) {
        Ok(point) => Ok(point.is_on_curve()),
        Err(e) => Err(e.to_string()),
    }
}

/// `G1Projective::generator() * scalar`. Claimed besides the name: a multiple
/// of the generator is a point of the subgroup.
#[verifier::external_body]
pub(crate) fn g1_mul_generator(scalar: &Scalar) -> (r: G1Point)
    ensures
        r.bytes@ == g1_generator_times(scalar.value()),
        r.is_valid(),
{
    let point = G1Projective::generator() * Fr::from_le_bytes_mod_order(&scalar.bytes);
    let mut bytes = [0u8; 96];
    point.into_affine().serialize_uncompressed(&mut bytes[..]).unwrap();
    G1Point { bytes }
}

/// `G2Projective::generator() * scalar`. Claimed besides the name: a multiple
/// of the generator is a point of the subgroup.
#[verifier::external_body]
pub(crate) fn g2_mul_generator(scalar: &Scalar) -> (r: G2Point)
    ensures
        r.bytes@ == g2_generator_times(scalar.value()),
        r.is_valid(),
{
    let point = G2Projective::generator() * Fr::from_le_bytes_mod_order(&scalar.bytes);
    let mut bytes = [0u8; 192];
    point.into_affine().serialize_uncompressed(&mut bytes[..]).unwrap();
    G2Point { bytes }
}

/// `G1Projective`'s `*` by an `Fr`. Claimed besides the name: a multiple of a
/// point of the subgroup is one, and multiplying the generator first by `a`
/// and then by `s` multiplies it by their product.
#[verifier::external_body]
pub(crate) fn g1_mul(point: &G1Point, scalar: &Scalar) -> (r: G1Point)
    requires
        point.is_valid(),
    ensures
        r.bytes@ == g1_times(point.bytes@, scalar.value()),
        r.is_valid(),
        forall|a: nat|
            point.bytes@ == #[trigger] g1_generator_times(a) ==> r.bytes@ == g1_generator_times(
                (a * scalar.value()) % scalar_modulus(),
            ),
{
    let p = G1Affine::deserialize_uncompressed(&point.bytes[..]).unwrap();
    let product = G1Projective::from(p) * Fr::from_le_bytes_mod_order(&scalar.bytes);
    let mut bytes = [0u8; 96];
    product.into_affine().serialize_uncompressed(&mut bytes[..]).unwrap();
    G1Point { bytes }
}

/// `G1Projective`'s `+`. Claimed besides the name: the sum of two points of
/// the subgroup is one, and the sum of two multiples of the generator is the
/// generator multiplied by the sum of the two scalars.
#[verifier::external_body]
pub(crate) fn g1_add(left: &G1Point, right: &G1Point) -> (r: G1Point)
    requires
        left.is_valid(),
        right.is_valid(),
    ensures
        r.bytes@ == g1_plus(left.bytes@, right.bytes@),
        r.is_valid(),
        forall|a: nat, b: nat|
            left.bytes@ == #[trigger] g1_generator_times(a) && right.bytes@
                == #[trigger] g1_generator_times(b) ==> r.bytes@ == g1_generator_times(
                (a + b) % scalar_modulus(),
            ),
{
    let a = G1Affine::deserialize_uncompressed(&left.bytes[..]).unwrap();
    let b = G1Affine::deserialize_uncompressed(&right.bytes[..]).unwrap();
    let mut bytes = [0u8; 96];
    (G1Projective::from(a) + b).into_affine().serialize_uncompressed(&mut bytes[..]).unwrap();
    G1Point { bytes }
}

/// `Bls12_381::pairing`, its value in the target group's canonical encoding.
/// Claimed besides the name, of multiples of the two generators: the pairing
/// is bilinear, so it depends on the product of the two scalars alone.
#[verifier::external_body]
pub(crate) fn pairing(p: &G1Point, q: &G2Point) -> (r: Vec<u8>)
    requires
        p.is_valid(),
        q.is_valid(),
    ensures
        r@ == pairing_value(p.bytes@, q.bytes@),
        forall|a: nat, b: nat|
            p.bytes@ == #[trigger] g1_generator_times(a) && q.bytes@
                == #[trigger] g2_generator_times(b) ==> r@ == pairing_value(
                g1_generator_times((a * b) % scalar_modulus()),
                g2_generator_times(1),
            ),
{
    let a = G1Affine::deserialize_uncompressed(&p.bytes[..]).unwrap();
    let b = G2Affine::deserialize_uncompressed(&q.bytes[..]).unwrap();
    let mut out = Vec::new();
    Bls12_381::pairing(a, b).serialize_uncompressed(&mut out).unwrap();
    out
}

} // verus!
