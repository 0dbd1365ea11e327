//! One participant's share of the signing key, and its wire encoding.

use crate::curve::{
    g2_decode, g2_generator_times, g2_member, g2_mul_generator, le_nat, scalar_add, scalar_decode,
    scalar_from_u32, scalar_modulus, G2Point, Scalar,
};
use crate::errors::MPCError;
use crate::wire::{
    bytes_equal, get_bytes, get_u32, lemma_le_nat_injective, lemma_u32_round_trip, put_bytes, put_u32,
    u32_from_le, u32_le_bytes,
};
use vstd::arithmetic::div_mod::lemma_small_mod;
use vstd::prelude::*;

verus! {

/// A participant's share: the secret polynomial's value at `index`, and the
/// public commitment to it.
#[derive(Clone, Copy, Debug, PartialEq, Eq)]
pub struct KeyShare {
    pub index: u32,
    pub secret_share: Scalar,
    pub public_key_share: G2Point,
}

/// The length of an encoded key share: index, scalar, uncompressed `G2` point.
pub const KEY_SHARE_BYTES: usize = 228;

/// `bytes` is the encoding of `share`: the index in four little-endian bytes,
/// the secret share as the 32 bytes of its reduced value, then the 192 bytes of
/// the public point.
pub open spec fn encodes_key_share(bytes: Seq<u8>, share: KeyShare) -> bool {
    &&& bytes.len() == KEY_SHARE_BYTES
    &&& bytes.subrange(0, 4) == u32_le_bytes(share.index)
    &&& le_nat(bytes.subrange(4, 36)) == share.secret_share.value()
    &&& bytes.subrange(36, 228) == share.public_key_share.bytes@
}

/// `bytes` starts with a well-formed key share: it is long enough, the scalar
/// is reduced and the point is one of the public-key group.
pub open spec fn key_share_decodable(bytes: Seq<u8>) -> bool {
    &&& bytes.len() >= KEY_SHARE_BYTES
    &&& le_nat(bytes.subrange(4, 36)) < scalar_modulus()
    &&& g2_member(bytes.subrange(36, 228))
}

/// `share` holds the three fields that `bytes` starts with.
pub open spec fn decodes_to_key_share(bytes: Seq<u8>, share: KeyShare) -> bool {
    &&& share.index == u32_from_le(bytes.subrange(0, 4))
    &&& share.secret_share.bytes@ == bytes.subrange(4, 36)
    &&& share.public_key_share.bytes@ == bytes.subrange(36, 228)
}

impl KeyShare {
    /// The public commitment is the generator multiplied by the secret share.
    pub open spec fn is_consistent(&self) -> bool {
        self.public_key_share.bytes@ == g2_generator_times(self.secret_share.value())
    }

    /// The share of a participant with the given secret: the public
    /// commitment is derived from the secret.
    pub fn new(index: u32, secret_share: Scalar) -> (share: KeyShare)
        ensures
            share.index == index,
            share.secret_share == secret_share,
            share.is_consistent(),
            share.public_key_share.is_valid(),
    {
        let public_key_share = g2_mul_generator(&secret_share);
        KeyShare { index, secret_share, public_key_share }
    }

    /// Whether the public commitment is the one derived from the secret.
    pub fn check_consistency(&self) -> (consistent: bool)
        ensures
            consistent == self.is_consistent(),
    {
        let derived = g2_mul_generator(&self.secret_share);
        bytes_equal(self.public_key_share.bytes.as_slice(), derived.bytes.as_slice())
    }

    /// Encodes the share, field by field.
    pub fn serialize(&self) -> (bytes: Vec<u8>)
        ensures
            encodes_key_share(bytes@, *self),
    {
        let reduced = scalar_add(&self.secret_share, &scalar_from_u32(0));
        let mut bytes: Vec<u8> = Vec::new();
        put_u32(&mut bytes, self.index);
        put_bytes(&mut bytes, reduced.bytes.as_slice());
        put_bytes(&mut bytes, self.public_key_share.bytes.as_slice());
        proof {
            lemma_small_mod(le_nat(reduced.bytes@), scalar_modulus());
            lemma_small_mod(self.secret_share.value(), scalar_modulus());
            assert(bytes@.subrange(0, 4) =~= u32_le_bytes(self.index));
            assert(bytes@.subrange(4, 36) =~= reduced.bytes@);
            assert(bytes@.subrange(36, 228) =~= self.public_key_share.bytes@);
        }
        bytes
    }

    /// Decodes the share that `bytes` starts with; what follows it is left
    /// unread.
    pub fn deserialize(bytes: &[u8]) -> (r: Result<KeyShare, MPCError>)
        ensures
            r is Ok <==> key_share_decodable(bytes@),
            r is Ok ==> decodes_to_key_share(bytes@, r->Ok_0),
            r is Err ==> r->Err_0 is SerializationError,
    {
        if bytes.len() < KEY_SHARE_BYTES {
            return Err(MPCError::SerializationError("unexpected end of input".to_string()));
        }
        let index = get_u32(bytes, 0);
        let secret_bytes: [u8; 32] = get_bytes(bytes, 4);
        let point_bytes: [u8; 192] = get_bytes(bytes, 36);
        if let Err(reason) = scalar_decode(&secret_bytes) {
            return Err(MPCError::SerializationError(reason));
        }
        match g2_decode(&point_bytes) {
            Err(reason) => Err(MPCError::SerializationError(reason)),
            Ok(false) => Err(
                MPCError::SerializationError("the point is not on the curve".to_string()),
            ),
            Ok(true) => Ok(
                KeyShare {
                    index,
                    secret_share: Scalar { bytes: secret_bytes },
                    public_key_share: G2Point { bytes: point_bytes },
                },
            ),
        }
    }
}

/// Decoding an encoded share gives the share back, provided that its scalar
/// is held in reduced form and its point is one of the public-key group.
pub proof fn lemma_key_share_round_trip(share: KeyShare, bytes: Seq<u8>, decoded: KeyShare)
    requires
        share.secret_share.is_canonical(),
        share.public_key_share.is_valid(),
        encodes_key_share(bytes, share),
        decodes_to_key_share(bytes, decoded),
    ensures
        key_share_decodable(bytes),
        decoded == share,
{
    lemma_u32_round_trip(share.index);
    lemma_small_mod(le_nat(share.secret_share.bytes@), scalar_modulus());
    lemma_le_nat_injective(bytes.subrange(4, 36), share.secret_share.bytes@);
    assert(decoded.secret_share.bytes =~= share.secret_share.bytes);
    assert(decoded.public_key_share.bytes =~= share.public_key_share.bytes);
}

} // verus!
