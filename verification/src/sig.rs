//! One participant's partial signature, and its wire encoding.

use crate::curve::{g1_decode, g1_member, G1Point};
use crate::errors::MPCError;
use crate::wire::{
    get_bytes, get_u32, lemma_u32_round_trip, put_bytes, put_u32, u32_from_le, u32_le_bytes,
};
use vstd::prelude::*;

verus! {

/// A partial signature and the index of the key share that made it.
#[derive(Clone, Copy, Debug, PartialEq, Eq)]
pub struct SignatureShare {
    pub index: u32,
    pub share: G1Point,
}

/// The length of an encoded signature share: index, uncompressed `G1` point.
pub const SIGNATURE_SHARE_BYTES: usize = 100;

/// The encoding of a signature share: the index in four little-endian bytes,
/// then the 96 bytes of the point.
pub open spec fn signature_share_encoding(share: SignatureShare) -> Seq<u8> {
    u32_le_bytes(share.index) + share.share.bytes@
}

/// `bytes` starts with a well-formed signature share: it is long enough and
/// the point is one of the signature group.
pub open spec fn signature_share_decodable(bytes: Seq<u8>) -> bool {
    &&& bytes.len() >= SIGNATURE_SHARE_BYTES
    &&& g1_member(bytes.subrange(4, 100))
}

/// `share` holds the two fields that `bytes` starts with.
pub open spec fn decodes_to_signature_share(bytes: Seq<u8>, share: SignatureShare) -> bool {
    &&& share.index == u32_from_le(bytes.subrange(0, 4))
    &&& share.share.bytes@ == bytes.subrange(4, 100)
}

impl SignatureShare {
    /// Encodes the share, field by field.
    pub fn serialize(&self) -> (bytes: Vec<u8>)
        ensures
            bytes@ == signature_share_encoding(*self),
    {
        let mut bytes: Vec<u8> = Vec::new();
        put_u32(&mut bytes, self.index);
        put_bytes(&mut bytes, self.share.bytes.as_slice());
        bytes
    }

    /// Decodes the share that `bytes` starts with; what follows it is left
    /// unread.
    pub fn deserialize(bytes: &[u8]) -> (r: Result<SignatureShare, MPCError>)
        ensures
            r is Ok <==> signature_share_decodable(bytes@),
            r is Ok ==> decodes_to_signature_share(bytes@, r->Ok_0),
            r is Err ==> r->Err_0 is SerializationError,
    {
        if bytes.len() < SIGNATURE_SHARE_BYTES {
            return Err(MPCError::SerializationError("unexpected end of input".to_string()));
        }
        let index = get_u32(bytes, 0);
        let point_bytes: [u8; 96] = get_bytes(bytes, 4);
        match g1_decode(&point_bytes) {
            Err(reason) => Err(MPCError::SerializationError(reason)),
            Ok(false) => Err(
                MPCError::SerializationError("the point is not on the curve".to_string()),
            ),
            Ok(true) => Ok(SignatureShare { index, share: G1Point { bytes: point_bytes } }),
        }
    }
}

/// Decoding an encoded share gives the share back, provided that its point is
/// one of the signature group.
pub proof fn lemma_signature_share_round_trip(share: SignatureShare, decoded: SignatureShare)
    requires
        share.share.is_valid(),
        decodes_to_signature_share(signature_share_encoding(share), decoded),
    ensures
        signature_share_decodable(signature_share_encoding(share)),
        decoded == share,
{
    let bytes = signature_share_encoding(share);
    lemma_u32_round_trip(share.index);
    assert(bytes.subrange(0, 4) =~= u32_le_bytes(share.index));
    assert(bytes.subrange(4, 100) =~= share.share.bytes@);
    assert(decoded.share.bytes =~= share.share.bytes);
}

} // verus!
