//! Fixed-width framing of integers and byte fields.

use crate::curve::le_nat;
use vstd::prelude::*;

verus! {

/// The four bytes of a `u32`, least significant first.
pub open spec fn u32_le_bytes(n: u32) -> Seq<u8> {
    seq![
        (n % 256) as u8,
        ((n / 256) % 256) as u8,
        ((n / 65536) % 256) as u8,
        ((n / 16777216) % 256) as u8,
    ]
}

/// The `u32` that four bytes denote, least significant first.
pub open spec fn u32_from_le(bytes: Seq<u8>) -> u32
    recommends
        bytes.len() == 4,
{
    (bytes[0] as int + 256 * bytes[1] + 65536 * bytes[2] + 16777216 * bytes[3]) as u32
}

/// Reading back the bytes of a `u32` gives the `u32`.
pub proof fn lemma_u32_round_trip(n: u32)
    ensures
        u32_le_bytes(n).len() == 4,
        u32_from_le(u32_le_bytes(n)) == n,
{
}

/// Two byte strings of one length that denote the same number are equal.
pub proof fn lemma_le_nat_injective(a: Seq<u8>, b: Seq<u8>)
    requires
        a.len() == b.len(),
        le_nat(a) == le_nat(b),
    ensures
        a == b,
    decreases a.len(),
{
    if a.len() > 0 {
        assert(a[0] == b[0] && le_nat(a.drop_first()) == le_nat(b.drop_first())) by {
            let x = le_nat(a.drop_first());
            let y = le_nat(b.drop_first());
            assert(a[0] + 256 * x == b[0] + 256 * y);
        }
        lemma_le_nat_injective(a.drop_first(), b.drop_first());
        assert(a =~= seq![a[0]] + a.drop_first());
        assert(b =~= seq![b[0]] + b.drop_first());
    } else {
        assert(a =~= b);
    }
}

/// Whether two byte strings are the same.
pub fn bytes_equal(a: &[u8], b: &[u8]) -> (same: bool)
    ensures
        same == (a@ == b@),
{
    if a.len() != b.len() {
        return false;
    }
    let mut i: usize = 0;
    while i < a.len()
        invariant
            i <= a.len(),
            a.len() == b.len(),
            forall|k: int| 0 <= k < i ==> a[k] == b[k],
        decreases a.len() - i,
    {
        if a[i] != b[i] {
            return false;
        }
        i += 1;
    }
    assert(a@ =~= b@);
    true
}

/// Appends the four little-endian bytes of `n`.
pub fn put_u32(out: &mut Vec<u8>, n: u32)
    ensures
        final(out)@ == old(out)@ + u32_le_bytes(n),
{
    out.push((n % 256) as u8);
    out.push(((n / 256) % 256) as u8);
    out.push(((n / 65536) % 256) as u8);
    out.push(((n / 16777216) % 256) as u8);
    assert(out@ =~= old(out)@ + u32_le_bytes(n));
}

/// Appends a field of bytes.
pub fn put_bytes(out: &mut Vec<u8>, field: &[u8])
    ensures
        final(out)@ == old(out)@ + field@,
{
    let mut i: usize = 0;
    while i < field.len()
        invariant
            i <= field.len(),
            out@ == old(out)@ + field@.take(i as int),
        decreases field.len() - i,
    {
        out.push(field[i]);
        assert(field@.take(i as int + 1) =~= field@.take(i as int).push(field@[i as int]));
        i += 1;
    }
    assert(field@.take(i as int) =~= field@);
}

/// Reads the little-endian `u32` at offset `at`.
pub fn get_u32(bytes: &[u8], at: usize) -> (n: u32)
    requires
        at + 4 <= bytes.len(),
    ensures
        n == u32_from_le(bytes@.subrange(at as int, at + 4)),
{
    let b0: u32 = bytes[at] as u32;
    let b1: u32 = bytes[at + 1] as u32;
    let b2: u32 = bytes[at + 2] as u32;
    let b3: u32 = bytes[at + 3] as u32;
    b0 + 256 * b1 + 65536 * b2 + 16777216 * b3
}

/// Reads the `N` bytes at offset `at`.
pub fn get_bytes<const N: usize>(bytes: &[u8], at: usize) -> (field: [u8; N])
    requires
        at + N <= bytes.len(),
    ensures
        field@ == bytes@.subrange(at as int, at + N),
{
    let mut field = [0u8; N];
    let mut i: usize = 0;
    while i < N
        invariant
            i <= N,
            at + N <= bytes.len(),
            forall|k: int| 0 <= k < i ==> field[k] == bytes[at + k],
        decreases N - i,
    {
        field[i] = bytes[at + i];
        i += 1;
    }
    assert(field@ =~= bytes@.subrange(at as int, at + N));
    field
}

} // verus!
