//! Little-endian field decoding and encoding over byte sequences, and the
//! CRC-32C checksum.
use vstd::bytes::*;
use vstd::prelude::*;
use vstd::slice::slice_subrange;

use crc::{Crc, CRC_32_ISCSI};

verus! {

/// The 16-bit little-endian value stored at `at`.
pub open spec fn le16(b: Seq<u8>, at: int) -> u16 {
    spec_u16_from_le_bytes(b.subrange(at, at + 2))
}

/// The 32-bit little-endian value stored at `at`.
pub open spec fn le32(b: Seq<u8>, at: int) -> u32 {
    spec_u32_from_le_bytes(b.subrange(at, at + 4))
}

/// The 64-bit little-endian value stored at `at`.
pub open spec fn le64(b: Seq<u8>, at: int) -> u64 {
    spec_u64_from_le_bytes(b.subrange(at, at + 8))
}

/// The 128-bit little-endian value stored at `at`.
pub open spec fn le128(b: Seq<u8>, at: int) -> u128 {
    spec_u128_from_le_bytes(b.subrange(at, at + 16))
}

/// `n` zero bytes.
pub open spec fn zeros(n: nat) -> Seq<u8> {
    Seq::new(n, |i: int| 0u8)
}

/// CRC-32C (Castagnoli) of a byte sequence.
pub uninterp spec fn crc32c_of(data: Seq<u8>) -> u32;

/// Relies on `crc::Crc::<u32>::checksum` with the `CRC_32_ISCSI` algorithm
/// (CRC-32C): the checksum depends on the bytes alone.
#[verifier::external_body]
pub fn crc32c(data: &[u8]) -> (r: u32)
    ensures
        r == crc32c_of(data@),
{
    Crc::<u32>::new(&CRC_32_ISCSI).checksum(data)
}

/// The end offset of `size` bytes at `at`, saturated to the largest `u64`.
pub open spec fn end_of(at: int, size: int) -> u64 {
    if at + size > u64::MAX {
        u64::MAX
    } else {
        (at + size) as u64
    }
}

/// `end_of` on machine integers.
pub fn end_offset(at: usize, size: u64) -> (r: u64)
    ensures
        r == end_of(at as int, size as int),
{
    if at as u64 > u64::MAX - size {
        u64::MAX
    } else {
        at as u64 + size
    }
}

/// Reads the 2-byte little-endian value at `at`.
pub fn read_u16(b: &[u8], at: usize) -> (r: u16)
    requires
        at + 2 <= b@.len(),
    ensures
        r == le16(b@, at as int),
{
    let len = b.len();
    proof { assert(at + 2 <= len); }
    u16_from_le_bytes(slice_subrange(b, at, at + 2))
}

/// Reads the 4-byte little-endian value at `at`.
pub fn read_u32(b: &[u8], at: usize) -> (r: u32)
    requires
        at + 4 <= b@.len(),
    ensures
        r == le32(b@, at as int),
{
    let len = b.len();
    proof { assert(at + 4 <= len); }
    u32_from_le_bytes(slice_subrange(b, at, at + 4))
}

/// Reads the 8-byte little-endian value at `at`.
pub fn read_u64(b: &[u8], at: usize) -> (r: u64)
    requires
        at + 8 <= b@.len(),
    ensures
        r == le64(b@, at as int),
{
    let len = b.len();
    proof { assert(at + 8 <= len); }
    u64_from_le_bytes(slice_subrange(b, at, at + 8))
}

/// Reads the 16-byte little-endian value at `at`.
pub fn read_u128(b: &[u8], at: usize) -> (r: u128)
    requires
        at + 16 <= b@.len(),
    ensures
        r == le128(b@, at as int),
{
    let len = b.len();
    proof { assert(at + 16 <= len); }
    u128_from_le_bytes(slice_subrange(b, at, at + 16))
}

/// Appends the 2-byte little-endian layout of `x`.
pub fn push_u16(buf: &mut Vec<u8>, x: u16)
    ensures
        final(buf)@ == old(buf)@ + spec_u16_to_le_bytes(x),
{
    let mut s = u16_to_le_bytes(x);
    buf.append(&mut s);
}

/// Appends the 4-byte little-endian layout of `x`.
pub fn push_u32(buf: &mut Vec<u8>, x: u32)
    ensures
        final(buf)@ == old(buf)@ + spec_u32_to_le_bytes(x),
{
    let mut s = u32_to_le_bytes(x);
    buf.append(&mut s);
}

/// Appends the 8-byte little-endian layout of `x`.
pub fn push_u64(buf: &mut Vec<u8>, x: u64)
    ensures
        final(buf)@ == old(buf)@ + spec_u64_to_le_bytes(x),
{
    let mut s = u64_to_le_bytes(x);
    buf.append(&mut s);
}

/// Appends the 16-byte little-endian layout of `x`.
pub fn push_u128(buf: &mut Vec<u8>, x: u128)
    ensures
        final(buf)@ == old(buf)@ + spec_u128_to_le_bytes(x),
{
    let mut s = u128_to_le_bytes(x);
    buf.append(&mut s);
}

/// Appends the bytes of `s`.
pub fn push_bytes(buf: &mut Vec<u8>, s: &[u8])
    ensures
        final(buf)@ == old(buf)@ + s@,
{
    let mut i: usize = 0;
    while i < s.len()
        invariant
            0 <= i <= s@.len(),
            buf@ == old(buf)@ + s@.subrange(0, i as int),
        decreases s@.len() - i,
    {
        buf.push(s[i]);
        i = i + 1;
        assert(buf@ =~= old(buf)@ + s@.subrange(0, i as int));
    }
    assert(s@.subrange(0, s@.len() as int) =~= s@);
}

/// Appends `n` zero bytes.
pub fn push_zeros(buf: &mut Vec<u8>, n: usize)
    ensures
        final(buf)@ == old(buf)@ + zeros(n as nat),
{
    let mut i: usize = 0;
    while i < n
        invariant
            0 <= i <= n,
            buf@ == old(buf)@ + zeros(i as nat),
        decreases n - i,
    {
        buf.push(0u8);
        i = i + 1;
        assert(buf@ =~= old(buf)@ + zeros(i as nat));
    }
}

/// Reading a field and writing it back gives the same bytes.
pub proof fn lemma_le_round_trip(b: Seq<u8>, at: int)
    requires
        0 <= at,
        at + 16 <= b.len(),
    ensures
        spec_u16_to_le_bytes(le16(b, at)) == b.subrange(at, at + 2),
        spec_u32_to_le_bytes(le32(b, at)) == b.subrange(at, at + 4),
        spec_u64_to_le_bytes(le64(b, at)) == b.subrange(at, at + 8),
        spec_u128_to_le_bytes(le128(b, at)) == b.subrange(at, at + 16),
{
    lemma_auto_spec_u16_to_from_le_bytes();
    lemma_auto_spec_u32_to_from_le_bytes();
    lemma_auto_spec_u64_to_from_le_bytes();
    lemma_auto_spec_u128_to_from_le_bytes();
}

} // verus!
