//! 4-byte aligned hash words.
//!
//! A 40-bit hash (a 32-bit CRC plus an 8-bit string length) is stored as a
//! pair of 32-bit words rather than one `u64`, because a `u64` field has
//! different alignment on different targets. `HashWithData` additionally packs
//! a 24-bit payload index into the upper bits of the second word.

use crate::bytes::{push_u32_le, read_u32_le, u32_le_at, u32_le_bytes};
use vstd::prelude::*;

verus! {

broadcast use vstd::slice::axiom_spec_len;

/// The packed 40-bit value `(len << 32) | crc`.
pub open spec fn spec_hash40(crc: u32, len: u8) -> u64 {
    (crc + len * 0x1_0000_0000) as u64
}

/// A 4-byte aligned 40-bit hash: a CRC and the hashed string's length.
#[derive(Debug, Copy, Clone, PartialEq, Eq, Structural)]
pub struct Hash {
    pub crc: u32,
    pub len: u8,
}

impl Hash {
    /// The hash as one packed 40-bit value, `(len << 32) | crc`.
    pub fn hash40(&self) -> (r: u64)
        ensures
            r == spec_hash40(self.crc, self.len),
    {
        self.crc as u64 + self.len as u64 * 0x1_0000_0000
    }

    /// The length of the hashed string.
    pub fn length(&self) -> (r: usize)
        ensures
            r == self.len,
    {
        self.len as usize
    }

    /// The hash whose packed 40-bit value is the low 40 bits of `value`.
    pub fn from_hash40(value: u64) -> (r: Hash)
        ensures
            r.crc == value % 0x1_0000_0000,
            r.len == (value / 0x1_0000_0000) % 0x100,
    {
        Hash { crc: (value % 0x1_0000_0000) as u32, len: ((value / 0x1_0000_0000) % 0x100) as u8 }
    }
}

/// A 4-byte aligned 40-bit hash sharing its second word with a 24-bit payload:
/// the low byte of `len_and_data` is the string length, the high 24 bits are
/// the payload.
#[derive(Debug, Copy, Clone, PartialEq, Eq, Structural)]
pub struct HashWithData {
    pub crc: u32,
    pub len_and_data: u32,
}

/// The payload packed into the high 24 bits of `len_and_data`.
pub open spec fn spec_hwd_data(len_and_data: u32) -> u32 {
    len_and_data / 0x100
}

/// The string length packed into the low byte of `len_and_data`.
pub open spec fn spec_hwd_len(len_and_data: u32) -> u32 {
    len_and_data % 0x100
}

impl HashWithData {
    /// Packs a 40-bit hash value and a payload (truncated to 24 bits).
    pub fn new(hash40: u64, data: u32) -> (r: HashWithData)
        ensures
            r.crc == hash40 % 0x1_0000_0000,
            spec_hwd_len(r.len_and_data) == (hash40 / 0x1_0000_0000) % 0x100,
            spec_hwd_data(r.len_and_data) == data % 0x100_0000,
    {
        let len: u32 = ((hash40 / 0x1_0000_0000) % 0x100) as u32;
        HashWithData {
            crc: (hash40 % 0x1_0000_0000) as u32,
            len_and_data: len + (data % 0x100_0000) * 0x100,
        }
    }

    /// The hash as one packed 40-bit value, `(len << 32) | crc`.
    pub fn hash40(&self) -> (r: u64)
        ensures
            r == self.crc + spec_hwd_len(self.len_and_data) * 0x1_0000_0000,
    {
        self.crc as u64 + (self.len_and_data % 0x100) as u64 * 0x1_0000_0000
    }

    /// Replaces the hash part, keeping the payload.
    pub fn set_hash40(&mut self, hash40: u64)
        ensures
            final(self).crc == hash40 % 0x1_0000_0000,
            spec_hwd_len(final(self).len_and_data) == (hash40 / 0x1_0000_0000) % 0x100,
            spec_hwd_data(final(self).len_and_data) == spec_hwd_data(old(self).len_and_data),
    {
        let data: u32 = self.len_and_data / 0x100;
        let len: u32 = ((hash40 / 0x1_0000_0000) % 0x100) as u32;
        self.crc = (hash40 % 0x1_0000_0000) as u32;
        self.len_and_data = len + data * 0x100;
    }

    /// The length of the hashed string.
    pub fn length(&self) -> (r: usize)
        ensures
            r == spec_hwd_len(self.len_and_data),
    {
        (self.len_and_data % 0x100) as usize
    }

    /// The 24-bit payload.
    pub fn data(&self) -> (r: u32)
        ensures
            r == spec_hwd_data(self.len_and_data),
    {
        self.len_and_data / 0x100
    }

    /// Replaces the payload (truncated to 24 bits), keeping the hash part.
    pub fn set_data(&mut self, data: u32)
        ensures
            spec_hwd_data(final(self).len_and_data) == data % 0x100_0000,
            spec_hwd_len(final(self).len_and_data) == spec_hwd_len(old(self).len_and_data),
            final(self).crc == old(self).crc,
    {
        self.len_and_data = self.len_and_data % 0x100 + (data % 0x100_0000) * 0x100;
    }

    /// The word with the payload replaced (truncated to 24 bits) and the
    /// length byte kept.
    pub open spec fn spec_with_data(self, data: u32) -> HashWithData {
        HashWithData {
            crc: self.crc,
            len_and_data: (self.len_and_data % 0x100 + (data % 0x100_0000) * 0x100) as u32,
        }
    }

    /// `set_data`, as a value.
    pub fn with_data(&self, data: u32) -> (r: HashWithData)
        ensures
            r == self.spec_with_data(data),
    {
        HashWithData {
            crc: self.crc,
            len_and_data: self.len_and_data % 0x100 + (data % 0x100_0000) * 0x100,
        }
    }
}

// ----- wire codec -----

/// On-disk form of `Hash`: the CRC little-endian, the length byte, three
/// bytes of padding.
pub open spec fn hash_le_bytes(h: Hash) -> Seq<u8> {
    u32_le_bytes(h.crc) + seq![h.len, 0u8, 0u8, 0u8]
}

/// The `Hash` stored at `pos` (padding ignored).
pub open spec fn hash_le_at(s: Seq<u8>, pos: int) -> Hash {
    Hash { crc: u32_le_at(s, pos), len: s[pos + 4] }
}

/// Reads the `Hash` stored at `pos`.
pub fn read_hash(b: &[u8], pos: usize) -> (r: Hash)
    requires
        pos + 8 <= b@.len(),
    ensures
        r == hash_le_at(b@, pos as int),
{
    let n: usize = b.len();
    Hash { crc: read_u32_le(b, pos), len: b[pos + 4] }
}

/// Appends the on-disk form of `h`.
pub fn push_hash(out: &mut Vec<u8>, h: &Hash)
    ensures
        final(out)@ =~= old(out)@ + hash_le_bytes(*h),
{
    push_u32_le(out, h.crc);
    out.push(h.len);
    out.push(0u8);
    out.push(0u8);
    out.push(0u8);
}

/// Reading back the eight bytes of `h` yields `h`.
pub proof fn lemma_hash_le_at_of_bytes(s: Seq<u8>, pos: int, h: Hash)
    requires
        0 <= pos,
        pos + 8 <= s.len(),
        forall|i: int| 0 <= i < 8 ==> s[pos + i] == hash_le_bytes(h)[i],
    ensures
        hash_le_at(s, pos) == h,
{
    assert forall|i: int| 0 <= i < 4 implies s[pos + i] == u32_le_bytes(h.crc)[i] by {
        assert(s[pos + i] == hash_le_bytes(h)[i]);
    }
    crate::bytes::lemma_u32_le_at_of_bytes(s, pos, h.crc);
    assert(s[pos + 4] == hash_le_bytes(h)[4]);
}

/// On-disk form of `HashWithData`: both words little-endian.
pub open spec fn hwd_le_bytes(h: HashWithData) -> Seq<u8> {
    u32_le_bytes(h.crc) + u32_le_bytes(h.len_and_data)
}

/// The `HashWithData` stored at `pos`.
pub open spec fn hwd_le_at(s: Seq<u8>, pos: int) -> HashWithData {
    HashWithData { crc: u32_le_at(s, pos), len_and_data: u32_le_at(s, pos + 4) }
}

/// Reads the `HashWithData` stored at `pos`.
pub fn read_hwd(b: &[u8], pos: usize) -> (r: HashWithData)
    requires
        pos + 8 <= b@.len(),
    ensures
        r == hwd_le_at(b@, pos as int),
{
    let n: usize = b.len();
    HashWithData { crc: read_u32_le(b, pos), len_and_data: read_u32_le(b, pos + 4) }
}

/// Appends the on-disk form of `h`.
pub fn push_hwd(out: &mut Vec<u8>, h: &HashWithData)
    ensures
        final(out)@ =~= old(out)@ + hwd_le_bytes(*h),
{
    push_u32_le(out, h.crc);
    push_u32_le(out, h.len_and_data);
}

/// Reading back the eight bytes of `h` yields `h`.
pub proof fn lemma_hwd_le_at_of_bytes(s: Seq<u8>, pos: int, h: HashWithData)
    requires
        0 <= pos,
        pos + 8 <= s.len(),
        forall|i: int| 0 <= i < 8 ==> s[pos + i] == hwd_le_bytes(h)[i],
    ensures
        hwd_le_at(s, pos) == h,
{
    assert forall|i: int| 0 <= i < 4 implies s[pos + i] == u32_le_bytes(h.crc)[i] by {
        assert(s[pos + i] == hwd_le_bytes(h)[i]);
    }
    assert forall|i: int| 0 <= i < 4 implies s[pos + 4 + i] == u32_le_bytes(h.len_and_data)[i] by {
        assert(s[pos + (4 + i)] == hwd_le_bytes(h)[4 + i]);
    }
    crate::bytes::lemma_u32_le_at_of_bytes(s, pos, h.crc);
    crate::bytes::lemma_u32_le_at_of_bytes(s, pos + 4, h.len_and_data);
}

} // verus!
