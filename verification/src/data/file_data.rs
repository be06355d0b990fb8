//! How to read one file's data on disk: offset within the owning group,
//! sizes, and compression flags. A leaf record: it references no other table
//! and is copied unchanged by the re-serializer.

use crate::bytes::{push_u32_le, read_u32_le, u32_le_at, u32_le_bytes};
use vstd::prelude::*;

verus! {

broadcast use vstd::slice::axiom_spec_len;

/// Flag: the data is compressed with ZSTD; demands `IS_COMPRESSED` too.
pub const IS_ZSTD_COMPRESSION: u32 = 0x1;

/// Flag: the data is compressed.
pub const IS_COMPRESSED: u32 = 0x2;

/// Flag: versioned regional data. Never read by the loaders; preserved.
pub const IS_REGIONAL_VERSIONED_DATA: u32 = 0x4;

/// Flag: versioned localized data. Never read by the loaders; preserved.
pub const IS_LOCALIZED_VERSIONED_DATA: u32 = 0x8;

/// Contains information on how to read one file's data on disk.
#[derive(Debug, Copy, Clone, PartialEq, Eq, Structural)]
pub struct FileData {
    /// Offset to add to the owning group's archive offset.
    pub in_group_offset: u32,
    /// Size of the data to read; equals `decompressed_size` when the
    /// compressed flag is unset.
    pub compressed_size: u32,
    /// Size of the data once decompressed.
    pub decompressed_size: u32,
    /// Compression and versioning flags.
    pub flags: u32,
}

/// Byte size of the wire form.
pub const FILE_DATA_SIZE: usize = 16;

/// Wire form: four words, little-endian.
pub open spec fn file_data_le_bytes(d: FileData) -> Seq<u8> {
    u32_le_bytes(d.in_group_offset) + u32_le_bytes(d.compressed_size) + u32_le_bytes(
        d.decompressed_size,
    ) + u32_le_bytes(d.flags)
}

/// The record stored at `pos`.
pub open spec fn file_data_le_at(s: Seq<u8>, pos: int) -> FileData {
    FileData {
        in_group_offset: u32_le_at(s, pos),
        compressed_size: u32_le_at(s, pos + 4),
        decompressed_size: u32_le_at(s, pos + 8),
        flags: u32_le_at(s, pos + 12),
    }
}

/// Reads the record stored at `pos`.
pub fn read_file_data(b: &[u8], pos: usize) -> (r: FileData)
    requires
        pos + FILE_DATA_SIZE <= b@.len(),
    ensures
        r == file_data_le_at(b@, pos as int),
{
    let n: usize = b.len();
    FileData {
        in_group_offset: read_u32_le(b, pos),
        compressed_size: read_u32_le(b, pos + 4),
        decompressed_size: read_u32_le(b, pos + 8),
        flags: read_u32_le(b, pos + 12),
    }
}

/// Appends the wire form of `d`.
pub fn push_file_data(out: &mut Vec<u8>, d: &FileData)
    ensures
        final(out)@ =~= old(out)@ + file_data_le_bytes(*d),
{
    push_u32_le(out, d.in_group_offset);
    push_u32_le(out, d.compressed_size);
    push_u32_le(out, d.decompressed_size);
    push_u32_le(out, d.flags);
}

/// Reading back the wire form of `d` yields `d`.
pub proof fn lemma_file_data_le_at_of_bytes(s: Seq<u8>, pos: int, d: FileData)
    requires
        0 <= pos,
        pos + FILE_DATA_SIZE <= s.len(),
        forall|i: int| 0 <= i < FILE_DATA_SIZE ==> s[pos + i] == file_data_le_bytes(d)[i],
    ensures
        file_data_le_at(s, pos) == d,
{
    assert forall|i: int| 0 <= i < 4 implies s[pos + i] == u32_le_bytes(d.in_group_offset)[i] by {
        assert(s[pos + i] == file_data_le_bytes(d)[i]);
    }
    assert forall|i: int| 0 <= i < 4 implies s[pos + 4 + i] == u32_le_bytes(d.compressed_size)[i] by {
        assert(s[pos + (4 + i)] == file_data_le_bytes(d)[4 + i]);
    }
    assert forall|i: int| 0 <= i < 4 implies s[pos + 8 + i] == u32_le_bytes(d.decompressed_size)[i] by {
        assert(s[pos + (8 + i)] == file_data_le_bytes(d)[8 + i]);
    }
    assert forall|i: int| 0 <= i < 4 implies s[pos + 12 + i] == u32_le_bytes(d.flags)[i] by {
        assert(s[pos + (12 + i)] == file_data_le_bytes(d)[12 + i]);
    }
    crate::bytes::lemma_u32_le_at_of_bytes(s, pos, d.in_group_offset);
    crate::bytes::lemma_u32_le_at_of_bytes(s, pos + 4, d.compressed_size);
    crate::bytes::lemma_u32_le_at_of_bytes(s, pos + 8, d.decompressed_size);
    crate::bytes::lemma_u32_le_at_of_bytes(s, pos + 12, d.flags);
}

} // verus!
