//! Location and size of one streamable data file. A leaf record: it
//! references no other table and is copied unchanged by the re-serializer.

use crate::bytes::{push_u64_le, read_u64_le, u64_le_at, u64_le_bytes};
use vstd::prelude::*;

verus! {

broadcast use vstd::slice::axiom_spec_len;

/// Location and size of one streamable data file.
#[derive(Debug, Copy, Clone, PartialEq, Eq, Structural)]
pub struct StreamData {
    /// Size of the file in bytes.
    pub size: u64,
    /// Offset of the first byte of file data in the archive.
    pub offset: u64,
}

/// Byte size of the wire form.
pub const STREAM_DATA_SIZE: usize = 16;

/// Wire form: two 64-bit words, little-endian.
pub open spec fn stream_data_le_bytes(d: StreamData) -> Seq<u8> {
    u64_le_bytes(d.size) + u64_le_bytes(d.offset)
}

/// The record stored at `pos`.
pub open spec fn stream_data_le_at(s: Seq<u8>, pos: int) -> StreamData {
    StreamData { size: u64_le_at(s, pos), offset: u64_le_at(s, pos + 8) }
}

/// Reads the record stored at `pos`.
pub fn read_stream_data(b: &[u8], pos: usize) -> (r: StreamData)
    requires
        pos + STREAM_DATA_SIZE <= b@.len(),
    ensures
        r == stream_data_le_at(b@, pos as int),
{
    let n: usize = b.len();
    StreamData { size: read_u64_le(b, pos), offset: read_u64_le(b, pos + 8) }
}

/// Appends the wire form of `d`.
pub fn push_stream_data(out: &mut Vec<u8>, d: &StreamData)
    ensures
        final(out)@ =~= old(out)@ + stream_data_le_bytes(*d),
{
    push_u64_le(out, d.size);
    push_u64_le(out, d.offset);
}

/// Reading back the wire form of `d` yields `d`.
pub proof fn lemma_stream_data_le_at_of_bytes(s: Seq<u8>, pos: int, d: StreamData)
    requires
        0 <= pos,
        pos + STREAM_DATA_SIZE <= s.len(),
        forall|i: int| 0 <= i < STREAM_DATA_SIZE ==> s[pos + i] == stream_data_le_bytes(d)[i],
    ensures
        stream_data_le_at(s, pos) == d,
{
    assert forall|i: int| 0 <= i < 8 implies s[pos + i] == u64_le_bytes(d.size)[i] by {
        assert(s[pos + i] == stream_data_le_bytes(d)[i]);
    }
    assert forall|i: int| 0 <= i < 8 implies s[pos + 8 + i] == u64_le_bytes(d.offset)[i] by {
        assert(s[pos + (8 + i)] == stream_data_le_bytes(d)[8 + i]);
    }
    crate::bytes::lemma_u64_le_at_of_bytes(s, pos, d.size);
    crate::bytes::lemma_u64_le_at_of_bytes(s, pos + 8, d.offset);
}

} // verus!
