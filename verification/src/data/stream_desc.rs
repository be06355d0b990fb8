//! Index redirection from a stream path to its streamable file data.

use crate::bytes::{push_u32_le, read_u32_le, u32_le_at, u32_le_bytes};
use crate::err::ArcError;
use crate::serialization::{sv_get, sv_try, SerState, SerView};
use vstd::prelude::*;

verus! {

broadcast use vstd::slice::axiom_spec_len;

/// Index redirection used by a stream path to locate streamable file data.
#[derive(Debug, Copy, Clone, PartialEq, Eq, Structural)]
pub struct StreamDesc {
    /// Index into the stream data table.
    pub stream_data: u32,
}

impl StreamDesc {
    /// The stream data index.
    pub fn stream_data_index(&self) -> (r: u32)
        ensures
            r == self.stream_data,
    {
        self.stream_data
    }

    /// Replaces the stream data index.
    pub fn set_stream_data_index(&mut self, index: u32)
        ensures
            final(self).stream_data == index,
    {
        self.stream_data = index;
    }

    /// Reserves this record's stream data target; sharing one target across
    /// descriptors is legal.
    pub fn reserve(&self, state: &mut SerState) -> (ok: bool)
        requires
            old(state).wf(),
        ensures
            final(state).wf(),
            match sv_try(old(state)@.stream_data, self.stream_data) {
                Some(t) => ok && final(state)@ == (SerView { stream_data: t, ..old(state)@ }),
                None => !ok && final(state)@ == old(state)@,
            },
    {
        state.stream_data.try_reserve(self.stream_data).is_some()
    }

    /// The record with its stream data index rewritten to the new dense
    /// index space.
    pub open spec fn spec_rewrite(self, s: SerView) -> Result<StreamDesc, ArcError> {
        match sv_get(s.stream_data, self.stream_data) {
            Some(d) => Ok(StreamDesc { stream_data: d }),
            None => Err(ArcError::CorruptGraph),
        }
    }

    /// Rewrites the embedded stream data index through the reservation state.
    pub fn reinternalize(&self, state: &SerState) -> (r: Result<StreamDesc, ArcError>)
        requires
            state.wf(),
        ensures
            r == self.spec_rewrite(state@),
    {
        match state.stream_data.get(self.stream_data) {
            Some(d) => Ok(StreamDesc { stream_data: d }),
            None => Err(ArcError::CorruptGraph),
        }
    }
}

/// Byte size of the wire form.
pub const STREAM_DESC_SIZE: usize = 4;

/// Wire form: one word, little-endian.
pub open spec fn stream_desc_le_bytes(d: StreamDesc) -> Seq<u8> {
    u32_le_bytes(d.stream_data)
}

/// The record stored at `pos`.
pub open spec fn stream_desc_le_at(s: Seq<u8>, pos: int) -> StreamDesc {
    StreamDesc { stream_data: u32_le_at(s, pos) }
}

/// Reads the record stored at `pos`.
pub fn read_stream_desc(b: &[u8], pos: usize) -> (r: StreamDesc)
    requires
        pos + STREAM_DESC_SIZE <= b@.len(),
    ensures
        r == stream_desc_le_at(b@, pos as int),
{
    StreamDesc { stream_data: read_u32_le(b, pos) }
}

/// Appends the wire form of `d`.
pub fn push_stream_desc(out: &mut Vec<u8>, d: &StreamDesc)
    ensures
        final(out)@ =~= old(out)@ + stream_desc_le_bytes(*d),
{
    push_u32_le(out, d.stream_data);
}

/// Reading back the wire form of `d` yields `d`.
pub proof fn lemma_stream_desc_le_at_of_bytes(s: Seq<u8>, pos: int, d: StreamDesc)
    requires
        0 <= pos,
        pos + STREAM_DESC_SIZE <= s.len(),
        forall|i: int| 0 <= i < STREAM_DESC_SIZE ==> s[pos + i] == stream_desc_le_bytes(d)[i],
    ensures
        stream_desc_le_at(s, pos) == d,
{
    assert forall|i: int| 0 <= i < 4 implies s[pos + i] == u32_le_bytes(d.stream_data)[i] by {
        assert(s[pos + i] == stream_desc_le_bytes(d)[i]);
    }
    crate::bytes::lemma_u32_le_at_of_bytes(s, pos, d.stream_data);
}

} // verus!
