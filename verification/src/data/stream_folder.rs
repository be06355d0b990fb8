//! A named collection of stream file paths: a folder-name hash whose payload
//! is the child count, and the index where its children start.

use crate::bytes::{push_u32_le, read_u32_le, u32_le_at, u32_le_bytes};
use crate::err::ArcError;
use crate::hash::{hwd_le_at, hwd_le_bytes, push_hwd, read_hwd, spec_hwd_data, HashWithData};
use crate::index::{checked_range, spec_checked_range, spec_checked_start};
use crate::serialization::{sv_get, sv_reserve_range, SerState, SerView};
use vstd::prelude::*;

verus! {

broadcast use vstd::slice::axiom_spec_len;

/// A named slice of stream paths.
#[derive(Debug, Copy, Clone, PartialEq, Eq, Structural)]
pub struct StreamFolder {
    /// The folder name hash; the payload is the number of children.
    pub name_and_child_count: HashWithData,
    /// Index into the stream path table where the children start.
    pub child_start_index: u32,
}

impl StreamFolder {
    /// The indices of this folder's stream paths.
    pub fn stream_path_range(&self) -> (r: core::ops::Range<u32>)
        ensures
            r.start == spec_checked_start(self.child_start_index, spec_hwd_data(self.name_and_child_count.len_and_data)),
            r.end == r.start + spec_checked_range(self.child_start_index, spec_hwd_data(self.name_and_child_count.len_and_data)).len(),
            r.end >= r.start,
            r.end - r.start == spec_checked_range(
                self.child_start_index,
                spec_hwd_data(self.name_and_child_count.len_and_data),
            ).len(),
            forall|i: int|
                0 <= i < r.end - r.start ==> spec_checked_range(
                    self.child_start_index,
                    spec_hwd_data(self.name_and_child_count.len_and_data),
                )[i] == r.start + i,
    {
        checked_range(self.child_start_index, self.name_and_child_count.data())
    }

    /// Replaces the child start index, keeping the name and count.
    pub fn set_stream_path_start(&mut self, index: u32)
        ensures
            final(self).child_start_index == index,
            final(self).name_and_child_count == old(self).name_and_child_count,
    {
        self.child_start_index = index;
    }

    /// Reserves this folder's stream path children, each fresh.
    pub fn reserve(&self, state: &mut SerState) -> (ok: bool)
        requires
            old(state).wf(),
        ensures
            final(state).wf(),
            match sv_reserve_range(
                old(state)@.stream_path,
                self.child_start_index,
                spec_hwd_data(self.name_and_child_count.len_and_data),
            ) {
                Some(t) => ok && final(state)@ == (SerView { stream_path: t, ..old(state)@ }),
                None => !ok,
            },
    {
        state.stream_path.reserve_range(self.child_start_index, self.name_and_child_count.data())
    }

    /// The record with its child start rewritten to the new dense index space.
    pub open spec fn spec_rewrite(self, s: SerView) -> Result<StreamFolder, ArcError> {
        match sv_get(s.stream_path, self.child_start_index) {
            Some(c) => Ok(StreamFolder { name_and_child_count: self.name_and_child_count, child_start_index: c }),
            None => Err(ArcError::CorruptGraph),
        }
    }

    /// Rewrites the embedded stream path index through the reservation state.
    pub fn reinternalize(&self, state: &SerState) -> (r: Result<StreamFolder, ArcError>)
        requires
            state.wf(),
        ensures
            r == self.spec_rewrite(state@),
    {
        match state.stream_path.get(self.child_start_index) {
            Some(c) => Ok(
                StreamFolder { name_and_child_count: self.name_and_child_count, child_start_index: c },
            ),
            None => Err(ArcError::CorruptGraph),
        }
    }
}

/// Byte size of the wire form.
pub const STREAM_FOLDER_SIZE: usize = 12;

/// Wire form: the hash word pair, then the child start index.
pub open spec fn stream_folder_le_bytes(d: StreamFolder) -> Seq<u8> {
    hwd_le_bytes(d.name_and_child_count) + u32_le_bytes(d.child_start_index)
}

/// The record stored at `pos`.
pub open spec fn stream_folder_le_at(s: Seq<u8>, pos: int) -> StreamFolder {
    StreamFolder {
        name_and_child_count: hwd_le_at(s, pos),
        child_start_index: u32_le_at(s, pos + 8),
    }
}

/// Reads the record stored at `pos`.
pub fn read_stream_folder(b: &[u8], pos: usize) -> (r: StreamFolder)
    requires
        pos + STREAM_FOLDER_SIZE <= b@.len(),
    ensures
        r == stream_folder_le_at(b@, pos as int),
{
    let n: usize = b.len();
    StreamFolder { name_and_child_count: read_hwd(b, pos), child_start_index: read_u32_le(b, pos + 8) }
}

/// Appends the wire form of `d`.
pub fn push_stream_folder(out: &mut Vec<u8>, d: &StreamFolder)
    ensures
        final(out)@ =~= old(out)@ + stream_folder_le_bytes(*d),
{
    push_hwd(out, &d.name_and_child_count);
    push_u32_le(out, d.child_start_index);
}

/// Reading back the wire form of `d` yields `d`.
pub proof fn lemma_stream_folder_le_at_of_bytes(s: Seq<u8>, pos: int, d: StreamFolder)
    requires
        0 <= pos,
        pos + STREAM_FOLDER_SIZE <= s.len(),
        forall|i: int| 0 <= i < STREAM_FOLDER_SIZE ==> s[pos + i] == stream_folder_le_bytes(d)[i],
    ensures
        stream_folder_le_at(s, pos) == d,
{
    assert forall|i: int|
        0 <= i < 8 implies s[pos + i] == hwd_le_bytes(d.name_and_child_count)[i] by {
        assert(s[pos + i] == stream_folder_le_bytes(d)[i]);
    }
    assert forall|i: int|
        0 <= i < 4 implies s[pos + 8 + i] == u32_le_bytes(d.child_start_index)[i] by {
        assert(s[pos + (8 + i)] == stream_folder_le_bytes(d)[8 + i]);
    }
    crate::hash::lemma_hwd_le_at_of_bytes(s, pos, d.name_and_child_count);
    crate::bytes::lemma_u32_le_at_of_bytes(s, pos + 8, d.child_start_index);
}

} // verus!
