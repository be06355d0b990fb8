//! One streamable file: its path hash, the start of its descriptor run, and
//! the locale/region flags that fix the run's length.

use crate::bytes::{push_u32_le, read_u32_le, u32_le_at, u32_le_bytes};
use crate::err::ArcError;
use crate::hash::{hwd_le_at, hwd_le_bytes, push_hwd, read_hwd, spec_hwd_data, HashWithData};
use crate::index::{checked_range, spec_checked_range, spec_checked_start};
use crate::serialization::{sv_get, sv_reserve_range, SerState, SerView};
use crate::{LOCALE_COUNT, REGION_COUNT};
use vstd::prelude::*;

verus! {

broadcast use vstd::slice::axiom_spec_len;

/// Flag: the path fans out over one descriptor per locale.
pub const IS_LOCALIZED: u32 = 0x1;

/// Flag: the path fans out over one descriptor per region.
pub const IS_REGIONAL: u32 = 0x2;

/// Representation of one streamable file.
#[derive(Debug, Copy, Clone, PartialEq, Eq, Structural)]
pub struct StreamPath {
    /// The path hash; the payload is the first descriptor index.
    pub path_and_desc: HashWithData,
    /// Locale/region flags.
    pub flags: u32,
}

impl StreamPath {
    /// The packed 40-bit path hash.
    pub fn path(&self) -> (r: u64)
        ensures
            r == self.path_and_desc.crc + crate::hash::spec_hwd_len(
                self.path_and_desc.len_and_data,
            ) * 0x1_0000_0000,
    {
        self.path_and_desc.hash40()
    }

    /// Law of flag-driven fan-out: a localized path has one descriptor per
    /// locale, a regional one per region, any other exactly one.
    pub open spec fn spec_descriptor_count(self) -> u32 {
        if self.flags & IS_LOCALIZED != 0 {
            LOCALE_COUNT
        } else if self.flags & IS_REGIONAL != 0 {
            REGION_COUNT
        } else {
            1
        }
    }

    /// The indices of this path's descriptors; the count is fixed by the
    /// locale/region flags.
    pub fn descriptor_range(&self) -> (r: core::ops::Range<u32>)
        ensures
            r.start == spec_checked_start(spec_hwd_data(self.path_and_desc.len_and_data), self.spec_descriptor_count()),
            r.end == r.start + spec_checked_range(spec_hwd_data(self.path_and_desc.len_and_data), self.spec_descriptor_count()).len(),
            r.end >= r.start,
            r.end - r.start == spec_checked_range(
                spec_hwd_data(self.path_and_desc.len_and_data),
                self.spec_descriptor_count(),
            ).len(),
            forall|i: int|
                0 <= i < r.end - r.start ==> spec_checked_range(
                    spec_hwd_data(self.path_and_desc.len_and_data),
                    self.spec_descriptor_count(),
                )[i] == r.start + i,
    {
        let count: u32 = if self.flags & IS_LOCALIZED != 0 {
            LOCALE_COUNT
        } else if self.flags & IS_REGIONAL != 0 {
            REGION_COUNT
        } else {
            1
        };
        checked_range(self.path_and_desc.data(), count)
    }

    /// Replaces the first descriptor index, keeping the hash.
    pub fn set_descriptor_start(&mut self, index: u32)
        ensures
            final(self).path_and_desc == old(self).path_and_desc.spec_with_data(index),
            final(self).flags == old(self).flags,
    {
        self.path_and_desc.set_data(index);
    }

    /// Reserves this path's descriptor run, each fresh.
    pub fn reserve(&self, state: &mut SerState) -> (ok: bool)
        requires
            old(state).wf(),
        ensures
            final(state).wf(),
            match sv_reserve_range(
                old(state)@.stream_desc,
                spec_hwd_data(self.path_and_desc.len_and_data),
                self.spec_descriptor_count(),
            ) {
                Some(t) => ok && final(state)@ == (SerView { stream_desc: t, ..old(state)@ }),
                None => !ok,
            },
    {
        let count: u32 = if self.flags & IS_LOCALIZED != 0 {
            LOCALE_COUNT
        } else if self.flags & IS_REGIONAL != 0 {
            REGION_COUNT
        } else {
            1
        };
        state.stream_desc.reserve_range(self.path_and_desc.data(), count)
    }

    /// The record with its descriptor start rewritten to the new dense index
    /// space.
    pub open spec fn spec_rewrite(self, s: SerView) -> Result<StreamPath, ArcError> {
        match sv_get(s.stream_desc, spec_hwd_data(self.path_and_desc.len_and_data)) {
            Some(d) => Ok(
                StreamPath { path_and_desc: self.path_and_desc.spec_with_data(d), flags: self.flags },
            ),
            None => Err(ArcError::CorruptGraph),
        }
    }

    /// Rewrites the embedded descriptor index through the reservation state.
    pub fn reinternalize(&self, state: &SerState) -> (r: Result<StreamPath, ArcError>)
        requires
            state.wf(),
        ensures
            r == self.spec_rewrite(state@),
    {
        match state.stream_desc.get(self.path_and_desc.data()) {
            Some(d) => Ok(
                StreamPath { path_and_desc: self.path_and_desc.with_data(d), flags: self.flags },
            ),
            None => Err(ArcError::CorruptGraph),
        }
    }
}

/// Byte size of the wire form.
pub const STREAM_PATH_SIZE: usize = 12;

/// Wire form: the hash word pair, then the flags.
pub open spec fn stream_path_le_bytes(d: StreamPath) -> Seq<u8> {
    hwd_le_bytes(d.path_and_desc) + u32_le_bytes(d.flags)
}

/// The record stored at `pos`.
pub open spec fn stream_path_le_at(s: Seq<u8>, pos: int) -> StreamPath {
    StreamPath { path_and_desc: hwd_le_at(s, pos), flags: u32_le_at(s, pos + 8) }
}

/// Reads the record stored at `pos`.
pub fn read_stream_path(b: &[u8], pos: usize) -> (r: StreamPath)
    requires
        pos + STREAM_PATH_SIZE <= b@.len(),
    ensures
        r == stream_path_le_at(b@, pos as int),
{
    let n: usize = b.len();
    StreamPath { path_and_desc: read_hwd(b, pos), flags: read_u32_le(b, pos + 8) }
}

/// Appends the wire form of `d`.
pub fn push_stream_path(out: &mut Vec<u8>, d: &StreamPath)
    ensures
        final(out)@ =~= old(out)@ + stream_path_le_bytes(*d),
{
    push_hwd(out, &d.path_and_desc);
    push_u32_le(out, d.flags);
}

/// Reading back the wire form of `d` yields `d`.
pub proof fn lemma_stream_path_le_at_of_bytes(s: Seq<u8>, pos: int, d: StreamPath)
    requires
        0 <= pos,
        pos + STREAM_PATH_SIZE <= s.len(),
        forall|i: int| 0 <= i < STREAM_PATH_SIZE ==> s[pos + i] == stream_path_le_bytes(d)[i],
    ensures
        stream_path_le_at(s, pos) == d,
{
    assert forall|i: int| 0 <= i < 8 implies s[pos + i] == hwd_le_bytes(d.path_and_desc)[i] by {
        assert(s[pos + i] == stream_path_le_bytes(d)[i]);
    }
    assert forall|i: int| 0 <= i < 4 implies s[pos + 8 + i] == u32_le_bytes(d.flags)[i] by {
        assert(s[pos + (8 + i)] == stream_path_le_bytes(d)[8 + i]);
    }
    crate::hash::lemma_hwd_le_at_of_bytes(s, pos, d.path_and_desc);
    crate::bytes::lemma_u32_le_at_of_bytes(s, pos + 8, d.flags);
}

} // verus!
