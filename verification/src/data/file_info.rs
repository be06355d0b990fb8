//! File information: the record tying a path, its entity, and its descriptor
//! run together, with flags that fix the run's length.

use crate::bytes::{push_u32_le, read_u32_le, u32_le_at, u32_le_bytes};
use crate::err::ArcError;
use crate::index::{checked_range, spec_checked_range, spec_checked_start};
use crate::serialization::{sv_get, sv_reserve_range, SerState, SerView};
use crate::{LOCALE_COUNT, REGION_COUNT};
use vstd::prelude::*;

verus! {

broadcast use vstd::slice::axiom_spec_len;

/// Flag: a regular file; mutually exclusive with `IS_GRAPHICS_ARCHIVE`.
pub const IS_REGULAR_FILE: u32 = 0x10;

/// Flag: a graphics archive; mutually exclusive with `IS_REGULAR_FILE`.
pub const IS_GRAPHICS_ARCHIVE: u32 = 0x1000;

/// Flag: the info fans out over one descriptor per locale plus one.
pub const IS_LOCALIZED: u32 = 0x8000;

/// Flag: the info fans out over one descriptor per region plus one.
pub const IS_REGIONAL: u32 = 0x1_0000;

/// Flag: the file is shared between packages exclusively.
pub const IS_SHARED: u32 = 0x10_0000;

/// Flag: usually set together with `IS_SHARED`; no known effect; preserved.
pub const IS_UNKNOWN_FLAG: u32 = 0x20_0000;

/// File information for one file; several may share one path and entity.
#[derive(Debug, Copy, Clone, PartialEq, Eq, Structural)]
pub struct FileInfo {
    /// Index of the file path this info represents.
    pub path: u32,
    /// Index of the file entity that is the source of truth for the data.
    pub entity: u32,
    /// Index of the first descriptor of this info's run.
    pub desc: u32,
    /// Behavior flags.
    pub flags: u32,
}

impl FileInfo {
    /// Law of flag-driven fan-out: a localized info has one descriptor per
    /// locale plus an invalid one, a regional one per region plus an invalid
    /// one, any other exactly one.
    pub open spec fn spec_descriptor_count(self) -> u32 {
        if self.flags & IS_LOCALIZED != 0 {
            (LOCALE_COUNT + 1) as u32
        } else if self.flags & IS_REGIONAL != 0 {
            (REGION_COUNT + 1) as u32
        } else {
            1
        }
    }

    /// The indices of this info's descriptors; the count is fixed by the
    /// locale/region flags.
    pub fn descriptor_range(&self) -> (r: core::ops::Range<u32>)
        ensures
            r.start == spec_checked_start(self.desc, self.spec_descriptor_count()),
            r.end == r.start + spec_checked_range(self.desc, self.spec_descriptor_count()).len(),
            r.end >= r.start,
            r.end - r.start == spec_checked_range(self.desc, self.spec_descriptor_count()).len(),
            forall|i: int|
                0 <= i < r.end - r.start ==> spec_checked_range(
                    self.desc,
                    self.spec_descriptor_count(),
                )[i] == r.start + i,
    {
        let count: u32 = if self.flags & IS_LOCALIZED != 0 {
            LOCALE_COUNT + 1
        } else if self.flags & IS_REGIONAL != 0 {
            REGION_COUNT + 1
        } else {
            1
        };
        checked_range(self.desc, count)
    }

    /// Reserves this info's descriptor run, each fresh.
    pub fn reserve(&self, state: &mut SerState) -> (ok: bool)
        requires
            old(state).wf(),
        ensures
            final(state).wf(),
            match sv_reserve_range(old(state)@.file_desc, self.desc, self.spec_descriptor_count()) {
                Some(t) => ok && final(state)@ == (SerView { file_desc: t, ..old(state)@ }),
                None => !ok,
            },
    {
        let count: u32 = if self.flags & IS_LOCALIZED != 0 {
            LOCALE_COUNT + 1
        } else if self.flags & IS_REGIONAL != 0 {
            REGION_COUNT + 1
        } else {
            1
        };
        state.file_desc.reserve_range(self.desc, count)
    }

    /// The record with its path, entity, and descriptor indices rewritten to
    /// the new dense index spaces.
    pub open spec fn spec_rewrite(self, s: SerView) -> Result<FileInfo, ArcError> {
        match sv_get(s.file_path, self.path) {
            None => Err(ArcError::CorruptGraph),
            Some(p) => match sv_get(s.file_entity, self.entity) {
                None => Err(ArcError::CorruptGraph),
                Some(e) => match sv_get(s.file_desc, self.desc) {
                    None => Err(ArcError::CorruptGraph),
                    Some(d) => Ok(FileInfo { path: p, entity: e, desc: d, flags: self.flags }),
                },
            },
        }
    }

    /// Rewrites the embedded indices through the reservation state.
    pub fn reinternalize(&self, state: &SerState) -> (r: Result<FileInfo, ArcError>)
        requires
            state.wf(),
        ensures
            r == self.spec_rewrite(state@),
    {
        let p = match state.file_path.get(self.path) {
            None => {
                return Err(ArcError::CorruptGraph);
            },
            Some(p) => p,
        };
        let e = match state.file_entity.get(self.entity) {
            None => {
                return Err(ArcError::CorruptGraph);
            },
            Some(e) => e,
        };
        let d = match state.file_desc.get(self.desc) {
            None => {
                return Err(ArcError::CorruptGraph);
            },
            Some(d) => d,
        };
        Ok(FileInfo { path: p, entity: e, desc: d, flags: self.flags })
    }
}

/// Byte size of the wire form.
pub const FILE_INFO_SIZE: usize = 16;

/// Wire form: four words, little-endian.
pub open spec fn file_info_le_bytes(d: FileInfo) -> Seq<u8> {
    u32_le_bytes(d.path) + u32_le_bytes(d.entity) + u32_le_bytes(d.desc) + u32_le_bytes(d.flags)
}

/// The record stored at `pos`.
pub open spec fn file_info_le_at(s: Seq<u8>, pos: int) -> FileInfo {
    FileInfo {
        path: u32_le_at(s, pos),
        entity: u32_le_at(s, pos + 4),
        desc: u32_le_at(s, pos + 8),
        flags: u32_le_at(s, pos + 12),
    }
}

/// Reads the record stored at `pos`.
pub fn read_file_info(b: &[u8], pos: usize) -> (r: FileInfo)
    requires
        pos + FILE_INFO_SIZE <= b@.len(),
    ensures
        r == file_info_le_at(b@, pos as int),
{
    let n: usize = b.len();
    FileInfo {
        path: read_u32_le(b, pos),
        entity: read_u32_le(b, pos + 4),
        desc: read_u32_le(b, pos + 8),
        flags: read_u32_le(b, pos + 12),
    }
}

/// Appends the wire form of `d`.
pub fn push_file_info(out: &mut Vec<u8>, d: &FileInfo)
    ensures
        final(out)@ =~= old(out)@ + file_info_le_bytes(*d),
{
    push_u32_le(out, d.path);
    push_u32_le(out, d.entity);
    push_u32_le(out, d.desc);
    push_u32_le(out, d.flags);
}

/// Reading back the wire form of `d` yields `d`.
pub proof fn lemma_file_info_le_at_of_bytes(s: Seq<u8>, pos: int, d: FileInfo)
    requires
        0 <= pos,
        pos + FILE_INFO_SIZE <= s.len(),
        forall|i: int| 0 <= i < FILE_INFO_SIZE ==> s[pos + i] == file_info_le_bytes(d)[i],
    ensures
        file_info_le_at(s, pos) == d,
{
    assert forall|i: int| 0 <= i < 4 implies s[pos + i] == u32_le_bytes(d.path)[i] by {
        assert(s[pos + i] == file_info_le_bytes(d)[i]);
    }
    assert forall|i: int| 0 <= i < 4 implies s[pos + 4 + i] == u32_le_bytes(d.entity)[i] by {
        assert(s[pos + (4 + i)] == file_info_le_bytes(d)[4 + i]);
    }
    assert forall|i: int| 0 <= i < 4 implies s[pos + 8 + i] == u32_le_bytes(d.desc)[i] by {
        assert(s[pos + (8 + i)] == file_info_le_bytes(d)[8 + i]);
    }
    assert forall|i: int| 0 <= i < 4 implies s[pos + 12 + i] == u32_le_bytes(d.flags)[i] by {
        assert(s[pos + (12 + i)] == file_info_le_bytes(d)[12 + i]);
    }
    crate::bytes::lemma_u32_le_at_of_bytes(s, pos, d.path);
    crate::bytes::lemma_u32_le_at_of_bytes(s, pos + 4, d.entity);
    crate::bytes::lemma_u32_le_at_of_bytes(s, pos + 8, d.desc);
    crate::bytes::lemma_u32_le_at_of_bytes(s, pos + 12, d.flags);
}

} // verus!
