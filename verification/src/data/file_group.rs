//! A contiguous chunk group. One record serves two dispositions, decided by
//! position: a data-bearing group's children are file data, an info-bearing
//! group's children are file infos, and the `redirection` field's meaning
//! changes with the disposition.

use crate::bytes::{push_u32_le, read_u32_le, u32_le_at, u32_le_bytes};
use crate::err::ArcError;
use crate::index::{checked_range, spec_checked_range, spec_checked_start, INVALID_INDEX};
use crate::serialization::{sv_get, sv_reserve_range, sv_try_range, SerState, SerView};
use vstd::prelude::*;

verus! {

broadcast use vstd::slice::axiom_spec_len;

/// A collection of either file infos or file data.
#[derive(Debug, Copy, Clone, PartialEq, Eq, Structural)]
pub struct FileGroup {
    /// Low half of the chunk's archive offset (split for 4-byte alignment).
    pub archive_offset_lo: u32,
    /// High half of the chunk's archive offset.
    pub archive_offset_hi: u32,
    /// Size of the group's contents when decompressed.
    pub decompressed_size: u32,
    /// Size of the group's contents when compressed.
    pub compressed_size: u32,
    /// Start index of the children; file data or file infos by disposition.
    pub child_start: u32,
    /// Number of children.
    pub child_count: u32,
    /// For a data group: the sentinel, an info-bearing group, or a file
    /// package, disambiguated by magnitude against the package count. For an
    /// info group: this group's own index.
    pub redirection: u32,
}

impl FileGroup {
    /// The indices of this group's children.
    pub fn child_range(&self) -> (r: core::ops::Range<u32>)
        ensures
            r.start == spec_checked_start(self.child_start, self.child_count),
            r.end == r.start + spec_checked_range(self.child_start, self.child_count).len(),
            r.end >= r.start,
            r.end - r.start == spec_checked_range(self.child_start, self.child_count).len(),
            forall|i: int|
                0 <= i < r.end - r.start ==> spec_checked_range(self.child_start, self.child_count)[i]
                    == r.start + i,
    {
        checked_range(self.child_start, self.child_count)
    }

    /// The raw redirection index.
    pub fn redirection_index(&self) -> (r: u32)
        ensures
            r == self.redirection,
    {
        self.redirection
    }

    /// Reserves this group's children: file data where overlap is legal for
    /// a data group, file infos each fresh for an info group.
    #[verifier::loop_isolation(false)]
    pub fn reserve(&self, state: &mut SerState, is_data: bool) -> (ok: bool)
        requires
            old(state).wf(),
        ensures
            final(state).wf(),
            is_data ==> match sv_try_range(
                old(state)@.file_data,
                self.child_start,
                self.child_count,
            ) {
                Some(t) => ok && final(state)@ == (SerView { file_data: t, ..old(state)@ }),
                None => !ok,
            },
            !is_data ==> match sv_reserve_range(
                old(state)@.file_info,
                self.child_start,
                self.child_count,
            ) {
                Some(t) => ok && final(state)@ == (SerView { file_info: t, ..old(state)@ }),
                None => !ok,
            },
    {
        if is_data {
            let range = checked_range(self.child_start, self.child_count);
            let ghost s0 = state@.file_data;
            let mut k: u32 = range.start;
            while k < range.end
                invariant
                    range.start <= k <= range.end,
                    state.wf(),
                    crate::serialization::sv_try_n(s0, range.start, (k - range.start) as nat)
                        == Some(state@.file_data),
                    state@ == (SerView { file_data: state@.file_data, ..old(state)@ }),
                decreases range.end - k,
            {
                let ghost before = state@.file_data;
                let r = state.file_data.try_reserve(k);
                proof {
                    assert(crate::serialization::sv_try_n(
                        s0,
                        range.start,
                        (k + 1 - range.start) as nat,
                    ) == crate::serialization::sv_try(before, k));
                }
                if r.is_none() {
                    proof {
                        crate::serialization::lemma_sv_try_n_none(
                            s0,
                            range.start,
                            (k + 1 - range.start) as nat,
                            (range.end - range.start) as nat,
                        );
                    }
                    return false;
                }
                k = k + 1;
            }
            true
        } else {
            state.file_info.reserve_range(self.child_start, self.child_count)
        }
    }

    /// Law of rewrite for the data disposition: the child start goes through
    /// the file data map; a sentinel redirection is preserved, any other goes
    /// through the file group map when at or above the package count and
    /// through the file package map when below it.
    pub open spec fn spec_rewrite_data(self, s: SerView, package_len: u32) -> Result<
        FileGroup,
        ArcError,
    > {
        match sv_get(s.file_data, self.child_start) {
            None => Err(ArcError::CorruptGraph),
            Some(c) => {
                if self.redirection == INVALID_INDEX {
                    Ok(FileGroup { child_start: c, ..self })
                } else {
                    let red = if self.redirection >= package_len {
                        sv_get(s.file_group, self.redirection)
                    } else {
                        sv_get(s.file_package, self.redirection)
                    };
                    match red {
                        None => Err(ArcError::CorruptGraph),
                        Some(r) => Ok(FileGroup { child_start: c, redirection: r, ..self }),
                    }
                }
            },
        }
    }

    /// Law of rewrite for the info disposition: the child start goes through
    /// the file info map and the self-referential redirection through the
    /// file group map.
    pub open spec fn spec_rewrite_info(self, s: SerView) -> Result<FileGroup, ArcError> {
        match sv_get(s.file_info, self.child_start) {
            None => Err(ArcError::CorruptGraph),
            Some(c) => match sv_get(s.file_group, self.redirection) {
                None => Err(ArcError::CorruptGraph),
                Some(r) => Ok(FileGroup { child_start: c, redirection: r, ..self }),
            },
        }
    }

    /// Rewrites a data-bearing group's embedded indices.
    pub fn reinternalize_data(&self, state: &SerState, package_len: u32) -> (r: Result<
        FileGroup,
        ArcError,
    >)
        requires
            state.wf(),
        ensures
            r == self.spec_rewrite_data(state@, package_len),
    {
        let c = match state.file_data.get(self.child_start) {
            None => {
                return Err(ArcError::CorruptGraph);
            },
            Some(c) => c,
        };
        if self.redirection == INVALID_INDEX {
            Ok(FileGroup { child_start: c, ..*self })
        } else {
            let red = if self.redirection >= package_len {
                state.file_group.get(self.redirection)
            } else {
                state.file_package.get(self.redirection)
            };
            match red {
                None => Err(ArcError::CorruptGraph),
                Some(r) => Ok(FileGroup { child_start: c, redirection: r, ..*self }),
            }
        }
    }

    /// Rewrites an info-bearing group's embedded indices.
    pub fn reinternalize_info(&self, state: &SerState) -> (r: Result<FileGroup, ArcError>)
        requires
            state.wf(),
        ensures
            r == self.spec_rewrite_info(state@),
    {
        let c = match state.file_info.get(self.child_start) {
            None => {
                return Err(ArcError::CorruptGraph);
            },
            Some(c) => c,
        };
        match state.file_group.get(self.redirection) {
            None => Err(ArcError::CorruptGraph),
            Some(r) => Ok(FileGroup { child_start: c, redirection: r, ..*self }),
        }
    }
}

/// Byte size of the wire form.
pub const FILE_GROUP_SIZE: usize = 28;

/// Wire form: seven words, little-endian.
pub open spec fn file_group_le_bytes(d: FileGroup) -> Seq<u8> {
    u32_le_bytes(d.archive_offset_lo) + u32_le_bytes(d.archive_offset_hi) + u32_le_bytes(
        d.decompressed_size,
    ) + u32_le_bytes(d.compressed_size) + u32_le_bytes(d.child_start) + u32_le_bytes(d.child_count)
        + u32_le_bytes(d.redirection)
}

/// The record stored at `pos`.
pub open spec fn file_group_le_at(s: Seq<u8>, pos: int) -> FileGroup {
    FileGroup {
        archive_offset_lo: u32_le_at(s, pos),
        archive_offset_hi: u32_le_at(s, pos + 4),
        decompressed_size: u32_le_at(s, pos + 8),
        compressed_size: u32_le_at(s, pos + 12),
        child_start: u32_le_at(s, pos + 16),
        child_count: u32_le_at(s, pos + 20),
        redirection: u32_le_at(s, pos + 24),
    }
}

/// Reads the record stored at `pos`.
pub fn read_file_group(b: &[u8], pos: usize) -> (r: FileGroup)
    requires
        pos + FILE_GROUP_SIZE <= b@.len(),
    ensures
        r == file_group_le_at(b@, pos as int),
{
    let n: usize = b.len();
    FileGroup {
        archive_offset_lo: read_u32_le(b, pos),
        archive_offset_hi: read_u32_le(b, pos + 4),
        decompressed_size: read_u32_le(b, pos + 8),
        compressed_size: read_u32_le(b, pos + 12),
        child_start: read_u32_le(b, pos + 16),
        child_count: read_u32_le(b, pos + 20),
        redirection: read_u32_le(b, pos + 24),
    }
}

/// Appends the wire form of `d`.
pub fn push_file_group(out: &mut Vec<u8>, d: &FileGroup)
    ensures
        final(out)@ =~= old(out)@ + file_group_le_bytes(*d),
{
    push_u32_le(out, d.archive_offset_lo);
    push_u32_le(out, d.archive_offset_hi);
    push_u32_le(out, d.decompressed_size);
    push_u32_le(out, d.compressed_size);
    push_u32_le(out, d.child_start);
    push_u32_le(out, d.child_count);
    push_u32_le(out, d.redirection);
}

/// Reading back the wire form of `d` yields `d`.
pub proof fn lemma_file_group_le_at_of_bytes(s: Seq<u8>, pos: int, d: FileGroup)
    requires
        0 <= pos,
        pos + FILE_GROUP_SIZE <= s.len(),
        forall|i: int| 0 <= i < FILE_GROUP_SIZE ==> s[pos + i] == file_group_le_bytes(d)[i],
    ensures
        file_group_le_at(s, pos) == d,
{
    assert forall|i: int| 0 <= i < 4 implies s[pos + i] == u32_le_bytes(d.archive_offset_lo)[i] by {
        assert(s[pos + i] == file_group_le_bytes(d)[i]);
    }
    assert forall|i: int|
        0 <= i < 4 implies s[pos + 4 + i] == u32_le_bytes(d.archive_offset_hi)[i] by {
        assert(s[pos + (4 + i)] == file_group_le_bytes(d)[4 + i]);
    }
    assert forall|i: int|
        0 <= i < 4 implies s[pos + 8 + i] == u32_le_bytes(d.decompressed_size)[i] by {
        assert(s[pos + (8 + i)] == file_group_le_bytes(d)[8 + i]);
    }
    assert forall|i: int|
        0 <= i < 4 implies s[pos + 12 + i] == u32_le_bytes(d.compressed_size)[i] by {
        assert(s[pos + (12 + i)] == file_group_le_bytes(d)[12 + i]);
    }
    assert forall|i: int| 0 <= i < 4 implies s[pos + 16 + i] == u32_le_bytes(d.child_start)[i] by {
        assert(s[pos + (16 + i)] == file_group_le_bytes(d)[16 + i]);
    }
    assert forall|i: int| 0 <= i < 4 implies s[pos + 20 + i] == u32_le_bytes(d.child_count)[i] by {
        assert(s[pos + (20 + i)] == file_group_le_bytes(d)[20 + i]);
    }
    assert forall|i: int| 0 <= i < 4 implies s[pos + 24 + i] == u32_le_bytes(d.redirection)[i] by {
        assert(s[pos + (24 + i)] == file_group_le_bytes(d)[24 + i]);
    }
    crate::bytes::lemma_u32_le_at_of_bytes(s, pos, d.archive_offset_lo);
    crate::bytes::lemma_u32_le_at_of_bytes(s, pos + 4, d.archive_offset_hi);
    crate::bytes::lemma_u32_le_at_of_bytes(s, pos + 8, d.decompressed_size);
    crate::bytes::lemma_u32_le_at_of_bytes(s, pos + 12, d.compressed_size);
    crate::bytes::lemma_u32_le_at_of_bytes(s, pos + 16, d.child_start);
    crate::bytes::lemma_u32_le_at_of_bytes(s, pos + 20, d.child_count);
    crate::bytes::lemma_u32_le_at_of_bytes(s, pos + 24, d.redirection);
}

} // verus!
