//! A load-unit grouping files consumed together: its path hash and data-group
//! link, its file info run, its child packages, and flags that fix the
//! data-group fan-out and the subpackage form.

use crate::bytes::{push_u32_le, read_u32_le, u32_le_at, u32_le_bytes};
use crate::err::ArcError;
use crate::hash::{
    hash_le_at, hash_le_bytes, hwd_le_at, hwd_le_bytes, push_hash, push_hwd, read_hash, read_hwd,
    spec_hwd_data, HashWithData,
};
use crate::index::{checked_range, spec_checked_range, spec_checked_start, INVALID_INDEX};
use crate::serialization::{sv_get, sv_reserve_range, SerState, SerView};
use crate::{LOCALE_COUNT, REGION_COUNT};
use vstd::prelude::*;

verus! {

broadcast use vstd::slice::axiom_spec_len;

/// Flag: the package fans out over one data group per locale plus one;
/// mutually exclusive with `IS_REGIONAL`.
pub const IS_LOCALIZED: u32 = 0x100_0000;

/// Flag: the package fans out over one data group per region plus one;
/// mutually exclusive with `IS_LOCALIZED`.
pub const IS_REGIONAL: u32 = 0x200_0000;

/// Flag: the package has a subpackage; its index is the data-group's
/// redirection.
pub const HAS_SUB_PACKAGE: u32 = 0x400_0000;

/// Flag: the symlinked subpackage is regional; demands `HAS_SUB_PACKAGE` and
/// `IS_SYM_LINK`.
pub const SYM_LINK_IS_REGIONAL: u32 = 0x800_0000;

/// Flag: the subpackage is another package whose contents supersede this
/// one's; demands `HAS_SUB_PACKAGE`.
pub const IS_SYM_LINK: u32 = 0x1000_0000;

/// A collection of files to load in bulk.
#[derive(Debug, Copy, Clone, PartialEq, Eq, Structural)]
pub struct FilePackage {
    /// The full path hash; the payload is the first data group index.
    pub path_and_group: HashWithData,
    /// The file-name part of this package's path.
    pub name: crate::hash::Hash,
    /// Hash of the parent in the traditional filesystem sense.
    pub parent: crate::hash::Hash,
    /// Lifetime label hash; not read by the loaders; preserved.
    pub lifetime: crate::hash::Hash,
    /// Starting index into the file info table.
    pub info_start: u32,
    /// Number of file infos.
    pub info_count: u32,
    /// Starting index into the package child table.
    pub child_start: u32,
    /// Number of package children.
    pub child_count: u32,
    /// Interpretation and loading flags.
    pub flags: u32,
}

/// A child link: the child's hash and the target package index.
///
/// A self-recursive link is a logical error: it would recurse forever in the
/// loaders.
#[derive(Debug, Copy, Clone, PartialEq, Eq, Structural)]
pub struct FilePackageChild {
    pub link: HashWithData,
}

impl FilePackageChild {
    /// The hash-and-index word.
    pub fn inner(&self) -> (r: &HashWithData)
        ensures
            r == self.link,
    {
        &self.link
    }

    /// The rewrite: the target goes through the file package map.
    pub open spec fn spec_rewrite(self, s: SerView) -> Result<FilePackageChild, ArcError> {
        match sv_get(s.file_package, spec_hwd_data(self.link.len_and_data)) {
            None => Err(ArcError::CorruptGraph),
            Some(p) => Ok(FilePackageChild { link: self.link.spec_with_data(p) }),
        }
    }

    /// Rewrites the embedded package index through the reservation state.
    pub fn reinternalize(&self, state: &SerState) -> (r: Result<FilePackageChild, ArcError>)
        requires
            state.wf(),
        ensures
            r == self.spec_rewrite(state@),
    {
        match state.file_package.get(self.link.data()) {
            None => Err(ArcError::CorruptGraph),
            Some(p) => Ok(FilePackageChild { link: self.link.with_data(p) }),
        }
    }
}

impl FilePackage {
    /// The packed 40-bit path hash.
    pub fn path(&self) -> (r: u64)
        ensures
            r == self.path_and_group.crc + crate::hash::spec_hwd_len(
                self.path_and_group.len_and_data,
            ) * 0x1_0000_0000,
    {
        self.path_and_group.hash40()
    }

    /// The indices of this package's file infos.
    pub fn info_range(&self) -> (r: core::ops::Range<u32>)
        ensures
            r.start == spec_checked_start(self.info_start, self.info_count),
            r.end == r.start + spec_checked_range(self.info_start, self.info_count).len(),
            r.end >= r.start,
            r.end - r.start == spec_checked_range(self.info_start, self.info_count).len(),
            forall|i: int|
                0 <= i < r.end - r.start ==> spec_checked_range(self.info_start, self.info_count)[i]
                    == r.start + i,
    {
        checked_range(self.info_start, self.info_count)
    }

    /// The indices of this package's child packages.
    pub fn child_package_range(&self) -> (r: core::ops::Range<u32>)
        ensures
            r.start == spec_checked_start(self.child_start, self.child_count),
            r.end == r.start + spec_checked_range(self.child_start, self.child_count).len(),
            r.end >= r.start,
            r.end - r.start == spec_checked_range(self.child_start, self.child_count).len(),
            forall|i: int|
                0 <= i < r.end - r.start ==> spec_checked_range(self.child_start, self.child_count)[i]
                    == r.start + i,
    {
        checked_range(self.child_start, self.child_count)
    }

    /// Law of flag-driven fan-out: a localized package has one data group per
    /// locale plus an invalid one, a regional one per region plus an invalid
    /// one, any other exactly one.
    pub open spec fn spec_data_group_count(self) -> u32 {
        if self.flags & IS_LOCALIZED != 0 {
            (LOCALE_COUNT + 1) as u32
        } else if self.flags & IS_REGIONAL != 0 {
            (REGION_COUNT + 1) as u32
        } else {
            1
        }
    }

    /// The first data group index.
    pub open spec fn spec_data_group_start(self) -> u32 {
        spec_hwd_data(self.path_and_group.len_and_data)
    }

    /// The indices of this package's data groups; the count is fixed by the
    /// locale/region flags.
    pub fn data_group_range(&self) -> (r: core::ops::Range<u32>)
        ensures
            r.start == spec_checked_start(self.spec_data_group_start(), self.spec_data_group_count()),
            r.end == r.start + spec_checked_range(self.spec_data_group_start(), self.spec_data_group_count()).len(),
            r.end >= r.start,
            r.end - r.start == spec_checked_range(
                self.spec_data_group_start(),
                self.spec_data_group_count(),
            ).len(),
            forall|i: int|
                0 <= i < r.end - r.start ==> spec_checked_range(
                    self.spec_data_group_start(),
                    self.spec_data_group_count(),
                )[i] == r.start + i,
    {
        let count: u32 = if self.flags & IS_LOCALIZED != 0 {
            LOCALE_COUNT + 1
        } else if self.flags & IS_REGIONAL != 0 {
            REGION_COUNT + 1
        } else {
            1
        };
        checked_range(self.path_and_group.data(), count)
    }

    /// Replaces the info start index.
    pub fn set_info_start(&mut self, index: u32)
        ensures
            *final(self) == (FilePackage { info_start: index, ..*old(self) }),
    {
        self.info_start = index;
    }

    /// Replaces the child start index.
    pub fn set_child_start(&mut self, index: u32)
        ensures
            *final(self) == (FilePackage { child_start: index, ..*old(self) }),
    {
        self.child_start = index;
    }

    /// Replaces the first data group index, keeping the path hash.
    pub fn set_data_group_start(&mut self, index: u32)
        ensures
            *final(self) == (FilePackage {
                path_and_group: old(self).path_and_group.spec_with_data(index),
                ..*old(self)
            }),
    {
        self.path_and_group.set_data(index);
    }

    /// The reservations one package makes for itself: its child run, its
    /// info run, and its data-group run, in that order, each fresh.
    pub open spec fn spec_reserve(self, s: SerView) -> Option<SerView> {
        match sv_reserve_range(s.file_package_child, self.child_start, self.child_count) {
            None => None,
            Some(c) => match sv_reserve_range(s.file_info, self.info_start, self.info_count) {
                None => None,
                Some(i) => match sv_reserve_range(
                    s.file_group,
                    self.spec_data_group_start(),
                    self.spec_data_group_count(),
                ) {
                    None => None,
                    Some(g) => Some(
                        SerView { file_package_child: c, file_info: i, file_group: g, ..s },
                    ),
                },
            },
        }
    }

    /// Reserves this package's child run, info run, and data-group run.
    pub fn reserve(&self, state: &mut SerState) -> (ok: bool)
        requires
            old(state).wf(),
        ensures
            final(state).wf(),
            match self.spec_reserve(old(state)@) {
                Some(v) => ok && final(state)@ == v,
                None => !ok,
            },
    {
        if !state.file_package_child.reserve_range(self.child_start, self.child_count) {
            return false;
        }
        if !state.file_info.reserve_range(self.info_start, self.info_count) {
            return false;
        }
        let count: u32 = if self.flags & IS_LOCALIZED != 0 {
            LOCALE_COUNT + 1
        } else if self.flags & IS_REGIONAL != 0 {
            REGION_COUNT + 1
        } else {
            1
        };
        if !state.file_group.reserve_range(self.path_and_group.data(), count) {
            return false;
        }
        true
    }

    /// The rewrite: the info and child starts go through their maps, or are
    /// forced to the sentinel when their counts are zero; the data-group link
    /// goes through the file group map.
    pub open spec fn spec_rewrite(self, s: SerView) -> Result<FilePackage, ArcError> {
        let child = if self.child_count == 0 {
            Some(INVALID_INDEX)
        } else {
            sv_get(s.file_package_child, self.child_start)
        };
        let info = if self.info_count == 0 {
            Some(INVALID_INDEX)
        } else {
            sv_get(s.file_info, self.info_start)
        };
        match child {
            None => Err(ArcError::CorruptGraph),
            Some(c) => match info {
                None => Err(ArcError::CorruptGraph),
                Some(i) => match sv_get(s.file_group, self.spec_data_group_start()) {
                    None => Err(ArcError::CorruptGraph),
                    Some(g) => Ok(
                        FilePackage {
                            path_and_group: self.path_and_group.spec_with_data(g),
                            info_start: i,
                            child_start: c,
                            ..self
                        },
                    ),
                },
            },
        }
    }

    /// Rewrites the embedded indices through the reservation state.
    pub fn reinternalize(&self, state: &SerState) -> (r: Result<FilePackage, ArcError>)
        requires
            state.wf(),
        ensures
            r == self.spec_rewrite(state@),
    {
        let c = if self.child_count == 0 {
            INVALID_INDEX
        } else {
            match state.file_package_child.get(self.child_start) {
                None => {
                    return Err(ArcError::CorruptGraph);
                },
                Some(c) => c,
            }
        };
        let i = if self.info_count == 0 {
            INVALID_INDEX
        } else {
            match state.file_info.get(self.info_start) {
                None => {
                    return Err(ArcError::CorruptGraph);
                },
                Some(i) => i,
            }
        };
        match state.file_group.get(self.path_and_group.data()) {
            None => Err(ArcError::CorruptGraph),
            Some(g) => Ok(
                FilePackage {
                    path_and_group: self.path_and_group.with_data(g),
                    info_start: i,
                    child_start: c,
                    ..*self
                },
            ),
        }
    }
}

/// Byte size of the wire form of a package.
pub const FILE_PACKAGE_SIZE: usize = 52;

/// Byte size of the wire form of a package child.
pub const FILE_PACKAGE_CHILD_SIZE: usize = 8;

/// Wire form: the path word pair, three padded hashes, four words, the flags.
pub open spec fn file_package_le_bytes(d: FilePackage) -> Seq<u8> {
    hwd_le_bytes(d.path_and_group) + hash_le_bytes(d.name) + hash_le_bytes(d.parent)
        + hash_le_bytes(d.lifetime) + u32_le_bytes(d.info_start) + u32_le_bytes(d.info_count)
        + u32_le_bytes(d.child_start) + u32_le_bytes(d.child_count) + u32_le_bytes(d.flags)
}

/// The package stored at `pos`.
pub open spec fn file_package_le_at(s: Seq<u8>, pos: int) -> FilePackage {
    FilePackage {
        path_and_group: hwd_le_at(s, pos),
        name: hash_le_at(s, pos + 8),
        parent: hash_le_at(s, pos + 16),
        lifetime: hash_le_at(s, pos + 24),
        info_start: u32_le_at(s, pos + 32),
        info_count: u32_le_at(s, pos + 36),
        child_start: u32_le_at(s, pos + 40),
        child_count: u32_le_at(s, pos + 44),
        flags: u32_le_at(s, pos + 48),
    }
}

/// Reads the package stored at `pos`.
pub fn read_file_package(b: &[u8], pos: usize) -> (r: FilePackage)
    requires
        pos + FILE_PACKAGE_SIZE <= b@.len(),
    ensures
        r == file_package_le_at(b@, pos as int),
{
    let n: usize = b.len();
    FilePackage {
        path_and_group: read_hwd(b, pos),
        name: read_hash(b, pos + 8),
        parent: read_hash(b, pos + 16),
        lifetime: read_hash(b, pos + 24),
        info_start: read_u32_le(b, pos + 32),
        info_count: read_u32_le(b, pos + 36),
        child_start: read_u32_le(b, pos + 40),
        child_count: read_u32_le(b, pos + 44),
        flags: read_u32_le(b, pos + 48),
    }
}

/// Appends the wire form of `d`.
pub fn push_file_package(out: &mut Vec<u8>, d: &FilePackage)
    ensures
        final(out)@ =~= old(out)@ + file_package_le_bytes(*d),
{
    push_hwd(out, &d.path_and_group);
    push_hash(out, &d.name);
    push_hash(out, &d.parent);
    push_hash(out, &d.lifetime);
    push_u32_le(out, d.info_start);
    push_u32_le(out, d.info_count);
    push_u32_le(out, d.child_start);
    push_u32_le(out, d.child_count);
    push_u32_le(out, d.flags);
}

/// Wire form of a package child: one hash word pair.
pub open spec fn file_package_child_le_bytes(d: FilePackageChild) -> Seq<u8> {
    hwd_le_bytes(d.link)
}

/// The package child stored at `pos`.
pub open spec fn file_package_child_le_at(s: Seq<u8>, pos: int) -> FilePackageChild {
    FilePackageChild { link: hwd_le_at(s, pos) }
}

/// Reads the package child stored at `pos`.
pub fn read_file_package_child(b: &[u8], pos: usize) -> (r: FilePackageChild)
    requires
        pos + FILE_PACKAGE_CHILD_SIZE <= b@.len(),
    ensures
        r == file_package_child_le_at(b@, pos as int),
{
    FilePackageChild { link: read_hwd(b, pos) }
}

/// Appends the wire form of `d`.
pub fn push_file_package_child(out: &mut Vec<u8>, d: &FilePackageChild)
    ensures
        final(out)@ =~= old(out)@ + file_package_child_le_bytes(*d),
{
    push_hwd(out, &d.link);
}

/// Reading back the wire form of a package child yields it.
pub proof fn lemma_file_package_child_le_at_of_bytes(s: Seq<u8>, pos: int, d: FilePackageChild)
    requires
        0 <= pos,
        pos + FILE_PACKAGE_CHILD_SIZE <= s.len(),
        forall|i: int|
            0 <= i < FILE_PACKAGE_CHILD_SIZE ==> s[pos + i] == file_package_child_le_bytes(d)[i],
    ensures
        file_package_child_le_at(s, pos) == d,
{
    assert forall|i: int| 0 <= i < 8 implies s[pos + i] == hwd_le_bytes(d.link)[i] by {
        assert(s[pos + i] == file_package_child_le_bytes(d)[i]);
    }
    crate::hash::lemma_hwd_le_at_of_bytes(s, pos, d.link);
}

/// Reading back the wire form of a package yields it.
pub proof fn lemma_file_package_le_at_of_bytes(s: Seq<u8>, pos: int, d: FilePackage)
    requires
        0 <= pos,
        pos + FILE_PACKAGE_SIZE <= s.len(),
        forall|i: int| 0 <= i < FILE_PACKAGE_SIZE ==> s[pos + i] == file_package_le_bytes(d)[i],
    ensures
        file_package_le_at(s, pos) == d,
{
    assert forall|i: int| 0 <= i < 8 implies s[pos + i] == hwd_le_bytes(d.path_and_group)[i] by {
        assert(s[pos + i] == file_package_le_bytes(d)[i]);
    }
    assert forall|i: int| 0 <= i < 8 implies s[pos + 8 + i] == hash_le_bytes(d.name)[i] by {
        assert(s[pos + (8 + i)] == file_package_le_bytes(d)[8 + i]);
    }
    assert forall|i: int| 0 <= i < 8 implies s[pos + 16 + i] == hash_le_bytes(d.parent)[i] by {
        assert(s[pos + (16 + i)] == file_package_le_bytes(d)[16 + i]);
    }
    assert forall|i: int| 0 <= i < 8 implies s[pos + 24 + i] == hash_le_bytes(d.lifetime)[i] by {
        assert(s[pos + (24 + i)] == file_package_le_bytes(d)[24 + i]);
    }
    assert forall|i: int| 0 <= i < 4 implies s[pos + 32 + i] == u32_le_bytes(d.info_start)[i] by {
        assert(s[pos + (32 + i)] == file_package_le_bytes(d)[32 + i]);
    }
    assert forall|i: int| 0 <= i < 4 implies s[pos + 36 + i] == u32_le_bytes(d.info_count)[i] by {
        assert(s[pos + (36 + i)] == file_package_le_bytes(d)[36 + i]);
    }
    assert forall|i: int| 0 <= i < 4 implies s[pos + 40 + i] == u32_le_bytes(d.child_start)[i] by {
        assert(s[pos + (40 + i)] == file_package_le_bytes(d)[40 + i]);
    }
    assert forall|i: int| 0 <= i < 4 implies s[pos + 44 + i] == u32_le_bytes(d.child_count)[i] by {
        assert(s[pos + (44 + i)] == file_package_le_bytes(d)[44 + i]);
    }
    assert forall|i: int| 0 <= i < 4 implies s[pos + 48 + i] == u32_le_bytes(d.flags)[i] by {
        assert(s[pos + (48 + i)] == file_package_le_bytes(d)[48 + i]);
    }
    crate::hash::lemma_hwd_le_at_of_bytes(s, pos, d.path_and_group);
    crate::hash::lemma_hash_le_at_of_bytes(s, pos + 8, d.name);
    crate::hash::lemma_hash_le_at_of_bytes(s, pos + 16, d.parent);
    crate::hash::lemma_hash_le_at_of_bytes(s, pos + 24, d.lifetime);
    crate::bytes::lemma_u32_le_at_of_bytes(s, pos + 32, d.info_start);
    crate::bytes::lemma_u32_le_at_of_bytes(s, pos + 36, d.info_count);
    crate::bytes::lemma_u32_le_at_of_bytes(s, pos + 40, d.child_start);
    crate::bytes::lemma_u32_le_at_of_bytes(s, pos + 44, d.child_count);
    crate::bytes::lemma_u32_le_at_of_bytes(s, pos + 48, d.flags);
}

} // verus!
