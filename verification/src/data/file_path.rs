//! A single asset path: its hash, its file entity, its extension, and the
//! versioned back-link that re-serialization erases.

use crate::err::ArcError;
use crate::hash::{
    hash_le_at, hash_le_bytes, hwd_le_at, hwd_le_bytes, push_hash, push_hwd, read_hash, read_hwd,
    spec_hwd_data, HashWithData,
};
use crate::index::INVALID_INDEX;
use crate::serialization::{sv_get, SerState, SerView};
use vstd::prelude::*;

verus! {

broadcast use vstd::slice::axiom_spec_len;

/// A single file in the archive; one record per distinct asset path.
#[derive(Debug, Copy, Clone, PartialEq, Eq, Structural)]
pub struct FilePath {
    /// The path hash; the payload is the source-of-truth file entity index.
    pub path_and_entity: HashWithData,
    /// The extension hash; the payload is the previous-version link, which
    /// re-serialization erases to the sentinel.
    pub ext_and_version: HashWithData,
    /// Hash of the parent folder in the traditional filesystem sense.
    pub parent: crate::hash::Hash,
    /// Hash of the file name, including the extension.
    pub file_name: crate::hash::Hash,
}

impl FilePath {
    /// The packed 40-bit path hash.
    pub fn path(&self) -> (r: u64)
        ensures
            r == self.path_and_entity.crc + crate::hash::spec_hwd_len(
                self.path_and_entity.len_and_data,
            ) * 0x1_0000_0000,
    {
        self.path_and_entity.hash40()
    }

    /// The file entity index.
    pub fn file_entity_index(&self) -> (r: u32)
        ensures
            r == spec_hwd_data(self.path_and_entity.len_and_data),
    {
        self.path_and_entity.data()
    }

    /// Replaces the file entity index, keeping the path hash.
    pub fn set_file_entity_index(&mut self, index: u32)
        ensures
            final(self).path_and_entity == old(self).path_and_entity.spec_with_data(index),
            final(self).ext_and_version == old(self).ext_and_version,
            final(self).parent == old(self).parent,
            final(self).file_name == old(self).file_name,
    {
        self.path_and_entity.set_data(index);
    }

    /// Law of sentinel erasure for paths, and the rewrite: the entity link
    /// goes through the file entity map and the previous-version link is
    /// unconditionally forced to the sentinel.
    pub open spec fn spec_rewrite(self, s: SerView) -> Result<FilePath, ArcError> {
        match sv_get(s.file_entity, spec_hwd_data(self.path_and_entity.len_and_data)) {
            None => Err(ArcError::CorruptGraph),
            Some(e) => Ok(
                FilePath {
                    path_and_entity: self.path_and_entity.spec_with_data(e),
                    ext_and_version: self.ext_and_version.spec_with_data(INVALID_INDEX),
                    parent: self.parent,
                    file_name: self.file_name,
                },
            ),
        }
    }

    /// Rewrites the embedded entity index through the reservation state and
    /// erases the previous-version link.
    pub fn reinternalize(&self, state: &SerState) -> (r: Result<FilePath, ArcError>)
        requires
            state.wf(),
        ensures
            r == self.spec_rewrite(state@),
    {
        match state.file_entity.get(self.path_and_entity.data()) {
            None => Err(ArcError::CorruptGraph),
            Some(e) => Ok(
                FilePath {
                    path_and_entity: self.path_and_entity.with_data(e),
                    ext_and_version: self.ext_and_version.with_data(INVALID_INDEX),
                    parent: self.parent,
                    file_name: self.file_name,
                },
            ),
        }
    }
}

/// Byte size of the wire form.
pub const FILE_PATH_SIZE: usize = 32;

/// Wire form: two hash word pairs, then two padded hashes.
pub open spec fn file_path_le_bytes(d: FilePath) -> Seq<u8> {
    hwd_le_bytes(d.path_and_entity) + hwd_le_bytes(d.ext_and_version) + hash_le_bytes(d.parent)
        + hash_le_bytes(d.file_name)
}

/// The record stored at `pos`.
pub open spec fn file_path_le_at(s: Seq<u8>, pos: int) -> FilePath {
    FilePath {
        path_and_entity: hwd_le_at(s, pos),
        ext_and_version: hwd_le_at(s, pos + 8),
        parent: hash_le_at(s, pos + 16),
        file_name: hash_le_at(s, pos + 24),
    }
}

/// Reads the record stored at `pos`.
pub fn read_file_path(b: &[u8], pos: usize) -> (r: FilePath)
    requires
        pos + FILE_PATH_SIZE <= b@.len(),
    ensures
        r == file_path_le_at(b@, pos as int),
{
    let n: usize = b.len();
    FilePath {
        path_and_entity: read_hwd(b, pos),
        ext_and_version: read_hwd(b, pos + 8),
        parent: read_hash(b, pos + 16),
        file_name: read_hash(b, pos + 24),
    }
}

/// Appends the wire form of `d`.
pub fn push_file_path(out: &mut Vec<u8>, d: &FilePath)
    ensures
        final(out)@ =~= old(out)@ + file_path_le_bytes(*d),
{
    push_hwd(out, &d.path_and_entity);
    push_hwd(out, &d.ext_and_version);
    push_hash(out, &d.parent);
    push_hash(out, &d.file_name);
}

/// Reading back the wire form of `d` yields `d`.
pub proof fn lemma_file_path_le_at_of_bytes(s: Seq<u8>, pos: int, d: FilePath)
    requires
        0 <= pos,
        pos + FILE_PATH_SIZE <= s.len(),
        forall|i: int| 0 <= i < FILE_PATH_SIZE ==> s[pos + i] == file_path_le_bytes(d)[i],
    ensures
        file_path_le_at(s, pos) == d,
{
    assert forall|i: int| 0 <= i < 8 implies s[pos + i] == hwd_le_bytes(d.path_and_entity)[i] by {
        assert(s[pos + i] == file_path_le_bytes(d)[i]);
    }
    assert forall|i: int|
        0 <= i < 8 implies s[pos + 8 + i] == hwd_le_bytes(d.ext_and_version)[i] by {
        assert(s[pos + (8 + i)] == file_path_le_bytes(d)[8 + i]);
    }
    assert forall|i: int| 0 <= i < 8 implies s[pos + 16 + i] == hash_le_bytes(d.parent)[i] by {
        assert(s[pos + (16 + i)] == file_path_le_bytes(d)[16 + i]);
    }
    assert forall|i: int| 0 <= i < 8 implies s[pos + 24 + i] == hash_le_bytes(d.file_name)[i] by {
        assert(s[pos + (24 + i)] == file_path_le_bytes(d)[24 + i]);
    }
    crate::hash::lemma_hwd_le_at_of_bytes(s, pos, d.path_and_entity);
    crate::hash::lemma_hwd_le_at_of_bytes(s, pos + 8, d.ext_and_version);
    crate::hash::lemma_hash_le_at_of_bytes(s, pos + 16, d.parent);
    crate::hash::lemma_hash_le_at_of_bytes(s, pos + 24, d.file_name);
}

} // verus!
