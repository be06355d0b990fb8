//! A unique file entity: the canonical identity of one byte blob, owned by a
//! package or a group, pointing at the source-of-truth file info.

use crate::bytes::{push_u32_le, read_u32_le, u32_le_at, u32_le_bytes};
use crate::err::ArcError;
use crate::serialization::{sv_get, SerState, SerView};
use vstd::prelude::*;

verus! {

broadcast use vstd::slice::axiom_spec_len;

/// A unique file entity.
#[derive(Debug, Copy, Clone, PartialEq, Eq, Structural)]
pub struct FileEntity {
    /// Owner index: a file package when below the package count, a file
    /// group otherwise.
    pub package_or_group: u32,
    /// Index of the file info that is the source of truth for this entity.
    pub info: u32,
}

impl FileEntity {
    /// Law of owner disambiguation, applied by the rewrite: an owner below
    /// the package count is rewritten through the file package map, any other
    /// through the file group map; the info link goes through the file info
    /// map.
    pub open spec fn spec_rewrite(self, s: SerView, package_len: u32) -> Result<
        FileEntity,
        ArcError,
    > {
        let owner = if self.package_or_group >= package_len {
            sv_get(s.file_group, self.package_or_group)
        } else {
            sv_get(s.file_package, self.package_or_group)
        };
        match owner {
            None => Err(ArcError::CorruptGraph),
            Some(o) => match sv_get(s.file_info, self.info) {
                None => Err(ArcError::CorruptGraph),
                Some(i) => Ok(FileEntity { package_or_group: o, info: i }),
            },
        }
    }

    /// Rewrites the owner and info indices through the reservation state.
    /// Everything a file entity references must be reserved beforehand.
    pub fn reinternalize(&self, state: &SerState, package_len: u32) -> (r: Result<
        FileEntity,
        ArcError,
    >)
        requires
            state.wf(),
        ensures
            r == self.spec_rewrite(state@, package_len),
    {
        let owner = if self.package_or_group >= package_len {
            state.file_group.get(self.package_or_group)
        } else {
            state.file_package.get(self.package_or_group)
        };
        match owner {
            None => Err(ArcError::CorruptGraph),
            Some(o) => match state.file_info.get(self.info) {
                None => Err(ArcError::CorruptGraph),
                Some(i) => Ok(FileEntity { package_or_group: o, info: i }),
            },
        }
    }
}

/// Byte size of the wire form.
pub const FILE_ENTITY_SIZE: usize = 8;

/// Wire form: two words, little-endian.
pub open spec fn file_entity_le_bytes(d: FileEntity) -> Seq<u8> {
    u32_le_bytes(d.package_or_group) + u32_le_bytes(d.info)
}

/// The record stored at `pos`.
pub open spec fn file_entity_le_at(s: Seq<u8>, pos: int) -> FileEntity {
    FileEntity { package_or_group: u32_le_at(s, pos), info: u32_le_at(s, pos + 4) }
}

/// Reads the record stored at `pos`.
pub fn read_file_entity(b: &[u8], pos: usize) -> (r: FileEntity)
    requires
        pos + FILE_ENTITY_SIZE <= b@.len(),
    ensures
        r == file_entity_le_at(b@, pos as int),
{
    let n: usize = b.len();
    FileEntity { package_or_group: read_u32_le(b, pos), info: read_u32_le(b, pos + 4) }
}

/// Appends the wire form of `d`.
pub fn push_file_entity(out: &mut Vec<u8>, d: &FileEntity)
    ensures
        final(out)@ =~= old(out)@ + file_entity_le_bytes(*d),
{
    push_u32_le(out, d.package_or_group);
    push_u32_le(out, d.info);
}

/// Reading back the wire form of `d` yields `d`.
pub proof fn lemma_file_entity_le_at_of_bytes(s: Seq<u8>, pos: int, d: FileEntity)
    requires
        0 <= pos,
        pos + FILE_ENTITY_SIZE <= s.len(),
        forall|i: int| 0 <= i < FILE_ENTITY_SIZE ==> s[pos + i] == file_entity_le_bytes(d)[i],
    ensures
        file_entity_le_at(s, pos) == d,
{
    assert forall|i: int| 0 <= i < 4 implies s[pos + i] == u32_le_bytes(d.package_or_group)[i] by {
        assert(s[pos + i] == file_entity_le_bytes(d)[i]);
    }
    assert forall|i: int| 0 <= i < 4 implies s[pos + 4 + i] == u32_le_bytes(d.info)[i] by {
        assert(s[pos + (4 + i)] == file_entity_le_bytes(d)[4 + i]);
    }
    crate::bytes::lemma_u32_le_at_of_bytes(s, pos, d.package_or_group);
    crate::bytes::lemma_u32_le_at_of_bytes(s, pos + 4, d.info);
}

} // verus!
