//! How to load and locate one piece of binary file data: the owning group,
//! the file data record, and a 32-bit tagged load-method word whose high byte
//! is the tag and whose low 24 bits are a payload index.

use crate::bytes::{push_u32_le, read_u32_le, u32_le_at, u32_le_bytes};
use crate::err::ArcError;
use crate::index::INVALID_INDEX;
use crate::serialization::{sv_get, sv_reserve, SerState, SerView};
use vstd::prelude::*;

verus! {

broadcast use vstd::slice::axiom_spec_len;

/// The load method packed into a descriptor's 32-bit word.
#[derive(Debug, Copy, Clone, PartialEq, Eq, Structural)]
pub enum LoadMethod {
    /// Loading through this descriptor is invalid; the payload is the file
    /// entity to load instead.
    Unowned(u32),
    /// Loading through this descriptor is valid; the payload indexes a
    /// versioned-patch section and is erased on re-serialization.
    Owned(u32),
    /// Skip this file when loading its package; the payload is a file info.
    PackageSkip(u32),
    /// Meaning unspecified; the word is preserved bit for bit.
    Unknown,
    /// A shared file that still owns its data; the payload is a file entity.
    SharedButOwned(u32),
    /// A regional or localized descriptor with no specialized data; the
    /// payload names the fallback and is preserved, not rewritten.
    UnsupportedRegionLocale(u32),
}

/// The tag byte of a load-method word.
pub open spec fn spec_load_tag(w: u32) -> u32 {
    w / 0x100_0000
}

/// The 24-bit payload of a load-method word.
pub open spec fn spec_load_payload(w: u32) -> u32 {
    w % 0x100_0000
}

/// The load method a word denotes, when its tag is in the permitted set.
pub open spec fn spec_load_method_decode(w: u32) -> Option<LoadMethod> {
    let tag = spec_load_tag(w);
    let payload = spec_load_payload(w);
    if tag == 0x00 {
        Some(LoadMethod::Unowned(payload))
    } else if tag == 0x01 {
        Some(LoadMethod::Owned(payload))
    } else if tag == 0x03 {
        Some(LoadMethod::PackageSkip(payload))
    } else if tag == 0x05 {
        Some(LoadMethod::Unknown)
    } else if tag == 0x09 {
        Some(LoadMethod::SharedButOwned(payload))
    } else if tag == 0x10 {
        Some(LoadMethod::UnsupportedRegionLocale(payload))
    } else {
        None
    }
}

/// The word a load method denotes; payloads are truncated to 24 bits.
pub open spec fn spec_load_method_encode(m: LoadMethod) -> u32 {
    match m {
        LoadMethod::Unowned(p) => (p % 0x100_0000) as u32,
        LoadMethod::Owned(p) => (0x0100_0000 + p % 0x100_0000) as u32,
        LoadMethod::PackageSkip(p) => (0x0300_0000 + p % 0x100_0000) as u32,
        LoadMethod::Unknown => 0x0500_0000u32,
        LoadMethod::SharedButOwned(p) => (0x0900_0000 + p % 0x100_0000) as u32,
        LoadMethod::UnsupportedRegionLocale(p) => (0x1000_0000 + p % 0x100_0000) as u32,
    }
}

impl LoadMethod {
    /// Decodes a load-method word; a tag outside the permitted set is a
    /// corrupt input.
    pub fn decode(w: u32) -> (r: Result<LoadMethod, ArcError>)
        ensures
            match spec_load_method_decode(w) {
                Some(m) => r == Ok::<LoadMethod, ArcError>(m),
                None => r == Err::<LoadMethod, ArcError>(ArcError::CorruptTag),
            },
    {
        let tag = w / 0x100_0000;
        let payload = w % 0x100_0000;
        if tag == 0x00 {
            Ok(LoadMethod::Unowned(payload))
        } else if tag == 0x01 {
            Ok(LoadMethod::Owned(payload))
        } else if tag == 0x03 {
            Ok(LoadMethod::PackageSkip(payload))
        } else if tag == 0x05 {
            Ok(LoadMethod::Unknown)
        } else if tag == 0x09 {
            Ok(LoadMethod::SharedButOwned(payload))
        } else if tag == 0x10 {
            Ok(LoadMethod::UnsupportedRegionLocale(payload))
        } else {
            Err(ArcError::CorruptTag)
        }
    }

    /// Encodes a load method as its word.
    pub fn encode(&self) -> (r: u32)
        ensures
            r == spec_load_method_encode(*self),
    {
        match self {
            LoadMethod::Unowned(p) => *p % 0x100_0000,
            LoadMethod::Owned(p) => 0x0100_0000 + *p % 0x100_0000,
            LoadMethod::PackageSkip(p) => 0x0300_0000 + *p % 0x100_0000,
            LoadMethod::Unknown => 0x0500_0000,
            LoadMethod::SharedButOwned(p) => 0x0900_0000 + *p % 0x100_0000,
            LoadMethod::UnsupportedRegionLocale(p) => 0x1000_0000 + *p % 0x100_0000,
        }
    }
}

/// Law of sentinel erasure for load methods, and the per-tag rewrite: an
/// `Unowned` or `SharedButOwned` payload goes through the file entity map, a
/// `PackageSkip` payload through the file info map, an `Owned` payload is
/// forced to the sentinel, and `Unknown` and `UnsupportedRegionLocale` words
/// are preserved bit for bit. A tag outside the permitted set is corrupt.
pub open spec fn spec_rewrite_load_method(w: u32, s: SerView) -> Result<u32, ArcError> {
    let tag = spec_load_tag(w);
    let payload = spec_load_payload(w);
    if tag == 0x00 {
        match sv_get(s.file_entity, payload) {
            Some(p) => Ok((p % 0x100_0000) as u32),
            None => Err(ArcError::CorruptGraph),
        }
    } else if tag == 0x01 {
        Ok((0x0100_0000 + INVALID_INDEX) as u32)
    } else if tag == 0x03 {
        match sv_get(s.file_info, payload) {
            Some(p) => Ok((0x0300_0000 + p % 0x100_0000) as u32),
            None => Err(ArcError::CorruptGraph),
        }
    } else if tag == 0x05 {
        Ok(w)
    } else if tag == 0x09 {
        match sv_get(s.file_entity, payload) {
            Some(p) => Ok((0x0900_0000 + p % 0x100_0000) as u32),
            None => Err(ArcError::CorruptGraph),
        }
    } else if tag == 0x10 {
        Ok(w)
    } else {
        Err(ArcError::CorruptTag)
    }
}

/// Information about how to load and locate binary file data.
#[derive(Debug, Copy, Clone, PartialEq, Eq, Structural)]
pub struct FileDesc {
    /// The file group that holds this descriptor's data chunk.
    pub group: u32,
    /// Index into the file data table.
    pub file_data: u32,
    /// The tagged load-method word.
    pub load_method: u32,
}

impl FileDesc {
    /// The file data index.
    pub fn file_data_index(&self) -> (r: u32)
        ensures
            r == self.file_data,
    {
        self.file_data
    }

    /// Reserves this descriptor's file data target, refusing a duplicate.
    pub fn reserve(&self, state: &mut SerState) -> (ok: bool)
        requires
            old(state).wf(),
        ensures
            final(state).wf(),
            match sv_reserve(old(state)@.file_data, self.file_data) {
                Some(t) => ok && final(state)@ == (SerView { file_data: t, ..old(state)@ }),
                None => !ok && final(state)@ == old(state)@,
            },
    {
        state.file_data.reserve(self.file_data)
    }

    /// The record with its group, file data, and load-method payload indices
    /// rewritten to the new dense index spaces.
    pub open spec fn spec_rewrite(self, s: SerView) -> Result<FileDesc, ArcError> {
        match sv_get(s.file_group, self.group) {
            None => Err(ArcError::CorruptGraph),
            Some(g) => match sv_get(s.file_data, self.file_data) {
                None => Err(ArcError::CorruptGraph),
                Some(fd) => match spec_rewrite_load_method(self.load_method, s) {
                    Err(e) => Err(e),
                    Ok(lm) => Ok(FileDesc { group: g, file_data: fd, load_method: lm }),
                },
            },
        }
    }

    /// Rewrites the embedded indices through the reservation state.
    pub fn reinternalize(&self, state: &SerState) -> (r: Result<FileDesc, ArcError>)
        requires
            state.wf(),
        ensures
            r == self.spec_rewrite(state@),
    {
        let g = match state.file_group.get(self.group) {
            None => {
                return Err(ArcError::CorruptGraph);
            },
            Some(g) => g,
        };
        let fd = match state.file_data.get(self.file_data) {
            None => {
                return Err(ArcError::CorruptGraph);
            },
            Some(fd) => fd,
        };
        let w = self.load_method;
        let tag = w / 0x100_0000;
        let payload = w % 0x100_0000;
        let lm: u32 = if tag == 0x00 {
            match state.file_entity.get(payload) {
                Some(p) => p % 0x100_0000,
                None => {
                    return Err(ArcError::CorruptGraph);
                },
            }
        } else if tag == 0x01 {
            0x0100_0000 + INVALID_INDEX
        } else if tag == 0x03 {
            match state.file_info.get(payload) {
                Some(p) => 0x0300_0000 + p % 0x100_0000,
                None => {
                    return Err(ArcError::CorruptGraph);
                },
            }
        } else if tag == 0x05 {
            w
        } else if tag == 0x09 {
            match state.file_entity.get(payload) {
                Some(p) => 0x0900_0000 + p % 0x100_0000,
                None => {
                    return Err(ArcError::CorruptGraph);
                },
            }
        } else if tag == 0x10 {
            w
        } else {
            return Err(ArcError::CorruptTag);
        };
        Ok(FileDesc { group: g, file_data: fd, load_method: lm })
    }
}

/// Byte size of the wire form.
pub const FILE_DESC_SIZE: usize = 12;

/// Wire form: three words, little-endian.
pub open spec fn file_desc_le_bytes(d: FileDesc) -> Seq<u8> {
    u32_le_bytes(d.group) + u32_le_bytes(d.file_data) + u32_le_bytes(d.load_method)
}

/// The record stored at `pos`.
pub open spec fn file_desc_le_at(s: Seq<u8>, pos: int) -> FileDesc {
    FileDesc {
        group: u32_le_at(s, pos),
        file_data: u32_le_at(s, pos + 4),
        load_method: u32_le_at(s, pos + 8),
    }
}

/// Reads the record stored at `pos`.
pub fn read_file_desc(b: &[u8], pos: usize) -> (r: FileDesc)
    requires
        pos + FILE_DESC_SIZE <= b@.len(),
    ensures
        r == file_desc_le_at(b@, pos as int),
{
    let n: usize = b.len();
    FileDesc {
        group: read_u32_le(b, pos),
        file_data: read_u32_le(b, pos + 4),
        load_method: read_u32_le(b, pos + 8),
    }
}

/// Appends the wire form of `d`.
pub fn push_file_desc(out: &mut Vec<u8>, d: &FileDesc)
    ensures
        final(out)@ =~= old(out)@ + file_desc_le_bytes(*d),
{
    push_u32_le(out, d.group);
    push_u32_le(out, d.file_data);
    push_u32_le(out, d.load_method);
}

/// Reading back the wire form of `d` yields `d`.
pub proof fn lemma_file_desc_le_at_of_bytes(s: Seq<u8>, pos: int, d: FileDesc)
    requires
        0 <= pos,
        pos + FILE_DESC_SIZE <= s.len(),
        forall|i: int| 0 <= i < FILE_DESC_SIZE ==> s[pos + i] == file_desc_le_bytes(d)[i],
    ensures
        file_desc_le_at(s, pos) == d,
{
    assert forall|i: int| 0 <= i < 4 implies s[pos + i] == u32_le_bytes(d.group)[i] by {
        assert(s[pos + i] == file_desc_le_bytes(d)[i]);
    }
    assert forall|i: int| 0 <= i < 4 implies s[pos + 4 + i] == u32_le_bytes(d.file_data)[i] by {
        assert(s[pos + (4 + i)] == file_desc_le_bytes(d)[4 + i]);
    }
    assert forall|i: int| 0 <= i < 4 implies s[pos + 8 + i] == u32_le_bytes(d.load_method)[i] by {
        assert(s[pos + (8 + i)] == file_desc_le_bytes(d)[8 + i]);
    }
    crate::bytes::lemma_u32_le_at_of_bytes(s, pos, d.group);
    crate::bytes::lemma_u32_le_at_of_bytes(s, pos + 4, d.file_data);
    crate::bytes::lemma_u32_le_at_of_bytes(s, pos + 8, d.load_method);
}

} // verus!
