//! The archive: the outer container's metadata, the resource tables loaded
//! from its compressed resource section, and the read handles that bundle a
//! table position with the archive so traversals can follow cross-table
//! links.

use crate::bytes::{copy_bytes, read_u32_le, read_u64_le, u32_le_at, u64_le_at};
use crate::data::file_group::FileGroup;
use crate::data::file_info::FileInfo;
use crate::data::file_package::{FilePackage, HAS_SUB_PACKAGE, IS_SYM_LINK};
use crate::data::file_path::FilePath;
use crate::data::stream_path::StreamPath;
use crate::err::ArcError;
use crate::index::INVALID_INDEX;
use crate::lookup::{spec_bucket_get, spec_scan};
use crate::outside::{hash40_of, hash40_of_str, zstd_decode, zstd_decoding};
use crate::resource::{spec_from_bytes, ResourceTables, RtView};
use vstd::prelude::*;

verus! {

broadcast use vstd::slice::axiom_spec_len;

/// The magic the outer archive must start with.
pub const ARCHIVE_MAGIC: u64 = 0xABCD_EF98_7654_3210;

/// Byte size of the outer archive metadata.
pub const METADATA_SIZE: usize = 56;

/// The outer archive's 56-byte metadata: the magic and the section offsets.
#[derive(Debug, Copy, Clone, PartialEq, Eq, Structural)]
pub struct ArchiveMetadata {
    pub magic: u64,
    pub stream_data_offset: u64,
    pub file_data_offset: u64,
    pub shared_file_data_offset: u64,
    pub resource_table_offset: u64,
    pub user_table_offset: u64,
    pub unknown_table_offset: u64,
}

/// The metadata stored at the front of `s`.
pub open spec fn metadata_le_at(s: Seq<u8>) -> ArchiveMetadata {
    ArchiveMetadata {
        magic: u64_le_at(s, 0),
        stream_data_offset: u64_le_at(s, 8),
        file_data_offset: u64_le_at(s, 16),
        shared_file_data_offset: u64_le_at(s, 24),
        resource_table_offset: u64_le_at(s, 32),
        user_table_offset: u64_le_at(s, 40),
        unknown_table_offset: u64_le_at(s, 48),
    }
}

/// Reads the metadata at the front of `b`.
pub fn read_metadata(b: &[u8]) -> (r: ArchiveMetadata)
    requires
        METADATA_SIZE <= b@.len(),
    ensures
        r == metadata_le_at(b@),
{
    ArchiveMetadata {
        magic: read_u64_le(b, 0),
        stream_data_offset: read_u64_le(b, 8),
        file_data_offset: read_u64_le(b, 16),
        shared_file_data_offset: read_u64_le(b, 24),
        resource_table_offset: read_u64_le(b, 32),
        user_table_offset: read_u64_le(b, 40),
        unknown_table_offset: read_u64_le(b, 48),
    }
}

/// The archive: its metadata and its resource tables.
#[derive(Debug)]
pub struct Archive {
    pub metadata: ArchiveMetadata,
    pub resource: ResourceTables,
}

/// The mathematical content of an archive.
pub struct ArchView {
    pub metadata: ArchiveMetadata,
    pub resource: RtView,
}

impl View for Archive {
    type V = ArchView;

    open spec fn view(&self) -> ArchView {
        ArchView { metadata: self.metadata, resource: self.resource@ }
    }
}

/// Everything reading an archive from its container bytes checks and
/// produces: the magic, the compressed-block header at the resource table
/// offset, the decompression, the declared decompressed size, and the loader.
pub open spec fn spec_read_from_bytes(file: Seq<u8>) -> Result<ArchView, ArcError> {
    if file.len() < 56 {
        Err(ArcError::Truncated)
    } else {
        let md = metadata_le_at(file);
        if md.magic != ARCHIVE_MAGIC {
            Err(ArcError::BadMagic)
        } else if file.len() < md.resource_table_offset + 16 {
            Err(ArcError::Truncated)
        } else {
            let off = md.resource_table_offset as int;
            if u32_le_at(file, off) != 0x10 {
                Err(ArcError::BadBlockSize)
            } else {
                let dsize = u32_le_at(file, off + 4);
                let csize = u32_le_at(file, off + 8);
                if file.len() < off + 16 + csize {
                    Err(ArcError::Truncated)
                } else {
                    match zstd_decoding(file.subrange(off + 16, off + 16 + csize)) {
                        None => Err(ArcError::DecompressFailed),
                        Some(data) => if data.len() != dsize {
                            Err(ArcError::SizeMismatch)
                        } else {
                            match spec_from_bytes(data) {
                                Err(e) => Err(e),
                                Ok(rt) => Ok(ArchView { metadata: md, resource: rt }),
                            }
                        },
                    }
                }
            }
        }
    }
}

impl Archive {
    /// Wraps already-loaded resource tables in an archive whose metadata
    /// holds the magic and no offsets.
    pub fn from_tables(resource: ResourceTables) -> (r: Archive)
        ensures
            r@.resource == resource@,
            r@.metadata.magic == ARCHIVE_MAGIC,
    {
        Archive {
            metadata: ArchiveMetadata {
                magic: ARCHIVE_MAGIC,
                stream_data_offset: 0,
                file_data_offset: 0,
                shared_file_data_offset: 0,
                resource_table_offset: 0,
                user_table_offset: 0,
                unknown_table_offset: 0,
            },
            resource,
        }
    }

    /// Reads an archive from the container's bytes: validates the magic,
    /// decompresses the resource section found through the compressed-block
    /// header at the resource table offset, and loads the tables.
    pub fn read_from_bytes(file: &[u8]) -> (r: Result<Archive, ArcError>)
        ensures
            match spec_read_from_bytes(file@) {
                Ok(a) => r is Ok && r.unwrap()@ == a,
                Err(e) => r == Err::<Archive, ArcError>(e),
            },
    {
        let len = file.len();
        if len < METADATA_SIZE {
            return Err(ArcError::Truncated);
        }
        let metadata = read_metadata(file);
        if metadata.magic != ARCHIVE_MAGIC {
            return Err(ArcError::BadMagic);
        }
        if metadata.resource_table_offset > (len - 16) as u64 {
            return Err(ArcError::Truncated);
        }
        let off = metadata.resource_table_offset as usize;
        let table_size = read_u32_le(file, off);
        if table_size != 0x10 {
            return Err(ArcError::BadBlockSize);
        }
        let dsize = read_u32_le(file, off + 4);
        let csize = read_u32_le(file, off + 8);
        if csize as u64 > (len - off - 16) as u64 {
            return Err(ArcError::Truncated);
        }
        let compressed = copy_bytes(file, off + 16, csize as usize);
        let data = match zstd_decode(compressed.as_slice()) {
            None => {
                return Err(ArcError::DecompressFailed);
            },
            Some(data) => data,
        };
        if data.len() as u64 != dsize as u64 {
            return Err(ArcError::SizeMismatch);
        }
        let resource = match ResourceTables::from_bytes(data) {
            Err(e) => {
                return Err(e);
            },
            Ok(rt) => rt,
        };
        Ok(Archive { metadata, resource })
    }

    /// Serializes every table verbatim, in the fixed on-disk order.
    pub fn quick_serialize(&self) -> (r: Vec<u8>)
        requires
            self@.resource.file_path_lookup.len() < 0x1_0000_0000,
            self@.resource.buckets.len() < 0x1_0000_0000,
        ensures
            r@ =~= crate::emit::spec_resource_bytes(self@.resource.header, self@.resource),
    {
        self.resource.quick_serialize()
    }

    /// Re-serializes the tables with compacted index spaces, yielding the
    /// original decompressed bytes beside the new ones.
    pub fn serialize_tables(&self) -> (r: Result<(&[u8], Vec<u8>), ArcError>)
        ensures
            match crate::reserialize::spec_into_bytes(self@.resource) {
                Ok(b) => r is Ok && r.unwrap().0@ == self.resource.raw_data@ && r.unwrap().1@ == b,
                Err(e) => r is Err && r.unwrap_err() == e,
            },
    {
        match self.resource.into_bytes() {
            Err(e) => Err(e),
            Ok(bytes) => Ok((self.resource.raw_data.as_slice(), bytes)),
        }
    }

    /// How many file packages the archive holds.
    pub fn num_file_package(&self) -> (r: usize)
        ensures
            r == self@.resource.file_package.len(),
    {
        self.resource.file_package.len()
    }

    /// How many file groups the archive holds.
    pub fn num_file_group(&self) -> (r: usize)
        ensures
            r == self@.resource.file_group.len(),
    {
        self.resource.file_group.len()
    }

    /// How many file infos the archive holds.
    pub fn num_file_info(&self) -> (r: usize)
        ensures
            r == self@.resource.file_info.len(),
    {
        self.resource.file_info.len()
    }

    /// How many file paths the archive holds.
    pub fn num_file_path(&self) -> (r: usize)
        ensures
            r == self@.resource.file_path.len(),
    {
        self.resource.file_path.len()
    }

    /// The package at `index`.
    pub fn get_file_package(&self, index: u32) -> (r: Option<TableRef<'_, FilePackage>>)
        ensures
            index < self@.resource.file_package.len() ==> r is Some && r.unwrap().wf_package(
                self,
            ) && r.unwrap().index == index,
            index >= self@.resource.file_package.len() ==> r is None,
    {
        TableRef::new(self, &self.resource.file_package, index)
    }

    /// The group at `index`.
    pub fn get_file_group(&self, index: u32) -> (r: Option<TableRef<'_, FileGroup>>)
        ensures
            index < self@.resource.file_group.len() ==> r is Some && r.unwrap().wf_group(self)
                && r.unwrap().index == index,
            index >= self@.resource.file_group.len() ==> r is None,
    {
        TableRef::new(self, &self.resource.file_group, index)
    }

    /// The record the file path lookup maps `hash40` to, resolved through the
    /// bucket directory.
    pub fn lookup_file_path(&self, hash40: u64) -> (r: Option<&FilePath>)
        ensures
            match spec_bucket_get(
                self@.resource.buckets,
                self@.resource.file_path_lookup,
                hash40,
            ) {
                Some(i) => {
                    &&& (i < self@.resource.file_path.len() <==> r is Some)
                    &&& r is Some ==> *r.unwrap() == self@.resource.file_path[i as int]
                },
                None => r is None,
            },
    {
        match self.resource.file_path_lookup.get(hash40) {
            None => None,
            Some(i) => {
                if (i as usize) < self.resource.file_path.len() {
                    Some(&self.resource.file_path[i as usize])
                } else {
                    None
                }
            },
        }
    }

    /// The record the file path lookup maps the hash of `path` to.
    pub fn lookup_file_path_str(&self, path: &str) -> (r: Option<&FilePath>)
        ensures
            match spec_bucket_get(
                self@.resource.buckets,
                self@.resource.file_path_lookup,
                hash40_of(path@),
            ) {
                Some(i) => {
                    &&& (i < self@.resource.file_path.len() <==> r is Some)
                    &&& r is Some ==> *r.unwrap() == self@.resource.file_path[i as int]
                },
                None => r is None,
            },
    {
        self.lookup_file_path(hash40_of_str(path))
    }

    /// The record the stream path lookup maps `hash40` to.
    pub fn lookup_stream_path(&self, hash40: u64) -> (r: Option<&StreamPath>)
        ensures
            match spec_scan(
                self@.resource.stream_path_lookup,
                0,
                self@.resource.stream_path_lookup.len(),
                hash40,
            ) {
                Some(i) => {
                    &&& (i < self@.resource.stream_path.len() <==> r is Some)
                    &&& r is Some ==> *r.unwrap() == self@.resource.stream_path[i as int]
                },
                None => r is None,
            },
    {
        match self.resource.stream_path_lookup.get(hash40) {
            None => None,
            Some(i) => {
                if (i as usize) < self.resource.stream_path.len() {
                    Some(&self.resource.stream_path[i as usize])
                } else {
                    None
                }
            },
        }
    }

    /// The package the package lookup maps `hash40` to.
    pub fn lookup_file_package(&self, hash40: u64) -> (r: Option<TableRef<'_, FilePackage>>)
        ensures
            match spec_scan(
                self@.resource.file_package_lookup,
                0,
                self@.resource.file_package_lookup.len(),
                hash40,
            ) {
                Some(i) => {
                    &&& (i < self@.resource.file_package.len() <==> r is Some)
                    &&& r is Some ==> r.unwrap().wf_package(self) && r.unwrap().index == i
                },
                None => r is None,
            },
    {
        match self.resource.file_package_lookup.get(hash40) {
            None => None,
            Some(i) => TableRef::new(self, &self.resource.file_package, i),
        }
    }
}

/// A read handle: one table position bundled with the parent archive, so
/// traversals can follow cross-table links.
pub struct TableRef<'a, T> {
    pub archive: &'a Archive,
    pub table: &'a Vec<T>,
    pub index: u32,
}

impl<'a, T> TableRef<'a, T> {
    /// A handle on `table[index]`, when it exists.
    pub fn new(archive: &'a Archive, table: &'a Vec<T>, index: u32) -> (r: Option<
        TableRef<'a, T>,
    >)
        ensures
            index < table@.len() ==> r is Some && r.unwrap().archive == archive && r.unwrap().table
                == table && r.unwrap().index == index,
            index >= table@.len() ==> r is None,
    {
        if (index as usize) < table.len() {
            Some(TableRef { archive, table, index })
        } else {
            None
        }
    }

    /// The record's original index.
    pub fn index(&self) -> (r: u32)
        ensures
            r == self.index,
    {
        self.index
    }

    /// The record itself.
    pub fn entry(&self) -> (r: &T)
        requires
            self.index < self.table@.len(),
        ensures
            *r == self.table@[self.index as int],
    {
        &self.table[self.index as usize]
    }
}

impl<'a> TableRef<'a, FilePackage> {
    /// The handle points into its archive's package table.
    pub open spec fn wf_package(&self, archive: &Archive) -> bool {
        &&& self.archive == archive
        &&& self.table@ == archive@.resource.file_package
        &&& self.index < archive@.resource.file_package.len()
    }

    /// The package record.
    pub open spec fn spec_package(&self) -> FilePackage {
        self.archive@.resource.file_package[self.index as int]
    }

    /// The package's first data group, when the link resolves.
    pub fn data_group(&self) -> (r: Option<TableRef<'a, FileGroup>>)
        requires
            self.wf_package(self.archive),
        ensures
            self.spec_package().spec_data_group_start() < self.archive@.resource.file_group.len()
                <==> r is Some,
            r is Some ==> r.unwrap().wf_group(self.archive) && r.unwrap().index
                == self.spec_package().spec_data_group_start(),
    {
        let p = &self.table[self.index as usize];
        TableRef::new(self.archive, &self.archive.resource.file_group, p.path_and_group.data())
    }

    /// Law of the subpackage rule, as a handle: the symlinked package, when
    /// this package carries both the subpackage and symlink flags. With
    /// either flag unset the package has no symlink. With both set, a missing
    /// data group or a redirection that is not a valid package index — the
    /// sentinel included — is the hard error of a malformed archive.
    pub fn get_sym_link(&self) -> (r: Result<Option<TableRef<'a, FilePackage>>, ArcError>)
        requires
            self.wf_package(self.archive),
        ensures
            ({
                let p = self.spec_package();
                let v = self.archive@.resource;
                if p.flags & HAS_SUB_PACKAGE == 0 || p.flags & IS_SYM_LINK == 0 {
                    r is Ok && r.unwrap() is None
                } else if p.spec_data_group_start() < v.file_group.len() && v.file_group[
                    p.spec_data_group_start() as int
                ].redirection < v.file_package.len() {
                    &&& r is Ok
                    &&& r.unwrap() is Some
                    &&& r.unwrap().unwrap().wf_package(self.archive)
                    &&& r.unwrap().unwrap().index == v.file_group[
                        p.spec_data_group_start() as int
                    ].redirection
                } else {
                    r is Err && r->Err_0 == ArcError::CorruptGraph
                }
            }),
    {
        let p = &self.table[self.index as usize];
        if p.flags & HAS_SUB_PACKAGE == 0 || p.flags & IS_SYM_LINK == 0 {
            return Ok(None);
        }
        let group = match TableRef::new(
            self.archive,
            &self.archive.resource.file_group,
            p.path_and_group.data(),
        ) {
            None => {
                return Err(ArcError::CorruptGraph);
            },
            Some(g) => g,
        };
        let red = group.entry().redirection;
        match TableRef::new(self.archive, &self.archive.resource.file_package, red) {
            None => Err(ArcError::CorruptGraph),
            Some(t) => Ok(Some(t)),
        }
    }

    /// The package's subpackage: another package when the symlink flag is
    /// set, an info-bearing group otherwise, and nothing when the subpackage
    /// flag is unset or a group-form redirection is the sentinel. A missing
    /// data group, an unresolvable symlink redirection — the sentinel
    /// included — or an unresolvable group redirection is the hard error of a
    /// malformed archive.
    pub fn sub_package(&self) -> (r: Result<Option<SubPackageRef<'a>>, ArcError>)
        requires
            self.wf_package(self.archive),
        ensures
            ({
                let p = self.spec_package();
                let v = self.archive@.resource;
                if p.flags & HAS_SUB_PACKAGE == 0 {
                    r is Ok && r.unwrap() is None
                } else if p.spec_data_group_start() >= v.file_group.len() {
                    r is Err && r->Err_0 == ArcError::CorruptGraph
                } else {
                    let red = v.file_group[p.spec_data_group_start() as int].redirection;
                    if p.flags & IS_SYM_LINK != 0 {
                        if red < v.file_package.len() {
                            &&& r is Ok
                            &&& r.unwrap() is Some
                            &&& r.unwrap().unwrap() is SymLink
                            &&& r.unwrap().unwrap()->SymLink_0.wf_package(self.archive)
                            &&& r.unwrap().unwrap()->SymLink_0.index == red
                        } else {
                            r is Err && r->Err_0 == ArcError::CorruptGraph
                        }
                    } else {
                        if red == INVALID_INDEX {
                            r is Ok && r.unwrap() is None
                        } else if red < v.file_group.len() {
                            &&& r is Ok
                            &&& r.unwrap() is Some
                            &&& r.unwrap().unwrap() is FileGroup
                            &&& r.unwrap().unwrap()->FileGroup_0.0.wf_group(self.archive)
                            &&& r.unwrap().unwrap()->FileGroup_0.0.index == red
                        } else {
                            r is Err && r->Err_0 == ArcError::CorruptGraph
                        }
                    }
                }
            }),
    {
        let p = &self.table[self.index as usize];
        if p.flags & HAS_SUB_PACKAGE == 0 {
            return Ok(None);
        }
        let group = match TableRef::new(
            self.archive,
            &self.archive.resource.file_group,
            p.path_and_group.data(),
        ) {
            None => {
                return Err(ArcError::CorruptGraph);
            },
            Some(g) => g,
        };
        let red = group.entry().redirection;
        if p.flags & IS_SYM_LINK != 0 {
            match TableRef::new(self.archive, &self.archive.resource.file_package, red) {
                None => Err(ArcError::CorruptGraph),
                Some(t) => Ok(Some(SubPackageRef::SymLink(t))),
            }
        } else if red != INVALID_INDEX {
            match TableRef::new(self.archive, &self.archive.resource.file_group, red) {
                None => Err(ArcError::CorruptGraph),
                Some(t) => Ok(Some(SubPackageRef::FileGroup(FileInfoGroupRef(t)))),
            }
        } else {
            Ok(None)
        }
    }
}

impl<'a> TableRef<'a, FileGroup> {
    /// The handle points into its archive's group table.
    pub open spec fn wf_group(&self, archive: &Archive) -> bool {
        &&& self.archive == archive
        &&& self.table@ == archive@.resource.file_group
        &&& self.index < archive@.resource.file_group.len()
    }
}

/// A group handle read with the info disposition: its children are file
/// infos.
pub struct FileInfoGroupRef<'a>(pub TableRef<'a, FileGroup>);

impl<'a> FileInfoGroupRef<'a> {
    /// The group's file info children: the slice of the file info table the
    /// group's checked child range names, or nothing exactly when that range
    /// does not lie inside the table.
    pub fn file_info(&self) -> (r: Option<TableSliceRef<'a, FileInfo>>)
        requires
            self.0.wf_group(self.0.archive),
        ensures
            ({
                let g = self.0.archive@.resource.file_group[self.0.index as int];
                let start = crate::index::spec_checked_start(g.child_start, g.child_count);
                let count = crate::index::spec_checked_range(g.child_start, g.child_count).len();
                &&& (r is Some <==> start + count <= self.0.archive@.resource.file_info.len())
                &&& r is Some ==> {
                    &&& r.unwrap().wf(&self.0.archive.resource.file_info)
                    &&& r.unwrap().start == start
                    &&& r.unwrap().count == count
                }
            }),
    {
        let g = self.0.entry();
        let range = g.child_range();
        TableSliceRef::new(
            &self.0.archive.resource.file_info,
            range.start as usize,
            (range.end - range.start) as usize,
        )
    }
}

/// A group handle read with the data disposition: its children are file data.
pub struct FileDataGroupRef<'a>(pub TableRef<'a, FileGroup>);

impl<'a> FileDataGroupRef<'a> {
    /// The group's file data children: the slice of the file data table the
    /// group's checked child range names, or nothing exactly when that range
    /// does not lie inside the table.
    pub fn file_data(&self) -> (r: Option<
        TableSliceRef<'a, crate::data::file_data::FileData>,
    >)
        requires
            self.0.wf_group(self.0.archive),
        ensures
            ({
                let g = self.0.archive@.resource.file_group[self.0.index as int];
                let start = crate::index::spec_checked_start(g.child_start, g.child_count);
                let count = crate::index::spec_checked_range(g.child_start, g.child_count).len();
                &&& (r is Some <==> start + count <= self.0.archive@.resource.file_data.len())
                &&& r is Some ==> {
                    &&& r.unwrap().wf(&self.0.archive.resource.file_data)
                    &&& r.unwrap().start == start
                    &&& r.unwrap().count == count
                }
            }),
    {
        let g = self.0.entry();
        let range = g.child_range();
        TableSliceRef::new(
            &self.0.archive.resource.file_data,
            range.start as usize,
            (range.end - range.start) as usize,
        )
    }
}

/// One resolved subpackage: a whole other package, or an info-bearing group.
pub enum SubPackageRef<'a> {
    FileGroup(FileInfoGroupRef<'a>),
    SymLink(TableRef<'a, FilePackage>),
}

/// A read handle on a contiguous run of records.
pub struct TableSliceRef<'a, T> {
    pub table: &'a Vec<T>,
    pub start: usize,
    pub count: usize,
}

impl<'a, T> TableSliceRef<'a, T> {
    /// The run lies inside its table.
    pub open spec fn wf(&self, table: &Vec<T>) -> bool {
        &&& self.table == table
        &&& self.start + self.count <= table@.len()
    }

    /// A handle on `table[start..start + count]`, when it lies inside.
    pub fn new(table: &'a Vec<T>, start: usize, count: usize) -> (r: Option<TableSliceRef<'a, T>>)
        ensures
            start + count <= table@.len() <==> r is Some,
            r is Some ==> r.unwrap().wf(table) && r.unwrap().start == start && r.unwrap().count
                == count,
    {
        if count <= table.len() && start <= table.len() - count {
            Some(TableSliceRef { table, start, count })
        } else {
            None
        }
    }

    /// How many records the run holds.
    pub fn len(&self) -> (r: usize)
        ensures
            r == self.count,
    {
        self.count
    }

    /// The `i`-th record of the run.
    pub fn get(&self, i: usize) -> (r: &T)
        requires
            i < self.count,
            self.start + self.count <= self.table@.len(),
        ensures
            *r == self.table@[self.start + i],
    {
        let n = self.table.len();
        &self.table[self.start + i]
    }
}

} // verus!
