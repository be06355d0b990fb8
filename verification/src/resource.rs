//! The resource tables: the header schema, the aggregate of all tables, and
//! the loader that materializes them from one decompressed byte buffer.

use crate::bytes::{
    copy_bytes, push_u16_le, push_u32_le, push_zero_bytes, read_u16_le, read_u32_le, u16_le_at,
    u16_le_bytes, u32_le_at, u32_le_bytes,
};
use crate::data::file_data::{file_data_le_at, read_file_data, FileData, FILE_DATA_SIZE};
use crate::data::file_desc::{file_desc_le_at, read_file_desc, FileDesc, FILE_DESC_SIZE};
use crate::data::file_entity::{file_entity_le_at, read_file_entity, FileEntity, FILE_ENTITY_SIZE};
use crate::data::file_group::{file_group_le_at, read_file_group, FileGroup, FILE_GROUP_SIZE};
use crate::data::file_info::{file_info_le_at, read_file_info, FileInfo, FILE_INFO_SIZE};
use crate::data::file_package::{
    file_package_child_le_at, file_package_le_at, read_file_package, read_file_package_child,
    FilePackage, FilePackageChild, FILE_PACKAGE_CHILD_SIZE, FILE_PACKAGE_SIZE,
};
use crate::data::file_path::{file_path_le_at, read_file_path, FilePath, FILE_PATH_SIZE};
use crate::data::stream_data::{stream_data_le_at, read_stream_data, StreamData, STREAM_DATA_SIZE};
use crate::data::stream_desc::{stream_desc_le_at, read_stream_desc, StreamDesc, STREAM_DESC_SIZE};
use crate::data::stream_folder::{
    stream_folder_le_at, read_stream_folder, StreamFolder, STREAM_FOLDER_SIZE,
};
use crate::data::stream_path::{stream_path_le_at, read_stream_path, StreamPath, STREAM_PATH_SIZE};
use crate::err::ArcError;
use crate::hash::{hwd_le_at, read_hwd, HashWithData};
use crate::lookup::{bucket_le_at, read_bucket, Bucket, BucketLookup, IndexLookup, BUCKET_SIZE};
use vstd::prelude::*;

verus! {

broadcast use vstd::slice::axiom_spec_len;

/// Byte size of the resource table header.
pub const HEADER_SIZE: usize = 272;

/// Byte size of the locale-to-region table inside the header.
pub const LOCALE_REGION_SIZE: usize = 168;

/// The fixed header at the front of the decompressed resource section. The
/// locale-to-region table is carried verbatim; padding is not represented and
/// is emitted as zero bytes.
#[derive(Debug)]
pub struct ResourceTableHeader {
    pub resource_data_size: u32,
    pub file_path_count: u32,
    pub file_entity_count: u32,
    pub file_package_count: u32,
    pub file_data_group_count: u32,
    pub file_package_child_count: u32,
    pub file_package_info_count: u32,
    pub file_package_desc_count: u32,
    pub file_package_data_count: u32,
    pub file_info_group_count: u32,
    pub file_group_info_count: u32,
    pub locale_count: u8,
    pub region_count: u8,
    pub version_patch: u8,
    pub version_minor: u8,
    pub version_major: u16,
    pub versioned_file_group_count: u32,
    pub versioned_file_count: u32,
    pub versioned_file_info_count: u32,
    pub versioned_file_desc_count: u32,
    pub versioned_file_data_count: u32,
    /// The 14 by 3 locale-to-region table, kept as its raw bytes.
    pub locale_region: Vec<u8>,
    pub stream_folder_count: u32,
    pub stream_path_count: u32,
    pub stream_desc_count: u32,
    pub stream_data_count: u32,
}

/// The mathematical content of a header.
pub struct HeaderView {
    pub resource_data_size: u32,
    pub file_path_count: u32,
    pub file_entity_count: u32,
    pub file_package_count: u32,
    pub file_data_group_count: u32,
    pub file_package_child_count: u32,
    pub file_package_info_count: u32,
    pub file_package_desc_count: u32,
    pub file_package_data_count: u32,
    pub file_info_group_count: u32,
    pub file_group_info_count: u32,
    pub locale_count: u8,
    pub region_count: u8,
    pub version_patch: u8,
    pub version_minor: u8,
    pub version_major: u16,
    pub versioned_file_group_count: u32,
    pub versioned_file_count: u32,
    pub versioned_file_info_count: u32,
    pub versioned_file_desc_count: u32,
    pub versioned_file_data_count: u32,
    pub locale_region: Seq<u8>,
    pub stream_folder_count: u32,
    pub stream_path_count: u32,
    pub stream_desc_count: u32,
    pub stream_data_count: u32,
}

impl View for ResourceTableHeader {
    type V = HeaderView;

    open spec fn view(&self) -> HeaderView {
        HeaderView {
            resource_data_size: self.resource_data_size,
            file_path_count: self.file_path_count,
            file_entity_count: self.file_entity_count,
            file_package_count: self.file_package_count,
            file_data_group_count: self.file_data_group_count,
            file_package_child_count: self.file_package_child_count,
            file_package_info_count: self.file_package_info_count,
            file_package_desc_count: self.file_package_desc_count,
            file_package_data_count: self.file_package_data_count,
            file_info_group_count: self.file_info_group_count,
            file_group_info_count: self.file_group_info_count,
            locale_count: self.locale_count,
            region_count: self.region_count,
            version_patch: self.version_patch,
            version_minor: self.version_minor,
            version_major: self.version_major,
            versioned_file_group_count: self.versioned_file_group_count,
            versioned_file_count: self.versioned_file_count,
            versioned_file_info_count: self.versioned_file_info_count,
            versioned_file_desc_count: self.versioned_file_desc_count,
            versioned_file_data_count: self.versioned_file_data_count,
            locale_region: self.locale_region@,
            stream_folder_count: self.stream_folder_count,
            stream_path_count: self.stream_path_count,
            stream_desc_count: self.stream_desc_count,
            stream_data_count: self.stream_data_count,
        }
    }
}

/// The header stored at the front of `s`.
pub open spec fn header_le_at(s: Seq<u8>) -> HeaderView {
    HeaderView {
        resource_data_size: u32_le_at(s, 0),
        file_path_count: u32_le_at(s, 4),
        file_entity_count: u32_le_at(s, 8),
        file_package_count: u32_le_at(s, 12),
        file_data_group_count: u32_le_at(s, 16),
        file_package_child_count: u32_le_at(s, 20),
        file_package_info_count: u32_le_at(s, 24),
        file_package_desc_count: u32_le_at(s, 28),
        file_package_data_count: u32_le_at(s, 32),
        file_info_group_count: u32_le_at(s, 36),
        file_group_info_count: u32_le_at(s, 40),
        locale_count: s[56],
        region_count: s[57],
        version_patch: s[60],
        version_minor: s[61],
        version_major: u16_le_at(s, 62),
        versioned_file_group_count: u32_le_at(s, 64),
        versioned_file_count: u32_le_at(s, 68),
        versioned_file_info_count: u32_le_at(s, 76),
        versioned_file_desc_count: u32_le_at(s, 80),
        versioned_file_data_count: u32_le_at(s, 84),
        locale_region: s.subrange(88, 256),
        stream_folder_count: u32_le_at(s, 256),
        stream_path_count: u32_le_at(s, 260),
        stream_desc_count: u32_le_at(s, 264),
        stream_data_count: u32_le_at(s, 268),
    }
}

/// The first part of a header's wire form: the eleven table counts.
pub open spec fn header_le_bytes_counts(h: HeaderView) -> Seq<u8> {
    u32_le_bytes(h.resource_data_size) + u32_le_bytes(h.file_path_count) + u32_le_bytes(
        h.file_entity_count,
    ) + u32_le_bytes(h.file_package_count) + u32_le_bytes(h.file_data_group_count) + u32_le_bytes(
        h.file_package_child_count,
    ) + u32_le_bytes(h.file_package_info_count) + u32_le_bytes(h.file_package_desc_count)
        + u32_le_bytes(h.file_package_data_count) + u32_le_bytes(h.file_info_group_count)
        + u32_le_bytes(h.file_group_info_count)
}

/// The middle part of a header's wire form: padding, the locale and region
/// counts, the version, and the versioned-section counts.
pub open spec fn header_le_bytes_mid(h: HeaderView) -> Seq<u8> {
    Seq::new(12, |i: int| 0u8) + seq![
        h.locale_count,
        h.region_count,
        0u8,
        0u8,
        h.version_patch,
        h.version_minor,
    ] + u16_le_bytes(h.version_major) + u32_le_bytes(h.versioned_file_group_count) + u32_le_bytes(
        h.versioned_file_count,
    ) + Seq::new(4, |i: int| 0u8) + u32_le_bytes(h.versioned_file_info_count) + u32_le_bytes(
        h.versioned_file_desc_count,
    ) + u32_le_bytes(h.versioned_file_data_count)
}

/// The last part of a header's wire form: the stream-section counts.
pub open spec fn header_le_bytes_tail(h: HeaderView) -> Seq<u8> {
    u32_le_bytes(h.stream_folder_count) + u32_le_bytes(h.stream_path_count) + u32_le_bytes(
        h.stream_desc_count,
    ) + u32_le_bytes(h.stream_data_count)
}

/// Wire form of a header; padding is zero bytes.
pub open spec fn header_le_bytes(h: HeaderView) -> Seq<u8> {
    header_le_bytes_counts(h) + header_le_bytes_mid(h) + h.locale_region + header_le_bytes_tail(h)
}

/// Reads the header at the front of `b`.
pub fn read_header(b: &[u8]) -> (r: ResourceTableHeader)
    requires
        HEADER_SIZE <= b@.len(),
    ensures
        r@ == header_le_at(b@),
        r.locale_region@.len() == LOCALE_REGION_SIZE,
{
    let n: usize = b.len();
    let r = ResourceTableHeader {
        resource_data_size: read_u32_le(b, 0),
        file_path_count: read_u32_le(b, 4),
        file_entity_count: read_u32_le(b, 8),
        file_package_count: read_u32_le(b, 12),
        file_data_group_count: read_u32_le(b, 16),
        file_package_child_count: read_u32_le(b, 20),
        file_package_info_count: read_u32_le(b, 24),
        file_package_desc_count: read_u32_le(b, 28),
        file_package_data_count: read_u32_le(b, 32),
        file_info_group_count: read_u32_le(b, 36),
        file_group_info_count: read_u32_le(b, 40),
        locale_count: b[56],
        region_count: b[57],
        version_patch: b[60],
        version_minor: b[61],
        version_major: read_u16_le(b, 62),
        versioned_file_group_count: read_u32_le(b, 64),
        versioned_file_count: read_u32_le(b, 68),
        versioned_file_info_count: read_u32_le(b, 76),
        versioned_file_desc_count: read_u32_le(b, 80),
        versioned_file_data_count: read_u32_le(b, 84),
        locale_region: copy_bytes(b, 88, LOCALE_REGION_SIZE),
        stream_folder_count: read_u32_le(b, 256),
        stream_path_count: read_u32_le(b, 260),
        stream_desc_count: read_u32_le(b, 264),
        stream_data_count: read_u32_le(b, 268),
    };
    proof {
        assert(r@.locale_region =~= header_le_at(b@).locale_region);
    }
    r
}

/// Appends the wire form of `h`, padding as zero bytes.
#[verifier::rlimit(100)]
#[verifier::spinoff_prover]
pub fn push_header(out: &mut Vec<u8>, h: &ResourceTableHeader)
    ensures
        final(out)@ =~= old(out)@ + header_le_bytes(h@),
{
    push_u32_le(out, h.resource_data_size);
    push_u32_le(out, h.file_path_count);
    push_u32_le(out, h.file_entity_count);
    push_u32_le(out, h.file_package_count);
    push_u32_le(out, h.file_data_group_count);
    push_u32_le(out, h.file_package_child_count);
    push_u32_le(out, h.file_package_info_count);
    push_u32_le(out, h.file_package_desc_count);
    push_u32_le(out, h.file_package_data_count);
    push_u32_le(out, h.file_info_group_count);
    push_u32_le(out, h.file_group_info_count);
    proof {
        assert(out@ =~= old(out)@ + header_le_bytes_counts(h@));
    }
    push_zero_bytes(out, 12);
    out.push(h.locale_count);
    out.push(h.region_count);
    out.push(0u8);
    out.push(0u8);
    out.push(h.version_patch);
    out.push(h.version_minor);
    push_u16_le(out, h.version_major);
    push_u32_le(out, h.versioned_file_group_count);
    push_u32_le(out, h.versioned_file_count);
    push_zero_bytes(out, 4);
    push_u32_le(out, h.versioned_file_info_count);
    push_u32_le(out, h.versioned_file_desc_count);
    push_u32_le(out, h.versioned_file_data_count);
    proof {
        assert(out@ =~= old(out)@ + header_le_bytes_counts(h@) + header_le_bytes_mid(h@));
    }
    crate::bytes::push_bytes(out, &h.locale_region);
    push_u32_le(out, h.stream_folder_count);
    push_u32_le(out, h.stream_path_count);
    push_u32_le(out, h.stream_desc_count);
    push_u32_le(out, h.stream_data_count);
    proof {
        assert(out@ =~= old(out)@ + header_le_bytes_counts(h@) + header_le_bytes_mid(h@)
            + h@.locale_region + header_le_bytes_tail(h@));
        assert(out@ =~= old(out)@ + header_le_bytes(h@));
    }
}


/// Reads `count` consecutive records at `off`.
#[verifier::loop_isolation(false)]
fn read_stream_folder_table(b: &[u8], off: usize, count: usize) -> (r: Vec<StreamFolder>)
    requires
        off + count * 12 <= b@.len(),
    ensures
        r@ =~= Seq::new(count as nat, |i: int| stream_folder_le_at(b@, off + i * 12)),
{
    let m: usize = b.len();
    let mut r: Vec<StreamFolder> = Vec::new();
    let mut pos: usize = off;
    let mut i: usize = 0;
    while i < count
        invariant
            0 <= i <= count,
            pos == off + i * 12,
            r@.len() == i,
            forall|j: int| 0 <= j < i ==> r@[j] == stream_folder_le_at(b@, off + j * 12),
        decreases count - i,
    {
        r.push(read_stream_folder(b, pos));
        pos = pos + 12;
        i = i + 1;
    }
    r
}

/// Reads `count` consecutive records at `off`.
#[verifier::loop_isolation(false)]
fn read_stream_path_table(b: &[u8], off: usize, count: usize) -> (r: Vec<StreamPath>)
    requires
        off + count * 12 <= b@.len(),
    ensures
        r@ =~= Seq::new(count as nat, |i: int| stream_path_le_at(b@, off + i * 12)),
{
    let m: usize = b.len();
    let mut r: Vec<StreamPath> = Vec::new();
    let mut pos: usize = off;
    let mut i: usize = 0;
    while i < count
        invariant
            0 <= i <= count,
            pos == off + i * 12,
            r@.len() == i,
            forall|j: int| 0 <= j < i ==> r@[j] == stream_path_le_at(b@, off + j * 12),
        decreases count - i,
    {
        r.push(read_stream_path(b, pos));
        pos = pos + 12;
        i = i + 1;
    }
    r
}

/// Reads `count` consecutive records at `off`.
#[verifier::loop_isolation(false)]
fn read_stream_desc_table(b: &[u8], off: usize, count: usize) -> (r: Vec<StreamDesc>)
    requires
        off + count * 4 <= b@.len(),
    ensures
        r@ =~= Seq::new(count as nat, |i: int| stream_desc_le_at(b@, off + i * 4)),
{
    let m: usize = b.len();
    let mut r: Vec<StreamDesc> = Vec::new();
    let mut pos: usize = off;
    let mut i: usize = 0;
    while i < count
        invariant
            0 <= i <= count,
            pos == off + i * 4,
            r@.len() == i,
            forall|j: int| 0 <= j < i ==> r@[j] == stream_desc_le_at(b@, off + j * 4),
        decreases count - i,
    {
        r.push(read_stream_desc(b, pos));
        pos = pos + 4;
        i = i + 1;
    }
    r
}

/// Reads `count` consecutive records at `off`.
#[verifier::loop_isolation(false)]
fn read_stream_data_table(b: &[u8], off: usize, count: usize) -> (r: Vec<StreamData>)
    requires
        off + count * 16 <= b@.len(),
    ensures
        r@ =~= Seq::new(count as nat, |i: int| stream_data_le_at(b@, off + i * 16)),
{
    let m: usize = b.len();
    let mut r: Vec<StreamData> = Vec::new();
    let mut pos: usize = off;
    let mut i: usize = 0;
    while i < count
        invariant
            0 <= i <= count,
            pos == off + i * 16,
            r@.len() == i,
            forall|j: int| 0 <= j < i ==> r@[j] == stream_data_le_at(b@, off + j * 16),
        decreases count - i,
    {
        r.push(read_stream_data(b, pos));
        pos = pos + 16;
        i = i + 1;
    }
    r
}

/// Reads `count` consecutive records at `off`.
#[verifier::loop_isolation(false)]
fn read_file_path_table(b: &[u8], off: usize, count: usize) -> (r: Vec<FilePath>)
    requires
        off + count * 32 <= b@.len(),
    ensures
        r@ =~= Seq::new(count as nat, |i: int| file_path_le_at(b@, off + i * 32)),
{
    let m: usize = b.len();
    let mut r: Vec<FilePath> = Vec::new();
    let mut pos: usize = off;
    let mut i: usize = 0;
    while i < count
        invariant
            0 <= i <= count,
            pos == off + i * 32,
            r@.len() == i,
            forall|j: int| 0 <= j < i ==> r@[j] == file_path_le_at(b@, off + j * 32),
        decreases count - i,
    {
        r.push(read_file_path(b, pos));
        pos = pos + 32;
        i = i + 1;
    }
    r
}

/// Reads `count` consecutive records at `off`.
#[verifier::loop_isolation(false)]
fn read_file_entity_table(b: &[u8], off: usize, count: usize) -> (r: Vec<FileEntity>)
    requires
        off + count * 8 <= b@.len(),
    ensures
        r@ =~= Seq::new(count as nat, |i: int| file_entity_le_at(b@, off + i * 8)),
{
    let m: usize = b.len();
    let mut r: Vec<FileEntity> = Vec::new();
    let mut pos: usize = off;
    let mut i: usize = 0;
    while i < count
        invariant
            0 <= i <= count,
            pos == off + i * 8,
            r@.len() == i,
            forall|j: int| 0 <= j < i ==> r@[j] == file_entity_le_at(b@, off + j * 8),
        decreases count - i,
    {
        r.push(read_file_entity(b, pos));
        pos = pos + 8;
        i = i + 1;
    }
    r
}

/// Reads `count` consecutive records at `off`.
#[verifier::loop_isolation(false)]
fn read_file_package_table(b: &[u8], off: usize, count: usize) -> (r: Vec<FilePackage>)
    requires
        off + count * 52 <= b@.len(),
    ensures
        r@ =~= Seq::new(count as nat, |i: int| file_package_le_at(b@, off + i * 52)),
{
    let m: usize = b.len();
    let mut r: Vec<FilePackage> = Vec::new();
    let mut pos: usize = off;
    let mut i: usize = 0;
    while i < count
        invariant
            0 <= i <= count,
            pos == off + i * 52,
            r@.len() == i,
            forall|j: int| 0 <= j < i ==> r@[j] == file_package_le_at(b@, off + j * 52),
        decreases count - i,
    {
        r.push(read_file_package(b, pos));
        pos = pos + 52;
        i = i + 1;
    }
    r
}

/// Reads `count` consecutive records at `off`.
#[verifier::loop_isolation(false)]
fn read_file_group_table(b: &[u8], off: usize, count: usize) -> (r: Vec<FileGroup>)
    requires
        off + count * 28 <= b@.len(),
    ensures
        r@ =~= Seq::new(count as nat, |i: int| file_group_le_at(b@, off + i * 28)),
{
    let m: usize = b.len();
    let mut r: Vec<FileGroup> = Vec::new();
    let mut pos: usize = off;
    let mut i: usize = 0;
    while i < count
        invariant
            0 <= i <= count,
            pos == off + i * 28,
            r@.len() == i,
            forall|j: int| 0 <= j < i ==> r@[j] == file_group_le_at(b@, off + j * 28),
        decreases count - i,
    {
        r.push(read_file_group(b, pos));
        pos = pos + 28;
        i = i + 1;
    }
    r
}

/// Reads `count` consecutive records at `off`.
#[verifier::loop_isolation(false)]
fn read_file_package_child_table(b: &[u8], off: usize, count: usize) -> (r: Vec<FilePackageChild>)
    requires
        off + count * 8 <= b@.len(),
    ensures
        r@ =~= Seq::new(count as nat, |i: int| file_package_child_le_at(b@, off + i * 8)),
{
    let m: usize = b.len();
    let mut r: Vec<FilePackageChild> = Vec::new();
    let mut pos: usize = off;
    let mut i: usize = 0;
    while i < count
        invariant
            0 <= i <= count,
            pos == off + i * 8,
            r@.len() == i,
            forall|j: int| 0 <= j < i ==> r@[j] == file_package_child_le_at(b@, off + j * 8),
        decreases count - i,
    {
        r.push(read_file_package_child(b, pos));
        pos = pos + 8;
        i = i + 1;
    }
    r
}

/// Reads `count` consecutive records at `off`.
#[verifier::loop_isolation(false)]
fn read_file_info_table(b: &[u8], off: usize, count: usize) -> (r: Vec<FileInfo>)
    requires
        off + count * 16 <= b@.len(),
    ensures
        r@ =~= Seq::new(count as nat, |i: int| file_info_le_at(b@, off + i * 16)),
{
    let m: usize = b.len();
    let mut r: Vec<FileInfo> = Vec::new();
    let mut pos: usize = off;
    let mut i: usize = 0;
    while i < count
        invariant
            0 <= i <= count,
            pos == off + i * 16,
            r@.len() == i,
            forall|j: int| 0 <= j < i ==> r@[j] == file_info_le_at(b@, off + j * 16),
        decreases count - i,
    {
        r.push(read_file_info(b, pos));
        pos = pos + 16;
        i = i + 1;
    }
    r
}

/// Reads `count` consecutive records at `off`.
#[verifier::loop_isolation(false)]
fn read_file_desc_table(b: &[u8], off: usize, count: usize) -> (r: Vec<FileDesc>)
    requires
        off + count * 12 <= b@.len(),
    ensures
        r@ =~= Seq::new(count as nat, |i: int| file_desc_le_at(b@, off + i * 12)),
{
    let m: usize = b.len();
    let mut r: Vec<FileDesc> = Vec::new();
    let mut pos: usize = off;
    let mut i: usize = 0;
    while i < count
        invariant
            0 <= i <= count,
            pos == off + i * 12,
            r@.len() == i,
            forall|j: int| 0 <= j < i ==> r@[j] == file_desc_le_at(b@, off + j * 12),
        decreases count - i,
    {
        r.push(read_file_desc(b, pos));
        pos = pos + 12;
        i = i + 1;
    }
    r
}

/// Reads `count` consecutive records at `off`.
#[verifier::loop_isolation(false)]
fn read_file_data_table(b: &[u8], off: usize, count: usize) -> (r: Vec<FileData>)
    requires
        off + count * 16 <= b@.len(),
    ensures
        r@ =~= Seq::new(count as nat, |i: int| file_data_le_at(b@, off + i * 16)),
{
    let m: usize = b.len();
    let mut r: Vec<FileData> = Vec::new();
    let mut pos: usize = off;
    let mut i: usize = 0;
    while i < count
        invariant
            0 <= i <= count,
            pos == off + i * 16,
            r@.len() == i,
            forall|j: int| 0 <= j < i ==> r@[j] == file_data_le_at(b@, off + j * 16),
        decreases count - i,
    {
        r.push(read_file_data(b, pos));
        pos = pos + 16;
        i = i + 1;
    }
    r
}

/// Reads `count` consecutive records at `off`.
#[verifier::loop_isolation(false)]
fn read_hwd_table(b: &[u8], off: usize, count: usize) -> (r: Vec<HashWithData>)
    requires
        off + count * 8 <= b@.len(),
    ensures
        r@ =~= Seq::new(count as nat, |i: int| hwd_le_at(b@, off + i * 8)),
{
    let m: usize = b.len();
    let mut r: Vec<HashWithData> = Vec::new();
    let mut pos: usize = off;
    let mut i: usize = 0;
    while i < count
        invariant
            0 <= i <= count,
            pos == off + i * 8,
            r@.len() == i,
            forall|j: int| 0 <= j < i ==> r@[j] == hwd_le_at(b@, off + j * 8),
        decreases count - i,
    {
        r.push(read_hwd(b, pos));
        pos = pos + 8;
        i = i + 1;
    }
    r
}

/// Reads `count` consecutive records at `off`.
#[verifier::loop_isolation(false)]
fn read_bucket_table(b: &[u8], off: usize, count: usize) -> (r: Vec<Bucket>)
    requires
        off + count * 8 <= b@.len(),
    ensures
        r@ =~= Seq::new(count as nat, |i: int| bucket_le_at(b@, off + i * 8)),
{
    let m: usize = b.len();
    let mut r: Vec<Bucket> = Vec::new();
    let mut pos: usize = off;
    let mut i: usize = 0;
    while i < count
        invariant
            0 <= i <= count,
            pos == off + i * 8,
            r@.len() == i,
            forall|j: int| 0 <= j < i ==> r@[j] == bucket_le_at(b@, off + j * 8),
        decreases count - i,
    {
        r.push(read_bucket(b, pos));
        pos = pos + 8;
        i = i + 1;
    }
    r
}


/// The aggregate: every table of the resource section as owned records, the
/// lookups, the header, and the raw decompressed buffer they were loaded
/// from.
#[derive(Debug)]
pub struct ResourceTables {
    pub raw_data: Vec<u8>,
    pub header: ResourceTableHeader,
    pub stream_folder: Vec<StreamFolder>,
    pub stream_path_lookup: IndexLookup,
    pub stream_path: Vec<StreamPath>,
    pub stream_desc: Vec<StreamDesc>,
    pub stream_data: Vec<StreamData>,
    pub file_path_lookup: BucketLookup,
    pub file_path: Vec<FilePath>,
    pub file_entity: Vec<FileEntity>,
    pub file_package_lookup: IndexLookup,
    pub file_package: Vec<FilePackage>,
    pub file_group: Vec<FileGroup>,
    pub file_package_child: Vec<FilePackageChild>,
    pub file_info: Vec<FileInfo>,
    pub file_desc: Vec<FileDesc>,
    pub file_data: Vec<FileData>,
}

/// The mathematical content of the resource tables; the raw buffer is not
/// part of it.
pub struct RtView {
    pub header: HeaderView,
    pub stream_folder: Seq<StreamFolder>,
    pub stream_path_lookup: Seq<HashWithData>,
    pub stream_path: Seq<StreamPath>,
    pub stream_desc: Seq<StreamDesc>,
    pub stream_data: Seq<StreamData>,
    pub buckets: Seq<Bucket>,
    pub file_path_lookup: Seq<HashWithData>,
    pub file_path: Seq<FilePath>,
    pub file_entity: Seq<FileEntity>,
    pub file_package_lookup: Seq<HashWithData>,
    pub file_package: Seq<FilePackage>,
    pub file_group: Seq<FileGroup>,
    pub file_package_child: Seq<FilePackageChild>,
    pub file_info: Seq<FileInfo>,
    pub file_desc: Seq<FileDesc>,
    pub file_data: Seq<FileData>,
}

impl View for ResourceTables {
    type V = RtView;

    open spec fn view(&self) -> RtView {
        RtView {
            header: self.header@,
            stream_folder: self.stream_folder@,
            stream_path_lookup: self.stream_path_lookup@,
            stream_path: self.stream_path@,
            stream_desc: self.stream_desc@,
            stream_data: self.stream_data@,
            buckets: self.file_path_lookup.buckets@,
            file_path_lookup: self.file_path_lookup.entries@,
            file_path: self.file_path@,
            file_entity: self.file_entity@,
            file_package_lookup: self.file_package_lookup@,
            file_package: self.file_package@,
            file_group: self.file_group@,
            file_package_child: self.file_package_child@,
            file_info: self.file_info@,
            file_desc: self.file_desc@,
            file_data: self.file_data@,
        }
    }
}

/// Consistency of a loaded structure: the header's counts are the table
/// lengths (the file group, info, desc, and data lengths are the sums of
/// their three subcategory counts), the locale and region counts are the
/// required ones, and the bucketed lookup's sizes fit their wire fields.
pub open spec fn rt_wf(v: RtView) -> bool {
    &&& v.header.locale_count == 14
    &&& v.header.region_count == 5
    &&& v.header.locale_region.len() == 168
    &&& v.stream_folder.len() == v.header.stream_folder_count
    &&& v.stream_path_lookup.len() == v.header.stream_path_count
    &&& v.stream_path.len() == v.header.stream_path_count
    &&& v.stream_desc.len() == v.header.stream_desc_count
    &&& v.stream_data.len() == v.header.stream_data_count
    &&& v.file_path_lookup.len() < 0x1_0000_0000
    &&& v.buckets.len() < 0x1_0000_0000
    &&& v.file_path.len() == v.header.file_path_count
    &&& v.file_entity.len() == v.header.file_entity_count
    &&& v.file_package_lookup.len() == v.header.file_package_count
    &&& v.file_package.len() == v.header.file_package_count
    &&& v.file_group.len() == v.header.file_data_group_count + v.header.file_info_group_count
        + v.header.versioned_file_group_count
    &&& v.file_package_child.len() == v.header.file_package_child_count
    &&& v.file_info.len() == v.header.file_package_info_count + v.header.file_group_info_count
        + v.header.versioned_file_info_count
    &&& v.file_desc.len() == v.header.file_package_desc_count + v.header.file_group_info_count
        + v.header.versioned_file_desc_count
    &&& v.file_data.len() == v.header.file_package_data_count + v.header.file_group_info_count
        + v.header.versioned_file_data_count
}

/// Everything the loader checks and produces, as a function of the bytes: the
/// header is validated, then the buffer is sliced into tables in the fixed
/// on-disk order, each length computed from the header's counts.
pub open spec fn spec_from_bytes(b: Seq<u8>) -> Result<RtView, ArcError> {
    if b.len() < 272 {
        Err(ArcError::Truncated)
    } else {
        let h = header_le_at(b);
        if h.locale_count != 14 {
            Err(ArcError::BadLocaleCount)
        } else if h.region_count != 5 {
            Err(ArcError::BadRegionCount)
        } else {
            let o1 = 272 + h.stream_folder_count * 12;
            let o2 = o1 + h.stream_path_count * 8;
            let o3 = o2 + h.stream_path_count * 12;
            let o4 = o3 + h.stream_desc_count * 4;
            let o5 = o4 + h.stream_data_count * 16;
            if b.len() < o5 + 8 {
                Err(ArcError::Truncated)
            } else {
                let lcount = u32_le_at(b, o5);
                let bcount = u32_le_at(b, o5 + 4);
                let o6 = o5 + 8;
                let o7 = o6 + bcount * 8;
                let o8 = o7 + lcount * 8;
                let o9 = o8 + h.file_path_count * 32;
                let o10 = o9 + h.file_entity_count * 8;
                let o11 = o10 + h.file_package_count * 8;
                let o12 = o11 + h.file_package_count * 52;
                let gcount = h.file_data_group_count + h.file_info_group_count
                    + h.versioned_file_group_count;
                let o13 = o12 + gcount * 28;
                let o14 = o13 + h.file_package_child_count * 8;
                let icount = h.file_package_info_count + h.file_group_info_count
                    + h.versioned_file_info_count;
                let o15 = o14 + icount * 16;
                let dcount = h.file_package_desc_count + h.file_group_info_count
                    + h.versioned_file_desc_count;
                let o16 = o15 + dcount * 12;
                let acount = h.file_package_data_count + h.file_group_info_count
                    + h.versioned_file_data_count;
                let o17 = o16 + acount * 16;
                if b.len() < o17 {
                    Err(ArcError::Truncated)
                } else {
                    Ok(
                        RtView {
                            header: h,
                            stream_folder: Seq::new(
                                h.stream_folder_count as nat,
                                |i: int| stream_folder_le_at(b, 272 + i * 12),
                            ),
                            stream_path_lookup: Seq::new(
                                h.stream_path_count as nat,
                                |i: int| hwd_le_at(b, o1 + i * 8),
                            ),
                            stream_path: Seq::new(
                                h.stream_path_count as nat,
                                |i: int| stream_path_le_at(b, o2 + i * 12),
                            ),
                            stream_desc: Seq::new(
                                h.stream_desc_count as nat,
                                |i: int| stream_desc_le_at(b, o3 + i * 4),
                            ),
                            stream_data: Seq::new(
                                h.stream_data_count as nat,
                                |i: int| stream_data_le_at(b, o4 + i * 16),
                            ),
                            buckets: Seq::new(bcount as nat, |i: int| bucket_le_at(b, o6 + i * 8)),
                            file_path_lookup: Seq::new(
                                lcount as nat,
                                |i: int| hwd_le_at(b, o7 + i * 8),
                            ),
                            file_path: Seq::new(
                                h.file_path_count as nat,
                                |i: int| file_path_le_at(b, o8 + i * 32),
                            ),
                            file_entity: Seq::new(
                                h.file_entity_count as nat,
                                |i: int| file_entity_le_at(b, o9 + i * 8),
                            ),
                            file_package_lookup: Seq::new(
                                h.file_package_count as nat,
                                |i: int| hwd_le_at(b, o10 + i * 8),
                            ),
                            file_package: Seq::new(
                                h.file_package_count as nat,
                                |i: int| file_package_le_at(b, o11 + i * 52),
                            ),
                            file_group: Seq::new(
                                gcount as nat,
                                |i: int| file_group_le_at(b, o12 + i * 28),
                            ),
                            file_package_child: Seq::new(
                                h.file_package_child_count as nat,
                                |i: int| file_package_child_le_at(b, o13 + i * 8),
                            ),
                            file_info: Seq::new(
                                icount as nat,
                                |i: int| file_info_le_at(b, o14 + i * 16),
                            ),
                            file_desc: Seq::new(
                                dcount as nat,
                                |i: int| file_desc_le_at(b, o15 + i * 12),
                            ),
                            file_data: Seq::new(
                                acount as nat,
                                |i: int| file_data_le_at(b, o16 + i * 16),
                            ),
                        },
                    )
                }
            }
        }
    }
}

/// Whether `count` records of `size` bytes fit at `cursor`.
fn fits(len: usize, cursor: usize, count: u32, size: u64) -> (r: bool)
    requires
        cursor <= len,
        1 <= size <= 52,
    ensures
        r <==> cursor + count * size <= len,
{
    proof {
        assert((count as u64) * size <= 0xFFFF_FFFFu64 * 52) by (nonlinear_arith)
            requires
                count <= 0xFFFF_FFFFu64 && 1 <= size <= 52,
        ;
    }
    (count as u64) * size <= (len - cursor) as u64
}

impl ResourceTables {
    /// Slices one decompressed resource section into all tables, validating
    /// the header first. No bytes are interpreted twice and nothing is
    /// copied beyond the records themselves.
    #[verifier::rlimit(100)]
    pub fn from_bytes(bytes: Vec<u8>) -> (r: Result<ResourceTables, ArcError>)
        ensures
            match spec_from_bytes(bytes@) {
                Ok(v) => r is Ok && r.unwrap()@ == v && r.unwrap().raw_data@ == bytes@,
                Err(e) => r == Err::<ResourceTables, ArcError>(e),
            },
            r is Ok ==> rt_wf(r.unwrap()@),
    {
        let len = bytes.len();
        if len < HEADER_SIZE {
            return Err(ArcError::Truncated);
        }
        let b: &[u8] = bytes.as_slice();
        let h = read_header(b);
        if h.locale_count != 14 {
            return Err(ArcError::BadLocaleCount);
        }
        if h.region_count != 5 {
            return Err(ArcError::BadRegionCount);
        }
        let mut cursor: usize = HEADER_SIZE;
        if !fits(len, cursor, h.stream_folder_count, 12) {
            return Err(ArcError::Truncated);
        }
        let stream_folder = read_stream_folder_table(b, cursor, h.stream_folder_count as usize);
        cursor = cursor + (h.stream_folder_count as usize) * 12;
        if !fits(len, cursor, h.stream_path_count, 8) {
            return Err(ArcError::Truncated);
        }
        let stream_path_lookup = read_hwd_table(b, cursor, h.stream_path_count as usize);
        cursor = cursor + (h.stream_path_count as usize) * 8;
        if !fits(len, cursor, h.stream_path_count, 12) {
            return Err(ArcError::Truncated);
        }
        let stream_path = read_stream_path_table(b, cursor, h.stream_path_count as usize);
        cursor = cursor + (h.stream_path_count as usize) * 12;
        if !fits(len, cursor, h.stream_desc_count, 4) {
            return Err(ArcError::Truncated);
        }
        let stream_desc = read_stream_desc_table(b, cursor, h.stream_desc_count as usize);
        cursor = cursor + (h.stream_desc_count as usize) * 4;
        if !fits(len, cursor, h.stream_data_count, 16) {
            return Err(ArcError::Truncated);
        }
        let stream_data = read_stream_data_table(b, cursor, h.stream_data_count as usize);
        cursor = cursor + (h.stream_data_count as usize) * 16;
        if len - cursor < 8 {
            return Err(ArcError::Truncated);
        }
        let lcount = read_u32_le(b, cursor);
        let bcount = read_u32_le(b, cursor + 4);
        cursor = cursor + 8;
        if !fits(len, cursor, bcount, 8) {
            return Err(ArcError::Truncated);
        }
        let buckets = read_bucket_table(b, cursor, bcount as usize);
        cursor = cursor + (bcount as usize) * 8;
        if !fits(len, cursor, lcount, 8) {
            return Err(ArcError::Truncated);
        }
        let file_path_entries = read_hwd_table(b, cursor, lcount as usize);
        cursor = cursor + (lcount as usize) * 8;
        if !fits(len, cursor, h.file_path_count, 32) {
            return Err(ArcError::Truncated);
        }
        let file_path = read_file_path_table(b, cursor, h.file_path_count as usize);
        cursor = cursor + (h.file_path_count as usize) * 32;
        if !fits(len, cursor, h.file_entity_count, 8) {
            return Err(ArcError::Truncated);
        }
        let file_entity = read_file_entity_table(b, cursor, h.file_entity_count as usize);
        cursor = cursor + (h.file_entity_count as usize) * 8;
        if !fits(len, cursor, h.file_package_count, 8) {
            return Err(ArcError::Truncated);
        }
        let file_package_lookup = read_hwd_table(b, cursor, h.file_package_count as usize);
        cursor = cursor + (h.file_package_count as usize) * 8;
        if !fits(len, cursor, h.file_package_count, 52) {
            return Err(ArcError::Truncated);
        }
        let file_package = read_file_package_table(b, cursor, h.file_package_count as usize);
        cursor = cursor + (h.file_package_count as usize) * 52;
        let gcount64: u64 = h.file_data_group_count as u64 + h.file_info_group_count as u64
            + h.versioned_file_group_count as u64;
        if gcount64 * 28 > (len - cursor) as u64 {
            return Err(ArcError::Truncated);
        }
        let gcount: usize = gcount64 as usize;
        let file_group = read_file_group_table(b, cursor, gcount);
        cursor = cursor + gcount * 28;
        if !fits(len, cursor, h.file_package_child_count, 8) {
            return Err(ArcError::Truncated);
        }
        let file_package_child = read_file_package_child_table(
            b,
            cursor,
            h.file_package_child_count as usize,
        );
        cursor = cursor + (h.file_package_child_count as usize) * 8;
        let icount64: u64 = h.file_package_info_count as u64 + h.file_group_info_count as u64
            + h.versioned_file_info_count as u64;
        if icount64 * 16 > (len - cursor) as u64 {
            return Err(ArcError::Truncated);
        }
        let icount: usize = icount64 as usize;
        let file_info = read_file_info_table(b, cursor, icount);
        cursor = cursor + icount * 16;
        let dcount64: u64 = h.file_package_desc_count as u64 + h.file_group_info_count as u64
            + h.versioned_file_desc_count as u64;
        if dcount64 * 12 > (len - cursor) as u64 {
            return Err(ArcError::Truncated);
        }
        let dcount: usize = dcount64 as usize;
        let file_desc = read_file_desc_table(b, cursor, dcount);
        cursor = cursor + dcount * 12;
        let acount64: u64 = h.file_package_data_count as u64 + h.file_group_info_count as u64
            + h.versioned_file_data_count as u64;
        if acount64 * 16 > (len - cursor) as u64 {
            return Err(ArcError::Truncated);
        }
        let acount: usize = acount64 as usize;
        let file_data = read_file_data_table(b, cursor, acount);
        let r = ResourceTables {
            raw_data: bytes,
            header: h,
            stream_folder,
            stream_path_lookup: IndexLookup { entries: stream_path_lookup },
            stream_path,
            stream_desc,
            stream_data,
            file_path_lookup: BucketLookup { buckets, entries: file_path_entries },
            file_path,
            file_entity,
            file_package_lookup: IndexLookup { entries: file_package_lookup },
            file_package,
            file_group,
            file_package_child,
            file_info,
            file_desc,
            file_data,
        };
        proof {
            let v = spec_from_bytes(r.raw_data@);
            assert(v is Ok);
            assert(r@ == v.unwrap());
        }
        Ok(r)
    }
}


/// The count fields read back from a header's wire form.
#[verifier::rlimit(100)]
proof fn lemma_header_counts_of_bytes(s: Seq<u8>, h: HeaderView)
    requires
        s.len() >= 272,
        forall|i: int| 0 <= i < 44 ==> s[i] == header_le_bytes_counts(h)[i],
    ensures
        u32_le_at(s, 0) == h.resource_data_size,
        u32_le_at(s, 4) == h.file_path_count,
        u32_le_at(s, 8) == h.file_entity_count,
        u32_le_at(s, 12) == h.file_package_count,
        u32_le_at(s, 16) == h.file_data_group_count,
        u32_le_at(s, 20) == h.file_package_child_count,
        u32_le_at(s, 24) == h.file_package_info_count,
        u32_le_at(s, 28) == h.file_package_desc_count,
        u32_le_at(s, 32) == h.file_package_data_count,
        u32_le_at(s, 36) == h.file_info_group_count,
        u32_le_at(s, 40) == h.file_group_info_count,
{
    let c = header_le_bytes_counts(h);
    assert forall|k: int| 0 <= k < 4 implies s[0 + k] == u32_le_bytes(h.resource_data_size)[k] by {
        assert(s[0 + k] == c[0 + k]);
        assert(c[0 + k] == u32_le_bytes(h.resource_data_size)[k]);
    }
    crate::bytes::lemma_u32_le_at_of_bytes(s, 0, h.resource_data_size);
    assert forall|k: int| 0 <= k < 4 implies s[4 + k] == u32_le_bytes(h.file_path_count)[k] by {
        assert(s[4 + k] == c[4 + k]);
        assert(c[4 + k] == u32_le_bytes(h.file_path_count)[k]);
    }
    crate::bytes::lemma_u32_le_at_of_bytes(s, 4, h.file_path_count);
    assert forall|k: int| 0 <= k < 4 implies s[8 + k] == u32_le_bytes(h.file_entity_count)[k] by {
        assert(s[8 + k] == c[8 + k]);
        assert(c[8 + k] == u32_le_bytes(h.file_entity_count)[k]);
    }
    crate::bytes::lemma_u32_le_at_of_bytes(s, 8, h.file_entity_count);
    assert forall|k: int| 0 <= k < 4 implies s[12 + k] == u32_le_bytes(h.file_package_count)[k] by {
        assert(s[12 + k] == c[12 + k]);
        assert(c[12 + k] == u32_le_bytes(h.file_package_count)[k]);
    }
    crate::bytes::lemma_u32_le_at_of_bytes(s, 12, h.file_package_count);
    assert forall|k: int| 0 <= k < 4 implies s[16 + k] == u32_le_bytes(h.file_data_group_count)[k] by {
        assert(s[16 + k] == c[16 + k]);
        assert(c[16 + k] == u32_le_bytes(h.file_data_group_count)[k]);
    }
    crate::bytes::lemma_u32_le_at_of_bytes(s, 16, h.file_data_group_count);
    assert forall|k: int| 0 <= k < 4 implies s[20 + k] == u32_le_bytes(h.file_package_child_count)[k] by {
        assert(s[20 + k] == c[20 + k]);
        assert(c[20 + k] == u32_le_bytes(h.file_package_child_count)[k]);
    }
    crate::bytes::lemma_u32_le_at_of_bytes(s, 20, h.file_package_child_count);
    assert forall|k: int| 0 <= k < 4 implies s[24 + k] == u32_le_bytes(h.file_package_info_count)[k] by {
        assert(s[24 + k] == c[24 + k]);
        assert(c[24 + k] == u32_le_bytes(h.file_package_info_count)[k]);
    }
    crate::bytes::lemma_u32_le_at_of_bytes(s, 24, h.file_package_info_count);
    assert forall|k: int| 0 <= k < 4 implies s[28 + k] == u32_le_bytes(h.file_package_desc_count)[k] by {
        assert(s[28 + k] == c[28 + k]);
        assert(c[28 + k] == u32_le_bytes(h.file_package_desc_count)[k]);
    }
    crate::bytes::lemma_u32_le_at_of_bytes(s, 28, h.file_package_desc_count);
    assert forall|k: int| 0 <= k < 4 implies s[32 + k] == u32_le_bytes(h.file_package_data_count)[k] by {
        assert(s[32 + k] == c[32 + k]);
        assert(c[32 + k] == u32_le_bytes(h.file_package_data_count)[k]);
    }
    crate::bytes::lemma_u32_le_at_of_bytes(s, 32, h.file_package_data_count);
    assert forall|k: int| 0 <= k < 4 implies s[36 + k] == u32_le_bytes(h.file_info_group_count)[k] by {
        assert(s[36 + k] == c[36 + k]);
        assert(c[36 + k] == u32_le_bytes(h.file_info_group_count)[k]);
    }
    crate::bytes::lemma_u32_le_at_of_bytes(s, 36, h.file_info_group_count);
    assert forall|k: int| 0 <= k < 4 implies s[40 + k] == u32_le_bytes(h.file_group_info_count)[k] by {
        assert(s[40 + k] == c[40 + k]);
        assert(c[40 + k] == u32_le_bytes(h.file_group_info_count)[k]);
    }
    crate::bytes::lemma_u32_le_at_of_bytes(s, 40, h.file_group_info_count);
}

/// The middle fields read back from a header's wire form.
#[verifier::rlimit(100)]
proof fn lemma_header_mid_of_bytes(s: Seq<u8>, h: HeaderView)
    requires
        s.len() >= 272,
        forall|i: int| 0 <= i < 44 ==> s[44 + i] == header_le_bytes_mid(h)[i],
    ensures
        s[56] == h.locale_count,
        s[57] == h.region_count,
        s[60] == h.version_patch,
        s[61] == h.version_minor,
        u16_le_at(s, 62) == h.version_major,
        u32_le_at(s, 64) == h.versioned_file_group_count,
        u32_le_at(s, 68) == h.versioned_file_count,
        u32_le_at(s, 76) == h.versioned_file_info_count,
        u32_le_at(s, 80) == h.versioned_file_desc_count,
        u32_le_at(s, 84) == h.versioned_file_data_count,
{
    let m = header_le_bytes_mid(h);
    assert(s[44 + 12int] == m[12int]);
    assert(m[12] == h.locale_count);
    assert(s[44 + 13int] == m[13int]);
    assert(m[13] == h.region_count);
    assert(s[44 + 16int] == m[16int]);
    assert(m[16] == h.version_patch);
    assert(s[44 + 17int] == m[17int]);
    assert(m[17] == h.version_minor);
    assert forall|k: int| 0 <= k < 2 implies s[62 + k] == u16_le_bytes(h.version_major)[k] by {
        assert(s[44 + (18 + k)] == m[18 + k]);
        assert(m[18 + k] == u16_le_bytes(h.version_major)[k]);
    }
    crate::bytes::lemma_u16_le_at_of_bytes(s, 62, h.version_major);
    assert forall|k: int| 0 <= k < 4 implies s[64 + k] == u32_le_bytes(h.versioned_file_group_count)[k] by {
        assert(s[44 + (20 + k)] == m[20 + k]);
        assert(m[20 + k] == u32_le_bytes(h.versioned_file_group_count)[k]);
    }
    crate::bytes::lemma_u32_le_at_of_bytes(s, 64, h.versioned_file_group_count);
    assert forall|k: int| 0 <= k < 4 implies s[68 + k] == u32_le_bytes(h.versioned_file_count)[k] by {
        assert(s[44 + (24 + k)] == m[24 + k]);
        assert(m[24 + k] == u32_le_bytes(h.versioned_file_count)[k]);
    }
    crate::bytes::lemma_u32_le_at_of_bytes(s, 68, h.versioned_file_count);
    assert forall|k: int| 0 <= k < 4 implies s[76 + k] == u32_le_bytes(h.versioned_file_info_count)[k] by {
        assert(s[44 + (32 + k)] == m[32 + k]);
        assert(m[32 + k] == u32_le_bytes(h.versioned_file_info_count)[k]);
    }
    crate::bytes::lemma_u32_le_at_of_bytes(s, 76, h.versioned_file_info_count);
    assert forall|k: int| 0 <= k < 4 implies s[80 + k] == u32_le_bytes(h.versioned_file_desc_count)[k] by {
        assert(s[44 + (36 + k)] == m[36 + k]);
        assert(m[36 + k] == u32_le_bytes(h.versioned_file_desc_count)[k]);
    }
    crate::bytes::lemma_u32_le_at_of_bytes(s, 80, h.versioned_file_desc_count);
    assert forall|k: int| 0 <= k < 4 implies s[84 + k] == u32_le_bytes(h.versioned_file_data_count)[k] by {
        assert(s[44 + (40 + k)] == m[40 + k]);
        assert(m[40 + k] == u32_le_bytes(h.versioned_file_data_count)[k]);
    }
    crate::bytes::lemma_u32_le_at_of_bytes(s, 84, h.versioned_file_data_count);
}

/// The stream counts read back from a header's wire form.
proof fn lemma_header_tail_of_bytes(s: Seq<u8>, h: HeaderView)
    requires
        s.len() >= 272,
        forall|i: int| 0 <= i < 16 ==> s[256 + i] == header_le_bytes_tail(h)[i],
    ensures
        u32_le_at(s, 256) == h.stream_folder_count,
        u32_le_at(s, 260) == h.stream_path_count,
        u32_le_at(s, 264) == h.stream_desc_count,
        u32_le_at(s, 268) == h.stream_data_count,
{
    let t = header_le_bytes_tail(h);
    assert forall|k: int| 0 <= k < 4 implies s[256 + k] == u32_le_bytes(h.stream_folder_count)[k] by {
        assert(s[256 + (0 + k)] == t[0 + k]);
        assert(t[0 + k] == u32_le_bytes(h.stream_folder_count)[k]);
    }
    crate::bytes::lemma_u32_le_at_of_bytes(s, 256, h.stream_folder_count);
    assert forall|k: int| 0 <= k < 4 implies s[260 + k] == u32_le_bytes(h.stream_path_count)[k] by {
        assert(s[256 + (4 + k)] == t[4 + k]);
        assert(t[4 + k] == u32_le_bytes(h.stream_path_count)[k]);
    }
    crate::bytes::lemma_u32_le_at_of_bytes(s, 260, h.stream_path_count);
    assert forall|k: int| 0 <= k < 4 implies s[264 + k] == u32_le_bytes(h.stream_desc_count)[k] by {
        assert(s[256 + (8 + k)] == t[8 + k]);
        assert(t[8 + k] == u32_le_bytes(h.stream_desc_count)[k]);
    }
    crate::bytes::lemma_u32_le_at_of_bytes(s, 264, h.stream_desc_count);
    assert forall|k: int| 0 <= k < 4 implies s[268 + k] == u32_le_bytes(h.stream_data_count)[k] by {
        assert(s[256 + (12 + k)] == t[12 + k]);
        assert(t[12 + k] == u32_le_bytes(h.stream_data_count)[k]);
    }
    crate::bytes::lemma_u32_le_at_of_bytes(s, 268, h.stream_data_count);
}

/// Reading back the wire form of a header yields it.
#[verifier::rlimit(100)]
pub proof fn lemma_header_le_at_of_bytes(s: Seq<u8>, h: HeaderView)
    requires
        h.locale_region.len() == 168,
        s.len() >= 272,
        forall|i: int| 0 <= i < 272 ==> s[i] == header_le_bytes(h)[i],
    ensures
        header_le_at(s) == h,
{
    let c = header_le_bytes_counts(h);
    let m = header_le_bytes_mid(h);
    let t = header_le_bytes_tail(h);
    assert(c.len() == 44);
    assert(m.len() == 44);
    assert(t.len() == 16);
    assert forall|i: int| 0 <= i < 44 implies s[i] == c[i] by {
        assert(s[i] == header_le_bytes(h)[i]);
        assert(header_le_bytes(h)[i] == c[i]);
    }
    assert forall|i: int| 0 <= i < 44 implies s[44 + i] == m[i] by {
        assert(s[44 + i] == header_le_bytes(h)[44 + i]);
        assert(header_le_bytes(h)[44 + i] == m[i]);
    }
    assert forall|i: int| 0 <= i < 168 implies s[88 + i] == h.locale_region[i] by {
        assert(s[88 + i] == header_le_bytes(h)[88 + i]);
        assert(header_le_bytes(h)[88 + i] == h.locale_region[i]);
    }
    assert forall|i: int| 0 <= i < 16 implies s[256 + i] == t[i] by {
        assert(s[256 + i] == header_le_bytes(h)[256 + i]);
        assert(header_le_bytes(h)[256 + i] == t[i]);
    }
    lemma_header_counts_of_bytes(s, h);
    lemma_header_mid_of_bytes(s, h);
    lemma_header_tail_of_bytes(s, h);
    assert(header_le_at(s).locale_region =~= h.locale_region);
}

} // verus!
