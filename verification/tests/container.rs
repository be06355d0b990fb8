//! Container tests: reading an archive through the outer metadata, the
//! compressed-block header, and the ZSTD stream, plus the hashed lookups.

use arc_reader::archive::Archive;
use arc_reader::data::file_data::FileData;
use arc_reader::data::file_desc::FileDesc;
use arc_reader::data::file_entity::FileEntity;
use arc_reader::data::file_group::FileGroup;
use arc_reader::data::file_info::FileInfo;
use arc_reader::data::file_package::FilePackage;
use arc_reader::data::file_path::FilePath;
use arc_reader::err::ArcError;
use arc_reader::hash::HashWithData;
use arc_reader::index::INVALID_INDEX;
use arc_reader::lookup::{Bucket, BucketLookup, IndexLookup};
use arc_reader::resource::{ResourceTableHeader, ResourceTables};

fn zero_hash() -> arc_reader::hash::Hash {
    arc_reader::hash::Hash { crc: 0, len: 0 }
}

fn empty_header() -> ResourceTableHeader {
    ResourceTableHeader {
        resource_data_size: 0,
        file_path_count: 0,
        file_entity_count: 0,
        file_package_count: 0,
        file_data_group_count: 0,
        file_package_child_count: 0,
        file_package_info_count: 0,
        file_package_desc_count: 0,
        file_package_data_count: 0,
        file_info_group_count: 0,
        file_group_info_count: 0,
        locale_count: 14,
        region_count: 5,
        version_patch: 1,
        version_minor: 0,
        version_major: 13,
        versioned_file_group_count: 0,
        versioned_file_count: 0,
        versioned_file_info_count: 0,
        versioned_file_desc_count: 0,
        versioned_file_data_count: 0,
        locale_region: vec![0; 168],
        stream_folder_count: 0,
        stream_path_count: 0,
        stream_desc_count: 0,
        stream_data_count: 0,
    }
}

/// One package, one info, one descriptor, one data record, with the path
/// hashed from a real string.
fn small_tables(path: &str) -> ResourceTables {
    let path_hash = hash40::Hash40::new(path).0;
    let mut header = empty_header();
    header.file_path_count = 1;
    header.file_entity_count = 1;
    header.file_package_count = 1;
    header.file_data_group_count = 1;
    header.file_package_info_count = 1;
    header.file_package_desc_count = 1;
    header.file_package_data_count = 1;
    ResourceTables {
        raw_data: Vec::new(),
        header,
        stream_folder: vec![],
        stream_path_lookup: IndexLookup { entries: vec![] },
        stream_path: vec![],
        stream_desc: vec![],
        stream_data: vec![],
        file_path_lookup: BucketLookup {
            buckets: vec![Bucket { start: 0, len: 1 }],
            entries: vec![HashWithData::new(path_hash, 0)],
        },
        file_path: vec![FilePath {
            path_and_entity: HashWithData::new(path_hash, 0),
            ext_and_version: HashWithData::new(0, INVALID_INDEX),
            parent: zero_hash(),
            file_name: zero_hash(),
        }],
        file_entity: vec![FileEntity { package_or_group: 0, info: 0 }],
        file_package_lookup: IndexLookup { entries: vec![HashWithData::new(0x4_0000_0111, 0)] },
        file_package: vec![FilePackage {
            path_and_group: HashWithData::new(0x4_0000_0111, 0),
            name: zero_hash(),
            parent: zero_hash(),
            lifetime: zero_hash(),
            info_start: 0,
            info_count: 1,
            child_start: INVALID_INDEX,
            child_count: 0,
            flags: 0,
        }],
        file_group: vec![FileGroup {
            archive_offset_lo: 0,
            archive_offset_hi: 0,
            decompressed_size: 4,
            compressed_size: 4,
            child_start: 0,
            child_count: 1,
            redirection: INVALID_INDEX,
        }],
        file_package_child: vec![],
        file_info: vec![FileInfo { path: 0, entity: 0, desc: 0, flags: 0 }],
        file_desc: vec![FileDesc { group: 0, file_data: 0, load_method: 0 }],
        file_data: vec![FileData {
            in_group_offset: 0,
            compressed_size: 4,
            decompressed_size: 4,
            flags: 3,
        }],
    }
}

fn push_u32(out: &mut Vec<u8>, x: u32) {
    out.extend_from_slice(&x.to_le_bytes());
}

fn push_u64(out: &mut Vec<u8>, x: u64) {
    out.extend_from_slice(&x.to_le_bytes());
}

/// Wraps a resource section in the outer container: metadata, then the
/// compressed-block header, then the ZSTD stream.
fn wrap_container(section: &[u8]) -> Vec<u8> {
    let compressed = zstd::stream::encode_all(section, 3).expect("compression should work");
    let mut file = Vec::new();
    push_u64(&mut file, 0xABCD_EF98_7654_3210);
    push_u64(&mut file, 0); // stream data offset
    push_u64(&mut file, 0); // file data offset
    push_u64(&mut file, 0); // shared file data offset
    push_u64(&mut file, 56); // resource table offset: right after the metadata
    push_u64(&mut file, 0); // user table offset
    push_u64(&mut file, 0); // unknown table offset
    push_u32(&mut file, 0x10);
    push_u32(&mut file, section.len() as u32);
    push_u32(&mut file, compressed.len() as u32);
    push_u32(&mut file, 0x10 + compressed.len() as u32);
    file.extend_from_slice(&compressed);
    file
}

#[test]
fn archive_reads_through_the_container() {
    let t = small_tables("fighter/mario/model/body/c00/model.numdlb");
    let section = t.quick_serialize();
    let file = wrap_container(&section);
    let arch = Archive::read_from_bytes(&file).expect("the container should read");
    assert_eq!(arch.num_file_package(), 1);
    assert_eq!(arch.num_file_group(), 1);
    assert_eq!(arch.num_file_info(), 1);
    assert_eq!(arch.num_file_path(), 1);
    assert_eq!(arch.metadata.resource_table_offset, 56);
    assert_eq!(arch.resource.raw_data, section);
}

#[test]
fn lookup_by_string_hashes_the_path() {
    let path = "fighter/mario/model/body/c00/model.numdlb";
    let t = small_tables(path);
    let arch = Archive::from_tables(t);
    let found = arch.lookup_file_path_str(path).expect("the path should be found");
    // the stored record carries the same 40-bit hash the outside crate computes
    assert_eq!(found.path(), hash40::Hash40::new(path).0);
    assert!(arch.lookup_file_path_str("no/such/path").is_none());
    // the raw-hash lookup agrees
    let by_hash = arch.lookup_file_path(hash40::Hash40::new(path).0);
    assert!(by_hash.is_some());
    assert_eq!(arch.lookup_file_package(0x4_0000_0111).unwrap().index(), 0);
    assert!(arch.lookup_stream_path(1).is_none());
}

#[test]
fn archive_rejects_a_bad_magic() {
    let t = small_tables("a");
    let mut file = wrap_container(&t.quick_serialize());
    file[0] = 0;
    assert_eq!(Archive::read_from_bytes(&file).unwrap_err(), ArcError::BadMagic);
}

#[test]
fn archive_rejects_a_bad_block_size() {
    let t = small_tables("a");
    let mut file = wrap_container(&t.quick_serialize());
    file[56] = 0x20;
    assert_eq!(Archive::read_from_bytes(&file).unwrap_err(), ArcError::BadBlockSize);
}

#[test]
fn archive_rejects_a_decompressed_size_mismatch() {
    let t = small_tables("a");
    let section = t.quick_serialize();
    let mut file = wrap_container(&section);
    // declare one byte fewer than the stream decompresses to
    let wrong = (section.len() - 1) as u32;
    file[60..64].copy_from_slice(&wrong.to_le_bytes());
    assert_eq!(Archive::read_from_bytes(&file).unwrap_err(), ArcError::SizeMismatch);
}

#[test]
fn archive_rejects_garbage_compression() {
    let t = small_tables("a");
    let section = t.quick_serialize();
    let mut file = wrap_container(&section);
    // corrupt the first bytes of the ZSTD stream
    file[72] = 0xFF;
    file[73] = 0xFF;
    file[74] = 0xFF;
    file[75] = 0xFF;
    assert_eq!(Archive::read_from_bytes(&file).unwrap_err(), ArcError::DecompressFailed);
}

#[test]
fn archive_rejects_truncated_containers() {
    assert_eq!(Archive::read_from_bytes(&[]).unwrap_err(), ArcError::Truncated);
    let t = small_tables("a");
    let file = wrap_container(&t.quick_serialize());
    assert_eq!(
        Archive::read_from_bytes(&file[..60]).unwrap_err(),
        ArcError::Truncated
    );
}

#[test]
fn serialize_tables_yields_old_and_new_bytes() {
    let t = small_tables("a");
    let section = t.quick_serialize();
    let file = wrap_container(&section);
    let arch = Archive::read_from_bytes(&file).expect("the container should read");
    let (old_bytes, new_bytes) = arch.serialize_tables().expect("re-serialization should work");
    assert_eq!(old_bytes, &section[..]);
    let out = ResourceTables::from_bytes(new_bytes).expect("the new bytes should load");
    assert_eq!(out.file_package.len(), 1);
    assert_eq!(out.file_desc[0].load_method, 0);
}

#[test]
fn string_hashing_matches_the_crc_form() {
    // the wrapper computes the same packed value the outside crate defines
    assert_eq!(
        arc_reader::outside::hash40_of_str("fighter"),
        hash40::Hash40::new("fighter").0
    );
    assert_eq!(arc_reader::outside::hash40_of_str(""), hash40::Hash40::new("").0);
    // 40-bit form: length in the fifth byte
    let h = arc_reader::outside::hash40_of_str("abc");
    assert_eq!(h >> 32, 3);
}
