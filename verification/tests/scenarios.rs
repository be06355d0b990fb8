//! Re-serialization scenarios: small archives built record by record, pushed
//! through the re-serializer, and loaded back.

use arc_reader::data::file_data::FileData;
use arc_reader::data::file_desc::FileDesc;
use arc_reader::data::file_entity::FileEntity;
use arc_reader::data::file_group::FileGroup;
use arc_reader::data::file_info::FileInfo;
use arc_reader::data::file_package::{FilePackage, HAS_SUB_PACKAGE, IS_SYM_LINK};
use arc_reader::data::file_path::FilePath;
use arc_reader::err::ArcError;
use arc_reader::hash::HashWithData;
use arc_reader::index::INVALID_INDEX;
use arc_reader::lookup::{Bucket, BucketLookup, IndexLookup};
use arc_reader::data::stream_data::StreamData;
use arc_reader::data::stream_desc::StreamDesc;
use arc_reader::data::stream_folder::StreamFolder;
use arc_reader::data::stream_path::StreamPath;
use arc_reader::resource::{ResourceTableHeader, ResourceTables};

fn zero_hash() -> arc_reader::hash::Hash {
    arc_reader::hash::Hash { crc: 0, len: 0 }
}

fn empty_header() -> ResourceTableHeader {
    ResourceTableHeader {
        resource_data_size: 0,
        file_path_count: 0,
        file_entity_count: 0,
        file_package_count: 0,
        file_data_group_count: 0,
        file_package_child_count: 0,
        file_package_info_count: 0,
        file_package_desc_count: 0,
        file_package_data_count: 0,
        file_info_group_count: 0,
        file_group_info_count: 0,
        locale_count: 14,
        region_count: 5,
        version_patch: 1,
        version_minor: 0,
        version_major: 13,
        versioned_file_group_count: 0,
        versioned_file_count: 0,
        versioned_file_info_count: 0,
        versioned_file_desc_count: 0,
        versioned_file_data_count: 0,
        locale_region: vec![0; 168],
        stream_folder_count: 0,
        stream_path_count: 0,
        stream_desc_count: 0,
        stream_data_count: 0,
    }
}

fn empty_tables() -> ResourceTables {
    ResourceTables {
        raw_data: Vec::new(),
        header: empty_header(),
        stream_folder: vec![],
        stream_path_lookup: IndexLookup { entries: vec![] },
        stream_path: vec![],
        stream_desc: vec![],
        stream_data: vec![],
        file_path_lookup: BucketLookup { buckets: vec![], entries: vec![] },
        file_path: vec![],
        file_entity: vec![],
        file_package_lookup: IndexLookup { entries: vec![] },
        file_package: vec![],
        file_group: vec![],
        file_package_child: vec![],
        file_info: vec![],
        file_desc: vec![],
        file_data: vec![],
    }
}

fn plain_package(group_start: u32, info_start: u32, info_count: u32, flags: u32) -> FilePackage {
    FilePackage {
        path_and_group: HashWithData::new(0x4_0000_0111, group_start),
        name: zero_hash(),
        parent: zero_hash(),
        lifetime: zero_hash(),
        info_start,
        info_count,
        child_start: INVALID_INDEX,
        child_count: 0,
        flags,
    }
}

fn data_group(child_start: u32, child_count: u32, redirection: u32) -> FileGroup {
    FileGroup {
        archive_offset_lo: 0x100,
        archive_offset_hi: 0,
        decompressed_size: 0x40,
        compressed_size: 0x40,
        child_start,
        child_count,
        redirection,
    }
}

fn leaf_data() -> FileData {
    FileData { in_group_offset: 0, compressed_size: 4, decompressed_size: 4, flags: 0x3 }
}

/// One package, one info, one descriptor, one data record.
fn s1_tables(load_method: u32) -> ResourceTables {
    let mut t = empty_tables();
    t.file_package = vec![plain_package(0, 0, 1, 0)];
    t.file_group = vec![data_group(0, 1, INVALID_INDEX)];
    t.file_info = vec![FileInfo { path: 0, entity: 0, desc: 0, flags: 0 }];
    t.file_desc = vec![FileDesc { group: 0, file_data: 0, load_method }];
    t.file_data = vec![leaf_data()];
    t.file_path = vec![FilePath {
        path_and_entity: HashWithData::new(0x3_0000_0AAA, 0),
        ext_and_version: HashWithData::new(0x2_0000_0BBB, 0x123),
        parent: zero_hash(),
        file_name: zero_hash(),
    }];
    t.file_entity = vec![FileEntity { package_or_group: 0, info: 0 }];
    t.file_package_lookup = IndexLookup { entries: vec![HashWithData::new(0x4_0000_0111, 0)] };
    t.file_path_lookup = BucketLookup {
        buckets: vec![Bucket { start: 0, len: 1 }],
        entries: vec![HashWithData::new(0x3_0000_0AAA, 0)],
    };
    t.header.file_path_count = 1;
    t.header.file_entity_count = 1;
    t.header.file_package_count = 1;
    t.header.file_data_group_count = 1;
    t.header.file_package_info_count = 1;
    t.header.file_package_desc_count = 1;
    t.header.file_package_data_count = 1;
    t
}

#[test]
fn s1_singleton_archive_compacts_to_zero_indices() {
    let t = s1_tables(0x0000_0000);
    let bytes = t.into_bytes().expect("re-serialization should succeed");
    let out = ResourceTables::from_bytes(bytes).expect("output should load");
    assert_eq!(out.file_package.len(), 1);
    assert_eq!(out.file_group.len(), 1);
    assert_eq!(out.file_info.len(), 1);
    assert_eq!(out.file_desc.len(), 1);
    assert_eq!(out.file_data.len(), 1);
    assert_eq!(out.file_path.len(), 1);
    assert_eq!(out.file_entity.len(), 1);
    assert_eq!(out.file_package[0].info_start, 0);
    assert_eq!(out.file_package[0].path_and_group.data(), 0);
    assert_eq!(out.file_group[0].child_start, 0);
    assert_eq!(out.file_info[0].path, 0);
    assert_eq!(out.file_info[0].entity, 0);
    assert_eq!(out.file_info[0].desc, 0);
    assert_eq!(out.file_desc[0].group, 0);
    assert_eq!(out.file_desc[0].file_data, 0);
    assert_eq!(out.file_desc[0].load_method, 0x0000_0000);
    assert_eq!(out.file_entity[0].package_or_group, 0);
    assert_eq!(out.file_entity[0].info, 0);
}

#[test]
fn s2_owned_load_method_payload_is_erased() {
    let t = s1_tables(0x0100_0042);
    let bytes = t.into_bytes().expect("re-serialization should succeed");
    let out = ResourceTables::from_bytes(bytes).expect("output should load");
    assert_eq!(out.file_desc[0].load_method, 0x01FF_FFFF);
}

#[test]
fn s3_localized_info_keeps_fifteen_descriptors() {
    let mut t = s1_tables(0);
    t.file_info = vec![FileInfo {
        path: 0,
        entity: 0,
        desc: 0,
        flags: arc_reader::data::file_info::IS_LOCALIZED,
    }];
    t.file_desc = (0..15).map(|_| FileDesc { group: 0, file_data: 0, load_method: 0 }).collect();
    t.header.file_package_desc_count = 15;
    let bytes = t.into_bytes().expect("re-serialization should succeed");
    let out = ResourceTables::from_bytes(bytes).expect("output should load");
    assert_eq!(out.file_desc.len(), 15);
    let range = out.file_info[0].descriptor_range();
    assert_eq!(range.len(), 15);
    assert_eq!(range, 0..15);
}

#[test]
fn s4_sym_link_resolves_to_the_new_dense_index() {
    let mut t = empty_tables();
    // package 0 is a symlink whose data-group redirects to package 1
    let mut p0 = plain_package(0, 0, 1, HAS_SUB_PACKAGE | IS_SYM_LINK);
    p0.path_and_group = HashWithData::new(0x4_0000_0111, 0);
    let p1 = FilePackage {
        path_and_group: HashWithData::new(0x4_0000_0222, 1),
        info_start: 1,
        ..plain_package(1, 1, 1, 0)
    };
    t.file_package = vec![p0, p1];
    t.file_group = vec![data_group(0, 1, 1), data_group(1, 1, INVALID_INDEX)];
    t.file_info = vec![
        FileInfo { path: 0, entity: 0, desc: 0, flags: 0 },
        FileInfo { path: 1, entity: 1, desc: 1, flags: 0 },
    ];
    t.file_desc = vec![
        FileDesc { group: 0, file_data: 0, load_method: 0 },
        FileDesc { group: 1, file_data: 1, load_method: 1 },
    ];
    t.file_data = vec![leaf_data(), leaf_data()];
    t.file_path = vec![
        FilePath {
            path_and_entity: HashWithData::new(0x3_0000_0AAA, 0),
            ext_and_version: HashWithData::new(0, INVALID_INDEX),
            parent: zero_hash(),
            file_name: zero_hash(),
        },
        FilePath {
            path_and_entity: HashWithData::new(0x3_0000_0CCC, 1),
            ext_and_version: HashWithData::new(0, INVALID_INDEX),
            parent: zero_hash(),
            file_name: zero_hash(),
        },
    ];
    t.file_entity = vec![
        FileEntity { package_or_group: 0, info: 0 },
        FileEntity { package_or_group: 1, info: 1 },
    ];
    t.file_package_lookup = IndexLookup {
        entries: vec![
            HashWithData::new(0x4_0000_0111, 0),
            HashWithData::new(0x4_0000_0222, 1),
        ],
    };
    t.file_path_lookup = BucketLookup {
        buckets: vec![Bucket { start: 0, len: 2 }],
        entries: vec![
            HashWithData::new(0x3_0000_0AAA, 0),
            HashWithData::new(0x3_0000_0CCC, 1),
        ],
    };
    t.header.file_path_count = 2;
    t.header.file_entity_count = 2;
    t.header.file_package_count = 2;
    t.header.file_data_group_count = 2;
    t.header.file_package_info_count = 2;
    t.header.file_package_desc_count = 2;
    t.header.file_package_data_count = 2;

    let bytes = t.into_bytes().expect("re-serialization should succeed");
    let out = ResourceTables::from_bytes(bytes).expect("output should load");
    // the symlink's data-group redirection was rewritten through the package map
    assert_eq!(out.file_group[0].redirection, 1);
    let arch = arc_reader::archive::Archive::from_tables(out);
    let p = arch.get_file_package(0).expect("package 0 should exist");
    let link = p
        .get_sym_link()
        .expect("a well-formed symlink is no hard error")
        .expect("the symlink should resolve");
    assert_eq!(link.index(), 1);
    match p.sub_package() {
        Ok(Some(arc_reader::archive::SubPackageRef::SymLink(target))) => {
            assert_eq!(target.index(), 1);
        }
        _ => panic!("expected a symlink subpackage"),
    }
    // package 1 has no subpackage flag: legitimately nothing, not an error
    let p1 = arch.get_file_package(1).expect("package 1 should exist");
    assert!(matches!(p1.get_sym_link(), Ok(None)));
    assert!(matches!(p1.sub_package(), Ok(None)));
}

#[test]
fn s5_descriptors_sharing_data_stay_shared() {
    let mut t = empty_tables();
    t.file_package = vec![plain_package(0, 0, 2, 0)];
    t.file_group = vec![data_group(0, 1, INVALID_INDEX)];
    t.file_info = vec![
        FileInfo { path: 0, entity: 0, desc: 0, flags: 0 },
        FileInfo { path: 1, entity: 1, desc: 1, flags: 0 },
    ];
    // both descriptors point at the same file data
    t.file_desc = vec![
        FileDesc { group: 0, file_data: 0, load_method: 0 },
        FileDesc { group: 0, file_data: 0, load_method: 1 },
    ];
    t.file_data = vec![leaf_data()];
    t.file_path = vec![
        FilePath {
            path_and_entity: HashWithData::new(0x3_0000_0AAA, 0),
            ext_and_version: HashWithData::new(0, INVALID_INDEX),
            parent: zero_hash(),
            file_name: zero_hash(),
        },
        FilePath {
            path_and_entity: HashWithData::new(0x3_0000_0CCC, 1),
            ext_and_version: HashWithData::new(0, INVALID_INDEX),
            parent: zero_hash(),
            file_name: zero_hash(),
        },
    ];
    t.file_entity = vec![
        FileEntity { package_or_group: 0, info: 0 },
        FileEntity { package_or_group: 0, info: 1 },
    ];
    t.file_package_lookup = IndexLookup { entries: vec![HashWithData::new(0x4_0000_0111, 0)] };
    t.file_path_lookup = BucketLookup {
        buckets: vec![Bucket { start: 0, len: 2 }],
        entries: vec![
            HashWithData::new(0x3_0000_0AAA, 0),
            HashWithData::new(0x3_0000_0CCC, 1),
        ],
    };
    t.header.file_path_count = 2;
    t.header.file_entity_count = 2;
    t.header.file_package_count = 1;
    t.header.file_data_group_count = 1;
    t.header.file_package_info_count = 2;
    t.header.file_package_desc_count = 2;
    t.header.file_package_data_count = 1;

    let bytes = t.into_bytes().expect("re-serialization should succeed");
    let out = ResourceTables::from_bytes(bytes).expect("output should load");
    assert_eq!(out.file_data.len(), 1);
    assert_eq!(out.file_desc[0].file_data, out.file_desc[1].file_data);
}

#[test]
fn s6_bucket_directory_is_preserved_verbatim() {
    let mut t = s1_tables(0);
    // two paths, hashed into the first and the last of 0x400 buckets
    t.file_path = vec![
        FilePath {
            path_and_entity: HashWithData::new(0x400, 0),  // 0x400 % 0x400 == 0x000
            ext_and_version: HashWithData::new(0, INVALID_INDEX),
            parent: zero_hash(),
            file_name: zero_hash(),
        },
        FilePath {
            path_and_entity: HashWithData::new(0x3FF, 1),  // 0x3FF % 0x400 == 0x3FF
            ext_and_version: HashWithData::new(0, INVALID_INDEX),
            parent: zero_hash(),
            file_name: zero_hash(),
        },
    ];
    t.file_entity = vec![
        FileEntity { package_or_group: 0, info: 0 },
        FileEntity { package_or_group: 0, info: 0 },
    ];
    let mut buckets = vec![Bucket { start: 0, len: 0 }; 0x400];
    buckets[0x000] = Bucket { start: 0, len: 1 };
    buckets[0x3FF] = Bucket { start: 1, len: 1 };
    t.file_path_lookup = BucketLookup {
        buckets,
        entries: vec![HashWithData::new(0x400, 0), HashWithData::new(0x3FF, 1)],
    };
    t.header.file_path_count = 2;
    t.header.file_entity_count = 2;

    let input_buckets = t.file_path_lookup.buckets.clone();
    let bytes = t.into_bytes().expect("re-serialization should succeed");
    let out = ResourceTables::from_bytes(bytes).expect("output should load");
    assert_eq!(out.file_path_lookup.buckets, input_buckets);
    assert_eq!(out.file_path_lookup.entries.len(), 2);
    assert_eq!(out.file_path_lookup.entries[0].hash40(), 0x400);
    assert_eq!(out.file_path_lookup.entries[1].hash40(), 0x3FF);
    assert_eq!(out.file_path_lookup.get(0x400), Some(0));
    assert_eq!(out.file_path_lookup.get(0x3FF), Some(1));
}

#[test]
fn version_link_is_erased_on_reserialization() {
    let t = s1_tables(0);
    assert_eq!(t.file_path[0].ext_and_version.data(), 0x123);
    let bytes = t.into_bytes().expect("re-serialization should succeed");
    let out = ResourceTables::from_bytes(bytes).expect("output should load");
    assert_eq!(out.file_path[0].ext_and_version.data(), INVALID_INDEX);
    // the extension hash itself is kept
    assert_eq!(out.file_path[0].ext_and_version.hash40(), 0x2_0000_0BBB);
}

#[test]
fn corrupt_load_method_tag_is_reported() {
    let t = s1_tables(0x0200_0000);
    assert_eq!(t.into_bytes(), Err(ArcError::CorruptTag));
}

#[test]
fn overlapping_unique_ranges_are_a_corrupt_graph() {
    let mut t = s1_tables(0);
    // two packages claiming the same file info range
    t.file_package = vec![plain_package(0, 0, 1, 0), plain_package(0, 0, 1, 0)];
    t.header.file_package_count = 2;
    t.file_package_lookup = IndexLookup {
        entries: vec![
            HashWithData::new(0x4_0000_0111, 0),
            HashWithData::new(0x4_0000_0111, 1),
        ],
    };
    assert_eq!(t.into_bytes(), Err(ArcError::CorruptGraph));
}

#[test]
fn reference_to_a_missing_group_is_a_corrupt_graph() {
    let mut t = s1_tables(0);
    t.file_package[0].path_and_group.set_data(5);
    assert_eq!(t.into_bytes(), Err(ArcError::CorruptGraph));
}

#[test]
fn quick_serialize_round_trips_through_the_loader() {
    let t = s1_tables(0x0100_0042);
    let bytes = t.quick_serialize();
    let out = ResourceTables::from_bytes(bytes).expect("verbatim output should load");
    assert_eq!(out.file_package, t.file_package);
    assert_eq!(out.file_group, t.file_group);
    assert_eq!(out.file_info, t.file_info);
    assert_eq!(out.file_desc, t.file_desc);
    assert_eq!(out.file_data, t.file_data);
    assert_eq!(out.file_path, t.file_path);
    assert_eq!(out.file_entity, t.file_entity);
    assert_eq!(out.file_path_lookup.buckets, t.file_path_lookup.buckets);
    assert_eq!(out.file_path_lookup.entries, t.file_path_lookup.entries);
    assert_eq!(out.file_package_lookup.entries, t.file_package_lookup.entries);
    assert_eq!(out.header.file_path_count, 1);
    assert_eq!(out.header.locale_count, 14);
    assert_eq!(out.header.region_count, 5);
    assert_eq!(out.header.version_major, 13);
    // nothing was rewritten: the version link is still the input's
    assert_eq!(out.file_path[0].ext_and_version.data(), 0x123);
}

#[test]
fn loader_rejects_wrong_locale_and_region_counts() {
    let t = s1_tables(0);
    let mut bytes = t.quick_serialize();
    bytes[56] = 13;
    assert_eq!(ResourceTables::from_bytes(bytes.clone()).unwrap_err(), ArcError::BadLocaleCount);
    bytes[56] = 14;
    bytes[57] = 6;
    assert_eq!(ResourceTables::from_bytes(bytes).unwrap_err(), ArcError::BadRegionCount);
}

#[test]
fn loader_rejects_truncated_input() {
    assert_eq!(ResourceTables::from_bytes(vec![]).unwrap_err(), ArcError::Truncated);
    let t = s1_tables(0);
    let mut bytes = t.quick_serialize();
    bytes.truncate(bytes.len() - 1);
    assert_eq!(ResourceTables::from_bytes(bytes).unwrap_err(), ArcError::Truncated);
}

#[test]
fn stream_tables_are_reserialized_in_folder_order() {
    let mut t = s1_tables(0);
    t.stream_folder = vec![StreamFolder {
        name_and_child_count: HashWithData::new(0x2_0000_0F01, 1),
        child_start_index: 0,
    }];
    t.stream_path = vec![StreamPath { path_and_desc: HashWithData::new(0x5_0000_0E01, 0), flags: 0 }];
    t.stream_desc = vec![StreamDesc { stream_data: 0 }];
    t.stream_data = vec![StreamData { size: 100, offset: 0x4000 }];
    t.stream_path_lookup = IndexLookup { entries: vec![HashWithData::new(0x5_0000_0E01, 0)] };
    t.header.stream_folder_count = 1;
    t.header.stream_path_count = 1;
    t.header.stream_desc_count = 1;
    t.header.stream_data_count = 1;
    let bytes = t.into_bytes().expect("re-serialization should succeed");
    let out = ResourceTables::from_bytes(bytes).expect("output should load");
    assert_eq!(out.stream_folder.len(), 1);
    assert_eq!(out.stream_path.len(), 1);
    assert_eq!(out.stream_desc.len(), 1);
    assert_eq!(out.stream_data.len(), 1);
    assert_eq!(out.stream_folder[0].child_start_index, 0);
    assert_eq!(out.stream_path[0].path_and_desc.data(), 0);
    assert_eq!(out.stream_desc[0].stream_data, 0);
    assert_eq!(out.stream_data[0].size, 100);
    assert_eq!(out.stream_data[0].offset, 0x4000);
    assert_eq!(out.stream_path_lookup.entries[0].hash40(), 0x5_0000_0E01);
}

#[test]
fn fan_out_counts_follow_the_flags() {
    // file info: 15 / 6 / 1
    let localized = FileInfo { path: 0, entity: 0, desc: 0, flags: arc_reader::data::file_info::IS_LOCALIZED };
    assert_eq!(localized.descriptor_range(), 0..15);
    let regional = FileInfo { path: 0, entity: 0, desc: 10, flags: arc_reader::data::file_info::IS_REGIONAL };
    assert_eq!(regional.descriptor_range(), 10..16);
    let plain = FileInfo { path: 0, entity: 0, desc: 3, flags: 0 };
    assert_eq!(plain.descriptor_range(), 3..4);
    // stream path: 14 / 5 / 1
    let sp_loc = StreamPath { path_and_desc: HashWithData::new(0, 0), flags: arc_reader::data::stream_path::IS_LOCALIZED };
    assert_eq!(sp_loc.descriptor_range(), 0..14);
    let sp_reg = StreamPath { path_and_desc: HashWithData::new(0, 2), flags: arc_reader::data::stream_path::IS_REGIONAL };
    assert_eq!(sp_reg.descriptor_range(), 2..7);
    let sp_plain = StreamPath { path_and_desc: HashWithData::new(0, 2), flags: 0 };
    assert_eq!(sp_plain.descriptor_range(), 2..3);
    // package data groups: 15 / 6 / 1
    let pk_loc = plain_package(0, 0, 0, arc_reader::data::file_package::IS_LOCALIZED);
    assert_eq!(pk_loc.data_group_range(), 0..15);
    let pk_reg = plain_package(4, 0, 0, arc_reader::data::file_package::IS_REGIONAL);
    assert_eq!(pk_reg.data_group_range(), 4..10);
    let pk_plain = plain_package(4, 0, 0, 0);
    assert_eq!(pk_plain.data_group_range(), 4..5);
}

#[test]
fn unresolvable_sym_link_is_a_hard_error() {
    // a symlinked package whose data-group redirection is the sentinel:
    // spec-wise a malformed archive, answered as a corrupt graph, never
    // conflated with a package that merely has no symlink
    let mut t = s1_tables(0);
    t.file_package[0].flags = HAS_SUB_PACKAGE | IS_SYM_LINK;
    let arch = arc_reader::archive::Archive::from_tables(t);
    let p = arch.get_file_package(0).expect("package 0 should exist");
    assert!(matches!(p.get_sym_link(), Err(ArcError::CorruptGraph)));
    assert!(matches!(p.sub_package(), Err(ArcError::CorruptGraph)));
}

#[test]
fn missing_data_group_is_a_hard_error() {
    let mut t = s1_tables(0);
    t.file_package[0].flags = HAS_SUB_PACKAGE | IS_SYM_LINK;
    t.file_package[0].path_and_group.set_data(9);
    let arch = arc_reader::archive::Archive::from_tables(t);
    let p = arch.get_file_package(0).expect("package 0 should exist");
    assert!(matches!(p.get_sym_link(), Err(ArcError::CorruptGraph)));
    assert!(matches!(p.sub_package(), Err(ArcError::CorruptGraph)));
}

#[test]
fn group_form_subpackage_resolves_or_stays_absent() {
    // group-form subpackage: redirection names an info-bearing group
    let mut t = s1_tables(0);
    t.file_package[0].flags = HAS_SUB_PACKAGE;
    t.file_group[0].redirection = 1;
    t.file_group.push(data_group(0, 1, 1));
    t.header.file_data_group_count = 2;
    let arch = arc_reader::archive::Archive::from_tables(t);
    let p = arch.get_file_package(0).expect("package 0 should exist");
    match p.sub_package() {
        Ok(Some(arc_reader::archive::SubPackageRef::FileGroup(g))) => {
            assert_eq!(g.0.index(), 1);
            let infos = g.file_info().expect("the child range lies inside the info table");
            assert_eq!(infos.len(), 1);
            assert_eq!(infos.get(0).path, 0);
        }
        _ => panic!("expected a group-form subpackage"),
    }
    // a symlink flag alone never makes a symlink
    assert!(matches!(p.get_sym_link(), Ok(None)));
}

#[test]
fn group_children_slices_follow_the_checked_range()
{
    let t = s1_tables(0);
    let arch = arc_reader::archive::Archive::from_tables(t);
    let g = arch.get_file_group(0).expect("group 0 should exist");
    // the data-disposition reading: one file data child at index 0
    let data = arc_reader::archive::FileDataGroupRef(g).file_data().expect("range inside table");
    assert_eq!(data.len(), 1);
    assert_eq!(data.get(0).compressed_size, 4);
    // a child range past the table's end yields nothing
    let mut t2 = s1_tables(0);
    t2.file_group[0].child_count = 5;
    let arch2 = arc_reader::archive::Archive::from_tables(t2);
    let g2 = arch2.get_file_group(0).expect("group 0 should exist");
    assert!(arc_reader::archive::FileDataGroupRef(g2).file_data().is_none());
    // an overflow range is empty and starts at zero
    let mut t3 = s1_tables(0);
    t3.file_group[0].child_start = INVALID_INDEX - 1;
    t3.file_group[0].child_count = 2;
    let arch3 = arc_reader::archive::Archive::from_tables(t3);
    let g3 = arch3.get_file_group(0).expect("group 0 should exist");
    let empty = arc_reader::archive::FileDataGroupRef(g3).file_data().expect("empty fits");
    assert_eq!(empty.len(), 0);
}
