//! Unit tests for the index primitives, the hash composites, the load-method
//! words, and the serialization state.

use arc_reader::data::file_desc::LoadMethod;
use arc_reader::hash::HashWithData;
use arc_reader::index::{checked_range, INVALID_INDEX};
use arc_reader::lookup::{Bucket, BucketLookup, IndexLookup};
use arc_reader::serialization::{SerState, TableKind};

#[test]
fn checked_range_normal() {
    let r = checked_range(10, 5);
    assert_eq!(r, 10..15);
}

#[test]
fn checked_range_zero_count() {
    let r = checked_range(7, 0);
    assert_eq!(r, 7..7);
}

#[test]
fn checked_range_reaching_sentinel_is_empty() {
    let r = checked_range(INVALID_INDEX - 1, 1);
    assert_eq!(r, 0..0);
    let r = checked_range(INVALID_INDEX, 0);
    assert_eq!(r, 0..0);
    let r = checked_range(0xFFFF_FFFF, 0xFFFF_FFFF);
    assert_eq!(r, 0..0);
}

#[test]
fn hash_packs_crc_and_length() {
    let h = arc_reader::hash::Hash { crc: 0xDEAD_BEEF, len: 7 };
    assert_eq!(h.hash40(), 0x7_DEAD_BEEF);
    assert_eq!(h.length(), 7);
    let back = arc_reader::hash::Hash::from_hash40(0x7_DEAD_BEEF);
    assert_eq!(back.crc, 0xDEAD_BEEF);
    assert_eq!(back.len, 7);
}

#[test]
fn hash_with_data_packs_all_three_parts() {
    let h = HashWithData::new(0x7_DEAD_BEEF, 0x123456);
    assert_eq!(h.crc, 0xDEAD_BEEF);
    assert_eq!(h.length(), 7);
    assert_eq!(h.data(), 0x123456);
    assert_eq!(h.hash40(), 0x7_DEAD_BEEF);
    assert_eq!(h.len_and_data, 0x1234_5607);
}

#[test]
fn hash_with_data_set_data_keeps_hash() {
    let mut h = HashWithData::new(0x7_DEAD_BEEF, 0x123456);
    h.set_data(0xABCDEF);
    assert_eq!(h.data(), 0xABCDEF);
    assert_eq!(h.hash40(), 0x7_DEAD_BEEF);
    let w = h.with_data(INVALID_INDEX);
    assert_eq!(w.data(), INVALID_INDEX);
    assert_eq!(w.hash40(), 0x7_DEAD_BEEF);
}

#[test]
fn hash_with_data_set_hash_keeps_data() {
    let mut h = HashWithData::new(0x7_DEAD_BEEF, 0x123456);
    h.set_hash40(0x3_0000_1111);
    assert_eq!(h.data(), 0x123456);
    assert_eq!(h.hash40(), 0x3_0000_1111);
}

#[test]
fn load_method_decodes_every_permitted_tag() {
    assert_eq!(LoadMethod::decode(0x0000_0042), Ok(LoadMethod::Unowned(0x42)));
    assert_eq!(LoadMethod::decode(0x0100_0042), Ok(LoadMethod::Owned(0x42)));
    assert_eq!(LoadMethod::decode(0x0300_0007), Ok(LoadMethod::PackageSkip(7)));
    assert_eq!(LoadMethod::decode(0x0500_0000), Ok(LoadMethod::Unknown));
    assert_eq!(LoadMethod::decode(0x0900_0001), Ok(LoadMethod::SharedButOwned(1)));
    assert_eq!(
        LoadMethod::decode(0x1000_0003),
        Ok(LoadMethod::UnsupportedRegionLocale(3))
    );
}

#[test]
fn load_method_rejects_unpermitted_tags() {
    assert_eq!(
        LoadMethod::decode(0x0200_0000),
        Err(arc_reader::err::ArcError::CorruptTag)
    );
    assert_eq!(
        LoadMethod::decode(0xFF00_0000),
        Err(arc_reader::err::ArcError::CorruptTag)
    );
}

#[test]
fn load_method_encodes_back() {
    assert_eq!(LoadMethod::Unowned(0x42).encode(), 0x0000_0042);
    assert_eq!(LoadMethod::Owned(INVALID_INDEX).encode(), 0x01FF_FFFF);
    assert_eq!(LoadMethod::Unknown.encode(), 0x0500_0000);
}

#[test]
fn error_descriptions_name_each_kind() {
    assert_eq!(
        arc_reader::err::ArcError::BadLocaleCount.describe(),
        "expected 14 locales"
    );
    assert_eq!(
        arc_reader::err::ArcError::BadRegionCount.describe(),
        "expected 5 regions"
    );
}

#[test]
fn reservation_assigns_dense_indices_in_insertion_order() {
    let mut s = SerState::new();
    assert!(s.reserve(TableKind::FileData, 5));
    assert!(s.reserve(TableKind::FileData, 3));
    assert!(s.reserve(TableKind::FileData, 9));
    assert_eq!(s.get(TableKind::FileData, 5), Some(0));
    assert_eq!(s.get(TableKind::FileData, 3), Some(1));
    assert_eq!(s.get(TableKind::FileData, 9), Some(2));
    assert_eq!(s.get(TableKind::FileData, 4), None);
    assert_eq!(s.get(TableKind::FileData, INVALID_INDEX), Some(INVALID_INDEX));
    assert_eq!(s.try_get(TableKind::FileData, INVALID_INDEX), None);
    assert_eq!(s.try_get(TableKind::FileData, 3), Some(1));
}

#[test]
fn reserving_twice_is_refused_where_uniqueness_is_required() {
    let mut s = SerState::new();
    assert!(s.reserve(TableKind::FileInfo, 2));
    assert!(!s.reserve(TableKind::FileInfo, 2));
    assert_eq!(s.try_reserve(TableKind::FileData, 2), Some(true));
    assert_eq!(s.try_reserve(TableKind::FileData, 2), Some(false));
    assert_eq!(s.try_reserve(TableKind::FileData, INVALID_INDEX), Some(false));
}

#[test]
fn range_reservation_is_contiguous_and_checked() {
    let mut s = SerState::new();
    assert!(s.reserve_range(TableKind::FileDesc, 10, 3));
    assert_eq!(s.get(TableKind::FileDesc, 10), Some(0));
    assert_eq!(s.get(TableKind::FileDesc, 11), Some(1));
    assert_eq!(s.get(TableKind::FileDesc, 12), Some(2));
    // a sentinel start demands a zero count
    assert!(s.reserve_range(TableKind::FileDesc, INVALID_INDEX, 0));
    assert!(!s.reserve_range(TableKind::FileDesc, INVALID_INDEX, 1));
    // a range that would reach the sentinel is empty and reserves nothing
    assert!(s.reserve_range(TableKind::FileDesc, INVALID_INDEX - 1, 2));
    assert_eq!(s.get(TableKind::FileDesc, INVALID_INDEX - 1), None);
    // overlap with an existing reservation is refused
    assert!(!s.reserve_range(TableKind::FileDesc, 12, 2));
}

#[test]
fn index_lookup_scans_in_order() {
    let lk = IndexLookup {
        entries: vec![
            HashWithData::new(0x1_0000_0001, 7),
            HashWithData::new(0x2_0000_0002, 9),
        ],
    };
    assert_eq!(lk.get(0x1_0000_0001), Some(7));
    assert_eq!(lk.get(0x2_0000_0002), Some(9));
    assert_eq!(lk.get(0x3_0000_0003), None);
    assert_eq!(lk.len(), 2);
}

#[test]
fn bucket_lookup_routes_by_modulus() {
    // two buckets: hashes route by value modulo the bucket count
    let lk = BucketLookup {
        buckets: vec![Bucket { start: 0, len: 1 }, Bucket { start: 1, len: 1 }],
        entries: vec![
            HashWithData::new(0x10, 3),  // 0x10 % 2 == 0
            HashWithData::new(0x11, 4),  // 0x11 % 2 == 1
        ],
    };
    assert_eq!(lk.get(0x10), Some(3));
    assert_eq!(lk.get(0x11), Some(4));
    assert_eq!(lk.get(0x12), None);
    assert_eq!(lk.len(), 2);
    assert_eq!(lk.bucket_count(), 2);
}
