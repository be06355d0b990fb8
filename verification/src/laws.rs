//! The laws the re-serializer obeys, proved from the specifications the
//! executable functions are held to.

use crate::data::file_desc::{spec_load_payload, spec_load_tag, FileDesc};
use crate::data::file_entity::FileEntity;
use crate::data::file_group::FileGroup;
use crate::data::file_info::FileInfo;
use crate::data::file_package::{FilePackage, HAS_SUB_PACKAGE, IS_SYM_LINK};
use crate::data::file_path::FilePath;
use crate::data::stream_path::StreamPath;
use crate::hash::spec_hwd_data;
use crate::index::{spec_checked_range, INVALID_INDEX};
use crate::reserialize::{
    pkg_sub_ok, plan_one_package, plan_packages, spec_into_bytes, spec_plan, sv_empty,
    tables_small,
};
use crate::resource::RtView;
use crate::serialization::{sv_get, SerView};
use vstd::prelude::*;

verus! {

/// Law of flag-driven fan-out for file infos: a localized info fans out over
/// fifteen descriptors, a regional one over six, any other over exactly one;
/// and a descriptor range that stays below the sentinel has exactly that many
/// indices.
pub proof fn lemma_file_info_fan_out(info: FileInfo)
    ensures
        info.flags & crate::data::file_info::IS_LOCALIZED != 0 ==> info.spec_descriptor_count()
            == 15,
        info.flags & crate::data::file_info::IS_LOCALIZED == 0 && info.flags
            & crate::data::file_info::IS_REGIONAL != 0 ==> info.spec_descriptor_count() == 6,
        info.flags & crate::data::file_info::IS_LOCALIZED == 0 && info.flags
            & crate::data::file_info::IS_REGIONAL == 0 ==> info.spec_descriptor_count() == 1,
        info.desc + info.spec_descriptor_count() < INVALID_INDEX ==> spec_checked_range(
            info.desc,
            info.spec_descriptor_count(),
        ).len() == info.spec_descriptor_count(),
{
}

/// Law of flag-driven fan-out for stream paths: fourteen, five, or one.
pub proof fn lemma_stream_path_fan_out(path: StreamPath)
    ensures
        path.flags & crate::data::stream_path::IS_LOCALIZED != 0 ==> path.spec_descriptor_count()
            == 14,
        path.flags & crate::data::stream_path::IS_LOCALIZED == 0 && path.flags
            & crate::data::stream_path::IS_REGIONAL != 0 ==> path.spec_descriptor_count() == 5,
        path.flags & crate::data::stream_path::IS_LOCALIZED == 0 && path.flags
            & crate::data::stream_path::IS_REGIONAL == 0 ==> path.spec_descriptor_count() == 1,
        spec_hwd_data(path.path_and_desc.len_and_data) + path.spec_descriptor_count()
            < INVALID_INDEX ==> spec_checked_range(
            spec_hwd_data(path.path_and_desc.len_and_data),
            path.spec_descriptor_count(),
        ).len() == path.spec_descriptor_count(),
{
}

/// Law of flag-driven fan-out for package data groups: fifteen, six, or one.
pub proof fn lemma_file_package_fan_out(pkg: FilePackage)
    ensures
        pkg.flags & crate::data::file_package::IS_LOCALIZED != 0 ==> pkg.spec_data_group_count()
            == 15,
        pkg.flags & crate::data::file_package::IS_LOCALIZED == 0 && pkg.flags
            & crate::data::file_package::IS_REGIONAL != 0 ==> pkg.spec_data_group_count() == 6,
        pkg.flags & crate::data::file_package::IS_LOCALIZED == 0 && pkg.flags
            & crate::data::file_package::IS_REGIONAL == 0 ==> pkg.spec_data_group_count() == 1,
        pkg.spec_data_group_start() + pkg.spec_data_group_count() < INVALID_INDEX
            ==> spec_checked_range(
            pkg.spec_data_group_start(),
            pkg.spec_data_group_count(),
        ).len() == pkg.spec_data_group_count(),
{
}

/// Law of sentinel preservation for descriptors: a rewritten descriptor keeps
/// the sentinel in every field that held it, and an `Owned` load method's
/// payload is unconditionally forced to the sentinel.
pub proof fn lemma_sentinel_preservation_desc(d: FileDesc, s: SerView)
    ensures
        d.spec_rewrite(s) is Ok ==> {
            let w = d.spec_rewrite(s).unwrap();
            &&& (d.group == INVALID_INDEX ==> w.group == INVALID_INDEX)
            &&& (d.file_data == INVALID_INDEX ==> w.file_data == INVALID_INDEX)
            &&& (spec_load_tag(d.load_method) == 0x01 ==> spec_load_payload(w.load_method)
                == INVALID_INDEX)
            &&& (spec_load_tag(d.load_method) == 0x00 && spec_load_payload(d.load_method)
                == INVALID_INDEX ==> spec_load_payload(w.load_method) == INVALID_INDEX)
        },
{
    if d.spec_rewrite(s) is Ok {
        let w = d.spec_rewrite(s).unwrap();
        if spec_load_tag(d.load_method) == 0x01 {
            assert(w.load_method == (0x0100_0000 + INVALID_INDEX) as u32);
            assert(spec_load_payload((0x0100_0000 + INVALID_INDEX) as u32) == INVALID_INDEX);
        }
        if spec_load_tag(d.load_method) == 0x00 && spec_load_payload(d.load_method)
            == INVALID_INDEX {
            assert(w.load_method == (INVALID_INDEX % 0x100_0000) as u32);
            assert(spec_load_payload(w.load_method) == INVALID_INDEX);
        }
    }
}

/// Law of sentinel erasure for paths: a rewritten path's previous-version
/// link is unconditionally the sentinel, and a sentinel entity link is kept.
pub proof fn lemma_sentinel_preservation_path(p: FilePath, s: SerView)
    ensures
        p.spec_rewrite(s) is Ok ==> {
            let w = p.spec_rewrite(s).unwrap();
            &&& spec_hwd_data(w.ext_and_version.len_and_data) == INVALID_INDEX
            &&& (spec_hwd_data(p.path_and_entity.len_and_data) == INVALID_INDEX ==> spec_hwd_data(
                w.path_and_entity.len_and_data,
            ) == INVALID_INDEX)
        },
{
    if p.spec_rewrite(s) is Ok {
        let w = p.spec_rewrite(s).unwrap();
        assert(spec_hwd_data(w.ext_and_version.len_and_data) == INVALID_INDEX % 0x100_0000);
        assert(INVALID_INDEX % 0x100_0000 == INVALID_INDEX);
    }
}

/// Law of sentinel preservation for data-disposition groups: a sentinel
/// redirection stays the sentinel.
pub proof fn lemma_sentinel_preservation_group(g: FileGroup, s: SerView, package_len: u32)
    ensures
        g.spec_rewrite_data(s, package_len) is Ok && g.redirection == INVALID_INDEX
            ==> g.spec_rewrite_data(s, package_len).unwrap().redirection == INVALID_INDEX,
{
}

/// Law of sentinel forcing for packages: a zero info or child count forces
/// the corresponding start to the sentinel in the rewritten record.
pub proof fn lemma_sentinel_preservation_package(p: FilePackage, s: SerView)
    ensures
        p.spec_rewrite(s) is Ok ==> {
            let w = p.spec_rewrite(s).unwrap();
            &&& (p.info_count == 0 ==> w.info_start == INVALID_INDEX)
            &&& (p.child_count == 0 ==> w.child_start == INVALID_INDEX)
        },
{
}

/// Law of owner disambiguation: a rewritten file entity's owner went through
/// the file package map exactly when the original owner was below the package
/// count, and through the file group map otherwise; the info link always goes
/// through the file info map.
pub proof fn lemma_owner_disambiguation(e: FileEntity, s: SerView, package_len: u32)
    ensures
        e.spec_rewrite(s, package_len) is Ok ==> {
            let w = e.spec_rewrite(s, package_len).unwrap();
            &&& (e.package_or_group < package_len ==> sv_get(s.file_package, e.package_or_group)
                == Some(w.package_or_group))
            &&& (e.package_or_group >= package_len ==> sv_get(s.file_group, e.package_or_group)
                == Some(w.package_or_group))
            &&& sv_get(s.file_info, e.info) == Some(w.info)
        },
{
}

/// Every package step of a successful reservation walk passed its subpackage
/// checks.
pub proof fn lemma_plan_packages_sub_ok(v: RtView, s: SerView, n: nat)
    requires
        plan_packages(v, s, n) is Some,
    ensures
        forall|i: int| 0 <= i < n ==> pkg_sub_ok(v, v.file_package[i]),
    decreases n,
{
    if n > 0 {
        assert(plan_packages(v, s, (n - 1) as nat) is Some);
        lemma_plan_packages_sub_ok(v, s, (n - 1) as nat);
        let t = plan_packages(v, s, (n - 1) as nat).unwrap();
        assert(plan_one_package(v, t, n - 1) is Some);
        assert(pkg_sub_ok(v, v.file_package[n - 1]));
        assert(forall|i: int|
            0 <= i < n ==> pkg_sub_ok(v, v.file_package[i]) || i == n - 1 && pkg_sub_ok(
                v,
                v.file_package[i],
            ));
    }
}

/// Law of the subpackage rule: when re-serialization succeeds, every package
/// carrying both the subpackage and symlink flags has a data group, and that
/// group's redirection is a valid package index, not the sentinel.
pub proof fn lemma_subpackage_rule(v: RtView)
    requires
        spec_into_bytes(v) is Ok,
    ensures
        forall|i: int|
            0 <= i < v.file_package.len() && (#[trigger] v.file_package[i]).flags
                & HAS_SUB_PACKAGE != 0 && v.file_package[i].flags & IS_SYM_LINK != 0 ==> {
                let g0 = v.file_package[i].spec_data_group_start();
                &&& g0 < v.file_group.len()
                &&& v.file_group[g0 as int].redirection != INVALID_INDEX
                &&& v.file_group[g0 as int].redirection < v.file_package.len()
            },
{
    assert(tables_small(v));
    assert(spec_plan(v) is Some);
    assert(plan_packages(v, sv_empty(), v.file_package.len()) is Some);
    lemma_plan_packages_sub_ok(v, sv_empty(), v.file_package.len());
    assert forall|i: int|
        0 <= i < v.file_package.len() && (#[trigger] v.file_package[i]).flags & HAS_SUB_PACKAGE
            != 0 && v.file_package[i].flags & IS_SYM_LINK != 0 implies {
        let g0 = v.file_package[i].spec_data_group_start();
        &&& g0 < v.file_group.len()
        &&& v.file_group[g0 as int].redirection != INVALID_INDEX
        &&& v.file_group[g0 as int].redirection < v.file_package.len()
    } by {
        assert(pkg_sub_ok(v, v.file_package[i]));
        let g0 = v.file_package[i].spec_data_group_start();
        assert(v.file_group[g0 as int].redirection < v.file_package.len());
        assert(v.file_package.len() <= INVALID_INDEX);
    }
}


/// What a successful table emission holds at position `k`: the rewrite of
/// the `k`-th reserved original, stated here for the file path table.
pub proof fn lemma_emit_file_path_at(tbl: Seq<FilePath>, order: Seq<u32>, s: SerView, n: nat, k: int)
    requires
        crate::reserialize::emit_file_path(tbl, order, s, n) is Ok,
        0 <= k < n,
    ensures
        crate::reserialize::emit_file_path(tbl, order, s, n).unwrap().len() == n,
        order[k] < tbl.len(),
        tbl[order[k] as int].spec_rewrite(s) is Ok,
        crate::reserialize::emit_file_path(tbl, order, s, n).unwrap()[k] == tbl[
            order[k] as int
        ].spec_rewrite(s).unwrap(),
    decreases n,
{
    assert(crate::reserialize::emit_file_path(tbl, order, s, (n - 1) as nat) is Ok);
    lemma_emit_file_path_len(tbl, order, s, (n - 1) as nat);
    if k < n - 1 {
        lemma_emit_file_path_at(tbl, order, s, (n - 1) as nat, k);
    }
}

/// A successful table emission has one record per reserved original, stated
/// here for the file path table.
pub proof fn lemma_emit_file_path_len(tbl: Seq<FilePath>, order: Seq<u32>, s: SerView, n: nat)
    requires
        crate::reserialize::emit_file_path(tbl, order, s, n) is Ok,
    ensures
        crate::reserialize::emit_file_path(tbl, order, s, n).unwrap().len() == n,
    decreases n,
{
    if n > 0 {
        assert(crate::reserialize::emit_file_path(tbl, order, s, (n - 1) as nat) is Ok);
        lemma_emit_file_path_len(tbl, order, s, (n - 1) as nat);
    }
}

/// What a successful lookup emission holds at position `k`: the entry with
/// its payload rewritten and its hash untouched.
pub proof fn lemma_emit_lookup_at(entries: Seq<crate::hash::HashWithData>, m: Seq<u32>, n: nat, k: int)
    requires
        crate::reserialize::emit_lookup(entries, m, n) is Ok,
        0 <= k < n,
    ensures
        crate::reserialize::emit_lookup(entries, m, n).unwrap().len() == n,
        sv_get(m, spec_hwd_data(entries[k].len_and_data)) is Some,
        crate::reserialize::emit_lookup(entries, m, n).unwrap()[k] == entries[k].spec_with_data(
            sv_get(m, spec_hwd_data(entries[k].len_and_data)).unwrap(),
        ),
    decreases n,
{
    assert(crate::reserialize::emit_lookup(entries, m, (n - 1) as nat) is Ok);
    crate::reserialize::lemma_emit_lookup_len(entries, m, (n - 1) as nat);
    crate::reserialize::lemma_emit_lookup_len(entries, m, n);
    if k < n - 1 {
        lemma_emit_lookup_at(entries, m, (n - 1) as nat, k);
    }
}

/// Law of dense compaction: after a successful reservation walk, each type's
/// map from reserved original indices to new indices is a bijection onto the
/// contiguous range from zero to the number of reserved entries — position
/// `j` holds the original whose new index is `j`, every reserved original
/// maps below the count, and distinct originals map to distinct new indices.
pub proof fn lemma_plan_dense_compaction(v: RtView, kind: crate::serialization::TableKind)
    requires
        spec_plan(v) is Some,
    ensures
        ({
            let s = spec_plan(v).unwrap().0.of(kind);
            &&& forall|j: int| 0 <= j < s.len() ==> sv_get(s, s[j]) == Some(j as u32)
            &&& forall|x: u32|
                s.contains(x) ==> sv_get(s, x) is Some && sv_get(s, x).unwrap() < s.len()
            &&& forall|x: u32, y: u32|
                s.contains(x) && s.contains(y) && x != y ==> sv_get(s, x) != sv_get(s, y)
        }),
{
    crate::reserialize::lemma_spec_plan_wf(v);
    let sv = spec_plan(v).unwrap().0;
    assert(crate::serialization::rsv_wf(sv.of(kind)));
    crate::serialization::lemma_dense_compaction(sv.of(kind));
}

/// Law of lookup coherence, preserved by the rewrite: when the input's file
/// path lookup is coherent — every entry's payload indexes a path record
/// reporting the entry's own hash — the remapped structure's lookup is
/// coherent too, with every payload below the new table's length, and the
/// bucket directory is carried verbatim.
pub proof fn lemma_lookup_coherence(v: RtView, s: SerView, ist: Option<u32>, w: RtView)
    requires
        crate::reserialize::spec_remap(v, s, ist) == Ok::<RtView, crate::err::ArcError>(w),
        s.wf(),
        tables_small(v),
        forall|k: int|
            0 <= k < v.file_path_lookup.len() ==> {
                let e = #[trigger] v.file_path_lookup[k];
                &&& spec_hwd_data(e.len_and_data) < v.file_path.len()
                &&& v.file_path[spec_hwd_data(e.len_and_data) as int].path_and_entity.crc == e.crc
                &&& crate::hash::spec_hwd_len(
                    v.file_path[spec_hwd_data(e.len_and_data) as int].path_and_entity.len_and_data,
                ) == crate::hash::spec_hwd_len(e.len_and_data)
            },
    ensures
        w.buckets == v.buckets,
        w.file_path_lookup.len() == v.file_path_lookup.len(),
        forall|k: int|
            0 <= k < w.file_path_lookup.len() ==> {
                let e2 = #[trigger] w.file_path_lookup[k];
                &&& e2.crc == v.file_path_lookup[k].crc
                &&& crate::hash::spec_hwd_len(e2.len_and_data) == crate::hash::spec_hwd_len(
                    v.file_path_lookup[k].len_and_data,
                )
                &&& spec_hwd_data(e2.len_and_data) < w.file_path.len()
                &&& w.file_path[spec_hwd_data(e2.len_and_data) as int].path_and_entity.crc
                    == e2.crc
                &&& crate::hash::spec_hwd_len(
                    w.file_path[spec_hwd_data(
                        e2.len_and_data,
                    ) as int].path_and_entity.len_and_data,
                ) == crate::hash::spec_hwd_len(e2.len_and_data)
            },
{
    let lk = v.file_path_lookup;
    crate::reserialize::lemma_emit_lookup_len(lk, s.file_path, lk.len());
    lemma_emit_file_path_len(v.file_path, s.file_path, s, s.file_path.len());
    assert forall|k: int| 0 <= k < w.file_path_lookup.len() implies {
        let e2 = #[trigger] w.file_path_lookup[k];
        &&& e2.crc == v.file_path_lookup[k].crc
        &&& crate::hash::spec_hwd_len(e2.len_and_data) == crate::hash::spec_hwd_len(
            v.file_path_lookup[k].len_and_data,
        )
        &&& spec_hwd_data(e2.len_and_data) < w.file_path.len()
        &&& w.file_path[spec_hwd_data(e2.len_and_data) as int].path_and_entity.crc == e2.crc
        &&& crate::hash::spec_hwd_len(
            w.file_path[spec_hwd_data(e2.len_and_data) as int].path_and_entity.len_and_data,
        ) == crate::hash::spec_hwd_len(e2.len_and_data)
    } by {
        lemma_emit_lookup_at(lk, s.file_path, lk.len(), k);
        let e = lk[k];
        let data = spec_hwd_data(e.len_and_data);
        let e2 = w.file_path_lookup[k];
        assert(data < v.file_path.len());
        assert(data != INVALID_INDEX);
        assert(sv_get(s.file_path, data) is Some);
        assert(s.file_path.contains(data));
        crate::serialization::lemma_fio(s.file_path, data);
        let d = crate::serialization::first_index_of(s.file_path, data);
        assert(sv_get(s.file_path, data) == Some(d as u32));
        assert(0 <= d < s.file_path.len());
        assert(s.file_path[d] == data);
        // the rewritten entry: hash kept, payload is the new dense index
        assert(e2 == e.spec_with_data(d as u32));
        assert(d < 0x100_0000) by {
            assert(s.file_path.len() <= INVALID_INDEX);
        }
        assert(spec_hwd_data(e2.len_and_data) == d as u32 % 0x100_0000);
        assert((d as u32) % 0x100_0000 == d as u32);
        assert(crate::hash::spec_hwd_len(e2.len_and_data) == crate::hash::spec_hwd_len(
            e.len_and_data,
        )) by {
            lemma_with_data_keeps_len(e, d as u32);
        }
        // the record at the new index is the rewrite of the record the entry
        // named, and the rewrite keeps the path hash
        lemma_emit_file_path_at(v.file_path, s.file_path, s, s.file_path.len(), d);
        assert(w.file_path[d] == v.file_path[data as int].spec_rewrite(s).unwrap());
        let orig = v.file_path[data as int];
        let rew = orig.spec_rewrite(s).unwrap();
        assert(rew.path_and_entity.crc == orig.path_and_entity.crc);
        assert(crate::hash::spec_hwd_len(rew.path_and_entity.len_and_data)
            == crate::hash::spec_hwd_len(orig.path_and_entity.len_and_data)) by {
            lemma_with_data_keeps_len(
                orig.path_and_entity,
                sv_get(s.file_entity, spec_hwd_data(orig.path_and_entity.len_and_data)).unwrap(),
            );
        }
    }
}

/// Replacing the payload of a hash word keeps its length byte.
pub proof fn lemma_with_data_keeps_len(h: crate::hash::HashWithData, d: u32)
    ensures
        crate::hash::spec_hwd_len(h.spec_with_data(d).len_and_data) == crate::hash::spec_hwd_len(
            h.len_and_data,
        ),
{
    let a = h.len_and_data % 0x100;
    let c = d % 0x100_0000;
    assert((a + c * 0x100) % 0x100 == a) by (nonlinear_arith)
        requires
            0 <= a < 0x100 && 0 <= c,
    ;
}



/// The byte segments the serialized resource section is made of, in order.
#[verifier::opaque]
pub open spec fn rb_segs(v: RtView) -> Seq<Seq<u8>> {
    Seq::<Seq<u8>>::empty().push(
        crate::resource::header_le_bytes(v.header),
    ).push(
        crate::emit::stream_folder_table_bytes(v.stream_folder),
    ).push(
        crate::emit::hwd_table_bytes(v.stream_path_lookup),
    ).push(
        crate::emit::stream_path_table_bytes(v.stream_path),
    ).push(
        crate::emit::stream_desc_table_bytes(v.stream_desc),
    ).push(
        crate::emit::stream_data_table_bytes(v.stream_data),
    ).push(
        crate::bytes::u32_le_bytes(v.file_path_lookup.len() as u32),
    ).push(
        crate::bytes::u32_le_bytes(v.buckets.len() as u32),
    ).push(
        crate::emit::bucket_table_bytes(v.buckets),
    ).push(
        crate::emit::hwd_table_bytes(v.file_path_lookup),
    ).push(
        crate::emit::file_path_table_bytes(v.file_path),
    ).push(
        crate::emit::file_entity_table_bytes(v.file_entity),
    ).push(
        crate::emit::hwd_table_bytes(v.file_package_lookup),
    ).push(
        crate::emit::file_package_table_bytes(v.file_package),
    ).push(
        crate::emit::file_group_table_bytes(v.file_group),
    ).push(
        crate::emit::file_package_child_table_bytes(v.file_package_child),
    ).push(
        crate::emit::file_info_table_bytes(v.file_info),
    ).push(
        crate::emit::file_desc_table_bytes(v.file_desc),
    ).push(
        crate::emit::file_data_table_bytes(v.file_data),
    )
}

/// Which segment lies at each position of the segment list.
pub proof fn lemma_rb_segs_at(v: RtView)
    ensures
        rb_segs(v).len() == 19,
        rb_segs(v)[0] == crate::resource::header_le_bytes(v.header),
        rb_segs(v)[1] == crate::emit::stream_folder_table_bytes(v.stream_folder),
        rb_segs(v)[2] == crate::emit::hwd_table_bytes(v.stream_path_lookup),
        rb_segs(v)[3] == crate::emit::stream_path_table_bytes(v.stream_path),
        rb_segs(v)[4] == crate::emit::stream_desc_table_bytes(v.stream_desc),
        rb_segs(v)[5] == crate::emit::stream_data_table_bytes(v.stream_data),
        rb_segs(v)[6] == crate::bytes::u32_le_bytes(v.file_path_lookup.len() as u32),
        rb_segs(v)[7] == crate::bytes::u32_le_bytes(v.buckets.len() as u32),
        rb_segs(v)[8] == crate::emit::bucket_table_bytes(v.buckets),
        rb_segs(v)[9] == crate::emit::hwd_table_bytes(v.file_path_lookup),
        rb_segs(v)[10] == crate::emit::file_path_table_bytes(v.file_path),
        rb_segs(v)[11] == crate::emit::file_entity_table_bytes(v.file_entity),
        rb_segs(v)[12] == crate::emit::hwd_table_bytes(v.file_package_lookup),
        rb_segs(v)[13] == crate::emit::file_package_table_bytes(v.file_package),
        rb_segs(v)[14] == crate::emit::file_group_table_bytes(v.file_group),
        rb_segs(v)[15] == crate::emit::file_package_child_table_bytes(v.file_package_child),
        rb_segs(v)[16] == crate::emit::file_info_table_bytes(v.file_info),
        rb_segs(v)[17] == crate::emit::file_desc_table_bytes(v.file_desc),
        rb_segs(v)[18] == crate::emit::file_data_table_bytes(v.file_data),
{
    reveal(rb_segs);
}

/// The serialized resource section is the concatenation of its segments.
#[verifier::rlimit(100)]
#[verifier::spinoff_prover]
pub proof fn lemma_rb_cat(v: RtView)
    ensures
        crate::emit::spec_resource_bytes(v.header, v) == crate::bytes::cat(rb_segs(v)),
{
    reveal(rb_segs);
    lemma_rb_segs_at(v);
    let e = Seq::<Seq<u8>>::empty();
    let s0 = e.push(crate::resource::header_le_bytes(v.header));
    let s1 = s0.push(crate::emit::stream_folder_table_bytes(v.stream_folder));
    let s2 = s1.push(crate::emit::hwd_table_bytes(v.stream_path_lookup));
    let s3 = s2.push(crate::emit::stream_path_table_bytes(v.stream_path));
    let s4 = s3.push(crate::emit::stream_desc_table_bytes(v.stream_desc));
    let s5 = s4.push(crate::emit::stream_data_table_bytes(v.stream_data));
    let s6 = s5.push(crate::bytes::u32_le_bytes(v.file_path_lookup.len() as u32));
    let s7 = s6.push(crate::bytes::u32_le_bytes(v.buckets.len() as u32));
    let s8 = s7.push(crate::emit::bucket_table_bytes(v.buckets));
    let s9 = s8.push(crate::emit::hwd_table_bytes(v.file_path_lookup));
    let s10 = s9.push(crate::emit::file_path_table_bytes(v.file_path));
    let s11 = s10.push(crate::emit::file_entity_table_bytes(v.file_entity));
    let s12 = s11.push(crate::emit::hwd_table_bytes(v.file_package_lookup));
    let s13 = s12.push(crate::emit::file_package_table_bytes(v.file_package));
    let s14 = s13.push(crate::emit::file_group_table_bytes(v.file_group));
    let s15 = s14.push(crate::emit::file_package_child_table_bytes(v.file_package_child));
    let s16 = s15.push(crate::emit::file_info_table_bytes(v.file_info));
    let s17 = s16.push(crate::emit::file_desc_table_bytes(v.file_desc));
    let s18 = s17.push(crate::emit::file_data_table_bytes(v.file_data));
    assert(crate::bytes::cat(e) == Seq::<u8>::empty());
    assert(s0.drop_last() =~= e);
    assert(crate::bytes::cat(s0) =~= crate::resource::header_le_bytes(v.header));
    assert(s1.drop_last() =~= s0);
    assert(crate::bytes::cat(s1) == crate::bytes::cat(s0) + s1.last());
    assert(s2.drop_last() =~= s1);
    assert(crate::bytes::cat(s2) == crate::bytes::cat(s1) + s2.last());
    assert(s3.drop_last() =~= s2);
    assert(crate::bytes::cat(s3) == crate::bytes::cat(s2) + s3.last());
    assert(s4.drop_last() =~= s3);
    assert(crate::bytes::cat(s4) == crate::bytes::cat(s3) + s4.last());
    assert(s5.drop_last() =~= s4);
    assert(crate::bytes::cat(s5) == crate::bytes::cat(s4) + s5.last());
    assert(s6.drop_last() =~= s5);
    assert(crate::bytes::cat(s6) == crate::bytes::cat(s5) + s6.last());
    assert(s7.drop_last() =~= s6);
    assert(crate::bytes::cat(s7) == crate::bytes::cat(s6) + s7.last());
    assert(s8.drop_last() =~= s7);
    assert(crate::bytes::cat(s8) == crate::bytes::cat(s7) + s8.last());
    assert(s9.drop_last() =~= s8);
    assert(crate::bytes::cat(s9) == crate::bytes::cat(s8) + s9.last());
    assert(s10.drop_last() =~= s9);
    assert(crate::bytes::cat(s10) == crate::bytes::cat(s9) + s10.last());
    assert(s11.drop_last() =~= s10);
    assert(crate::bytes::cat(s11) == crate::bytes::cat(s10) + s11.last());
    assert(s12.drop_last() =~= s11);
    assert(crate::bytes::cat(s12) == crate::bytes::cat(s11) + s12.last());
    assert(s13.drop_last() =~= s12);
    assert(crate::bytes::cat(s13) == crate::bytes::cat(s12) + s13.last());
    assert(s14.drop_last() =~= s13);
    assert(crate::bytes::cat(s14) == crate::bytes::cat(s13) + s14.last());
    assert(s15.drop_last() =~= s14);
    assert(crate::bytes::cat(s15) == crate::bytes::cat(s14) + s15.last());
    assert(s16.drop_last() =~= s15);
    assert(crate::bytes::cat(s16) == crate::bytes::cat(s15) + s16.last());
    assert(s17.drop_last() =~= s16);
    assert(crate::bytes::cat(s17) == crate::bytes::cat(s16) + s17.last());
    assert(s18.drop_last() =~= s17);
    assert(crate::bytes::cat(s18) == crate::bytes::cat(s17) + s18.last());
    assert(rb_segs(v) == s18);
}

/// Where each segment starts, and how long the whole section is.
#[verifier::rlimit(100)]
#[verifier::spinoff_prover]
pub proof fn lemma_rb_offs(v: RtView)
    requires
        crate::resource::rt_wf(v),
    ensures
        crate::bytes::cat_off(rb_segs(v), 0) == 0,
        crate::bytes::cat_off(rb_segs(v), 1) == 272,
        crate::bytes::cat_off(rb_segs(v), 2) == 272 + v.stream_folder.len() * 12,
        crate::bytes::cat_off(rb_segs(v), 3) == 272 + v.stream_folder.len() * 12 + v.stream_path_lookup.len() * 8,
        crate::bytes::cat_off(rb_segs(v), 4) == 272 + v.stream_folder.len() * 12 + v.stream_path_lookup.len() * 8 + v.stream_path.len() * 12,
        crate::bytes::cat_off(rb_segs(v), 5) == 272 + v.stream_folder.len() * 12 + v.stream_path_lookup.len() * 8 + v.stream_path.len() * 12 + v.stream_desc.len() * 4,
        crate::bytes::cat_off(rb_segs(v), 6) == 272 + v.stream_folder.len() * 12 + v.stream_path_lookup.len() * 8 + v.stream_path.len() * 12 + v.stream_desc.len() * 4 + v.stream_data.len() * 16,
        crate::bytes::cat_off(rb_segs(v), 7) == 272 + v.stream_folder.len() * 12 + v.stream_path_lookup.len() * 8 + v.stream_path.len() * 12 + v.stream_desc.len() * 4 + v.stream_data.len() * 16 + 4,
        crate::bytes::cat_off(rb_segs(v), 8) == 272 + v.stream_folder.len() * 12 + v.stream_path_lookup.len() * 8 + v.stream_path.len() * 12 + v.stream_desc.len() * 4 + v.stream_data.len() * 16 + 4 + 4,
        crate::bytes::cat_off(rb_segs(v), 9) == 272 + v.stream_folder.len() * 12 + v.stream_path_lookup.len() * 8 + v.stream_path.len() * 12 + v.stream_desc.len() * 4 + v.stream_data.len() * 16 + 4 + 4 + v.buckets.len() * 8,
        crate::bytes::cat_off(rb_segs(v), 10) == 272 + v.stream_folder.len() * 12 + v.stream_path_lookup.len() * 8 + v.stream_path.len() * 12 + v.stream_desc.len() * 4 + v.stream_data.len() * 16 + 4 + 4 + v.buckets.len() * 8 + v.file_path_lookup.len() * 8,
        crate::bytes::cat_off(rb_segs(v), 11) == 272 + v.stream_folder.len() * 12 + v.stream_path_lookup.len() * 8 + v.stream_path.len() * 12 + v.stream_desc.len() * 4 + v.stream_data.len() * 16 + 4 + 4 + v.buckets.len() * 8 + v.file_path_lookup.len() * 8 + v.file_path.len() * 32,
        crate::bytes::cat_off(rb_segs(v), 12) == 272 + v.stream_folder.len() * 12 + v.stream_path_lookup.len() * 8 + v.stream_path.len() * 12 + v.stream_desc.len() * 4 + v.stream_data.len() * 16 + 4 + 4 + v.buckets.len() * 8 + v.file_path_lookup.len() * 8 + v.file_path.len() * 32 + v.file_entity.len() * 8,
        crate::bytes::cat_off(rb_segs(v), 13) == 272 + v.stream_folder.len() * 12 + v.stream_path_lookup.len() * 8 + v.stream_path.len() * 12 + v.stream_desc.len() * 4 + v.stream_data.len() * 16 + 4 + 4 + v.buckets.len() * 8 + v.file_path_lookup.len() * 8 + v.file_path.len() * 32 + v.file_entity.len() * 8 + v.file_package_lookup.len() * 8,
        crate::bytes::cat_off(rb_segs(v), 14) == 272 + v.stream_folder.len() * 12 + v.stream_path_lookup.len() * 8 + v.stream_path.len() * 12 + v.stream_desc.len() * 4 + v.stream_data.len() * 16 + 4 + 4 + v.buckets.len() * 8 + v.file_path_lookup.len() * 8 + v.file_path.len() * 32 + v.file_entity.len() * 8 + v.file_package_lookup.len() * 8 + v.file_package.len() * 52,
        crate::bytes::cat_off(rb_segs(v), 15) == 272 + v.stream_folder.len() * 12 + v.stream_path_lookup.len() * 8 + v.stream_path.len() * 12 + v.stream_desc.len() * 4 + v.stream_data.len() * 16 + 4 + 4 + v.buckets.len() * 8 + v.file_path_lookup.len() * 8 + v.file_path.len() * 32 + v.file_entity.len() * 8 + v.file_package_lookup.len() * 8 + v.file_package.len() * 52 + v.file_group.len() * 28,
        crate::bytes::cat_off(rb_segs(v), 16) == 272 + v.stream_folder.len() * 12 + v.stream_path_lookup.len() * 8 + v.stream_path.len() * 12 + v.stream_desc.len() * 4 + v.stream_data.len() * 16 + 4 + 4 + v.buckets.len() * 8 + v.file_path_lookup.len() * 8 + v.file_path.len() * 32 + v.file_entity.len() * 8 + v.file_package_lookup.len() * 8 + v.file_package.len() * 52 + v.file_group.len() * 28 + v.file_package_child.len() * 8,
        crate::bytes::cat_off(rb_segs(v), 17) == 272 + v.stream_folder.len() * 12 + v.stream_path_lookup.len() * 8 + v.stream_path.len() * 12 + v.stream_desc.len() * 4 + v.stream_data.len() * 16 + 4 + 4 + v.buckets.len() * 8 + v.file_path_lookup.len() * 8 + v.file_path.len() * 32 + v.file_entity.len() * 8 + v.file_package_lookup.len() * 8 + v.file_package.len() * 52 + v.file_group.len() * 28 + v.file_package_child.len() * 8 + v.file_info.len() * 16,
        crate::bytes::cat_off(rb_segs(v), 18) == 272 + v.stream_folder.len() * 12 + v.stream_path_lookup.len() * 8 + v.stream_path.len() * 12 + v.stream_desc.len() * 4 + v.stream_data.len() * 16 + 4 + 4 + v.buckets.len() * 8 + v.file_path_lookup.len() * 8 + v.file_path.len() * 32 + v.file_entity.len() * 8 + v.file_package_lookup.len() * 8 + v.file_package.len() * 52 + v.file_group.len() * 28 + v.file_package_child.len() * 8 + v.file_info.len() * 16 + v.file_desc.len() * 12,
        crate::bytes::cat_off(rb_segs(v), 19) == 272 + v.stream_folder.len() * 12 + v.stream_path_lookup.len() * 8 + v.stream_path.len() * 12 + v.stream_desc.len() * 4 + v.stream_data.len() * 16 + 4 + 4 + v.buckets.len() * 8 + v.file_path_lookup.len() * 8 + v.file_path.len() * 32 + v.file_entity.len() * 8 + v.file_package_lookup.len() * 8 + v.file_package.len() * 52 + v.file_group.len() * 28 + v.file_package_child.len() * 8 + v.file_info.len() * 16 + v.file_desc.len() * 12 + v.file_data.len() * 16,
        crate::bytes::cat(rb_segs(v)).len() == 272 + v.stream_folder.len() * 12 + v.stream_path_lookup.len() * 8 + v.stream_path.len() * 12 + v.stream_desc.len() * 4 + v.stream_data.len() * 16 + 4 + 4 + v.buckets.len() * 8 + v.file_path_lookup.len() * 8 + v.file_path.len() * 32 + v.file_entity.len() * 8 + v.file_package_lookup.len() * 8 + v.file_package.len() * 52 + v.file_group.len() * 28 + v.file_package_child.len() * 8 + v.file_info.len() * 16 + v.file_desc.len() * 12 + v.file_data.len() * 16,
{
    lemma_rb_segs_at(v);
    crate::emit::lemma_stream_folder_table_bytes_len(v.stream_folder);
    crate::emit::lemma_hwd_table_bytes_len(v.stream_path_lookup);
    crate::emit::lemma_stream_path_table_bytes_len(v.stream_path);
    crate::emit::lemma_stream_desc_table_bytes_len(v.stream_desc);
    crate::emit::lemma_stream_data_table_bytes_len(v.stream_data);
    crate::emit::lemma_bucket_table_bytes_len(v.buckets);
    crate::emit::lemma_hwd_table_bytes_len(v.file_path_lookup);
    crate::emit::lemma_file_path_table_bytes_len(v.file_path);
    crate::emit::lemma_file_entity_table_bytes_len(v.file_entity);
    crate::emit::lemma_hwd_table_bytes_len(v.file_package_lookup);
    crate::emit::lemma_file_package_table_bytes_len(v.file_package);
    crate::emit::lemma_file_group_table_bytes_len(v.file_group);
    crate::emit::lemma_file_package_child_table_bytes_len(v.file_package_child);
    crate::emit::lemma_file_info_table_bytes_len(v.file_info);
    crate::emit::lemma_file_desc_table_bytes_len(v.file_desc);
    crate::emit::lemma_file_data_table_bytes_len(v.file_data);
    crate::bytes::lemma_cat_off_step(rb_segs(v), 0);
    crate::bytes::lemma_cat_off_step(rb_segs(v), 1);
    crate::bytes::lemma_cat_off_step(rb_segs(v), 2);
    crate::bytes::lemma_cat_off_step(rb_segs(v), 3);
    crate::bytes::lemma_cat_off_step(rb_segs(v), 4);
    crate::bytes::lemma_cat_off_step(rb_segs(v), 5);
    crate::bytes::lemma_cat_off_step(rb_segs(v), 6);
    crate::bytes::lemma_cat_off_step(rb_segs(v), 7);
    crate::bytes::lemma_cat_off_step(rb_segs(v), 8);
    crate::bytes::lemma_cat_off_step(rb_segs(v), 9);
    crate::bytes::lemma_cat_off_step(rb_segs(v), 10);
    crate::bytes::lemma_cat_off_step(rb_segs(v), 11);
    crate::bytes::lemma_cat_off_step(rb_segs(v), 12);
    crate::bytes::lemma_cat_off_step(rb_segs(v), 13);
    crate::bytes::lemma_cat_off_step(rb_segs(v), 14);
    crate::bytes::lemma_cat_off_step(rb_segs(v), 15);
    crate::bytes::lemma_cat_off_step(rb_segs(v), 16);
    crate::bytes::lemma_cat_off_step(rb_segs(v), 17);
    crate::bytes::lemma_cat_off_step(rb_segs(v), 18);
    assert(crate::resource::header_le_bytes(v.header).len() == 272);
    assert(crate::bytes::cat_off(rb_segs(v), 0) == 0) by {
        assert(rb_segs(v).take(0) =~= Seq::<Seq<u8>>::empty());
    }
    assert(crate::bytes::cat_off(rb_segs(v), 1) == crate::bytes::cat_off(rb_segs(v), 0) + rb_segs(v)[0].len());
    assert(crate::bytes::cat_off(rb_segs(v), 1) == 272);
    assert(crate::bytes::cat_off(rb_segs(v), 2) == crate::bytes::cat_off(rb_segs(v), 1) + rb_segs(v)[1].len());
    assert(crate::bytes::cat_off(rb_segs(v), 2) == 272 + v.stream_folder.len() * 12);
    assert(crate::bytes::cat_off(rb_segs(v), 3) == crate::bytes::cat_off(rb_segs(v), 2) + rb_segs(v)[2].len());
    assert(crate::bytes::cat_off(rb_segs(v), 3) == 272 + v.stream_folder.len() * 12 + v.stream_path_lookup.len() * 8);
    assert(crate::bytes::cat_off(rb_segs(v), 4) == crate::bytes::cat_off(rb_segs(v), 3) + rb_segs(v)[3].len());
    assert(crate::bytes::cat_off(rb_segs(v), 4) == 272 + v.stream_folder.len() * 12 + v.stream_path_lookup.len() * 8 + v.stream_path.len() * 12);
    assert(crate::bytes::cat_off(rb_segs(v), 5) == crate::bytes::cat_off(rb_segs(v), 4) + rb_segs(v)[4].len());
    assert(crate::bytes::cat_off(rb_segs(v), 5) == 272 + v.stream_folder.len() * 12 + v.stream_path_lookup.len() * 8 + v.stream_path.len() * 12 + v.stream_desc.len() * 4);
    assert(crate::bytes::cat_off(rb_segs(v), 6) == crate::bytes::cat_off(rb_segs(v), 5) + rb_segs(v)[5].len());
    assert(crate::bytes::cat_off(rb_segs(v), 6) == 272 + v.stream_folder.len() * 12 + v.stream_path_lookup.len() * 8 + v.stream_path.len() * 12 + v.stream_desc.len() * 4 + v.stream_data.len() * 16);
    assert(crate::bytes::cat_off(rb_segs(v), 7) == crate::bytes::cat_off(rb_segs(v), 6) + rb_segs(v)[6].len());
    assert(crate::bytes::cat_off(rb_segs(v), 7) == 272 + v.stream_folder.len() * 12 + v.stream_path_lookup.len() * 8 + v.stream_path.len() * 12 + v.stream_desc.len() * 4 + v.stream_data.len() * 16 + 4);
    assert(crate::bytes::cat_off(rb_segs(v), 8) == crate::bytes::cat_off(rb_segs(v), 7) + rb_segs(v)[7].len());
    assert(crate::bytes::cat_off(rb_segs(v), 8) == 272 + v.stream_folder.len() * 12 + v.stream_path_lookup.len() * 8 + v.stream_path.len() * 12 + v.stream_desc.len() * 4 + v.stream_data.len() * 16 + 4 + 4);
    assert(crate::bytes::cat_off(rb_segs(v), 9) == crate::bytes::cat_off(rb_segs(v), 8) + rb_segs(v)[8].len());
    assert(crate::bytes::cat_off(rb_segs(v), 9) == 272 + v.stream_folder.len() * 12 + v.stream_path_lookup.len() * 8 + v.stream_path.len() * 12 + v.stream_desc.len() * 4 + v.stream_data.len() * 16 + 4 + 4 + v.buckets.len() * 8);
    assert(crate::bytes::cat_off(rb_segs(v), 10) == crate::bytes::cat_off(rb_segs(v), 9) + rb_segs(v)[9].len());
    assert(crate::bytes::cat_off(rb_segs(v), 10) == 272 + v.stream_folder.len() * 12 + v.stream_path_lookup.len() * 8 + v.stream_path.len() * 12 + v.stream_desc.len() * 4 + v.stream_data.len() * 16 + 4 + 4 + v.buckets.len() * 8 + v.file_path_lookup.len() * 8);
    assert(crate::bytes::cat_off(rb_segs(v), 11) == crate::bytes::cat_off(rb_segs(v), 10) + rb_segs(v)[10].len());
    assert(crate::bytes::cat_off(rb_segs(v), 11) == 272 + v.stream_folder.len() * 12 + v.stream_path_lookup.len() * 8 + v.stream_path.len() * 12 + v.stream_desc.len() * 4 + v.stream_data.len() * 16 + 4 + 4 + v.buckets.len() * 8 + v.file_path_lookup.len() * 8 + v.file_path.len() * 32);
    assert(crate::bytes::cat_off(rb_segs(v), 12) == crate::bytes::cat_off(rb_segs(v), 11) + rb_segs(v)[11].len());
    assert(crate::bytes::cat_off(rb_segs(v), 12) == 272 + v.stream_folder.len() * 12 + v.stream_path_lookup.len() * 8 + v.stream_path.len() * 12 + v.stream_desc.len() * 4 + v.stream_data.len() * 16 + 4 + 4 + v.buckets.len() * 8 + v.file_path_lookup.len() * 8 + v.file_path.len() * 32 + v.file_entity.len() * 8);
    assert(crate::bytes::cat_off(rb_segs(v), 13) == crate::bytes::cat_off(rb_segs(v), 12) + rb_segs(v)[12].len());
    assert(crate::bytes::cat_off(rb_segs(v), 13) == 272 + v.stream_folder.len() * 12 + v.stream_path_lookup.len() * 8 + v.stream_path.len() * 12 + v.stream_desc.len() * 4 + v.stream_data.len() * 16 + 4 + 4 + v.buckets.len() * 8 + v.file_path_lookup.len() * 8 + v.file_path.len() * 32 + v.file_entity.len() * 8 + v.file_package_lookup.len() * 8);
    assert(crate::bytes::cat_off(rb_segs(v), 14) == crate::bytes::cat_off(rb_segs(v), 13) + rb_segs(v)[13].len());
    assert(crate::bytes::cat_off(rb_segs(v), 14) == 272 + v.stream_folder.len() * 12 + v.stream_path_lookup.len() * 8 + v.stream_path.len() * 12 + v.stream_desc.len() * 4 + v.stream_data.len() * 16 + 4 + 4 + v.buckets.len() * 8 + v.file_path_lookup.len() * 8 + v.file_path.len() * 32 + v.file_entity.len() * 8 + v.file_package_lookup.len() * 8 + v.file_package.len() * 52);
    assert(crate::bytes::cat_off(rb_segs(v), 15) == crate::bytes::cat_off(rb_segs(v), 14) + rb_segs(v)[14].len());
    assert(crate::bytes::cat_off(rb_segs(v), 15) == 272 + v.stream_folder.len() * 12 + v.stream_path_lookup.len() * 8 + v.stream_path.len() * 12 + v.stream_desc.len() * 4 + v.stream_data.len() * 16 + 4 + 4 + v.buckets.len() * 8 + v.file_path_lookup.len() * 8 + v.file_path.len() * 32 + v.file_entity.len() * 8 + v.file_package_lookup.len() * 8 + v.file_package.len() * 52 + v.file_group.len() * 28);
    assert(crate::bytes::cat_off(rb_segs(v), 16) == crate::bytes::cat_off(rb_segs(v), 15) + rb_segs(v)[15].len());
    assert(crate::bytes::cat_off(rb_segs(v), 16) == 272 + v.stream_folder.len() * 12 + v.stream_path_lookup.len() * 8 + v.stream_path.len() * 12 + v.stream_desc.len() * 4 + v.stream_data.len() * 16 + 4 + 4 + v.buckets.len() * 8 + v.file_path_lookup.len() * 8 + v.file_path.len() * 32 + v.file_entity.len() * 8 + v.file_package_lookup.len() * 8 + v.file_package.len() * 52 + v.file_group.len() * 28 + v.file_package_child.len() * 8);
    assert(crate::bytes::cat_off(rb_segs(v), 17) == crate::bytes::cat_off(rb_segs(v), 16) + rb_segs(v)[16].len());
    assert(crate::bytes::cat_off(rb_segs(v), 17) == 272 + v.stream_folder.len() * 12 + v.stream_path_lookup.len() * 8 + v.stream_path.len() * 12 + v.stream_desc.len() * 4 + v.stream_data.len() * 16 + 4 + 4 + v.buckets.len() * 8 + v.file_path_lookup.len() * 8 + v.file_path.len() * 32 + v.file_entity.len() * 8 + v.file_package_lookup.len() * 8 + v.file_package.len() * 52 + v.file_group.len() * 28 + v.file_package_child.len() * 8 + v.file_info.len() * 16);
    assert(crate::bytes::cat_off(rb_segs(v), 18) == crate::bytes::cat_off(rb_segs(v), 17) + rb_segs(v)[17].len());
    assert(crate::bytes::cat_off(rb_segs(v), 18) == 272 + v.stream_folder.len() * 12 + v.stream_path_lookup.len() * 8 + v.stream_path.len() * 12 + v.stream_desc.len() * 4 + v.stream_data.len() * 16 + 4 + 4 + v.buckets.len() * 8 + v.file_path_lookup.len() * 8 + v.file_path.len() * 32 + v.file_entity.len() * 8 + v.file_package_lookup.len() * 8 + v.file_package.len() * 52 + v.file_group.len() * 28 + v.file_package_child.len() * 8 + v.file_info.len() * 16 + v.file_desc.len() * 12);
    assert(crate::bytes::cat_off(rb_segs(v), 19) == crate::bytes::cat_off(rb_segs(v), 18) + rb_segs(v)[18].len());
    assert(crate::bytes::cat_off(rb_segs(v), 19) == 272 + v.stream_folder.len() * 12 + v.stream_path_lookup.len() * 8 + v.stream_path.len() * 12 + v.stream_desc.len() * 4 + v.stream_data.len() * 16 + 4 + 4 + v.buckets.len() * 8 + v.file_path_lookup.len() * 8 + v.file_path.len() * 32 + v.file_entity.len() * 8 + v.file_package_lookup.len() * 8 + v.file_package.len() * 52 + v.file_group.len() * 28 + v.file_package_child.len() * 8 + v.file_info.len() * 16 + v.file_desc.len() * 12 + v.file_data.len() * 16);
    crate::bytes::lemma_cat_total_len(rb_segs(v));
}


/// Each record of this table reads back from its segment of the serialized
/// section.
#[verifier::spinoff_prover]
#[verifier::rlimit(100)]
proof fn lemma_rb_table_1(v: RtView, off: int)
    requires
        off == crate::bytes::cat_off(rb_segs(v), 1),
    ensures
        forall|j: int|
            0 <= j < v.stream_folder.len() ==> crate::data::stream_folder::stream_folder_le_at(
                crate::bytes::cat(rb_segs(v)),
                off + j * 12,
            ) == v.stream_folder[j],
{
    lemma_rb_segs_at(v);
    crate::emit::lemma_stream_folder_table_bytes_len(v.stream_folder);
    let b = crate::bytes::cat(rb_segs(v));
    assert forall|j: int| 0 <= j < v.stream_folder.len() implies crate::data::stream_folder::stream_folder_le_at(b, off + j * 12)
        == v.stream_folder[j] by {
        assert forall|k: int| 0 <= k < 12 implies b[off + j * 12 + k] == crate::data::stream_folder::stream_folder_le_bytes(v.stream_folder[j])[k] by {
            crate::bytes::lemma_cat_at(rb_segs(v), 1, j * 12 + k);
            crate::emit::lemma_stream_folder_table_bytes_at(v.stream_folder, j, k);
        }
        crate::bytes::lemma_cat_at(rb_segs(v), 1, j * 12 + 12 - 1);
        crate::data::stream_folder::lemma_stream_folder_le_at_of_bytes(b, off + j * 12, v.stream_folder[j]);
    }
}

/// Each record of this table reads back from its segment of the serialized
/// section.
#[verifier::spinoff_prover]
#[verifier::rlimit(100)]
proof fn lemma_rb_table_2(v: RtView, off: int)
    requires
        off == crate::bytes::cat_off(rb_segs(v), 2),
    ensures
        forall|j: int|
            0 <= j < v.stream_path_lookup.len() ==> crate::hash::hwd_le_at(
                crate::bytes::cat(rb_segs(v)),
                off + j * 8,
            ) == v.stream_path_lookup[j],
{
    lemma_rb_segs_at(v);
    crate::emit::lemma_hwd_table_bytes_len(v.stream_path_lookup);
    let b = crate::bytes::cat(rb_segs(v));
    assert forall|j: int| 0 <= j < v.stream_path_lookup.len() implies crate::hash::hwd_le_at(b, off + j * 8)
        == v.stream_path_lookup[j] by {
        assert forall|k: int| 0 <= k < 8 implies b[off + j * 8 + k] == crate::hash::hwd_le_bytes(v.stream_path_lookup[j])[k] by {
            crate::bytes::lemma_cat_at(rb_segs(v), 2, j * 8 + k);
            crate::emit::lemma_hwd_table_bytes_at(v.stream_path_lookup, j, k);
        }
        crate::bytes::lemma_cat_at(rb_segs(v), 2, j * 8 + 8 - 1);
        crate::hash::lemma_hwd_le_at_of_bytes(b, off + j * 8, v.stream_path_lookup[j]);
    }
}

/// Each record of this table reads back from its segment of the serialized
/// section.
#[verifier::spinoff_prover]
#[verifier::rlimit(100)]
proof fn lemma_rb_table_3(v: RtView, off: int)
    requires
        off == crate::bytes::cat_off(rb_segs(v), 3),
    ensures
        forall|j: int|
            0 <= j < v.stream_path.len() ==> crate::data::stream_path::stream_path_le_at(
                crate::bytes::cat(rb_segs(v)),
                off + j * 12,
            ) == v.stream_path[j],
{
    lemma_rb_segs_at(v);
    crate::emit::lemma_stream_path_table_bytes_len(v.stream_path);
    let b = crate::bytes::cat(rb_segs(v));
    assert forall|j: int| 0 <= j < v.stream_path.len() implies crate::data::stream_path::stream_path_le_at(b, off + j * 12)
        == v.stream_path[j] by {
        assert forall|k: int| 0 <= k < 12 implies b[off + j * 12 + k] == crate::data::stream_path::stream_path_le_bytes(v.stream_path[j])[k] by {
            crate::bytes::lemma_cat_at(rb_segs(v), 3, j * 12 + k);
            crate::emit::lemma_stream_path_table_bytes_at(v.stream_path, j, k);
        }
        crate::bytes::lemma_cat_at(rb_segs(v), 3, j * 12 + 12 - 1);
        crate::data::stream_path::lemma_stream_path_le_at_of_bytes(b, off + j * 12, v.stream_path[j]);
    }
}

/// Each record of this table reads back from its segment of the serialized
/// section.
#[verifier::spinoff_prover]
#[verifier::rlimit(100)]
proof fn lemma_rb_table_4(v: RtView, off: int)
    requires
        off == crate::bytes::cat_off(rb_segs(v), 4),
    ensures
        forall|j: int|
            0 <= j < v.stream_desc.len() ==> crate::data::stream_desc::stream_desc_le_at(
                crate::bytes::cat(rb_segs(v)),
                off + j * 4,
            ) == v.stream_desc[j],
{
    lemma_rb_segs_at(v);
    crate::emit::lemma_stream_desc_table_bytes_len(v.stream_desc);
    let b = crate::bytes::cat(rb_segs(v));
    assert forall|j: int| 0 <= j < v.stream_desc.len() implies crate::data::stream_desc::stream_desc_le_at(b, off + j * 4)
        == v.stream_desc[j] by {
        assert forall|k: int| 0 <= k < 4 implies b[off + j * 4 + k] == crate::data::stream_desc::stream_desc_le_bytes(v.stream_desc[j])[k] by {
            crate::bytes::lemma_cat_at(rb_segs(v), 4, j * 4 + k);
            crate::emit::lemma_stream_desc_table_bytes_at(v.stream_desc, j, k);
        }
        crate::bytes::lemma_cat_at(rb_segs(v), 4, j * 4 + 4 - 1);
        crate::data::stream_desc::lemma_stream_desc_le_at_of_bytes(b, off + j * 4, v.stream_desc[j]);
    }
}

/// Each record of this table reads back from its segment of the serialized
/// section.
#[verifier::spinoff_prover]
#[verifier::rlimit(100)]
proof fn lemma_rb_table_5(v: RtView, off: int)
    requires
        off == crate::bytes::cat_off(rb_segs(v), 5),
    ensures
        forall|j: int|
            0 <= j < v.stream_data.len() ==> crate::data::stream_data::stream_data_le_at(
                crate::bytes::cat(rb_segs(v)),
                off + j * 16,
            ) == v.stream_data[j],
{
    lemma_rb_segs_at(v);
    crate::emit::lemma_stream_data_table_bytes_len(v.stream_data);
    let b = crate::bytes::cat(rb_segs(v));
    assert forall|j: int| 0 <= j < v.stream_data.len() implies crate::data::stream_data::stream_data_le_at(b, off + j * 16)
        == v.stream_data[j] by {
        assert forall|k: int| 0 <= k < 16 implies b[off + j * 16 + k] == crate::data::stream_data::stream_data_le_bytes(v.stream_data[j])[k] by {
            crate::bytes::lemma_cat_at(rb_segs(v), 5, j * 16 + k);
            crate::emit::lemma_stream_data_table_bytes_at(v.stream_data, j, k);
        }
        crate::bytes::lemma_cat_at(rb_segs(v), 5, j * 16 + 16 - 1);
        crate::data::stream_data::lemma_stream_data_le_at_of_bytes(b, off + j * 16, v.stream_data[j]);
    }
}

/// Each record of this table reads back from its segment of the serialized
/// section.
#[verifier::spinoff_prover]
#[verifier::rlimit(100)]
proof fn lemma_rb_table_8(v: RtView, off: int)
    requires
        off == crate::bytes::cat_off(rb_segs(v), 8),
    ensures
        forall|j: int|
            0 <= j < v.buckets.len() ==> crate::lookup::bucket_le_at(
                crate::bytes::cat(rb_segs(v)),
                off + j * 8,
            ) == v.buckets[j],
{
    lemma_rb_segs_at(v);
    crate::emit::lemma_bucket_table_bytes_len(v.buckets);
    let b = crate::bytes::cat(rb_segs(v));
    assert forall|j: int| 0 <= j < v.buckets.len() implies crate::lookup::bucket_le_at(b, off + j * 8)
        == v.buckets[j] by {
        assert forall|k: int| 0 <= k < 8 implies b[off + j * 8 + k] == crate::lookup::bucket_le_bytes(v.buckets[j])[k] by {
            crate::bytes::lemma_cat_at(rb_segs(v), 8, j * 8 + k);
            crate::emit::lemma_bucket_table_bytes_at(v.buckets, j, k);
        }
        crate::bytes::lemma_cat_at(rb_segs(v), 8, j * 8 + 8 - 1);
        crate::lookup::lemma_bucket_le_at_of_bytes(b, off + j * 8, v.buckets[j]);
    }
}

/// Each record of this table reads back from its segment of the serialized
/// section.
#[verifier::spinoff_prover]
#[verifier::rlimit(100)]
proof fn lemma_rb_table_9(v: RtView, off: int)
    requires
        off == crate::bytes::cat_off(rb_segs(v), 9),
    ensures
        forall|j: int|
            0 <= j < v.file_path_lookup.len() ==> crate::hash::hwd_le_at(
                crate::bytes::cat(rb_segs(v)),
                off + j * 8,
            ) == v.file_path_lookup[j],
{
    lemma_rb_segs_at(v);
    crate::emit::lemma_hwd_table_bytes_len(v.file_path_lookup);
    let b = crate::bytes::cat(rb_segs(v));
    assert forall|j: int| 0 <= j < v.file_path_lookup.len() implies crate::hash::hwd_le_at(b, off + j * 8)
        == v.file_path_lookup[j] by {
        assert forall|k: int| 0 <= k < 8 implies b[off + j * 8 + k] == crate::hash::hwd_le_bytes(v.file_path_lookup[j])[k] by {
            crate::bytes::lemma_cat_at(rb_segs(v), 9, j * 8 + k);
            crate::emit::lemma_hwd_table_bytes_at(v.file_path_lookup, j, k);
        }
        crate::bytes::lemma_cat_at(rb_segs(v), 9, j * 8 + 8 - 1);
        crate::hash::lemma_hwd_le_at_of_bytes(b, off + j * 8, v.file_path_lookup[j]);
    }
}

/// Each record of this table reads back from its segment of the serialized
/// section.
#[verifier::spinoff_prover]
#[verifier::rlimit(100)]
proof fn lemma_rb_table_10(v: RtView, off: int)
    requires
        off == crate::bytes::cat_off(rb_segs(v), 10),
    ensures
        forall|j: int|
            0 <= j < v.file_path.len() ==> crate::data::file_path::file_path_le_at(
                crate::bytes::cat(rb_segs(v)),
                off + j * 32,
            ) == v.file_path[j],
{
    lemma_rb_segs_at(v);
    crate::emit::lemma_file_path_table_bytes_len(v.file_path);
    let b = crate::bytes::cat(rb_segs(v));
    assert forall|j: int| 0 <= j < v.file_path.len() implies crate::data::file_path::file_path_le_at(b, off + j * 32)
        == v.file_path[j] by {
        assert forall|k: int| 0 <= k < 32 implies b[off + j * 32 + k] == crate::data::file_path::file_path_le_bytes(v.file_path[j])[k] by {
            crate::bytes::lemma_cat_at(rb_segs(v), 10, j * 32 + k);
            crate::emit::lemma_file_path_table_bytes_at(v.file_path, j, k);
        }
        crate::bytes::lemma_cat_at(rb_segs(v), 10, j * 32 + 32 - 1);
        crate::data::file_path::lemma_file_path_le_at_of_bytes(b, off + j * 32, v.file_path[j]);
    }
}

/// Each record of this table reads back from its segment of the serialized
/// section.
#[verifier::spinoff_prover]
#[verifier::rlimit(100)]
proof fn lemma_rb_table_11(v: RtView, off: int)
    requires
        off == crate::bytes::cat_off(rb_segs(v), 11),
    ensures
        forall|j: int|
            0 <= j < v.file_entity.len() ==> crate::data::file_entity::file_entity_le_at(
                crate::bytes::cat(rb_segs(v)),
                off + j * 8,
            ) == v.file_entity[j],
{
    lemma_rb_segs_at(v);
    crate::emit::lemma_file_entity_table_bytes_len(v.file_entity);
    let b = crate::bytes::cat(rb_segs(v));
    assert forall|j: int| 0 <= j < v.file_entity.len() implies crate::data::file_entity::file_entity_le_at(b, off + j * 8)
        == v.file_entity[j] by {
        assert forall|k: int| 0 <= k < 8 implies b[off + j * 8 + k] == crate::data::file_entity::file_entity_le_bytes(v.file_entity[j])[k] by {
            crate::bytes::lemma_cat_at(rb_segs(v), 11, j * 8 + k);
            crate::emit::lemma_file_entity_table_bytes_at(v.file_entity, j, k);
        }
        crate::bytes::lemma_cat_at(rb_segs(v), 11, j * 8 + 8 - 1);
        crate::data::file_entity::lemma_file_entity_le_at_of_bytes(b, off + j * 8, v.file_entity[j]);
    }
}

/// Each record of this table reads back from its segment of the serialized
/// section.
#[verifier::spinoff_prover]
#[verifier::rlimit(100)]
proof fn lemma_rb_table_12(v: RtView, off: int)
    requires
        off == crate::bytes::cat_off(rb_segs(v), 12),
    ensures
        forall|j: int|
            0 <= j < v.file_package_lookup.len() ==> crate::hash::hwd_le_at(
                crate::bytes::cat(rb_segs(v)),
                off + j * 8,
            ) == v.file_package_lookup[j],
{
    lemma_rb_segs_at(v);
    crate::emit::lemma_hwd_table_bytes_len(v.file_package_lookup);
    let b = crate::bytes::cat(rb_segs(v));
    assert forall|j: int| 0 <= j < v.file_package_lookup.len() implies crate::hash::hwd_le_at(b, off + j * 8)
        == v.file_package_lookup[j] by {
        assert forall|k: int| 0 <= k < 8 implies b[off + j * 8 + k] == crate::hash::hwd_le_bytes(v.file_package_lookup[j])[k] by {
            crate::bytes::lemma_cat_at(rb_segs(v), 12, j * 8 + k);
            crate::emit::lemma_hwd_table_bytes_at(v.file_package_lookup, j, k);
        }
        crate::bytes::lemma_cat_at(rb_segs(v), 12, j * 8 + 8 - 1);
        crate::hash::lemma_hwd_le_at_of_bytes(b, off + j * 8, v.file_package_lookup[j]);
    }
}

/// Each record of this table reads back from its segment of the serialized
/// section.
#[verifier::spinoff_prover]
#[verifier::rlimit(100)]
proof fn lemma_rb_table_13(v: RtView, off: int)
    requires
        off == crate::bytes::cat_off(rb_segs(v), 13),
    ensures
        forall|j: int|
            0 <= j < v.file_package.len() ==> crate::data::file_package::file_package_le_at(
                crate::bytes::cat(rb_segs(v)),
                off + j * 52,
            ) == v.file_package[j],
{
    lemma_rb_segs_at(v);
    crate::emit::lemma_file_package_table_bytes_len(v.file_package);
    let b = crate::bytes::cat(rb_segs(v));
    assert forall|j: int| 0 <= j < v.file_package.len() implies crate::data::file_package::file_package_le_at(b, off + j * 52)
        == v.file_package[j] by {
        assert forall|k: int| 0 <= k < 52 implies b[off + j * 52 + k] == crate::data::file_package::file_package_le_bytes(v.file_package[j])[k] by {
            crate::bytes::lemma_cat_at(rb_segs(v), 13, j * 52 + k);
            crate::emit::lemma_file_package_table_bytes_at(v.file_package, j, k);
        }
        crate::bytes::lemma_cat_at(rb_segs(v), 13, j * 52 + 52 - 1);
        crate::data::file_package::lemma_file_package_le_at_of_bytes(b, off + j * 52, v.file_package[j]);
    }
}

/// Each record of this table reads back from its segment of the serialized
/// section.
#[verifier::spinoff_prover]
#[verifier::rlimit(100)]
proof fn lemma_rb_table_14(v: RtView, off: int)
    requires
        off == crate::bytes::cat_off(rb_segs(v), 14),
    ensures
        forall|j: int|
            0 <= j < v.file_group.len() ==> crate::data::file_group::file_group_le_at(
                crate::bytes::cat(rb_segs(v)),
                off + j * 28,
            ) == v.file_group[j],
{
    lemma_rb_segs_at(v);
    crate::emit::lemma_file_group_table_bytes_len(v.file_group);
    let b = crate::bytes::cat(rb_segs(v));
    assert forall|j: int| 0 <= j < v.file_group.len() implies crate::data::file_group::file_group_le_at(b, off + j * 28)
        == v.file_group[j] by {
        assert forall|k: int| 0 <= k < 28 implies b[off + j * 28 + k] == crate::data::file_group::file_group_le_bytes(v.file_group[j])[k] by {
            crate::bytes::lemma_cat_at(rb_segs(v), 14, j * 28 + k);
            crate::emit::lemma_file_group_table_bytes_at(v.file_group, j, k);
        }
        crate::bytes::lemma_cat_at(rb_segs(v), 14, j * 28 + 28 - 1);
        crate::data::file_group::lemma_file_group_le_at_of_bytes(b, off + j * 28, v.file_group[j]);
    }
}

/// Each record of this table reads back from its segment of the serialized
/// section.
#[verifier::spinoff_prover]
#[verifier::rlimit(100)]
proof fn lemma_rb_table_15(v: RtView, off: int)
    requires
        off == crate::bytes::cat_off(rb_segs(v), 15),
    ensures
        forall|j: int|
            0 <= j < v.file_package_child.len() ==> crate::data::file_package::file_package_child_le_at(
                crate::bytes::cat(rb_segs(v)),
                off + j * 8,
            ) == v.file_package_child[j],
{
    lemma_rb_segs_at(v);
    crate::emit::lemma_file_package_child_table_bytes_len(v.file_package_child);
    let b = crate::bytes::cat(rb_segs(v));
    assert forall|j: int| 0 <= j < v.file_package_child.len() implies crate::data::file_package::file_package_child_le_at(b, off + j * 8)
        == v.file_package_child[j] by {
        assert forall|k: int| 0 <= k < 8 implies b[off + j * 8 + k] == crate::data::file_package::file_package_child_le_bytes(v.file_package_child[j])[k] by {
            crate::bytes::lemma_cat_at(rb_segs(v), 15, j * 8 + k);
            crate::emit::lemma_file_package_child_table_bytes_at(v.file_package_child, j, k);
        }
        crate::bytes::lemma_cat_at(rb_segs(v), 15, j * 8 + 8 - 1);
        crate::data::file_package::lemma_file_package_child_le_at_of_bytes(b, off + j * 8, v.file_package_child[j]);
    }
}

/// Each record of this table reads back from its segment of the serialized
/// section.
#[verifier::spinoff_prover]
#[verifier::rlimit(100)]
proof fn lemma_rb_table_16(v: RtView, off: int)
    requires
        off == crate::bytes::cat_off(rb_segs(v), 16),
    ensures
        forall|j: int|
            0 <= j < v.file_info.len() ==> crate::data::file_info::file_info_le_at(
                crate::bytes::cat(rb_segs(v)),
                off + j * 16,
            ) == v.file_info[j],
{
    lemma_rb_segs_at(v);
    crate::emit::lemma_file_info_table_bytes_len(v.file_info);
    let b = crate::bytes::cat(rb_segs(v));
    assert forall|j: int| 0 <= j < v.file_info.len() implies crate::data::file_info::file_info_le_at(b, off + j * 16)
        == v.file_info[j] by {
        assert forall|k: int| 0 <= k < 16 implies b[off + j * 16 + k] == crate::data::file_info::file_info_le_bytes(v.file_info[j])[k] by {
            crate::bytes::lemma_cat_at(rb_segs(v), 16, j * 16 + k);
            crate::emit::lemma_file_info_table_bytes_at(v.file_info, j, k);
        }
        crate::bytes::lemma_cat_at(rb_segs(v), 16, j * 16 + 16 - 1);
        crate::data::file_info::lemma_file_info_le_at_of_bytes(b, off + j * 16, v.file_info[j]);
    }
}

/// Each record of this table reads back from its segment of the serialized
/// section.
#[verifier::spinoff_prover]
#[verifier::rlimit(100)]
proof fn lemma_rb_table_17(v: RtView, off: int)
    requires
        off == crate::bytes::cat_off(rb_segs(v), 17),
    ensures
        forall|j: int|
            0 <= j < v.file_desc.len() ==> crate::data::file_desc::file_desc_le_at(
                crate::bytes::cat(rb_segs(v)),
                off + j * 12,
            ) == v.file_desc[j],
{
    lemma_rb_segs_at(v);
    crate::emit::lemma_file_desc_table_bytes_len(v.file_desc);
    let b = crate::bytes::cat(rb_segs(v));
    assert forall|j: int| 0 <= j < v.file_desc.len() implies crate::data::file_desc::file_desc_le_at(b, off + j * 12)
        == v.file_desc[j] by {
        assert forall|k: int| 0 <= k < 12 implies b[off + j * 12 + k] == crate::data::file_desc::file_desc_le_bytes(v.file_desc[j])[k] by {
            crate::bytes::lemma_cat_at(rb_segs(v), 17, j * 12 + k);
            crate::emit::lemma_file_desc_table_bytes_at(v.file_desc, j, k);
        }
        crate::bytes::lemma_cat_at(rb_segs(v), 17, j * 12 + 12 - 1);
        crate::data::file_desc::lemma_file_desc_le_at_of_bytes(b, off + j * 12, v.file_desc[j]);
    }
}

/// Each record of this table reads back from its segment of the serialized
/// section.
#[verifier::spinoff_prover]
#[verifier::rlimit(100)]
proof fn lemma_rb_table_18(v: RtView, off: int)
    requires
        off == crate::bytes::cat_off(rb_segs(v), 18),
    ensures
        forall|j: int|
            0 <= j < v.file_data.len() ==> crate::data::file_data::file_data_le_at(
                crate::bytes::cat(rb_segs(v)),
                off + j * 16,
            ) == v.file_data[j],
{
    lemma_rb_segs_at(v);
    crate::emit::lemma_file_data_table_bytes_len(v.file_data);
    let b = crate::bytes::cat(rb_segs(v));
    assert forall|j: int| 0 <= j < v.file_data.len() implies crate::data::file_data::file_data_le_at(b, off + j * 16)
        == v.file_data[j] by {
        assert forall|k: int| 0 <= k < 16 implies b[off + j * 16 + k] == crate::data::file_data::file_data_le_bytes(v.file_data[j])[k] by {
            crate::bytes::lemma_cat_at(rb_segs(v), 18, j * 16 + k);
            crate::emit::lemma_file_data_table_bytes_at(v.file_data, j, k);
        }
        crate::bytes::lemma_cat_at(rb_segs(v), 18, j * 16 + 16 - 1);
        crate::data::file_data::lemma_file_data_le_at_of_bytes(b, off + j * 16, v.file_data[j]);
    }
}


/// Law of the round trip for the verbatim serializer: loading the serialized
/// bytes of a consistent structure yields exactly that structure back. With
/// the executable contracts this says that feeding the verbatim serializer's
/// output to the loader reproduces every table, lookup, and header field.
pub proof fn lemma_quick_serialize_round_trip(v: RtView)
    requires
        crate::resource::rt_wf(v),
    ensures
        crate::resource::spec_from_bytes(crate::emit::spec_resource_bytes(v.header, v))
            == Ok::<RtView, crate::err::ArcError>(v),
{
    lemma_rb_cat(v);
    let b = crate::bytes::cat(rb_segs(v));
    lemma_rb_readback_header(v, b);
    lemma_rb_readback_words(v, b);
    lemma_rb_table_1(v, crate::bytes::cat_off(rb_segs(v), 1));
    lemma_rb_table_2(v, crate::bytes::cat_off(rb_segs(v), 2));
    lemma_rb_table_3(v, crate::bytes::cat_off(rb_segs(v), 3));
    lemma_rb_table_4(v, crate::bytes::cat_off(rb_segs(v), 4));
    lemma_rb_table_5(v, crate::bytes::cat_off(rb_segs(v), 5));
    lemma_rb_table_8(v, crate::bytes::cat_off(rb_segs(v), 8));
    lemma_rb_table_9(v, crate::bytes::cat_off(rb_segs(v), 9));
    lemma_rb_table_10(v, crate::bytes::cat_off(rb_segs(v), 10));
    lemma_rb_table_11(v, crate::bytes::cat_off(rb_segs(v), 11));
    lemma_rb_table_12(v, crate::bytes::cat_off(rb_segs(v), 12));
    lemma_rb_table_13(v, crate::bytes::cat_off(rb_segs(v), 13));
    lemma_rb_table_14(v, crate::bytes::cat_off(rb_segs(v), 14));
    lemma_rb_table_15(v, crate::bytes::cat_off(rb_segs(v), 15));
    lemma_rb_table_16(v, crate::bytes::cat_off(rb_segs(v), 16));
    lemma_rb_table_17(v, crate::bytes::cat_off(rb_segs(v), 17));
    lemma_rb_table_18(v, crate::bytes::cat_off(rb_segs(v), 18));
    lemma_rb_conclude(v, b);
}

/// The header reads back from the concatenated section.
#[verifier::rlimit(100)]
#[verifier::spinoff_prover]
proof fn lemma_rb_readback_header(v: RtView, b: Seq<u8>)
    requires
        crate::resource::rt_wf(v),
        b == crate::bytes::cat(rb_segs(v)),
    ensures
        crate::resource::header_le_at(b) == v.header,
{
    let h = v.header;
    lemma_rb_segs_at(v);
    assert(crate::resource::header_le_bytes(h).len() == 272);
    assert(crate::bytes::cat_off(rb_segs(v), 0) == 0) by {
        assert(rb_segs(v).take(0) =~= Seq::<Seq<u8>>::empty());
    }
    crate::bytes::lemma_cat_at(rb_segs(v), 0, 271);
    assert(b.len() >= 272);
    assert forall|i: int| 0 <= i < 272 implies #[trigger] b[i] == crate::resource::header_le_bytes(
        h,
    )[i] by {
        crate::bytes::lemma_cat_at(rb_segs(v), 0, i);
    }
    crate::resource::lemma_header_le_at_of_bytes(b, h);
}

/// The two lookup size words read back from the concatenated section.
#[verifier::rlimit(100)]
#[verifier::spinoff_prover]
proof fn lemma_rb_readback_words(v: RtView, b: Seq<u8>)
    requires
        crate::resource::rt_wf(v),
        b == crate::bytes::cat(rb_segs(v)),
    ensures
        crate::bytes::u32_le_at(b, crate::bytes::cat_off(rb_segs(v), 6))
            == v.file_path_lookup.len(),
        crate::bytes::u32_le_at(b, crate::bytes::cat_off(rb_segs(v), 6) + 4) == v.buckets.len(),
{
    lemma_rb_segs_at(v);
    let c6 = crate::bytes::cat_off(rb_segs(v), 6);
    crate::bytes::lemma_cat_off_step(rb_segs(v), 6);
    assert(crate::bytes::cat_off(rb_segs(v), 7) == c6 + 4);
    crate::bytes::lemma_cat_at(rb_segs(v), 6, 3);
    crate::bytes::lemma_cat_at(rb_segs(v), 7, 3);
    assert(c6 >= 0);
    assert(b.len() >= c6 + 8);
    assert forall|k: int| 0 <= k < 4 implies #[trigger] b[c6 + k] == crate::bytes::u32_le_bytes(
        v.file_path_lookup.len() as u32,
    )[k] by {
        crate::bytes::lemma_cat_at(rb_segs(v), 6, k);
    }
    crate::bytes::lemma_u32_le_at_of_bytes(b, c6, v.file_path_lookup.len() as u32);
    assert forall|k: int| 0 <= k < 4 implies #[trigger] b[c6 + 4 + k] == crate::bytes::u32_le_bytes(
        v.buckets.len() as u32,
    )[k] by {
        crate::bytes::lemma_cat_at(rb_segs(v), 7, k);
    }
    crate::bytes::lemma_u32_le_at_of_bytes(b, c6 + 4, v.buckets.len() as u32);
}

/// The loader, applied to bytes whose header and table segments all read
/// back, yields the structure itself.
#[verifier::rlimit(100)]
#[verifier::spinoff_prover]
proof fn lemma_rb_conclude(v: RtView, b: Seq<u8>)
    requires
        crate::resource::rt_wf(v),
        b == crate::bytes::cat(rb_segs(v)),
        crate::resource::header_le_at(b) == v.header,
        crate::bytes::u32_le_at(b, crate::bytes::cat_off(rb_segs(v), 6))
            == v.file_path_lookup.len(),
        crate::bytes::u32_le_at(b, crate::bytes::cat_off(rb_segs(v), 6) + 4) == v.buckets.len(),
        forall|j: int|
            0 <= j < v.stream_folder.len() ==> crate::data::stream_folder::stream_folder_le_at(
                b,
                crate::bytes::cat_off(rb_segs(v), 1) + j * 12,
            ) == v.stream_folder[j],
        forall|j: int|
            0 <= j < v.stream_path_lookup.len() ==> crate::hash::hwd_le_at(
                b,
                crate::bytes::cat_off(rb_segs(v), 2) + j * 8,
            ) == v.stream_path_lookup[j],
        forall|j: int|
            0 <= j < v.stream_path.len() ==> crate::data::stream_path::stream_path_le_at(
                b,
                crate::bytes::cat_off(rb_segs(v), 3) + j * 12,
            ) == v.stream_path[j],
        forall|j: int|
            0 <= j < v.stream_desc.len() ==> crate::data::stream_desc::stream_desc_le_at(
                b,
                crate::bytes::cat_off(rb_segs(v), 4) + j * 4,
            ) == v.stream_desc[j],
        forall|j: int|
            0 <= j < v.stream_data.len() ==> crate::data::stream_data::stream_data_le_at(
                b,
                crate::bytes::cat_off(rb_segs(v), 5) + j * 16,
            ) == v.stream_data[j],
        forall|j: int|
            0 <= j < v.buckets.len() ==> crate::lookup::bucket_le_at(
                b,
                crate::bytes::cat_off(rb_segs(v), 8) + j * 8,
            ) == v.buckets[j],
        forall|j: int|
            0 <= j < v.file_path_lookup.len() ==> crate::hash::hwd_le_at(
                b,
                crate::bytes::cat_off(rb_segs(v), 9) + j * 8,
            ) == v.file_path_lookup[j],
        forall|j: int|
            0 <= j < v.file_path.len() ==> crate::data::file_path::file_path_le_at(
                b,
                crate::bytes::cat_off(rb_segs(v), 10) + j * 32,
            ) == v.file_path[j],
        forall|j: int|
            0 <= j < v.file_entity.len() ==> crate::data::file_entity::file_entity_le_at(
                b,
                crate::bytes::cat_off(rb_segs(v), 11) + j * 8,
            ) == v.file_entity[j],
        forall|j: int|
            0 <= j < v.file_package_lookup.len() ==> crate::hash::hwd_le_at(
                b,
                crate::bytes::cat_off(rb_segs(v), 12) + j * 8,
            ) == v.file_package_lookup[j],
        forall|j: int|
            0 <= j < v.file_package.len() ==> crate::data::file_package::file_package_le_at(
                b,
                crate::bytes::cat_off(rb_segs(v), 13) + j * 52,
            ) == v.file_package[j],
        forall|j: int|
            0 <= j < v.file_group.len() ==> crate::data::file_group::file_group_le_at(
                b,
                crate::bytes::cat_off(rb_segs(v), 14) + j * 28,
            ) == v.file_group[j],
        forall|j: int|
            0 <= j < v.file_package_child.len() ==> crate::data::file_package::file_package_child_le_at(
                b,
                crate::bytes::cat_off(rb_segs(v), 15) + j * 8,
            ) == v.file_package_child[j],
        forall|j: int|
            0 <= j < v.file_info.len() ==> crate::data::file_info::file_info_le_at(
                b,
                crate::bytes::cat_off(rb_segs(v), 16) + j * 16,
            ) == v.file_info[j],
        forall|j: int|
            0 <= j < v.file_desc.len() ==> crate::data::file_desc::file_desc_le_at(
                b,
                crate::bytes::cat_off(rb_segs(v), 17) + j * 12,
            ) == v.file_desc[j],
        forall|j: int|
            0 <= j < v.file_data.len() ==> crate::data::file_data::file_data_le_at(
                b,
                crate::bytes::cat_off(rb_segs(v), 18) + j * 16,
            ) == v.file_data[j],
    ensures
        crate::resource::spec_from_bytes(b) == Ok::<RtView, crate::err::ArcError>(v),
{
    let h = v.header;
    lemma_rb_offs(v);
    let o1 = 272 + h.stream_folder_count * 12;
    let o2 = o1 + h.stream_path_count * 8;
    let o3 = o2 + h.stream_path_count * 12;
    let o4 = o3 + h.stream_desc_count * 4;
    let o5 = o4 + h.stream_data_count * 16;
    assert(o5 == crate::bytes::cat_off(rb_segs(v), 6));
    let o6 = o5 + 8;
    let o7 = o6 + v.buckets.len() * 8;
    let o8 = o7 + v.file_path_lookup.len() * 8;
    assert(o6 == crate::bytes::cat_off(rb_segs(v), 8));
    assert(o7 == crate::bytes::cat_off(rb_segs(v), 9));
    assert(o8 == crate::bytes::cat_off(rb_segs(v), 10));
    let parsed = crate::resource::spec_from_bytes(b);

    assert(parsed is Ok);
    let w = parsed.unwrap();
    assert(w.header == h);
    assert(w.stream_folder =~= v.stream_folder);
    assert(w.stream_path_lookup =~= v.stream_path_lookup);
    assert(w.stream_path =~= v.stream_path);
    assert(w.stream_desc =~= v.stream_desc);
    assert(w.stream_data =~= v.stream_data);
    assert(w.buckets =~= v.buckets);
    assert(w.file_path_lookup =~= v.file_path_lookup);
    assert(w.file_path =~= v.file_path);
    assert(w.file_entity =~= v.file_entity);
    assert(w.file_package_lookup =~= v.file_package_lookup);
    assert(w.file_package =~= v.file_package);
    assert(w.file_group =~= v.file_group);
    assert(w.file_package_child =~= v.file_package_child);
    assert(w.file_info =~= v.file_info);
    assert(w.file_desc =~= v.file_desc);
    assert(w.file_data =~= v.file_data);
    assert(w == v);
}


/// The remapped structure is itself consistent: its header's counts are its
/// new table lengths. The two lookups keyed per record demand that the input
/// held one lookup entry per reserved stream path and per package.
#[verifier::rlimit(100)]
#[verifier::spinoff_prover]
proof fn lemma_remap_wf(v: RtView, s: SerView, ist: Option<u32>, w: RtView)
    requires
        crate::resource::rt_wf(v),
        tables_small(v),
        s.wf(),
        crate::reserialize::spec_remap(v, s, ist) == Ok::<RtView, crate::err::ArcError>(w),
        v.stream_path_lookup.len() == s.stream_path.len(),
        v.file_package_lookup.len() == s.file_package.len(),
    ensures
        crate::resource::rt_wf(w),
{
    let pkg_len = v.file_package.len() as u32;
    let split = crate::reserialize::group_split(s.file_group, ist);
    crate::reserialize::lemma_group_split_le(s.file_group, ist);
    crate::reserialize::lemma_emit_stream_folder_len(
        v.stream_folder,
        s.stream_folder,
        s,
        s.stream_folder.len(),
    );
    crate::reserialize::lemma_emit_lookup_len(
        v.stream_path_lookup,
        s.stream_path,
        v.stream_path_lookup.len(),
    );
    crate::reserialize::lemma_emit_stream_path_len(
        v.stream_path,
        s.stream_path,
        s,
        s.stream_path.len(),
    );
    crate::reserialize::lemma_emit_stream_desc_len(
        v.stream_desc,
        s.stream_desc,
        s,
        s.stream_desc.len(),
    );
    crate::reserialize::lemma_emit_stream_data_len(v.stream_data, s.stream_data, s.stream_data.len());
    crate::reserialize::lemma_emit_lookup_len(
        v.file_path_lookup,
        s.file_path,
        v.file_path_lookup.len(),
    );
    lemma_emit_file_path_len(v.file_path, s.file_path, s, s.file_path.len());
    crate::reserialize::lemma_emit_file_entity_len(
        v.file_entity,
        s.file_entity,
        s,
        pkg_len,
        s.file_entity.len(),
    );
    crate::reserialize::lemma_emit_lookup_len(
        v.file_package_lookup,
        s.file_package,
        v.file_package_lookup.len(),
    );
    crate::reserialize::lemma_emit_file_package_len(
        v.file_package,
        s.file_package,
        s,
        s.file_package.len(),
    );
    crate::reserialize::lemma_emit_file_group_data_len(
        v.file_group,
        s.file_group.take(split as int),
        s,
        pkg_len,
        split,
    );
    crate::reserialize::lemma_emit_file_group_info_len(
        v.file_group,
        s.file_group.skip(split as int),
        s,
        (s.file_group.len() - split) as nat,
    );
    crate::reserialize::lemma_emit_file_package_child_len(
        v.file_package_child,
        s.file_package_child,
        s,
        s.file_package_child.len(),
    );
    crate::reserialize::lemma_emit_file_info_len(v.file_info, s.file_info, s, s.file_info.len());
    crate::reserialize::lemma_emit_file_desc_len(v.file_desc, s.file_desc, s, s.file_desc.len());
    crate::reserialize::lemma_emit_file_data_len(v.file_data, s.file_data, s.file_data.len());
}

/// Law of the round trip for the re-serializer: loading the re-serialized
/// bytes of a consistent structure succeeds and yields exactly the remapped
/// structure — each table holds the rewrites of its reserved originals in
/// insertion order, which is the per-type index bijection under which the
/// output equals the input record for record. The stream path lookup, keyed
/// per record, demands that the input held one entry per reserved stream
/// path; the package side needs nothing extra, since packages are reserved
/// in original order and their lookup length is the package count.
pub proof fn lemma_reserialize_round_trip(v: RtView)
    requires
        crate::resource::rt_wf(v),
        spec_into_bytes(v) is Ok,
        v.stream_path_lookup.len() == spec_plan(v).unwrap().0.stream_path.len(),
    ensures
        spec_plan(v) is Some,
        ({
            let (s, ist) = spec_plan(v).unwrap();
            &&& crate::reserialize::spec_remap(v, s, ist) is Ok
            &&& crate::resource::spec_from_bytes(spec_into_bytes(v).unwrap()) == Ok::<
                RtView,
                crate::err::ArcError,
            >(crate::reserialize::spec_remap(v, s, ist).unwrap())
        }),
{
    assert(tables_small(v));
    let (s, ist) = spec_plan(v).unwrap();
    crate::reserialize::lemma_spec_plan_wf(v);
    lemma_package_indices_stable(v);
    assert(v.file_package_lookup.len() == s.file_package.len());
    let w = crate::reserialize::spec_remap(v, s, ist).unwrap();
    lemma_remap_wf(v, s, ist, w);
    assert(spec_into_bytes(v).unwrap() == crate::emit::spec_resource_bytes(w.header, w));
    lemma_quick_serialize_round_trip(w);
}


/// Law of package index stability: a successful reservation walk reserves
/// the packages in original order, so every package's new dense index is its
/// original index.
pub proof fn lemma_package_indices_stable(v: RtView)
    requires
        tables_small(v),
        spec_plan(v) is Some,
    ensures
        spec_plan(v).unwrap().0.file_package.len() == v.file_package.len(),
        forall|i: u32|
            i < v.file_package.len() ==> sv_get(spec_plan(v).unwrap().0.file_package, i) == Some(
                i,
            ),
{
    crate::reserialize::lemma_spec_plan_package_identity(v);
    let s = spec_plan(v).unwrap().0;
    let ident = Seq::new(v.file_package.len(), |k: int| k as u32);
    assert(s.file_package =~= ident);
    assert forall|i: u32| i < v.file_package.len() implies sv_get(s.file_package, i) == Some(
        i,
    ) by {
        assert(i < INVALID_INDEX);
        assert(s.file_package[i as int] == i);
        assert(s.file_package.contains(i));
        assert(crate::serialization::distinct(s.file_package));
        crate::serialization::lemma_fio_distinct(s.file_package, i, i as int);
    }
}

/// Law of symlink stability: because packages keep their indices, a
/// data-bearing group whose redirection names a package — a symlink's
/// data group under the subpackage rule — is rewritten with that same
/// redirection, so a reloaded symlink still resolves to the dense index of
/// the original target package.
pub proof fn lemma_sym_link_redirection_stable(v: RtView, g: FileGroup)
    requires
        tables_small(v),
        spec_plan(v) is Some,
        g.redirection < v.file_package.len(),
        g.spec_rewrite_data(spec_plan(v).unwrap().0, v.file_package.len() as u32) is Ok,
    ensures
        g.spec_rewrite_data(spec_plan(v).unwrap().0, v.file_package.len() as u32).unwrap()
            .redirection == g.redirection,
{
    lemma_package_indices_stable(v);
    assert(g.redirection != INVALID_INDEX);
}

/// Law of fan-out survival: a rewritten file info keeps its flags, so its
/// descriptor fan-out count is unchanged — a localized info still fans out
/// over fifteen descriptors after re-serialization, a regional one over six.
pub proof fn lemma_rewrite_keeps_fan_out(info: FileInfo, s: SerView)
    ensures
        info.spec_rewrite(s) is Ok ==> {
            &&& info.spec_rewrite(s).unwrap().flags == info.flags
            &&& info.spec_rewrite(s).unwrap().spec_descriptor_count()
                == info.spec_descriptor_count()
        },
{
}

/// Law of descriptor-run survival: reserving an info's descriptor run fresh
/// assigns its descriptors consecutive new indices headed by the new index of
/// the first descriptor, so the run stays contiguous — and the same length —
/// in the compacted space.
pub proof fn lemma_descriptor_run_survival(info: FileInfo, s: Seq<u32>)
    requires
        crate::serialization::rsv_wf(s),
        info.desc != INVALID_INDEX,
        info.desc + info.spec_descriptor_count() < INVALID_INDEX,
        crate::serialization::sv_reserve_range(s, info.desc, info.spec_descriptor_count())
            is Some,
    ensures
        ({
            let t = crate::serialization::sv_reserve_range(
                s,
                info.desc,
                info.spec_descriptor_count(),
            ).unwrap();
            forall|k: int|
                0 <= k < info.spec_descriptor_count() ==> #[trigger] sv_get(
                    t,
                    (info.desc + k) as u32,
                ) == Some((s.len() + k) as u32)
        }),
{
    let count = info.spec_descriptor_count();
    let t = crate::serialization::sv_reserve_range(s, info.desc, count).unwrap();
    assert(crate::serialization::sv_reserve_n(s, info.desc, count as nat) is Some);
    crate::reserialize::lemma_sv_reserve_n_block(s, info.desc, count as nat);
    crate::serialization::lemma_sv_reserve_n_wf(s, info.desc, count as nat);
    assert(t =~= s + Seq::new(count as nat, |j: int| (info.desc + j) as u32));
    assert forall|k: int| 0 <= k < count implies #[trigger] sv_get(t, (info.desc + k) as u32)
        == Some((s.len() + k) as u32) by {
        let x = (info.desc + k) as u32;
        assert(t[s.len() + k] == x);
        assert(t.contains(x));
        assert(x != INVALID_INDEX);
        crate::serialization::lemma_fio_distinct(t, x, s.len() + k);
    }
}

} // verus!
