//! The re-serializer's specification: the reservation walk that assigns every
//! originally-referenced entry a new dense index in a stable order, and the
//! emission that writes each table in new-index order with every embedded
//! index rewritten. Reservations are complete before rewrites begin.

use crate::data::file_data::FileData;
use crate::data::file_desc::FileDesc;
use crate::data::file_entity::FileEntity;
use crate::data::file_group::FileGroup;
use crate::data::file_info::FileInfo;
use crate::data::file_package::{FilePackage, FilePackageChild, HAS_SUB_PACKAGE, IS_SYM_LINK};
use crate::data::file_path::FilePath;
use crate::data::stream_data::StreamData;
use crate::data::stream_desc::StreamDesc;
use crate::data::stream_folder::StreamFolder;
use crate::data::stream_path::StreamPath;
use crate::emit::spec_resource_bytes;
use crate::err::ArcError;
use crate::hash::{spec_hwd_data, HashWithData};
use crate::index::{spec_checked_range, INVALID_INDEX};
use crate::resource::{HeaderView, RtView};
use crate::serialization::{
    rsv_wf, sv_get, sv_reserve, sv_reserve_n, sv_reserve_range, sv_try, sv_try_n, sv_try_range,
    SerState, SerView,
};
use vstd::prelude::*;

verus! {

/// A state with nothing reserved.
pub open spec fn sv_empty() -> SerView {
    SerView {
        file_path: Seq::empty(),
        file_entity: Seq::empty(),
        file_info: Seq::empty(),
        file_desc: Seq::empty(),
        file_data: Seq::empty(),
        file_package: Seq::empty(),
        file_package_child: Seq::empty(),
        file_group: Seq::empty(),
        stream_folder: Seq::empty(),
        stream_path: Seq::empty(),
        stream_desc: Seq::empty(),
        stream_data: Seq::empty(),
    }
}

// ----- the reservation walk -----

/// The file data children of the first `n` groups of a package's data-group
/// run, reserved with overlap legal; each group must exist.
pub open spec fn plan_pkg_data_groups(v: RtView, s: Seq<u32>, gstart: u32, n: nat) -> Option<
    Seq<u32>,
>
    decreases n,
{
    if n == 0 {
        Some(s)
    } else {
        match plan_pkg_data_groups(v, s, gstart, (n - 1) as nat) {
            None => None,
            Some(t) => {
                let g = (gstart + n - 1) as u32;
                if g >= v.file_group.len() {
                    None
                } else {
                    sv_try_range(t, v.file_group[g as int].child_start, v.file_group[g as int].child_count)
                }
            },
        }
    }
}

/// The descriptor runs of the first `n` infos of a run, each reserved fresh;
/// each info must exist.
pub open spec fn plan_info_descs(v: RtView, s: Seq<u32>, istart: u32, n: nat) -> Option<Seq<u32>>
    decreases n,
{
    if n == 0 {
        Some(s)
    } else {
        match plan_info_descs(v, s, istart, (n - 1) as nat) {
            None => None,
            Some(t) => {
                let fi = (istart + n - 1) as u32;
                if fi >= v.file_info.len() {
                    None
                } else {
                    sv_reserve_range(
                        t,
                        v.file_info[fi as int].desc,
                        v.file_info[fi as int].spec_descriptor_count(),
                    )
                }
            },
        }
    }
}

/// Whether a package's subpackage resolution succeeds: a package with the
/// subpackage flag must have its data group, a symlink must redirect to an
/// existing package, and a group-form subpackage must redirect to an existing
/// group or carry the sentinel.
pub open spec fn pkg_sub_ok(v: RtView, p: FilePackage) -> bool {
    if p.flags & HAS_SUB_PACKAGE == 0 {
        true
    } else {
        let g0 = p.spec_data_group_start();
        if g0 >= v.file_group.len() {
            false
        } else {
            let red = v.file_group[g0 as int].redirection;
            if p.flags & IS_SYM_LINK != 0 {
                red < v.file_package.len()
            } else {
                red == INVALID_INDEX || red < v.file_group.len()
            }
        }
    }
}

/// The info-bearing group a package's subpackage contributes, if any.
pub open spec fn pkg_sub_group(v: RtView, p: FilePackage) -> Option<u32> {
    if p.flags & HAS_SUB_PACKAGE != 0 && p.flags & IS_SYM_LINK == 0 && p.spec_data_group_start()
        < v.file_group.len() {
        let red = v.file_group[p.spec_data_group_start() as int].redirection;
        if red != INVALID_INDEX {
            Some(red)
        } else {
            None
        }
    } else {
        None
    }
}

/// One package's reservations: itself, its child run, its info run, its
/// data-group run, each data group's file data children, each info's
/// descriptor run, and its subpackage checks.
pub open spec fn plan_one_package(v: RtView, s: SerView, i: int) -> Option<SerView> {
    let p = v.file_package[i];
    match sv_reserve(s.file_package, i as u32) {
        None => None,
        Some(pk) => {
            let s1 = SerView { file_package: pk, ..s };
            match p.spec_reserve(s1) {
                None => None,
                Some(s2) => {
                    let grange = spec_checked_range(
                        p.spec_data_group_start(),
                        p.spec_data_group_count(),
                    );
                    match plan_pkg_data_groups(
                        v,
                        s2.file_data,
                        p.spec_data_group_start(),
                        grange.len(),
                    ) {
                        None => None,
                        Some(fd) => {
                            let irange = spec_checked_range(p.info_start, p.info_count);
                            match plan_info_descs(v, s2.file_desc, p.info_start, irange.len()) {
                                None => None,
                                Some(dc) => if pkg_sub_ok(v, p) {
                                    Some(SerView { file_data: fd, file_desc: dc, ..s2 })
                                } else {
                                    None
                                },
                            }
                        },
                    }
                },
            }
        },
    }
}

/// The reservations of the first `n` packages, in original order.
pub open spec fn plan_packages(v: RtView, s: SerView, n: nat) -> Option<SerView>
    decreases n,
{
    if n == 0 {
        Some(s)
    } else {
        match plan_packages(v, s, (n - 1) as nat) {
            None => None,
            Some(t) => plan_one_package(v, t, n - 1),
        }
    }
}

/// The info-bearing subpackage groups of the first `n` packages, in package
/// order.
pub open spec fn collected_groups(v: RtView, n: nat) -> Seq<u32>
    decreases n,
{
    if n == 0 {
        Seq::empty()
    } else {
        let r = collected_groups(v, (n - 1) as nat);
        match pkg_sub_group(v, v.file_package[n - 1]) {
            Some(g) => r.push(g),
            None => r,
        }
    }
}

/// The file data targets of the first `n` descriptors of a run, reserved
/// fresh; each descriptor must exist.
pub open spec fn plan_desc_data(v: RtView, s: Seq<u32>, dstart: u32, n: nat) -> Option<Seq<u32>>
    decreases n,
{
    if n == 0 {
        Some(s)
    } else {
        match plan_desc_data(v, s, dstart, (n - 1) as nat) {
            None => None,
            Some(t) => {
                let d = (dstart + n - 1) as u32;
                if d >= v.file_desc.len() {
                    None
                } else {
                    sv_reserve(t, v.file_desc[d as int].file_data)
                }
            },
        }
    }
}

/// For the first `n` infos of an info-group's child run: the descriptor run,
/// then each descriptor's file data target.
pub open spec fn plan_group_infos(v: RtView, s: SerView, istart: u32, n: nat) -> Option<SerView>
    decreases n,
{
    if n == 0 {
        Some(s)
    } else {
        match plan_group_infos(v, s, istart, (n - 1) as nat) {
            None => None,
            Some(t) => {
                let fi = (istart + n - 1) as u32;
                if fi >= v.file_info.len() {
                    None
                } else {
                    let info = v.file_info[fi as int];
                    match sv_reserve_range(t.file_desc, info.desc, info.spec_descriptor_count()) {
                        None => None,
                        Some(dc) => {
                            let drange = spec_checked_range(
                                info.desc,
                                info.spec_descriptor_count(),
                            );
                            match plan_desc_data(v, t.file_data, info.desc, drange.len()) {
                                None => None,
                                Some(fd) => Some(SerView { file_desc: dc, file_data: fd, ..t }),
                            }
                        },
                    }
                }
            },
        }
    }
}

/// One collected info group: reserved if not already, establishing the info
/// disposition threshold at the first newly reserved one, then its file info
/// children with their descriptor runs and data targets.
pub open spec fn plan_one_info_group(v: RtView, s: SerView, g: u32) -> Option<(SerView, bool)> {
    if g == INVALID_INDEX || s.file_group.contains(g) {
        Some((s, false))
    } else if g > INVALID_INDEX || s.file_group.len() >= INVALID_INDEX {
        None
    } else {
        let s1 = SerView { file_group: s.file_group.push(g), ..s };
        if g >= v.file_group.len() {
            None
        } else {
            let grp = v.file_group[g as int];
            match sv_reserve_range(s1.file_info, grp.child_start, grp.child_count) {
                None => None,
                Some(fi) => {
                    let s2 = SerView { file_info: fi, ..s1 };
                    let crange = spec_checked_range(grp.child_start, grp.child_count);
                    match plan_group_infos(v, s2, grp.child_start, crange.len()) {
                        None => None,
                        Some(s3) => Some((s3, true)),
                    }
                },
            }
        }
    }
}

/// The first `n` collected groups, in encounter order, also yielding the
/// original index of the first newly reserved one: where the info
/// disposition starts.
pub open spec fn plan_info_groups(v: RtView, s: SerView, gs: Seq<u32>, n: nat) -> Option<
    (SerView, Option<u32>),
>
    decreases n,
{
    if n == 0 {
        Some((s, None))
    } else {
        match plan_info_groups(v, s, gs, (n - 1) as nat) {
            None => None,
            Some((t, ist)) => match plan_one_info_group(v, t, gs[n - 1]) {
                None => None,
                Some((t2, newly)) => Some(
                    (
                        t2,
                        if ist is Some {
                            ist
                        } else if newly {
                            Some(gs[n - 1])
                        } else {
                            None
                        },
                    ),
                ),
            },
        }
    }
}

/// Indices `0..n` reserved in order: the identity walk over a whole table.
pub open spec fn plan_identity(s: Seq<u32>, n: nat) -> Option<Seq<u32>>
    decreases n,
{
    if n == 0 {
        Some(s)
    } else {
        match plan_identity(s, (n - 1) as nat) {
            None => None,
            Some(t) => sv_reserve(t, (n - 1) as u32),
        }
    }
}

/// The stream data targets of the first `n` stream descriptors of a run,
/// overlap legal; each descriptor must exist.
pub open spec fn plan_stream_desc_data(v: RtView, s: Seq<u32>, dstart: u32, n: nat) -> Option<
    Seq<u32>,
>
    decreases n,
{
    if n == 0 {
        Some(s)
    } else {
        match plan_stream_desc_data(v, s, dstart, (n - 1) as nat) {
            None => None,
            Some(t) => {
                let d = (dstart + n - 1) as u32;
                if d >= v.stream_desc.len() {
                    None
                } else {
                    sv_try(t, v.stream_desc[d as int].stream_data)
                }
            },
        }
    }
}

/// For the first `n` stream paths of a folder's child run: the descriptor
/// run, then each descriptor's stream data target.
pub open spec fn plan_folder_paths(v: RtView, s: SerView, pstart: u32, n: nat) -> Option<SerView>
    decreases n,
{
    if n == 0 {
        Some(s)
    } else {
        match plan_folder_paths(v, s, pstart, (n - 1) as nat) {
            None => None,
            Some(t) => {
                let sp = (pstart + n - 1) as u32;
                if sp >= v.stream_path.len() {
                    None
                } else {
                    let path = v.stream_path[sp as int];
                    let dstart = spec_hwd_data(path.path_and_desc.len_and_data);
                    match sv_reserve_range(t.stream_desc, dstart, path.spec_descriptor_count()) {
                        None => None,
                        Some(dc) => {
                            let drange = spec_checked_range(
                                dstart,
                                path.spec_descriptor_count(),
                            );
                            match plan_stream_desc_data(v, t.stream_data, dstart, drange.len()) {
                                None => None,
                                Some(sd) => Some(
                                    SerView { stream_desc: dc, stream_data: sd, ..t },
                                ),
                            }
                        },
                    }
                }
            },
        }
    }
}

/// One stream folder's reservations: itself, its stream path children, their
/// descriptor runs, and the descriptors' data targets.
pub open spec fn plan_one_folder(v: RtView, s: SerView, i: int) -> Option<SerView> {
    match sv_reserve(s.stream_folder, i as u32) {
        None => None,
        Some(sf) => {
            let s1 = SerView { stream_folder: sf, ..s };
            let f = v.stream_folder[i];
            let cstart = f.child_start_index;
            let ccount = spec_hwd_data(f.name_and_child_count.len_and_data);
            match sv_reserve_range(s1.stream_path, cstart, ccount) {
                None => None,
                Some(sp) => {
                    let s2 = SerView { stream_path: sp, ..s1 };
                    let crange = spec_checked_range(cstart, ccount);
                    plan_folder_paths(v, s2, cstart, crange.len())
                },
            }
        },
    }
}

/// The reservations of the first `n` stream folders, in original order.
pub open spec fn plan_folders(v: RtView, s: SerView, n: nat) -> Option<SerView>
    decreases n,
{
    if n == 0 {
        Some(s)
    } else {
        match plan_folders(v, s, (n - 1) as nat) {
            None => None,
            Some(t) => plan_one_folder(v, t, n - 1),
        }
    }
}

/// The whole reservation walk, in the order that is the dense-compacted
/// layout of the output: packages with their ranges and data, then the
/// collected info-bearing groups with their infos, then every file path,
/// every file entity, and every stream folder with its paths, descriptors,
/// and data. Yields the final state and the info disposition threshold.
pub open spec fn spec_plan(v: RtView) -> Option<(SerView, Option<u32>)> {
    match plan_packages(v, sv_empty(), v.file_package.len()) {
        None => None,
        Some(s1) => {
            let gs = collected_groups(v, v.file_package.len());
            match plan_info_groups(v, s1, gs, gs.len()) {
                None => None,
                Some((s2, istart)) => match plan_identity(s2.file_path, v.file_path.len()) {
                    None => None,
                    Some(fp) => match plan_identity(s2.file_entity, v.file_entity.len()) {
                        None => None,
                        Some(fe) => {
                            let s3 = SerView { file_path: fp, file_entity: fe, ..s2 };
                            match plan_folders(v, s3, v.stream_folder.len()) {
                                None => None,
                                Some(s4) => Some((s4, istart)),
                            }
                        },
                    },
                },
            }
        },
    }
}

// ----- the emission -----

/// How many leading elements are below `t`.
pub open spec fn take_while_lt(order: Seq<u32>, t: u32) -> nat
    decreases order.len(),
{
    if order.len() == 0 {
        0
    } else if order[0] < t {
        (1 + take_while_lt(order.drop_first(), t)) as nat
    } else {
        0
    }
}

/// Where the group emission switches from the data disposition to the info
/// disposition: at the first reserved group at or above the threshold; with
/// no threshold every group has the data disposition.
pub open spec fn group_split(order: Seq<u32>, istart: Option<u32>) -> nat {
    match istart {
        None => order.len(),
        Some(t) => take_while_lt(order, t),
    }
}

/// What characterizes the split point: everything before it is below the
/// threshold and it is the table's end or a position at or above it.
pub proof fn lemma_take_while_lt_char(order: Seq<u32>, t: u32, j: int)
    requires
        0 <= j <= order.len(),
        forall|k: int| 0 <= k < j ==> order[k] < t,
        j == order.len() || order[j] >= t,
    ensures
        take_while_lt(order, t) == j,
    decreases order.len(),
{
    if order.len() > 0 {
        if j == 0 {
        } else {
            assert(order[0] < t);
            let d = order.drop_first();
            assert(forall|k: int| 0 <= k < j - 1 ==> d[k] == order[k + 1]);
            if j - 1 < d.len() {
                assert(d[j - 1] == order[j]);
            }
            lemma_take_while_lt_char(d, t, j - 1);
        }
    }
}

/// The first `n` emitted entries of a lookup: hash kept, payload rewritten.
pub open spec fn emit_lookup(entries: Seq<HashWithData>, m: Seq<u32>, n: nat) -> Result<
    Seq<HashWithData>,
    ArcError,
>
    decreases n,
{
    if n == 0 {
        Ok(Seq::empty())
    } else {
        match emit_lookup(entries, m, (n - 1) as nat) {
            Err(e) => Err(e),
            Ok(rs) => {
                let e = entries[n - 1];
                match sv_get(m, spec_hwd_data(e.len_and_data)) {
                    None => Err(ArcError::CorruptGraph),
                    Some(d) => Ok(rs.push(e.spec_with_data(d))),
                }
            },
        }
    }
}


/// The first `n` emitted records of the table: the reserved originals in
/// insertion order, each rewritten; a missing original is a corrupt graph.
pub open spec fn emit_stream_folder(tbl: Seq<StreamFolder>, order: Seq<u32>, s: SerView, n: nat) -> Result<
    Seq<StreamFolder>,
    ArcError,
>
    decreases n,
{
    if n == 0 {
        Ok(Seq::empty())
    } else {
        match emit_stream_folder(tbl, order, s, (n - 1) as nat) {
            Err(e) => Err(e),
            Ok(rs) => {
                let oi = order[n - 1];
                if oi >= tbl.len() {
                    Err(ArcError::CorruptGraph)
                } else {
                    match tbl[oi as int].spec_rewrite(s) {
                        Err(e) => Err(e),
                        Ok(rec) => Ok(rs.push(rec)),
                    }
                }
            },
        }
    }
}

/// The first `n` emitted records of the table: the reserved originals in
/// insertion order, each rewritten; a missing original is a corrupt graph.
pub open spec fn emit_stream_path(tbl: Seq<StreamPath>, order: Seq<u32>, s: SerView, n: nat) -> Result<
    Seq<StreamPath>,
    ArcError,
>
    decreases n,
{
    if n == 0 {
        Ok(Seq::empty())
    } else {
        match emit_stream_path(tbl, order, s, (n - 1) as nat) {
            Err(e) => Err(e),
            Ok(rs) => {
                let oi = order[n - 1];
                if oi >= tbl.len() {
                    Err(ArcError::CorruptGraph)
                } else {
                    match tbl[oi as int].spec_rewrite(s) {
                        Err(e) => Err(e),
                        Ok(rec) => Ok(rs.push(rec)),
                    }
                }
            },
        }
    }
}

/// The first `n` emitted records of the table: the reserved originals in
/// insertion order, each rewritten; a missing original is a corrupt graph.
pub open spec fn emit_stream_desc(tbl: Seq<StreamDesc>, order: Seq<u32>, s: SerView, n: nat) -> Result<
    Seq<StreamDesc>,
    ArcError,
>
    decreases n,
{
    if n == 0 {
        Ok(Seq::empty())
    } else {
        match emit_stream_desc(tbl, order, s, (n - 1) as nat) {
            Err(e) => Err(e),
            Ok(rs) => {
                let oi = order[n - 1];
                if oi >= tbl.len() {
                    Err(ArcError::CorruptGraph)
                } else {
                    match tbl[oi as int].spec_rewrite(s) {
                        Err(e) => Err(e),
                        Ok(rec) => Ok(rs.push(rec)),
                    }
                }
            },
        }
    }
}

/// The first `n` emitted records of the table: a leaf kind, each reserved
/// original copied unchanged; a missing original is a corrupt graph.
pub open spec fn emit_stream_data(tbl: Seq<StreamData>, order: Seq<u32>, n: nat) -> Result<
    Seq<StreamData>,
    ArcError,
>
    decreases n,
{
    if n == 0 {
        Ok(Seq::empty())
    } else {
        match emit_stream_data(tbl, order, (n - 1) as nat) {
            Err(e) => Err(e),
            Ok(rs) => {
                let oi = order[n - 1];
                if oi >= tbl.len() {
                    Err(ArcError::CorruptGraph)
                } else {
                    Ok(rs.push(tbl[oi as int]))
                }
            },
        }
    }
}

/// The first `n` emitted records of the table: the reserved originals in
/// insertion order, each rewritten; a missing original is a corrupt graph.
pub open spec fn emit_file_path(tbl: Seq<FilePath>, order: Seq<u32>, s: SerView, n: nat) -> Result<
    Seq<FilePath>,
    ArcError,
>
    decreases n,
{
    if n == 0 {
        Ok(Seq::empty())
    } else {
        match emit_file_path(tbl, order, s, (n - 1) as nat) {
            Err(e) => Err(e),
            Ok(rs) => {
                let oi = order[n - 1];
                if oi >= tbl.len() {
                    Err(ArcError::CorruptGraph)
                } else {
                    match tbl[oi as int].spec_rewrite(s) {
                        Err(e) => Err(e),
                        Ok(rec) => Ok(rs.push(rec)),
                    }
                }
            },
        }
    }
}

/// The first `n` emitted records of the table: the reserved originals in
/// insertion order, each rewritten; a missing original is a corrupt graph.
pub open spec fn emit_file_entity(tbl: Seq<FileEntity>, order: Seq<u32>, s: SerView, pkg_len: u32, n: nat) -> Result<
    Seq<FileEntity>,
    ArcError,
>
    decreases n,
{
    if n == 0 {
        Ok(Seq::empty())
    } else {
        match emit_file_entity(tbl, order, s, pkg_len, (n - 1) as nat) {
            Err(e) => Err(e),
            Ok(rs) => {
                let oi = order[n - 1];
                if oi >= tbl.len() {
                    Err(ArcError::CorruptGraph)
                } else {
                    match tbl[oi as int].spec_rewrite(s, pkg_len) {
                        Err(e) => Err(e),
                        Ok(rec) => Ok(rs.push(rec)),
                    }
                }
            },
        }
    }
}

/// The first `n` emitted records of the table: the reserved originals in
/// insertion order, each rewritten; a missing original is a corrupt graph.
pub open spec fn emit_file_package(tbl: Seq<FilePackage>, order: Seq<u32>, s: SerView, n: nat) -> Result<
    Seq<FilePackage>,
    ArcError,
>
    decreases n,
{
    if n == 0 {
        Ok(Seq::empty())
    } else {
        match emit_file_package(tbl, order, s, (n - 1) as nat) {
            Err(e) => Err(e),
            Ok(rs) => {
                let oi = order[n - 1];
                if oi >= tbl.len() {
                    Err(ArcError::CorruptGraph)
                } else {
                    match tbl[oi as int].spec_rewrite(s) {
                        Err(e) => Err(e),
                        Ok(rec) => Ok(rs.push(rec)),
                    }
                }
            },
        }
    }
}

/// The first `n` emitted records of the table: the reserved originals in
/// insertion order, each rewritten; a missing original is a corrupt graph.
pub open spec fn emit_file_group_data(tbl: Seq<FileGroup>, order: Seq<u32>, s: SerView, pkg_len: u32, n: nat) -> Result<
    Seq<FileGroup>,
    ArcError,
>
    decreases n,
{
    if n == 0 {
        Ok(Seq::empty())
    } else {
        match emit_file_group_data(tbl, order, s, pkg_len, (n - 1) as nat) {
            Err(e) => Err(e),
            Ok(rs) => {
                let oi = order[n - 1];
                if oi >= tbl.len() {
                    Err(ArcError::CorruptGraph)
                } else {
                    match tbl[oi as int].spec_rewrite_data(s, pkg_len) {
                        Err(e) => Err(e),
                        Ok(rec) => Ok(rs.push(rec)),
                    }
                }
            },
        }
    }
}

/// The first `n` emitted records of the table: the reserved originals in
/// insertion order, each rewritten; a missing original is a corrupt graph.
pub open spec fn emit_file_group_info(tbl: Seq<FileGroup>, order: Seq<u32>, s: SerView, n: nat) -> Result<
    Seq<FileGroup>,
    ArcError,
>
    decreases n,
{
    if n == 0 {
        Ok(Seq::empty())
    } else {
        match emit_file_group_info(tbl, order, s, (n - 1) as nat) {
            Err(e) => Err(e),
            Ok(rs) => {
                let oi = order[n - 1];
                if oi >= tbl.len() {
                    Err(ArcError::CorruptGraph)
                } else {
                    match tbl[oi as int].spec_rewrite_info(s) {
                        Err(e) => Err(e),
                        Ok(rec) => Ok(rs.push(rec)),
                    }
                }
            },
        }
    }
}

/// The first `n` emitted records of the table: the reserved originals in
/// insertion order, each rewritten; a missing original is a corrupt graph.
pub open spec fn emit_file_package_child(tbl: Seq<FilePackageChild>, order: Seq<u32>, s: SerView, n: nat) -> Result<
    Seq<FilePackageChild>,
    ArcError,
>
    decreases n,
{
    if n == 0 {
        Ok(Seq::empty())
    } else {
        match emit_file_package_child(tbl, order, s, (n - 1) as nat) {
            Err(e) => Err(e),
            Ok(rs) => {
                let oi = order[n - 1];
                if oi >= tbl.len() {
                    Err(ArcError::CorruptGraph)
                } else {
                    match tbl[oi as int].spec_rewrite(s) {
                        Err(e) => Err(e),
                        Ok(rec) => Ok(rs.push(rec)),
                    }
                }
            },
        }
    }
}

/// The first `n` emitted records of the table: the reserved originals in
/// insertion order, each rewritten; a missing original is a corrupt graph.
pub open spec fn emit_file_info(tbl: Seq<FileInfo>, order: Seq<u32>, s: SerView, n: nat) -> Result<
    Seq<FileInfo>,
    ArcError,
>
    decreases n,
{
    if n == 0 {
        Ok(Seq::empty())
    } else {
        match emit_file_info(tbl, order, s, (n - 1) as nat) {
            Err(e) => Err(e),
            Ok(rs) => {
                let oi = order[n - 1];
                if oi >= tbl.len() {
                    Err(ArcError::CorruptGraph)
                } else {
                    match tbl[oi as int].spec_rewrite(s) {
                        Err(e) => Err(e),
                        Ok(rec) => Ok(rs.push(rec)),
                    }
                }
            },
        }
    }
}

/// The first `n` emitted records of the table: the reserved originals in
/// insertion order, each rewritten; a missing original is a corrupt graph.
pub open spec fn emit_file_desc(tbl: Seq<FileDesc>, order: Seq<u32>, s: SerView, n: nat) -> Result<
    Seq<FileDesc>,
    ArcError,
>
    decreases n,
{
    if n == 0 {
        Ok(Seq::empty())
    } else {
        match emit_file_desc(tbl, order, s, (n - 1) as nat) {
            Err(e) => Err(e),
            Ok(rs) => {
                let oi = order[n - 1];
                if oi >= tbl.len() {
                    Err(ArcError::CorruptGraph)
                } else {
                    match tbl[oi as int].spec_rewrite(s) {
                        Err(e) => Err(e),
                        Ok(rec) => Ok(rs.push(rec)),
                    }
                }
            },
        }
    }
}

/// The first `n` emitted records of the table: a leaf kind, each reserved
/// original copied unchanged; a missing original is a corrupt graph.
pub open spec fn emit_file_data(tbl: Seq<FileData>, order: Seq<u32>, n: nat) -> Result<
    Seq<FileData>,
    ArcError,
>
    decreases n,
{
    if n == 0 {
        Ok(Seq::empty())
    } else {
        match emit_file_data(tbl, order, (n - 1) as nat) {
            Err(e) => Err(e),
            Ok(rs) => {
                let oi = order[n - 1];
                if oi >= tbl.len() {
                    Err(ArcError::CorruptGraph)
                } else {
                    Ok(rs.push(tbl[oi as int]))
                }
            },
        }
    }
}

/// The output header: new counts taken from the reservation state, the group
/// table split at the info disposition threshold, version fields and the
/// locale table preserved, and the versioned subcategories emptied.
pub open spec fn spec_header_out(hin: HeaderView, s: SerView, split: nat) -> HeaderView {
    HeaderView {
        resource_data_size: hin.resource_data_size,
        file_path_count: s.file_path.len() as u32,
        file_entity_count: s.file_entity.len() as u32,
        file_package_count: s.file_package.len() as u32,
        file_data_group_count: split as u32,
        file_package_child_count: s.file_package_child.len() as u32,
        file_package_info_count: s.file_info.len() as u32,
        file_package_desc_count: s.file_desc.len() as u32,
        file_package_data_count: s.file_data.len() as u32,
        file_info_group_count: (s.file_group.len() - split) as u32,
        file_group_info_count: 0,
        locale_count: 14,
        region_count: 5,
        version_patch: hin.version_patch,
        version_minor: hin.version_minor,
        version_major: hin.version_major,
        versioned_file_group_count: 0,
        versioned_file_count: 0,
        versioned_file_info_count: 0,
        versioned_file_desc_count: 0,
        versioned_file_data_count: 0,
        locale_region: hin.locale_region,
        stream_folder_count: s.stream_folder.len() as u32,
        stream_path_count: s.stream_path.len() as u32,
        stream_desc_count: s.stream_desc.len() as u32,
        stream_data_count: s.stream_data.len() as u32,
    }
}

/// Every table and lookup is short enough to index below the sentinel.
pub open spec fn tables_small(v: RtView) -> bool {
    &&& v.stream_folder.len() <= INVALID_INDEX
    &&& v.stream_path_lookup.len() <= INVALID_INDEX
    &&& v.stream_path.len() <= INVALID_INDEX
    &&& v.stream_desc.len() <= INVALID_INDEX
    &&& v.stream_data.len() <= INVALID_INDEX
    &&& v.buckets.len() <= INVALID_INDEX
    &&& v.file_path_lookup.len() <= INVALID_INDEX
    &&& v.file_path.len() <= INVALID_INDEX
    &&& v.file_entity.len() <= INVALID_INDEX
    &&& v.file_package_lookup.len() <= INVALID_INDEX
    &&& v.file_package.len() <= INVALID_INDEX
    &&& v.file_group.len() <= INVALID_INDEX
    &&& v.file_package_child.len() <= INVALID_INDEX
    &&& v.file_info.len() <= INVALID_INDEX
    &&& v.file_desc.len() <= INVALID_INDEX
    &&& v.file_data.len() <= INVALID_INDEX
}

/// The remapped structure: every table emitted in new-index order with its
/// embedded indices rewritten, the lookups rewritten entry by entry, the
/// bucket directory verbatim, and the new header. The group table is split
/// around the threshold: data disposition below it, info disposition at or
/// above it.
pub open spec fn spec_remap(v: RtView, s: SerView, istart: Option<u32>) -> Result<
    RtView,
    ArcError,
> {
    let pkg_len = v.file_package.len() as u32;
    let split = group_split(s.file_group, istart);
    match emit_stream_folder(v.stream_folder, s.stream_folder, s, s.stream_folder.len()) {
        Err(e) => Err(e),
        Ok(sf) => match emit_lookup(v.stream_path_lookup, s.stream_path, v.stream_path_lookup.len()) {
            Err(e) => Err(e),
            Ok(spl) => match emit_stream_path(v.stream_path, s.stream_path, s, s.stream_path.len()) {
                Err(e) => Err(e),
                Ok(sp) => match emit_stream_desc(v.stream_desc, s.stream_desc, s, s.stream_desc.len()) {
                    Err(e) => Err(e),
                    Ok(sd) => match emit_stream_data(v.stream_data, s.stream_data, s.stream_data.len()) {
                        Err(e) => Err(e),
                        Ok(sdata) => match emit_lookup(v.file_path_lookup, s.file_path, v.file_path_lookup.len()) {
                            Err(e) => Err(e),
                            Ok(fpl) => match emit_file_path(v.file_path, s.file_path, s, s.file_path.len()) {
                                Err(e) => Err(e),
                                Ok(fp) => match emit_file_entity(v.file_entity, s.file_entity, s, pkg_len, s.file_entity.len()) {
                                    Err(e) => Err(e),
                                    Ok(fe) => match emit_lookup(v.file_package_lookup, s.file_package, v.file_package_lookup.len()) {
                                        Err(e) => Err(e),
                                        Ok(fpkl) => match emit_file_package(v.file_package, s.file_package, s, s.file_package.len()) {
                                            Err(e) => Err(e),
                                            Ok(fpkg) => match emit_file_group_data(v.file_group, s.file_group.take(split as int), s, pkg_len, split) {
                                                Err(e) => Err(e),
                                                Ok(gd) => match emit_file_group_info(v.file_group, s.file_group.skip(split as int), s, (s.file_group.len() - split) as nat) {
                                                    Err(e) => Err(e),
                                                    Ok(gi) => match emit_file_package_child(v.file_package_child, s.file_package_child, s, s.file_package_child.len()) {
                                                        Err(e) => Err(e),
                                                        Ok(fpc) => match emit_file_info(v.file_info, s.file_info, s, s.file_info.len()) {
                                                            Err(e) => Err(e),
                                                            Ok(fi) => match emit_file_desc(v.file_desc, s.file_desc, s, s.file_desc.len()) {
                                                                Err(e) => Err(e),
                                                                Ok(fd) => match emit_file_data(v.file_data, s.file_data, s.file_data.len()) {
                                                                    Err(e) => Err(e),
                                                                    Ok(fdata) => Ok(
                                                                        RtView {
                                                                            header: spec_header_out(v.header, s, split),
                                                                            stream_folder: sf,
                                                                            stream_path_lookup: spl,
                                                                            stream_path: sp,
                                                                            stream_desc: sd,
                                                                            stream_data: sdata,
                                                                            buckets: v.buckets,
                                                                            file_path_lookup: fpl,
                                                                            file_path: fp,
                                                                            file_entity: fe,
                                                                            file_package_lookup: fpkl,
                                                                            file_package: fpkg,
                                                                            file_group: gd + gi,
                                                                            file_package_child: fpc,
                                                                            file_info: fi,
                                                                            file_desc: fd,
                                                                            file_data: fdata,
                                                                        },
                                                                    ),
                                                                },
                                                            },
                                                        },
                                                    },
                                                },
                                            },
                                        },
                                    },
                                },
                            },
                        },
                    },
                },
            },
        },
    }
}

/// Law of the re-serializer, as one function of the input structure: refuse
/// oversized tables, walk the reservations, and emit the remapped structure
/// as bytes; any reservation failure is a corrupt graph.
pub open spec fn spec_into_bytes(v: RtView) -> Result<Seq<u8>, ArcError> {
    if !tables_small(v) {
        Err(ArcError::CorruptGraph)
    } else {
        match spec_plan(v) {
            None => Err(ArcError::CorruptGraph),
            Some((s, istart)) => match spec_remap(v, s, istart) {
                Err(e) => Err(e),
                Ok(w) => Ok(spec_resource_bytes(w.header, w)),
            },
        }
    }
}


/// A failed prefix cannot be extended into a successful one.
pub proof fn lemma_plan_pkg_data_groups_none(v: RtView, s: Seq<u32>, gstart: u32, n: nat, m: nat)
    requires
        n <= m,
        plan_pkg_data_groups(v, s, gstart, n) is None,
    ensures
        plan_pkg_data_groups(v, s, gstart, m) is None,
    decreases m,
{
    if m > n {
        lemma_plan_pkg_data_groups_none(v, s, gstart, n, (m - 1) as nat);
    }
}

/// A failed prefix cannot be extended into a successful one.
pub proof fn lemma_plan_info_descs_none(v: RtView, s: Seq<u32>, istart: u32, n: nat, m: nat)
    requires
        n <= m,
        plan_info_descs(v, s, istart, n) is None,
    ensures
        plan_info_descs(v, s, istart, m) is None,
    decreases m,
{
    if m > n {
        lemma_plan_info_descs_none(v, s, istart, n, (m - 1) as nat);
    }
}

/// A failed prefix cannot be extended into a successful one.
pub proof fn lemma_plan_packages_none(v: RtView, s: SerView, n: nat, m: nat)
    requires
        n <= m,
        plan_packages(v, s, n) is None,
    ensures
        plan_packages(v, s, m) is None,
    decreases m,
{
    if m > n {
        lemma_plan_packages_none(v, s, n, (m - 1) as nat);
    }
}

/// A failed prefix cannot be extended into a successful one.
pub proof fn lemma_plan_desc_data_none(v: RtView, s: Seq<u32>, dstart: u32, n: nat, m: nat)
    requires
        n <= m,
        plan_desc_data(v, s, dstart, n) is None,
    ensures
        plan_desc_data(v, s, dstart, m) is None,
    decreases m,
{
    if m > n {
        lemma_plan_desc_data_none(v, s, dstart, n, (m - 1) as nat);
    }
}

/// A failed prefix cannot be extended into a successful one.
pub proof fn lemma_plan_group_infos_none(v: RtView, s: SerView, istart: u32, n: nat, m: nat)
    requires
        n <= m,
        plan_group_infos(v, s, istart, n) is None,
    ensures
        plan_group_infos(v, s, istart, m) is None,
    decreases m,
{
    if m > n {
        lemma_plan_group_infos_none(v, s, istart, n, (m - 1) as nat);
    }
}

/// A failed prefix cannot be extended into a successful one.
pub proof fn lemma_plan_info_groups_none(v: RtView, s: SerView, gs: Seq<u32>, n: nat, m: nat)
    requires
        n <= m,
        plan_info_groups(v, s, gs, n) is None,
    ensures
        plan_info_groups(v, s, gs, m) is None,
    decreases m,
{
    if m > n {
        lemma_plan_info_groups_none(v, s, gs, n, (m - 1) as nat);
    }
}

/// A failed prefix cannot be extended into a successful one.
pub proof fn lemma_plan_identity_none(s: Seq<u32>, n: nat, m: nat)
    requires
        n <= m,
        plan_identity(s, n) is None,
    ensures
        plan_identity(s, m) is None,
    decreases m,
{
    if m > n {
        lemma_plan_identity_none(s, n, (m - 1) as nat);
    }
}

/// A failed prefix cannot be extended into a successful one.
pub proof fn lemma_plan_stream_desc_data_none(v: RtView, s: Seq<u32>, dstart: u32, n: nat, m: nat)
    requires
        n <= m,
        plan_stream_desc_data(v, s, dstart, n) is None,
    ensures
        plan_stream_desc_data(v, s, dstart, m) is None,
    decreases m,
{
    if m > n {
        lemma_plan_stream_desc_data_none(v, s, dstart, n, (m - 1) as nat);
    }
}

/// A failed prefix cannot be extended into a successful one.
pub proof fn lemma_plan_folder_paths_none(v: RtView, s: SerView, pstart: u32, n: nat, m: nat)
    requires
        n <= m,
        plan_folder_paths(v, s, pstart, n) is None,
    ensures
        plan_folder_paths(v, s, pstart, m) is None,
    decreases m,
{
    if m > n {
        lemma_plan_folder_paths_none(v, s, pstart, n, (m - 1) as nat);
    }
}

/// A failed prefix cannot be extended into a successful one.
pub proof fn lemma_plan_folders_none(v: RtView, s: SerView, n: nat, m: nat)
    requires
        n <= m,
        plan_folders(v, s, n) is None,
    ensures
        plan_folders(v, s, m) is None,
    decreases m,
{
    if m > n {
        lemma_plan_folders_none(v, s, n, (m - 1) as nat);
    }
}


impl crate::resource::ResourceTables {
    /// Makes one package's reservations, appending its collected info-bearing
    /// subpackage group, if any.
    #[verifier::loop_isolation(false)]
    fn plan_one_package_exec(
        &self,
        state: &mut SerState,
        i: usize,
        info_groups: &mut Vec<u32>,
    ) -> (ok: bool)
        requires
            old(state).wf(),
            i < self@.file_package.len(),
            self@.file_package.len() <= INVALID_INDEX,
        ensures
            final(state).wf(),
            match plan_one_package(self@, old(state)@, i as int) {
                Some(t) => ok && final(state)@ == t,
                None => !ok,
            },
            ok ==> final(info_groups)@ == match pkg_sub_group(self@, self@.file_package[i as int]) {
                Some(g) => old(info_groups)@.push(g),
                None => old(info_groups)@,
            },
            !ok ==> final(info_groups)@ == old(info_groups)@,
    {
        let ghost v = self@;
        let p = self.file_package[i];
        if !state.file_package.reserve(i as u32) {
            return false;
        }
        if !p.reserve(state) {
            return false;
        }
        let ghost s2 = state@;
        let grange = p.data_group_range();
        let ghost fd0 = state@.file_data;
        let ghost grange_len = spec_checked_range(
            p.spec_data_group_start(),
            p.spec_data_group_count(),
        ).len();
        let mut g: u32 = grange.start;
        while g < grange.end
            invariant
                grange.start <= g <= grange.end,
                state.wf(),
                plan_pkg_data_groups(v, fd0, p.spec_data_group_start(), (g - grange.start) as nat)
                    == Some(state@.file_data),
                state@ == (SerView { file_data: state@.file_data, ..s2 }),
            decreases grange.end - g,
        {
            let ghost steps = (g + 1 - grange.start) as nat;
            proof {
                assert(spec_checked_range(p.spec_data_group_start(), p.spec_data_group_count())[0]
                    == grange.start + 0);
                assert(grange.start == p.spec_data_group_start());
            }
            if g as usize >= self.file_group.len() {
                proof {
                    assert(plan_pkg_data_groups(v, fd0, p.spec_data_group_start(), steps) is None);
                    lemma_plan_pkg_data_groups_none(
                        v,
                        fd0,
                        p.spec_data_group_start(),
                        steps,
                        grange_len,
                    );
                }
                return false;
            }
            let grp = self.file_group[g as usize];
            let r = grp.reserve(state, true);
            if !r {
                proof {
                    assert(plan_pkg_data_groups(v, fd0, p.spec_data_group_start(), steps) is None);
                    lemma_plan_pkg_data_groups_none(
                        v,
                        fd0,
                        p.spec_data_group_start(),
                        steps,
                        grange_len,
                    );
                }
                return false;
            }
            proof {
                assert(plan_pkg_data_groups(v, fd0, p.spec_data_group_start(), steps) == Some(
                    state@.file_data,
                ));
            }
            g = g + 1;
        }
        let ghost s3 = state@;
        let irange = p.info_range();
        let ghost dc0 = state@.file_desc;
        let ghost irange_len = spec_checked_range(p.info_start, p.info_count).len();
        let mut fi: u32 = irange.start;
        while fi < irange.end
            invariant
                irange.start <= fi <= irange.end,
                state.wf(),
                plan_info_descs(v, dc0, p.info_start, (fi - irange.start) as nat) == Some(
                    state@.file_desc,
                ),
                state@ == (SerView { file_desc: state@.file_desc, ..s3 }),
            decreases irange.end - fi,
        {
            let ghost steps = (fi + 1 - irange.start) as nat;
            proof {
                assert(spec_checked_range(p.info_start, p.info_count)[0] == irange.start + 0);
                assert(irange.start == p.info_start);
            }
            if fi as usize >= self.file_info.len() {
                proof {
                    assert(plan_info_descs(v, dc0, p.info_start, steps) is None);
                    lemma_plan_info_descs_none(v, dc0, p.info_start, steps, irange_len);
                }
                return false;
            }
            let info = self.file_info[fi as usize];
            let r = info.reserve(state);
            if !r {
                proof {
                    assert(plan_info_descs(v, dc0, p.info_start, steps) is None);
                    lemma_plan_info_descs_none(v, dc0, p.info_start, steps, irange_len);
                }
                return false;
            }
            proof {
                assert(plan_info_descs(v, dc0, p.info_start, steps) == Some(state@.file_desc));
            }
            fi = fi + 1;
        }
        proof {
            assert(state@ == (SerView { file_data: s3.file_data, file_desc: state@.file_desc, ..s2 }));
        }
        if p.flags & HAS_SUB_PACKAGE != 0 {
            let g0 = p.path_and_group.data();
            if g0 as usize >= self.file_group.len() {
                return false;
            }
            let red = self.file_group[g0 as usize].redirection;
            if p.flags & IS_SYM_LINK != 0 {
                if red as usize >= self.file_package.len() {
                    return false;
                }
            } else {
                if red != INVALID_INDEX {
                    if red as usize >= self.file_group.len() {
                        return false;
                    }
                    info_groups.push(red);
                }
            }
        }
        true
    }

    /// Makes every package's reservations, in original order, collecting the
    /// info-bearing subpackage groups.
    #[verifier::loop_isolation(false)]
    fn plan_packages_exec(&self, state: &mut SerState, info_groups: &mut Vec<u32>) -> (ok: bool)
        requires
            old(state).wf(),
            old(info_groups)@ == Seq::<u32>::empty(),
            self@.file_package.len() <= INVALID_INDEX,
        ensures
            final(state).wf(),
            match plan_packages(self@, old(state)@, self@.file_package.len()) {
                Some(t) => ok && final(state)@ == t && final(info_groups)@ == collected_groups(
                    self@,
                    self@.file_package.len(),
                ),
                None => !ok,
            },
    {
        let ghost v = self@;
        let ghost s0 = state@;
        let npkg = self.file_package.len();
        let mut i: usize = 0;
        while i < npkg
            invariant
                0 <= i <= npkg,
                state.wf(),
                plan_packages(v, s0, i as nat) == Some(state@),
                info_groups@ == collected_groups(v, i as nat),
            decreases npkg - i,
        {
            let ok = self.plan_one_package_exec(state, i, info_groups);
            if !ok {
                proof {
                    assert(plan_packages(v, s0, (i + 1) as nat) is None);
                    lemma_plan_packages_none(v, s0, (i + 1) as nat, npkg as nat);
                }
                return false;
            }
            proof {
                assert(plan_packages(v, s0, (i + 1) as nat) == Some(state@));
            }
            i = i + 1;
        }
        true
    }

    /// Reserves one collected info group with its children; yields whether it
    /// was newly reserved, or nothing on a corrupt graph.
    #[verifier::loop_isolation(false)]
    fn plan_one_info_group_exec(&self, state: &mut SerState, g: u32) -> (r: Option<bool>)
        requires
            old(state).wf(),
        ensures
            final(state).wf(),
            match plan_one_info_group(self@, old(state)@, g) {
                Some((t, newly)) => r == Some(newly) && final(state)@ == t,
                None => r is None,
            },
    {
        let ghost v = self@;
        let tr = state.file_group.try_reserve(g);
        let grew = match tr {
            None => {
                return None;
            },
            Some(grew) => grew,
        };
        if !grew {
            return Some(false);
        }
        if g as usize >= self.file_group.len() {
            return None;
        }
        let grp = self.file_group[g as usize];
        if !grp.reserve(state, false) {
            return None;
        }
        let ghost s2 = state@;
        let crange = grp.child_range();
        let ghost crange_len = spec_checked_range(grp.child_start, grp.child_count).len();
        let mut fi: u32 = crange.start;
        while fi < crange.end
            invariant
                crange.start <= fi <= crange.end,
                state.wf(),
                plan_group_infos(v, s2, grp.child_start, (fi - crange.start) as nat) == Some(
                    state@,
                ),
            decreases crange.end - fi,
        {
            let ghost steps = (fi + 1 - crange.start) as nat;
            let ghost t_in = state@;
            proof {
                assert(spec_checked_range(grp.child_start, grp.child_count)[0] == crange.start + 0);
                assert(crange.start == grp.child_start);
            }
            if fi as usize >= self.file_info.len() {
                proof {
                    assert(plan_group_infos(v, s2, grp.child_start, steps) is None);
                    lemma_plan_group_infos_none(v, s2, grp.child_start, steps, crange_len);
                }
                return None;
            }
            let info = self.file_info[fi as usize];
            if !info.reserve(state) {
                proof {
                    assert(plan_group_infos(v, s2, grp.child_start, steps) is None);
                    lemma_plan_group_infos_none(v, s2, grp.child_start, steps, crange_len);
                }
                return None;
            }
            let ghost t_mid = state@;
            let drange = info.descriptor_range();
            let ghost fd0 = state@.file_data;
            let ghost drange_len = spec_checked_range(
                info.desc,
                info.spec_descriptor_count(),
            ).len();
            let mut d: u32 = drange.start;
            while d < drange.end
                invariant
                    drange.start <= d <= drange.end,
                    state.wf(),
                    plan_desc_data(v, fd0, info.desc, (d - drange.start) as nat) == Some(
                        state@.file_data,
                    ),
                    state@ == (SerView { file_data: state@.file_data, ..t_mid }),
                decreases drange.end - d,
            {
                let ghost dsteps = (d + 1 - drange.start) as nat;
                proof {
                    assert(spec_checked_range(info.desc, info.spec_descriptor_count())[0]
                        == drange.start + 0);
                    assert(drange.start == info.desc);
                }
                if d as usize >= self.file_desc.len() {
                    proof {
                        assert(plan_desc_data(v, fd0, info.desc, dsteps) is None);
                        lemma_plan_desc_data_none(v, fd0, info.desc, dsteps, drange_len);
                        assert(plan_group_infos(v, s2, grp.child_start, steps) is None);
                        lemma_plan_group_infos_none(v, s2, grp.child_start, steps, crange_len);
                    }
                    return None;
                }
                let desc = self.file_desc[d as usize];
                if !desc.reserve(state) {
                    proof {
                        assert(plan_desc_data(v, fd0, info.desc, dsteps) is None);
                        lemma_plan_desc_data_none(v, fd0, info.desc, dsteps, drange_len);
                        assert(plan_group_infos(v, s2, grp.child_start, steps) is None);
                        lemma_plan_group_infos_none(v, s2, grp.child_start, steps, crange_len);
                    }
                    return None;
                }
                proof {
                    assert(plan_desc_data(v, fd0, info.desc, dsteps) == Some(state@.file_data));
                }
                d = d + 1;
            }
            proof {
                assert(state@ == (SerView {
                    file_desc: t_mid.file_desc,
                    file_data: state@.file_data,
                    ..t_in
                }));
                assert(plan_group_infos(v, s2, grp.child_start, steps) == Some(state@));
            }
            fi = fi + 1;
        }
        Some(true)
    }

    /// Reserves the collected info groups, in encounter order, yielding the
    /// info disposition threshold.
    #[verifier::loop_isolation(false)]
    fn plan_info_groups_exec(&self, state: &mut SerState, gs: &Vec<u32>) -> (r: Option<
        Option<u32>,
    >)
        requires
            old(state).wf(),
        ensures
            final(state).wf(),
            match plan_info_groups(self@, old(state)@, gs@, gs@.len()) {
                Some((t, ist)) => r == Some(ist) && final(state)@ == t,
                None => r is None,
            },
    {
        let ghost v = self@;
        let ghost s0 = state@;
        let n = gs.len();
        let mut ist: Option<u32> = None;
        let mut k: usize = 0;
        while k < n
            invariant
                0 <= k <= n,
                state.wf(),
                plan_info_groups(v, s0, gs@, k as nat) == Some((state@, ist)),
            decreases n - k,
        {
            let one = self.plan_one_info_group_exec(state, gs[k]);
            match one {
                None => {
                    proof {
                        assert(plan_info_groups(v, s0, gs@, (k + 1) as nat) is None);
                        lemma_plan_info_groups_none(v, s0, gs@, (k + 1) as nat, n as nat);
                    }
                    return None;
                },
                Some(newly) => {
                    if ist.is_none() && newly {
                        ist = Some(gs[k]);
                    }
                },
            }
            proof {
                assert(plan_info_groups(v, s0, gs@, (k + 1) as nat) == Some((state@, ist)));
            }
            k = k + 1;
        }
        Some(ist)
    }

    /// Reserves one stream folder with its paths, descriptor runs, and data
    /// targets.
    #[verifier::loop_isolation(false)]
    fn plan_one_folder_exec(&self, state: &mut SerState, i: usize) -> (ok: bool)
        requires
            old(state).wf(),
            i < self@.stream_folder.len(),
            self@.stream_folder.len() <= INVALID_INDEX,
        ensures
            final(state).wf(),
            match plan_one_folder(self@, old(state)@, i as int) {
                Some(t) => ok && final(state)@ == t,
                None => !ok,
            },
    {
        let ghost v = self@;
        let f = self.stream_folder[i];
        if !state.stream_folder.reserve(i as u32) {
            return false;
        }
        if !f.reserve(state) {
            return false;
        }
        let ghost s2 = state@;
        let crange = f.stream_path_range();
        let ghost cstart = f.child_start_index;
        let ghost crange_len = spec_checked_range(
            f.child_start_index,
            crate::hash::spec_hwd_data(f.name_and_child_count.len_and_data),
        ).len();
        let mut sp: u32 = crange.start;
        while sp < crange.end
            invariant
                crange.start <= sp <= crange.end,
                state.wf(),
                plan_folder_paths(v, s2, f.child_start_index, (sp - crange.start) as nat) == Some(
                    state@,
                ),
            decreases crange.end - sp,
        {
            let ghost steps = (sp + 1 - crange.start) as nat;
            let ghost t_in = state@;
            proof {
                assert(spec_checked_range(
                    f.child_start_index,
                    crate::hash::spec_hwd_data(f.name_and_child_count.len_and_data),
                )[0] == crange.start + 0);
                assert(crange.start == f.child_start_index);
            }
            if sp as usize >= self.stream_path.len() {
                proof {
                    assert(plan_folder_paths(v, s2, f.child_start_index, steps) is None);
                    lemma_plan_folder_paths_none(v, s2, f.child_start_index, steps, crange_len);
                }
                return false;
            }
            let path = self.stream_path[sp as usize];
            if !path.reserve(state) {
                proof {
                    assert(plan_folder_paths(v, s2, f.child_start_index, steps) is None);
                    lemma_plan_folder_paths_none(v, s2, f.child_start_index, steps, crange_len);
                }
                return false;
            }
            let ghost t_mid = state@;
            let drange = path.descriptor_range();
            let ghost sd0 = state@.stream_data;
            let ghost dstart = crate::hash::spec_hwd_data(path.path_and_desc.len_and_data);
            let ghost drange_len = spec_checked_range(
                crate::hash::spec_hwd_data(path.path_and_desc.len_and_data),
                path.spec_descriptor_count(),
            ).len();
            let mut d: u32 = drange.start;
            while d < drange.end
                invariant
                    drange.start <= d <= drange.end,
                    state.wf(),
                    plan_stream_desc_data(v, sd0, dstart, (d - drange.start) as nat) == Some(
                        state@.stream_data,
                    ),
                    state@ == (SerView { stream_data: state@.stream_data, ..t_mid }),
                decreases drange.end - d,
            {
                let ghost dsteps = (d + 1 - drange.start) as nat;
                proof {
                    assert(spec_checked_range(
                        crate::hash::spec_hwd_data(path.path_and_desc.len_and_data),
                        path.spec_descriptor_count(),
                    )[0] == drange.start + 0);
                    assert(drange.start == dstart);
                }
                if d as usize >= self.stream_desc.len() {
                    proof {
                        assert(plan_stream_desc_data(v, sd0, dstart, dsteps) is None);
                        lemma_plan_stream_desc_data_none(v, sd0, dstart, dsteps, drange_len);
                        assert(plan_folder_paths(v, s2, f.child_start_index, steps) is None);
                        lemma_plan_folder_paths_none(v, s2, f.child_start_index, steps, crange_len);
                    }
                    return false;
                }
                let desc = self.stream_desc[d as usize];
                if !desc.reserve(state) {
                    proof {
                        assert(plan_stream_desc_data(v, sd0, dstart, dsteps) is None);
                        lemma_plan_stream_desc_data_none(v, sd0, dstart, dsteps, drange_len);
                        assert(plan_folder_paths(v, s2, f.child_start_index, steps) is None);
                        lemma_plan_folder_paths_none(v, s2, f.child_start_index, steps, crange_len);
                    }
                    return false;
                }
                proof {
                    assert(plan_stream_desc_data(v, sd0, dstart, dsteps) == Some(
                        state@.stream_data,
                    ));
                }
                d = d + 1;
            }
            proof {
                assert(state@ == (SerView {
                    stream_desc: t_mid.stream_desc,
                    stream_data: state@.stream_data,
                    ..t_in
                }));
                assert(plan_folder_paths(v, s2, f.child_start_index, steps) == Some(state@));
            }
            sp = sp + 1;
        }
        true
    }

    /// Reserves every stream folder, in original order.
    #[verifier::loop_isolation(false)]
    fn plan_folders_exec(&self, state: &mut SerState) -> (ok: bool)
        requires
            old(state).wf(),
            self@.stream_folder.len() <= INVALID_INDEX,
        ensures
            final(state).wf(),
            match plan_folders(self@, old(state)@, self@.stream_folder.len()) {
                Some(t) => ok && final(state)@ == t,
                None => !ok,
            },
    {
        let ghost v = self@;
        let ghost s0 = state@;
        let n = self.stream_folder.len();
        let mut i: usize = 0;
        while i < n
            invariant
                0 <= i <= n,
                state.wf(),
                plan_folders(v, s0, i as nat) == Some(state@),
            decreases n - i,
        {
            let ok = self.plan_one_folder_exec(state, i);
            if !ok {
                proof {
                    assert(plan_folders(v, s0, (i + 1) as nat) is None);
                    lemma_plan_folders_none(v, s0, (i + 1) as nat, n as nat);
                }
                return false;
            }
            proof {
                assert(plan_folders(v, s0, (i + 1) as nat) == Some(state@));
            }
            i = i + 1;
        }
        true
    }
}

/// Reserves indices `0..n` of one table, in order.
#[verifier::loop_isolation(false)]
fn plan_identity_exec(rset: &mut crate::serialization::ReservedSet, n: usize) -> (ok: bool)
    requires
        old(rset).wf(),
        n <= INVALID_INDEX,
    ensures
        final(rset).wf(),
        match plan_identity(old(rset)@, n as nat) {
            Some(t) => ok && final(rset)@ == t,
            None => !ok,
        },
{
    let ghost s0 = rset@;
    let mut j: usize = 0;
    while j < n
        invariant
            0 <= j <= n,
            rset.wf(),
            plan_identity(s0, j as nat) == Some(rset@),
        decreases n - j,
    {
        if !rset.reserve(j as u32) {
            proof {
                assert(plan_identity(s0, (j + 1) as nat) is None);
                lemma_plan_identity_none(s0, (j + 1) as nat, n as nat);
            }
            return false;
        }
        proof {
            assert(plan_identity(s0, (j + 1) as nat) == Some(rset@));
        }
        j = j + 1;
    }
    true
}



/// A successful lookup emission has one entry per input entry.
pub proof fn lemma_emit_lookup_len(entries: Seq<HashWithData>, mp: Seq<u32>, n: nat)
    requires
        emit_lookup(entries, mp, n) is Ok,
    ensures
        emit_lookup(entries, mp, n).unwrap().len() == n,
    decreases n,
{
    if n > 0 {
        lemma_emit_lookup_len(entries, mp, (n - 1) as nat);
    }
}

/// A failed prefix stays the whole emission's failure.
pub proof fn lemma_emit_stream_folder_err(tbl: Seq<StreamFolder>, order: Seq<u32>, s: SerView, n: nat, m: nat)
    requires
        n <= m,
        emit_stream_folder(tbl, order, s, n) is Err,
    ensures
        emit_stream_folder(tbl, order, s, m) == emit_stream_folder(tbl, order, s, n),
    decreases m,
{
    if m > n {
        lemma_emit_stream_folder_err(tbl, order, s, n, (m - 1) as nat);
    }
}

/// A failed prefix stays the whole emission's failure.
pub proof fn lemma_emit_stream_path_err(tbl: Seq<StreamPath>, order: Seq<u32>, s: SerView, n: nat, m: nat)
    requires
        n <= m,
        emit_stream_path(tbl, order, s, n) is Err,
    ensures
        emit_stream_path(tbl, order, s, m) == emit_stream_path(tbl, order, s, n),
    decreases m,
{
    if m > n {
        lemma_emit_stream_path_err(tbl, order, s, n, (m - 1) as nat);
    }
}

/// A failed prefix stays the whole emission's failure.
pub proof fn lemma_emit_stream_desc_err(tbl: Seq<StreamDesc>, order: Seq<u32>, s: SerView, n: nat, m: nat)
    requires
        n <= m,
        emit_stream_desc(tbl, order, s, n) is Err,
    ensures
        emit_stream_desc(tbl, order, s, m) == emit_stream_desc(tbl, order, s, n),
    decreases m,
{
    if m > n {
        lemma_emit_stream_desc_err(tbl, order, s, n, (m - 1) as nat);
    }
}

/// A failed prefix stays the whole emission's failure.
pub proof fn lemma_emit_stream_data_err(tbl: Seq<StreamData>, order: Seq<u32>, n: nat, m: nat)
    requires
        n <= m,
        emit_stream_data(tbl, order, n) is Err,
    ensures
        emit_stream_data(tbl, order, m) == emit_stream_data(tbl, order, n),
    decreases m,
{
    if m > n {
        lemma_emit_stream_data_err(tbl, order, n, (m - 1) as nat);
    }
}

/// A failed prefix stays the whole emission's failure.
pub proof fn lemma_emit_file_path_err(tbl: Seq<FilePath>, order: Seq<u32>, s: SerView, n: nat, m: nat)
    requires
        n <= m,
        emit_file_path(tbl, order, s, n) is Err,
    ensures
        emit_file_path(tbl, order, s, m) == emit_file_path(tbl, order, s, n),
    decreases m,
{
    if m > n {
        lemma_emit_file_path_err(tbl, order, s, n, (m - 1) as nat);
    }
}

/// A failed prefix stays the whole emission's failure.
pub proof fn lemma_emit_file_entity_err(tbl: Seq<FileEntity>, order: Seq<u32>, s: SerView, pkg_len: u32, n: nat, m: nat)
    requires
        n <= m,
        emit_file_entity(tbl, order, s, pkg_len, n) is Err,
    ensures
        emit_file_entity(tbl, order, s, pkg_len, m) == emit_file_entity(tbl, order, s, pkg_len, n),
    decreases m,
{
    if m > n {
        lemma_emit_file_entity_err(tbl, order, s, pkg_len, n, (m - 1) as nat);
    }
}

/// A failed prefix stays the whole emission's failure.
pub proof fn lemma_emit_file_package_err(tbl: Seq<FilePackage>, order: Seq<u32>, s: SerView, n: nat, m: nat)
    requires
        n <= m,
        emit_file_package(tbl, order, s, n) is Err,
    ensures
        emit_file_package(tbl, order, s, m) == emit_file_package(tbl, order, s, n),
    decreases m,
{
    if m > n {
        lemma_emit_file_package_err(tbl, order, s, n, (m - 1) as nat);
    }
}

/// A failed prefix stays the whole emission's failure.
pub proof fn lemma_emit_file_group_data_err(tbl: Seq<FileGroup>, order: Seq<u32>, s: SerView, pkg_len: u32, n: nat, m: nat)
    requires
        n <= m,
        emit_file_group_data(tbl, order, s, pkg_len, n) is Err,
    ensures
        emit_file_group_data(tbl, order, s, pkg_len, m) == emit_file_group_data(tbl, order, s, pkg_len, n),
    decreases m,
{
    if m > n {
        lemma_emit_file_group_data_err(tbl, order, s, pkg_len, n, (m - 1) as nat);
    }
}

/// A failed prefix stays the whole emission's failure.
pub proof fn lemma_emit_file_group_info_err(tbl: Seq<FileGroup>, order: Seq<u32>, s: SerView, n: nat, m: nat)
    requires
        n <= m,
        emit_file_group_info(tbl, order, s, n) is Err,
    ensures
        emit_file_group_info(tbl, order, s, m) == emit_file_group_info(tbl, order, s, n),
    decreases m,
{
    if m > n {
        lemma_emit_file_group_info_err(tbl, order, s, n, (m - 1) as nat);
    }
}

/// A failed prefix stays the whole emission's failure.
pub proof fn lemma_emit_file_package_child_err(tbl: Seq<FilePackageChild>, order: Seq<u32>, s: SerView, n: nat, m: nat)
    requires
        n <= m,
        emit_file_package_child(tbl, order, s, n) is Err,
    ensures
        emit_file_package_child(tbl, order, s, m) == emit_file_package_child(tbl, order, s, n),
    decreases m,
{
    if m > n {
        lemma_emit_file_package_child_err(tbl, order, s, n, (m - 1) as nat);
    }
}

/// A failed prefix stays the whole emission's failure.
pub proof fn lemma_emit_file_info_err(tbl: Seq<FileInfo>, order: Seq<u32>, s: SerView, n: nat, m: nat)
    requires
        n <= m,
        emit_file_info(tbl, order, s, n) is Err,
    ensures
        emit_file_info(tbl, order, s, m) == emit_file_info(tbl, order, s, n),
    decreases m,
{
    if m > n {
        lemma_emit_file_info_err(tbl, order, s, n, (m - 1) as nat);
    }
}

/// A failed prefix stays the whole emission's failure.
pub proof fn lemma_emit_file_desc_err(tbl: Seq<FileDesc>, order: Seq<u32>, s: SerView, n: nat, m: nat)
    requires
        n <= m,
        emit_file_desc(tbl, order, s, n) is Err,
    ensures
        emit_file_desc(tbl, order, s, m) == emit_file_desc(tbl, order, s, n),
    decreases m,
{
    if m > n {
        lemma_emit_file_desc_err(tbl, order, s, n, (m - 1) as nat);
    }
}

/// A failed prefix stays the whole emission's failure.
pub proof fn lemma_emit_file_data_err(tbl: Seq<FileData>, order: Seq<u32>, n: nat, m: nat)
    requires
        n <= m,
        emit_file_data(tbl, order, n) is Err,
    ensures
        emit_file_data(tbl, order, m) == emit_file_data(tbl, order, n),
    decreases m,
{
    if m > n {
        lemma_emit_file_data_err(tbl, order, n, (m - 1) as nat);
    }
}

/// A failed prefix stays the whole emission's failure.
pub proof fn lemma_emit_lookup_err(entries: Seq<HashWithData>, mp: Seq<u32>, n: nat, m: nat)
    requires
        n <= m,
        emit_lookup(entries, mp, n) is Err,
    ensures
        emit_lookup(entries, mp, m) == emit_lookup(entries, mp, n),
    decreases m,
{
    if m > n {
        lemma_emit_lookup_err(entries, mp, n, (m - 1) as nat);
    }
}

/// Emits one lookup: iterates the original entry order, keeping each hash and
/// rewriting each payload through the peer table's map.
#[verifier::loop_isolation(false)]
fn emit_lookup_exec(
    entries: &Vec<HashWithData>,
    rset: &crate::serialization::ReservedSet,
) -> (r: Result<Vec<HashWithData>, ArcError>)
    requires
        rset.wf(),
    ensures
        match emit_lookup(entries@, rset@, entries@.len()) {
            Ok(t) => r is Ok && r.unwrap()@ == t,
            Err(e) => r == Err::<Vec<HashWithData>, ArcError>(e),
        },
{
    let n = entries.len();
    let mut out: Vec<HashWithData> = Vec::new();
    let mut j: usize = 0;
    while j < n
        invariant
            0 <= j <= n,
            emit_lookup(entries@, rset@, j as nat) == Ok::<Seq<HashWithData>, ArcError>(out@),
        decreases n - j,
    {
        let e = entries[j];
        match rset.get(e.data()) {
            None => {
                proof {
                    assert(emit_lookup(entries@, rset@, (j + 1) as nat) is Err);
                    lemma_emit_lookup_err(entries@, rset@, (j + 1) as nat, n as nat);
                }
                return Err(ArcError::CorruptGraph);
            },
            Some(d) => {
                out.push(e.with_data(d));
                proof {
                    assert(emit_lookup(entries@, rset@, (j + 1) as nat) == Ok::<
                        Seq<HashWithData>,
                        ArcError,
                    >(out@));
                }
            },
        }
        j = j + 1;
    }
    Ok(out)
}

/// The position where the group emission switches disposition.
#[verifier::loop_isolation(false)]
fn compute_split(gset: &crate::serialization::ReservedSet, istart: Option<u32>) -> (r: usize)
    ensures
        r == group_split(gset@, istart),
        r <= gset@.len(),
{
    match istart {
        None => gset.len(),
        Some(t) => {
            let n = gset.len();
            let mut j: usize = 0;
            while j < n
                invariant
                    0 <= j <= n,
                    forall|k: int| 0 <= k < j ==> gset@[k] < t,
                decreases n - j,
            {
                if gset.get_at(j) >= t {
                    proof {
                        lemma_take_while_lt_char(gset@, t, j as int);
                    }
                    return j;
                }
                j = j + 1;
            }
            proof {
                lemma_take_while_lt_char(gset@, t, n as int);
            }
            n
        },
    }
}

impl crate::resource::ResourceTables {
    /// Emits one table: each reserved original in insertion order, rewritten.
    #[verifier::loop_isolation(false)]
    fn emit_stream_folder_exec(&self, state: &SerState) -> (r: Result<Vec<StreamFolder>, ArcError>)
        requires
            state.wf(),
        ensures
            match emit_stream_folder(self@.stream_folder, state@.stream_folder, state@, state@.stream_folder.len()) {
                Ok(t) => r is Ok && r.unwrap()@ == t,
                Err(e) => r == Err::<Vec<StreamFolder>, ArcError>(e),
            },
    {
        let ghost v = self@;
        let ghost order = state@.stream_folder;
        let n = state.stream_folder.len();
        let mut out: Vec<StreamFolder> = Vec::new();
        let mut j: usize = 0;
        while j < n
            invariant
                0 <= j <= n,
                emit_stream_folder(v.stream_folder, order, state@, j as nat) == Ok::<Seq<StreamFolder>, ArcError>(out@),
            decreases n - j,
        {
            let oi = state.stream_folder.get_at(j);
            if oi as usize >= self.stream_folder.len() {
                proof {
                    assert(emit_stream_folder(v.stream_folder, order, state@, (j + 1) as nat) is Err);
                    lemma_emit_stream_folder_err(v.stream_folder, order, state@, (j + 1) as nat, n as nat);
                }
                return Err(ArcError::CorruptGraph);
            }
            match self.stream_folder[oi as usize].reinternalize(state) {
                Err(e) => {
                    proof {
                        assert(emit_stream_folder(v.stream_folder, order, state@, (j + 1) as nat) == Err::<Seq<StreamFolder>, ArcError>(e));
                        lemma_emit_stream_folder_err(v.stream_folder, order, state@, (j + 1) as nat, n as nat);
                    }
                    return Err(e);
                },
                Ok(rec) => {
                    out.push(rec);
                    proof {
                        assert(emit_stream_folder(v.stream_folder, order, state@, (j + 1) as nat) == Ok::<Seq<StreamFolder>, ArcError>(out@));
                    }
                },
            }
            j = j + 1;
        }
        Ok(out)
    }

    /// Emits one table: each reserved original in insertion order, rewritten.
    #[verifier::loop_isolation(false)]
    fn emit_stream_path_exec(&self, state: &SerState) -> (r: Result<Vec<StreamPath>, ArcError>)
        requires
            state.wf(),
        ensures
            match emit_stream_path(self@.stream_path, state@.stream_path, state@, state@.stream_path.len()) {
                Ok(t) => r is Ok && r.unwrap()@ == t,
                Err(e) => r == Err::<Vec<StreamPath>, ArcError>(e),
            },
    {
        let ghost v = self@;
        let ghost order = state@.stream_path;
        let n = state.stream_path.len();
        let mut out: Vec<StreamPath> = Vec::new();
        let mut j: usize = 0;
        while j < n
            invariant
                0 <= j <= n,
                emit_stream_path(v.stream_path, order, state@, j as nat) == Ok::<Seq<StreamPath>, ArcError>(out@),
            decreases n - j,
        {
            let oi = state.stream_path.get_at(j);
            if oi as usize >= self.stream_path.len() {
                proof {
                    assert(emit_stream_path(v.stream_path, order, state@, (j + 1) as nat) is Err);
                    lemma_emit_stream_path_err(v.stream_path, order, state@, (j + 1) as nat, n as nat);
                }
                return Err(ArcError::CorruptGraph);
            }
            match self.stream_path[oi as usize].reinternalize(state) {
                Err(e) => {
                    proof {
                        assert(emit_stream_path(v.stream_path, order, state@, (j + 1) as nat) == Err::<Seq<StreamPath>, ArcError>(e));
                        lemma_emit_stream_path_err(v.stream_path, order, state@, (j + 1) as nat, n as nat);
                    }
                    return Err(e);
                },
                Ok(rec) => {
                    out.push(rec);
                    proof {
                        assert(emit_stream_path(v.stream_path, order, state@, (j + 1) as nat) == Ok::<Seq<StreamPath>, ArcError>(out@));
                    }
                },
            }
            j = j + 1;
        }
        Ok(out)
    }

    /// Emits one table: each reserved original in insertion order, rewritten.
    #[verifier::loop_isolation(false)]
    fn emit_stream_desc_exec(&self, state: &SerState) -> (r: Result<Vec<StreamDesc>, ArcError>)
        requires
            state.wf(),
        ensures
            match emit_stream_desc(self@.stream_desc, state@.stream_desc, state@, state@.stream_desc.len()) {
                Ok(t) => r is Ok && r.unwrap()@ == t,
                Err(e) => r == Err::<Vec<StreamDesc>, ArcError>(e),
            },
    {
        let ghost v = self@;
        let ghost order = state@.stream_desc;
        let n = state.stream_desc.len();
        let mut out: Vec<StreamDesc> = Vec::new();
        let mut j: usize = 0;
        while j < n
            invariant
                0 <= j <= n,
                emit_stream_desc(v.stream_desc, order, state@, j as nat) == Ok::<Seq<StreamDesc>, ArcError>(out@),
            decreases n - j,
        {
            let oi = state.stream_desc.get_at(j);
            if oi as usize >= self.stream_desc.len() {
                proof {
                    assert(emit_stream_desc(v.stream_desc, order, state@, (j + 1) as nat) is Err);
                    lemma_emit_stream_desc_err(v.stream_desc, order, state@, (j + 1) as nat, n as nat);
                }
                return Err(ArcError::CorruptGraph);
            }
            match self.stream_desc[oi as usize].reinternalize(state) {
                Err(e) => {
                    proof {
                        assert(emit_stream_desc(v.stream_desc, order, state@, (j + 1) as nat) == Err::<Seq<StreamDesc>, ArcError>(e));
                        lemma_emit_stream_desc_err(v.stream_desc, order, state@, (j + 1) as nat, n as nat);
                    }
                    return Err(e);
                },
                Ok(rec) => {
                    out.push(rec);
                    proof {
                        assert(emit_stream_desc(v.stream_desc, order, state@, (j + 1) as nat) == Ok::<Seq<StreamDesc>, ArcError>(out@));
                    }
                },
            }
            j = j + 1;
        }
        Ok(out)
    }

    /// Emits one table: each reserved original in insertion order, rewritten.
    #[verifier::loop_isolation(false)]
    fn emit_file_path_exec(&self, state: &SerState) -> (r: Result<Vec<FilePath>, ArcError>)
        requires
            state.wf(),
        ensures
            match emit_file_path(self@.file_path, state@.file_path, state@, state@.file_path.len()) {
                Ok(t) => r is Ok && r.unwrap()@ == t,
                Err(e) => r == Err::<Vec<FilePath>, ArcError>(e),
            },
    {
        let ghost v = self@;
        let ghost order = state@.file_path;
        let n = state.file_path.len();
        let mut out: Vec<FilePath> = Vec::new();
        let mut j: usize = 0;
        while j < n
            invariant
                0 <= j <= n,
                emit_file_path(v.file_path, order, state@, j as nat) == Ok::<Seq<FilePath>, ArcError>(out@),
            decreases n - j,
        {
            let oi = state.file_path.get_at(j);
            if oi as usize >= self.file_path.len() {
                proof {
                    assert(emit_file_path(v.file_path, order, state@, (j + 1) as nat) is Err);
                    lemma_emit_file_path_err(v.file_path, order, state@, (j + 1) as nat, n as nat);
                }
                return Err(ArcError::CorruptGraph);
            }
            match self.file_path[oi as usize].reinternalize(state) {
                Err(e) => {
                    proof {
                        assert(emit_file_path(v.file_path, order, state@, (j + 1) as nat) == Err::<Seq<FilePath>, ArcError>(e));
                        lemma_emit_file_path_err(v.file_path, order, state@, (j + 1) as nat, n as nat);
                    }
                    return Err(e);
                },
                Ok(rec) => {
                    out.push(rec);
                    proof {
                        assert(emit_file_path(v.file_path, order, state@, (j + 1) as nat) == Ok::<Seq<FilePath>, ArcError>(out@));
                    }
                },
            }
            j = j + 1;
        }
        Ok(out)
    }

    /// Emits one table: each reserved original in insertion order, rewritten.
    #[verifier::loop_isolation(false)]
    fn emit_file_package_exec(&self, state: &SerState) -> (r: Result<Vec<FilePackage>, ArcError>)
        requires
            state.wf(),
        ensures
            match emit_file_package(self@.file_package, state@.file_package, state@, state@.file_package.len()) {
                Ok(t) => r is Ok && r.unwrap()@ == t,
                Err(e) => r == Err::<Vec<FilePackage>, ArcError>(e),
            },
    {
        let ghost v = self@;
        let ghost order = state@.file_package;
        let n = state.file_package.len();
        let mut out: Vec<FilePackage> = Vec::new();
        let mut j: usize = 0;
        while j < n
            invariant
                0 <= j <= n,
                emit_file_package(v.file_package, order, state@, j as nat) == Ok::<Seq<FilePackage>, ArcError>(out@),
            decreases n - j,
        {
            let oi = state.file_package.get_at(j);
            if oi as usize >= self.file_package.len() {
                proof {
                    assert(emit_file_package(v.file_package, order, state@, (j + 1) as nat) is Err);
                    lemma_emit_file_package_err(v.file_package, order, state@, (j + 1) as nat, n as nat);
                }
                return Err(ArcError::CorruptGraph);
            }
            match self.file_package[oi as usize].reinternalize(state) {
                Err(e) => {
                    proof {
                        assert(emit_file_package(v.file_package, order, state@, (j + 1) as nat) == Err::<Seq<FilePackage>, ArcError>(e));
                        lemma_emit_file_package_err(v.file_package, order, state@, (j + 1) as nat, n as nat);
                    }
                    return Err(e);
                },
                Ok(rec) => {
                    out.push(rec);
                    proof {
                        assert(emit_file_package(v.file_package, order, state@, (j + 1) as nat) == Ok::<Seq<FilePackage>, ArcError>(out@));
                    }
                },
            }
            j = j + 1;
        }
        Ok(out)
    }

    /// Emits one table: each reserved original in insertion order, rewritten.
    #[verifier::loop_isolation(false)]
    fn emit_file_package_child_exec(&self, state: &SerState) -> (r: Result<Vec<FilePackageChild>, ArcError>)
        requires
            state.wf(),
        ensures
            match emit_file_package_child(self@.file_package_child, state@.file_package_child, state@, state@.file_package_child.len()) {
                Ok(t) => r is Ok && r.unwrap()@ == t,
                Err(e) => r == Err::<Vec<FilePackageChild>, ArcError>(e),
            },
    {
        let ghost v = self@;
        let ghost order = state@.file_package_child;
        let n = state.file_package_child.len();
        let mut out: Vec<FilePackageChild> = Vec::new();
        let mut j: usize = 0;
        while j < n
            invariant
                0 <= j <= n,
                emit_file_package_child(v.file_package_child, order, state@, j as nat) == Ok::<Seq<FilePackageChild>, ArcError>(out@),
            decreases n - j,
        {
            let oi = state.file_package_child.get_at(j);
            if oi as usize >= self.file_package_child.len() {
                proof {
                    assert(emit_file_package_child(v.file_package_child, order, state@, (j + 1) as nat) is Err);
                    lemma_emit_file_package_child_err(v.file_package_child, order, state@, (j + 1) as nat, n as nat);
                }
                return Err(ArcError::CorruptGraph);
            }
            match self.file_package_child[oi as usize].reinternalize(state) {
                Err(e) => {
                    proof {
                        assert(emit_file_package_child(v.file_package_child, order, state@, (j + 1) as nat) == Err::<Seq<FilePackageChild>, ArcError>(e));
                        lemma_emit_file_package_child_err(v.file_package_child, order, state@, (j + 1) as nat, n as nat);
                    }
                    return Err(e);
                },
                Ok(rec) => {
                    out.push(rec);
                    proof {
                        assert(emit_file_package_child(v.file_package_child, order, state@, (j + 1) as nat) == Ok::<Seq<FilePackageChild>, ArcError>(out@));
                    }
                },
            }
            j = j + 1;
        }
        Ok(out)
    }

    /// Emits one table: each reserved original in insertion order, rewritten.
    #[verifier::loop_isolation(false)]
    fn emit_file_info_exec(&self, state: &SerState) -> (r: Result<Vec<FileInfo>, ArcError>)
        requires
            state.wf(),
        ensures
            match emit_file_info(self@.file_info, state@.file_info, state@, state@.file_info.len()) {
                Ok(t) => r is Ok && r.unwrap()@ == t,
                Err(e) => r == Err::<Vec<FileInfo>, ArcError>(e),
            },
    {
        let ghost v = self@;
        let ghost order = state@.file_info;
        let n = state.file_info.len();
        let mut out: Vec<FileInfo> = Vec::new();
        let mut j: usize = 0;
        while j < n
            invariant
                0 <= j <= n,
                emit_file_info(v.file_info, order, state@, j as nat) == Ok::<Seq<FileInfo>, ArcError>(out@),
            decreases n - j,
        {
            let oi = state.file_info.get_at(j);
            if oi as usize >= self.file_info.len() {
                proof {
                    assert(emit_file_info(v.file_info, order, state@, (j + 1) as nat) is Err);
                    lemma_emit_file_info_err(v.file_info, order, state@, (j + 1) as nat, n as nat);
                }
                return Err(ArcError::CorruptGraph);
            }
            match self.file_info[oi as usize].reinternalize(state) {
                Err(e) => {
                    proof {
                        assert(emit_file_info(v.file_info, order, state@, (j + 1) as nat) == Err::<Seq<FileInfo>, ArcError>(e));
                        lemma_emit_file_info_err(v.file_info, order, state@, (j + 1) as nat, n as nat);
                    }
                    return Err(e);
                },
                Ok(rec) => {
                    out.push(rec);
                    proof {
                        assert(emit_file_info(v.file_info, order, state@, (j + 1) as nat) == Ok::<Seq<FileInfo>, ArcError>(out@));
                    }
                },
            }
            j = j + 1;
        }
        Ok(out)
    }

    /// Emits one table: each reserved original in insertion order, rewritten.
    #[verifier::loop_isolation(false)]
    fn emit_file_desc_exec(&self, state: &SerState) -> (r: Result<Vec<FileDesc>, ArcError>)
        requires
            state.wf(),
        ensures
            match emit_file_desc(self@.file_desc, state@.file_desc, state@, state@.file_desc.len()) {
                Ok(t) => r is Ok && r.unwrap()@ == t,
                Err(e) => r == Err::<Vec<FileDesc>, ArcError>(e),
            },
    {
        let ghost v = self@;
        let ghost order = state@.file_desc;
        let n = state.file_desc.len();
        let mut out: Vec<FileDesc> = Vec::new();
        let mut j: usize = 0;
        while j < n
            invariant
                0 <= j <= n,
                emit_file_desc(v.file_desc, order, state@, j as nat) == Ok::<Seq<FileDesc>, ArcError>(out@),
            decreases n - j,
        {
            let oi = state.file_desc.get_at(j);
            if oi as usize >= self.file_desc.len() {
                proof {
                    assert(emit_file_desc(v.file_desc, order, state@, (j + 1) as nat) is Err);
                    lemma_emit_file_desc_err(v.file_desc, order, state@, (j + 1) as nat, n as nat);
                }
                return Err(ArcError::CorruptGraph);
            }
            match self.file_desc[oi as usize].reinternalize(state) {
                Err(e) => {
                    proof {
                        assert(emit_file_desc(v.file_desc, order, state@, (j + 1) as nat) == Err::<Seq<FileDesc>, ArcError>(e));
                        lemma_emit_file_desc_err(v.file_desc, order, state@, (j + 1) as nat, n as nat);
                    }
                    return Err(e);
                },
                Ok(rec) => {
                    out.push(rec);
                    proof {
                        assert(emit_file_desc(v.file_desc, order, state@, (j + 1) as nat) == Ok::<Seq<FileDesc>, ArcError>(out@));
                    }
                },
            }
            j = j + 1;
        }
        Ok(out)
    }

    /// Emits one leaf table: each reserved original copied unchanged.
    #[verifier::loop_isolation(false)]
    fn emit_stream_data_exec(&self, state: &SerState) -> (r: Result<Vec<StreamData>, ArcError>)
        requires
            state.wf(),
        ensures
            match emit_stream_data(self@.stream_data, state@.stream_data, state@.stream_data.len()) {
                Ok(t) => r is Ok && r.unwrap()@ == t,
                Err(e) => r == Err::<Vec<StreamData>, ArcError>(e),
            },
    {
        let ghost v = self@;
        let ghost order = state@.stream_data;
        let n = state.stream_data.len();
        let mut out: Vec<StreamData> = Vec::new();
        let mut j: usize = 0;
        while j < n
            invariant
                0 <= j <= n,
                emit_stream_data(v.stream_data, order, j as nat) == Ok::<Seq<StreamData>, ArcError>(out@),
            decreases n - j,
        {
            let oi = state.stream_data.get_at(j);
            if oi as usize >= self.stream_data.len() {
                proof {
                    assert(emit_stream_data(v.stream_data, order, (j + 1) as nat) is Err);
                    lemma_emit_stream_data_err(v.stream_data, order, (j + 1) as nat, n as nat);
                }
                return Err(ArcError::CorruptGraph);
            }
            out.push(self.stream_data[oi as usize]);
            proof {
                assert(emit_stream_data(v.stream_data, order, (j + 1) as nat) == Ok::<Seq<StreamData>, ArcError>(out@));
            }
            j = j + 1;
        }
        Ok(out)
    }

    /// Emits one leaf table: each reserved original copied unchanged.
    #[verifier::loop_isolation(false)]
    fn emit_file_data_exec(&self, state: &SerState) -> (r: Result<Vec<FileData>, ArcError>)
        requires
            state.wf(),
        ensures
            match emit_file_data(self@.file_data, state@.file_data, state@.file_data.len()) {
                Ok(t) => r is Ok && r.unwrap()@ == t,
                Err(e) => r == Err::<Vec<FileData>, ArcError>(e),
            },
    {
        let ghost v = self@;
        let ghost order = state@.file_data;
        let n = state.file_data.len();
        let mut out: Vec<FileData> = Vec::new();
        let mut j: usize = 0;
        while j < n
            invariant
                0 <= j <= n,
                emit_file_data(v.file_data, order, j as nat) == Ok::<Seq<FileData>, ArcError>(out@),
            decreases n - j,
        {
            let oi = state.file_data.get_at(j);
            if oi as usize >= self.file_data.len() {
                proof {
                    assert(emit_file_data(v.file_data, order, (j + 1) as nat) is Err);
                    lemma_emit_file_data_err(v.file_data, order, (j + 1) as nat, n as nat);
                }
                return Err(ArcError::CorruptGraph);
            }
            out.push(self.file_data[oi as usize]);
            proof {
                assert(emit_file_data(v.file_data, order, (j + 1) as nat) == Ok::<Seq<FileData>, ArcError>(out@));
            }
            j = j + 1;
        }
        Ok(out)
    }

    /// Emits the file entity table: each reserved original rewritten, the
    /// owner disambiguated by magnitude against the package count.
    #[verifier::loop_isolation(false)]
    fn emit_file_entity_exec(&self, state: &SerState, pkg_len: u32) -> (r: Result<
        Vec<FileEntity>,
        ArcError,
    >)
        requires
            state.wf(),
        ensures
            match emit_file_entity(
                self@.file_entity,
                state@.file_entity,
                state@,
                pkg_len,
                state@.file_entity.len(),
            ) {
                Ok(t) => r is Ok && r.unwrap()@ == t,
                Err(e) => r == Err::<Vec<FileEntity>, ArcError>(e),
            },
    {
        let ghost v = self@;
        let ghost order = state@.file_entity;
        let n = state.file_entity.len();
        let mut out: Vec<FileEntity> = Vec::new();
        let mut j: usize = 0;
        while j < n
            invariant
                0 <= j <= n,
                emit_file_entity(v.file_entity, order, state@, pkg_len, j as nat) == Ok::<
                    Seq<FileEntity>,
                    ArcError,
                >(out@),
            decreases n - j,
        {
            let oi = state.file_entity.get_at(j);
            if oi as usize >= self.file_entity.len() {
                proof {
                    assert(emit_file_entity(v.file_entity, order, state@, pkg_len, (j + 1) as nat)
                        is Err);
                    lemma_emit_file_entity_err(
                        v.file_entity,
                        order,
                        state@,
                        pkg_len,
                        (j + 1) as nat,
                        n as nat,
                    );
                }
                return Err(ArcError::CorruptGraph);
            }
            match self.file_entity[oi as usize].reinternalize(state, pkg_len) {
                Err(e) => {
                    proof {
                        assert(emit_file_entity(
                            v.file_entity,
                            order,
                            state@,
                            pkg_len,
                            (j + 1) as nat,
                        ) == Err::<Seq<FileEntity>, ArcError>(e));
                        lemma_emit_file_entity_err(
                            v.file_entity,
                            order,
                            state@,
                            pkg_len,
                            (j + 1) as nat,
                            n as nat,
                        );
                    }
                    return Err(e);
                },
                Ok(rec) => {
                    out.push(rec);
                    proof {
                        assert(emit_file_entity(
                            v.file_entity,
                            order,
                            state@,
                            pkg_len,
                            (j + 1) as nat,
                        ) == Ok::<Seq<FileEntity>, ArcError>(out@));
                    }
                },
            }
            j = j + 1;
        }
        Ok(out)
    }

    /// Emits the file group table, split around the info disposition
    /// threshold: data-disposition rewrites below the split, info-disposition
    /// rewrites at and above it.
    #[verifier::loop_isolation(false)]
    fn emit_groups_exec(&self, state: &SerState, split: usize, pkg_len: u32) -> (r: Result<
        Vec<FileGroup>,
        ArcError,
    >)
        requires
            state.wf(),
            split <= state@.file_group.len(),
        ensures
            match emit_file_group_data(
                self@.file_group,
                state@.file_group.take(split as int),
                state@,
                pkg_len,
                split as nat,
            ) {
                Err(e) => r == Err::<Vec<FileGroup>, ArcError>(e),
                Ok(gd) => match emit_file_group_info(
                    self@.file_group,
                    state@.file_group.skip(split as int),
                    state@,
                    (state@.file_group.len() - split) as nat,
                ) {
                    Err(e) => r == Err::<Vec<FileGroup>, ArcError>(e),
                    Ok(gi) => r is Ok && r.unwrap()@ == gd + gi,
                },
            },
    {
        let ghost v = self@;
        let ghost ord_d = state@.file_group.take(split as int);
        let ghost ord_i = state@.file_group.skip(split as int);
        let n = state.file_group.len();
        let mut out: Vec<FileGroup> = Vec::new();
        let mut j: usize = 0;
        while j < split
            invariant
                0 <= j <= split <= state@.file_group.len(),
                emit_file_group_data(v.file_group, ord_d, state@, pkg_len, j as nat) == Ok::<
                    Seq<FileGroup>,
                    ArcError,
                >(out@),
            decreases split - j,
        {
            let oi = state.file_group.get_at(j);
            proof {
                assert(ord_d[j as int] == state@.file_group[j as int]);
            }
            if oi as usize >= self.file_group.len() {
                proof {
                    assert(emit_file_group_data(v.file_group, ord_d, state@, pkg_len, (j + 1) as nat)
                        is Err);
                    lemma_emit_file_group_data_err(
                        v.file_group,
                        ord_d,
                        state@,
                        pkg_len,
                        (j + 1) as nat,
                        split as nat,
                    );
                }
                return Err(ArcError::CorruptGraph);
            }
            match self.file_group[oi as usize].reinternalize_data(state, pkg_len) {
                Err(e) => {
                    proof {
                        assert(emit_file_group_data(
                            v.file_group,
                            ord_d,
                            state@,
                            pkg_len,
                            (j + 1) as nat,
                        ) == Err::<Seq<FileGroup>, ArcError>(e));
                        lemma_emit_file_group_data_err(
                            v.file_group,
                            ord_d,
                            state@,
                            pkg_len,
                            (j + 1) as nat,
                            split as nat,
                        );
                    }
                    return Err(e);
                },
                Ok(rec) => {
                    out.push(rec);
                    proof {
                        assert(emit_file_group_data(
                            v.file_group,
                            ord_d,
                            state@,
                            pkg_len,
                            (j + 1) as nat,
                        ) == Ok::<Seq<FileGroup>, ArcError>(out@));
                    }
                },
            }
            j = j + 1;
        }
        let ghost gd = out@;
        let mut out_i: Vec<FileGroup> = Vec::new();
        let mut k: usize = 0;
        while k < n - split
            invariant
                0 <= k <= n - split,
                n == state@.file_group.len(),
                split <= n,
                emit_file_group_info(v.file_group, ord_i, state@, k as nat) == Ok::<
                    Seq<FileGroup>,
                    ArcError,
                >(out_i@),
            decreases n - split - k,
        {
            let oi = state.file_group.get_at(split + k);
            proof {
                assert(ord_i[k as int] == state@.file_group[split + k]);
            }
            if oi as usize >= self.file_group.len() {
                proof {
                    assert(emit_file_group_info(v.file_group, ord_i, state@, (k + 1) as nat)
                        is Err);
                    lemma_emit_file_group_info_err(
                        v.file_group,
                        ord_i,
                        state@,
                        (k + 1) as nat,
                        (n - split) as nat,
                    );
                }
                return Err(ArcError::CorruptGraph);
            }
            match self.file_group[oi as usize].reinternalize_info(state) {
                Err(e) => {
                    proof {
                        assert(emit_file_group_info(v.file_group, ord_i, state@, (k + 1) as nat)
                            == Err::<Seq<FileGroup>, ArcError>(e));
                        lemma_emit_file_group_info_err(
                            v.file_group,
                            ord_i,
                            state@,
                            (k + 1) as nat,
                            (n - split) as nat,
                        );
                    }
                    return Err(e);
                },
                Ok(rec) => {
                    out_i.push(rec);
                    proof {
                        assert(emit_file_group_info(v.file_group, ord_i, state@, (k + 1) as nat)
                            == Ok::<Seq<FileGroup>, ArcError>(out_i@));
                    }
                },
            }
            k = k + 1;
        }
        out.append(&mut out_i);
        Ok(out)
    }

}


impl crate::resource::ResourceTables {
    /// Re-serializes the tables: reserves every originally-referenced entry a
    /// new dense index by the reservation walk, then emits every table in
    /// new-index order with all embedded indices rewritten, under a header
    /// whose counts are the new table lengths. Duplicate reservations where
    /// uniqueness is required, references to missing entries, and tables
    /// longer than the sentinel are a corrupt graph; a load-method tag
    /// outside the permitted set is a corrupt tag.
    #[verifier::loop_isolation(false)]
    #[verifier::rlimit(100)]
    pub fn into_bytes(&self) -> (r: Result<Vec<u8>, ArcError>)
        ensures
            match spec_into_bytes(self@) {
                Ok(b) => r is Ok && r.unwrap()@ == b,
                Err(e) => r == Err::<Vec<u8>, ArcError>(e),
            },
    {
        let ghost v = self@;
        let inv = INVALID_INDEX as usize;
        if self.stream_folder.len() > inv || self.stream_path_lookup.entries.len() > inv
            || self.stream_path.len() > inv || self.stream_desc.len() > inv
            || self.stream_data.len() > inv || self.file_path_lookup.buckets.len() > inv
            || self.file_path_lookup.entries.len() > inv || self.file_path.len() > inv
            || self.file_entity.len() > inv || self.file_package_lookup.entries.len() > inv
            || self.file_package.len() > inv || self.file_group.len() > inv
            || self.file_package_child.len() > inv || self.file_info.len() > inv
            || self.file_desc.len() > inv || self.file_data.len() > inv {
            return Err(ArcError::CorruptGraph);
        }
        proof {
            assert(tables_small(v));
        }
        let mut state = SerState::new();
        proof {
            assert(state@.of(crate::serialization::TableKind::FilePath) == Seq::<u32>::empty());
            assert(state@.of(crate::serialization::TableKind::FileEntity) == Seq::<u32>::empty());
            assert(state@.of(crate::serialization::TableKind::FileInfo) == Seq::<u32>::empty());
            assert(state@.of(crate::serialization::TableKind::FileDesc) == Seq::<u32>::empty());
            assert(state@.of(crate::serialization::TableKind::FileData) == Seq::<u32>::empty());
            assert(state@.of(crate::serialization::TableKind::FilePackage) == Seq::<u32>::empty());
            assert(state@.of(crate::serialization::TableKind::FilePackageChild)
                == Seq::<u32>::empty());
            assert(state@.of(crate::serialization::TableKind::FileGroup) == Seq::<u32>::empty());
            assert(state@.of(crate::serialization::TableKind::StreamFolder) == Seq::<u32>::empty());
            assert(state@.of(crate::serialization::TableKind::StreamPath) == Seq::<u32>::empty());
            assert(state@.of(crate::serialization::TableKind::StreamDesc) == Seq::<u32>::empty());
            assert(state@.of(crate::serialization::TableKind::StreamData) == Seq::<u32>::empty());
            assert(state@ == sv_empty());
        }
        let mut info_groups: Vec<u32> = Vec::new();
        if !self.plan_packages_exec(&mut state, &mut info_groups) {
            return Err(ArcError::CorruptGraph);
        }
        let ist = match self.plan_info_groups_exec(&mut state, &info_groups) {
            None => {
                return Err(ArcError::CorruptGraph);
            },
            Some(ist) => ist,
        };
        let ghost s2 = state@;
        if !plan_identity_exec(&mut state.file_path, self.file_path.len()) {
            return Err(ArcError::CorruptGraph);
        }
        if !plan_identity_exec(&mut state.file_entity, self.file_entity.len()) {
            return Err(ArcError::CorruptGraph);
        }
        proof {
            assert(state@ == (SerView {
                file_path: state@.file_path,
                file_entity: state@.file_entity,
                ..s2
            }));
        }
        if !self.plan_folders_exec(&mut state) {
            return Err(ArcError::CorruptGraph);
        }
        proof {
            assert(spec_plan(v) == Some((state@, ist)));
        }
        match self.emit_all(&state, ist) {
            Err(e) => Err(e),
            Ok(bytes) => Ok(bytes),
        }
    }

    /// The emission half of the re-serializer: every table in new-index
    /// order, rewritten, under the new header, as bytes.
    #[verifier::loop_isolation(false)]
    #[verifier::rlimit(100)]
    fn emit_all(&self, state: &SerState, ist: Option<u32>) -> (r: Result<Vec<u8>, ArcError>)
        requires
            state.wf(),
            self@.file_package.len() <= INVALID_INDEX,
            self@.buckets.len() <= INVALID_INDEX,
            self@.stream_path_lookup.len() <= INVALID_INDEX,
            self@.file_path_lookup.len() <= INVALID_INDEX,
            self@.file_package_lookup.len() <= INVALID_INDEX,
        ensures
            match spec_remap(self@, state@, ist) {
                Err(e) => r == Err::<Vec<u8>, ArcError>(e),
                Ok(w) => r is Ok && r.unwrap()@ == spec_resource_bytes(w.header, w),
            },
    {
        let ghost v = self@;
        let pkg_len = self.file_package.len() as u32;
        let out_sf = match self.emit_stream_folder_exec(&state) {
            Err(e) => {
                return Err(e);
            },
            Ok(x) => x,
        };
        let out_spl = match emit_lookup_exec(&self.stream_path_lookup.entries, &state.stream_path) {
            Err(e) => {
                return Err(e);
            },
            Ok(x) => x,
        };
        let out_sp = match self.emit_stream_path_exec(&state) {
            Err(e) => {
                return Err(e);
            },
            Ok(x) => x,
        };
        let out_sd = match self.emit_stream_desc_exec(&state) {
            Err(e) => {
                return Err(e);
            },
            Ok(x) => x,
        };
        let out_sdata = match self.emit_stream_data_exec(&state) {
            Err(e) => {
                return Err(e);
            },
            Ok(x) => x,
        };
        let out_fpl = match emit_lookup_exec(&self.file_path_lookup.entries, &state.file_path) {
            Err(e) => {
                return Err(e);
            },
            Ok(x) => x,
        };
        let out_fp = match self.emit_file_path_exec(&state) {
            Err(e) => {
                return Err(e);
            },
            Ok(x) => x,
        };
        let out_fe = match self.emit_file_entity_exec(&state, pkg_len) {
            Err(e) => {
                return Err(e);
            },
            Ok(x) => x,
        };
        let out_fpkl = match emit_lookup_exec(&self.file_package_lookup.entries, &state.file_package) {
            Err(e) => {
                return Err(e);
            },
            Ok(x) => x,
        };
        let out_fpkg = match self.emit_file_package_exec(&state) {
            Err(e) => {
                return Err(e);
            },
            Ok(x) => x,
        };
        let split = compute_split(&state.file_group, ist);
        let out_groups = match self.emit_groups_exec(&state, split, pkg_len) {
            Err(e) => {
                return Err(e);
            },
            Ok(x) => x,
        };
        let out_fpc = match self.emit_file_package_child_exec(&state) {
            Err(e) => {
                return Err(e);
            },
            Ok(x) => x,
        };
        let out_fi = match self.emit_file_info_exec(&state) {
            Err(e) => {
                return Err(e);
            },
            Ok(x) => x,
        };
        let out_fd = match self.emit_file_desc_exec(&state) {
            Err(e) => {
                return Err(e);
            },
            Ok(x) => x,
        };
        let out_fdata = match self.emit_file_data_exec(&state) {
            Err(e) => {
                return Err(e);
            },
            Ok(x) => x,
        };
        let lr_len = self.header.locale_region.len();
        let locale_region = crate::bytes::copy_bytes(
            self.header.locale_region.as_slice(),
            0,
            lr_len,
        );
        proof {
            assert(locale_region@ =~= v.header.locale_region);
        }
        let hdr = crate::resource::ResourceTableHeader {
            resource_data_size: self.header.resource_data_size,
            file_path_count: state.file_path.len() as u32,
            file_entity_count: state.file_entity.len() as u32,
            file_package_count: state.file_package.len() as u32,
            file_data_group_count: split as u32,
            file_package_child_count: state.file_package_child.len() as u32,
            file_package_info_count: state.file_info.len() as u32,
            file_package_desc_count: state.file_desc.len() as u32,
            file_package_data_count: state.file_data.len() as u32,
            file_info_group_count: (state.file_group.len() - split) as u32,
            file_group_info_count: 0,
            locale_count: 14,
            region_count: 5,
            version_patch: self.header.version_patch,
            version_minor: self.header.version_minor,
            version_major: self.header.version_major,
            versioned_file_group_count: 0,
            versioned_file_count: 0,
            versioned_file_info_count: 0,
            versioned_file_desc_count: 0,
            versioned_file_data_count: 0,
            locale_region,
            stream_folder_count: state.stream_folder.len() as u32,
            stream_path_count: state.stream_path.len() as u32,
            stream_desc_count: state.stream_desc.len() as u32,
            stream_data_count: state.stream_data.len() as u32,
        };
        proof {
            assert(hdr@ == spec_header_out(v.header, state@, group_split(state@.file_group, ist)));
        }
        proof {
            lemma_emit_lookup_len(v.file_path_lookup, state@.file_path, v.file_path_lookup.len());
        }
        let bytes = crate::emit::serialize_parts(
            &hdr,
            &out_sf,
            &out_spl,
            &out_sp,
            &out_sd,
            &out_sdata,
            &self.file_path_lookup.buckets,
            &out_fpl,
            &out_fp,
            &out_fe,
            &out_fpkl,
            &out_fpkg,
            &out_groups,
            &out_fpc,
            &out_fi,
            &out_fd,
            &out_fdata,
        );
        proof {
            let w = spec_remap(v, state@, ist).unwrap();
            assert(spec_remap(v, state@, ist) is Ok);
            assert(w == crate::emit::parts_view(
                hdr@,
                out_sf@,
                out_spl@,
                out_sp@,
                out_sd@,
                out_sdata@,
                self.file_path_lookup.buckets@,
                out_fpl@,
                out_fp@,
                out_fe@,
                out_fpkl@,
                out_fpkg@,
                out_groups@,
                out_fpc@,
                out_fi@,
                out_fd@,
                out_fdata@,
            ));
            assert(bytes@ =~= spec_resource_bytes(w.header, w));
        }
        Ok(bytes)
    }
}


/// `sv_try_n` keeps a set well formed.
pub proof fn lemma_sv_try_n_wf(s: Seq<u32>, start: u32, n: nat)
    requires
        rsv_wf(s),
        sv_try_n(s, start, n) is Some,
    ensures
        rsv_wf(sv_try_n(s, start, n).unwrap()),
    decreases n,
{
    if n > 0 {
        assert(sv_try_n(s, start, (n - 1) as nat) is Some);
        lemma_sv_try_n_wf(s, start, (n - 1) as nat);
        crate::serialization::lemma_sv_wf(
            sv_try_n(s, start, (n - 1) as nat).unwrap(),
            (start + n - 1) as u32,
        );
    }
}

/// `sv_try_range` keeps a set well formed.
pub proof fn lemma_sv_try_range_wf(s: Seq<u32>, start: u32, count: u32)
    requires
        rsv_wf(s),
        sv_try_range(s, start, count) is Some,
    ensures
        rsv_wf(sv_try_range(s, start, count).unwrap()),
{
    if start + count < INVALID_INDEX {
        lemma_sv_try_n_wf(s, start, count as nat);
    }
}

/// `sv_reserve_range` keeps a set well formed.
pub proof fn lemma_sv_reserve_range_wf(s: Seq<u32>, start: u32, count: u32)
    requires
        rsv_wf(s),
        sv_reserve_range(s, start, count) is Some,
    ensures
        rsv_wf(sv_reserve_range(s, start, count).unwrap()),
{
    if start != INVALID_INDEX && start + count < INVALID_INDEX {
        crate::serialization::lemma_sv_reserve_n_wf(s, start, count as nat);
    }
}

/// The package data-group walk keeps the file data set well formed.
pub proof fn lemma_plan_pkg_data_groups_wf(v: RtView, s: Seq<u32>, gstart: u32, n: nat)
    requires
        rsv_wf(s),
        plan_pkg_data_groups(v, s, gstart, n) is Some,
    ensures
        rsv_wf(plan_pkg_data_groups(v, s, gstart, n).unwrap()),
    decreases n,
{
    if n > 0 {
        assert(plan_pkg_data_groups(v, s, gstart, (n - 1) as nat) is Some);
        lemma_plan_pkg_data_groups_wf(v, s, gstart, (n - 1) as nat);
        let t = plan_pkg_data_groups(v, s, gstart, (n - 1) as nat).unwrap();
        let g = (gstart + n - 1) as u32;
        lemma_sv_try_range_wf(t, v.file_group[g as int].child_start, v.file_group[g as int].child_count);
    }
}

/// The info descriptor walk keeps the file descriptor set well formed.
pub proof fn lemma_plan_info_descs_wf(v: RtView, s: Seq<u32>, istart: u32, n: nat)
    requires
        rsv_wf(s),
        plan_info_descs(v, s, istart, n) is Some,
    ensures
        rsv_wf(plan_info_descs(v, s, istart, n).unwrap()),
    decreases n,
{
    if n > 0 {
        assert(plan_info_descs(v, s, istart, (n - 1) as nat) is Some);
        lemma_plan_info_descs_wf(v, s, istart, (n - 1) as nat);
        let t = plan_info_descs(v, s, istart, (n - 1) as nat).unwrap();
        let fi = (istart + n - 1) as u32;
        lemma_sv_reserve_range_wf(
            t,
            v.file_info[fi as int].desc,
            v.file_info[fi as int].spec_descriptor_count(),
        );
    }
}

/// One package's reservations keep the state well formed.
pub proof fn lemma_plan_one_package_wf(v: RtView, s: SerView, i: int)
    requires
        s.wf(),
        plan_one_package(v, s, i) is Some,
    ensures
        plan_one_package(v, s, i).unwrap().wf(),
{
    let p = v.file_package[i];
    crate::serialization::lemma_sv_wf(s.file_package, i as u32);
    let pk = sv_reserve(s.file_package, i as u32).unwrap();
    let s1 = SerView { file_package: pk, ..s };
    lemma_sv_reserve_range_wf(s1.file_package_child, p.child_start, p.child_count);
    lemma_sv_reserve_range_wf(s1.file_info, p.info_start, p.info_count);
    lemma_sv_reserve_range_wf(
        s1.file_group,
        p.spec_data_group_start(),
        p.spec_data_group_count(),
    );
    let s2 = p.spec_reserve(s1).unwrap();
    let grange = spec_checked_range(p.spec_data_group_start(), p.spec_data_group_count());
    lemma_plan_pkg_data_groups_wf(v, s2.file_data, p.spec_data_group_start(), grange.len());
    let irange = spec_checked_range(p.info_start, p.info_count);
    lemma_plan_info_descs_wf(v, s2.file_desc, p.info_start, irange.len());
}

/// The package walk keeps the state well formed.
pub proof fn lemma_plan_packages_wf(v: RtView, s: SerView, n: nat)
    requires
        s.wf(),
        plan_packages(v, s, n) is Some,
    ensures
        plan_packages(v, s, n).unwrap().wf(),
    decreases n,
{
    if n > 0 {
        assert(plan_packages(v, s, (n - 1) as nat) is Some);
        lemma_plan_packages_wf(v, s, (n - 1) as nat);
        lemma_plan_one_package_wf(v, plan_packages(v, s, (n - 1) as nat).unwrap(), n - 1);
    }
}

/// The descriptor data walk keeps the file data set well formed.
pub proof fn lemma_plan_desc_data_wf(v: RtView, s: Seq<u32>, dstart: u32, n: nat)
    requires
        rsv_wf(s),
        plan_desc_data(v, s, dstart, n) is Some,
    ensures
        rsv_wf(plan_desc_data(v, s, dstart, n).unwrap()),
    decreases n,
{
    if n > 0 {
        assert(plan_desc_data(v, s, dstart, (n - 1) as nat) is Some);
        lemma_plan_desc_data_wf(v, s, dstart, (n - 1) as nat);
        let t = plan_desc_data(v, s, dstart, (n - 1) as nat).unwrap();
        let d = (dstart + n - 1) as u32;
        crate::serialization::lemma_sv_wf(t, v.file_desc[d as int].file_data);
    }
}

/// The info-group child walk keeps the state well formed.
pub proof fn lemma_plan_group_infos_wf(v: RtView, s: SerView, istart: u32, n: nat)
    requires
        s.wf(),
        plan_group_infos(v, s, istart, n) is Some,
    ensures
        plan_group_infos(v, s, istart, n).unwrap().wf(),
    decreases n,
{
    if n > 0 {
        assert(plan_group_infos(v, s, istart, (n - 1) as nat) is Some);
        lemma_plan_group_infos_wf(v, s, istart, (n - 1) as nat);
        let t = plan_group_infos(v, s, istart, (n - 1) as nat).unwrap();
        let fi = (istart + n - 1) as u32;
        let info = v.file_info[fi as int];
        lemma_sv_reserve_range_wf(t.file_desc, info.desc, info.spec_descriptor_count());
        let drange = spec_checked_range(info.desc, info.spec_descriptor_count());
        lemma_plan_desc_data_wf(v, t.file_data, info.desc, drange.len());
    }
}

/// One info group's reservations keep the state well formed.
pub proof fn lemma_plan_one_info_group_wf(v: RtView, s: SerView, g: u32)
    requires
        s.wf(),
        plan_one_info_group(v, s, g) is Some,
    ensures
        plan_one_info_group(v, s, g).unwrap().0.wf(),
{
    if !(g == INVALID_INDEX || s.file_group.contains(g)) {
        let s1 = SerView { file_group: s.file_group.push(g), ..s };
        assert(rsv_wf(s1.file_group)) by {
            crate::serialization::lemma_sv_wf(s.file_group, g);
            assert(sv_reserve(s.file_group, g) == Some(s.file_group.push(g)));
        }
        let grp = v.file_group[g as int];
        lemma_sv_reserve_range_wf(s1.file_info, grp.child_start, grp.child_count);
        let fi = sv_reserve_range(s1.file_info, grp.child_start, grp.child_count).unwrap();
        let s2 = SerView { file_info: fi, ..s1 };
        let crange = spec_checked_range(grp.child_start, grp.child_count);
        lemma_plan_group_infos_wf(v, s2, grp.child_start, crange.len());
    }
}

/// The info-group walk keeps the state well formed.
pub proof fn lemma_plan_info_groups_wf(v: RtView, s: SerView, gs: Seq<u32>, n: nat)
    requires
        s.wf(),
        plan_info_groups(v, s, gs, n) is Some,
    ensures
        plan_info_groups(v, s, gs, n).unwrap().0.wf(),
    decreases n,
{
    if n > 0 {
        assert(plan_info_groups(v, s, gs, (n - 1) as nat) is Some);
        lemma_plan_info_groups_wf(v, s, gs, (n - 1) as nat);
        lemma_plan_one_info_group_wf(
            v,
            plan_info_groups(v, s, gs, (n - 1) as nat).unwrap().0,
            gs[n - 1],
        );
    }
}

/// The identity walk keeps a set well formed.
pub proof fn lemma_plan_identity_wf(s: Seq<u32>, n: nat)
    requires
        rsv_wf(s),
        plan_identity(s, n) is Some,
    ensures
        rsv_wf(plan_identity(s, n).unwrap()),
    decreases n,
{
    if n > 0 {
        assert(plan_identity(s, (n - 1) as nat) is Some);
        lemma_plan_identity_wf(s, (n - 1) as nat);
        crate::serialization::lemma_sv_wf(plan_identity(s, (n - 1) as nat).unwrap(), (n - 1) as u32);
    }
}

/// The stream descriptor data walk keeps the stream data set well formed.
pub proof fn lemma_plan_stream_desc_data_wf(v: RtView, s: Seq<u32>, dstart: u32, n: nat)
    requires
        rsv_wf(s),
        plan_stream_desc_data(v, s, dstart, n) is Some,
    ensures
        rsv_wf(plan_stream_desc_data(v, s, dstart, n).unwrap()),
    decreases n,
{
    if n > 0 {
        assert(plan_stream_desc_data(v, s, dstart, (n - 1) as nat) is Some);
        lemma_plan_stream_desc_data_wf(v, s, dstart, (n - 1) as nat);
        let t = plan_stream_desc_data(v, s, dstart, (n - 1) as nat).unwrap();
        let d = (dstart + n - 1) as u32;
        crate::serialization::lemma_sv_wf(t, v.stream_desc[d as int].stream_data);
    }
}

/// The folder path walk keeps the state well formed.
pub proof fn lemma_plan_folder_paths_wf(v: RtView, s: SerView, pstart: u32, n: nat)
    requires
        s.wf(),
        plan_folder_paths(v, s, pstart, n) is Some,
    ensures
        plan_folder_paths(v, s, pstart, n).unwrap().wf(),
    decreases n,
{
    if n > 0 {
        assert(plan_folder_paths(v, s, pstart, (n - 1) as nat) is Some);
        lemma_plan_folder_paths_wf(v, s, pstart, (n - 1) as nat);
        let t = plan_folder_paths(v, s, pstart, (n - 1) as nat).unwrap();
        let sp = (pstart + n - 1) as u32;
        let path = v.stream_path[sp as int];
        let dstart = spec_hwd_data(path.path_and_desc.len_and_data);
        lemma_sv_reserve_range_wf(t.stream_desc, dstart, path.spec_descriptor_count());
        let drange = spec_checked_range(dstart, path.spec_descriptor_count());
        lemma_plan_stream_desc_data_wf(v, t.stream_data, dstart, drange.len());
    }
}

/// One folder's reservations keep the state well formed.
pub proof fn lemma_plan_one_folder_wf(v: RtView, s: SerView, i: int)
    requires
        s.wf(),
        plan_one_folder(v, s, i) is Some,
    ensures
        plan_one_folder(v, s, i).unwrap().wf(),
{
    crate::serialization::lemma_sv_wf(s.stream_folder, i as u32);
    let sf = sv_reserve(s.stream_folder, i as u32).unwrap();
    let s1 = SerView { stream_folder: sf, ..s };
    let f = v.stream_folder[i];
    let cstart = f.child_start_index;
    let ccount = spec_hwd_data(f.name_and_child_count.len_and_data);
    lemma_sv_reserve_range_wf(s1.stream_path, cstart, ccount);
    let sp = sv_reserve_range(s1.stream_path, cstart, ccount).unwrap();
    let s2 = SerView { stream_path: sp, ..s1 };
    let crange = spec_checked_range(cstart, ccount);
    lemma_plan_folder_paths_wf(v, s2, cstart, crange.len());
}

/// The folder walk keeps the state well formed.
pub proof fn lemma_plan_folders_wf(v: RtView, s: SerView, n: nat)
    requires
        s.wf(),
        plan_folders(v, s, n) is Some,
    ensures
        plan_folders(v, s, n).unwrap().wf(),
    decreases n,
{
    if n > 0 {
        assert(plan_folders(v, s, (n - 1) as nat) is Some);
        lemma_plan_folders_wf(v, s, (n - 1) as nat);
        lemma_plan_one_folder_wf(v, plan_folders(v, s, (n - 1) as nat).unwrap(), n - 1);
    }
}

/// A successful reservation walk leaves every set well formed.
pub proof fn lemma_spec_plan_wf(v: RtView)
    requires
        spec_plan(v) is Some,
    ensures
        spec_plan(v).unwrap().0.wf(),
{
    assert(sv_empty().wf());
    lemma_plan_packages_wf(v, sv_empty(), v.file_package.len());
    let s1 = plan_packages(v, sv_empty(), v.file_package.len()).unwrap();
    let gs = collected_groups(v, v.file_package.len());
    lemma_plan_info_groups_wf(v, s1, gs, gs.len());
    let (s2, _) = plan_info_groups(v, s1, gs, gs.len()).unwrap();
    lemma_plan_identity_wf(s2.file_path, v.file_path.len());
    let fp = plan_identity(s2.file_path, v.file_path.len()).unwrap();
    lemma_plan_identity_wf(s2.file_entity, v.file_entity.len());
    let fe = plan_identity(s2.file_entity, v.file_entity.len()).unwrap();
    let s3 = SerView { file_path: fp, file_entity: fe, ..s2 };
    lemma_plan_folders_wf(v, s3, v.stream_folder.len());
}


/// A successful emission yields one record per reserved original.
pub proof fn lemma_emit_stream_folder_len(tbl: Seq<StreamFolder>, order: Seq<u32>, s: SerView, n: nat)
    requires
        emit_stream_folder(tbl, order, s, n) is Ok,
    ensures
        emit_stream_folder(tbl, order, s, n).unwrap().len() == n,
    decreases n,
{
    if n > 0 {
        assert(emit_stream_folder(tbl, order, s, (n - 1) as nat) is Ok);
        lemma_emit_stream_folder_len(tbl, order, s, (n - 1) as nat);
    }
}

/// A successful emission yields one record per reserved original.
pub proof fn lemma_emit_stream_path_len(tbl: Seq<StreamPath>, order: Seq<u32>, s: SerView, n: nat)
    requires
        emit_stream_path(tbl, order, s, n) is Ok,
    ensures
        emit_stream_path(tbl, order, s, n).unwrap().len() == n,
    decreases n,
{
    if n > 0 {
        assert(emit_stream_path(tbl, order, s, (n - 1) as nat) is Ok);
        lemma_emit_stream_path_len(tbl, order, s, (n - 1) as nat);
    }
}

/// A successful emission yields one record per reserved original.
pub proof fn lemma_emit_stream_desc_len(tbl: Seq<StreamDesc>, order: Seq<u32>, s: SerView, n: nat)
    requires
        emit_stream_desc(tbl, order, s, n) is Ok,
    ensures
        emit_stream_desc(tbl, order, s, n).unwrap().len() == n,
    decreases n,
{
    if n > 0 {
        assert(emit_stream_desc(tbl, order, s, (n - 1) as nat) is Ok);
        lemma_emit_stream_desc_len(tbl, order, s, (n - 1) as nat);
    }
}

/// A successful emission yields one record per reserved original.
pub proof fn lemma_emit_stream_data_len(tbl: Seq<StreamData>, order: Seq<u32>, n: nat)
    requires
        emit_stream_data(tbl, order, n) is Ok,
    ensures
        emit_stream_data(tbl, order, n).unwrap().len() == n,
    decreases n,
{
    if n > 0 {
        assert(emit_stream_data(tbl, order, (n - 1) as nat) is Ok);
        lemma_emit_stream_data_len(tbl, order, (n - 1) as nat);
    }
}

/// A successful emission yields one record per reserved original.
pub proof fn lemma_emit_file_entity_len(tbl: Seq<FileEntity>, order: Seq<u32>, s: SerView, pkg_len: u32, n: nat)
    requires
        emit_file_entity(tbl, order, s, pkg_len, n) is Ok,
    ensures
        emit_file_entity(tbl, order, s, pkg_len, n).unwrap().len() == n,
    decreases n,
{
    if n > 0 {
        assert(emit_file_entity(tbl, order, s, pkg_len, (n - 1) as nat) is Ok);
        lemma_emit_file_entity_len(tbl, order, s, pkg_len, (n - 1) as nat);
    }
}

/// A successful emission yields one record per reserved original.
pub proof fn lemma_emit_file_package_len(tbl: Seq<FilePackage>, order: Seq<u32>, s: SerView, n: nat)
    requires
        emit_file_package(tbl, order, s, n) is Ok,
    ensures
        emit_file_package(tbl, order, s, n).unwrap().len() == n,
    decreases n,
{
    if n > 0 {
        assert(emit_file_package(tbl, order, s, (n - 1) as nat) is Ok);
        lemma_emit_file_package_len(tbl, order, s, (n - 1) as nat);
    }
}

/// A successful emission yields one record per reserved original.
pub proof fn lemma_emit_file_group_data_len(tbl: Seq<FileGroup>, order: Seq<u32>, s: SerView, pkg_len: u32, n: nat)
    requires
        emit_file_group_data(tbl, order, s, pkg_len, n) is Ok,
    ensures
        emit_file_group_data(tbl, order, s, pkg_len, n).unwrap().len() == n,
    decreases n,
{
    if n > 0 {
        assert(emit_file_group_data(tbl, order, s, pkg_len, (n - 1) as nat) is Ok);
        lemma_emit_file_group_data_len(tbl, order, s, pkg_len, (n - 1) as nat);
    }
}

/// A successful emission yields one record per reserved original.
pub proof fn lemma_emit_file_group_info_len(tbl: Seq<FileGroup>, order: Seq<u32>, s: SerView, n: nat)
    requires
        emit_file_group_info(tbl, order, s, n) is Ok,
    ensures
        emit_file_group_info(tbl, order, s, n).unwrap().len() == n,
    decreases n,
{
    if n > 0 {
        assert(emit_file_group_info(tbl, order, s, (n - 1) as nat) is Ok);
        lemma_emit_file_group_info_len(tbl, order, s, (n - 1) as nat);
    }
}

/// A successful emission yields one record per reserved original.
pub proof fn lemma_emit_file_package_child_len(tbl: Seq<FilePackageChild>, order: Seq<u32>, s: SerView, n: nat)
    requires
        emit_file_package_child(tbl, order, s, n) is Ok,
    ensures
        emit_file_package_child(tbl, order, s, n).unwrap().len() == n,
    decreases n,
{
    if n > 0 {
        assert(emit_file_package_child(tbl, order, s, (n - 1) as nat) is Ok);
        lemma_emit_file_package_child_len(tbl, order, s, (n - 1) as nat);
    }
}

/// A successful emission yields one record per reserved original.
pub proof fn lemma_emit_file_info_len(tbl: Seq<FileInfo>, order: Seq<u32>, s: SerView, n: nat)
    requires
        emit_file_info(tbl, order, s, n) is Ok,
    ensures
        emit_file_info(tbl, order, s, n).unwrap().len() == n,
    decreases n,
{
    if n > 0 {
        assert(emit_file_info(tbl, order, s, (n - 1) as nat) is Ok);
        lemma_emit_file_info_len(tbl, order, s, (n - 1) as nat);
    }
}

/// A successful emission yields one record per reserved original.
pub proof fn lemma_emit_file_desc_len(tbl: Seq<FileDesc>, order: Seq<u32>, s: SerView, n: nat)
    requires
        emit_file_desc(tbl, order, s, n) is Ok,
    ensures
        emit_file_desc(tbl, order, s, n).unwrap().len() == n,
    decreases n,
{
    if n > 0 {
        assert(emit_file_desc(tbl, order, s, (n - 1) as nat) is Ok);
        lemma_emit_file_desc_len(tbl, order, s, (n - 1) as nat);
    }
}

/// A successful emission yields one record per reserved original.
pub proof fn lemma_emit_file_data_len(tbl: Seq<FileData>, order: Seq<u32>, n: nat)
    requires
        emit_file_data(tbl, order, n) is Ok,
    ensures
        emit_file_data(tbl, order, n).unwrap().len() == n,
    decreases n,
{
    if n > 0 {
        assert(emit_file_data(tbl, order, (n - 1) as nat) is Ok);
        lemma_emit_file_data_len(tbl, order, (n - 1) as nat);
    }
}

/// The split point never passes the table's end.
pub proof fn lemma_take_while_le(order: Seq<u32>, t: u32)
    ensures
        take_while_lt(order, t) <= order.len(),
    decreases order.len(),
{
    if order.len() > 0 && order[0] < t {
        lemma_take_while_le(order.drop_first(), t);
    }
}

/// The group split never passes the table's end.
pub proof fn lemma_group_split_le(order: Seq<u32>, istart: Option<u32>)
    ensures
        group_split(order, istart) <= order.len(),
{
    match istart {
        None => {},
        Some(t) => {
            lemma_take_while_le(order, t);
        },
    }
}


/// One package's reservations append exactly its own index to the package
/// set.
pub proof fn lemma_plan_one_package_pkgs(v: RtView, s: SerView, i: int)
    requires
        plan_one_package(v, s, i) is Some,
        0 <= i < INVALID_INDEX,
    ensures
        plan_one_package(v, s, i).unwrap().file_package == s.file_package.push(i as u32),
{
}

/// The package walk reserves the packages in original order: it appends the
/// identity run to the package set.
pub proof fn lemma_plan_packages_identity(v: RtView, s: SerView, n: nat)
    requires
        plan_packages(v, s, n) is Some,
        n <= INVALID_INDEX,
    ensures
        plan_packages(v, s, n).unwrap().file_package =~= s.file_package + Seq::new(
            n,
            |k: int| k as u32,
        ),
    decreases n,
{
    if n == 0 {
        assert(s.file_package + Seq::new(0, |k: int| k as u32) =~= s.file_package);
    } else {
        assert(plan_packages(v, s, (n - 1) as nat) is Some);
        lemma_plan_packages_identity(v, s, (n - 1) as nat);
        let t = plan_packages(v, s, (n - 1) as nat).unwrap();
        lemma_plan_one_package_pkgs(v, t, n - 1);
        assert(s.file_package + Seq::new((n - 1) as nat, |k: int| k as u32) =~= t.file_package);
        assert((s.file_package + Seq::new((n - 1) as nat, |k: int| k as u32)).push(
            (n - 1) as u32,
        ) =~= s.file_package + Seq::new(n, |k: int| k as u32));
    }
}

/// The info-group child walk never touches the package set.
pub proof fn lemma_plan_group_infos_pkgs(v: RtView, s: SerView, istart: u32, n: nat)
    requires
        plan_group_infos(v, s, istart, n) is Some,
    ensures
        plan_group_infos(v, s, istart, n).unwrap().file_package == s.file_package,
    decreases n,
{
    if n > 0 {
        assert(plan_group_infos(v, s, istart, (n - 1) as nat) is Some);
        lemma_plan_group_infos_pkgs(v, s, istart, (n - 1) as nat);
    }
}

/// One collected info group never touches the package set.
pub proof fn lemma_plan_one_info_group_pkgs(v: RtView, s: SerView, g: u32)
    requires
        plan_one_info_group(v, s, g) is Some,
    ensures
        plan_one_info_group(v, s, g).unwrap().0.file_package == s.file_package,
{
    if !(g == INVALID_INDEX || s.file_group.contains(g)) {
        let s1 = SerView { file_group: s.file_group.push(g), ..s };
        let grp = v.file_group[g as int];
        let fi = sv_reserve_range(s1.file_info, grp.child_start, grp.child_count).unwrap();
        let s2 = SerView { file_info: fi, ..s1 };
        let crange = spec_checked_range(grp.child_start, grp.child_count);
        lemma_plan_group_infos_pkgs(v, s2, grp.child_start, crange.len());
    }
}

/// The info-group walk never touches the package set.
pub proof fn lemma_plan_info_groups_pkgs(v: RtView, s: SerView, gs: Seq<u32>, n: nat)
    requires
        plan_info_groups(v, s, gs, n) is Some,
    ensures
        plan_info_groups(v, s, gs, n).unwrap().0.file_package == s.file_package,
    decreases n,
{
    if n > 0 {
        assert(plan_info_groups(v, s, gs, (n - 1) as nat) is Some);
        lemma_plan_info_groups_pkgs(v, s, gs, (n - 1) as nat);
        lemma_plan_one_info_group_pkgs(
            v,
            plan_info_groups(v, s, gs, (n - 1) as nat).unwrap().0,
            gs[n - 1],
        );
    }
}

/// The folder path walk never touches the package set.
pub proof fn lemma_plan_folder_paths_pkgs(v: RtView, s: SerView, pstart: u32, n: nat)
    requires
        plan_folder_paths(v, s, pstart, n) is Some,
    ensures
        plan_folder_paths(v, s, pstart, n).unwrap().file_package == s.file_package,
    decreases n,
{
    if n > 0 {
        assert(plan_folder_paths(v, s, pstart, (n - 1) as nat) is Some);
        lemma_plan_folder_paths_pkgs(v, s, pstart, (n - 1) as nat);
    }
}

/// One folder's reservations never touch the package set.
pub proof fn lemma_plan_one_folder_pkgs(v: RtView, s: SerView, i: int)
    requires
        plan_one_folder(v, s, i) is Some,
    ensures
        plan_one_folder(v, s, i).unwrap().file_package == s.file_package,
{
    let sf = sv_reserve(s.stream_folder, i as u32).unwrap();
    let s1 = SerView { stream_folder: sf, ..s };
    let f = v.stream_folder[i];
    let cstart = f.child_start_index;
    let ccount = spec_hwd_data(f.name_and_child_count.len_and_data);
    let sp = sv_reserve_range(s1.stream_path, cstart, ccount).unwrap();
    let s2 = SerView { stream_path: sp, ..s1 };
    let crange = spec_checked_range(cstart, ccount);
    lemma_plan_folder_paths_pkgs(v, s2, cstart, crange.len());
}

/// The folder walk never touches the package set.
pub proof fn lemma_plan_folders_pkgs(v: RtView, s: SerView, n: nat)
    requires
        plan_folders(v, s, n) is Some,
    ensures
        plan_folders(v, s, n).unwrap().file_package == s.file_package,
    decreases n,
{
    if n > 0 {
        assert(plan_folders(v, s, (n - 1) as nat) is Some);
        lemma_plan_folders_pkgs(v, s, (n - 1) as nat);
        lemma_plan_one_folder_pkgs(v, plan_folders(v, s, (n - 1) as nat).unwrap(), n - 1);
    }
}

/// A successful reservation walk reserves the packages as the identity run:
/// the reserved package originals are exactly `0, 1, 2, ...` in order.
pub proof fn lemma_spec_plan_package_identity(v: RtView)
    requires
        spec_plan(v) is Some,
        v.file_package.len() <= INVALID_INDEX,
    ensures
        spec_plan(v).unwrap().0.file_package =~= Seq::new(
            v.file_package.len(),
            |k: int| k as u32,
        ),
{
    lemma_plan_packages_identity(v, sv_empty(), v.file_package.len());
    let s1 = plan_packages(v, sv_empty(), v.file_package.len()).unwrap();
    assert(s1.file_package =~= Seq::new(v.file_package.len(), |k: int| k as u32)) by {
        assert(sv_empty().file_package + Seq::new(v.file_package.len(), |k: int| k as u32)
            =~= Seq::new(v.file_package.len(), |k: int| k as u32));
    }
    let gs = collected_groups(v, v.file_package.len());
    lemma_plan_info_groups_pkgs(v, s1, gs, gs.len());
    let (s2, _) = plan_info_groups(v, s1, gs, gs.len()).unwrap();
    let fp = plan_identity(s2.file_path, v.file_path.len()).unwrap();
    let fe = plan_identity(s2.file_entity, v.file_entity.len()).unwrap();
    let s3 = SerView { file_path: fp, file_entity: fe, ..s2 };
    lemma_plan_folders_pkgs(v, s3, v.stream_folder.len());
}

/// A fresh block reservation appends exactly the block.
pub proof fn lemma_sv_reserve_n_block(s: Seq<u32>, start: u32, n: nat)
    requires
        sv_reserve_n(s, start, n) is Some,
        start + n <= INVALID_INDEX,
    ensures
        sv_reserve_n(s, start, n).unwrap() =~= s + Seq::new(n, |j: int| (start + j) as u32),
    decreases n,
{
    if n == 0 {
        assert(s + Seq::new(0, |j: int| (start + j) as u32) =~= s);
    } else {
        assert(sv_reserve_n(s, start, (n - 1) as nat) is Some);
        lemma_sv_reserve_n_block(s, start, (n - 1) as nat);
        let t = sv_reserve_n(s, start, (n - 1) as nat).unwrap();
        assert((start + n - 1) as u32 != INVALID_INDEX);
        assert(sv_reserve_n(s, start, n).unwrap() == t.push((start + n - 1) as u32));
        assert((s + Seq::new((n - 1) as nat, |j: int| (start + j) as u32)).push(
            (start + n - 1) as u32,
        ) =~= s + Seq::new(n, |j: int| (start + j) as u32));
    }
}

} // verus!
