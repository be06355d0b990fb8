//! The emitter: writes the header and every table back into one byte buffer
//! in the fixed on-disk order. The re-serializer and the verbatim serializer
//! share it.

use crate::bytes::push_u32_le;
use crate::bytes::u32_le_bytes;
use crate::data::file_data::{file_data_le_bytes, push_file_data, FileData};
use crate::data::file_desc::{file_desc_le_bytes, push_file_desc, FileDesc};
use crate::data::file_entity::{file_entity_le_bytes, push_file_entity, FileEntity};
use crate::data::file_group::{file_group_le_bytes, push_file_group, FileGroup};
use crate::data::file_info::{file_info_le_bytes, push_file_info, FileInfo};
use crate::data::file_package::{
    file_package_child_le_bytes, file_package_le_bytes, push_file_package,
    push_file_package_child, FilePackage, FilePackageChild,
};
use crate::data::file_path::{file_path_le_bytes, push_file_path, FilePath};
use crate::data::stream_data::{stream_data_le_bytes, push_stream_data, StreamData};
use crate::data::stream_desc::{stream_desc_le_bytes, push_stream_desc, StreamDesc};
use crate::data::stream_folder::{stream_folder_le_bytes, push_stream_folder, StreamFolder};
use crate::data::stream_path::{stream_path_le_bytes, push_stream_path, StreamPath};
use crate::hash::{hwd_le_bytes, push_hwd, HashWithData};
use crate::lookup::{bucket_le_bytes, push_bucket, Bucket};
use crate::resource::{header_le_bytes, HeaderView, ResourceTableHeader, ResourceTables, RtView};
use vstd::prelude::*;

verus! {


/// The concatenated wire forms of a whole table.
pub open spec fn stream_folder_table_bytes(t: Seq<StreamFolder>) -> Seq<u8>
    decreases t.len(),
{
    if t.len() == 0 {
        Seq::empty()
    } else {
        stream_folder_table_bytes(t.drop_last()) + stream_folder_le_bytes(t.last())
    }
}

/// The concatenated wire forms of a whole table.
pub open spec fn stream_path_table_bytes(t: Seq<StreamPath>) -> Seq<u8>
    decreases t.len(),
{
    if t.len() == 0 {
        Seq::empty()
    } else {
        stream_path_table_bytes(t.drop_last()) + stream_path_le_bytes(t.last())
    }
}

/// The concatenated wire forms of a whole table.
pub open spec fn stream_desc_table_bytes(t: Seq<StreamDesc>) -> Seq<u8>
    decreases t.len(),
{
    if t.len() == 0 {
        Seq::empty()
    } else {
        stream_desc_table_bytes(t.drop_last()) + stream_desc_le_bytes(t.last())
    }
}

/// The concatenated wire forms of a whole table.
pub open spec fn stream_data_table_bytes(t: Seq<StreamData>) -> Seq<u8>
    decreases t.len(),
{
    if t.len() == 0 {
        Seq::empty()
    } else {
        stream_data_table_bytes(t.drop_last()) + stream_data_le_bytes(t.last())
    }
}

/// The concatenated wire forms of a whole table.
pub open spec fn file_path_table_bytes(t: Seq<FilePath>) -> Seq<u8>
    decreases t.len(),
{
    if t.len() == 0 {
        Seq::empty()
    } else {
        file_path_table_bytes(t.drop_last()) + file_path_le_bytes(t.last())
    }
}

/// The concatenated wire forms of a whole table.
pub open spec fn file_entity_table_bytes(t: Seq<FileEntity>) -> Seq<u8>
    decreases t.len(),
{
    if t.len() == 0 {
        Seq::empty()
    } else {
        file_entity_table_bytes(t.drop_last()) + file_entity_le_bytes(t.last())
    }
}

/// The concatenated wire forms of a whole table.
pub open spec fn file_package_table_bytes(t: Seq<FilePackage>) -> Seq<u8>
    decreases t.len(),
{
    if t.len() == 0 {
        Seq::empty()
    } else {
        file_package_table_bytes(t.drop_last()) + file_package_le_bytes(t.last())
    }
}

/// The concatenated wire forms of a whole table.
pub open spec fn file_group_table_bytes(t: Seq<FileGroup>) -> Seq<u8>
    decreases t.len(),
{
    if t.len() == 0 {
        Seq::empty()
    } else {
        file_group_table_bytes(t.drop_last()) + file_group_le_bytes(t.last())
    }
}

/// The concatenated wire forms of a whole table.
pub open spec fn file_package_child_table_bytes(t: Seq<FilePackageChild>) -> Seq<u8>
    decreases t.len(),
{
    if t.len() == 0 {
        Seq::empty()
    } else {
        file_package_child_table_bytes(t.drop_last()) + file_package_child_le_bytes(t.last())
    }
}

/// The concatenated wire forms of a whole table.
pub open spec fn file_info_table_bytes(t: Seq<FileInfo>) -> Seq<u8>
    decreases t.len(),
{
    if t.len() == 0 {
        Seq::empty()
    } else {
        file_info_table_bytes(t.drop_last()) + file_info_le_bytes(t.last())
    }
}

/// The concatenated wire forms of a whole table.
pub open spec fn file_desc_table_bytes(t: Seq<FileDesc>) -> Seq<u8>
    decreases t.len(),
{
    if t.len() == 0 {
        Seq::empty()
    } else {
        file_desc_table_bytes(t.drop_last()) + file_desc_le_bytes(t.last())
    }
}

/// The concatenated wire forms of a whole table.
pub open spec fn file_data_table_bytes(t: Seq<FileData>) -> Seq<u8>
    decreases t.len(),
{
    if t.len() == 0 {
        Seq::empty()
    } else {
        file_data_table_bytes(t.drop_last()) + file_data_le_bytes(t.last())
    }
}

/// The concatenated wire forms of a whole table.
pub open spec fn hwd_table_bytes(t: Seq<HashWithData>) -> Seq<u8>
    decreases t.len(),
{
    if t.len() == 0 {
        Seq::empty()
    } else {
        hwd_table_bytes(t.drop_last()) + hwd_le_bytes(t.last())
    }
}

/// The concatenated wire forms of a whole table.
pub open spec fn bucket_table_bytes(t: Seq<Bucket>) -> Seq<u8>
    decreases t.len(),
{
    if t.len() == 0 {
        Seq::empty()
    } else {
        bucket_table_bytes(t.drop_last()) + bucket_le_bytes(t.last())
    }
}

/// Appends the wire form of every record of `t`, in order.
#[verifier::loop_isolation(false)]
fn push_stream_folder_table(out: &mut Vec<u8>, t: &Vec<StreamFolder>)
    ensures
        final(out)@ =~= old(out)@ + stream_folder_table_bytes(t@),
{
    let n = t.len();
    let mut i: usize = 0;
    while i < n
        invariant
            0 <= i <= n,
            out@ =~= old(out)@ + stream_folder_table_bytes(t@.take(i as int)),
        decreases n - i,
    {
        push_stream_folder(out, &t[i]);
        proof {
            assert(t@.take(i + 1).drop_last() =~= t@.take(i as int));
            assert(out@ =~= old(out)@ + stream_folder_table_bytes(t@.take(i + 1)));
        }
        i = i + 1;
    }
    proof {
        assert(t@.take(n as int) =~= t@);
    }
}

/// Appends the wire form of every record of `t`, in order.
#[verifier::loop_isolation(false)]
fn push_stream_path_table(out: &mut Vec<u8>, t: &Vec<StreamPath>)
    ensures
        final(out)@ =~= old(out)@ + stream_path_table_bytes(t@),
{
    let n = t.len();
    let mut i: usize = 0;
    while i < n
        invariant
            0 <= i <= n,
            out@ =~= old(out)@ + stream_path_table_bytes(t@.take(i as int)),
        decreases n - i,
    {
        push_stream_path(out, &t[i]);
        proof {
            assert(t@.take(i + 1).drop_last() =~= t@.take(i as int));
            assert(out@ =~= old(out)@ + stream_path_table_bytes(t@.take(i + 1)));
        }
        i = i + 1;
    }
    proof {
        assert(t@.take(n as int) =~= t@);
    }
}

/// Appends the wire form of every record of `t`, in order.
#[verifier::loop_isolation(false)]
fn push_stream_desc_table(out: &mut Vec<u8>, t: &Vec<StreamDesc>)
    ensures
        final(out)@ =~= old(out)@ + stream_desc_table_bytes(t@),
{
    let n = t.len();
    let mut i: usize = 0;
    while i < n
        invariant
            0 <= i <= n,
            out@ =~= old(out)@ + stream_desc_table_bytes(t@.take(i as int)),
        decreases n - i,
    {
        push_stream_desc(out, &t[i]);
        proof {
            assert(t@.take(i + 1).drop_last() =~= t@.take(i as int));
            assert(out@ =~= old(out)@ + stream_desc_table_bytes(t@.take(i + 1)));
        }
        i = i + 1;
    }
    proof {
        assert(t@.take(n as int) =~= t@);
    }
}

/// Appends the wire form of every record of `t`, in order.
#[verifier::loop_isolation(false)]
fn push_stream_data_table(out: &mut Vec<u8>, t: &Vec<StreamData>)
    ensures
        final(out)@ =~= old(out)@ + stream_data_table_bytes(t@),
{
    let n = t.len();
    let mut i: usize = 0;
    while i < n
        invariant
            0 <= i <= n,
            out@ =~= old(out)@ + stream_data_table_bytes(t@.take(i as int)),
        decreases n - i,
    {
        push_stream_data(out, &t[i]);
        proof {
            assert(t@.take(i + 1).drop_last() =~= t@.take(i as int));
            assert(out@ =~= old(out)@ + stream_data_table_bytes(t@.take(i + 1)));
        }
        i = i + 1;
    }
    proof {
        assert(t@.take(n as int) =~= t@);
    }
}

/// Appends the wire form of every record of `t`, in order.
#[verifier::loop_isolation(false)]
fn push_file_path_table(out: &mut Vec<u8>, t: &Vec<FilePath>)
    ensures
        final(out)@ =~= old(out)@ + file_path_table_bytes(t@),
{
    let n = t.len();
    let mut i: usize = 0;
    while i < n
        invariant
            0 <= i <= n,
            out@ =~= old(out)@ + file_path_table_bytes(t@.take(i as int)),
        decreases n - i,
    {
        push_file_path(out, &t[i]);
        proof {
            assert(t@.take(i + 1).drop_last() =~= t@.take(i as int));
            assert(out@ =~= old(out)@ + file_path_table_bytes(t@.take(i + 1)));
        }
        i = i + 1;
    }
    proof {
        assert(t@.take(n as int) =~= t@);
    }
}

/// Appends the wire form of every record of `t`, in order.
#[verifier::loop_isolation(false)]
fn push_file_entity_table(out: &mut Vec<u8>, t: &Vec<FileEntity>)
    ensures
        final(out)@ =~= old(out)@ + file_entity_table_bytes(t@),
{
    let n = t.len();
    let mut i: usize = 0;
    while i < n
        invariant
            0 <= i <= n,
            out@ =~= old(out)@ + file_entity_table_bytes(t@.take(i as int)),
        decreases n - i,
    {
        push_file_entity(out, &t[i]);
        proof {
            assert(t@.take(i + 1).drop_last() =~= t@.take(i as int));
            assert(out@ =~= old(out)@ + file_entity_table_bytes(t@.take(i + 1)));
        }
        i = i + 1;
    }
    proof {
        assert(t@.take(n as int) =~= t@);
    }
}

/// Appends the wire form of every record of `t`, in order.
#[verifier::loop_isolation(false)]
fn push_file_package_table(out: &mut Vec<u8>, t: &Vec<FilePackage>)
    ensures
        final(out)@ =~= old(out)@ + file_package_table_bytes(t@),
{
    let n = t.len();
    let mut i: usize = 0;
    while i < n
        invariant
            0 <= i <= n,
            out@ =~= old(out)@ + file_package_table_bytes(t@.take(i as int)),
        decreases n - i,
    {
        push_file_package(out, &t[i]);
        proof {
            assert(t@.take(i + 1).drop_last() =~= t@.take(i as int));
            assert(out@ =~= old(out)@ + file_package_table_bytes(t@.take(i + 1)));
        }
        i = i + 1;
    }
    proof {
        assert(t@.take(n as int) =~= t@);
    }
}

/// Appends the wire form of every record of `t`, in order.
#[verifier::loop_isolation(false)]
fn push_file_group_table(out: &mut Vec<u8>, t: &Vec<FileGroup>)
    ensures
        final(out)@ =~= old(out)@ + file_group_table_bytes(t@),
{
    let n = t.len();
    let mut i: usize = 0;
    while i < n
        invariant
            0 <= i <= n,
            out@ =~= old(out)@ + file_group_table_bytes(t@.take(i as int)),
        decreases n - i,
    {
        push_file_group(out, &t[i]);
        proof {
            assert(t@.take(i + 1).drop_last() =~= t@.take(i as int));
            assert(out@ =~= old(out)@ + file_group_table_bytes(t@.take(i + 1)));
        }
        i = i + 1;
    }
    proof {
        assert(t@.take(n as int) =~= t@);
    }
}

/// Appends the wire form of every record of `t`, in order.
#[verifier::loop_isolation(false)]
fn push_file_package_child_table(out: &mut Vec<u8>, t: &Vec<FilePackageChild>)
    ensures
        final(out)@ =~= old(out)@ + file_package_child_table_bytes(t@),
{
    let n = t.len();
    let mut i: usize = 0;
    while i < n
        invariant
            0 <= i <= n,
            out@ =~= old(out)@ + file_package_child_table_bytes(t@.take(i as int)),
        decreases n - i,
    {
        push_file_package_child(out, &t[i]);
        proof {
            assert(t@.take(i + 1).drop_last() =~= t@.take(i as int));
            assert(out@ =~= old(out)@ + file_package_child_table_bytes(t@.take(i + 1)));
        }
        i = i + 1;
    }
    proof {
        assert(t@.take(n as int) =~= t@);
    }
}

/// Appends the wire form of every record of `t`, in order.
#[verifier::loop_isolation(false)]
fn push_file_info_table(out: &mut Vec<u8>, t: &Vec<FileInfo>)
    ensures
        final(out)@ =~= old(out)@ + file_info_table_bytes(t@),
{
    let n = t.len();
    let mut i: usize = 0;
    while i < n
        invariant
            0 <= i <= n,
            out@ =~= old(out)@ + file_info_table_bytes(t@.take(i as int)),
        decreases n - i,
    {
        push_file_info(out, &t[i]);
        proof {
            assert(t@.take(i + 1).drop_last() =~= t@.take(i as int));
            assert(out@ =~= old(out)@ + file_info_table_bytes(t@.take(i + 1)));
        }
        i = i + 1;
    }
    proof {
        assert(t@.take(n as int) =~= t@);
    }
}

/// Appends the wire form of every record of `t`, in order.
#[verifier::loop_isolation(false)]
fn push_file_desc_table(out: &mut Vec<u8>, t: &Vec<FileDesc>)
    ensures
        final(out)@ =~= old(out)@ + file_desc_table_bytes(t@),
{
    let n = t.len();
    let mut i: usize = 0;
    while i < n
        invariant
            0 <= i <= n,
            out@ =~= old(out)@ + file_desc_table_bytes(t@.take(i as int)),
        decreases n - i,
    {
        push_file_desc(out, &t[i]);
        proof {
            assert(t@.take(i + 1).drop_last() =~= t@.take(i as int));
            assert(out@ =~= old(out)@ + file_desc_table_bytes(t@.take(i + 1)));
        }
        i = i + 1;
    }
    proof {
        assert(t@.take(n as int) =~= t@);
    }
}

/// Appends the wire form of every record of `t`, in order.
#[verifier::loop_isolation(false)]
fn push_file_data_table(out: &mut Vec<u8>, t: &Vec<FileData>)
    ensures
        final(out)@ =~= old(out)@ + file_data_table_bytes(t@),
{
    let n = t.len();
    let mut i: usize = 0;
    while i < n
        invariant
            0 <= i <= n,
            out@ =~= old(out)@ + file_data_table_bytes(t@.take(i as int)),
        decreases n - i,
    {
        push_file_data(out, &t[i]);
        proof {
            assert(t@.take(i + 1).drop_last() =~= t@.take(i as int));
            assert(out@ =~= old(out)@ + file_data_table_bytes(t@.take(i + 1)));
        }
        i = i + 1;
    }
    proof {
        assert(t@.take(n as int) =~= t@);
    }
}

/// Appends the wire form of every record of `t`, in order.
#[verifier::loop_isolation(false)]
fn push_hwd_table(out: &mut Vec<u8>, t: &Vec<HashWithData>)
    ensures
        final(out)@ =~= old(out)@ + hwd_table_bytes(t@),
{
    let n = t.len();
    let mut i: usize = 0;
    while i < n
        invariant
            0 <= i <= n,
            out@ =~= old(out)@ + hwd_table_bytes(t@.take(i as int)),
        decreases n - i,
    {
        push_hwd(out, &t[i]);
        proof {
            assert(t@.take(i + 1).drop_last() =~= t@.take(i as int));
            assert(out@ =~= old(out)@ + hwd_table_bytes(t@.take(i + 1)));
        }
        i = i + 1;
    }
    proof {
        assert(t@.take(n as int) =~= t@);
    }
}

/// Appends the wire form of every record of `t`, in order.
#[verifier::loop_isolation(false)]
fn push_bucket_table(out: &mut Vec<u8>, t: &Vec<Bucket>)
    ensures
        final(out)@ =~= old(out)@ + bucket_table_bytes(t@),
{
    let n = t.len();
    let mut i: usize = 0;
    while i < n
        invariant
            0 <= i <= n,
            out@ =~= old(out)@ + bucket_table_bytes(t@.take(i as int)),
        decreases n - i,
    {
        push_bucket(out, &t[i]);
        proof {
            assert(t@.take(i + 1).drop_last() =~= t@.take(i as int));
            assert(out@ =~= old(out)@ + bucket_table_bytes(t@.take(i + 1)));
        }
        i = i + 1;
    }
    proof {
        assert(t@.take(n as int) =~= t@);
    }
}

/// The whole resource section as bytes: the header, then every table in the
/// fixed on-disk order, with the bucketed lookup's two size words and its
/// bucket directory before its entries.
pub open spec fn spec_resource_bytes(h: HeaderView, v: RtView) -> Seq<u8> {
    header_le_bytes(h) + stream_folder_table_bytes(v.stream_folder) + hwd_table_bytes(
        v.stream_path_lookup,
    ) + stream_path_table_bytes(v.stream_path) + stream_desc_table_bytes(v.stream_desc)
        + stream_data_table_bytes(v.stream_data) + u32_le_bytes(v.file_path_lookup.len() as u32)
        + u32_le_bytes(v.buckets.len() as u32) + bucket_table_bytes(v.buckets) + hwd_table_bytes(
        v.file_path_lookup,
    ) + file_path_table_bytes(v.file_path) + file_entity_table_bytes(v.file_entity)
        + hwd_table_bytes(v.file_package_lookup) + file_package_table_bytes(v.file_package)
        + file_group_table_bytes(v.file_group) + file_package_child_table_bytes(
        v.file_package_child,
    ) + file_info_table_bytes(v.file_info) + file_desc_table_bytes(v.file_desc)
        + file_data_table_bytes(v.file_data)
}

/// The view the emitter's parts denote.
pub open spec fn parts_view(
    h: HeaderView,
    stream_folder: Seq<StreamFolder>,
    stream_path_lookup: Seq<HashWithData>,
    stream_path: Seq<StreamPath>,
    stream_desc: Seq<StreamDesc>,
    stream_data: Seq<StreamData>,
    buckets: Seq<Bucket>,
    file_path_lookup: Seq<HashWithData>,
    file_path: Seq<FilePath>,
    file_entity: Seq<FileEntity>,
    file_package_lookup: Seq<HashWithData>,
    file_package: Seq<FilePackage>,
    file_group: Seq<FileGroup>,
    file_package_child: Seq<FilePackageChild>,
    file_info: Seq<FileInfo>,
    file_desc: Seq<FileDesc>,
    file_data: Seq<FileData>,
) -> RtView {
    RtView {
        header: h,
        stream_folder,
        stream_path_lookup,
        stream_path,
        stream_desc,
        stream_data,
        buckets,
        file_path_lookup,
        file_path,
        file_entity,
        file_package_lookup,
        file_package,
        file_group,
        file_package_child,
        file_info,
        file_desc,
        file_data,
    }
}

/// Writes the header and every table, in the fixed on-disk order.
pub(crate) fn serialize_parts(
    h: &ResourceTableHeader,
    stream_folder: &Vec<StreamFolder>,
    stream_path_lookup: &Vec<HashWithData>,
    stream_path: &Vec<StreamPath>,
    stream_desc: &Vec<StreamDesc>,
    stream_data: &Vec<StreamData>,
    buckets: &Vec<Bucket>,
    file_path_lookup: &Vec<HashWithData>,
    file_path: &Vec<FilePath>,
    file_entity: &Vec<FileEntity>,
    file_package_lookup: &Vec<HashWithData>,
    file_package: &Vec<FilePackage>,
    file_group: &Vec<FileGroup>,
    file_package_child: &Vec<FilePackageChild>,
    file_info: &Vec<FileInfo>,
    file_desc: &Vec<FileDesc>,
    file_data: &Vec<FileData>,
) -> (r: Vec<u8>)
    requires
        file_path_lookup@.len() < 0x1_0000_0000,
        buckets@.len() < 0x1_0000_0000,
    ensures
        r@ =~= spec_resource_bytes(
            h@,
            parts_view(
                h@,
                stream_folder@,
                stream_path_lookup@,
                stream_path@,
                stream_desc@,
                stream_data@,
                buckets@,
                file_path_lookup@,
                file_path@,
                file_entity@,
                file_package_lookup@,
                file_package@,
                file_group@,
                file_package_child@,
                file_info@,
                file_desc@,
                file_data@,
            ),
        ),
{
    let mut out: Vec<u8> = Vec::new();
    crate::resource::push_header(&mut out, h);
    push_stream_folder_table(&mut out, stream_folder);
    push_hwd_table(&mut out, stream_path_lookup);
    push_stream_path_table(&mut out, stream_path);
    push_stream_desc_table(&mut out, stream_desc);
    proof {
        assert(out@ =~= header_le_bytes(h@) + stream_folder_table_bytes(stream_folder@)
            + hwd_table_bytes(stream_path_lookup@) + stream_path_table_bytes(stream_path@)
            + stream_desc_table_bytes(stream_desc@));
    }
    push_stream_data_table(&mut out, stream_data);
    push_u32_le(&mut out, file_path_lookup.len() as u32);
    push_u32_le(&mut out, buckets.len() as u32);
    push_bucket_table(&mut out, buckets);
    proof {
        assert(out@ =~= header_le_bytes(h@) + stream_folder_table_bytes(stream_folder@)
            + hwd_table_bytes(stream_path_lookup@) + stream_path_table_bytes(stream_path@)
            + stream_desc_table_bytes(stream_desc@) + stream_data_table_bytes(stream_data@)
            + u32_le_bytes(file_path_lookup@.len() as u32) + u32_le_bytes(buckets@.len() as u32)
            + bucket_table_bytes(buckets@));
    }
    push_hwd_table(&mut out, file_path_lookup);
    push_file_path_table(&mut out, file_path);
    push_file_entity_table(&mut out, file_entity);
    push_hwd_table(&mut out, file_package_lookup);
    proof {
        assert(out@ =~= header_le_bytes(h@) + stream_folder_table_bytes(stream_folder@)
            + hwd_table_bytes(stream_path_lookup@) + stream_path_table_bytes(stream_path@)
            + stream_desc_table_bytes(stream_desc@) + stream_data_table_bytes(stream_data@)
            + u32_le_bytes(file_path_lookup@.len() as u32) + u32_le_bytes(buckets@.len() as u32)
            + bucket_table_bytes(buckets@) + hwd_table_bytes(file_path_lookup@)
            + file_path_table_bytes(file_path@) + file_entity_table_bytes(file_entity@)
            + hwd_table_bytes(file_package_lookup@));
    }
    push_file_package_table(&mut out, file_package);
    push_file_group_table(&mut out, file_group);
    push_file_package_child_table(&mut out, file_package_child);
    push_file_info_table(&mut out, file_info);
    proof {
        assert(out@ =~= header_le_bytes(h@) + stream_folder_table_bytes(stream_folder@)
            + hwd_table_bytes(stream_path_lookup@) + stream_path_table_bytes(stream_path@)
            + stream_desc_table_bytes(stream_desc@) + stream_data_table_bytes(stream_data@)
            + u32_le_bytes(file_path_lookup@.len() as u32) + u32_le_bytes(buckets@.len() as u32)
            + bucket_table_bytes(buckets@) + hwd_table_bytes(file_path_lookup@)
            + file_path_table_bytes(file_path@) + file_entity_table_bytes(file_entity@)
            + hwd_table_bytes(file_package_lookup@) + file_package_table_bytes(file_package@)
            + file_group_table_bytes(file_group@) + file_package_child_table_bytes(
            file_package_child@,
        ) + file_info_table_bytes(file_info@));
    }
    push_file_desc_table(&mut out, file_desc);
    push_file_data_table(&mut out, file_data);
    out
}

impl ResourceTables {
    /// Serializes every table verbatim, with the stored header, in the fixed
    /// on-disk order: no index is rewritten.
    pub fn quick_serialize(&self) -> (r: Vec<u8>)
        requires
            self@.file_path_lookup.len() < 0x1_0000_0000,
            self@.buckets.len() < 0x1_0000_0000,
        ensures
            r@ =~= spec_resource_bytes(self@.header, self@),
    {
        serialize_parts(
            &self.header,
            &self.stream_folder,
            &self.stream_path_lookup.entries,
            &self.stream_path,
            &self.stream_desc,
            &self.stream_data,
            &self.file_path_lookup.buckets,
            &self.file_path_lookup.entries,
            &self.file_path,
            &self.file_entity,
            &self.file_package_lookup.entries,
            &self.file_package,
            &self.file_group,
            &self.file_package_child,
            &self.file_info,
            &self.file_desc,
            &self.file_data,
        )
    }
}


/// A whole table's wire form has one record-size run per record.
#[verifier::rlimit(100)]
#[verifier::spinoff_prover]
pub proof fn lemma_stream_folder_table_bytes_len(t: Seq<StreamFolder>)
    ensures
        stream_folder_table_bytes(t).len() == t.len() * 12,
    decreases t.len(),
{
    if t.len() > 0 {
        lemma_stream_folder_table_bytes_len(t.drop_last());
    }
}

/// Byte `k` of record `j` lies at `j` record-sizes plus `k`.
#[verifier::rlimit(100)]
#[verifier::spinoff_prover]
pub proof fn lemma_stream_folder_table_bytes_at(t: Seq<StreamFolder>, j: int, k: int)
    requires
        0 <= j < t.len(),
        0 <= k < 12,
    ensures
        stream_folder_table_bytes(t)[j * 12 + k] == stream_folder_le_bytes(t[j])[k],
    decreases t.len(),
{
    lemma_stream_folder_table_bytes_len(t.drop_last());
    if j < t.len() - 1 {
        lemma_stream_folder_table_bytes_at(t.drop_last(), j, k);
        assert(t.drop_last()[j] == t[j]);
    } else {
        assert(stream_folder_table_bytes(t)[j * 12 + k] == stream_folder_le_bytes(t.last())[k]);
    }
}

/// A whole table's wire form has one record-size run per record.
#[verifier::rlimit(100)]
#[verifier::spinoff_prover]
pub proof fn lemma_stream_path_table_bytes_len(t: Seq<StreamPath>)
    ensures
        stream_path_table_bytes(t).len() == t.len() * 12,
    decreases t.len(),
{
    if t.len() > 0 {
        lemma_stream_path_table_bytes_len(t.drop_last());
    }
}

/// Byte `k` of record `j` lies at `j` record-sizes plus `k`.
#[verifier::rlimit(100)]
#[verifier::spinoff_prover]
pub proof fn lemma_stream_path_table_bytes_at(t: Seq<StreamPath>, j: int, k: int)
    requires
        0 <= j < t.len(),
        0 <= k < 12,
    ensures
        stream_path_table_bytes(t)[j * 12 + k] == stream_path_le_bytes(t[j])[k],
    decreases t.len(),
{
    lemma_stream_path_table_bytes_len(t.drop_last());
    if j < t.len() - 1 {
        lemma_stream_path_table_bytes_at(t.drop_last(), j, k);
        assert(t.drop_last()[j] == t[j]);
    } else {
        assert(stream_path_table_bytes(t)[j * 12 + k] == stream_path_le_bytes(t.last())[k]);
    }
}

/// A whole table's wire form has one record-size run per record.
#[verifier::rlimit(100)]
#[verifier::spinoff_prover]
pub proof fn lemma_stream_desc_table_bytes_len(t: Seq<StreamDesc>)
    ensures
        stream_desc_table_bytes(t).len() == t.len() * 4,
    decreases t.len(),
{
    if t.len() > 0 {
        lemma_stream_desc_table_bytes_len(t.drop_last());
    }
}

/// Byte `k` of record `j` lies at `j` record-sizes plus `k`.
#[verifier::rlimit(100)]
#[verifier::spinoff_prover]
pub proof fn lemma_stream_desc_table_bytes_at(t: Seq<StreamDesc>, j: int, k: int)
    requires
        0 <= j < t.len(),
        0 <= k < 4,
    ensures
        stream_desc_table_bytes(t)[j * 4 + k] == stream_desc_le_bytes(t[j])[k],
    decreases t.len(),
{
    lemma_stream_desc_table_bytes_len(t.drop_last());
    if j < t.len() - 1 {
        lemma_stream_desc_table_bytes_at(t.drop_last(), j, k);
        assert(t.drop_last()[j] == t[j]);
    } else {
        assert(stream_desc_table_bytes(t)[j * 4 + k] == stream_desc_le_bytes(t.last())[k]);
    }
}

/// A whole table's wire form has one record-size run per record.
#[verifier::rlimit(100)]
#[verifier::spinoff_prover]
pub proof fn lemma_stream_data_table_bytes_len(t: Seq<StreamData>)
    ensures
        stream_data_table_bytes(t).len() == t.len() * 16,
    decreases t.len(),
{
    if t.len() > 0 {
        lemma_stream_data_table_bytes_len(t.drop_last());
    }
}

/// Byte `k` of record `j` lies at `j` record-sizes plus `k`.
#[verifier::rlimit(100)]
#[verifier::spinoff_prover]
pub proof fn lemma_stream_data_table_bytes_at(t: Seq<StreamData>, j: int, k: int)
    requires
        0 <= j < t.len(),
        0 <= k < 16,
    ensures
        stream_data_table_bytes(t)[j * 16 + k] == stream_data_le_bytes(t[j])[k],
    decreases t.len(),
{
    lemma_stream_data_table_bytes_len(t.drop_last());
    if j < t.len() - 1 {
        lemma_stream_data_table_bytes_at(t.drop_last(), j, k);
        assert(t.drop_last()[j] == t[j]);
    } else {
        assert(stream_data_table_bytes(t)[j * 16 + k] == stream_data_le_bytes(t.last())[k]);
    }
}

/// A whole table's wire form has one record-size run per record.
#[verifier::rlimit(100)]
#[verifier::spinoff_prover]
pub proof fn lemma_file_path_table_bytes_len(t: Seq<FilePath>)
    ensures
        file_path_table_bytes(t).len() == t.len() * 32,
    decreases t.len(),
{
    if t.len() > 0 {
        lemma_file_path_table_bytes_len(t.drop_last());
    }
}

/// Byte `k` of record `j` lies at `j` record-sizes plus `k`.
#[verifier::rlimit(100)]
#[verifier::spinoff_prover]
pub proof fn lemma_file_path_table_bytes_at(t: Seq<FilePath>, j: int, k: int)
    requires
        0 <= j < t.len(),
        0 <= k < 32,
    ensures
        file_path_table_bytes(t)[j * 32 + k] == file_path_le_bytes(t[j])[k],
    decreases t.len(),
{
    lemma_file_path_table_bytes_len(t.drop_last());
    if j < t.len() - 1 {
        lemma_file_path_table_bytes_at(t.drop_last(), j, k);
        assert(t.drop_last()[j] == t[j]);
    } else {
        assert(file_path_table_bytes(t)[j * 32 + k] == file_path_le_bytes(t.last())[k]);
    }
}

/// A whole table's wire form has one record-size run per record.
#[verifier::rlimit(100)]
#[verifier::spinoff_prover]
pub proof fn lemma_file_entity_table_bytes_len(t: Seq<FileEntity>)
    ensures
        file_entity_table_bytes(t).len() == t.len() * 8,
    decreases t.len(),
{
    if t.len() > 0 {
        lemma_file_entity_table_bytes_len(t.drop_last());
    }
}

/// Byte `k` of record `j` lies at `j` record-sizes plus `k`.
#[verifier::rlimit(100)]
#[verifier::spinoff_prover]
pub proof fn lemma_file_entity_table_bytes_at(t: Seq<FileEntity>, j: int, k: int)
    requires
        0 <= j < t.len(),
        0 <= k < 8,
    ensures
        file_entity_table_bytes(t)[j * 8 + k] == file_entity_le_bytes(t[j])[k],
    decreases t.len(),
{
    lemma_file_entity_table_bytes_len(t.drop_last());
    if j < t.len() - 1 {
        lemma_file_entity_table_bytes_at(t.drop_last(), j, k);
        assert(t.drop_last()[j] == t[j]);
    } else {
        assert(file_entity_table_bytes(t)[j * 8 + k] == file_entity_le_bytes(t.last())[k]);
    }
}

/// A whole table's wire form has one record-size run per record.
#[verifier::rlimit(100)]
pub proof fn lemma_file_package_table_bytes_len(t: Seq<FilePackage>)
    ensures
        file_package_table_bytes(t).len() == t.len() * 52,
    decreases t.len(),
{
    if t.len() > 0 {
        lemma_file_package_table_bytes_len(t.drop_last());
    }
}

/// Byte `k` of record `j` lies at `j` record-sizes plus `k`.
#[verifier::rlimit(100)]
pub proof fn lemma_file_package_table_bytes_at(t: Seq<FilePackage>, j: int, k: int)
    requires
        0 <= j < t.len(),
        0 <= k < 52,
    ensures
        file_package_table_bytes(t)[j * 52 + k] == file_package_le_bytes(t[j])[k],
    decreases t.len(),
{
    lemma_file_package_table_bytes_len(t.drop_last());
    if j < t.len() - 1 {
        lemma_file_package_table_bytes_at(t.drop_last(), j, k);
        assert(t.drop_last()[j] == t[j]);
    } else {
        assert(file_package_table_bytes(t)[j * 52 + k] == file_package_le_bytes(t.last())[k]);
    }
}

/// A whole table's wire form has one record-size run per record.
#[verifier::rlimit(100)]
#[verifier::spinoff_prover]
pub proof fn lemma_file_group_table_bytes_len(t: Seq<FileGroup>)
    ensures
        file_group_table_bytes(t).len() == t.len() * 28,
    decreases t.len(),
{
    if t.len() > 0 {
        lemma_file_group_table_bytes_len(t.drop_last());
    }
}

/// Byte `k` of record `j` lies at `j` record-sizes plus `k`.
#[verifier::rlimit(100)]
#[verifier::spinoff_prover]
pub proof fn lemma_file_group_table_bytes_at(t: Seq<FileGroup>, j: int, k: int)
    requires
        0 <= j < t.len(),
        0 <= k < 28,
    ensures
        file_group_table_bytes(t)[j * 28 + k] == file_group_le_bytes(t[j])[k],
    decreases t.len(),
{
    lemma_file_group_table_bytes_len(t.drop_last());
    if j < t.len() - 1 {
        lemma_file_group_table_bytes_at(t.drop_last(), j, k);
        assert(t.drop_last()[j] == t[j]);
    } else {
        assert(file_group_table_bytes(t)[j * 28 + k] == file_group_le_bytes(t.last())[k]);
    }
}

/// A whole table's wire form has one record-size run per record.
#[verifier::rlimit(100)]
#[verifier::spinoff_prover]
pub proof fn lemma_file_package_child_table_bytes_len(t: Seq<FilePackageChild>)
    ensures
        file_package_child_table_bytes(t).len() == t.len() * 8,
    decreases t.len(),
{
    if t.len() > 0 {
        lemma_file_package_child_table_bytes_len(t.drop_last());
    }
}

/// Byte `k` of record `j` lies at `j` record-sizes plus `k`.
#[verifier::rlimit(100)]
#[verifier::spinoff_prover]
pub proof fn lemma_file_package_child_table_bytes_at(t: Seq<FilePackageChild>, j: int, k: int)
    requires
        0 <= j < t.len(),
        0 <= k < 8,
    ensures
        file_package_child_table_bytes(t)[j * 8 + k] == file_package_child_le_bytes(t[j])[k],
    decreases t.len(),
{
    lemma_file_package_child_table_bytes_len(t.drop_last());
    if j < t.len() - 1 {
        lemma_file_package_child_table_bytes_at(t.drop_last(), j, k);
        assert(t.drop_last()[j] == t[j]);
    } else {
        assert(file_package_child_table_bytes(t)[j * 8 + k] == file_package_child_le_bytes(t.last())[k]);
    }
}

/// A whole table's wire form has one record-size run per record.
#[verifier::rlimit(100)]
#[verifier::spinoff_prover]
pub proof fn lemma_file_info_table_bytes_len(t: Seq<FileInfo>)
    ensures
        file_info_table_bytes(t).len() == t.len() * 16,
    decreases t.len(),
{
    if t.len() > 0 {
        lemma_file_info_table_bytes_len(t.drop_last());
    }
}

/// Byte `k` of record `j` lies at `j` record-sizes plus `k`.
#[verifier::rlimit(100)]
#[verifier::spinoff_prover]
pub proof fn lemma_file_info_table_bytes_at(t: Seq<FileInfo>, j: int, k: int)
    requires
        0 <= j < t.len(),
        0 <= k < 16,
    ensures
        file_info_table_bytes(t)[j * 16 + k] == file_info_le_bytes(t[j])[k],
    decreases t.len(),
{
    lemma_file_info_table_bytes_len(t.drop_last());
    if j < t.len() - 1 {
        lemma_file_info_table_bytes_at(t.drop_last(), j, k);
        assert(t.drop_last()[j] == t[j]);
    } else {
        assert(file_info_table_bytes(t)[j * 16 + k] == file_info_le_bytes(t.last())[k]);
    }
}

/// A whole table's wire form has one record-size run per record.
#[verifier::rlimit(100)]
#[verifier::spinoff_prover]
pub proof fn lemma_file_desc_table_bytes_len(t: Seq<FileDesc>)
    ensures
        file_desc_table_bytes(t).len() == t.len() * 12,
    decreases t.len(),
{
    if t.len() > 0 {
        lemma_file_desc_table_bytes_len(t.drop_last());
    }
}

/// Byte `k` of record `j` lies at `j` record-sizes plus `k`.
#[verifier::rlimit(100)]
#[verifier::spinoff_prover]
pub proof fn lemma_file_desc_table_bytes_at(t: Seq<FileDesc>, j: int, k: int)
    requires
        0 <= j < t.len(),
        0 <= k < 12,
    ensures
        file_desc_table_bytes(t)[j * 12 + k] == file_desc_le_bytes(t[j])[k],
    decreases t.len(),
{
    lemma_file_desc_table_bytes_len(t.drop_last());
    if j < t.len() - 1 {
        lemma_file_desc_table_bytes_at(t.drop_last(), j, k);
        assert(t.drop_last()[j] == t[j]);
    } else {
        assert(file_desc_table_bytes(t)[j * 12 + k] == file_desc_le_bytes(t.last())[k]);
    }
}

/// A whole table's wire form has one record-size run per record.
#[verifier::rlimit(100)]
#[verifier::spinoff_prover]
pub proof fn lemma_file_data_table_bytes_len(t: Seq<FileData>)
    ensures
        file_data_table_bytes(t).len() == t.len() * 16,
    decreases t.len(),
{
    if t.len() > 0 {
        lemma_file_data_table_bytes_len(t.drop_last());
    }
}

/// Byte `k` of record `j` lies at `j` record-sizes plus `k`.
#[verifier::rlimit(100)]
#[verifier::spinoff_prover]
pub proof fn lemma_file_data_table_bytes_at(t: Seq<FileData>, j: int, k: int)
    requires
        0 <= j < t.len(),
        0 <= k < 16,
    ensures
        file_data_table_bytes(t)[j * 16 + k] == file_data_le_bytes(t[j])[k],
    decreases t.len(),
{
    lemma_file_data_table_bytes_len(t.drop_last());
    if j < t.len() - 1 {
        lemma_file_data_table_bytes_at(t.drop_last(), j, k);
        assert(t.drop_last()[j] == t[j]);
    } else {
        assert(file_data_table_bytes(t)[j * 16 + k] == file_data_le_bytes(t.last())[k]);
    }
}

/// A whole table's wire form has one record-size run per record.
#[verifier::rlimit(100)]
#[verifier::spinoff_prover]
pub proof fn lemma_hwd_table_bytes_len(t: Seq<HashWithData>)
    ensures
        hwd_table_bytes(t).len() == t.len() * 8,
    decreases t.len(),
{
    if t.len() > 0 {
        lemma_hwd_table_bytes_len(t.drop_last());
    }
}

/// Byte `k` of record `j` lies at `j` record-sizes plus `k`.
#[verifier::rlimit(100)]
#[verifier::spinoff_prover]
pub proof fn lemma_hwd_table_bytes_at(t: Seq<HashWithData>, j: int, k: int)
    requires
        0 <= j < t.len(),
        0 <= k < 8,
    ensures
        hwd_table_bytes(t)[j * 8 + k] == hwd_le_bytes(t[j])[k],
    decreases t.len(),
{
    lemma_hwd_table_bytes_len(t.drop_last());
    if j < t.len() - 1 {
        lemma_hwd_table_bytes_at(t.drop_last(), j, k);
        assert(t.drop_last()[j] == t[j]);
    } else {
        assert(hwd_table_bytes(t)[j * 8 + k] == hwd_le_bytes(t.last())[k]);
    }
}

/// A whole table's wire form has one record-size run per record.
#[verifier::rlimit(100)]
#[verifier::spinoff_prover]
pub proof fn lemma_bucket_table_bytes_len(t: Seq<Bucket>)
    ensures
        bucket_table_bytes(t).len() == t.len() * 8,
    decreases t.len(),
{
    if t.len() > 0 {
        lemma_bucket_table_bytes_len(t.drop_last());
    }
}

/// Byte `k` of record `j` lies at `j` record-sizes plus `k`.
#[verifier::rlimit(100)]
#[verifier::spinoff_prover]
pub proof fn lemma_bucket_table_bytes_at(t: Seq<Bucket>, j: int, k: int)
    requires
        0 <= j < t.len(),
        0 <= k < 8,
    ensures
        bucket_table_bytes(t)[j * 8 + k] == bucket_le_bytes(t[j])[k],
    decreases t.len(),
{
    lemma_bucket_table_bytes_len(t.drop_last());
    if j < t.len() - 1 {
        lemma_bucket_table_bytes_at(t.drop_last(), j, k);
        assert(t.drop_last()[j] == t[j]);
    } else {
        assert(bucket_table_bytes(t)[j * 8 + k] == bucket_le_bytes(t.last())[k]);
    }
}

} // verus!
