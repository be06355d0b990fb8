//! Serialization state: per-type insertion-ordered sets of reserved original
//! indices. Reserving assigns each original index a new dense index — its
//! position in the set — and iterating the set in insertion order is the
//! emission order of the re-serializer.

use crate::index::INVALID_INDEX;
use crate::outside::{iset_get_index, iset_get_index_of, iset_insert_full, iset_len, iset_new, iset_seq};
use vstd::prelude::*;

verus! {

/// No value occurs twice.
pub open spec fn distinct(s: Seq<u32>) -> bool {
    forall|i: int, j: int| 0 <= i < j < s.len() ==> s[i] != s[j]
}

/// The first position holding `v`, or `-1`.
pub open spec fn first_index_of(s: Seq<u32>, v: u32) -> int
    decreases s.len(),
{
    if s.len() == 0 {
        -1
    } else if s[0] == v {
        0
    } else {
        let t = first_index_of(s.drop_first(), v);
        if t == -1 {
            -1
        } else {
            1 + t
        }
    }
}

/// What `first_index_of` finds: the position of `v` when `s` holds it, with
/// nothing equal before it; `-1` otherwise.
pub proof fn lemma_fio(s: Seq<u32>, v: u32)
    ensures
        s.contains(v) ==> {
            &&& 0 <= first_index_of(s, v) < s.len()
            &&& s[first_index_of(s, v)] == v
        },
        !s.contains(v) ==> first_index_of(s, v) == -1,
        forall|j: int| 0 <= j < first_index_of(s, v) ==> s[j] != v,
    decreases s.len(),
{
    if s.len() == 0 {
    } else if s[0] == v {
        assert(s.contains(v));
    } else {
        let d = s.drop_first();
        lemma_fio(d, v);
        assert(forall|j: int| 0 <= j < d.len() ==> d[j] == s[j + 1]);
        if s.contains(v) {
            let i = choose|i: int| 0 <= i < s.len() && s[i] == v;
            assert(d[i - 1] == v);
            assert(d.contains(v));
        }
        if d.contains(v) {
            assert(s[first_index_of(d, v) + 1] == v);
            assert(s.contains(v));
        }
        assert forall|j: int| 0 <= j < first_index_of(s, v) implies s[j] != v by {
            if j > 0 {
                assert(d[j - 1] != v);
            }
        }
    }
}

/// In a duplicate-free sequence, any position holding `v` is the first one.
pub proof fn lemma_fio_distinct(s: Seq<u32>, v: u32, i: int)
    requires
        distinct(s),
        0 <= i < s.len(),
        s[i] == v,
    ensures
        first_index_of(s, v) == i,
{
    assert(s.contains(v));
    lemma_fio(s, v);
    let f = first_index_of(s, v);
    if f < i {
        assert(s[f] == s[i]);
        assert(false);
    }
}

// ----- the abstract reservation operations -----

/// A reservation set is well formed when its values are duplicate-free
/// original indices below the sentinel, and there are fewer of them than the
/// sentinel value.
pub open spec fn rsv_wf(s: Seq<u32>) -> bool {
    &&& distinct(s)
    &&& forall|k: int| 0 <= k < s.len() ==> s[k] < INVALID_INDEX
    &&& s.len() <= INVALID_INDEX
}

/// Reserving where duplication is an error: the sentinel reserves nothing; a
/// duplicate, an index at or above the sentinel, or a full set is refused.
pub open spec fn sv_reserve(s: Seq<u32>, i: u32) -> Option<Seq<u32>> {
    if i == INVALID_INDEX {
        Some(s)
    } else if i > INVALID_INDEX || s.contains(i) || s.len() >= INVALID_INDEX {
        None
    } else {
        Some(s.push(i))
    }
}

/// Reserving where overlap is legal: the sentinel and an already-reserved
/// index reserve nothing; an index at or above the sentinel or a full set is
/// refused.
pub open spec fn sv_try(s: Seq<u32>, i: u32) -> Option<Seq<u32>> {
    if i == INVALID_INDEX || s.contains(i) {
        Some(s)
    } else if i > INVALID_INDEX || s.len() >= INVALID_INDEX {
        None
    } else {
        Some(s.push(i))
    }
}

/// Reserves `start..start + n`, each index fresh.
pub open spec fn sv_reserve_n(s: Seq<u32>, start: u32, n: nat) -> Option<Seq<u32>>
    decreases n,
{
    if n == 0 {
        Some(s)
    } else {
        match sv_reserve_n(s, start, (n - 1) as nat) {
            None => None,
            Some(t) => sv_reserve(t, (start + n - 1) as u32),
        }
    }
}

/// Reserving a checked range: a sentinel start demands a zero count; a range
/// that would reach the sentinel is empty and reserves nothing.
pub open spec fn sv_reserve_range(s: Seq<u32>, start: u32, count: u32) -> Option<Seq<u32>> {
    if start == INVALID_INDEX {
        if count == 0 {
            Some(s)
        } else {
            None
        }
    } else if start + count >= INVALID_INDEX {
        Some(s)
    } else {
        sv_reserve_n(s, start, count as nat)
    }
}

/// Reserves `start..start + n` where overlap is legal.
pub open spec fn sv_try_n(s: Seq<u32>, start: u32, n: nat) -> Option<Seq<u32>>
    decreases n,
{
    if n == 0 {
        Some(s)
    } else {
        match sv_try_n(s, start, (n - 1) as nat) {
            None => None,
            Some(t) => sv_try(t, (start + n - 1) as u32),
        }
    }
}

/// Reserving a checked range where overlap is legal: a range that would reach
/// the sentinel is empty and reserves nothing.
pub open spec fn sv_try_range(s: Seq<u32>, start: u32, count: u32) -> Option<Seq<u32>> {
    if start + count >= INVALID_INDEX {
        Some(s)
    } else {
        sv_try_n(s, start, count as nat)
    }
}

/// A failed prefix cannot be extended into a successful one.
pub proof fn lemma_sv_try_n_none(s: Seq<u32>, start: u32, n: nat, m: nat)
    requires
        n <= m,
        sv_try_n(s, start, n) is None,
    ensures
        sv_try_n(s, start, m) is None,
    decreases m,
{
    if m > n {
        lemma_sv_try_n_none(s, start, n, (m - 1) as nat);
    }
}

/// The new dense index of original index `i`: the sentinel maps to itself, a
/// reserved index to its position, an unreserved one to nothing.
pub open spec fn sv_get(s: Seq<u32>, i: u32) -> Option<u32> {
    if i == INVALID_INDEX {
        Some(INVALID_INDEX)
    } else if s.contains(i) {
        Some(first_index_of(s, i) as u32)
    } else {
        None
    }
}

/// A failed prefix cannot be extended into a successful one.
pub proof fn lemma_sv_reserve_n_none(s: Seq<u32>, start: u32, n: nat, m: nat)
    requires
        n <= m,
        sv_reserve_n(s, start, n) is None,
    ensures
        sv_reserve_n(s, start, m) is None,
    decreases m,
{
    if m > n {
        lemma_sv_reserve_n_none(s, start, n, (m - 1) as nat);
    }
}

/// The reservation operations keep a set well formed.
pub proof fn lemma_sv_wf(s: Seq<u32>, i: u32)
    requires
        rsv_wf(s),
    ensures
        sv_reserve(s, i) is Some ==> rsv_wf(sv_reserve(s, i).unwrap()),
        sv_try(s, i) is Some ==> rsv_wf(sv_try(s, i).unwrap()),
{
}

/// `sv_reserve_n` keeps a set well formed.
pub proof fn lemma_sv_reserve_n_wf(s: Seq<u32>, start: u32, n: nat)
    requires
        rsv_wf(s),
        sv_reserve_n(s, start, n) is Some,
    ensures
        rsv_wf(sv_reserve_n(s, start, n).unwrap()),
    decreases n,
{
    if n > 0 {
        assert(sv_reserve_n(s, start, (n - 1) as nat) is Some);
        lemma_sv_reserve_n_wf(s, start, (n - 1) as nat);
        lemma_sv_wf(sv_reserve_n(s, start, (n - 1) as nat).unwrap(), (start + n - 1) as u32);
    }
}

/// Law of dense compaction: within one type, the map from reserved original
/// indices to new indices is a bijection onto the contiguous range from zero
/// to the number of reserved entries: position `j` is the new index of the
/// `j`-th reserved original, every reserved original gets a new index below
/// the count, and distinct reserved originals get distinct new indices.
pub proof fn lemma_dense_compaction(s: Seq<u32>)
    requires
        rsv_wf(s),
    ensures
        forall|j: int| 0 <= j < s.len() ==> sv_get(s, s[j]) == Some(j as u32),
        forall|v: u32|
            s.contains(v) ==> sv_get(s, v) is Some && sv_get(s, v).unwrap() < s.len(),
        forall|v: u32, w: u32|
            s.contains(v) && s.contains(w) && v != w ==> sv_get(s, v) != sv_get(s, w),
{
    assert forall|j: int| 0 <= j < s.len() implies sv_get(s, s[j]) == Some(j as u32) by {
        lemma_fio_distinct(s, s[j], j);
    }
    assert forall|v: u32| s.contains(v) implies sv_get(s, v) is Some && sv_get(s, v).unwrap()
        < s.len() by {
        lemma_fio(s, v);
    }
    assert forall|v: u32, w: u32|
        s.contains(v) && s.contains(w) && v != w implies sv_get(s, v) != sv_get(s, w) by {
        lemma_fio(s, v);
        lemma_fio(s, w);
    }
}

// ----- the executable reservation set -----

/// One type's insertion-ordered set of reserved original indices.
pub struct ReservedSet {
    set: indexmap::IndexSet<u32>,
}

impl View for ReservedSet {
    type V = Seq<u32>;

    closed spec fn view(&self) -> Seq<u32> {
        iset_seq(self.set)
    }
}

impl ReservedSet {
    /// Well-formedness carried by every set this library builds.
    pub open spec fn wf(&self) -> bool {
        rsv_wf(self@)
    }

    /// An empty set.
    pub fn new() -> (r: ReservedSet)
        ensures
            r@ == Seq::<u32>::empty(),
            r.wf(),
    {
        ReservedSet { set: iset_new() }
    }

    /// How many indices are reserved.
    pub fn len(&self) -> (r: usize)
        ensures
            r == self@.len(),
    {
        iset_len(&self.set)
    }

    /// Reserves `index`, refusing a duplicate.
    pub fn reserve(&mut self, index: u32) -> (ok: bool)
        requires
            old(self).wf(),
        ensures
            final(self).wf(),
            match sv_reserve(old(self)@, index) {
                Some(t) => ok && final(self)@ == t,
                None => !ok && final(self)@ == old(self)@,
            },
    {
        if index == INVALID_INDEX {
            return true;
        }
        if index > INVALID_INDEX {
            return false;
        }
        if self.len() >= INVALID_INDEX as usize {
            return false;
        }
        let ghost s0 = self@;
        let (_, inserted) = iset_insert_full(&mut self.set, index);
        proof {
            if !s0.contains(index) {
                lemma_sv_wf(s0, index);
            }
        }
        inserted
    }

    /// Reserves `index` where overlap is legal; yields whether the set grew.
    pub fn try_reserve(&mut self, index: u32) -> (r: Option<bool>)
        requires
            old(self).wf(),
        ensures
            final(self).wf(),
            match sv_try(old(self)@, index) {
                Some(t) => r is Some && final(self)@ == t && (r == Some(true) <==> t.len()
                    > old(self)@.len()),
                None => r is None && final(self)@ == old(self)@,
            },
    {
        if index == INVALID_INDEX {
            return Some(false);
        }
        let ghost s0 = self@;
        match iset_get_index_of(&self.set, index) {
            Some(_) => Some(false),
            None => {
                if index > INVALID_INDEX {
                    return None;
                }
                if self.len() >= INVALID_INDEX as usize {
                    return None;
                }
                let (_, _) = iset_insert_full(&mut self.set, index);
                proof {
                    lemma_sv_wf(s0, index);
                }
                Some(true)
            },
        }
    }

    /// The new dense index of original index `index`.
    pub fn get(&self, index: u32) -> (r: Option<u32>)
        requires
            self.wf(),
        ensures
            r == sv_get(self@, index),
    {
        if index == INVALID_INDEX {
            return Some(INVALID_INDEX);
        }
        match iset_get_index_of(&self.set, index) {
            Some(i) => {
                proof {
                    lemma_fio_distinct(self@, index, i as int);
                }
                Some(i as u32)
            },
            None => None,
        }
    }

    /// Reserves the checked range `start..start + count`, each index fresh.
    #[verifier::loop_isolation(false)]
    pub fn reserve_range(&mut self, start: u32, count: u32) -> (ok: bool)
        requires
            old(self).wf(),
        ensures
            final(self).wf(),
            match sv_reserve_range(old(self)@, start, count) {
                Some(t) => ok && final(self)@ == t,
                None => !ok,
            },
    {
        if start == INVALID_INDEX {
            return count == 0;
        }
        if start as u64 + count as u64 >= INVALID_INDEX as u64 {
            return true;
        }
        let ghost s0 = self@;
        let mut k: u32 = 0;
        while k < count
            invariant
                0 <= k <= count,
                start + count < INVALID_INDEX,
                rsv_wf(s0),
                self.wf(),
                sv_reserve_n(s0, start, k as nat) == Some(self@),
            decreases count - k,
        {
            let ghost before = self@;
            let ok = self.reserve(start + k);
            proof {
                assert(sv_reserve_n(s0, start, (k + 1) as nat) == sv_reserve(
                    before,
                    (start + k) as u32,
                ));
            }
            if !ok {
                proof {
                    assert(sv_reserve(before, (start + k) as u32) is None);
                    assert(sv_reserve_n(s0, start, (k + 1) as nat) is None);
                    lemma_sv_reserve_n_none(s0, start, (k + 1) as nat, count as nat);
                    assert(sv_reserve_range(s0, start, count) is None);
                }
                return false;
            }
            k = k + 1;
        }
        true
    }

    /// The original index at position `j` in insertion order.
    pub fn get_at(&self, j: usize) -> (r: u32)
        requires
            j < self@.len(),
        ensures
            r == self@[j as int],
    {
        match iset_get_index(&self.set, j) {
            Some(v) => v,
            None => 0,
        }
    }
}

// ----- the per-type aggregate -----

/// Which table a reservation or lookup concerns.
#[derive(Debug, Clone, Copy, PartialEq, Eq, Structural)]
pub enum TableKind {
    FilePath,
    FileEntity,
    FileInfo,
    FileDesc,
    FileData,
    FilePackage,
    FilePackageChild,
    FileGroup,
    StreamFolder,
    StreamPath,
    StreamDesc,
    StreamData,
}

/// The reservation state of every table, as sequences of original indices in
/// insertion order.
pub struct SerView {
    pub file_path: Seq<u32>,
    pub file_entity: Seq<u32>,
    pub file_info: Seq<u32>,
    pub file_desc: Seq<u32>,
    pub file_data: Seq<u32>,
    pub file_package: Seq<u32>,
    pub file_package_child: Seq<u32>,
    pub file_group: Seq<u32>,
    pub stream_folder: Seq<u32>,
    pub stream_path: Seq<u32>,
    pub stream_desc: Seq<u32>,
    pub stream_data: Seq<u32>,
}

impl SerView {
    /// The sequence for one table.
    pub open spec fn of(self, kind: TableKind) -> Seq<u32> {
        match kind {
            TableKind::FilePath => self.file_path,
            TableKind::FileEntity => self.file_entity,
            TableKind::FileInfo => self.file_info,
            TableKind::FileDesc => self.file_desc,
            TableKind::FileData => self.file_data,
            TableKind::FilePackage => self.file_package,
            TableKind::FilePackageChild => self.file_package_child,
            TableKind::FileGroup => self.file_group,
            TableKind::StreamFolder => self.stream_folder,
            TableKind::StreamPath => self.stream_path,
            TableKind::StreamDesc => self.stream_desc,
            TableKind::StreamData => self.stream_data,
        }
    }

    /// Every table's set is well formed.
    pub open spec fn wf(self) -> bool {
        &&& rsv_wf(self.file_path)
        &&& rsv_wf(self.file_entity)
        &&& rsv_wf(self.file_info)
        &&& rsv_wf(self.file_desc)
        &&& rsv_wf(self.file_data)
        &&& rsv_wf(self.file_package)
        &&& rsv_wf(self.file_package_child)
        &&& rsv_wf(self.file_group)
        &&& rsv_wf(self.stream_folder)
        &&& rsv_wf(self.stream_path)
        &&& rsv_wf(self.stream_desc)
        &&& rsv_wf(self.stream_data)
    }
}

/// Per-type ordered sets of reserved original indices, answering what the new
/// dense index of original index `i` of each type is.
pub struct SerState {
    pub file_path: ReservedSet,
    pub file_entity: ReservedSet,
    pub file_info: ReservedSet,
    pub file_desc: ReservedSet,
    pub file_data: ReservedSet,
    pub file_package: ReservedSet,
    pub file_package_child: ReservedSet,
    pub file_group: ReservedSet,
    pub stream_folder: ReservedSet,
    pub stream_path: ReservedSet,
    pub stream_desc: ReservedSet,
    pub stream_data: ReservedSet,
}

impl View for SerState {
    type V = SerView;

    open spec fn view(&self) -> SerView {
        SerView {
            file_path: self.file_path@,
            file_entity: self.file_entity@,
            file_info: self.file_info@,
            file_desc: self.file_desc@,
            file_data: self.file_data@,
            file_package: self.file_package@,
            file_package_child: self.file_package_child@,
            file_group: self.file_group@,
            stream_folder: self.stream_folder@,
            stream_path: self.stream_path@,
            stream_desc: self.stream_desc@,
            stream_data: self.stream_data@,
        }
    }
}

impl SerState {
    /// Every set is well formed.
    pub open spec fn wf(&self) -> bool {
        self@.wf()
    }

    /// A state with nothing reserved.
    pub fn new() -> (r: SerState)
        ensures
            r.wf(),
            forall|k: TableKind| r@.of(k) == Seq::<u32>::empty(),
    {
        SerState {
            file_path: ReservedSet::new(),
            file_entity: ReservedSet::new(),
            file_info: ReservedSet::new(),
            file_desc: ReservedSet::new(),
            file_data: ReservedSet::new(),
            file_package: ReservedSet::new(),
            file_package_child: ReservedSet::new(),
            file_group: ReservedSet::new(),
            stream_folder: ReservedSet::new(),
            stream_path: ReservedSet::new(),
            stream_desc: ReservedSet::new(),
            stream_data: ReservedSet::new(),
        }
    }

    /// Reserves `index` for `kind`, refusing a duplicate.
    pub fn reserve(&mut self, kind: TableKind, index: u32) -> (ok: bool)
        requires
            old(self).wf(),
        ensures
            final(self).wf(),
            match sv_reserve(old(self)@.of(kind), index) {
                Some(t) => ok && final(self)@.of(kind) == t,
                None => !ok && final(self)@ == old(self)@,
            },
            forall|k: TableKind| k != kind ==> final(self)@.of(k) == old(self)@.of(k),
    {
        match kind {
            TableKind::FilePath => self.file_path.reserve(index),
            TableKind::FileEntity => self.file_entity.reserve(index),
            TableKind::FileInfo => self.file_info.reserve(index),
            TableKind::FileDesc => self.file_desc.reserve(index),
            TableKind::FileData => self.file_data.reserve(index),
            TableKind::FilePackage => self.file_package.reserve(index),
            TableKind::FilePackageChild => self.file_package_child.reserve(index),
            TableKind::FileGroup => self.file_group.reserve(index),
            TableKind::StreamFolder => self.stream_folder.reserve(index),
            TableKind::StreamPath => self.stream_path.reserve(index),
            TableKind::StreamDesc => self.stream_desc.reserve(index),
            TableKind::StreamData => self.stream_data.reserve(index),
        }
    }

    /// Reserves `index` for `kind` where overlap is legal; yields whether the
    /// set grew.
    pub fn try_reserve(&mut self, kind: TableKind, index: u32) -> (r: Option<bool>)
        requires
            old(self).wf(),
        ensures
            final(self).wf(),
            match sv_try(old(self)@.of(kind), index) {
                Some(t) => r is Some && final(self)@.of(kind) == t && (r == Some(true) <==> t.len()
                    > old(self)@.of(kind).len()),
                None => r is None && final(self)@ == old(self)@,
            },
            forall|k: TableKind| k != kind ==> final(self)@.of(k) == old(self)@.of(k),
    {
        match kind {
            TableKind::FilePath => self.file_path.try_reserve(index),
            TableKind::FileEntity => self.file_entity.try_reserve(index),
            TableKind::FileInfo => self.file_info.try_reserve(index),
            TableKind::FileDesc => self.file_desc.try_reserve(index),
            TableKind::FileData => self.file_data.try_reserve(index),
            TableKind::FilePackage => self.file_package.try_reserve(index),
            TableKind::FilePackageChild => self.file_package_child.try_reserve(index),
            TableKind::FileGroup => self.file_group.try_reserve(index),
            TableKind::StreamFolder => self.stream_folder.try_reserve(index),
            TableKind::StreamPath => self.stream_path.try_reserve(index),
            TableKind::StreamDesc => self.stream_desc.try_reserve(index),
            TableKind::StreamData => self.stream_data.try_reserve(index),
        }
    }

    /// Reserves the checked range `start..start + count` for `kind`.
    pub fn reserve_range(&mut self, kind: TableKind, start: u32, count: u32) -> (ok: bool)
        requires
            old(self).wf(),
        ensures
            final(self).wf(),
            match sv_reserve_range(old(self)@.of(kind), start, count) {
                Some(t) => ok && final(self)@.of(kind) == t,
                None => !ok,
            },
            forall|k: TableKind| k != kind ==> final(self)@.of(k) == old(self)@.of(k),
    {
        match kind {
            TableKind::FilePath => self.file_path.reserve_range(start, count),
            TableKind::FileEntity => self.file_entity.reserve_range(start, count),
            TableKind::FileInfo => self.file_info.reserve_range(start, count),
            TableKind::FileDesc => self.file_desc.reserve_range(start, count),
            TableKind::FileData => self.file_data.reserve_range(start, count),
            TableKind::FilePackage => self.file_package.reserve_range(start, count),
            TableKind::FilePackageChild => self.file_package_child.reserve_range(start, count),
            TableKind::FileGroup => self.file_group.reserve_range(start, count),
            TableKind::StreamFolder => self.stream_folder.reserve_range(start, count),
            TableKind::StreamPath => self.stream_path.reserve_range(start, count),
            TableKind::StreamDesc => self.stream_desc.reserve_range(start, count),
            TableKind::StreamData => self.stream_data.reserve_range(start, count),
        }
    }

    /// The new dense index of original index `index` of `kind`; `None` when
    /// it was never reserved.
    pub fn try_get(&self, kind: TableKind, index: u32) -> (r: Option<u32>)
        requires
            self.wf(),
        ensures
            index == INVALID_INDEX ==> r is None,
            index != INVALID_INDEX ==> r == sv_get(self@.of(kind), index),
    {
        if index == INVALID_INDEX {
            return None;
        }
        self.get(kind, index)
    }

    /// The new dense index of original index `index` of `kind`: the sentinel
    /// maps to itself; an index that was never reserved has none.
    pub fn get(&self, kind: TableKind, index: u32) -> (r: Option<u32>)
        requires
            self.wf(),
        ensures
            r == sv_get(self@.of(kind), index),
    {
        match kind {
            TableKind::FilePath => self.file_path.get(index),
            TableKind::FileEntity => self.file_entity.get(index),
            TableKind::FileInfo => self.file_info.get(index),
            TableKind::FileDesc => self.file_desc.get(index),
            TableKind::FileData => self.file_data.get(index),
            TableKind::FilePackage => self.file_package.get(index),
            TableKind::FilePackageChild => self.file_package_child.get(index),
            TableKind::FileGroup => self.file_group.get(index),
            TableKind::StreamFolder => self.stream_folder.get(index),
            TableKind::StreamPath => self.stream_path.get(index),
            TableKind::StreamDesc => self.stream_desc.get(index),
            TableKind::StreamData => self.stream_data.get(index),
        }
    }
}

} // verus!
