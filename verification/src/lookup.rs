//! The two lookup shapes: a simple ordered index-lookup (hash to dense index)
//! and a bucketed hash table (hash to scattered index through a bucket
//! directory).

use crate::bytes::{push_u32_le, read_u32_le, u32_le_at, u32_le_bytes};
use crate::hash::{hwd_le_at, push_hwd, read_hwd, spec_hwd_data, spec_hwd_len, HashWithData};
use vstd::prelude::*;

verus! {

broadcast use vstd::slice::axiom_spec_len;

/// The packed 40-bit hash of one lookup entry.
pub open spec fn spec_hwd_hash40(h: HashWithData) -> u64 {
    (h.crc + spec_hwd_len(h.len_and_data) * 0x1_0000_0000) as u64
}

/// The payload of the first entry in `entries[lo..lo + n]` whose hash is `h`.
pub open spec fn spec_scan(entries: Seq<HashWithData>, lo: int, n: nat, h: u64) -> Option<u32>
    decreases n,
{
    if n == 0 {
        None
    } else if spec_hwd_hash40(entries[lo]) == h {
        Some(spec_hwd_data(entries[lo].len_and_data))
    } else {
        spec_scan(entries, lo + 1, (n - 1) as nat, h)
    }
}

/// An ordered array of hash-and-index entries; iteration order is the
/// on-disk order, and `get` is a linear scan.
#[derive(Debug)]
pub struct IndexLookup {
    pub entries: Vec<HashWithData>,
}

impl View for IndexLookup {
    type V = Seq<HashWithData>;

    open spec fn view(&self) -> Seq<HashWithData> {
        self.entries@
    }
}

impl IndexLookup {
    /// The number of entries.
    pub fn len(&self) -> (r: usize)
        ensures
            r == self@.len(),
    {
        self.entries.len()
    }

    /// The co-located index of the first entry whose hash is `hash40`.
    #[verifier::loop_isolation(false)]
    pub fn get(&self, hash40: u64) -> (r: Option<u32>)
        ensures
            r == spec_scan(self@, 0, self@.len(), hash40),
    {
        let n = self.entries.len();
        let mut i: usize = 0;
        while i < n
            invariant
                0 <= i <= n,
                n == self@.len(),
                spec_scan(self@, 0, n as nat, hash40) == spec_scan(
                    self@,
                    i as int,
                    (n - i) as nat,
                    hash40,
                ),
            decreases n - i,
        {
            let e = self.entries[i];
            if e.hash40() == hash40 {
                return Some(e.data());
            }
            i = i + 1;
        }
        None
    }
}

/// One bucket of a bucketed lookup: where its entries start and how many
/// there are.
#[derive(Debug, Copy, Clone, PartialEq, Eq, Structural)]
pub struct Bucket {
    pub start: u32,
    pub len: u32,
}

/// Byte size of the wire form of a bucket.
pub const BUCKET_SIZE: usize = 8;

/// Wire form of a bucket: two words, little-endian.
pub open spec fn bucket_le_bytes(d: Bucket) -> Seq<u8> {
    u32_le_bytes(d.start) + u32_le_bytes(d.len)
}

/// The bucket stored at `pos`.
pub open spec fn bucket_le_at(s: Seq<u8>, pos: int) -> Bucket {
    Bucket { start: u32_le_at(s, pos), len: u32_le_at(s, pos + 4) }
}

/// Reads the bucket stored at `pos`.
pub fn read_bucket(b: &[u8], pos: usize) -> (r: Bucket)
    requires
        pos + BUCKET_SIZE <= b@.len(),
    ensures
        r == bucket_le_at(b@, pos as int),
{
    let n: usize = b.len();
    Bucket { start: read_u32_le(b, pos), len: read_u32_le(b, pos + 4) }
}

/// Appends the wire form of `d`.
pub fn push_bucket(out: &mut Vec<u8>, d: &Bucket)
    ensures
        final(out)@ =~= old(out)@ + bucket_le_bytes(*d),
{
    push_u32_le(out, d.start);
    push_u32_le(out, d.len);
}

/// Reading back the wire form of `d` yields `d`.
pub proof fn lemma_bucket_le_at_of_bytes(s: Seq<u8>, pos: int, d: Bucket)
    requires
        0 <= pos,
        pos + BUCKET_SIZE <= s.len(),
        forall|i: int| 0 <= i < BUCKET_SIZE ==> s[pos + i] == bucket_le_bytes(d)[i],
    ensures
        bucket_le_at(s, pos) == d,
{
    assert forall|i: int| 0 <= i < 4 implies s[pos + i] == u32_le_bytes(d.start)[i] by {
        assert(s[pos + i] == bucket_le_bytes(d)[i]);
    }
    assert forall|i: int| 0 <= i < 4 implies s[pos + 4 + i] == u32_le_bytes(d.len)[i] by {
        assert(s[pos + (4 + i)] == bucket_le_bytes(d)[4 + i]);
    }
    crate::bytes::lemma_u32_le_at_of_bytes(s, pos, d.start);
    crate::bytes::lemma_u32_le_at_of_bytes(s, pos + 4, d.len);
}

/// What a bucketed lookup answers for `h`: route to the bucket `h` modulo the
/// bucket count, then scan that bucket's slice; a corrupt directory answers
/// nothing.
pub open spec fn spec_bucket_get(
    buckets: Seq<Bucket>,
    entries: Seq<HashWithData>,
    h: u64,
) -> Option<u32> {
    if buckets.len() == 0 {
        None
    } else {
        let b = buckets[(h % (buckets.len() as u64)) as int];
        if b.start + b.len > entries.len() {
            None
        } else {
            spec_scan(entries, b.start as int, b.len as nat, h)
        }
    }
}

/// A bucketed hash table: a bucket directory and a flat, bucket-major array
/// of hash-and-index entries. Re-serialization preserves the bucket layout
/// verbatim.
#[derive(Debug)]
pub struct BucketLookup {
    pub buckets: Vec<Bucket>,
    pub entries: Vec<HashWithData>,
}

impl BucketLookup {
    /// The number of entries.
    pub fn len(&self) -> (r: usize)
        ensures
            r == self.entries@.len(),
    {
        self.entries.len()
    }

    /// The number of buckets.
    pub fn bucket_count(&self) -> (r: usize)
        ensures
            r == self.buckets@.len(),
    {
        self.buckets.len()
    }

    /// The co-located index of the first entry in `hash40`'s bucket whose
    /// hash is `hash40`.
    #[verifier::loop_isolation(false)]
    pub fn get(&self, hash40: u64) -> (r: Option<u32>)
        ensures
            r == spec_bucket_get(self.buckets@, self.entries@, hash40),
    {
        let bn = self.buckets.len();
        if bn == 0 {
            return None;
        }
        let bi = (hash40 % bn as u64) as usize;
        let b = self.buckets[bi];
        let n = self.entries.len();
        if b.start as u64 + b.len as u64 > n as u64 {
            return None;
        }
        let lo = b.start as usize;
        let mut i: usize = 0;
        while i < b.len as usize
            invariant
                0 <= i <= b.len,
                lo == b.start,
                b.start + b.len <= self.entries@.len(),
                spec_scan(self.entries@, b.start as int, b.len as nat, hash40) == spec_scan(
                    self.entries@,
                    lo + i,
                    (b.len - i) as nat,
                    hash40,
                ),
            decreases b.len - i,
        {
            let e = self.entries[lo + i];
            if e.hash40() == hash40 {
                return Some(e.data());
            }
            i = i + 1;
        }
        None
    }
}

} // verus!
