//! The outside crates' items this library calls, with the contracts it
//! relies on: an insertion-ordered set of `u32` (indexmap), a ZSTD
//! decompressor (zstd), and the 40-bit string hash (hash40).

use vstd::prelude::*;

verus! {

// ----- indexmap -----

#[verifier::external_type_specification]
#[verifier::external_body]
#[verifier::reject_recursive_types(T)]
#[verifier::reject_recursive_types(S)]
pub struct ExIndexSet<T, S>(indexmap::IndexSet<T, S>);

/// The elements an insertion-ordered set holds, in insertion order.
pub uninterp spec fn iset_seq(s: indexmap::IndexSet<u32>) -> Seq<u32>;

/// Relies on indexmap's IndexSet::new: the new set is empty.
#[verifier::external_body]
pub fn iset_new() -> (r: indexmap::IndexSet<u32>)
    ensures
        iset_seq(r) == Seq::<u32>::empty(),
{
    indexmap::IndexSet::new()
}

/// Relies on indexmap's IndexSet::insert_full: a value already present leaves
/// the set and its order unchanged and yields that value's index and `false`;
/// an absent value is appended and yields the old length and `true`.
#[verifier::external_body]
pub fn iset_insert_full(s: &mut indexmap::IndexSet<u32>, value: u32) -> (r: (usize, bool))
    ensures
        iset_seq(*old(s)).contains(value) ==> {
            &&& iset_seq(*final(s)) == iset_seq(*old(s))
            &&& r.1 == false
            &&& r.0 < iset_seq(*old(s)).len()
            &&& iset_seq(*old(s))[r.0 as int] == value
        },
        !iset_seq(*old(s)).contains(value) ==> {
            &&& iset_seq(*final(s)) == iset_seq(*old(s)).push(value)
            &&& r.1 == true
            &&& r.0 == iset_seq(*old(s)).len()
        },
{
    s.insert_full(value)
}

/// Relies on indexmap's IndexSet::get_index_of: the position of a value that
/// the set holds, `None` for one it does not.
#[verifier::external_body]
pub fn iset_get_index_of(s: &indexmap::IndexSet<u32>, value: u32) -> (r: Option<usize>)
    ensures
        iset_seq(*s).contains(value) ==> r is Some,
        match r {
            Some(i) => i < iset_seq(*s).len() && iset_seq(*s)[i as int] == value,
            None => !iset_seq(*s).contains(value),
        },
{
    s.get_index_of(&value)
}

/// Relies on indexmap's IndexSet::len: the number of elements.
#[verifier::external_body]
pub fn iset_len(s: &indexmap::IndexSet<u32>) -> (r: usize)
    ensures
        r == iset_seq(*s).len(),
{
    s.len()
}

/// Relies on indexmap's IndexSet::get_index: the element at a position in
/// insertion order.
#[verifier::external_body]
pub fn iset_get_index(s: &indexmap::IndexSet<u32>, index: usize) -> (r: Option<u32>)
    ensures
        index < iset_seq(*s).len() ==> r == Some(iset_seq(*s)[index as int]),
        index >= iset_seq(*s).len() ==> r is None,
{
    s.get_index(index).copied()
}

// ----- zstd -----

/// Whether a byte run is a decodable ZSTD frame, and what it decodes to:
/// a function of the bytes alone.
pub uninterp spec fn zstd_decoding(b: Seq<u8>) -> Option<Seq<u8>>;

/// Relies on zstd's stream::decode_all: decompresses the ZSTD frame held in
/// `b`, or fails; the outcome depends on the bytes alone.
#[verifier::external_body]
pub fn zstd_decode(b: &[u8]) -> (r: Option<Vec<u8>>)
    ensures
        match r {
            Some(v) => zstd_decoding(b@) == Some(v@),
            None => zstd_decoding(b@) is None,
        },
{
    match zstd::stream::decode_all(b) {
        Ok(v) => Some(v),
        Err(_) => None,
    }
}

// ----- hash40 -----

/// The packed 40-bit hash of a string: a function of its characters alone.
pub uninterp spec fn hash40_of(s: Seq<char>) -> u64;

/// Relies on hash40's Hash40::new: computes the packed 40-bit hash of `s`,
/// a CRC32 in the low word and the truncated byte length above it, so the
/// value fits in 40 bits.
#[verifier::external_body]
pub fn hash40_of_str(s: &str) -> (r: u64)
    ensures
        r == hash40_of(s@),
        r <= 0xFF_FFFF_FFFFu64,
{
    hash40::Hash40::new(s).0
}

} // verus!
