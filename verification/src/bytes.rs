//! Little-endian byte codec: the primitive reads and writes every record
//! layout is built from, with exact specifications and round-trip lemmas.

use vstd::prelude::*;

verus! {

// ----- specification: the integer a little-endian byte run denotes -----

/// The `u16` stored little-endian at `pos`.
pub open spec fn u16_le_at(s: Seq<u8>, pos: int) -> u16 {
    (s[pos] + s[pos + 1] * 0x100) as u16
}

/// The `u32` stored little-endian at `pos`.
pub open spec fn u32_le_at(s: Seq<u8>, pos: int) -> u32 {
    (s[pos] + s[pos + 1] * 0x100 + s[pos + 2] * 0x10000 + s[pos + 3] * 0x1000000) as u32
}

/// The `u64` stored little-endian at `pos`.
pub open spec fn u64_le_at(s: Seq<u8>, pos: int) -> u64 {
    (s[pos]
        + s[pos + 1] * 0x100
        + s[pos + 2] * 0x10000
        + s[pos + 3] * 0x1000000
        + s[pos + 4] * 0x1_0000_0000
        + s[pos + 5] * 0x100_0000_0000
        + s[pos + 6] * 0x1_0000_0000_0000
        + s[pos + 7] * 0x100_0000_0000_0000) as u64
}

// ----- specification: the little-endian byte run an integer denotes -----

/// The two little-endian bytes of a `u16`.
pub open spec fn u16_le_bytes(x: u16) -> Seq<u8> {
    seq![(x % 0x100) as u8, ((x / 0x100) % 0x100) as u8]
}

/// The four little-endian bytes of a `u32`.
pub open spec fn u32_le_bytes(x: u32) -> Seq<u8> {
    seq![
        (x % 0x100) as u8,
        ((x / 0x100) % 0x100) as u8,
        ((x / 0x10000) % 0x100) as u8,
        ((x / 0x1000000) % 0x100) as u8,
    ]
}

/// The eight little-endian bytes of a `u64`.
pub open spec fn u64_le_bytes(x: u64) -> Seq<u8> {
    seq![
        (x % 0x100) as u8,
        ((x / 0x100) % 0x100) as u8,
        ((x / 0x10000) % 0x100) as u8,
        ((x / 0x1000000) % 0x100) as u8,
        ((x / 0x1_0000_0000) % 0x100) as u8,
        ((x / 0x100_0000_0000) % 0x100) as u8,
        ((x / 0x1_0000_0000_0000) % 0x100) as u8,
        ((x / 0x100_0000_0000_0000) % 0x100) as u8,
    ]
}

// ----- round-trip lemmas -----

/// Reading back the two bytes of `x` yields `x`.
pub proof fn lemma_u16_le_at_of_bytes(s: Seq<u8>, pos: int, x: u16)
    requires
        0 <= pos,
        pos + 2 <= s.len(),
        forall|i: int| 0 <= i < 2 ==> s[pos + i] == u16_le_bytes(x)[i],
    ensures
        u16_le_at(s, pos) == x,
{
    assert(s[pos + 0] == u16_le_bytes(x)[0]);
    assert(s[pos + 1] == u16_le_bytes(x)[1]);
    assert(x % 0x100 + ((x / 0x100) % 0x100) * 0x100 == x) by (bit_vector);
}

/// Reading back the four bytes of `x` yields `x`.
pub proof fn lemma_u32_le_at_of_bytes(s: Seq<u8>, pos: int, x: u32)
    requires
        0 <= pos,
        pos + 4 <= s.len(),
        forall|i: int| 0 <= i < 4 ==> s[pos + i] == u32_le_bytes(x)[i],
    ensures
        u32_le_at(s, pos) == x,
{
    assert(s[pos + 0] == u32_le_bytes(x)[0]);
    assert(s[pos + 1] == u32_le_bytes(x)[1]);
    assert(s[pos + 2] == u32_le_bytes(x)[2]);
    assert(s[pos + 3] == u32_le_bytes(x)[3]);
    assert(x % 0x100 + ((x / 0x100) % 0x100) * 0x100 + ((x / 0x10000) % 0x100) * 0x10000 + ((x
        / 0x1000000) % 0x100) * 0x1000000 == x) by (bit_vector);
}

/// Reading back the eight bytes of `x` yields `x`.
pub proof fn lemma_u64_le_at_of_bytes(s: Seq<u8>, pos: int, x: u64)
    requires
        0 <= pos,
        pos + 8 <= s.len(),
        forall|i: int| 0 <= i < 8 ==> s[pos + i] == u64_le_bytes(x)[i],
    ensures
        u64_le_at(s, pos) == x,
{
    assert(s[pos + 0] == u64_le_bytes(x)[0]);
    assert(s[pos + 1] == u64_le_bytes(x)[1]);
    assert(s[pos + 2] == u64_le_bytes(x)[2]);
    assert(s[pos + 3] == u64_le_bytes(x)[3]);
    assert(s[pos + 4] == u64_le_bytes(x)[4]);
    assert(s[pos + 5] == u64_le_bytes(x)[5]);
    assert(s[pos + 6] == u64_le_bytes(x)[6]);
    assert(s[pos + 7] == u64_le_bytes(x)[7]);
    assert(x % 0x100 + ((x / 0x100) % 0x100) * 0x100 + ((x / 0x10000) % 0x100) * 0x10000 + ((x
        / 0x1000000) % 0x100) * 0x1000000 + ((x / 0x1_0000_0000) % 0x100) * 0x1_0000_0000 + ((x
        / 0x100_0000_0000) % 0x100) * 0x100_0000_0000 + ((x / 0x1_0000_0000_0000) % 0x100)
        * 0x1_0000_0000_0000 + ((x / 0x100_0000_0000_0000) % 0x100) * 0x100_0000_0000_0000
        == x) by (bit_vector);
}

// ----- executable readers -----

/// Reads the `u16` stored little-endian at `pos`.
pub fn read_u16_le(b: &[u8], pos: usize) -> (r: u16)
    requires
        pos + 2 <= b@.len(),
    ensures
        r == u16_le_at(b@, pos as int),
{
    b[pos] as u16 + b[pos + 1] as u16 * 0x100
}

/// Reads the `u32` stored little-endian at `pos`.
pub fn read_u32_le(b: &[u8], pos: usize) -> (r: u32)
    requires
        pos + 4 <= b@.len(),
    ensures
        r == u32_le_at(b@, pos as int),
{
    b[pos] as u32 + b[pos + 1] as u32 * 0x100 + b[pos + 2] as u32 * 0x10000 + b[pos + 3] as u32
        * 0x1000000
}

/// Reads the `u64` stored little-endian at `pos`.
pub fn read_u64_le(b: &[u8], pos: usize) -> (r: u64)
    requires
        pos + 8 <= b@.len(),
    ensures
        r == u64_le_at(b@, pos as int),
{
    b[pos] as u64 + b[pos + 1] as u64 * 0x100 + b[pos + 2] as u64 * 0x10000 + b[pos + 3] as u64
        * 0x1000000 + b[pos + 4] as u64 * 0x1_0000_0000 + b[pos + 5] as u64 * 0x100_0000_0000 + b[
        pos + 6] as u64 * 0x1_0000_0000_0000 + b[pos + 7] as u64 * 0x100_0000_0000_0000
}

// ----- executable writers -----

/// Appends the two little-endian bytes of `x`.
pub fn push_u16_le(out: &mut Vec<u8>, x: u16)
    ensures
        final(out)@ =~= old(out)@ + u16_le_bytes(x),
{
    out.push((x % 0x100) as u8);
    out.push(((x / 0x100) % 0x100) as u8);
}

/// Appends the four little-endian bytes of `x`.
pub fn push_u32_le(out: &mut Vec<u8>, x: u32)
    ensures
        final(out)@ =~= old(out)@ + u32_le_bytes(x),
{
    out.push((x % 0x100) as u8);
    out.push(((x / 0x100) % 0x100) as u8);
    out.push(((x / 0x10000) % 0x100) as u8);
    out.push(((x / 0x1000000) % 0x100) as u8);
}

/// Appends the eight little-endian bytes of `x`.
pub fn push_u64_le(out: &mut Vec<u8>, x: u64)
    ensures
        final(out)@ =~= old(out)@ + u64_le_bytes(x),
{
    out.push((x % 0x100) as u8);
    out.push(((x / 0x100) % 0x100) as u8);
    out.push(((x / 0x10000) % 0x100) as u8);
    out.push(((x / 0x1000000) % 0x100) as u8);
    out.push(((x / 0x1_0000_0000) % 0x100) as u8);
    out.push(((x / 0x100_0000_0000) % 0x100) as u8);
    out.push(((x / 0x1_0000_0000_0000) % 0x100) as u8);
    out.push(((x / 0x100_0000_0000_0000) % 0x100) as u8);
}

/// Copies `b[lo..lo + n]` into a fresh vector.
#[verifier::loop_isolation(false)]
pub fn copy_bytes(b: &[u8], lo: usize, n: usize) -> (r: Vec<u8>)
    requires
        lo + n <= b@.len(),
    ensures
        r@ =~= b@.subrange(lo as int, lo + n),
{
    let m: usize = b.len();
    let mut r: Vec<u8> = Vec::new();
    let mut i: usize = 0;
    while i < n
        invariant
            0 <= i <= n,
            r@.len() == i,
            forall|j: int| 0 <= j < i ==> r@[j] == b@[lo + j],
        decreases n - i,
    {
        r.push(b[lo + i]);
        i = i + 1;
    }
    r
}

/// Appends every byte of `src`.
#[verifier::loop_isolation(false)]
pub fn push_bytes(out: &mut Vec<u8>, src: &Vec<u8>)
    ensures
        final(out)@ =~= old(out)@ + src@,
{
    let n = src.len();
    let mut i: usize = 0;
    while i < n
        invariant
            0 <= i <= n,
            out@ =~= old(out)@ + src@.subrange(0, i as int),
        decreases n - i,
    {
        out.push(src[i]);
        proof {
            assert(out@ =~= old(out)@ + src@.subrange(0, i + 1));
        }
        i = i + 1;
    }
}

/// Appends `n` zero bytes.
#[verifier::loop_isolation(false)]
pub fn push_zero_bytes(out: &mut Vec<u8>, n: usize)
    ensures
        final(out)@ =~= old(out)@ + Seq::new(n as nat, |i: int| 0u8),
{
    let mut i: usize = 0;
    while i < n
        invariant
            0 <= i <= n,
            out@ =~= old(out)@ + Seq::new(i as nat, |j: int| 0u8),
        decreases n - i,
    {
        out.push(0u8);
        proof {
            assert(out@ =~= old(out)@ + Seq::new((i + 1) as nat, |j: int| 0u8));
        }
        i = i + 1;
    }
}


/// The concatenation of a run of byte segments, in order.
pub open spec fn cat(segs: Seq<Seq<u8>>) -> Seq<u8>
    decreases segs.len(),
{
    if segs.len() == 0 {
        Seq::empty()
    } else {
        cat(segs.drop_last()) + segs.last()
    }
}

/// Where segment `m` starts inside the concatenation.
pub open spec fn cat_off(segs: Seq<Seq<u8>>, m: int) -> int {
    cat(segs.take(m)).len() as int
}

/// One segment appended moves the next offset by its length.
pub proof fn lemma_cat_off_step(segs: Seq<Seq<u8>>, m: int)
    requires
        0 <= m < segs.len(),
    ensures
        cat_off(segs, m + 1) == cat_off(segs, m) + segs[m].len(),
{
    assert(segs.take(m + 1).drop_last() =~= segs.take(m));
    assert(cat(segs.take(m + 1)) == cat(segs.take(m)) + segs[m]);
}

/// The whole concatenation ends where the one-past-the-last offset lies.
pub proof fn lemma_cat_total_len(segs: Seq<Seq<u8>>)
    ensures
        cat(segs).len() == cat_off(segs, segs.len() as int),
{
    assert(segs.take(segs.len() as int) =~= segs);
}

/// Offsets never decrease.
pub proof fn lemma_cat_off_le(segs: Seq<Seq<u8>>, m: int, m2: int)
    requires
        0 <= m <= m2 <= segs.len(),
    ensures
        cat_off(segs, m) <= cat_off(segs, m2),
    decreases m2 - m,
{
    if m < m2 {
        lemma_cat_off_step(segs, m2 - 1);
        lemma_cat_off_le(segs, m, m2 - 1);
    }
}

/// Indexing inside segment `m` of a concatenation reads that segment.
pub proof fn lemma_cat_at(segs: Seq<Seq<u8>>, m: int, x: int)
    requires
        0 <= m < segs.len(),
        0 <= x < segs[m].len(),
    ensures
        cat_off(segs, m) + x < cat(segs).len(),
        cat(segs)[cat_off(segs, m) + x] == segs[m][x],
    decreases segs.len(),
{
    lemma_cat_off_step(segs, m);
    lemma_cat_off_le(segs, m + 1, segs.len() as int);
    lemma_cat_total_len(segs);
    if m == segs.len() - 1 {
        assert(segs.take(m) =~= segs.drop_last());
        assert(cat(segs) == cat(segs.drop_last()) + segs.last());
    } else {
        let d = segs.drop_last();
        assert(d.take(m) =~= segs.take(m));
        assert(d[m] == segs[m]);
        lemma_cat_at(d, m, x);
        lemma_cat_off_le(d, m + 1, d.len() as int);
        lemma_cat_total_len(d);
        lemma_cat_off_step(d, m);
        assert(d.take(m + 1) =~= segs.take(m + 1));
        assert(cat(segs) == cat(d) + segs.last());
        assert(cat(segs)[cat_off(segs, m) + x] == cat(d)[cat_off(d, m) + x]);
    }
}

} // verus!
