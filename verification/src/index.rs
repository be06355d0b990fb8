//! Index primitives: the reserved sentinel index and checked range construction.

use vstd::prelude::*;

verus! {

/// Sentinel stored in any 24-bit payload or 32-bit index field to mean "no index".
pub const INVALID_INDEX: u32 = 0x00FF_FFFF;

/// The sequence of indices `start..start + count` denotes, after the sentinel
/// check: a range whose end would reach the sentinel is empty.
pub open spec fn spec_checked_range(start: u32, count: u32) -> Seq<u32> {
    if start + count >= INVALID_INDEX {
        Seq::empty()
    } else {
        Seq::new(count as nat, |i: int| (start + i) as u32)
    }
}

/// Where a checked range begins: the start itself, or zero when the range is
/// empty because its end would reach the sentinel.
pub open spec fn spec_checked_start(start: u32, count: u32) -> int {
    if start + count >= INVALID_INDEX {
        0
    } else {
        start as int
    }
}

/// Checked start+count -> range: empty whenever the end would reach the sentinel.
pub fn checked_range(start: u32, count: u32) -> (r: core::ops::Range<u32>)
    ensures
        r.end >= r.start,
        r.start == if start + count >= INVALID_INDEX { 0u32 } else { start },
        r.end == if start + count >= INVALID_INDEX { 0u32 } else { (start + count) as u32 },
        forall|i: int| 0 <= i < spec_checked_range(start, count).len()
            ==> spec_checked_range(start, count)[i] == r.start + i,
        r.end - r.start == spec_checked_range(start, count).len(),
{
    if start as u64 + count as u64 >= INVALID_INDEX as u64 {
        0u32..0u32
    } else {
        start..start + count
    }
}

} // verus!
