//! Index arithmetic of the grain voices: window-table lookup of the Q20.12 window
//! phase and the neighbour sample for linear interpolation.

use vstd::prelude::*;
use crate::config::WIN_TAB;

verus! {

/// Fractional bits of a grain's fixed-point window phase.
pub const WIN_FRAC_BITS: u32 = 12;

/// Window-table slot for a Q20.12 window phase: its integer part, held at the last slot.
pub fn window_index(q: u32) -> (i: usize)
    ensures
        i == if q / 4096 < WIN_TAB { q / 4096 } else { (WIN_TAB - 1) as u32 },
        i < WIN_TAB,
{
    let whole = q >> WIN_FRAC_BITS;
    proof {
        assert(q >> 12u32 == q / 4096) by (bit_vector);
    }
    let i = whole as usize;
    if i < WIN_TAB - 1 {
        i
    } else {
        WIN_TAB - 1
    }
}

/// Second interpolation point for source position `i0`: the next sample, held at
/// the last sample of a source of `len` samples.
pub fn interp_neighbor(i0: usize, len: usize) -> (i1: usize)
    requires
        i0 < len,
    ensures
        i1 == if i0 + 1 < len { i0 + 1 } else { len - 1 },
        i1 < len,
{
    let next = i0 + 1;
    let last = len - 1;
    if next < last {
        next
    } else {
        last
    }
}

} // verus!
