//! Small shared helpers.

use vstd::prelude::*;

verus! {

/// Fold a phase value from `0..512` into a channel value that slides up from
/// `0` to `255` and back down again.
pub fn compute_sliding(pre_val: u32) -> (r: u8)
    requires
        pre_val < 512,
    ensures
        r as int == if pre_val < 256 {
            pre_val as int
        } else {
            511 - pre_val as int
        },
{
    if pre_val < 256 {
        pre_val as u8
    } else {
        (511 - pre_val) as u8
    }
}

} // verus!
