//! Exact results and the 32-bit range.

use vstd::prelude::*;
use crate::error::CalcError;

verus! {

/// The 32-bit result that stands for the exact value `v`: `v` itself where
/// it lies in the 32-bit signed range, `Overflow` where it does not.
pub open spec fn narrow(v: int) -> Result<i32, CalcError> {
    if i32::MIN <= v <= i32::MAX {
        Ok(v as i32)
    } else {
        Err(CalcError::Overflow)
    }
}

/// Brings a wide accumulator down to the 32-bit result.
pub fn narrow_to_i32(v: i128) -> (r: Result<i32, CalcError>)
    ensures
        r == narrow(v as int),
{
    if v < -0x8000_0000 || v > 0x7fff_ffff {
        Err(CalcError::Overflow)
    } else {
        Ok(v as i32)
    }
}

} // verus!
