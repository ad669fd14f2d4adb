//! Small integer helpers shared by the geometry code, each with the
//! mathematical meaning it computes.
use vstd::prelude::*;

verus! {

pub open spec fn spec_max(a: int, b: int) -> int {
    if a >= b { a } else { b }
}

pub open spec fn spec_min(a: int, b: int) -> int {
    if a <= b { a } else { b }
}

/// `a + b` saturated at `u32::MAX`.
pub open spec fn sat_add_u32(a: u32, b: u32) -> u32 {
    if a + b > u32::MAX { u32::MAX } else { (a + b) as u32 }
}

/// `a - b` saturated at zero.
pub open spec fn sat_sub_u32(a: u32, b: u32) -> u32 {
    if a >= b { (a - b) as u32 } else { 0 }
}

/// `a * b` saturated at `u32::MAX`.
pub open spec fn sat_mul_u32(a: u32, b: u32) -> u32 {
    if a * b > u32::MAX { u32::MAX } else { (a * b) as u32 }
}

/// `a * b` saturated at `usize::MAX`.
pub open spec fn sat_mul_usize(a: usize, b: usize) -> usize {
    if a * b > usize::MAX { usize::MAX } else { (a * b) as usize }
}

pub fn max_u32(a: u32, b: u32) -> (r: u32)
    ensures
        r == spec_max(a as int, b as int),
{
    if a >= b { a } else { b }
}

pub fn min_u32(a: u32, b: u32) -> (r: u32)
    ensures
        r == spec_min(a as int, b as int),
{
    if a <= b { a } else { b }
}

pub fn saturating_mul_u32(a: u32, b: u32) -> (r: u32)
    ensures
        r == sat_mul_u32(a, b),
{
    match a.checked_mul(b) {
        Some(v) => v,
        None => u32::MAX,
    }
}

pub fn saturating_mul_usize(a: usize, b: usize) -> (r: usize)
    ensures
        r == sat_mul_usize(a, b),
{
    match a.checked_mul(b) {
        Some(v) => v,
        None => usize::MAX,
    }
}

} // verus!
