//! Foreign functions that a program may register for its bytecode.
use vstd::prelude::*;
use std::sync::Arc;

use crate::runtime::ConstantTable;

verus! {

/// `1` when `a < b`, else `0`.
pub fn ff_less_than(a: u32, b: u32, _constants: Arc<ConstantTable>) -> (r: u32)
    ensures
        r == (if a < b { 1u32 } else { 0u32 }),
{
    if a < b {
        1
    } else {
        0
    }
}

/// The sum of `a` and `b`.
pub fn ff_add(a: u32, b: u32, _constants: Arc<ConstantTable>) -> (r: u32)
    requires
        a + b <= u32::MAX,
    ensures
        r == a + b,
{
    a + b
}

/// `a` minus `b`.
pub fn ff_sub(a: u32, b: u32, _constants: Arc<ConstantTable>) -> (r: u32)
    requires
        a >= b,
    ensures
        r == a - b,
{
    a - b
}

} // verus!
