//! A small task-based bytecode virtual machine: instructions are decoded from
//! the top of a byte stack, operate on a cursor-relative register stage, and
//! tasks are spread over workers by a scheduler.
use vstd::prelude::*;

pub mod op;
pub mod runtime;
pub mod task;
pub mod worker;
pub mod natives;

verus! {

} // verus!
