//! A verified model of a minimal cooperative-multitasking kernel for a
//! 32-bit machine with paged virtual memory.
//!
//! The crate covers four subsystems: a monotonic physical page allocator,
//! two-level page-table construction and translation, a fixed-capacity
//! process table with cooperative round-robin scheduling, and the
//! register save/restore mechanics of context switches and traps.
//! Hardware-facing pieces (privileged registers, firmware calls, register
//! spills) are modelled as explicit state so that every transition can be
//! specified and proved.

use vstd::prelude::*;

pub mod common;
pub mod context;
pub mod memory;
pub mod paging;
pub mod process;
pub mod sbi;
pub mod sched;
pub mod trap;

verus! {

/// The fatal error conditions of the kernel. Nothing recovers from these:
/// a real kernel halts, so every entry point reports them explicitly.
#[derive(Clone, Copy, Debug, PartialEq, Eq, Structural)]
pub enum KernelError {
    /// The physical page pool is exhausted.
    OutOfMemory,
    /// The process table has no unused slot left.
    NoFreeSlot,
}

} // verus!
