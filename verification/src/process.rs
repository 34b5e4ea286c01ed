//! Process control blocks.
//!
//! Each process owns a slot in the fixed-capacity process table: an
//! identifier, a run state, the saved stack pointer (meaningful only
//! while the process is not running), the physical root address of its
//! page table, and a dedicated kernel stack. The stack is modelled as a
//! vector of 32-bit words, with the stack pointer an index into it;
//! stacks grow towards lower indices.

use vstd::prelude::*;

use crate::common::VAddr;
use crate::paging::PageTable;

verus! {

/// Capacity of the process table.
pub const PROCS_MAX: u32 = 8;

/// State of a slot that has never been given to a process.
pub const PROC_UNUSED: u32 = 0;

/// State of a process that can be scheduled.
pub const PROC_RUNNABLE: u32 = 1;

/// Size of each kernel stack, in 32-bit words (8 KiB).
pub const STACK_WORDS: u32 = 2048;

/// One process control block.
pub struct Process {
    /// Process id: 0 in an unused slot, positive for a normal process,
    /// -1 for the idle process.
    pub pid: i32,
    /// Run state; one of `PROC_UNUSED`, `PROC_RUNNABLE`.
    pub state: u32,
    /// Saved stack pointer, as a word index into `stack`; meaningful only
    /// while the process is not running.
    pub sp: VAddr,
    /// Physical address of the root of this process's page table.
    pub page_table: u32,
    /// The dedicated kernel stack, word-addressed, growing downwards.
    pub stack: Vec<u32>,
    /// The page table built for this process at creation.
    pub address_space: Option<PageTable>,
}

impl Process {
    /// An empty control block: unused, with a zeroed stack and no address
    /// space.
    pub fn new() -> (p: Process)
        ensures
            p.pid == 0,
            p.state == PROC_UNUSED,
            p.sp == 0,
            p.page_table == 0,
            p.stack@.len() == STACK_WORDS,
            forall|i: int| 0 <= i < p.stack@.len() ==> p.stack@[i] == 0,
            p.address_space is None,
    {
        Process {
            pid: 0,
            state: PROC_UNUSED,
            sp: 0,
            page_table: 0,
            stack: vec![0u32; STACK_WORDS as usize],
            address_space: None,
        }
    }

    pub fn set_pid(&mut self, pid: i32)
        ensures
            *final(self) == (Process { pid, ..*old(self) }),
    {
        self.pid = pid;
    }

    pub fn set_state(&mut self, state: u32)
        ensures
            *final(self) == (Process { state, ..*old(self) }),
    {
        self.state = state;
    }

    pub fn set_sp(&mut self, sp: VAddr)
        ensures
            *final(self) == (Process { sp, ..*old(self) }),
    {
        self.sp = sp;
    }

    pub fn set_page_table(&mut self, page_table: u32)
        ensures
            *final(self) == (Process { page_table, ..*old(self) }),
    {
        self.page_table = page_table;
    }
}

/// Two control blocks compare equal on id, state, stack pointer and
/// stack contents; the page-table fields do not enter the comparison.
impl PartialEq for Process {
    fn eq(&self, other: &Self) -> (r: bool) {
        let r = self.pid == other.pid && self.state == other.state && self.sp == other.sp
            && self.stack == other.stack;
        proof {
            if self.stack@.len() == other.stack@.len() && (forall|i: int|
                0 <= i < self.stack@.len() ==> self.stack@[i] == other.stack@[i]) {
                assert(self.stack@ =~= other.stack@);
            }
        }
        r
    }
}

impl Eq for Process {

}

impl vstd::std_specs::cmp::PartialEqSpecImpl for Process {
    open spec fn obeys_eq_spec() -> bool {
        true
    }

    open spec fn eq_spec(&self, other: &Self) -> bool {
        &&& self.pid == other.pid
        &&& self.state == other.state
        &&& self.sp == other.sp
        &&& self.stack@ == other.stack@
    }
}

} // verus!
