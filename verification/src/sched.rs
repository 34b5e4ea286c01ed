//! The kernel state and the cooperative scheduler.
//!
//! The kernel owns the process table, the physical allocator, the saved
//! register set of the running context, and the model of the privileged
//! registers that scheduling reprograms: the active translation root and
//! the trap-stack slot. Scheduling is purely cooperative: a process gives
//! up the processor only by an explicit yield, which scans the table
//! round-robin from the slot after the current one, falls back to the
//! idle process, and performs the page-table install and context switch
//! when the choice differs from the current process.

use vstd::prelude::*;

use crate::KernelError;
use crate::common::PAddr;
use crate::context::{CONTEXT_WORDS, CalleeSaved, frame_at, pushed, spec_zeroed};
use crate::memory::{PAGE_SIZE, PageAllocator};
use crate::paging::{PAGE_R, PAGE_W, PAGE_X, PageTable, Pte, vpn, vpn1};
use crate::process::{PROC_RUNNABLE, PROC_UNUSED, PROCS_MAX, Process, STACK_WORDS};

verus! {

use vstd::pervasive::VecAdditionalExecFns;

/// Value of the translation-control register selecting paged translation;
/// the root page number is or-ed into its low bits.
pub const SATP_SV32: u32 = 0x80000000;

/// Permissions of the kernel's identity mapping: the whole kernel region
/// stays readable, writable and executable in every address space.
pub const KERNEL_PAGE_FLAGS: u32 = PAGE_R | PAGE_W | PAGE_X;

/// Whether slot `i` holds a process the scan may select: runnable with a
/// strictly positive id (the idle process, id -1, is never selected by
/// the scan).
pub open spec fn runnable_worker(procs: Seq<Process>, i: int) -> bool {
    &&& 0 <= i < procs.len()
    &&& procs[i].state == PROC_RUNNABLE
    &&& procs[i].pid > 0
}

/// The slot visited at step `k` of a scan that starts just after
/// `current` and wraps around the table once.
pub open spec fn scan_slot(current: int, k: int, n: int) -> int {
    (current + 1 + k) % n
}

/// The first runnable worker the scan finds from step `k` on, or slot 0
/// (the idle process) if the remaining steps find none.
pub open spec fn scan_from(procs: Seq<Process>, current: int, k: int) -> int
    decreases procs.len() - k,
{
    if k < 0 || k >= procs.len() {
        0
    } else if runnable_worker(procs, scan_slot(current, k, procs.len() as int)) {
        scan_slot(current, k, procs.len() as int)
    } else {
        scan_from(procs, current, k + 1)
    }
}

/// The slot the scheduler selects when yielding from `current`: the first
/// runnable worker in cyclic scan order after `current`, or the idle slot
/// when there is none.
pub open spec fn pick_spec(procs: Seq<Process>, current: int) -> int {
    scan_from(procs, current, 0)
}

/// Number of second-level tables the identity mapping of
/// `[base, end)` occupies.
pub open spec fn table_count(base: PAddr, end: PAddr) -> int {
    if base < end {
        (vpn(end) - 1) / 1024 - vpn1(base) + 1
    } else {
        0
    }
}

/// Number of pages building a fresh page table with the kernel identity
/// mapping consumes: one root page plus the second-level tables.
pub open spec fn pages_needed(base: PAddr, end: PAddr) -> int {
    1 + table_count(base, end)
}

/// The identity mapping of the kernel region: every virtual page of
/// `[base, end)` maps to the equal physical page with full permissions.
pub open spec fn kernel_identity_map(base: PAddr, end: PAddr) -> Map<int, Pte> {
    Map::new(
        |vp: int| vpn(base) <= vp < vpn(end),
        |vp: int| Pte { ppn: vp as u32, flags: KERNEL_PAGE_FLAGS },
    )
}

/// The kernel: configuration, allocator, process table, scheduler state,
/// and the modelled privileged registers.
pub struct Kernel {
    /// Start of the kernel image; the identity mapping covers from here
    /// to the end of physical memory.
    pub kernel_base: PAddr,
    /// The physical page allocator.
    pub allocator: PageAllocator,
    /// The fixed-capacity process table; slot 0 holds the idle process.
    pub procs: Vec<Process>,
    /// Slot of the process currently holding the processor.
    pub current: usize,
    /// Modelled translation-control register: the active root, as
    /// programmed on the last switch.
    pub satp: u32,
    /// Modelled trap-scratch register: the slot whose trap stack the trap
    /// entry path would use.
    pub trap_stack_slot: usize,
    /// The callee-saved registers of the running context.
    pub cpu: CalleeSaved,
}

impl Kernel {
    /// Validity of the kernel state: the table has its fixed size, slot 0
    /// holds the always-runnable idle process, used slots carry the id
    /// their position determines, and every switchable stack pointer has
    /// room for a context frame.
    pub open spec fn wf(self) -> bool {
        &&& self.allocator.wf()
        &&& self.kernel_base % PAGE_SIZE == 0
        &&& self.kernel_base <= self.allocator.ram_end
        &&& self.procs@.len() == PROCS_MAX
        &&& self.current < PROCS_MAX
        &&& forall|i: int|
            0 <= i < PROCS_MAX ==> (#[trigger] self.procs@[i]).stack@.len() == STACK_WORDS
        &&& self.procs@[0].pid == -1
        &&& self.procs@[0].state == PROC_RUNNABLE
        &&& forall|i: int|
            1 <= i < PROCS_MAX && (#[trigger] self.procs@[i]).state != PROC_UNUSED
                ==> self.procs@[i].pid == i + 1
        &&& CONTEXT_WORDS <= self.procs@[self.current as int].sp
        &&& self.procs@[self.current as int].sp <= STACK_WORDS
        &&& forall|i: int|
            0 <= i < PROCS_MAX && i != self.current && (#[trigger] self.procs@[i]).state
                == PROC_RUNNABLE ==> self.procs@[i].sp + CONTEXT_WORDS <= STACK_WORDS
    }

    /// The round-robin scan: starting just after the current slot and
    /// wrapping exactly once around the table, returns the first slot
    /// holding a runnable process with a positive id, or the idle slot
    /// when no such slot exists.
    fn pick_next(&self) -> (r: usize)
        requires
            self.procs@.len() == PROCS_MAX,
            self.current < PROCS_MAX,
        ensures
            r as int == pick_spec(self.procs@, self.current as int),
            r < PROCS_MAX,
            runnable_worker(self.procs@, r as int) || r == 0,
    {
        let n = self.procs.len();
        let mut k: usize = 0;
        while k < n
            invariant
                n == self.procs@.len(),
                n == PROCS_MAX,
                self.current < n,
                k <= n,
                scan_from(self.procs@, self.current as int, 0) == scan_from(
                    self.procs@,
                    self.current as int,
                    k as int,
                ),
            decreases n - k,
        {
            let idx = (self.current + 1 + k) % n;
            let p = &self.procs[idx];
            if p.state == PROC_RUNNABLE && p.pid > 0 {
                return idx;
            }
            k += 1;
        }
        0
    }

    /// Brings the kernel from reset to a schedulable state: sets up the
    /// allocator over the free physical region, fills the process table
    /// with unused slots, creates the idle process (id -1) in slot 0 with
    /// `idle_entry` as its entry point, and makes it the current process.
    /// Fails exactly when the free region cannot hold the idle process's
    /// page table.
    pub fn boot(
        kernel_base: PAddr,
        free_ram_start: PAddr,
        free_ram_end: PAddr,
        idle_entry: u32,
    ) -> (r: Result<Kernel, KernelError>)
        requires
            kernel_base % PAGE_SIZE == 0,
            free_ram_start % PAGE_SIZE == 0,
            free_ram_end % PAGE_SIZE == 0,
            free_ram_start <= free_ram_end,
            kernel_base <= free_ram_end,
        ensures
            r is Ok <==> free_ram_start + pages_needed(kernel_base, free_ram_end) * PAGE_SIZE
                <= free_ram_end,
            match r {
                Ok(k) => {
                    &&& k.wf()
                    &&& k.kernel_base == kernel_base
                    &&& k.allocator.ram_end == free_ram_end
                    &&& k.current == 0
                    &&& k.satp == 0
                    &&& k.trap_stack_slot == 0
                    &&& k.cpu == spec_zeroed()
                    &&& k.procs@[0].pid == -1
                    &&& k.procs@[0].state == PROC_RUNNABLE
                    &&& k.procs@[0].sp == STACK_WORDS - CONTEXT_WORDS
                    &&& k.procs@[0].stack@[STACK_WORDS - CONTEXT_WORDS] == idle_entry
                    &&& k.procs@[0].page_table == free_ram_start
                    &&& (k.procs@[0].address_space matches Some(pt) && pt.wf() && pt@
                        == kernel_identity_map(kernel_base, free_ram_end))
                    &&& forall|j: int|
                        1 <= j < PROCS_MAX ==> (#[trigger] k.procs@[j]).state == PROC_UNUSED
                },
                Err(e) => e == KernelError::OutOfMemory,
            },
    {
        let allocator = PageAllocator::new(free_ram_start, free_ram_end);
        let mut procs: Vec<Process> = Vec::new();
        let mut j: usize = 0;
        while j < PROCS_MAX as usize
            invariant
                j <= PROCS_MAX,
                procs@.len() == j,
                forall|t: int|
                    0 <= t < j ==> {
                        let p = #[trigger] procs@[t];
                        &&& p.state == PROC_UNUSED
                        &&& p.pid == 0
                        &&& p.stack@.len() == STACK_WORDS
                    },
            decreases PROCS_MAX - j,
        {
            procs.push(Process::new());
            j += 1;
        }
        let mut kernel = Kernel {
            kernel_base,
            allocator,
            procs,
            current: 0,
            satp: 0,
            trap_stack_slot: 0,
            cpu: CalleeSaved::zeroed(),
        };
        match kernel.create_process(idle_entry) {
            Ok(slot) => {
                proof {
                    assert(slot == 0);
                }
                let p = &mut kernel.procs[0];
                p.set_pid(-1);
                Ok(kernel)
            },
            Err(e) => {
                proof {
                    assert(kernel.procs@[0].state == PROC_UNUSED);
                    assert(e != KernelError::NoFreeSlot);
                }
                Err(e)
            },
        }
    }

    /// Creates a process that will first resume at entry point `pc`.
    ///
    /// Takes the first unused slot of the table, synthesizes a saved
    /// context frame on its stack so that a future switch into the slot
    /// starts at `pc` with zeroed callee-saved registers, builds a fresh
    /// page table carrying the kernel identity mapping, and marks the
    /// slot runnable with the id its position determines. Fails exactly
    /// when the table is full, or when the allocator cannot provide the
    /// root page and the second-level tables the identity mapping needs.
    pub fn create_process(&mut self, pc: u32) -> (r: Result<usize, KernelError>)
        requires
            old(self).allocator.wf(),
            old(self).kernel_base % PAGE_SIZE == 0,
            old(self).kernel_base <= old(self).allocator.ram_end,
            old(self).procs@.len() == PROCS_MAX,
            forall|i: int|
                0 <= i < PROCS_MAX ==> (#[trigger] old(self).procs@[i]).stack@.len()
                    == STACK_WORDS,
        ensures
            final(self).kernel_base == old(self).kernel_base,
            final(self).current == old(self).current,
            final(self).satp == old(self).satp,
            final(self).trap_stack_slot == old(self).trap_stack_slot,
            final(self).cpu == old(self).cpu,
            final(self).allocator.wf(),
            final(self).allocator.ram_end == old(self).allocator.ram_end,
            final(self).allocator.next_paddr >= old(self).allocator.next_paddr,
            final(self).procs@.len() == PROCS_MAX,
            r is Ok <==> ((exists|j: int|
                0 <= j < PROCS_MAX && (#[trigger] old(self).procs@[j]).state == PROC_UNUSED)
                && old(self).allocator.next_paddr + pages_needed(
                old(self).kernel_base,
                old(self).allocator.ram_end,
            ) * PAGE_SIZE <= old(self).allocator.ram_end),
            r == Err::<usize, KernelError>(KernelError::NoFreeSlot) <==> (forall|j: int|
                0 <= j < PROCS_MAX ==> (#[trigger] old(self).procs@[j]).state != PROC_UNUSED),
            r is Err ==> final(self).procs@ == old(self).procs@,
            r == Err::<usize, KernelError>(KernelError::NoFreeSlot) ==> final(self).allocator
                == old(self).allocator,
            match r {
                Ok(i) => {
                    let p = final(self).procs@[i as int];
                    &&& i < PROCS_MAX
                    &&& old(self).procs@[i as int].state == PROC_UNUSED
                    &&& (forall|j: int|
                        0 <= j < i ==> (#[trigger] old(self).procs@[j]).state != PROC_UNUSED)
                    &&& (forall|j: int|
                        0 <= j < PROCS_MAX && j != i ==> final(self).procs@[j] == old(
                            self,
                        ).procs@[j])
                    &&& p.pid == i + 1
                    &&& p.state == PROC_RUNNABLE
                    &&& p.sp == STACK_WORDS - CONTEXT_WORDS
                    &&& p.stack@.len() == STACK_WORDS
                    &&& p.stack@[STACK_WORDS - CONTEXT_WORDS] == pc
                    &&& (forall|k: int|
                        STACK_WORDS - CONTEXT_WORDS < k < STACK_WORDS ==> p.stack@[k] == 0)
                    &&& (forall|k: int|
                        0 <= k < STACK_WORDS - CONTEXT_WORDS ==> p.stack@[k] == old(
                            self,
                        ).procs@[i as int].stack@[k])
                    &&& p.page_table == old(self).allocator.next_paddr
                    &&& p.address_space matches Some(pt) && pt.wf() && pt.root_paddr
                        == p.page_table && pt@ == kernel_identity_map(
                        old(self).kernel_base,
                        old(self).allocator.ram_end,
                    )
                    &&& final(self).allocator.next_paddr == old(self).allocator.next_paddr
                        + pages_needed(old(self).kernel_base, old(self).allocator.ram_end)
                        * PAGE_SIZE
                },
                Err(_) => true,
            },
    {
        let n = self.procs.len();
        let mut i: usize = 0;
        while i < n && self.procs[i].state != PROC_UNUSED
            invariant
                n == self.procs@.len(),
                i <= n,
                forall|j: int| 0 <= j < i ==> (#[trigger] self.procs@[j]).state != PROC_UNUSED,
            decreases n - i,
        {
            i += 1;
        }
        if i == n {
            return Err(KernelError::NoFreeSlot);
        }
        let ghost kb = self.kernel_base;
        let ghost base_next = self.allocator.next_paddr;
        let ghost ram_end = self.allocator.ram_end;
        let mut pt = match PageTable::new(&mut self.allocator) {
            Ok(pt) => pt,
            Err(e) => {
                proof {
                    lemma_pages_needed_pos(kb, ram_end);
                    assert(pages_needed(kb, ram_end) * PAGE_SIZE >= 1 * PAGE_SIZE)
                        by (nonlinear_arith)
                        requires
                            pages_needed(kb, ram_end) >= 1,
                    ;
                }
                return Err(e);
            },
        };
        let ghost root_paddr = pt.root_paddr;
        let end = self.allocator.ram_end;
        let mut paddr = self.kernel_base;
        proof {
            assert(pt@ =~= kernel_identity_map(kb, kb));
        }
        while paddr < end
            invariant
                kb == old(self).kernel_base,
                ram_end == old(self).allocator.ram_end,
                base_next == old(self).allocator.next_paddr,
                old(self).procs@.len() == PROCS_MAX,
                i < PROCS_MAX,
                old(self).procs@[i as int].state == PROC_UNUSED,
                forall|j: int| 0 <= j < i ==> (#[trigger] old(self).procs@[j]).state != PROC_UNUSED,
                self.kernel_base == kb,
                kb % PAGE_SIZE == 0,
                paddr % PAGE_SIZE == 0,
                kb <= paddr,
                paddr <= end,
                end == ram_end,
                self.allocator.wf(),
                self.allocator.ram_end == end,
                self.allocator.next_paddr == base_next + PAGE_SIZE * (1 + table_count(kb, paddr)),
                pt.wf(),
                pt.root_paddr == root_paddr,
                pt@ == kernel_identity_map(kb, paddr),
                forall|s: int|
                    0 <= s < 1024 ==> ((#[trigger] pt.root@[s]) is Some <==> (kb < paddr && vpn1(
                        kb,
                    ) <= s <= (vpn(paddr) - 1) / 1024)),
                self.procs@ == old(self).procs@,
                self.current == old(self).current,
                self.satp == old(self).satp,
                self.trap_stack_slot == old(self).trap_stack_slot,
                self.cpu == old(self).cpu,
            decreases end - paddr,
        {
            proof {
                lemma_aligned_lt_step(paddr as int, end as int, PAGE_SIZE as int);
                lemma_map_step(kb, paddr);
            }
            match pt.create_mapping(&mut self.allocator, paddr, paddr, KERNEL_PAGE_FLAGS) {
                Ok(()) => {},
                Err(e) => {
                    proof {
                        lemma_table_count_monotone(kb, (paddr + PAGE_SIZE) as u32, ram_end);
                        assert(base_next + PAGE_SIZE * (1 + table_count(kb, ram_end)) > ram_end)
                            by (nonlinear_arith)
                            requires
                                table_count(kb, ram_end) >= 1 + table_count(kb, paddr),
                                base_next + PAGE_SIZE * (1 + table_count(kb, paddr)) + PAGE_SIZE
                                    > ram_end,
                                PAGE_SIZE > 0,
                        ;
                    }
                    return Err(e);
                },
            }
            proof {
                assert(pt@ =~= kernel_identity_map(kb, (paddr + PAGE_SIZE) as u32));
            }
            paddr = paddr + PAGE_SIZE;
        }
        let base = (STACK_WORDS - CONTEXT_WORDS) as usize;
        let root = pt.root_paddr;
        let pid = (i as i32) + 1;
        let p = &mut self.procs[i];
        p.stack.set(base, pc);
        p.stack.set(base + 1, 0);
        p.stack.set(base + 2, 0);
        p.stack.set(base + 3, 0);
        p.stack.set(base + 4, 0);
        p.stack.set(base + 5, 0);
        p.stack.set(base + 6, 0);
        p.stack.set(base + 7, 0);
        p.stack.set(base + 8, 0);
        p.stack.set(base + 9, 0);
        p.stack.set(base + 10, 0);
        p.stack.set(base + 11, 0);
        p.stack.set(base + 12, 0);
        p.set_pid(pid);
        p.set_state(PROC_RUNNABLE);
        p.set_sp(STACK_WORDS - CONTEXT_WORDS);
        p.set_page_table(root);
        p.address_space = Some(pt);
        Ok(i)
    }

    /// Cooperative yield. Selects the next process by the round-robin
    /// scan; if the choice is the current process itself this is a no-op
    /// (no page-table reprogram, no stack-pointer mutation). Otherwise it
    /// installs the choice's translation root, points the trap-stack
    /// register at its slot, publishes it as current, and switches
    /// register contexts.
    pub fn yield_now(&mut self)
        requires
            old(self).wf(),
        ensures
            final(self).wf(),
            ({
                let pick = pick_spec(old(self).procs@, old(self).current as int);
                &&& (pick == old(self).current as int ==> *final(self) == *old(self))
                &&& (pick != old(self).current as int ==> {
                    let cur = old(self).current as int;
                    let prev = old(self).procs@[cur];
                    let next = old(self).procs@[pick];
                    &&& final(self).current == pick
                    &&& final(self).satp == SATP_SV32 | next.page_table / PAGE_SIZE
                    &&& final(self).trap_stack_slot == pick
                    &&& final(self).cpu == frame_at(next.stack@, next.sp as int)
                    &&& final(self).procs@.len() == old(self).procs@.len()
                    &&& final(self).procs@[cur] == (Process {
                        sp: (prev.sp - CONTEXT_WORDS) as u32,
                        stack: final(self).procs@[cur].stack,
                        ..prev
                    })
                    &&& final(self).procs@[cur].stack@ == pushed(
                        prev.stack@,
                        prev.sp as int,
                        old(self).cpu,
                    )
                    &&& final(self).procs@[pick] == (Process {
                        sp: (next.sp + CONTEXT_WORDS) as u32,
                        ..next
                    })
                    &&& forall|i: int|
                        0 <= i < old(self).procs@.len() && i != cur && i != pick
                            ==> final(self).procs@[i] == old(self).procs@[i]
                    &&& final(self).allocator == old(self).allocator
                    &&& final(self).kernel_base == old(self).kernel_base
                })
            }),
            forall|i: int|
                0 <= i < old(self).procs@.len() ==> (#[trigger] final(self).procs@[i]).state
                    == old(self).procs@[i].state && final(self).procs@[i].pid == old(
                    self,
                ).procs@[i].pid,
    {
        let next = self.pick_next();
        if next == self.current {
            return ;
        }
        proof {
            assert(old(self).procs@[next as int].state == PROC_RUNNABLE);
            assert(old(self).procs@[next as int].sp + CONTEXT_WORDS <= STACK_WORDS);
        }
        let next_root = self.procs[next].page_table;
        self.satp = SATP_SV32 | next_root / PAGE_SIZE;
        self.trap_stack_slot = next;
        let cur = self.current;
        self.current = next;
        crate::context::save_context(&self.cpu, &mut self.procs[cur]);
        restore_into(&mut self.cpu, &mut self.procs, next);
        proof {
            assert(self.procs@[cur as int].stack@.len() == STACK_WORDS);
            assert forall|i: int|
                0 <= i < PROCS_MAX && i != self.current && (#[trigger] self.procs@[i]).state
                    == PROC_RUNNABLE implies self.procs@[i].sp + CONTEXT_WORDS
                <= STACK_WORDS by {
                if i == cur as int {
                    assert(old(self).procs@[i].sp <= STACK_WORDS);
                } else {
                    assert(self.procs@[i] == old(self).procs@[i]);
                }
            }
        }
    }
}

/// If `a` and `b` are both multiples of `d` and `a` is strictly below
/// `b`, then `a` is at least a whole step below `b`.
proof fn lemma_aligned_lt_step(a: int, b: int, d: int)
    requires
        d > 0,
        a % d == 0,
        b % d == 0,
        a < b,
    ensures
        a + d <= b,
{
    vstd::arithmetic::div_mod::lemma_fundamental_div_mod(a, d);
    vstd::arithmetic::div_mod::lemma_fundamental_div_mod(b, d);
    let qa = a / d;
    let qb = b / d;
    assert(qa < qb) by (nonlinear_arith)
        requires
            d * qa < d * qb,
            d > 0,
    ;
    assert(d * (qa + 1) <= d * qb) by (nonlinear_arith)
        requires
            qa + 1 <= qb,
            d > 0,
    ;
    assert(d * (qa + 1) == d * qa + d) by (nonlinear_arith);
}

/// Stepping an aligned address by one page raises its page number by
/// exactly one.
proof fn lemma_vpn_step(paddr: PAddr)
    requires
        paddr % PAGE_SIZE == 0,
        paddr + PAGE_SIZE <= u32::MAX,
    ensures
        vpn((paddr + PAGE_SIZE) as u32) == vpn(paddr) + 1,
{
    vstd::arithmetic::div_mod::lemma_fundamental_div_mod(paddr as int, PAGE_SIZE as int);
    let q = paddr as int / PAGE_SIZE as int;
    assert(paddr + PAGE_SIZE == (q + 1) * PAGE_SIZE) by (nonlinear_arith)
        requires
            paddr == PAGE_SIZE as int * q,
    ;
    vstd::arithmetic::div_mod::lemma_fundamental_div_mod_converse(
        paddr + PAGE_SIZE,
        PAGE_SIZE as int,
        q + 1,
        0,
    );
}

/// The identity mapping always needs at least its root page.
proof fn lemma_pages_needed_pos(base: PAddr, end: PAddr)
    requires
        base % PAGE_SIZE == 0,
        end % PAGE_SIZE == 0,
        base <= end,
    ensures
        table_count(base, end) >= 0,
        pages_needed(base, end) >= 1,
{
    if base < end {
        lemma_aligned_lt_step(base as int, end as int, PAGE_SIZE as int);
        lemma_vpn_step(base);
        vstd::arithmetic::div_mod::lemma_div_is_ordered(
            base as int + PAGE_SIZE as int,
            end as int,
            PAGE_SIZE as int,
        );
        vstd::arithmetic::div_mod::lemma_div_is_ordered(vpn(base), vpn(end) - 1, 1024);
    }
}

/// The identity mapping of a longer region needs at least as many
/// second-level tables.
proof fn lemma_table_count_monotone(base: PAddr, mid: u32, end: PAddr)
    requires
        base < mid <= end,
    ensures
        table_count(base, mid) <= table_count(base, end),
{
    vstd::arithmetic::div_mod::lemma_div_is_ordered(mid as int, end as int, PAGE_SIZE as int);
    vstd::arithmetic::div_mod::lemma_div_is_ordered(vpn(mid) - 1, vpn(end) - 1, 1024);
}

/// The facts one page step of the identity-mapping loop rests on: how
/// the page number advances, when the step's root slot is already
/// occupied, and how the table count grows.
proof fn lemma_map_step(base: PAddr, paddr: PAddr)
    requires
        base % PAGE_SIZE == 0,
        paddr % PAGE_SIZE == 0,
        base <= paddr,
        paddr + PAGE_SIZE <= u32::MAX,
    ensures
        vpn((paddr + PAGE_SIZE) as u32) == vpn(paddr) + 1,
        (vpn((paddr + PAGE_SIZE) as u32) - 1) / 1024 == vpn1(paddr),
        vpn1(base) <= vpn1(paddr),
        table_count(base, (paddr + PAGE_SIZE) as u32) == vpn1(paddr) - vpn1(base) + 1,
        base < paddr ==> vpn(base) < vpn(paddr),
        base < paddr && vpn(paddr) % 1024 != 0 ==> (vpn(paddr) - 1) / 1024 == vpn1(paddr),
        base < paddr && vpn(paddr) % 1024 == 0 ==> (vpn(paddr) - 1) / 1024 == vpn1(paddr) - 1,
{
    lemma_vpn_step(paddr);
    vstd::arithmetic::div_mod::lemma_div_is_ordered(base as int, paddr as int, PAGE_SIZE as int);
    vstd::arithmetic::div_mod::lemma_div_is_ordered(vpn(base), vpn(paddr), 1024);
    if base < paddr {
        lemma_aligned_lt_step(base as int, paddr as int, PAGE_SIZE as int);
        lemma_vpn_step(base);
        vstd::arithmetic::div_mod::lemma_div_is_ordered(
            base as int + PAGE_SIZE as int,
            paddr as int,
            PAGE_SIZE as int,
        );
        lemma_div_step(vpn(paddr), 1024);
    }
}

/// How integer division by `d` moves when its argument steps down by
/// one: it drops exactly at the multiples of `d`.
proof fn lemma_div_step(a: int, d: int)
    requires
        d > 0,
        a >= 1,
    ensures
        a % d == 0 ==> a / d == (a - 1) / d + 1,
        a % d != 0 ==> a / d == (a - 1) / d,
{
    vstd::arithmetic::div_mod::lemma_fundamental_div_mod(a, d);
    let q = a / d;
    let r = a % d;
    if r == 0 {
        assert(a - 1 == (q - 1) * d + (d - 1)) by (nonlinear_arith)
            requires
                a == d * q,
        ;
        vstd::arithmetic::div_mod::lemma_fundamental_div_mod_converse(a - 1, d, q - 1, d - 1);
    } else {
        assert(a - 1 == q * d + (r - 1)) by (nonlinear_arith)
            requires
                a == d * q + r,
        ;
        vstd::arithmetic::div_mod::lemma_fundamental_div_mod_converse(a - 1, d, q, r - 1);
    }
}

/// The set of slots holding runnable workers.
pub open spec fn workers(procs: Seq<Process>) -> Set<int> {
    Set::new(|i: int| runnable_worker(procs, i))
}

/// The slot that holds the processor after `j` successive yields from
/// `c0`, with the table's states and ids unchanged in between (as the
/// yield contract guarantees).
pub open spec fn orbit(procs: Seq<Process>, c0: int, j: nat) -> int
    decreases j,
{
    if j == 0 {
        c0
    } else {
        pick_spec(procs, orbit(procs, c0, (j - 1) as nat))
    }
}

/// Cyclic distance from `c` to `i` in a table of `n` slots: the scan
/// step at which a scan starting after `c` reaches `i`.
pub open spec fn scan_dist(c: int, i: int, n: int) -> int {
    (i - c - 1) % n
}

/// Scan step `k` from `c` lands on a slot whose distance from `c` is
/// exactly `k`.
proof fn lemma_scan_dist_of_slot(c: int, k: int, n: int)
    requires
        0 <= c < n,
        0 <= k < n,
    ensures
        0 <= scan_slot(c, k, n) < n,
        scan_dist(c, scan_slot(c, k, n), n) == k,
{
    vstd::arithmetic::div_mod::lemma_mod_bound(c + 1 + k, n);
    vstd::arithmetic::div_mod::lemma_fundamental_div_mod(c + 1 + k, n);
    let q = (c + 1 + k) / n;
    let s = scan_slot(c, k, n);
    assert(n * (-q) == -(n * q)) by (nonlinear_arith);
    assert(s - c - 1 == n * (-q) + k);
    vstd::arithmetic::div_mod::lemma_mod_multiples_vanish(-q, k, n);
    vstd::arithmetic::div_mod::lemma_small_mod(k as nat, n as nat);
}

/// Every slot is reached at the scan step its distance gives; the
/// current slot itself is reached last.
proof fn lemma_slot_of_scan_dist(c: int, r: int, n: int)
    requires
        0 <= c < n,
        0 <= r < n,
    ensures
        0 <= scan_dist(c, r, n) < n,
        scan_slot(c, scan_dist(c, r, n), n) == r,
        r == c ==> scan_dist(c, r, n) == n - 1,
{
    vstd::arithmetic::div_mod::lemma_mod_bound(r - c - 1, n);
    vstd::arithmetic::div_mod::lemma_fundamental_div_mod(r - c - 1, n);
    let q = (r - c - 1) / n;
    let d = scan_dist(c, r, n);
    assert(n * (-q) == -(n * q)) by (nonlinear_arith);
    assert(c + 1 + d == n * (-q) + r);
    vstd::arithmetic::div_mod::lemma_mod_multiples_vanish(-q, r, n);
    vstd::arithmetic::div_mod::lemma_small_mod(r as nat, n as nat);
    if r == c {
        assert(-1 == n * (-1) + (n - 1));
        vstd::arithmetic::div_mod::lemma_mod_multiples_vanish(-1, n - 1, n);
        vstd::arithmetic::div_mod::lemma_small_mod((n - 1) as nat, n as nat);
    }
}

/// How distances measured from two different slots relate: moving the
/// origin from `c0` to `c` shifts every other slot's distance by the
/// distance of `c`, wrapping once past it.
proof fn lemma_scan_dist_shift(c0: int, c: int, r: int, n: int)
    requires
        0 <= c0 < n,
        0 <= c < n,
        0 <= r < n,
        r != c,
    ensures
        scan_dist(c0, r, n) != scan_dist(c0, c, n),
        scan_dist(c0, r, n) > scan_dist(c0, c, n) ==> scan_dist(c, r, n) == scan_dist(c0, r, n)
            - scan_dist(c0, c, n) - 1,
        scan_dist(c0, r, n) < scan_dist(c0, c, n) ==> scan_dist(c, r, n) == scan_dist(c0, r, n)
            - scan_dist(c0, c, n) - 1 + n,
{
    lemma_slot_of_scan_dist(c0, r, n);
    lemma_slot_of_scan_dist(c0, c, n);
    let dr = scan_dist(c0, r, n);
    let dc = scan_dist(c0, c, n);
    if dr == dc {
        assert(scan_slot(c0, dr, n) == r);
        assert(scan_slot(c0, dc, n) == c);
    }
    vstd::arithmetic::div_mod::lemma_fundamental_div_mod(r - c0 - 1, n);
    vstd::arithmetic::div_mod::lemma_fundamental_div_mod(c - c0 - 1, n);
    let qr = (r - c0 - 1) / n;
    let qc = (c - c0 - 1) / n;
    assert(n * (qr - qc) == n * qr - n * qc) by (nonlinear_arith);
    assert(r - c - 1 == n * (qr - qc) + (dr - dc - 1));
    vstd::arithmetic::div_mod::lemma_mod_multiples_vanish(qr - qc, dr - dc - 1, n);
    if dr > dc {
        vstd::arithmetic::div_mod::lemma_small_mod((dr - dc - 1) as nat, n as nat);
    } else {
        assert(dr - dc - 1 == n * (-1) + (dr - dc - 1 + n));
        vstd::arithmetic::div_mod::lemma_mod_multiples_vanish(-1, dr - dc - 1 + n, n);
        vstd::arithmetic::div_mod::lemma_small_mod((dr - dc - 1 + n) as nat, n as nat);
    }
}

/// The scan from step `k` on finds the runnable worker with the least
/// distance at least `k`, provided one exists.
proof fn lemma_scan_from_first(procs: Seq<Process>, c: int, k: int)
    requires
        0 <= c < procs.len(),
        0 <= k <= procs.len(),
        exists|r: int|
            runnable_worker(procs, r) && scan_dist(c, r, procs.len() as int) >= k,
    ensures
        ({
            let n = procs.len() as int;
            let p = scan_from(procs, c, k);
            &&& runnable_worker(procs, p)
            &&& scan_dist(c, p, n) >= k
            &&& forall|r: int|
                runnable_worker(procs, r) && #[trigger] scan_dist(c, r, n) >= k ==> scan_dist(
                    c,
                    p,
                    n,
                ) <= scan_dist(c, r, n)
        }),
    decreases procs.len() - k,
{
    let n = procs.len() as int;
    let r0 = choose|r: int| runnable_worker(procs, r) && scan_dist(c, r, n) >= k;
    lemma_slot_of_scan_dist(c, r0, n);
    assert(k < n);
    let s = scan_slot(c, k, n);
    lemma_scan_dist_of_slot(c, k, n);
    if runnable_worker(procs, s) {
        assert(scan_from(procs, c, k) == s);
    } else {
        assert forall|r: int|
            runnable_worker(procs, r) && #[trigger] scan_dist(c, r, n) >= k implies scan_dist(
            c,
            r,
            n,
        ) >= k + 1 by {
            lemma_slot_of_scan_dist(c, r, n);
            if scan_dist(c, r, n) == k {
                assert(r == s);
            }
        }
        lemma_scan_from_first(procs, c, k + 1);
        assert(scan_from(procs, c, k) == scan_from(procs, c, k + 1));
    }
}

/// The scheduler's pick is the runnable worker strictly closest in scan
/// order to the slot yielded from.
proof fn lemma_pick_closest(procs: Seq<Process>, c: int)
    requires
        0 <= c < procs.len(),
        exists|r: int| runnable_worker(procs, r),
    ensures
        ({
            let n = procs.len() as int;
            let p = pick_spec(procs, c);
            &&& runnable_worker(procs, p)
            &&& forall|r: int|
                runnable_worker(procs, r) && r != p ==> #[trigger] scan_dist(c, r, n)
                    > scan_dist(c, p, n)
        }),
{
    let n = procs.len() as int;
    let r0 = choose|r: int| runnable_worker(procs, r);
    lemma_slot_of_scan_dist(c, r0, n);
    lemma_scan_from_first(procs, c, 0);
    let p = pick_spec(procs, c);
    assert forall|r: int| runnable_worker(procs, r) && r != p implies #[trigger] scan_dist(
        c,
        r,
        n,
    ) > scan_dist(c, p, n) by {
        lemma_slot_of_scan_dist(c, r, n);
        lemma_slot_of_scan_dist(c, p, n);
        assert(scan_dist(c, r, n) >= 0);
        assert(scan_dist(c, p, n) <= scan_dist(c, r, n));
        if scan_dist(c, r, n) == scan_dist(c, p, n) {
            assert(r == p);
        }
    }
}

/// The runnable-worker set is a finite subset of the table's slots.
proof fn lemma_workers_finite(procs: Seq<Process>)
    ensures
        workers(procs).finite(),
        workers(procs).len() <= procs.len(),
{
    let n = procs.len() as int;
    vstd::set_lib::lemma_int_range(0, n);
    vstd::set_lib::lemma_len_subset(workers(procs), vstd::set_lib::set_int_range(0, n));
}

/// With no runnable worker anywhere in the table, the scan falls back to
/// the idle slot; in particular, yielding from the last runnable process
/// once it alone has stopped being runnable selects the idle process.
pub proof fn lemma_idle_when_no_workers(procs: Seq<Process>, c: int)
    requires
        forall|i: int| !runnable_worker(procs, i),
    ensures
        pick_spec(procs, c) == 0,
{
    lemma_scan_from_idle(procs, c, 0);
}

/// The scan's fallback, by induction over its steps.
proof fn lemma_scan_from_idle(procs: Seq<Process>, c: int, k: int)
    requires
        forall|i: int| !runnable_worker(procs, i),
    ensures
        scan_from(procs, c, k) == 0,
    decreases procs.len() - k,
{
    if 0 <= k < procs.len() {
        lemma_scan_from_idle(procs, c, k + 1);
    }
}

/// The scheduler's choice depends only on the run states and ids of the
/// table's slots: two tables that agree on them (as a yield leaves them)
/// yield the same pick, so successive yields follow the orbit of the
/// starting table.
pub proof fn lemma_pick_depends_on_states(procs1: Seq<Process>, procs2: Seq<Process>, c: int)
    requires
        procs1.len() == procs2.len(),
        forall|i: int|
            0 <= i < procs1.len() ==> (#[trigger] procs1[i]).state == procs2[i].state
                && procs1[i].pid == procs2[i].pid,
    ensures
        pick_spec(procs1, c) == pick_spec(procs2, c),
{
    lemma_scan_from_states(procs1, procs2, c, 0);
}

/// The scan agrees step by step on tables with equal states and ids.
proof fn lemma_scan_from_states(procs1: Seq<Process>, procs2: Seq<Process>, c: int, k: int)
    requires
        procs1.len() == procs2.len(),
        forall|i: int|
            0 <= i < procs1.len() ==> (#[trigger] procs1[i]).state == procs2[i].state
                && procs1[i].pid == procs2[i].pid,
    ensures
        scan_from(procs1, c, k) == scan_from(procs2, c, k),
    decreases procs1.len() - k,
{
    if 0 <= k < procs1.len() {
        lemma_scan_from_states(procs1, procs2, c, k + 1);
    }
}

/// The induction behind round-robin fairness: after `j` yields the
/// processor is at the runnable worker with the `j`-th smallest scan
/// distance from the starting slot, the visited workers are exactly
/// those at most that far, and there are exactly `j` of them.
proof fn lemma_orbit_progress(procs: Seq<Process>, c0: int, j: int)
    requires
        0 <= c0 < procs.len(),
        workers(procs).len() >= 1,
        1 <= j <= workers(procs).len(),
    ensures
        ({
            let n = procs.len() as int;
            let oj = orbit(procs, c0, j as nat);
            &&& runnable_worker(procs, oj)
            &&& forall|j2: int|
                1 <= j2 < j ==> scan_dist(c0, #[trigger] orbit(procs, c0, j2 as nat), n)
                    < scan_dist(c0, oj, n)
            &&& forall|r: int|
                runnable_worker(procs, r) && #[trigger] scan_dist(c0, r, n) <= scan_dist(
                    c0,
                    oj,
                    n,
                ) ==> exists|j2: int| 1 <= j2 <= j && #[trigger] orbit(procs, c0, j2 as nat) == r
            &&& forall|r: int|
                runnable_worker(procs, r) && #[trigger] scan_dist(c0, r, n) > scan_dist(c0, oj, n)
                    ==> forall|j2: int| 1 <= j2 <= j ==> #[trigger] orbit(procs, c0, j2 as nat) != r
            &&& workers(procs).filter(
                |r: int| scan_dist(c0, r, n) <= scan_dist(c0, oj, n),
            ).len() == j
        }),
    decreases j,
{
    let n = procs.len() as int;
    lemma_workers_finite(procs);
    let r0 = choose|r: int| #[trigger] workers(procs).contains(r);
    assert(workers(procs).contains(r0)) by {
        if workers(procs) =~= Set::<int>::empty() {
        }
    }
    if j == 1 {
        lemma_pick_closest(procs, c0);
        let o1 = orbit(procs, c0, 1);
        assert(o1 == pick_spec(procs, c0));
        let f = |r: int| scan_dist(c0, r, n) <= scan_dist(c0, o1, n);
        assert forall|r: int|
            runnable_worker(procs, r) && #[trigger] scan_dist(c0, r, n) <= scan_dist(
                c0,
                o1,
                n,
            ) implies exists|j2: int| 1 <= j2 <= 1 && #[trigger] orbit(procs, c0, j2 as nat) == r by {
            if r != o1 {
                assert(scan_dist(c0, r, n) > scan_dist(c0, o1, n));
            }
            assert(orbit(procs, c0, 1nat) == o1);
        }
        assert(workers(procs).filter(f) =~= Set::<int>::empty().insert(o1));
    } else {
        lemma_orbit_progress(procs, c0, j - 1);
        let oj = orbit(procs, c0, (j - 1) as nat);
        let p = orbit(procs, c0, j as nat);
        assert(p == pick_spec(procs, oj));
        let dj = scan_dist(c0, oj, n);
        let fj = |r: int| scan_dist(c0, r, n) <= dj;
        let visited = workers(procs).filter(fj);
        // there is an unvisited worker, and it lies strictly beyond `oj`
        assert(visited.len() < workers(procs).len());
        let u = choose|r: int|
            #[trigger] workers(procs).contains(r) && !visited.contains(r);
        assert(workers(procs).contains(u) && !visited.contains(u)) by {
            if forall|r: int|
                #[trigger] workers(procs).contains(r) ==> visited.contains(r) {
                vstd::set_lib::lemma_len_subset(workers(procs), visited);
            }
        }
        assert(scan_dist(c0, u, n) > dj);
        assert(u != oj);
        lemma_pick_closest(procs, oj);
        // every slot at most `dj` away from `c0` is farther from `oj`
        // than every slot beyond `dj`, so the pick lies beyond `dj`
        assert forall|r: int|
            runnable_worker(procs, r) && #[trigger] scan_dist(c0, r, n) <= dj && r
                != oj implies scan_dist(oj, r, n) > scan_dist(oj, u, n) by {
            lemma_slot_of_scan_dist(c0, r, n);
            lemma_slot_of_scan_dist(c0, u, n);
            lemma_scan_dist_shift(c0, oj, r, n);
            lemma_scan_dist_shift(c0, oj, u, n);
        }
        assert(scan_dist(oj, oj, n) == n - 1) by {
            lemma_slot_of_scan_dist(c0, oj, n);
            lemma_slot_of_scan_dist(oj, oj, n);
        }
        assert(scan_dist(oj, u, n) < n - 1) by {
            lemma_slot_of_scan_dist(c0, u, n);
            lemma_scan_dist_shift(c0, oj, u, n);
            lemma_slot_of_scan_dist(c0, oj, n);
        }
        // hence the pick is an unvisited worker
        assert(scan_dist(c0, p, n) > dj) by {
            if p != u {
                assert(scan_dist(oj, u, n) > scan_dist(oj, p, n));
            }
            if p == oj {
                assert(scan_dist(oj, u, n) > scan_dist(oj, p, n));
                assert(scan_dist(oj, oj, n) == n - 1);
            }
            if scan_dist(c0, p, n) <= dj {
                assert(scan_dist(oj, p, n) > scan_dist(oj, u, n));
            }
        }
        // and it is the closest unvisited worker in `c0`'s measure
        assert forall|r: int|
            runnable_worker(procs, r) && #[trigger] scan_dist(c0, r, n) > dj && r != p implies
            scan_dist(c0, r, n) > scan_dist(c0, p, n) by {
            lemma_slot_of_scan_dist(c0, r, n);
            lemma_slot_of_scan_dist(c0, p, n);
            lemma_slot_of_scan_dist(c0, oj, n);
            assert(r != oj);
            assert(p != oj);
            lemma_scan_dist_shift(c0, oj, r, n);
            lemma_scan_dist_shift(c0, oj, p, n);
            assert(scan_dist(oj, r, n) > scan_dist(oj, p, n));
        }
        let dp = scan_dist(c0, p, n);
        let fp = |r: int| scan_dist(c0, r, n) <= dp;
        assert(workers(procs).filter(fp) =~= visited.insert(p)) by {
            assert forall|r: int| #[trigger] workers(procs).filter(fp).contains(r) implies visited
                .insert(p).contains(r) by {
                if scan_dist(c0, r, n) > dj && r != p {
                    assert(scan_dist(c0, r, n) > dp);
                }
            }
        }
        assert(!visited.contains(p));
        assert(visited.insert(p).len() == j);
    }
}

/// Round-robin fairness: with the run states fixed, K successive yields
/// starting from any slot visit every runnable worker exactly once,
/// where K is the number of runnable workers — no worker runs twice
/// before every other runnable worker has run.
pub proof fn lemma_round_robin_fairness(procs: Seq<Process>, c0: int)
    requires
        0 <= c0 < procs.len(),
        workers(procs).len() >= 1,
    ensures
        forall|j1: int, j2: int|
            1 <= j1 < j2 <= workers(procs).len() ==> #[trigger] orbit(procs, c0, j1 as nat)
                != #[trigger] orbit(procs, c0, j2 as nat),
        forall|r: int|
            runnable_worker(procs, r) ==> exists|j: int|
                1 <= j <= workers(procs).len() && #[trigger] orbit(procs, c0, j as nat) == r,
{
    let n = procs.len() as int;
    let kk = workers(procs).len() as int;
    lemma_workers_finite(procs);
    assert forall|j1: int, j2: int| 1 <= j1 < j2 <= kk implies #[trigger] orbit(
        procs,
        c0,
        j1 as nat,
    ) != #[trigger] orbit(procs, c0, j2 as nat) by {
        lemma_orbit_progress(procs, c0, j2);
    }
    lemma_orbit_progress(procs, c0, kk);
    let ok = orbit(procs, c0, kk as nat);
    let f = |r: int| scan_dist(c0, r, n) <= scan_dist(c0, ok, n);
    assert forall|r: int| runnable_worker(procs, r) implies exists|j: int|
        1 <= j <= kk && #[trigger] orbit(procs, c0, j as nat) == r by {
        if scan_dist(c0, r, n) > scan_dist(c0, ok, n) {
            assert(!workers(procs).filter(f).contains(r));
            workers(procs).filter(f).lemma_subset_not_in_lt(workers(procs), r);
        }
    }
}

/// Restores the context saved in slot `idx` of the table into `cpu`,
/// popping its frame.
fn restore_into(cpu: &mut CalleeSaved, procs: &mut Vec<Process>, idx: usize)
    requires
        idx < old(procs)@.len(),
        old(procs)@[idx as int].sp + CONTEXT_WORDS <= old(procs)@[idx as int].stack@.len(),
        old(procs)@[idx as int].sp + CONTEXT_WORDS <= u32::MAX,
    ensures
        *final(cpu) == frame_at(old(procs)@[idx as int].stack@, old(procs)@[idx as int].sp as int),
        final(procs)@ == old(procs)@.update(
            idx as int,
            (Process {
                sp: (old(procs)@[idx as int].sp + CONTEXT_WORDS) as u32,
                ..old(procs)@[idx as int]
            }),
        ),
{
    crate::context::restore_context(cpu, &mut procs[idx]);
}

} // verus!
