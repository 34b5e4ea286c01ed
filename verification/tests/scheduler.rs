use mini_kernel::context::CONTEXT_WORDS;
use mini_kernel::memory::PAGE_SIZE;
use mini_kernel::process::{Process, PROC_RUNNABLE, PROC_UNUSED, STACK_WORDS};
use mini_kernel::sched::{Kernel, KERNEL_PAGE_FLAGS, SATP_SV32};
use mini_kernel::KernelError;

const KERNEL_BASE: u32 = 0;
const RAM_START: u32 = 0x10000;
const RAM_END: u32 = 0x40000;
const IDLE_PC: u32 = 0x9000;

fn booted() -> Kernel {
    Kernel::boot(KERNEL_BASE, RAM_START, RAM_END, IDLE_PC).unwrap()
}

#[test]
fn boot_creates_the_idle_process() {
    let k = booted();
    assert_eq!(k.current, 0);
    assert_eq!(k.procs.len(), 8);
    assert_eq!(k.procs[0].pid, -1);
    assert_eq!(k.procs[0].state, PROC_RUNNABLE);
    for i in 1..8 {
        assert_eq!(k.procs[i].state, PROC_UNUSED);
    }
}

#[test]
fn created_process_gets_slot_id_stack_frame_and_address_space() {
    let mut k = booted();
    let next_before = k.allocator.next_paddr;
    let pc = 0x1234;
    let slot = k.create_process(pc).unwrap();
    assert_eq!(slot, 1);
    let p = &k.procs[1];
    assert_eq!(p.pid, 2);
    assert_eq!(p.state, PROC_RUNNABLE);
    assert_eq!(p.sp, STACK_WORDS - CONTEXT_WORDS);
    // the synthesized frame: resume address, then zeroed callee-saved registers
    let base = (STACK_WORDS - CONTEXT_WORDS) as usize;
    assert_eq!(p.stack[base], pc);
    for w in &p.stack[base + 1..] {
        assert_eq!(*w, 0);
    }
    // a fresh page table, rooted at the next free page, carrying the
    // kernel identity mapping
    assert_eq!(p.page_table, next_before);
    let pt = p.address_space.as_ref().unwrap();
    assert_eq!(pt.translate(KERNEL_BASE), Some((KERNEL_BASE, KERNEL_PAGE_FLAGS)));
    assert_eq!(pt.translate(RAM_END - 1), Some((RAM_END - 1, KERNEL_PAGE_FLAGS)));
    assert_eq!(pt.translate(RAM_END), None);
}

#[test]
fn process_table_full_is_reported() {
    let mut k = booted();
    for _ in 0..7 {
        k.create_process(0x1000).unwrap();
    }
    assert_eq!(
        k.create_process(0x1000).unwrap_err(),
        KernelError::NoFreeSlot
    );
}

#[test]
fn creation_fails_when_memory_is_exhausted() {
    // room for exactly the idle process's page table (root + one table)
    let mut k = Kernel::boot(0, 0x10000, 0x12000, IDLE_PC).unwrap();
    assert_eq!(
        k.create_process(0x1000).unwrap_err(),
        KernelError::OutOfMemory
    );
    // boot itself fails one page earlier
    assert!(matches!(
        Kernel::boot(0, 0x10000, 0x11000, IDLE_PC),
        Err(KernelError::OutOfMemory)
    ));
}

#[test]
fn yield_with_no_workers_is_a_no_op() {
    let mut k = booted();
    let sp_before = k.procs[0].sp;
    let satp_before = k.satp;
    k.yield_now();
    assert_eq!(k.current, 0);
    assert_eq!(k.procs[0].sp, sp_before);
    assert_eq!(k.satp, satp_before);
}

#[test]
fn self_yield_is_a_no_op() {
    let mut k = booted();
    k.create_process(0x1000).unwrap();
    k.yield_now();
    assert_eq!(k.current, 1);
    // the only worker yields to itself: nothing may change
    let sp_before = k.procs[1].sp;
    let satp_before = k.satp;
    k.yield_now();
    assert_eq!(k.current, 1);
    assert_eq!(k.procs[1].sp, sp_before);
    assert_eq!(k.satp, satp_before);
}

#[test]
fn yield_installs_the_next_address_space() {
    let mut k = booted();
    k.create_process(0x1000).unwrap();
    k.yield_now();
    assert_eq!(k.current, 1);
    assert_eq!(k.trap_stack_slot, 1);
    assert_eq!(k.satp, SATP_SV32 | k.procs[1].page_table / PAGE_SIZE);
}

#[test]
fn round_robin_visits_all_workers_before_repeating() {
    let mut k = booted();
    for _ in 0..3 {
        k.create_process(0x1000).unwrap();
    }
    let mut visits = Vec::new();
    for _ in 0..9 {
        k.yield_now();
        visits.push(k.current);
    }
    assert_eq!(visits, vec![1, 2, 3, 1, 2, 3, 1, 2, 3]);
}

#[test]
fn yield_from_last_runnable_selects_idle() {
    let mut k = booted();
    k.create_process(0x1000).unwrap();
    k.yield_now();
    assert_eq!(k.current, 1);
    // the worker stops being runnable; the next yield falls back to idle
    k.procs[1].set_state(PROC_UNUSED);
    k.yield_now();
    assert_eq!(k.current, 0);
}

#[test]
fn process_equality_ignores_the_page_table_fields() {
    let mut p = Process::new();
    let mut q = Process::new();
    assert!(p == q);
    q.set_page_table(0x5000);
    assert!(p == q);
    q.set_pid(3);
    assert!(p != q);
    q.set_pid(0);
    p.stack[0] = 1;
    assert!(p != q);
}

#[test]
fn end_to_end_two_workers_alternate_their_output() {
    // idle (pid -1) plus workers A and B in a print-then-yield loop: the
    // boot context yields, a worker (never idle) runs first, and repeated
    // yields alternate the console output strictly between 'A' and 'B'.
    let mut k = booted();
    let a = k.create_process(0xa000).unwrap();
    let b = k.create_process(0xb000).unwrap();
    let mut output = String::new();
    k.yield_now();
    for _ in 0..10 {
        let pid = k.procs[k.current].pid;
        assert!(pid > 0, "idle ran while a worker was runnable");
        output.push(if k.current == a {
            'A'
        } else {
            assert_eq!(k.current, b);
            'B'
        });
        k.yield_now();
    }
    assert_eq!(output, "ABABABABAB");
}
