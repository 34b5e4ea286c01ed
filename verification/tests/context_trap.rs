use mini_kernel::context::{switch_context, CalleeSaved, CONTEXT_WORDS};
use mini_kernel::process::{Process, STACK_WORDS};
use mini_kernel::trap::{dispatch_trap, enter_trap, handle_trap, leave_trap, RegisterFile};

fn regs_with(cpu_base: u32) -> CalleeSaved {
    CalleeSaved {
        ra: cpu_base,
        s0: cpu_base + 1,
        s1: cpu_base + 2,
        s2: cpu_base + 3,
        s3: cpu_base + 4,
        s4: cpu_base + 5,
        s5: cpu_base + 6,
        s6: cpu_base + 7,
        s7: cpu_base + 8,
        s8: cpu_base + 9,
        s9: cpu_base + 10,
        s10: cpu_base + 11,
        s11: cpu_base + 12,
    }
}

#[test]
fn context_switch_round_trip_restores_registers_and_stack_pointer() {
    let mut a = Process::new();
    a.set_sp(STACK_WORDS); // the live context's empty stack
    let mut b = Process::new();
    // give B a parked frame to resume from
    b.set_sp(STACK_WORDS - CONTEXT_WORDS);
    let base = (STACK_WORDS - CONTEXT_WORDS) as usize;
    for i in 0..CONTEXT_WORDS as usize {
        b.stack[base + i] = 900 + i as u32;
    }

    let saved = regs_with(100);
    let mut cpu = saved;
    switch_context(&mut cpu, &mut a, &mut b);

    // A suspended: its pointer dropped by one frame holding the old registers
    assert_eq!(a.sp, STACK_WORDS - CONTEXT_WORDS);
    assert_eq!(a.stack[base], 100);
    assert_eq!(a.stack[base + 12], 112);
    // B resumed: the parked frame is live in the registers
    assert_eq!(b.sp, STACK_WORDS);
    assert_eq!(cpu.ra, 900);
    assert_eq!(cpu.s11, 912);

    // switching back restores A exactly, for these arbitrary contents
    switch_context(&mut cpu, &mut b, &mut a);
    assert_eq!(cpu, saved);
    assert_eq!(a.sp, STACK_WORDS);
    // and B's stack is byte-for-byte what it was before the round trip
    assert_eq!(b.sp, STACK_WORDS - CONTEXT_WORDS);
    for i in 0..CONTEXT_WORDS as usize {
        assert_eq!(b.stack[base + i], 900 + i as u32);
    }
}

fn full_registers() -> RegisterFile {
    RegisterFile {
        ra: 1,
        gp: 2,
        tp: 3,
        t0: 4,
        t1: 5,
        t2: 6,
        t3: 7,
        t4: 8,
        t5: 9,
        t6: 10,
        a0: 11,
        a1: 12,
        a2: 13,
        a3: 14,
        a4: 15,
        a5: 16,
        a6: 17,
        a7: 18,
        s0: 19,
        s1: 20,
        s2: 21,
        s3: 22,
        s4: 23,
        s5: 24,
        s6: 25,
        s7: 26,
        s8: 27,
        s9: 28,
        s10: 29,
        s11: 30,
        sp: 31,
    }
}

#[test]
fn trap_frame_matches_the_interrupted_registers() {
    let regs = full_registers();
    let frame = enter_trap(&regs);
    assert_eq!(frame.ra, regs.ra);
    assert_eq!(frame.gp, regs.gp);
    assert_eq!(frame.t6, regs.t6);
    assert_eq!(frame.a7, regs.a7);
    assert_eq!(frame.s11, regs.s11);
    assert_eq!(frame.sp, regs.sp);
    let resumed = leave_trap(&frame);
    assert_eq!(resumed, regs);
}

#[test]
fn dispatch_reports_the_trap_and_resumes_identically() {
    let regs = full_registers();
    let (resumed, report) = dispatch_trap(&regs, 5, 64, 4096);
    assert_eq!(resumed, regs);
    assert_eq!(
        report.iter().collect::<String>(),
        "unexpected trap scause=5, stval=64, sepc=4096\n"
    );
}

#[test]
fn handle_trap_renders_the_three_values() {
    let regs = full_registers();
    let frame = enter_trap(&regs);
    let report = handle_trap(&frame, 2, 0, 2147488076);
    assert_eq!(
        report.iter().collect::<String>(),
        "unexpected trap scause=2, stval=0, sepc=2147488076\n"
    );
}
