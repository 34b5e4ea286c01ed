//! The context-switch mechanism.
//!
//! A context switch saves the calling context's callee-saved registers as
//! a 13-word frame on its own stack, records the resulting stack pointer,
//! then loads the other context's stack pointer and restores the frame
//! found there. Caller-saved registers need no preservation, per the
//! platform's procedure-call convention. The register spill is modelled
//! as explicit word writes to the process's stack vector, so the frame
//! layout and the save/restore round trip are fully specified.

use vstd::prelude::*;

use crate::process::Process;

verus! {

use vstd::pervasive::VecAdditionalExecFns;

/// Number of words in a saved context frame: the return address plus the
/// twelve callee-saved registers.
pub const CONTEXT_WORDS: u32 = 13;

/// The callee-saved register set of the calling convention, plus the
/// return address through which a restored context resumes.
#[derive(Clone, Copy, Debug, PartialEq, Eq, Structural)]
pub struct CalleeSaved {
    pub ra: u32,
    pub s0: u32,
    pub s1: u32,
    pub s2: u32,
    pub s3: u32,
    pub s4: u32,
    pub s5: u32,
    pub s6: u32,
    pub s7: u32,
    pub s8: u32,
    pub s9: u32,
    pub s10: u32,
    pub s11: u32,
}

impl CalleeSaved {
    /// A zeroed register set, as synthesized for a freshly created
    /// process.
    pub fn zeroed() -> (r: CalleeSaved)
        ensures
            r == spec_zeroed(),
    {
        CalleeSaved {
            ra: 0,
            s0: 0,
            s1: 0,
            s2: 0,
            s3: 0,
            s4: 0,
            s5: 0,
            s6: 0,
            s7: 0,
            s8: 0,
            s9: 0,
            s10: 0,
            s11: 0,
        }
    }
}

/// The zeroed register set.
pub open spec fn spec_zeroed() -> CalleeSaved {
    CalleeSaved {
        ra: 0,
        s0: 0,
        s1: 0,
        s2: 0,
        s3: 0,
        s4: 0,
        s5: 0,
        s6: 0,
        s7: 0,
        s8: 0,
        s9: 0,
        s10: 0,
        s11: 0,
    }
}

/// The 13-word frame layout of a saved context: return address first,
/// then s0 through s11 at increasing addresses.
pub open spec fn frame_seq(c: CalleeSaved) -> Seq<u32> {
    seq![c.ra, c.s0, c.s1, c.s2, c.s3, c.s4, c.s5, c.s6, c.s7, c.s8, c.s9, c.s10, c.s11]
}

/// The stack contents after a frame holding `c` has been pushed at
/// `sp - 13 .. sp`.
pub open spec fn pushed(stack: Seq<u32>, sp: int, c: CalleeSaved) -> Seq<u32> {
    stack.map(
        |i: int, w: u32|
            if sp - CONTEXT_WORDS <= i < sp {
                frame_seq(c)[i - (sp - CONTEXT_WORDS)]
            } else {
                w
            },
    )
}

/// The register set encoded by the frame at `sp .. sp + 13` of `stack`.
pub open spec fn frame_at(stack: Seq<u32>, sp: int) -> CalleeSaved {
    CalleeSaved {
        ra: stack[sp],
        s0: stack[sp + 1],
        s1: stack[sp + 2],
        s2: stack[sp + 3],
        s3: stack[sp + 4],
        s4: stack[sp + 5],
        s5: stack[sp + 6],
        s6: stack[sp + 7],
        s7: stack[sp + 8],
        s8: stack[sp + 9],
        s9: stack[sp + 10],
        s10: stack[sp + 11],
        s11: stack[sp + 12],
    }
}

/// Saves the register set `cpu` as a frame on `p`'s stack and records the
/// new stack pointer, exactly as the switch path does for the suspending
/// context.
pub fn save_context(cpu: &CalleeSaved, p: &mut Process)
    requires
        CONTEXT_WORDS <= old(p).sp,
        old(p).sp <= old(p).stack@.len(),
    ensures
        *final(p) == (Process {
            sp: (old(p).sp - CONTEXT_WORDS) as u32,
            stack: final(p).stack,
            ..*old(p)
        }),
        final(p).stack@ == pushed(old(p).stack@, old(p).sp as int, *cpu),
{
    let base = (p.sp - CONTEXT_WORDS) as usize;
    p.stack.set(base, cpu.ra);
    p.stack.set(base + 1, cpu.s0);
    p.stack.set(base + 2, cpu.s1);
    p.stack.set(base + 3, cpu.s2);
    p.stack.set(base + 4, cpu.s3);
    p.stack.set(base + 5, cpu.s4);
    p.stack.set(base + 6, cpu.s5);
    p.stack.set(base + 7, cpu.s6);
    p.stack.set(base + 8, cpu.s7);
    p.stack.set(base + 9, cpu.s8);
    p.stack.set(base + 10, cpu.s9);
    p.stack.set(base + 11, cpu.s10);
    p.stack.set(base + 12, cpu.s11);
    p.sp = p.sp - CONTEXT_WORDS;
    proof {
        assert(p.stack@ =~= pushed(old(p).stack@, old(p).sp as int, *cpu));
    }
}

/// Restores the register set saved as the frame at `p`'s stack pointer
/// and pops it, exactly as the switch path does for the resuming context.
pub fn restore_context(cpu: &mut CalleeSaved, p: &mut Process)
    requires
        old(p).sp + CONTEXT_WORDS <= old(p).stack@.len(),
        old(p).sp + CONTEXT_WORDS <= u32::MAX,
    ensures
        *final(cpu) == frame_at(old(p).stack@, old(p).sp as int),
        *final(p) == (Process { sp: (old(p).sp + CONTEXT_WORDS) as u32, ..*old(p) }),
{
    let n = p.stack.len();
    let base = p.sp as usize;
    assert(base + CONTEXT_WORDS as usize <= n);
    cpu.ra = p.stack[base];
    cpu.s0 = p.stack[base + 1];
    cpu.s1 = p.stack[base + 2];
    cpu.s2 = p.stack[base + 3];
    cpu.s3 = p.stack[base + 4];
    cpu.s4 = p.stack[base + 5];
    cpu.s5 = p.stack[base + 6];
    cpu.s6 = p.stack[base + 7];
    cpu.s7 = p.stack[base + 8];
    cpu.s8 = p.stack[base + 9];
    cpu.s9 = p.stack[base + 10];
    cpu.s10 = p.stack[base + 11];
    cpu.s11 = p.stack[base + 12];
    p.sp = p.sp + CONTEXT_WORDS;
}

/// The context switch: suspends the context whose registers are in `cpu`
/// into `prev` (saving a frame on `prev`'s stack and recording its stack
/// pointer), then resumes `next` (loading its stack pointer and restoring
/// the frame found there into `cpu`).
pub fn switch_context(cpu: &mut CalleeSaved, prev: &mut Process, next: &mut Process)
    requires
        CONTEXT_WORDS <= old(prev).sp,
        old(prev).sp <= old(prev).stack@.len(),
        old(next).sp + CONTEXT_WORDS <= old(next).stack@.len(),
        old(next).sp + CONTEXT_WORDS <= u32::MAX,
    ensures
        *final(prev) == (Process {
            sp: (old(prev).sp - CONTEXT_WORDS) as u32,
            stack: final(prev).stack,
            ..*old(prev)
        }),
        final(prev).stack@ == pushed(old(prev).stack@, old(prev).sp as int, *old(cpu)),
        *final(cpu) == frame_at(old(next).stack@, old(next).sp as int),
        *final(next) == (Process { sp: (old(next).sp + CONTEXT_WORDS) as u32, ..*old(next) }),
{
    save_context(cpu, prev);
    restore_context(cpu, next);
}

/// Switching away from a context and later back into it restores its
/// callee-saved registers and its stack pointer to their pre-switch
/// values, for arbitrary register contents, and leaves the live part of
/// its stack (at and above the pre-switch stack pointer) untouched; the
/// intermediate context's stack is returned to exactly its prior state.
pub proof fn lemma_switch_round_trip(
    cpu0: CalleeSaved,
    a_stack: Seq<u32>,
    a_sp: int,
    b_stack: Seq<u32>,
    b_sp: int,
)
    requires
        CONTEXT_WORDS <= a_sp <= a_stack.len(),
        b_sp + CONTEXT_WORDS <= b_stack.len(),
        0 <= b_sp,
    ensures
        frame_at(pushed(a_stack, a_sp, cpu0), a_sp - CONTEXT_WORDS) == cpu0,
        forall|i: int| a_sp <= i < a_stack.len() ==> pushed(a_stack, a_sp, cpu0)[i] == a_stack[i],
        pushed(b_stack, b_sp + CONTEXT_WORDS, frame_at(b_stack, b_sp)) == b_stack,
{
    assert(pushed(b_stack, b_sp + CONTEXT_WORDS, frame_at(b_stack, b_sp)) =~= b_stack);
}

} // verus!
