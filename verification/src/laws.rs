//! Laws of the machine: properties that relate several instructions or every
//! cycle, proved over the same spec functions that the executor's contracts
//! use.

use vstd::prelude::*;
use crate::state::{Chip8View, Chip8Error, fetch_word, tick_timers};
use crate::decode::{Instruction, spec_decode, lemma_decode_wf};
use crate::step::{exec_post, step_faults, step_waits, spec_cycle, CycleSpec, spec_run, RunSpec,
    lemma_exec_post_wf, draw_collision, lemma_store_regs_at};

verus! {

/// Loading two registers and adding them leaves their wrapped sum in the
/// destination and the carry in the flag register: after 6x=a, 6y=b, 8xy4,
/// registers[x] is (a+b) mod 256 and the flag register is 1 exactly when
/// a+b overflows a byte. The destination must not be the flag register
/// itself, and the two registers must differ, or the loads alias.
pub proof fn lemma_add_with_carry(s: Chip8View, x: u8, y: u8, a: u8, b: u8, rand: u8)
    requires
        s.wf(),
        x < 16,
        y < 16,
        x != y,
        x != 15,
    ensures
        ({
            let s1 = exec_post(s, Instruction::SetImm { x, nn: a }, rand);
            let s2 = exec_post(s1, Instruction::SetImm { x: y, nn: b }, rand);
            let s3 = exec_post(s2, Instruction::AddReg { x, y }, rand);
            &&& s3.registers[x as int] == ((a + b) % 256) as u8
            &&& s3.registers[15] == (if a + b > 255 { 1u8 } else { 0u8 })
        }),
{
}

/// Clearing the screen yields a frame buffer of all zeros and leaves a
/// redraw pending, whatever the prior content.
pub proof fn lemma_clear_screen(s: Chip8View, rand: u8)
    requires
        s.wf(),
    ensures
        exec_post(s, Instruction::ClearScreen, rand).redraw_pending,
        exec_post(s, Instruction::ClearScreen, rand).frame_buffer.len() == 2048,
        forall|j: int|
            0 <= j < 2048 ==> exec_post(s, Instruction::ClearScreen, rand).frame_buffer[j] == 0,
{
}

/// A call followed at once by a return puts the program counter exactly on
/// the instruction after the call, and leaves the stack as it was, for every
/// target address.
pub proof fn lemma_call_then_return(s: Chip8View, nnn: u16, rand: u8)
    requires
        s.wf(),
        s.stack.len() < 16,
        nnn < 4096,
    ensures
        ({
            let s1 = exec_post(s, Instruction::Call { nnn }, rand);
            let s2 = exec_post(s1, Instruction::Return, rand);
            &&& s1.program_counter == nnn
            &&& s2.program_counter == ((s.program_counter + 2) % 4096) as u16
            &&& s2.stack == s.stack
        }),
{
    let s1 = exec_post(s, Instruction::Call { nnn }, rand);
    assert(s1.stack.drop_last() =~= s.stack);
}

/// Every cycle that steps leads to a well-formed state again; in particular
/// the stack never holds more than 16 return addresses.
pub proof fn lemma_cycle_preserves_wf(s: Chip8View, rand: u8)
    requires
        s.wf(),
    ensures
        match spec_cycle(s, rand) {
            CycleSpec::Step { post, .. } => post.wf(),
            CycleSpec::Fault { .. } => true,
        },
{
    let word = fetch_word(s);
    let i = spec_decode(word);
    lemma_decode_wf(word);
    if !step_faults(s, i) && !step_waits(s, i) {
        lemma_exec_post_wf(s, i, rand);
    }
}

/// A call with the stack already at depth 16 — the seventeenth nested call —
/// is fatal, and reports the offending address and word.
pub proof fn lemma_call_overflows_at_depth_16(s: Chip8View, rand: u8)
    requires
        s.wf(),
        s.stack.len() == 16,
        spec_decode(fetch_word(s)) matches Instruction::Call { .. },
    ensures
        spec_cycle(s, rand) == (CycleSpec::Fault {
            err: Chip8Error::StackOverflow {
                program_counter: s.program_counter,
                opcode: fetch_word(s),
            },
        }),
{
}

/// Storing registers 0..=x and loading them back from the same index
/// register leaves every register as it was.
pub proof fn lemma_store_load_round_trip(s: Chip8View, x: u8, rand: u8)
    requires
        s.wf(),
        x < 16,
    ensures
        ({
            let s1 = exec_post(s, Instruction::StoreRegs { x }, rand);
            let s2 = exec_post(s1, Instruction::LoadRegs { x }, rand);
            s2.registers == s.registers
        }),
{
    let s1 = exec_post(s, Instruction::StoreRegs { x }, rand);
    let s2 = exec_post(s1, Instruction::LoadRegs { x }, rand);
    assert forall|i: int| 0 <= i < 16 implies s2.registers[i] == s.registers[i] by {
        if i <= x as int {
            lemma_store_regs_at(s.memory, s.registers, s.index_register, x as int + 1, i);
        }
    }
    assert(s2.registers =~= s.registers);
}

/// Drawing the same sprite twice at the same coordinates, with no other
/// mutation between, restores the frame buffer — XOR compositing is its own
/// inverse — and the flag register afterwards carries exactly the second
/// pass's collision. The coordinate registers must not be the flag register,
/// which the first draw overwrites.
pub proof fn lemma_draw_twice_restores(s: Chip8View, x: u8, y: u8, n: u8, rand: u8)
    requires
        s.wf(),
        x < 16,
        y < 16,
        n < 16,
        x != 15,
        y != 15,
    ensures
        ({
            let s1 = exec_post(s, Instruction::Draw { x, y, n }, rand);
            let s2 = exec_post(s1, Instruction::Draw { x, y, n }, rand);
            let x0 = s.registers[x as int] as int % 64;
            let y0 = s.registers[y as int] as int % 32;
            &&& s2.frame_buffer == s.frame_buffer
            &&& (s2.registers[15] == 1u8 <==> draw_collision(
                s1.frame_buffer,
                s.memory,
                s.index_register,
                x0,
                y0,
                n as int,
            ))
        }),
{
    let s1 = exec_post(s, Instruction::Draw { x, y, n }, rand);
    let s2 = exec_post(s1, Instruction::Draw { x, y, n }, rand);
    assert(forall|a: u8, p: u8| #[trigger] ((a ^ p) ^ p) == a) by (bit_vector);
    assert(s2.frame_buffer =~= s.frame_buffer);
}

/// A jump to its own address is a fixed point: with the timers already at
/// rest, one cycle of it changes nothing and asks for nothing, so the
/// machine runs indefinitely without state divergence.
pub proof fn lemma_jump_self_cycle(s: Chip8View, rand: u8)
    requires
        s.wf(),
        s.delay_timer == 0,
        s.sound_timer == 0,
        spec_decode(fetch_word(s)) == (Instruction::Jump { nnn: s.program_counter }),
    ensures
        spec_cycle(s, rand) == (CycleSpec::Step { post: s, tone: false, waiting: false }),
{
    let i = spec_decode(fetch_word(s));
    assert(exec_post(s, i, rand) =~= s);
    assert(tick_timers(s) =~= s);
}

/// A jump to its own address stays a fixed point over any number of cycles:
/// a run of any length ends in the very state it started from.
pub proof fn lemma_jump_self_run(s: Chip8View, rands: Seq<u8>)
    requires
        s.wf(),
        s.delay_timer == 0,
        s.sound_timer == 0,
        spec_decode(fetch_word(s)) == (Instruction::Jump { nnn: s.program_counter }),
    ensures
        spec_run(s, rands) == (RunSpec::Done { post: s }),
    decreases rands.len(),
{
    if rands.len() > 0 {
        lemma_jump_self_cycle(s, rands[0]);
        lemma_jump_self_run(s, rands.drop_first());
    }
}

} // verus!
