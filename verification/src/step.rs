//! The semantics of one instruction and of one cycle, as spec functions over
//! the abstract machine state. The executor and the cycle driver in `cpu` are
//! verified against these.

use vstd::prelude::*;
use crate::state::{Chip8View, Chip8Error, fetch_word, tick_timers};
use crate::decode::{Instruction, spec_decode};

verus! {

/// The state with the program counter advanced by `steps` (2 past one
/// instruction, 4 past a skipped one), wrapping at the end of memory.
pub open spec fn adv_pc(s: Chip8View, steps: u16) -> Chip8View {
    Chip8View { program_counter: ((s.program_counter + steps) % 4096) as u16, ..s }
}

/// The sprite row that covers pixel `j`, counted from screen row `y0`
/// with vertical wraparound.
pub open spec fn sprite_row_of(y0: int, j: int) -> int {
    (j / 64 - y0 + 32) % 32
}

/// The sprite column that covers pixel `j`, counted from screen column `x0`
/// with horizontal wraparound.
pub open spec fn sprite_col_of(x0: int, j: int) -> int {
    (j % 64 - x0 + 64) % 64
}

/// The sprite bit XOR-ed into pixel `j` by a draw of `n` rows taken from
/// `mem[base..]` at screen position (x0, y0): the bit of the covering sprite
/// cell, or 0 where no cell covers `j`.
pub open spec fn sprite_pixel(mem: Seq<u8>, base: u16, x0: int, y0: int, n: int, j: int) -> u8 {
    let r = sprite_row_of(y0, j);
    let c = sprite_col_of(x0, j);
    if r < n && c < 8 {
        (mem[((base + r) % 4096) as int] >> ((7 - c) as u8)) & 1
    } else {
        0
    }
}

/// The sprite bit XOR-ed into pixel `j` by the part of a draw that has
/// reached row `r`, column `c`: as `sprite_pixel`, but only for cells before
/// that position in row-major order.
pub open spec fn sprite_pixel_upto(
    mem: Seq<u8>,
    base: u16,
    x0: int,
    y0: int,
    n: int,
    r: int,
    c: int,
    j: int,
) -> u8 {
    let rr = sprite_row_of(y0, j);
    let cc = sprite_col_of(x0, j);
    if rr < n && cc < 8 && (rr < r || (rr == r && cc < c)) {
        sprite_pixel(mem, base, x0, y0, n, j)
    } else {
        0
    }
}

/// The frame buffer after a draw: each pixel XOR-ed with its sprite bit.
pub open spec fn draw_fb(fb: Seq<u8>, mem: Seq<u8>, base: u16, x0: int, y0: int, n: int) -> Seq<u8> {
    Seq::new(2048, |j: int| fb[j] ^ sprite_pixel(mem, base, x0, y0, n, j))
}

/// A draw collides when some pixel goes from 1 to 0.
pub open spec fn draw_collision(fb: Seq<u8>, mem: Seq<u8>, base: u16, x0: int, y0: int, n: int) -> bool {
    exists|j: int| 0 <= j < 2048 && fb[j] == 1 && sprite_pixel(mem, base, x0, y0, n, j) == 1
}

/// Memory after the first `cnt` registers are stored at `base`, wrapping at
/// the end of memory; later registers land at later addresses.
pub open spec fn store_regs(mem: Seq<u8>, regs: Seq<u8>, base: u16, cnt: int) -> Seq<u8>
    decreases cnt,
{
    if cnt <= 0 {
        mem
    } else {
        store_regs(mem, regs, base, cnt - 1).update(
            ((base + cnt - 1) % 4096) as int,
            regs[cnt - 1],
        )
    }
}

/// The smallest pressed key at or above `k`, or 16 when none is pressed.
pub open spec fn first_pressed(keys: Seq<bool>, k: int) -> int
    decreases 16 - k,
{
    if k < 0 || k >= 16 {
        16
    } else if keys[k] {
        k
    } else {
        first_pressed(keys, k + 1)
    }
}

/// Whether executing `i` in state `s` is fatal: a return on an empty stack,
/// a call on a full one, or a word outside the instruction set.
pub open spec fn step_faults(s: Chip8View, i: Instruction) -> bool {
    ||| i is Unknown
    ||| (i is Return && s.stack.len() == 0)
    ||| (i matches Instruction::Call { .. } && s.stack.len() >= 16)
}

/// The error reported for a fatal step, carrying the program counter and the
/// raw instruction word.
pub open spec fn fault_of(s: Chip8View, i: Instruction, word: u16) -> Chip8Error {
    match i {
        Instruction::Return => Chip8Error::StackUnderflow {
            program_counter: s.program_counter,
            opcode: word,
        },
        Instruction::Call { .. } => Chip8Error::StackOverflow {
            program_counter: s.program_counter,
            opcode: word,
        },
        _ => Chip8Error::UnknownInstruction {
            program_counter: s.program_counter,
            opcode: word,
        },
    }
}

/// Whether the step waits: a wait-for-key with no key pressed. The program
/// counter is then left unchanged, so the instruction runs again.
pub open spec fn step_waits(s: Chip8View, i: Instruction) -> bool {
    i matches Instruction::WaitKey { .. } && first_pressed(s.keypad_state, 0) == 16
}

/// The state after executing `i` with `rand` as the host-supplied random
/// byte. Meaningful only when the step neither faults nor waits.
pub open spec fn exec_post(s: Chip8View, i: Instruction, rand: u8) -> Chip8View {
    let regs = s.registers;
    match i {
        Instruction::ClearScreen => adv_pc(
            Chip8View {
                frame_buffer: Seq::new(2048, |j: int| 0u8),
                redraw_pending: true,
                ..s
            },
            2,
        ),
        Instruction::Return => Chip8View {
            program_counter: s.stack.last(),
            stack: s.stack.drop_last(),
            ..s
        },
        Instruction::Jump { nnn } => Chip8View { program_counter: nnn, ..s },
        Instruction::Call { nnn } => Chip8View {
            program_counter: nnn,
            stack: s.stack.push(((s.program_counter + 2) % 4096) as u16),
            ..s
        },
        Instruction::SkipEqImm { x, nn } => adv_pc(s, if regs[x as int] == nn { 4 } else { 2 }),
        Instruction::SkipNeImm { x, nn } => adv_pc(s, if regs[x as int] != nn { 4 } else { 2 }),
        Instruction::SkipEqReg { x, y } => adv_pc(
            s,
            if regs[x as int] == regs[y as int] { 4 } else { 2 },
        ),
        Instruction::SetImm { x, nn } => adv_pc(
            Chip8View { registers: regs.update(x as int, nn), ..s },
            2,
        ),
        Instruction::AddImm { x, nn } => adv_pc(
            Chip8View {
                registers: regs.update(x as int, ((regs[x as int] + nn) % 256) as u8),
                ..s
            },
            2,
        ),
        Instruction::CopyReg { x, y } => adv_pc(
            Chip8View { registers: regs.update(x as int, regs[y as int]), ..s },
            2,
        ),
        Instruction::OrReg { x, y } => adv_pc(
            Chip8View { registers: regs.update(x as int, regs[x as int] | regs[y as int]), ..s },
            2,
        ),
        Instruction::AndReg { x, y } => adv_pc(
            Chip8View { registers: regs.update(x as int, regs[x as int] & regs[y as int]), ..s },
            2,
        ),
        Instruction::XorReg { x, y } => adv_pc(
            Chip8View { registers: regs.update(x as int, regs[x as int] ^ regs[y as int]), ..s },
            2,
        ),
        Instruction::AddReg { x, y } => adv_pc(
            Chip8View {
                registers: regs
                    .update(15, if regs[x as int] + regs[y as int] > 255 { 1u8 } else { 0u8 })
                    .update(x as int, ((regs[x as int] + regs[y as int]) % 256) as u8),
                ..s
            },
            2,
        ),
        Instruction::SubReg { x, y } => adv_pc(
            Chip8View {
                registers: regs
                    .update(15, if regs[x as int] >= regs[y as int] { 1u8 } else { 0u8 })
                    .update(
                        x as int,
                        ((regs[x as int] + 256 - regs[y as int]) % 256) as u8,
                    ),
                ..s
            },
            2,
        ),
        Instruction::ShiftRight { x, y } => adv_pc(
            Chip8View {
                registers: regs
                    .update(15, regs[x as int] & 1)
                    .update(x as int, regs[x as int] >> 1u8),
                ..s
            },
            2,
        ),
        Instruction::SubFrom { x, y } => adv_pc(
            Chip8View {
                registers: regs
                    .update(15, if regs[y as int] >= regs[x as int] { 1u8 } else { 0u8 })
                    .update(
                        x as int,
                        ((regs[y as int] + 256 - regs[x as int]) % 256) as u8,
                    ),
                ..s
            },
            2,
        ),
        Instruction::ShiftLeft { x, y } => adv_pc(
            Chip8View {
                registers: regs
                    .update(15, regs[x as int] >> 7u8)
                    .update(x as int, ((2 * regs[x as int]) % 256) as u8),
                ..s
            },
            2,
        ),
        Instruction::SkipNeReg { x, y } => adv_pc(
            s,
            if regs[x as int] != regs[y as int] { 4 } else { 2 },
        ),
        Instruction::SetIndex { nnn } => adv_pc(Chip8View { index_register: nnn, ..s }, 2),
        Instruction::JumpPlus { nnn } => Chip8View {
            program_counter: ((nnn + regs[0]) % 4096) as u16,
            ..s
        },
        Instruction::Random { x, nn } => adv_pc(
            Chip8View { registers: regs.update(x as int, rand & nn), ..s },
            2,
        ),
        Instruction::Draw { x, y, n } => {
            let x0 = regs[x as int] as int % 64;
            let y0 = regs[y as int] as int % 32;
            let hit = draw_collision(s.frame_buffer, s.memory, s.index_register, x0, y0, n as int);
            adv_pc(
                Chip8View {
                    frame_buffer: draw_fb(
                        s.frame_buffer,
                        s.memory,
                        s.index_register,
                        x0,
                        y0,
                        n as int,
                    ),
                    registers: regs.update(15, if hit { 1u8 } else { 0u8 }),
                    redraw_pending: true,
                    ..s
                },
                2,
            )
        },
        Instruction::SkipKey { x } => adv_pc(
            s,
            if s.keypad_state[(regs[x as int] & 0xF) as int] { 4 } else { 2 },
        ),
        Instruction::SkipNoKey { x } => adv_pc(
            s,
            if s.keypad_state[(regs[x as int] & 0xF) as int] { 2 } else { 4 },
        ),
        Instruction::ReadDelay { x } => adv_pc(
            Chip8View { registers: regs.update(x as int, s.delay_timer), ..s },
            2,
        ),
        Instruction::WaitKey { x } => adv_pc(
            Chip8View {
                registers: regs.update(x as int, first_pressed(s.keypad_state, 0) as u8),
                ..s
            },
            2,
        ),
        Instruction::SetDelay { x } => adv_pc(Chip8View { delay_timer: regs[x as int], ..s }, 2),
        Instruction::SetSound { x } => adv_pc(Chip8View { sound_timer: regs[x as int], ..s }, 2),
        Instruction::AddIndex { x } => adv_pc(
            Chip8View {
                index_register: ((s.index_register + regs[x as int]) % 4096) as u16,
                ..s
            },
            2,
        ),
        Instruction::FontAddr { x } => adv_pc(
            Chip8View { index_register: (0x50 + 5 * (regs[x as int] & 0xF)) as u16, ..s },
            2,
        ),
        Instruction::StoreBcd { x } => {
            let v = regs[x as int];
            let base = s.index_register as int;
            adv_pc(
                Chip8View {
                    memory: s.memory
                        .update(base, (v / 100) as u8)
                        .update((base + 1) % 4096, ((v / 10) % 10) as u8)
                        .update((base + 2) % 4096, (v % 10) as u8),
                    ..s
                },
                2,
            )
        },
        Instruction::StoreRegs { x } => adv_pc(
            Chip8View { memory: store_regs(s.memory, regs, s.index_register, x as int + 1), ..s },
            2,
        ),
        Instruction::LoadRegs { x } => adv_pc(
            Chip8View {
                registers: Seq::new(
                    16,
                    |i: int| if i <= x as int {
                        s.memory[((s.index_register + i) % 4096) as int]
                    } else {
                        regs[i]
                    },
                ),
                ..s
            },
            2,
        ),
        _ => s,
    }
}

/// Reduction of a sum that overshoots the modulus by less than one period.
pub proof fn lemma_wrap(a: int, m: int)
    requires
        0 < m,
        0 <= a < 2 * m,
    ensures
        a % m == if a < m { a } else { a - m },
{
    if a < m {
        vstd::arithmetic::div_mod::lemma_fundamental_div_mod_converse(a, m, 0, a);
    } else {
        vstd::arithmetic::div_mod::lemma_fundamental_div_mod_converse(a, m, 1, a - m);
    }
}

/// The pixel index covered by sprite cell (r, c) of a draw at (x0, y0).
pub open spec fn cell_index(x0: int, y0: int, r: int, c: int) -> int {
    ((y0 + r) % 32) * 64 + (x0 + c) % 64
}

/// Each sprite cell covers one pixel, and is the row and column of that pixel.
pub proof fn lemma_cell_index(x0: int, y0: int, r: int, c: int)
    requires
        0 <= x0 < 64,
        0 <= y0 < 32,
        0 <= r < 32,
        0 <= c < 64,
    ensures
        0 <= cell_index(x0, y0, r, c) < 2048,
        sprite_row_of(y0, cell_index(x0, y0, r, c)) == r,
        sprite_col_of(x0, cell_index(x0, y0, r, c)) == c,
{
    lemma_wrap(y0 + r, 32);
    lemma_wrap(x0 + c, 64);
    let py = (y0 + r) % 32;
    let px = (x0 + c) % 64;
    let j = py * 64 + px;
    vstd::arithmetic::div_mod::lemma_fundamental_div_mod_converse(j, 64, py, px);
    lemma_wrap(py - y0 + 32, 32);
    lemma_wrap(px - x0 + 64, 64);
}

/// Each pixel is covered by at most one sprite cell: the pixel of a pixel's
/// own row and column is the pixel itself.
pub proof fn lemma_cell_index_onto(x0: int, y0: int, j: int)
    requires
        0 <= x0 < 64,
        0 <= y0 < 32,
        0 <= j < 2048,
    ensures
        0 <= sprite_row_of(y0, j) < 32,
        0 <= sprite_col_of(x0, j) < 64,
        cell_index(x0, y0, sprite_row_of(y0, j), sprite_col_of(x0, j)) == j,
{
    let py = j / 64;
    let px = j % 64;
    vstd::arithmetic::div_mod::lemma_fundamental_div_mod(j, 64);
    vstd::arithmetic::div_mod::lemma_mod_bound(j, 64);
    assert(0 <= py < 32) by {
        vstd::arithmetic::div_mod::lemma_div_pos_is_pos(j, 64);
        if py >= 32 {
            assert(j == 64 * py + px);
        }
    }
    lemma_wrap(py - y0 + 32, 32);
    lemma_wrap(px - x0 + 64, 64);
    let r = sprite_row_of(y0, j);
    let c = sprite_col_of(x0, j);
    lemma_wrap(y0 + r, 32);
    lemma_wrap(x0 + c, 64);
}

/// Storing registers does not change the size of memory.
pub proof fn lemma_store_regs_len(mem: Seq<u8>, regs: Seq<u8>, base: u16, cnt: int)
    requires
        mem.len() == 4096,
        base < 4096,
    ensures
        store_regs(mem, regs, base, cnt).len() == 4096,
    decreases cnt,
{
    if cnt > 0 {
        lemma_store_regs_len(mem, regs, base, cnt - 1);
    }
}

/// Two offsets below 16 from one base land on distinct memory addresses.
pub proof fn lemma_offsets_distinct(base: u16, i: int, k: int)
    requires
        base < 4096,
        0 <= i < k < 16,
    ensures
        (base + i) % 4096 != (base + k) % 4096,
{
    lemma_wrap(base + i, 4096);
    lemma_wrap(base + k, 4096);
}

/// After a store of the first `cnt` registers, each stored register is read
/// back at its own address.
pub proof fn lemma_store_regs_at(mem: Seq<u8>, regs: Seq<u8>, base: u16, cnt: int, i: int)
    requires
        mem.len() == 4096,
        base < 4096,
        0 <= i < cnt <= 16,
    ensures
        store_regs(mem, regs, base, cnt)[((base + i) % 4096) as int] == regs[i],
    decreases cnt,
{
    lemma_store_regs_len(mem, regs, base, cnt - 1);
    if i == cnt - 1 {
        vstd::arithmetic::div_mod::lemma_mod_bound(base + i, 4096);
    } else {
        lemma_offsets_distinct(base, i, cnt - 1);
        lemma_store_regs_at(mem, regs, base, cnt - 1, i);
        vstd::arithmetic::div_mod::lemma_mod_bound(base + i, 4096);
        vstd::arithmetic::div_mod::lemma_mod_bound(base + cnt - 1, 4096);
    }
}

/// A store of the first `cnt` registers touches no address outside its range.
pub proof fn lemma_store_regs_other(mem: Seq<u8>, regs: Seq<u8>, base: u16, cnt: int, a: int)
    requires
        mem.len() == 4096,
        base < 4096,
        0 <= cnt <= 16,
        0 <= a < 4096,
        forall|i: int| 0 <= i < cnt ==> #[trigger] ((base + i) % 4096) != a,
    ensures
        store_regs(mem, regs, base, cnt)[a] == mem[a],
    decreases cnt,
{
    if cnt > 0 {
        lemma_store_regs_other(mem, regs, base, cnt - 1, a);
        lemma_store_regs_len(mem, regs, base, cnt - 1);
    }
}

/// The first pressed key is a key index, or 16 when nothing is pressed; when
/// it is a key index, that key is pressed.
pub proof fn lemma_first_pressed_bounds(keys: Seq<bool>, k: int)
    requires
        keys.len() == 16,
        0 <= k <= 16,
    ensures
        k <= first_pressed(keys, k) <= 16,
        first_pressed(keys, k) < 16 ==> keys[first_pressed(keys, k)],
    decreases 16 - k,
{
    if k < 16 && !keys[k] {
        lemma_first_pressed_bounds(keys, k + 1);
    }
}

/// A step that neither faults nor waits leads to a well-formed state: sizes
/// are kept, addresses stay inside memory, the stack never grows past 16,
/// and pixels stay bits.
pub proof fn lemma_exec_post_wf(s: Chip8View, i: Instruction, rand: u8)
    requires
        s.wf(),
        crate::decode::instr_wf(i),
        !step_faults(s, i),
        !step_waits(s, i),
    ensures
        exec_post(s, i, rand).wf(),
{
    match i {
        Instruction::Draw { x, y, n } => {
            let x0 = s.registers[x as int] as int % 64;
            let y0 = s.registers[y as int] as int % 32;
            let fb = draw_fb(s.frame_buffer, s.memory, s.index_register, x0, y0, n as int);
            assert forall|j: int| 0 <= j < 2048 implies fb[j] <= 1 by {
                let p = sprite_pixel(s.memory, s.index_register, x0, y0, n as int, j);
                // a sprite bit is a bit, and XOR of bits is a bit
                assert(forall|b: u8, sh: u8| sh < 8 ==> ((b >> sh) & 1) <= 1) by (bit_vector);
                assert(forall|a: u8, b: u8| a <= 1 && b <= 1 ==> (a ^ b) <= 1) by (bit_vector);
                let r = sprite_row_of(y0, j);
                let c = sprite_col_of(x0, j);
                if r < n as int && c < 8 {
                    vstd::arithmetic::div_mod::lemma_mod_bound(j / 64 - y0 + 32, 32);
                    vstd::arithmetic::div_mod::lemma_mod_bound(j % 64 - x0 + 64, 64);
                    vstd::arithmetic::div_mod::lemma_mod_bound(s.index_register + r, 4096);
                }
            }
        },
        Instruction::SkipKey { x } => {
            let v = s.registers[x as int];
            assert((v & 0xF) < 16) by (bit_vector);
        },
        Instruction::SkipNoKey { x } => {
            let v = s.registers[x as int];
            assert((v & 0xF) < 16) by (bit_vector);
        },
        Instruction::FontAddr { x } => {
            let v = s.registers[x as int];
            assert((v & 0xF) < 16) by (bit_vector);
        },
        Instruction::WaitKey { x } => {
            lemma_first_pressed_bounds(s.keypad_state, 0);
        },
        Instruction::StoreRegs { x } => {
            lemma_store_regs_len(s.memory, s.registers, s.index_register, x as int + 1);
        },
        _ => {},
    }
}

/// The outcome of one full cycle: either the next state with its tone and
/// waiting signals, or the fault that ends the run.
pub enum CycleSpec {
    Step { post: Chip8View, tone: bool, waiting: bool },
    Fault { err: Chip8Error },
}

/// One cycle: fetch, decode, execute, then decay the timers. A tone is due
/// exactly when the sound timer stands at 1 after the instruction, so that
/// it reaches 0 by this cycle's decay. A waiting cycle leaves everything but
/// the timers unchanged.
pub open spec fn spec_cycle(s: Chip8View, rand: u8) -> CycleSpec {
    let word = fetch_word(s);
    let i = spec_decode(word);
    if step_faults(s, i) {
        CycleSpec::Fault { err: fault_of(s, i, word) }
    } else if step_waits(s, i) {
        CycleSpec::Step { post: tick_timers(s), tone: s.sound_timer == 1, waiting: true }
    } else {
        let p = exec_post(s, i, rand);
        CycleSpec::Step { post: tick_timers(p), tone: p.sound_timer == 1, waiting: false }
    }
}

/// The outcome of a bounded run: the final state, or the first fault.
pub enum RunSpec {
    Done { post: Chip8View },
    Fault { err: Chip8Error },
}

/// A run of one cycle per random byte, stopped by the first fault.
pub open spec fn spec_run(s: Chip8View, rands: Seq<u8>) -> RunSpec
    decreases rands.len(),
{
    if rands.len() == 0 {
        RunSpec::Done { post: s }
    } else {
        match spec_cycle(s, rands[0]) {
            CycleSpec::Step { post, .. } => spec_run(post, rands.drop_first()),
            CycleSpec::Fault { err } => RunSpec::Fault { err },
        }
    }
}

} // verus!
