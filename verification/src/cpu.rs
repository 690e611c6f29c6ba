//! The machine itself: the state object, the executor and the cycle driver.

use vstd::prelude::*;
use crate::state::{Chip8View, Chip8Error, spec_fontset, new_view, reset_view, fetch_word};
use crate::decode::{Instruction, spec_decode, decode};
use crate::step::{adv_pc, sprite_pixel, sprite_pixel_upto, sprite_row_of, sprite_col_of,
    draw_fb, draw_collision, cell_index, lemma_cell_index, lemma_cell_index_onto, store_regs,
    lemma_store_regs_len, first_pressed, step_faults, fault_of, step_waits, exec_post,
    lemma_exec_post_wf, CycleSpec, spec_cycle, RunSpec, spec_run};

verus! {

/// One CHIP-8 machine. All fields are private; contracts speak of the
/// abstract view, and the host reaches the state through the methods below.
pub struct Chip8 {
    memory: Vec<u8>,
    registers: Vec<u8>,
    index_register: u16,
    program_counter: u16,
    stack: Vec<u16>,
    delay_timer: u8,
    sound_timer: u8,
    frame_buffer: Vec<u8>,
    redraw_pending: bool,
    keypad_state: Vec<bool>,
}

impl View for Chip8 {
    type V = Chip8View;

    closed spec fn view(&self) -> Chip8View {
        Chip8View {
            memory: self.memory@,
            registers: self.registers@,
            index_register: self.index_register,
            program_counter: self.program_counter,
            stack: self.stack@,
            delay_timer: self.delay_timer,
            sound_timer: self.sound_timer,
            frame_buffer: self.frame_buffer@,
            redraw_pending: self.redraw_pending,
            keypad_state: self.keypad_state@,
        }
    }
}

/// What one cycle hands back to the host beside the state: whether a tone is
/// due (the sound timer just ran out) and whether the machine is parked on a
/// wait-for-key instruction.
#[derive(Clone, Copy, Debug, PartialEq, Eq, Structural)]
pub struct CycleOutcome {
    pub tone: bool,
    pub waiting: bool,
}

/// A vector of `n` zero bytes.
fn zero_bytes(n: usize) -> (v: Vec<u8>)
    ensures
        v@.len() == n,
        forall|i: int| 0 <= i < n ==> v@[i] == 0u8,
{
    let mut v: Vec<u8> = Vec::new();
    let mut k: usize = 0;
    while k < n
        invariant
            k <= n,
            v@.len() == k,
            forall|i: int| 0 <= i < k ==> v@[i] == 0u8,
        decreases n - k,
    {
        v.push(0);
        k = k + 1;
    }
    v
}

/// A keypad with all 16 keys released.
fn released_keys() -> (v: Vec<bool>)
    ensures
        v@.len() == 16,
        forall|i: int| 0 <= i < 16 ==> v@[i] == false,
{
    let mut keys: Vec<bool> = Vec::new();
    let mut k: usize = 0;
    while k < 16
        invariant
            k <= 16,
            keys@.len() == k,
            forall|i: int| 0 <= i < k ==> keys@[i] == false,
        decreases 16 - k,
    {
        keys.push(false);
        k = k + 1;
    }
    keys
}

impl Chip8 {
    /// Whether the concrete state is well formed; equal to the view's own
    /// well-formedness.
    pub open spec fn wf(&self) -> bool {
        self@.wf()
    }

    /// A machine as constructed: memory, registers, screen, stack, timers and
    /// keypad all cleared, program counter at 0. `boot` makes it runnable.
    pub fn new() -> (m: Chip8)
        ensures
            m@ == new_view(),
            m.wf(),
    {
        let m = Chip8 {
            memory: zero_bytes(4096),
            registers: zero_bytes(16),
            index_register: 0,
            program_counter: 0,
            stack: Vec::new(),
            delay_timer: 0,
            sound_timer: 0,
            frame_buffer: zero_bytes(2048),
            redraw_pending: false,
            keypad_state: released_keys(),
        };
        proof {
            assert(m@.memory =~= new_view().memory);
            assert(m@.registers =~= new_view().registers);
            assert(m@.stack =~= new_view().stack);
            assert(m@.frame_buffer =~= new_view().frame_buffer);
            assert(m@.keypad_state =~= new_view().keypad_state);
            assert(m@ =~= new_view());
        }
        m
    }

    /// Write the built-in font into memory at 0x050..0x0A0; the rest of
    /// memory is untouched.
    fn load_fontset_in_memory(&mut self)
        requires
            old(self).wf(),
        ensures
            final(self)@ == (Chip8View {
                memory: Seq::new(
                    4096,
                    |i: int| if 0x50 <= i < 0xA0 {
                        spec_fontset()[i - 0x50]
                    } else {
                        old(self)@.memory[i]
                    },
                ),
                ..old(self)@
            }),
    {
        let font = fontset();
        let mut k: usize = 0;
        while k < 80
            invariant
                k <= 80,
                font@ == spec_fontset(),
                self.memory@.len() == 4096,
                forall|i: int| 0 <= i < k ==> self.memory@[0x50 + i] == spec_fontset()[i],
                forall|i: int|
                    0 <= i < 4096 && !(0x50 <= i < 0x50 + k) ==> self.memory@[i] == old(
                        self,
                    )@.memory[i],
                self.registers == old(self).registers,
                self.index_register == old(self).index_register,
                self.program_counter == old(self).program_counter,
                self.stack == old(self).stack,
                self.delay_timer == old(self).delay_timer,
                self.sound_timer == old(self).sound_timer,
                self.frame_buffer == old(self).frame_buffer,
                self.redraw_pending == old(self).redraw_pending,
                self.keypad_state == old(self).keypad_state,
            decreases 80 - k,
        {
            self.memory[0x50 + k] = font[k];
            k = k + 1;
        }
        proof {
            assert(self@.memory =~= Seq::new(
                4096,
                |i: int| if 0x50 <= i < 0xA0 {
                    spec_fontset()[i - 0x50]
                } else {
                    old(self)@.memory[i]
                },
            ));
            assert(self@ =~= (Chip8View {
                memory: Seq::new(
                    4096,
                    |i: int| if 0x50 <= i < 0xA0 {
                        spec_fontset()[i - 0x50]
                    } else {
                        old(self)@.memory[i]
                    },
                ),
                ..old(self)@
            }));
        }
    }

    /// Reset the machine to the state every session starts from: memory
    /// cleared but for the font, program counter at 0x200, registers, stack,
    /// screen, timers and keypad cleared.
    pub fn initialize(&mut self)
        ensures
            final(self)@ == reset_view(),
            final(self).wf(),
    {
        self.memory = zero_bytes(4096);
        self.registers = zero_bytes(16);
        self.index_register = 0;
        self.program_counter = 0x200;
        self.stack = Vec::new();
        self.delay_timer = 0;
        self.sound_timer = 0;
        self.frame_buffer = zero_bytes(2048);
        self.redraw_pending = false;
        self.keypad_state = released_keys();
        proof {
            assert(self.wf());
        }
        self.load_fontset_in_memory();
        proof {
            assert(self@.memory =~= reset_view().memory);
            assert(self@.registers =~= reset_view().registers);
            assert(self@.stack =~= reset_view().stack);
            assert(self@.frame_buffer =~= reset_view().frame_buffer);
            assert(self@.keypad_state =~= reset_view().keypad_state);
            assert(self@ =~= reset_view());
        }
    }

    /// Copy a ROM image verbatim into memory starting at 0x200. A ROM longer
    /// than the 3584 bytes above the reserved area is rejected unloaded.
    pub fn load_program(&mut self, rom: &Vec<u8>) -> (r: Result<(), Chip8Error>)
        requires
            old(self).wf(),
        ensures
            final(self).wf(),
            rom@.len() > 3584 ==> r == Err::<(), Chip8Error>(Chip8Error::RomTooLarge {
                len: rom@.len() as usize,
            }) && final(self)@ == old(self)@,
            rom@.len() <= 3584 ==> r == Ok::<(), Chip8Error>(()) && final(self)@ == (Chip8View {
                memory: Seq::new(
                    4096,
                    |i: int| if 0x200 <= i < 0x200 + rom@.len() {
                        rom@[i - 0x200]
                    } else {
                        old(self)@.memory[i]
                    },
                ),
                ..old(self)@
            }),
    {
        if rom.len() > 3584 {
            return Err(Chip8Error::RomTooLarge { len: rom.len() });
        }
        let mut k: usize = 0;
        while k < rom.len()
            invariant
                rom@.len() <= 3584,
                k <= rom@.len(),
                self.memory@.len() == 4096,
                forall|i: int| 0 <= i < k ==> self.memory@[0x200 + i] == rom@[i],
                forall|i: int|
                    0 <= i < 4096 && !(0x200 <= i < 0x200 + k) ==> self.memory@[i] == old(
                        self,
                    )@.memory[i],
                self.registers == old(self).registers,
                self.index_register == old(self).index_register,
                self.program_counter == old(self).program_counter,
                self.stack == old(self).stack,
                self.delay_timer == old(self).delay_timer,
                self.sound_timer == old(self).sound_timer,
                self.frame_buffer == old(self).frame_buffer,
                self.redraw_pending == old(self).redraw_pending,
                self.keypad_state == old(self).keypad_state,
            decreases rom@.len() - k,
        {
            self.memory[0x200 + k] = rom[k];
            k = k + 1;
        }
        proof {
            assert(self@.memory =~= Seq::new(
                4096,
                |i: int| if 0x200 <= i < 0x200 + rom@.len() {
                    rom@[i - 0x200]
                } else {
                    old(self)@.memory[i]
                },
            ));
            assert(self@ =~= (Chip8View {
                memory: Seq::new(
                    4096,
                    |i: int| if 0x200 <= i < 0x200 + rom@.len() {
                        rom@[i - 0x200]
                    } else {
                        old(self)@.memory[i]
                    },
                ),
                ..old(self)@
            }));
        }
        Ok(())
    }

    /// Boot the machine: reset it, install the font, and load the ROM at
    /// 0x200. Boot fails, leaving a freshly reset machine without a program,
    /// exactly when the ROM does not fit.
    pub fn boot(&mut self, rom: &Vec<u8>) -> (r: Result<(), Chip8Error>)
        ensures
            final(self).wf(),
            rom@.len() > 3584 ==> r == Err::<(), Chip8Error>(Chip8Error::RomTooLarge {
                len: rom@.len() as usize,
            }) && final(self)@ == reset_view(),
            rom@.len() <= 3584 ==> r == Ok::<(), Chip8Error>(()) && final(self)@ == (Chip8View {
                memory: Seq::new(
                    4096,
                    |i: int| if 0x200 <= i < 0x200 + rom@.len() {
                        rom@[i - 0x200]
                    } else {
                        reset_view().memory[i]
                    },
                ),
                ..reset_view()
            }),
    {
        self.initialize();
        self.load_program(rom)
    }

    /// Fetch the big-endian instruction word at the program counter.
    pub fn fetch_opcode(&self) -> (w: u16)
        requires
            self.wf(),
        ensures
            w == fetch_word(self@),
    {
        let hi = self.memory[self.program_counter as usize];
        let lo = self.memory[((self.program_counter + 1) % 4096) as usize];
        ((hi as u16) << 8u16) | (lo as u16)
    }

    /// Set or clear the flag register (register 0xF).
    fn carry_flag(&mut self, flag: bool)
        requires
            old(self).wf(),
        ensures
            final(self)@ == (Chip8View {
                registers: old(self)@.registers.update(15, if flag { 1u8 } else { 0u8 }),
                ..old(self)@
            }),
    {
        self.registers[15] = if flag { 1 } else { 0 };
    }

    /// Take the keypad state the host polled: one flag per hexadecimal key.
    pub fn set_keys(&mut self, keys: &Vec<bool>)
        requires
            old(self).wf(),
            keys@.len() == 16,
        ensures
            final(self).wf(),
            final(self)@ == (Chip8View { keypad_state: keys@, ..old(self)@ }),
    {
        let mut k: usize = 0;
        while k < 16
            invariant
                k <= 16,
                keys@.len() == 16,
                self.keypad_state@.len() == 16,
                forall|i: int| 0 <= i < k ==> self.keypad_state@[i] == keys@[i],
                self.memory == old(self).memory,
                self.registers == old(self).registers,
                self.index_register == old(self).index_register,
                self.program_counter == old(self).program_counter,
                self.stack == old(self).stack,
                self.delay_timer == old(self).delay_timer,
                self.sound_timer == old(self).sound_timer,
                self.frame_buffer == old(self).frame_buffer,
                self.redraw_pending == old(self).redraw_pending,
            decreases 16 - k,
        {
            self.keypad_state[k] = keys[k];
            k = k + 1;
        }
        proof {
            assert(self@.keypad_state =~= keys@);
            assert(self@ =~= (Chip8View { keypad_state: keys@, ..old(self)@ }));
        }
    }

    /// Hand the host a copy of the frame buffer and mark the frame consumed.
    pub fn draw_graphics(&mut self) -> (fb: Vec<u8>)
        requires
            old(self).wf(),
        ensures
            final(self).wf(),
            fb@ == old(self)@.frame_buffer,
            final(self)@ == (Chip8View { redraw_pending: false, ..old(self)@ }),
    {
        let mut fb: Vec<u8> = Vec::new();
        let mut k: usize = 0;
        while k < 2048
            invariant
                k <= 2048,
                fb@.len() == k,
                self == old(self),
                old(self).wf(),
                forall|i: int| 0 <= i < k ==> fb@[i] == self.frame_buffer@[i],
            decreases 2048 - k,
        {
            fb.push(self.frame_buffer[k]);
            k = k + 1;
        }
        self.redraw_pending = false;
        proof {
            assert(fb@ =~= old(self)@.frame_buffer);
            assert(self@ =~= (Chip8View { redraw_pending: false, ..old(self)@ }));
        }
        fb
    }

    /// Advance the program counter past one instruction (2) or past a
    /// skipped one (4), wrapping at the end of memory.
    fn advance(&mut self, steps: u16)
        requires
            old(self).wf(),
            steps == 2 || steps == 4,
        ensures
            final(self)@ == adv_pc(old(self)@, steps),
    {
        self.program_counter = (self.program_counter + steps) % 4096;
    }

    /// The smallest pressed key, when one is pressed.
    fn find_pressed(&self) -> (r: Option<u8>)
        requires
            self.wf(),
        ensures
            match r {
                Option::None => first_pressed(self@.keypad_state, 0) == 16,
                Option::Some(k) => k < 16 && k as int == first_pressed(self@.keypad_state, 0),
            },
    {
        let mut k: usize = 0;
        while k < 16
            invariant
                self.wf(),
                k <= 16,
                first_pressed(self@.keypad_state, 0) == first_pressed(self@.keypad_state, k as int),
            decreases 16 - k,
        {
            if self.keypad_state[k] {
                return Some(k as u8);
            }
            k = k + 1;
        }
        None
    }

    /// Store registers 0..=x into memory at the index register (Fx55).
    fn op_store_regs(&mut self, x: u8)
        requires
            old(self).wf(),
            x < 16,
        ensures
            final(self)@ == (Chip8View {
                memory: store_regs(
                    old(self)@.memory,
                    old(self)@.registers,
                    old(self)@.index_register,
                    x as int + 1,
                ),
                ..old(self)@
            }),
    {
        let base = self.index_register;
        let mut k: usize = 0;
        while k <= x as usize
            invariant
                old(self).wf(),
                x < 16,
                k <= x as usize + 1,
                base == old(self)@.index_register,
                self.memory@.len() == 4096,
                self.memory@ == store_regs(
                    old(self)@.memory,
                    old(self)@.registers,
                    base,
                    k as int,
                ),
                self.registers == old(self).registers,
                self.index_register == old(self).index_register,
                self.program_counter == old(self).program_counter,
                self.stack == old(self).stack,
                self.delay_timer == old(self).delay_timer,
                self.sound_timer == old(self).sound_timer,
                self.frame_buffer == old(self).frame_buffer,
                self.redraw_pending == old(self).redraw_pending,
                self.keypad_state == old(self).keypad_state,
            decreases x as int + 1 - k,
        {
            let addr = ((base + k as u16) % 4096) as usize;
            self.memory[addr] = self.registers[k];
            k = k + 1;
        }
        proof {
            assert(self@ =~= (Chip8View {
                memory: store_regs(
                    old(self)@.memory,
                    old(self)@.registers,
                    old(self)@.index_register,
                    x as int + 1,
                ),
                ..old(self)@
            }));
        }
    }

    /// Load registers 0..=x from memory at the index register (Fx65).
    fn op_load_regs(&mut self, x: u8)
        requires
            old(self).wf(),
            x < 16,
        ensures
            final(self)@ == (Chip8View {
                registers: Seq::new(
                    16,
                    |i: int| if i <= x as int {
                        old(self)@.memory[((old(self)@.index_register + i) % 4096) as int]
                    } else {
                        old(self)@.registers[i]
                    },
                ),
                ..old(self)@
            }),
    {
        let base = self.index_register;
        let mut k: usize = 0;
        while k <= x as usize
            invariant
                old(self).wf(),
                x < 16,
                k <= x as usize + 1,
                base == old(self)@.index_register,
                self.registers@.len() == 16,
                forall|i: int|
                    0 <= i < k ==> self.registers@[i] == old(self)@.memory[((base + i)
                        % 4096) as int],
                forall|i: int| k <= i < 16 ==> self.registers@[i] == old(self)@.registers[i],
                self.memory == old(self).memory,
                self.index_register == old(self).index_register,
                self.program_counter == old(self).program_counter,
                self.stack == old(self).stack,
                self.delay_timer == old(self).delay_timer,
                self.sound_timer == old(self).sound_timer,
                self.frame_buffer == old(self).frame_buffer,
                self.redraw_pending == old(self).redraw_pending,
                self.keypad_state == old(self).keypad_state,
            decreases x as int + 1 - k,
        {
            let addr = ((base + k as u16) % 4096) as usize;
            self.registers[k] = self.memory[addr];
            k = k + 1;
        }
        proof {
            assert(self@.registers =~= Seq::new(
                16,
                |i: int| if i <= x as int {
                    old(self)@.memory[((old(self)@.index_register + i) % 4096) as int]
                } else {
                    old(self)@.registers[i]
                },
            ));
            assert(self@ =~= (Chip8View {
                registers: Seq::new(
                    16,
                    |i: int| if i <= x as int {
                        old(self)@.memory[((old(self)@.index_register + i) % 4096) as int]
                    } else {
                        old(self)@.registers[i]
                    },
                ),
                ..old(self)@
            }));
        }
    }

    /// XOR-composite an n-row sprite from memory at the index register onto
    /// the screen at (registers[x], registers[y]), with wraparound; the flag
    /// register records whether any pixel was erased (Dxyn).
    fn op_draw(&mut self, x: u8, y: u8, n: u8)
        requires
            old(self).wf(),
            x < 16,
            y < 16,
            n < 16,
        ensures
            final(self).wf(),
            ({
                let s = old(self)@;
                let x0 = s.registers[x as int] as int % 64;
                let y0 = s.registers[y as int] as int % 32;
                final(self)@ == (Chip8View {
                    frame_buffer: draw_fb(s.frame_buffer, s.memory, s.index_register, x0, y0, n as int),
                    registers: s.registers.update(
                        15,
                        if draw_collision(s.frame_buffer, s.memory, s.index_register, x0, y0, n as int) {
                            1u8
                        } else {
                            0u8
                        },
                    ),
                    redraw_pending: true,
                    ..s
                })
            }),
    {
        let ghost s = old(self)@;
        let x0: u16 = (self.registers[x as usize] % 64) as u16;
        let y0: u16 = (self.registers[y as usize] % 32) as u16;
        let base: u16 = self.index_register;
        let ghost gn = n as int;
        let mut collision: bool = false;
        proof {
            assert(forall|a: u8| #[trigger] (a ^ 0) == a) by (bit_vector);
        }
        let mut r: u16 = 0;
        while r < n as u16
            invariant
                old(self).wf(),
                x < 16,
                y < 16,
                n < 16,
                r <= n as u16,
                s == old(self)@,
                x0 as int == s.registers[x as int] as int % 64,
                y0 as int == s.registers[y as int] as int % 32,
                x0 < 64,
                y0 < 32,
                base == s.index_register,
                base < 4096,
                gn == n as int,
                self.frame_buffer@.len() == 2048,
                forall|j: int|
                    0 <= j < 2048 ==> self.frame_buffer@[j] == s.frame_buffer[j] ^ sprite_pixel_upto(
                        s.memory,
                        base,
                        x0 as int,
                        y0 as int,
                        gn,
                        r as int,
                        0,
                        j,
                    ),
                collision == exists|j: int|
                    0 <= j < 2048 && s.frame_buffer[j] == 1 && sprite_pixel_upto(
                        s.memory,
                        base,
                        x0 as int,
                        y0 as int,
                        gn,
                        r as int,
                        0,
                        j,
                    ) == 1,
                self.memory == old(self).memory,
                self.registers == old(self).registers,
                self.index_register == old(self).index_register,
                self.program_counter == old(self).program_counter,
                self.stack == old(self).stack,
                self.delay_timer == old(self).delay_timer,
                self.sound_timer == old(self).sound_timer,
                self.keypad_state == old(self).keypad_state,
            decreases n as int - r as int,
        {
            let addr = ((base + r) % 4096) as usize;
            let row_byte = self.memory[addr];
            let mut c: u16 = 0;
            while c < 8
                invariant
                    old(self).wf(),
                    x < 16,
                    y < 16,
                    n < 16,
                    r < n as u16,
                    c <= 8,
                    s == old(self)@,
                    x0 as int == s.registers[x as int] as int % 64,
                    y0 as int == s.registers[y as int] as int % 32,
                    x0 < 64,
                    y0 < 32,
                    base == s.index_register,
                    base < 4096,
                    gn == n as int,
                    addr == ((base + r as int) % 4096),
                    row_byte == s.memory[addr as int],
                    self.frame_buffer@.len() == 2048,
                    forall|j: int|
                        0 <= j < 2048 ==> self.frame_buffer@[j] == s.frame_buffer[j]
                            ^ sprite_pixel_upto(
                            s.memory,
                            base,
                            x0 as int,
                            y0 as int,
                            gn,
                            r as int,
                            c as int,
                            j,
                        ),
                    collision == exists|j: int|
                        0 <= j < 2048 && s.frame_buffer[j] == 1 && sprite_pixel_upto(
                            s.memory,
                            base,
                            x0 as int,
                            y0 as int,
                            gn,
                            r as int,
                            c as int,
                            j,
                        ) == 1,
                    self.memory == old(self).memory,
                    self.registers == old(self).registers,
                    self.index_register == old(self).index_register,
                    self.program_counter == old(self).program_counter,
                    self.stack == old(self).stack,
                    self.delay_timer == old(self).delay_timer,
                    self.sound_timer == old(self).sound_timer,
                    self.keypad_state == old(self).keypad_state,
                decreases 8 - c as int,
            {
                let bit = (row_byte >> ((7 - c) as u8)) & 1;
                proof {
                    assert(forall|b: u8, sh: u8| #[trigger] ((b >> sh) & 1) <= 1) by (bit_vector);
                    assert(bit <= 1);
                }
                let py = (y0 + r) % 32;
                let px = (x0 + c) % 64;
                let j = (py * 64 + px) as usize;
                proof {
                    lemma_cell_index(x0 as int, y0 as int, r as int, c as int);
                    assert(j as int == cell_index(x0 as int, y0 as int, r as int, c as int));
                    assert(sprite_pixel(s.memory, base, x0 as int, y0 as int, gn, j as int)
                        == bit);
                }
                let ghost fb_before = self.frame_buffer@;
                let ghost col_before = collision;
                let cur = self.frame_buffer[j];
                if bit == 1 {
                    if cur == 1 {
                        collision = true;
                    }
                    self.frame_buffer[j] = cur ^ 1;
                }
                proof {
                    let gj = j as int;
                    let gx0 = x0 as int;
                    let gy0 = y0 as int;
                    let gr = r as int;
                    let gc = c as int;
                    assert(forall|a: u8| #[trigger] (a ^ 0) == a) by (bit_vector);
                    assert(sprite_pixel_upto(s.memory, base, gx0, gy0, gn, gr, gc, gj) == 0);
                    assert(cur == s.frame_buffer[gj]);
                    assert(sprite_pixel_upto(s.memory, base, gx0, gy0, gn, gr, gc + 1, gj)
                        == sprite_pixel(s.memory, base, gx0, gy0, gn, gj));
                    // pixels other than j keep their partial value
                    assert forall|jj: int|
                        0 <= jj < 2048 && jj != gj implies sprite_pixel_upto(
                        s.memory,
                        base,
                        gx0,
                        gy0,
                        gn,
                        gr,
                        gc + 1,
                        jj,
                    ) == sprite_pixel_upto(s.memory, base, gx0, gy0, gn, gr, gc, jj) by {
                        let rr = sprite_row_of(gy0, jj);
                        let cc = sprite_col_of(gx0, jj);
                        if rr == gr && cc == gc {
                            lemma_cell_index_onto(gx0, gy0, jj);
                        }
                    }
                    assert forall|jj: int| 0 <= jj < 2048 implies self.frame_buffer@[jj]
                        == s.frame_buffer[jj] ^ sprite_pixel_upto(
                        s.memory,
                        base,
                        gx0,
                        gy0,
                        gn,
                        gr,
                        gc + 1,
                        jj,
                    ) by {
                        if jj == gj {
                            assert(sprite_pixel_upto(s.memory, base, gx0, gy0, gn, gr, gc + 1, gj)
                                == bit);
                            if bit == 1 {
                                assert(self.frame_buffer@[gj] == cur ^ 1);
                                assert(self.frame_buffer@[gj] == s.frame_buffer[gj] ^ 1);
                            } else {
                                assert(self.frame_buffer@[gj] == fb_before[gj]);
                                assert(self.frame_buffer@[gj] == s.frame_buffer[gj] ^ 0);
                            }
                        } else {
                            assert(self.frame_buffer@[jj] == fb_before[jj]);
                            assert(fb_before[jj] == s.frame_buffer[jj] ^ sprite_pixel_upto(
                                s.memory,
                                base,
                                gx0,
                                gy0,
                                gn,
                                gr,
                                gc,
                                jj,
                            ));
                            assert(sprite_pixel_upto(s.memory, base, gx0, gy0, gn, gr, gc + 1, jj)
                                == sprite_pixel_upto(s.memory, base, gx0, gy0, gn, gr, gc, jj));
                        }
                    }
                    // the collision flag keeps its meaning
                    if collision {
                        if col_before {
                            let jw = choose|jj: int|
                                0 <= jj < 2048 && s.frame_buffer[jj] == 1 && sprite_pixel_upto(
                                    s.memory,
                                    base,
                                    gx0,
                                    gy0,
                                    gn,
                                    gr,
                                    gc,
                                    jj,
                                ) == 1;
                            assert(sprite_pixel_upto(s.memory, base, gx0, gy0, gn, gr, gc + 1, jw)
                                == 1);
                        } else {
                            assert(s.frame_buffer[gj] == 1 && sprite_pixel_upto(
                                s.memory,
                                base,
                                gx0,
                                gy0,
                                gn,
                                gr,
                                gc + 1,
                                gj,
                            ) == 1);
                        }
                    } else {
                        assert forall|jj: int|
                            0 <= jj < 2048 && s.frame_buffer[jj] == 1 implies sprite_pixel_upto(
                            s.memory,
                            base,
                            gx0,
                            gy0,
                            gn,
                            gr,
                            gc + 1,
                            jj,
                        ) != 1 by {
                            if jj == gj {
                                assert(fb_before[gj] == s.frame_buffer[gj]);
                            }
                        }
                    }
                }
                c = c + 1;
            }
            proof {
                assert forall|jj: int| 0 <= jj < 2048 implies sprite_pixel_upto(
                    s.memory,
                    base,
                    x0 as int,
                    y0 as int,
                    gn,
                    r as int + 1,
                    0,
                    jj,
                ) == sprite_pixel_upto(s.memory, base, x0 as int, y0 as int, gn, r as int, 8, jj)
                    by {
                    lemma_cell_index_onto(x0 as int, y0 as int, jj);
                }
            }
            r = r + 1;
        }
        proof {
            assert forall|jj: int| 0 <= jj < 2048 implies sprite_pixel_upto(
                s.memory,
                base,
                x0 as int,
                y0 as int,
                gn,
                gn,
                0,
                jj,
            ) == sprite_pixel(s.memory, base, x0 as int, y0 as int, gn, jj) by {
                lemma_cell_index_onto(x0 as int, y0 as int, jj);
                let rr = sprite_row_of(y0 as int, jj);
                let cc = sprite_col_of(x0 as int, jj);
                if !(rr < gn && cc < 8) {
                    assert(sprite_pixel(s.memory, base, x0 as int, y0 as int, gn, jj) == 0);
                }
            }
            assert(self.frame_buffer@ =~= draw_fb(
                s.frame_buffer,
                s.memory,
                s.index_register,
                x0 as int,
                y0 as int,
                gn,
            ));
            assert(collision == draw_collision(
                s.frame_buffer,
                s.memory,
                s.index_register,
                x0 as int,
                y0 as int,
                gn,
            ));
        }
        self.registers[15] = if collision { 1 } else { 0 };
        self.redraw_pending = true;
        proof {
            assert forall|jj: int| 0 <= jj < 2048 implies self.frame_buffer@[jj] <= 1 by {
                assert(forall|a: u8, b: u8| a <= 1 && b <= 1 ==> (a ^ b) <= 1) by (bit_vector);
                assert(forall|b: u8, sh: u8| sh < 8 ==> ((b >> sh) & 1) <= 1) by (bit_vector);
            }
            assert(self@ =~= (Chip8View {
                frame_buffer: draw_fb(
                    s.frame_buffer,
                    s.memory,
                    s.index_register,
                    s.registers[x as int] as int % 64,
                    s.registers[y as int] as int % 32,
                    n as int,
                ),
                registers: s.registers.update(
                    15,
                    if draw_collision(
                        s.frame_buffer,
                        s.memory,
                        s.index_register,
                        s.registers[x as int] as int % 64,
                        s.registers[y as int] as int % 32,
                        n as int,
                    ) {
                        1u8
                    } else {
                        0u8
                    },
                ),
                redraw_pending: true,
                ..s
            }));
        }
    }

    /// Store registers[x] as three decimal digits — hundreds, tens, units —
    /// at the index register (Fx33).
    fn op_bcd(&mut self, x: u8)
        requires
            old(self).wf(),
            x < 16,
        ensures
            final(self)@ == (Chip8View {
                memory: old(self)@.memory
                    .update(
                        old(self)@.index_register as int,
                        (old(self)@.registers[x as int] / 100) as u8,
                    )
                    .update(
                        (old(self)@.index_register as int + 1) % 4096,
                        ((old(self)@.registers[x as int] / 10) % 10) as u8,
                    )
                    .update(
                        (old(self)@.index_register as int + 2) % 4096,
                        (old(self)@.registers[x as int] % 10) as u8,
                    ),
                ..old(self)@
            }),
    {
        let v = self.registers[x as usize];
        let base = self.index_register;
        self.memory[base as usize] = v / 100;
        self.memory[((base + 1) % 4096) as usize] = (v / 10) % 10;
        self.memory[((base + 2) % 4096) as usize] = v % 10;
        proof {
            assert(self@ =~= (Chip8View {
                memory: old(self)@.memory
                    .update(
                        old(self)@.index_register as int,
                        (old(self)@.registers[x as int] / 100) as u8,
                    )
                    .update(
                        (old(self)@.index_register as int + 1) % 4096,
                        ((old(self)@.registers[x as int] / 10) % 10) as u8,
                    )
                    .update(
                        (old(self)@.index_register as int + 2) % 4096,
                        (old(self)@.registers[x as int] % 10) as u8,
                    ),
                ..old(self)@
            }));
        }
    }

    /// Execute one instruction word. Returns `Ok(true)` when the machine is
    /// waiting on a key (Fx0A with nothing pressed, program counter
    /// unchanged), `Ok(false)` when the instruction ran, and the fatal error
    /// otherwise: a return on an empty stack, a call on a full one, or a word
    /// outside the instruction set. A fatal instruction leaves the state
    /// unchanged.
    pub fn execute(&mut self, word: u16, rand_byte: u8) -> (r: Result<bool, Chip8Error>)
        requires
            old(self).wf(),
        ensures
            final(self).wf(),
            ({
                let i = spec_decode(word);
                let pre = old(self)@;
                &&& (r is Err <==> step_faults(pre, i))
                &&& (step_faults(pre, i) ==> r == Err::<bool, Chip8Error>(fault_of(pre, i, word))
                    && final(self)@ == pre)
                &&& (!step_faults(pre, i) && step_waits(pre, i) ==> r == Ok::<bool, Chip8Error>(
                    true,
                ) && final(self)@ == pre)
                &&& (!step_faults(pre, i) && !step_waits(pre, i) ==> r == Ok::<bool, Chip8Error>(
                    false,
                ) && final(self)@ == exec_post(pre, i, rand_byte))
            }),
    {
        let i = decode(word);
        match i {
            Instruction::ClearScreen => {
                self.frame_buffer = zero_bytes(2048);
                self.redraw_pending = true;
                proof {
                    assert(self.frame_buffer@ =~= Seq::new(2048, |j: int| 0u8));
                }
                self.advance(2);
            },
            Instruction::Return => {
                if self.stack.len() == 0 {
                    return Err(Chip8Error::StackUnderflow {
                        program_counter: self.program_counter,
                        opcode: word,
                    });
                }
                if let Some(a) = self.stack.pop() {
                    self.program_counter = a;
                }
                proof {
                    assert(self@.stack =~= old(self)@.stack.drop_last());
                }
            },
            Instruction::Jump { nnn } => {
                self.program_counter = nnn;
            },
            Instruction::Call { nnn } => {
                if self.stack.len() >= 16 {
                    return Err(Chip8Error::StackOverflow {
                        program_counter: self.program_counter,
                        opcode: word,
                    });
                }
                let ret = (self.program_counter + 2) % 4096;
                self.stack.push(ret);
                self.program_counter = nnn;
            },
            Instruction::SkipEqImm { x, nn } => {
                let v = self.registers[x as usize];
                self.advance(if v == nn { 4 } else { 2 });
            },
            Instruction::SkipNeImm { x, nn } => {
                let v = self.registers[x as usize];
                self.advance(if v != nn { 4 } else { 2 });
            },
            Instruction::SkipEqReg { x, y } => {
                let a = self.registers[x as usize];
                let b = self.registers[y as usize];
                self.advance(if a == b { 4 } else { 2 });
            },
            Instruction::SetImm { x, nn } => {
                self.registers[x as usize] = nn;
                self.advance(2);
            },
            Instruction::AddImm { x, nn } => {
                let v = self.registers[x as usize];
                self.registers[x as usize] = ((v as u16 + nn as u16) % 256) as u8;
                self.advance(2);
            },
            Instruction::CopyReg { x, y } => {
                let b = self.registers[y as usize];
                self.registers[x as usize] = b;
                self.advance(2);
            },
            Instruction::OrReg { x, y } => {
                let a = self.registers[x as usize];
                let b = self.registers[y as usize];
                self.registers[x as usize] = a | b;
                self.advance(2);
            },
            Instruction::AndReg { x, y } => {
                let a = self.registers[x as usize];
                let b = self.registers[y as usize];
                self.registers[x as usize] = a & b;
                self.advance(2);
            },
            Instruction::XorReg { x, y } => {
                let a = self.registers[x as usize];
                let b = self.registers[y as usize];
                self.registers[x as usize] = a ^ b;
                self.advance(2);
            },
            Instruction::AddReg { x, y } => {
                let a = self.registers[x as usize];
                let b = self.registers[y as usize];
                let sum = a as u16 + b as u16;
                self.carry_flag(sum > 255);
                self.registers[x as usize] = (sum % 256) as u8;
                self.advance(2);
            },
            Instruction::SubReg { x, y } => {
                let a = self.registers[x as usize];
                let b = self.registers[y as usize];
                self.carry_flag(a >= b);
                self.registers[x as usize] = ((a as u16 + 256 - b as u16) % 256) as u8;
                self.advance(2);
            },
            Instruction::ShiftRight { x, y: _ } => {
                let a = self.registers[x as usize];
                self.registers[15] = a & 1;
                self.registers[x as usize] = a >> 1u8;
                self.advance(2);
            },
            Instruction::SubFrom { x, y } => {
                let a = self.registers[x as usize];
                let b = self.registers[y as usize];
                self.carry_flag(b >= a);
                self.registers[x as usize] = ((b as u16 + 256 - a as u16) % 256) as u8;
                self.advance(2);
            },
            Instruction::ShiftLeft { x, y: _ } => {
                let a = self.registers[x as usize];
                self.registers[15] = a >> 7u8;
                self.registers[x as usize] = ((2 * a as u16) % 256) as u8;
                self.advance(2);
            },
            Instruction::SkipNeReg { x, y } => {
                let a = self.registers[x as usize];
                let b = self.registers[y as usize];
                self.advance(if a != b { 4 } else { 2 });
            },
            Instruction::SetIndex { nnn } => {
                self.index_register = nnn;
                self.advance(2);
            },
            Instruction::JumpPlus { nnn } => {
                self.program_counter = (nnn + self.registers[0] as u16) % 4096;
            },
            Instruction::Random { x, nn } => {
                self.registers[x as usize] = rand_byte & nn;
                self.advance(2);
            },
            Instruction::Draw { x, y, n } => {
                self.op_draw(x, y, n);
                self.advance(2);
            },
            Instruction::SkipKey { x } => {
                let v = self.registers[x as usize];
                proof {
                    assert(forall|b: u8| #[trigger] (b & 0xF) < 16) by (bit_vector);
                }
                let pressed = self.keypad_state[(v & 0xF) as usize];
                self.advance(if pressed { 4 } else { 2 });
            },
            Instruction::SkipNoKey { x } => {
                let v = self.registers[x as usize];
                proof {
                    assert(forall|b: u8| #[trigger] (b & 0xF) < 16) by (bit_vector);
                }
                let pressed = self.keypad_state[(v & 0xF) as usize];
                self.advance(if pressed { 2 } else { 4 });
            },
            Instruction::ReadDelay { x } => {
                let t = self.delay_timer;
                self.registers[x as usize] = t;
                self.advance(2);
            },
            Instruction::WaitKey { x } => {
                match self.find_pressed() {
                    Option::None => {
                        return Ok(true);
                    },
                    Option::Some(k) => {
                        self.registers[x as usize] = k;
                        self.advance(2);
                    },
                }
            },
            Instruction::SetDelay { x } => {
                self.delay_timer = self.registers[x as usize];
                self.advance(2);
            },
            Instruction::SetSound { x } => {
                self.sound_timer = self.registers[x as usize];
                self.advance(2);
            },
            Instruction::AddIndex { x } => {
                let v = self.registers[x as usize];
                self.index_register = (self.index_register + v as u16) % 4096;
                self.advance(2);
            },
            Instruction::FontAddr { x } => {
                let d = self.registers[x as usize] & 0xF;
                proof {
                    assert(forall|b: u8| #[trigger] (b & 0xF) < 16) by (bit_vector);
                }
                self.index_register = 0x50 + 5 * (d as u16);
                self.advance(2);
            },
            Instruction::StoreBcd { x } => {
                self.op_bcd(x);
                self.advance(2);
            },
            Instruction::StoreRegs { x } => {
                self.op_store_regs(x);
                proof {
                    lemma_store_regs_len(
                        old(self)@.memory,
                        old(self)@.registers,
                        old(self)@.index_register,
                        x as int + 1,
                    );
                }
                self.advance(2);
            },
            Instruction::LoadRegs { x } => {
                self.op_load_regs(x);
                self.advance(2);
            },
            Instruction::Unknown { .. } => {
                return Err(Chip8Error::UnknownInstruction {
                    program_counter: self.program_counter,
                    opcode: word,
                });
            },
        }
        proof {
            lemma_exec_post_wf(old(self)@, spec_decode(word), rand_byte);
        }
        Ok(false)
    }

    /// Run one full cycle: fetch the word at the program counter, execute it,
    /// then decay both timers. Beside the new state the host receives whether
    /// a tone is due — the sound timer just ran out — and whether the machine
    /// is waiting on a key. A fatal cycle leaves the state unchanged and
    /// reports the program counter and the offending word.
    pub fn emulate_cycle(&mut self, rand_byte: u8) -> (r: Result<CycleOutcome, Chip8Error>)
        requires
            old(self).wf(),
        ensures
            final(self).wf(),
            match spec_cycle(old(self)@, rand_byte) {
                CycleSpec::Step { post, tone, waiting } => r == Ok::<CycleOutcome, Chip8Error>(
                    CycleOutcome { tone, waiting },
                ) && final(self)@ == post,
                CycleSpec::Fault { err } => r == Err::<CycleOutcome, Chip8Error>(err)
                    && final(self)@ == old(self)@,
            },
    {
        let word = self.fetch_opcode();
        let waiting = match self.execute(word, rand_byte) {
            Ok(w) => w,
            Err(e) => {
                return Err(e);
            },
        };
        if self.delay_timer > 0 {
            self.delay_timer = self.delay_timer - 1;
        }
        let tone = self.sound_timer == 1;
        if self.sound_timer > 0 {
            self.sound_timer = self.sound_timer - 1;
        }
        Ok(CycleOutcome { tone, waiting })
    }

    /// Run one cycle per supplied random byte, stopping at the first fatal
    /// cycle. Waiting cycles count like any other; the keypad is whatever
    /// `set_keys` last stored.
    pub fn run(&mut self, rand_bytes: &Vec<u8>) -> (r: Result<(), Chip8Error>)
        requires
            old(self).wf(),
        ensures
            final(self).wf(),
            match spec_run(old(self)@, rand_bytes@) {
                RunSpec::Done { post } => r == Ok::<(), Chip8Error>(()) && final(self)@ == post,
                RunSpec::Fault { err } => r == Err::<(), Chip8Error>(err),
            },
    {
        proof {
            assert(rand_bytes@.skip(0) =~= rand_bytes@);
        }
        let mut k: usize = 0;
        while k < rand_bytes.len()
            invariant
                k <= rand_bytes@.len(),
                self.wf(),
                spec_run(old(self)@, rand_bytes@) == spec_run(
                    self@,
                    rand_bytes@.skip(k as int),
                ),
            decreases rand_bytes@.len() - k,
        {
            let ghost pre = self@;
            let res = self.emulate_cycle(rand_bytes[k]);
            proof {
                assert(rand_bytes@.skip(k as int)[0] == rand_bytes@[k as int]);
                assert(rand_bytes@.skip(k as int).drop_first() =~= rand_bytes@.skip(k as int + 1));
            }
            if let Err(e) = res {
                return Err(e);
            }
            k = k + 1;
        }
        proof {
            assert(rand_bytes@.skip(k as int) =~= Seq::<u8>::empty());
        }
        Ok(())
    }

    /// The value of one general-purpose register.
    pub fn register(&self, x: u8) -> (v: u8)
        requires
            self.wf(),
            x < 16,
        ensures
            v == self@.registers[x as int],
    {
        self.registers[x as usize]
    }

    /// The byte at one memory address.
    pub fn memory_at(&self, addr: u16) -> (v: u8)
        requires
            self.wf(),
            addr < 4096,
        ensures
            v == self@.memory[addr as int],
    {
        self.memory[addr as usize]
    }

    /// One pixel of the frame buffer, row-major, 64 pixels to a row.
    pub fn pixel(&self, j: usize) -> (v: u8)
        requires
            self.wf(),
            j < 2048,
        ensures
            v == self@.frame_buffer[j as int],
    {
        self.frame_buffer[j]
    }

    /// The program counter.
    pub fn counter(&self) -> (v: u16)
        ensures
            v == self@.program_counter,
    {
        self.program_counter
    }

    /// The index register.
    pub fn index(&self) -> (v: u16)
        ensures
            v == self@.index_register,
    {
        self.index_register
    }

    /// How many return addresses the stack holds.
    pub fn stack_depth(&self) -> (v: usize)
        ensures
            v == self@.stack.len(),
    {
        self.stack.len()
    }

    /// The delay timer.
    pub fn delay(&self) -> (v: u8)
        ensures
            v == self@.delay_timer,
    {
        self.delay_timer
    }

    /// The sound timer.
    pub fn sound(&self) -> (v: u8)
        ensures
            v == self@.sound_timer,
    {
        self.sound_timer
    }

    /// Whether a frame is waiting to be drawn.
    pub fn redraw_needed(&self) -> (v: bool)
        ensures
            v == self@.redraw_pending,
    {
        self.redraw_pending
    }
}

/// The built-in font as bytes.
fn fontset() -> (v: Vec<u8>)
    ensures
        v@ == spec_fontset(),
{
    let glyphs: [u8; 80] = [
        0xF0, 0x90, 0x90, 0x90, 0xF0, 0x20, 0x60, 0x20, 0x20, 0x70, 0xF0, 0x10, 0xF0, 0x80, 0xF0,
        0xF0, 0x10, 0xF0, 0x10, 0xF0, 0x90, 0x90, 0xF0, 0x10, 0x10, 0xF0, 0x80, 0xF0, 0x10, 0xF0,
        0xF0, 0x80, 0xF0, 0x90, 0xF0, 0xF0, 0x10, 0x20, 0x40, 0x40, 0xF0, 0x90, 0xF0, 0x90, 0xF0,
        0xF0, 0x90, 0xF0, 0x10, 0xF0, 0xF0, 0x90, 0xF0, 0x90, 0x90, 0xE0, 0x90, 0xE0, 0x90, 0xE0,
        0xF0, 0x80, 0x80, 0x80, 0xF0, 0xE0, 0x90, 0x90, 0x90, 0xE0, 0xF0, 0x80, 0xF0, 0x80, 0xF0,
        0xF0, 0x80, 0xF0, 0x80, 0x80,
    ];
    let mut v: Vec<u8> = Vec::new();
    let mut k: usize = 0;
    while k < 80
        invariant
            k <= 80,
            v@.len() == k,
            glyphs@ =~= spec_fontset(),
            forall|i: int| 0 <= i < k ==> v@[i] == spec_fontset()[i],
        decreases 80 - k,
    {
        v.push(glyphs[k]);
        k = k + 1;
    }
    proof {
        assert(v@ =~= spec_fontset());
    }
    v
}

} // verus!
