//! The mathematical model of the machine state, and the errors that end a run.

use vstd::prelude::*;

verus! {

/// A fatal condition. Every fatal error carries the current program counter
/// and the raw instruction word for diagnosis; a ROM that does not fit is
/// reported before any cycle runs.
#[derive(Clone, Copy, Debug, PartialEq, Eq, Structural)]
pub enum Chip8Error {
    /// The ROM image does not fit into memory above the reserved area.
    RomTooLarge { len: usize },
    /// A call was executed with the stack already holding 16 return addresses.
    StackOverflow { program_counter: u16, opcode: u16 },
    /// A return was executed with the stack empty.
    StackUnderflow { program_counter: u16, opcode: u16 },
    /// The fetched word is not a CHIP-8 instruction.
    UnknownInstruction { program_counter: u16, opcode: u16 },
}

/// The abstract machine state: what every contract of the library speaks of.
#[verifier::ext_equal]
pub struct Chip8View {
    /// 4096 bytes of memory; 0x000..0x200 is reserved for the interpreter.
    pub memory: Seq<u8>,
    /// 16 general-purpose registers; register 0xF is the flag register.
    pub registers: Seq<u8>,
    /// The 16-bit address register, always below 0x1000.
    pub index_register: u16,
    /// The 16-bit program counter, always below 0x1000.
    pub program_counter: u16,
    /// The live return addresses, pushed by calls, at most 16.
    pub stack: Seq<u16>,
    /// Counts down once per cycle while nonzero.
    pub delay_timer: u8,
    /// Counts down once per cycle while nonzero; a tone is due at 1.
    pub sound_timer: u8,
    /// 2048 pixels, 64 wide and 32 tall, each 0 or 1.
    pub frame_buffer: Seq<u8>,
    /// Set by clear-screen and draw; cleared when the host takes a frame.
    pub redraw_pending: bool,
    /// One flag per hexadecimal key, written by the host between cycles.
    pub keypad_state: Seq<bool>,
}

impl Chip8View {
    /// Well-formedness: the sizes are fixed, addresses stay inside memory,
    /// the stack holds at most 16 return addresses, and pixels are bits.
    pub open spec fn wf(self) -> bool {
        &&& self.memory.len() == 4096
        &&& self.registers.len() == 16
        &&& self.stack.len() <= 16
        &&& self.frame_buffer.len() == 2048
        &&& self.keypad_state.len() == 16
        &&& self.program_counter < 4096
        &&& self.index_register < 4096
        &&& forall|i: int| 0 <= i < 2048 ==> self.frame_buffer[i] <= 1
        &&& forall|i: int| 0 <= i < self.stack.len() ==> self.stack[i] < 4096
    }
}

/// The built-in font: sixteen 4x5 glyphs, five bytes each.
pub open spec fn spec_fontset() -> Seq<u8> {
    seq![
        0xF0u8, 0x90, 0x90, 0x90, 0xF0, // 0
        0x20, 0x60, 0x20, 0x20, 0x70, // 1
        0xF0, 0x10, 0xF0, 0x80, 0xF0, // 2
        0xF0, 0x10, 0xF0, 0x10, 0xF0, // 3
        0x90, 0x90, 0xF0, 0x10, 0x10, // 4
        0xF0, 0x80, 0xF0, 0x10, 0xF0, // 5
        0xF0, 0x80, 0xF0, 0x90, 0xF0, // 6
        0xF0, 0x10, 0x20, 0x40, 0x40, // 7
        0xF0, 0x90, 0xF0, 0x90, 0xF0, // 8
        0xF0, 0x90, 0xF0, 0x10, 0xF0, // 9
        0xF0, 0x90, 0xF0, 0x90, 0x90, // A
        0xE0, 0x90, 0xE0, 0x90, 0xE0, // B
        0xF0, 0x80, 0x80, 0x80, 0xF0, // C
        0xE0, 0x90, 0x90, 0x90, 0xE0, // D
        0xF0, 0x80, 0xF0, 0x80, 0xF0, // E
        0xF0, 0x80, 0xF0, 0x80, 0x80, // F
    ]
}

/// The state of a machine as constructed, before initialization.
pub open spec fn new_view() -> Chip8View {
    Chip8View {
        memory: Seq::new(4096, |i: int| 0u8),
        registers: Seq::new(16, |i: int| 0u8),
        index_register: 0,
        program_counter: 0,
        stack: Seq::empty(),
        delay_timer: 0,
        sound_timer: 0,
        frame_buffer: Seq::new(2048, |i: int| 0u8),
        redraw_pending: false,
        keypad_state: Seq::new(16, |i: int| false),
    }
}

/// The state of a freshly initialized machine: memory zeroed but for the
/// font at 0x050..0x0A0, program counter at 0x200, everything else cleared.
pub open spec fn reset_view() -> Chip8View {
    Chip8View {
        memory: Seq::new(
            4096,
            |i: int| if 0x50 <= i < 0xA0 { spec_fontset()[i - 0x50] } else { 0u8 },
        ),
        program_counter: 0x200,
        ..new_view()
    }
}

/// The big-endian instruction word at the program counter; the second byte
/// wraps around the end of memory.
pub open spec fn fetch_word(s: Chip8View) -> u16 {
    ((s.memory[s.program_counter as int] as u16) << 8u16)
        | (s.memory[((s.program_counter + 1) % 4096) as int] as u16)
}

/// One timer decay: each timer is decremented when nonzero.
pub open spec fn tick_timers(s: Chip8View) -> Chip8View {
    Chip8View {
        delay_timer: if s.delay_timer > 0 { (s.delay_timer - 1) as u8 } else { s.delay_timer },
        sound_timer: if s.sound_timer > 0 { (s.sound_timer - 1) as u8 } else { s.sound_timer },
        ..s
    }
}

} // verus!
