//! The instruction decoder: a pure function from a 16-bit instruction word to
//! a discriminated operation with its operand fields. Every one of the 65536
//! words decodes; a word outside the instruction set decodes to `Unknown`.

use vstd::prelude::*;

verus! {

/// One decoded CHIP-8 operation. `x` and `y` select registers, `n` is a
/// 4-bit immediate, `nn` a byte immediate, `nnn` a 12-bit address.
#[derive(Clone, Copy, Debug, PartialEq, Eq, Structural)]
pub enum Instruction {
    /// 00E0: clear the frame buffer.
    ClearScreen,
    /// 00EE: pop the return address into the program counter.
    Return,
    /// 1nnn: jump.
    Jump { nnn: u16 },
    /// 2nnn: push the address after this instruction, then jump.
    Call { nnn: u16 },
    /// 3xnn: skip the next instruction when registers[x] == nn.
    SkipEqImm { x: u8, nn: u8 },
    /// 4xnn: skip the next instruction when registers[x] != nn.
    SkipNeImm { x: u8, nn: u8 },
    /// 5xy0: skip the next instruction when registers[x] == registers[y].
    SkipEqReg { x: u8, y: u8 },
    /// 6xnn: registers[x] := nn.
    SetImm { x: u8, nn: u8 },
    /// 7xnn: registers[x] := registers[x] + nn, wrapping, no flag.
    AddImm { x: u8, nn: u8 },
    /// 8xy0: registers[x] := registers[y].
    CopyReg { x: u8, y: u8 },
    /// 8xy1: registers[x] := registers[x] | registers[y].
    OrReg { x: u8, y: u8 },
    /// 8xy2: registers[x] := registers[x] & registers[y].
    AndReg { x: u8, y: u8 },
    /// 8xy3: registers[x] := registers[x] ^ registers[y].
    XorReg { x: u8, y: u8 },
    /// 8xy4: add with carry into the flag register.
    AddReg { x: u8, y: u8 },
    /// 8xy5: subtract, flag := 1 when no borrow.
    SubReg { x: u8, y: u8 },
    /// 8xy6: shift right by one, flag := the bit shifted out.
    ShiftRight { x: u8, y: u8 },
    /// 8xy7: registers[x] := registers[y] - registers[x], flag := no borrow.
    SubFrom { x: u8, y: u8 },
    /// 8xyE: shift left by one, flag := the bit shifted out.
    ShiftLeft { x: u8, y: u8 },
    /// 9xy0: skip the next instruction when registers[x] != registers[y].
    SkipNeReg { x: u8, y: u8 },
    /// Annn: index_register := nnn.
    SetIndex { nnn: u16 },
    /// Bnnn: jump to nnn + registers[0].
    JumpPlus { nnn: u16 },
    /// Cxnn: registers[x] := random byte AND nn.
    Random { x: u8, nn: u8 },
    /// Dxyn: draw an n-row sprite from memory[index_register..] at
    /// (registers[x], registers[y]).
    Draw { x: u8, y: u8, n: u8 },
    /// Ex9E: skip the next instruction when key registers[x] is pressed.
    SkipKey { x: u8 },
    /// ExA1: skip the next instruction when key registers[x] is not pressed.
    SkipNoKey { x: u8 },
    /// Fx07: registers[x] := delay_timer.
    ReadDelay { x: u8 },
    /// Fx0A: wait until a key is pressed; registers[x] := that key.
    WaitKey { x: u8 },
    /// Fx15: delay_timer := registers[x].
    SetDelay { x: u8 },
    /// Fx18: sound_timer := registers[x].
    SetSound { x: u8 },
    /// Fx1E: index_register := index_register + registers[x], wrapping.
    AddIndex { x: u8 },
    /// Fx29: index_register := the font glyph address for digit registers[x].
    FontAddr { x: u8 },
    /// Fx33: store registers[x] as three decimal digits at index_register.
    StoreBcd { x: u8 },
    /// Fx55: store registers[0..=x] into memory at index_register.
    StoreRegs { x: u8 },
    /// Fx65: load registers[0..=x] from memory at index_register.
    LoadRegs { x: u8 },
    /// Not a CHIP-8 instruction.
    Unknown { word: u16 },
}

/// What `decode` returns for each instruction word.
pub open spec fn spec_decode(word: u16) -> Instruction {
    let x = ((word >> 8u16) & 0xF) as u8;
    let y = ((word >> 4u16) & 0xF) as u8;
    let n = (word & 0xF) as u8;
    let nn = (word & 0xFF) as u8;
    let nnn = word & 0xFFF;
    let family = word >> 12u16;
    if word == 0x00E0 {
        Instruction::ClearScreen
    } else if word == 0x00EE {
        Instruction::Return
    } else if family == 0x1 {
        Instruction::Jump { nnn }
    } else if family == 0x2 {
        Instruction::Call { nnn }
    } else if family == 0x3 {
        Instruction::SkipEqImm { x, nn }
    } else if family == 0x4 {
        Instruction::SkipNeImm { x, nn }
    } else if family == 0x5 && n == 0x0 {
        Instruction::SkipEqReg { x, y }
    } else if family == 0x6 {
        Instruction::SetImm { x, nn }
    } else if family == 0x7 {
        Instruction::AddImm { x, nn }
    } else if family == 0x8 && n == 0x0 {
        Instruction::CopyReg { x, y }
    } else if family == 0x8 && n == 0x1 {
        Instruction::OrReg { x, y }
    } else if family == 0x8 && n == 0x2 {
        Instruction::AndReg { x, y }
    } else if family == 0x8 && n == 0x3 {
        Instruction::XorReg { x, y }
    } else if family == 0x8 && n == 0x4 {
        Instruction::AddReg { x, y }
    } else if family == 0x8 && n == 0x5 {
        Instruction::SubReg { x, y }
    } else if family == 0x8 && n == 0x6 {
        Instruction::ShiftRight { x, y }
    } else if family == 0x8 && n == 0x7 {
        Instruction::SubFrom { x, y }
    } else if family == 0x8 && n == 0xE {
        Instruction::ShiftLeft { x, y }
    } else if family == 0x9 && n == 0x0 {
        Instruction::SkipNeReg { x, y }
    } else if family == 0xA {
        Instruction::SetIndex { nnn }
    } else if family == 0xB {
        Instruction::JumpPlus { nnn }
    } else if family == 0xC {
        Instruction::Random { x, nn }
    } else if family == 0xD {
        Instruction::Draw { x, y, n }
    } else if family == 0xE && nn == 0x9E {
        Instruction::SkipKey { x }
    } else if family == 0xE && nn == 0xA1 {
        Instruction::SkipNoKey { x }
    } else if family == 0xF && nn == 0x07 {
        Instruction::ReadDelay { x }
    } else if family == 0xF && nn == 0x0A {
        Instruction::WaitKey { x }
    } else if family == 0xF && nn == 0x15 {
        Instruction::SetDelay { x }
    } else if family == 0xF && nn == 0x18 {
        Instruction::SetSound { x }
    } else if family == 0xF && nn == 0x1E {
        Instruction::AddIndex { x }
    } else if family == 0xF && nn == 0x29 {
        Instruction::FontAddr { x }
    } else if family == 0xF && nn == 0x33 {
        Instruction::StoreBcd { x }
    } else if family == 0xF && nn == 0x55 {
        Instruction::StoreRegs { x }
    } else if family == 0xF && nn == 0x65 {
        Instruction::LoadRegs { x }
    } else {
        Instruction::Unknown { word }
    }
}

/// Operand fields are in range: register selectors below 16, row counts
/// below 16, addresses below 4096.
pub open spec fn instr_wf(i: Instruction) -> bool {
    match i {
        Instruction::Jump { nnn } => nnn < 4096,
        Instruction::Call { nnn } => nnn < 4096,
        Instruction::SetIndex { nnn } => nnn < 4096,
        Instruction::JumpPlus { nnn } => nnn < 4096,
        Instruction::SkipEqImm { x, .. } => x < 16,
        Instruction::SkipNeImm { x, .. } => x < 16,
        Instruction::SetImm { x, .. } => x < 16,
        Instruction::AddImm { x, .. } => x < 16,
        Instruction::Random { x, .. } => x < 16,
        Instruction::SkipEqReg { x, y } => x < 16 && y < 16,
        Instruction::SkipNeReg { x, y } => x < 16 && y < 16,
        Instruction::CopyReg { x, y } => x < 16 && y < 16,
        Instruction::OrReg { x, y } => x < 16 && y < 16,
        Instruction::AndReg { x, y } => x < 16 && y < 16,
        Instruction::XorReg { x, y } => x < 16 && y < 16,
        Instruction::AddReg { x, y } => x < 16 && y < 16,
        Instruction::SubReg { x, y } => x < 16 && y < 16,
        Instruction::ShiftRight { x, y } => x < 16 && y < 16,
        Instruction::SubFrom { x, y } => x < 16 && y < 16,
        Instruction::ShiftLeft { x, y } => x < 16 && y < 16,
        Instruction::Draw { x, y, n } => x < 16 && y < 16 && n < 16,
        Instruction::SkipKey { x } => x < 16,
        Instruction::SkipNoKey { x } => x < 16,
        Instruction::ReadDelay { x } => x < 16,
        Instruction::WaitKey { x } => x < 16,
        Instruction::SetDelay { x } => x < 16,
        Instruction::SetSound { x } => x < 16,
        Instruction::AddIndex { x } => x < 16,
        Instruction::FontAddr { x } => x < 16,
        Instruction::StoreBcd { x } => x < 16,
        Instruction::StoreRegs { x } => x < 16,
        Instruction::LoadRegs { x } => x < 16,
        Instruction::ClearScreen => true,
        Instruction::Return => true,
        Instruction::Unknown { .. } => true,
    }
}

/// Every word decodes to an operation whose operand fields are in range.
pub proof fn lemma_decode_wf(word: u16)
    ensures
        instr_wf(spec_decode(word)),
{
    assert(((word >> 8u16) & 0xF) < 16) by (bit_vector);
    assert(((word >> 4u16) & 0xF) < 16) by (bit_vector);
    assert((word & 0xF) < 16) by (bit_vector);
    assert((word & 0xFFF) < 4096) by (bit_vector);
}

/// The instruction decoder. It has no failure path: a word outside the
/// instruction set yields `Instruction::Unknown`.
pub fn decode(word: u16) -> (i: Instruction)
    ensures
        i == spec_decode(word),
        instr_wf(i),
{
    proof {
        lemma_decode_wf(word);
    }
    let x = ((word >> 8u16) & 0xF) as u8;
    let y = ((word >> 4u16) & 0xF) as u8;
    let n = (word & 0xF) as u8;
    let nn = (word & 0xFF) as u8;
    let nnn = word & 0xFFF;
    let family = word >> 12u16;
    if word == 0x00E0 {
        Instruction::ClearScreen
    } else if word == 0x00EE {
        Instruction::Return
    } else if family == 0x1 {
        Instruction::Jump { nnn }
    } else if family == 0x2 {
        Instruction::Call { nnn }
    } else if family == 0x3 {
        Instruction::SkipEqImm { x, nn }
    } else if family == 0x4 {
        Instruction::SkipNeImm { x, nn }
    } else if family == 0x5 && n == 0x0 {
        Instruction::SkipEqReg { x, y }
    } else if family == 0x6 {
        Instruction::SetImm { x, nn }
    } else if family == 0x7 {
        Instruction::AddImm { x, nn }
    } else if family == 0x8 && n == 0x0 {
        Instruction::CopyReg { x, y }
    } else if family == 0x8 && n == 0x1 {
        Instruction::OrReg { x, y }
    } else if family == 0x8 && n == 0x2 {
        Instruction::AndReg { x, y }
    } else if family == 0x8 && n == 0x3 {
        Instruction::XorReg { x, y }
    } else if family == 0x8 && n == 0x4 {
        Instruction::AddReg { x, y }
    } else if family == 0x8 && n == 0x5 {
        Instruction::SubReg { x, y }
    } else if family == 0x8 && n == 0x6 {
        Instruction::ShiftRight { x, y }
    } else if family == 0x8 && n == 0x7 {
        Instruction::SubFrom { x, y }
    } else if family == 0x8 && n == 0xE {
        Instruction::ShiftLeft { x, y }
    } else if family == 0x9 && n == 0x0 {
        Instruction::SkipNeReg { x, y }
    } else if family == 0xA {
        Instruction::SetIndex { nnn }
    } else if family == 0xB {
        Instruction::JumpPlus { nnn }
    } else if family == 0xC {
        Instruction::Random { x, nn }
    } else if family == 0xD {
        Instruction::Draw { x, y, n }
    } else if family == 0xE && nn == 0x9E {
        Instruction::SkipKey { x }
    } else if family == 0xE && nn == 0xA1 {
        Instruction::SkipNoKey { x }
    } else if family == 0xF && nn == 0x07 {
        Instruction::ReadDelay { x }
    } else if family == 0xF && nn == 0x0A {
        Instruction::WaitKey { x }
    } else if family == 0xF && nn == 0x15 {
        Instruction::SetDelay { x }
    } else if family == 0xF && nn == 0x18 {
        Instruction::SetSound { x }
    } else if family == 0xF && nn == 0x1E {
        Instruction::AddIndex { x }
    } else if family == 0xF && nn == 0x29 {
        Instruction::FontAddr { x }
    } else if family == 0xF && nn == 0x33 {
        Instruction::StoreBcd { x }
    } else if family == 0xF && nn == 0x55 {
        Instruction::StoreRegs { x }
    } else if family == 0xF && nn == 0x65 {
        Instruction::LoadRegs { x }
    } else {
        Instruction::Unknown { word }
    }
}

} // verus!
