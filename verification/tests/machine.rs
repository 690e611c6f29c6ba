use chip8::{Chip8, Chip8Error, CycleOutcome, Instruction};
use chip8::decode::decode;

fn boot_rom(bytes: &[u8]) -> Chip8 {
    let mut m = Chip8::new();
    m.boot(&bytes.to_vec()).unwrap();
    m
}

fn step(m: &mut Chip8) -> CycleOutcome {
    m.emulate_cycle(0).unwrap()
}

#[test]
fn new_machine_is_blank() {
    let m = Chip8::new();
    assert_eq!(m.counter(), 0);
    assert_eq!(m.index(), 0);
    assert_eq!(m.stack_depth(), 0);
    assert_eq!(m.memory_at(0x050), 0);
    assert_eq!(m.register(0), 0);
    assert!(!m.redraw_needed());
}

#[test]
fn boot_loads_rom_and_font() {
    let m = boot_rom(&[0xAB, 0xCD, 0xEF]);
    assert_eq!(m.counter(), 0x200);
    assert_eq!(m.memory_at(0x200), 0xAB);
    assert_eq!(m.memory_at(0x201), 0xCD);
    assert_eq!(m.memory_at(0x202), 0xEF);
    assert_eq!(m.memory_at(0x203), 0x00);
    // the font glyphs sit at 0x050..0x0A0
    assert_eq!(m.memory_at(0x050), 0xF0);
    assert_eq!(m.memory_at(0x09F), 0x80);
    assert_eq!(m.memory_at(0x0A0), 0x00);
}

#[test]
fn boot_accepts_a_full_rom_and_rejects_one_byte_more() {
    let mut m = Chip8::new();
    assert_eq!(m.boot(&vec![0u8; 3584]), Ok(()));
    let mut m2 = Chip8::new();
    assert_eq!(m2.boot(&vec![0u8; 3585]), Err(Chip8Error::RomTooLarge { len: 3585 }));
    // a failed boot leaves a reset machine without a program
    assert_eq!(m2.counter(), 0x200);
    assert_eq!(m2.memory_at(0x200), 0);
}

#[test]
fn decoder_covers_the_instruction_set() {
    assert_eq!(decode(0x00E0), Instruction::ClearScreen);
    assert_eq!(decode(0x00EE), Instruction::Return);
    assert_eq!(decode(0x1ABC), Instruction::Jump { nnn: 0xABC });
    assert_eq!(decode(0x2123), Instruction::Call { nnn: 0x123 });
    assert_eq!(decode(0x3A7F), Instruction::SkipEqImm { x: 0xA, nn: 0x7F });
    assert_eq!(decode(0x4A7F), Instruction::SkipNeImm { x: 0xA, nn: 0x7F });
    assert_eq!(decode(0x5AB0), Instruction::SkipEqReg { x: 0xA, y: 0xB });
    assert_eq!(decode(0x6C42), Instruction::SetImm { x: 0xC, nn: 0x42 });
    assert_eq!(decode(0x7C42), Instruction::AddImm { x: 0xC, nn: 0x42 });
    assert_eq!(decode(0x8120), Instruction::CopyReg { x: 1, y: 2 });
    assert_eq!(decode(0x8121), Instruction::OrReg { x: 1, y: 2 });
    assert_eq!(decode(0x8122), Instruction::AndReg { x: 1, y: 2 });
    assert_eq!(decode(0x8123), Instruction::XorReg { x: 1, y: 2 });
    assert_eq!(decode(0x8124), Instruction::AddReg { x: 1, y: 2 });
    assert_eq!(decode(0x8125), Instruction::SubReg { x: 1, y: 2 });
    assert_eq!(decode(0x8126), Instruction::ShiftRight { x: 1, y: 2 });
    assert_eq!(decode(0x8127), Instruction::SubFrom { x: 1, y: 2 });
    assert_eq!(decode(0x812E), Instruction::ShiftLeft { x: 1, y: 2 });
    assert_eq!(decode(0x9AB0), Instruction::SkipNeReg { x: 0xA, y: 0xB });
    assert_eq!(decode(0xA123), Instruction::SetIndex { nnn: 0x123 });
    assert_eq!(decode(0xB123), Instruction::JumpPlus { nnn: 0x123 });
    assert_eq!(decode(0xC2F0), Instruction::Random { x: 2, nn: 0xF0 });
    assert_eq!(decode(0xD12F), Instruction::Draw { x: 1, y: 2, n: 0xF });
    assert_eq!(decode(0xE39E), Instruction::SkipKey { x: 3 });
    assert_eq!(decode(0xE3A1), Instruction::SkipNoKey { x: 3 });
    assert_eq!(decode(0xF407), Instruction::ReadDelay { x: 4 });
    assert_eq!(decode(0xF40A), Instruction::WaitKey { x: 4 });
    assert_eq!(decode(0xF415), Instruction::SetDelay { x: 4 });
    assert_eq!(decode(0xF418), Instruction::SetSound { x: 4 });
    assert_eq!(decode(0xF41E), Instruction::AddIndex { x: 4 });
    assert_eq!(decode(0xF429), Instruction::FontAddr { x: 4 });
    assert_eq!(decode(0xF433), Instruction::StoreBcd { x: 4 });
    assert_eq!(decode(0xF455), Instruction::StoreRegs { x: 4 });
    assert_eq!(decode(0xF465), Instruction::LoadRegs { x: 4 });
    assert_eq!(decode(0x0000), Instruction::Unknown { word: 0x0000 });
    assert_eq!(decode(0x00E1), Instruction::Unknown { word: 0x00E1 });
    assert_eq!(decode(0x5AB1), Instruction::Unknown { word: 0x5AB1 });
    assert_eq!(decode(0x8128), Instruction::Unknown { word: 0x8128 });
    assert_eq!(decode(0xE3FF), Instruction::Unknown { word: 0xE3FF });
    assert_eq!(decode(0xF499), Instruction::Unknown { word: 0xF499 });
}

#[test]
fn add_with_carry_sets_flag_on_overflow() {
    // V0 := 200, V1 := 100, V0 += V1: 300 wraps to 44 with carry
    let mut m = boot_rom(&[0x60, 200, 0x61, 100, 0x80, 0x14]);
    step(&mut m);
    step(&mut m);
    step(&mut m);
    assert_eq!(m.register(0), 44);
    assert_eq!(m.register(1), 100);
    assert_eq!(m.register(0xF), 1);
    assert_eq!(m.counter(), 0x206);
}

#[test]
fn add_without_overflow_clears_flag() {
    let mut m = boot_rom(&[0x62, 5, 0x63, 10, 0x82, 0x34]);
    for _ in 0..3 {
        step(&mut m);
    }
    assert_eq!(m.register(2), 15);
    assert_eq!(m.register(0xF), 0);
}

#[test]
fn add_immediate_wraps_without_flag() {
    let mut m = boot_rom(&[0x60, 0xFF, 0x70, 0x03]);
    step(&mut m);
    step(&mut m);
    assert_eq!(m.register(0), 2);
    assert_eq!(m.register(0xF), 0);
}

#[test]
fn bitwise_and_copy_ops() {
    let mut m = boot_rom(&[
        0x60, 0x0C, 0x61, 0x0A, // V0 = 0x0C, V1 = 0x0A
        0x82, 0x10, // V2 := V1
        0x80, 0x11, // V0 |= V1  -> 0x0E
        0x63, 0x0C, 0x83, 0x12, // V3 = 0x0C, V3 &= V1 -> 0x08
        0x64, 0x0C, 0x84, 0x13, // V4 = 0x0C, V4 ^= V1 -> 0x06
    ]);
    for _ in 0..8 {
        step(&mut m);
    }
    assert_eq!(m.register(2), 0x0A);
    assert_eq!(m.register(0), 0x0E);
    assert_eq!(m.register(3), 0x08);
    assert_eq!(m.register(4), 0x06);
}

#[test]
fn subtraction_flag_means_no_borrow() {
    // V0 := 5, V1 := 10, V0 -= V1: borrow, flag 0, result 251
    let mut m = boot_rom(&[0x60, 5, 0x61, 10, 0x80, 0x15]);
    for _ in 0..3 {
        step(&mut m);
    }
    assert_eq!(m.register(0), 251);
    assert_eq!(m.register(0xF), 0);
    // V2 := 10, V3 := 5, V2 -= V3: no borrow, flag 1
    let mut m2 = boot_rom(&[0x62, 10, 0x63, 5, 0x82, 0x35]);
    for _ in 0..3 {
        step(&mut m2);
    }
    assert_eq!(m2.register(2), 5);
    assert_eq!(m2.register(0xF), 1);
}

#[test]
fn reverse_subtraction() {
    // V0 := 5, V1 := 10, V0 := V1 - V0: no borrow, flag 1
    let mut m = boot_rom(&[0x60, 5, 0x61, 10, 0x80, 0x17]);
    for _ in 0..3 {
        step(&mut m);
    }
    assert_eq!(m.register(0), 5);
    assert_eq!(m.register(0xF), 1);
}

#[test]
fn shifts_capture_the_shifted_out_bit() {
    let mut m = boot_rom(&[0x60, 0x05, 0x80, 0x06]);
    step(&mut m);
    step(&mut m);
    assert_eq!(m.register(0), 0x02);
    assert_eq!(m.register(0xF), 1);
    let mut m2 = boot_rom(&[0x60, 0x81, 0x80, 0x0E]);
    step(&mut m2);
    step(&mut m2);
    assert_eq!(m2.register(0), 0x02);
    assert_eq!(m2.register(0xF), 1);
}

#[test]
fn skips_take_four_bytes_when_the_condition_holds() {
    // 3xnn taken
    let mut m = boot_rom(&[0x60, 0x07, 0x30, 0x07]);
    step(&mut m);
    step(&mut m);
    assert_eq!(m.counter(), 0x206);
    // 3xnn not taken
    let mut m2 = boot_rom(&[0x60, 0x07, 0x30, 0x08]);
    step(&mut m2);
    step(&mut m2);
    assert_eq!(m2.counter(), 0x204);
    // 4xnn taken on inequality
    let mut m3 = boot_rom(&[0x60, 0x07, 0x40, 0x08]);
    step(&mut m3);
    step(&mut m3);
    assert_eq!(m3.counter(), 0x206);
    // 5xy0 taken on equal registers, 9xy0 not taken
    let mut m4 = boot_rom(&[0x60, 0x07, 0x61, 0x07, 0x50, 0x10, 0x00, 0x00, 0x90, 0x10]);
    for _ in 0..3 {
        step(&mut m4);
    }
    assert_eq!(m4.counter(), 0x208);
    step(&mut m4);
    assert_eq!(m4.counter(), 0x20A);
}

#[test]
fn jumps_and_jump_plus_v0() {
    let mut m = boot_rom(&[0x13, 0x00]);
    step(&mut m);
    assert_eq!(m.counter(), 0x300);
    let mut m2 = boot_rom(&[0x60, 0x10, 0xB3, 0x00]);
    step(&mut m2);
    step(&mut m2);
    assert_eq!(m2.counter(), 0x310);
    // the target wraps at the end of memory
    let mut m3 = boot_rom(&[0x60, 0xFF, 0xBF, 0xFF]);
    step(&mut m3);
    step(&mut m3);
    assert_eq!(m3.counter(), 0x0FE);
}

#[test]
fn call_then_return_lands_after_the_call() {
    let mut m = boot_rom(&[0x22, 0x04, 0x00, 0x00, 0x00, 0xEE]);
    step(&mut m);
    assert_eq!(m.counter(), 0x204);
    assert_eq!(m.stack_depth(), 1);
    step(&mut m);
    assert_eq!(m.counter(), 0x202);
    assert_eq!(m.stack_depth(), 0);
}

#[test]
fn seventeenth_nested_call_is_fatal() {
    let mut m = boot_rom(&[0x22, 0x00]);
    for k in 1..=16 {
        assert_eq!(m.emulate_cycle(0), Ok(CycleOutcome { tone: false, waiting: false }));
        assert_eq!(m.stack_depth(), k);
    }
    assert_eq!(
        m.emulate_cycle(0),
        Err(Chip8Error::StackOverflow { program_counter: 0x200, opcode: 0x2200 })
    );
    assert_eq!(m.stack_depth(), 16);
}

#[test]
fn return_with_empty_stack_is_fatal() {
    let mut m = boot_rom(&[0x00, 0xEE]);
    assert_eq!(
        m.emulate_cycle(0),
        Err(Chip8Error::StackUnderflow { program_counter: 0x200, opcode: 0x00EE })
    );
}

#[test]
fn unknown_word_is_fatal() {
    let mut m = boot_rom(&[0xFF, 0xFF]);
    assert_eq!(
        m.emulate_cycle(0),
        Err(Chip8Error::UnknownInstruction { program_counter: 0x200, opcode: 0xFFFF })
    );
    let mut m2 = boot_rom(&[0x00, 0x00]);
    assert_eq!(
        m2.emulate_cycle(0),
        Err(Chip8Error::UnknownInstruction { program_counter: 0x200, opcode: 0x0000 })
    );
}

#[test]
fn bcd_of_234_writes_2_3_4() {
    let mut m = boot_rom(&[0x60, 234, 0xA3, 0x00, 0xF0, 0x33]);
    for _ in 0..3 {
        step(&mut m);
    }
    assert_eq!(m.memory_at(0x300), 2);
    assert_eq!(m.memory_at(0x301), 3);
    assert_eq!(m.memory_at(0x302), 4);
    assert_eq!(m.counter(), 0x206);
}

#[test]
fn store_then_load_round_trips_registers() {
    let mut m = boot_rom(&[
        0x60, 11, 0x61, 22, 0x62, 33, // V0..V2
        0xA3, 0x00, 0xF2, 0x55, // store V0..=V2 at 0x300
        0x60, 0, 0x61, 0, 0x62, 0, // clobber
        0xF2, 0x65, // load them back
    ]);
    for _ in 0..9 {
        step(&mut m);
    }
    assert_eq!(m.memory_at(0x300), 11);
    assert_eq!(m.memory_at(0x301), 22);
    assert_eq!(m.memory_at(0x302), 33);
    assert_eq!(m.register(0), 11);
    assert_eq!(m.register(1), 22);
    assert_eq!(m.register(2), 33);
    assert_eq!(m.index(), 0x300);
}

#[test]
fn font_address_and_index_arithmetic() {
    let mut m = boot_rom(&[0x60, 0x07, 0xF0, 0x29]);
    step(&mut m);
    step(&mut m);
    assert_eq!(m.index(), 0x50 + 5 * 7);
    // Fx1E wraps past the end of memory without touching the flag
    let mut m2 = boot_rom(&[0xAF, 0xFF, 0x60, 0x05, 0xF0, 0x1E]);
    for _ in 0..3 {
        step(&mut m2);
    }
    assert_eq!(m2.index(), 4);
    assert_eq!(m2.register(0xF), 0);
}

#[test]
fn random_is_masked() {
    let mut m = boot_rom(&[0xC0, 0x0F, 0xC1, 0x00]);
    m.emulate_cycle(0xAB).unwrap();
    assert_eq!(m.register(0), 0x0B);
    m.emulate_cycle(0xAB).unwrap();
    assert_eq!(m.register(1), 0x00);
}

#[test]
fn draw_sets_pixels_and_collision_erases_them() {
    // I := glyph 0 at 0x50, draw 5 rows at (V0, V1) = (0, 0)
    let mut m = boot_rom(&[0xA0, 0x50, 0xD0, 0x15, 0xD0, 0x15]);
    step(&mut m);
    let out = step(&mut m);
    assert_eq!(out, CycleOutcome { tone: false, waiting: false });
    // top row of glyph 0 is 0xF0: four pixels on
    assert_eq!(m.pixel(0), 1);
    assert_eq!(m.pixel(3), 1);
    assert_eq!(m.pixel(4), 0);
    // second row is 0x90
    assert_eq!(m.pixel(64), 1);
    assert_eq!(m.pixel(64 + 1), 0);
    assert_eq!(m.pixel(64 + 3), 1);
    assert_eq!(m.register(0xF), 0);
    assert!(m.redraw_needed());
    // drawing the same sprite again erases it and reports the collision
    step(&mut m);
    for j in 0..2048 {
        assert_eq!(m.pixel(j), 0);
    }
    assert_eq!(m.register(0xF), 1);
}

#[test]
fn draw_wraps_around_both_edges() {
    // draw glyph 0 at (62, 30): it wraps to the left and top edges
    let mut m = boot_rom(&[0xA0, 0x50, 0x60, 62, 0x61, 30, 0xD0, 0x15]);
    for _ in 0..4 {
        step(&mut m);
    }
    // row 0 (0xF0) at y = 30: columns 62, 63, 0, 1
    assert_eq!(m.pixel(30 * 64 + 62), 1);
    assert_eq!(m.pixel(30 * 64 + 63), 1);
    assert_eq!(m.pixel(30 * 64 + 0), 1);
    assert_eq!(m.pixel(30 * 64 + 1), 1);
    assert_eq!(m.pixel(30 * 64 + 2), 0);
    // row 2 (0x90) wraps to y = 0: columns 62 and 1
    assert_eq!(m.pixel(62), 1);
    assert_eq!(m.pixel(63), 0);
    assert_eq!(m.pixel(1), 1);
}

#[test]
fn clear_screen_blanks_everything_and_asks_for_a_redraw() {
    let mut m = boot_rom(&[0xA0, 0x50, 0xD0, 0x15, 0x00, 0xE0]);
    step(&mut m);
    step(&mut m);
    let frame = m.draw_graphics();
    assert!(frame.iter().any(|&p| p == 1));
    assert!(!m.redraw_needed());
    step(&mut m);
    assert!(m.redraw_needed());
    let frame = m.draw_graphics();
    assert_eq!(frame.len(), 2048);
    assert!(frame.iter().all(|&p| p == 0));
    assert!(!m.redraw_needed());
}

#[test]
fn wait_key_parks_until_a_key_arrives() {
    let mut m = boot_rom(&[0xF0, 0x0A]);
    assert_eq!(m.emulate_cycle(0), Ok(CycleOutcome { tone: false, waiting: true }));
    assert_eq!(m.counter(), 0x200);
    assert_eq!(m.emulate_cycle(0), Ok(CycleOutcome { tone: false, waiting: true }));
    let mut keys = vec![false; 16];
    keys[9] = true;
    keys[3] = true;
    m.set_keys(&keys);
    assert_eq!(m.emulate_cycle(0), Ok(CycleOutcome { tone: false, waiting: false }));
    // the smallest pressed key is reported
    assert_eq!(m.register(0), 3);
    assert_eq!(m.counter(), 0x202);
}

#[test]
fn key_skips_follow_the_keypad() {
    let mut m = boot_rom(&[0x60, 0x05, 0xE0, 0x9E, 0x00, 0x00, 0xE0, 0xA1]);
    let mut keys = vec![false; 16];
    keys[5] = true;
    m.set_keys(&keys);
    step(&mut m); // V0 := 5
    step(&mut m); // key 5 pressed: skip
    assert_eq!(m.counter(), 0x206);
    let mut m2 = boot_rom(&[0x60, 0x05, 0xE0, 0xA1]);
    step(&mut m2); // V0 := 5
    step(&mut m2); // no key pressed: ExA1 skips
    assert_eq!(m2.counter(), 0x206);
}

#[test]
fn timers_decay_and_the_tone_comes_when_sound_runs_out() {
    let mut m = boot_rom(&[0x60, 0x02, 0xF0, 0x15, 0xF0, 0x18, 0x61, 0x00, 0x62, 0x00]);
    step(&mut m); // V0 := 2
    let out = step(&mut m); // delay := 2, then decays to 1
    assert_eq!(out, CycleOutcome { tone: false, waiting: false });
    assert_eq!(m.delay(), 1);
    let out = step(&mut m); // sound := 2, decays to 1; delay reaches 0
    assert_eq!(out, CycleOutcome { tone: false, waiting: false });
    assert_eq!(m.delay(), 0);
    assert_eq!(m.sound(), 1);
    let out = step(&mut m); // sound stands at 1: the tone is due now
    assert_eq!(out, CycleOutcome { tone: true, waiting: false });
    assert_eq!(m.sound(), 0);
    let out = step(&mut m);
    assert_eq!(out, CycleOutcome { tone: false, waiting: false });
}

#[test]
fn read_delay_sees_the_ticking_timer() {
    let mut m = boot_rom(&[0x60, 0x03, 0xF0, 0x15, 0xF1, 0x07]);
    for _ in 0..3 {
        step(&mut m);
    }
    assert_eq!(m.register(1), 2);
    assert_eq!(m.delay(), 1);
}

#[test]
fn jump_to_self_runs_indefinitely_unchanged() {
    let mut m = boot_rom(&[0x12, 0x00]);
    assert_eq!(m.run(&vec![7u8; 50]), Ok(()));
    assert_eq!(m.counter(), 0x200);
    assert_eq!(m.stack_depth(), 0);
    assert_eq!(m.register(0), 0);
    assert!(!m.redraw_needed());
}

#[test]
fn run_stops_at_the_first_fault() {
    let mut m = boot_rom(&[0x60, 0x01, 0xFF, 0xFF]);
    assert_eq!(
        m.run(&vec![0u8; 10]),
        Err(Chip8Error::UnknownInstruction { program_counter: 0x202, opcode: 0xFFFF })
    );
    assert_eq!(m.register(0), 1);
}

#[test]
fn set_keys_replaces_the_keypad() {
    let mut m = Chip8::new();
    let mut keys = vec![false; 16];
    keys[0] = true;
    keys[15] = true;
    m.set_keys(&keys);
    // a wait-for-key sees key 0 at once
    let mut m2 = boot_rom(&[0xF0, 0x0A]);
    m2.set_keys(&keys);
    m2.emulate_cycle(0).unwrap();
    assert_eq!(m2.register(0), 0);
}

#[test]
fn program_counter_wraps_at_the_end_of_memory() {
    // fill memory to the last byte; the instruction at 0xFFE runs and the
    // program counter wraps to 0x000
    let mut rom = vec![0u8; 3584];
    rom[0] = 0x1F;
    rom[1] = 0xFE; // jump to 0xFFE
    rom[0xDFE] = 0x60;
    rom[0xDFF] = 0x07; // V0 := 7 at 0xFFE
    let mut m = Chip8::new();
    m.boot(&rom).unwrap();
    step(&mut m);
    assert_eq!(m.counter(), 0xFFE);
    step(&mut m);
    assert_eq!(m.register(0), 7);
    assert_eq!(m.counter(), 0x000);
    // memory at 0x000 is blank: the next word is fatal
    assert_eq!(
        m.emulate_cycle(0),
        Err(Chip8Error::UnknownInstruction { program_counter: 0x000, opcode: 0x0000 })
    );
}

#[test]
fn fetch_wraps_its_second_byte() {
    // an instruction sitting on the very last byte takes its low byte from
    // address 0x000
    let mut rom = vec![0u8; 3584];
    rom[0] = 0x1F;
    rom[1] = 0xFF; // jump to 0xFFF
    rom[0xDFF] = 0x63; // high byte at 0xFFF; low byte is memory[0x000] == 0
    let mut m = Chip8::new();
    m.boot(&rom).unwrap();
    step(&mut m);
    step(&mut m); // executes 0x6300: V3 := 0
    assert_eq!(m.register(3), 0);
    assert_eq!(m.counter(), 0x001);
}

#[test]
fn draw_of_zero_rows_touches_nothing() {
    let mut m = boot_rom(&[0xA0, 0x50, 0xD0, 0x00]);
    step(&mut m);
    step(&mut m);
    for j in 0..2048 {
        assert_eq!(m.pixel(j), 0);
    }
    assert_eq!(m.register(0xF), 0);
    assert!(m.redraw_needed());
}
