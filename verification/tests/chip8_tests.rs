use chip8::audio::{AudioOutput, AudioTimer};
use chip8::cpu::{Fault, InstructionSet, LoadError};
use chip8::default_fontset::get_raw_char;
use chip8::display::{DisplayOutput, ScreenBuffer, SCREEN_HEIGHT, SCREEN_WIDTH};
use chip8::input::InputReciever;
use chip8::InterpretedCpu;
use std::time::SystemTime;

struct TestDisplay {
    screen: [[bool; SCREEN_WIDTH]; SCREEN_HEIGHT],
    present_count: usize,
}

impl TestDisplay {
    fn new() -> TestDisplay {
        TestDisplay { screen: [[false; SCREEN_WIDTH]; SCREEN_HEIGHT], present_count: 0 }
    }
}

impl DisplayOutput for TestDisplay {
    fn display_buffer(&mut self, buffer: &Vec<u8>) {
        for row in 0..SCREEN_HEIGHT {
            for col in 0..SCREEN_WIDTH / 8 {
                let pos = row * SCREEN_WIDTH / 8 + col;
                let packed = buffer[pos];
                for bitnum in 0..8 {
                    let extracted_bit = 0 != (1 << (7 - bitnum)) & packed;
                    self.screen[row][col * 8 + bitnum] = extracted_bit;
                }
            }
        }
        self.present_count += 1;
    }
}

struct TestAudio {
    play_count: usize,
    stop_count: usize,
}

impl TestAudio {
    fn new() -> TestAudio {
        TestAudio { play_count: 0, stop_count: 0 }
    }
}

impl AudioOutput for TestAudio {
    fn output_audio(&mut self) {
        self.play_count += 1;
    }

    fn stop_audio(&mut self) {
        self.stop_count += 1;
    }
}

struct TestInput {}

impl InputReciever for TestInput {
    fn check_any_key(&mut self) -> Option<u8> {
        Some(0)
    }

    fn check_key(&mut self, _key: u8) -> bool {
        false
    }

    fn check_should_die(&mut self) -> bool {
        false
    }
}

struct NoKeyInput {}

impl InputReciever for NoKeyInput {
    fn check_any_key(&mut self) -> Option<u8> {
        None
    }

    fn check_key(&mut self, _key: u8) -> bool {
        false
    }

    fn check_should_die(&mut self) -> bool {
        false
    }
}

fn new_cpu(variant: InstructionSet) -> InterpretedCpu<TestDisplay, TestAudio, TestInput> {
    InterpretedCpu::new(
        variant,
        ScreenBuffer::new(TestDisplay::new()),
        AudioTimer::new(TestAudio::new()),
        TestInput {},
    )
}

#[test]
fn test_screen_buffer() {
    let display = TestDisplay::new();
    let mut testbuffer = ScreenBuffer::new(display);

    testbuffer.clear_screen();
    let raw_7 = get_raw_char(7);
    testbuffer.put_sprite(0, 0, &raw_7);

    for row in 0..5 {
        let packed_pixels = raw_7[row];
        for bitnum in 0..8 {
            let mask: u8 = 1 << (7 - bitnum);
            let expected = 0 != packed_pixels & mask;

            let buffer_packed_pixels = testbuffer.packed_pixels[row * SCREEN_WIDTH / 8];
            let actual = 0 != buffer_packed_pixels & mask;

            assert_eq!(
                expected, actual,
                "Failed at row {} bit number {} ; expected packed is {}, actual is {}. ",
                row, bitnum, packed_pixels, buffer_packed_pixels
            );
        }
    }

    testbuffer.clear_screen();
    testbuffer.put_sprite(1, 1, &raw_7);
    for row in 0..5 {
        let packed_pixels = raw_7[row];
        for bitnum in 0..7 {
            let mask: u8 = 1 << (7 - bitnum);
            let expected = 0 != packed_pixels & mask;

            let buffer_packed_pixels = testbuffer.packed_pixels[(row + 1) * SCREEN_WIDTH / 8];
            let actual = 0 != buffer_packed_pixels & (mask >> 1);

            assert_eq!(
                expected, actual,
                "Failed at row {} bit number {} ; expected packed is {}, actual is {}. ",
                row, bitnum, packed_pixels, buffer_packed_pixels
            );
        }
    }

    let collided = testbuffer.put_sprite(1, 1, &raw_7);
    assert!(collided, "Did not detect collision!");
    assert!(
        !testbuffer.packed_pixels.iter().any(|pixel| *pixel != 0),
        "Did not collide correctly!"
    );
}

#[test]
fn test_cpu_jumping() {
    let mut test_cpu = new_cpu(InstructionSet::COWGOD);

    let test_simple_jump = [
        0x12, 0x08, 0x70, 0x01, 0x70, 0x01, 0x70, 0x01, 0x70, 0x01, 0x70, 0x01, 0x70, 0x01,
    ];
    test_cpu.load_rom(&test_simple_jump).unwrap();

    let mut prevtime = SystemTime::now();
    while !test_cpu.has_died() && test_cpu.pc < 4094 {
        let next_instr = test_cpu.get_next_instr();
        let _ = test_cpu.process_instruction(next_instr);
        let curtime = SystemTime::now();
        let nsecs = curtime.duration_since(prevtime).unwrap().subsec_nanos();
        test_cpu.tick(nsecs as u64);
        prevtime = curtime;
        test_cpu.end_frame();
    }

    assert_eq!(test_cpu.registerV[0], 3);

    test_cpu.reset();
    assert_eq!(test_cpu.registerV[0], 0);

    let test_disconnected_jump = [
        0x12, 0x07, 0x01, 0x70, 0x01, 0x70, 0x01, 0x70, 0x01, 0x70, 0x01, 0x70, 0x01,
    ];
    test_cpu.load_rom(&test_disconnected_jump).unwrap();

    prevtime = SystemTime::now();
    while !test_cpu.has_died() && test_cpu.pc < 4094 {
        let next_instr = test_cpu.get_next_instr();
        let _ = test_cpu.process_instruction(next_instr);
        let curtime = SystemTime::now();
        let nsecs = curtime.duration_since(prevtime).unwrap().subsec_nanos();
        test_cpu.tick(nsecs as u64);
        prevtime = curtime;
        test_cpu.end_frame();
    }

    assert_eq!(test_cpu.registerV[0], 3);

    test_cpu.reset();
    assert_eq!(test_cpu.registerV[0], 0);

    let test_conditions = [
        0x62, 0x08, // Load 8 into V[2]
        0x12, 0x06, // Skip the next instruction
        0x75, 0x01, // SHOULD NOT HIT
        0x71, 0x01, // Increment V[1]
        0x31, 0x0A, // Don't loop if we are at 10
        0x12, 0x02, // Jump back to the 2nd statement
    ];
    test_cpu.load_rom(&test_conditions).unwrap();

    prevtime = SystemTime::now();
    while !test_cpu.has_died() && test_cpu.pc < 4094 {
        let next_instr = test_cpu.get_next_instr();
        let _ = test_cpu.process_instruction(next_instr);
        let curtime = SystemTime::now();
        let nsecs = curtime.duration_since(prevtime).unwrap().subsec_nanos();
        test_cpu.tick(nsecs as u64);
        prevtime = curtime;
        test_cpu.end_frame();
    }

    assert_eq!(test_cpu.registerV[0], 0);
    assert_eq!(test_cpu.registerV[1], 10);
    assert_eq!(test_cpu.registerV[2], 8);
    assert_eq!(test_cpu.registerV[5], 0);
}

#[test]
fn test_arithmetic_carry_flag() {
    let mut cpu = new_cpu(InstructionSet::COWGOD);
    // 0xFF + 0x01 wraps to 0x00 and raises the carry flag.
    cpu.process_instruction(0x60FF).unwrap();
    cpu.process_instruction(0x6101).unwrap();
    cpu.process_instruction(0x8014).unwrap();
    assert_eq!(cpu.registerV[0], 0x00);
    assert_eq!(cpu.registerV[0xF], 1);
    // 0x10 + 0x01 does not carry.
    cpu.process_instruction(0x6010).unwrap();
    cpu.process_instruction(0x8014).unwrap();
    assert_eq!(cpu.registerV[0], 0x11);
    assert_eq!(cpu.registerV[0xF], 0);
}

#[test]
fn test_arithmetic_borrow_flag() {
    let mut cpu = new_cpu(InstructionSet::COWGOD);
    // 5 - 10 wraps to 251 and the flag reports the borrow with 0.
    cpu.process_instruction(0x6205).unwrap();
    cpu.process_instruction(0x630A).unwrap();
    cpu.process_instruction(0x8235).unwrap();
    assert_eq!(cpu.registerV[2], 251);
    assert_eq!(cpu.registerV[0xF], 0);
    // 10 - 5 needs no borrow: flag is 1.
    cpu.process_instruction(0x620A).unwrap();
    cpu.process_instruction(0x6305).unwrap();
    cpu.process_instruction(0x8235).unwrap();
    assert_eq!(cpu.registerV[2], 5);
    assert_eq!(cpu.registerV[0xF], 1);
    // Reverse subtract: V4 = V5 - V4 with V5 larger, no borrow.
    cpu.process_instruction(0x6402).unwrap();
    cpu.process_instruction(0x6509).unwrap();
    cpu.process_instruction(0x8457).unwrap();
    assert_eq!(cpu.registerV[4], 7);
    assert_eq!(cpu.registerV[0xF], 1);
}

#[test]
fn test_glyph_seven_draw() {
    let mut cpu = new_cpu(InstructionSet::COWGOD);
    // Point I at glyph 7 and draw its five rows at (0, 0).
    cpu.process_instruction(0x6007).unwrap();
    cpu.process_instruction(0xF029).unwrap();
    assert_eq!(cpu.i_reg, 35);
    cpu.process_instruction(0x6100).unwrap();
    cpu.process_instruction(0x6200).unwrap();
    cpu.process_instruction(0xD125).unwrap();
    let expected: [u8; 5] = [0x90, 0x20, 0x40, 0x80, 0x80];
    for row in 0..5 {
        assert_eq!(cpu.display_output.packed_pixels[row * 8], expected[row]);
    }
    assert_eq!(cpu.registerV[0xF], 0);
}

#[test]
fn test_double_draw_restores_screen() {
    let mut cpu = new_cpu(InstructionSet::COWGOD);
    // Draw glyph 7 twice at the unaligned column 1: no collision, then a
    // collision, and the screen is dark again.
    cpu.process_instruction(0x6007).unwrap();
    cpu.process_instruction(0xF029).unwrap();
    cpu.process_instruction(0x6101).unwrap();
    cpu.process_instruction(0x6200).unwrap();
    cpu.process_instruction(0xD125).unwrap();
    assert_eq!(cpu.registerV[0xF], 0);
    cpu.process_instruction(0xD125).unwrap();
    assert_eq!(cpu.registerV[0xF], 1);
    assert!(cpu.display_output.packed_pixels.iter().all(|b| *b == 0));
}

#[test]
fn test_clear_screen_opcode() {
    let mut cpu = new_cpu(InstructionSet::COWGOD);
    cpu.process_instruction(0x6007).unwrap();
    cpu.process_instruction(0xF029).unwrap();
    cpu.process_instruction(0x6100).unwrap();
    cpu.process_instruction(0x6200).unwrap();
    cpu.process_instruction(0xD125).unwrap();
    assert!(cpu.display_output.packed_pixels.iter().any(|b| *b != 0));
    cpu.process_instruction(0x00E0).unwrap();
    assert!(cpu.display_output.packed_pixels.iter().all(|b| *b == 0));
}

#[test]
fn test_jump_lands_exactly() {
    let mut cpu = new_cpu(InstructionSet::COWGOD);
    let old_pc = cpu.pc;
    cpu.process_instruction(0x1ABC).unwrap();
    assert_ne!(old_pc, 0xABC);
    assert_eq!(cpu.get_pc(), 0xABC);
    // The frame end does not push the counter past the landing spot.
    cpu.end_frame();
    assert_eq!(cpu.get_pc(), 0xABC);
    assert_eq!(cpu.get_next_instr(), 0x0000);
    // From another starting point the jump lands on the same spot.
    cpu.process_instruction(0x1300).unwrap();
    cpu.end_frame();
    assert_eq!(cpu.get_pc(), 0x300);
}

#[test]
fn test_call_and_ret() {
    let mut cpu = new_cpu(InstructionSet::COWGOD);
    cpu.process_instruction(0x2300).unwrap();
    cpu.end_frame();
    assert_eq!(cpu.pc, 0x300);
    assert_eq!(cpu.sp, 1);
    cpu.process_instruction(0x00EE).unwrap();
    assert_eq!(cpu.pc, 0x200);
    assert_eq!(cpu.sp, 0);
    cpu.end_frame();
    assert_eq!(cpu.pc, 0x202);
}

#[test]
fn test_tick_fragmented_deltas() {
    let mut cpu = new_cpu(InstructionSet::COWGOD);
    // Delay timer at 5; ten sub-period deltas summing to exactly one period.
    cpu.process_instruction(0x6005).unwrap();
    cpu.process_instruction(0xF015).unwrap();
    assert_eq!(cpu.timer, 5);
    let deltas: [u64; 10] = [
        1666667, 1666667, 1666667, 1666667, 1666667, 1666667, 1666667, 1666666, 1666666, 1666666,
    ];
    assert_eq!(deltas.iter().sum::<u64>(), 16666667);
    for (idx, d) in deltas.iter().enumerate() {
        cpu.tick(*d);
        if idx < 9 {
            assert_eq!(cpu.timer, 5, "timer moved early at delta {}", idx);
        }
    }
    assert_eq!(cpu.timer, 4);
    assert_eq!(cpu.ns_since_last_tick, 0);
    // A burst of three periods at once fires three ticks.
    cpu.tick(3 * 16666667);
    assert_eq!(cpu.timer, 1);
    // The timer floors at zero.
    cpu.tick(5 * 16666667);
    assert_eq!(cpu.timer, 0);
}

#[test]
fn test_audio_timer() {
    let mut timer = AudioTimer::new(TestAudio::new());
    assert_eq!(timer.time, 0);
    timer.tick();
    assert_eq!(timer.time, 0);
    assert_eq!(timer.audio_output.play_count, 0);
    timer.set_timer(2);
    timer.tick();
    assert_eq!(timer.time, 1);
    assert_eq!(timer.audio_output.play_count, 1);
    assert_eq!(timer.audio_output.stop_count, 0);
    timer.tick();
    assert_eq!(timer.time, 0);
    assert_eq!(timer.audio_output.play_count, 2);
    assert_eq!(timer.audio_output.stop_count, 1);
    timer.tick();
    assert_eq!(timer.audio_output.play_count, 2);
}

#[test]
fn test_save_restore_round_trip() {
    let mut cpu = new_cpu(InstructionSet::COWGOD);
    cpu.process_instruction(0x6011).unwrap();
    cpu.process_instruction(0x6122).unwrap();
    cpu.process_instruction(0x6233).unwrap();
    cpu.process_instruction(0x6344).unwrap();
    cpu.process_instruction(0xA300).unwrap();
    cpu.process_instruction(0xF355).unwrap();
    // The default convention leaves the address pointer alone.
    assert_eq!(cpu.i_reg, 0x300);
    assert_eq!(cpu.memory[0x300], 0x11);
    assert_eq!(cpu.memory[0x303], 0x44);
    // Scramble the registers, then restore from the same address pointer.
    cpu.process_instruction(0x60AA).unwrap();
    cpu.process_instruction(0x63AA).unwrap();
    cpu.process_instruction(0xF365).unwrap();
    assert_eq!(cpu.registerV[0], 0x11);
    assert_eq!(cpu.registerV[1], 0x22);
    assert_eq!(cpu.registerV[2], 0x33);
    assert_eq!(cpu.registerV[3], 0x44);
}

#[test]
fn test_save_restore_legacy_advances_pointer() {
    let mut cpu = new_cpu(InstructionSet::LEGACY);
    cpu.process_instruction(0x6077).unwrap();
    cpu.process_instruction(0x6188).unwrap();
    cpu.process_instruction(0xA300).unwrap();
    cpu.process_instruction(0xF155).unwrap();
    // The legacy convention advances the pointer past the block.
    assert_eq!(cpu.i_reg, 0x302);
    cpu.process_instruction(0x6000).unwrap();
    cpu.process_instruction(0x6100).unwrap();
    // Restoring from the same address pointer needs it put back first.
    cpu.process_instruction(0xA300).unwrap();
    cpu.process_instruction(0xF165).unwrap();
    assert_eq!(cpu.i_reg, 0x302);
    assert_eq!(cpu.registerV[0], 0x77);
    assert_eq!(cpu.registerV[1], 0x88);
}

#[test]
fn test_legacy_and_default_shifts() {
    // Default convention: the accumulator itself is shifted.
    let mut cpu = new_cpu(InstructionSet::COWGOD);
    cpu.process_instruction(0x6006).unwrap();
    cpu.process_instruction(0x6103).unwrap();
    cpu.process_instruction(0x8016).unwrap();
    assert_eq!(cpu.registerV[0], 3);
    assert_eq!(cpu.registerV[1], 3);
    assert_eq!(cpu.registerV[0xF], 0);
    cpu.process_instruction(0x801E).unwrap();
    assert_eq!(cpu.registerV[0], 6);
    assert_eq!(cpu.registerV[0xF], 0);
    // A set high bit shifted out raises the flag, normalized to 1.
    cpu.process_instruction(0x6081).unwrap();
    cpu.process_instruction(0x801E).unwrap();
    assert_eq!(cpu.registerV[0], 2);
    assert_eq!(cpu.registerV[0xF], 1);
    cpu.process_instruction(0x6081).unwrap();
    cpu.process_instruction(0x8016).unwrap();
    assert_eq!(cpu.registerV[0], 0x40);
    assert_eq!(cpu.registerV[0xF], 1);

    // Legacy convention: the second operand is shifted and copied over.
    let mut cpu = new_cpu(InstructionSet::LEGACY);
    cpu.process_instruction(0x6103).unwrap();
    cpu.process_instruction(0x8016).unwrap();
    assert_eq!(cpu.registerV[0], 1);
    assert_eq!(cpu.registerV[1], 1);
    assert_eq!(cpu.registerV[0xF], 1);
}

#[test]
fn test_add_const_leaves_flag_alone() {
    let mut cpu = new_cpu(InstructionSet::COWGOD);
    cpu.process_instruction(0x60FF).unwrap();
    cpu.process_instruction(0x7002).unwrap();
    // Wrapping add, but the flag register stays untouched.
    assert_eq!(cpu.registerV[0], 1);
    assert_eq!(cpu.registerV[0xF], 0);
}

#[test]
fn test_randomize_respects_mask() {
    let mut cpu = new_cpu(InstructionSet::COWGOD);
    cpu.process_instruction(0xC0F0).unwrap();
    assert_eq!(cpu.registerV[0] & 0x0F, 0);
    cpu.process_instruction(0xC100).unwrap();
    assert_eq!(cpu.registerV[1], 0);
}

#[test]
fn test_wait_for_key_polls() {
    // A held key lands in the register and the counter advances normally.
    let mut cpu = new_cpu(InstructionSet::COWGOD);
    cpu.process_instruction(0x6407).unwrap();
    cpu.end_frame();
    cpu.process_instruction(0xF40A).unwrap();
    assert_eq!(cpu.registerV[4], 0);
    cpu.end_frame();
    assert_eq!(cpu.pc, 0x204);

    // With no key down the counter holds so the word is fetched again.
    let mut cpu = InterpretedCpu::new(
        InstructionSet::COWGOD,
        ScreenBuffer::new(TestDisplay::new()),
        AudioTimer::new(TestAudio::new()),
        NoKeyInput {},
    );
    cpu.process_instruction(0xF40A).unwrap();
    cpu.end_frame();
    assert_eq!(cpu.pc, 0x200);
    cpu.process_instruction(0xF40A).unwrap();
    cpu.end_frame();
    assert_eq!(cpu.pc, 0x200);
}

#[test]
fn test_key_skip_instructions() {
    // The test keyboard holds no key down: 0xEx9E never skips, 0xExA1 always.
    let mut cpu = new_cpu(InstructionSet::COWGOD);
    cpu.process_instruction(0xE09E).unwrap();
    cpu.end_frame();
    assert_eq!(cpu.pc, 0x202);
    cpu.process_instruction(0xE0A1).unwrap();
    cpu.end_frame();
    assert_eq!(cpu.pc, 0x206);
    // The decision halves, fed directly.
    cpu.skip_next_if(false);
    assert_eq!(cpu.pc, 0x206);
    cpu.skip_next_if(true);
    assert_eq!(cpu.pc, 0x208);
    cpu.apply_key_poll(3, Some(9));
    assert_eq!(cpu.registerV[3], 9);
    cpu.apply_key_poll(3, None);
    cpu.end_frame();
    assert_eq!(cpu.pc, 0x208);
}

#[test]
fn test_invalid_opcode_halts() {
    let mut cpu = new_cpu(InstructionSet::COWGOD);
    let r = cpu.process_instruction(0xFFFF);
    assert_eq!(r, Err(Fault::InvalidOpcode { pc: 0x200, op: 0xFFFF }));
    assert!(cpu.has_died());
    // A 0x0nnn word other than the three defined ones is invalid too.
    let mut cpu = new_cpu(InstructionSet::COWGOD);
    let r = cpu.process_instruction(0x0123);
    assert_eq!(r, Err(Fault::InvalidOpcode { pc: 0x200, op: 0x0123 }));
    assert!(cpu.has_died());
}

#[test]
fn test_stack_faults() {
    let mut cpu = new_cpu(InstructionSet::COWGOD);
    let r = cpu.process_instruction(0x00EE);
    assert_eq!(r, Err(Fault::StackUnderflow { pc: 0x200, op: 0x00EE }));
    assert!(cpu.has_died());

    let mut cpu = new_cpu(InstructionSet::COWGOD);
    for _ in 0..24 {
        cpu.process_instruction(0x2300).unwrap();
        cpu.end_frame();
    }
    assert_eq!(cpu.sp, 24);
    let r = cpu.process_instruction(0x2300);
    assert_eq!(r, Err(Fault::StackOverflow { pc: 0x300, op: 0x2300 }));
    assert!(cpu.has_died());
}

#[test]
fn test_memory_faults() {
    // A register save past the end of memory.
    let mut cpu = new_cpu(InstructionSet::COWGOD);
    cpu.process_instruction(0xAFFF).unwrap();
    let r = cpu.process_instruction(0xF155);
    assert_eq!(r, Err(Fault::MemoryOutOfRange { pc: 0x200, op: 0xF155 }));
    assert!(cpu.has_died());

    // A register save into the protected font table.
    let mut cpu = new_cpu(InstructionSet::COWGOD);
    cpu.process_instruction(0xA000).unwrap();
    let r = cpu.process_instruction(0xF055);
    assert_eq!(r, Err(Fault::MemoryOutOfRange { pc: 0x200, op: 0xF055 }));

    // A BCD store into the protected font table.
    let mut cpu = new_cpu(InstructionSet::COWGOD);
    cpu.process_instruction(0xA04F).unwrap();
    let r = cpu.process_instruction(0xF033);
    assert_eq!(r, Err(Fault::MemoryOutOfRange { pc: 0x200, op: 0xF033 }));

    // Overflowing the address pointer.
    let mut cpu = new_cpu(InstructionSet::COWGOD);
    cpu.process_instruction(0xAFFF).unwrap();
    cpu.process_instruction(0x60FF).unwrap();
    let mut r = Ok(());
    for _ in 0..300 {
        r = cpu.process_instruction(0xF01E);
        if r.is_err() {
            break;
        }
    }
    assert!(matches!(r, Err(Fault::MemoryOutOfRange { .. })));

    // A sprite read past the end of memory.
    let mut cpu = new_cpu(InstructionSet::COWGOD);
    cpu.process_instruction(0xAFFF).unwrap();
    let r = cpu.process_instruction(0xD005);
    assert_eq!(r, Err(Fault::MemoryOutOfRange { pc: 0x200, op: 0xD005 }));
}

#[test]
fn test_draw_and_glyph_faults() {
    // A draw off the right edge of the screen.
    let mut cpu = new_cpu(InstructionSet::COWGOD);
    cpu.process_instruction(0x603C).unwrap();
    cpu.process_instruction(0x6100).unwrap();
    let r = cpu.process_instruction(0xD015);
    assert_eq!(r, Err(Fault::DrawOutOfRange { pc: 0x200, op: 0xD015 }));
    assert!(cpu.has_died());

    // A draw off the bottom of the screen.
    let mut cpu = new_cpu(InstructionSet::COWGOD);
    cpu.process_instruction(0x6000).unwrap();
    cpu.process_instruction(0x611E).unwrap();
    let r = cpu.process_instruction(0xD015);
    assert_eq!(r, Err(Fault::DrawOutOfRange { pc: 0x200, op: 0xD015 }));

    // A zero-height draw touches nothing wherever it points.
    let mut cpu = new_cpu(InstructionSet::COWGOD);
    cpu.process_instruction(0x60FF).unwrap();
    cpu.process_instruction(0x61FF).unwrap();
    cpu.process_instruction(0xD010).unwrap();
    assert_eq!(cpu.registerV[0xF], 0);
    assert!(!cpu.has_died());

    // A font lookup above 0xF names no glyph.
    let mut cpu = new_cpu(InstructionSet::COWGOD);
    cpu.process_instruction(0x6010).unwrap();
    let r = cpu.process_instruction(0xF029);
    assert_eq!(r, Err(Fault::GlyphOutOfRange { pc: 0x200, op: 0xF029 }));
}

#[test]
fn test_load_rom_too_large() {
    let mut cpu = new_cpu(InstructionSet::COWGOD);
    let rom = vec![0u8; 3585];
    let r = cpu.load_rom(&rom);
    assert_eq!(r, Err(LoadError::RomTooLarge { size: 3585 }));
    // A ROM that just fits loads verbatim at 0x200.
    let rom = vec![0xABu8; 3584];
    cpu.load_rom(&rom).unwrap();
    assert_eq!(cpu.memory[0x200], 0xAB);
    assert_eq!(cpu.memory[4095], 0xAB);
    assert_eq!(cpu.get_next_instr(), 0xABAB);
}

#[test]
fn test_bcd_digits() {
    let mut cpu = new_cpu(InstructionSet::COWGOD);
    cpu.process_instruction(0x60FE).unwrap();
    cpu.process_instruction(0xA300).unwrap();
    cpu.process_instruction(0xF033).unwrap();
    assert_eq!(cpu.memory[0x300], 2);
    assert_eq!(cpu.memory[0x301], 5);
    assert_eq!(cpu.memory[0x302], 4);
}

#[test]
fn test_timer_read_write() {
    let mut cpu = new_cpu(InstructionSet::COWGOD);
    cpu.process_instruction(0x603C).unwrap();
    cpu.process_instruction(0xF015).unwrap();
    assert_eq!(cpu.timer, 0x3C);
    cpu.process_instruction(0xF107).unwrap();
    assert_eq!(cpu.registerV[1], 0x3C);
    cpu.process_instruction(0xF018).unwrap();
    assert_eq!(cpu.audio_output.time, 0x3C);
}

#[test]
fn test_font_survives_rom_and_bcd() {
    let mut cpu = new_cpu(InstructionSet::COWGOD);
    let glyph0 = get_raw_char(0);
    let glyph_f = get_raw_char(0xF);
    for k in 0..5 {
        assert_eq!(cpu.memory[k], glyph0[k]);
        assert_eq!(cpu.memory[75 + k], glyph_f[k]);
    }
    cpu.load_rom(&[0xFFu8; 3584]).unwrap();
    cpu.process_instruction(0x60FF).unwrap();
    cpu.process_instruction(0xA050).unwrap();
    cpu.process_instruction(0xF033).unwrap();
    for k in 0..5 {
        assert_eq!(cpu.memory[k], glyph0[k]);
        assert_eq!(cpu.memory[75 + k], glyph_f[k]);
    }
}
