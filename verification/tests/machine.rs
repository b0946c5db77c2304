use chip_8::display::{FrameBuffer, Render};
use chip_8::emulator::{Emulator, FONT_OFFSET};
use chip_8::error::{EmulatorError, RenderError};

/// A renderer that accepts every frame, for driving the machine in tests.
struct NullRenderer;

impl Render for NullRenderer {
    fn draw(&mut self, _frame_buffer: &FrameBuffer) -> Result<(), RenderError> {
        Ok(())
    }
}

/// A renderer that rejects every frame.
struct FailingRenderer;

impl Render for FailingRenderer {
    fn draw(&mut self, _frame_buffer: &FrameBuffer) -> Result<(), RenderError> {
        Err(RenderError)
    }
}

fn machine_with(rom: &[u8]) -> Emulator<NullRenderer> {
    let mut emulator = Emulator::new(NullRenderer, 500);
    emulator.load_rom(rom).unwrap();
    emulator
}

#[test]
fn test_load_and_set_index() {
    // V0 := 0x2A, then I := 0.
    let mut emulator = machine_with(&[0x60, 0x2A, 0xA0, 0x00]);
    emulator.step().unwrap();
    emulator.step().unwrap();
    assert_eq!(emulator.cpu.get_register(0), Ok(0x2A));
    assert_eq!(emulator.cpu.i, 0);
}

#[test]
fn test_jump_to_self_loops_forever() {
    let mut emulator = machine_with(&[0x12, 0x00]);
    for _ in 0..50 {
        emulator.step().unwrap();
    }
    assert_eq!(emulator.cpu.pc, 0x200);
    for r in 0..16 {
        assert_eq!(emulator.cpu.get_register(r), Ok(0));
    }
}

#[test]
fn test_add_with_carry() {
    // V1 := 0xFF, V2 := 0x01, V1 := V1 + V2.
    let mut emulator = machine_with(&[0x61, 0xFF, 0x62, 0x01, 0x81, 0x24]);
    emulator.step().unwrap();
    emulator.step().unwrap();
    emulator.step().unwrap();
    assert_eq!(emulator.cpu.get_register(1), Ok(0x00));
    assert_eq!(emulator.cpu.get_register(0xF), Ok(1));
}

#[test]
fn test_add_without_carry() {
    // V1 := 0x01, V2 := 0x01, V1 := V1 + V2.
    let mut emulator = machine_with(&[0x61, 0x01, 0x62, 0x01, 0x81, 0x24]);
    emulator.step().unwrap();
    emulator.step().unwrap();
    emulator.step().unwrap();
    assert_eq!(emulator.cpu.get_register(1), Ok(0x02));
    assert_eq!(emulator.cpu.get_register(0xF), Ok(0));
}

#[test]
fn test_draw_twice_clears_and_collides() {
    // I := 0x20A, draw five rows at (V0, V1) = (0, 0), draw them again.
    let rom = [
        0xA2, 0x0A, // I := 0x20A
        0xD0, 0x15, // draw
        0xD0, 0x15, // draw again
        0x00, 0x00, 0x00, 0x00, // padding up to the sprite
        0xF0, 0x90, 0x90, 0x90, 0xF0, // the sprite: a hollow box
    ];
    let mut emulator = machine_with(&rom);
    emulator.step().unwrap();

    // First draw from a blank screen: pixels lit, no collision.
    emulator.step().unwrap();
    assert_eq!(emulator.cpu.get_register(0xF), Ok(0));
    assert!(emulator.state.frame_buffer.get(0, 0));
    assert!(emulator.state.frame_buffer.get(3, 0));
    assert!(!emulator.state.frame_buffer.get(4, 0));
    assert!(!emulator.state.frame_buffer.get(1, 1));
    assert!(emulator.state.frame_buffer.get(0, 2));

    // Second identical draw: every pixel cleared again, collision flagged.
    emulator.step().unwrap();
    assert_eq!(emulator.cpu.get_register(0xF), Ok(1));
    for x in 0..64 {
        for y in 0..32 {
            assert!(!emulator.state.frame_buffer.get(x, y));
        }
    }
}

#[test]
fn test_clear_screen_unsets_everything() {
    let rom = [
        0xA2, 0x08, // I := 0x208
        0xD0, 0x13, // draw three rows at (0, 0)
        0x00, 0xE0, // clear screen
        0x00, 0x00, // padding
        0xFF, 0xAA, 0x55, // the sprite
    ];
    let mut emulator = machine_with(&rom);
    emulator.step().unwrap();
    emulator.step().unwrap();
    assert!(emulator.state.frame_buffer.get(0, 0));
    emulator.step().unwrap();
    for x in 0..64 {
        for y in 0..32 {
            assert!(!emulator.state.frame_buffer.get(x, y));
        }
    }
}

#[test]
fn test_wait_for_key_blocks_until_pressed() {
    let mut emulator = machine_with(&[0xF0, 0x0A]);
    for _ in 0..3 {
        emulator.step().unwrap();
        assert_eq!(emulator.cpu.pc, 0x200);
    }
    emulator.state.key_state[7] = true;
    emulator.step().unwrap();
    assert_eq!(emulator.cpu.pc, 0x202);
    assert_eq!(emulator.cpu.get_register(0), Ok(7));
}

#[test]
fn test_return_on_empty_stack_is_invalid_state() {
    let mut emulator = machine_with(&[0x00, 0xEE]);
    assert_eq!(emulator.step(), Err(EmulatorError::InvalidState));
}

#[test]
fn test_unknown_instruction_is_reported() {
    let mut emulator = machine_with(&[0xFF, 0xFF]);
    assert_eq!(emulator.step(), Err(EmulatorError::UnknownInstruction));
}

#[test]
fn test_runaway_program_counter_is_out_of_bounds() {
    // Jump to the very end of memory; the following fetch runs off it.
    let mut emulator = machine_with(&[0x1F, 0xFF]);
    emulator.step().unwrap();
    assert_eq!(emulator.step(), Err(EmulatorError::OutOfBounds));
}

#[test]
fn test_render_error_is_surfaced() {
    let mut emulator = Emulator::new(FailingRenderer, 500);
    emulator.load_rom(&[0x12, 0x00]).unwrap();
    assert_eq!(emulator.step(), Err(EmulatorError::Render(RenderError)));
}

#[test]
fn test_random_byte_lands_in_register() {
    // VA := random byte; the step must succeed whatever was drawn.
    let mut emulator = machine_with(&[0xCA, 0x00]);
    emulator.step().unwrap();
    assert!(emulator.cpu.get_register(0xA).is_ok());
    assert_eq!(emulator.cpu.pc, 0x202);
}

#[test]
fn test_call_and_return() {
    let rom = [
        0x22, 0x06, // call 0x206
        0x61, 0x07, // V1 := 7 (runs after the return)
        0x12, 0x04, // jump to self-ish padding
        0x60, 0x05, // at 0x206: V0 := 5
        0x00, 0xEE, // return
    ];
    let mut emulator = machine_with(&rom);
    emulator.step().unwrap();
    assert_eq!(emulator.cpu.pc, 0x206);
    emulator.step().unwrap();
    emulator.step().unwrap();
    assert_eq!(emulator.cpu.pc, 0x202);
    emulator.step().unwrap();
    assert_eq!(emulator.cpu.get_register(0), Ok(5));
    assert_eq!(emulator.cpu.get_register(1), Ok(7));
}

#[test]
fn test_timers_follow_the_cadence() {
    // V0 := 5, delay timer := V0, then jump to self. At 60 cycles per
    // second the timers decrement on every step.
    let rom = [0x60, 0x05, 0xF0, 0x15, 0x12, 0x04];
    let mut emulator = Emulator::new(NullRenderer, 60);
    emulator.load_rom(&rom).unwrap();
    emulator.step().unwrap();
    emulator.step().unwrap();
    assert_eq!(emulator.state.delay_timer.get(), 4);
    emulator.step().unwrap();
    assert_eq!(emulator.state.delay_timer.get(), 3);
}

#[test]
fn test_load_font_places_glyphs() {
    let font: [u8; 80] = [0x77; 80];
    let mut emulator = Emulator::new(NullRenderer, 500);
    emulator.load_font(&font).unwrap();
    assert_eq!(emulator.state.ram.get(FONT_OFFSET), Ok(0x77));
    assert_eq!(emulator.state.ram.get(FONT_OFFSET + 79), Ok(0x77));
    assert_eq!(emulator.state.ram.get(FONT_OFFSET + 80), Ok(0));
}

#[test]
fn test_load_rejects_overrun() {
    let mut emulator = Emulator::new(NullRenderer, 500);
    assert_eq!(
        emulator.load(4094, &[1, 2, 3]),
        Err(EmulatorError::OutOfBounds)
    );
    // The rejected copy changed nothing.
    assert_eq!(emulator.state.ram.get(4094), Ok(0));
    assert!(emulator.load(4093, &[1, 2, 3]).is_ok());
    assert_eq!(emulator.state.ram.get(4095), Ok(3));
}

#[test]
fn test_rom_too_large_is_rejected() {
    let rom = vec![0u8; 4096];
    let mut emulator = Emulator::new(NullRenderer, 500);
    assert_eq!(emulator.load_rom(&rom), Err(EmulatorError::OutOfBounds));
    assert_eq!(emulator.cpu.pc, 0);
}

#[test]
fn test_skip_if_equal_immediate() {
    // V0 := 3; skip if V0 == 3 (it is); the skipped word would set V1.
    let rom = [0x60, 0x03, 0x30, 0x03, 0x61, 0x09, 0x62, 0x08];
    let mut emulator = machine_with(&rom);
    emulator.step().unwrap();
    emulator.step().unwrap();
    assert_eq!(emulator.cpu.pc, 0x206);
    emulator.step().unwrap();
    assert_eq!(emulator.cpu.get_register(1), Ok(0));
    assert_eq!(emulator.cpu.get_register(2), Ok(8));
}

#[test]
fn test_shift_reads_vy() {
    // V1 := 0b1000_0001, V0 := V1 >> 1 with VF taking the low bit.
    let rom = [0x61, 0x81, 0x80, 0x16];
    let mut emulator = machine_with(&rom);
    emulator.step().unwrap();
    emulator.step().unwrap();
    assert_eq!(emulator.cpu.get_register(0), Ok(0x40));
    assert_eq!(emulator.cpu.get_register(0xF), Ok(1));
}

#[test]
fn test_shift_left_reads_vy() {
    // V1 := 0b1000_0001, V0 := V1 << 1 with VF taking the high bit.
    let rom = [0x61, 0x81, 0x80, 0x1E];
    let mut emulator = machine_with(&rom);
    emulator.step().unwrap();
    emulator.step().unwrap();
    assert_eq!(emulator.cpu.get_register(0), Ok(0x02));
    assert_eq!(emulator.cpu.get_register(0xF), Ok(1));
}

#[test]
fn test_jump_with_offset_adds_v0() {
    // V0 := 4, then jump to 0x202 + V0 = 0x206, where V1 := 9.
    let rom = [0x60, 0x04, 0xB2, 0x02, 0x00, 0x00, 0x61, 0x09];
    let mut emulator = machine_with(&rom);
    emulator.step().unwrap();
    emulator.step().unwrap();
    assert_eq!(emulator.cpu.pc, 0x206);
    emulator.step().unwrap();
    assert_eq!(emulator.cpu.get_register(1), Ok(9));
}

#[test]
fn test_index_add_wraps() {
    // I := 0xFFF ... add VX to I wraps modulo 65536 only at the u16 edge,
    // so adding 1 to 0xFFF just increments.
    let rom = [0x60, 0x01, 0xAF, 0xFF, 0xF0, 0x1E];
    let mut emulator = machine_with(&rom);
    emulator.step().unwrap();
    emulator.step().unwrap();
    emulator.step().unwrap();
    assert_eq!(emulator.cpu.i, 0x1000);
}

#[test]
fn test_font_character_address() {
    // V0 := 0xA; I points at the glyph for hexadecimal digit A.
    let rom = [0x60, 0x0A, 0xF0, 0x29];
    let mut emulator = machine_with(&rom);
    emulator.step().unwrap();
    emulator.step().unwrap();
    assert_eq!(emulator.cpu.i, 0x50 + 0xA * 5);
}

#[test]
fn test_bcd_conversion() {
    // V3 := 254, I := 0x300, write the decimal digits of V3.
    let rom = [0x63, 0xFE, 0xA3, 0x00, 0xF3, 0x33];
    let mut emulator = machine_with(&rom);
    emulator.step().unwrap();
    emulator.step().unwrap();
    emulator.step().unwrap();
    assert_eq!(emulator.state.ram.get(0x300), Ok(2));
    assert_eq!(emulator.state.ram.get(0x301), Ok(5));
    assert_eq!(emulator.state.ram.get(0x302), Ok(4));
}

#[test]
fn test_store_and_load_registers() {
    let rom = [
        0x60, 0x0A, // V0 := 10
        0x61, 0x0B, // V1 := 11
        0xA3, 0x00, // I := 0x300
        0xF1, 0x55, // store V0..V1 at I
        0x60, 0x00, // V0 := 0
        0x61, 0x00, // V1 := 0
        0xF1, 0x65, // load V0..V1 back from I
    ];
    let mut emulator = machine_with(&rom);
    for _ in 0..7 {
        emulator.step().unwrap();
    }
    assert_eq!(emulator.state.ram.get(0x300), Ok(10));
    assert_eq!(emulator.state.ram.get(0x301), Ok(11));
    assert_eq!(emulator.cpu.get_register(0), Ok(10));
    assert_eq!(emulator.cpu.get_register(1), Ok(11));
}
