//! Tests for sprite drawing, the fetch-decode-execute cycle and whole
//! frames.

use chip8::error::Chip8Error;
use chip8::instruction::{execute_with, Operation};
use chip8::state::{Chip8State, Key, Register, Settings, PC_START_ADDR};

fn state_with(frame_rate: u64, ips: u64, rom: &[u8]) -> Chip8State {
    let mut state = Chip8State::new(Settings::new(frame_rate, ips, String::new()));
    state.memory.load_rom(rom).unwrap();
    state
}

#[test]
fn draw_sets_pixels_and_clips_at_the_right_edge() {
    let mut state = Chip8State::new(Settings::new(60, 700, String::new()));
    state.memory.write(0x300, 0xFF).unwrap();
    state.index = 0x300;
    state.registers.write(Register::V0, 60);
    state.registers.write(Register::V1, 0);
    execute_with(&mut state, Operation::Display { x: 0, y: 1, n: 1 }, 0).unwrap();
    assert!(!state.pixel(59, 0));
    for x in 60..64 {
        assert!(state.pixel(x, 0));
    }
    // The clipped half of the row does not wrap to the left edge.
    for x in 0..4 {
        assert!(!state.pixel(x, 0));
    }
    assert_eq!(state.registers.read(Register::VF), 0);
}

#[test]
fn draw_wraps_the_origin_by_default() {
    let mut state = Chip8State::new(Settings::new(60, 700, String::new()));
    state.memory.write(0x300, 0x80).unwrap();
    state.index = 0x300;
    state.registers.write(Register::V0, 200); // 200 % 64 == 8
    state.registers.write(Register::V1, 33); // 33 % 32 == 1
    execute_with(&mut state, Operation::Display { x: 0, y: 1, n: 1 }, 0).unwrap();
    assert!(state.pixel(8, 1));
}

#[test]
fn draw_quirk_off_clips_offscreen_origin() {
    let mut state = Chip8State::new(Settings::new(60, 700, String::new()));
    state.quirks.sprite_origin_wraps = false;
    state.memory.write(0x300, 0xFF).unwrap();
    state.index = 0x300;
    state.registers.write(Register::V0, 200);
    state.registers.write(Register::V1, 0);
    execute_with(&mut state, Operation::Display { x: 0, y: 1, n: 1 }, 0).unwrap();
    for y in 0..32 {
        for x in 0..64 {
            assert!(!state.pixel(x, y));
        }
    }
    assert_eq!(state.registers.read(Register::VF), 0);
}

#[test]
fn draw_zero_rows_changes_nothing() {
    let mut state = Chip8State::new(Settings::new(60, 700, String::new()));
    state.memory.write(0x300, 0xFF).unwrap();
    state.index = 0x300;
    execute_with(&mut state, Operation::Display { x: 0, y: 1, n: 0 }, 0).unwrap();
    for y in 0..32 {
        for x in 0..64 {
            assert!(!state.pixel(x, y));
        }
    }
    assert_eq!(state.registers.read(Register::VF), 0);
}

#[test]
fn draw_clips_at_the_bottom_edge() {
    let mut state = Chip8State::new(Settings::new(60, 700, String::new()));
    state.memory.write(0x300, 0x80).unwrap();
    state.memory.write(0x301, 0x80).unwrap();
    state.index = 0x300;
    state.registers.write(Register::V0, 0);
    state.registers.write(Register::V1, 31);
    execute_with(&mut state, Operation::Display { x: 0, y: 1, n: 2 }, 0).unwrap();
    // Row 0 of the sprite lands on the last display row; row 1 is clipped
    // and does not wrap to the top.
    assert!(state.pixel(0, 31));
    assert!(!state.pixel(0, 0));
}

#[test]
fn draw_out_of_bounds_sprite_fails() {
    let mut state = Chip8State::new(Settings::new(60, 700, String::new()));
    state.index = 4090;
    assert_eq!(
        execute_with(&mut state, Operation::Display { x: 0, y: 1, n: 10 }, 0),
        Err(Chip8Error::OutOfBoundsMemoryAccess)
    );
}

#[test]
fn drawing_the_same_sprite_twice_restores_the_display() {
    let mut state = Chip8State::new(Settings::new(60, 700, String::new()));
    state.memory.write(0x300, 0xA5).unwrap();
    state.memory.write(0x301, 0x5A).unwrap();
    state.index = 0x300;
    state.registers.write(Register::V0, 10);
    state.registers.write(Register::V1, 5);
    execute_with(&mut state, Operation::Display { x: 0, y: 1, n: 2 }, 0).unwrap();
    // First draw onto a clear screen: pixels set, no collision.
    assert!(state.pixel(10, 5));
    assert!(!state.pixel(11, 5));
    assert_eq!(state.registers.read(Register::VF), 0);
    execute_with(&mut state, Operation::Display { x: 0, y: 1, n: 2 }, 0).unwrap();
    // Second draw XORs the same bits: exactly the pixels it set are cleared
    // again, and erasing them is a collision.
    for y in 0..32 {
        for x in 0..64 {
            assert!(!state.pixel(x, y));
        }
    }
    assert_eq!(state.registers.read(Register::VF), 1);
}

#[test]
fn clear_screen_turns_every_pixel_off() {
    let mut state = Chip8State::new(Settings::new(60, 700, String::new()));
    state.memory.write(0x300, 0xFF).unwrap();
    state.index = 0x300;
    execute_with(&mut state, Operation::Display { x: 0, y: 1, n: 1 }, 0).unwrap();
    assert!(state.pixel(0, 0));
    execute_with(&mut state, Operation::ClearScreen, 0).unwrap();
    for y in 0..32 {
        for x in 0..64 {
            assert!(!state.pixel(x, y));
        }
    }
}

#[test]
fn fetch_reads_big_endian_word_and_advances() {
    let mut state = state_with(60, 700, &[0x1A, 0xBC]);
    let op = state.fetch_instruction().unwrap();
    assert_eq!(op, Operation::Jump { nnn: 0xABC });
    assert_eq!(state.pc, PC_START_ADDR + 2);
}

#[test]
fn fetch_beyond_memory_fails() {
    let mut state = state_with(60, 700, &[]);
    state.pc = 4095;
    assert_eq!(
        state.fetch_instruction(),
        Err(Chip8Error::OutOfBoundsMemoryAccess)
    );
    assert_eq!(state.pc, 4095);
    state.pc = 4096;
    assert_eq!(
        state.fetch_instruction(),
        Err(Chip8Error::OutOfBoundsMemoryAccess)
    );
}

#[test]
fn call_then_return_resumes_after_the_call() {
    // 0x200: 2206 (call 0x206); 0x206: 00EE (return).
    let rom = [0x22, 0x06, 0x00, 0x00, 0x00, 0x00, 0x00, 0xEE];
    let mut state = state_with(60, 700, &rom);
    state.step_with(0).unwrap();
    assert_eq!(state.pc, 0x206);
    assert_eq!(state.stack, vec![PC_START_ADDR + 2]);
    state.step_with(0).unwrap();
    // The counter resumes at the pre-call value plus one instruction.
    assert_eq!(state.pc, PC_START_ADDR + 2);
    assert!(state.stack.is_empty());
}

#[test]
fn step_reports_unsupported_opcode_with_the_raw_word() {
    let mut state = state_with(60, 700, &[0xFF, 0xFF]);
    assert_eq!(
        state.step_with(0),
        Err(Chip8Error::UnsupportedOpcode(0xFFFF))
    );
}

#[test]
fn tick_timers_saturates_at_zero() {
    let mut state = state_with(60, 700, &[]);
    state.delay_timer = 2;
    state.sound_timer = 1;
    state.tick_timers();
    assert_eq!(state.delay_timer, 1);
    assert_eq!(state.sound_timer, 0);
    state.tick_timers();
    assert_eq!(state.delay_timer, 0);
    assert_eq!(state.sound_timer, 0);
    state.tick_timers();
    assert_eq!(state.delay_timer, 0);
}

#[test]
fn clear_and_jump_rom_loops_forever_with_clear_screen() {
    // 0x200: 00E0 (clear); 0x202: 1200 (jump back to 0x200).
    let rom = [0x00, 0xE0, 0x12, 0x00];
    let mut state = state_with(60, 700, &rom);
    for _ in 0..5 {
        assert_eq!(state.run_frame(), Ok(()));
        for y in 0..32 {
            for x in 0..64 {
                assert!(!state.pixel(x, y));
            }
        }
    }
    assert!(state.pc == 0x200 || state.pc == 0x202);
}

#[test]
fn unsupported_word_rom_halts_the_frame() {
    let rom = [0xFF, 0xFF];
    let mut state = state_with(60, 700, &rom);
    assert_eq!(
        state.run_frame(),
        Err(Chip8Error::UnsupportedOpcode(0xFFFF))
    );
}

#[test]
fn run_frame_decrements_timers_once() {
    let rom = [0x12, 0x00]; // jump to itself
    let mut state = state_with(60, 700, &rom);
    state.delay_timer = 5;
    state.sound_timer = 1;
    state.run_frame().unwrap();
    assert_eq!(state.delay_timer, 4);
    assert_eq!(state.sound_timer, 0);
}

#[test]
fn blocking_key_read_busy_waits_across_frames() {
    // 0x200: F00A (blocking key read into V0); one instruction per frame.
    let rom = [0xF0, 0x0A];
    let mut state = state_with(60, 60, &rom);
    for _ in 0..5 {
        assert_eq!(state.run_frame(), Ok(()));
        assert_eq!(state.pc, PC_START_ADDR);
        assert_eq!(state.registers.read(Register::V0), 0);
    }
    state.keypad.set_key_state(Key::Key7, true);
    assert_eq!(state.run_frame(), Ok(()));
    assert_eq!(state.pc, PC_START_ADDR + 2);
    assert_eq!(state.registers.read(Register::V0), 7);
    // The consumed key reads as released on the next query.
    assert!(!state.keypad.is_key_pressed(Key::Key7));
}

#[test]
fn run_frame_executes_the_configured_instruction_budget() {
    // A chain of 6XNN writes: each frame runs ips / frame_rate = 3 of them.
    let rom = [0x61, 0x01, 0x62, 0x02, 0x63, 0x03, 0x64, 0x04, 0x12, 0x08];
    let mut state = state_with(60, 180, &rom);
    state.run_frame().unwrap();
    assert_eq!(state.registers.read(Register::V1), 1);
    assert_eq!(state.registers.read(Register::V2), 2);
    assert_eq!(state.registers.read(Register::V3), 3);
    assert_eq!(state.registers.read(Register::V4), 0);
    assert_eq!(state.pc, PC_START_ADDR + 6);
}
