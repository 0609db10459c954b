//! Tests for memory, registers, keypad, settings and the font.

use chip8::display::FontSprite;
use chip8::error::Chip8Error;
use chip8::state::{
    Chip8State, Key, Keypad, Memory, Register, RegisterBank, Settings, FONT_ADDR, MEM_SIZE,
    PC_START_ADDR,
};

#[test]
fn memory_write_then_read_returns_value() {
    let mut m = Memory::new();
    assert_eq!(m.write(100, 42), Ok(()));
    assert_eq!(m.read(100), Ok(42));
    assert_eq!(m.write(0, 7), Ok(()));
    assert_eq!(m.read(0), Ok(7));
    assert_eq!(m.write(4095, 255), Ok(()));
    assert_eq!(m.read(4095), Ok(255));
}

#[test]
fn memory_out_of_bounds_read_and_write_fail() {
    let mut m = Memory::new();
    assert_eq!(m.read(4096), Err(Chip8Error::OutOfBoundsMemoryAccess));
    assert_eq!(m.write(4096, 1), Err(Chip8Error::OutOfBoundsMemoryAccess));
    assert_eq!(m.read(usize::MAX), Err(Chip8Error::OutOfBoundsMemoryAccess));
}

#[test]
fn memory_new_preloads_font() {
    let m = Memory::new();
    // First row of glyph 0 and last row of glyph F.
    assert_eq!(m.read(FONT_ADDR), Ok(0xF0));
    assert_eq!(m.read(FONT_ADDR + 79), Ok(0x80));
    // Just outside the font region everything is zero.
    assert_eq!(m.read(FONT_ADDR - 1), Ok(0));
    assert_eq!(m.read(FONT_ADDR + 80), Ok(0));
}

#[test]
fn load_rom_succeeds_exactly_up_to_capacity() {
    let mut m = Memory::new();
    let max = MEM_SIZE - PC_START_ADDR;
    assert_eq!(m.load_rom(&vec![9u8; max]), Ok(()));
    assert_eq!(m.read(PC_START_ADDR), Ok(9));
    assert_eq!(m.read(MEM_SIZE - 1), Ok(9));
    let mut m2 = Memory::new();
    assert_eq!(
        m2.load_rom(&vec![9u8; max + 1]),
        Err(Chip8Error::ProgramTooLarge)
    );
    // A failed load changes nothing.
    assert_eq!(m2.read(PC_START_ADDR), Ok(0));
}

#[test]
fn load_rom_preserves_font_region() {
    let mut m = Memory::new();
    m.load_rom(&vec![0xAAu8; MEM_SIZE - PC_START_ADDR]).unwrap();
    for i in 0..80 {
        let byte = m.read(FONT_ADDR + i).unwrap();
        let glyph = FontSprite::get_font_sprite((i / 5) as u8).unwrap();
        assert_eq!(byte, glyph.as_bytes()[i % 5]);
    }
}

#[test]
fn read_sprite_returns_span_and_checks_bounds() {
    let m = Memory::new();
    assert_eq!(
        m.read_sprite(FONT_ADDR, 5).unwrap(),
        vec![0xF0, 0x90, 0x90, 0x90, 0xF0]
    );
    assert_eq!(
        m.read_sprite(4090, 10),
        Err(Chip8Error::OutOfBoundsMemoryAccess)
    );
    assert_eq!(m.read_sprite(4090, 6).unwrap(), vec![0, 0, 0, 0, 0, 0]);
}

#[test]
fn register_from_index_covers_all_sixteen() {
    for i in 0..16 {
        assert!(Register::from_index(i).is_ok());
    }
    assert_eq!(
        Register::from_index(16),
        Err(Chip8Error::InvalidRegisterIndex)
    );
    assert_eq!(
        Register::from_index(usize::MAX),
        Err(Chip8Error::InvalidRegisterIndex)
    );
}

#[test]
fn register_bank_reads_what_was_written() {
    let mut b = RegisterBank::new();
    assert_eq!(b.read(Register::V0), 0);
    assert_eq!(b.read(Register::VF), 0);
    b.write(Register::V3, 77);
    b.write(Register::VF, 1);
    assert_eq!(b.read(Register::V3), 77);
    assert_eq!(b.read(Register::VF), 1);
    assert_eq!(b.read(Register::V2), 0);
}

#[test]
fn key_from_index_covers_all_sixteen() {
    for i in 0..16u8 {
        assert!(Key::from_index(i).is_ok());
    }
    assert_eq!(Key::from_index(16), Err(Chip8Error::InvalidKeyIndex));
    assert_eq!(Key::from_index(255), Err(Chip8Error::InvalidKeyIndex));
}

#[test]
fn keypad_starts_released_and_tracks_transitions() {
    let mut kp = Keypad::new();
    for i in 0..16u8 {
        assert!(!kp.is_key_pressed(Key::from_index(i).unwrap()));
    }
    assert!(!kp.is_escape_pressed());
    kp.set_key_state(Key::Key5, true);
    assert!(kp.is_key_pressed(Key::Key5));
    assert!(!kp.is_key_pressed(Key::Key6));
    kp.release_key(Key::Key5);
    assert!(!kp.is_key_pressed(Key::Key5));
    kp.set_escape(true);
    assert!(kp.is_escape_pressed());
    kp.set_escape(false);
    assert!(!kp.is_escape_pressed());
}

#[test]
fn settings_records_rates_and_instruction_budget() {
    let s = Settings::new(60, 700, "game.ch8".to_string());
    assert_eq!(s.frame_rate, 60);
    assert_eq!(s.ips, 700);
    assert_eq!(s.rom, "game.ch8".to_string());
    assert_eq!(s.instructions_per_frame(), 11);
    let s2 = Settings::new(30, 700, String::new());
    assert_eq!(s2.instructions_per_frame(), 23);
}

#[test]
fn font_sprite_lookup() {
    assert_eq!(
        FontSprite::get_font_sprite(0).unwrap().as_bytes(),
        &[0xF0, 0x90, 0x90, 0x90, 0xF0]
    );
    assert_eq!(
        FontSprite::get_font_sprite(0xB).unwrap().as_bytes(),
        &[0xE0, 0x90, 0xE0, 0x90, 0xE0]
    );
    assert!(FontSprite::get_font_sprite(16).is_none());
    assert!(FontSprite::get_font_sprite(255).is_none());
}

#[test]
fn fresh_state_is_initial() {
    let state = Chip8State::new(Settings::new(60, 700, String::new()));
    assert_eq!(state.pc, PC_START_ADDR);
    assert_eq!(state.index, 0);
    assert!(state.stack.is_empty());
    assert_eq!(state.delay_timer, 0);
    assert_eq!(state.sound_timer, 0);
    assert_eq!(state.registers.read(Register::V0), 0);
    for y in 0..32 {
        for x in 0..64 {
            assert!(!state.pixel(x, y));
        }
    }
}
