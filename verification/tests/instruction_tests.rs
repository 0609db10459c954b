//! Tests for the decoder and the per-operation execution semantics.

use chip8::error::Chip8Error;
use chip8::instruction::{decode, execute, execute_with, DecodedInstruction, Operation};
use chip8::state::{Chip8State, Key, Register, Settings, PC_START_ADDR};

fn fresh_state() -> Chip8State {
    Chip8State::new(Settings::new(60, 700, String::new()))
}

#[test]
fn decoded_instruction_splits_fields() {
    let d = DecodedInstruction::new(0xD123);
    assert_eq!(d.opcode, 0xD);
    assert_eq!(d.x, 1);
    assert_eq!(d.y, 2);
    assert_eq!(d.n, 3);
    assert_eq!(d.nn, 0x23);
    assert_eq!(d.nnn, 0x123);
}

#[test]
fn decode_dispatch_table() {
    assert_eq!(decode(0x00E0), Ok(Operation::ClearScreen));
    assert_eq!(decode(0x00EE), Ok(Operation::SubroutineReturn));
    assert_eq!(decode(0x1ABC), Ok(Operation::Jump { nnn: 0xABC }));
    assert_eq!(decode(0x2345), Ok(Operation::SubroutineCall { nnn: 0x345 }));
    assert_eq!(decode(0x3A7F), Ok(Operation::JumpEqX { x: 0xA, nn: 0x7F }));
    assert_eq!(decode(0x4A7F), Ok(Operation::JumpNeqX { x: 0xA, nn: 0x7F }));
    assert_eq!(decode(0x5120), Ok(Operation::JumpXEqY { x: 1, y: 2 }));
    assert_eq!(decode(0x6B42), Ok(Operation::SetImmediate { x: 0xB, nn: 0x42 }));
    assert_eq!(decode(0x7B42), Ok(Operation::Add { x: 0xB, nn: 0x42 }));
    assert_eq!(decode(0x8120), Ok(Operation::SetXToY { x: 1, y: 2 }));
    assert_eq!(decode(0x8121), Ok(Operation::BinaryOr { x: 1, y: 2 }));
    assert_eq!(decode(0x8122), Ok(Operation::BinaryAnd { x: 1, y: 2 }));
    assert_eq!(decode(0x8123), Ok(Operation::LogicalXor { x: 1, y: 2 }));
    assert_eq!(decode(0x8124), Ok(Operation::BinaryAdd { x: 1, y: 2 }));
    assert_eq!(decode(0x8125), Ok(Operation::SubtractYFromX { x: 1, y: 2 }));
    assert_eq!(decode(0x8126), Ok(Operation::RightShift { x: 1, y: 2 }));
    assert_eq!(decode(0x8127), Ok(Operation::SubtractXFromY { x: 1, y: 2 }));
    assert_eq!(decode(0x812E), Ok(Operation::LeftShift { x: 1, y: 2 }));
    assert_eq!(decode(0x9120), Ok(Operation::JumpXNeqY { x: 1, y: 2 }));
    assert_eq!(decode(0xA9E5), Ok(Operation::SetIndex { nnn: 0x9E5 }));
    assert_eq!(decode(0xB9E5), Ok(Operation::JumpWithOffset { x: 9, nnn: 0x9E5 }));
    assert_eq!(decode(0xC277), Ok(Operation::Random { x: 2, nn: 0x77 }));
    assert_eq!(decode(0xD7A5), Ok(Operation::Display { x: 7, y: 0xA, n: 5 }));
    assert_eq!(decode(0xE29E), Ok(Operation::SkipIfKeyPressed { x: 2 }));
    assert_eq!(decode(0xE2A1), Ok(Operation::SkipIfKeyNotPressed { x: 2 }));
    assert_eq!(decode(0xF407), Ok(Operation::SetVxFromTimer { x: 4 }));
    assert_eq!(decode(0xF415), Ok(Operation::SetDelayTimer { x: 4 }));
    assert_eq!(decode(0xF418), Ok(Operation::SetSoundTimer { x: 4 }));
    assert_eq!(decode(0xF41E), Ok(Operation::AddToIndex { x: 4 }));
    assert_eq!(decode(0xF429), Ok(Operation::FontChar { x: 4 }));
    assert_eq!(decode(0xF433), Ok(Operation::BinaryCodedDecimal { x: 4 }));
    assert_eq!(decode(0xF455), Ok(Operation::Store { x: 4 }));
    assert_eq!(decode(0xF465), Ok(Operation::Load { x: 4 }));
    assert_eq!(decode(0xF40A), Ok(Operation::GetKey { x: 4 }));
}

#[test]
fn decode_rejects_words_outside_the_table() {
    assert_eq!(decode(0xFFFF), Err(Chip8Error::UnsupportedOpcode(0xFFFF)));
    assert_eq!(decode(0x0123), Err(Chip8Error::UnsupportedOpcode(0x0123)));
    assert_eq!(decode(0x8AB9), Err(Chip8Error::UnsupportedOpcode(0x8AB9)));
    assert_eq!(decode(0xE133), Err(Chip8Error::UnsupportedOpcode(0xE133)));
    assert_eq!(decode(0xF499), Err(Chip8Error::UnsupportedOpcode(0xF499)));
}

#[test]
fn add_with_carry_flag_values() {
    let mut state = fresh_state();
    state.registers.write(Register::V0, 0xFF);
    state.registers.write(Register::V1, 0x01);
    assert_eq!(
        execute_with(&mut state, Operation::BinaryAdd { x: 0, y: 1 }, 0),
        Ok(())
    );
    assert_eq!(state.registers.read(Register::V0), 0x00);
    assert_eq!(state.registers.read(Register::VF), 1);

    let mut state2 = fresh_state();
    state2.registers.write(Register::V0, 0x01);
    state2.registers.write(Register::V1, 0x01);
    assert_eq!(
        execute_with(&mut state2, Operation::BinaryAdd { x: 0, y: 1 }, 0),
        Ok(())
    );
    assert_eq!(state2.registers.read(Register::V0), 0x02);
    assert_eq!(state2.registers.read(Register::VF), 0);
}

#[test]
fn add_immediate_wraps_and_keeps_flag() {
    let mut state = fresh_state();
    state.registers.write(Register::V2, 0xF0);
    state.registers.write(Register::VF, 9);
    execute_with(&mut state, Operation::Add { x: 2, nn: 0x20 }, 0).unwrap();
    assert_eq!(state.registers.read(Register::V2), 0x10);
    // Unlike the carrying add, this one leaves the flag register alone.
    assert_eq!(state.registers.read(Register::VF), 9);
}

#[test]
fn logic_ops_clear_flag_register() {
    let mut state = fresh_state();
    state.registers.write(Register::V0, 0b1010);
    state.registers.write(Register::V1, 0b0110);
    state.registers.write(Register::VF, 7);
    execute_with(&mut state, Operation::BinaryOr { x: 0, y: 1 }, 0).unwrap();
    assert_eq!(state.registers.read(Register::V0), 0b1110);
    assert_eq!(state.registers.read(Register::VF), 0);

    state.registers.write(Register::V0, 0b1010);
    state.registers.write(Register::VF, 7);
    execute_with(&mut state, Operation::BinaryAnd { x: 0, y: 1 }, 0).unwrap();
    assert_eq!(state.registers.read(Register::V0), 0b0010);
    assert_eq!(state.registers.read(Register::VF), 0);

    state.registers.write(Register::V0, 0b1010);
    state.registers.write(Register::VF, 7);
    execute_with(&mut state, Operation::LogicalXor { x: 0, y: 1 }, 0).unwrap();
    assert_eq!(state.registers.read(Register::V0), 0b1100);
    assert_eq!(state.registers.read(Register::VF), 0);
}

#[test]
fn subtract_flags_mean_no_borrow() {
    let mut state = fresh_state();
    state.registers.write(Register::V0, 5);
    state.registers.write(Register::V1, 3);
    execute_with(&mut state, Operation::SubtractYFromX { x: 0, y: 1 }, 0).unwrap();
    assert_eq!(state.registers.read(Register::V0), 2);
    assert_eq!(state.registers.read(Register::VF), 1);

    state.registers.write(Register::V0, 3);
    state.registers.write(Register::V1, 5);
    execute_with(&mut state, Operation::SubtractYFromX { x: 0, y: 1 }, 0).unwrap();
    assert_eq!(state.registers.read(Register::V0), 254);
    assert_eq!(state.registers.read(Register::VF), 0);

    state.registers.write(Register::V0, 3);
    state.registers.write(Register::V1, 5);
    execute_with(&mut state, Operation::SubtractXFromY { x: 0, y: 1 }, 0).unwrap();
    assert_eq!(state.registers.read(Register::V0), 2);
    assert_eq!(state.registers.read(Register::VF), 1);
}

#[test]
fn shifts_read_source_register_and_set_flag() {
    let mut state = fresh_state();
    state.registers.write(Register::V1, 0b0000_0011);
    execute_with(&mut state, Operation::RightShift { x: 0, y: 1 }, 0).unwrap();
    assert_eq!(state.registers.read(Register::V0), 0b0000_0001);
    assert_eq!(state.registers.read(Register::VF), 1);

    state.registers.write(Register::V1, 0b1000_0001);
    execute_with(&mut state, Operation::LeftShift { x: 0, y: 1 }, 0).unwrap();
    assert_eq!(state.registers.read(Register::V0), 0b0000_0010);
    assert_eq!(state.registers.read(Register::VF), 1);
}

#[test]
fn shift_quirk_off_shifts_vx_in_place() {
    let mut state = fresh_state();
    state.quirks.shift_reads_y = false;
    state.registers.write(Register::V0, 0b0000_0100);
    state.registers.write(Register::V1, 0b1111_1111);
    execute_with(&mut state, Operation::RightShift { x: 0, y: 1 }, 0).unwrap();
    assert_eq!(state.registers.read(Register::V0), 0b0000_0010);
    assert_eq!(state.registers.read(Register::VF), 0);
}

#[test]
fn skips_advance_program_counter_by_two() {
    let mut state = fresh_state();
    state.registers.write(Register::V0, 0x42);
    execute_with(&mut state, Operation::JumpEqX { x: 0, nn: 0x42 }, 0).unwrap();
    assert_eq!(state.pc, PC_START_ADDR + 2);
    execute_with(&mut state, Operation::JumpEqX { x: 0, nn: 0x43 }, 0).unwrap();
    assert_eq!(state.pc, PC_START_ADDR + 2);
    execute_with(&mut state, Operation::JumpNeqX { x: 0, nn: 0x43 }, 0).unwrap();
    assert_eq!(state.pc, PC_START_ADDR + 4);
    state.registers.write(Register::V1, 0x42);
    execute_with(&mut state, Operation::JumpXEqY { x: 0, y: 1 }, 0).unwrap();
    assert_eq!(state.pc, PC_START_ADDR + 6);
    execute_with(&mut state, Operation::JumpXNeqY { x: 0, y: 1 }, 0).unwrap();
    assert_eq!(state.pc, PC_START_ADDR + 6);
}

#[test]
fn subroutine_call_pushes_and_return_pops() {
    let mut state = fresh_state();
    execute_with(&mut state, Operation::SubroutineCall { nnn: 0x400 }, 0).unwrap();
    assert_eq!(state.pc, 0x400);
    assert_eq!(state.stack, vec![PC_START_ADDR]);
    execute_with(&mut state, Operation::SubroutineReturn, 0).unwrap();
    assert_eq!(state.pc, PC_START_ADDR);
    assert!(state.stack.is_empty());
}

#[test]
fn subroutine_return_on_empty_stack_underflows() {
    let mut state = fresh_state();
    assert_eq!(
        execute_with(&mut state, Operation::SubroutineReturn, 0),
        Err(Chip8Error::StackUnderflow)
    );
    // The failing return leaves the program counter unchanged.
    assert_eq!(state.pc, PC_START_ADDR);
    assert!(state.stack.is_empty());
}

#[test]
fn jump_with_offset_uses_v0_by_default() {
    let mut state = fresh_state();
    state.registers.write(Register::V0, 4);
    state.registers.write(Register::V1, 9);
    execute_with(&mut state, Operation::JumpWithOffset { x: 1, nnn: 0x300 }, 0).unwrap();
    assert_eq!(state.pc, 0x304);

    let mut state2 = fresh_state();
    state2.quirks.jump_offset_uses_vx = true;
    state2.registers.write(Register::V0, 4);
    state2.registers.write(Register::V1, 9);
    execute_with(&mut state2, Operation::JumpWithOffset { x: 1, nnn: 0x300 }, 0).unwrap();
    assert_eq!(state2.pc, 0x309);
}

#[test]
fn random_masks_the_given_byte() {
    let mut state = fresh_state();
    execute_with(&mut state, Operation::Random { x: 0, nn: 0x0F }, 0xAB).unwrap();
    assert_eq!(state.registers.read(Register::V0), 0x0B);
    execute_with(&mut state, Operation::Random { x: 0, nn: 0x00 }, 0xFF).unwrap();
    assert_eq!(state.registers.read(Register::V0), 0x00);
    // With a host-drawn byte, whatever it was, the mask still holds.
    execute(&mut state, Operation::Random { x: 0, nn: 0x0F }).unwrap();
    assert!(state.registers.read(Register::V0) <= 0x0F);
}

#[test]
fn timer_transfers() {
    let mut state = fresh_state();
    state.registers.write(Register::V3, 42);
    execute_with(&mut state, Operation::SetDelayTimer { x: 3 }, 0).unwrap();
    assert_eq!(state.delay_timer, 42);
    execute_with(&mut state, Operation::SetSoundTimer { x: 3 }, 0).unwrap();
    assert_eq!(state.sound_timer, 42);
    execute_with(&mut state, Operation::SetVxFromTimer { x: 5 }, 0).unwrap();
    assert_eq!(state.registers.read(Register::V5), 42);
}

#[test]
fn add_to_index_wraps() {
    let mut state = fresh_state();
    state.index = 10;
    state.registers.write(Register::V0, 5);
    execute_with(&mut state, Operation::AddToIndex { x: 0 }, 0).unwrap();
    assert_eq!(state.index, 15);
    state.index = usize::MAX;
    state.registers.write(Register::V0, 1);
    execute_with(&mut state, Operation::AddToIndex { x: 0 }, 0).unwrap();
    assert_eq!(state.index, 0);
}

#[test]
fn font_char_points_at_glyph() {
    let mut state = fresh_state();
    state.registers.write(Register::V0, 0xAB);
    execute_with(&mut state, Operation::FontChar { x: 0 }, 0).unwrap();
    // Only the low nibble selects the glyph: B, at 0x50 + 11 * 5.
    assert_eq!(state.index, 0x50 + 11 * 5);
    assert_eq!(state.memory.read(state.index), Ok(0xE0));
}

#[test]
fn bcd_writes_three_digits() {
    let mut state = fresh_state();
    state.registers.write(Register::V7, 234);
    state.index = 0x300;
    execute_with(&mut state, Operation::BinaryCodedDecimal { x: 7 }, 0).unwrap();
    assert_eq!(state.memory.read(0x300), Ok(2));
    assert_eq!(state.memory.read(0x301), Ok(3));
    assert_eq!(state.memory.read(0x302), Ok(4));
    assert_eq!(state.index, 0x300);

    state.registers.write(Register::V7, 7);
    state.index = 0x310;
    execute_with(&mut state, Operation::BinaryCodedDecimal { x: 7 }, 0).unwrap();
    assert_eq!(state.memory.read(0x310), Ok(0));
    assert_eq!(state.memory.read(0x311), Ok(0));
    assert_eq!(state.memory.read(0x312), Ok(7));
}

#[test]
fn bcd_out_of_bounds_changes_nothing() {
    let mut state = fresh_state();
    state.registers.write(Register::V0, 123);
    state.index = 4094;
    assert_eq!(
        execute_with(&mut state, Operation::BinaryCodedDecimal { x: 0 }, 0),
        Err(Chip8Error::OutOfBoundsMemoryAccess)
    );
    // Not even the in-bounds digits were written.
    assert_eq!(state.memory.read(4094), Ok(0));
    assert_eq!(state.memory.read(4095), Ok(0));
}

#[test]
fn store_copies_registers_and_advances_index() {
    let mut state = fresh_state();
    state.registers.write(Register::V0, 1);
    state.registers.write(Register::V1, 2);
    state.registers.write(Register::V2, 3);
    state.index = 0x300;
    execute_with(&mut state, Operation::Store { x: 2 }, 0).unwrap();
    assert_eq!(state.memory.read(0x300), Ok(1));
    assert_eq!(state.memory.read(0x301), Ok(2));
    assert_eq!(state.memory.read(0x302), Ok(3));
    assert_eq!(state.memory.read(0x303), Ok(0));
    assert_eq!(state.index, 0x303);
}

#[test]
fn store_quirk_off_leaves_index() {
    let mut state = fresh_state();
    state.quirks.block_transfer_advances_index = false;
    state.index = 0x300;
    execute_with(&mut state, Operation::Store { x: 0 }, 0).unwrap();
    assert_eq!(state.index, 0x300);
}

#[test]
fn store_out_of_bounds_changes_nothing() {
    let mut state = fresh_state();
    state.registers.write(Register::V0, 9);
    state.index = 4090;
    assert_eq!(
        execute_with(&mut state, Operation::Store { x: 15 }, 0),
        Err(Chip8Error::OutOfBoundsMemoryAccess)
    );
    assert_eq!(state.memory.read(4090), Ok(0));
    assert_eq!(state.index, 4090);
}

#[test]
fn load_fills_registers_and_advances_index() {
    let mut state = fresh_state();
    state.memory.write(0x310, 9).unwrap();
    state.memory.write(0x311, 8).unwrap();
    state.memory.write(0x312, 7).unwrap();
    state.registers.write(Register::V3, 99);
    state.index = 0x310;
    execute_with(&mut state, Operation::Load { x: 2 }, 0).unwrap();
    assert_eq!(state.registers.read(Register::V0), 9);
    assert_eq!(state.registers.read(Register::V1), 8);
    assert_eq!(state.registers.read(Register::V2), 7);
    // Registers past Vx keep their values.
    assert_eq!(state.registers.read(Register::V3), 99);
    assert_eq!(state.index, 0x313);
}

#[test]
fn skip_if_key_ops_follow_keypad() {
    let mut state = fresh_state();
    state.registers.write(Register::V0, 5);
    execute_with(&mut state, Operation::SkipIfKeyPressed { x: 0 }, 0).unwrap();
    assert_eq!(state.pc, PC_START_ADDR);
    execute_with(&mut state, Operation::SkipIfKeyNotPressed { x: 0 }, 0).unwrap();
    assert_eq!(state.pc, PC_START_ADDR + 2);
    state.keypad.set_key_state(Key::Key5, true);
    execute_with(&mut state, Operation::SkipIfKeyPressed { x: 0 }, 0).unwrap();
    assert_eq!(state.pc, PC_START_ADDR + 4);
    execute_with(&mut state, Operation::SkipIfKeyNotPressed { x: 0 }, 0).unwrap();
    assert_eq!(state.pc, PC_START_ADDR + 4);
}

#[test]
fn skip_if_key_rejects_bad_key_number() {
    let mut state = fresh_state();
    state.registers.write(Register::V0, 99);
    assert_eq!(
        execute_with(&mut state, Operation::SkipIfKeyPressed { x: 0 }, 0),
        Err(Chip8Error::InvalidKeyIndex)
    );
    assert_eq!(state.pc, PC_START_ADDR);
}

#[test]
fn operation_with_register_index_above_fifteen_is_rejected() {
    let mut state = fresh_state();
    assert_eq!(
        execute_with(&mut state, Operation::SetImmediate { x: 16, nn: 1 }, 0),
        Err(Chip8Error::InvalidRegisterIndex)
    );
    assert_eq!(
        execute_with(&mut state, Operation::BinaryAdd { x: 0, y: 20 }, 0),
        Err(Chip8Error::InvalidRegisterIndex)
    );
}

#[test]
fn get_key_reads_lowest_pressed_key_and_releases_it() {
    let mut state = fresh_state();
    state.keypad.set_key_state(Key::Key7, true);
    state.keypad.set_key_state(Key::Key3, true);
    execute_with(&mut state, Operation::GetKey { x: 0 }, 0).unwrap();
    assert_eq!(state.registers.read(Register::V0), 3);
    assert!(!state.keypad.is_key_pressed(Key::Key3));
    assert!(state.keypad.is_key_pressed(Key::Key7));
    assert_eq!(state.pc, PC_START_ADDR);
}

#[test]
fn get_key_with_nothing_pressed_rewinds_program_counter() {
    let mut state = fresh_state();
    state.pc = PC_START_ADDR + 2;
    execute_with(&mut state, Operation::GetKey { x: 0 }, 0).unwrap();
    assert_eq!(state.pc, PC_START_ADDR);
    assert_eq!(state.registers.read(Register::V0), 0);
}
