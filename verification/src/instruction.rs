//! Instruction decoding and execution.
//!
//! A 16-bit instruction word is split into its fields and classified into a
//! closed `Operation` type, one case per opcode, built once at decode time.
//! Every operation's effect on the machine is stated as a transformation of
//! the abstract `StateView`, and the executable functions are proved to
//! apply exactly that transformation (or to fail leaving the state
//! unchanged).

use vstd::prelude::*;

use crate::display::{spec_draw_collision, spec_draw_display};
use crate::error::Chip8Error;
use crate::state::{
    Chip8State, Key, Register, StateView, DISPLAY_HEIGHT, DISPLAY_WIDTH, FONT_ADDR, FONT_HEIGHT,
    MEM_SIZE, NUM_KEYS, NUM_REGISTERS,
};

verus! {

/// The fields of a 16-bit instruction word.
pub struct DecodedInstruction {
    /// First nibble: the operation code.
    pub opcode: u8,
    /// Second nibble: a register index.
    pub x: usize,
    /// Third nibble: a register index.
    pub y: usize,
    /// Fourth nibble: a 4-bit number.
    pub n: u8,
    /// The second byte: an 8-bit immediate number.
    pub nn: u8,
    /// The bottom 12 bits: an immediate address.
    pub nnn: usize,
}

impl DecodedInstruction {
    /// Splits a raw instruction word into all of its fields, regardless of
    /// which fields the instruction actually uses.
    pub fn new(raw: u16) -> (d: DecodedInstruction)
        ensures
            d.opcode == (raw >> 12) as u8,
            d.x == ((raw >> 8) & 0x0F) as usize,
            d.y == ((raw >> 4) & 0x0F) as usize,
            d.n == (raw & 0x0F) as u8,
            d.nn == (raw & 0x00FF) as u8,
            d.nnn == (raw & 0x0FFF) as usize,
    {
        DecodedInstruction {
            opcode: (raw >> 12) as u8,
            x: ((raw >> 8) & 0x0F) as usize,
            y: ((raw >> 4) & 0x0F) as usize,
            n: (raw & 0x0F) as u8,
            nn: (raw & 0x00FF) as u8,
            nnn: (raw & 0x0FFF) as usize,
        }
    }
}

/// The closed set of operations, one case per instruction, each carrying
/// only its decoded fields.
#[derive(Clone, Copy, Debug, PartialEq, Eq, Structural)]
pub enum Operation {
    /// `00E0`: clear the framebuffer.
    ClearScreen,
    /// `1NNN`: jump to address `nnn`.
    Jump { nnn: usize },
    /// `2NNN`: push the program counter and jump to `nnn`.
    SubroutineCall { nnn: usize },
    /// `00EE`: pop the return address into the program counter.
    SubroutineReturn,
    /// `3XNN`: skip the next instruction when `Vx == nn`.
    JumpEqX { x: usize, nn: u8 },
    /// `4XNN`: skip the next instruction when `Vx != nn`.
    JumpNeqX { x: usize, nn: u8 },
    /// `5XY0`: skip the next instruction when `Vx == Vy`.
    JumpXEqY { x: usize, y: usize },
    /// `9XY0`: skip the next instruction when `Vx != Vy`.
    JumpXNeqY { x: usize, y: usize },
    /// `6XNN`: set `Vx` to `nn`.
    SetImmediate { x: usize, nn: u8 },
    /// `7XNN`: add `nn` to `Vx`, wrapping, flag untouched.
    Add { x: usize, nn: u8 },
    /// `8XY0`: copy `Vy` into `Vx`.
    SetXToY { x: usize, y: usize },
    /// `8XY1`: `Vx |= Vy`; the flag register is cleared.
    BinaryOr { x: usize, y: usize },
    /// `8XY2`: `Vx &= Vy`; the flag register is cleared.
    BinaryAnd { x: usize, y: usize },
    /// `8XY3`: `Vx ^= Vy`; the flag register is cleared.
    LogicalXor { x: usize, y: usize },
    /// `8XY4`: `Vx += Vy` with the flag register recording the carry.
    BinaryAdd { x: usize, y: usize },
    /// `8XY5`: `Vx -= Vy` with the flag register recording "no borrow".
    SubtractYFromX { x: usize, y: usize },
    /// `8XY7`: `Vx = Vy - Vx` with the flag register recording "no borrow".
    SubtractXFromY { x: usize, y: usize },
    /// `8XY6`: right-shift the source register into `Vx`; the flag register
    /// receives the bit shifted out.
    RightShift { x: usize, y: usize },
    /// `8XYE`: left-shift the source register into `Vx`; the flag register
    /// receives the bit shifted out.
    LeftShift { x: usize, y: usize },
    /// `ANNN`: set the index register to `nnn`.
    SetIndex { nnn: usize },
    /// `BNNN`: jump to `nnn` plus an offset register.
    JumpWithOffset { x: usize, nnn: usize },
    /// `CXNN`: set `Vx` to a random byte masked with `nn`.
    Random { x: usize, nn: u8 },
    /// `DXYN`: draw an `n`-row sprite from memory at the index register at
    /// `(Vx, Vy)`.
    Display { x: usize, y: usize, n: u8 },
    /// `EX9E`: skip the next instruction when key `Vx` is pressed.
    SkipIfKeyPressed { x: usize },
    /// `EXA1`: skip the next instruction when key `Vx` is not pressed.
    SkipIfKeyNotPressed { x: usize },
    /// `FX07`: set `Vx` to the delay timer.
    SetVxFromTimer { x: usize },
    /// `FX15`: set the delay timer to `Vx`.
    SetDelayTimer { x: usize },
    /// `FX18`: set the sound timer to `Vx`.
    SetSoundTimer { x: usize },
    /// `FX1E`: add `Vx` to the index register, wrapping.
    AddToIndex { x: usize },
    /// `FX29`: point the index register at the font glyph for `Vx & 0xF`.
    FontChar { x: usize },
    /// `FX33`: write the decimal digits of `Vx` at the index register.
    BinaryCodedDecimal { x: usize },
    /// `FX55`: store `V0..=Vx` to memory at the index register.
    Store { x: usize },
    /// `FX65`: load `V0..=Vx` from memory at the index register.
    Load { x: usize },
    /// `FX0A`: block until a key is pressed, then store it in `Vx`.
    GetKey { x: usize },
}

/// What `decode` returns for each raw word: the dispatch table of the
/// instruction set. Any word outside the table is unsupported and carries
/// the raw word for diagnostics.
pub open spec fn spec_decode(raw: u16) -> Result<Operation, Chip8Error> {
    let opcode = (raw >> 12) as u8;
    let x = ((raw >> 8) & 0x0F) as usize;
    let y = ((raw >> 4) & 0x0F) as usize;
    let n = (raw & 0x0F) as u8;
    let nn = (raw & 0x00FF) as u8;
    let nnn = (raw & 0x0FFF) as usize;
    if opcode == 0x0 {
        if nnn == 0x0E0 {
            Ok(Operation::ClearScreen)
        } else if nnn == 0x0EE {
            Ok(Operation::SubroutineReturn)
        } else {
            Err(Chip8Error::UnsupportedOpcode(raw))
        }
    } else if opcode == 0x1 {
        Ok(Operation::Jump { nnn })
    } else if opcode == 0x2 {
        Ok(Operation::SubroutineCall { nnn })
    } else if opcode == 0x3 {
        Ok(Operation::JumpEqX { x, nn })
    } else if opcode == 0x4 {
        Ok(Operation::JumpNeqX { x, nn })
    } else if opcode == 0x5 {
        Ok(Operation::JumpXEqY { x, y })
    } else if opcode == 0x6 {
        Ok(Operation::SetImmediate { x, nn })
    } else if opcode == 0x7 {
        Ok(Operation::Add { x, nn })
    } else if opcode == 0x8 {
        if n == 0x0 {
            Ok(Operation::SetXToY { x, y })
        } else if n == 0x1 {
            Ok(Operation::BinaryOr { x, y })
        } else if n == 0x2 {
            Ok(Operation::BinaryAnd { x, y })
        } else if n == 0x3 {
            Ok(Operation::LogicalXor { x, y })
        } else if n == 0x4 {
            Ok(Operation::BinaryAdd { x, y })
        } else if n == 0x5 {
            Ok(Operation::SubtractYFromX { x, y })
        } else if n == 0x6 {
            Ok(Operation::RightShift { x, y })
        } else if n == 0x7 {
            Ok(Operation::SubtractXFromY { x, y })
        } else if n == 0xE {
            Ok(Operation::LeftShift { x, y })
        } else {
            Err(Chip8Error::UnsupportedOpcode(raw))
        }
    } else if opcode == 0x9 {
        Ok(Operation::JumpXNeqY { x, y })
    } else if opcode == 0xA {
        Ok(Operation::SetIndex { nnn })
    } else if opcode == 0xB {
        Ok(Operation::JumpWithOffset { x, nnn })
    } else if opcode == 0xC {
        Ok(Operation::Random { x, nn })
    } else if opcode == 0xD {
        Ok(Operation::Display { x, y, n })
    } else if opcode == 0xE {
        if nn == 0x9E {
            Ok(Operation::SkipIfKeyPressed { x })
        } else if nn == 0xA1 {
            Ok(Operation::SkipIfKeyNotPressed { x })
        } else {
            Err(Chip8Error::UnsupportedOpcode(raw))
        }
    } else {
        if nn == 0x07 {
            Ok(Operation::SetVxFromTimer { x })
        } else if nn == 0x15 {
            Ok(Operation::SetDelayTimer { x })
        } else if nn == 0x18 {
            Ok(Operation::SetSoundTimer { x })
        } else if nn == 0x1E {
            Ok(Operation::AddToIndex { x })
        } else if nn == 0x29 {
            Ok(Operation::FontChar { x })
        } else if nn == 0x33 {
            Ok(Operation::BinaryCodedDecimal { x })
        } else if nn == 0x55 {
            Ok(Operation::Store { x })
        } else if nn == 0x65 {
            Ok(Operation::Load { x })
        } else if nn == 0x0A {
            Ok(Operation::GetKey { x })
        } else {
            Err(Chip8Error::UnsupportedOpcode(raw))
        }
    }
}

/// Decodes a raw 16-bit instruction word into an operation, or fails with
/// `UnsupportedOpcode` carrying the word when no table entry matches.
pub fn decode(raw: u16) -> (r: Result<Operation, Chip8Error>)
    ensures
        r == spec_decode(raw),
{
    let d = DecodedInstruction::new(raw);
    match d.opcode {
        0x0 => match d.nnn {
            0x0E0 => Ok(Operation::ClearScreen),
            0x0EE => Ok(Operation::SubroutineReturn),
            _ => Err(Chip8Error::UnsupportedOpcode(raw)),
        },
        0x1 => Ok(Operation::Jump { nnn: d.nnn }),
        0x2 => Ok(Operation::SubroutineCall { nnn: d.nnn }),
        0x3 => Ok(Operation::JumpEqX { x: d.x, nn: d.nn }),
        0x4 => Ok(Operation::JumpNeqX { x: d.x, nn: d.nn }),
        0x5 => Ok(Operation::JumpXEqY { x: d.x, y: d.y }),
        0x6 => Ok(Operation::SetImmediate { x: d.x, nn: d.nn }),
        0x7 => Ok(Operation::Add { x: d.x, nn: d.nn }),
        0x8 => match d.n {
            0x0 => Ok(Operation::SetXToY { x: d.x, y: d.y }),
            0x1 => Ok(Operation::BinaryOr { x: d.x, y: d.y }),
            0x2 => Ok(Operation::BinaryAnd { x: d.x, y: d.y }),
            0x3 => Ok(Operation::LogicalXor { x: d.x, y: d.y }),
            0x4 => Ok(Operation::BinaryAdd { x: d.x, y: d.y }),
            0x5 => Ok(Operation::SubtractYFromX { x: d.x, y: d.y }),
            0x6 => Ok(Operation::RightShift { x: d.x, y: d.y }),
            0x7 => Ok(Operation::SubtractXFromY { x: d.x, y: d.y }),
            0xE => Ok(Operation::LeftShift { x: d.x, y: d.y }),
            _ => Err(Chip8Error::UnsupportedOpcode(raw)),
        },
        0x9 => Ok(Operation::JumpXNeqY { x: d.x, y: d.y }),
        0xA => Ok(Operation::SetIndex { nnn: d.nnn }),
        0xB => Ok(Operation::JumpWithOffset { x: d.x, nnn: d.nnn }),
        0xC => Ok(Operation::Random { x: d.x, nn: d.nn }),
        0xD => Ok(Operation::Display { x: d.x, y: d.y, n: d.n }),
        0xE => match d.nn {
            0x9E => Ok(Operation::SkipIfKeyPressed { x: d.x }),
            0xA1 => Ok(Operation::SkipIfKeyNotPressed { x: d.x }),
            _ => Err(Chip8Error::UnsupportedOpcode(raw)),
        },
        0xF => match d.nn {
            0x07 => Ok(Operation::SetVxFromTimer { x: d.x }),
            0x15 => Ok(Operation::SetDelayTimer { x: d.x }),
            0x18 => Ok(Operation::SetSoundTimer { x: d.x }),
            0x1E => Ok(Operation::AddToIndex { x: d.x }),
            0x29 => Ok(Operation::FontChar { x: d.x }),
            0x33 => Ok(Operation::BinaryCodedDecimal { x: d.x }),
            0x55 => Ok(Operation::Store { x: d.x }),
            0x65 => Ok(Operation::Load { x: d.x }),
            0x0A => Ok(Operation::GetKey { x: d.x }),
            _ => Err(Chip8Error::UnsupportedOpcode(raw)),
        },
        _ => {
            proof {
                assert(raw >> 12 < 16) by (bit_vector);
                assert(false);
            }
            Err(Chip8Error::UnsupportedOpcode(raw))
        },
    }
}

/// How an executable operation relates to its specified transformation:
/// on success the new state is exactly the specified one; on failure the
/// specified error is returned and the state is unchanged.
pub open spec fn op_effect(
    expected: Result<StateView, Chip8Error>,
    pre: StateView,
    post: StateView,
    r: Result<(), Chip8Error>,
) -> bool {
    match expected {
        Ok(v) => r == Ok::<(), Chip8Error>(()) && post == v,
        Err(e) => r == Err::<(), Chip8Error>(e) && post == pre,
    }
}

/// `00E0`: every pixel of the display is turned off.
pub open spec fn spec_clear_screen(s: StateView) -> Result<StateView, Chip8Error> {
    Ok(
        StateView {
            display: Seq::new((DISPLAY_WIDTH * DISPLAY_HEIGHT) as nat, |i: int| false),
            ..s
        },
    )
}

/// Executes `00E0` (clear the framebuffer).
pub fn clear_screen(state: &mut Chip8State) -> (r: Result<(), Chip8Error>)
    requires
        old(state)@.wf(),
    ensures
        final(state)@.wf(),
        op_effect(spec_clear_screen(old(state)@), old(state)@, final(state)@, r),
{
    state.clear_display();
    Ok(())
}

/// `1NNN`: the program counter becomes `nnn`.
pub open spec fn spec_jump(s: StateView, nnn: usize) -> Result<StateView, Chip8Error> {
    Ok(StateView { pc: nnn, ..s })
}

/// Executes `1NNN` (unconditional jump).
pub fn jump(state: &mut Chip8State, nnn: usize) -> (r: Result<(), Chip8Error>)
    requires
        old(state)@.wf(),
    ensures
        final(state)@.wf(),
        op_effect(spec_jump(old(state)@, nnn), old(state)@, final(state)@, r),
{
    state.pc = nnn;
    Ok(())
}

/// `2NNN`: the current program counter (already advanced past this
/// instruction) is pushed on the call stack, then the counter becomes `nnn`.
pub open spec fn spec_subroutine_call(s: StateView, nnn: usize) -> Result<StateView, Chip8Error> {
    Ok(StateView { stack: s.stack.push(s.pc), pc: nnn, ..s })
}

/// Executes `2NNN` (subroutine call).
pub fn subroutine_call(state: &mut Chip8State, nnn: usize) -> (r: Result<(), Chip8Error>)
    requires
        old(state)@.wf(),
    ensures
        final(state)@.wf(),
        op_effect(spec_subroutine_call(old(state)@, nnn), old(state)@, final(state)@, r),
{
    state.stack.push(state.pc);
    state.pc = nnn;
    Ok(())
}

/// `00EE`: the top of the call stack is popped into the program counter;
/// with an empty stack this is a `StackUnderflow` error and nothing changes.
pub open spec fn spec_subroutine_return(s: StateView) -> Result<StateView, Chip8Error> {
    if s.stack.len() == 0 {
        Err(Chip8Error::StackUnderflow)
    } else {
        Ok(StateView { pc: s.stack.last(), stack: s.stack.drop_last(), ..s })
    }
}

/// Executes `00EE` (subroutine return). On an empty stack it fails with
/// `StackUnderflow` and leaves the whole state, the program counter
/// included, unchanged.
pub fn subroutine_return(state: &mut Chip8State) -> (r: Result<(), Chip8Error>)
    requires
        old(state)@.wf(),
    ensures
        final(state)@.wf(),
        op_effect(spec_subroutine_return(old(state)@), old(state)@, final(state)@, r),
{
    match state.stack.pop() {
        Some(return_address) => {
            state.pc = return_address;
            Ok(())
        },
        None => Err(Chip8Error::StackUnderflow),
    }
}

/// `3XNN`: the program counter advances by an extra instruction when
/// `Vx == nn`.
pub open spec fn spec_jump_eq_x(s: StateView, x: usize, nn: u8) -> Result<StateView, Chip8Error> {
    if x >= NUM_REGISTERS {
        Err(Chip8Error::InvalidRegisterIndex)
    } else if s.regs[x as int] == nn {
        Ok(StateView { pc: s.pc.wrapping_add(2), ..s })
    } else {
        Ok(s)
    }
}

/// Executes `3XNN` (skip when `Vx == nn`).
pub fn jump_eq_x(state: &mut Chip8State, x: usize, nn: u8) -> (r: Result<(), Chip8Error>)
    requires
        old(state)@.wf(),
    ensures
        final(state)@.wf(),
        op_effect(spec_jump_eq_x(old(state)@, x, nn), old(state)@, final(state)@, r),
{
    let reg_x = Register::from_index(x)?;
    if state.registers.read(reg_x) == nn {
        state.pc = state.pc.wrapping_add(2);
    }
    Ok(())
}

/// `4XNN`: the program counter advances by an extra instruction when
/// `Vx != nn`.
pub open spec fn spec_jump_neq_x(s: StateView, x: usize, nn: u8) -> Result<StateView, Chip8Error> {
    if x >= NUM_REGISTERS {
        Err(Chip8Error::InvalidRegisterIndex)
    } else if s.regs[x as int] != nn {
        Ok(StateView { pc: s.pc.wrapping_add(2), ..s })
    } else {
        Ok(s)
    }
}

/// Executes `4XNN` (skip when `Vx != nn`).
pub fn jump_neq_x(state: &mut Chip8State, x: usize, nn: u8) -> (r: Result<(), Chip8Error>)
    requires
        old(state)@.wf(),
    ensures
        final(state)@.wf(),
        op_effect(spec_jump_neq_x(old(state)@, x, nn), old(state)@, final(state)@, r),
{
    let reg_x = Register::from_index(x)?;
    if state.registers.read(reg_x) != nn {
        state.pc = state.pc.wrapping_add(2);
    }
    Ok(())
}

/// `5XY0`: the program counter advances by an extra instruction when
/// `Vx == Vy`.
pub open spec fn spec_jump_x_eq_y(s: StateView, x: usize, y: usize) -> Result<
    StateView,
    Chip8Error,
> {
    if x >= NUM_REGISTERS || y >= NUM_REGISTERS {
        Err(Chip8Error::InvalidRegisterIndex)
    } else if s.regs[x as int] == s.regs[y as int] {
        Ok(StateView { pc: s.pc.wrapping_add(2), ..s })
    } else {
        Ok(s)
    }
}

/// Executes `5XY0` (skip when `Vx == Vy`).
pub fn jump_x_eq_y(state: &mut Chip8State, x: usize, y: usize) -> (r: Result<(), Chip8Error>)
    requires
        old(state)@.wf(),
    ensures
        final(state)@.wf(),
        op_effect(spec_jump_x_eq_y(old(state)@, x, y), old(state)@, final(state)@, r),
{
    let reg_x = Register::from_index(x)?;
    let reg_y = Register::from_index(y)?;
    if state.registers.read(reg_x) == state.registers.read(reg_y) {
        state.pc = state.pc.wrapping_add(2);
    }
    Ok(())
}

/// `9XY0`: the program counter advances by an extra instruction when
/// `Vx != Vy`.
pub open spec fn spec_jump_x_neq_y(s: StateView, x: usize, y: usize) -> Result<
    StateView,
    Chip8Error,
> {
    if x >= NUM_REGISTERS || y >= NUM_REGISTERS {
        Err(Chip8Error::InvalidRegisterIndex)
    } else if s.regs[x as int] != s.regs[y as int] {
        Ok(StateView { pc: s.pc.wrapping_add(2), ..s })
    } else {
        Ok(s)
    }
}

/// Executes `9XY0` (skip when `Vx != Vy`).
pub fn jump_x_neq_y(state: &mut Chip8State, x: usize, y: usize) -> (r: Result<(), Chip8Error>)
    requires
        old(state)@.wf(),
    ensures
        final(state)@.wf(),
        op_effect(spec_jump_x_neq_y(old(state)@, x, y), old(state)@, final(state)@, r),
{
    let reg_x = Register::from_index(x)?;
    let reg_y = Register::from_index(y)?;
    if state.registers.read(reg_x) != state.registers.read(reg_y) {
        state.pc = state.pc.wrapping_add(2);
    }
    Ok(())
}

/// `6XNN`: `Vx` becomes `nn`.
pub open spec fn spec_set_immediate(s: StateView, x: usize, nn: u8) -> Result<
    StateView,
    Chip8Error,
> {
    if x >= NUM_REGISTERS {
        Err(Chip8Error::InvalidRegisterIndex)
    } else {
        Ok(StateView { regs: s.regs.update(x as int, nn), ..s })
    }
}

/// Executes `6XNN` (set register to immediate).
pub fn set_immediate(state: &mut Chip8State, x: usize, nn: u8) -> (r: Result<(), Chip8Error>)
    requires
        old(state)@.wf(),
    ensures
        final(state)@.wf(),
        op_effect(spec_set_immediate(old(state)@, x, nn), old(state)@, final(state)@, r),
{
    let reg_x = Register::from_index(x)?;
    state.registers.write(reg_x, nn);
    Ok(())
}

/// `7XNN`: `Vx` becomes `Vx + nn` with 8-bit wraparound; the flag register
/// is not touched.
pub open spec fn spec_add_immediate(s: StateView, x: usize, nn: u8) -> Result<
    StateView,
    Chip8Error,
> {
    if x >= NUM_REGISTERS {
        Err(Chip8Error::InvalidRegisterIndex)
    } else {
        Ok(StateView { regs: s.regs.update(x as int, s.regs[x as int].wrapping_add(nn)), ..s })
    }
}

/// Executes `7XNN` (add immediate without carry).
pub fn add_immediate(state: &mut Chip8State, x: usize, nn: u8) -> (r: Result<(), Chip8Error>)
    requires
        old(state)@.wf(),
    ensures
        final(state)@.wf(),
        op_effect(spec_add_immediate(old(state)@, x, nn), old(state)@, final(state)@, r),
{
    let reg_x = Register::from_index(x)?;
    let value_x = state.registers.read(reg_x);
    state.registers.write(reg_x, value_x.wrapping_add(nn));
    Ok(())
}

/// `8XY0`: `Vx` becomes `Vy`.
pub open spec fn spec_set_x_to_y(s: StateView, x: usize, y: usize) -> Result<
    StateView,
    Chip8Error,
> {
    if x >= NUM_REGISTERS || y >= NUM_REGISTERS {
        Err(Chip8Error::InvalidRegisterIndex)
    } else {
        Ok(StateView { regs: s.regs.update(x as int, s.regs[y as int]), ..s })
    }
}

/// Executes `8XY0` (copy register).
pub fn set_x_to_y(state: &mut Chip8State, x: usize, y: usize) -> (r: Result<(), Chip8Error>)
    requires
        old(state)@.wf(),
    ensures
        final(state)@.wf(),
        op_effect(spec_set_x_to_y(old(state)@, x, y), old(state)@, final(state)@, r),
{
    let reg_x = Register::from_index(x)?;
    let reg_y = Register::from_index(y)?;
    let value_y = state.registers.read(reg_y);
    state.registers.write(reg_x, value_y);
    Ok(())
}

/// `8XY1`: `Vx` becomes `Vx | Vy`, and the flag register is cleared to 0 as
/// a documented side effect.
pub open spec fn spec_binary_or(s: StateView, x: usize, y: usize) -> Result<
    StateView,
    Chip8Error,
> {
    if x >= NUM_REGISTERS || y >= NUM_REGISTERS {
        Err(Chip8Error::InvalidRegisterIndex)
    } else {
        Ok(
            StateView {
                regs: s.regs.update(x as int, s.regs[x as int] | s.regs[y as int]).update(15, 0u8),
                ..s
            },
        )
    }
}

/// Executes `8XY1` (bitwise OR; clears the flag register).
pub fn binary_or(state: &mut Chip8State, x: usize, y: usize) -> (r: Result<(), Chip8Error>)
    requires
        old(state)@.wf(),
    ensures
        final(state)@.wf(),
        op_effect(spec_binary_or(old(state)@, x, y), old(state)@, final(state)@, r),
{
    let reg_x = Register::from_index(x)?;
    let reg_y = Register::from_index(y)?;
    let value_x = state.registers.read(reg_x);
    let value_y = state.registers.read(reg_y);
    state.registers.write(reg_x, value_x | value_y);
    state.registers.write(Register::VF, 0);
    Ok(())
}

/// `8XY2`: `Vx` becomes `Vx & Vy`, and the flag register is cleared to 0 as
/// a documented side effect.
pub open spec fn spec_binary_and(s: StateView, x: usize, y: usize) -> Result<
    StateView,
    Chip8Error,
> {
    if x >= NUM_REGISTERS || y >= NUM_REGISTERS {
        Err(Chip8Error::InvalidRegisterIndex)
    } else {
        Ok(
            StateView {
                regs: s.regs.update(x as int, s.regs[x as int] & s.regs[y as int]).update(15, 0u8),
                ..s
            },
        )
    }
}

/// Executes `8XY2` (bitwise AND; clears the flag register).
pub fn binary_and(state: &mut Chip8State, x: usize, y: usize) -> (r: Result<(), Chip8Error>)
    requires
        old(state)@.wf(),
    ensures
        final(state)@.wf(),
        op_effect(spec_binary_and(old(state)@, x, y), old(state)@, final(state)@, r),
{
    let reg_x = Register::from_index(x)?;
    let reg_y = Register::from_index(y)?;
    let value_x = state.registers.read(reg_x);
    let value_y = state.registers.read(reg_y);
    state.registers.write(reg_x, value_x & value_y);
    state.registers.write(Register::VF, 0);
    Ok(())
}

/// `8XY3`: `Vx` becomes `Vx ^ Vy`, and the flag register is cleared to 0 as
/// a documented side effect.
pub open spec fn spec_logical_xor(s: StateView, x: usize, y: usize) -> Result<
    StateView,
    Chip8Error,
> {
    if x >= NUM_REGISTERS || y >= NUM_REGISTERS {
        Err(Chip8Error::InvalidRegisterIndex)
    } else {
        Ok(
            StateView {
                regs: s.regs.update(x as int, s.regs[x as int] ^ s.regs[y as int]).update(15, 0u8),
                ..s
            },
        )
    }
}

/// Executes `8XY3` (bitwise XOR; clears the flag register).
pub fn logical_xor(state: &mut Chip8State, x: usize, y: usize) -> (r: Result<(), Chip8Error>)
    requires
        old(state)@.wf(),
    ensures
        final(state)@.wf(),
        op_effect(spec_logical_xor(old(state)@, x, y), old(state)@, final(state)@, r),
{
    let reg_x = Register::from_index(x)?;
    let reg_y = Register::from_index(y)?;
    let value_x = state.registers.read(reg_x);
    let value_y = state.registers.read(reg_y);
    state.registers.write(reg_x, value_x ^ value_y);
    state.registers.write(Register::VF, 0);
    Ok(())
}

/// `8XY4`: `Vx` becomes `Vx + Vy` with 8-bit wraparound; the flag register
/// becomes 1 exactly when the wrapped sum is numerically less than the
/// original `Vx` (a carry occurred), else 0.
pub open spec fn spec_binary_add(s: StateView, x: usize, y: usize) -> Result<
    StateView,
    Chip8Error,
> {
    if x >= NUM_REGISTERS || y >= NUM_REGISTERS {
        Err(Chip8Error::InvalidRegisterIndex)
    } else {
        let sum = s.regs[x as int].wrapping_add(s.regs[y as int]);
        let flag: u8 = if sum < s.regs[x as int] {
            1u8
        } else {
            0u8
        };
        Ok(StateView { regs: s.regs.update(x as int, sum).update(15, flag), ..s })
    }
}

/// Executes `8XY4` (add with carry flag).
pub fn binary_add(state: &mut Chip8State, x: usize, y: usize) -> (r: Result<(), Chip8Error>)
    requires
        old(state)@.wf(),
    ensures
        final(state)@.wf(),
        op_effect(spec_binary_add(old(state)@, x, y), old(state)@, final(state)@, r),
{
    let reg_x = Register::from_index(x)?;
    let reg_y = Register::from_index(y)?;
    let value_x = state.registers.read(reg_x);
    let value_y = state.registers.read(reg_y);
    let sum = value_x.wrapping_add(value_y);
    state.registers.write(reg_x, sum);
    if sum < value_x {
        state.registers.write(Register::VF, 1);
    } else {
        state.registers.write(Register::VF, 0);
    }
    Ok(())
}

/// `8XY5`: `Vx` becomes `Vx - Vy` with 8-bit wraparound; the flag register
/// becomes 1 exactly when no borrow was needed (`Vx >= Vy`), else 0.
pub open spec fn spec_subtract_y_from_x(s: StateView, x: usize, y: usize) -> Result<
    StateView,
    Chip8Error,
> {
    if x >= NUM_REGISTERS || y >= NUM_REGISTERS {
        Err(Chip8Error::InvalidRegisterIndex)
    } else {
        let diff = s.regs[x as int].wrapping_sub(s.regs[y as int]);
        let flag: u8 = if s.regs[x as int] >= s.regs[y as int] {
            1u8
        } else {
            0u8
        };
        Ok(StateView { regs: s.regs.update(x as int, diff).update(15, flag), ..s })
    }
}

/// Executes `8XY5` (subtract with no-borrow flag).
pub fn subtract_y_from_x(state: &mut Chip8State, x: usize, y: usize) -> (r: Result<(), Chip8Error>)
    requires
        old(state)@.wf(),
    ensures
        final(state)@.wf(),
        op_effect(spec_subtract_y_from_x(old(state)@, x, y), old(state)@, final(state)@, r),
{
    let reg_x = Register::from_index(x)?;
    let reg_y = Register::from_index(y)?;
    let value_x = state.registers.read(reg_x);
    let value_y = state.registers.read(reg_y);
    state.registers.write(reg_x, value_x.wrapping_sub(value_y));
    if value_x >= value_y {
        state.registers.write(Register::VF, 1);
    } else {
        state.registers.write(Register::VF, 0);
    }
    Ok(())
}

/// `8XY7`: `Vx` becomes `Vy - Vx` with 8-bit wraparound; the flag register
/// becomes 1 exactly when no borrow was needed (`Vy >= Vx`), else 0.
pub open spec fn spec_subtract_x_from_y(s: StateView, x: usize, y: usize) -> Result<
    StateView,
    Chip8Error,
> {
    if x >= NUM_REGISTERS || y >= NUM_REGISTERS {
        Err(Chip8Error::InvalidRegisterIndex)
    } else {
        let diff = s.regs[y as int].wrapping_sub(s.regs[x as int]);
        let flag: u8 = if s.regs[y as int] >= s.regs[x as int] {
            1u8
        } else {
            0u8
        };
        Ok(StateView { regs: s.regs.update(x as int, diff).update(15, flag), ..s })
    }
}

/// Executes `8XY7` (reversed subtract with no-borrow flag).
pub fn subtract_x_from_y(state: &mut Chip8State, x: usize, y: usize) -> (r: Result<(), Chip8Error>)
    requires
        old(state)@.wf(),
    ensures
        final(state)@.wf(),
        op_effect(spec_subtract_x_from_y(old(state)@, x, y), old(state)@, final(state)@, r),
{
    let reg_x = Register::from_index(x)?;
    let reg_y = Register::from_index(y)?;
    let value_x = state.registers.read(reg_x);
    let value_y = state.registers.read(reg_y);
    state.registers.write(reg_x, value_y.wrapping_sub(value_x));
    if value_y >= value_x {
        state.registers.write(Register::VF, 1);
    } else {
        state.registers.write(Register::VF, 0);
    }
    Ok(())
}

/// `8XY6`: the source register (`Vy` by default, `Vx` with the quirk off)
/// is shifted right by one bit into `Vx`; the flag register receives the
/// bit shifted out.
pub open spec fn spec_right_shift(s: StateView, x: usize, y: usize) -> Result<
    StateView,
    Chip8Error,
> {
    if x >= NUM_REGISTERS || y >= NUM_REGISTERS {
        Err(Chip8Error::InvalidRegisterIndex)
    } else {
        let src = if s.quirks.shift_reads_y {
            s.regs[y as int]
        } else {
            s.regs[x as int]
        };
        Ok(StateView { regs: s.regs.update(x as int, src >> 1u8).update(15, src & 0x01), ..s })
    }
}

/// Executes `8XY6` (right shift; the flag register receives the old low
/// bit).
pub fn right_shift(state: &mut Chip8State, x: usize, y: usize) -> (r: Result<(), Chip8Error>)
    requires
        old(state)@.wf(),
    ensures
        final(state)@.wf(),
        op_effect(spec_right_shift(old(state)@, x, y), old(state)@, final(state)@, r),
{
    let reg_x = Register::from_index(x)?;
    let reg_y = Register::from_index(y)?;
    let src = if state.quirks.shift_reads_y {
        state.registers.read(reg_y)
    } else {
        state.registers.read(reg_x)
    };
    state.registers.write(reg_x, src >> 1u8);
    state.registers.write(Register::VF, src & 0x01);
    Ok(())
}

/// `8XYE`: the source register (`Vy` by default, `Vx` with the quirk off)
/// is shifted left by one bit into `Vx`; the flag register receives the
/// bit shifted out.
pub open spec fn spec_left_shift(s: StateView, x: usize, y: usize) -> Result<
    StateView,
    Chip8Error,
> {
    if x >= NUM_REGISTERS || y >= NUM_REGISTERS {
        Err(Chip8Error::InvalidRegisterIndex)
    } else {
        let src = if s.quirks.shift_reads_y {
            s.regs[y as int]
        } else {
            s.regs[x as int]
        };
        Ok(
            StateView {
                regs: s.regs.update(x as int, src << 1u8).update(15, (src & 0x80) >> 7u8),
                ..s
            },
        )
    }
}

/// Executes `8XYE` (left shift; the flag register receives the old high
/// bit).
pub fn left_shift(state: &mut Chip8State, x: usize, y: usize) -> (r: Result<(), Chip8Error>)
    requires
        old(state)@.wf(),
    ensures
        final(state)@.wf(),
        op_effect(spec_left_shift(old(state)@, x, y), old(state)@, final(state)@, r),
{
    let reg_x = Register::from_index(x)?;
    let reg_y = Register::from_index(y)?;
    let src = if state.quirks.shift_reads_y {
        state.registers.read(reg_y)
    } else {
        state.registers.read(reg_x)
    };
    state.registers.write(reg_x, src << 1u8);
    state.registers.write(Register::VF, (src & 0x80) >> 7u8);
    Ok(())
}

/// `ANNN`: the index register becomes `nnn`.
pub open spec fn spec_set_index(s: StateView, nnn: usize) -> Result<StateView, Chip8Error> {
    Ok(StateView { index: nnn, ..s })
}

/// Executes `ANNN` (set index register).
pub fn set_index(state: &mut Chip8State, nnn: usize) -> (r: Result<(), Chip8Error>)
    requires
        old(state)@.wf(),
    ensures
        final(state)@.wf(),
        op_effect(spec_set_index(old(state)@, nnn), old(state)@, final(state)@, r),
{
    state.index = nnn;
    Ok(())
}

/// `BNNN`: the program counter becomes `nnn` plus an offset register: `V0`
/// by default, `Vx` with the quirk on.
pub open spec fn spec_jump_with_offset(s: StateView, x: usize, nnn: usize) -> Result<
    StateView,
    Chip8Error,
> {
    if s.quirks.jump_offset_uses_vx && x >= NUM_REGISTERS {
        Err(Chip8Error::InvalidRegisterIndex)
    } else {
        let offset = if s.quirks.jump_offset_uses_vx {
            s.regs[x as int]
        } else {
            s.regs[0]
        };
        Ok(StateView { pc: nnn.wrapping_add(offset as usize), ..s })
    }
}

/// Executes `BNNN` (jump with register offset).
pub fn jump_with_offset(state: &mut Chip8State, x: usize, nnn: usize) -> (r: Result<
    (),
    Chip8Error,
>)
    requires
        old(state)@.wf(),
    ensures
        final(state)@.wf(),
        op_effect(spec_jump_with_offset(old(state)@, x, nnn), old(state)@, final(state)@, r),
{
    let offset = if state.quirks.jump_offset_uses_vx {
        let reg_x = Register::from_index(x)?;
        state.registers.read(reg_x)
    } else {
        state.registers.read(Register::V0)
    };
    state.pc = nnn.wrapping_add(offset as usize);
    Ok(())
}

/// `CXNN`: `Vx` becomes the given random byte masked with `nn`.
pub open spec fn spec_random(s: StateView, x: usize, nn: u8, rnd: u8) -> Result<
    StateView,
    Chip8Error,
> {
    if x >= NUM_REGISTERS {
        Err(Chip8Error::InvalidRegisterIndex)
    } else {
        Ok(StateView { regs: s.regs.update(x as int, rnd & nn), ..s })
    }
}

/// Executes `CXNN` on a random byte already drawn: `Vx` becomes
/// `rnd & nn`. Every caller draws `rnd` from its own source; this function
/// is exact for every value of it.
pub fn random(state: &mut Chip8State, x: usize, nn: u8, rnd: u8) -> (r: Result<(), Chip8Error>)
    requires
        old(state)@.wf(),
    ensures
        final(state)@.wf(),
        op_effect(spec_random(old(state)@, x, nn, rnd), old(state)@, final(state)@, r),
{
    let reg_x = Register::from_index(x)?;
    state.registers.write(reg_x, rnd & nn);
    Ok(())
}

/// `FX07`: `Vx` becomes the current delay timer value.
pub open spec fn spec_set_vx_from_timer(s: StateView, x: usize) -> Result<StateView, Chip8Error> {
    if x >= NUM_REGISTERS {
        Err(Chip8Error::InvalidRegisterIndex)
    } else {
        Ok(StateView { regs: s.regs.update(x as int, s.delay_timer), ..s })
    }
}

/// Executes `FX07` (read delay timer).
pub fn set_vx_from_timer(state: &mut Chip8State, x: usize) -> (r: Result<(), Chip8Error>)
    requires
        old(state)@.wf(),
    ensures
        final(state)@.wf(),
        op_effect(spec_set_vx_from_timer(old(state)@, x), old(state)@, final(state)@, r),
{
    let reg_x = Register::from_index(x)?;
    let t = state.delay_timer;
    state.registers.write(reg_x, t);
    Ok(())
}

/// `FX15`: the delay timer becomes `Vx`.
pub open spec fn spec_set_delay_timer(s: StateView, x: usize) -> Result<StateView, Chip8Error> {
    if x >= NUM_REGISTERS {
        Err(Chip8Error::InvalidRegisterIndex)
    } else {
        Ok(StateView { delay_timer: s.regs[x as int], ..s })
    }
}

/// Executes `FX15` (set delay timer).
pub fn set_delay_timer(state: &mut Chip8State, x: usize) -> (r: Result<(), Chip8Error>)
    requires
        old(state)@.wf(),
    ensures
        final(state)@.wf(),
        op_effect(spec_set_delay_timer(old(state)@, x), old(state)@, final(state)@, r),
{
    let reg_x = Register::from_index(x)?;
    state.delay_timer = state.registers.read(reg_x);
    Ok(())
}

/// `FX18`: the sound timer becomes `Vx`.
pub open spec fn spec_set_sound_timer(s: StateView, x: usize) -> Result<StateView, Chip8Error> {
    if x >= NUM_REGISTERS {
        Err(Chip8Error::InvalidRegisterIndex)
    } else {
        Ok(StateView { sound_timer: s.regs[x as int], ..s })
    }
}

/// Executes `FX18` (set sound timer).
pub fn set_sound_timer(state: &mut Chip8State, x: usize) -> (r: Result<(), Chip8Error>)
    requires
        old(state)@.wf(),
    ensures
        final(state)@.wf(),
        op_effect(spec_set_sound_timer(old(state)@, x), old(state)@, final(state)@, r),
{
    let reg_x = Register::from_index(x)?;
    state.sound_timer = state.registers.read(reg_x);
    Ok(())
}

/// `FX1E`: the index register becomes `index + Vx`, wrapping.
pub open spec fn spec_add_to_index(s: StateView, x: usize) -> Result<StateView, Chip8Error> {
    if x >= NUM_REGISTERS {
        Err(Chip8Error::InvalidRegisterIndex)
    } else {
        Ok(StateView { index: s.index.wrapping_add(s.regs[x as int] as usize), ..s })
    }
}

/// Executes `FX1E` (add register to index).
pub fn add_to_index(state: &mut Chip8State, x: usize) -> (r: Result<(), Chip8Error>)
    requires
        old(state)@.wf(),
    ensures
        final(state)@.wf(),
        op_effect(spec_add_to_index(old(state)@, x), old(state)@, final(state)@, r),
{
    let reg_x = Register::from_index(x)?;
    let value_x = state.registers.read(reg_x);
    state.index = state.index.wrapping_add(value_x as usize);
    Ok(())
}

/// `FX29`: the index register points at the 5-byte font glyph for the low
/// nibble of `Vx`.
pub open spec fn spec_font_char(s: StateView, x: usize) -> Result<StateView, Chip8Error> {
    if x >= NUM_REGISTERS {
        Err(Chip8Error::InvalidRegisterIndex)
    } else {
        Ok(
            StateView {
                index: (((s.regs[x as int] & 0x0F) as usize) * FONT_HEIGHT + FONT_ADDR) as usize,
                ..s
            },
        )
    }
}

/// Executes `FX29` (font glyph lookup).
pub fn font_char(state: &mut Chip8State, x: usize) -> (r: Result<(), Chip8Error>)
    requires
        old(state)@.wf(),
    ensures
        final(state)@.wf(),
        op_effect(spec_font_char(old(state)@, x), old(state)@, final(state)@, r),
{
    let reg_x = Register::from_index(x)?;
    let value_x = state.registers.read(reg_x);
    let low = value_x & 0x0F;
    proof {
        assert(value_x & 0x0F < 16) by (bit_vector);
    }
    state.index = (low as usize) * FONT_HEIGHT + FONT_ADDR;
    Ok(())
}

/// `DXYN`: the `n`-row sprite at the index register is XOR-drawn at the
/// origin `(Vx, Vy)`; with the wrapping quirk (the default) the origin is
/// taken modulo the display size, otherwise an off-screen origin draws
/// nothing. The flag register becomes 1 exactly when some pixel went from
/// set to unset. Fails, changing nothing, when the sprite bytes run past
/// the end of memory.
pub open spec fn spec_display_op(s: StateView, x: usize, y: usize, n: u8) -> Result<
    StateView,
    Chip8Error,
> {
    if x >= NUM_REGISTERS || y >= NUM_REGISTERS {
        Err(Chip8Error::InvalidRegisterIndex)
    } else if s.index + n > MEM_SIZE {
        Err(Chip8Error::OutOfBoundsMemoryAccess)
    } else {
        let ox = if s.quirks.sprite_origin_wraps {
            s.regs[x as int] as int % (DISPLAY_WIDTH as int)
        } else {
            s.regs[x as int] as int
        };
        let oy = if s.quirks.sprite_origin_wraps {
            s.regs[y as int] as int % (DISPLAY_HEIGHT as int)
        } else {
            s.regs[y as int] as int
        };
        let sprite = s.mem.subrange(s.index as int, s.index + n);
        if ox < DISPLAY_WIDTH && oy < DISPLAY_HEIGHT {
            let collision = spec_draw_collision(s.display, sprite, ox, oy);
            Ok(
                StateView {
                    display: spec_draw_display(s.display, sprite, ox, oy),
                    regs: s.regs.update(
                        15,
                        if collision {
                            1u8
                        } else {
                            0u8
                        },
                    ),
                    ..s
                },
            )
        } else {
            Ok(StateView { regs: s.regs.update(15, 0u8), ..s })
        }
    }
}

/// Executes `DXYN` (draw sprite with collision flag).
pub fn display(state: &mut Chip8State, x: usize, y: usize, n: u8) -> (r: Result<(), Chip8Error>)
    requires
        old(state)@.wf(),
    ensures
        final(state)@.wf(),
        op_effect(spec_display_op(old(state)@, x, y, n), old(state)@, final(state)@, r),
{
    let reg_x = Register::from_index(x)?;
    let reg_y = Register::from_index(y)?;
    let value_x = state.registers.read(reg_x);
    let value_y = state.registers.read(reg_y);
    let (ox, oy) = if state.quirks.sprite_origin_wraps {
        ((value_x as usize) % DISPLAY_WIDTH, (value_y as usize) % DISPLAY_HEIGHT)
    } else {
        (value_x as usize, value_y as usize)
    };
    if ox < DISPLAY_WIDTH && oy < DISPLAY_HEIGHT {
        let collision = match state.draw_sprite(ox, oy, n) {
            Ok(c) => c,
            Err(e) => {
                return Err(e);
            },
        };
        if collision {
            state.registers.write(Register::VF, 1);
        } else {
            state.registers.write(Register::VF, 0);
        }
        Ok(())
    } else {
        // Nothing of the sprite is visible, but its bytes must still lie in
        // memory.
        let rows = n as usize;
        if state.index > MEM_SIZE - rows {
            return Err(Chip8Error::OutOfBoundsMemoryAccess);
        }
        state.registers.write(Register::VF, 0);
        Ok(())
    }
}

/// `EX9E`: the program counter advances by an extra instruction when the
/// key numbered `Vx` is pressed; a `Vx` above 15 is an `InvalidKeyIndex`
/// error.
pub open spec fn spec_skip_if_key_pressed(s: StateView, x: usize) -> Result<
    StateView,
    Chip8Error,
> {
    if x >= NUM_REGISTERS {
        Err(Chip8Error::InvalidRegisterIndex)
    } else if s.regs[x as int] >= NUM_KEYS {
        Err(Chip8Error::InvalidKeyIndex)
    } else if s.keys[s.regs[x as int] as int] {
        Ok(StateView { pc: s.pc.wrapping_add(2), ..s })
    } else {
        Ok(s)
    }
}

/// Executes `EX9E` (skip when key pressed).
pub fn skip_if_key_pressed(state: &mut Chip8State, x: usize) -> (r: Result<(), Chip8Error>)
    requires
        old(state)@.wf(),
    ensures
        final(state)@.wf(),
        op_effect(spec_skip_if_key_pressed(old(state)@, x), old(state)@, final(state)@, r),
{
    let reg_x = Register::from_index(x)?;
    let value_x = state.registers.read(reg_x);
    let key = Key::from_index(value_x)?;
    if state.keypad.is_key_pressed(key) {
        state.pc = state.pc.wrapping_add(2);
    }
    Ok(())
}

/// `EXA1`: the program counter advances by an extra instruction when the
/// key numbered `Vx` is not pressed; a `Vx` above 15 is an
/// `InvalidKeyIndex` error.
pub open spec fn spec_skip_if_key_not_pressed(s: StateView, x: usize) -> Result<
    StateView,
    Chip8Error,
> {
    if x >= NUM_REGISTERS {
        Err(Chip8Error::InvalidRegisterIndex)
    } else if s.regs[x as int] >= NUM_KEYS {
        Err(Chip8Error::InvalidKeyIndex)
    } else if !s.keys[s.regs[x as int] as int] {
        Ok(StateView { pc: s.pc.wrapping_add(2), ..s })
    } else {
        Ok(s)
    }
}

/// Executes `EXA1` (skip when key not pressed).
pub fn skip_if_key_not_pressed(state: &mut Chip8State, x: usize) -> (r: Result<(), Chip8Error>)
    requires
        old(state)@.wf(),
    ensures
        final(state)@.wf(),
        op_effect(spec_skip_if_key_not_pressed(old(state)@, x), old(state)@, final(state)@, r),
{
    let reg_x = Register::from_index(x)?;
    let value_x = state.registers.read(reg_x);
    let key = Key::from_index(value_x)?;
    if !state.keypad.is_key_pressed(key) {
        state.pc = state.pc.wrapping_add(2);
    }
    Ok(())
}

/// `FX33`: the hundreds, tens and ones digits of `Vx` are written to
/// memory at `index`, `index + 1` and `index + 2`. Fails, changing
/// nothing, when those three addresses do not all lie in memory.
pub open spec fn spec_binary_coded_decimal(s: StateView, x: usize) -> Result<
    StateView,
    Chip8Error,
> {
    if x >= NUM_REGISTERS {
        Err(Chip8Error::InvalidRegisterIndex)
    } else if s.index + 2 >= MEM_SIZE {
        Err(Chip8Error::OutOfBoundsMemoryAccess)
    } else {
        let vx = s.regs[x as int];
        Ok(
            StateView {
                mem: s.mem.update(s.index as int, (vx / 100) % 10).update(
                    s.index + 1,
                    (vx / 10) % 10,
                ).update(s.index + 2, vx % 10),
                ..s
            },
        )
    }
}

/// Executes `FX33` (binary-coded decimal).
pub fn binary_coded_decimal(state: &mut Chip8State, x: usize) -> (r: Result<(), Chip8Error>)
    requires
        old(state)@.wf(),
    ensures
        final(state)@.wf(),
        op_effect(spec_binary_coded_decimal(old(state)@, x), old(state)@, final(state)@, r),
{
    let reg_x = Register::from_index(x)?;
    if state.index > MEM_SIZE - 3 {
        return Err(Chip8Error::OutOfBoundsMemoryAccess);
    }
    let value_x = state.registers.read(reg_x);
    let digits: [u8; 3] = [(value_x / 100) % 10, (value_x / 10) % 10, value_x % 10];
    let r0 = state.memory.write(state.index, digits[0]);
    proof {
        assert(r0 is Ok);
    }
    let r1 = state.memory.write(state.index + 1, digits[1]);
    proof {
        assert(r1 is Ok);
    }
    let r2 = state.memory.write(state.index + 2, digits[2]);
    proof {
        assert(r2 is Ok);
    }
    Ok(())
}

/// `FX55`: registers `V0..=Vx` are copied to memory starting at the index
/// register; with the quirk on (the default) the index register then
/// advances by `x + 1`. Fails, changing nothing, when the `x + 1`
/// destination addresses do not all lie in memory.
pub open spec fn spec_store(s: StateView, x: usize) -> Result<StateView, Chip8Error> {
    if x >= NUM_REGISTERS {
        Err(Chip8Error::InvalidRegisterIndex)
    } else if s.index + x >= MEM_SIZE {
        Err(Chip8Error::OutOfBoundsMemoryAccess)
    } else {
        Ok(
            StateView {
                mem: Seq::new(
                    MEM_SIZE as nat,
                    |i: int|
                        if s.index <= i <= s.index + x {
                            s.regs[i - s.index]
                        } else {
                            s.mem[i]
                        },
                ),
                index: if s.quirks.block_transfer_advances_index {
                    (s.index + x + 1) as usize
                } else {
                    s.index
                },
                ..s
            },
        )
    }
}

/// Executes `FX55` (block store).
pub fn store(state: &mut Chip8State, x: usize) -> (r: Result<(), Chip8Error>)
    requires
        old(state)@.wf(),
    ensures
        final(state)@.wf(),
        op_effect(spec_store(old(state)@, x), old(state)@, final(state)@, r),
{
    if x >= NUM_REGISTERS {
        return Err(Chip8Error::InvalidRegisterIndex);
    }
    if state.index >= MEM_SIZE - x {
        return Err(Chip8Error::OutOfBoundsMemoryAccess);
    }
    let ghost s0 = state@;
    let base = state.index;
    let mut j: usize = 0;
    proof {
        assert(s0.mem =~= Seq::new(
            MEM_SIZE as nat,
            |i: int|
                if base <= i < base + j {
                    s0.regs[i - base]
                } else {
                    s0.mem[i]
                },
        ));
    }
    while j <= x
        invariant
            j <= x + 1,
            x < NUM_REGISTERS,
            base + x < MEM_SIZE,
            base == s0.index,
            s0.wf(),
            state@ == (StateView {
                mem: Seq::new(
                    MEM_SIZE as nat,
                    |i: int|
                        if base <= i < base + j {
                            s0.regs[i - base]
                        } else {
                            s0.mem[i]
                        },
                ),
                ..s0
            }),
        decreases x + 1 - j,
    {
        let reg = match Register::from_index(j) {
            Ok(reg) => reg,
            Err(_) => {
                proof {
                    assert(false);
                }
                Register::V0
            },
        };
        let value = state.registers.read(reg);
        let w = state.memory.write(base + j, value);
        proof {
            assert(w is Ok);
            assert(state@.mem =~= Seq::new(
                MEM_SIZE as nat,
                |i: int|
                    if base <= i < base + j + 1 {
                        s0.regs[i - base]
                    } else {
                        s0.mem[i]
                    },
            ));
        }
        j = j + 1;
    }
    if state.quirks.block_transfer_advances_index {
        state.index = state.index + x + 1;
    }
    proof {
        assert(state@.mem =~= Seq::new(
            MEM_SIZE as nat,
            |i: int|
                if s0.index <= i <= s0.index + x {
                    s0.regs[i - s0.index]
                } else {
                    s0.mem[i]
                },
        ));
    }
    Ok(())
}

/// `FX65`: registers `V0..=Vx` are filled from memory starting at the
/// index register; with the quirk on (the default) the index register then
/// advances by `x + 1`. Fails, changing nothing, when the `x + 1` source
/// addresses do not all lie in memory.
pub open spec fn spec_load(s: StateView, x: usize) -> Result<StateView, Chip8Error> {
    if x >= NUM_REGISTERS {
        Err(Chip8Error::InvalidRegisterIndex)
    } else if s.index + x >= MEM_SIZE {
        Err(Chip8Error::OutOfBoundsMemoryAccess)
    } else {
        Ok(
            StateView {
                regs: Seq::new(
                    NUM_REGISTERS as nat,
                    |j: int|
                        if j <= x {
                            s.mem[s.index + j]
                        } else {
                            s.regs[j]
                        },
                ),
                index: if s.quirks.block_transfer_advances_index {
                    (s.index + x + 1) as usize
                } else {
                    s.index
                },
                ..s
            },
        )
    }
}

/// Executes `FX65` (block load).
pub fn load(state: &mut Chip8State, x: usize) -> (r: Result<(), Chip8Error>)
    requires
        old(state)@.wf(),
    ensures
        final(state)@.wf(),
        op_effect(spec_load(old(state)@, x), old(state)@, final(state)@, r),
{
    if x >= NUM_REGISTERS {
        return Err(Chip8Error::InvalidRegisterIndex);
    }
    if state.index >= MEM_SIZE - x {
        return Err(Chip8Error::OutOfBoundsMemoryAccess);
    }
    let ghost s0 = state@;
    let base = state.index;
    let mut j: usize = 0;
    proof {
        assert(s0.regs =~= Seq::new(
            NUM_REGISTERS as nat,
            |i: int|
                if i < j {
                    s0.mem[base + i]
                } else {
                    s0.regs[i]
                },
        ));
    }
    while j <= x
        invariant
            j <= x + 1,
            x < NUM_REGISTERS,
            base + x < MEM_SIZE,
            base == s0.index,
            s0.wf(),
            state@ == (StateView {
                regs: Seq::new(
                    NUM_REGISTERS as nat,
                    |i: int|
                        if i < j {
                            s0.mem[base + i]
                        } else {
                            s0.regs[i]
                        },
                ),
                ..s0
            }),
        decreases x + 1 - j,
    {
        let reg = match Register::from_index(j) {
            Ok(reg) => reg,
            Err(_) => {
                proof {
                    assert(false);
                }
                Register::V0
            },
        };
        let value = match state.memory.read(base + j) {
            Ok(v) => v,
            Err(_) => {
                proof {
                    assert(false);
                }
                0
            },
        };
        state.registers.write(reg, value);
        proof {
            assert(state@.regs =~= Seq::new(
                NUM_REGISTERS as nat,
                |i: int|
                    if i < j + 1 {
                        s0.mem[base + i]
                    } else {
                        s0.regs[i]
                    },
            ));
        }
        j = j + 1;
    }
    if state.quirks.block_transfer_advances_index {
        state.index = state.index + x + 1;
    }
    proof {
        assert(state@.regs =~= Seq::new(
            NUM_REGISTERS as nat,
            |j: int|
                if j <= x {
                    s0.mem[s0.index + j]
                } else {
                    s0.regs[j]
                },
        ));
    }
    Ok(())
}

/// The lowest pressed key at or after position `i`, if any.
pub open spec fn first_pressed_from(keys: Seq<bool>, i: int) -> Option<int>
    decreases NUM_KEYS - i,
{
    if i < 0 || i >= NUM_KEYS {
        None
    } else if keys[i] {
        Some(i)
    } else {
        first_pressed_from(keys, i + 1)
    }
}

/// `FX0A`: keys 0 through 15 are scanned in ascending order. When one is
/// pressed, its number goes into `Vx` and that key is marked released, so a
/// held key is read only once. When none is pressed, the program counter
/// rewinds by one instruction so the same instruction refetches next cycle;
/// nothing else changes.
pub open spec fn spec_get_key(s: StateView, x: usize) -> Result<StateView, Chip8Error> {
    match first_pressed_from(s.keys, 0) {
        Some(k) => {
            if x >= NUM_REGISTERS {
                Err(Chip8Error::InvalidRegisterIndex)
            } else {
                Ok(
                    StateView {
                        regs: s.regs.update(x as int, k as u8),
                        keys: s.keys.update(k, false),
                        ..s
                    },
                )
            }
        },
        None => Ok(StateView { pc: s.pc.wrapping_sub(2), ..s }),
    }
}

/// Executes `FX0A` (blocking key read, by busy wait).
pub fn get_key(state: &mut Chip8State, x: usize) -> (r: Result<(), Chip8Error>)
    requires
        old(state)@.wf(),
    ensures
        final(state)@.wf(),
        op_effect(spec_get_key(old(state)@, x), old(state)@, final(state)@, r),
{
    let mut found: usize = NUM_KEYS;
    let mut i: u8 = 0;
    while i < 16
        invariant
            i <= 16,
            state@.wf(),
            state == old(state),
            found == NUM_KEYS || found < i,
            found == NUM_KEYS ==> first_pressed_from(state@.keys, 0) == first_pressed_from(
                state@.keys,
                i as int,
            ),
            found < NUM_KEYS ==> first_pressed_from(state@.keys, 0) == Some(found as int),
        decreases 16 - i,
    {
        let key = match Key::from_index(i) {
            Ok(key) => key,
            Err(_) => {
                proof {
                    assert(false);
                }
                Key::Key0
            },
        };
        if found == NUM_KEYS && state.keypad.is_key_pressed(key) {
            found = i as usize;
        }
        i = i + 1;
    }
    if found < NUM_KEYS {
        let reg_x = Register::from_index(x)?;
        state.registers.write(reg_x, found as u8);
        let key = match Key::from_index(found as u8) {
            Ok(key) => key,
            Err(_) => {
                proof {
                    assert(false);
                }
                Key::Key0
            },
        };
        state.keypad.release_key(key);
        Ok(())
    } else {
        proof {
            assert(first_pressed_from(state@.keys, 16) is None);
        }
        state.pc = state.pc.wrapping_sub(2);
        Ok(())
    }
}

/// What executing one operation does to the machine: the union of all the
/// per-operation transformations. `rnd` is the random byte that the `CXNN`
/// instruction consumes; every other operation ignores it.
pub open spec fn spec_execute(s: StateView, op: Operation, rnd: u8) -> Result<
    StateView,
    Chip8Error,
> {
    match op {
        Operation::ClearScreen => spec_clear_screen(s),
        Operation::Jump { nnn } => spec_jump(s, nnn),
        Operation::SubroutineCall { nnn } => spec_subroutine_call(s, nnn),
        Operation::SubroutineReturn => spec_subroutine_return(s),
        Operation::JumpEqX { x, nn } => spec_jump_eq_x(s, x, nn),
        Operation::JumpNeqX { x, nn } => spec_jump_neq_x(s, x, nn),
        Operation::JumpXEqY { x, y } => spec_jump_x_eq_y(s, x, y),
        Operation::JumpXNeqY { x, y } => spec_jump_x_neq_y(s, x, y),
        Operation::SetImmediate { x, nn } => spec_set_immediate(s, x, nn),
        Operation::Add { x, nn } => spec_add_immediate(s, x, nn),
        Operation::SetXToY { x, y } => spec_set_x_to_y(s, x, y),
        Operation::BinaryOr { x, y } => spec_binary_or(s, x, y),
        Operation::BinaryAnd { x, y } => spec_binary_and(s, x, y),
        Operation::LogicalXor { x, y } => spec_logical_xor(s, x, y),
        Operation::BinaryAdd { x, y } => spec_binary_add(s, x, y),
        Operation::SubtractYFromX { x, y } => spec_subtract_y_from_x(s, x, y),
        Operation::SubtractXFromY { x, y } => spec_subtract_x_from_y(s, x, y),
        Operation::RightShift { x, y } => spec_right_shift(s, x, y),
        Operation::LeftShift { x, y } => spec_left_shift(s, x, y),
        Operation::SetIndex { nnn } => spec_set_index(s, nnn),
        Operation::JumpWithOffset { x, nnn } => spec_jump_with_offset(s, x, nnn),
        Operation::Random { x, nn } => spec_random(s, x, nn, rnd),
        Operation::Display { x, y, n } => spec_display_op(s, x, y, n),
        Operation::SkipIfKeyPressed { x } => spec_skip_if_key_pressed(s, x),
        Operation::SkipIfKeyNotPressed { x } => spec_skip_if_key_not_pressed(s, x),
        Operation::SetVxFromTimer { x } => spec_set_vx_from_timer(s, x),
        Operation::SetDelayTimer { x } => spec_set_delay_timer(s, x),
        Operation::SetSoundTimer { x } => spec_set_sound_timer(s, x),
        Operation::AddToIndex { x } => spec_add_to_index(s, x),
        Operation::FontChar { x } => spec_font_char(s, x),
        Operation::BinaryCodedDecimal { x } => spec_binary_coded_decimal(s, x),
        Operation::Store { x } => spec_store(s, x),
        Operation::Load { x } => spec_load(s, x),
        Operation::GetKey { x } => spec_get_key(s, x),
    }
}

/// Executes one operation with the random byte for `CXNN` supplied by the
/// caller: the new state is exactly `spec_execute` of the old one, and a
/// failing operation changes nothing.
pub fn execute_with(state: &mut Chip8State, op: Operation, rnd: u8) -> (r: Result<(), Chip8Error>)
    requires
        old(state)@.wf(),
    ensures
        final(state)@.wf(),
        op_effect(spec_execute(old(state)@, op, rnd), old(state)@, final(state)@, r),
{
    match op {
        Operation::ClearScreen => clear_screen(state),
        Operation::Jump { nnn } => jump(state, nnn),
        Operation::SubroutineCall { nnn } => subroutine_call(state, nnn),
        Operation::SubroutineReturn => subroutine_return(state),
        Operation::JumpEqX { x, nn } => jump_eq_x(state, x, nn),
        Operation::JumpNeqX { x, nn } => jump_neq_x(state, x, nn),
        Operation::JumpXEqY { x, y } => jump_x_eq_y(state, x, y),
        Operation::JumpXNeqY { x, y } => jump_x_neq_y(state, x, y),
        Operation::SetImmediate { x, nn } => set_immediate(state, x, nn),
        Operation::Add { x, nn } => add_immediate(state, x, nn),
        Operation::SetXToY { x, y } => set_x_to_y(state, x, y),
        Operation::BinaryOr { x, y } => binary_or(state, x, y),
        Operation::BinaryAnd { x, y } => binary_and(state, x, y),
        Operation::LogicalXor { x, y } => logical_xor(state, x, y),
        Operation::BinaryAdd { x, y } => binary_add(state, x, y),
        Operation::SubtractYFromX { x, y } => subtract_y_from_x(state, x, y),
        Operation::SubtractXFromY { x, y } => subtract_x_from_y(state, x, y),
        Operation::RightShift { x, y } => right_shift(state, x, y),
        Operation::LeftShift { x, y } => left_shift(state, x, y),
        Operation::SetIndex { nnn } => set_index(state, nnn),
        Operation::JumpWithOffset { x, nnn } => jump_with_offset(state, x, nnn),
        Operation::Random { x, nn } => random(state, x, nn, rnd),
        Operation::Display { x, y, n } => display(state, x, y, n),
        Operation::SkipIfKeyPressed { x } => skip_if_key_pressed(state, x),
        Operation::SkipIfKeyNotPressed { x } => skip_if_key_not_pressed(state, x),
        Operation::SetVxFromTimer { x } => set_vx_from_timer(state, x),
        Operation::SetDelayTimer { x } => set_delay_timer(state, x),
        Operation::SetSoundTimer { x } => set_sound_timer(state, x),
        Operation::AddToIndex { x } => add_to_index(state, x),
        Operation::FontChar { x } => font_char(state, x),
        Operation::BinaryCodedDecimal { x } => binary_coded_decimal(state, x),
        Operation::Store { x } => store(state, x),
        Operation::Load { x } => load(state, x),
        Operation::GetKey { x } => get_key(state, x),
    }
}

/// Relies on rand::random: draws a value whose distribution the library
/// does not depend on; nothing is assumed of the result.
pub assume_specification<T>[ rand::random::<T> ]() -> (r: T)
    where
        rand::distributions::Standard: rand::distributions::Distribution<T>,
;

/// Executes one operation, drawing the random byte for `CXNN` from the
/// host's random number generator: the new state is `spec_execute` of the
/// old one under some byte, and a failing operation changes nothing.
pub fn execute(state: &mut Chip8State, op: Operation) -> (r: Result<(), Chip8Error>)
    requires
        old(state)@.wf(),
    ensures
        final(state)@.wf(),
        exists|rnd: u8|
            op_effect(#[trigger] spec_execute(old(state)@, op, rnd), old(state)@, final(state)@, r),
{
    let rnd: u8 = if matches!(op, Operation::Random { .. }) {
        rand::random::<u8>()
    } else {
        0
    };
    let r = execute_with(state, op, rnd);
    proof {
        assert(op_effect(spec_execute(old(state)@, op, rnd), old(state)@, state@, r));
    }
    r
}

/// A subroutine call followed by a subroutine return restores the machine
/// exactly: the call pushes the current program counter and jumps, the
/// return pops it back. Since the fetch step advances the counter past the
/// call instruction before the call executes, the address the return
/// restores is the pre-call counter plus one instruction (2 bytes).
pub proof fn lemma_call_then_return(s: StateView, nnn: usize, rnd1: u8, rnd2: u8)
    ensures
        ({
            let r1 = spec_execute(s, Operation::SubroutineCall { nnn }, rnd1);
            &&& r1 matches Ok(s1)
            &&& s1.pc == nnn
            &&& spec_execute(s1, Operation::SubroutineReturn, rnd2) == Ok::<
                StateView,
                Chip8Error,
            >(s)
        }),
{
    let s1 = StateView { stack: s.stack.push(s.pc), pc: nnn, ..s };
    assert(s1.stack.len() > 0);
    assert(s1.stack.last() == s.pc);
    assert(s1.stack.drop_last() =~= s.stack);
}

/// A subroutine return with an empty call stack fails with `StackUnderflow`;
/// by `op_effect` in the contract of `subroutine_return` and of
/// `execute_with`, the failing instruction leaves the whole machine state,
/// the program counter included, unchanged.
pub proof fn lemma_return_on_empty_stack(s: StateView, rnd: u8)
    requires
        s.stack.len() == 0,
    ensures
        spec_execute(s, Operation::SubroutineReturn, rnd) == Err::<StateView, Chip8Error>(
            Chip8Error::StackUnderflow,
        ),
{
}

} // verus!

