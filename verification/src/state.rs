//! The CHIP-8 machine state: memory, registers, keypad, configuration, and
//! the combined state object that instructions operate on.

use vstd::prelude::*;

use crate::display::{
    cell_pixel, cell_set, cell_visible, collided_cells, draw_cells, fb_bits, font_glyph,
    font_table, lemma_cell_pixel_decompose, lemma_draw_cells_complete,
    lemma_draw_cells_preserves_len, lemma_draw_cells_untouched, spec_draw_collision,
    spec_draw_display, FontSprite, Framebuffer,
};
use crate::error::Chip8Error;

verus! {

/// Total memory size of the CHIP-8 system in bytes.
pub const MEM_SIZE: usize = 4096;

/// Starting address where the built-in font set is stored in memory.
/// Font data occupies addresses 0x50-0x9F (80 bytes for 16 characters).
pub const FONT_ADDR: usize = 0x50;

/// Height of each font character in pixels (rows per glyph).
pub const FONT_HEIGHT: usize = 5;

/// Default starting address for program execution.
pub const PC_START_ADDR: usize = 0x200;

/// Number of general-purpose registers.
pub const NUM_REGISTERS: usize = 16;

/// Number of keys on the hexadecimal keypad.
pub const NUM_KEYS: usize = 16;

/// Width of the display in pixels.
pub const DISPLAY_WIDTH: usize = 64;

/// Height of the display in pixels.
pub const DISPLAY_HEIGHT: usize = 32;

/// Default frame rate for the frame loop, in frames per second.
pub const DEFAULT_FRAME_RATE: u64 = 60;

/// Default instruction execution rate, in instructions per second.
pub const DEFAULT_INSTRUCTIONS_PER_SECOND: u64 = 700;

/// The memory contents right after construction: all zero except the font
/// table at `FONT_ADDR`.
pub open spec fn initial_memory() -> Seq<u8> {
    Seq::new(
        MEM_SIZE as nat,
        |i: int|
            if FONT_ADDR <= i < FONT_ADDR + 80 {
                font_table()[i - FONT_ADDR]
            } else {
                0u8
            },
    )
}

/// The 4096-byte memory of the machine, with bounds-checked access.
///
/// Layout: 0x050-0x09F holds the built-in font set; programs are loaded at
/// 0x200 and run to the end of memory.
pub struct Memory {
    data: Vec<u8>,
}

impl View for Memory {
    type V = Seq<u8>;

    closed spec fn view(&self) -> Seq<u8> {
        self.data@
    }
}

impl Memory {
    /// The memory always holds exactly `MEM_SIZE` bytes.
    pub open spec fn wf(&self) -> bool {
        self@.len() == MEM_SIZE
    }

    /// Creates the memory with the built-in font pre-loaded at `FONT_ADDR`
    /// and every other byte zero.
    pub fn new() -> (m: Memory)
        ensures
            m.wf(),
            m@ == initial_memory(),
    {
        let mut data: Vec<u8> = Vec::new();
        let mut i: usize = 0;
        while i < MEM_SIZE
            invariant
                i <= MEM_SIZE,
                data@.len() == i,
                forall|j: int| 0 <= j < i ==> data@[j] == 0u8,
            decreases MEM_SIZE - i,
        {
            data.push(0);
            i = i + 1;
        }
        let mut d: usize = 0;
        while d < 16
            invariant
                d <= 16,
                data@.len() == MEM_SIZE,
                forall|j: int| 0 <= j < FONT_ADDR ==> data@[j] == 0u8,
                forall|j: int| FONT_ADDR + 5 * d <= j < MEM_SIZE ==> data@[j] == 0u8,
                forall|dd: int, jj: int|
                    0 <= dd < d && 0 <= jj < 5 ==> data@[FONT_ADDR + 5 * dd + jj] == font_glyph(
                        dd,
                    )[jj],
            decreases 16 - d,
        {
            let sprite = match FontSprite::get_font_sprite(d as u8) {
                Some(s) => s,
                None => {
                    proof {
                        assert(false);
                    }
                    FontSprite([0, 0, 0, 0, 0])
                },
            };
            let bytes = sprite.as_bytes();
            let mut j: usize = 0;
            while j < 5
                invariant
                    j <= 5,
                    d < 16,
                    data@.len() == MEM_SIZE,
                    bytes@ == font_glyph(d as int),
                    forall|k: int| 0 <= k < FONT_ADDR ==> data@[k] == 0u8,
                    forall|k: int| FONT_ADDR + 5 * d + j <= k < MEM_SIZE ==> data@[k] == 0u8,
                    forall|dd: int, jj: int|
                        0 <= dd < d && 0 <= jj < 5 ==> data@[FONT_ADDR + 5 * dd + jj]
                            == font_glyph(dd)[jj],
                    forall|jj: int|
                        0 <= jj < j ==> data@[FONT_ADDR + 5 * d + jj] == font_glyph(d as int)[jj],
                decreases 5 - j,
            {
                data[FONT_ADDR + 5 * d + j] = bytes[j];
                j = j + 1;
            }
            d = d + 1;
        }
        let m = Memory { data };
        proof {
            assert forall|i: int| 0 <= i < MEM_SIZE implies m@[i] == initial_memory()[i] by {
                if FONT_ADDR <= i < FONT_ADDR + 80 {
                    let k = i - FONT_ADDR;
                    let dd = k / 5;
                    let jj = k % 5;
                    assert(0 <= dd < 16 && 0 <= jj < 5);
                    assert(i == FONT_ADDR + 5 * dd + jj);
                    assert(m@[i] == font_glyph(dd)[jj]);
                    assert(font_table()[k] == font_glyph(dd)[jj]);
                }
            }
            assert(m@ =~= initial_memory());
        }
        m
    }

    /// Reads the byte at `addr`; fails when the address is at or beyond the
    /// end of memory.
    pub fn read(&self, addr: usize) -> (r: Result<u8, Chip8Error>)
        requires
            self.wf(),
        ensures
            addr < MEM_SIZE ==> r == Ok::<u8, Chip8Error>(self@[addr as int]),
            addr >= MEM_SIZE ==> r == Err::<u8, Chip8Error>(Chip8Error::OutOfBoundsMemoryAccess),
    {
        if addr >= MEM_SIZE {
            return Err(Chip8Error::OutOfBoundsMemoryAccess);
        }
        Ok(self.data[addr])
    }

    /// Writes `value` at `addr`; fails, leaving memory unchanged, when the
    /// address is at or beyond the end of memory.
    pub fn write(&mut self, addr: usize, value: u8) -> (r: Result<(), Chip8Error>)
        requires
            old(self).wf(),
        ensures
            final(self).wf(),
            addr < MEM_SIZE ==> r == Ok::<(), Chip8Error>(()) && final(self)@ == old(self)@.update(
                addr as int,
                value,
            ),
            addr >= MEM_SIZE ==> r == Err::<(), Chip8Error>(Chip8Error::OutOfBoundsMemoryAccess)
                && final(self)@ == old(self)@,
    {
        if addr >= MEM_SIZE {
            return Err(Chip8Error::OutOfBoundsMemoryAccess);
        }
        self.data[addr] = value;
        Ok(())
    }

    /// Copies a program image into memory starting at `PC_START_ADDR`.
    /// Fails, leaving memory unchanged, when the image does not fit in the
    /// space from the load address to the end of memory.
    pub fn load_rom(&mut self, rom: &[u8]) -> (r: Result<(), Chip8Error>)
        requires
            old(self).wf(),
        ensures
            final(self).wf(),
            rom@.len() <= MEM_SIZE - PC_START_ADDR ==> r == Ok::<(), Chip8Error>(()) && final(self)@
                == Seq::new(
                MEM_SIZE as nat,
                |i: int|
                    if PC_START_ADDR <= i < PC_START_ADDR + rom@.len() {
                        rom@[i - PC_START_ADDR]
                    } else {
                        old(self)@[i]
                    },
            ),
            rom@.len() > MEM_SIZE - PC_START_ADDR ==> r == Err::<(), Chip8Error>(
                Chip8Error::ProgramTooLarge,
            ) && final(self)@ == old(self)@,
    {
        if rom.len() > MEM_SIZE - PC_START_ADDR {
            return Err(Chip8Error::ProgramTooLarge);
        }
        let mut i: usize = 0;
        while i < rom.len()
            invariant
                i <= rom@.len(),
                rom@.len() <= MEM_SIZE - PC_START_ADDR,
                self.wf(),
                forall|j: int|
                    PC_START_ADDR <= j < PC_START_ADDR + i ==> self@[j] == rom@[j - PC_START_ADDR],
                forall|j: int|
                    0 <= j < MEM_SIZE && !(PC_START_ADDR <= j < PC_START_ADDR + i) ==> self@[j]
                        == old(self)@[j],
            decreases rom@.len() - i,
        {
            self.data[PC_START_ADDR + i] = rom[i];
            i = i + 1;
        }
        proof {
            assert(self@ =~= Seq::new(
                MEM_SIZE as nat,
                |i: int|
                    if PC_START_ADDR <= i < PC_START_ADDR + rom@.len() {
                        rom@[i - PC_START_ADDR]
                    } else {
                        old(self)@[i]
                    },
            ));
        }
        Ok(())
    }

    /// Reads `rows` contiguous bytes of sprite data starting at `index`.
    /// Fails when the span would run past the end of memory.
    pub fn read_sprite(&self, index: usize, rows: u8) -> (r: Result<Vec<u8>, Chip8Error>)
        requires
            self.wf(),
        ensures
            index + rows <= MEM_SIZE ==> (r matches Ok(v) && v@ == self@.subrange(
                index as int,
                index + rows,
            )),
            index + rows > MEM_SIZE ==> r == Err::<Vec<u8>, Chip8Error>(
                Chip8Error::OutOfBoundsMemoryAccess,
            ),
    {
        let rows_usize = rows as usize;
        if index > MEM_SIZE - rows_usize {
            return Err(Chip8Error::OutOfBoundsMemoryAccess);
        }
        let mut v: Vec<u8> = Vec::new();
        let mut i: usize = 0;
        while i < rows_usize
            invariant
                i <= rows_usize,
                index + rows_usize <= MEM_SIZE,
                self.wf(),
                v@.len() == i,
                forall|j: int| 0 <= j < i ==> v@[j] == self@[index + j],
            decreases rows_usize - i,
        {
            v.push(self.data[index + i]);
            i = i + 1;
        }
        proof {
            assert(v@ =~= self@.subrange(index as int, index + rows));
        }
        Ok(v)
    }
}

/// Writing a byte at a valid address and reading it back returns the byte
/// just written; at and beyond the end of memory both operations fail.
pub proof fn lemma_write_then_read(m: Seq<u8>, a: int, v: u8)
    requires
        m.len() == MEM_SIZE,
        0 <= a < MEM_SIZE,
    ensures
        m.update(a, v)[a] == v,
        m.update(a, v).len() == MEM_SIZE,
{
}

/// The sixteen general-purpose registers, V0 through VF. VF doubles as the
/// carry/borrow/collision flag register.
#[derive(Clone, Copy, Debug, PartialEq, Eq, Structural)]
pub enum Register {
    V0,
    V1,
    V2,
    V3,
    V4,
    V5,
    V6,
    V7,
    V8,
    V9,
    VA,
    VB,
    VC,
    VD,
    VE,
    VF,
}

impl Register {
    /// The position of this register in the bank, 0 through 15.
    pub open spec fn spec_index(self) -> int {
        match self {
            Register::V0 => 0,
            Register::V1 => 1,
            Register::V2 => 2,
            Register::V3 => 3,
            Register::V4 => 4,
            Register::V5 => 5,
            Register::V6 => 6,
            Register::V7 => 7,
            Register::V8 => 8,
            Register::V9 => 9,
            Register::VA => 10,
            Register::VB => 11,
            Register::VC => 12,
            Register::VD => 13,
            Register::VE => 14,
            Register::VF => 15,
        }
    }

    /// The position of this register in the bank, 0 through 15.
    pub fn index(self) -> (i: usize)
        ensures
            i == self.spec_index(),
    {
        match self {
            Register::V0 => 0,
            Register::V1 => 1,
            Register::V2 => 2,
            Register::V3 => 3,
            Register::V4 => 4,
            Register::V5 => 5,
            Register::V6 => 6,
            Register::V7 => 7,
            Register::V8 => 8,
            Register::V9 => 9,
            Register::VA => 10,
            Register::VB => 11,
            Register::VC => 12,
            Register::VD => 13,
            Register::VE => 14,
            Register::VF => 15,
        }
    }

    /// Converts a numeric index to the corresponding register; fails with
    /// `InvalidRegisterIndex` for values above 15.
    pub fn from_index(value: usize) -> (r: Result<Register, Chip8Error>)
        ensures
            value < NUM_REGISTERS ==> (r matches Ok(reg) && reg.spec_index() == value),
            value >= NUM_REGISTERS ==> r == Err::<Register, Chip8Error>(
                Chip8Error::InvalidRegisterIndex,
            ),
    {
        match value {
            0 => Ok(Register::V0),
            1 => Ok(Register::V1),
            2 => Ok(Register::V2),
            3 => Ok(Register::V3),
            4 => Ok(Register::V4),
            5 => Ok(Register::V5),
            6 => Ok(Register::V6),
            7 => Ok(Register::V7),
            8 => Ok(Register::V8),
            9 => Ok(Register::V9),
            10 => Ok(Register::VA),
            11 => Ok(Register::VB),
            12 => Ok(Register::VC),
            13 => Ok(Register::VD),
            14 => Ok(Register::VE),
            15 => Ok(Register::VF),
            _ => Err(Chip8Error::InvalidRegisterIndex),
        }
    }
}

/// The bank of sixteen 8-bit registers, all zero at start.
pub struct RegisterBank {
    registers: Vec<u8>,
}

impl View for RegisterBank {
    type V = Seq<u8>;

    closed spec fn view(&self) -> Seq<u8> {
        self.registers@
    }
}

impl RegisterBank {
    /// The bank always holds exactly `NUM_REGISTERS` cells.
    pub open spec fn wf(&self) -> bool {
        self@.len() == NUM_REGISTERS
    }

    /// Creates the bank with every register zero.
    pub fn new() -> (b: RegisterBank)
        ensures
            b.wf(),
            b@ == Seq::new(NUM_REGISTERS as nat, |i: int| 0u8),
    {
        let mut registers: Vec<u8> = Vec::new();
        let mut i: usize = 0;
        while i < NUM_REGISTERS
            invariant
                i <= NUM_REGISTERS,
                registers@.len() == i,
                forall|j: int| 0 <= j < i ==> registers@[j] == 0u8,
            decreases NUM_REGISTERS - i,
        {
            registers.push(0);
            i = i + 1;
        }
        let b = RegisterBank { registers };
        proof {
            assert(b@ =~= Seq::new(NUM_REGISTERS as nat, |i: int| 0u8));
        }
        b
    }

    /// Reads the current value of the given register.
    pub fn read(&self, reg: Register) -> (v: u8)
        requires
            self.wf(),
        ensures
            v == self@[reg.spec_index()],
    {
        self.registers[reg.index()]
    }

    /// Writes a value into the given register.
    pub fn write(&mut self, reg: Register, value: u8)
        requires
            old(self).wf(),
        ensures
            final(self).wf(),
            final(self)@ == old(self)@.update(reg.spec_index(), value),
    {
        let i = reg.index();
        self.registers[i] = value;
    }
}

/// The sixteen keys of the hexadecimal keypad.
#[derive(Clone, Copy, Debug, PartialEq, Eq, Hash, Structural)]
pub enum Key {
    Key0,
    Key1,
    Key2,
    Key3,
    Key4,
    Key5,
    Key6,
    Key7,
    Key8,
    Key9,
    KeyA,
    KeyB,
    KeyC,
    KeyD,
    KeyE,
    KeyF,
}

impl Key {
    /// The position of this key on the keypad, 0 through 15.
    pub open spec fn spec_index(self) -> int {
        match self {
            Key::Key0 => 0,
            Key::Key1 => 1,
            Key::Key2 => 2,
            Key::Key3 => 3,
            Key::Key4 => 4,
            Key::Key5 => 5,
            Key::Key6 => 6,
            Key::Key7 => 7,
            Key::Key8 => 8,
            Key::Key9 => 9,
            Key::KeyA => 10,
            Key::KeyB => 11,
            Key::KeyC => 12,
            Key::KeyD => 13,
            Key::KeyE => 14,
            Key::KeyF => 15,
        }
    }

    /// The position of this key on the keypad, 0 through 15.
    pub fn index(self) -> (i: usize)
        ensures
            i == self.spec_index(),
    {
        match self {
            Key::Key0 => 0,
            Key::Key1 => 1,
            Key::Key2 => 2,
            Key::Key3 => 3,
            Key::Key4 => 4,
            Key::Key5 => 5,
            Key::Key6 => 6,
            Key::Key7 => 7,
            Key::Key8 => 8,
            Key::Key9 => 9,
            Key::KeyA => 10,
            Key::KeyB => 11,
            Key::KeyC => 12,
            Key::KeyD => 13,
            Key::KeyE => 14,
            Key::KeyF => 15,
        }
    }

    /// Converts a numeric index to the corresponding key; fails with
    /// `InvalidKeyIndex` for values above 15.
    pub fn from_index(index: u8) -> (r: Result<Key, Chip8Error>)
        ensures
            index < NUM_KEYS ==> (r matches Ok(key) && key.spec_index() == index),
            index >= NUM_KEYS ==> r == Err::<Key, Chip8Error>(Chip8Error::InvalidKeyIndex),
    {
        match index {
            0 => Ok(Key::Key0),
            1 => Ok(Key::Key1),
            2 => Ok(Key::Key2),
            3 => Ok(Key::Key3),
            4 => Ok(Key::Key4),
            5 => Ok(Key::Key5),
            6 => Ok(Key::Key6),
            7 => Ok(Key::Key7),
            8 => Ok(Key::Key8),
            9 => Ok(Key::Key9),
            10 => Ok(Key::KeyA),
            11 => Ok(Key::KeyB),
            12 => Ok(Key::KeyC),
            13 => Ok(Key::KeyD),
            14 => Ok(Key::KeyE),
            15 => Ok(Key::KeyF),
            _ => Err(Chip8Error::InvalidKeyIndex),
        }
    }
}

/// The pressed/released picture of the keypad, plus the separate
/// emulator-control escape flag.
pub ghost struct KeypadView {
    pub pressed: Seq<bool>,
    pub escape: bool,
}

/// A snapshot of the 16-key keypad state, plus an escape flag used for
/// emulator control.
///
/// The engine only ever reads this snapshot; the host input collaborator
/// feeds key transitions into it between frames through `set_key_state` and
/// `set_escape`.
pub struct Keypad {
    pressed_keys: Vec<bool>,
    escape_pressed: bool,
}

impl View for Keypad {
    type V = KeypadView;

    closed spec fn view(&self) -> KeypadView {
        KeypadView { pressed: self.pressed_keys@, escape: self.escape_pressed }
    }
}

impl Keypad {
    /// The keypad always tracks exactly `NUM_KEYS` keys.
    pub open spec fn wf(&self) -> bool {
        self@.pressed.len() == NUM_KEYS
    }

    /// Creates a keypad with every key released and escape clear.
    pub fn new() -> (k: Keypad)
        ensures
            k.wf(),
            k@.pressed == Seq::new(NUM_KEYS as nat, |i: int| false),
            k@.escape == false,
    {
        let mut pressed_keys: Vec<bool> = Vec::new();
        let mut i: usize = 0;
        while i < NUM_KEYS
            invariant
                i <= NUM_KEYS,
                pressed_keys@.len() == i,
                forall|j: int| 0 <= j < i ==> pressed_keys@[j] == false,
            decreases NUM_KEYS - i,
        {
            pressed_keys.push(false);
            i = i + 1;
        }
        let k = Keypad { pressed_keys, escape_pressed: false };
        proof {
            assert(k@.pressed =~= Seq::new(NUM_KEYS as nat, |i: int| false));
        }
        k
    }

    /// Whether the given key is currently pressed (non-blocking).
    pub fn is_key_pressed(&self, key: Key) -> (b: bool)
        requires
            self.wf(),
        ensures
            b == self@.pressed[key.spec_index()],
    {
        self.pressed_keys[key.index()]
    }

    /// Marks one key as released, so that a key consumed by the blocking
    /// key-read instruction is only reported once.
    pub fn release_key(&mut self, key: Key)
        requires
            old(self).wf(),
        ensures
            final(self).wf(),
            final(self)@.pressed == old(self)@.pressed.update(key.spec_index(), false),
            final(self)@.escape == old(self)@.escape,
    {
        let i = key.index();
        self.pressed_keys[i] = false;
    }

    /// Records a key transition reported by the host input collaborator.
    pub fn set_key_state(&mut self, key: Key, pressed: bool)
        requires
            old(self).wf(),
        ensures
            final(self).wf(),
            final(self)@.pressed == old(self)@.pressed.update(key.spec_index(), pressed),
            final(self)@.escape == old(self)@.escape,
    {
        let i = key.index();
        self.pressed_keys[i] = pressed;
    }

    /// Whether the escape key is currently pressed.
    pub fn is_escape_pressed(&self) -> (b: bool)
        ensures
            b == self@.escape,
    {
        self.escape_pressed
    }

    /// Records the escape-key state reported by the host input collaborator.
    pub fn set_escape(&mut self, pressed: bool)
        ensures
            final(self)@.pressed == old(self)@.pressed,
            final(self)@.escape == pressed,
    {
        self.escape_pressed = pressed;
    }
}

/// Configuration of the frame loop: pacing rates and the program location.
pub struct Settings {
    /// Frame rate in frames per second; the display refresh and the timer
    /// decrement both run at this cadence.
    pub frame_rate: u64,
    /// Instruction execution rate in instructions per second.
    pub ips: u64,
    /// Path to the program image to execute.
    pub rom: String,
}

/// The plain values of a `Settings`.
pub ghost struct SettingsView {
    pub frame_rate: u64,
    pub ips: u64,
    pub rom: Seq<char>,
}

impl View for Settings {
    type V = SettingsView;

    open spec fn view(&self) -> SettingsView {
        SettingsView { frame_rate: self.frame_rate, ips: self.ips, rom: self.rom@ }
    }
}

impl Settings {
    /// Creates a settings record from the given rates and program path.
    pub fn new(frame_rate: u64, ips: u64, rom: String) -> (s: Settings)
        ensures
            s.frame_rate == frame_rate,
            s.ips == ips,
            s.rom@ == rom@,
    {
        Settings { frame_rate, ips, rom }
    }

    /// How many instructions one frame executes: the instruction rate divided
    /// by the frame rate.
    pub fn instructions_per_frame(&self) -> (n: u64)
        requires
            self.frame_rate > 0,
        ensures
            n == self.ips / self.frame_rate,
    {
        self.ips / self.frame_rate
    }
}

/// The historically divergent behaviors that different CHIP-8 lineages
/// implement differently, as named toggles. The defaults document one
/// concrete choice.
#[derive(Clone, Copy, Debug, PartialEq, Eq, Structural)]
pub struct Quirks {
    /// Shift instructions read the source value from Vy (default) rather
    /// than shifting Vx in place.
    pub shift_reads_y: bool,
    /// Block store/load advance the index register by x + 1 after the
    /// transfer (default) rather than leaving it unchanged.
    pub block_transfer_advances_index: bool,
    /// Jump-with-offset adds Vx (the quirk) rather than V0 (default).
    pub jump_offset_uses_vx: bool,
    /// The sprite origin is taken modulo the display size (default) rather
    /// than clipping sprites whose origin lies off screen.
    pub sprite_origin_wraps: bool,
}

impl Quirks {
    /// The default toggle choices.
    pub open spec fn spec_default() -> Quirks {
        Quirks {
            shift_reads_y: true,
            block_transfer_advances_index: true,
            jump_offset_uses_vx: false,
            sprite_origin_wraps: true,
        }
    }
}

impl Default for Quirks {
    /// The default toggle choices: shift reads Vy, block transfers advance
    /// the index, jump-with-offset uses V0, and the sprite origin wraps.
    fn default() -> (q: Quirks)
        ensures
            q == Quirks::spec_default(),
    {
        Quirks {
            shift_reads_y: true,
            block_transfer_advances_index: true,
            jump_offset_uses_vx: false,
            sprite_origin_wraps: true,
        }
    }
}

/// The mathematical picture of the whole machine: every component as a plain
/// value. All instruction semantics are stated as transformations of this.
pub ghost struct StateView {
    pub settings: SettingsView,
    pub mem: Seq<u8>,
    pub regs: Seq<u8>,
    pub pc: usize,
    pub index: usize,
    pub stack: Seq<usize>,
    pub delay_timer: u8,
    pub sound_timer: u8,
    pub display: Seq<bool>,
    pub keys: Seq<bool>,
    pub escape: bool,
    pub quirks: Quirks,
}

impl StateView {
    /// Every component has its fixed size.
    pub open spec fn wf(self) -> bool {
        &&& self.mem.len() == MEM_SIZE
        &&& self.regs.len() == NUM_REGISTERS
        &&& self.keys.len() == NUM_KEYS
        &&& self.display.len() == DISPLAY_WIDTH * DISPLAY_HEIGHT
    }
}

/// The machine state right after construction: font loaded, program counter
/// at the start address, everything else cleared.
pub open spec fn initial_state(settings: SettingsView) -> StateView {
    StateView {
        settings,
        mem: initial_memory(),
        regs: Seq::new(NUM_REGISTERS as nat, |i: int| 0u8),
        pc: PC_START_ADDR,
        index: 0,
        stack: Seq::empty(),
        delay_timer: 0,
        sound_timer: 0,
        display: Seq::new((DISPLAY_WIDTH * DISPLAY_HEIGHT) as nat, |i: int| false),
        keys: Seq::new(NUM_KEYS as nat, |i: int| false),
        escape: false,
        quirks: Quirks::spec_default(),
    }
}

/// The complete machine state: memory, registers, program counter, index
/// register, call stack, timers, framebuffer and keypad, created together at
/// session start and mutated only by instruction execution and the frame
/// loop's timer decrement.
pub struct Chip8State {
    /// Frame loop configuration.
    pub settings: Settings,
    /// The 4096-byte memory with the font pre-loaded.
    pub memory: Memory,
    /// The sixteen 8-bit registers.
    pub registers: RegisterBank,
    /// The program counter: address of the next instruction to fetch.
    pub pc: usize,
    /// The index register used by memory-indexed operations.
    pub index: usize,
    /// The call stack of return addresses, last-in first-out.
    pub stack: Vec<usize>,
    /// Delay timer, decremented once per frame, saturating at zero.
    pub delay_timer: u8,
    /// Sound timer, decremented once per frame; a tone plays while non-zero.
    pub sound_timer: u8,
    /// The 64x32 monochrome framebuffer.
    pub display: Framebuffer,
    /// The keypad snapshot the engine reads.
    pub keypad: Keypad,
    /// The configured variant behaviors.
    pub quirks: Quirks,
}

impl View for Chip8State {
    type V = StateView;

    open spec fn view(&self) -> StateView {
        StateView {
            settings: self.settings@,
            mem: self.memory@,
            regs: self.registers@,
            pc: self.pc,
            index: self.index,
            stack: self.stack@,
            delay_timer: self.delay_timer,
            sound_timer: self.sound_timer,
            display: fb_bits(self.display),
            keys: self.keypad@.pressed,
            escape: self.keypad@.escape,
            quirks: self.quirks,
        }
    }
}

impl Chip8State {
    /// Creates a machine in its initial state: font loaded, program counter
    /// at the start address, registers, stack, timers, display and keypad
    /// all cleared, quirks at their defaults.
    pub fn new(settings: Settings) -> (s: Chip8State)
        ensures
            s@.wf(),
            s@ == initial_state(settings@),
    {
        Chip8State {
            settings,
            memory: Memory::new(),
            registers: RegisterBank::new(),
            pc: PC_START_ADDR,
            index: 0,
            stack: Vec::new(),
            delay_timer: 0,
            sound_timer: 0,
            display: Framebuffer::new(),
            keypad: Keypad::new(),
            quirks: Quirks::default(),
        }
    }

    /// Turns every pixel of the display off.
    pub fn clear_display(&mut self)
        requires
            old(self)@.wf(),
        ensures
            final(self)@.wf(),
            final(self)@ == (StateView {
                display: Seq::new((DISPLAY_WIDTH * DISPLAY_HEIGHT) as nat, |i: int| false),
                ..old(self)@
            }),
    {
        self.display.fill(false);
    }

    /// Draws a sprite of `rows` rows, read from memory at the index
    /// register, onto the display at origin `(x, y)`: each sprite bit is
    /// XORed onto its pixel, pixels that fall off screen are clipped, and
    /// the result reports whether any pixel went from set to unset. Fails,
    /// changing nothing, when the sprite bytes run past the end of memory.
    pub fn draw_sprite(&mut self, x: usize, y: usize, rows: u8) -> (r: Result<bool, Chip8Error>)
        requires
            old(self)@.wf(),
            x < DISPLAY_WIDTH,
            y < DISPLAY_HEIGHT,
        ensures
            final(self)@.wf(),
            old(self)@.index + rows <= MEM_SIZE ==> (r matches Ok(col) && {
                let sprite = old(self)@.mem.subrange(
                    old(self)@.index as int,
                    old(self)@.index + rows,
                );
                &&& col == spec_draw_collision(old(self)@.display, sprite, x as int, y as int)
                &&& final(self)@ == (StateView {
                    display: spec_draw_display(old(self)@.display, sprite, x as int, y as int),
                    ..old(self)@
                })
            }),
            old(self)@.index + rows > MEM_SIZE ==> r == Err::<bool, Chip8Error>(
                Chip8Error::OutOfBoundsMemoryAccess,
            ) && final(self)@ == old(self)@,
    {
        let ghost s0 = self@;
        let sprite = match self.memory.read_sprite(self.index, rows) {
            Ok(s) => s,
            Err(e) => {
                return Err(e);
            },
        };
        let ghost d0 = self@.display;
        let ghost spr = sprite@;
        let n = sprite.len();
        let mut collision = false;
        let mut row: usize = 0;
        while row < n
            invariant
                row <= n,
                n == spr.len(),
                n == rows,
                spr == sprite@,
                x < DISPLAY_WIDTH,
                y < DISPLAY_HEIGHT,
                s0.wf(),
                d0 == s0.display,
                self@ == (StateView {
                    display: draw_cells(d0, spr, x as int, y as int, (8 * row) as nat),
                    ..s0
                }),
                collision == collided_cells(d0, spr, x as int, y as int, (8 * row) as nat),
            decreases n - row,
        {
            let byte = sprite[row];
            let mut bit: usize = 0;
            while bit < 8
                invariant
                    bit <= 8,
                    row < n,
                    n == spr.len(),
                    n == rows,
                    spr == sprite@,
                    byte == spr[row as int],
                    x < DISPLAY_WIDTH,
                    y < DISPLAY_HEIGHT,
                    s0.wf(),
                    d0 == s0.display,
                    self@ == (StateView {
                        display: draw_cells(d0, spr, x as int, y as int, (8 * row + bit) as nat),
                        ..s0
                    }),
                    collision == collided_cells(
                        d0,
                        spr,
                        x as int,
                        y as int,
                        (8 * row + bit) as nat,
                    ),
                decreases 8 - bit,
            {
                let ghost c = 8 * row + bit;
                let ghost prev = draw_cells(d0, spr, x as int, y as int, c as nat);
                proof {
                    assert(c % 8 == bit && c / 8 == row) by (nonlinear_arith)
                        requires
                            c == 8 * row + bit,
                            0 <= bit < 8,
                            0 <= row,
                    ;
                    lemma_draw_cells_preserves_len(d0, spr, x as int, y as int, c as nat);
                }
                let px = x + bit;
                let py = y + row;
                if px < DISPLAY_WIDTH && py < DISPLAY_HEIGHT {
                    let idx = py * DISPLAY_WIDTH + px;
                    proof {
                        assert(cell_visible(x as int, y as int, c as int));
                        assert(cell_pixel(x as int, y as int, c as int) == idx);
                        lemma_cell_pixel_decompose(x as int, y as int, c as int);
                        lemma_draw_cells_untouched(
                            d0,
                            spr,
                            x as int,
                            y as int,
                            c as nat,
                            c as int,
                        );
                    }
                    let current = self.display.get(idx);
                    let new_pixel = (byte >> (7 - bit)) & 1 == 1;
                    proof {
                        assert(new_pixel == cell_set(spr, c as int));
                        assert(current == prev[idx as int]);
                        assert(current == d0[idx as int]);
                    }
                    if current && new_pixel {
                        collision = true;
                    }
                    self.display.set(idx, current ^ new_pixel);
                    proof {
                        if new_pixel {
                            assert((current ^ new_pixel) == !prev[idx as int]);
                            assert(fb_bits(self.display) == draw_cells(
                                d0,
                                spr,
                                x as int,
                                y as int,
                                (c + 1) as nat,
                            ));
                        } else {
                            assert((current ^ new_pixel) == prev[idx as int]);
                            assert(prev.update(idx as int, prev[idx as int]) =~= prev);
                            assert(fb_bits(self.display) == draw_cells(
                                d0,
                                spr,
                                x as int,
                                y as int,
                                (c + 1) as nat,
                            ));
                        }
                        assert(collision == collided_cells(
                            d0,
                            spr,
                            x as int,
                            y as int,
                            (c + 1) as nat,
                        ));
                    }
                } else {
                    proof {
                        assert(!cell_visible(x as int, y as int, c as int));
                        assert(draw_cells(d0, spr, x as int, y as int, (c + 1) as nat) == prev);
                        assert(collision == collided_cells(
                            d0,
                            spr,
                            x as int,
                            y as int,
                            (c + 1) as nat,
                        ));
                    }
                }
                bit = bit + 1;
            }
            row = row + 1;
        }
        proof {
            lemma_draw_cells_complete(d0, spr, x as int, y as int);
        }
        Ok(collision)
    }

    /// Reads one pixel of the display.
    pub fn pixel(&self, x: usize, y: usize) -> (b: bool)
        requires
            self@.wf(),
            x < DISPLAY_WIDTH,
            y < DISPLAY_HEIGHT,
        ensures
            b == self@.display[y * DISPLAY_WIDTH + x],
    {
        self.display.get(y * DISPLAY_WIDTH + x)
    }
}

/// Loading a program never touches the font region: every byte below
/// `PC_START_ADDR`, and in particular the font table at 0x50-0x9F, keeps its
/// value.
pub proof fn lemma_load_rom_preserves_font(m: Seq<u8>, rom: Seq<u8>)
    requires
        m.len() == MEM_SIZE,
        rom.len() <= MEM_SIZE - PC_START_ADDR,
    ensures
        forall|i: int|
            0 <= i < PC_START_ADDR ==> Seq::new(
                MEM_SIZE as nat,
                |j: int|
                    if PC_START_ADDR <= j < PC_START_ADDR + rom.len() {
                        rom[j - PC_START_ADDR]
                    } else {
                        m[j]
                    },
            )[i] == m[i],
{
}

} // verus!
