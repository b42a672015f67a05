//! The abstract state of the machine and the constants that shape it.

use vstd::prelude::*;

verus! {

/// Number of addressable bytes. Addresses wrap modulo this size.
pub const MEMORY_SIZE: usize = 4096;

/// Address at which programs are loaded and at which execution starts.
pub const PROGRAM_START: usize = 0x200;

/// Largest program, in bytes, that can be loaded: the distance from the
/// program start to the last address of memory.
pub const MAX_PROGRAM_SIZE: usize = 0xFFF - 0x200;

/// Number of general-purpose registers `V0`..`VF`.
pub const REGISTER_COUNT: usize = 16;

/// Index of `VF`, the register that doubles as carry, borrow and collision flag.
pub const FLAG: usize = 0xF;

/// Number of return addresses the call stack can hold.
pub const STACK_SIZE: usize = 16;

/// Number of logical keys.
pub const KEY_COUNT: usize = 16;

/// Framebuffer width in pixels.
pub const SCREEN_WIDTH: usize = 64;

/// Framebuffer height in pixels.
pub const SCREEN_HEIGHT: usize = 32;

/// Number of framebuffer cells, stored row by row.
pub const SCREEN_SIZE: usize = 2048;

/// Bytes per built-in glyph.
pub const GLYPH_SIZE: usize = 5;

/// Bytes in the built-in glyph table.
pub const GLYPH_TABLE_SIZE: usize = 80;

/// The built-in glyphs for the hexadecimal digits `0`..`F`, five rows each.
pub const GLYPHS: [u8; 80] = [
    0xF0, 0x90, 0x90, 0x90, 0xF0,
    0x20, 0x60, 0x20, 0x20, 0x70,
    0xF0, 0x10, 0xF0, 0x80, 0xF0,
    0xF0, 0x10, 0xF0, 0x10, 0xF0,
    0x90, 0x90, 0xF0, 0x10, 0x10,
    0xF0, 0x80, 0xF0, 0x10, 0xF0,
    0xF0, 0x80, 0xF0, 0x90, 0xF0,
    0xF0, 0x10, 0x20, 0x40, 0x40,
    0xF0, 0x90, 0xF0, 0x90, 0xF0,
    0xF0, 0x90, 0xF0, 0x10, 0xF0,
    0xF0, 0x90, 0xF0, 0x90, 0x90,
    0xE0, 0x90, 0xE0, 0x90, 0xE0,
    0xF0, 0x80, 0x80, 0x80, 0xF0,
    0xE0, 0x90, 0x90, 0x90, 0xE0,
    0xF0, 0x80, 0xF0, 0x80, 0xF0,
    0xF0, 0x80, 0xF0, 0x80, 0x80,
];

/// Everything the interpreter remembers between steps, as mathematical values.
#[verifier::ext_equal]
pub struct State {
    /// The 4096 bytes of memory.
    pub memory: Seq<u8>,
    /// The registers `V0`..`VF`.
    pub v: Seq<u8>,
    /// The index register `I`.
    pub i: int,
    /// The program counter.
    pub pc: int,
    /// The sixteen slots of the call stack.
    pub stack: Seq<u16>,
    /// Number of return addresses currently on the stack.
    pub sp: int,
    /// The delay timer.
    pub delay_timer: u8,
    /// The sound timer.
    pub sound_timer: u8,
    /// The framebuffer, row by row: cell `(x, y)` is at `y * 64 + x`.
    pub screen: Seq<bool>,
}

impl State {
    /// The containers have their fixed sizes.
    pub open spec fn shaped(self) -> bool {
        &&& self.memory.len() == MEMORY_SIZE
        &&& self.v.len() == REGISTER_COUNT
        &&& self.stack.len() == STACK_SIZE
        &&& self.screen.len() == SCREEN_SIZE
    }

    /// What every instruction keeps true: `I` and every stored return
    /// address are 12-bit addresses, and the stack pointer is at most the
    /// stack's capacity.
    pub open spec fn coherent(self) -> bool {
        &&& self.shaped()
        &&& 0 <= self.i < MEMORY_SIZE
        &&& 0 <= self.sp <= STACK_SIZE
        &&& forall|k: int| 0 <= k < STACK_SIZE ==> #[trigger] self.stack[k] < MEMORY_SIZE
    }

    /// The invariant that holds between steps: the state is coherent and
    /// `PC` is a 12-bit address.
    pub open spec fn valid(self) -> bool {
        &&& self.coherent()
        &&& 0 <= self.pc < MEMORY_SIZE
    }

    /// Whether pixel `(x, y)` is lit.
    pub open spec fn pixel(self, x: int, y: int) -> bool {
        self.screen[y * SCREEN_WIDTH + x]
    }
}

/// The state of a freshly built machine: the glyph table at the bottom of
/// memory, everything else zero, and `PC` at the program start.
pub open spec fn initial_state() -> State {
    State {
        memory: Seq::new(
            MEMORY_SIZE as nat,
            |a: int| if a < GLYPH_TABLE_SIZE { GLYPHS[a] } else { 0u8 },
        ),
        v: Seq::new(REGISTER_COUNT as nat, |k: int| 0u8),
        i: 0,
        pc: PROGRAM_START as int,
        stack: Seq::new(STACK_SIZE as nat, |k: int| 0u16),
        sp: 0,
        delay_timer: 0,
        sound_timer: 0,
        screen: Seq::new(SCREEN_SIZE as nat, |p: int| false),
    }
}

} // verus!
