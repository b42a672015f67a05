//! The executable interpreter.

use crate::partial::{
    drawn_until, lemma_all_rows, lemma_load_next, lemma_load_none, lemma_load_program_next,
    lemma_load_program_none, lemma_next_pixel, lemma_next_row, lemma_nothing_drawn,
    lemma_store_next, lemma_store_none,
};
use crate::rng::{random_byte, thread_rng};
use crate::semantics;
use crate::semantics::Effect;
use crate::state::{
    initial_state, State, FLAG, GLYPHS, GLYPH_SIZE, GLYPH_TABLE_SIZE, KEY_COUNT, MAX_PROGRAM_SIZE,
    MEMORY_SIZE, PROGRAM_START, REGISTER_COUNT, SCREEN_HEIGHT, SCREEN_WIDTH,
};
use rand::rngs::ThreadRng;
use vstd::prelude::*;

verus! {

/// Why a program could not be loaded.
#[derive(Clone, Copy, Debug, PartialEq, Eq, Structural)]
pub enum LoadError {
    /// The program has more than [`MAX_PROGRAM_SIZE`] bytes.
    RomTooLarge,
}

/// The virtual machine: registers, memory, call stack, timers and
/// framebuffer, together with the random source that `CXNN` draws from.
pub struct Machine {
    i: u16,
    pc: u16,
    sp: u8,
    delay_timer: u8,
    sound_timer: u8,
    v: [u8; 16],
    memory: [u8; 4096],
    stack: [u16; 16],
    screen: [bool; 2048],
    rng: ThreadRng,
}

impl View for Machine {
    type V = State;

    closed spec fn view(&self) -> State {
        State {
            memory: self.memory@,
            v: self.v@,
            i: self.i as int,
            pc: self.pc as int,
            stack: self.stack@,
            sp: self.sp as int,
            delay_timer: self.delay_timer,
            sound_timer: self.sound_timer,
            screen: self.screen@,
        }
    }
}

impl Machine {
    /// The machine is in a state that can be stepped.
    pub open spec fn wf(&self) -> bool {
        self@.valid()
    }

    /// A machine in its initial state, with the thread's random generator as
    /// its random source.
    pub fn new() -> (m: Machine)
        ensures
            m@ == initial_state(),
            m.wf(),
    {
        let mut memory = [0u8; 4096];
        let mut a: usize = 0;
        while a < GLYPH_TABLE_SIZE
            invariant
                a <= GLYPH_TABLE_SIZE,
                forall|k: int| 0 <= k < a ==> memory@[k] == GLYPHS[k],
                forall|k: int| a <= k < MEMORY_SIZE ==> memory@[k] == 0,
            decreases GLYPH_TABLE_SIZE - a,
        {
            memory[a] = GLYPHS[a];
            a += 1;
        }
        let m = Machine {
            i: 0,
            pc: 0x200,
            sp: 0,
            delay_timer: 0,
            sound_timer: 0,
            v: [0; 16],
            memory,
            stack: [0; 16],
            screen: [false; 2048],
            rng: thread_rng(),
        };
        assert(m@ =~= initial_state());
        m
    }

    /// Writes one byte of a program at `offset` from the program start.
    pub fn load(&mut self, offset: usize, byte: u8)
        requires
            PROGRAM_START + offset < MEMORY_SIZE,
        ensures
            final(self)@ == semantics::load(old(self)@, offset as int, byte),
            old(self).wf() ==> final(self).wf(),
    {
        self.memory[PROGRAM_START + offset] = byte;
    }

    /// Places a whole program at the program start, or refuses it if it has
    /// more than [`MAX_PROGRAM_SIZE`] bytes, leaving the machine as it was.
    pub fn load_program(&mut self, program: &[u8]) -> (r: Result<(), LoadError>)
        ensures
            program@.len() <= MAX_PROGRAM_SIZE ==> r is Ok && final(self)@
                == semantics::load_program(old(self)@, program@),
            program@.len() > MAX_PROGRAM_SIZE ==> r == Err::<(), LoadError>(LoadError::RomTooLarge)
                && final(self)@ == old(self)@,
            old(self).wf() ==> final(self).wf(),
    {
        let size = program.len();
        if size > MAX_PROGRAM_SIZE {
            return Err(LoadError::RomTooLarge);
        }
        proof {
            lemma_load_program_none(old(self)@);
            assert(program@.take(0) =~= Seq::<u8>::empty());
        }
        let mut k: usize = 0;
        while k < size
            invariant
                k <= size == program@.len() <= MAX_PROGRAM_SIZE,
                old(self)@.shaped(),
                self@ == semantics::load_program(old(self)@, program@.take(k as int)),
            decreases size - k,
        {
            proof {
                lemma_load_program_next(old(self)@, program@, k as int);
            }
            self.load(k, program[k]);
            k += 1;
        }
        assert(program@.take(size as int) =~= program@);
        Ok(())
    }

    /// Pushes a return address, unless the stack is full.
    pub fn push(&mut self, addr: u16)
        requires
            old(self).wf(),
            addr < MEMORY_SIZE,
        ensures
            final(self)@ == semantics::push(old(self)@, addr),
            final(self).wf(),
    {
        if (self.sp as usize) < self.stack.len() {
            self.stack[self.sp as usize] = addr;
            self.sp += 1;
        }
    }

    /// Pops a return address. On an empty stack the stack pointer stays at
    /// zero and the address in the bottom slot is returned.
    pub fn pop(&mut self) -> (addr: u16)
        requires
            old(self).wf(),
        ensures
            final(self)@ == semantics::pop(old(self)@),
            addr == semantics::popped_addr(old(self)@),
            addr < MEMORY_SIZE,
            final(self).wf(),
    {
        if self.sp > 0 {
            self.sp -= 1;
        }
        self.stack[self.sp as usize]
    }

    /// Transfers control to `target`.
    fn jump(&mut self, target: u16) -> (advance: bool)
        ensures
            semantics::jump(old(self)@, target as int) == (Effect { state: final(self)@, advance }),
    {
        self.pc = target;
        false
    }

    /// `2NNN`: pushes the program counter and transfers control to `target`.
    fn call(&mut self, target: u16) -> (advance: bool)
        requires
            old(self).wf(),
        ensures
            semantics::call(old(self)@, target as int) == (Effect { state: final(self)@, advance }),
    {
        self.push(self.pc);
        self.jump(target)
    }

    /// `00EE`: pops a return address into the program counter.
    fn return_from_call(&mut self)
        requires
            old(self).wf(),
        ensures
            final(self)@ == semantics::return_from_call(old(self)@),
    {
        self.pc = self.pop();
    }

    /// Skips the following instruction when `cond` holds.
    fn skip_if(&mut self, cond: bool) -> (advance: bool)
        requires
            old(self).wf(),
        ensures
            semantics::skip_if(old(self)@, cond) == (Effect { state: final(self)@, advance }),
    {
        if cond {
            self.pc += 4;
            false
        } else {
            true
        }
    }

    /// `00E0`: turns every pixel off.
    fn clear_screen(&mut self)
        ensures
            final(self)@ == semantics::clear_screen(old(self)@),
    {
        self.screen = [false; 2048];
        assert(self@.screen =~= semantics::clear_screen(old(self)@).screen);
    }

    /// Writes `addr` to the index register.
    fn set_index(&mut self, addr: u16)
        ensures
            final(self)@ == semantics::set_index(old(self)@, addr as int),
    {
        self.i = addr;
    }

    /// Writes `val` to register `VX`.
    fn set_register(&mut self, x: usize, val: u8)
        requires
            x < REGISTER_COUNT,
        ensures
            final(self)@ == semantics::set_register(old(self)@, x as int, val),
    {
        self.v[x] = val;
    }

    /// Writes 1 to `VF` if `flag`, and 0 otherwise.
    fn set_flag(&mut self, flag: bool)
        ensures
            final(self)@ == semantics::set_flag(old(self)@, flag),
    {
        self.v[FLAG] = if flag {
            1
        } else {
            0
        };
    }

    /// `8XYN`: the register-to-register operations.
    fn alu(&mut self, x: usize, y: usize, op: u8)
        requires
            x < REGISTER_COUNT,
            y < REGISTER_COUNT,
        ensures
            final(self)@ == semantics::alu(old(self)@, x as int, y as int, op as int),
    {
        let vx = self.v[x];
        let vy = self.v[y];
        match op {
            0x0 => {
                self.set_register(x, vy);
            },
            0x1 => {
                self.set_register(x, vx | vy);
            },
            0x2 => {
                self.set_register(x, vx & vy);
            },
            0x3 => {
                self.set_register(x, vx ^ vy);
            },
            0x4 => {
                self.set_flag(vx as u16 + vy as u16 >= 256);
                self.set_register(x, vx.wrapping_add(vy));
            },
            0x5 => {
                self.set_flag(vx > vy);
                self.set_register(x, vx.wrapping_sub(vy));
            },
            0x6 => {
                assert(vx & 1 != 0 <==> vx % 2 == 1) by (bit_vector);
                self.set_flag(vx & 1 != 0);
                let shifted = self.v[x];
                assert(shifted >> 1 == shifted / 2) by (bit_vector);
                self.set_register(x, shifted >> 1);
            },
            0x7 => {
                self.set_flag(vy > vx);
                let subtrahend = self.v[x];
                self.set_register(x, vy.wrapping_sub(subtrahend));
            },
            0xE => {
                assert(vx & 0x80 != 0 <==> vx >= 128) by (bit_vector);
                self.set_flag(vx & 0x80 != 0);
                let shifted = self.v[x];
                assert(shifted << 1 == (shifted * 2) % 256) by (bit_vector);
                self.set_register(x, shifted << 1);
            },
            _ => {},
        }
    }

    /// `DXYN`: XORs the sprite at `I` onto the screen at `(VX, VY)`.
    fn draw(&mut self, x: usize, y: usize, rows: u8)
        requires
            old(self).wf(),
            x < REGISTER_COUNT,
            y < REGISTER_COUNT,
            rows < 16,
        ensures
            final(self)@ == semantics::draw(old(self)@, x as int, y as int, rows as int),
    {
        self.set_flag(false);
        let left = self.v[x] as usize;
        let top = self.v[y] as usize;
        let start = self.i as usize;
        let ghost before = old(self)@;
        proof {
            lemma_nothing_drawn(before, left as int, top as int);
        }
        let mut row: usize = 0;
        while row < rows as usize
            invariant
                row <= rows < 16,
                left < 256,
                top < 256,
                left == semantics::draw_left(before, x as int),
                top == semantics::draw_top(before, y as int),
                start == before.i < MEMORY_SIZE,
                before.shaped(),
                self@ == drawn_until(before, left as int, top as int, row as int, 0),
            decreases rows - row,
        {
            let bits = self.memory[(start + row) % MEMORY_SIZE];
            let mut col: usize = 0;
            while col < 8
                invariant
                    row < rows < 16,
                    col <= 8,
                    left < 256,
                    top < 256,
                    before.shaped(),
                    bits == before.memory[(before.i + row) % (MEMORY_SIZE as int)],
                    self@ == drawn_until(before, left as int, top as int, row as int, col as int),
                decreases 8 - col,
            {
                let flip = bits & (0x80u8 >> col) != 0;
                let cell = SCREEN_WIDTH * ((top + row) % SCREEN_HEIGHT) + (left + col)
                    % SCREEN_WIDTH;
                proof {
                    lemma_next_pixel(before, left as int, top as int, row as int, col as int);
                }
                if self.screen[cell] && flip {
                    self.set_flag(true);
                }
                self.screen[cell] = self.screen[cell] ^ flip;
                col += 1;
            }
            proof {
                lemma_next_row(before, left as int, top as int, row as int);
            }
            row += 1;
        }
        proof {
            lemma_all_rows(before, x as int, y as int, rows as int);
        }
    }

    /// `EXNN`: the two key-conditional skips.
    fn key_skip(&mut self, x: usize, lo: u8, keys: [bool; 16]) -> (advance: bool)
        requires
            old(self).wf(),
            x < REGISTER_COUNT,
        ensures
            semantics::key_skip(old(self)@, x as int, lo, keys@) == (Effect {
                state: final(self)@,
                advance,
            }),
    {
        let key = self.v[x] as usize;
        match lo {
            0x9E => self.skip_if(key < KEY_COUNT && keys[key]),
            0xA1 => self.skip_if(key < KEY_COUNT && !keys[key]),
            _ => true,
        }
    }

    /// `FX0A`: takes the lowest pressed key into `VX`, or asks to be run again.
    fn wait_key(&mut self, x: usize, keys: [bool; 16]) -> (advance: bool)
        requires
            x < REGISTER_COUNT,
        ensures
            semantics::wait_key(old(self)@, x as int, keys@) == (Effect {
                state: final(self)@,
                advance,
            }),
    {
        let mut k: usize = 0;
        while k < KEY_COUNT
            invariant
                k <= KEY_COUNT,
                x < REGISTER_COUNT,
                self@ == old(self)@,
                semantics::first_pressed(keys@, k as int) == k,
            decreases KEY_COUNT - k,
        {
            if keys[k] {
                proof {
                    semantics::lemma_first_pressed(keys@, k as int);
                    semantics::lemma_first_pressed(keys@, KEY_COUNT as int);
                }
                self.v[x] = k as u8;
                return true;
            }
            k += 1;
        }
        false
    }

    /// `FX33`: the decimal digits of `VX` at `I`, `I + 1` and `I + 2`.
    fn store_bcd(&mut self, x: usize)
        requires
            old(self).wf(),
            x < REGISTER_COUNT,
        ensures
            final(self)@ == semantics::store_bcd(old(self)@, x as int),
    {
        let vx = self.v[x];
        let at = self.i as usize;
        self.memory[at] = vx / 100;
        self.memory[(at + 1) % MEMORY_SIZE] = (vx / 10) % 10;
        self.memory[(at + 2) % MEMORY_SIZE] = vx % 10;
    }

    /// `FX55`: registers `V0`..=`VX` stored at `I`, `I + 1`, ...
    fn store_registers(&mut self, x: usize)
        requires
            old(self).wf(),
            x < REGISTER_COUNT,
        ensures
            final(self)@ == semantics::store_registers(old(self)@, x as int),
    {
        let at = self.i as usize;
        proof {
            lemma_store_none(old(self)@);
        }
        let mut k: usize = 0;
        while k <= x
            invariant
                k <= x + 1 <= REGISTER_COUNT,
                at == old(self)@.i < MEMORY_SIZE,
                old(self)@.shaped(),
                self@ == semantics::store_registers(old(self)@, k - 1),
            decreases x + 1 - k,
        {
            proof {
                lemma_store_next(old(self)@, k as int);
            }
            self.memory[(at + k) % MEMORY_SIZE] = self.v[k];
            k += 1;
        }
    }

    /// `FX65`: registers `V0`..=`VX` loaded from `I`, `I + 1`, ...
    fn load_registers(&mut self, x: usize)
        requires
            old(self).wf(),
            x < REGISTER_COUNT,
        ensures
            final(self)@ == semantics::load_registers(old(self)@, x as int),
    {
        let at = self.i as usize;
        proof {
            lemma_load_none(old(self)@);
        }
        let mut k: usize = 0;
        while k <= x
            invariant
                k <= x + 1 <= REGISTER_COUNT,
                at == old(self)@.i < MEMORY_SIZE,
                old(self)@.shaped(),
                self@ == semantics::load_registers(old(self)@, k - 1),
            decreases x + 1 - k,
        {
            proof {
                lemma_load_next(old(self)@, k as int);
            }
            self.v[k] = self.memory[(at + k) % MEMORY_SIZE];
            k += 1;
        }
    }

    /// `FXNN`: timers, key wait, index arithmetic and memory transfers.
    fn misc(&mut self, x: usize, lo: u8, keys: [bool; 16]) -> (advance: bool)
        requires
            old(self).wf(),
            x < REGISTER_COUNT,
        ensures
            semantics::misc(old(self)@, x as int, lo, keys@) == (Effect {
                state: final(self)@,
                advance,
            }),
    {
        match lo {
            0x07 => {
                self.set_register(x, self.delay_timer);
            },
            0x0A => {
                return self.wait_key(x, keys);
            },
            0x15 => {
                self.delay_timer = self.v[x];
            },
            0x18 => {
                self.sound_timer = self.v[x];
            },
            0x1E => {
                let sum = self.i + self.v[x] as u16;
                assert(sum & 0xFFF == sum % 4096) by (bit_vector);
                self.set_index(sum & 0xFFF);
            },
            0x29 => {
                self.set_index((self.v[x] as usize * GLYPH_SIZE) as u16);
            },
            0x33 => {
                self.store_bcd(x);
            },
            0x55 => {
                self.store_registers(x);
            },
            0x65 => {
                self.load_registers(x);
            },
            _ => {},
        }
        true
    }

    /// Executes the instruction `hi lo` with `keys` held down and `random` as
    /// the byte drawn for `CXNN`. Returns whether the program counter still
    /// has to advance to the following instruction.
    fn interpret(&mut self, hi: u8, lo: u8, keys: [bool; 16], random: u8) -> (advance: bool)
        requires
            old(self).wf(),
        ensures
            semantics::execute(old(self)@, hi, lo, keys@, random) == (Effect {
                state: final(self)@,
                advance,
            }),
            final(self)@.coherent(),
            0 <= final(self)@.pc <= 0xFFF + 0xFF,
    {
        let x = (hi & 0x0F) as usize;
        let y = (lo >> 4) as usize;
        let n = lo & 0x0F;
        let nnn = ((hi as u16) << 8 | lo as u16) & 0x0FFF;
        proof {
            lemma_nibbles(hi);
            lemma_nibbles(lo);
            lemma_address(hi, lo);
            semantics::lemma_execute_keeps_coherent(old(self)@, hi, lo, keys@, random);
        }
        match hi >> 4 {
            0x0 => {
                if x == 0 && lo == 0xE0 {
                    self.clear_screen();
                } else if x == 0 && lo == 0xEE {
                    self.return_from_call();
                }
                true
            },
            0x1 => self.jump(nnn),
            0x2 => self.call(nnn),
            0x3 => self.skip_if(self.v[x] == lo),
            0x4 => self.skip_if(self.v[x] != lo),
            0x5 => {
                if n == 0 {
                    self.skip_if(self.v[x] == self.v[y])
                } else {
                    true
                }
            },
            0x6 => {
                self.set_register(x, lo);
                true
            },
            0x7 => {
                self.set_register(x, self.v[x].wrapping_add(lo));
                true
            },
            0x8 => {
                self.alu(x, y, n);
                true
            },
            0x9 => {
                if n == 0 {
                    self.skip_if(self.v[x] != self.v[y])
                } else {
                    true
                }
            },
            0xA => {
                self.set_index(nnn);
                true
            },
            0xB => self.jump(self.v[0] as u16 + nnn),
            0xC => {
                self.set_register(x, lo & random);
                true
            },
            0xD => {
                self.draw(x, y, n);
                true
            },
            0xE => self.key_skip(x, lo, keys),
            _ => self.misc(x, lo, keys),
        }
    }

    /// Runs one fetch/decode/execute cycle with `keys` held down, using
    /// `random` as the byte that `CXNN` draws.
    pub fn step_with(&mut self, keys: [bool; 16], random: u8)
        requires
            old(self).wf(),
        ensures
            final(self)@ == semantics::step(old(self)@, keys@, random),
            final(self).wf(),
            0 <= final(self)@.pc <= 4095,
    {
        let pc = self.pc as usize;
        let hi = self.memory[pc];
        let lo = self.memory[(pc + 1) % MEMORY_SIZE];
        let advance = self.interpret(hi, lo, keys, random);
        if advance {
            self.pc += 2;
        }
        let unwrapped = self.pc;
        assert(unwrapped & 0xFFF == unwrapped % 4096) by (bit_vector);
        self.pc = unwrapped & 0xFFF;
    }

    /// Runs one fetch/decode/execute cycle with `keys` held down. A `CXNN`
    /// instruction draws its byte from the machine's random source; every
    /// other instruction is fully determined by the state and the keys.
    pub fn step(&mut self, keys: [bool; 16])
        requires
            old(self).wf(),
        ensures
            final(self).wf(),
            0 <= final(self)@.pc <= 4095,
            exists|random: u8| final(self)@ == #[trigger] semantics::step(old(self)@, keys@, random),
            !semantics::fetches_random(old(self)@) ==> final(self)@ == semantics::step(
                old(self)@,
                keys@,
                0,
            ),
    {
        let hi = self.memory[self.pc as usize];
        proof {
            lemma_nibbles(hi);
        }
        let random = if hi >> 4 == 0xC {
            random_byte(&mut self.rng)
        } else {
            0
        };
        self.step_with(keys, random);
    }

    /// Counts both timers down by one, each stopping at zero.
    pub fn decrease_timers(&mut self)
        ensures
            final(self)@ == semantics::tick(old(self)@),
            old(self).wf() ==> final(self).wf(),
    {
        if self.sound_timer > 0 {
            self.sound_timer -= 1;
        }
        if self.delay_timer > 0 {
            self.delay_timer -= 1;
        }
    }

    /// The program counter.
    pub fn pc(&self) -> (pc: u16)
        ensures
            pc == self@.pc,
    {
        self.pc
    }

    /// The index register `I`.
    pub fn index(&self) -> (i: u16)
        ensures
            i == self@.i,
    {
        self.i
    }

    /// The number of return addresses on the call stack.
    pub fn sp(&self) -> (sp: u8)
        ensures
            sp == self@.sp,
    {
        self.sp
    }

    /// Register `VX`.
    pub fn register(&self, x: usize) -> (val: u8)
        requires
            x < REGISTER_COUNT,
        ensures
            val == self@.v[x as int],
    {
        self.v[x]
    }

    /// The byte of memory at `addr`.
    pub fn memory_at(&self, addr: usize) -> (byte: u8)
        requires
            addr < MEMORY_SIZE,
        ensures
            byte == self@.memory[addr as int],
    {
        self.memory[addr]
    }

    /// The delay timer.
    pub fn delay_timer(&self) -> (t: u8)
        ensures
            t == self@.delay_timer,
    {
        self.delay_timer
    }

    /// The sound timer.
    pub fn sound_timer(&self) -> (t: u8)
        ensures
            t == self@.sound_timer,
    {
        self.sound_timer
    }

    /// Whether the host should be sounding the buzzer.
    pub fn is_sound_active(&self) -> (active: bool)
        ensures
            active == (self@.sound_timer > 0),
    {
        self.sound_timer > 0
    }

    /// Whether pixel `(x, y)` of the framebuffer is lit.
    pub fn pixel_at(&self, x: usize, y: usize) -> (lit: bool)
        requires
            x < SCREEN_WIDTH,
            y < SCREEN_HEIGHT,
        ensures
            lit == self@.pixel(x as int, y as int),
    {
        self.screen[y * SCREEN_WIDTH + x]
    }
}

/// The nibbles of a byte, by shifting and masking and by arithmetic.
proof fn lemma_nibbles(b: u8)
    by (bit_vector)
    ensures
        b >> 4 == b / 16,
        b & 0x0F == b % 16,
        b >> 4 < 16,
        b & 0x0F < 16,
{
}

/// The low twelve bits of an instruction, by masking and by arithmetic.
proof fn lemma_address(hi: u8, lo: u8)
    by (bit_vector)
    ensures
        ((hi as u16) << 8 | lo as u16) & 0x0FFF == (hi % 16) * 256 + lo,
{
}

} // verus!
