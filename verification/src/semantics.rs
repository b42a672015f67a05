//! What each instruction does, as functions on the abstract [`State`].
//!
//! An instruction is two bytes, `hi` then `lo`. Its four nibbles are written
//! `F X Y N`; `NN` is `lo` and `NNN` is the low twelve bits. [`execute`] gives
//! the effect of one instruction, [`step`] the effect of one whole
//! fetch/decode/execute cycle.

use crate::state::{
    State, FLAG, GLYPH_SIZE, KEY_COUNT, MEMORY_SIZE, PROGRAM_START, REGISTER_COUNT, SCREEN_HEIGHT,
    SCREEN_SIZE, SCREEN_WIDTH, STACK_SIZE,
};
use vstd::prelude::*;

verus! {

/// The outcome of executing one instruction: the state it leaves, and whether
/// the program counter still has to move on to the following instruction.
#[verifier::ext_equal]
pub struct Effect {
    pub state: State,
    pub advance: bool,
}

/// The instruction is done and control moves on to the following one.
pub open spec fn proceed(s: State) -> Effect {
    Effect { state: s, advance: true }
}

/// Control transfers to `target`; the program counter is not advanced further.
pub open spec fn jump(s: State, target: int) -> Effect {
    Effect { state: State { pc: target, ..s }, advance: false }
}

/// Skips the following instruction when `cond` holds.
pub open spec fn skip_if(s: State, cond: bool) -> Effect {
    if cond {
        jump(s, s.pc + 4)
    } else {
        proceed(s)
    }
}

/// `s` with register `x` holding `val`.
pub open spec fn set_register(s: State, x: int, val: u8) -> State {
    State { v: s.v.update(x, val), ..s }
}

/// `s` with `VF` holding 1 if `flag` and 0 otherwise.
pub open spec fn set_flag(s: State, flag: bool) -> State {
    set_register(s, FLAG as int, if flag { 1u8 } else { 0u8 })
}

/// Pushes a return address. A push onto a full stack is dropped.
pub open spec fn push(s: State, addr: u16) -> State {
    if s.sp < STACK_SIZE {
        State { stack: s.stack.update(s.sp, addr), sp: s.sp + 1, ..s }
    } else {
        s
    }
}

/// The stack pointer after a pop: one lower, but never below zero.
pub open spec fn popped_sp(s: State) -> int {
    if s.sp > 0 {
        s.sp - 1
    } else {
        0
    }
}

/// The address a pop returns: the slot under the new stack pointer. On an
/// empty stack this is slot 0, whatever was last written there.
pub open spec fn popped_addr(s: State) -> u16 {
    s.stack[popped_sp(s)]
}

/// The state after a pop.
pub open spec fn pop(s: State) -> State {
    State { sp: popped_sp(s), ..s }
}

/// `2NNN`: the program counter is pushed and control transfers to `target`.
pub open spec fn call(s: State, target: int) -> Effect {
    jump(push(s, s.pc as u16), target)
}

/// `00EE`: a return address is popped into the program counter. The step
/// then advances past it, to the instruction that follows the call.
pub open spec fn return_from_call(s: State) -> State {
    State { pc: popped_addr(s) as int, ..pop(s) }
}

/// `s` with the index register holding `addr`.
pub open spec fn set_index(s: State, addr: int) -> State {
    State { i: addr, ..s }
}

/// One tick of a timer: down by one, stopping at zero.
pub open spec fn tick_timer(t: u8) -> u8 {
    if t > 0 {
        (t - 1) as u8
    } else {
        0
    }
}

/// One tick of both timers.
pub open spec fn tick(s: State) -> State {
    State {
        delay_timer: tick_timer(s.delay_timer),
        sound_timer: tick_timer(s.sound_timer),
        ..s
    }
}

/// `n` ticks of both timers.
pub open spec fn tick_n(s: State, n: nat) -> State
    decreases n,
{
    if n == 0 {
        s
    } else {
        tick(tick_n(s, (n - 1) as nat))
    }
}

/// `s` with byte `byte` of a program placed at `offset` from the program start.
pub open spec fn load(s: State, offset: int, byte: u8) -> State {
    State { memory: s.memory.update(PROGRAM_START + offset, byte), ..s }
}

/// `s` with the whole of `program` placed at the program start.
pub open spec fn load_program(s: State, program: Seq<u8>) -> State {
    State {
        memory: Seq::new(
            MEMORY_SIZE as nat,
            |a: int|
                if PROGRAM_START <= a < PROGRAM_START + program.len() {
                    program[a - PROGRAM_START]
                } else {
                    s.memory[a]
                },
        ),
        ..s
    }
}

/// `00E0`: every pixel off.
pub open spec fn clear_screen(s: State) -> State {
    State { screen: Seq::new(SCREEN_SIZE as nat, |p: int| false), ..s }
}

/// `8XYN`: the register-to-register operations: assign, OR, AND, XOR, add
/// with carry, subtract, shift right, reversed subtract and shift left.
///
/// `8XY5` sets `VF` only when the difference is strictly positive: equal
/// operands leave the flag at 0. Both subtractions wrap modulo 256.
///
/// Where an operation sets `VF`, the flag is written first and the result
/// second, so with `X = F` the result is what `VF` holds afterwards; the
/// shifts and the reversed subtraction read `VX` after the flag has been
/// written.
pub open spec fn alu(s: State, x: int, y: int, op: int) -> State {
    let vx = s.v[x];
    let vy = s.v[y];
    if op == 0x0 {
        set_register(s, x, vy)
    } else if op == 0x1 {
        set_register(s, x, vx | vy)
    } else if op == 0x2 {
        set_register(s, x, vx & vy)
    } else if op == 0x3 {
        set_register(s, x, vx ^ vy)
    } else if op == 0x4 {
        set_register(set_flag(s, vx + vy >= 256), x, ((vx + vy) % 256) as u8)
    } else if op == 0x5 {
        set_register(set_flag(s, vx > vy), x, ((vx - vy) % 256) as u8)
    } else if op == 0x6 {
        let f = set_flag(s, vx % 2 == 1);
        set_register(f, x, f.v[x] / 2)
    } else if op == 0x7 {
        let f = set_flag(s, vy > vx);
        set_register(f, x, ((vy - f.v[x]) % 256) as u8)
    } else if op == 0xE {
        let f = set_flag(s, vx >= 128);
        set_register(f, x, ((f.v[x] * 2) % 256) as u8)
    } else {
        s
    }
}

/// Whether column `col` of a sprite row is set; column 0 is the most
/// significant bit.
pub open spec fn sprite_bit(row: u8, col: int) -> bool {
    row & (0x80u8 >> (col as u8)) != 0
}

/// Whether a sprite of `rows` rows stored at `I`, drawn with its top-left
/// corner at `(left, top)`, has a set bit on cell `(cx, cy)`. Both axes wrap
/// around the screen edges.
pub open spec fn sprite_covers(s: State, left: int, top: int, rows: int, cx: int, cy: int) -> bool {
    let row = (cy - top) % (SCREEN_HEIGHT as int);
    let col = (cx - left) % (SCREEN_WIDTH as int);
    row < rows && col < 8 && sprite_bit(s.memory[(s.i + row) % (MEMORY_SIZE as int)], col)
}

/// [`sprite_covers`] for the cell stored at index `p` of the framebuffer.
pub open spec fn sprite_covers_cell(s: State, left: int, top: int, rows: int, p: int) -> bool {
    sprite_covers(s, left, top, rows, p % (SCREEN_WIDTH as int), p / (SCREEN_WIDTH as int))
}

/// Whether drawing the sprite turns off a pixel that was lit.
pub open spec fn sprite_collides(s: State, left: int, top: int, rows: int) -> bool {
    exists|p: int|
        0 <= p < SCREEN_SIZE && s.screen[p] && #[trigger] sprite_covers_cell(s, left, top, rows, p)
}

/// The column at which `DXYN` draws: `VX`, read after `VF` has been cleared.
pub open spec fn draw_left(s: State, x: int) -> int {
    set_flag(s, false).v[x] as int
}

/// The row at which `DXYN` draws: `VY`, read after `VF` has been cleared.
pub open spec fn draw_top(s: State, y: int) -> int {
    set_flag(s, false).v[y] as int
}

/// `DXYN`: XORs the `rows`-row sprite at `I` onto the screen at
/// `(VX, VY)` and leaves in `VF` whether a lit pixel went off. `VF` is
/// cleared before the coordinates are read. With `rows == 0` nothing is drawn.
pub open spec fn draw(s: State, x: int, y: int, rows: int) -> State {
    let left = draw_left(s, x);
    let top = draw_top(s, y);
    State {
        screen: Seq::new(
            SCREEN_SIZE as nat,
            |p: int| s.screen[p] ^ sprite_covers_cell(s, left, top, rows, p),
        ),
        ..set_flag(s, sprite_collides(s, left, top, rows))
    }
}

/// Whether logical key `k` is held down. Keys outside `0..=15` are never down.
pub open spec fn key_down(keys: Seq<bool>, k: u8) -> bool {
    k < KEY_COUNT && keys[k as int]
}

/// Whether logical key `k` is up. Keys outside `0..=15` are never up either.
pub open spec fn key_up(keys: Seq<bool>, k: u8) -> bool {
    k < KEY_COUNT && !keys[k as int]
}

/// The lowest pressed key below `limit`, or `limit` if none of them is pressed.
pub open spec fn first_pressed(keys: Seq<bool>, limit: int) -> int
    decreases limit,
{
    if limit <= 0 {
        0
    } else {
        let before = first_pressed(keys, limit - 1);
        if before < limit - 1 || keys[limit - 1] {
            before
        } else {
            limit
        }
    }
}

/// [`first_pressed`] finds a pressed key exactly when there is one below
/// `limit`, and then the lowest.
pub proof fn lemma_first_pressed(keys: Seq<bool>, limit: int)
    requires
        0 <= limit,
    ensures
        0 <= first_pressed(keys, limit) <= limit,
        first_pressed(keys, limit) < limit ==> keys[first_pressed(keys, limit)],
        forall|j: int| 0 <= j < first_pressed(keys, limit) ==> !#[trigger] keys[j],
    decreases limit,
{
    if limit > 0 {
        lemma_first_pressed(keys, limit - 1);
    }
}

/// `FX0A`: waits for a key. With a key down, `VX` receives the lowest pressed
/// key; with none, nothing changes and the instruction runs again.
pub open spec fn wait_key(s: State, x: int, keys: Seq<bool>) -> Effect {
    let k = first_pressed(keys, KEY_COUNT as int);
    if k < KEY_COUNT {
        proceed(set_register(s, x, k as u8))
    } else {
        Effect { state: s, advance: false }
    }
}

/// `FX33`: the decimal digits of `VX` at `I`, `I + 1` and `I + 2`.
pub open spec fn store_bcd(s: State, x: int) -> State {
    let vx = s.v[x];
    let size = MEMORY_SIZE as int;
    State {
        memory: s.memory.update(s.i, vx / 100u8).update((s.i + 1) % size, (vx / 10u8) % 10u8).update(
            (s.i + 2) % size,
            vx % 10u8,
        ),
        ..s
    }
}

/// `FX55`: registers `V0`..=`VX` stored at `I`, `I + 1`, ...
pub open spec fn store_registers(s: State, x: int) -> State {
    State {
        memory: Seq::new(
            MEMORY_SIZE as nat,
            |a: int|
                {
                    let k = (a - s.i) % (MEMORY_SIZE as int);
                    if k <= x {
                        s.v[k]
                    } else {
                        s.memory[a]
                    }
                },
        ),
        ..s
    }
}

/// `FX65`: registers `V0`..=`VX` loaded from `I`, `I + 1`, ...
pub open spec fn load_registers(s: State, x: int) -> State {
    State {
        v: Seq::new(
            REGISTER_COUNT as nat,
            |k: int|
                if k <= x {
                    s.memory[(s.i + k) % (MEMORY_SIZE as int)]
                } else {
                    s.v[k]
                },
        ),
        ..s
    }
}

/// `EXNN`: the two key-conditional skips.
pub open spec fn key_skip(s: State, x: int, lo: u8, keys: Seq<bool>) -> Effect {
    if lo == 0x9E {
        skip_if(s, key_down(keys, s.v[x]))
    } else if lo == 0xA1 {
        skip_if(s, key_up(keys, s.v[x]))
    } else {
        proceed(s)
    }
}

/// `FXNN`: timers, key wait, index arithmetic and memory transfers.
pub open spec fn misc(s: State, x: int, lo: u8, keys: Seq<bool>) -> Effect {
    if lo == 0x07 {
        proceed(set_register(s, x, s.delay_timer))
    } else if lo == 0x0A {
        wait_key(s, x, keys)
    } else if lo == 0x15 {
        proceed(State { delay_timer: s.v[x], ..s })
    } else if lo == 0x18 {
        proceed(State { sound_timer: s.v[x], ..s })
    } else if lo == 0x1E {
        proceed(set_index(s, (s.i + s.v[x]) % (MEMORY_SIZE as int)))
    } else if lo == 0x29 {
        proceed(set_index(s, s.v[x] * GLYPH_SIZE))
    } else if lo == 0x33 {
        proceed(store_bcd(s, x))
    } else if lo == 0x55 {
        proceed(store_registers(s, x))
    } else if lo == 0x65 {
        proceed(load_registers(s, x))
    } else {
        proceed(s)
    }
}

/// The opcode family of an instruction: its top nibble.
pub open spec fn family(hi: u8) -> int {
    hi as int / 16
}

/// The effect of the instruction `hi lo` on `s`, with `keys` the keys held
/// down and `random` the byte drawn for `CXNN`. Patterns that are not
/// instructions change nothing and let the program counter advance.
pub open spec fn execute(s: State, hi: u8, lo: u8, keys: Seq<bool>, random: u8) -> Effect {
    let f = family(hi);
    let x = hi as int % 16;
    let y = lo as int / 16;
    let n = lo as int % 16;
    let nnn = x * 256 + lo;
    if f == 0x0 {
        if x == 0 && lo == 0xE0 {
            proceed(clear_screen(s))
        } else if x == 0 && lo == 0xEE {
            proceed(return_from_call(s))
        } else {
            proceed(s)
        }
    } else if f == 0x1 {
        jump(s, nnn)
    } else if f == 0x2 {
        call(s, nnn)
    } else if f == 0x3 {
        skip_if(s, s.v[x] == lo)
    } else if f == 0x4 {
        skip_if(s, s.v[x] != lo)
    } else if f == 0x5 {
        if n == 0 {
            skip_if(s, s.v[x] == s.v[y])
        } else {
            proceed(s)
        }
    } else if f == 0x6 {
        proceed(set_register(s, x, lo))
    } else if f == 0x7 {
        proceed(set_register(s, x, ((s.v[x] + lo) % 256) as u8))
    } else if f == 0x8 {
        proceed(alu(s, x, y, n))
    } else if f == 0x9 {
        if n == 0 {
            skip_if(s, s.v[x] != s.v[y])
        } else {
            proceed(s)
        }
    } else if f == 0xA {
        proceed(set_index(s, nnn))
    } else if f == 0xB {
        jump(s, s.v[0] + nnn)
    } else if f == 0xC {
        proceed(set_register(s, x, lo & random))
    } else if f == 0xD {
        proceed(draw(s, x, y, n))
    } else if f == 0xE {
        key_skip(s, x, lo, keys)
    } else {
        misc(s, x, lo, keys)
    }
}

/// The first byte of the instruction at the program counter.
pub open spec fn fetch_hi(s: State) -> u8 {
    s.memory[s.pc]
}

/// The second byte of the instruction at the program counter; the address
/// wraps at the end of memory.
pub open spec fn fetch_lo(s: State) -> u8 {
    s.memory[(s.pc + 1) % (MEMORY_SIZE as int)]
}

/// Whether the instruction at the program counter is `CXNN`, the one
/// instruction whose effect depends on the random byte.
pub open spec fn fetches_random(s: State) -> bool {
    family(fetch_hi(s)) == 0xC
}

/// One fetch/decode/execute cycle: the instruction at `PC` is executed, `PC`
/// moves on by 2 unless the instruction said otherwise, and `PC` is reduced
/// modulo the memory size.
pub open spec fn step(s: State, keys: Seq<bool>, random: u8) -> State {
    let e = execute(s, fetch_hi(s), fetch_lo(s), keys, random);
    let pc = if e.advance {
        e.state.pc + 2
    } else {
        e.state.pc
    };
    State { pc: pc % (MEMORY_SIZE as int), ..e.state }
}

/// Every instruction keeps a valid state coherent, and leaves the program
/// counter at most `0xFF` past the end of memory, where the step wraps it.
pub proof fn lemma_execute_keeps_coherent(
    s: State,
    hi: u8,
    lo: u8,
    keys: Seq<bool>,
    random: u8,
)
    requires
        s.valid(),
    ensures
        execute(s, hi, lo, keys, random).state.coherent(),
        0 <= execute(s, hi, lo, keys, random).state.pc <= 0xFFF + 0xFF,
{
    if family(hi) == 0xF && lo == 0x0A {
        lemma_first_pressed(keys, KEY_COUNT as int);
    }
}

} // verus!
