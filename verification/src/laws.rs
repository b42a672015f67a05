//! Laws of the machine: facts that hold whatever state it is in, proved from
//! the definitions in [`crate::semantics`].

use crate::semantics::{
    draw_left, draw_top, execute, family, fetch_hi, fetch_lo, fetches_random, first_pressed,
    lemma_execute_keeps_coherent, lemma_first_pressed, set_flag, sprite_bit, sprite_collides,
    sprite_covers_cell, step, tick_n,
};
use crate::state::{
    State, FLAG, KEY_COUNT, MEMORY_SIZE, SCREEN_HEIGHT, SCREEN_SIZE, SCREEN_WIDTH, STACK_SIZE,
};
use crate::wrap::{lemma_grid_position, lemma_wrapped_offset};
use vstd::arithmetic::div_mod::lemma_mod_bound;
use vstd::prelude::*;

verus! {

/// A step keeps a valid state valid. In particular the program counter is
/// within memory after every step, whatever the instruction was.
pub proof fn lemma_step_keeps_valid(s: State, keys: Seq<bool>, random: u8)
    requires
        s.valid(),
    ensures
        step(s, keys, random).valid(),
        0 <= step(s, keys, random).pc <= 4095,
{
    lemma_execute_keeps_coherent(s, fetch_hi(s), fetch_lo(s), keys, random);
}

/// Only `CXNN` looks at the random byte: a step on any other instruction
/// gives the same state whatever byte is supplied.
pub proof fn lemma_random_byte_only_read_by_cxnn(s: State, keys: Seq<bool>, r1: u8, r2: u8)
    requires
        !fetches_random(s),
    ensures
        step(s, keys, r1) == step(s, keys, r2),
{
}

/// After a step that executes `00E0`, every pixel is off.
pub proof fn lemma_clear_screen_blanks_every_pixel(
    s: State,
    keys: Seq<bool>,
    random: u8,
    x: int,
    y: int,
)
    requires
        s.valid(),
        fetch_hi(s) == 0x00,
        fetch_lo(s) == 0xE0,
        0 <= x < SCREEN_WIDTH,
        0 <= y < SCREEN_HEIGHT,
    ensures
        !step(s, keys, random).pixel(x, y),
{
}

/// A call followed by a return resumes at the instruction after the call
/// and leaves the stack as deep as it was, provided the stack had room for
/// the return address.
pub proof fn lemma_call_then_return(
    s: State,
    keys1: Seq<bool>,
    random1: u8,
    keys2: Seq<bool>,
    random2: u8,
)
    requires
        s.valid(),
        family(fetch_hi(s)) == 0x2,
        s.sp < STACK_SIZE,
        fetch_hi(step(s, keys1, random1)) == 0x00,
        fetch_lo(step(s, keys1, random1)) == 0xEE,
    ensures
        step(s, keys1, random1).pc == (fetch_hi(s) % 16) * 256 + fetch_lo(s),
        step(step(s, keys1, random1), keys2, random2).pc == (s.pc + 2) % (MEMORY_SIZE as int),
        step(step(s, keys1, random1), keys2, random2).sp == s.sp,
{
}

/// Counting a timer down `n` times takes `n` off it, stopping at zero.
pub open spec fn ticked(t: u8, n: nat) -> u8 {
    if t >= n {
        (t - n) as u8
    } else {
        0
    }
}

/// However often the timers are counted down, neither goes below zero:
/// after `n` ticks each holds what is left of it, or zero if `n` ticks
/// exhaust it. Nothing else changes.
pub proof fn lemma_timers_stop_at_zero(s: State, n: nat)
    ensures
        tick_n(s, n) == (State {
            delay_timer: ticked(s.delay_timer, n),
            sound_timer: ticked(s.sound_timer, n),
            ..s
        }),
        tick_n(s, n).delay_timer >= 0,
        tick_n(s, n).sound_timer >= 0,
    decreases n,
{
    if n > 0 {
        lemma_timers_stop_at_zero(s, (n - 1) as nat);
    }
}

/// `FX0A` with no key down changes nothing at all: the program counter stays
/// on the instruction, which runs again at the next step.
pub proof fn lemma_wait_key_blocks(s: State, keys: Seq<bool>, random: u8)
    requires
        s.valid(),
        family(fetch_hi(s)) == 0xF,
        fetch_lo(s) == 0x0A,
        forall|k: int| 0 <= k < KEY_COUNT ==> !keys[k],
    ensures
        step(s, keys, random) == s,
{
    lemma_first_pressed(keys, KEY_COUNT as int);
}

/// `FX0A` with a key down puts the lowest pressed key in `VX` and moves on
/// to the following instruction.
pub proof fn lemma_wait_key_takes_lowest(s: State, keys: Seq<bool>, random: u8, k: int)
    requires
        s.valid(),
        family(fetch_hi(s)) == 0xF,
        fetch_lo(s) == 0x0A,
        0 <= k < KEY_COUNT,
        keys[k],
        forall|j: int| 0 <= j < k ==> !keys[j],
    ensures
        step(s, keys, random).v == s.v.update(fetch_hi(s) as int % 16, k as u8),
        step(s, keys, random).pc == (s.pc + 2) % (MEMORY_SIZE as int),
{
    lemma_first_pressed(keys, KEY_COUNT as int);
    assert(first_pressed(keys, KEY_COUNT as int) == k);
}

/// A draw wraps around the edges of the screen: pixel `(row, col)` of the
/// sprite goes to the cell `col` columns right of `VX` and `row` rows below
/// `VY`, columns counted modulo the screen's width and rows modulo its
/// height. That cell is flipped exactly when the pixel is set.
pub proof fn lemma_draw_wraps_around_edges(
    s: State,
    keys: Seq<bool>,
    random: u8,
    row: int,
    col: int,
)
    requires
        s.valid(),
        family(fetch_hi(s)) == 0xD,
        0 <= row < fetch_lo(s) % 16,
        0 <= col < 8,
    ensures
        ({
            let cx = (draw_left(s, fetch_hi(s) as int % 16) + col) % (SCREEN_WIDTH as int);
            let cy = (draw_top(s, fetch_lo(s) as int / 16) + row) % (SCREEN_HEIGHT as int);
            &&& 0 <= cx < SCREEN_WIDTH
            &&& 0 <= cy < SCREEN_HEIGHT
            &&& step(s, keys, random).pixel(cx, cy) == (s.pixel(cx, cy) ^ sprite_bit(
                s.memory[(s.i + row) % (MEMORY_SIZE as int)],
                col,
            ))
        }),
{
    let left = draw_left(s, fetch_hi(s) as int % 16);
    let top = draw_top(s, fetch_lo(s) as int / 16);
    let cx = (left + col) % 64;
    let cy = (top + row) % 32;
    lemma_mod_bound(left + col, 64);
    lemma_mod_bound(top + row, 32);
    lemma_wrapped_offset(left, col, cx, 64);
    lemma_wrapped_offset(top, row, cy, 32);
    lemma_grid_position(cy, cx, 64);
    assert(cy * 64 + cx == 64 * cy + cx);
}

/// Whether the sprite that the `DXYN` at the program counter draws has a
/// set bit on the cell at index `p` of the framebuffer.
pub open spec fn drawn_sprite_covers(s: State, p: int) -> bool {
    sprite_covers_cell(
        s,
        draw_left(s, fetch_hi(s) as int % 16),
        draw_top(s, fetch_lo(s) as int / 16),
        fetch_lo(s) as int % 16,
        p,
    )
}

/// Two draws of one sprite at one place, as instructions given directly.
proof fn lemma_draw_twice(
    s: State,
    hi: u8,
    lo: u8,
    keys1: Seq<bool>,
    random1: u8,
    keys2: Seq<bool>,
    random2: u8,
)
    requires
        s.valid(),
        family(hi) == 0xD,
    ensures
        ({
            let once = execute(s, hi, lo, keys1, random1).state;
            let twice = execute(once, hi, lo, keys2, random2).state;
            let left = draw_left(s, hi as int % 16);
            let top = draw_top(s, lo as int / 16);
            let rows = lo as int % 16;
            &&& once.pc == s.pc
            &&& twice.pc == s.pc
            &&& once.memory == s.memory
            &&& forall|p: int|
                0 <= p < SCREEN_SIZE ==> once.screen[p] == (s.screen[p] ^ #[trigger] sprite_covers_cell(
                    s,
                    left,
                    top,
                    rows,
                    p,
                ))
            &&& once.v[FLAG as int] == if sprite_collides(s, left, top, rows) {
                1u8
            } else {
                0u8
            }
            &&& twice.screen == s.screen
            &&& twice.v[FLAG as int] == 1 <==> exists|p: int|
                0 <= p < SCREEN_SIZE && !s.screen[p] && #[trigger] sprite_covers_cell(
                    s,
                    left,
                    top,
                    rows,
                    p,
                )
            &&& twice.v[FLAG as int] == 0 || twice.v[FLAG as int] == 1
        }),
{
    let once = execute(s, hi, lo, keys1, random1).state;
    let twice = execute(once, hi, lo, keys2, random2).state;
    let left = draw_left(s, hi as int % 16);
    let top = draw_top(s, lo as int / 16);
    let rows = lo as int % 16;
    assert(set_flag(once, false).v =~= set_flag(s, false).v);
    assert forall|p: int| 0 <= p < SCREEN_SIZE implies sprite_covers_cell(once, left, top, rows, p)
        == #[trigger] sprite_covers_cell(s, left, top, rows, p) by {}
    assert(twice.screen =~= s.screen);
    if sprite_collides(once, left, top, rows) {
        let p = choose|p: int|
            0 <= p < SCREEN_SIZE && once.screen[p] && #[trigger] sprite_covers_cell(
                once,
                left,
                top,
                rows,
                p,
            );
        assert(!s.screen[p] && sprite_covers_cell(s, left, top, rows, p));
    }
    if exists|p: int|
        0 <= p < SCREEN_SIZE && !s.screen[p] && #[trigger] sprite_covers_cell(s, left, top, rows, p) {
        let p = choose|p: int|
            0 <= p < SCREEN_SIZE && !s.screen[p] && #[trigger] sprite_covers_cell(
                s,
                left,
                top,
                rows,
                p,
            );
        assert(once.screen[p] && sprite_covers_cell(once, left, top, rows, p));
    }
}

/// Drawing the same sprite twice at the same place restores the screen, and
/// the second draw reports a collision exactly when the sprite has a set bit
/// on a cell that was dark before the first draw.
pub proof fn lemma_draw_twice_restores_screen(
    s: State,
    keys1: Seq<bool>,
    random1: u8,
    keys2: Seq<bool>,
    random2: u8,
)
    requires
        s.valid(),
        family(fetch_hi(s)) == 0xD,
        fetch_hi(step(s, keys1, random1)) == fetch_hi(s),
        fetch_lo(step(s, keys1, random1)) == fetch_lo(s),
    ensures
        ({
            let twice = step(step(s, keys1, random1), keys2, random2);
            &&& twice.screen == s.screen
            &&& twice.v[FLAG as int] == 1 <==> exists|p: int|
                0 <= p < SCREEN_SIZE && !s.screen[p] && #[trigger] drawn_sprite_covers(s, p)
            &&& twice.v[FLAG as int] == 0 || twice.v[FLAG as int] == 1
        }),
{
    lemma_draw_twice(s, fetch_hi(s), fetch_lo(s), keys1, random1, keys2, random2);
    let left = draw_left(s, fetch_hi(s) as int % 16);
    let top = draw_top(s, fetch_lo(s) as int / 16);
    let rows = fetch_lo(s) as int % 16;
    assert forall|p: int| #[trigger]
        drawn_sprite_covers(s, p) == sprite_covers_cell(s, left, top, rows, p) by {}
    if exists|p: int|
        0 <= p < SCREEN_SIZE && !s.screen[p] && #[trigger] drawn_sprite_covers(s, p) {
        let p = choose|p: int|
            0 <= p < SCREEN_SIZE && !s.screen[p] && #[trigger] drawn_sprite_covers(s, p);
        assert(sprite_covers_cell(s, left, top, rows, p));
    }
    if exists|p: int|
        0 <= p < SCREEN_SIZE && !s.screen[p] && #[trigger] sprite_covers_cell(s, left, top, rows, p) {
        let p = choose|p: int|
            0 <= p < SCREEN_SIZE && !s.screen[p] && #[trigger] sprite_covers_cell(
                s,
                left,
                top,
                rows,
                p,
            );
        assert(drawn_sprite_covers(s, p));
    }
}

/// A sprite with at least one set bit, drawn where the screen is dark,
/// lights its pixels without a collision; drawn once more at the same place
/// it turns all of them off again and sets `VF` to 1.
pub proof fn lemma_draw_twice_clears_sprite(
    s: State,
    keys1: Seq<bool>,
    random1: u8,
    keys2: Seq<bool>,
    random2: u8,
)
    requires
        s.valid(),
        family(fetch_hi(s)) == 0xD,
        fetch_hi(step(s, keys1, random1)) == fetch_hi(s),
        fetch_lo(step(s, keys1, random1)) == fetch_lo(s),
        exists|p: int| 0 <= p < SCREEN_SIZE && #[trigger] drawn_sprite_covers(s, p),
        forall|p: int| 0 <= p < SCREEN_SIZE && #[trigger] drawn_sprite_covers(s, p) ==> !s.screen[p],
    ensures
        ({
            let once = step(s, keys1, random1);
            let twice = step(once, keys2, random2);
            &&& once.v[FLAG as int] == 0
            &&& twice.v[FLAG as int] == 1
            &&& forall|p: int|
                0 <= p < SCREEN_SIZE && #[trigger] drawn_sprite_covers(s, p) ==> once.screen[p]
                    && !twice.screen[p]
        }),
{
    let left = draw_left(s, fetch_hi(s) as int % 16);
    let top = draw_top(s, fetch_lo(s) as int / 16);
    let rows = fetch_lo(s) as int % 16;
    lemma_draw_twice(s, fetch_hi(s), fetch_lo(s), keys1, random1, keys2, random2);
    lemma_draw_twice_restores_screen(s, keys1, random1, keys2, random2);
    let lit = choose|p: int| 0 <= p < SCREEN_SIZE && #[trigger] drawn_sprite_covers(s, p);
    assert(!s.screen[lit] && drawn_sprite_covers(s, lit));
    if sprite_collides(s, left, top, rows) {
        let p = choose|p: int|
            0 <= p < SCREEN_SIZE && s.screen[p] && #[trigger] sprite_covers_cell(
                s,
                left,
                top,
                rows,
                p,
            );
        assert(drawn_sprite_covers(s, p));
    }
    assert forall|p: int| 0 <= p < SCREEN_SIZE && #[trigger] drawn_sprite_covers(s, p) implies step(
        s,
        keys1,
        random1,
    ).screen[p] by {
        assert(sprite_covers_cell(s, left, top, rows, p));
    }
}

} // verus!
