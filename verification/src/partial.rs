//! The instructions that work through several cells in turn, part of the way
//! through: what the state is after some of the cells, and what the next
//! cell adds. The interpreter's loops are proved against these.

use crate::semantics::{
    draw, draw_left, draw_top, load, load_program, load_registers, set_flag, sprite_bit,
    sprite_collides, sprite_covers_cell, store_registers,
};
use crate::state::{
    State, MEMORY_SIZE, PROGRAM_START, REGISTER_COUNT, SCREEN_HEIGHT, SCREEN_SIZE, SCREEN_WIDTH,
};
use crate::wrap::{lemma_grid_position, lemma_wrapped_offset};
use vstd::arithmetic::div_mod::{lemma_fundamental_div_mod, lemma_mod_bound};
use vstd::prelude::*;

verus! {

/// Whether the sprite has a set bit on the cell at index `p` among the pixels
/// drawn so far: all of the rows above `row`, and the columns left of `col`
/// in row `row`.
pub open spec fn covers_until(s: State, left: int, top: int, row: int, col: int, p: int) -> bool {
    let r = (p / (SCREEN_WIDTH as int) - top) % (SCREEN_HEIGHT as int);
    let c = (p % (SCREEN_WIDTH as int) - left) % (SCREEN_WIDTH as int);
    (r < row || (r == row && c < col)) && c < 8 && sprite_bit(
        s.memory[(s.i + r) % (MEMORY_SIZE as int)],
        c,
    )
}

/// Whether one of the pixels drawn so far landed on a lit cell.
pub open spec fn collides_until(s: State, left: int, top: int, row: int, col: int) -> bool {
    exists|p: int|
        0 <= p < SCREEN_SIZE && s.screen[p] && #[trigger] covers_until(s, left, top, row, col, p)
}

/// The state part of the way through a draw, with the pixels drawn so far.
pub open spec fn drawn_until(s: State, left: int, top: int, row: int, col: int) -> State {
    State {
        screen: Seq::new(
            SCREEN_SIZE as nat,
            |p: int| s.screen[p] ^ covers_until(s, left, top, row, col, p),
        ),
        ..set_flag(s, collides_until(s, left, top, row, col))
    }
}

/// The cell that pixel `(row, col)` of a sprite lands on, as a screen index.
pub open spec fn cell_of(left: int, top: int, row: int, col: int) -> int {
    SCREEN_WIDTH * ((top + row) % (SCREEN_HEIGHT as int)) + (left + col) % (SCREEN_WIDTH as int)
}

/// Pixel `(row, col)` lands on one cell, and is the only pixel of the sprite
/// that lands there.
pub proof fn lemma_cell(left: int, top: int, row: int, col: int, p: int)
    requires
        0 <= row < SCREEN_HEIGHT,
        0 <= col < SCREEN_WIDTH,
        0 <= p < SCREEN_SIZE,
    ensures
        0 <= cell_of(left, top, row, col) < SCREEN_SIZE,
        p == cell_of(left, top, row, col) <==> (p / (SCREEN_WIDTH as int) - top) % (
        SCREEN_HEIGHT as int) == row && (p % (SCREEN_WIDTH as int) - left) % (SCREEN_WIDTH as int)
            == col,
{
    let cx = p % 64;
    let cy = p / 64;
    let tx = (left + col) % 64;
    let ty = (top + row) % 32;
    lemma_mod_bound(left + col, 64);
    lemma_mod_bound(top + row, 32);
    lemma_fundamental_div_mod(p, 64);
    lemma_mod_bound(p, 64);
    lemma_grid_position(ty, tx, 64);
    lemma_wrapped_offset(top, row, cy, 32);
    lemma_wrapped_offset(left, col, cx, 64);
}

/// Before the first pixel, nothing is drawn: only `VF` has been cleared.
pub proof fn lemma_nothing_drawn(s: State, left: int, top: int)
    requires
        s.shaped(),
    ensures
        drawn_until(s, left, top, 0, 0) == set_flag(s, false),
{
    assert forall|p: int| !#[trigger] covers_until(s, left, top, 0, 0, p) by {
        lemma_mod_bound(p / 64 - top, 32);
        lemma_mod_bound(p % 64 - left, 64);
    }
    assert(drawn_until(s, left, top, 0, 0).screen =~= s.screen);
}

/// What drawing pixel `(row, col)` adds to the pixels drawn so far: its cell
/// is flipped if the pixel is set, and a collision is recorded if the cell
/// was lit as well.
pub proof fn lemma_next_pixel(s: State, left: int, top: int, row: int, col: int)
    requires
        s.shaped(),
        0 <= row < SCREEN_HEIGHT,
        0 <= col < 8,
    ensures
        ({
            let cell = cell_of(left, top, row, col);
            let bit = sprite_bit(s.memory[(s.i + row) % (MEMORY_SIZE as int)], col);
            let sofar = drawn_until(s, left, top, row, col);
            &&& 0 <= cell < SCREEN_SIZE
            &&& sofar.screen[cell] == s.screen[cell]
            &&& drawn_until(s, left, top, row, col + 1) == (State {
                screen: sofar.screen.update(cell, s.screen[cell] ^ bit),
                ..set_flag(s, collides_until(s, left, top, row, col) || (s.screen[cell] && bit))
            })
        }),
{
    let cell = cell_of(left, top, row, col);
    let bit = sprite_bit(s.memory[(s.i + row) % (MEMORY_SIZE as int)], col);
    let sofar = drawn_until(s, left, top, row, col);
    let next = drawn_until(s, left, top, row, col + 1);
    lemma_cell(left, top, row, col, cell);
    assert forall|p: int| 0 <= p < SCREEN_SIZE implies #[trigger] covers_until(
        s,
        left,
        top,
        row,
        col + 1,
        p,
    ) == (covers_until(s, left, top, row, col, p) || (p == cell && bit)) by {
        lemma_cell(left, top, row, col, p);
    }
    assert(!covers_until(s, left, top, row, col, cell));
    assert(next.screen =~= sofar.screen.update(cell, s.screen[cell] ^ bit));
    if collides_until(s, left, top, row, col + 1) {
        let p = choose|p: int|
            0 <= p < SCREEN_SIZE && s.screen[p] && #[trigger] covers_until(
                s,
                left,
                top,
                row,
                col + 1,
                p,
            );
        assert(p == cell || covers_until(s, left, top, row, col, p));
    }
    if collides_until(s, left, top, row, col) {
        let p = choose|p: int|
            0 <= p < SCREEN_SIZE && s.screen[p] && #[trigger] covers_until(
                s,
                left,
                top,
                row,
                col,
                p,
            );
        assert(covers_until(s, left, top, row, col + 1, p));
    }
    if s.screen[cell] && bit {
        assert(covers_until(s, left, top, row, col + 1, cell));
    }
    assert(collides_until(s, left, top, row, col + 1) == (collides_until(s, left, top, row, col)
        || (s.screen[cell] && bit)));
}

/// A finished row is the start of the next.
pub proof fn lemma_next_row(s: State, left: int, top: int, row: int)
    ensures
        drawn_until(s, left, top, row, 8) == drawn_until(s, left, top, row + 1, 0),
{
    assert forall|p: int| #[trigger]
        covers_until(s, left, top, row, 8, p) == covers_until(s, left, top, row + 1, 0, p) by {
        lemma_mod_bound(p % 64 - left, 64);
    }
    if collides_until(s, left, top, row, 8) {
        let p = choose|p: int|
            0 <= p < SCREEN_SIZE && s.screen[p] && #[trigger] covers_until(s, left, top, row, 8, p);
        assert(covers_until(s, left, top, row + 1, 0, p));
    }
    if collides_until(s, left, top, row + 1, 0) {
        let p = choose|p: int|
            0 <= p < SCREEN_SIZE && s.screen[p] && #[trigger] covers_until(
                s,
                left,
                top,
                row + 1,
                0,
                p,
            );
        assert(covers_until(s, left, top, row, 8, p));
    }
    assert(drawn_until(s, left, top, row, 8).screen =~= drawn_until(
        s,
        left,
        top,
        row + 1,
        0,
    ).screen);
}

/// Once every row is drawn, the draw is complete.
pub proof fn lemma_all_rows(s: State, x: int, y: int, rows: int)
    ensures
        drawn_until(s, draw_left(s, x), draw_top(s, y), rows, 0) == draw(s, x, y, rows),
{
    let left = draw_left(s, x);
    let top = draw_top(s, y);
    assert forall|p: int| #[trigger]
        covers_until(s, left, top, rows, 0, p) == sprite_covers_cell(s, left, top, rows, p) by {
        lemma_mod_bound(p % 64 - left, 64);
    }
    if collides_until(s, left, top, rows, 0) {
        let p = choose|p: int|
            0 <= p < SCREEN_SIZE && s.screen[p] && #[trigger] covers_until(s, left, top, rows, 0, p);
        assert(sprite_covers_cell(s, left, top, rows, p));
    }
    if sprite_collides(s, left, top, rows) {
        let p = choose|p: int|
            0 <= p < SCREEN_SIZE && s.screen[p] && #[trigger] sprite_covers_cell(
                s,
                left,
                top,
                rows,
                p,
            );
        assert(covers_until(s, left, top, rows, 0, p));
    }
    assert(drawn_until(s, left, top, rows, 0).screen =~= draw(s, x, y, rows).screen);
}

/// Storing no register changes nothing.
pub proof fn lemma_store_none(s: State)
    requires
        s.shaped(),
    ensures
        store_registers(s, -1) == s,
{
    assert forall|a: int| 0 <= a < MEMORY_SIZE implies store_registers(s, -1).memory[a]
        == s.memory[a] by {
        lemma_mod_bound(a - s.i, 4096);
    }
    assert(store_registers(s, -1).memory =~= s.memory);
}

/// Storing `V0`..=`VK` is storing `V0`..`VK` and then `VK` at `I + K`.
pub proof fn lemma_store_next(s: State, k: int)
    requires
        s.shaped(),
        0 <= k < REGISTER_COUNT,
    ensures
        0 <= (s.i + k) % (MEMORY_SIZE as int) < MEMORY_SIZE,
        store_registers(s, k) == (State {
            memory: store_registers(s, k - 1).memory.update(
                (s.i + k) % (MEMORY_SIZE as int),
                s.v[k],
            ),
            ..s
        }),
{
    let at = (s.i + k) % 4096;
    lemma_mod_bound(s.i + k, 4096);
    let before = store_registers(s, k - 1).memory;
    let after = store_registers(s, k).memory;
    assert forall|a: int| 0 <= a < MEMORY_SIZE implies after[a] == before.update(at, s.v[k])[a] by {
        lemma_wrapped_offset(s.i, k, a, 4096);
    }
    assert(after =~= before.update(at, s.v[k]));
}

/// Loading no register changes nothing.
pub proof fn lemma_load_none(s: State)
    requires
        s.shaped(),
    ensures
        load_registers(s, -1) == s,
{
    assert(load_registers(s, -1).v =~= s.v);
}

/// Loading `V0`..=`VK` is loading `V0`..`VK` and then `VK` from `I + K`.
pub proof fn lemma_load_next(s: State, k: int)
    requires
        s.shaped(),
        0 <= k < REGISTER_COUNT,
    ensures
        0 <= (s.i + k) % (MEMORY_SIZE as int) < MEMORY_SIZE,
        load_registers(s, k) == (State {
            v: load_registers(s, k - 1).v.update(k, s.memory[(s.i + k) % (MEMORY_SIZE as int)]),
            ..s
        }),
{
    lemma_mod_bound(s.i + k, 4096);
    assert(load_registers(s, k).v =~= load_registers(s, k - 1).v.update(
        k,
        s.memory[(s.i + k) % (MEMORY_SIZE as int)],
    ));
}

/// Loading an empty program changes nothing.
pub proof fn lemma_load_program_none(s: State)
    requires
        s.shaped(),
    ensures
        load_program(s, Seq::<u8>::empty()) == s,
{
    assert(load_program(s, Seq::<u8>::empty()).memory =~= s.memory);
}

/// Loading the first `k + 1` bytes of a program is loading the first `k`
/// and then byte `k`.
pub proof fn lemma_load_program_next(s: State, program: Seq<u8>, k: int)
    requires
        s.shaped(),
        0 <= k < program.len(),
        PROGRAM_START + k < MEMORY_SIZE,
    ensures
        load_program(s, program.take(k + 1)) == load(
            load_program(s, program.take(k)),
            k,
            program[k],
        ),
{
    assert(load_program(s, program.take(k + 1)).memory =~= load(
        load_program(s, program.take(k)),
        k,
        program[k],
    ).memory);
}

} // verus!
