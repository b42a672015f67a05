//! Arithmetic on axes that wrap around: memory addresses modulo the memory
//! size, and screen coordinates modulo the screen's width and height.

use vstd::arithmetic::div_mod::{lemma_fundamental_div_mod, lemma_fundamental_div_mod_converse};
use vstd::arithmetic::mul::{lemma_mul_is_commutative, lemma_mul_unary_negation};
use vstd::prelude::*;

verus! {

/// On an axis of `n` positions that wraps around, `c` lies `off` positions
/// past `base` exactly when it is the position that `base + off` wraps to.
pub proof fn lemma_wrapped_offset(base: int, off: int, c: int, n: int)
    requires
        0 <= off < n,
        0 <= c < n,
    ensures
        (c - base) % n == off <==> c == (base + off) % n,
{
    if (c - base) % n == off {
        let q = (c - base) / n;
        lemma_fundamental_div_mod(c - base, n);
        lemma_mul_is_commutative(n, q);
        lemma_mul_unary_negation(q, n);
        lemma_fundamental_div_mod_converse(base + off, n, -q, c);
    }
    if c == (base + off) % n {
        let q = (base + off) / n;
        lemma_fundamental_div_mod(base + off, n);
        lemma_mul_is_commutative(n, q);
        lemma_mul_unary_negation(q, n);
        lemma_fundamental_div_mod_converse(c - base, n, -q, off);
    }
}

/// A position on a grid `width` wide, stored row by row, determines its row
/// and column.
pub proof fn lemma_grid_position(row: int, col: int, width: int)
    requires
        0 <= col < width,
    ensures
        (width * row + col) / width == row,
        (width * row + col) % width == col,
{
    lemma_mul_is_commutative(width, row);
    lemma_fundamental_div_mod_converse(width * row + col, width, row, col);
}

} // verus!
