//! Locating the wall cell between two carved cells.

use vstd::prelude::*;

use crate::grid::{CellCoord, GridSize, in_bounds};

verus! {

/// `a` and `b` address cells exactly two apart on one axis and aligned on the
/// other, the distance at which the carve algorithm skips over one wall cell.
pub open spec fn two_apart(a: CellCoord, b: CellCoord) -> bool {
    (a.x == b.x && (a.y + 2 == b.y || b.y + 2 == a.y)) || (a.y == b.y && (a.x + 2 == b.x || b.x
        + 2 == a.x))
}

/// The cell halfway between `a` and `b`, when it lies inside the grid.
pub open spec fn wall_spec(a: CellCoord, b: CellCoord, g: GridSize) -> Option<CellCoord> {
    let mid = CellCoord { x: ((a.x + b.x) / 2) as u32, y: ((a.y + b.y) / 2) as u32 };
    if in_bounds(mid, g) {
        Some(mid)
    } else {
        None
    }
}

/// The coordinate of the wall cell lying between `current` and `next`, or
/// `None` if that midpoint falls outside the grid.
pub fn find_wall(current: CellCoord, next: CellCoord, g: GridSize) -> (r: Option<CellCoord>)
    requires
        two_apart(current, next),
    ensures
        r == wall_spec(current, next, g),
{
    let mx = (((current.x as u64) + (next.x as u64)) / 2) as u32;
    let my = (((current.y as u64) + (next.y as u64)) / 2) as u32;
    let mid = CellCoord { x: mx, y: my };
    if mid.x < g.width && mid.y < g.height {
        Some(mid)
    } else {
        None
    }
}

/// The wall between two cells is their arithmetic midpoint, and it is the
/// same cell seen from either side.
pub proof fn lemma_wall_midpoint(a: CellCoord, b: CellCoord, g: GridSize)
    requires
        two_apart(a, b),
    ensures
        wall_spec(a, b, g) == wall_spec(b, a, g),
        wall_spec(a, b, g) matches Some(w) ==> 2 * w.x == a.x + b.x && 2 * w.y == a.y + b.y,
{
    lemma_half_of_even(a.x as int, b.x as int);
    lemma_half_of_even(a.y as int, b.y as int);
}

/// Between two in-bounds cells two apart there is always a wall cell: the
/// midpoint of two in-bounds coordinates cannot leave the grid.
pub proof fn lemma_wall_exists(a: CellCoord, b: CellCoord, g: GridSize)
    requires
        two_apart(a, b),
        in_bounds(a, g),
        in_bounds(b, g),
    ensures
        wall_spec(a, b, g) is Some,
{
    lemma_half_of_even(a.x as int, b.x as int);
    lemma_half_of_even(a.y as int, b.y as int);
}

/// Halving the sum of two numbers that are equal or two apart is exact.
proof fn lemma_half_of_even(u: int, v: int)
    requires
        u == v || u + 2 == v || v + 2 == u,
    ensures
        2 * ((u + v) / 2) == u + v,
{
    if u == v {
        vstd::arithmetic::div_mod::lemma_fundamental_div_mod_converse(u + v, 2, u, 0);
    } else if u + 2 == v {
        vstd::arithmetic::div_mod::lemma_fundamental_div_mod_converse(u + v, 2, u + 1, 0);
    } else {
        vstd::arithmetic::div_mod::lemma_fundamental_div_mod_converse(u + v, 2, v + 1, 0);
    }
}

} // verus!
