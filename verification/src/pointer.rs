//! Mapping a pointer position in world space to a grid coordinate.

use vstd::prelude::*;

use crate::grid::{CellCoord, GridSize};

verus! {

/// The grid's placement in world space: a whole-unit translation of its
/// origin. A renderer's own fractional placement is rounded by the caller.
#[derive(Clone, Copy, Debug, PartialEq, Eq, Structural)]
pub struct GridTransform {
    pub offset_x: i64,
    pub offset_y: i64,
}

impl GridTransform {
    /// The identity placement: grid origin at the world origin.
    pub fn identity() -> (r: GridTransform)
        ensures
            r.offset_x == 0 && r.offset_y == 0,
    {
        GridTransform { offset_x: 0, offset_y: 0 }
    }
}

/// A payload-free signal that the active session's grid should be fully
/// reset and re-carved.
#[derive(Clone, Copy, Debug, PartialEq, Eq, Structural)]
pub struct RegenerationRequest;

/// The cell covering a world-space point, if any: the point taken to
/// grid-local space by the inverse translation, then divided by the cell
/// size, with points outside `[0, grid extent)` mapping to nothing.
pub open spec fn map_spec(px: int, py: int, g: GridSize, cs: int, t: GridTransform) -> Option<
    CellCoord,
> {
    let lx = px - t.offset_x;
    let ly = py - t.offset_y;
    if 0 <= lx && lx < g.width * cs && 0 <= ly && ly < g.height * cs {
        Some(CellCoord { x: (lx / cs) as u32, y: (ly / cs) as u32 })
    } else {
        None
    }
}

/// Maps a pointer's world position to the grid cell covering it.
pub fn map_to_cell(px: i64, py: i64, g: GridSize, cell_size: u32, t: GridTransform) -> (r: Option<
    CellCoord,
>)
    requires
        g.wf(),
        cell_size >= 1,
    ensures
        r == map_spec(px as int, py as int, g, cell_size as int, t),
{
    let lx: i128 = (px as i128) - (t.offset_x as i128);
    let ly: i128 = (py as i128) - (t.offset_y as i128);
    let cs: i128 = cell_size as i128;
    proof {
        assert((g.width as int) * (cell_size as int) < 0x1_0000_0000_0000_0000int
            && (g.height as int) * (cell_size as int) < 0x1_0000_0000_0000_0000int)
            by (nonlinear_arith)
            requires
                g.width < 0x1_0000_0000int,
                g.height < 0x1_0000_0000int,
                cell_size < 0x1_0000_0000int,
        {
        }
    }
    let wbound: i128 = (g.width as i128) * cs;
    let hbound: i128 = (g.height as i128) * cs;
    if 0 <= lx && lx < wbound && 0 <= ly && ly < hbound {
        proof {
            vstd::arithmetic::mul::lemma_mul_is_commutative(g.width as int, cs as int);
            vstd::arithmetic::mul::lemma_mul_is_commutative(g.height as int, cs as int);
            vstd::arithmetic::div_mod::lemma_multiply_divide_lt(
                lx as int, cs as int, g.width as int);
            vstd::arithmetic::div_mod::lemma_multiply_divide_lt(
                ly as int, cs as int, g.height as int);
        }
        let cx = ((lx as u128) / (cell_size as u128)) as u32;
        let cy = ((ly as u128) / (cell_size as u128)) as u32;
        Some(CellCoord { x: cx, y: cy })
    } else {
        None
    }
}

/// Turns a pointer event into a regeneration request: one is emitted exactly
/// when a fresh primary-button press maps onto a cell of the grid.
pub fn pointer_request(
    just_pressed: bool,
    px: i64,
    py: i64,
    g: GridSize,
    cell_size: u32,
    t: GridTransform,
) -> (r: Option<RegenerationRequest>)
    requires
        g.wf(),
        cell_size >= 1,
    ensures
        r is Some <==> (just_pressed && map_spec(px as int, py as int, g, cell_size as int, t)
            is Some),
{
    if just_pressed {
        match map_to_cell(px, py, g, cell_size, t) {
            Some(_) => Some(RegenerationRequest),
            None => None,
        }
    } else {
        None
    }
}

} // verus!
