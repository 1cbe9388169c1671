//! The step-2 cardinal neighbors of a cell.

use vstd::prelude::*;

use crate::grid::{CellCoord, GridSize, in_bounds};
use crate::wall::two_apart;

verus! {

/// The cells two steps from `c` in each cardinal direction — up, down, left,
/// right — keeping only those inside a grid with extents `g`.
pub open spec fn neighbors_spec(c: CellCoord, g: GridSize) -> Seq<CellCoord> {
    let s0 = Seq::<CellCoord>::empty();
    let s1 = if c.x < g.width && c.y + 2 < g.height {
        s0.push(CellCoord { x: c.x, y: (c.y + 2) as u32 })
    } else {
        s0
    };
    let s2 = if c.x < g.width && c.y >= 2 && c.y - 2 < g.height {
        s1.push(CellCoord { x: c.x, y: (c.y - 2) as u32 })
    } else {
        s1
    };
    let s3 = if c.y < g.height && c.x >= 2 && c.x - 2 < g.width {
        s2.push(CellCoord { x: (c.x - 2) as u32, y: c.y })
    } else {
        s2
    };
    if c.y < g.height && c.x + 2 < g.width {
        s3.push(CellCoord { x: (c.x + 2) as u32, y: c.y })
    } else {
        s3
    }
}

/// Computes the step-2 cardinal neighbors of `c` inside `g`, in stable
/// direction order: up, down, left, right.
pub fn neighbors(c: CellCoord, g: GridSize) -> (r: Vec<CellCoord>)
    ensures
        r@ == neighbors_spec(c, g),
{
    let mut r: Vec<CellCoord> = Vec::new();
    if c.x < g.width && (c.y as u64) + 2 < (g.height as u64) {
        r.push(CellCoord { x: c.x, y: c.y + 2 });
    }
    if c.x < g.width && c.y >= 2 && c.y - 2 < g.height {
        r.push(CellCoord { x: c.x, y: c.y - 2 });
    }
    if c.y < g.height && c.x >= 2 && c.x - 2 < g.width {
        r.push(CellCoord { x: c.x - 2, y: c.y });
    }
    if c.y < g.height && (c.x as u64) + 2 < (g.width as u64) {
        r.push(CellCoord { x: c.x + 2, y: c.y });
    }
    proof {
        assert(r@ =~= neighbors_spec(c, g));
    }
    r
}

/// Every neighbor lies inside the grid, exactly two cells from `c` on one
/// axis, and there are at most four of them.
pub proof fn lemma_neighbors_in_bounds(c: CellCoord, g: GridSize)
    ensures
        neighbors_spec(c, g).len() <= 4,
        forall|i: int|
            0 <= i < neighbors_spec(c, g).len() ==> in_bounds(
                #[trigger] neighbors_spec(c, g)[i],
                g,
            ) && two_apart(c, neighbors_spec(c, g)[i]),
{
}

} // verus!
