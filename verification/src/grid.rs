//! The grid of cells: sizes, coordinates, cell states and the store.

use vstd::prelude::*;

use crate::error::MazeError;

verus! {

/// Extents of a grid, in cells.
#[derive(Clone, Copy, Debug, PartialEq, Eq, Structural)]
pub struct GridSize {
    pub width: u32,
    pub height: u32,
}

impl GridSize {
    /// Positive extents whose cell count stays within what a vector can hold.
    pub open spec fn wf(self) -> bool {
        0 < self.width && 0 < self.height && self.width * self.height <= 0x4000_0000
    }

    /// Number of cells in a grid of this size.
    pub open spec fn area(self) -> int {
        self.width * self.height
    }
}

/// A cell address: column `x`, row `y`.
#[derive(Clone, Copy, Debug, PartialEq, Eq, Hash, Structural)]
pub struct CellCoord {
    pub x: u32,
    pub y: u32,
}

/// The algorithmic state of one cell.
#[derive(Clone, Copy, Debug, PartialEq, Eq, Structural)]
pub enum CellState {
    Wall,
    Floor,
}

/// Whether `c` addresses a cell of a grid with extents `g`.
pub open spec fn in_bounds(c: CellCoord, g: GridSize) -> bool {
    c.x < g.width && c.y < g.height
}

/// Row-major position of `c` inside the cell vector of a grid with extents `g`.
pub open spec fn cell_index(c: CellCoord, g: GridSize) -> int {
    c.y * g.width + c.x
}

/// The coordinate stored at row-major position `i` of a grid with extents `g`.
pub open spec fn coord_at(i: int, g: GridSize) -> CellCoord {
    CellCoord { x: (i % (g.width as int)) as u32, y: (i / (g.width as int)) as u32 }
}

pub proof fn lemma_cell_index_bounds(c: CellCoord, g: GridSize)
    requires
        g.wf(),
        in_bounds(c, g),
    ensures
        0 <= cell_index(c, g) < g.area(),
{
    assert(c.y * g.width + c.x < g.width * g.height) by (nonlinear_arith)
        requires
            c.x < g.width,
            c.y < g.height,
    {
    }
}

/// Distinct coordinates have distinct row-major positions.
pub proof fn lemma_cell_index_injective(a: CellCoord, b: CellCoord, g: GridSize)
    requires
        g.wf(),
        in_bounds(a, g),
        in_bounds(b, g),
        cell_index(a, g) == cell_index(b, g),
    ensures
        a == b,
{
    vstd::arithmetic::div_mod::lemma_fundamental_div_mod_converse(
        cell_index(a, g), g.width as int, a.y as int, a.x as int);
    vstd::arithmetic::div_mod::lemma_fundamental_div_mod_converse(
        cell_index(b, g), g.width as int, b.y as int, b.x as int);
}

/// Positions inside the grid decode to in-bounds coordinates, and decoding
/// inverts encoding.
pub proof fn lemma_coord_at_bounds(i: int, g: GridSize)
    requires
        g.wf(),
        0 <= i < g.area(),
    ensures
        in_bounds(coord_at(i, g), g),
        cell_index(coord_at(i, g), g) == i,
{
    vstd::arithmetic::div_mod::lemma_fundamental_div_mod(i, g.width as int);
    vstd::arithmetic::div_mod::lemma_mod_bound(i, g.width as int);
    assert((i / (g.width as int)) < g.height as int) by (nonlinear_arith)
        requires
            0 <= i < (g.width as int) * (g.height as int),
            0 < g.width as int,
    {
    }
    vstd::arithmetic::div_mod::lemma_div_pos_is_pos(i, g.width as int);
    vstd::arithmetic::mul::lemma_mul_is_commutative(i / (g.width as int), g.width as int);
}

/// Encoding an in-bounds coordinate and decoding it gives it back.
pub proof fn lemma_coord_at_inverse(c: CellCoord, g: GridSize)
    requires
        g.wf(),
        in_bounds(c, g),
    ensures
        coord_at(cell_index(c, g), g) == c,
{
    vstd::arithmetic::div_mod::lemma_fundamental_div_mod_converse(
        cell_index(c, g), g.width as int, c.y as int, c.x as int);
}

/// The layout of a fully reset grid: every cell holds `state`.
pub open spec fn all_cells(g: GridSize, state: CellState) -> Seq<CellState> {
    Seq::new(g.area() as nat, |i: int| state)
}

/// Owns one `CellState` per coordinate of a fixed-size grid.
pub struct GridStore {
    pub size: GridSize,
    pub cells: Vec<CellState>,
}

impl View for GridStore {
    type V = Seq<CellState>;

    open spec fn view(&self) -> Seq<CellState> {
        self.cells@
    }
}

impl GridStore {
    /// The store holds exactly one state per cell of its grid.
    pub open spec fn wf(self) -> bool {
        self.size.wf() && self.cells@.len() == self.size.area()
    }

    /// Creates a grid of the given size with every cell a `Wall`.
    pub fn new(size: GridSize) -> (r: GridStore)
        requires
            size.wf(),
        ensures
            r.wf(),
            r.size == size,
            r@ == all_cells(size, CellState::Wall),
    {
        let n: usize = (size.width as usize) * (size.height as usize);
        let mut cells: Vec<CellState> = Vec::new();
        while cells.len() < n
            invariant
                cells@.len() <= n,
                forall|i: int| 0 <= i < cells@.len() ==> cells@[i] == CellState::Wall,
            decreases n - cells@.len(),
        {
            cells.push(CellState::Wall);
        }
        let r = GridStore { size, cells };
        proof {
            assert(r@ =~= all_cells(size, CellState::Wall));
        }
        r
    }

    /// Row-major position of an in-bounds coordinate.
    fn index_of(&self, c: CellCoord) -> (i: usize)
        requires
            self.wf(),
            in_bounds(c, self.size),
        ensures
            i == cell_index(c, self.size),
            i < self@.len(),
    {
        proof {
            lemma_cell_index_bounds(c, self.size);
        }
        (c.y as usize) * (self.size.width as usize) + (c.x as usize)
    }

    /// Reads an in-bounds cell.
    pub(crate) fn get_at(&self, c: CellCoord) -> (r: CellState)
        requires
            self.wf(),
            in_bounds(c, self.size),
        ensures
            r == self@[cell_index(c, self.size)],
    {
        let i = self.index_of(c);
        self.cells[i]
    }

    /// Writes an in-bounds cell.
    pub(crate) fn set_at(&mut self, c: CellCoord, state: CellState) -> (r: ())
        requires
            old(self).wf(),
            in_bounds(c, old(self).size),
        ensures
            final(self).wf(),
            final(self).size == old(self).size,
            final(self)@ == old(self)@.update(cell_index(c, old(self).size), state),
    {
        let i = self.index_of(c);
        self.cells[i] = state;
    }

    /// Reads the cell at `c`, or fails with `OutOfBounds`.
    pub fn get(&self, c: CellCoord) -> (r: Result<CellState, MazeError>)
        requires
            self.wf(),
        ensures
            in_bounds(c, self.size) ==> r == Ok::<CellState, MazeError>(
                self@[cell_index(c, self.size)]),
            !in_bounds(c, self.size) ==> r == Err::<CellState, MazeError>(MazeError::OutOfBounds),
    {
        if c.x < self.size.width && c.y < self.size.height {
            Ok(self.get_at(c))
        } else {
            Err(MazeError::OutOfBounds)
        }
    }

    /// Writes the cell at `c`, or fails with `OutOfBounds` leaving the grid unchanged.
    pub fn set(&mut self, c: CellCoord, state: CellState) -> (r: Result<(), MazeError>)
        requires
            old(self).wf(),
        ensures
            final(self).wf(),
            final(self).size == old(self).size,
            in_bounds(c, old(self).size) ==> r == Ok::<(), MazeError>(())
                && final(self)@ == old(self)@.update(cell_index(c, old(self).size), state),
            !in_bounds(c, old(self).size) ==> r == Err::<(), MazeError>(MazeError::OutOfBounds)
                && *final(self) == *old(self),
    {
        if c.x < self.size.width && c.y < self.size.height {
            self.set_at(c, state);
            Ok(())
        } else {
            Err(MazeError::OutOfBounds)
        }
    }

    /// Sets every cell to `state` in one pass.
    pub fn reset_all(&mut self, state: CellState) -> (r: ())
        requires
            old(self).wf(),
        ensures
            final(self).wf(),
            final(self).size == old(self).size,
            final(self)@ == all_cells(old(self).size, state),
    {
        let n = self.cells.len();
        let mut i: usize = 0;
        while i < n
            invariant
                self.wf(),
                self.size == old(self).size,
                n == self@.len(),
                i <= n,
                forall|j: int| 0 <= j < i ==> self@[j] == state,
            decreases n - i,
        {
            self.cells[i] = state;
            i = i + 1;
        }
        proof {
            assert(self@ =~= all_cells(self.size, state));
        }
    }

    /// Lists every `(coordinate, state)` pair, row by row, for a reader such
    /// as a renderer.
    pub fn cell_list(&self) -> (r: Vec<(CellCoord, CellState)>)
        requires
            self.wf(),
        ensures
            r@.len() == self.size.area(),
            forall|i: int| 0 <= i < r@.len() ==> #[trigger] r@[i]
                == (coord_at(i, self.size), self@[i]),
    {
        let w = self.size.width;
        let n = self.cells.len();
        let mut r: Vec<(CellCoord, CellState)> = Vec::new();
        let mut i: usize = 0;
        while i < n
            invariant
                self.wf(),
                w == self.size.width,
                n == self@.len(),
                i <= n,
                r@.len() == i,
                forall|j: int| 0 <= j < i ==> #[trigger] r@[j]
                    == (coord_at(j, self.size), self@[j]),
            decreases n - i,
        {
            let c = CellCoord { x: (i as u32) % w, y: (i as u32) / w };
            proof {
                assert(i as u32 == i) by {
                    assert(self.size.width * self.size.height <= 0x4000_0000);
                }
            }
            r.push((c, self.cells[i]));
            i = i + 1;
        }
        r
    }
}

} // verus!
