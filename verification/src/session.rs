//! The active maze session and its regeneration control.

use vstd::prelude::*;

use crate::carve::{carve_reaches, generate_maze, generate_model};
use crate::error::MazeError;
use crate::grid::{CellState, GridSize, GridStore, all_cells};
use crate::pointer::{GridTransform, RegenerationRequest, map_spec, pointer_request};
use crate::rng::CarveRng;

verus! {

/// The single active maze: one grid, its cell size in world units, and its
/// placement in world space.
pub struct MazeSession {
    pub grid: GridStore,
    pub cell_size: u32,
    pub transform: GridTransform,
}

impl MazeSession {
    /// A session holds a well-formed grid that is large enough to carve.
    pub open spec fn wf(self) -> bool {
        self.grid.wf() && self.cell_size >= 1 && self.grid.size.width > 2 && self.grid.size.height
            > 2
    }

    /// Whether a pointer event is a fresh primary-button press landing on a
    /// cell of this session's grid.
    pub open spec fn hits(self, just_pressed: bool, px: int, py: int) -> bool {
        just_pressed && map_spec(px, py, self.grid.size, self.cell_size as int, self.transform)
            is Some
    }

    /// Creates the session with an all-Wall grid, rejecting extents too
    /// small for the carve algorithm.
    pub fn new(size: GridSize, cell_size: u32, transform: GridTransform) -> (r: Result<
        MazeSession,
        MazeError,
    >)
        requires
            size.wf(),
            cell_size >= 1,
        ensures
            r is Ok <==> (size.width > 2 && size.height > 2),
            r matches Ok(s) ==> s.wf() && s.grid.size == size && s.grid@ == all_cells(
                size,
                CellState::Wall,
            ) && s.cell_size == cell_size && s.transform == transform,
            r is Err ==> r == Err::<MazeSession, MazeError>(MazeError::DegenerateGridSize),
    {
        if size.width > 2 && size.height > 2 {
            Ok(MazeSession { grid: GridStore::new(size), cell_size, transform })
        } else {
            Err(MazeError::DegenerateGridSize)
        }
    }

    /// Processes one regeneration request: resets the grid to all-Wall and
    /// carves it anew with the given random source, synchronously.
    pub fn handle_request(&mut self, request: RegenerationRequest, rng: CarveRng) -> (res: Result<
        (),
        MazeError,
    >)
        requires
            old(self).wf(),
        ensures
            final(self).wf(),
            final(self).grid.size == old(self).grid.size,
            final(self).cell_size == old(self).cell_size,
            final(self).transform == old(self).transform,
            res is Ok <==> (old(self).grid.size.width >= 4 && old(self).grid.size.height >= 4),
            res is Ok ==> carve_reaches(
                generate_model(old(self).grid.size, rng),
                final(self).grid@,
            ),
            res is Err ==> res == Err::<(), MazeError>(MazeError::DegenerateGridSize)
                && *final(self) == *old(self),
    {
        let _ = request;
        generate_maze(&mut self.grid, rng)
    }

    /// Feeds one pointer event through the mapper and, when it emits a
    /// regeneration request, runs it. Returns whether a carve ran.
    pub fn on_click(&mut self, just_pressed: bool, px: i64, py: i64, rng: CarveRng) -> (res:
        Result<bool, MazeError>)
        requires
            old(self).wf(),
        ensures
            final(self).wf(),
            final(self).grid.size == old(self).grid.size,
            final(self).cell_size == old(self).cell_size,
            final(self).transform == old(self).transform,
            !old(self).hits(just_pressed, px as int, py as int) ==> res == Ok::<bool, MazeError>(
                false,
            ) && *final(self) == *old(self),
            (old(self).hits(just_pressed, px as int, py as int) && old(self).grid.size.width >= 4
                && old(self).grid.size.height >= 4) ==> res == Ok::<bool, MazeError>(true)
                && carve_reaches(generate_model(old(self).grid.size, rng), final(self).grid@),
            (old(self).hits(just_pressed, px as int, py as int) && !(old(self).grid.size.width >= 4
                && old(self).grid.size.height >= 4)) ==> res == Err::<bool, MazeError>(
                MazeError::DegenerateGridSize,
            ) && *final(self) == *old(self),
    {
        let req = pointer_request(just_pressed, px, py, self.grid.size, self.cell_size,
            self.transform);
        match req {
            Some(request) => match self.handle_request(request, rng) {
                Ok(()) => Ok(true),
                Err(e) => Err(e),
            },
            None => Ok(false),
        }
    }
}

} // verus!
