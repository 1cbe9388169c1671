use maze_core::error::MazeError;
use maze_core::grid::{CellCoord, CellState, GridSize, GridStore};

#[test]
fn new_grid_is_all_wall() {
    let size = GridSize { width: 4, height: 3 };
    let grid = GridStore::new(size);
    for x in 0..4u32 {
        for y in 0..3u32 {
            assert_eq!(grid.get(CellCoord { x, y }), Ok(CellState::Wall));
        }
    }
}

#[test]
fn get_out_of_bounds_fails() {
    let grid = GridStore::new(GridSize { width: 4, height: 3 });
    assert_eq!(grid.get(CellCoord { x: 4, y: 0 }), Err(MazeError::OutOfBounds));
    assert_eq!(grid.get(CellCoord { x: 0, y: 3 }), Err(MazeError::OutOfBounds));
}

#[test]
fn set_out_of_bounds_fails() {
    let mut grid = GridStore::new(GridSize { width: 4, height: 3 });
    assert_eq!(
        grid.set(CellCoord { x: 9, y: 9 }, CellState::Floor),
        Err(MazeError::OutOfBounds)
    );
    for x in 0..4u32 {
        for y in 0..3u32 {
            assert_eq!(grid.get(CellCoord { x, y }), Ok(CellState::Wall));
        }
    }
}

#[test]
fn set_then_get_round_trips() {
    let mut grid = GridStore::new(GridSize { width: 4, height: 3 });
    let c = CellCoord { x: 2, y: 1 };
    assert_eq!(grid.set(c, CellState::Floor), Ok(()));
    assert_eq!(grid.get(c), Ok(CellState::Floor));
    assert_eq!(grid.get(CellCoord { x: 1, y: 1 }), Ok(CellState::Wall));
}

#[test]
fn reset_all_blanks_every_cell() {
    let size = GridSize { width: 5, height: 5 };
    let mut grid = GridStore::new(size);
    assert_eq!(grid.set(CellCoord { x: 1, y: 2 }, CellState::Floor), Ok(()));
    assert_eq!(grid.set(CellCoord { x: 4, y: 4 }, CellState::Floor), Ok(()));
    grid.reset_all(CellState::Wall);
    for x in 0..5u32 {
        for y in 0..5u32 {
            assert_eq!(grid.get(CellCoord { x, y }), Ok(CellState::Wall));
        }
    }
}

#[test]
fn reset_all_is_idempotent() {
    let size = GridSize { width: 5, height: 4 };
    let mut grid = GridStore::new(size);
    grid.reset_all(CellState::Wall);
    grid.reset_all(CellState::Wall);
    for x in 0..5u32 {
        for y in 0..4u32 {
            assert_eq!(grid.get(CellCoord { x, y }), Ok(CellState::Wall));
        }
    }
}

#[test]
fn cell_list_enumerates_every_pair_row_major() {
    let size = GridSize { width: 3, height: 2 };
    let mut grid = GridStore::new(size);
    assert_eq!(grid.set(CellCoord { x: 1, y: 1 }, CellState::Floor), Ok(()));
    let list = grid.cell_list();
    assert_eq!(list.len(), 6);
    for (i, (coord, state)) in list.iter().enumerate() {
        let expect = CellCoord { x: (i as u32) % 3, y: (i as u32) / 3 };
        assert_eq!(*coord, expect);
        assert_eq!(grid.get(*coord), Ok(*state));
    }
    assert_eq!(list[4].0, CellCoord { x: 1, y: 1 });
    assert_eq!(list[4].1, CellState::Floor);
}
