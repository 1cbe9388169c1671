use maze_core::carve::{carve_from, generate_maze};
use maze_core::error::MazeError;
use maze_core::grid::{CellCoord, CellState, GridSize, GridStore};
use maze_core::neighbor::neighbors;
use maze_core::rng::CarveRng;
use maze_core::wall::find_wall;

fn is_floor(grid: &GridStore, x: u32, y: u32) -> bool {
    grid.get(CellCoord { x, y }) == Ok(CellState::Floor)
}

#[test]
fn neighbors_center_in_order() {
    let g = GridSize { width: 5, height: 5 };
    let ns = neighbors(CellCoord { x: 2, y: 2 }, g);
    let expect = vec![
        CellCoord { x: 2, y: 4 },
        CellCoord { x: 2, y: 0 },
        CellCoord { x: 0, y: 2 },
        CellCoord { x: 4, y: 2 },
    ];
    assert_eq!(ns, expect);
}

#[test]
fn neighbors_clip_at_edges() {
    let g = GridSize { width: 5, height: 5 };
    let ns = neighbors(CellCoord { x: 0, y: 0 }, g);
    assert_eq!(ns, vec![CellCoord { x: 0, y: 2 }, CellCoord { x: 2, y: 0 }]);
    let tiny = GridSize { width: 2, height: 2 };
    assert_eq!(neighbors(CellCoord { x: 0, y: 0 }, tiny), vec![]);
}

#[test]
fn neighbors_stay_in_bounds() {
    for w in 1..7u32 {
        for h in 1..7u32 {
            let g = GridSize { width: w, height: h };
            for x in 0..w {
                for y in 0..h {
                    for n in neighbors(CellCoord { x, y }, g) {
                        assert!(n.x < w && n.y < h);
                        let dx = n.x as i64 - x as i64;
                        let dy = n.y as i64 - y as i64;
                        assert!(
                            (dx == 0 && dy.abs() == 2) || (dy == 0 && dx.abs() == 2)
                        );
                    }
                }
            }
        }
    }
}

#[test]
fn find_wall_is_the_midpoint_both_ways() {
    let g = GridSize { width: 5, height: 5 };
    let a = CellCoord { x: 2, y: 2 };
    let b = CellCoord { x: 2, y: 4 };
    assert_eq!(find_wall(a, b, g), Some(CellCoord { x: 2, y: 3 }));
    assert_eq!(find_wall(b, a, g), Some(CellCoord { x: 2, y: 3 }));
    let l = CellCoord { x: 0, y: 2 };
    assert_eq!(find_wall(a, l, g), Some(CellCoord { x: 1, y: 2 }));
    assert_eq!(find_wall(l, a, g), Some(CellCoord { x: 1, y: 2 }));
}

#[test]
fn find_wall_outside_grid_is_none() {
    let g = GridSize { width: 5, height: 5 };
    let a = CellCoord { x: 4, y: 4 };
    let b = CellCoord { x: 6, y: 4 };
    assert_eq!(find_wall(a, b, g), None);
}

#[test]
fn carve_scenario_prefer_first_on_five_by_five() {
    let size = GridSize { width: 5, height: 5 };
    let mut grid = GridStore::new(size);
    carve_from(&mut grid, CellCoord { x: 2, y: 2 }, CarveRng::PreferFirst);
    let floors = [
        (0, 0), (2, 0), (4, 0), (0, 2), (2, 2), (4, 2), (0, 4), (2, 4), (4, 4),
        (2, 3), (1, 4), (0, 3), (0, 1), (1, 0), (3, 0), (4, 1), (4, 3),
    ];
    for x in 0..5u32 {
        for y in 0..5u32 {
            let expect = floors.contains(&(x, y));
            assert_eq!(is_floor(&grid, x, y), expect, "cell ({x}, {y})");
        }
    }
}

#[test]
fn generate_rejects_degenerate_sizes() {
    for (w, h) in [(3u32, 8u32), (8, 3), (1, 1), (3, 3)] {
        let mut grid = GridStore::new(GridSize { width: w, height: h });
        assert_eq!(
            generate_maze(&mut grid, CarveRng::Seeded(7)),
            Err(MazeError::DegenerateGridSize)
        );
        for x in 0..w {
            for y in 0..h {
                assert!(!is_floor(&grid, x, y));
            }
        }
    }
}

#[test]
fn generate_same_seed_same_layout() {
    let size = GridSize { width: 11, height: 9 };
    let mut a = GridStore::new(size);
    let mut b = GridStore::new(size);
    assert_eq!(generate_maze(&mut a, CarveRng::Seeded(0xDEAD_BEEF)), Ok(()));
    assert_eq!(generate_maze(&mut b, CarveRng::Seeded(0xDEAD_BEEF)), Ok(()));
    assert_eq!(a.cell_list(), b.cell_list());
}

#[test]
fn generate_seed_zero_still_finishes() {
    let size = GridSize { width: 9, height: 9 };
    let mut grid = GridStore::new(size);
    assert_eq!(generate_maze(&mut grid, CarveRng::Seeded(0)), Ok(()));
    let floor_count = grid
        .cell_list()
        .iter()
        .filter(|(_, s)| *s == CellState::Floor)
        .count();
    assert!(floor_count >= 1);
}

#[test]
fn generate_from_entropy_floors_a_seed_cell() {
    let size = GridSize { width: 9, height: 9 };
    let mut grid = GridStore::new(size);
    assert_eq!(generate_maze(&mut grid, CarveRng::from_entropy()), Ok(()));
    let mut interior_even_floor = false;
    for x in [2u32, 4, 6] {
        for y in [2u32, 4, 6] {
            if is_floor(&grid, x, y) {
                interior_even_floor = true;
            }
        }
    }
    assert!(interior_even_floor);
}

/// Checks the perfect-maze property on a finished grid: the floored
/// even-lattice cells, linked by floored wall cells between them, form a
/// spanning tree of the whole even lattice.
fn assert_perfect_maze(grid: &GridStore, w: u32, h: u32) {
    let mut lattice: Vec<(u32, u32)> = Vec::new();
    let mut edges = 0usize;
    for x in 0..w {
        for y in 0..h {
            let floor = is_floor(grid, x, y);
            let even = (x % 2 == 0, y % 2 == 0);
            match even {
                (true, true) => {
                    if floor {
                        lattice.push((x, y));
                    }
                }
                (false, false) => assert!(!floor, "odd-odd cell ({x}, {y}) floored"),
                _ => {
                    if floor {
                        edges += 1;
                    }
                }
            }
        }
    }
    // Every even-lattice cell is reachable by step-2 moves, so the carve
    // must have visited them all.
    let expected_cells = (((w as usize) + 1) / 2) * (((h as usize) + 1) / 2);
    assert_eq!(lattice.len(), expected_cells);
    // A tree has one edge fewer than it has vertices.
    assert_eq!(edges, lattice.len() - 1);
    // And it is connected: breadth-first search over floored walls.
    let mut seen = vec![lattice[0]];
    let mut queue = vec![lattice[0]];
    while let Some((x, y)) = queue.pop() {
        let steps = [(0i64, 2i64), (0, -2), (-2, 0), (2, 0)];
        for (dx, dy) in steps {
            let nx = x as i64 + dx;
            let ny = y as i64 + dy;
            if nx < 0 || ny < 0 || nx >= w as i64 || ny >= h as i64 {
                continue;
            }
            let (nx, ny) = (nx as u32, ny as u32);
            let (mx, my) = ((x + nx) / 2, (y + ny) / 2);
            if is_floor(grid, nx, ny) && is_floor(grid, mx, my) && !seen.contains(&(nx, ny)) {
                seen.push((nx, ny));
                queue.push((nx, ny));
            }
        }
    }
    assert_eq!(seen.len(), lattice.len());
}

#[test]
fn carve_produces_a_perfect_maze() {
    for seed in [1u64, 42, 0xABCD, 987_654_321] {
        let size = GridSize { width: 9, height: 9 };
        let mut grid = GridStore::new(size);
        assert_eq!(generate_maze(&mut grid, CarveRng::Seeded(seed)), Ok(()));
        assert_perfect_maze(&grid, 9, 9);
    }
    let size = GridSize { width: 13, height: 7 };
    let mut grid = GridStore::new(size);
    assert_eq!(generate_maze(&mut grid, CarveRng::Seeded(5)), Ok(()));
    assert_perfect_maze(&grid, 13, 7);
}

#[test]
fn regenerating_overwrites_the_previous_layout() {
    let size = GridSize { width: 9, height: 9 };
    let mut grid = GridStore::new(size);
    assert_eq!(generate_maze(&mut grid, CarveRng::Seeded(1)), Ok(()));
    assert_eq!(generate_maze(&mut grid, CarveRng::Seeded(2)), Ok(()));
    let mut fresh = GridStore::new(size);
    assert_eq!(generate_maze(&mut fresh, CarveRng::Seeded(2)), Ok(()));
    assert_eq!(grid.cell_list(), fresh.cell_list());
}
