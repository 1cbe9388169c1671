use maze_core::error::MazeError;
use maze_core::grid::{CellCoord, CellState, GridSize};
use maze_core::pointer::{map_to_cell, pointer_request, GridTransform};
use maze_core::rng::CarveRng;
use maze_core::session::MazeSession;

#[test]
fn pointer_maps_world_positions_to_cells() {
    let g = GridSize { width: 10, height: 10 };
    let t = GridTransform::identity();
    assert_eq!(map_to_cell(5, 5, g, 16, t), Some(CellCoord { x: 0, y: 0 }));
    assert_eq!(map_to_cell(-5, -5, g, 16, t), None);
    assert_eq!(map_to_cell(159, 159, g, 16, t), Some(CellCoord { x: 9, y: 9 }));
    assert_eq!(map_to_cell(160, 0, g, 16, t), None);
    assert_eq!(map_to_cell(0, 160, g, 16, t), None);
    assert_eq!(map_to_cell(31, 47, g, 16, t), Some(CellCoord { x: 1, y: 2 }));
}

#[test]
fn pointer_respects_the_grid_transform() {
    let g = GridSize { width: 10, height: 10 };
    let t = GridTransform { offset_x: 32, offset_y: -16 };
    assert_eq!(map_to_cell(32, -16, g, 16, t), Some(CellCoord { x: 0, y: 0 }));
    assert_eq!(map_to_cell(49, 5, g, 16, t), Some(CellCoord { x: 1, y: 1 }));
    assert_eq!(map_to_cell(31, 0, g, 16, t), None);
}

#[test]
fn request_needs_a_fresh_press_inside_the_grid() {
    let g = GridSize { width: 10, height: 10 };
    let t = GridTransform::identity();
    assert!(pointer_request(true, 5, 5, g, 16, t).is_some());
    assert!(pointer_request(false, 5, 5, g, 16, t).is_none());
    assert!(pointer_request(true, -5, 5, g, 16, t).is_none());
}

#[test]
fn session_rejects_degenerate_sizes() {
    let t = GridTransform::identity();
    for (w, h) in [(2u32, 9u32), (9, 2), (1, 1), (2, 2)] {
        let r = MazeSession::new(GridSize { width: w, height: h }, 16, t);
        assert!(matches!(r, Err(MazeError::DegenerateGridSize)));
    }
    assert!(MazeSession::new(GridSize { width: 3, height: 3 }, 16, t).is_ok());
}

#[test]
fn session_starts_all_wall_and_regenerates_on_request() {
    let size = GridSize { width: 9, height: 9 };
    let mut session = MazeSession::new(size, 16, GridTransform::identity()).unwrap();
    let floors_of = |s: &MazeSession| {
        s.grid
            .cell_list()
            .iter()
            .filter(|(_, st)| *st == CellState::Floor)
            .count()
    };
    assert_eq!(floors_of(&session), 0);
    let req = pointer_request(true, 5, 5, size, 16, GridTransform::identity()).unwrap();
    assert_eq!(session.handle_request(req, CarveRng::Seeded(11)), Ok(()));
    assert!(floors_of(&session) > 0);
}

#[test]
fn session_too_small_to_carve_fails_fast() {
    let size = GridSize { width: 3, height: 9 };
    let mut session = MazeSession::new(size, 16, GridTransform::identity()).unwrap();
    let req = pointer_request(true, 5, 5, size, 16, GridTransform::identity()).unwrap();
    assert_eq!(
        session.handle_request(req, CarveRng::Seeded(11)),
        Err(MazeError::DegenerateGridSize)
    );
}

#[test]
fn click_inside_regenerates_outside_does_not() {
    let size = GridSize { width: 9, height: 9 };
    let mut session = MazeSession::new(size, 16, GridTransform::identity()).unwrap();
    assert_eq!(session.on_click(true, -5, -5, CarveRng::Seeded(3)), Ok(false));
    assert_eq!(session.on_click(false, 5, 5, CarveRng::Seeded(3)), Ok(false));
    assert_eq!(session.on_click(true, 5, 5, CarveRng::Seeded(3)), Ok(true));
    let mut twin = MazeSession::new(size, 16, GridTransform::identity()).unwrap();
    assert_eq!(twin.on_click(true, 100, 100, CarveRng::Seeded(3)), Ok(true));
    assert_eq!(session.grid.cell_list(), twin.grid.cell_list());
}
