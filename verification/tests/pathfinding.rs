use gridpath::geom::Vec2i;
use gridpath::grid::Grid;

#[test]
pub fn test_remap() {
    let coords = Vec2i::zero();
    let grid = Grid::default();
    let dimensions = grid.dimensions();
    let new_coords = grid.index_from_position(&coords);
    assert!(
        new_coords == (dimensions.0 / 2, dimensions.1 / 2),
        "({}, {}) was not midpoint ({}, {})",
        new_coords.0,
        new_coords.1,
        dimensions.0,
        dimensions.1
    );
}

#[test]
pub fn rest_world_coords() {
    let grid = Grid::default();
    let (x, y) = grid.dimensions();
    println!("Grid dimensions {}, {} and testing centre point: (63, 63)", x, y);
    let center = (x / 2, y / 2);
    let test_point = grid.grid_to_world_coords(&Vec2i::new(x as i32 / 2, y as i32 / 2));
    assert!(
        gridpath::geom::dist_squared(&test_point, &Vec2i::zero()) <= 10,
        "100% Rust bug not mine ;) {:?} (center: {},{})",
        test_point,
        center.0,
        center.1
    );
}

#[test]
fn path_on_open_grid_is_unit_stepped_and_at_least_manhattan() {
    let grid = Grid::new(16, 32);
    let path = grid
        .path_to(&Vec2i::new(0, 0), &Vec2i::new(5, 5))
        .expect("open grid must yield a path");
    let steps = &path.steps;
    assert!(steps.len() >= 11, "10 moves at least, got {}", steps.len() - 1);
    assert_eq!(steps[0], Vec2i::new(0, 0));
    assert_eq!(steps[steps.len() - 1], Vec2i::new(5, 5));
    for w in steps.windows(2) {
        let dx = (w[0].x - w[1].x).abs();
        let dy = (w[0].y - w[1].y).abs();
        assert!(
            (dx == 1 && dy == 0) || (dx == 0 && dy == 1),
            "step {:?} -> {:?} is not one axis-unit",
            w[0],
            w[1]
        );
    }
}

#[test]
fn enclosed_goal_is_not_found() {
    let mut grid = Grid::new(8, 16);
    grid.set_point(3, 4, true);
    grid.set_point(5, 4, true);
    grid.set_point(4, 3, true);
    grid.set_point(4, 5, true);
    let r = grid.path_to(&Vec2i::new(0, 0), &Vec2i::new(4, 4));
    assert!(matches!(r, Err(gridpath::search::PathfindingError)));
}

#[test]
fn occupied_goal_fails_fast() {
    let mut grid = Grid::new(8, 16);
    grid.set_point(4, 4, true);
    let r = grid.path_to(&Vec2i::new(0, 0), &Vec2i::new(4, 4));
    assert!(r.is_err());
}

#[test]
fn circle_obstacle_blocks_goal_but_not_detour() {
    let mut grid = Grid::new(8, 16);
    gridpath::builder::fill_circle(&mut grid, (4, 4), 2);
    let mut occupied_count = 0;
    for y in 0..8 {
        for x in 0..8 {
            if grid.occupied(&Vec2i::new(x, y)) {
                occupied_count += 1;
            }
        }
    }
    assert_eq!(occupied_count, 13, "a grid-radius-2 disc marks 13 cells");
    assert!(grid.path_to(&Vec2i::new(0, 0), &Vec2i::new(4, 4)).is_err());
    let path = grid
        .path_to(&Vec2i::new(0, 0), &Vec2i::new(6, 6))
        .expect("a detour around the disc exists");
    for c in path.steps.iter() {
        assert!(!grid.occupied(c), "path lands on occupied cell {:?}", c);
    }
    assert_eq!(path.steps[0], Vec2i::new(0, 0));
    assert_eq!(path.steps[path.steps.len() - 1], Vec2i::new(6, 6));
}

#[test]
fn neighbours_skip_occupied_and_out_of_bounds() {
    let mut grid = Grid::new(8, 16);
    grid.set_point(1, 0, true);
    let n = gridpath::search::neuman_neighbours(&grid, &Vec2i::new(0, 0));
    assert_eq!(n.len(), 1);
    assert_eq!(n[0], Vec2i::new(0, 1));
    let m = gridpath::search::neuman_neighbours(&grid, &Vec2i::new(3, 3));
    assert_eq!(m.len(), 4);
}

#[test]
fn start_equals_goal_gives_single_cell_path() {
    let grid = Grid::new(8, 16);
    let path = grid.path_to(&Vec2i::new(2, 2), &Vec2i::new(2, 2)).expect("trivial path");
    assert_eq!(path.steps.len(), 1);
    assert_eq!(path.steps[0], Vec2i::new(2, 2));
}
