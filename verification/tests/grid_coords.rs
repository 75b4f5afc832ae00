use gridpath::geom::{dist_squared, remap_i32, Vec2i};
use gridpath::grid::Grid;

#[test]
fn round_trip_stays_within_one_cell() {
    let grid = Grid::default();
    let cell = 1024 / 512;
    for p in [
        Vec2i::new(-512, -512),
        Vec2i::new(0, 0),
        Vec2i::new(511, 333),
        Vec2i::new(512, 512),
        Vec2i::new(-1, 1),
    ] {
        let (gx, gy) = grid.index_from_position(&p);
        let w = grid.grid_to_world_coords(&Vec2i::new(gx as i32, gy as i32));
        assert!((w.x - p.x).abs() <= cell, "{:?} came back as {:?}", p, w);
        assert!((w.y - p.y).abs() <= cell, "{:?} came back as {:?}", p, w);
    }
}

#[test]
fn grid_cell_round_trip_is_exact() {
    let grid = Grid::new(8, 16);
    for x in 0..8 {
        for y in 0..8 {
            let w = grid.grid_to_world_coords(&Vec2i::new(x, y));
            let (gx, gy) = grid.index_from_position(&w);
            assert_eq!((gx as i32, gy as i32), (x, y));
        }
    }
}

#[test]
fn occupied_clamps_out_of_range_indices() {
    let mut grid = Grid::new(8, 16);
    grid.set_point(7, 0, true);
    // far out of range on both sides: clamped to the nearest valid cell
    assert!(grid.occupied(&Vec2i::new(9999, -9999)));
    assert!(!grid.occupied(&Vec2i::new(-9999, 9999)));
}

#[test]
fn set_point_clamps_out_of_range_indices() {
    let mut grid = Grid::new(8, 16);
    grid.set_point(9999, 3, true);
    assert!(grid.occupied(&Vec2i::new(7, 3)));
    grid.set_point(9999, 3, false);
    assert!(!grid.occupied(&Vec2i::new(7, 3)));
}

#[test]
fn sample_position_returns_own_free_cell() {
    let grid = Grid::new(8, 16);
    // world position (0,0) falls in cell (4,4)
    let c = grid.sample_position(&Vec2i::new(0, 0), Vec2i::zero());
    assert_eq!(c, Some((4, 4)));
}

#[test]
fn sample_position_finds_nearest_free_cell() {
    let mut grid = Grid::new(8, 16);
    gridpath::builder::fill_circle(&mut grid, (4, 4), 1);
    let c = grid.sample_position(&Vec2i::new(0, 0), Vec2i::zero()).expect("free cells exist");
    assert!(!grid.occupied(&Vec2i::new(c.0 as i32, c.1 as i32)));
    let d = dist_squared(
        &Vec2i::new(c.0 as i32, c.1 as i32),
        &Vec2i::new(4, 4),
    );
    assert_eq!(d, 2, "the nearest free cells are the diagonal ring at squared distance 2");
}

#[test]
fn sample_position_none_when_grid_full() {
    let mut grid = Grid::new(8, 16);
    for y in 0..8 {
        for x in 0..8 {
            grid.set_point(x, y, true);
        }
    }
    assert_eq!(grid.sample_position(&Vec2i::new(0, 0), Vec2i::zero()), None);
}

#[test]
fn remap_scales_between_ranges() {
    assert_eq!(remap_i32(5, 0, 10, 0, 100), 50);
    assert_eq!(remap_i32(0, 0, 10, 0, 100), 0);
    assert_eq!(remap_i32(10, 0, 10, 0, 100), 100);
    assert_eq!(remap_i32(32, 0, 1024, 0, 512), 16);
    assert_eq!(remap_i32(-256, -512, 512, 0, 512), 128);
}

#[test]
fn largest_grid_configuration_round_trips() {
    let grid = Grid::new(4096, 0x1000_0000);
    assert_eq!(grid.dimensions(), (4096, 4096));
    let cell = 0x1000_0000 / 4096;
    for p in [Vec2i::new(0, 0), Vec2i::new(1_234_567, -987_654), Vec2i::new(0x800_0000, -0x800_0000)]
    {
        let (gx, gy) = grid.index_from_position(&p);
        let w = grid.grid_to_world_coords(&Vec2i::new(gx as i32, gy as i32));
        assert!((w.x - p.x).abs() <= cell);
        assert!((w.y - p.y).abs() <= cell);
    }
}

#[test]
fn dimensions_match_configuration() {
    let grid = Grid::new(64, 128);
    assert_eq!(grid.dimensions(), (64, 64));
    let grid = Grid::default();
    assert_eq!(grid.dimensions(), (512, 512));
}
