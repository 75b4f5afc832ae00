use gridpath::agents::{
    apply_pathfinding_to_ai, calculate_paths, spawn_optimized_pathfinding_task, traverse_path,
    AgentArena,
};
use gridpath::builder::{build_map_collision, WallType};
use gridpath::follow::{follow_step, is_exhausted, AIPath, AITarget, Steering};
use gridpath::geom::Vec2i;
use gridpath::grid::Grid;
use gridpath::stats::{mitigation_stat, DamageType, StatType, Stats};

fn small_grid() -> Grid {
    // 8 cells over a 16-unit world: cell width 2, tolerance 2
    Grid::new(8, 16)
}

#[test]
fn request_then_poll_yields_a_path_and_no_task() {
    let grid = small_grid();
    let mut arena = AgentArena::new();
    let id = arena.add_agent(AITarget::new(1000, 50, true), Stats::default());
    // steer toward world (3,3), the center of cell (5,5)
    arena.agents[id].target.destination = Vec2i::new(3, 3);
    let positions = vec![Vec2i::new(-7, -7)];
    calculate_paths(&mut arena, &grid, &positions);
    assert!(arena.agents[id].task.is_some(), "an eligible agent gets a request");
    assert!(arena.agents[id].path.is_none());
    apply_pathfinding_to_ai(&mut arena);
    assert!(arena.agents[id].task.is_none(), "polling never leaves a request dangling");
    let path = arena.agents[id].path.as_ref().expect("open grid: the search succeeds");
    assert_eq!(path.index, 0);
    assert_eq!(path.points[0], Vec2i::new(0, 0));
    assert_eq!(path.points[path.points.len() - 1], Vec2i::new(5, 5));
}

#[test]
fn request_then_poll_settles_empty_on_unreachable_goal() {
    let mut grid = small_grid();
    // wall the goal cell (5,5) off from the rest of the grid
    grid.set_point(4, 5, true);
    grid.set_point(6, 5, true);
    grid.set_point(5, 4, true);
    grid.set_point(5, 6, true);
    let mut arena = AgentArena::new();
    let id = arena.add_agent(AITarget::new(1000, 50, true), Stats::default());
    arena.agents[id].target.destination = Vec2i::new(3, 3);
    let positions = vec![Vec2i::new(-7, -7)];
    calculate_paths(&mut arena, &grid, &positions);
    assert!(arena.agents[id].task.is_some());
    apply_pathfinding_to_ai(&mut arena);
    assert!(arena.agents[id].task.is_none(), "no dangling in-flight state");
    assert!(arena.agents[id].path.is_none(), "an unreachable goal leaves the agent pathless");
}

#[test]
fn spawn_fails_fast_on_occupied_goal() {
    let mut grid = small_grid();
    grid.set_point(5, 5, true);
    let mut arena = AgentArena::new();
    let id = arena.add_agent(AITarget::new(1000, 50, true), Stats::default());
    spawn_optimized_pathfinding_task(&mut arena, id, &grid, Vec2i::new(0, 0), Vec2i::new(5, 5));
    assert!(arena.agents[id].task.is_none());
}

#[test]
fn follow_step_advances_cursor_once_for_stationary_agent() {
    let grid = small_grid();
    let target = AITarget::new(1000, 50, true);
    let stats = Stats::default();
    let mut ai = AIPath {
        index: 0,
        points: vec![Vec2i::new(0, 0), Vec2i::new(1, 0), Vec2i::new(2, 0)],
    };
    // standing exactly on the center of cell (0,0)
    let position = Vec2i::new(-7, -7);
    let s1 = follow_step(&mut ai, &target, &stats, &grid, position);
    assert_eq!(ai.index, 1, "arrived at the first cell: cursor advances");
    let s2 = follow_step(&mut ai, &target, &stats, &grid, position);
    assert_eq!(ai.index, 1, "still out of tolerance of the next cell: cursor settles");
    let s3 = follow_step(&mut ai, &target, &stats, &grid, position);
    assert_eq!(ai.index, 1);
    // center of cell (1,0) is (-5,-7): steer two units along x at the speed stat
    assert_eq!(s2, Steering::Toward { delta: Vec2i::new(2, 0), speed: 50 });
    assert_eq!(s2, s3);
    match s1 {
        Steering::Toward { delta: _, speed } => assert_eq!(speed, 50),
        Steering::Halt => panic!("a following agent does not halt"),
    }
}

#[test]
fn disabled_path_finding_emits_zero_velocity_every_tick() {
    let grid = small_grid();
    let target = AITarget::new(1000, 50, false);
    let stats = Stats::default();
    let mut ai = AIPath { index: 0, points: vec![Vec2i::new(0, 0), Vec2i::new(5, 5)] };
    for _ in 0..4 {
        let s = follow_step(&mut ai, &target, &stats, &grid, Vec2i::new(3, 3));
        assert_eq!(s, Steering::Halt);
        assert_eq!(ai.index, 0, "a halted agent consumes no path");
    }
    // the arena-level pass halts such an agent too, path or no path
    let mut arena = AgentArena::new();
    let id = arena.add_agent(AITarget::new(1000, 50, false), Stats::default());
    arena.agents[id].target.destination = Vec2i::new(3, 3);
    let positions = vec![Vec2i::new(0, 0)];
    let cmds = traverse_path(&mut arena, &grid, &positions);
    assert_eq!(cmds.len(), 1);
    assert_eq!(cmds[0], Some(Steering::Halt));
    calculate_paths(&mut arena, &grid, &positions);
    assert!(arena.agents[id].task.is_none(), "a disabled agent never requests a plan");
}

#[test]
fn pathless_enabled_agent_gets_no_command() {
    let grid = small_grid();
    let mut arena = AgentArena::new();
    let id = arena.add_agent(AITarget::new(1000, 50, true), Stats::default());
    let positions = vec![Vec2i::new(0, 0)];
    let cmds = traverse_path(&mut arena, &grid, &positions);
    assert_eq!(cmds[id], None);
}

#[test]
fn exhaustion_signals_at_final_cell_within_tolerance() {
    let grid = small_grid();
    let ai = AIPath { index: 1, points: vec![Vec2i::new(0, 0), Vec2i::new(1, 0)] };
    // center of cell (1,0) is (-5,-7)
    assert!(is_exhausted(&ai, &grid, Vec2i::new(-5, -7)));
    assert!(!is_exhausted(&ai, &grid, Vec2i::new(0, 0)));
    let early = AIPath { index: 0, points: vec![Vec2i::new(0, 0), Vec2i::new(1, 0)] };
    assert!(!is_exhausted(&early, &grid, Vec2i::new(-7, -7)));
}

#[test]
fn built_map_seals_border_and_rasterizes_circles() {
    let mut grid = small_grid();
    // a circle of world radius 4 at world (0,0): grid radius 2 around cell (4,4)
    let walls = vec![(Vec2i::new(0, 0), WallType::Circle(4))];
    build_map_collision(&mut grid, &walls);
    for i in 0..8 {
        assert!(grid.occupied(&Vec2i::new(i, 0)));
        assert!(grid.occupied(&Vec2i::new(0, i)));
        assert!(grid.occupied(&Vec2i::new(7, i)));
        assert!(grid.occupied(&Vec2i::new(i, 7)));
    }
    assert!(grid.occupied(&Vec2i::new(4, 4)));
    assert!(grid.occupied(&Vec2i::new(4, 2)));
    assert!(!grid.occupied(&Vec2i::new(1, 1)));
    assert!(!grid.occupied(&Vec2i::new(6, 1)));
}

#[test]
fn rect_walls_are_not_rasterized() {
    let mut grid = small_grid();
    let walls = vec![(Vec2i::new(0, 0), WallType::Rect(4))];
    build_map_collision(&mut grid, &walls);
    assert!(!grid.occupied(&Vec2i::new(4, 4)), "only the border is sealed");
}

#[test]
fn stat_block_reads_and_saturates() {
    let stats = Stats::default();
    assert_eq!(stats.get_stat(StatType::Speed), Some(50));
    assert_eq!(stats.get_stat(StatType::Health), Some(100));
    let mut s = Stats::new(1, 2, 3, 4, 5, 6);
    assert_eq!(s.get_stat(StatType::Magic), Some(6));
    s.add_stat(StatType::Attack, 10);
    assert_eq!(s.get_stat(StatType::Attack), Some(15));
    s.add_stat(StatType::Attack, i32::MAX);
    assert_eq!(s.get_stat(StatType::Attack), Some(i32::MAX));
    assert_eq!(s.get_stat(StatType::Speed), Some(4), "other stats are untouched");
}

#[test]
fn mitigation_names_the_defence_stats() {
    assert_eq!(mitigation_stat(&DamageType::PHYSICAL), Some(StatType::Defence));
    assert_eq!(mitigation_stat(&DamageType::MAGICAL), Some(StatType::MagicDefence));
    assert_eq!(mitigation_stat(&DamageType::BYPASS), None);
}

#[test]
fn ai_target_new_starts_at_origin() {
    let t = AITarget::new(640, 50, true);
    assert_eq!(t.follow_range, 640);
    assert_eq!(t.attack_range, 50);
    assert_eq!(t.destination, Vec2i::new(0, 0));
    assert!(t.do_path_find);
}

#[test]
fn get_target_reads_cursor_cell() {
    let grid = small_grid();
    let ai = AIPath { index: 1, points: vec![Vec2i::new(0, 0), Vec2i::new(2, 3)] };
    assert_eq!(ai.get_target(), Vec2i::new(2, 3));
    assert_eq!(ai.get_target_world(&grid), Vec2i::new(-3, -1));
}
