use maze_raycaster::caster::{can_cast, cast_ray, RAY_STEP};
use maze_raycaster::direction::Direction;
use maze_raycaster::fixed::ONE;
use maze_raycaster::grid::Grid;
use maze_raycaster::player::{Player, Position};

fn rows(lines: &[&str]) -> Vec<Vec<char>> {
    lines.iter().map(|line| line.chars().collect()).collect()
}

fn walled_room() -> Grid {
    Grid::new(rows(&["+++++", "+   +", "+   +", "+   +", "+++++"])).unwrap()
}

fn player_at(x: i64, y: i64) -> Player {
    Player { pos: Position { x: x * ONE, y: y * ONE }, a: 0, fov: 68629 }
}

#[test]
fn ray_step_is_ten_world_units() {
    assert_eq!(RAY_STEP, 10 * ONE);
}

#[test]
fn ray_from_room_center_reaches_the_wall_after_one_and_a_half_blocks() {
    let maze = walled_room();
    let block = 100;
    let player = player_at(250, 250);
    let d = cast_ray(&maze, &player, Direction::new(ONE, 0).unwrap(), block);
    assert!((d - 150 * ONE).abs() <= RAY_STEP);
    assert_eq!(d, 150 * ONE);
}

#[test]
fn ray_reports_a_wall_at_a_whole_number_of_steps_exactly() {
    let maze = walled_room();
    let block = 100;
    for steps in 0..30 {
        let player = player_at(400 - 10 * steps, 250);
        let d = cast_ray(&maze, &player, Direction::new(ONE, 0).unwrap(), block);
        assert_eq!(d, steps * RAY_STEP);
    }
}

#[test]
fn ray_overshoots_by_less_than_a_step() {
    let maze = walled_room();
    let player = player_at(393, 250);
    let d = cast_ray(&maze, &player, Direction::new(ONE, 0).unwrap(), 100);
    assert_eq!(d, RAY_STEP);
    let player = player_at(250, 107);
    let d = cast_ray(&maze, &player, Direction::new(0, -ONE).unwrap(), 100);
    assert_eq!(d, RAY_STEP);
}

#[test]
fn ray_goes_in_all_four_directions() {
    let maze = walled_room();
    let player = player_at(250, 250);
    assert_eq!(cast_ray(&maze, &player, Direction::new(ONE, 0).unwrap(), 100), 150 * ONE);
    assert_eq!(cast_ray(&maze, &player, Direction::new(0, ONE).unwrap(), 100), 150 * ONE);
    assert_eq!(cast_ray(&maze, &player, Direction::new(-ONE, 0).unwrap(), 100), 160 * ONE);
    assert_eq!(cast_ray(&maze, &player, Direction::new(0, -ONE).unwrap(), 100), 160 * ONE);
}

#[test]
fn diagonal_ray_returns_the_distance_along_the_ray() {
    let maze = walled_room();
    let player = player_at(250, 250);
    let d = cast_ray(&maze, &player, Direction::new(46341, 46341).unwrap(), 100);
    assert_eq!(d, 220 * ONE);
}

#[test]
fn ray_that_starts_in_a_wall_or_outside_stops_at_once() {
    let maze = walled_room();
    let east = Direction::new(ONE, 0).unwrap();
    assert_eq!(cast_ray(&maze, &player_at(50, 250), east, 100), 0);
    assert_eq!(cast_ray(&maze, &player_at(-500, 250), east, 100), 0);
    assert_eq!(cast_ray(&maze, &player_at(250, 900), east, 100), 0);
}

#[test]
fn ray_down_a_long_corridor_ends_at_the_boundary_wall() {
    let mut corridor: Vec<char> = vec![' '; 1000];
    corridor[0] = '+';
    corridor[999] = '+';
    let wall: Vec<char> = vec!['+'; 1000];
    let maze = Grid::new(vec![wall.clone(), corridor, wall]).unwrap();
    let block = 10;
    let player = player_at(15, 15);
    let d = cast_ray(&maze, &player, Direction::new(ONE, 0).unwrap(), block);
    assert_eq!(d, 9980 * ONE);
    let back = cast_ray(&maze, &player, Direction::new(-ONE, 0).unwrap(), block);
    assert_eq!(back, 10 * ONE);
}

#[test]
fn ray_through_an_open_border_stops_where_it_leaves_the_grid() {
    let maze = Grid::new(rows(&["   ", "   ", "   "])).unwrap();
    let block = 100;
    let player = player_at(150, 150);
    assert_eq!(cast_ray(&maze, &player, Direction::new(ONE, 0).unwrap(), block), 150 * ONE);
    assert_eq!(cast_ray(&maze, &player, Direction::new(-ONE, 0).unwrap(), block), 160 * ONE);
    assert_eq!(cast_ray(&maze, &player, Direction::new(0, ONE).unwrap(), block), 150 * ONE);
    assert_eq!(cast_ray(&maze, &player, Direction::new(46341, -46341).unwrap(), block), 220 * ONE);
}

#[test]
fn can_cast_bounds_the_world() {
    let maze = walled_room();
    assert!(can_cast(&maze, 1));
    assert!(can_cast(&maze, 100));
    assert!(!can_cast(&maze, 0));
    assert!(can_cast(&maze, 14073748835531));
    assert!(!can_cast(&maze, 14073748835532));
    assert!(!can_cast(&maze, usize::MAX));
    let tall = Grid::new(rows(&["+", " ", " ", " ", " ", " ", " ", " ", " ", "+"])).unwrap();
    assert!(can_cast(&tall, 7036874417765));
    assert!(!can_cast(&tall, 7036874417766));
}
