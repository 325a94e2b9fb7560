use maze_raycaster::direction::Direction;
use maze_raycaster::fixed::ONE;
use maze_raycaster::framebuffer::Framebuffer;
use maze_raycaster::grid::Grid;
use maze_raycaster::player::{Player, Position};
use maze_raycaster::projection::Ray;
use maze_raycaster::first_person::render_3d;
use maze_raycaster::minimap::{draw_minimap, minimap_color_of};
use maze_raycaster::top_view::{draw_cell, draw_trace, render};

const BACKGROUND: u32 = 0x1A1A1A;
const SKY: u32 = 0x1A1A1A;
const FLOOR: u32 = 0x333333;

fn rows(lines: &[&str]) -> Vec<Vec<char>> {
    lines.iter().map(|line| line.chars().collect()).collect()
}

fn walled_room() -> Grid {
    Grid::new(rows(&["+++++", "+   +", "+   +", "+   +", "+++++"])).unwrap()
}

fn player_at(x: i64, y: i64) -> Player {
    Player { pos: Position { x: x * ONE, y: y * ONE }, a: 0, fov: 68629 }
}

fn cleared(width: usize, height: usize) -> Framebuffer {
    let mut fb = Framebuffer::new(width, height);
    fb.set_background_color(BACKGROUND);
    fb.clear();
    fb
}

fn pixel(fb: &Framebuffer, x: usize, y: usize) -> u32 {
    fb.buffer()[y * fb.width() + x]
}

fn pen(fb: &mut Framebuffer) -> u32 {
    let saved = pixel(fb, 0, 0);
    fb.point(0, 0);
    let color = pixel(fb, 0, 0);
    fb.plot(0, 0, saved);
    fb.set_current_color(color);
    color
}

fn east() -> Direction {
    Direction::new(ONE, 0).unwrap()
}

fn south() -> Direction {
    Direction::new(0, ONE).unwrap()
}

const RED_TILE: [[u32; 4]; 4] = [
    [0xB23C23, 0xB23C23, 0x8B0027, 0x8B0027],
    [0xB23C23, 0xB23C23, 0x8B0027, 0x8B0027],
    [0x64082C, 0x64082C, 0x3D1030, 0x3D1030],
    [0x64082C, 0x64082C, 0x3D1030, 0x3D1030],
];

#[test]
fn draw_cell_paints_a_dimmed_texture() {
    let mut fb = cleared(10, 10);
    draw_cell(&mut fb, 2, 1, 6, '+');
    for y in 0..10 {
        for x in 0..10 {
            let inside = (2..8).contains(&x) && (1..7).contains(&y);
            let expected = if inside { RED_TILE[(y - 1) % 4][(x - 2) % 4] } else { BACKGROUND };
            assert_eq!(pixel(&fb, x, y), expected, "pixel ({}, {})", x, y);
        }
    }
    assert_eq!(pixel(&fb, 2, 1), 0xB23C23);
    assert_eq!(pixel(&fb, 4, 1), 0x8B0027);
    assert_eq!(pixel(&fb, 2, 3), 0x64082C);
    assert_eq!(pixel(&fb, 4, 3), 0x3D1030);
    assert_eq!(pixel(&fb, 6, 5), 0xB23C23);
    assert_eq!(pen(&mut fb), 0xB23C23);
}

#[test]
fn draw_cell_picks_the_texture_by_symbol() {
    let mut fb = cleared(12, 4);
    draw_cell(&mut fb, 0, 0, 4, '#');
    draw_cell(&mut fb, 4, 0, 4, '*');
    draw_cell(&mut fb, 8, 0, 4, 'x');
    assert_eq!(pixel(&fb, 0, 0), 0x555555);
    assert_eq!(pixel(&fb, 2, 0), 0xB23C23);
    assert_eq!(pixel(&fb, 0, 2), 0x3F3F3F);
    assert_eq!(pixel(&fb, 3, 3), 0x333333);
    assert_eq!(pixel(&fb, 4, 0), 0x6B6B6B);
    assert_eq!(pixel(&fb, 6, 1), 0x551212);
    assert_eq!(pixel(&fb, 4, 2), 0x555555);
    assert_eq!(pixel(&fb, 7, 3), 0x4A4A4A);
    assert_eq!(pixel(&fb, 8, 0), 0xB23C23);
    assert_eq!(pixel(&fb, 11, 3), 0x3D1030);
    assert_eq!(pen(&mut fb), 0x3D1030);
}

#[test]
fn draw_cell_leaves_empty_cells_alone() {
    let mut fb = cleared(8, 8);
    fb.set_current_color(0x123456);
    draw_cell(&mut fb, 0, 0, 8, ' ');
    assert!(fb.buffer().iter().all(|&p| p == BACKGROUND));
    assert_eq!(pen(&mut fb), 0x123456);
    draw_cell(&mut fb, 3, 3, 0, '+');
    assert!(fb.buffer().iter().all(|&p| p == BACKGROUND));
    assert_eq!(pen(&mut fb), 0x123456);
}

#[test]
fn draw_cell_is_clipped_to_the_canvas() {
    let mut fb = cleared(4, 4);
    draw_cell(&mut fb, 2, 3, 10, '+');
    for y in 0..4 {
        for x in 0..4 {
            let inside = x >= 2 && y >= 3;
            let expected = if inside { RED_TILE[(y - 3) % 4][(x - 2) % 4] } else { BACKGROUND };
            assert_eq!(pixel(&fb, x, y), expected);
        }
    }
    assert_eq!(pen(&mut fb), RED_TILE[1][1]);
}

fn room_top_view(x: usize, y: usize, traced: &[(usize, usize)]) -> u32 {
    let sprite = [[0xFFFFFF, 0x000000, 0xFFFFFF], [0x000000, 0xFFFFFF, 0x000000], [0xFFFFFF, 0x000000, 0xFFFFFF]];
    if traced.contains(&(x, y)) {
        0xFFFFFF
    } else if (24..27).contains(&x) && (24..27).contains(&y) {
        sprite[y - 24][x - 24]
    } else if x < 10 || x >= 40 || y < 10 || y >= 40 {
        RED_TILE[(y % 10) % 4][(x % 10) % 4]
    } else {
        BACKGROUND
    }
}

#[test]
fn render_draws_maze_sprite_and_ray_traces() {
    let maze = walled_room();
    let player = player_at(25, 25);
    let mut fb = cleared(50, 50);
    render(&mut fb, &player, &maze, &vec![east(), south()]);
    let traced = [(25, 25), (35, 25), (25, 35)];
    for y in 0..50 {
        for x in 0..50 {
            assert_eq!(pixel(&fb, x, y), room_top_view(x, y, &traced), "pixel ({}, {})", x, y);
        }
    }
    assert_eq!(pixel(&fb, 0, 0), 0xB23C23);
    assert_eq!(pixel(&fb, 42, 0), 0x8B0027);
    assert_eq!(pixel(&fb, 49, 49), 0xB23C23);
    assert_eq!(pixel(&fb, 15, 15), BACKGROUND);
    assert_eq!(pixel(&fb, 24, 24), 0xFFFFFF);
    assert_eq!(pixel(&fb, 25, 24), 0x000000);
    assert_eq!(pixel(&fb, 26, 25), 0x000000);
    assert_eq!(pixel(&fb, 35, 25), 0xFFFFFF);
    assert_eq!(pixel(&fb, 45, 25), RED_TILE[1][1]);
    assert_eq!(pixel(&fb, 25, 35), 0xFFFFFF);
    assert_eq!(pen(&mut fb), 0xFFFFFF);
}

#[test]
fn render_without_rays_draws_maze_and_sprite() {
    let maze = walled_room();
    let player = player_at(25, 25);
    let mut fb = cleared(50, 50);
    render(&mut fb, &player, &maze, &Vec::new());
    for y in 0..50 {
        for x in 0..50 {
            assert_eq!(pixel(&fb, x, y), room_top_view(x, y, &[]), "pixel ({}, {})", x, y);
        }
    }
    assert_eq!(pen(&mut fb), 0xFFFFFF);
}

#[test]
fn render_traces_diagonal_rays_sample_by_sample() {
    let maze = walled_room();
    let player = player_at(25, 25);
    let mut fb = cleared(50, 50);
    render(&mut fb, &player, &maze, &vec![Direction::new(-46341, -46341).unwrap()]);
    let traced = [(25, 25), (17, 17), (10, 10)];
    for y in 0..50 {
        for x in 0..50 {
            assert_eq!(pixel(&fb, x, y), room_top_view(x, y, &traced), "pixel ({}, {})", x, y);
        }
    }
}

#[test]
fn render_uses_the_block_size_that_fits_the_screen() {
    let maze = walled_room();
    let player = player_at(25, 25);
    let mut fb = cleared(80, 50);
    render(&mut fb, &player, &maze, &vec![east()]);
    for y in 0..50 {
        for x in 0..80 {
            let expected = if x < 50 { room_top_view(x, y, &[(25, 25), (35, 25)]) } else { BACKGROUND };
            assert_eq!(pixel(&fb, x, y), expected, "pixel ({}, {})", x, y);
        }
    }
}

#[test]
fn render_clips_a_sprite_at_the_edge() {
    let maze = Grid::new(rows(&["  ", "  "])).unwrap();
    let player = player_at(0, 0);
    let mut fb = cleared(20, 20);
    render(&mut fb, &player, &maze, &Vec::new());
    assert_eq!(pixel(&fb, 0, 0), 0xFFFFFF);
    assert_eq!(pixel(&fb, 1, 0), 0x000000);
    assert_eq!(pixel(&fb, 0, 1), 0x000000);
    assert_eq!(pixel(&fb, 1, 1), 0xFFFFFF);
    assert_eq!(fb.buffer().iter().filter(|&&p| p != BACKGROUND).count(), 4);
    let outside = Player { pos: Position { x: -1, y: 5 * ONE }, a: 0, fov: 0 };
    let mut fb = cleared(20, 20);
    render(&mut fb, &outside, &maze, &vec![east()]);
    assert_eq!(pixel(&fb, 0, 4), 0xFFFFFF);
    assert_eq!(pixel(&fb, 0, 5), 0x000000);
    assert_eq!(pixel(&fb, 0, 6), 0xFFFFFF);
    assert_eq!(fb.buffer().iter().filter(|&&p| p != BACKGROUND).count(), 3);
}

#[test]
fn draw_trace_paints_the_samples_before_the_hit() {
    let mut fb = cleared(60, 20);
    fb.set_current_color(0x00FF00);
    draw_trace(&mut fb, Position { x: 5 * ONE, y: 7 * ONE }, east(), 40 * ONE);
    for y in 0..20 {
        for x in 0..60 {
            let on = y == 7 && (x == 5 || x == 15 || x == 25 || x == 35);
            assert_eq!(pixel(&fb, x, y), if on { 0x00FF00 } else { BACKGROUND }, "pixel ({}, {})", x, y);
        }
    }
    assert_eq!(pen(&mut fb), 0x00FF00);
}

#[test]
fn draw_trace_of_no_length_paints_nothing() {
    let mut fb = cleared(20, 20);
    draw_trace(&mut fb, Position { x: 5 * ONE, y: 7 * ONE }, east(), 0);
    assert!(fb.buffer().iter().all(|&p| p == BACKGROUND));
}

#[test]
fn draw_trace_skips_samples_off_the_canvas() {
    let mut fb = cleared(20, 20);
    let north_west = Direction::new(-46341, -46341).unwrap();
    draw_trace(&mut fb, Position { x: 12 * ONE, y: 3 * ONE }, north_west, 30 * ONE);
    assert_eq!(pixel(&fb, 12, 3), 0xFFFFFF);
    assert_eq!(fb.buffer().iter().filter(|&&p| p != BACKGROUND).count(), 1);
    let mut fb = cleared(20, 20);
    draw_trace(&mut fb, Position { x: 12 * ONE, y: 3 * ONE }, east(), 30 * ONE);
    assert_eq!(pixel(&fb, 12, 3), 0xFFFFFF);
    assert_eq!(fb.buffer().iter().filter(|&&p| p != BACKGROUND).count(), 1);
}

#[test]
fn render_3d_draws_a_wall_between_sky_and_floor() {
    let maze = walled_room();
    let player = player_at(25, 25);
    let mut fb = cleared(50, 50);
    let rays = vec![Ray::new(east(), ONE).unwrap(); 50];
    render_3d(&mut fb, &player, &maze, &rays);
    for y in 0..50 {
        for x in 0..50 {
            let expected = if y < 24 {
                SKY
            } else if y > 26 {
                FLOOR
            } else {
                0x0C0402
            };
            assert_eq!(pixel(&fb, x, y), expected, "pixel ({}, {})", x, y);
        }
    }
    assert_eq!(pen(&mut fb), FLOOR);
}

#[test]
fn render_3d_casts_one_ray_per_column() {
    let maze = Grid::new(rows(&["+++++", "+   #", "+   #", "+   #", "+***+"])).unwrap();
    let player = player_at(25, 25);
    let mut fb = cleared(50, 50);
    let mut rays = vec![Ray::new(east(), ONE).unwrap(); 50];
    rays[0] = Ray::new(south(), 32768).unwrap();
    rays[1] = Ray::new(Direction::new(-ONE, 0).unwrap(), ONE).unwrap();
    rays[49] = Ray::new(south(), -ONE).unwrap();
    render_3d(&mut fb, &player, &maze, &rays);
    let column = |x: usize, top: usize, bottom: usize, color: u32| {
        for y in 0..50 {
            let expected = if y < top {
                SKY
            } else if y > bottom {
                FLOOR
            } else {
                color
            };
            assert_eq!(pixel(&fb, x, y), expected, "pixel ({}, {})", x, y);
        }
    };
    column(0, 23, 27, 0x0F0F0F);
    column(1, 24, 26, 0x0C0402);
    for x in 2..49 {
        column(x, 24, 26, 0x060606);
    }
    column(49, 0, 49, 0x9A9A9A);
}

#[test]
fn render_3d_shows_the_outside_of_an_open_maze_in_white() {
    let maze = Grid::new(rows(&["   ", "   ", "   "])).unwrap();
    let player = player_at(15, 15);
    let mut fb = cleared(30, 30);
    let rays = vec![Ray::new(east(), ONE).unwrap(); 30];
    render_3d(&mut fb, &player, &maze, &rays);
    for y in 0..30 {
        for x in 0..30 {
            let expected = if y < 15 {
                SKY
            } else if y > 15 {
                FLOOR
            } else {
                0x0C0C0C
            };
            assert_eq!(pixel(&fb, x, y), expected, "pixel ({}, {})", x, y);
        }
    }
}

#[test]
fn render_3d_is_the_same_for_the_same_pose() {
    let maze = walled_room();
    let player = player_at(22, 31);
    let mut rays = Vec::new();
    for i in 0..50i64 {
        let dir = if i % 2 == 0 { east() } else { Direction::new(46341, 46341).unwrap() };
        rays.push(Ray::new(dir, ONE - 100 * i).unwrap());
    }
    let mut first = cleared(50, 40);
    render_3d(&mut first, &player, &maze, &rays);
    let mut second = Framebuffer::new(50, 40);
    second.set_current_color(0x00FF00);
    second.fill_rect(0, 0, 50, 40);
    render_3d(&mut second, &player, &maze, &rays);
    assert_eq!(first.buffer(), second.buffer());
}

#[test]
fn render_3d_on_an_empty_screen_does_nothing() {
    let maze = walled_room();
    let player = player_at(25, 25);
    let mut fb = Framebuffer::new(0, 0);
    fb.set_current_color(0x123456);
    render_3d(&mut fb, &player, &maze, &Vec::new());
    assert_eq!(fb.buffer().len(), 0);
}

#[test]
fn minimap_colours_follow_the_symbols() {
    assert_eq!(minimap_color_of('+'), 0xFF5733);
    assert_eq!(minimap_color_of('#'), 0x7A7A7A);
    assert_eq!(minimap_color_of('*'), 0x9A9A9A);
    assert_eq!(minimap_color_of(' '), 0x333333);
    assert_eq!(minimap_color_of('x'), 0x333333);
}

fn room_minimap(x: usize, y: usize, mark: (usize, usize), frame: u32) -> u32 {
    if x >= mark.0 && x < mark.0 + 5 && y >= mark.1 && y < mark.1 + 5 {
        0xFFFF00
    } else if (11..36).contains(&x) && (11..36).contains(&y) {
        let col = (x - 11) / 5;
        let row = (y - 11) / 5;
        if col == 0 || col == 4 || row == 0 || row == 4 {
            0xFF5733
        } else {
            0x333333
        }
    } else if (10..37).contains(&x) && (10..37).contains(&y) {
        frame
    } else {
        BACKGROUND
    }
}

#[test]
fn minimap_has_frame_cells_and_player_mark() {
    let maze = walled_room();
    let player = player_at(25, 25);
    let mut fb = cleared(60, 60);
    fb.set_current_color(0xABCDEF);
    draw_minimap(&mut fb, &maze, &player, 10);
    for y in 0..60 {
        for x in 0..60 {
            assert_eq!(pixel(&fb, x, y), room_minimap(x, y, (23, 23), 0xABCDEF), "pixel ({}, {})", x, y);
        }
    }
    assert_eq!(pixel(&fb, 10, 10), 0xABCDEF);
    assert_eq!(pixel(&fb, 36, 36), 0xABCDEF);
    assert_eq!(pixel(&fb, 37, 10), BACKGROUND);
    assert_eq!(pixel(&fb, 11, 11), 0xFF5733);
    assert_eq!(pixel(&fb, 16, 16), 0x333333);
    assert_eq!(pixel(&fb, 23, 23), 0xFFFF00);
    assert_eq!(pixel(&fb, 27, 27), 0xFFFF00);
    assert_eq!(pixel(&fb, 28, 28), 0x333333);
    assert_eq!(pen(&mut fb), 0xFFFF00);
}

#[test]
fn minimap_mark_follows_the_player() {
    let maze = walled_room();
    let mut fb = cleared(60, 60);
    draw_minimap(&mut fb, &maze, &player_at(39, 10), 10);
    for y in 0..60 {
        for x in 0..60 {
            assert_eq!(pixel(&fb, x, y), room_minimap(x, y, (30, 16), 0xFFFFFF), "pixel ({}, {})", x, y);
        }
    }
    let mut fb = cleared(60, 60);
    draw_minimap(&mut fb, &maze, &player_at(-7, -300), 10);
    for y in 0..60 {
        for x in 0..60 {
            assert_eq!(pixel(&fb, x, y), room_minimap(x, y, (11, 11), 0xFFFFFF), "pixel ({}, {})", x, y);
        }
    }
    let mut fb = cleared(60, 60);
    let far = Player { pos: Position { x: i64::MAX, y: 25 * ONE }, a: 0, fov: 0 };
    draw_minimap(&mut fb, &maze, &far, 10);
    for y in 0..60 {
        for x in 0..60 {
            assert_eq!(pixel(&fb, x, y), room_minimap(x, y, (1000, 1000), 0xFFFFFF), "pixel ({}, {})", x, y);
        }
    }
}

#[test]
fn minimap_is_clipped_to_the_canvas() {
    let maze = walled_room();
    let mut fb = cleared(20, 14);
    fb.set_current_color(0x0000FF);
    draw_minimap(&mut fb, &maze, &player_at(25, 25), 10);
    for y in 0..14 {
        for x in 0..20 {
            assert_eq!(pixel(&fb, x, y), room_minimap(x, y, (23, 23), 0x0000FF), "pixel ({}, {})", x, y);
        }
    }
}
