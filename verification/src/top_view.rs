//! The view from above: the textured maze, the player sprite and the traces of a few rays.

use vstd::prelude::*;
use crate::caster::{cast_ray, castable, hit_distance, ray_point, RAY_STEP};
use crate::direction::Direction;
use crate::fixed::{floor_units, scale, ONE};
use crate::framebuffer::{in_rect, Framebuffer};
use crate::grid::{block_size, fitting_block_size, Grid, EMPTY};
use crate::player::{Player, Position};
use crate::projection::{apply_shadow, shadowed};
use crate::textures::{
    get_player_sprite,
    get_texture,
    is_square,
    lemma_textures_square,
    player_sprite,
    texture_of,
};

verus! {


/// The colour of a wall cell in the view from above, `dx` pixels right of and `dy` pixels
/// below the cell's corner: the cell's texture, repeated every four pixels and dimmed to
/// seven tenths.
pub open spec fn texel(symbol: char, dx: int, dy: int) -> u32 {
    shadowed(texture_of(symbol)[dy % 4][dx % 4], 7, 10)
}

/// The colour of `(x, y)` after a cell of symbol `cell` and width `block_size` was drawn
/// with its corner at `(xo, yo)` over the colour `before`. Empty cells are not drawn.
pub open spec fn cell_paint(cell: char, xo: int, yo: int, block_size: int, x: int, y: int, before: u32) -> u32 {
    if cell != EMPTY && in_rect(xo, yo, block_size, block_size, x, y) {
        texel(cell, x - xo, y - yo)
    } else {
        before
    }
}

/// Draws one maze cell in the view from above: a textured square for a wall, nothing for
/// an empty cell. The pen keeps the colour of the last pixel drawn.
pub fn draw_cell(framebuffer: &mut Framebuffer, xo: usize, yo: usize, block_size: usize, cell: char)
    requires
        xo + block_size <= usize::MAX,
        yo + block_size <= usize::MAX,
    ensures
        final(framebuffer)@.wf(),
        final(framebuffer)@.width == old(framebuffer)@.width,
        final(framebuffer)@.height == old(framebuffer)@.height,
        final(framebuffer)@.background == old(framebuffer)@.background,
        final(framebuffer)@.current == if cell == EMPTY || block_size == 0 {
            old(framebuffer)@.current
        } else {
            texel(cell, block_size - 1, block_size - 1)
        },
        forall|px: int, py: int|
            old(framebuffer)@.contains(px, py) ==> #[trigger] final(framebuffer)@.pixel(px, py)
                == cell_paint(
                cell,
                xo as int,
                yo as int,
                block_size as int,
                px,
                py,
                old(framebuffer)@.pixel(px, py),
            ),
{
    proof {
        use_type_invariant(&*framebuffer);
    }
    if cell == EMPTY {
        return ;
    }
    let texture = get_texture(cell);
    proof {
        lemma_textures_square(cell);
        assert(texture@.len() == 4);
        assert forall|r: int| 0 <= r < 4 implies (#[trigger] texture@[r])@.len() == 4 && texture@[r]@
            =~= texture_of(cell)[r] by {
            assert(texture.deep_view()[r] =~= texture@[r]@);
        }
    }
    for x in 0..block_size
        invariant
            cell != EMPTY,
            xo + block_size <= usize::MAX,
            yo + block_size <= usize::MAX,
            texture@.len() == 4,
            forall|r: int| 0 <= r < 4 ==> (#[trigger] texture@[r])@ == texture_of(cell)[r],
            is_square(texture_of(cell), 4),
            framebuffer@.wf(),
            framebuffer@.width == old(framebuffer)@.width,
            framebuffer@.height == old(framebuffer)@.height,
            framebuffer@.background == old(framebuffer)@.background,
            framebuffer@.current == if x == 0 {
                old(framebuffer)@.current
            } else {
                texel(cell, x - 1, block_size - 1)
            },
            forall|px: int, py: int|
                old(framebuffer)@.contains(px, py) ==> #[trigger] framebuffer@.pixel(px, py)
                    == if in_rect(xo as int, yo as int, x as int, block_size as int, px, py) {
                    texel(cell, px - xo, py - yo)
                } else {
                    old(framebuffer)@.pixel(px, py)
                },
    {
        for y in 0..block_size
            invariant
                cell != EMPTY,
                x < block_size,
                xo + block_size <= usize::MAX,
                yo + block_size <= usize::MAX,
                texture@.len() == 4,
                forall|r: int| 0 <= r < 4 ==> (#[trigger] texture@[r])@ == texture_of(cell)[r],
                is_square(texture_of(cell), 4),
                framebuffer@.wf(),
                framebuffer@.width == old(framebuffer)@.width,
                framebuffer@.height == old(framebuffer)@.height,
                framebuffer@.background == old(framebuffer)@.background,
                framebuffer@.current == if y > 0 {
                    texel(cell, x as int, y - 1)
                } else if x == 0 {
                    old(framebuffer)@.current
                } else {
                    texel(cell, x - 1, block_size - 1)
                },
                forall|px: int, py: int|
                    old(framebuffer)@.contains(px, py) ==> #[trigger] framebuffer@.pixel(px, py)
                        == if in_rect(xo as int, yo as int, x as int, block_size as int, px, py) || (
                    px == xo + x && yo <= py < yo + y) {
                        texel(cell, px - xo, py - yo)
                    } else {
                        old(framebuffer)@.pixel(px, py)
                    },
        {
            let color = texture[y % texture.len()][x % texture[0].len()];
            let color_with_shadow = apply_shadow(color, 7, 10);
            assert(color_with_shadow == texel(cell, x as int, y as int));
            framebuffer.plot(xo + x, yo + y, color_with_shadow);
        }
    }
}

/// The colour of `(x, y)` after the whole maze was drawn from above over the colour
/// `before`, with cells `block_size` pixels wide and the maze's corner at the origin.
pub open spec fn maze_paint(maze: &Grid, block_size: int, x: int, y: int, before: u32) -> u32 {
    let col = x / block_size;
    let row = y / block_size;
    if block_size > 0 && 0 <= row < maze.spec_rows() && 0 <= col < maze.spec_cols() {
        cell_paint(maze@[row][col], col * block_size, row * block_size, block_size, x, y, before)
    } else {
        before
    }
}

/// A pixel lies in the square of the cell that its coordinates, divided by the cell width,
/// name, and in no other.
proof fn lemma_pixel_cell(block_size: int, x: int, y: int, col: int, row: int)
    requires
        block_size > 0,
        0 <= x,
        0 <= y,
    ensures
        in_rect(col * block_size, row * block_size, block_size, block_size, x, y) <==> (col == x
            / block_size && row == y / block_size),
{
    assert(col * block_size <= x < col * block_size + block_size <==> col == x / block_size)
        by (nonlinear_arith)
        requires
            block_size > 0,
    ;
    assert(row * block_size <= y < row * block_size + block_size <==> row == y / block_size)
        by (nonlinear_arith)
        requires
            block_size > 0,
    ;
}

/// Draws every cell of the maze in the view from above.
fn draw_maze(framebuffer: &mut Framebuffer, maze: &Grid, block_size: usize)
    requires
        maze.spec_cols() * block_size <= usize::MAX,
        maze.spec_rows() * block_size <= usize::MAX,
    ensures
        final(framebuffer)@.wf(),
        final(framebuffer)@.width == old(framebuffer)@.width,
        final(framebuffer)@.height == old(framebuffer)@.height,
        final(framebuffer)@.background == old(framebuffer)@.background,
        forall|px: int, py: int|
            old(framebuffer)@.contains(px, py) ==> #[trigger] final(framebuffer)@.pixel(px, py)
                == maze_paint(maze, block_size as int, px, py, old(framebuffer)@.pixel(px, py)),
{
    proof {
        use_type_invariant(&*framebuffer);
        use_type_invariant(maze);
    }
    if block_size == 0 {
        return ;
    }
    let rows = maze.rows();
    let cols = maze.cols();
    for row in 0..rows
        invariant
            block_size > 0,
            maze.wf(),
            rows == maze.spec_rows(),
            cols == maze.spec_cols(),
            cols * block_size <= usize::MAX,
            rows * block_size <= usize::MAX,
            framebuffer@.wf(),
            framebuffer@.width == old(framebuffer)@.width,
            framebuffer@.height == old(framebuffer)@.height,
            framebuffer@.background == old(framebuffer)@.background,
            forall|px: int, py: int|
                old(framebuffer)@.contains(px, py) ==> #[trigger] framebuffer@.pixel(px, py) == if py
                    / (block_size as int) < row {
                    maze_paint(maze, block_size as int, px, py, old(framebuffer)@.pixel(px, py))
                } else {
                    old(framebuffer)@.pixel(px, py)
                },
    {
        for col in 0..cols
            invariant
                block_size > 0,
                maze.wf(),
                row < rows,
                rows == maze.spec_rows(),
                cols == maze.spec_cols(),
                cols * block_size <= usize::MAX,
                rows * block_size <= usize::MAX,
                framebuffer@.wf(),
                framebuffer@.width == old(framebuffer)@.width,
                framebuffer@.height == old(framebuffer)@.height,
                framebuffer@.background == old(framebuffer)@.background,
                forall|px: int, py: int|
                    old(framebuffer)@.contains(px, py) ==> #[trigger] framebuffer@.pixel(px, py)
                        == if py / (block_size as int) < row || (py / (block_size as int) == row
                        && px / (block_size as int) < col) {
                        maze_paint(maze, block_size as int, px, py, old(framebuffer)@.pixel(px, py))
                    } else {
                        old(framebuffer)@.pixel(px, py)
                    },
        {
            proof {
                assert((col + 1) * block_size <= cols * block_size) by (nonlinear_arith)
                    requires
                        col < cols,
                        block_size > 0,
                ;
                assert((row + 1) * block_size <= rows * block_size) by (nonlinear_arith)
                    requires
                        row < rows,
                        block_size > 0,
                ;
                assert((col + 1) * block_size == col * block_size + block_size) by (nonlinear_arith);
                assert((row + 1) * block_size == row * block_size + block_size) by (nonlinear_arith);
                assert(0 <= col * block_size && 0 <= row * block_size) by (nonlinear_arith);
            }
            let ghost before = framebuffer@;
            let cell = maze.cell_at(row, col);
            draw_cell(framebuffer, col * block_size, row * block_size, block_size, cell);
            proof {
                assert forall|px: int, py: int| old(framebuffer)@.contains(px, py) implies #[trigger] framebuffer@.pixel(
                    px,
                    py,
                ) == if py / (block_size as int) < row || (py / (block_size as int) == row && px / (
                block_size as int) < col + 1) {
                    maze_paint(maze, block_size as int, px, py, old(framebuffer)@.pixel(px, py))
                } else {
                    old(framebuffer)@.pixel(px, py)
                } by {
                    lemma_pixel_cell(block_size as int, px, py, col as int, row as int);
                    assert(before.contains(px, py));
                    lemma_pixel_cell(
                        block_size as int,
                        px,
                        py,
                        px / (block_size as int),
                        py / (block_size as int),
                    );
                }
            }
        }
        proof {
            assert forall|px: int, py: int| old(framebuffer)@.contains(px, py) implies #[trigger] framebuffer@.pixel(
                px,
                py,
            ) == if py / (block_size as int) < row + 1 {
                maze_paint(maze, block_size as int, px, py, old(framebuffer)@.pixel(px, py))
            } else {
                old(framebuffer)@.pixel(px, py)
            } by {
                assert(0 <= px / (block_size as int)) by (nonlinear_arith)
                    requires
                        px >= 0,
                        block_size > 0,
                ;
            }
        }
    }
    proof {
        assert forall|px: int, py: int| old(framebuffer)@.contains(px, py) implies #[trigger] framebuffer@.pixel(
            px,
            py,
        ) == maze_paint(maze, block_size as int, px, py, old(framebuffer)@.pixel(px, py)) by {
            assert(0 <= py / (block_size as int)) by (nonlinear_arith)
                requires
                    py >= 0,
                    block_size > 0,
            ;
            assert(0 <= px / (block_size as int)) by (nonlinear_arith)
                requires
                    px >= 0,
                    block_size > 0,
            ;
        }
    }
}

/// The pixel under a fixed-point coordinate: its whole world units.
pub open spec fn pixel_of(coord: int) -> int {
    coord / (ONE as int)
}

/// The colour of `(x, y)` after the player sprite was drawn over the colour `before`, with
/// the middle of the sprite on the pixel `(cx, cy)`.
pub open spec fn sprite_paint(cx: int, cy: int, x: int, y: int, before: u32) -> u32 {
    if in_rect(cx - 1, cy - 1, 3, 3, x, y) {
        player_sprite()[y - cy + 1][x - cx + 1]
    } else {
        before
    }
}

/// The pixel under sample number `k` of the ray from `origin` along `dir`.
pub open spec fn trace_pixel(origin: Position, dir: Direction, k: int) -> (int, int) {
    (
        pixel_of(ray_point(origin, dir, k * RAY_STEP).0),
        pixel_of(ray_point(origin, dir, k * RAY_STEP).1),
    )
}

/// Whether `(x, y)` is the pixel under one of the first `steps` samples of the ray from
/// `origin` along `dir`.
pub open spec fn on_trace(origin: Position, dir: Direction, steps: int, x: int, y: int) -> bool {
    exists|k: int| 0 <= k < steps && #[trigger] trace_pixel(origin, dir, k) == (x, y)
}

/// Whether `(x, y)` is under a sample that one of the first `count` rays of `rays` takes
/// before it stops.
pub open spec fn on_any_trace(
    maze: &Grid,
    block_size: int,
    origin: Position,
    rays: Seq<Direction>,
    count: int,
    x: int,
    y: int,
) -> bool {
    exists|i: int|
        0 <= i < count && on_trace(
            origin,
            #[trigger] rays[i],
            hit_distance(maze, block_size, origin, rays[i]) / (RAY_STEP as int),
            x,
            y,
        )
}

/// Draws the player sprite with its middle on the pixel under `pos` and leaves the colour
/// of the sprite's last corner as the pen colour.
fn draw_sprite(framebuffer: &mut Framebuffer, pos: Position)
    ensures
        final(framebuffer)@.wf(),
        final(framebuffer)@.width == old(framebuffer)@.width,
        final(framebuffer)@.height == old(framebuffer)@.height,
        final(framebuffer)@.background == old(framebuffer)@.background,
        final(framebuffer)@.current == player_sprite()[2][2],
        forall|px: int, py: int|
            old(framebuffer)@.contains(px, py) ==> #[trigger] final(framebuffer)@.pixel(px, py)
                == sprite_paint(
                pixel_of(pos.x as int),
                pixel_of(pos.y as int),
                px,
                py,
                old(framebuffer)@.pixel(px, py),
            ),
{
    proof {
        use_type_invariant(&*framebuffer);
    }
    let sprite = get_player_sprite();
    proof {
        assert(player_sprite().len() == 3);
        assert(sprite@.len() == sprite.deep_view().len());
        assert forall|r: int| 0 <= r < 3 implies (#[trigger] sprite@[r])@ =~= player_sprite()[r] by {
            assert(sprite.deep_view()[r] =~= sprite@[r]@);
        }
    }
    let cx: i128 = floor_units(pos.x as i128);
    let cy: i128 = floor_units(pos.y as i128);
    for x in 0..3usize
        invariant
            cx == pixel_of(pos.x as int),
            cy == pixel_of(pos.y as int),
            sprite@.len() == 3,
            forall|r: int| 0 <= r < 3 ==> (#[trigger] sprite@[r])@ == player_sprite()[r],
            framebuffer@.wf(),
            framebuffer@.width == old(framebuffer)@.width,
            framebuffer@.height == old(framebuffer)@.height,
            framebuffer@.background == old(framebuffer)@.background,
            x > 0 ==> framebuffer@.current == player_sprite()[2][x - 1],
            forall|px: int, py: int|
                old(framebuffer)@.contains(px, py) ==> #[trigger] framebuffer@.pixel(px, py)
                    == if in_rect(cx - 1, cy - 1, x as int, 3, px, py) {
                    player_sprite()[py - cy + 1][px - cx + 1]
                } else {
                    old(framebuffer)@.pixel(px, py)
                },
    {
        for y in 0..3usize
            invariant
                x < 3,
                cx == pixel_of(pos.x as int),
                cy == pixel_of(pos.y as int),
                sprite@.len() == 3,
                forall|r: int| 0 <= r < 3 ==> (#[trigger] sprite@[r])@ == player_sprite()[r],
                framebuffer@.wf(),
                framebuffer@.width == old(framebuffer)@.width,
                framebuffer@.height == old(framebuffer)@.height,
                framebuffer@.background == old(framebuffer)@.background,
                y > 0 ==> framebuffer@.current == player_sprite()[y - 1][x as int],
                forall|px: int, py: int|
                    old(framebuffer)@.contains(px, py) ==> #[trigger] framebuffer@.pixel(px, py)
                        == if in_rect(cx - 1, cy - 1, x as int, 3, px, py) || (px == cx - 1 + x && cy
                        - 1 <= py < cy - 1 + y) {
                        player_sprite()[py - cy + 1][px - cx + 1]
                    } else {
                        old(framebuffer)@.pixel(px, py)
                    },
        {
            let color = sprite[y][x];
            assert(color == player_sprite()[y as int][x as int]);
            let px: i128 = cx + x as i128 - 1;
            let py: i128 = cy + y as i128 - 1;
            let ghost before = framebuffer@;
            if 0 <= px && px <= usize::MAX as i128 && 0 <= py && py <= usize::MAX as i128 {
                framebuffer.plot(px as usize, py as usize, color);
            } else {
                framebuffer.set_current_color(color);
                assert forall|qx: int, qy: int| before.contains(qx, qy) implies #[trigger] framebuffer@.pixel(
                    qx,
                    qy,
                ) == before.pixel(qx, qy) by {
                }
            }
        }
    }
}

/// Paints, in the pen colour, the pixel under every sample that the ray from `origin`
/// along `dir` takes before the distance `d`.
pub fn draw_trace(framebuffer: &mut Framebuffer, origin: Position, dir: Direction, d: i64)
    requires
        d >= 0,
        d % RAY_STEP == 0,
    ensures
        final(framebuffer)@.wf(),
        final(framebuffer)@.same_frame(old(framebuffer)@),
        forall|px: int, py: int|
            old(framebuffer)@.contains(px, py) ==> #[trigger] final(framebuffer)@.pixel(px, py)
                == if on_trace(origin, dir, (d as int) / (RAY_STEP as int), px, py) {
                old(framebuffer)@.current
            } else {
                old(framebuffer)@.pixel(px, py)
            },
{
    proof {
        use_type_invariant(&*framebuffer);
    }
    let steps: i64 = d / RAY_STEP;
    let mut k: i64 = 0;
    while k < steps
        invariant
            0 <= k <= steps,
            steps == d / RAY_STEP,
            d >= 0,
            framebuffer@.wf(),
            framebuffer@.same_frame(old(framebuffer)@),
            forall|px: int, py: int|
                old(framebuffer)@.contains(px, py) ==> #[trigger] framebuffer@.pixel(px, py)
                    == if on_trace(origin, dir, k as int, px, py) {
                    old(framebuffer)@.current
                } else {
                    old(framebuffer)@.pixel(px, py)
                },
        decreases steps - k,
    {
        let e: i64 = k * RAY_STEP;
        let x: i128 = floor_units(origin.x as i128 + scale(e, dir.cos()));
        let y: i128 = floor_units(origin.y as i128 + scale(e, dir.sin()));
        let ghost before = framebuffer@;
        if 0 <= x && x <= usize::MAX as i128 && 0 <= y && y <= usize::MAX as i128 {
            framebuffer.point(x as usize, y as usize);
        }
        proof {
            assert(trace_pixel(origin, dir, k as int) == (x as int, y as int));
            assert forall|px: int, py: int| old(framebuffer)@.contains(px, py) implies #[trigger] framebuffer@.pixel(
                px,
                py,
            ) == if on_trace(origin, dir, k + 1, px, py) {
                old(framebuffer)@.current
            } else {
                old(framebuffer)@.pixel(px, py)
            } by {
                assert(before.contains(px, py));
                if on_trace(origin, dir, k as int, px, py) {
                    let w = choose|w: int| 0 <= w < k && #[trigger] trace_pixel(origin, dir, w) == (px, py);
                    assert(0 <= w < k + 1 && trace_pixel(origin, dir, w) == (px, py));
                }
                if on_trace(origin, dir, k + 1, px, py) && !on_trace(origin, dir, k as int, px, py) {
                    let w = choose|w: int|
                        0 <= w < k + 1 && #[trigger] trace_pixel(origin, dir, w) == (px, py);
                    assert(w == k);
                }
            }
        }
        k += 1;
    }
}

/// The colour of `(x, y)` in the view from above, drawn over the colour `before`: the
/// maze, on it the player sprite, and on both the trace of every ray of `rays`.
pub open spec fn top_view_paint(
    maze: &Grid,
    block_size: int,
    origin: Position,
    rays: Seq<Direction>,
    x: int,
    y: int,
    before: u32,
) -> u32 {
    if on_any_trace(maze, block_size, origin, rays, rays.len() as int, x, y) {
        player_sprite()[2][2]
    } else {
        sprite_paint(
            pixel_of(origin.x as int),
            pixel_of(origin.y as int),
            x,
            y,
            maze_paint(maze, block_size, x, y, before),
        )
    }
}

/// At the cell width that fits the screen, the maze is no wider and no higher than the
/// screen.
pub proof fn lemma_fitting_block_size(screen_width: int, screen_height: int, cols: int, rows: int)
    requires
        0 <= screen_width,
        0 <= screen_height,
        cols > 0,
        rows > 0,
    ensures
        0 <= fitting_block_size(screen_width, screen_height, cols, rows),
        cols * fitting_block_size(screen_width, screen_height, cols, rows) <= screen_width,
        rows * fitting_block_size(screen_width, screen_height, cols, rows) <= screen_height,
{
    let size = fitting_block_size(screen_width, screen_height, cols, rows);
    assert(0 <= screen_width / cols && cols * (screen_width / cols) <= screen_width)
        by (nonlinear_arith)
        requires
            0 <= screen_width,
            cols > 0,
    ;
    assert(0 <= screen_height / rows && rows * (screen_height / rows) <= screen_height)
        by (nonlinear_arith)
        requires
            0 <= screen_height,
            rows > 0,
    ;
    assert(cols * size <= cols * (screen_width / cols)) by (nonlinear_arith)
        requires
            size <= screen_width / cols,
            cols > 0,
    ;
    assert(rows * size <= rows * (screen_height / rows)) by (nonlinear_arith)
        requires
            size <= screen_height / rows,
            rows > 0,
    ;
}

/// Draws the view from above: the maze at the cell width that fits the screen, the player
/// sprite, and for each direction of `rays` the samples of the ray cast from the player
/// that way. The pen is left in the trace colour.
pub fn render(framebuffer: &mut Framebuffer, player: &Player, maze: &Grid, rays: &Vec<Direction>)
    requires
        castable(
            maze,
            fitting_block_size(
                old(framebuffer)@.width,
                old(framebuffer)@.height,
                maze.spec_cols(),
                maze.spec_rows(),
            ),
        ),
    ensures
        final(framebuffer)@.wf(),
        final(framebuffer)@.width == old(framebuffer)@.width,
        final(framebuffer)@.height == old(framebuffer)@.height,
        final(framebuffer)@.background == old(framebuffer)@.background,
        final(framebuffer)@.current == player_sprite()[2][2],
        forall|px: int, py: int|
            old(framebuffer)@.contains(px, py) ==> #[trigger] final(framebuffer)@.pixel(px, py)
                == top_view_paint(
                maze,
                fitting_block_size(
                    old(framebuffer)@.width,
                    old(framebuffer)@.height,
                    maze.spec_cols(),
                    maze.spec_rows(),
                ),
                player.pos,
                rays@,
                px,
                py,
                old(framebuffer)@.pixel(px, py),
            ),
{
    proof {
        use_type_invariant(&*framebuffer);
        use_type_invariant(maze);
        lemma_fitting_block_size(
            framebuffer@.width,
            framebuffer@.height,
            maze.spec_cols(),
            maze.spec_rows(),
        );
    }
    let block_size = block_size(framebuffer.width(), framebuffer.height(), maze);
    proof {
        assert(maze.spec_cols() * block_size == block_size * maze.spec_cols()) by (nonlinear_arith);
        assert(maze.spec_rows() * block_size == block_size * maze.spec_rows()) by (nonlinear_arith);
    }
    draw_maze(framebuffer, maze, block_size);
    draw_sprite(framebuffer, player.pos);
    let ghost inked = framebuffer@;
    let origin = player.pos;
    for i in 0..rays.len()
        invariant
            castable(maze, block_size as int),
            origin == player.pos,
            framebuffer@.wf(),
            framebuffer@.same_frame(inked),
            inked.width == old(framebuffer)@.width,
            inked.height == old(framebuffer)@.height,
            forall|px: int, py: int|
                inked.contains(px, py) ==> #[trigger] framebuffer@.pixel(px, py) == if on_any_trace(
                    maze,
                    block_size as int,
                    origin,
                    rays@,
                    i as int,
                    px,
                    py,
                ) {
                    inked.current
                } else {
                    inked.pixel(px, py)
                },
    {
        let dir = rays[i];
        let d = cast_ray(maze, player, dir, block_size);
        let ghost before = framebuffer@;
        draw_trace(framebuffer, origin, dir, d);
        proof {
            let bs = block_size as int;
            let steps = hit_distance(maze, bs, origin, dir) / (RAY_STEP as int);
            assert forall|px: int, py: int| inked.contains(px, py) implies #[trigger] framebuffer@.pixel(
                px,
                py,
            ) == if on_any_trace(maze, bs, origin, rays@, i + 1, px, py) {
                inked.current
            } else {
                inked.pixel(px, py)
            } by {
                assert(before.contains(px, py));
                let earlier = on_any_trace(maze, bs, origin, rays@, i as int, px, py);
                let now = on_trace(origin, dir, steps, px, py);
                if earlier {
                    let j = choose|j: int|
                        0 <= j < i && on_trace(
                            origin,
                            #[trigger] rays@[j],
                            hit_distance(maze, bs, origin, rays@[j]) / (RAY_STEP as int),
                            px,
                            py,
                        );
                    assert(0 <= j < i + 1 && on_trace(
                        origin,
                        rays@[j],
                        hit_distance(maze, bs, origin, rays@[j]) / (RAY_STEP as int),
                        px,
                        py,
                    ));
                }
                if now {
                    assert(rays@[i as int] == dir);
                    assert(on_trace(
                        origin,
                        rays@[i as int],
                        hit_distance(maze, bs, origin, rays@[i as int]) / (RAY_STEP as int),
                        px,
                        py,
                    ));
                }
                if on_any_trace(maze, bs, origin, rays@, i + 1, px, py) && !earlier {
                    let j = choose|j: int|
                        0 <= j < i + 1 && on_trace(
                            origin,
                            #[trigger] rays@[j],
                            hit_distance(maze, bs, origin, rays@[j]) / (RAY_STEP as int),
                            px,
                            py,
                        );
                    assert(j == i);
                }
            }
        }
    }
}

} // verus!
