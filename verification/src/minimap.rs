//! The minimap: the whole maze at a few pixels per cell, with a mark for the player.

use vstd::prelude::*;
use crate::fixed::ONE;
use crate::framebuffer::{in_rect, Framebuffer};
use crate::grid::Grid;
use crate::player::{Player, Position};

verus! {

/// The width in pixels of one maze cell on the minimap.
pub const MINIMAP_SCALE: usize = 5;

/// The distance of the minimap's frame from the top and the left of the screen.
pub const MINIMAP_MARGIN: usize = 10;

/// The colour of the player's mark on the minimap.
pub const MINIMAP_PLAYER_COLOR: u32 = 0xFFFF00;

/// The colour of a cell on the minimap, by its symbol.
pub open spec fn minimap_color(symbol: char) -> u32 {
    if symbol == '+' {
        0xFF5733
    } else if symbol == '#' {
        0x7A7A7A
    } else if symbol == '*' {
        0x9A9A9A
    } else {
        0x333333
    }
}

/// Looks up the colour of a cell on the minimap.
pub fn minimap_color_of(symbol: char) -> (color: u32)
    ensures
        color == minimap_color(symbol),
{
    match symbol {
        '+' => 0xFF5733,
        '#' => 0x7A7A7A,
        '*' => 0x9A9A9A,
        _ => 0x333333,
    }
}

/// How many minimap pixels the world coordinate `coord` lies from the minimap's edge:
/// the coordinate in cells times the minimap scale, rounded down. Coordinates left of or
/// above the world count as zero.
pub open spec fn minimap_offset(coord: int, block_size: int) -> int {
    if coord < 0 {
        0
    } else {
        coord * MINIMAP_SCALE / (block_size * ONE)
    }
}

/// The colour of `(x, y)` after the minimap was drawn over the colour `before` while the
/// pen had the colour `pen`: a frame one pixel wide in the pen colour, inside it one square
/// per cell, and on top the player's mark.
pub open spec fn minimap_paint(
    maze: &Grid,
    block_size: int,
    pos: Position,
    pen: u32,
    x: int,
    y: int,
    before: u32,
) -> u32 {
    let inner = MINIMAP_MARGIN + 1;
    let width = maze.spec_cols() * MINIMAP_SCALE;
    let height = maze.spec_rows() * MINIMAP_SCALE;
    if in_rect(
        inner + minimap_offset(pos.x as int, block_size),
        inner + minimap_offset(pos.y as int, block_size),
        MINIMAP_SCALE as int,
        MINIMAP_SCALE as int,
        x,
        y,
    ) {
        MINIMAP_PLAYER_COLOR
    } else if in_rect(inner, inner, width, height, x, y) {
        minimap_color(maze@[(y - inner) / (MINIMAP_SCALE as int)][(x - inner) / (MINIMAP_SCALE as int)])
    } else if in_rect(MINIMAP_MARGIN as int, MINIMAP_MARGIN as int, width + 2, height + 2, x, y) {
        pen
    } else {
        before
    }
}

/// The screen coordinate of the player's mark for the world coordinate `coord`, or `None`
/// where that lies beyond every screen.
fn minimap_mark(coord: i64, block_size: usize) -> (mark: Option<usize>)
    requires
        block_size > 0,
    ensures
        mark matches Some(m) ==> m == MINIMAP_MARGIN + 1 + minimap_offset(
            coord as int,
            block_size as int,
        ),
        mark is None ==> MINIMAP_MARGIN + 1 + minimap_offset(coord as int, block_size as int)
            > usize::MAX,
{
    let offset: u128 = if coord < 0 {
        0
    } else {
        (coord as u128 * 5) / (block_size as u128 * 65536)
    };
    if offset <= usize::MAX as u128 && offset as usize <= usize::MAX - 11 {
        Some(11 + offset as usize)
    } else {
        None
    }
}

/// Draws the minimap in the top left corner: a frame in the current pen colour, the maze
/// at five pixels per cell, and a yellow square for the player. The pen is left yellow.
pub fn draw_minimap(framebuffer: &mut Framebuffer, maze: &Grid, player: &Player, block_size: usize)
    requires
        block_size > 0,
        maze.spec_cols() * MINIMAP_SCALE + 2 * MINIMAP_MARGIN <= usize::MAX,
        maze.spec_rows() * MINIMAP_SCALE + 2 * MINIMAP_MARGIN <= usize::MAX,
    ensures
        final(framebuffer)@.wf(),
        final(framebuffer)@.width == old(framebuffer)@.width,
        final(framebuffer)@.height == old(framebuffer)@.height,
        final(framebuffer)@.background == old(framebuffer)@.background,
        final(framebuffer)@.current == MINIMAP_PLAYER_COLOR,
        forall|px: int, py: int|
            old(framebuffer)@.contains(px, py) ==> #[trigger] final(framebuffer)@.pixel(px, py)
                == minimap_paint(
                maze,
                block_size as int,
                player.pos,
                old(framebuffer)@.current,
                px,
                py,
                old(framebuffer)@.pixel(px, py),
            ),
{
    proof {
        use_type_invariant(&*framebuffer);
        use_type_invariant(maze);
    }
    let rows = maze.rows();
    let cols = maze.cols();
    let minimap_width = cols * MINIMAP_SCALE;
    let minimap_height = rows * MINIMAP_SCALE;
    let minimap_x = MINIMAP_MARGIN;
    let minimap_y = MINIMAP_MARGIN;
    let ghost pen = framebuffer@.current;

    framebuffer.fill_rect(minimap_x, minimap_y, minimap_width + 2, 1);
    framebuffer.fill_rect(minimap_x, minimap_y + minimap_height + 1, minimap_width + 2, 1);
    framebuffer.fill_rect(minimap_x, minimap_y, 1, minimap_height + 2);
    framebuffer.fill_rect(minimap_x + minimap_width + 1, minimap_y, 1, minimap_height + 2);
    let ghost framed = framebuffer@;
    assert forall|px: int, py: int| old(framebuffer)@.contains(px, py) implies #[trigger] framed.pixel(
        px,
        py,
    ) == if in_rect(10, 10, minimap_width + 2, minimap_height + 2, px, py) && !in_rect(
        11,
        11,
        minimap_width as int,
        minimap_height as int,
        px,
        py,
    ) {
        pen
    } else {
        old(framebuffer)@.pixel(px, py)
    } by {
    }

    for y in 0..rows
        invariant
            maze.wf(),
            rows == maze.spec_rows(),
            cols == maze.spec_cols(),
            minimap_x == 10,
            minimap_y == 10,
            minimap_width == cols * 5,
            minimap_height == rows * 5,
            minimap_width + 20 <= usize::MAX,
            minimap_height + 20 <= usize::MAX,
            framebuffer@.wf(),
            framebuffer@.width == old(framebuffer)@.width,
            framebuffer@.height == old(framebuffer)@.height,
            framebuffer@.background == old(framebuffer)@.background,
            framed.width == old(framebuffer)@.width,
            framed.height == old(framebuffer)@.height,
            forall|px: int, py: int|
                old(framebuffer)@.contains(px, py) ==> #[trigger] framebuffer@.pixel(px, py)
                    == if in_rect(11, 11, minimap_width as int, 5 * y, px, py) {
                    minimap_color(maze@[(py - 11) / 5][(px - 11) / 5])
                } else {
                    framed.pixel(px, py)
                },
    {
        for x in 0..cols
            invariant
                maze.wf(),
                y < rows,
                rows == maze.spec_rows(),
                cols == maze.spec_cols(),
                minimap_x == 10,
                minimap_y == 10,
                minimap_width == cols * 5,
                minimap_height == rows * 5,
                minimap_width + 20 <= usize::MAX,
                minimap_height + 20 <= usize::MAX,
                framebuffer@.wf(),
                framebuffer@.width == old(framebuffer)@.width,
                framebuffer@.height == old(framebuffer)@.height,
                framebuffer@.background == old(framebuffer)@.background,
                framed.width == old(framebuffer)@.width,
                framed.height == old(framebuffer)@.height,
                forall|px: int, py: int|
                    old(framebuffer)@.contains(px, py) ==> #[trigger] framebuffer@.pixel(px, py)
                        == if in_rect(11, 11, minimap_width as int, 5 * y, px, py) || in_rect(
                        11,
                        11 + 5 * y,
                        5 * x,
                        5,
                        px,
                        py,
                    ) {
                        minimap_color(maze@[(py - 11) / 5][(px - 11) / 5])
                    } else {
                        framed.pixel(px, py)
                    },
        {
            let cell = maze.cell_at(y, x);
            let ghost before = framebuffer@;
            framebuffer.set_current_color(minimap_color_of(cell));
            let ghost inked = framebuffer@;
            framebuffer.fill_rect(
                minimap_x + x * MINIMAP_SCALE + 1,
                minimap_y + y * MINIMAP_SCALE + 1,
                MINIMAP_SCALE,
                MINIMAP_SCALE,
            );
            assert forall|px: int, py: int| old(framebuffer)@.contains(px, py) implies #[trigger] framebuffer@.pixel(
                px,
                py,
            ) == if in_rect(11, 11, minimap_width as int, 5 * y, px, py) || in_rect(
                11,
                11 + 5 * y,
                5 * (x + 1),
                5,
                px,
                py,
            ) {
                minimap_color(maze@[(py - 11) / 5][(px - 11) / 5])
            } else {
                framed.pixel(px, py)
            } by {
                assert(inked.contains(px, py));
                assert(inked.pixel(px, py) == before.pixel(px, py));
            }
        }
    }

    let ghost mapped = framebuffer@;
    framebuffer.set_current_color(MINIMAP_PLAYER_COLOR);
    let ghost inked = framebuffer@;
    let mark_x = minimap_mark(player.pos.x, block_size);
    let mark_y = minimap_mark(player.pos.y, block_size);
    match (mark_x, mark_y) {
        (Some(player_minimap_x), Some(player_minimap_y)) => {
            framebuffer.fill_rect(player_minimap_x, player_minimap_y, MINIMAP_SCALE, MINIMAP_SCALE);
        },
        _ => {},
    }
    assert forall|px: int, py: int| old(framebuffer)@.contains(px, py) implies #[trigger] framebuffer@.pixel(
        px,
        py,
    ) == minimap_paint(
        maze,
        block_size as int,
        player.pos,
        pen,
        px,
        py,
        old(framebuffer)@.pixel(px, py),
    ) by {
        assert(inked.contains(px, py));
        assert(framed.contains(px, py));
        assert(inked.pixel(px, py) == mapped.pixel(px, py));
    }
}

} // verus!
