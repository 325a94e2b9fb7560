//! The first-person view: one ray and one screen column per pixel column.

use vstd::prelude::*;
use crate::caster::{cast_ray, castable, hit_distance, ray_point};
use crate::fixed::scale;
use crate::framebuffer::Framebuffer;
use crate::grid::{block_size, fitting_block_size, Grid};
use crate::player::{Player, Position};
use crate::projection::{color_of_struck, project_column, projected, struck_color, Ray, ScreenColumn};

verus! {

/// What the screen column of `ray` shows on a screen `screen_height` pixels high: the ray
/// is marched from `origin` until it stops, and what it struck is projected.
pub open spec fn view_column(
    maze: &Grid,
    block_size: int,
    origin: Position,
    ray: Ray,
    screen_height: int,
) -> ScreenColumn {
    let d = hit_distance(maze, block_size, origin, ray.dir());
    let struck = ray_point(origin, ray.dir(), d);
    projected(
        d,
        ray.cos_offset() as int,
        screen_height,
        struck_color(maze.symbol(block_size, struck.0, struck.1)),
    )
}

/// Draws the first-person view: column `x` of the screen shows what the ray `rays[x]`,
/// cast from the player, strikes, as a wall between sky and floor. The pen keeps the
/// colour of the last pixel drawn.
pub fn render_3d(framebuffer: &mut Framebuffer, player: &Player, maze: &Grid, rays: &Vec<Ray>)
    requires
        rays.len() == old(framebuffer)@.width,
        castable(
            maze,
            fitting_block_size(
                old(framebuffer)@.width,
                old(framebuffer)@.height,
                maze.spec_cols(),
                maze.spec_rows(),
            ),
        ),
    ensures
        final(framebuffer)@.wf(),
        final(framebuffer)@.width == old(framebuffer)@.width,
        final(framebuffer)@.height == old(framebuffer)@.height,
        final(framebuffer)@.background == old(framebuffer)@.background,
        final(framebuffer)@.current == if old(framebuffer)@.width > 0 && old(framebuffer)@.height
            > 0 {
            view_column(
                maze,
                fitting_block_size(
                    old(framebuffer)@.width,
                    old(framebuffer)@.height,
                    maze.spec_cols(),
                    maze.spec_rows(),
                ),
                player.pos,
                rays@[old(framebuffer)@.width - 1],
                old(framebuffer)@.height,
            ).pixel(old(framebuffer)@.height - 1)
        } else {
            old(framebuffer)@.current
        },
        forall|px: int, py: int|
            old(framebuffer)@.contains(px, py) ==> #[trigger] final(framebuffer)@.pixel(px, py)
                == view_column(
                maze,
                fitting_block_size(
                    old(framebuffer)@.width,
                    old(framebuffer)@.height,
                    maze.spec_cols(),
                    maze.spec_rows(),
                ),
                player.pos,
                rays@[px],
                old(framebuffer)@.height,
            ).pixel(py),
{
    proof {
        use_type_invariant(&*framebuffer);
        use_type_invariant(maze);
    }
    let width = framebuffer.width();
    let height = framebuffer.height();
    if height == 0 {
        return ;
    }
    let block_size = block_size(width, height, maze);
    let origin = player.pos;
    for x in 0..width
        invariant
            castable(maze, block_size as int),
            origin == player.pos,
            height > 0,
            rays.len() == width,
            width == old(framebuffer)@.width,
            height == old(framebuffer)@.height,
            framebuffer@.wf(),
            framebuffer@.width == old(framebuffer)@.width,
            framebuffer@.height == old(framebuffer)@.height,
            framebuffer@.background == old(framebuffer)@.background,
            framebuffer@.current == if x > 0 {
                view_column(maze, block_size as int, origin, rays@[x - 1], height as int).pixel(
                    height - 1,
                )
            } else {
                old(framebuffer)@.current
            },
            forall|px: int, py: int|
                old(framebuffer)@.contains(px, py) ==> #[trigger] framebuffer@.pixel(px, py) == if px
                    < x {
                    view_column(maze, block_size as int, origin, rays@[px], height as int).pixel(py)
                } else {
                    old(framebuffer)@.pixel(px, py)
                },
    {
        let ray = rays[x];
        proof {
            use_type_invariant(ray);
        }
        let dir = ray.dir();
        let d = cast_ray(maze, player, dir, block_size);
        let struck_x = origin.x as i128 + scale(d, dir.cos());
        let struck_y = origin.y as i128 + scale(d, dir.sin());
        let color = color_of_struck(maze.symbol_wide(block_size, struck_x, struck_y));
        let column = project_column(d, ray.cos_offset(), height, color);
        assert(column == view_column(maze, block_size as int, origin, ray, height as int));
        for y in 0..height
            invariant
                x < width,
                width == old(framebuffer)@.width,
                height == old(framebuffer)@.height,
                rays@[x as int] == ray,
                column == view_column(maze, block_size as int, origin, ray, height as int),
                framebuffer@.wf(),
                framebuffer@.width == old(framebuffer)@.width,
                framebuffer@.height == old(framebuffer)@.height,
                framebuffer@.background == old(framebuffer)@.background,
                framebuffer@.current == if y > 0 {
                    column.pixel(y - 1)
                } else if x > 0 {
                    view_column(maze, block_size as int, origin, rays@[x - 1], height as int).pixel(
                        height - 1,
                    )
                } else {
                    old(framebuffer)@.current
                },
                forall|px: int, py: int|
                    old(framebuffer)@.contains(px, py) ==> #[trigger] framebuffer@.pixel(px, py)
                        == if px < x {
                        view_column(maze, block_size as int, origin, rays@[px], height as int).pixel(
                            py,
                        )
                    } else if px == x && py < y {
                        column.pixel(py)
                    } else {
                        old(framebuffer)@.pixel(px, py)
                    },
        {
            framebuffer.plot(x, y, column.color_at(y));
        }
    }
}

} // verus!
