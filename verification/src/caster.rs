//! The ray marcher: walks a ray through the maze in fixed steps until it meets something solid.

use vstd::prelude::*;
use crate::direction::{lemma_unit_components, Direction};
use crate::fixed::{scale, scaled, ONE};
use crate::grid::{extent, lemma_on_grid_iff_in_extent, Grid};
use crate::player::{Player, Position};

verus! {

/// The distance between two samples of a ray: ten world units.
pub const RAY_STEP: i64 = 655360;

/// The largest `cells * block_size` that `cast_ray` accepts along either axis: with it,
/// twice the extent of the world and one more step still fit in an `i64`.
pub const MAX_CASTABLE_SPAN: u128 = 70368744177658;

/// The point at distance `d` from `origin` along `dir`.
pub open spec fn ray_point(origin: Position, dir: Direction, d: int) -> (int, int) {
    (origin.x + scaled(d, dir.cos() as int), origin.y + scaled(d, dir.sin() as int))
}

/// Whether the ray from `origin` along `dir` is in something solid at distance `d`.
pub open spec fn ray_blocked(maze: &Grid, block_size: int, origin: Position, dir: Direction, d: int) -> bool {
    maze.blocked(block_size, ray_point(origin, dir, d).0, ray_point(origin, dir, d).1)
}

/// A distance that no ray starting inside the maze can travel without leaving it: twice
/// the longer side of the world.
pub open spec fn ray_reach(maze: &Grid, block_size: int) -> int {
    if maze.spec_cols() >= maze.spec_rows() {
        2 * extent(maze.spec_cols(), block_size)
    } else {
        2 * extent(maze.spec_rows(), block_size)
    }
}

/// Whether every distance that a march through `maze` can reach fits in an `i64`.
pub open spec fn castable(maze: &Grid, block_size: int) -> bool {
    block_size > 0 && ray_reach(maze, block_size) + RAY_STEP <= i64::MAX
}

/// Whether `d` is where the march stops: a whole number of steps, solid there, and free
/// at every sample before it.
pub open spec fn is_first_hit(maze: &Grid, block_size: int, origin: Position, dir: Direction, d: int) -> bool {
    &&& d >= 0
    &&& d % (RAY_STEP as int) == 0
    &&& ray_blocked(maze, block_size, origin, dir, d)
    &&& forall|e: int|
        0 <= e < d && e % (RAY_STEP as int) == 0 ==> !#[trigger] ray_blocked(
            maze,
            block_size,
            origin,
            dir,
            e,
        )
}

/// The distance at which the march from `origin` along `dir` stops.
pub open spec fn hit_distance(maze: &Grid, block_size: int, origin: Position, dir: Direction) -> int {
    choose|d: int| is_first_hit(maze, block_size, origin, dir, d)
}

/// The march has one answer: two distances that both are the first hit are equal.
pub proof fn lemma_first_hit_unique(
    maze: &Grid,
    block_size: int,
    origin: Position,
    dir: Direction,
    d1: int,
    d2: int,
)
    requires
        is_first_hit(maze, block_size, origin, dir, d1),
        is_first_hit(maze, block_size, origin, dir, d2),
    ensures
        d1 == d2,
{
    if d1 < d2 {
        assert(!ray_blocked(maze, block_size, origin, dir, d1));
    }
    if d2 < d1 {
        assert(!ray_blocked(maze, block_size, origin, dir, d2));
    }
}

/// A wall that the ray first meets after a whole number of steps is reported at exactly
/// that distance.
pub proof fn lemma_wall_at_whole_steps(
    maze: &Grid,
    block_size: int,
    origin: Position,
    dir: Direction,
    steps: int,
)
    requires
        steps >= 0,
        ray_blocked(maze, block_size, origin, dir, steps * RAY_STEP),
        forall|k: int|
            0 <= k < steps ==> !#[trigger] ray_blocked(maze, block_size, origin, dir, k * RAY_STEP),
    ensures
        hit_distance(maze, block_size, origin, dir) == steps * RAY_STEP,
{
    let d = steps * RAY_STEP;
    assert forall|e: int| 0 <= e < d && e % (RAY_STEP as int) == 0 implies !#[trigger] ray_blocked(
        maze,
        block_size,
        origin,
        dir,
        e,
    ) by {
        let k = e / (RAY_STEP as int);
        assert(e == k * RAY_STEP);
        assert(0 <= k < steps);
        assert(!ray_blocked(maze, block_size, origin, dir, k * RAY_STEP));
    }
    assert(is_first_hit(maze, block_size, origin, dir, d));
    lemma_first_hit_unique(maze, block_size, origin, dir, d, hit_distance(maze, block_size, origin, dir));
}

/// A ray that starts on a free cell has left the maze before it has travelled `ray_reach`:
/// wherever it is still free, it has travelled less.
pub proof fn lemma_ray_escapes(maze: &Grid, block_size: int, origin: Position, dir: Direction, d: int)
    requires
        maze.wf(),
        block_size > 0,
        dir.wf(),
        d >= 0,
        !maze.blocked(block_size, origin.x as int, origin.y as int),
        !ray_blocked(maze, block_size, origin, dir, d),
    ensures
        d < ray_reach(maze, block_size),
{
    let cols = maze.spec_cols();
    let rows = maze.spec_rows();
    let width = extent(cols, block_size);
    let height = extent(rows, block_size);
    let (x, y) = ray_point(origin, dir, d);
    lemma_on_grid_iff_in_extent(origin.x as int, block_size, cols);
    lemma_on_grid_iff_in_extent(origin.y as int, block_size, rows);
    lemma_on_grid_iff_in_extent(x, block_size, cols);
    lemma_on_grid_iff_in_extent(y, block_size, rows);
    lemma_unit_components(dir.cos() as int, dir.sin() as int);
    lemma_half_speed(d, dir.cos() as int);
    lemma_half_speed(d, dir.sin() as int);
    if cols >= rows {
        assert(height <= width) by (nonlinear_arith)
            requires
                height == rows * block_size * ONE,
                width == cols * block_size * ONE,
                cols >= rows,
                block_size > 0,
        ;
    } else {
        assert(width <= height) by (nonlinear_arith)
            requires
                height == rows * block_size * ONE,
                width == cols * block_size * ONE,
                cols < rows,
                block_size > 0,
        ;
    }
}

/// No march runs on for ever: whatever the maze holds, and also where its border is open,
/// the ray stops at a sample that is solid, after less than `ray_reach` and one step.
pub proof fn lemma_march_ends(maze: &Grid, block_size: int, origin: Position, dir: Direction)
    requires
        maze.wf(),
        block_size > 0,
        dir.wf(),
    ensures
        is_first_hit(maze, block_size, origin, dir, hit_distance(maze, block_size, origin, dir)),
        hit_distance(maze, block_size, origin, dir) < ray_reach(maze, block_size) + RAY_STEP,
{
    let steps = lemma_march_ends_after(maze, block_size, origin, dir, 0);
    lemma_wall_at_whole_steps(maze, block_size, origin, dir, steps);
    assert(is_first_hit(maze, block_size, origin, dir, steps * RAY_STEP)) by {
        assert forall|e: int|
            0 <= e < steps * RAY_STEP && e % (RAY_STEP as int) == 0 implies !#[trigger] ray_blocked(
            maze,
            block_size,
            origin,
            dir,
            e,
        ) by {
            let k = e / (RAY_STEP as int);
            assert(e == k * RAY_STEP);
            assert(!ray_blocked(maze, block_size, origin, dir, k * RAY_STEP));
        }
    }
}

/// A march that is free at its first `k` samples stops at some later sample, within reach.
proof fn lemma_march_ends_after(
    maze: &Grid,
    block_size: int,
    origin: Position,
    dir: Direction,
    k: int,
) -> (steps: int)
    requires
        maze.wf(),
        block_size > 0,
        dir.wf(),
        0 <= k,
        k * RAY_STEP < ray_reach(maze, block_size) + RAY_STEP,
        forall|j: int| 0 <= j < k ==> !#[trigger] ray_blocked(maze, block_size, origin, dir, j * RAY_STEP),
    ensures
        k <= steps,
        steps * RAY_STEP < ray_reach(maze, block_size) + RAY_STEP,
        ray_blocked(maze, block_size, origin, dir, steps * RAY_STEP),
        forall|j: int|
            0 <= j < steps ==> !#[trigger] ray_blocked(maze, block_size, origin, dir, j * RAY_STEP),
    decreases ray_reach(maze, block_size) + RAY_STEP - k * RAY_STEP,
{
    if ray_blocked(maze, block_size, origin, dir, k * RAY_STEP) {
        k
    } else {
        assert(ray_point(origin, dir, 0) == (origin.x as int, origin.y as int));
        assert(!ray_blocked(maze, block_size, origin, dir, 0 * RAY_STEP));
        lemma_ray_escapes(maze, block_size, origin, dir, k * RAY_STEP);
        lemma_march_ends_after(maze, block_size, origin, dir, k + 1)
    }
}

/// Along a component of at least half a unit, a ray advances at least half its distance.
proof fn lemma_half_speed(d: int, component: int)
    requires
        d >= 0,
    ensures
        component >= ONE / 2 ==> scaled(d, component) >= d / 2,
        component <= -(ONE / 2) ==> scaled(d, component) <= (-d) / 2,
{
    if component >= 32768 {
        assert(d * component >= d * 32768) by (nonlinear_arith)
            requires
                d >= 0,
                component >= 32768,
        ;
    }
    if component <= -32768 {
        assert(d * component <= d * (-32768)) by (nonlinear_arith)
            requires
                d >= 0,
                component <= -32768,
        ;
    }
}

/// Tells whether `cast_ray` can march through `maze` at this cell width.
pub fn can_cast(maze: &Grid, block_size: usize) -> (ok: bool)
    ensures
        ok == castable(maze, block_size as int),
{
    if block_size == 0 {
        return false;
    }
    let cols = maze.cols();
    let rows = maze.rows();
    let cells = if cols >= rows {
        cols
    } else {
        rows
    };
    assert(cells as u128 * block_size as u128 <= 0xffff_ffff_ffff_ffff * 0xffff_ffff_ffff_ffff)
        by (nonlinear_arith)
        requires
            cells <= 0xffff_ffff_ffff_ffff,
            block_size <= 0xffff_ffff_ffff_ffff,
    ;
    let span: u128 = cells as u128 * block_size as u128;
    assert(2 * (cells * block_size * ONE) == 131072 * span) by (nonlinear_arith)
        requires
            span == cells * block_size,
    ;
    span <= MAX_CASTABLE_SPAN
}

/// Marches from the player's position along `dir`, one `RAY_STEP` at a time, and returns
/// the distance of the first sample that is in a wall or off the grid.
pub fn cast_ray(maze: &Grid, player: &Player, dir: Direction, block_size: usize) -> (d: i64)
    requires
        castable(maze, block_size as int),
    ensures
        is_first_hit(maze, block_size as int, player.pos, dir, d as int),
        d == hit_distance(maze, block_size as int, player.pos, dir),
        d < ray_reach(maze, block_size as int) + RAY_STEP,
{
    proof {
        use_type_invariant(maze);
        use_type_invariant(dir);
    }
    let mut d: i64 = 0;
    loop
        invariant
            maze.wf(),
            castable(maze, block_size as int),
            dir.wf(),
            0 <= d < ray_reach(maze, block_size as int) + RAY_STEP,
            d % RAY_STEP == 0,
            forall|e: int|
                0 <= e < d && e % (RAY_STEP as int) == 0 ==> !#[trigger] ray_blocked(
                    maze,
                    block_size as int,
                    player.pos,
                    dir,
                    e,
                ),
        ensures
            is_first_hit(maze, block_size as int, player.pos, dir, d as int),
            d < ray_reach(maze, block_size as int) + RAY_STEP,
        decreases ray_reach(maze, block_size as int) + RAY_STEP - d,
    {
        let x = player.pos.x as i128 + scale(d, dir.cos());
        let y = player.pos.y as i128 + scale(d, dir.sin());
        if maze.is_blocked_wide(block_size, x, y) {
            break ;
        }
        proof {
            let origin = player.pos;
            assert(ray_point(origin, dir, 0) == (origin.x as int, origin.y as int));
            assert(!ray_blocked(maze, block_size as int, origin, dir, 0));
            lemma_ray_escapes(maze, block_size as int, origin, dir, d as int);
            let next = d + RAY_STEP;
            assert forall|e: int| 0 <= e < next && e % (RAY_STEP as int) == 0 implies !#[trigger] ray_blocked(
                maze,
                block_size as int,
                origin,
                dir,
                e,
            ) by {
                if e > d {
                    assert(e % 655360 == 0 && d % 655360 == 0 ==> e >= d + 655360);
                }
            }
        }
        d = d + RAY_STEP;
    }
    proof {
        lemma_first_hit_unique(
            maze,
            block_size as int,
            player.pos,
            dir,
            d as int,
            hit_distance(maze, block_size as int, player.pos, dir),
        );
    }
    d
}

} // verus!
