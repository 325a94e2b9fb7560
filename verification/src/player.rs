//! The player: a position, a heading and a field of view, moved against the maze.

use vstd::prelude::*;
use crate::direction::Direction;
use crate::fixed::{scale, scale_negated, scaled};
use crate::grid::Grid;

verus! {

/// A point of the world in fixed-point world units. `x` grows to the right, `y` downwards.
#[derive(Clone, Copy, Debug, PartialEq, Eq, Structural)]
pub struct Position {
    pub x: i64,
    pub y: i64,
}

/// The player's pose. The heading `a` and the field of view `fov` are fixed-point radians;
/// the heading is never normalised.
#[derive(Clone, Copy, Debug, PartialEq, Eq, Structural)]
pub struct Player {
    pub pos: Position,
    pub a: i64,
    pub fov: i64,
}

/// Whether the point `(x, y)` can be stored in a `Position`.
pub open spec fn representable(x: int, y: int) -> bool {
    i64::MIN <= x <= i64::MAX && i64::MIN <= y <= i64::MAX
}

/// The outcome of trying to move from `pos` to the candidate point `(x, y)`: the candidate
/// if it can be stored and is not solid, otherwise `pos` itself.
pub open spec fn after_move(pos: Position, x: int, y: int, maze: &Grid, block_size: int) -> Position {
    if representable(x, y) && !maze.blocked(block_size, x, y) {
        Position { x: x as i64, y: y as i64 }
    } else {
        pos
    }
}

/// A move whose candidate point is solid changes nothing, whatever the heading and the
/// direction of the step were.
pub proof fn lemma_blocked_move_keeps_position(pos: Position, x: int, y: int, maze: &Grid, block_size: int)
    requires
        maze.blocked(block_size, x, y),
    ensures
        after_move(pos, x, y, maze, block_size) == pos,
{
}

/// A move whose candidate point is free and can be stored ends on that point, in both
/// coordinates at once.
pub proof fn lemma_free_move_reaches_candidate(pos: Position, x: int, y: int, maze: &Grid, block_size: int)
    requires
        representable(x, y),
        !maze.blocked(block_size, x, y),
    ensures
        after_move(pos, x, y, maze, block_size).x == x,
        after_move(pos, x, y, maze, block_size).y == y,
{
}

/// The pose after `turns` right turns of `speed` each.
pub open spec fn after_turns(player: Player, speed: int, turns: nat) -> Player
    decreases turns,
{
    if turns == 0 {
        player
    } else {
        after_turns(player, speed, (turns - 1) as nat).turned(speed)
    }
}

/// Turns never move the player, and repeated turns add up: after `turns` turns of `speed`
/// each, the heading has grown by `turns * speed`.
pub proof fn lemma_turns_accumulate(player: Player, speed: int, turns: nat)
    requires
        i64::MIN <= player.a + turns * speed <= i64::MAX,
    ensures
        after_turns(player, speed, turns).a == player.a + turns * speed,
        after_turns(player, speed, turns).pos == player.pos,
        after_turns(player, speed, turns).fov == player.fov,
    decreases turns,
{
    if turns > 0 {
        let before = (turns - 1) as nat;
        assert(before * speed + speed == turns * speed) by (nonlinear_arith)
            requires
                before + 1 == turns,
        ;
        assert((speed >= 0 ==> 0 <= before * speed <= turns * speed) && (speed <= 0 ==> turns
            * speed <= before * speed <= 0)) by (nonlinear_arith)
            requires
                before + 1 == turns,
                before >= 0,
        ;
        lemma_turns_accumulate(player, speed, before);
    } else {
        assert(turns * speed == 0) by (nonlinear_arith)
            requires
                turns == 0,
        ;
    }
}

impl Player {
    /// The pose after a turn to the right by `angle`, or to the left by its opposite: only
    /// the heading changes.
    pub open spec fn turned(self, angle: int) -> Player {
        Player { pos: self.pos, a: (self.a + angle) as i64, fov: self.fov }
    }

    /// Commits the candidate point `(x, y)` if it is free, and leaves the pose alone if not.
    fn try_move(&mut self, x: i128, y: i128, maze: &Grid, block_size: usize)
        requires
            block_size > 0,
        ensures
            final(self).pos == after_move(old(self).pos, x as int, y as int, maze, block_size as int),
            final(self).a == old(self).a,
            final(self).fov == old(self).fov,
    {
        if !maze.is_blocked_wide(block_size, x, y) {
            if -0x8000_0000_0000_0000 <= x && x <= 0x7fff_ffff_ffff_ffff && -0x8000_0000_0000_0000
                <= y && y <= 0x7fff_ffff_ffff_ffff {
                self.pos = Position { x: x as i64, y: y as i64 };
            }
        }
    }

    /// Steps `speed` along the heading `dir`, unless the point reached is solid.
    pub fn move_forward(&mut self, dir: Direction, speed: i64, maze: &Grid, block_size: usize)
        requires
            block_size > 0,
        ensures
            final(self).pos == after_move(
                old(self).pos,
                old(self).pos.x + scaled(speed as int, dir.cos() as int),
                old(self).pos.y + scaled(speed as int, dir.sin() as int),
                maze,
                block_size as int,
            ),
            final(self).a == old(self).a,
            final(self).fov == old(self).fov,
    {
        let x = self.pos.x as i128 + scale(speed, dir.cos());
        let y = self.pos.y as i128 + scale(speed, dir.sin());
        self.try_move(x, y, maze, block_size);
    }

    /// Steps `speed` against the heading `dir`, unless the point reached is solid.
    pub fn move_backward(&mut self, dir: Direction, speed: i64, maze: &Grid, block_size: usize)
        requires
            block_size > 0,
        ensures
            final(self).pos == after_move(
                old(self).pos,
                old(self).pos.x - scaled(speed as int, dir.cos() as int),
                old(self).pos.y - scaled(speed as int, dir.sin() as int),
                maze,
                block_size as int,
            ),
            final(self).a == old(self).a,
            final(self).fov == old(self).fov,
    {
        let x = self.pos.x as i128 - scale(speed, dir.cos());
        let y = self.pos.y as i128 - scale(speed, dir.sin());
        self.try_move(x, y, maze, block_size);
    }

    /// Steps `speed` against the direction a quarter turn past the heading `dir`, which is
    /// `(-dir.sin(), dir.cos())`, unless the point reached is solid.
    pub fn strafe_left(&mut self, dir: Direction, speed: i64, maze: &Grid, block_size: usize)
        requires
            block_size > 0,
        ensures
            final(self).pos == after_move(
                old(self).pos,
                old(self).pos.x - scaled(speed as int, -dir.sin()),
                old(self).pos.y - scaled(speed as int, dir.cos() as int),
                maze,
                block_size as int,
            ),
            final(self).a == old(self).a,
            final(self).fov == old(self).fov,
    {
        let x = self.pos.x as i128 - scale_negated(speed, dir.sin());
        let y = self.pos.y as i128 - scale(speed, dir.cos());
        self.try_move(x, y, maze, block_size);
    }

    /// Steps `speed` along the direction a quarter turn past the heading `dir`, which is
    /// `(-dir.sin(), dir.cos())`, unless the point reached is solid.
    pub fn strafe_right(&mut self, dir: Direction, speed: i64, maze: &Grid, block_size: usize)
        requires
            block_size > 0,
        ensures
            final(self).pos == after_move(
                old(self).pos,
                old(self).pos.x + scaled(speed as int, -dir.sin()),
                old(self).pos.y + scaled(speed as int, dir.cos() as int),
                maze,
                block_size as int,
            ),
            final(self).a == old(self).a,
            final(self).fov == old(self).fov,
    {
        let x = self.pos.x as i128 + scale_negated(speed, dir.sin());
        let y = self.pos.y as i128 + scale(speed, dir.cos());
        self.try_move(x, y, maze, block_size);
    }

    /// Turns the heading left by `speed`. The position is untouched.
    pub fn rotate_left(&mut self, speed: i64)
        requires
            i64::MIN <= old(self).a - speed <= i64::MAX,
        ensures
            *final(self) == old(self).turned(-speed),
            final(self).a == old(self).a - speed,
            final(self).pos == old(self).pos,
            final(self).fov == old(self).fov,
    {
        self.a = self.a - speed;
    }

    /// Turns the heading right by `speed`. The position is untouched.
    pub fn rotate_right(&mut self, speed: i64)
        requires
            i64::MIN <= old(self).a + speed <= i64::MAX,
        ensures
            *final(self) == old(self).turned(speed as int),
            final(self).a == old(self).a + speed,
            final(self).pos == old(self).pos,
            final(self).fov == old(self).fov,
    {
        self.a = self.a + speed;
    }

    /// Whether the point `(x, y)` is closed to the player: in a wall or off the grid.
    pub fn collides(&self, x: i64, y: i64, maze: &Grid, block_size: usize) -> (hit: bool)
        requires
            block_size > 0,
        ensures
            hit == maze.blocked(block_size as int, x as int, y as int),
    {
        maze.is_blocked(block_size, x, y)
    }
}

} // verus!
