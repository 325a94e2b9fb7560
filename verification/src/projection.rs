//! From ray distances to screen columns: the ray fan, the fisheye correction, the height of
//! a wall on screen and its shading.

use vstd::prelude::*;
use vstd::arithmetic::div_mod::lemma_fundamental_div_mod_converse;
use crate::direction::Direction;
use crate::fixed::{scale, scaled, ONE};
use crate::player::Player;

verus! {

/// The colour above a wall.
pub const SKY_COLOR: u32 = 0x1A1A1A;

/// The colour below a wall.
pub const FLOOR_COLOR: u32 = 0x333333;

/// The red channel of a colour.
pub open spec fn red(color: u32) -> u32 {
    (color >> 16) & 0xFF
}

/// The green channel of a colour.
pub open spec fn green(color: u32) -> u32 {
    (color >> 8) & 0xFF
}

/// The blue channel of a colour.
pub open spec fn blue(color: u32) -> u32 {
    color & 0xFF
}

/// The colour with the given channels.
pub open spec fn rgb(r: u32, g: u32, b: u32) -> u32 {
    (r << 16) | (g << 8) | b
}

/// A channel dimmed to `numerator / denominator` of its value, rounded down, and never
/// above 255.
pub open spec fn dimmed(channel: int, numerator: int, denominator: int) -> int {
    if channel * numerator / denominator <= 255 {
        channel * numerator / denominator
    } else {
        255
    }
}

/// A colour with each channel dimmed on its own.
pub open spec fn shadowed(color: u32, numerator: int, denominator: int) -> u32 {
    rgb(
        dimmed(red(color) as int, numerator, denominator) as u32,
        dimmed(green(color) as int, numerator, denominator) as u32,
        dimmed(blue(color) as int, numerator, denominator) as u32,
    )
}

/// Channels that fit in eight bits survive packing and unpacking.
pub proof fn lemma_rgb_channels(r: u32, g: u32, b: u32)
    requires
        r <= 255,
        g <= 255,
        b <= 255,
    ensures
        red(rgb(r, g, b)) == r,
        green(rgb(r, g, b)) == g,
        blue(rgb(r, g, b)) == b,
        rgb(r, g, b) <= 0xFFFFFF,
{
    assert(((((r << 16) | (g << 8) | b) >> 16) & 0xFF) == r && ((((r << 16) | (g << 8) | b) >> 8)
        & 0xFF) == g && (((r << 16) | (g << 8) | b) & 0xFF) == b && ((r << 16) | (g << 8) | b)
        <= 0xFFFFFF) by (bit_vector)
        requires
            r <= 255,
            g <= 255,
            b <= 255,
    ;
}

/// No channel of a shadowed colour leaves the 8-bit range, and each is the dimmed channel
/// of the colour that was shadowed.
pub proof fn lemma_shadowed_channels(color: u32, numerator: int, denominator: int)
    requires
        0 <= numerator,
        0 < denominator,
    ensures
        red(shadowed(color, numerator, denominator)) == dimmed(red(color) as int, numerator, denominator),
        green(shadowed(color, numerator, denominator)) == dimmed(
            green(color) as int,
            numerator,
            denominator,
        ),
        blue(shadowed(color, numerator, denominator)) == dimmed(blue(color) as int, numerator, denominator),
        shadowed(color, numerator, denominator) <= 0xFFFFFF,
{
    let r = dimmed(red(color) as int, numerator, denominator);
    let g = dimmed(green(color) as int, numerator, denominator);
    let b = dimmed(blue(color) as int, numerator, denominator);
    lemma_dimmed_range(red(color) as int, numerator, denominator);
    lemma_dimmed_range(green(color) as int, numerator, denominator);
    lemma_dimmed_range(blue(color) as int, numerator, denominator);
    lemma_rgb_channels(r as u32, g as u32, b as u32);
}

/// A dimmed channel lies between 0 and 255.
pub proof fn lemma_dimmed_range(channel: int, numerator: int, denominator: int)
    requires
        0 <= channel,
        0 <= numerator,
        0 < denominator,
    ensures
        0 <= dimmed(channel, numerator, denominator) <= 255,
{
    assert(0 <= channel * numerator / denominator) by (nonlinear_arith)
        requires
            0 <= channel,
            0 <= numerator,
            0 < denominator,
    ;
}

/// Dims one channel.
fn dim(channel: u32, numerator: u64, denominator: u64) -> (r: u32)
    requires
        channel <= 255,
        denominator > 0,
    ensures
        r == dimmed(channel as int, numerator as int, denominator as int),
        r <= 255,
{
    assert(channel * numerator <= 255 * 0xffff_ffff_ffff_ffff) by (nonlinear_arith)
        requires
            channel <= 255,
            numerator <= 0xffff_ffff_ffff_ffff,
    ;
    let scaled_up: u128 = channel as u128 * numerator as u128;
    let value: u128 = scaled_up / denominator as u128;
    if value <= 255 {
        value as u32
    } else {
        255
    }
}

/// Darkens `color` to `numerator / denominator` of its brightness, channel by channel.
/// A ratio above one brightens, and each channel stops at 255.
pub fn apply_shadow(color: u32, numerator: u64, denominator: u64) -> (shaded: u32)
    requires
        denominator > 0,
    ensures
        shaded == shadowed(color, numerator as int, denominator as int),
{
    let r = (color >> 16) & 0xFF;
    let g = (color >> 8) & 0xFF;
    let b = color & 0xFF;
    assert(((color >> 16) & 0xFF) <= 255 && ((color >> 8) & 0xFF) <= 255 && (color & 0xFF) <= 255)
        by (bit_vector);
    let dr = dim(r, numerator, denominator);
    let dg = dim(g, numerator, denominator);
    let db = dim(b, numerator, denominator);
    (dr << 16) | (dg << 8) | db
}

/// One ray of the first-person view: where it goes, and the cosine, scaled by `ONE`, of
/// the angle between it and the heading.
#[derive(Clone, Copy, Debug, PartialEq, Eq, Structural)]
pub struct Ray {
    dir: Direction,
    cos_offset: i64,
}

impl Ray {
    /// Every ray that exists at run time has a well-formed direction and a cosine between
    /// minus one and one; ghost values must say so.
    #[verifier::type_invariant]
    pub open spec fn wf(self) -> bool {
        self.dir().wf() && -ONE <= self.cos_offset() <= ONE
    }

    /// The direction of the ray.
    pub closed spec fn spec_dir(&self) -> Direction {
        self.dir
    }

    /// The cosine of the angle between the ray and the heading.
    pub closed spec fn spec_cos_offset(&self) -> i64 {
        self.cos_offset
    }

    /// The direction of the ray.
    #[verifier::when_used_as_spec(spec_dir)]
    pub fn dir(&self) -> (dir: Direction)
        ensures
            dir == self.dir(),
    {
        self.dir
    }

    /// The cosine of the angle between the ray and the heading.
    #[verifier::when_used_as_spec(spec_cos_offset)]
    pub fn cos_offset(&self) -> (c: i64)
        ensures
            c == self.cos_offset(),
    {
        self.cos_offset
    }

    /// Accepts the pair exactly when `cos_offset` is a cosine: between minus one and one.
    pub fn new(dir: Direction, cos_offset: i64) -> (ray: Option<Ray>)
        ensures
            ray is Some <==> -ONE <= cos_offset <= ONE,
            ray matches Some(r) ==> r.dir() == dir && r.cos_offset() == cos_offset,
    {
        proof {
            use_type_invariant(dir);
        }
        if -ONE <= cos_offset && cos_offset <= ONE {
            Some(Ray { dir, cos_offset })
        } else {
            None
        }
    }
}

/// The angle of the ray through screen column `column` of `columns`: the rays fan out
/// evenly over the field of view, from half of it left of the heading.
pub open spec fn fan_angle(heading: int, fov: int, column: int, columns: int) -> int {
    heading - fov / 2 + (column * fov) / columns
}

/// The angle of the ray through screen column `column` of `columns`, or `None` if that
/// angle is not an `i64`.
pub fn column_angle(player: &Player, column: usize, columns: usize) -> (angle: Option<i64>)
    requires
        column < columns,
    ensures
        angle is Some <==> i64::MIN <= fan_angle(
            player.a as int,
            player.fov as int,
            column as int,
            columns as int,
        ) <= i64::MAX,
        angle matches Some(a) ==> a == fan_angle(
            player.a as int,
            player.fov as int,
            column as int,
            columns as int,
        ),
{
    let half = floor_half(player.fov);
    assert(-0x8000_0000_0000_0000_0000_0000_0000_0000 < column * player.fov
        < 0x8000_0000_0000_0000_0000_0000_0000_0000) by (nonlinear_arith)
        requires
            0 <= column <= 0xffff_ffff_ffff_ffff,
            -0x8000_0000_0000_0000 <= player.fov <= 0x7fff_ffff_ffff_ffff,
    ;
    let spread: i128 = column as i128 * player.fov as i128;
    let share = floor_div(spread, columns);
    proof {
        let fov = player.fov as int;
        let n = columns as int;
        let k = column as int;
        if fov >= 0 {
            assert(0 <= (k * fov) / n <= fov) by (nonlinear_arith)
                requires
                    0 <= k < n,
                    fov >= 0,
            ;
        } else {
            assert(fov <= (k * fov) / n <= 0) by (nonlinear_arith)
                requires
                    0 <= k < n,
                    fov < 0,
            ;
        }
    }
    let angle: i128 = player.a as i128 - half as i128 + share;
    if -0x8000_0000_0000_0000 <= angle && angle <= 0x7fff_ffff_ffff_ffff {
        Some(angle as i64)
    } else {
        None
    }
}

/// Half of `value`, rounded down.
fn floor_half(value: i64) -> (half: i64)
    ensures
        half == (value as int) / 2,
{
    let quotient = value / 2;
    if value % 2 < 0 {
        quotient - 1
    } else {
        quotient
    }
}

/// `value / divisor`, rounded down.
fn floor_div(value: i128, divisor: usize) -> (quotient: i128)
    requires
        divisor > 0,
        -0x8000_0000_0000_0000_0000_0000_0000_0000 < value,
    ensures
        quotient == (value as int) / (divisor as int),
{
    let d: i128 = divisor as i128;
    if value >= 0 {
        value / d
    } else {
        let magnitude: i128 = -value;
        let q: i128 = magnitude / d;
        let r: i128 = magnitude % d;
        proof {
            assert(0 <= q <= magnitude) by (nonlinear_arith)
                requires
                    q == magnitude / d,
                    magnitude > 0,
                    d > 0,
            ;
            assert(magnitude == q * d + r && 0 <= r < d) by (nonlinear_arith)
                requires
                    q == magnitude / d,
                    r == magnitude % d,
                    d > 0,
            ;
        }
        if r == 0 {
            proof {
                assert(value == (-q) * d + 0) by (nonlinear_arith)
                    requires
                        -value == q * d + r,
                        r == 0,
                ;
                lemma_fundamental_div_mod_converse(value as int, d as int, -q, 0);
            }
            -q
        } else {
            proof {
                assert(value == (-q - 1) * d + (d - r)) by (nonlinear_arith)
                    requires
                        -value == q * d + r,
                ;
                lemma_fundamental_div_mod_converse(value as int, d as int, -q - 1, d - r);
            }
            -q - 1
        }
    }
}

/// The colour of a wall in the first-person view, by the symbol of its cell.
pub open spec fn wall_color(symbol: char) -> u32 {
    if symbol == '+' {
        0xFF5733
    } else if symbol == '#' {
        0x7A7A7A
    } else if symbol == '*' {
        0x9A9A9A
    } else {
        0xFFFFFF
    }
}

/// The colour of what a ray struck: that of the wall's symbol, or white where the ray left
/// the grid.
pub open spec fn struck_color(symbol: Option<char>) -> u32 {
    match symbol {
        Some(s) => wall_color(s),
        None => 0xFFFFFF,
    }
}

/// Looks up the colour of what a ray struck.
pub fn color_of_struck(symbol: Option<char>) -> (color: u32)
    ensures
        color == struck_color(symbol),
{
    match symbol {
        Some('+') => 0xFF5733,
        Some('#') => 0x7A7A7A,
        Some('*') => 0x9A9A9A,
        _ => 0xFFFFFF,
    }
}

/// The distance along a ray turned into the distance in front of the viewer: the raw
/// distance `d` times the cosine of the angle between ray and heading, but never less
/// than one world unit.
pub open spec fn corrected_distance(d: int, cos_offset: int) -> int {
    if scaled(d, cos_offset) < ONE {
        ONE as int
    } else {
        scaled(d, cos_offset)
    }
}

/// A ray along the heading is not corrected: scaling by the cosine one changes nothing,
/// and from one world unit on the corrected distance is the raw distance.
pub proof fn lemma_facing_ray_keeps_distance(d: int)
    ensures
        scaled(d, ONE as int) == d,
        d >= ONE ==> corrected_distance(d, ONE as int) == d,
{
    assert(d * 65536 / 65536 == d);
}

/// Removes the fisheye distortion from the raw distance `d` of a ray whose angle to the
/// heading has the cosine `cos_offset`.
pub fn correct_distance(d: i64, cos_offset: i64) -> (corrected: i64)
    requires
        d >= 0,
        -ONE <= cos_offset <= ONE,
    ensures
        corrected == corrected_distance(d as int, cos_offset as int),
        corrected >= ONE,
{
    proof {
        lemma_scaled_shrinks(d as int, cos_offset as int);
    }
    let raw = scale(d, cos_offset);
    if raw < 65536 {
        ONE
    } else {
        raw as i64
    }
}

/// Scaling a distance by a cosine does not lengthen it.
pub proof fn lemma_scaled_shrinks(d: int, factor: int)
    requires
        d >= 0,
        -ONE <= factor <= ONE,
    ensures
        -d <= scaled(d, factor) <= d,
{
    assert(-d * 65536 <= d * factor <= d * 65536) by (nonlinear_arith)
        requires
            d >= 0,
            -65536 <= factor <= 65536,
    ;
}

/// The height in pixels of a wall at the corrected distance `corrected` on a screen
/// `screen_height` pixels high: the screen height divided by the distance in world units.
pub open spec fn wall_height(screen_height: int, corrected: int) -> int {
    screen_height * ONE / corrected
}

/// The first pixel row of a wall that is centred on the screen.
pub open spec fn wall_top(screen_height: int, corrected: int) -> int {
    screen_height / 2 - wall_height(screen_height, corrected) / 2
}

/// The last pixel row of a wall that is centred on the screen, kept on the screen.
pub open spec fn wall_bottom(screen_height: int, corrected: int) -> int {
    if screen_height / 2 + wall_height(screen_height, corrected) / 2 >= screen_height {
        screen_height - 1
    } else {
        screen_height / 2 + wall_height(screen_height, corrected) / 2
    }
}

/// What one screen column shows: the corrected distance of its wall, the first and last
/// pixel row of the wall, and the shaded colour of the wall.
#[derive(Clone, Copy, Debug, PartialEq, Eq, Structural)]
pub struct ScreenColumn {
    pub corrected: i64,
    pub top: usize,
    pub bottom: usize,
    pub color: u32,
}

impl ScreenColumn {
    /// The colour of pixel row `y`: sky above the wall, floor below it.
    pub open spec fn pixel(self, y: int) -> u32 {
        if y < self.top {
            SKY_COLOR
        } else if y > self.bottom {
            FLOOR_COLOR
        } else {
            self.color
        }
    }

    /// The colour of pixel row `y`.
    pub fn color_at(&self, y: usize) -> (color: u32)
        ensures
            color == self.pixel(y as int),
    {
        if y < self.top {
            SKY_COLOR
        } else if y > self.bottom {
            FLOOR_COLOR
        } else {
            self.color
        }
    }
}

/// The screen column for a ray of raw distance `d` that struck a wall of colour `color`:
/// the wall is as high as the corrected distance makes it, and darker the farther it is.
pub open spec fn projected(d: int, cos_offset: int, screen_height: int, color: u32) -> ScreenColumn {
    let corrected = corrected_distance(d, cos_offset);
    ScreenColumn {
        corrected: corrected as i64,
        top: wall_top(screen_height, corrected) as usize,
        bottom: wall_bottom(screen_height, corrected) as usize,
        color: shadowed(color, ONE as int, corrected),
    }
}

/// At one world unit or more a wall is at most as high as the screen, so it starts on the
/// screen and its rows are in order or, for a wall of no height, adjacent.
pub proof fn lemma_wall_on_screen(screen_height: int, corrected: int)
    requires
        screen_height > 0,
        corrected >= ONE,
    ensures
        0 <= wall_height(screen_height, corrected) <= screen_height,
        0 <= wall_top(screen_height, corrected) <= screen_height / 2,
        screen_height / 2 <= wall_bottom(screen_height, corrected) < screen_height,
{
    assert(0 <= screen_height * 65536 / corrected <= screen_height) by (nonlinear_arith)
        requires
            screen_height > 0,
            corrected >= 65536,
    ;
}

/// Projects one ray onto its screen column.
pub fn project_column(d: i64, cos_offset: i64, screen_height: usize, color: u32) -> (column: ScreenColumn)
    requires
        d >= 0,
        -ONE <= cos_offset <= ONE,
        screen_height > 0,
    ensures
        column == projected(d as int, cos_offset as int, screen_height as int, color),
        column.top <= screen_height / 2 <= column.bottom < screen_height,
        column.corrected >= ONE,
{
    let corrected = correct_distance(d, cos_offset);
    proof {
        lemma_wall_on_screen(screen_height as int, corrected as int);
        assert(screen_height * 65536 <= 0xffff_ffff_ffff_ffff * 65536);
    }
    let height = ((screen_height as u128 * 65536) / (corrected as u128)) as usize;
    let middle = screen_height / 2;
    let top = middle - height / 2;
    let bottom = if height / 2 >= screen_height - middle {
        screen_height - 1
    } else {
        middle + height / 2
    };
    ScreenColumn { corrected, top, bottom, color: apply_shadow(color, 65536, corrected as u64) }
}

} // verus!
