//! A fixed-point raycasting engine over a static character-grid maze.
//!
//! Positions, distances and angles are `i64` numbers that count 65536ths: of a world unit,
//! which is one pixel of the view from above, or of a radian. Sines and cosines are not
//! computed here; whoever calls hands in directions as fixed-point unit vectors.

pub mod caster;
pub mod direction;
pub mod first_person;
pub mod fixed;
pub mod frame;
pub mod framebuffer;
pub mod grid;
pub mod hud;
pub mod minimap;
pub mod player;
pub mod projection;
pub mod textures;
pub mod top_view;
