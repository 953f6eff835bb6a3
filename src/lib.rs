//! A small 2D physics toy: circular balls fall under gravity, push each other
//! apart, bounce off the window walls, and can be grabbed and thrown with the
//! pointer.
//!
//! All lengths are integers in sub-pixel units (`UNITS_PER_PIXEL` of them per
//! pixel), so every frame of the simulation is exact integer arithmetic.
pub mod geometry;
pub mod random;
pub mod ball;
pub mod app;

pub use geometry::{Color, Vec2, UNITS_PER_PIXEL};
pub use ball::{Ball, BallView};
pub use app::{App, AppView, Key, INITIAL_BALLS};
