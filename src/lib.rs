//! Point sets for iterated-function-system fractals, generated by the chaos game.
//!
//! Coordinates are fixed-point integers: one unit of the plane is `UNITS` steps.
//! Every operation rounds down, so results are exact integers that callers can
//! scale for plotting.
pub mod point;
pub mod polygon;
pub mod presets;
mod random;
pub mod rule;
