//! A small animated cat for the terminal: the sprite model, the half-block
//! renderer, the terminal screen model that tracks what the shell printed,
//! and the wandering pet's state machine.

pub mod arith;
pub mod aseprite;
pub mod chance;
pub mod half_block;
pub mod input;
pub mod laws;
pub mod pet;
pub mod raster;
pub mod screen;
pub mod setup;
pub mod sixel;
pub mod sprite;
pub mod text;
