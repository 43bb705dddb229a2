//! Verified core of the desktop-mirror horror engine: the CPU rasteriser,
//! the xorshift noise source, identity sanitising, the sprite and mirror
//! painters' integer logic, and the game's phase machine.

pub mod canvas;
pub mod font;
pub mod identity;
pub mod text;
pub mod rounding;
pub mod sprite;
pub mod state;
pub mod mirror;
pub mod painter;
