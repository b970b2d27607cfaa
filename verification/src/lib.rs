//! First-person views of a tile map by ray casting.
//!
//! Every real quantity that enters or leaves the library is a [`binary64::Binary64`],
//! a double-precision value held as its bit pattern, and every decision about one is
//! taken on the exact value that the pattern encodes.
pub mod binary64;
pub mod canvas;
pub mod ray;
pub mod render;
pub mod shading;
pub mod tile_map;
pub mod vec2;
pub mod wall;

pub use binary64::Binary64;
pub use canvas::{Canvas, Color};
pub use ray::{Axis, March, Turn};
pub use render::render;
pub use tile_map::{MapError, TileMap};
pub use vec2::Vec2;
pub use wall::Wall;
