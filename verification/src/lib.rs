//! A small software rasterizer core: colours, a buffer registry and integer
//! scan conversion, with every function verified.

pub mod canvas;
pub mod line;
pub mod point;
pub mod rasterizer;
pub mod rgb;
pub mod scan;
pub mod triangle;

pub use line::line_pixels;
pub use point::Point3;
pub use rasterizer::{Buffer, ColBufId, IndBufId, PosBufId, Primitive, Rasterizer};
pub use rgb::{rgb_vec_to_u8_slice, Rgb};
pub use triangle::Triangle;
