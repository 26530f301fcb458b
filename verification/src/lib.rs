//! Pixel buffers for a display server, and the compositing of rectangular
//! regions of one buffer onto another.
//!
//! A buffer is a row-major array of packed ARGB pixels. A region of interest
//! scopes reads and writes to a rectangle of a buffer; `blend` and `blit`
//! combine two such regions pixel by pixel.

pub mod color;
pub mod image;
pub mod rect;
pub mod roi;

pub use color::{Color, Mode};
pub use image::{Image, ImageAligned, ImageRef};
pub use rect::Rect;
pub use roi::{ImageRoi, ImageRoiRows, ImageRoiRowsMut};
