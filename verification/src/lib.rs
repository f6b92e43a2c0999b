//! Raster images in memory: an RGBA pixel buffer, the shapes that can be
//! drawn onto it, and its PNG form.

pub mod codec;
pub mod error;
pub mod image;
pub mod rgba;

pub use error::ImageError;
pub use image::view::ImageView;
pub use image::{draw, scan, view, Image};
pub use rgba::Rgba;
