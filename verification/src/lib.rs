//! Color-matching and compositing engine for emoji mosaics.
//!
//! A mosaic replaces regions of a target image with small images, the tiles, chosen so that
//! the mean color of a tile is near the color of the target pixel that it stands for.
//!
//! - [`pixel`]: RGBA pixels and owned pixel buffers.
//! - [`color`]: the mean color of an image, held exactly, and its distance to a color.
//! - [`index`] and [`tree`]: the color index, a three-dimensional search tree that finds the
//!   tile nearest to a color.
//! - [`emoji`]: the tile library, with its cache of resized tiles.
//! - [`sampler`]: the random choice of the next source pixel and canvas position.
//! - [`canvas`]: the output image and the alpha-blended placement of tiles on it.
//! - [`mosaic`]: the iterations that bring these together.
//! - [`layout`]: the tiles for a list of pixels, without any image.
//! - [`config`]: the parameters of a run in their textual form.

pub mod canvas;
pub mod color;
pub mod config;
pub mod emoji;
pub mod index;
pub mod layout;
pub mod mosaic;
pub mod pixel;
pub mod sampler;
pub mod tree;
