//! Procedural banded images and a masked, luminance-ordered pixel sort.
//!
//! A noise field is quantized into bands and painted with a palette
//! ([`render`]); an image is reduced to brightness and thresholded into a mask
//! ([`mask`]); and within each row, every run of pixels that the mask selects
//! is stably sorted by luminance while all other pixels stay put ([`run_sort`]).
pub mod image;
pub mod mask;
pub mod pixel;
pub mod render;
pub mod run_sort;

pub use crate::image::{GrayImage, Image};
pub use crate::mask::{convert_to_luminance, create_luminance_mask};
pub use crate::pixel::{luminance, Color, Pixel};
pub use crate::render::{band_index, generate_perlin_image, random_palette, render_bands};
pub use crate::run_sort::{sort_image_using_mask, sort_row, sort_run};
