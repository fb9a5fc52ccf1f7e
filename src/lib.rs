//! Pixel sorting of RGB8 images: per-pixel score functions, interval
//! partitioning of traversal lines, block reordering and write-back.

pub mod cli;
pub mod extractor;
pub mod ordering;
pub mod sort;
pub mod text;

pub use cli::{
    into_animate_params, no_negative_values, AnimateParams, ArgumentError, ArgumentList,
    ColorChannel, Coefficients, SortingAlgorithm, WalkPath,
};
pub use extractor::{Pixel, RgbSorter};
pub use sort::{Image, PixelSort, SortError, SortOptions};
