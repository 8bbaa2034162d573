//! Median-cut colour quantisation: reduces a collection of RGBA pixels to a
//! small palette of representative colours.

pub mod channel_stats;
pub mod color;
pub mod color_bucket;
pub mod decimal;
pub mod export;
pub mod filters;
pub mod palette;
pub mod sorting;
pub mod utils;

pub use color::Color;
pub use color::ColorChannel;
