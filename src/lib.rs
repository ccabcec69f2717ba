//! Integer core of a Mandelbrot renderer: the per-band pixel traversal and
//! shading, the row-band partition of the image for parallel rendering, and
//! the parsing of `<a><sep><b>` integer pairs.
pub mod render;
pub mod bands;
pub mod parse;
