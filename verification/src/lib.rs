//! Rendering core of a Mandelbrot set viewer: colors, the pixel buffer and the
//! tiled renderer that fills it, stated and proved over integer models.

pub mod coloring;
pub mod grid;
pub mod merge;
pub mod mouse;
pub mod picture;
pub mod pixel_buffer;
pub mod pixel_plane;
pub mod rendering;
pub mod work_queue;
