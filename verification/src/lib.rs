//! A terminal wireframe renderer's verified core: a bounds-safe colour
//! canvas, an integer error-accumulation line rasterizer with clipping,
//! and a line-oriented mesh-file parser.
//!
//! Floating-point transform work (model/view/projection matrices) and all
//! I/O (terminal size polling, ANSI output, file reading) live outside this
//! library, in the unverified driver; the driver hands this library plain
//! integer coordinates and text lines and takes plain values back.

pub mod screen;
pub mod structures;
pub mod text;
