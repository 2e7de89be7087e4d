//! Driver logic for a row-multiplexed monochrome dot-matrix panel.
//!
//! The driver keeps a packed framebuffer, offers a pixel-level drawing
//! surface on it, and decides, step by step, how a refresh pass scans the
//! framebuffer out: one row selector line at a time, with that row's column
//! bits shifted out over a serial channel. It touches no hardware itself.
//! Whoever owns the pins and the bus carries out each step and reports back.

pub mod bits;
pub mod display;
pub mod geometry;
pub mod grid;
pub mod packing;
pub mod scan;

pub use display::{LcdDisplay, LcdDisplayError};
pub use grid::Pixel;
pub use scan::{ScanAction, ScanEvent, ScanState, TransmitError};
