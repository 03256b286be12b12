//! A grid of colored character cells and the ANSI byte stream that draws it
//! on a terminal, selecting a color only where it changes.

pub mod color;
pub mod display;
pub mod escape;
pub mod frame;
