//! Conway's Game of Life on a fixed grid: a decoder for run-length encoded
//! patterns and a generation engine with two buffers.
pub mod frame;
pub mod life;
pub mod rle;
