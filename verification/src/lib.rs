//! Rules engine of a falling-piece matching game: a rectangular grid of
//! colored cells, detection of straight runs of four or more equal colors,
//! and column-wise gravity collapse after cleared cells are removed.

pub mod board;
pub mod clear_strategy;
pub mod collapse;
pub mod color;
pub mod frame_timer;
pub mod game;
pub mod matching;
mod rng;
