//! A terminal-screensaver core library: procedural maze generation and the
//! deterministic camera navigation that walks the generated maze.
//!
//! The maze generator carves a perfect maze (a spanning tree over a square
//! grid) with a randomized depth-first walk driven by a seeded ChaCha stream;
//! the navigator owns a fixed-point camera pose and advances it every tick,
//! rotating toward, walking toward, and finally arriving at a target cell,
//! where a wall-following rule picks the next target.

pub mod args;
pub mod cell;
pub mod generate;
pub mod graph;
pub mod navigate;
pub mod rng;

pub use cell::{Cell, Direction};
pub use generate::{generate, MazeError};
pub use graph::{CellEdges, MazeGraph};
pub use navigate::{MazeNavigator, Pose};
