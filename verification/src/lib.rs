//! Rectangular grid mazes: a lattice of cells separated by walls, a
//! binary-tree generator that carves a spanning tree of passages into it,
//! and a plain-text picture of the result.
//!
//! Every executable function carries a contract stated over [`grid::Grid`],
//! the mathematical model of a maze.

pub mod point;
pub mod grid;
pub mod passages;
pub mod maze;
pub mod generator;
pub mod tree;
pub mod render;

pub use crate::grid::{Cell, Grid};
pub use crate::maze::{BoundsError, Maze, MazeIterator};
pub use crate::point::{Dir, Point};
