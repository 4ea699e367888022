//! Labyrinth carving on a square lattice.
//!
//! A generator walks the lattice at random, carving one-tile-wide corridors
//! and backtracking through the tiles it remembers whenever it is stuck.
//!
//! - `basics`: positions, directions, the neighbour arcs and the policies.
//! - `grid`: the lattice of tiles.
//! - `arcs`: the check of a tile's neighbours before it is carved.
//! - `carving`: carving orders, walks, and what they say of the corridors.
//! - `walk`: the generator as a state machine, and what its moves preserve.
//! - `generators`: the generator itself and the entry points.
//! - `script`: runs whose draws are given.
//! - `small_grids`: what a run carves on the smallest grids.
//! - `random`: the random draws.
//! - `ui`: the levels of diagnostic output and the text of a grid.
//! - `file_handler`: the names of the files that labyrinths are saved to.

pub mod arcs;
pub mod basics;
pub mod carving;
pub mod file_handler;
pub mod generators;
pub mod grid;
pub mod script;
pub mod small_grids;
mod random;
pub mod ui;
pub mod walk;
