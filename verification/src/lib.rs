//! Grid-accelerated 2D particle simulation core.
//!
//! The spatial hash grid — the index-based structure that gives the
//! simulation O(1) insertion and removal and 3x3-neighborhood queries —
//! lives here, fully verified. The floating-point integrator that drives
//! it is a thin client of this crate.

pub mod cell_key;
pub mod grid;

pub use cell_key::encode_cell_key;
pub use cell_key::decode_cell_key;
pub use grid::Grid;
