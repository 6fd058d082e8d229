//! Logic board of a grid-based circuit-building puzzle.
//!
//! A board is a dense grid of typed tiles connected to their neighbors
//! through directional edges.  Each edge carries a `connected` flag and a
//! creation timestamp; each tile type has a maximum number of simultaneously
//! connected edges, and connecting a new edge past that capacity evicts the
//! oldest edges deterministically.

use vstd::prelude::*;

mod array2d;
mod board;
mod orientation;

verus! {

pub use crate::array2d::Array2D;
pub use crate::array2d::GridDefault;
pub use crate::board::Board;
pub use crate::board::BoardIcon;
pub use crate::board::Connection;
pub use crate::board::Game;
pub use crate::board::Signal;
pub use crate::board::Tile;
pub use crate::orientation::Orientation;
pub use crate::orientation::adjacency;

} // verus!
