//! A maze (labyrinth) engine: validation of a textual grid format, exhaustive
//! depth-first exploration recorded as a replayable trace of forward and
//! backtrack moves, timed playback of that trace, and a transform from grid
//! cells to centered screen coordinates.

use vstd::prelude::*;

pub mod app;
pub mod events;
pub mod format;
pub mod map;
pub mod pathfinding;
pub mod text;
pub mod types;

verus! {

/// A grid cell coordinate as (column, row).
pub type Coord = (usize, usize);

} // verus!

pub use app::App;
