//! The errors of the engine.

use vstd::prelude::*;

verus! {

/// Why the engine turned an input down.
#[derive(PartialEq, Eq, Structural, Clone, Copy, Debug)]
pub enum EngineError {
    /// An animation was given no frames.
    EmptyAnimation,
    /// The frame durations of an animation do not add up within `usize`.
    DurationOverflow,
    /// The playhead lies beyond the total duration of its animation.
    FrameNotFound,
    /// Parallel entity arrays differ in length.
    LengthMismatch,
    /// A contact names an entity that the entity arrays do not hold. `contact`
    /// is the index of the first such contact.
    UnknownEntity { contact: usize },
    /// A tile grid does not hold one cell per column and row.
    GridMismatch,
    /// A tile grid names a tile that its tileset does not hold. `cell` is the
    /// index of the first such cell, cells counted row by row.
    UnknownTile { cell: usize },
}

} // verus!
