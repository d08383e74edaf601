//! The writing direction that a set of metrics is for.

use vstd::prelude::*;

verus! {

/// The direction of the glyph.
#[derive(Clone, Copy, Debug, PartialEq, Eq, Structural)]
pub enum Direction {
    /// Default direction, typically left-to-right.
    Default,
    /// Alternate direction, typically right-to-left.
    Alternate,
    /// Both directions.
    Both,
}

impl Default for Direction {
    fn default() -> (direction: Self)
        ensures
            direction == Direction::Default,
    {
        Direction::Default
    }
}

} // verus!
