use vstd::prelude::*;

verus! {

/// Number of agents in a default battle.
pub const DEFAULT_PLAYER_COUNT: usize = 32;

/// How many cells an agent sees ahead of itself.
pub const VISION_DEPTH: usize = 6;

/// Side length of the square window around an agent that its observation covers.
pub const VISION_WINDOW: usize = 13;

/// Length of an observation vector: position (2), one-hot heading (8) and the vision window.
pub const OBSERVATION_SIZE: usize = 179;

/// Number of distinct actions an agent can take.
pub const ACTION_COUNT: usize = 5;

/// Number of headings an agent can face.
pub const DIRECTION_COUNT: usize = 8;

/// The heading vectors, clockwise from north (screen coordinates, y grows downwards).
pub open spec fn direction_vector(d: int) -> (int, int) {
    if d == 0 {
        (0, -1)
    } else if d == 1 {
        (1, -1)
    } else if d == 2 {
        (1, 0)
    } else if d == 3 {
        (1, 1)
    } else if d == 4 {
        (0, 1)
    } else if d == 5 {
        (-1, 1)
    } else if d == 6 {
        (-1, 0)
    } else {
        (-1, -1)
    }
}

/// The executable table of heading vectors.
pub fn direction(d: usize) -> (r: (i64, i64))
    requires
        d < DIRECTION_COUNT,
    ensures
        r.0 == direction_vector(d as int).0,
        r.1 == direction_vector(d as int).1,
{
    if d == 0 {
        (0, -1)
    } else if d == 1 {
        (1, -1)
    } else if d == 2 {
        (1, 0)
    } else if d == 3 {
        (1, 1)
    } else if d == 4 {
        (0, 1)
    } else if d == 5 {
        (-1, 1)
    } else if d == 6 {
        (-1, 0)
    } else {
        (-1, -1)
    }
}

} // verus!
