//! The four compass directions, their unit step vectors, their opposites,
//! and the adjacency test that recovers a direction from two coordinates.

use vstd::prelude::*;

verus! {

/// Decrement an unsigned coordinate, wrapping below zero.
///
/// Stepping north from row 0 (or west from column 0) produces `usize::MAX`,
/// which every bounds check downstream rejects as out of range.
pub open spec fn spec_dec(v: usize) -> usize {
    if v == 0 {
        usize::MAX
    } else {
        (v - 1) as usize
    }
}

/// Increment an unsigned coordinate, wrapping above `usize::MAX`.
pub open spec fn spec_inc(v: usize) -> usize {
    if v == usize::MAX {
        0
    } else {
        (v + 1) as usize
    }
}

/// A grid-aligned direction, used to address a neighbor tile and the edge
/// record shared with it.
#[derive(Debug, Clone, Copy, PartialEq, Eq, Structural)]
pub enum Orientation {
    South,
    West,
    East,
    North,
}

impl Orientation {
    /// The unit step vector of this direction, with y growing downward.
    pub open spec fn spec_to_vector(self) -> (isize, isize) {
        match self {
            Orientation::North => (0isize, -1isize),
            Orientation::South => (0isize, 1isize),
            Orientation::West => (-1isize, 0isize),
            Orientation::East => (1isize, 0isize),
        }
    }

    pub fn to_vector(&self) -> (r: (isize, isize))
        ensures
            r == self.spec_to_vector(),
    {
        match self {
            Orientation::North => (0, -1),
            Orientation::South => (0, 1),
            Orientation::West => (-1, 0),
            Orientation::East => (1, 0),
        }
    }

    /// One step from `(a, b)` in this direction, wrapping at the ends of the
    /// unsigned coordinate range.
    pub open spec fn spec_step(self, a: usize, b: usize) -> (usize, usize) {
        match self {
            Orientation::North => (a, spec_dec(b)),
            Orientation::South => (a, spec_inc(b)),
            Orientation::West => (spec_dec(a), b),
            Orientation::East => (spec_inc(a), b),
        }
    }

    pub fn step(&self, a: usize, b: usize) -> (r: (usize, usize))
        ensures
            r == self.spec_step(a, b),
    {
        match self {
            Orientation::North => (a, if b == 0 { usize::MAX } else { b - 1 }),
            Orientation::South => (a, if b == usize::MAX { 0 } else { b + 1 }),
            Orientation::West => (if a == 0 { usize::MAX } else { a - 1 }, b),
            Orientation::East => (if a == usize::MAX { 0 } else { a + 1 }, b),
        }
    }

    /// North and South are opposites, and so are East and West.
    pub open spec fn spec_opposite(self) -> Orientation {
        match self {
            Orientation::North => Orientation::South,
            Orientation::South => Orientation::North,
            Orientation::West => Orientation::East,
            Orientation::East => Orientation::West,
        }
    }

    pub fn opposite(&self) -> (r: Orientation)
        ensures
            r == self.spec_opposite(),
    {
        match self {
            Orientation::North => Orientation::South,
            Orientation::South => Orientation::North,
            Orientation::West => Orientation::East,
            Orientation::East => Orientation::West,
        }
    }
}

/// Taking the opposite twice returns to the original direction.
pub proof fn lemma_opposite_involutive(o: Orientation)
    ensures
        o.spec_opposite().spec_opposite() == o,
{
}

/// The direction traveled to go from `(from_x, from_y)` to `(to_x, to_y)`
/// when the two cells are exactly one step apart on one axis, and nothing
/// for any other relative position.
pub open spec fn spec_adjacency(from_x: usize, from_y: usize, to_x: usize, to_y: usize) -> Option<
    Orientation,
> {
    if to_x == from_x && to_y == from_y + 1 {
        Some(Orientation::South)
    } else if to_x == from_x && to_y + 1 == from_y {
        Some(Orientation::North)
    } else if to_y == from_y && to_x == from_x + 1 {
        Some(Orientation::East)
    } else if to_y == from_y && to_x + 1 == from_x {
        Some(Orientation::West)
    } else {
        None
    }
}

pub fn adjacency(from_x: usize, from_y: usize, to_x: usize, to_y: usize) -> (r: Option<Orientation>)
    ensures
        r == spec_adjacency(from_x, from_y, to_x, to_y),
{
    if to_x == from_x && to_y > 0 && from_y == to_y - 1 {
        Some(Orientation::South)
    } else if to_x == from_x && from_y > 0 && to_y == from_y - 1 {
        Some(Orientation::North)
    } else if to_y == from_y && to_x > 0 && from_x == to_x - 1 {
        Some(Orientation::East)
    } else if to_y == from_y && from_x > 0 && to_x == from_x - 1 {
        Some(Orientation::West)
    } else {
        None
    }
}

} // verus!
