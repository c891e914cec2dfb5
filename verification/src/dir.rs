//! The eight compass directions.
//!
//! A facing is kept as an index into the fixed cyclic order E, NE, N, NW, W,
//! SW, S, SE; turning moves one step through that order with wraparound.

use vstd::prelude::*;

verus! {

/// How many compass directions there are.
pub const NUM_DIRECTIONS: usize = 8;

/// A unit step on the grid: the x and y offsets of one compass direction.
#[derive(Clone, Copy)]
pub struct Dir(pub i32, pub i32);

/// The x offset of the direction with the given index in the cyclic order.
pub open spec fn dir_dx(d: int) -> int {
    if d == 0 {
        1
    } else if d == 1 {
        1
    } else if d == 2 {
        0
    } else if d == 3 {
        -1
    } else if d == 4 {
        -1
    } else if d == 5 {
        -1
    } else if d == 6 {
        0
    } else {
        1
    }
}

/// The y offset of the direction with the given index in the cyclic order.
pub open spec fn dir_dy(d: int) -> int {
    if d == 0 {
        0
    } else if d == 1 {
        -1
    } else if d == 2 {
        -1
    } else if d == 3 {
        -1
    } else if d == 4 {
        0
    } else if d == 5 {
        1
    } else if d == 6 {
        1
    } else {
        1
    }
}

/// The x offset of a facing, as a value.
pub fn step_dx(d: usize) -> (r: i32)
    requires
        d < 8,
    ensures
        r as int == dir_dx(d as int),
        -1 <= r <= 1,
{
    if d == 0 || d == 1 || d == 7 {
        1
    } else if d == 2 || d == 6 {
        0
    } else {
        -1
    }
}

/// The y offset of a facing, as a value.
pub fn step_dy(d: usize) -> (r: i32)
    requires
        d < 8,
    ensures
        r as int == dir_dy(d as int),
        -1 <= r <= 1,
{
    if d == 1 || d == 2 || d == 3 {
        -1
    } else if d == 0 || d == 4 {
        0
    } else {
        1
    }
}

impl Dir {
    /// The direction with the given index in the cyclic order.
    pub fn from_index(d: usize) -> (r: Dir)
        requires
            d < 8,
        ensures
            r.0 as int == dir_dx(d as int),
            r.1 as int == dir_dy(d as int),
    {
        Dir(step_dx(d), step_dy(d))
    }

    /// The index of this direction in the cyclic order, if its offsets are
    /// those of one of the eight compass steps.
    pub fn dir_index(&self) -> (r: Option<usize>)
        ensures
            match r {
                Some(i) => i < 8 && self.0 as int == dir_dx(i as int) && self.1 as int == dir_dy(
                    i as int,
                ),
                None => forall|i: int|
                    0 <= i < 8 ==> !(self.0 as int == dir_dx(i) && self.1 as int == dir_dy(i)),
            },
    {
        let mut d: usize = 0;
        while d < 8
            invariant
                d <= 8,
                forall|i: int|
                    0 <= i < d ==> !(self.0 as int == dir_dx(i) && self.1 as int == dir_dy(i)),
            decreases 8 - d,
        {
            if self.0 == step_dx(d) && self.1 == step_dy(d) {
                return Some(d);
            }
            d = d + 1;
        }
        None
    }
}

} // verus!
