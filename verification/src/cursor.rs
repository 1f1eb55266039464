use vstd::prelude::*;

verus! {

/// A position in a grid: `x` counts consumed elements of the first sequence,
/// `y` those of the second.
#[derive(Clone, Copy, Debug, PartialEq, Eq, Structural)]
pub struct Cursor {
    pub x: usize,
    pub y: usize,
}

impl Cursor {
    pub fn new(x: usize, y: usize) -> (cursor: Cursor)
        ensures
            cursor == (Cursor { x, y }),
    {
        Cursor { x, y }
    }
}

} // verus!
