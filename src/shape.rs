use vstd::prelude::*;

verus! {

/// The shape of a matrix: `rows` is the batch size, `cols` the feature width.
#[derive(Clone, Copy, Debug, PartialEq, Eq, Structural)]
pub struct Shape {
    pub rows: usize,
    pub cols: usize,
}

impl Shape {
    pub fn new(rows: usize, cols: usize) -> (r: Shape)
        ensures
            r == (Shape { rows, cols }),
    {
        Shape { rows, cols }
    }
}

} // verus!
