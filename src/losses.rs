use vstd::prelude::*;
use crate::shape::Shape;

verus! {

/// Mean-squared-error loss. It holds no state: the loss and its gradient are
/// functions of the prediction and the target alone.
#[derive(Clone, Copy, Debug, PartialEq, Eq, Structural)]
pub struct MSELoss;

impl MSELoss {
    pub fn new() -> (r: MSELoss)
        ensures
            r == MSELoss,
    {
        MSELoss
    }

    /// The number of elements that the mean runs over, `rows * cols`, for a
    /// prediction of shape `pred` and a target of shape `target`; `None` where
    /// the two shapes differ, as the loss is defined only on matching shapes.
    pub fn element_count(&self, pred: Shape, target: Shape) -> (r: Option<usize>)
        requires
            pred.rows * pred.cols <= usize::MAX,
        ensures
            r == (if pred == target {
                Some((pred.rows * pred.cols) as usize)
            } else {
                None::<usize>
            }),
    {
        if pred.rows != target.rows || pred.cols != target.cols {
            return None;
        }
        Some(pred.rows * pred.cols)
    }
}

impl Default for MSELoss {
    fn default() -> (r: MSELoss)
        ensures
            r == MSELoss,
    {
        MSELoss::new()
    }
}

} // verus!
