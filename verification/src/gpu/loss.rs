//! Softmax with cross-entropy on the GPU: the shapes it works with.
use crate::gpu::matrix::Shape;
use vstd::prelude::*;

verus! {

/// Softmax over each column followed by the cross-entropy loss.
#[derive(Debug, Clone, Copy)]
pub struct SoftmaxCrossEntropy;

impl SoftmaxCrossEntropy {
    /// The scratch buffer of the forward pass (one value per column: first the
    /// column maxima, then the column sums) for logits written into `output`.
    pub fn forward_scratch(logits: Shape, output: Shape) -> (column: Shape)
        requires
            logits == output,
        ensures
            column == (1usize, logits.1),
    {
        (1, logits.1)
    }

    /// The scratch buffers of the backward pass: the per-column buffer and the
    /// softmax of the logits, for the gradient against `target` written into `output`.
    pub fn backward_scratch(logits: Shape, target: Shape, output: Shape) -> (r: (Shape, Shape))
        requires
            logits == output,
            target == logits,
        ensures
            r.0 == (1usize, logits.1),
            r.1 == logits,
    {
        ((1, logits.1), logits)
    }
}

} // verus!
