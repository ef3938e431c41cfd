//! The buffers of a fully connected layer on the GPU, and the shape agreement
//! that makes every kernel launch of its forward and backward pass valid.
use crate::gpu::matrix::{
    Shape, add_assign_ok, column_reduce_ok, matmul_ok, row_sum_ok, transpose_ok,
};
use crate::network::LayerShape;
use vstd::prelude::*;

verus! {

/// A cached buffer of shape `current` (if any) can be kept for a result of
/// shape `rows x columns` exactly when the shapes agree; otherwise a new one
/// is allocated.
pub fn reuse_buffer(current: Option<Shape>, rows: usize, columns: usize) -> (keep: bool)
    ensures
        keep == (current == Some((rows, columns))),
{
    match current {
        Some(s) => s.0 == rows && s.1 == columns,
        None => false,
    }
}

/// The forward pass `a = act(weights * x + bias)` is well shaped.
pub open spec fn forward_ok(weights: Shape, bias: Shape, x: Shape) -> bool {
    &&& weights.1 == x.0
    &&& add_assign_ok((weights.0, x.1), bias)
    &&& weights.0 * x.1 <= usize::MAX
}

/// Shape of the activation buffer that the forward pass fills.
pub fn forward_buffer(weights: Shape, bias: Shape, x: Shape) -> (a: Shape)
    requires
        forward_ok(weights, bias, x),
    ensures
        a == (weights.0, x.1),
        matmul_ok(weights, x, a),
        add_assign_ok(a, bias),
{
    (weights.0, x.1)
}

/// Shapes of the scratch buffers of the backward pass.
#[derive(Debug, Clone, Copy, PartialEq, Eq)]
pub struct BackwardBuffers {
    pub local_delta: Shape,
    pub sigmoid_prime: Shape,
    pub row_sum: Shape,
    pub transposed_input: Shape,
    pub weight_update: Shape,
    pub transposed_weights: Shape,
}

/// The backward pass of a layer with these shapes is well shaped: the error
/// `delta` has a column per example and, for a hidden layer, a row per unit;
/// for the output layer, whose `delta` is copied into a buffer with a row per
/// unit, it must fit in that buffer. The cached input has a row per input
/// unit, the cached activation (of a hidden layer) the shape of `delta`, and
/// `output` receives the error of the layer below.
pub open spec fn backward_ok(
    weights: Shape,
    bias: Shape,
    delta: Shape,
    cached_input: Shape,
    cached_a: Shape,
    output: Shape,
    is_output: bool,
) -> bool {
    &&& !is_output ==> delta.0 == weights.0
    &&& is_output ==> delta.0 * delta.1 <= weights.0 * delta.1
    &&& bias == (weights.0, 1usize)
    &&& cached_input == (weights.1, delta.1)
    &&& output == (weights.1, delta.1)
    &&& !is_output ==> cached_a == delta
    &&& weights.0 * delta.1 <= usize::MAX
    &&& weights.0 * weights.1 <= usize::MAX
}

/// The scratch buffers of the backward pass, and the proof that each kernel
/// launch of the pass gets operands whose shapes it accepts.
pub fn backward_buffers(
    weights: Shape,
    bias: Shape,
    delta: Shape,
    cached_input: Shape,
    cached_a: Shape,
    output: Shape,
    is_output: bool,
) -> (b: BackwardBuffers)
    requires
        backward_ok(weights, bias, delta, cached_input, cached_a, output, is_output),
    ensures
        b.local_delta == (weights.0, delta.1),
        b.sigmoid_prime == (weights.0, delta.1),
        b.row_sum == (weights.0, 1usize),
        b.transposed_input == (cached_input.1, cached_input.0),
        b.weight_update == weights,
        b.transposed_weights == (weights.1, weights.0),
        !is_output ==> cached_a == b.sigmoid_prime && delta == b.sigmoid_prime && b.sigmoid_prime
            == b.local_delta,
        is_output ==> delta.1 == b.local_delta.1 && delta.0 * delta.1 <= b.local_delta.0
            * b.local_delta.1,
        row_sum_ok(b.local_delta, b.row_sum),
        b.row_sum == bias,
        transpose_ok(cached_input, b.transposed_input),
        matmul_ok(b.local_delta, b.transposed_input, b.weight_update),
        transpose_ok(weights, b.transposed_weights),
        matmul_ok(b.transposed_weights, b.local_delta, output),
        column_reduce_ok(b.local_delta, (1usize, delta.1)),
{
    BackwardBuffers {
        local_delta: (weights.0, delta.1),
        sigmoid_prime: (weights.0, delta.1),
        row_sum: (weights.0, 1),
        transposed_input: (cached_input.1, cached_input.0),
        weight_update: weights,
        transposed_weights: (weights.1, weights.0),
    }
}


/// Weights of a layer: `outputs x inputs`.
pub open spec fn weights_shape(l: LayerShape) -> Shape {
    (l.outputs, l.inputs)
}

/// Bias of a layer: `outputs x 1`.
pub open spec fn bias_shape(l: LayerShape) -> Shape {
    (l.outputs, 1usize)
}

/// For the layers of an architecture and a batch of `batch` examples, every
/// layer's forward pass is well shaped when it is fed the activation of the
/// layer before it (the data for the first layer), and every layer's backward
/// pass is well shaped when it is fed the error that the layer after it
/// produces (the loss gradient for the last layer).
pub proof fn lemma_layers_chain(arch: Seq<usize>, layers: Seq<LayerShape>, batch: usize)
    requires
        arch.len() >= 2,
        layers.len() == arch.len() - 1,
        forall|i: int|
            0 <= i < layers.len() ==> (#[trigger] layers[i]).inputs == arch[i] && layers[i].outputs
                == arch[i + 1] && layers[i].is_output == (i == layers.len() - 1),
        forall|i: int|
            0 <= i < arch.len() ==> #[trigger] arch[i] * batch <= usize::MAX && (i + 1 < arch.len()
                ==> arch[i] * arch[i + 1] <= usize::MAX),
    ensures
        forall|i: int|
            0 <= i < layers.len() ==> forward_ok(
                weights_shape(#[trigger] layers[i]),
                bias_shape(layers[i]),
                (arch[i], batch),
            ) && backward_ok(
                weights_shape(layers[i]),
                bias_shape(layers[i]),
                (arch[i + 1], batch),
                (arch[i], batch),
                (arch[i + 1], batch),
                (arch[i], batch),
                layers[i].is_output,
            ),
        forall|i: int|
            0 <= i < layers.len() - 1 ==> (#[trigger] layers[i]).outputs == layers[i + 1].inputs,
{
    assert forall|i: int| 0 <= i < layers.len() implies forward_ok(
        weights_shape(#[trigger] layers[i]),
        bias_shape(layers[i]),
        (arch[i], batch),
    ) && backward_ok(
        weights_shape(layers[i]),
        bias_shape(layers[i]),
        (arch[i + 1], batch),
        (arch[i], batch),
        (arch[i + 1], batch),
        (arch[i], batch),
        layers[i].is_output,
    ) by {
        assert(arch[i + 1] * batch <= usize::MAX);
        assert(arch[i] * arch[i + 1] <= usize::MAX);
        assert(arch[i + 1] * arch[i] <= usize::MAX) by (nonlinear_arith)
            requires
                arch[i] * arch[i + 1] <= usize::MAX,
        ;
    }
    assert forall|i: int| 0 <= i < layers.len() - 1 implies (#[trigger] layers[i]).outputs
        == layers[i + 1].inputs by {
        assert(layers[i + 1].inputs == arch[i + 1]);
    }
}

} // verus!
