use neural_net::gpu::buffer_pool::BufferPool;
use neural_net::gpu::layer::{backward_buffers, forward_buffer, reuse_buffer};
use neural_net::gpu::loss::SoftmaxCrossEntropy;
use neural_net::gpu::matrix::{
    add_assign, buffer_size, column_broadcast, column_reduce, column_slice, cross_entropy_gradient,
    dimensions, hadamard, matmul, row_sum, sigmoid, sigmoid_prime, subtract_assign_scaled,
    transpose, workgroup_count, ColumnSliceUniform, DimensionsUniform, InplaceAddUniform,
    MatmulDimensions,
};

#[test]
fn workgroup_count_rounds_up() {
    assert_eq!(workgroup_count(0, 16), 0);
    assert_eq!(workgroup_count(16, 16), 1);
    assert_eq!(workgroup_count(17, 16), 2);
    assert_eq!(workgroup_count(1024, 256), 4);
}

#[test]
fn matmul_launch() {
    let (u, w) = matmul((1024, 512), (512, 33), (1024, 33));
    assert_eq!(u, MatmulDimensions { m: 1024, n: 33, k: 512 });
    assert_eq!(w, (3, 64, 1));
}

#[test]
fn flat_and_tiled_launches() {
    assert_eq!(hadamard((10, 30), (10, 30), (10, 30)), (2, 1, 1));
    assert_eq!(sigmoid((1, 1)), (1, 1, 1));
    assert_eq!(sigmoid_prime((16, 16), (16, 16)), (1, 1, 1));
    assert_eq!(subtract_assign_scaled((100, 10), (100, 10)), (4, 1, 1));
    assert_eq!(row_sum((7, 128), (7, 1)), (7, 1, 1));
    assert_eq!(
        transpose((20, 40), (40, 20)),
        (DimensionsUniform { rows: 20, columns: 40 }, (3, 2, 1))
    );
    assert_eq!(
        column_reduce((10, 300), (1, 300)),
        (DimensionsUniform { rows: 10, columns: 300 }, (2, 1, 1))
    );
    assert_eq!(
        column_broadcast((10, 300), (1, 300)),
        (DimensionsUniform { rows: 10, columns: 300 }, (19, 1, 1))
    );
    assert_eq!(
        cross_entropy_gradient((3, 3), (3, 3), (3, 3)),
        (DimensionsUniform { rows: 3, columns: 3 }, (1, 1, 1))
    );
}

#[test]
fn add_assign_broadcasts_a_column() {
    let (u, _) = add_assign((10, 5), (10, 1));
    assert_eq!(u, InplaceAddUniform { columns_a: 5, is_broadcast: 1 });
    let (u, _) = add_assign((10, 5), (10, 5));
    assert_eq!(u, InplaceAddUniform { columns_a: 5, is_broadcast: 0 });
}

#[test]
fn column_slice_launch() {
    let (u, w) = column_slice((784, 60000), (784, 128), 256, 128);
    assert_eq!(
        u,
        ColumnSliceUniform { rows: 784, columns: 60000, start_col: 256, batch_width: 128 }
    );
    assert_eq!(w, (8, 49, 1));
}

#[test]
fn buffer_size_is_four_bytes_per_entry() {
    assert_eq!(buffer_size((4, 7)), 112);
    assert_eq!(dimensions((4, 7)), DimensionsUniform { rows: 4, columns: 7 });
}

#[test]
fn pool_hands_back_the_last_recycled_buffer() {
    let mut pool: BufferPool<&str> = BufferPool::new();
    assert_eq!(pool.get(2, 3), None);
    pool.recycle((2, 3), "a");
    pool.recycle((2, 3), "b");
    pool.recycle((3, 2), "c");
    assert_eq!(pool.get(2, 3), Some("b"));
    assert_eq!(pool.get(2, 3), Some("a"));
    assert_eq!(pool.get(2, 3), None);
    assert_eq!(pool.get(3, 2), Some("c"));
}

#[test]
fn layer_buffers() {
    assert!(reuse_buffer(Some((3, 4)), 3, 4));
    assert!(!reuse_buffer(Some((3, 4)), 4, 3));
    assert!(!reuse_buffer(None, 3, 4));
    assert_eq!(forward_buffer((100, 784), (100, 1), (784, 128)), (100, 128));
    let b = backward_buffers((10, 100), (10, 1), (10, 128), (100, 128), (10, 128), (100, 128), true);
    assert_eq!(b.local_delta, (10, 128));
    assert_eq!(b.row_sum, (10, 1));
    assert_eq!(b.transposed_input, (128, 100));
    assert_eq!(b.weight_update, (10, 100));
    assert_eq!(b.transposed_weights, (100, 10));
}

#[test]
fn softmax_scratch_shapes() {
    assert_eq!(SoftmaxCrossEntropy::forward_scratch((10, 5), (10, 5)), (1, 5));
    assert_eq!(
        SoftmaxCrossEntropy::backward_scratch((10, 5), (10, 5), (10, 5)),
        ((1, 5), (10, 5))
    );
}

#[test]
fn output_layer_error_may_be_shorter_than_its_units() {
    let b = backward_buffers((10, 100), (10, 1), (4, 128), (100, 128), (10, 128), (100, 128), true);
    assert_eq!(b.local_delta, (10, 128));
    assert_eq!(b.sigmoid_prime, (10, 128));
    assert_eq!(b.transposed_weights, (100, 10));
}
