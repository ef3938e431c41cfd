//! Shape checks, uniforms and dispatch sizes of the GPU matrix kernels.
//!
//! A shape is `(rows, columns)`. Each function here belongs to one kernel
//! launch: its `requires` is the shape agreement that the launch asserts, and
//! its result is what the launch hands to the device.
use crate::network::{ceil_div, lemma_ceil_div_bounds};
use vstd::prelude::*;

verus! {

/// A shape as `(rows, columns)`.
pub type Shape = (usize, usize);

/// Workgroup counts along x, y and z.
pub type Workgroups = (u32, u32, u32);

/// Work items per workgroup of the one-dimensional kernels.
pub const FLAT_WORKGROUP: usize = 256;

/// Side of the square tile of the two-dimensional kernels.
pub const TILE: usize = 16;

/// The `rows` and `columns` uniform shared by several kernels.
#[derive(Debug, Clone, Copy, PartialEq, Eq, Structural)]
pub struct DimensionsUniform {
    pub rows: u32,
    pub columns: u32,
}

/// Uniform of the matrix product `m x k` times `k x n`.
#[derive(Debug, Clone, Copy, PartialEq, Eq, Structural)]
pub struct MatmulDimensions {
    pub m: u32,
    pub n: u32,
    pub k: u32,
}

/// Uniform of the in-place addition.
#[derive(Debug, Clone, Copy, PartialEq, Eq, Structural)]
pub struct InplaceAddUniform {
    pub columns_a: u32,
    /// 1 when the right-hand side is a single column added to every column.
    pub is_broadcast: u32,
}

/// Uniform of the column slice.
#[derive(Debug, Clone, Copy, PartialEq, Eq, Structural)]
pub struct ColumnSliceUniform {
    pub rows: u32,
    pub columns: u32,
    pub start_col: u32,
    pub batch_width: u32,
}

/// `ceil(n / size)`, cut to 32 bits as a cast to `u32` does.
pub fn workgroup_count(n: usize, size: usize) -> (r: u32)
    requires
        size > 0,
    ensures
        r == ceil_div(n as nat, size as nat) as u32,
{
    let q = n / size;
    let c = if n % size == 0 {
        q
    } else {
        proof {
            vstd::arithmetic::div_mod::lemma_fundamental_div_mod(n as int, size as int);
            assert(q < usize::MAX) by (nonlinear_arith)
                requires
                    n == size * q + n % size,
                    n % size != 0,
                    size >= 1,
                    q >= 0,
                    n <= usize::MAX,
            ;
        }
        q + 1
    };
    #[verifier::truncate]
    (c as u32)
}

/// The dimensions of a shape, each cut to 32 bits.
pub fn dimensions(shape: Shape) -> (u: DimensionsUniform)
    ensures
        u.rows == shape.0 as u32,
        u.columns == shape.1 as u32,
{
    DimensionsUniform {
        rows: #[verifier::truncate] (shape.0 as u32),
        columns: #[verifier::truncate] (shape.1 as u32),
    }
}

/// Dispatch of a kernel with one work item per entry, 256 to a workgroup.
pub open spec fn flat_workgroups(shape: Shape) -> Workgroups {
    (ceil_div((shape.0 * shape.1) as nat, FLAT_WORKGROUP as nat) as u32, 1, 1)
}

/// Dispatch of a kernel with one work item per entry, in 16 x 16 tiles.
pub open spec fn tiled_workgroups(shape: Shape) -> Workgroups {
    (
        ceil_div(shape.1 as nat, TILE as nat) as u32,
        ceil_div(shape.0 as nat, TILE as nat) as u32,
        1,
    )
}

/// Dispatch of a kernel with one work item per column, 256 to a workgroup.
pub open spec fn column_workgroups(shape: Shape) -> Workgroups {
    (ceil_div(shape.1 as nat, FLAT_WORKGROUP as nat) as u32, 1, 1)
}

/// A launch in 16 x 16 tiles covers the matrix with no tile to spare: `16 * x`
/// reaches the number of columns while `16 * (x - 1)` falls short of it, and
/// likewise `y` for the rows (while the counts fit the 32 bits of a dispatch).
pub proof fn lemma_tiled_workgroups_cover(shape: Shape)
    requires
        shape.0 <= TILE * u32::MAX,
        shape.1 <= TILE * u32::MAX,
    ensures
        shape.1 <= TILE * tiled_workgroups(shape).0 < shape.1 + TILE,
        shape.0 <= TILE * tiled_workgroups(shape).1 < shape.0 + TILE,
        tiled_workgroups(shape).2 == 1,
{
    lemma_ceil_div_bounds(shape.1 as nat, TILE as nat);
    lemma_ceil_div_bounds(shape.0 as nat, TILE as nat);
}

/// A launch with one work item per column, 256 to a workgroup, covers every
/// column with no workgroup to spare: `256 * x` reaches the number of columns
/// while `256 * (x - 1)` falls short of it (while the count fits 32 bits).
pub proof fn lemma_column_workgroups_cover(shape: Shape)
    requires
        shape.1 <= FLAT_WORKGROUP * u32::MAX,
    ensures
        shape.1 <= FLAT_WORKGROUP * column_workgroups(shape).0 < shape.1 + FLAT_WORKGROUP,
        column_workgroups(shape).1 == 1,
        column_workgroups(shape).2 == 1,
{
    lemma_ceil_div_bounds(shape.1 as nat, FLAT_WORKGROUP as nat);
}

/// A launch with one work item per entry, 256 to a workgroup, covers every
/// entry with no workgroup to spare: `256 * x` reaches `rows * columns` while
/// `256 * (x - 1)` falls short of it (while the count fits 32 bits).
pub proof fn lemma_flat_workgroups_cover(shape: Shape)
    requires
        shape.0 * shape.1 <= FLAT_WORKGROUP * u32::MAX,
    ensures
        shape.0 * shape.1 <= FLAT_WORKGROUP * flat_workgroups(shape).0 < shape.0 * shape.1
            + FLAT_WORKGROUP,
        flat_workgroups(shape).1 == 1,
        flat_workgroups(shape).2 == 1,
{
    lemma_ceil_div_bounds((shape.0 * shape.1) as nat, FLAT_WORKGROUP as nat);
}

fn flat(shape: Shape) -> (w: Workgroups)
    requires
        shape.0 * shape.1 <= usize::MAX,
    ensures
        w == flat_workgroups(shape),
{
    (workgroup_count(shape.0 * shape.1, FLAT_WORKGROUP), 1, 1)
}

fn tiled(shape: Shape) -> (w: Workgroups)
    ensures
        w == tiled_workgroups(shape),
{
    (workgroup_count(shape.1, TILE), workgroup_count(shape.0, TILE), 1)
}

/// Size in bytes of the buffer of a matrix of `f32` entries.
pub fn buffer_size(shape: Shape) -> (size: u64)
    requires
        shape.0 * shape.1 * 4 <= usize::MAX,
    ensures
        size == shape.0 * shape.1 * 4,
{
    (shape.0 * shape.1 * 4) as u64
}

/// `result` holds one value for each column of `input`.
pub open spec fn column_reduce_ok(input: Shape, result: Shape) -> bool {
    input.1 == result.1 && result.0 == 1
}

/// Launch of the column maximum or the column sum of `input` into `result`.
pub fn column_reduce(input: Shape, result: Shape) -> (r: (DimensionsUniform, Workgroups))
    requires
        column_reduce_ok(input, result),
    ensures
        r.0 == dimensions_of(input),
        r.1 == column_workgroups(input),
{
    (dimensions(input), (workgroup_count(input.1, FLAT_WORKGROUP), 1, 1))
}

/// The dimensions uniform of a shape.
pub open spec fn dimensions_of(shape: Shape) -> DimensionsUniform {
    DimensionsUniform { rows: shape.0 as u32, columns: shape.1 as u32 }
}

/// Launch of a kernel that combines `matrix` with one value per column
/// (the shifted exponential and the normalisation of the softmax).
pub fn column_broadcast(matrix: Shape, per_column: Shape) -> (r: (DimensionsUniform, Workgroups))
    requires
        column_reduce_ok(matrix, per_column),
    ensures
        r.0 == dimensions_of(matrix),
        r.1 == tiled_workgroups(matrix),
{
    (dimensions(matrix), tiled(matrix))
}

/// Launch of the cross-entropy gradient of `softmax` against `target` into `result`.
pub fn cross_entropy_gradient(softmax: Shape, result: Shape, target: Shape) -> (r: (
    DimensionsUniform,
    Workgroups,
))
    requires
        softmax == result,
        softmax == target,
    ensures
        r.0 == dimensions_of(softmax),
        r.1 == tiled_workgroups(softmax),
{
    (dimensions(softmax), tiled(softmax))
}

/// The column slice of `size` columns from `start_col` fits `source` and `result`.
pub open spec fn column_slice_ok(source: Shape, result: Shape, start_col: u32, size: u32) -> bool {
    &&& source.0 == result.0
    &&& size == result.1 as u32
    &&& start_col + size <= u32::MAX
    &&& start_col + size <= source.1 as u32
}

/// Launch of the copy of columns `start_col .. start_col + size` of `source`
/// into `result`.
pub fn column_slice(source: Shape, result: Shape, start_col: u32, size: u32) -> (r: (
    ColumnSliceUniform,
    Workgroups,
))
    requires
        column_slice_ok(source, result, start_col, size),
    ensures
        r.0 == (ColumnSliceUniform {
            rows: source.0 as u32,
            columns: source.1 as u32,
            start_col,
            batch_width: size,
        }),
        r.1 == (ceil_div(size as nat, TILE as nat) as u32, ceil_div(source.0 as nat, TILE as nat) as u32, 1u32),
{
    let d = dimensions(source);
    let u = ColumnSliceUniform { rows: d.rows, columns: d.columns, start_col, batch_width: size };
    (u, (workgroup_count(size as usize, TILE), workgroup_count(source.0, TILE), 1))
}

/// `a * b` is defined and has the shape of `result`.
pub open spec fn matmul_ok(a: Shape, b: Shape, result: Shape) -> bool {
    a.1 == b.0 && a.0 == result.0 && b.1 == result.1
}

/// Launch of the product `a * b` into `result`.
pub fn matmul(a: Shape, b: Shape, result: Shape) -> (r: (MatmulDimensions, Workgroups))
    requires
        matmul_ok(a, b, result),
    ensures
        r.0 == (MatmulDimensions { m: a.0 as u32, n: b.1 as u32, k: a.1 as u32 }),
        r.1 == (ceil_div(b.1 as nat, TILE as nat) as u32, ceil_div(a.0 as nat, TILE as nat) as u32, 1u32),
{
    let da = dimensions(a);
    let db = dimensions(b);
    (MatmulDimensions { m: da.rows, n: db.columns, k: da.columns }, tiled((a.0, b.1)))
}

/// Launch of an entry-wise kernel over three matrices of one shape
/// (the Hadamard product of `a` and `b` into `result`).
pub fn hadamard(a: Shape, b: Shape, result: Shape) -> (w: Workgroups)
    requires
        a == b,
        b == result,
        a.0 * a.1 <= usize::MAX,
    ensures
        w == flat_workgroups(a),
{
    flat(a)
}

/// `rhs` can be added to `lhs` in place: same shape, or one column added to every column.
pub open spec fn add_assign_ok(lhs: Shape, rhs: Shape) -> bool {
    lhs == rhs || (lhs.0 == rhs.0 && rhs.1 == 1)
}

/// Launch of the in-place addition `lhs += rhs`.
pub fn add_assign(lhs: Shape, rhs: Shape) -> (r: (InplaceAddUniform, Workgroups))
    requires
        add_assign_ok(lhs, rhs),
        lhs.0 * lhs.1 <= usize::MAX,
    ensures
        r.0.columns_a == lhs.1 as u32,
        r.0.is_broadcast == (if lhs.0 == rhs.0 && rhs.1 == 1 {
            1u32
        } else {
            0u32
        }),
        r.1 == flat_workgroups(lhs),
{
    let row_broadcast = lhs.0 == rhs.0 && rhs.1 == 1;
    let d = dimensions(lhs);
    let u = InplaceAddUniform {
        columns_a: d.columns,
        is_broadcast: if row_broadcast {
            1
        } else {
            0
        },
    };
    (u, flat(lhs))
}

/// Launch of the in-place scaled subtraction `lhs -= scale * rhs`.
pub fn subtract_assign_scaled(lhs: Shape, rhs: Shape) -> (w: Workgroups)
    requires
        lhs == rhs,
        lhs.0 * lhs.1 <= usize::MAX,
    ensures
        w == flat_workgroups(lhs),
{
    flat(lhs)
}

/// `output` holds one value for each row of `input`.
pub open spec fn row_sum_ok(input: Shape, output: Shape) -> bool {
    input.0 == output.0 && output.1 == 1
}

/// Launch of the row sums of `input` into `output`: one workgroup per row.
pub fn row_sum(input: Shape, output: Shape) -> (w: Workgroups)
    requires
        row_sum_ok(input, output),
    ensures
        w == (input.0 as u32, 1u32, 1u32),
{
    let d = dimensions(input);
    (d.rows, 1, 1)
}

/// Launch of the in-place logistic function over a matrix of shape `shape`.
pub fn sigmoid(shape: Shape) -> (w: Workgroups)
    requires
        shape.0 * shape.1 <= usize::MAX,
    ensures
        w == flat_workgroups(shape),
{
    flat(shape)
}

/// Launch of the derivative of the logistic function from `input` into `result`.
pub fn sigmoid_prime(input: Shape, result: Shape) -> (w: Workgroups)
    requires
        input == result,
        input.0 * input.1 <= usize::MAX,
    ensures
        w == flat_workgroups(input),
{
    flat(input)
}

/// `result` has the transposed shape of `source`.
pub open spec fn transpose_ok(source: Shape, result: Shape) -> bool {
    source.0 == result.1 && source.1 == result.0
}

/// Launch of the transpose of `source` into `result`.
pub fn transpose(source: Shape, result: Shape) -> (r: (DimensionsUniform, Workgroups))
    requires
        transpose_ok(source, result),
    ensures
        r.0 == dimensions_of(source),
        r.1 == tiled_workgroups(source),
{
    (dimensions(source), tiled(source))
}

} // verus!
