use vstd::prelude::*;
use crate::arith::{ceil_div, div_ceil_u32};

verus! {

/// Side of the square tile of threads that the matrix kernels run per
/// workgroup.
pub const TILE: u32 = 16;

/// Threads per workgroup of the softmax kernel (one row each).
pub const ROW_GROUP: u32 = 64;

/// Threads per workgroup of the element-wise kernels.
pub const ELEMENT_GROUP: u32 = 256;

/// Bytes of one stored scalar.
pub const SCALAR_BYTES: usize = 4;

/// A grid of workgroups to dispatch.
#[derive(Clone, Copy, PartialEq, Eq, Structural, Debug)]
pub struct Grid {
    pub x: u32,
    pub y: u32,
    pub z: u32,
}

/// Enough workgroups of `group` threads for `n` threads, and no more: the
/// last workgroup is needed.
pub proof fn lemma_grid_covers(n: int, group: int)
    requires
        0 <= n,
        0 < group,
    ensures
        ceil_div(n, group) * group >= n,
        n > 0 ==> (ceil_div(n, group) - 1) * group < n,
        ceil_div(n, group) >= 0,
{
    vstd::arithmetic::div_mod::lemma_fundamental_div_mod(n, group);
    vstd::arithmetic::div_mod::lemma_mod_pos_bound(n, group);
    let q = n / group;
    let r = n % group;
    assert(q >= 0) by (nonlinear_arith)
        requires group * q + r == n, 0 <= r < group, n >= 0;
    if r == 0 {
        assert(q * group == n) by (nonlinear_arith)
            requires group * q + r == n, r == 0;
        assert(n > 0 ==> (q - 1) * group < n) by (nonlinear_arith)
            requires q * group == n, group > 0;
    } else {
        assert((q + 1) * group >= n) by (nonlinear_arith)
            requires group * q + r == n, r < group;
        assert(q * group < n) by (nonlinear_arith)
            requires group * q + r == n, r > 0;
    }
}

/// Workgroups for `n` threads in groups of `group`.
pub fn workgroups(n: u32, group: u32) -> (r: u32)
    requires
        group > 0,
    ensures
        r == ceil_div(n as int, group as int),
        r * group >= n,
        n > 0 ==> (r - 1) * group < n,
{
    proof {
        lemma_grid_covers(n as int, group as int);
    }
    div_ceil_u32(n, group)
}

/// The grid of the product of an `a_rows x a_cols` matrix and an
/// `a_cols x b_cols` matrix: one tile per block of the result.
pub fn matmul_grid(a_rows: u32, b_cols: u32) -> (r: Grid)
    ensures
        r == (Grid {
            x: ceil_div(b_cols as int, TILE as int) as u32,
            y: ceil_div(a_rows as int, TILE as int) as u32,
            z: 1,
        }),
        r.x * TILE >= b_cols,
        b_cols > 0 ==> (r.x - 1) * TILE < b_cols,
        r.y * TILE >= a_rows,
        a_rows > 0 ==> (r.y - 1) * TILE < a_rows,
        r.z == 1,
{
    Grid { x: workgroups(b_cols, TILE), y: workgroups(a_rows, TILE), z: 1 }
}

/// The grid of the product of an `a_rows x a_cols` matrix and the
/// transpose of a `b_rows x a_cols` matrix.
pub fn matmul_transposed_grid(a_rows: u32, b_rows: u32) -> (r: Grid)
    ensures
        r == (Grid {
            x: ceil_div(b_rows as int, TILE as int) as u32,
            y: ceil_div(a_rows as int, TILE as int) as u32,
            z: 1,
        }),
        r.x * TILE >= b_rows,
        b_rows > 0 ==> (r.x - 1) * TILE < b_rows,
        r.y * TILE >= a_rows,
        a_rows > 0 ==> (r.y - 1) * TILE < a_rows,
        r.z == 1,
{
    Grid { x: workgroups(b_rows, TILE), y: workgroups(a_rows, TILE), z: 1 }
}

/// The grid that adds the bias to a `rows x cols` matrix and applies the
/// activation.
pub fn bias_relu_grid(rows: u32, cols: u32) -> (r: Grid)
    ensures
        r == (Grid {
            x: ceil_div(cols as int, TILE as int) as u32,
            y: ceil_div(rows as int, TILE as int) as u32,
            z: 1,
        }),
        r.x * TILE >= cols,
        cols > 0 ==> (r.x - 1) * TILE < cols,
        r.y * TILE >= rows,
        rows > 0 ==> (r.y - 1) * TILE < rows,
        r.z == 1,
{
    Grid { x: workgroups(cols, TILE), y: workgroups(rows, TILE), z: 1 }
}

/// The grid of the softmax over each of `rows` rows.
pub fn softmax_grid(rows: u32) -> (r: Grid)
    ensures
        r == (Grid { x: ceil_div(rows as int, ROW_GROUP as int) as u32, y: 1, z: 1 }),
        r.x * ROW_GROUP >= rows,
        rows > 0 ==> (r.x - 1) * ROW_GROUP < rows,
        r.y == 1 && r.z == 1,
{
    Grid { x: workgroups(rows, ROW_GROUP), y: 1, z: 1 }
}

/// The number of values of a `batch_size x nodes` matrix, which the
/// element-wise kernels receive.
pub fn element_count(batch_size: u32, nodes: u32) -> (r: u32)
    requires
        batch_size * nodes <= u32::MAX,
    ensures
        r == batch_size * nodes,
{
    batch_size * nodes
}

/// The grid of an element-wise kernel over `size` values.
pub fn element_grid(size: u32) -> (r: Grid)
    ensures
        r == (Grid { x: ceil_div(size as int, ELEMENT_GROUP as int) as u32, y: 1, z: 1 }),
        r.x * ELEMENT_GROUP >= size,
        size > 0 ==> (r.x - 1) * ELEMENT_GROUP < size,
        r.y == 1 && r.z == 1,
{
    Grid { x: workgroups(size, ELEMENT_GROUP), y: 1, z: 1 }
}

/// The grid of the weight update of an `input_nodes x output_nodes`
/// layer: one tile per block of its weight matrix.
pub fn update_grid(input_nodes: u32, output_nodes: u32) -> (r: Grid)
    ensures
        r == (Grid {
            x: ceil_div(output_nodes as int, TILE as int) as u32,
            y: ceil_div(input_nodes as int, TILE as int) as u32,
            z: 1,
        }),
        r.x * TILE >= output_nodes,
        output_nodes > 0 ==> (r.x - 1) * TILE < output_nodes,
        r.y * TILE >= input_nodes,
        input_nodes > 0 ==> (r.y - 1) * TILE < input_nodes,
        r.z == 1,
{
    Grid { x: workgroups(output_nodes, TILE), y: workgroups(input_nodes, TILE), z: 1 }
}

/// Bytes of a `rows x cols` matrix of scalars.
pub fn matrix_bytes(rows: usize, cols: usize) -> (r: u64)
    requires
        rows * cols * SCALAR_BYTES <= usize::MAX,
    ensures
        r == rows * cols * SCALAR_BYTES,
{
    (rows * cols * SCALAR_BYTES) as u64
}

} // verus!
