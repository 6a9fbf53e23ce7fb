use vstd::prelude::*;
use crate::arith::ceil_div;
use crate::dispatch::{
    element_count, element_grid, matmul_grid, matmul_transposed_grid, bias_relu_grid, softmax_grid, update_grid,
    matrix_bytes, Grid, TILE, ROW_GROUP, ELEMENT_GROUP, SCALAR_BYTES,
};
use crate::shape::LayerShape;

verus! {

/// One layer of a forward pass on the GPU: the product of the `a_rows x
/// a_cols` activations with the `a_cols x b_cols` weights, the bytes of the
/// activations copied in and out, and, for hidden layers only, the bias and
/// activation kernel.
#[derive(Clone, Copy, PartialEq, Eq, Structural, Debug)]
pub struct ForwardStep {
    pub a_rows: u32,
    pub a_cols: u32,
    pub b_cols: u32,
    pub input_bytes: u64,
    pub output_bytes: u64,
    pub matmul: Grid,
    pub bias_relu: Option<Grid>,
}

/// The softmax over the rows of the network's output.
#[derive(Clone, Copy, PartialEq, Eq, Structural, Debug)]
pub struct SoftmaxStep {
    pub rows: u32,
    pub cols: u32,
    pub grid: Grid,
}

pub open spec fn tile_grid(x: u32, y: u32) -> Grid {
    Grid { x: ceil_div(x as int, TILE as int) as u32, y: ceil_div(y as int, TILE as int) as u32, z: 1 }
}

pub open spec fn element_grid_of(size: int) -> Grid {
    Grid { x: ceil_div(size, ELEMENT_GROUP as int) as u32, y: 1, z: 1 }
}

/// The step of a forward pass over `amount` samples through layer `l`.
pub open spec fn spec_forward_step(l: LayerShape, amount: usize) -> ForwardStep {
    let a_rows = amount as u32;
    let b_cols = l.output_nodes as u32;
    ForwardStep {
        a_rows,
        a_cols: l.input_nodes as u32,
        b_cols,
        input_bytes: (amount * l.input_nodes * SCALAR_BYTES) as u64,
        output_bytes: (amount * l.output_nodes * SCALAR_BYTES) as u64,
        matmul: tile_grid(b_cols, a_rows),
        bias_relu: if l.is_output {
            None
        } else {
            Some(tile_grid(b_cols, a_rows))
        },
    }
}

/// The byte counts of a pass over `amount` samples fit.
pub open spec fn pass_fits(layers: Seq<LayerShape>, amount: usize) -> bool {
    forall|i: int|
        0 <= i < layers.len() ==> #[trigger] (amount * layers[i].input_nodes * SCALAR_BYTES) <= usize::MAX
            && amount * layers[i].output_nodes * SCALAR_BYTES <= usize::MAX
}

/// Tile grids over `x` columns and `y` rows are the fewest tiles that cover
/// them.
proof fn lemma_tile_grid(x: u32, y: u32)
    ensures
        tile_grid(x, y).x * TILE >= x,
        x > 0 ==> (tile_grid(x, y).x - 1) * TILE < x,
        tile_grid(x, y).y * TILE >= y,
        y > 0 ==> (tile_grid(x, y).y - 1) * TILE < y,
        tile_grid(x, y).z == 1,
{
    crate::dispatch::lemma_grid_covers(x as int, TILE as int);
    crate::dispatch::lemma_grid_covers(y as int, TILE as int);
}

/// A forward step over `amount` samples through a layer multiplies
/// `amount` rows of the layer's input width by its weights into rows of its
/// output width, with the fewest tiles that cover every row and every
/// column of the product; it moves `amount` rows of input and of output,
/// and adds bias and activation over the same tiles for hidden layers only.
pub proof fn lemma_forward_step(l: LayerShape, amount: usize)
    requires
        amount * l.input_nodes * SCALAR_BYTES <= usize::MAX,
        amount * l.output_nodes * SCALAR_BYTES <= usize::MAX,
    ensures
        ({
            let s = spec_forward_step(l, amount);
            &&& s.a_rows == amount as u32
            &&& s.a_cols == l.input_nodes as u32
            &&& s.b_cols == l.output_nodes as u32
            &&& s.input_bytes == amount * l.input_nodes * SCALAR_BYTES
            &&& s.output_bytes == amount * l.output_nodes * SCALAR_BYTES
            &&& s.matmul.y * TILE >= s.a_rows
            &&& (s.a_rows > 0 ==> (s.matmul.y - 1) * TILE < s.a_rows)
            &&& s.matmul.x * TILE >= s.b_cols
            &&& (s.b_cols > 0 ==> (s.matmul.x - 1) * TILE < s.b_cols)
            &&& s.matmul.z == 1
            &&& (s.bias_relu is None <==> l.is_output)
            &&& (s.bias_relu matches Some(g) ==> g == s.matmul)
        }),
{
    lemma_tile_grid(l.output_nodes as u32, amount as u32);
}

/// Plans the forward pass of `amount` samples: one step per layer in order,
/// then the softmax over the output of the last layer.
pub fn forward_plan(layers: &Vec<LayerShape>, amount: usize) -> (r: (Vec<ForwardStep>, SoftmaxStep))
    requires
        layers.len() > 0,
        pass_fits(layers@, amount),
    ensures
        r.0.len() == layers.len(),
        forall|i: int| 0 <= i < layers.len() ==> #[trigger] r.0[i] == spec_forward_step(layers[i], amount),
        forall|i: int|
            0 <= i < layers.len() ==> {
                &&& (#[trigger] r.0[i]).a_rows == amount as u32
                &&& r.0[i].a_cols == layers[i].input_nodes as u32
                &&& r.0[i].b_cols == layers[i].output_nodes as u32
                &&& r.0[i].input_bytes == amount * layers[i].input_nodes * SCALAR_BYTES
                &&& r.0[i].output_bytes == amount * layers[i].output_nodes * SCALAR_BYTES
                &&& r.0[i].matmul.y * TILE >= r.0[i].a_rows
                &&& (r.0[i].a_rows > 0 ==> (r.0[i].matmul.y - 1) * TILE < r.0[i].a_rows)
                &&& r.0[i].matmul.x * TILE >= r.0[i].b_cols
                &&& (r.0[i].b_cols > 0 ==> (r.0[i].matmul.x - 1) * TILE < r.0[i].b_cols)
                &&& r.0[i].matmul.z == 1
                &&& (r.0[i].bias_relu is None <==> layers[i].is_output)
                &&& (r.0[i].bias_relu matches Some(g) ==> g == r.0[i].matmul)
            },
        r.1.rows == amount as u32,
        r.1.cols == layers[layers.len() - 1].output_nodes as u32,
        r.1.grid.x * ROW_GROUP >= r.1.rows,
        r.1.rows > 0 ==> (r.1.grid.x - 1) * ROW_GROUP < r.1.rows,
        r.1.grid.y == 1 && r.1.grid.z == 1,
        r.1 == (SoftmaxStep {
            rows: amount as u32,
            cols: layers[layers.len() - 1].output_nodes as u32,
            grid: Grid { x: ceil_div((amount as u32) as int, ROW_GROUP as int) as u32, y: 1, z: 1 },
        }),
{
    let mut steps: Vec<ForwardStep> = Vec::new();
    let a_rows = amount as u32;
    let mut i: usize = 0;
    while i < layers.len()
        invariant
            i <= layers.len(),
            a_rows == amount as u32,
            pass_fits(layers@, amount),
            steps.len() == i,
            forall|j: int| 0 <= j < i ==> #[trigger] steps[j] == spec_forward_step(layers[j], amount),
        decreases layers.len() - i,
    {
        let l = layers[i];
        assert(amount * layers[i as int].input_nodes * SCALAR_BYTES <= usize::MAX);
        let b_cols = l.output_nodes as u32;
        let grid = matmul_grid(a_rows, b_cols);
        let bias_relu = if l.is_output {
            None
        } else {
            Some(bias_relu_grid(a_rows, b_cols))
        };
        let step = ForwardStep {
            a_rows,
            a_cols: l.input_nodes as u32,
            b_cols,
            input_bytes: matrix_bytes(amount, l.input_nodes),
            output_bytes: matrix_bytes(amount, l.output_nodes),
            matmul: grid,
            bias_relu,
        };
        let ghost before = steps@;
        steps.push(step);
        proof {
            assert forall|j: int| 0 <= j < i + 1 implies #[trigger] steps[j] == spec_forward_step(layers[j], amount) by {
                if j < i {
                    assert(steps[j] == before[j]);
                }
            }
        }
        i = i + 1;
    }
    proof {
        assert forall|j: int| 0 <= j < layers.len() implies {
            &&& (#[trigger] steps[j]).a_rows == amount as u32
            &&& steps[j].a_cols == layers[j].input_nodes as u32
            &&& steps[j].b_cols == layers[j].output_nodes as u32
            &&& steps[j].input_bytes == amount * layers[j].input_nodes * SCALAR_BYTES
            &&& steps[j].output_bytes == amount * layers[j].output_nodes * SCALAR_BYTES
            &&& steps[j].matmul.y * TILE >= steps[j].a_rows
            &&& (steps[j].a_rows > 0 ==> (steps[j].matmul.y - 1) * TILE < steps[j].a_rows)
            &&& steps[j].matmul.x * TILE >= steps[j].b_cols
            &&& (steps[j].b_cols > 0 ==> (steps[j].matmul.x - 1) * TILE < steps[j].b_cols)
            &&& steps[j].matmul.z == 1
            &&& (steps[j].bias_relu is None <==> layers[j].is_output)
            &&& (steps[j].bias_relu matches Some(g) ==> g == steps[j].matmul)
        } by {
            lemma_forward_step(layers[j], amount);
        }
        crate::dispatch::lemma_grid_covers(a_rows as int, ROW_GROUP as int);
    }
    let last = layers[layers.len() - 1];
    let softmax = SoftmaxStep { rows: a_rows, cols: last.output_nodes as u32, grid: softmax_grid(a_rows) };
    (steps, softmax)
}

/// One layer of a training pass on the GPU, taken from the last layer back:
/// the delta kernel over the layer's outputs, the weight update of its
/// `input x output` weights, and the product of the delta with the
/// transposed weights that gives the error of the layer before.
#[derive(Clone, Copy, PartialEq, Eq, Structural, Debug)]
pub struct BackwardStep {
    pub delta_size: u32,
    pub is_output: bool,
    pub delta_grid: Grid,
    pub batch_size: u32,
    pub input_nodes: u32,
    pub output_nodes: u32,
    pub update_grid: Grid,
    pub error_bytes: u64,
    pub transposed_a_rows: u32,
    pub transposed_a_cols: u32,
    pub transposed_b_rows: u32,
    pub transposed_grid: Grid,
}

/// The first kernel of a training pass: the error of the network's output.
#[derive(Clone, Copy, PartialEq, Eq, Structural, Debug)]
pub struct ErrorStep {
    pub size: u32,
    pub grid: Grid,
}

/// The step of a training pass with batch size `batch` through layer `l`.
pub open spec fn spec_backward_step(l: LayerShape, amount: usize) -> BackwardStep {
    let batch = amount as u32;
    let input = l.input_nodes as u32;
    let output = l.output_nodes as u32;
    BackwardStep {
        delta_size: (batch * output) as u32,
        is_output: l.is_output,
        delta_grid: element_grid_of(batch * output),
        batch_size: batch,
        input_nodes: input,
        output_nodes: output,
        update_grid: tile_grid(output, input),
        error_bytes: (amount * l.input_nodes * SCALAR_BYTES) as u64,
        transposed_a_rows: batch,
        transposed_a_cols: output,
        transposed_b_rows: input,
        transposed_grid: tile_grid(input, batch),
    }
}

/// The element counts of a training pass with `amount` samples fit.
pub open spec fn counts_fit(layers: Seq<LayerShape>, amount: usize) -> bool {
    forall|i: int| 0 <= i < layers.len() ==> #[trigger] ((amount as u32) * (layers[i].output_nodes as u32)) <= u32::MAX
}

/// A training step through a layer with a batch of `amount` samples runs
/// the delta kernel over the batch's `amount * output` values with the
/// fewest workgroups that cover them all, updates the layer's `input x
/// output` weights with the fewest tiles that cover them, and multiplies
/// the `amount x output` delta by the transposed weights with the fewest
/// tiles that cover the `amount x input` error it gives, whose bytes it
/// sizes.
pub proof fn lemma_backward_step(l: LayerShape, amount: usize)
    requires
        (amount as u32) * (l.output_nodes as u32) <= u32::MAX,
        amount * l.input_nodes * SCALAR_BYTES <= usize::MAX,
    ensures
        ({
            let s = spec_backward_step(l, amount);
            let batch = amount as u32;
            let input = l.input_nodes as u32;
            let output = l.output_nodes as u32;
            &&& s.delta_size == batch * output
            &&& s.is_output == l.is_output
            &&& s.delta_grid.x * ELEMENT_GROUP >= s.delta_size
            &&& (s.delta_size > 0 ==> (s.delta_grid.x - 1) * ELEMENT_GROUP < s.delta_size)
            &&& s.delta_grid.y == 1 && s.delta_grid.z == 1
            &&& s.batch_size == batch
            &&& s.input_nodes == input
            &&& s.output_nodes == output
            &&& s.update_grid.x * TILE >= output
            &&& (output > 0 ==> (s.update_grid.x - 1) * TILE < output)
            &&& s.update_grid.y * TILE >= input
            &&& (input > 0 ==> (s.update_grid.y - 1) * TILE < input)
            &&& s.update_grid.z == 1
            &&& s.error_bytes == amount * l.input_nodes * SCALAR_BYTES
            &&& s.transposed_a_rows == batch
            &&& s.transposed_a_cols == output
            &&& s.transposed_b_rows == input
            &&& s.transposed_grid.x * TILE >= input
            &&& (input > 0 ==> (s.transposed_grid.x - 1) * TILE < input)
            &&& s.transposed_grid.y * TILE >= batch
            &&& (batch > 0 ==> (s.transposed_grid.y - 1) * TILE < batch)
            &&& s.transposed_grid.z == 1
        }),
{
    let batch = amount as u32;
    let output = l.output_nodes as u32;
    crate::dispatch::lemma_grid_covers(batch * output, ELEMENT_GROUP as int);
    lemma_tile_grid(output, l.input_nodes as u32);
    lemma_tile_grid(l.input_nodes as u32, batch);
}

/// Plans the training pass of `amount` samples after a forward pass: the
/// error of the output, then one step per layer from the last to the first.
pub fn backward_plan(layers: &Vec<LayerShape>, amount: usize) -> (r: (ErrorStep, Vec<BackwardStep>))
    requires
        layers.len() > 0,
        amount as u32 != 0,
        pass_fits(layers@, amount),
        counts_fit(layers@, amount),
    ensures
        r.0 == (ErrorStep {
            size: ((amount as u32) * (layers[layers.len() - 1].output_nodes as u32)) as u32,
            grid: element_grid_of((amount as u32) * (layers[layers.len() - 1].output_nodes as u32)),
        }),
        r.0.size == (amount as u32) * (layers[layers.len() - 1].output_nodes as u32),
        r.0.grid.x * ELEMENT_GROUP >= r.0.size,
        r.0.size > 0 ==> (r.0.grid.x - 1) * ELEMENT_GROUP < r.0.size,
        r.0.grid.y == 1 && r.0.grid.z == 1,
        r.1.len() == layers.len(),
        forall|k: int|
            0 <= k < layers.len() ==> #[trigger] r.1[k] == spec_backward_step(layers[layers.len() - 1 - k], amount),
        forall|k: int|
            0 <= k < layers.len() ==> {
                let l = layers[layers.len() - 1 - k];
                let s = #[trigger] r.1[k];
                let batch = amount as u32;
                let input = l.input_nodes as u32;
                let output = l.output_nodes as u32;
                &&& s.delta_size == batch * output
                &&& s.is_output == l.is_output
                &&& s.delta_grid.x * ELEMENT_GROUP >= s.delta_size
                &&& (s.delta_size > 0 ==> (s.delta_grid.x - 1) * ELEMENT_GROUP < s.delta_size)
                &&& s.delta_grid.y == 1 && s.delta_grid.z == 1
                &&& s.batch_size == batch
                &&& s.input_nodes == input
                &&& s.output_nodes == output
                &&& s.update_grid.x * TILE >= output
                &&& (output > 0 ==> (s.update_grid.x - 1) * TILE < output)
                &&& s.update_grid.y * TILE >= input
                &&& (input > 0 ==> (s.update_grid.y - 1) * TILE < input)
                &&& s.update_grid.z == 1
                &&& s.error_bytes == amount * l.input_nodes * SCALAR_BYTES
                &&& s.transposed_a_rows == batch
                &&& s.transposed_a_cols == output
                &&& s.transposed_b_rows == input
                &&& s.transposed_grid.x * TILE >= input
                &&& (input > 0 ==> (s.transposed_grid.x - 1) * TILE < input)
                &&& s.transposed_grid.y * TILE >= batch
                &&& (batch > 0 ==> (s.transposed_grid.y - 1) * TILE < batch)
                &&& s.transposed_grid.z == 1
            },
{
    let batch = amount as u32;
    let n = layers.len();
    let last = layers[n - 1];
    assert(((amount as u32) * (layers[n - 1].output_nodes as u32)) <= u32::MAX);
    let error_size = element_count(batch, last.output_nodes as u32);
    let error = ErrorStep { size: error_size, grid: element_grid(error_size) };
    let mut steps: Vec<BackwardStep> = Vec::new();
    let mut k: usize = 0;
    while k < n
        invariant
            n == layers.len(),
            k <= n,
            batch == amount as u32,
            pass_fits(layers@, amount),
            counts_fit(layers@, amount),
            steps.len() == k,
            forall|j: int| 0 <= j < k ==> #[trigger] steps[j] == spec_backward_step(layers[n - 1 - j], amount),
        decreases n - k,
    {
        let l = layers[n - 1 - k];
        assert(((amount as u32) * (layers[n - 1 - k as int].output_nodes as u32)) <= u32::MAX);
        assert(amount * layers[n - 1 - k as int].input_nodes * SCALAR_BYTES <= usize::MAX);
        let input = l.input_nodes as u32;
        let output = l.output_nodes as u32;
        let delta_size = element_count(batch, output);
        let step = BackwardStep {
            delta_size,
            is_output: l.is_output,
            delta_grid: element_grid(delta_size),
            batch_size: batch,
            input_nodes: input,
            output_nodes: output,
            update_grid: update_grid(input, output),
            error_bytes: matrix_bytes(amount, l.input_nodes),
            transposed_a_rows: batch,
            transposed_a_cols: output,
            transposed_b_rows: input,
            transposed_grid: matmul_transposed_grid(batch, input),
        };
        let ghost before = steps@;
        steps.push(step);
        proof {
            assert forall|j: int| 0 <= j < k + 1 implies #[trigger] steps[j] == spec_backward_step(
                layers[n - 1 - j],
                amount,
            ) by {
                if j < k {
                    assert(steps[j] == before[j]);
                }
            }
        }
        k = k + 1;
    }
    proof {
        crate::dispatch::lemma_grid_covers(error_size as int, ELEMENT_GROUP as int);
        assert forall|k: int| 0 <= k < n implies {
            let l = layers[n - 1 - k];
            let s = #[trigger] steps[k];
            let batch = amount as u32;
            let input = l.input_nodes as u32;
            let output = l.output_nodes as u32;
            &&& s.delta_size == batch * output
            &&& s.is_output == l.is_output
            &&& s.delta_grid.x * ELEMENT_GROUP >= s.delta_size
            &&& (s.delta_size > 0 ==> (s.delta_grid.x - 1) * ELEMENT_GROUP < s.delta_size)
            &&& s.delta_grid.y == 1 && s.delta_grid.z == 1
            &&& s.batch_size == batch
            &&& s.input_nodes == input
            &&& s.output_nodes == output
            &&& s.update_grid.x * TILE >= output
            &&& (output > 0 ==> (s.update_grid.x - 1) * TILE < output)
            &&& s.update_grid.y * TILE >= input
            &&& (input > 0 ==> (s.update_grid.y - 1) * TILE < input)
            &&& s.update_grid.z == 1
            &&& s.error_bytes == amount * l.input_nodes * SCALAR_BYTES
            &&& s.transposed_a_rows == batch
            &&& s.transposed_a_cols == output
            &&& s.transposed_b_rows == input
            &&& s.transposed_grid.x * TILE >= input
            &&& (input > 0 ==> (s.transposed_grid.x - 1) * TILE < input)
            &&& s.transposed_grid.y * TILE >= batch
            &&& (batch > 0 ==> (s.transposed_grid.y - 1) * TILE < batch)
            &&& s.transposed_grid.z == 1
        } by {
            let l = layers[n - 1 - k];
            assert(((amount as u32) * (l.output_nodes as u32)) <= u32::MAX);
            assert(amount * l.input_nodes * SCALAR_BYTES <= usize::MAX);
            lemma_backward_step(l, amount);
        }
    }
    (error, steps)
}

/// Whether the byte counts of a pass over `amount` samples fit, that is,
/// whether `forward_plan` and `backward_plan` accept the layers.
pub fn pass_fits_check(layers: &Vec<LayerShape>, amount: usize) -> (r: bool)
    ensures
        r == pass_fits(layers@, amount),
{
    let mut i: usize = 0;
    while i < layers.len()
        invariant
            i <= layers.len(),
            forall|j: int|
                0 <= j < i ==> #[trigger] (amount * layers[j].input_nodes * SCALAR_BYTES) <= usize::MAX
                    && amount * layers[j].output_nodes * SCALAR_BYTES <= usize::MAX,
        decreases layers.len() - i,
    {
        let l = layers[i];
        let fits_in = match amount.checked_mul(l.input_nodes) {
            Some(v) => v.checked_mul(SCALAR_BYTES).is_some(),
            None => false,
        };
        let fits_out = match amount.checked_mul(l.output_nodes) {
            Some(v) => v.checked_mul(SCALAR_BYTES).is_some(),
            None => false,
        };
        proof {
            let a = amount as int;
            let n = l.input_nodes as int;
            let m = l.output_nodes as int;
            assert(a * n >= 0) by (nonlinear_arith)
                requires a >= 0, n >= 0;
            assert(a * m >= 0) by (nonlinear_arith)
                requires a >= 0, m >= 0;
        }
        if !fits_in || !fits_out {
            proof {
                assert(!((amount * layers[i as int].input_nodes * SCALAR_BYTES) <= usize::MAX
                    && amount * layers[i as int].output_nodes * SCALAR_BYTES <= usize::MAX));
            }
            return false;
        }
        i = i + 1;
    }
    true
}

/// Whether the element counts of a training pass with `amount` samples
/// fit, that is, whether `backward_plan` accepts the layers.
pub fn counts_fit_check(layers: &Vec<LayerShape>, amount: usize) -> (r: bool)
    ensures
        r == counts_fit(layers@, amount),
{
    let batch = amount as u32;
    let mut i: usize = 0;
    while i < layers.len()
        invariant
            i <= layers.len(),
            batch == amount as u32,
            forall|j: int| 0 <= j < i ==> #[trigger] ((amount as u32) * (layers[j].output_nodes as u32)) <= u32::MAX,
        decreases layers.len() - i,
    {
        if batch.checked_mul(layers[i].output_nodes as u32).is_none() {
            return false;
        }
        i = i + 1;
    }
    true
}

} // verus!
