use vstd::prelude::*;
use crate::arith::{round_up, next_multiple_of_u32};
use crate::padding::{pad_matrix, unpad_matrix, spec_pad, spec_unpad};

verus! {

/// Widths are padded to multiples of this for the GPU kernels.
pub const BLOCK: u32 = 4;

/// Bytes of one stored scalar.
pub const SCALAR_BYTES: u64 = 4;

/// The integer part of a network description: the input and output widths,
/// the largest batch, and the width of each hidden layer.
pub struct MlpShape {
    pub input_size: u32,
    pub output_size: u32,
    pub max_batch_size: u32,
    pub h_layer_sizes: Vec<u32>,
}

/// `x` rounded up to whole blocks.
pub open spec fn padded(x: int) -> int {
    round_up(x, BLOCK as int)
}

pub open spec fn max(a: int, b: int) -> int {
    if a >= b {
        a
    } else {
        b
    }
}

/// The largest entry of `s`, or 0 for no entry.
pub open spec fn seq_max(s: Seq<u32>) -> int
    decreases s.len(),
{
    if s.len() == 0 {
        0
    } else {
        max(seq_max(s.drop_last()), s.last() as int)
    }
}

/// The widest of the input, the output and the hidden layers.
pub open spec fn widest(input: u32, output: u32, hidden: Seq<u32>) -> int {
    max(max(input as int, output as int), seq_max(hidden))
}

/// The width every activation row gets on the GPU: the widest layer,
/// padded.
pub open spec fn spec_max_size(input: u32, output: u32, hidden: Seq<u32>) -> int {
    padded(widest(input, output, hidden))
}

/// The sizes of a network fit the integers they are computed in.
pub open spec fn shape_fits(input: u32, output: u32, batch: u32, hidden: Seq<u32>) -> bool {
    let w = spec_max_size(input, output, hidden);
    let b = padded(batch as int);
    &&& w <= u32::MAX
    &&& b <= u32::MAX
    &&& w * b * SCALAR_BYTES <= u64::MAX
    &&& w * w * SCALAR_BYTES <= u64::MAX
    &&& w * b <= usize::MAX
    &&& hidden.len() < usize::MAX
}

/// Padding keeps the order of widths and never shrinks a width by more
/// than a block.
pub proof fn lemma_padded(x: int, y: int)
    requires
        0 <= x <= y,
    ensures
        x <= padded(x) < x + BLOCK,
        padded(x) % (BLOCK as int) == 0,
        padded(x) <= padded(y),
        padded(padded(x)) == padded(x),
{
}

/// The product of two 32-bit values stays far below the 128-bit limit.
proof fn lemma_mul_u32_bound(a: int, b: int)
    requires
        0 <= a <= u32::MAX,
        0 <= b <= u32::MAX,
    ensures
        0 <= a * b <= u32::MAX * u32::MAX,
{
    assert(0 <= a * b <= u32::MAX * u32::MAX) by (nonlinear_arith)
        requires 0 <= a <= u32::MAX, 0 <= b <= u32::MAX;
}

/// The largest entry is at least every entry.
pub proof fn lemma_seq_max(s: Seq<u32>, i: int)
    requires
        0 <= i < s.len(),
    ensures
        s[i] <= seq_max(s),
        0 <= seq_max(s),
    decreases s.len(),
{
    if i < s.len() - 1 {
        lemma_seq_max(s.drop_last(), i);
    } else {
        if s.len() > 1 {
            lemma_seq_max(s.drop_last(), 0);
        }
    }
}

/// The sizes of one layer of the GPU network: its logical widths and batch
/// size, the same padded to whole blocks, the activation row width, and
/// whether it is the output layer.
#[derive(Clone, Copy, PartialEq, Eq, Structural, Debug)]
pub struct LayerDims {
    pub is_output: bool,
    pub max_size: u32,
    pub logical_input_size: u32,
    pub physical_input_size: u32,
    pub logical_output_size: u32,
    pub physical_output_size: u32,
    pub logical_batch_size: u32,
    pub physical_batch_size: u32,
}

pub open spec fn spec_layer_dims(max_size: u32, input: u32, output: u32, batch: u32, is_output: bool) -> LayerDims {
    LayerDims {
        is_output,
        max_size,
        logical_input_size: input,
        physical_input_size: padded(input as int) as u32,
        logical_output_size: output,
        physical_output_size: padded(output as int) as u32,
        logical_batch_size: batch,
        physical_batch_size: padded(batch as int) as u32,
    }
}

/// `p` is `x` padded: the least multiple of a block at or above `x`.
/// Written out so that it reads without the padding function.
pub proof fn lemma_padded_exact(x: int)
    requires
        0 <= x,
    ensures
        padded(x) % 4 == 0,
        x <= padded(x) < x + 4,
        forall|p: int| #![trigger p % 4] p % 4 == 0 && x <= p < x + 4 ==> p == padded(x),
{
}

/// A layer keeps its logical sizes and its role, and pads every one of its
/// widths, hidden layer or output layer alike, to the least multiple of a
/// block at or above it.
pub proof fn lemma_layer_dims(max_size: u32, input: u32, output: u32, batch: u32, is_output: bool)
    requires
        padded(input as int) <= u32::MAX,
        padded(output as int) <= u32::MAX,
        padded(batch as int) <= u32::MAX,
    ensures
        ({
            let d = spec_layer_dims(max_size, input, output, batch, is_output);
            &&& d.is_output == is_output
            &&& d.max_size == max_size
            &&& d.logical_input_size == input
            &&& d.logical_output_size == output
            &&& d.logical_batch_size == batch
            &&& d.physical_input_size % 4 == 0
            &&& input <= d.physical_input_size < input + 4
            &&& d.physical_output_size % 4 == 0
            &&& output <= d.physical_output_size < output + 4
            &&& d.physical_batch_size % 4 == 0
            &&& batch <= d.physical_batch_size < batch + 4
        }),
{
}

impl LayerDims {
    /// The sizes of a layer reading `input_size` values and writing
    /// `output_size` values for batches of `batch_size` samples.
    pub fn create(max_size: u32, input_size: u32, output_size: u32, batch_size: u32, is_output: bool) -> (r: Self)
        requires
            padded(input_size as int) <= u32::MAX,
            padded(output_size as int) <= u32::MAX,
            padded(batch_size as int) <= u32::MAX,
        ensures
            r == spec_layer_dims(max_size, input_size, output_size, batch_size, is_output),
            r.is_output == is_output,
            r.max_size == max_size,
            r.logical_input_size == input_size,
            r.logical_output_size == output_size,
            r.logical_batch_size == batch_size,
            r.physical_input_size % 4 == 0,
            input_size <= r.physical_input_size < input_size + 4,
            r.physical_output_size % 4 == 0,
            output_size <= r.physical_output_size < output_size + 4,
            r.physical_batch_size % 4 == 0,
            batch_size <= r.physical_batch_size < batch_size + 4,
    {
        LayerDims {
            is_output,
            max_size,
            logical_input_size: input_size,
            physical_input_size: next_multiple_of_u32(input_size, BLOCK),
            logical_output_size: output_size,
            physical_output_size: next_multiple_of_u32(output_size, BLOCK),
            logical_batch_size: batch_size,
            physical_batch_size: next_multiple_of_u32(batch_size, BLOCK),
        }
    }

    /// Bytes of a buffer that keeps one batch of activations of the layer.
    pub fn activation_bytes(&self) -> (r: u64)
        requires
            self.max_size * self.physical_batch_size * SCALAR_BYTES <= u64::MAX,
        ensures
            r == self.max_size * self.physical_batch_size * SCALAR_BYTES,
    {
        self.max_size as u64 * self.physical_batch_size as u64 * SCALAR_BYTES
    }

    /// Bytes of a buffer that holds one value per padded weight.
    pub fn weights_bytes(&self) -> (r: u64)
        requires
            self.physical_output_size * self.physical_input_size * SCALAR_BYTES <= u64::MAX,
        ensures
            r == self.physical_output_size * self.physical_input_size * SCALAR_BYTES,
    {
        self.physical_output_size as u64 * self.physical_input_size as u64 * SCALAR_BYTES
    }

    /// Bytes of a buffer that holds one value per padded bias.
    pub fn bias_bytes(&self) -> (r: u64)
        ensures
            r == self.physical_output_size * SCALAR_BYTES,
    {
        self.physical_output_size as u64 * SCALAR_BYTES
    }
}

/// The input width of layer `i`: the network input, then each hidden width.
pub open spec fn mlp_layer_input(input: u32, hidden: Seq<u32>, i: int) -> u32 {
    if i == 0 {
        input
    } else {
        hidden[i - 1]
    }
}

/// The sizes of layer `i` of a network: hidden layers in order, then the
/// output layer.
pub open spec fn mlp_layer(max_size: u32, input: u32, output: u32, batch: u32, hidden: Seq<u32>, i: int) -> LayerDims {
    if i < hidden.len() {
        spec_layer_dims(max_size, mlp_layer_input(input, hidden, i), hidden[i], batch, false)
    } else {
        spec_layer_dims(max_size, mlp_layer_input(input, hidden, i), output, batch, true)
    }
}

/// The values the kernels read for a batch besides the learning settings:
/// the batch size, the padded batch size and the optimizer step.
#[derive(Clone, Copy, PartialEq, Eq, Structural, Debug)]
pub struct GlobalCounters {
    pub logical_batch_size: u32,
    pub physical_batch_size: u32,
    pub timestep: u32,
}

/// The bookkeeping of the GPU network: its sizes, its layers, the optimizer
/// step, and the size of the batch in use and of the batch loaded next.
pub struct MlpState {
    pub layers: Vec<LayerDims>,
    pub logical_input_size: u32,
    pub physical_input_size: u32,
    pub logical_output_size: u32,
    pub physical_output_size: u32,
    pub logical_batch_size: u32,
    pub physical_batch_size: u32,
    pub max_size: u32,
    pub timestep: u32,
    pub cur_batch_size: u32,
    pub next_batch_size: u32,
}

impl MlpShape {
    /// Whether the sizes of the network fit the integers they are computed
    /// in, so that `MlpState::new` accepts it.
    pub fn fits(&self) -> (r: bool)
        ensures
            r == shape_fits(self.input_size, self.output_size, self.max_batch_size, self.h_layer_sizes@),
    {
        if self.h_layer_sizes.len() == usize::MAX {
            return false;
        }
        let w = self.widest() as u64;
        let b = self.max_batch_size as u64;
        let wp = if w % 4 == 0 { w } else { w + (4 - w % 4) };
        let bp = if b % 4 == 0 { b } else { b + (4 - b % 4) };
        if wp > u32::MAX as u64 || bp > u32::MAX as u64 {
            return false;
        }
        proof {
            lemma_mul_u32_bound(wp as int, bp as int);
            lemma_mul_u32_bound(wp as int, wp as int);
        }
        let wb = wp as u128 * bp as u128;
        let ww = wp as u128 * wp as u128;
        wb * 4 <= u64::MAX as u128 && ww * 4 <= u64::MAX as u128 && wb <= usize::MAX as u128
    }

    /// The widest of the input, the output and the hidden layers.
    pub fn widest(&self) -> (r: u32)
        ensures
            r == widest(self.input_size, self.output_size, self.h_layer_sizes@),
    {
        let hidden = &self.h_layer_sizes;
        let mut m: u32 = 0;
        let mut i: usize = 0;
        while i < hidden.len()
            invariant
                i <= hidden.len(),
                m == seq_max(hidden@.take(i as int)),
            decreases hidden.len() - i,
        {
            proof {
                assert(hidden@.take(i + 1).drop_last() =~= hidden@.take(i as int));
            }
            if hidden[i] > m {
                m = hidden[i];
            }
            i = i + 1;
        }
        proof {
            assert(hidden@.take(hidden.len() as int) =~= hidden@);
        }
        let io = if self.input_size >= self.output_size { self.input_size } else { self.output_size };
        if io >= m {
            io
        } else {
            m
        }
    }
}

impl MlpState {
    /// The sizes agree with each other: each padded size is its logical size
    /// padded, the activation rows hold the widest layer, the sizes fit the
    /// integers they are computed in, and no batch is larger than the
    /// largest.
    pub open spec fn wf(&self) -> bool {
        &&& self.physical_input_size == padded(self.logical_input_size as int)
        &&& self.physical_output_size == padded(self.logical_output_size as int)
        &&& self.physical_batch_size == padded(self.logical_batch_size as int)
        &&& self.logical_input_size <= self.max_size
        &&& self.logical_output_size <= self.max_size
        &&& self.physical_output_size <= self.max_size
        &&& self.max_size * self.physical_batch_size <= usize::MAX
        &&& self.max_size * self.physical_batch_size * SCALAR_BYTES <= u64::MAX
        &&& self.cur_batch_size <= self.logical_batch_size
        &&& self.next_batch_size <= self.logical_batch_size
    }

    /// Lays out a network: the padded sizes, the activation row width (the
    /// widest layer, padded), one hidden layer per hidden width reading
    /// from the layer before, and the output layer; the optimizer starts at
    /// step 1 and both batch sizes at the largest batch.
    pub fn new(shape: &MlpShape) -> (r: Self)
        requires
            shape_fits(shape.input_size, shape.output_size, shape.max_batch_size, shape.h_layer_sizes@),
        ensures
            r.wf(),
            r.max_size == spec_max_size(shape.input_size, shape.output_size, shape.h_layer_sizes@),
            r.logical_input_size == shape.input_size,
            r.logical_output_size == shape.output_size,
            r.logical_batch_size == shape.max_batch_size,
            r.timestep == 1,
            r.cur_batch_size == shape.max_batch_size,
            r.next_batch_size == shape.max_batch_size,
            r.layers.len() == shape.h_layer_sizes.len() + 1,
            r.physical_input_size % 4 == 0,
            shape.input_size <= r.physical_input_size < shape.input_size + 4,
            r.physical_output_size % 4 == 0,
            shape.output_size <= r.physical_output_size < shape.output_size + 4,
            r.physical_batch_size % 4 == 0,
            shape.max_batch_size <= r.physical_batch_size < shape.max_batch_size + 4,
            r.max_size % 4 == 0,
            shape.input_size <= r.max_size,
            shape.output_size <= r.max_size,
            forall|i: int| 0 <= i < shape.h_layer_sizes.len() ==> #[trigger] shape.h_layer_sizes[i] <= r.max_size,
            forall|i: int|
                0 <= i < r.layers.len() ==> {
                    &&& (#[trigger] r.layers[i]).max_size == r.max_size
                    &&& r.layers[i].physical_input_size % 4 == 0
                    &&& r.layers[i].logical_input_size <= r.layers[i].physical_input_size < r.layers[i].logical_input_size + 4
                    &&& r.layers[i].physical_output_size % 4 == 0
                    &&& r.layers[i].logical_output_size <= r.layers[i].physical_output_size < r.layers[i].logical_output_size + 4
                    &&& r.layers[i].logical_batch_size == shape.max_batch_size
                    &&& r.layers[i].physical_batch_size == r.physical_batch_size
                    &&& (r.layers[i].is_output <==> i == r.layers.len() - 1)
                    &&& r.layers[i].logical_input_size == if i == 0 {
                        shape.input_size
                    } else {
                        shape.h_layer_sizes[i - 1]
                    }
                    &&& r.layers[i].logical_output_size == if i < shape.h_layer_sizes.len() {
                        shape.h_layer_sizes[i]
                    } else {
                        shape.output_size
                    }
                },
            forall|i: int|
                0 <= i < r.layers.len() ==> #[trigger] r.layers[i] == mlp_layer(
                    r.max_size,
                    shape.input_size,
                    shape.output_size,
                    shape.max_batch_size,
                    shape.h_layer_sizes@,
                    i,
                ),
    {
        let ghost hidden = shape.h_layer_sizes@;
        let ghost wid = widest(shape.input_size, shape.output_size, hidden);
        let widest_nodes = shape.widest();
        proof {
            lemma_padded(shape.input_size as int, wid);
            lemma_padded(shape.output_size as int, wid);
            lemma_padded(shape.max_batch_size as int, shape.max_batch_size as int);
            lemma_padded(wid, wid);
        }
        let max_nodes = next_multiple_of_u32(widest_nodes, BLOCK);
        let physical_input_size = next_multiple_of_u32(shape.input_size, BLOCK);
        let physical_output_size = next_multiple_of_u32(shape.output_size, BLOCK);
        let physical_batch_size = next_multiple_of_u32(shape.max_batch_size, BLOCK);
        let mut layers: Vec<LayerDims> = Vec::new();
        let mut cur_input_size = shape.input_size;
        let mut i: usize = 0;
        while i < shape.h_layer_sizes.len()
            invariant
                hidden == shape.h_layer_sizes@,
                wid == widest(shape.input_size, shape.output_size, hidden),
                max_nodes == padded(wid),
                max_nodes <= u32::MAX,
                padded(shape.max_batch_size as int) <= u32::MAX,
                i <= hidden.len(),
                cur_input_size == mlp_layer_input(shape.input_size, hidden, i as int),
                cur_input_size <= wid,
                layers.len() == i,
                forall|j: int|
                    0 <= j < i ==> #[trigger] layers[j] == mlp_layer(
                        max_nodes,
                        shape.input_size,
                        shape.output_size,
                        shape.max_batch_size,
                        hidden,
                        j,
                    ),
            decreases hidden.len() - i,
        {
            let out = shape.h_layer_sizes[i];
            proof {
                lemma_seq_max(hidden, i as int);
                lemma_padded(cur_input_size as int, wid);
                lemma_padded(out as int, wid);
            }
            let dims = LayerDims::create(max_nodes, cur_input_size, out, shape.max_batch_size, false);
            let ghost before = layers@;
            layers.push(dims);
            proof {
                assert forall|j: int| 0 <= j < i + 1 implies #[trigger] layers[j] == mlp_layer(
                    max_nodes,
                    shape.input_size,
                    shape.output_size,
                    shape.max_batch_size,
                    hidden,
                    j,
                ) by {
                    if j < i {
                        assert(layers[j] == before[j]);
                    }
                }
            }
            cur_input_size = out;
            i = i + 1;
        }
        proof {
            lemma_padded(cur_input_size as int, wid);
        }
        let last = LayerDims::create(max_nodes, cur_input_size, shape.output_size, shape.max_batch_size, true);
        let ghost before = layers@;
        layers.push(last);
        proof {
            assert forall|j: int| 0 <= j < hidden.len() + 1 implies #[trigger] layers[j] == mlp_layer(
                max_nodes,
                shape.input_size,
                shape.output_size,
                shape.max_batch_size,
                hidden,
                j,
            ) by {
                if j < hidden.len() {
                    assert(layers[j] == before[j]);
                }
            }
            assert forall|j: int| 0 <= j < hidden.len() implies #[trigger] hidden[j] <= max_nodes by {
                lemma_seq_max(hidden, j);
            }
            assert forall|j: int| 0 <= j < layers.len() implies {
                &&& (#[trigger] layers[j]).max_size == max_nodes
                &&& layers[j].physical_input_size % 4 == 0
                &&& layers[j].logical_input_size <= layers[j].physical_input_size < layers[j].logical_input_size + 4
                &&& layers[j].physical_output_size % 4 == 0
                &&& layers[j].logical_output_size <= layers[j].physical_output_size < layers[j].logical_output_size + 4
                &&& layers[j].logical_batch_size == shape.max_batch_size
                &&& layers[j].physical_batch_size == physical_batch_size
                &&& (layers[j].is_output <==> j == layers.len() - 1)
            } by {
                lemma_mlp_layers(shape.input_size, shape.output_size, shape.max_batch_size, hidden, j);
                let li = mlp_layer_input(shape.input_size, hidden, j);
                let lo = if j < hidden.len() { hidden[j] } else { shape.output_size };
                if j > 0 {
                    lemma_seq_max(hidden, j - 1);
                }
                if j < hidden.len() {
                    lemma_seq_max(hidden, j);
                }
                lemma_padded(li as int, wid);
                lemma_padded(lo as int, wid);
                lemma_layer_dims(max_nodes, li, lo, shape.max_batch_size, j == hidden.len());
            }
        }
        MlpState {
            layers,
            logical_input_size: shape.input_size,
            physical_input_size,
            logical_output_size: shape.output_size,
            physical_output_size,
            logical_batch_size: shape.max_batch_size,
            physical_batch_size,
            max_size: max_nodes,
            timestep: 1,
            cur_batch_size: shape.max_batch_size,
            next_batch_size: shape.max_batch_size,
        }
    }

    /// Bytes of a buffer that holds one batch of activation rows.
    pub fn activation_bytes(&self) -> (r: u64)
        requires
            self.wf(),
        ensures
            r == self.max_size * self.physical_batch_size * SCALAR_BYTES,
    {
        self.max_size as u64 * self.physical_batch_size as u64 * SCALAR_BYTES
    }

    /// Bytes of a buffer that holds one batch of padded expected rows.
    pub fn expected_bytes(&self) -> (r: u64)
        requires
            self.wf(),
        ensures
            r == self.physical_output_size * self.physical_batch_size * SCALAR_BYTES,
    {
        proof {
            assert(self.physical_output_size * self.physical_batch_size * SCALAR_BYTES <= self.max_size
                * self.physical_batch_size * SCALAR_BYTES) by (nonlinear_arith)
                requires self.physical_output_size <= self.max_size, self.physical_batch_size >= 0;
        }
        self.physical_output_size as u64 * self.physical_batch_size as u64 * SCALAR_BYTES
    }

    /// A batch of `current` samples with `input_len` inputs and
    /// `expected_len` expected outputs fits the network.
    pub open spec fn accepts(&self, input_len: int, expected_len: int, current: u32) -> bool {
        &&& current <= self.logical_batch_size
        &&& input_len == current * self.logical_input_size
        &&& expected_len == current * self.logical_output_size
    }

    /// Whether a batch of `current` samples with `input_len` inputs and
    /// `expected_len` expected outputs fits the network, that is, whether
    /// `load_data` accepts it.
    pub fn accepts_batch(&self, input_len: usize, expected_len: usize, current: u32) -> (r: bool)
        ensures
            r == self.accepts(input_len as int, expected_len as int, current),
    {
        proof {
            lemma_mul_u32_bound(current as int, self.logical_input_size as int);
            lemma_mul_u32_bound(current as int, self.logical_output_size as int);
        }
        let inputs = current as u128 * self.logical_input_size as u128;
        let outputs = current as u128 * self.logical_output_size as u128;
        current <= self.logical_batch_size && input_len as u128 == inputs && expected_len as u128 == outputs
    }

    /// Prepares the next batch: records its size, gives the values the
    /// kernels will read for it (its size, the padded batch size and the
    /// next optimizer step), and pads the inputs to activation rows and the
    /// expected outputs to padded output rows, over the padded batch, with
    /// `zero` filling the rest.
    pub fn load_data<T: Copy>(&mut self, input_data: &[T], expected: &[T], current_batch_size: u32, zero: T) -> (r: (
        GlobalCounters,
        Vec<T>,
        Vec<T>,
    ))
        requires
            old(self).wf(),
            old(self).accepts(input_data.len() as int, expected.len() as int, current_batch_size),
            old(self).timestep < u32::MAX,
        ensures
            *final(self) == (MlpState { next_batch_size: current_batch_size, ..*old(self) }),
            final(self).wf(),
            r.0 == (GlobalCounters {
                logical_batch_size: current_batch_size,
                physical_batch_size: old(self).physical_batch_size,
                timestep: (old(self).timestep + 1) as u32,
            }),
            r.1@ == spec_pad(
                input_data@,
                old(self).logical_input_size as int,
                current_batch_size as int,
                old(self).max_size as int,
                old(self).physical_batch_size as int,
                zero,
            ),
            r.2@ == spec_pad(
                expected@,
                old(self).logical_output_size as int,
                current_batch_size as int,
                old(self).physical_output_size as int,
                old(self).physical_batch_size as int,
                zero,
            ),
    {
        self.next_batch_size = current_batch_size;
        let globals = GlobalCounters {
            logical_batch_size: current_batch_size,
            physical_batch_size: self.physical_batch_size,
            timestep: self.timestep + 1,
        };
        proof {
            assert(self.physical_output_size * self.physical_batch_size <= self.max_size * self.physical_batch_size)
                by (nonlinear_arith)
                requires self.physical_output_size <= self.max_size, self.physical_batch_size >= 0;
            let c = current_batch_size as int;
            assert(c * self.logical_input_size == self.logical_input_size * c) by (nonlinear_arith);
            assert(c * self.logical_output_size == self.logical_output_size * c) by (nonlinear_arith);
            assert(input_data.len() == self.logical_input_size * c);
            assert(expected.len() == self.logical_output_size * c);
        }
        let input_padded = pad_matrix(
            input_data,
            self.logical_input_size as usize,
            current_batch_size as usize,
            self.max_size as usize,
            self.physical_batch_size as usize,
            zero,
        );
        let expected_padded = pad_matrix(
            expected,
            self.logical_output_size as usize,
            current_batch_size as usize,
            self.physical_output_size as usize,
            self.physical_batch_size as usize,
            zero,
        );
        (globals, input_padded, expected_padded)
    }

    /// Starts a training step: the loaded batch comes into use and the
    /// optimizer moves to its next step.
    pub fn begin_train(&mut self)
        requires
            old(self).wf(),
            old(self).timestep < u32::MAX,
        ensures
            *final(self) == (MlpState {
                cur_batch_size: old(self).next_batch_size,
                timestep: (old(self).timestep + 1) as u32,
                ..*old(self)
            }),
            final(self).wf(),
    {
        self.cur_batch_size = self.next_batch_size;
        self.timestep = self.timestep + 1;
    }

    /// Starts a test step: the loaded batch comes into use.
    pub fn begin_test(&mut self)
        requires
            old(self).wf(),
        ensures
            *final(self) == (MlpState { cur_batch_size: old(self).next_batch_size, ..*old(self) }),
            final(self).wf(),
    {
        self.cur_batch_size = self.next_batch_size;
    }

    /// From the activation rows and the padded expected rows read back after
    /// a test step, the outputs and the expected outputs of each sample of
    /// the batch in use, row by row.
    pub fn test_outputs<T: Copy>(&self, data: &[T], labels: &[T]) -> (r: (Vec<T>, Vec<T>))
        requires
            self.wf(),
            data.len() == self.max_size * self.physical_batch_size,
            labels.len() == self.physical_output_size * self.physical_batch_size,
        ensures
            r.0@ == spec_unpad(
                data@,
                self.max_size as int,
                self.logical_output_size as int,
                self.cur_batch_size as int,
            ),
            r.1@ == spec_unpad(
                labels@,
                self.physical_output_size as int,
                self.logical_output_size as int,
                self.cur_batch_size as int,
            ),
    {
        proof {
            let c = self.cur_batch_size as int;
            let pb = self.physical_batch_size as int;
            let m = self.max_size as int;
            let po = self.physical_output_size as int;
            let o = self.logical_output_size as int;
            lemma_padded(self.logical_batch_size as int, self.logical_batch_size as int);
            lemma_padded(o, o);
            if c > 0 {
                assert((c - 1) * m + o <= m * pb) by (nonlinear_arith)
                    requires 1 <= c <= pb, o <= m, 0 <= m;
                assert((c - 1) * po + o <= po * pb) by (nonlinear_arith)
                    requires 1 <= c <= pb, o <= po, 0 <= po;
            }
        }
        let out = unpad_matrix(
            data,
            self.max_size as usize,
            self.logical_output_size as usize,
            self.cur_batch_size as usize,
        );
        let expected = unpad_matrix(
            labels,
            self.physical_output_size as usize,
            self.logical_output_size as usize,
            self.cur_batch_size as usize,
        );
        (out, expected)
    }
}

/// Loading a batch and then training on it hands the kernels the optimizer
/// step that training moves to, and puts that batch in use.
pub proof fn lemma_load_then_train(s0: MlpState, s1: MlpState, s2: MlpState, g: GlobalCounters, current: u32)
    requires
        s0.wf(),
        s0.timestep < u32::MAX,
        s1 == (MlpState { next_batch_size: current, ..s0 }),
        g.timestep == s0.timestep + 1,
        g.logical_batch_size == current,
        s2 == (MlpState { cur_batch_size: s1.next_batch_size, timestep: (s1.timestep + 1) as u32, ..s1 }),
    ensures
        g.timestep == s2.timestep,
        g.logical_batch_size == s2.cur_batch_size,
{
}

/// In the layout of a network, each layer reads what the one before it
/// writes, the first reads the input and the last writes the output, only
/// the last is the output layer, and every width of every layer, logical or
/// padded, fits in an activation row.
pub proof fn lemma_mlp_layers(input: u32, output: u32, batch: u32, hidden: Seq<u32>, i: int)
    requires
        spec_max_size(input, output, hidden) <= u32::MAX,
        0 <= i <= hidden.len(),
    ensures
        ({
            let m = spec_max_size(input, output, hidden) as u32;
            let l = mlp_layer(m, input, output, batch, hidden, i);
            &&& i < hidden.len() ==> l.logical_output_size == mlp_layer(
                m,
                input,
                output,
                batch,
                hidden,
                i + 1,
            ).logical_input_size
            &&& i == 0 ==> l.logical_input_size == input
            &&& i == hidden.len() ==> l.logical_output_size == output
            &&& (l.is_output <==> i == hidden.len())
            &&& l.logical_input_size <= l.physical_input_size <= m
            &&& l.logical_output_size <= l.physical_output_size <= m
            &&& l.max_size == m
        }),
{
    let w = widest(input, output, hidden);
    let m = spec_max_size(input, output, hidden);
    let l = mlp_layer(m as u32, input, output, batch, hidden, i);
    let li = mlp_layer_input(input, hidden, i);
    let lo = if i < hidden.len() { hidden[i] } else { output };
    assert(l.logical_input_size == li);
    assert(l.logical_output_size == lo);
    if i > 0 {
        lemma_seq_max(hidden, i - 1);
    }
    if i < hidden.len() {
        lemma_seq_max(hidden, i);
    }
    if hidden.len() > 0 {
        lemma_seq_max(hidden, 0);
    }
    assert(li <= w);
    assert(lo <= w);
    lemma_padded(li as int, w);
    lemma_padded(lo as int, w);
}

} // verus!
