use vstd::prelude::*;
use crate::shape::{chain_input, INPUT_NODES, OUTPUT_NODES};

verus! {

/// The trained parameters of one dense layer: an `input_nodes x
/// output_nodes` weight matrix stored row by row, one bias per output, and
/// whether the layer is the final (softmax) layer.
pub struct LayerParams<T> {
    pub input_nodes: usize,
    pub output_nodes: usize,
    pub weights: Vec<T>,
    pub bias: Vec<T>,
    pub is_output: bool,
}

/// What a `LayerParams` holds, with its vectors taken as sequences.
#[verifier::ext_equal]
pub struct LayerView<T> {
    pub input_nodes: usize,
    pub output_nodes: usize,
    pub weights: Seq<T>,
    pub bias: Seq<T>,
    pub is_output: bool,
}

impl<T> View for LayerParams<T> {
    type V = LayerView<T>;

    open spec fn view(&self) -> LayerView<T> {
        LayerView {
            input_nodes: self.input_nodes,
            output_nodes: self.output_nodes,
            weights: self.weights@,
            bias: self.bias@,
            is_output: self.is_output,
        }
    }
}

/// A whole network as one flat record, the form in which it is stored:
/// the input and output widths, the width of each hidden layer, and all
/// weights and all biases, layer after layer.
pub struct NeuralNetworkData<T> {
    pub input_size: usize,
    pub output_size: usize,
    pub hidden_layers: Vec<usize>,
    pub weights: Vec<T>,
    pub bias: Vec<T>,
}

/// What a `NeuralNetworkData` holds, with its vectors taken as sequences.
#[verifier::ext_equal]
pub struct DataView<T> {
    pub input_size: usize,
    pub output_size: usize,
    pub hidden_layers: Seq<usize>,
    pub weights: Seq<T>,
    pub bias: Seq<T>,
}

impl<T> View for NeuralNetworkData<T> {
    type V = DataView<T>;

    open spec fn view(&self) -> DataView<T> {
        DataView {
            input_size: self.input_size,
            output_size: self.output_size,
            hidden_layers: self.hidden_layers@,
            weights: self.weights@,
            bias: self.bias@,
        }
    }
}

pub open spec fn layer_views<T>(ls: Seq<LayerParams<T>>) -> Seq<LayerView<T>> {
    ls.map_values(|l: LayerParams<T>| l@)
}

/// All weights of the layers, layer after layer.
pub open spec fn concat_weights<T>(ls: Seq<LayerView<T>>) -> Seq<T>
    decreases ls.len(),
{
    if ls.len() == 0 {
        Seq::empty()
    } else {
        concat_weights(ls.drop_last()) + ls.last().weights
    }
}

/// All biases of the layers, layer after layer.
pub open spec fn concat_bias<T>(ls: Seq<LayerView<T>>) -> Seq<T>
    decreases ls.len(),
{
    if ls.len() == 0 {
        Seq::empty()
    } else {
        concat_bias(ls.drop_last()) + ls.last().bias
    }
}

/// The number of biases of each layer that is not the output layer.
pub open spec fn bias_counts<T>(ls: Seq<LayerView<T>>) -> Seq<usize>
    decreases ls.len(),
{
    if ls.len() == 0 {
        Seq::empty()
    } else if ls.last().is_output {
        bias_counts(ls.drop_last())
    } else {
        bias_counts(ls.drop_last()).push(ls.last().bias.len() as usize)
    }
}

/// The output width of each layer that is not the output layer.
pub open spec fn hidden_outputs<T>(ls: Seq<LayerView<T>>) -> Seq<usize>
    decreases ls.len(),
{
    if ls.len() == 0 {
        Seq::empty()
    } else if ls.last().is_output {
        hidden_outputs(ls.drop_last())
    } else {
        hidden_outputs(ls.drop_last()).push(ls.last().output_nodes)
    }
}

/// The record made from the layers of a CPU network: the fixed image and
/// class widths, the hidden widths counted from the biases, and the
/// parameters in layer order.
pub open spec fn spec_from_nn_cpu<T>(ls: Seq<LayerView<T>>) -> DataView<T> {
    DataView {
        input_size: INPUT_NODES,
        output_size: OUTPUT_NODES,
        hidden_layers: bias_counts(ls),
        weights: concat_weights(ls),
        bias: concat_bias(ls),
    }
}

/// The record made from the layers of a GPU network: the widths are read
/// from the first and the last layer and from the hidden layers.
pub open spec fn spec_from_nn_gpu<T>(ls: Seq<LayerView<T>>) -> DataView<T> {
    DataView {
        input_size: ls[0].input_nodes,
        output_size: ls.last().output_nodes,
        hidden_layers: hidden_outputs(ls),
        weights: concat_weights(ls),
        bias: concat_bias(ls),
    }
}

/// The output width of layer `i` of a record: a hidden width, or the output
/// width for the last layer.
pub open spec fn layer_size<T>(d: DataView<T>, i: int) -> usize {
    if i < d.hidden_layers.len() {
        d.hidden_layers[i]
    } else {
        d.output_size
    }
}

/// The input width of layer `i` of a record.
pub open spec fn layer_input<T>(d: DataView<T>, i: int) -> usize {
    chain_input(d.input_size, d.hidden_layers, i)
}

/// Where the biases of layer `i` start in the flat bias vector.
pub open spec fn bias_offset<T>(d: DataView<T>, i: int) -> int
    decreases i,
{
    if i <= 0 {
        0
    } else {
        bias_offset(d, i - 1) + layer_size(d, i - 1)
    }
}

/// Where the weights of layer `i` start in the flat weight vector.
pub open spec fn weights_offset<T>(d: DataView<T>, i: int) -> int
    decreases i,
{
    if i <= 0 {
        0
    } else {
        weights_offset(d, i - 1) + layer_input(d, i - 1) * layer_size(d, i - 1)
    }
}

/// Layer `i` as it is rebuilt from a record.
pub open spec fn spec_to_layer<T>(d: DataView<T>, i: int) -> LayerView<T> {
    let prev = layer_input(d, i);
    let size = layer_size(d, i);
    let b = bias_offset(d, i);
    let w = weights_offset(d, i);
    LayerView {
        input_nodes: prev,
        output_nodes: size,
        weights: d.weights.subrange(w, w + prev * size),
        bias: d.bias.subrange(b, b + size),
        is_output: i == d.hidden_layers.len(),
    }
}

/// All layers rebuilt from a record: one per hidden width, then the output
/// layer.
pub open spec fn spec_to_nn_cpu<T>(d: DataView<T>) -> Seq<LayerView<T>> {
    Seq::new(d.hidden_layers.len() + 1, |i: int| spec_to_layer(d, i))
}

/// The record holds enough biases and weights for the layers it describes.
pub open spec fn holds_layers<T>(d: DataView<T>) -> bool {
    let n = d.hidden_layers.len() + 1;
    &&& bias_offset(d, n as int) <= d.bias.len()
    &&& weights_offset(d, n as int) <= d.weights.len()
}

/// The record holds exactly the biases and weights of the layers it
/// describes, nothing more.
pub open spec fn holds_exactly<T>(d: DataView<T>) -> bool {
    let n = d.hidden_layers.len() + 1;
    &&& bias_offset(d, n as int) == d.bias.len()
    &&& weights_offset(d, n as int) == d.weights.len()
}

/// The layers form a chain from `input` to `output` values: each layer
/// reads what the one before produces, only the last is the output layer,
/// and every layer holds one bias per output and a full weight matrix.
pub open spec fn is_chain<T>(ls: Seq<LayerView<T>>, input: usize, output: usize) -> bool {
    &&& ls.len() >= 1
    &&& ls[0].input_nodes == input
    &&& ls.last().output_nodes == output
    &&& forall|i: int| 0 <= i < ls.len() - 1 ==> #[trigger] ls[i].output_nodes == ls[i + 1].input_nodes
    &&& forall|i: int| 0 <= i < ls.len() ==> (#[trigger] ls[i].is_output <==> i == ls.len() - 1)
    &&& forall|i: int| 0 <= i < ls.len() ==> #[trigger] ls[i].bias.len() == ls[i].output_nodes
    &&& forall|i: int|
        0 <= i < ls.len() ==> #[trigger] ls[i].weights.len() == ls[i].input_nodes * ls[i].output_nodes
}

/// A copy of `v[start..end]`.
fn copy_range<T: Copy>(v: &Vec<T>, start: usize, end: usize) -> (r: Vec<T>)
    requires
        start <= end <= v.len(),
    ensures
        r@ == v@.subrange(start as int, end as int),
{
    let mut r: Vec<T> = Vec::new();
    let mut k = start;
    while k < end
        invariant
            start <= k <= end <= v.len(),
            r@ == v@.subrange(start as int, k as int),
        decreases end - k,
    {
        r.push(v[k]);
        proof {
            assert(r@ =~= v@.subrange(start as int, k + 1));
        }
        k = k + 1;
    }
    r
}

/// Appends all of `src` to `dst`.
fn append_copy<T: Copy>(dst: &mut Vec<T>, src: &Vec<T>)
    ensures
        final(dst)@ == old(dst)@ + src@,
{
    let mut k: usize = 0;
    while k < src.len()
        invariant
            k <= src.len(),
            dst@ == old(dst)@ + src@.subrange(0, k as int),
        decreases src.len() - k,
    {
        dst.push(src[k]);
        proof {
            assert(dst@ =~= old(dst)@ + src@.subrange(0, k + 1));
        }
        k = k + 1;
    }
    proof {
        assert(src@.subrange(0, src.len() as int) =~= src@);
    }
}

/// Offsets only grow from one layer to the next.
pub proof fn lemma_offsets_grow<T>(d: DataView<T>, i: int, j: int)
    requires
        0 <= i <= j,
    ensures
        bias_offset(d, i) <= bias_offset(d, j),
        weights_offset(d, i) <= weights_offset(d, j),
    decreases j - i,
{
    if i < j {
        lemma_offsets_grow(d, i, j - 1);
        let a = layer_input(d, j - 1);
        let b = layer_size(d, j - 1);
        assert(a * b >= 0) by (nonlinear_arith)
            requires a >= 0, b >= 0;
    }
}

/// Taking one more layer appends that layer's parameters and width.
proof fn lemma_take_step<T>(ls: Seq<LayerView<T>>, k: int)
    requires
        0 <= k < ls.len(),
    ensures
        concat_bias(ls.take(k + 1)) == concat_bias(ls.take(k)) + ls[k].bias,
        concat_weights(ls.take(k + 1)) == concat_weights(ls.take(k)) + ls[k].weights,
        bias_counts(ls.take(k + 1)) == (if ls[k].is_output {
            bias_counts(ls.take(k))
        } else {
            bias_counts(ls.take(k)).push(ls[k].bias.len() as usize)
        }),
        hidden_outputs(ls.take(k + 1)) == (if ls[k].is_output {
            hidden_outputs(ls.take(k))
        } else {
            hidden_outputs(ls.take(k)).push(ls[k].output_nodes)
        }),
{
    assert(ls.take(k + 1).drop_last() =~= ls.take(k));
    assert(ls.take(k + 1).last() == ls[k]);
}

/// The parameters of the first `k` rebuilt layers are the first stretch of
/// the record's vectors, and their hidden widths are the record's.
proof fn lemma_rebuilt_prefix<T>(d: DataView<T>, k: int)
    requires
        holds_layers(d),
        0 <= k <= d.hidden_layers.len() + 1,
    ensures
        concat_bias(spec_to_nn_cpu(d).take(k)) == d.bias.subrange(0, bias_offset(d, k)),
        concat_weights(spec_to_nn_cpu(d).take(k)) == d.weights.subrange(0, weights_offset(d, k)),
        k <= d.hidden_layers.len() ==> bias_counts(spec_to_nn_cpu(d).take(k)) == d.hidden_layers.take(k),
        k == d.hidden_layers.len() + 1 ==> bias_counts(spec_to_nn_cpu(d).take(k)) == d.hidden_layers,
    decreases k,
{
    let ls = spec_to_nn_cpu(d);
    let n = d.hidden_layers.len() + 1;
    if k == 0 {
        assert(ls.take(0) =~= Seq::<LayerView<T>>::empty());
        assert(d.bias.subrange(0, 0) =~= Seq::<T>::empty());
        assert(d.weights.subrange(0, 0) =~= Seq::<T>::empty());
        assert(d.hidden_layers.take(0) =~= Seq::<usize>::empty());
    } else {
        lemma_rebuilt_prefix(d, k - 1);
        lemma_take_step(ls, k - 1);
        lemma_offsets_grow(d, k, n as int);
        lemma_offsets_grow(d, k - 1, k);
        lemma_offsets_grow(d, 0, k - 1);
        let l = ls[k - 1];
        assert(l == spec_to_layer(d, k - 1));
        let b0 = bias_offset(d, k - 1);
        let w0 = weights_offset(d, k - 1);
        assert(bias_offset(d, k) == b0 + layer_size(d, k - 1));
        assert(weights_offset(d, k) == w0 + layer_input(d, k - 1) * layer_size(d, k - 1));
        assert(bias_offset(d, n as int) <= d.bias.len());
        assert(weights_offset(d, n as int) <= d.weights.len());
        assert(0 <= b0 <= bias_offset(d, k) <= d.bias.len());
        assert(0 <= w0 <= weights_offset(d, k) <= d.weights.len());
        assert(l.bias == d.bias.subrange(b0, bias_offset(d, k)));
        assert(l.weights == d.weights.subrange(w0, weights_offset(d, k)));
        assert(d.bias.subrange(0, bias_offset(d, k - 1)) + l.bias =~= d.bias.subrange(0, bias_offset(d, k)));
        assert(d.weights.subrange(0, weights_offset(d, k - 1)) + l.weights =~= d.weights.subrange(
            0,
            weights_offset(d, k),
        ));
        if k - 1 < d.hidden_layers.len() {
            assert(d.hidden_layers.take(k - 1).push(d.hidden_layers[k - 1]) =~= d.hidden_layers.take(k));
        } else {
            assert(d.hidden_layers.take(k - 1) =~= d.hidden_layers);
        }
    }
}

/// Storing the rebuilt layers gives back the record, for a record of a
/// CPU network that holds exactly the parameters of its layers: rebuilding
/// then storing changes nothing.
pub proof fn lemma_from_to_nn_cpu<T>(d: DataView<T>)
    requires
        d.input_size == INPUT_NODES,
        d.output_size == OUTPUT_NODES,
        holds_exactly(d),
    ensures
        spec_from_nn_cpu(spec_to_nn_cpu(d)) == d,
{
    let ls = spec_to_nn_cpu(d);
    let n = d.hidden_layers.len() + 1;
    lemma_rebuilt_prefix(d, n as int);
    assert(ls.take(n as int) =~= ls);
    assert(d.bias.subrange(0, d.bias.len() as int) =~= d.bias);
    assert(d.weights.subrange(0, d.weights.len() as int) =~= d.weights);
    assert(spec_from_nn_cpu(ls) =~= d);
}

/// The record made from a chain of layers, with the given widths at its
/// ends.
pub open spec fn record_of<T>(ls: Seq<LayerView<T>>, input: usize, output: usize) -> DataView<T> {
    DataView {
        input_size: input,
        output_size: output,
        hidden_layers: bias_counts(ls),
        weights: concat_weights(ls),
        bias: concat_bias(ls),
    }
}

/// In a chain, every layer but the last is a hidden layer whose width is
/// its number of outputs.
proof fn lemma_chain_counts<T>(ls: Seq<LayerView<T>>, input: usize, output: usize, k: int)
    requires
        is_chain(ls, input, output),
        0 <= k < ls.len(),
    ensures
        bias_counts(ls.take(k)) == Seq::new(k as nat, |j: int| ls[j].output_nodes),
        hidden_outputs(ls.take(k)) == Seq::new(k as nat, |j: int| ls[j].output_nodes),
    decreases k,
{
    if k == 0 {
        assert(ls.take(0) =~= Seq::<LayerView<T>>::empty());
        assert(Seq::new(0, |j: int| ls[j].output_nodes) =~= Seq::<usize>::empty());
    } else {
        lemma_chain_counts(ls, input, output, k - 1);
        lemma_take_step(ls, k - 1);
        assert(!ls[k - 1].is_output);
        assert(Seq::new((k - 1) as nat, |j: int| ls[j].output_nodes).push(ls[k - 1].output_nodes) =~= Seq::new(
            k as nat,
            |j: int| ls[j].output_nodes,
        ));
    }
}

/// The hidden widths recorded for a chain are the outputs of all its layers
/// but the last, whether counted from the biases or read from the widths.
proof fn lemma_chain_hidden<T>(ls: Seq<LayerView<T>>, input: usize, output: usize)
    requires
        is_chain(ls, input, output),
    ensures
        bias_counts(ls) == Seq::new((ls.len() - 1) as nat, |j: int| ls[j].output_nodes),
        hidden_outputs(ls) == bias_counts(ls),
{
    let l = ls.len() - 1;
    lemma_chain_counts(ls, input, output, l);
    lemma_take_step(ls, l);
    assert(ls.take(l + 1) =~= ls);
}

/// The parameters of the first `m` layers of a chain come first among
/// those of the first `k` layers.
proof fn lemma_concat_prefix<T>(ls: Seq<LayerView<T>>, m: int, k: int)
    requires
        0 <= m <= k <= ls.len(),
    ensures
        concat_bias(ls.take(k)).subrange(0, concat_bias(ls.take(m)).len() as int) == concat_bias(ls.take(m)),
        concat_weights(ls.take(k)).subrange(0, concat_weights(ls.take(m)).len() as int) == concat_weights(
            ls.take(m),
        ),
        concat_bias(ls.take(m)).len() <= concat_bias(ls.take(k)).len(),
        concat_weights(ls.take(m)).len() <= concat_weights(ls.take(k)).len(),
    decreases k - m,
{
    if m == k {
        assert(concat_bias(ls.take(k)).subrange(0, concat_bias(ls.take(k)).len() as int) =~= concat_bias(
            ls.take(k),
        ));
        assert(concat_weights(ls.take(k)).subrange(0, concat_weights(ls.take(k)).len() as int)
            =~= concat_weights(ls.take(k)));
    } else {
        lemma_concat_prefix(ls, m, k - 1);
        lemma_take_step(ls, k - 1);
        assert(concat_bias(ls.take(k)).subrange(0, concat_bias(ls.take(m)).len() as int) =~= concat_bias(
            ls.take(k - 1),
        ).subrange(0, concat_bias(ls.take(m)).len() as int));
        assert(concat_weights(ls.take(k)).subrange(0, concat_weights(ls.take(m)).len() as int)
            =~= concat_weights(ls.take(k - 1)).subrange(0, concat_weights(ls.take(m)).len() as int));
    }
}

/// In the record of a chain, layer `k` reads the width its predecessor
/// writes, its offsets are where the parameters of the earlier layers end.
proof fn lemma_chain_offsets<T>(ls: Seq<LayerView<T>>, input: usize, output: usize, k: int)
    requires
        is_chain(ls, input, output),
        0 <= k <= ls.len(),
    ensures
        bias_offset(record_of(ls, input, output), k) == concat_bias(ls.take(k)).len(),
        weights_offset(record_of(ls, input, output), k) == concat_weights(ls.take(k)).len(),
        k < ls.len() ==> layer_input(record_of(ls, input, output), k) == ls[k].input_nodes,
        k < ls.len() ==> layer_size(record_of(ls, input, output), k) == ls[k].output_nodes,
    decreases k,
{
    let d = record_of(ls, input, output);
    lemma_chain_hidden(ls, input, output);
    if k == 0 {
        assert(ls.take(0) =~= Seq::<LayerView<T>>::empty());
    } else {
        lemma_chain_offsets(ls, input, output, k - 1);
        lemma_take_step(ls, k - 1);
        if k < ls.len() {
            assert(ls[k - 1].output_nodes == ls[k].input_nodes);
        }
    }
}

/// Rebuilding layers from the record made of a chain gives back the chain,
/// and the record holds exactly their parameters.
proof fn lemma_record_rebuilds<T>(ls: Seq<LayerView<T>>, input: usize, output: usize)
    requires
        is_chain(ls, input, output),
    ensures
        holds_exactly(record_of(ls, input, output)),
        spec_to_nn_cpu(record_of(ls, input, output)) == ls,
{
    let d = record_of(ls, input, output);
    let n = ls.len();
    lemma_chain_hidden(ls, input, output);
    assert(d.hidden_layers.len() + 1 == n);
    assert(ls.take(n as int) =~= ls);
    lemma_chain_offsets(ls, input, output, n as int);
    let r = spec_to_nn_cpu(d);
    assert forall|k: int| 0 <= k < n implies #[trigger] r[k] == ls[k] by {
        lemma_chain_offsets(ls, input, output, k);
        lemma_chain_offsets(ls, input, output, k + 1);
        lemma_take_step(ls, k);
        lemma_concat_prefix(ls, k + 1, n as int);
        let b = bias_offset(d, k);
        let w = weights_offset(d, k);
        let cb = concat_bias(ls.take(k + 1));
        let cw = concat_weights(ls.take(k + 1));
        assert(d.bias.subrange(b, b + ls[k].output_nodes) =~= cb.subrange(b, b + ls[k].output_nodes));
        assert(cb.subrange(b, b + ls[k].output_nodes) =~= ls[k].bias);
        let wl = ls[k].input_nodes * ls[k].output_nodes;
        assert(d.weights.subrange(w, w + wl) =~= cw.subrange(w, w + wl));
        assert(cw.subrange(w, w + wl) =~= ls[k].weights);
        assert(r[k] =~= ls[k]);
    }
    assert(r =~= ls);
}

/// Rebuilding the layers of a stored CPU network gives back the layers that
/// were stored, for any chain of layers from the image to the classes:
/// storing then rebuilding changes nothing.
pub proof fn lemma_to_from_nn_cpu<T>(ls: Seq<LayerView<T>>)
    requires
        is_chain(ls, INPUT_NODES, OUTPUT_NODES),
    ensures
        holds_exactly(spec_from_nn_cpu(ls)),
        spec_to_nn_cpu(spec_from_nn_cpu(ls)) == ls,
{
    lemma_record_rebuilds(ls, INPUT_NODES, OUTPUT_NODES);
    assert(spec_from_nn_cpu(ls) == record_of(ls, INPUT_NODES, OUTPUT_NODES));
}

/// Rebuilding the layers of a stored GPU network gives back the layers
/// that were stored, for any chain of layers.
pub proof fn lemma_to_from_nn_gpu<T>(ls: Seq<LayerView<T>>, input: usize, output: usize)
    requires
        is_chain(ls, input, output),
    ensures
        holds_exactly(spec_from_nn_gpu(ls)),
        spec_to_nn_cpu(spec_from_nn_gpu(ls)) == ls,
{
    lemma_chain_hidden(ls, input, output);
    lemma_record_rebuilds(ls, input, output);
    assert(spec_from_nn_gpu(ls) =~= record_of(ls, input, output));
}

impl<T: Copy> NeuralNetworkData<T> {
    /// Stores the layers of a CPU network: the widths of the image and of
    /// the class vector, the width of each hidden layer (counted from its
    /// biases), and all weights and biases in layer order.
    pub fn from_nn_cpu(layers: &Vec<LayerParams<T>>) -> (r: Self)
        ensures
            r@ == spec_from_nn_cpu(layer_views(layers@)),
    {
        let ghost ls = layer_views(layers@);
        let mut hidden_layers: Vec<usize> = Vec::new();
        let mut weights: Vec<T> = Vec::new();
        let mut bias: Vec<T> = Vec::new();
        let mut i: usize = 0;
        while i < layers.len()
            invariant
                i <= layers.len(),
                ls == layer_views(layers@),
                hidden_layers@ == bias_counts(ls.take(i as int)),
                weights@ == concat_weights(ls.take(i as int)),
                bias@ == concat_bias(ls.take(i as int)),
            decreases layers.len() - i,
        {
            let layer = &layers[i];
            proof {
                assert(ls.take(i + 1).drop_last() =~= ls.take(i as int));
                assert(ls.take(i + 1).last() == layer@);
            }
            append_copy(&mut weights, &layer.weights);
            append_copy(&mut bias, &layer.bias);
            if !layer.is_output {
                hidden_layers.push(layer.bias.len());
            }
            i = i + 1;
        }
        proof {
            assert(ls.take(layers.len() as int) =~= ls);
        }
        NeuralNetworkData { input_size: INPUT_NODES, output_size: OUTPUT_NODES, hidden_layers, weights, bias }
    }

    /// Stores the layers of a GPU network: the widths are read from the
    /// first and the last layer and from the hidden layers, and all weights
    /// and biases follow in layer order.
    pub fn from_nn_gpu(layers: &Vec<LayerParams<T>>) -> (r: Self)
        requires
            layers.len() > 0,
        ensures
            r@ == spec_from_nn_gpu(layer_views(layers@)),
    {
        let ghost ls = layer_views(layers@);
        let input_size = layers[0].input_nodes;
        let output_size = layers[layers.len() - 1].output_nodes;
        let mut hidden_layers: Vec<usize> = Vec::new();
        let mut weights: Vec<T> = Vec::new();
        let mut bias: Vec<T> = Vec::new();
        let mut i: usize = 0;
        while i < layers.len()
            invariant
                i <= layers.len(),
                ls == layer_views(layers@),
                hidden_layers@ == hidden_outputs(ls.take(i as int)),
                weights@ == concat_weights(ls.take(i as int)),
                bias@ == concat_bias(ls.take(i as int)),
            decreases layers.len() - i,
        {
            let layer = &layers[i];
            proof {
                assert(ls.take(i + 1).drop_last() =~= ls.take(i as int));
                assert(ls.take(i + 1).last() == layer@);
            }
            if !layer.is_output {
                hidden_layers.push(layer.output_nodes);
            }
            append_copy(&mut weights, &layer.weights);
            append_copy(&mut bias, &layer.bias);
            i = i + 1;
        }
        proof {
            assert(ls.take(layers.len() as int) =~= ls);
        }
        NeuralNetworkData { input_size, output_size, hidden_layers, weights, bias }
    }

    /// The input width and the output width of layer `i`.
    fn layer_dims(&self, i: usize) -> (r: (usize, usize))
        requires
            i <= self.hidden_layers.len(),
        ensures
            r.0 == layer_input(self@, i as int),
            r.1 == layer_size(self@, i as int),
    {
        let prev = if i == 0 { self.input_size } else { self.hidden_layers[i - 1] };
        let size = if i < self.hidden_layers.len() { self.hidden_layers[i] } else { self.output_size };
        (prev, size)
    }

    /// The offsets just past layer `i`, given those where it starts, if
    /// its biases and weights are within the record.
    fn layer_end(&self, i: usize, b: usize, w: usize) -> (r: Option<(usize, usize)>)
        requires
            i <= self.hidden_layers.len(),
            b == bias_offset(self@, i as int),
            w == weights_offset(self@, i as int),
            b <= self.bias.len(),
            w <= self.weights.len(),
        ensures
            r matches Some((b2, w2)) ==> {
                &&& b2 == bias_offset(self@, i + 1)
                &&& w2 == weights_offset(self@, i + 1)
                &&& b2 <= self.bias.len()
                &&& w2 <= self.weights.len()
            },
            r is None ==> !holds_layers(self@),
    {
        let ghost d = self@;
        let (prev, size) = self.layer_dims(i);
        proof {
            lemma_offsets_grow(d, i + 1, self.hidden_layers.len() + 1);
        }
        if size > self.bias.len() - b {
            return None;
        }
        match prev.checked_mul(size) {
            None => None,
            Some(ws) => {
                if ws > self.weights.len() - w {
                    None
                } else {
                    Some((b + size, w + ws))
                }
            },
        }
    }

    /// Whether the record holds enough biases and weights for the layers it
    /// describes, that is, whether `to_nn_cpu` can rebuild them.
    pub fn holds_layers(&self) -> (r: bool)
        ensures
            r == holds_layers(self@),
    {
        let n = self.hidden_layers.len();
        let mut b: usize = 0;
        let mut w: usize = 0;
        let mut i: usize = 0;
        while i < n
            invariant
                n == self.hidden_layers.len(),
                i <= n,
                b == bias_offset(self@, i as int),
                w == weights_offset(self@, i as int),
                b <= self.bias.len(),
                w <= self.weights.len(),
            decreases n - i,
        {
            match self.layer_end(i, b, w) {
                None => {
                    return false;
                },
                Some((b2, w2)) => {
                    b = b2;
                    w = w2;
                },
            }
            i = i + 1;
        }
        match self.layer_end(n, b, w) {
            None => false,
            Some(_) => true,
        }
    }

    /// Layer `i` rebuilt from the record.
    fn rebuild_layer(&self, i: usize, b: usize, w: usize) -> (r: LayerParams<T>)
        requires
            holds_layers(self@),
            i <= self.hidden_layers.len(),
            b == bias_offset(self@, i as int),
            w == weights_offset(self@, i as int),
        ensures
            r@ == spec_to_layer(self@, i as int),
            b + r.output_nodes == bias_offset(self@, i + 1),
            w + r.input_nodes * r.output_nodes == weights_offset(self@, i + 1),
    {
        let ghost d = self@;
        let (prev, size) = self.layer_dims(i);
        proof {
            let n1 = self.hidden_layers.len() + 1;
            lemma_offsets_grow(d, i + 1, n1 as int);
            assert(bias_offset(d, i + 1) == b + size);
            assert(weights_offset(d, i + 1) == w + prev * size);
            assert(bias_offset(d, n1 as int) <= self.bias.len());
            assert(weights_offset(d, n1 as int) <= self.weights.len());
        }
        let bias = copy_range(&self.bias, b, b + size);
        let weights = copy_range(&self.weights, w, w + prev * size);
        LayerParams { input_nodes: prev, output_nodes: size, weights, bias, is_output: i == self.hidden_layers.len() }
    }

    /// Rebuilds the layers of a CPU network from the record: one hidden
    /// layer per stored width, reading from the previous layer (the image
    /// for the first), then the output layer; each takes its biases and its
    /// row-major weights from where the previous layer's end.
    pub fn to_nn_cpu(&self) -> (r: Vec<LayerParams<T>>)
        requires
            holds_layers(self@),
        ensures
            layer_views(r@) == spec_to_nn_cpu(self@),
    {
        let ghost d = self@;
        let n = self.hidden_layers.len();
        let mut layers: Vec<LayerParams<T>> = Vec::new();
        let mut b: usize = 0;
        let mut w: usize = 0;
        let mut i: usize = 0;
        while i < n
            invariant
                d == self@,
                holds_layers(d),
                n == self.hidden_layers.len(),
                i <= n,
                b == bias_offset(d, i as int),
                w == weights_offset(d, i as int),
                layers.len() == i,
                forall|j: int| 0 <= j < i ==> #[trigger] layers[j]@ == spec_to_layer(d, j),
            decreases n - i,
        {
            let layer = self.rebuild_layer(i, b, w);
            proof {
                lemma_offsets_grow(d, i + 1, n + 1);
                assert(bias_offset(d, n + 1) <= self.bias.len());
                assert(weights_offset(d, n + 1) <= self.weights.len());
                assert(layer.input_nodes * layer.output_nodes <= self.weights.len());
            }
            b = b + layer.output_nodes;
            w = w + layer.input_nodes * layer.output_nodes;
            let ghost before = layers@;
            layers.push(layer);
            proof {
                assert forall|j: int| 0 <= j < i + 1 implies #[trigger] layers[j]@ == spec_to_layer(d, j) by {
                    if j < i {
                        assert(layers[j] == before[j]);
                    }
                }
            }
            i = i + 1;
        }
        let last = self.rebuild_layer(n, b, w);
        let ghost before = layers@;
        layers.push(last);
        proof {
            assert forall|j: int| 0 <= j < n + 1 implies #[trigger] layers[j]@ == spec_to_layer(d, j) by {
                if j < n {
                    assert(layers[j] == before[j]);
                }
            }
            assert(layer_views(layers@) =~= spec_to_nn_cpu(d));
        }
        layers
    }
}

} // verus!
