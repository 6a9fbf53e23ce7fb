use vstd::prelude::*;

verus! {

/// Pixels of one 28x28 input image.
pub const INPUT_NODES: usize = 28 * 28;

/// Digit classes of the output layer.
pub const OUTPUT_NODES: usize = 10;

/// Where one dense layer sits in the network: how many values it reads,
/// how many it produces, and whether it is the final (softmax) layer.
#[derive(Clone, Copy, PartialEq, Eq, Structural, Debug)]
pub struct LayerShape {
    pub input_nodes: usize,
    pub output_nodes: usize,
    pub is_output: bool,
}

/// The input width of layer `i` in a chain: the network input for the
/// first layer, the previous hidden size otherwise.
pub open spec fn chain_input(input: usize, hidden: Seq<usize>, i: int) -> usize {
    if i == 0 {
        input
    } else {
        hidden[i - 1]
    }
}

/// The shape of every layer of a network with the given hidden sizes:
/// one hidden layer per entry, then the output layer.
pub open spec fn chain_shape(input: usize, hidden: Seq<usize>, output: usize, i: int) -> LayerShape {
    if i < hidden.len() {
        LayerShape { input_nodes: chain_input(input, hidden, i), output_nodes: hidden[i], is_output: false }
    } else {
        LayerShape {
            input_nodes: chain_input(input, hidden, hidden.len() as int),
            output_nodes: output,
            is_output: true,
        }
    }
}

/// Lays out the layers of a network: hidden layer `i` reads the output of
/// layer `i - 1` (the network input for `i == 0`), and a final output layer
/// reads the last hidden layer.
pub fn layer_chain(input_nodes: usize, hidden: &Vec<usize>, output_nodes: usize) -> (r: Vec<LayerShape>)
    requires
        hidden.len() < usize::MAX,
    ensures
        r.len() == hidden.len() + 1,
        forall|i: int| 0 <= i < r.len() ==> r[i] == chain_shape(input_nodes, hidden@, output_nodes, i),
        r[0].input_nodes == input_nodes,
        r[r.len() - 1].output_nodes == output_nodes,
        forall|i: int| 0 <= i < r.len() - 1 ==> #[trigger] r[i].output_nodes == r[i + 1].input_nodes,
        forall|i: int| 0 <= i < r.len() ==> (#[trigger] r[i].is_output <==> i == r.len() - 1),
        forall|i: int|
            0 <= i < hidden.len() ==> (#[trigger] r[i]).output_nodes == hidden[i] && r[i].input_nodes == if i
                == 0 {
                input_nodes
            } else {
                hidden[i - 1]
            },
        r[hidden.len() as int].input_nodes == if hidden.len() == 0 {
            input_nodes
        } else {
            hidden[hidden.len() - 1]
        },
{
    let mut r: Vec<LayerShape> = Vec::new();
    let mut prev = input_nodes;
    let mut i: usize = 0;
    while i < hidden.len()
        invariant
            i <= hidden.len(),
            r.len() == i,
            prev == chain_input(input_nodes, hidden@, i as int),
            forall|j: int| 0 <= j < i ==> r[j] == chain_shape(input_nodes, hidden@, output_nodes, j),
        decreases hidden.len() - i,
    {
        let size = hidden[i];
        r.push(LayerShape { input_nodes: prev, output_nodes: size, is_output: false });
        prev = size;
        i = i + 1;
    }
    r.push(LayerShape { input_nodes: prev, output_nodes: output_nodes, is_output: true });
    r
}

/// The check that a buffer of `len` values holds `amount` samples of
/// `per_sample` values each, as made on the whole-number quotient: the
/// values divided among the samples give `per_sample` each.
pub fn divides_into(len: usize, amount: usize, per_sample: usize) -> (r: bool)
    requires
        amount > 0,
    ensures
        r == (len / amount == per_sample),
{
    len / amount == per_sample
}

/// Whether a buffer of `len` values holds exactly `amount` samples of
/// `per_sample` values each.
pub fn holds_samples(len: usize, amount: usize, per_sample: usize) -> (r: bool)
    ensures
        r == (len == amount * per_sample),
{
    proof {
        assert(0 <= amount * per_sample <= usize::MAX * usize::MAX) by (nonlinear_arith)
            requires 0 <= amount <= usize::MAX, 0 <= per_sample <= usize::MAX;
    }
    len as u128 == amount as u128 * per_sample as u128
}

} // verus!
