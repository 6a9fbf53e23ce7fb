use mnist_mlp::data::{LayerParams, NeuralNetworkData};

fn layer(input: usize, output: usize, start: i32, is_output: bool) -> LayerParams<i32> {
    LayerParams {
        input_nodes: input,
        output_nodes: output,
        weights: (0..(input * output) as i32).map(|v| start + v).collect(),
        bias: (0..output as i32).map(|v| -(start + v)).collect(),
        is_output,
    }
}

fn same(a: &LayerParams<i32>, b: &LayerParams<i32>) -> bool {
    a.input_nodes == b.input_nodes
        && a.output_nodes == b.output_nodes
        && a.weights == b.weights
        && a.bias == b.bias
        && a.is_output == b.is_output
}

#[test]
fn store_cpu_network() {
    let layers = vec![layer(784, 3, 100, false), layer(3, 10, 10_000, true)];
    let d = NeuralNetworkData::from_nn_cpu(&layers);
    assert_eq!(d.input_size, 784);
    assert_eq!(d.output_size, 10);
    assert_eq!(d.hidden_layers, vec![3]);
    assert_eq!(d.weights.len(), 784 * 3 + 3 * 10);
    assert_eq!(d.weights[0], 100);
    assert_eq!(d.weights[784 * 3], 10_000);
    assert_eq!(d.bias, vec![-100, -101, -102, -10_000, -10_001, -10_002, -10_003, -10_004, -10_005, -10_006, -10_007, -10_008, -10_009]);
}

#[test]
fn hidden_widths_counted_from_biases() {
    // a layer whose bias vector disagrees with its width is recorded by its biases
    let mut l = layer(784, 4, 0, false);
    l.bias.pop();
    let d = NeuralNetworkData::from_nn_cpu(&vec![l, layer(4, 10, 0, true)]);
    assert_eq!(d.hidden_layers, vec![3]);
}

#[test]
fn store_then_rebuild_cpu() {
    let layers = vec![layer(784, 5, 1, false), layer(5, 2, 50_000, false), layer(2, 10, 90_000, true)];
    let d = NeuralNetworkData::from_nn_cpu(&layers);
    assert!(d.holds_layers());
    let back = d.to_nn_cpu();
    assert_eq!(back.len(), layers.len());
    for i in 0..layers.len() {
        assert!(same(&back[i], &layers[i]));
    }
}

#[test]
fn rebuild_then_store() {
    let d = NeuralNetworkData {
        input_size: 784,
        output_size: 10,
        hidden_layers: vec![2],
        weights: (0..(784 * 2 + 2 * 10)).collect::<Vec<i32>>(),
        bias: (0..12).collect::<Vec<i32>>(),
    };
    let again = NeuralNetworkData::from_nn_cpu(&d.to_nn_cpu());
    assert_eq!(again.input_size, d.input_size);
    assert_eq!(again.output_size, d.output_size);
    assert_eq!(again.hidden_layers, d.hidden_layers);
    assert_eq!(again.weights, d.weights);
    assert_eq!(again.bias, d.bias);
}

#[test]
fn rebuild_slices_row_major() {
    let d = NeuralNetworkData {
        input_size: 2,
        output_size: 1,
        hidden_layers: vec![3],
        weights: vec![1, 2, 3, 4, 5, 6, 7, 8, 9, 99],
        bias: vec![10, 20, 30, 40, 50],
    };
    assert!(d.holds_layers());
    let ls = d.to_nn_cpu();
    assert_eq!(ls.len(), 2);
    assert_eq!((ls[0].input_nodes, ls[0].output_nodes, ls[0].is_output), (2, 3, false));
    assert_eq!(ls[0].weights, vec![1, 2, 3, 4, 5, 6]);
    assert_eq!(ls[0].bias, vec![10, 20, 30]);
    assert_eq!((ls[1].input_nodes, ls[1].output_nodes, ls[1].is_output), (3, 1, true));
    assert_eq!(ls[1].weights, vec![7, 8, 9]);
    assert_eq!(ls[1].bias, vec![40]);
}

#[test]
fn too_short_record_is_refused() {
    let mut d = NeuralNetworkData {
        input_size: 2,
        output_size: 1,
        hidden_layers: vec![3],
        weights: vec![0; 9],
        bias: vec![0; 4],
    };
    assert!(d.holds_layers());
    d.weights.pop();
    assert!(!d.holds_layers());
    d.weights.push(0);
    d.bias.pop();
    assert!(!d.holds_layers());
    let huge = NeuralNetworkData::<u8> {
        input_size: usize::MAX,
        output_size: 2,
        hidden_layers: vec![],
        weights: vec![],
        bias: vec![0, 0],
    };
    assert!(!huge.holds_layers());
}

#[test]
fn store_gpu_network() {
    let layers = vec![layer(6, 4, 0, false), layer(4, 3, 1000, true)];
    let d = NeuralNetworkData::from_nn_gpu(&layers);
    assert_eq!(d.input_size, 6);
    assert_eq!(d.output_size, 3);
    assert_eq!(d.hidden_layers, vec![4]);
    assert_eq!(d.weights.len(), 24 + 12);
    let back = d.to_nn_cpu();
    for i in 0..layers.len() {
        assert!(same(&back[i], &layers[i]));
    }
}
