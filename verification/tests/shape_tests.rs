use mnist_mlp::shape::{divides_into, holds_samples, layer_chain, LayerShape, INPUT_NODES, OUTPUT_NODES};

#[test]
fn chain_with_hidden_layers() {
    let r = layer_chain(INPUT_NODES, &vec![128, 64], OUTPUT_NODES);
    assert_eq!(
        r,
        vec![
            LayerShape { input_nodes: 784, output_nodes: 128, is_output: false },
            LayerShape { input_nodes: 128, output_nodes: 64, is_output: false },
            LayerShape { input_nodes: 64, output_nodes: 10, is_output: true },
        ]
    );
}

#[test]
fn chain_without_hidden_layers() {
    let r = layer_chain(INPUT_NODES, &vec![], OUTPUT_NODES);
    assert_eq!(r, vec![LayerShape { input_nodes: 784, output_nodes: 10, is_output: true }]);
}

#[test]
fn chain_layers_connect() {
    let hidden = vec![5, 7, 3, 9];
    let r = layer_chain(12, &hidden, 2);
    assert_eq!(r.len(), hidden.len() + 1);
    assert_eq!(r[0].input_nodes, 12);
    for i in 0..r.len() - 1 {
        assert_eq!(r[i].output_nodes, r[i + 1].input_nodes);
        assert!(!r[i].is_output);
    }
    assert!(r[r.len() - 1].is_output);
    assert_eq!(r[r.len() - 1].output_nodes, 2);
}

#[test]
fn input_check_uses_whole_quotient() {
    assert!(divides_into(784 * 3, 3, 784));
    assert!(divides_into(784 * 3 + 2, 3, 784));
    assert!(!divides_into(784 * 3 + 3, 3, 784));
    assert!(!divides_into(784 * 2, 3, 784));
}

#[test]
fn exact_sample_count() {
    assert!(holds_samples(784 * 3, 3, 784));
    assert!(!holds_samples(784 * 3 + 1, 3, 784));
    assert!(holds_samples(0, 0, 784));
    assert!(!holds_samples(1, usize::MAX, 2));
}
