use mnist_mlp::perceptron::{GlobalCounters, LayerDims, MlpShape, MlpState};

fn mnist_shape() -> MlpShape {
    MlpShape { input_size: 784, output_size: 10, max_batch_size: 1024, h_layer_sizes: vec![1024, 1024, 1024] }
}

#[test]
fn layout_of_mnist_network() {
    let shape = mnist_shape();
    assert!(shape.fits());
    assert_eq!(shape.widest(), 1024);
    let s = MlpState::new(&shape);
    assert_eq!(s.max_size, 1024);
    assert_eq!((s.logical_input_size, s.physical_input_size), (784, 784));
    assert_eq!((s.logical_output_size, s.physical_output_size), (10, 12));
    assert_eq!((s.logical_batch_size, s.physical_batch_size), (1024, 1024));
    assert_eq!((s.timestep, s.cur_batch_size, s.next_batch_size), (1, 1024, 1024));
    assert_eq!(s.layers.len(), 4);
    assert_eq!(
        s.layers[0],
        LayerDims {
            is_output: false,
            max_size: 1024,
            logical_input_size: 784,
            physical_input_size: 784,
            logical_output_size: 1024,
            physical_output_size: 1024,
            logical_batch_size: 1024,
            physical_batch_size: 1024,
        }
    );
    assert_eq!(s.layers[3].logical_input_size, 1024);
    assert_eq!((s.layers[3].logical_output_size, s.layers[3].physical_output_size), (10, 12));
    assert!(s.layers[3].is_output);
}

#[test]
fn odd_sizes_are_padded() {
    let shape = MlpShape { input_size: 5, output_size: 3, max_batch_size: 7, h_layer_sizes: vec![9] };
    let s = MlpState::new(&shape);
    assert_eq!(s.max_size, 12);
    assert_eq!((s.physical_input_size, s.physical_output_size, s.physical_batch_size), (8, 4, 8));
    assert_eq!(s.layers[0].physical_output_size, 12);
    assert_eq!(s.layers[1].physical_input_size, 12);
    assert_eq!(s.layers[1].activation_bytes(), 12 * 8 * 4);
    assert_eq!(s.layers[1].weights_bytes(), 4 * 12 * 4);
    assert_eq!(s.layers[1].bias_bytes(), 16);
}

#[test]
fn layer_dims_created() {
    let d = LayerDims::create(20, 13, 6, 3, true);
    assert_eq!((d.physical_input_size, d.physical_output_size, d.physical_batch_size), (16, 8, 4));
    assert!(d.is_output);
}

#[test]
fn oversized_shapes_do_not_fit() {
    let s = MlpShape { input_size: u32::MAX, output_size: 3, max_batch_size: 7, h_layer_sizes: vec![] };
    assert!(!s.fits());
    let s = MlpShape { input_size: 3, output_size: 3, max_batch_size: u32::MAX - 2, h_layer_sizes: vec![] };
    assert!(!s.fits());
    let s = MlpShape { input_size: 1 << 31, output_size: 3, max_batch_size: 1 << 31, h_layer_sizes: vec![] };
    assert!(!s.fits());
}

#[test]
fn load_pads_batch() {
    let shape = MlpShape { input_size: 3, output_size: 2, max_batch_size: 3, h_layer_sizes: vec![] };
    let mut s = MlpState::new(&shape);
    assert_eq!(s.max_size, 4);
    assert!(s.accepts_batch(6, 4, 2));
    assert!(!s.accepts_batch(6, 4, 4));
    assert!(!s.accepts_batch(7, 4, 2));
    let (g, input, expected) = s.load_data(&[1.0f32, 2.0, 3.0, 4.0, 5.0, 6.0], &[1.0f32, 0.0, 0.0, 1.0], 2, 0.0);
    assert_eq!(g, GlobalCounters { logical_batch_size: 2, physical_batch_size: 4, timestep: 2 });
    assert_eq!(input, vec![1.0, 2.0, 3.0, 0.0, 4.0, 5.0, 6.0, 0.0, 0.0, 0.0, 0.0, 0.0, 0.0, 0.0, 0.0, 0.0]);
    assert_eq!(expected, vec![1.0, 0.0, 0.0, 0.0, 0.0, 1.0, 0.0, 0.0, 0.0, 0.0, 0.0, 0.0, 0.0, 0.0, 0.0, 0.0]);
    assert_eq!((s.next_batch_size, s.cur_batch_size, s.timestep), (2, 3, 1));
}

#[test]
fn train_step_uses_prefetched_step() {
    let shape = MlpShape { input_size: 1, output_size: 1, max_batch_size: 2, h_layer_sizes: vec![] };
    let mut s = MlpState::new(&shape);
    let (g, _, _) = s.load_data(&[7u8], &[1u8], 1, 0);
    s.begin_train();
    assert_eq!(g.timestep, s.timestep);
    assert_eq!(s.cur_batch_size, 1);
    let (g, _, _) = s.load_data(&[7u8, 8], &[1u8, 0], 2, 0);
    s.begin_test();
    assert_eq!((s.cur_batch_size, s.timestep), (2, 2));
    assert_eq!(g.timestep, 3);
}

#[test]
fn test_outputs_read_back_rows() {
    let shape = MlpShape { input_size: 3, output_size: 2, max_batch_size: 3, h_layer_sizes: vec![] };
    let mut s = MlpState::new(&shape);
    let _ = s.load_data(&[0u8; 6], &[0u8; 4], 2, 0);
    s.begin_test();
    let data: Vec<u8> = (0..16).collect();
    let labels: Vec<u8> = (100..116).collect();
    let (out, exp) = s.test_outputs(&data, &labels);
    assert_eq!(out, vec![0, 1, 4, 5]);
    assert_eq!(exp, vec![100, 101, 104, 105]);
}

#[test]
fn layers_chain_and_fit_rows() {
    let shape = MlpShape { input_size: 30, output_size: 7, max_batch_size: 5, h_layer_sizes: vec![41, 3, 18] };
    let s = MlpState::new(&shape);
    assert_eq!(s.max_size, 44);
    assert_eq!(s.layers[0].logical_input_size, 30);
    assert_eq!(s.layers[3].logical_output_size, 7);
    for i in 0..s.layers.len() {
        let l = &s.layers[i];
        assert_eq!(l.is_output, i == s.layers.len() - 1);
        assert!(l.logical_input_size <= l.physical_input_size && l.physical_input_size <= s.max_size);
        assert!(l.logical_output_size <= l.physical_output_size && l.physical_output_size <= s.max_size);
        assert_eq!(l.physical_batch_size, 8);
        if i + 1 < s.layers.len() {
            assert_eq!(l.logical_output_size, s.layers[i + 1].logical_input_size);
        }
    }
    assert_eq!(s.activation_bytes(), 44 * 8 * 4);
    assert_eq!(s.expected_bytes(), 8 * 8 * 4);
}
