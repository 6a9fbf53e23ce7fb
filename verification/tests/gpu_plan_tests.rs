use mnist_mlp::dispatch::Grid;
use mnist_mlp::gpu_plan::{backward_plan, forward_plan, ForwardStep, SoftmaxStep};
use mnist_mlp::shape::layer_chain;

#[test]
fn forward_pass_plan() {
    let layers = layer_chain(784, &vec![100], 10);
    let (steps, softmax) = forward_plan(&layers, 32);
    assert_eq!(steps.len(), 2);
    assert_eq!(
        steps[0],
        ForwardStep {
            a_rows: 32,
            a_cols: 784,
            b_cols: 100,
            input_bytes: 32 * 784 * 4,
            output_bytes: 32 * 100 * 4,
            matmul: Grid { x: 7, y: 2, z: 1 },
            bias_relu: Some(Grid { x: 7, y: 2, z: 1 }),
        }
    );
    // the output layer gets no bias-and-activation kernel
    assert_eq!(steps[1].bias_relu, None);
    assert_eq!(steps[1].matmul, Grid { x: 1, y: 2, z: 1 });
    assert_eq!(softmax, SoftmaxStep { rows: 32, cols: 10, grid: Grid { x: 1, y: 1, z: 1 } });
}

#[test]
fn backward_pass_plan_runs_from_last_layer() {
    let layers = layer_chain(784, &vec![100, 50], 10);
    let (error, steps) = backward_plan(&layers, 64);
    assert_eq!(error.size, 640);
    assert_eq!(error.grid, Grid { x: 3, y: 1, z: 1 });
    assert_eq!(steps.len(), 3);
    assert!(steps[0].is_output);
    assert_eq!((steps[0].input_nodes, steps[0].output_nodes), (50, 10));
    assert_eq!((steps[2].input_nodes, steps[2].output_nodes), (784, 100));
    assert_eq!(steps[2].delta_size, 6400);
    assert_eq!(steps[2].delta_grid, Grid { x: 25, y: 1, z: 1 });
    assert_eq!(steps[2].update_grid, Grid { x: 7, y: 49, z: 1 });
    assert_eq!(steps[2].error_bytes, 64 * 784 * 4);
    assert_eq!(
        (steps[2].transposed_a_rows, steps[2].transposed_a_cols, steps[2].transposed_b_rows),
        (64, 100, 784)
    );
    assert_eq!(steps[2].transposed_grid, Grid { x: 49, y: 4, z: 1 });
}
