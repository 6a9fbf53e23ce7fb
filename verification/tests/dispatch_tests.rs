use mnist_mlp::dispatch::{
    bias_relu_grid, element_count, element_grid, matmul_grid, matmul_transposed_grid, matrix_bytes, softmax_grid,
    update_grid, workgroups, Grid,
};

#[test]
fn workgroups_round_up() {
    assert_eq!(workgroups(0, 16), 0);
    assert_eq!(workgroups(1, 16), 1);
    assert_eq!(workgroups(16, 16), 1);
    assert_eq!(workgroups(17, 16), 2);
    assert_eq!(workgroups(u32::MAX, 256), 16777216);
}

#[test]
fn matrix_grids() {
    assert_eq!(matmul_grid(1024, 10), Grid { x: 1, y: 64, z: 1 });
    assert_eq!(matmul_grid(17, 33), Grid { x: 3, y: 2, z: 1 });
    assert_eq!(matmul_transposed_grid(100, 784), Grid { x: 49, y: 7, z: 1 });
    assert_eq!(bias_relu_grid(3, 129), Grid { x: 9, y: 1, z: 1 });
    assert_eq!(update_grid(784, 10), Grid { x: 1, y: 49, z: 1 });
}

#[test]
fn row_and_element_grids() {
    assert_eq!(softmax_grid(65), Grid { x: 2, y: 1, z: 1 });
    assert_eq!(element_count(1024, 10), 10240);
    assert_eq!(element_grid(10240), Grid { x: 40, y: 1, z: 1 });
    assert_eq!(element_grid(10241), Grid { x: 41, y: 1, z: 1 });
}

#[test]
fn bytes_of_matrices() {
    assert_eq!(matrix_bytes(1024, 784), 1024 * 784 * 4);
    assert_eq!(matrix_bytes(0, 784), 0);
}
