use mnist_mlp::padding::{pad_matrix, unpad_matrix};

#[test]
fn pad_places_matrix_in_corner() {
    // 3 wide, 2 high, padded to 4 x 4
    let m = vec![1, 2, 3, 4, 5, 6];
    let p = pad_matrix(&m, 3, 2, 4, 4, 0);
    assert_eq!(p, vec![1, 2, 3, 0, 4, 5, 6, 0, 0, 0, 0, 0, 0, 0, 0, 0]);
}

#[test]
fn pad_with_floats_and_narrower_grid() {
    // a grid narrower than the matrix keeps only what fits in its rows
    let m = vec![1.0f32, 2.0, 3.0, 4.0];
    let p = pad_matrix(&m, 2, 2, 1, 3, -1.0f32);
    assert_eq!(p, vec![1.0, 3.0, -1.0]);
}

#[test]
fn pad_empty_grid() {
    let m: Vec<u8> = vec![];
    assert_eq!(pad_matrix(&m, 0, 0, 4, 2, 9), vec![9; 8]);
    assert_eq!(pad_matrix(&m, 0, 5, 0, 3, 9), Vec::<u8>::new());
}

#[test]
fn unpad_reads_corner() {
    let p = vec![1, 2, 3, 0, 4, 5, 6, 0, 7, 8, 9, 0];
    assert_eq!(unpad_matrix(&p, 4, 3, 2), vec![1, 2, 3, 4, 5, 6]);
    assert_eq!(unpad_matrix(&p, 4, 2, 3), vec![1, 2, 4, 5, 7, 8]);
    // the last row only needs its first `width` values
    assert_eq!(unpad_matrix(&p[..10], 4, 2, 3), vec![1, 2, 4, 5, 7, 8]);
}

#[test]
fn unpad_undoes_pad() {
    let m: Vec<i32> = (0..15).collect();
    let p = pad_matrix(&m, 5, 3, 8, 4, -7);
    assert_eq!(p.len(), 32);
    assert_eq!(unpad_matrix(&p, 8, 5, 3), m);
}
