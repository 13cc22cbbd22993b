use lau_math_wasm::{flatten_matrix, matrix_rows, matrix_transpose, symmetric_from_upper};

#[test]
fn test_matrix_transpose() {
    let m = vec![1.0, 2.0, 3.0, 4.0, 5.0, 6.0];
    let t = matrix_transpose(&m, 2, 3);
    assert_eq!(t.len(), 6);
    assert!((t[0] - 1.0f64).abs() < 1e-10);
    assert!((t[1] - 4.0f64).abs() < 1e-10);
    assert!((t[2] - 2.0f64).abs() < 1e-10);
    assert!((t[3] - 5.0f64).abs() < 1e-10);
    assert!((t[4] - 3.0f64).abs() < 1e-10);
    assert!((t[5] - 6.0f64).abs() < 1e-10);
}

#[test]
fn transpose_twice_gives_back_the_matrix() {
    let m: Vec<i64> = vec![1, 2, 3, 4, 5, 6, 7, 8, 9, 10, 11, 12];
    let t = matrix_transpose(&m, 3, 4);
    assert_eq!(t, vec![1, 5, 9, 2, 6, 10, 3, 7, 11, 4, 8, 12]);
    let back = matrix_transpose(&t, 4, 3);
    assert_eq!(back, m);
}

#[test]
fn transpose_ignores_storage_past_the_matrix() {
    let m: Vec<u8> = vec![1, 2, 3, 4, 99, 98];
    assert_eq!(matrix_transpose(&m, 2, 2), vec![1, 3, 2, 4]);
}

#[test]
fn transpose_of_empty_shapes_is_empty() {
    let m: Vec<u8> = vec![1, 2, 3];
    assert!(matrix_transpose(&m, 0, 3).is_empty());
    assert!(matrix_transpose(&m, 3, 0).is_empty());
}

#[test]
fn transpose_of_a_row_is_a_column() {
    let m: Vec<u8> = vec![7, 8, 9];
    assert_eq!(matrix_transpose(&m, 1, 3), vec![7, 8, 9]);
}

#[test]
fn rows_of_a_two_by_three_matrix() {
    let data = vec![1.0, 2.0, 3.0, 4.0, 5.0, 6.0];
    let rows = matrix_rows(&data, 2, 3);
    assert_eq!(rows, vec![vec![1.0, 2.0, 3.0], vec![4.0, 5.0, 6.0]]);
}

#[test]
fn rows_ignore_storage_past_the_matrix() {
    let data: Vec<u8> = vec![1, 2, 3, 4, 5];
    assert_eq!(matrix_rows(&data, 2, 2), vec![vec![1, 2], vec![3, 4]]);
    assert_eq!(matrix_rows(&data, 2, 0), vec![Vec::<u8>::new(), Vec::new()]);
    assert!(matrix_rows(&data, 0, 2).is_empty());
}

#[test]
fn rows_then_flatten_roundtrip() {
    let data = vec![1.0, 2.0, 3.0, 4.0, 5.0, 6.0];
    let rows = matrix_rows(&data, 2, 3);
    let flat = flatten_matrix(&rows);
    assert_eq!(flat.data, data);
    assert_eq!(flat.rows, 2);
    assert_eq!(flat.cols, 3);
}

#[test]
fn flatten_concatenates_ragged_rows() {
    let m: Vec<Vec<i32>> = vec![vec![1], vec![2, 3], vec![]];
    let flat = flatten_matrix(&m);
    assert_eq!(flat.data, vec![1, 2, 3]);
    assert_eq!(flat.rows, 3);
    assert_eq!(flat.cols, 1);
}

#[test]
fn flatten_of_no_rows() {
    let m: Vec<Vec<i32>> = Vec::new();
    let flat = flatten_matrix(&m);
    assert!(flat.data.is_empty());
    assert_eq!(flat.rows, 0);
    assert_eq!(flat.cols, 0);
}

#[test]
fn symmetric_from_upper_three_by_three() {
    let upper: Vec<i32> = vec![1, 2, 3, 4, 5, 6];
    let m = symmetric_from_upper(&upper, 3);
    assert_eq!(m, vec![1, 2, 3, 2, 4, 5, 3, 5, 6]);
}

#[test]
fn symmetric_from_upper_is_symmetric() {
    let upper: Vec<u32> = (0..15).collect();
    let n = 5;
    let m = symmetric_from_upper(&upper, n);
    assert_eq!(m.len(), 25);
    for i in 0..n {
        for j in 0..n {
            assert_eq!(m[i * n + j], m[j * n + i]);
        }
    }
    // every upper-triangle value is used once, row by row
    assert_eq!(m[0], 0);
    assert_eq!(m[4], 4);
    assert_eq!(m[6], 5);
    assert_eq!(m[24], 14);
}

#[test]
fn symmetric_from_upper_small_sizes() {
    let upper: Vec<u8> = vec![9, 8, 7];
    assert!(symmetric_from_upper(&upper, 0).is_empty());
    assert_eq!(symmetric_from_upper(&upper, 1), vec![9]);
    assert_eq!(symmetric_from_upper(&upper, 2), vec![9, 8, 8, 7]);
}
