use lau_math_wasm::{augment_with_identity, identity_matrix, matrix_diagonal, right_block, swap_rows};

#[test]
fn identity_of_size_three() {
    let eye = identity_matrix(3, 0.0, 1.0);
    assert_eq!(eye, vec![1.0, 0.0, 0.0, 0.0, 1.0, 0.0, 0.0, 0.0, 1.0]);
    assert!(identity_matrix(0, 0u8, 1u8).is_empty());
}

#[test]
fn diagonal_of_a_diagonal_matrix() {
    let m = vec![3.0, 0.0, 0.0, 0.0, 5.0, 0.0, 0.0, 0.0, 7.0];
    assert_eq!(matrix_diagonal(&m, 3), vec![3.0, 5.0, 7.0]);
}

#[test]
fn diagonal_of_identity_is_all_ones() {
    let eye = identity_matrix(4, 0i32, 1i32);
    assert_eq!(matrix_diagonal(&eye, 4), vec![1, 1, 1, 1]);
}

#[test]
fn augment_two_by_two() {
    let m = vec![4.0, 3.0, 3.0, 2.0];
    let aug = augment_with_identity(&m, 2, 0.0, 1.0);
    assert_eq!(aug, vec![4.0, 3.0, 1.0, 0.0, 3.0, 2.0, 0.0, 1.0]);
}

#[test]
fn right_block_of_fresh_augmentation_is_identity() {
    let m: Vec<i32> = vec![1, 2, 3, 4, 5, 6, 7, 8, 9];
    let aug = augment_with_identity(&m, 3, 0, 1);
    assert_eq!(right_block(&aug, 3), identity_matrix(3, 0, 1));
}

#[test]
fn right_block_picks_the_right_half() {
    let aug: Vec<i32> = vec![1, 2, 3, 4, 5, 6, 7, 8];
    assert_eq!(right_block(&aug, 2), vec![3, 4, 7, 8]);
}

#[test]
fn swap_two_rows() {
    let mut m: Vec<i32> = vec![1, 2, 3, 4, 5, 6, 7, 8, 9];
    swap_rows(&mut m, 3, 0, 2);
    assert_eq!(m, vec![7, 8, 9, 4, 5, 6, 1, 2, 3]);
}

#[test]
fn swap_rows_twice_restores() {
    let start: Vec<i32> = vec![1, 2, 3, 4, 5, 6, 7, 8];
    let mut m = start.clone();
    swap_rows(&mut m, 4, 1, 0);
    assert_eq!(m, vec![5, 6, 7, 8, 1, 2, 3, 4]);
    swap_rows(&mut m, 4, 1, 0);
    assert_eq!(m, start);
}

#[test]
fn swap_a_row_with_itself_changes_nothing() {
    let mut m: Vec<i32> = vec![1, 2, 3, 4];
    swap_rows(&mut m, 2, 1, 1);
    assert_eq!(m, vec![1, 2, 3, 4]);
}
