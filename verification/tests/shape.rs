use lau_math_wasm::{eigen_input_accepted, is_square_storage, MAX_EIGEN_ORDER};

#[test]
fn square_storage_sizes() {
    assert!(is_square_storage(9, 3));
    assert!(is_square_storage(0, 0));
    assert!(is_square_storage(1, 1));
    assert!(!is_square_storage(8, 3));
    assert!(!is_square_storage(10, 3));
    assert!(!is_square_storage(3, 0));
    assert!(!is_square_storage(6, 2));
}

#[test]
fn square_storage_of_an_order_too_large_to_square() {
    assert!(!is_square_storage(usize::MAX, usize::MAX));
    assert!(!is_square_storage(0, usize::MAX / 2));
}

#[test]
fn eigen_input_bounds() {
    assert_eq!(MAX_EIGEN_ORDER, 8);
    assert!(eigen_input_accepted(4, 2));
    assert!(eigen_input_accepted(64, 8));
    assert!(eigen_input_accepted(1, 1));
    assert!(!eigen_input_accepted(0, 0));
    assert!(!eigen_input_accepted(81, 9));
    assert!(!eigen_input_accepted(5, 2));
}
