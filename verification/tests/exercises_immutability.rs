use fp_study::exercises::immutability::{append, double_all};

#[test]
fn test_double_all_does_not_mutate_original() {
    let numbers = vec![1, 2, 3];
    let _doubled = double_all(&numbers);
    // 元のVecが変化していないことを確認
    assert_eq!(numbers, vec![1, 2, 3]);
}

#[test]
fn test_double_all() {
    assert_eq!(double_all(&[1, 2, 3]), vec![2, 4, 6]);
    assert_eq!(double_all(&[]), Vec::<i32>::new());
}

#[test]
fn test_append() {
    let original = vec![1, 2, 3];
    let extended = append(&original, 4);
    assert_eq!(extended, vec![1, 2, 3, 4]);
    // 元のVecが変化していないことを確認
    assert_eq!(original, vec![1, 2, 3]);
}

#[test]
fn test_append_to_empty_and_double_negative() {
    assert_eq!(append(&[], 9), vec![9]);
    assert_eq!(double_all(&[-4, 0]), vec![-8, 0]);
}
