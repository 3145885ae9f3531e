use fp_study::exercises::higher_order_functions::{apply_to_each, compose, fold_left, keep_if, make_adder, make_multiplier};

#[test]
fn test_apply_to_each() {
    let nums = vec![1, 2, 3];
    let doubled = apply_to_each(&nums, |&n| n * 2);
    assert_eq!(doubled, vec![2, 4, 6]);
}

#[test]
fn test_keep_if() {
    let nums = vec![1, 2, 3, 4, 5, 6];
    let evens = keep_if(nums, |&n| n % 2 == 0);
    assert_eq!(evens, vec![2, 4, 6]);
}

#[test]
fn test_fold_left_sum() {
    let nums = vec![1, 2, 3, 4, 5];
    let sum = fold_left(&nums, 0, |acc, &n| acc + n);
    assert_eq!(sum, 15);
}

#[test]
fn test_fold_left_product() {
    let nums = vec![1, 2, 3, 4, 5];
    let product = fold_left(&nums, 1, |acc, &n| acc * n);
    assert_eq!(product, 120);
}

#[test]
fn test_make_adder() {
    let add10 = make_adder(10);
    assert_eq!(add10(5), 15);
    assert_eq!(add10(-3), 7);
}

#[test]
fn test_make_multiplier() {
    let triple = make_multiplier(3);
    assert_eq!(triple(4), 12);
    assert_eq!(triple(0), 0);
}

#[test]
fn test_compose() {
    let add3_then_double = compose(make_adder(3), make_multiplier(2));
    assert_eq!(add3_then_double(4), 14); // (4+3)*2
    assert_eq!(add3_then_double(0), 6);  // (0+3)*2
}

#[test]
fn test_keep_if_keeps_order_and_moves_values() {
    let words = vec!["x".to_string(), "yy".to_string(), "z".to_string()];
    assert_eq!(keep_if(words, |w| w.len() == 1), vec!["x", "z"]);
    assert_eq!(keep_if(Vec::<i32>::new(), |_| true), Vec::<i32>::new());
}

#[test]
fn test_fold_left_order_matters() {
    let digits = [1, 2, 3];
    assert_eq!(fold_left(&digits, 0, |acc, &d| acc * 10 + d), 123);
    let labels = apply_to_each(&digits, |d| d.to_string());
    assert_eq!(labels, vec!["1", "2", "3"]);
}

#[test]
fn test_factories_at_limits() {
    assert_eq!(make_adder(-1)(i32::MIN + 1), i32::MIN);
    assert_eq!(make_multiplier(-1)(i32::MAX), -i32::MAX);
    assert_eq!(compose(make_multiplier(2), make_adder(3))(4), 11);
}
