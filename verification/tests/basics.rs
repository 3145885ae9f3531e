use fp_study::basics::{
    add, calculate_final_price, double_all, factorial, filter_palindromes, greet, is_palindrome,
    square, sum_evens_functional, sum_evens_imperative, sum_of_squares_functional,
    sum_of_squares_imperative, Order,
};

#[test]
fn test_add_pure() {
    // 同じ引数には常に同じ値を返す
    assert_eq!(add(2, 3), 5);
    assert_eq!(add(2, 3), 5); // 何度呼んでも同じ
    assert_eq!(add(-1, 1), 0);
    assert_eq!(add(0, 0), 0);
}

#[test]
fn test_double_all_pure() {
    let original = vec![1, 2, 3];
    let doubled = double_all(&original);
    assert_eq!(doubled, vec![2, 4, 6]);
    // 元のベクタは変更されていない
    assert_eq!(original, vec![1, 2, 3]);
}

#[test]
fn test_factorial_pure() {
    assert_eq!(factorial(0), 1);
    assert_eq!(factorial(1), 1);
    assert_eq!(factorial(5), 120);
    assert_eq!(factorial(10), 3_628_800);
}

#[test]
fn test_square_referential_transparency() {
    // square(5) を 25 に置き換えても結果は変わらない
    let via_function = square(5) + square(5);
    let via_value = 25 + 25;
    assert_eq!(via_function, via_value);
}

#[test]
fn test_greet_referential_transparency() {
    // 同じ引数には常に同じ文字列を返す
    assert_eq!(greet("Alice", 1000), "[1000] Hello, Alice!");
    assert_eq!(greet("Alice", 1000), "[1000] Hello, Alice!");
    assert_eq!(greet("Bob", 2000), "[2000] Hello, Bob!");
}

#[test]
fn test_is_palindrome_pure() {
    assert!(is_palindrome("level"));
    assert!(is_palindrome("radar"));
    assert!(is_palindrome("civic"));
    assert!(is_palindrome("a"));
    assert!(is_palindrome(""));
    assert!(!is_palindrome("hello"));
    assert!(!is_palindrome("world"));
}

#[test]
fn test_filter_palindromes_pure() {
    let words = vec!["level", "hello", "radar", "world", "civic"];
    let result = filter_palindromes(&words);
    assert_eq!(result, vec!["level", "radar", "civic"]);
}

#[test]
fn test_filter_palindromes_empty() {
    let words: Vec<&str> = vec![];
    assert_eq!(filter_palindromes(&words), Vec::<&str>::new());
}

#[test]
fn test_sum_evens_equivalence() {
    let numbers: Vec<i32> = (1..=10).collect();
    assert_eq!(
        sum_evens_imperative(&numbers),
        sum_evens_functional(&numbers)
    );
    assert_eq!(sum_evens_functional(&numbers), 30);
}

#[test]
fn test_sum_of_squares_equivalence() {
    let numbers = vec![1, 2, 3, 4, 5];
    assert_eq!(
        sum_of_squares_imperative(&numbers),
        sum_of_squares_functional(&numbers)
    );
    // 1^2 + 2^2 + 3^2 + 4^2 + 5^2 = 1 + 4 + 9 + 16 + 25 = 55
    assert_eq!(sum_of_squares_functional(&numbers), 55);
}

#[test]
fn test_sum_evens_empty() {
    let empty: Vec<i32> = vec![];
    assert_eq!(sum_evens_imperative(&empty), 0);
    assert_eq!(sum_evens_functional(&empty), 0);
}

#[test]
fn test_sum_of_squares_single_element() {
    let numbers = vec![7];
    assert_eq!(sum_of_squares_imperative(&numbers), 49);
    assert_eq!(sum_of_squares_functional(&numbers), 49);
}
