use fp_study::iterators::{
    chain_slices, demonstrate_infinite_iterators, expensive_products_sorted, fibonacci_under_100,
    filter_evens, flatten_nested, join_with_fold, parallel_filter_positive, parallel_map,
    parallel_pipeline, parallel_sum, process_log_lines, running_sum, skip_leading_zeros,
    square_all, sum_with_fold, take_below_threshold, take_while_le, words_from_sentences,
    zip_names_scores, Counter, Product, fibonacci,
};
use fp_study::recursion::FibIter;
use rayon::iter::{IntoParallelRefIterator, ParallelIterator};

/// Drives the library's `Counter` through the standard iterator adapters.
struct Counting(Counter);

impl Iterator for Counting {
    type Item = u32;
    fn next(&mut self) -> Option<u32> {
        self.0.next()
    }
}

/// Drives the library's `Fibonacci` through the standard iterator adapters.
struct Fibs(FibIter);

impl Iterator for Fibs {
    type Item = u64;
    fn next(&mut self) -> Option<u64> {
        assert!(self.0.can_advance(), "attempt to add with overflow");
        self.0.next()
    }
}

#[test]
fn test_fibonacci_first_ten() {
    let result: Vec<u64> = Fibs(fibonacci()).take(10).collect();
    assert_eq!(result, vec![0, 1, 1, 2, 3, 5, 8, 13, 21, 34]);
}

#[test]
fn test_counter_basic() {
    let v: Vec<u32> = Counting(Counter::new(5)).collect();
    assert_eq!(v, vec![1, 2, 3, 4, 5]);
}

#[test]
fn test_counter_sum() {
    let sum: u32 = Counting(Counter::new(5)).sum();
    assert_eq!(sum, 15);
}

#[test]
fn test_counter_with_map_and_filter() {
    let result: Vec<u32> = Counting(Counter::new(5))
        .filter(|x| x % 2 == 0)
        .map(|x| x * x)
        .collect();
    assert_eq!(result, vec![4, 16]);
}

#[test]
fn test_counter_zip_with_itself() {
    let products: Vec<u32> = Counting(Counter::new(5))
        .zip(Counting(Counter::new(5)).skip(1))
        .map(|(a, b)| a * b)
        .collect();
    assert_eq!(products, vec![2, 6, 12, 20]);
}

#[test]
fn test_counter_empty() {
    let v: Vec<u32> = Counting(Counter::new(0)).collect();
    assert_eq!(v, Vec::<u32>::new());
}

#[test]
fn test_counter_stays_exhausted() {
    let mut c = Counter::new(1);
    assert_eq!(c.next(), Some(1));
    assert_eq!(c.next(), None);
    assert_eq!(c.next(), None);
}

#[test]
fn test_fibonacci_stops_before_overflow() {
    let mut f = fibonacci();
    let mut produced = 0;
    while f.can_advance() {
        f.next();
        produced += 1;
    }
    assert_eq!(produced, 92);
}

#[test]
fn test_square_all() {
    assert_eq!(square_all(&[1, 2, 3, 4, 5]), vec![1, 4, 9, 16, 25]);
    assert_eq!(square_all(&[]), vec![]);
    assert_eq!(square_all(&[-3, 0, 3]), vec![9, 0, 9]);
}

#[test]
fn test_filter_evens() {
    assert_eq!(filter_evens(&[1, 2, 3, 4, 5, 6]), vec![2, 4, 6]);
    assert_eq!(filter_evens(&[1, 3, 5]), vec![]);
    assert_eq!(filter_evens(&[2, 4, 6]), vec![2, 4, 6]);
}

#[test]
fn test_sum_with_fold() {
    assert_eq!(sum_with_fold(&[1, 2, 3, 4, 5]), 15);
    assert_eq!(sum_with_fold(&[]), 0);
    assert_eq!(sum_with_fold(&[-1, 1]), 0);
}

#[test]
fn test_join_with_fold() {
    assert_eq!(join_with_fold(&["Hello", ", ", "world", "!"]), "Hello, world!");
    assert_eq!(join_with_fold(&[]), "");
}

#[test]
fn test_words_from_sentences() {
    let sentences = vec!["hello world", "foo bar baz"];
    assert_eq!(
        words_from_sentences(&sentences),
        vec!["hello", "world", "foo", "bar", "baz"]
    );
}

#[test]
fn test_flatten_nested() {
    let nested = vec![vec![1, 2, 3], vec![4, 5], vec![6]];
    assert_eq!(flatten_nested(nested), vec![1, 2, 3, 4, 5, 6]);

    let empty: Vec<Vec<i32>> = vec![vec![], vec![], vec![]];
    assert_eq!(flatten_nested(empty), vec![]);
}

#[test]
fn test_zip_names_scores() {
    let result = zip_names_scores(&["Alice", "Bob", "Carol"], &[95, 87, 72]);
    assert_eq!(
        result,
        vec![
            ("Alice".to_string(), 95),
            ("Bob".to_string(), 87),
            ("Carol".to_string(), 72),
        ]
    );
}

#[test]
fn test_zip_truncates_to_shorter() {
    // 短い方で打ち切られることを確認
    let result = zip_names_scores(&["Alice", "Bob", "Carol"], &[95, 87]);
    assert_eq!(result.len(), 2);
}

#[test]
fn test_chain_slices() {
    assert_eq!(chain_slices(&[1, 2, 3], &[4, 5, 6]), vec![1, 2, 3, 4, 5, 6]);
    assert_eq!(chain_slices(&[], &[1, 2]), vec![1, 2]);
    assert_eq!(chain_slices(&[1, 2], &[]), vec![1, 2]);
}

#[test]
fn test_fibonacci_under_100() {
    let result = fibonacci_under_100();
    assert_eq!(result, vec![0, 1, 1, 2, 3, 5, 8, 13, 21, 34, 55, 89]);
    assert!(result.iter().all(|&x| x < 100));
}

#[test]
fn test_demonstrate_infinite_iterators() {
    let (repeated, cycled) = demonstrate_infinite_iterators();
    assert_eq!(repeated, vec![42, 42, 42]);
    assert_eq!(cycled, vec![1, 2, 3, 1, 2, 3, 1]);
}

#[test]
fn test_process_log_lines() {
    let log = vec![
        "# コメント行",
        "  error: timeout  ",
        "",
        "warning: retrying",
        "# 別のコメント",
        "info: success",
    ];
    assert_eq!(
        process_log_lines(&log),
        vec!["ERROR: TIMEOUT", "WARNING: RETRYING", "INFO: SUCCESS"]
    );
}

#[test]
fn test_expensive_products_sorted() {
    let products = vec![
        Product { name: "apple".to_string(), price: 200 },
        Product { name: "melon".to_string(), price: 2000 },
        Product { name: "grape".to_string(), price: 1500 },
        Product { name: "banana".to_string(), price: 500 },
    ];
    assert_eq!(
        expensive_products_sorted(&products, 1000),
        vec!["grape", "melon"]
    );
    assert_eq!(expensive_products_sorted(&products, 3000), Vec::<&str>::new());
}

#[test]
fn test_running_sum() {
    assert_eq!(running_sum(&[1, 2, 3, 4, 5]), vec![1, 3, 6, 10, 15]);
    assert_eq!(running_sum(&[10, -3, 5]), vec![10, 7, 12]);
    assert_eq!(running_sum(&[]), vec![]);
}

#[test]
fn test_take_while_le() {
    // 閾値以下が続く間だけ取り出す
    assert_eq!(take_while_le(&[1, 2, 3, 2, 5], 3), vec![1, 2, 3, 2]);
    // 先頭要素がすでに閾値を超えている場合は空
    assert_eq!(take_while_le(&[5, 4, 3], 3), vec![]);
    // すべての要素が閾値以下の場合はそのまま
    assert_eq!(take_while_le(&[1, 2, 3], 10), vec![1, 2, 3]);
}

#[test]
fn test_take_below_threshold() {
    assert_eq!(take_below_threshold(&[1, 3, 5, 7, 2], 6), vec![1, 3, 5]);
    assert_eq!(take_below_threshold(&[10, 20, 30], 5), vec![]);
    assert_eq!(take_below_threshold(&[1, 2, 3], 100), vec![1, 2, 3]);
}

#[test]
fn test_skip_leading_zeros() {
    assert_eq!(skip_leading_zeros(&[0, 0, 1, 2, 0, 3]), vec![1, 2, 0, 3]);
    assert_eq!(skip_leading_zeros(&[0, 0, 0]), vec![]);
    assert_eq!(skip_leading_zeros(&[1, 2, 3]), vec![1, 2, 3]);
}

#[test]
fn test_parallel_map() {
    let data = vec![1i64, 2, 3, 4, 5];
    let mut result = parallel_map(&data);
    result.sort(); // 並列なので順序が変わる可能性がある
    assert_eq!(result, vec![1, 4, 9, 16, 25]);
}

#[test]
fn test_parallel_filter_positive() {
    let data = vec![-3i64, -1, 0, 2, 4, 6];
    let mut result = parallel_filter_positive(&data);
    result.sort();
    assert_eq!(result, vec![2, 4, 6]);
}

#[test]
fn test_parallel_sum() {
    let data: Vec<i64> = (1..=100).collect();
    assert_eq!(parallel_sum(&data), 5050);
}

#[test]
fn test_parallel_pipeline() {
    let data = vec![1i64, 2, 3, 4, 5];
    // map(x*2): [2, 4, 6, 8, 10]
    // filter(>5): [6, 8, 10]
    // sum: 24
    let result = parallel_pipeline(&data, 5);
    assert_eq!(result, 24);
}

#[test]
fn test_parallel_vs_sequential_consistency() {
    let data: Vec<i64> = (1..=1000).collect();
    let sequential: i64 = data.iter().map(|&x| x * x).sum();
    let parallel: i64 = data.par_iter().map(|&x| x * x).sum();
    assert_eq!(sequential, parallel);
}

#[test]
fn test_words_with_mixed_whitespace() {
    let sentences = ["  a\tb\n", "", "c  d", "\u{3000}e"];
    assert_eq!(words_from_sentences(&sentences), vec!["a", "b", "c", "d", "e"]);
}

#[test]
fn test_process_log_lines_keeps_inner_hash_and_blank_lines() {
    let log = ["   ", "x # y", "#", " ok\t"];
    assert_eq!(process_log_lines(&log), vec!["", "X # Y", "OK"]);
}

#[test]
fn test_expensive_products_sorted_ties_and_case() {
    let products = vec![
        Product { name: "b".to_string(), price: 10 },
        Product { name: "B".to_string(), price: 10 },
        Product { name: "a".to_string(), price: 10 },
        Product { name: "ab".to_string(), price: 10 },
        Product { name: "b".to_string(), price: 10 },
        Product { name: "cheap".to_string(), price: 9 },
    ];
    assert_eq!(expensive_products_sorted(&products, 10), vec!["B", "a", "ab", "b", "b"]);
}

#[test]
fn test_fibonacci_under_100_length() {
    assert_eq!(fibonacci_under_100().len(), 12);
}

#[test]
fn test_scans_on_edges() {
    assert_eq!(running_sum(&[i32::MAX, i32::MIN]), vec![i32::MAX, -1]);
    assert_eq!(take_while_le(&[], 0), Vec::<i32>::new());
    assert_eq!(take_below_threshold(&[6], 6), Vec::<i32>::new());
    assert_eq!(skip_leading_zeros(&[]), Vec::<i32>::new());
    assert_eq!(sum_with_fold(&[i32::MAX, -1, 1]), i32::MAX);
}

#[test]
fn test_parallel_keeps_order() {
    let data: Vec<i64> = (-50..50).collect();
    let squares = parallel_map(&data);
    assert_eq!(squares[0], 2500);
    assert_eq!(squares[99], 2401);
    let positives = parallel_filter_positive(&data);
    assert_eq!(positives, (1..50).collect::<Vec<i64>>());
    assert_eq!(parallel_sum(&data), -50);
    assert_eq!(parallel_pipeline(&[-3, 0, 3], -1), 6);
}

#[test]
fn test_demonstrate_infinite_iterators_lengths() {
    let (a, b) = demonstrate_infinite_iterators();
    assert_eq!(a.len() + b.len(), 10);
    assert_eq!(flatten_nested(vec![]), Vec::<i32>::new());
    assert_eq!(chain_slices(&[], &[]), Vec::<i32>::new());
    assert_eq!(zip_names_scores(&[], &[1]), vec![]);
    assert_eq!(square_all(&[46340]), vec![2147395600]);
    assert_eq!(filter_evens(&[-2, -1, 0]), vec![-2, 0]);
    assert_eq!(join_with_fold(&["あ", "い"]), "あい");
}
