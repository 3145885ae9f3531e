use fp_study::exercises::iterators::{
    flatten_and_double, process_words, sum_of_squared_evens, Fibonacci,
};

/// Drives the library's generator through the standard iterator adapters.
struct Fibs(Fibonacci);

impl Iterator for Fibs {
    type Item = u64;
    fn next(&mut self) -> Option<u64> {
        assert!(self.0.can_advance(), "attempt to add with overflow");
        self.0.next()
    }
}

#[test]
fn test_fibonacci_iterator() {
    let fibs: Vec<u64> = Fibs(Fibonacci::new()).take(8).collect();
    assert_eq!(fibs, vec![1, 1, 2, 3, 5, 8, 13, 21]);
}

#[test]
fn test_even_fibonacci() {
    let even_fibs: Vec<u64> = Fibs(Fibonacci::new())
        .filter(|n| n % 2 == 0)
        .take(4)
        .collect();
    assert_eq!(even_fibs, vec![2, 8, 34, 144]);
}

#[test]
fn test_fibonacci_default_starts_at_one() {
    let mut f = Fibonacci::default();
    assert_eq!(f.next(), Some(1));
    assert_eq!(f.next(), Some(1));
    assert_eq!(f.next(), Some(2));
}

#[test]
fn test_sum_of_squared_evens() {
    let nums = vec![1, 2, 3, 4, 5];
    // 2^2 + 4^2 = 4 + 16 = 20
    assert_eq!(sum_of_squared_evens(&nums), 20);
}

#[test]
fn test_process_words() {
    let words = vec!["hi", "rust", "fp", "code"];
    let result = process_words(&words);
    assert_eq!(result, vec!["RUST", "CODE"]);
}

#[test]
fn test_flatten_and_double() {
    let nested = vec![vec![1, 2], vec![3, 4]];
    assert_eq!(flatten_and_double(&nested), vec![2, 4, 6, 8]);
}

#[test]
fn test_iterator_exercise_edges() {
    assert_eq!(sum_of_squared_evens(&[-2, 7, 0]), 4);
    assert_eq!(process_words(&["abc", "äbc", "word"]), vec!["ÄBC", "WORD"]);
    assert_eq!(flatten_and_double(&[vec![], vec![-1]]), vec![-2]);
}
