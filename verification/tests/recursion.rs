use fp_study::recursion::{factorial_tail, fib_naive, fib_tail, is_even, is_odd, FibIter, Tree};

#[test]
fn test_fib_naive() {
    assert_eq!(fib_naive(0), 0);
    assert_eq!(fib_naive(1), 1);
    assert_eq!(fib_naive(10), 55);
}

#[test]
fn test_fib_tail() {
    assert_eq!(fib_tail(0), 0);
    assert_eq!(fib_tail(1), 1);
    assert_eq!(fib_tail(10), 55);
    assert_eq!(fib_tail(30), 832040);
}

#[test]
fn test_factorial_tail() {
    assert_eq!(factorial_tail(0), 1);
    assert_eq!(factorial_tail(1), 1);
    assert_eq!(factorial_tail(5), 120);
    assert_eq!(factorial_tail(10), 3628800);
}

#[test]
fn test_mutual_recursion() {
    assert!(is_even(4));
    assert!(!is_even(3));
    assert!(is_odd(7));
    assert!(!is_odd(6));
}

#[test]
fn test_tree() {
    let tree = Tree::Node(
        1,
        Box::new(Tree::Node(2, Box::new(Tree::Leaf), Box::new(Tree::Leaf))),
        Box::new(Tree::Leaf),
    );
    assert_eq!(tree.depth(), 2);
    assert_eq!(tree.count(), 2);
}

/// Drives the library's `FibIter` through the standard iterator adapters.
struct Fibs(FibIter);

impl Iterator for Fibs {
    type Item = u64;
    fn next(&mut self) -> Option<u64> {
        assert!(self.0.can_advance(), "attempt to add with overflow");
        self.0.next()
    }
}

#[test]
fn test_fib_iter() {
    let fibs: Vec<u64> = Fibs(FibIter::new()).take(8).collect();
    assert_eq!(fibs, vec![0, 1, 1, 2, 3, 5, 8, 13]);
}

#[test]
fn test_fib_iter_default_and_limit() {
    let mut it = FibIter::default();
    assert_eq!(it.next(), Some(0));
    let mut count = 1;
    while it.can_advance() {
        it.next();
        count += 1;
    }
    assert_eq!(count, 93);
}

#[test]
fn test_fib_tail_matches_naive_up_to_the_limit() {
    assert_eq!(fib_tail(92), 7540113804746346429);
    assert_eq!(fib_naive(20), fib_tail(20));
    assert_eq!(fib_tail(0), 0);
}
