use fp_study::exercises::pure_functions::{add, fibonacci, to_uppercase};

#[test]
fn test_add() {
    assert_eq!(add(2, 3), 5);
    assert_eq!(add(-1, 1), 0);
    assert_eq!(add(0, 0), 0);
}

#[test]
fn test_to_uppercase() {
    assert_eq!(to_uppercase("hello"), "HELLO");
    assert_eq!(to_uppercase("rust"), "RUST");
}

#[test]
fn test_fibonacci() {
    assert_eq!(fibonacci(0), 0);
    assert_eq!(fibonacci(1), 1);
    assert_eq!(fibonacci(10), 55);
}

#[test]
fn test_referential_transparency() {
    let x = 7;
    let y = 3;
    let first_call = add(x, y);
    let second_call = add(x, y);
    assert_eq!(first_call, second_call);
}

#[test]
fn test_pure_function_edges() {
    assert_eq!(add(i32::MAX, 0), i32::MAX);
    assert_eq!(to_uppercase("straße"), "STRASSE");
    assert_eq!(fibonacci(2), 1);
}
