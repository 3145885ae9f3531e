use fp_study::exercises::closures::{apply_twice, sort_by_length};

#[test]
fn test_apply_twice_square() {
    let square = |x: i32| x * x;
    // apply_twice(square, 3) = square(square(3)) = square(9) = 81
    assert_eq!(apply_twice(square, 3), 81);
}

#[test]
fn test_apply_twice_add_one() {
    let add_one = |x: i32| x + 1;
    assert_eq!(apply_twice(add_one, 5), 7);
}

#[test]
fn test_sort_by_length() {
    let words = vec![
        "banana".to_string(),
        "fig".to_string(),
        "apple".to_string(),
    ];
    let sorted = sort_by_length(words);
    assert_eq!(sorted[0], "fig");
    assert_eq!(sorted[2], "banana");
}

#[test]
fn test_capture_environment() {
    let multiplier = 3;
    let triple = |x: i32| x * multiplier;
    assert_eq!(triple(4), 12);
    assert_eq!(triple(7), 21);
}

#[test]
fn test_sort_by_length_is_stable_and_counts_bytes() {
    let words = vec!["bb".to_string(), "a".to_string(), "cc".to_string(), "é".to_string(), "d".to_string()];
    let sorted = sort_by_length(words);
    assert_eq!(sorted, vec!["a", "d", "bb", "cc", "é"]);
    assert_eq!(sort_by_length(vec![]), Vec::<String>::new());
}

#[test]
fn test_apply_twice_strings() {
    let exclaim = |s: String| s + "!";
    assert_eq!(apply_twice(exclaim, "hi".to_string()), "hi!!");
}
