use fp_study::exercises::option_and_result::{first_positive, parse_and_add, parse_even, parse_positive, process_input};

#[test]
fn test_parse_even_success() {
    assert_eq!(parse_even("4"), Some(4));
    assert_eq!(parse_even("  8  "), Some(8));
}

#[test]
fn test_parse_even_odd() {
    assert_eq!(parse_even("3"), None);
}

#[test]
fn test_parse_even_invalid() {
    assert_eq!(parse_even("abc"), None);
}

#[test]
fn test_parse_positive_success() {
    assert_eq!(parse_positive("42"), Ok(42));
    assert_eq!(parse_positive("0"), Ok(0));
}

#[test]
fn test_parse_positive_negative() {
    assert!(parse_positive("-5").is_err());
}

#[test]
fn test_parse_positive_invalid() {
    assert!(parse_positive("abc").is_err());
}

#[test]
fn test_parse_and_add_success() {
    assert_eq!(parse_and_add("3", "4"), Ok(7));
}

#[test]
fn test_parse_and_add_failure() {
    assert!(parse_and_add("3", "x").is_err());
}

#[test]
fn test_first_positive() {
    assert_eq!(first_positive(&[-1, -2, 3, 4]), Some(3));
    assert_eq!(first_positive(&[-1, -2, -3]), None);
}

#[test]
fn test_process_input() {
    assert_eq!(process_input("5"), Some("結果: 10".to_string()));
    assert_eq!(process_input("-1"), None);
    assert_eq!(process_input("abc"), None);
}

#[test]
fn test_option_result_messages() {
    assert_eq!(parse_positive(" x "), Err("' x ' は整数ではありません".to_string()));
    assert_eq!(parse_positive(" -7 "), Err("-7 は負の値です".to_string()));
    assert_eq!(parse_even("-6"), Some(-6));
    assert_eq!(process_input(" 21 "), Some("結果: 42".to_string()));
    assert_eq!(process_input("0"), None);
    assert_eq!(first_positive(&[]), None);
    assert_eq!(parse_and_add(" 1", "2 "), Ok(3));
    assert!(parse_and_add("x", "2").is_err());
}
