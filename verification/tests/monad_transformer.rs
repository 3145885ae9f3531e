use fp_study::monad_transformer::{
    add_ten_with_log, double_with_log, get, lookup_and_parse, parse_optional_number,
    parse_positive, put, AppError, State, Writer,
};
use fp_study::numparse::IntErrorKind;

#[test]
fn lib_test_transpose_none() {
    assert_eq!(parse_optional_number(None), Ok(None));
}

#[test]
fn lib_test_transpose_some_ok() {
    assert_eq!(parse_optional_number(Some("42")), Ok(Some(42)));
}

#[test]
fn lib_test_transpose_some_err() {
    assert!(parse_optional_number(Some("abc")).is_err());
}

#[test]
fn test_writer_and_then() {
    let result = Writer::new(5)
        .and_then(double_with_log)
        .and_then(add_ten_with_log);

    assert_eq!(result.value, 20);
    assert_eq!(result.log.len(), 2);
    assert!(result.log[0].contains("2倍"));
    assert!(result.log[1].contains("10を足した"));
}

#[test]
fn test_writer_map() {
    let result = Writer::new(3).tell("start").map(|n| n * 2);
    assert_eq!(result.value, 6);
    assert_eq!(result.log, vec!["start"]);
}

#[test]
fn test_state_get_put() {
    let computation = get::<i32>()
        .and_then(|n| put(n + 1).map(move |_| n));

    let (old_value, new_state) = computation.run_state(10);
    assert_eq!(old_value, 10);
    assert_eq!(new_state, 11);
}

#[test]
fn test_state_sequence() {
    let inc = || {
        get::<i32>().and_then(|n| put(n + 1).map(move |_| n + 1))
    };
    let computation = inc().and_then(move |_| inc()).and_then(move |_| inc());
    let (result, state) = computation.run_state(0);
    assert_eq!(result, 3);
    assert_eq!(state, 3);
}

#[test]
fn test_app_error_integration() {
    let data = vec![("age", "25"), ("score", "-5"), ("missing_key", "abc")];

    assert_eq!(lookup_and_parse(&data, "age"), Ok(25));
    assert!(matches!(
        lookup_and_parse(&data, "score"),
        Err(AppError::Logic(_))
    ));
    assert_eq!(lookup_and_parse(&data, "not_found"), Err(AppError::NotFound));
    assert!(matches!(
        lookup_and_parse(&data, "missing_key"),
        Err(AppError::Parse(_))
    ));
}

#[test]
fn test_parse_optional_number_error_kind() {
    let e = parse_optional_number(Some("")).unwrap_err();
    assert_eq!(e.kind(), IntErrorKind::Empty);
    assert_eq!(parse_optional_number(Some("-7")), Ok(Some(-7)));
}

#[test]
fn test_writer_logs_in_order() {
    let w = Writer::new(1).tell("a").tell("b");
    assert_eq!(w.log, vec!["a", "b"]);
    let d = double_with_log(-4);
    assert_eq!(d.value, -8);
    assert_eq!(d.log, vec!["-4 を2倍にした → -8"]);
    let t = add_ten_with_log(5);
    assert_eq!(t.log, vec!["5 に10を足した → 15"]);
}

#[test]
fn test_writer_and_then_keeps_earlier_log() {
    let w = Writer::new(2).tell("first").and_then(double_with_log);
    assert_eq!(w.value, 4);
    assert_eq!(w.log, vec!["first", "2 を2倍にした → 4"]);
}

#[test]
fn test_state_put_then_get() {
    let c = put(7).and_then(|_| get::<i32>());
    assert_eq!(c.run_state(1), (7, 7));
    let s = State::new(|s: i32| (s * 10, s + 1));
    assert_eq!(s.map(|v| v + 1).run_state(2), (21, 3));
}

#[test]
fn test_parse_positive_messages() {
    assert_eq!(parse_positive("0"), Ok(0));
    assert_eq!(parse_positive("-3"), Err(AppError::Logic("-3 は負の数".to_string())));
    assert_eq!(
        parse_positive("x"),
        Err(AppError::Parse("invalid digit found in string".to_string()))
    );
}

#[test]
fn test_lookup_uses_first_match() {
    let data = [("k", "1"), ("k", "2")];
    assert_eq!(lookup_and_parse(&data, "k"), Ok(1));
    assert_eq!(lookup_and_parse(&[], "k"), Err(AppError::NotFound));
}
