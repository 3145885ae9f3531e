use fp_study::error_handling::{
    check_age, create_user, fetch_and_parse_config, find_double_digit, option_chain, parse_all,
    parse_and_validate, parse_port, parse_valid_only, result_and_then_chain, result_map_chain,
    safe_divide, sum_strings, sum_valid_strings, validate_all, validate_email, validate_password,
    AppError, ServiceError, UserError,
};
use std::collections::HashMap;

#[test]
fn test_option_chain_valid() {
    assert_eq!(option_chain("9"), Some(81));
    assert_eq!(option_chain("  12  "), Some(144)); // 空白込み
}

#[test]
fn test_option_chain_zero_is_filtered() {
    // 0 は filter で除外される
    assert_eq!(option_chain("0"), None);
}

#[test]
fn test_option_chain_out_of_range() {
    // 100 以上は除外
    assert_eq!(option_chain("100"), None);
    assert_eq!(option_chain("999"), None);
}

#[test]
fn test_option_chain_non_numeric() {
    assert_eq!(option_chain("abc"), None);
    assert_eq!(option_chain(""), None);
}

#[test]
fn test_find_double_digit_valid() {
    assert_eq!(find_double_digit(&["42", "ignored"]), Some(84));
    assert_eq!(find_double_digit(&["10"]), Some(20));
    assert_eq!(find_double_digit(&["99"]), Some(198));
}

#[test]
fn test_find_double_digit_single_digit() {
    // 1 桁は 2 桁チェックで除外
    assert_eq!(find_double_digit(&["9"]), None);
    assert_eq!(find_double_digit(&["0"]), None);
}

#[test]
fn test_find_double_digit_empty_slice() {
    assert_eq!(find_double_digit(&[]), None);
}

#[test]
fn test_result_map_chain_ok() {
    assert_eq!(result_map_chain("10"), Ok(20));
    assert_eq!(result_map_chain("-5"), Ok(-10));
}

#[test]
fn test_result_map_chain_err() {
    let r = result_map_chain("xyz");
    assert!(r.is_err());
    assert!(r.unwrap_err().contains("パースエラー"));
}

#[test]
fn test_result_and_then_chain_ok() {
    assert_eq!(result_and_then_chain("42"), Ok(42u32));
}

#[test]
fn test_result_and_then_chain_negative() {
    let r = result_and_then_chain("-1");
    assert!(r.is_err());
}

#[test]
fn test_result_and_then_chain_parse_err() {
    let r = result_and_then_chain("not_a_number");
    assert!(r.is_err());
}

#[test]
fn test_parse_and_validate_ok() {
    assert_eq!(parse_and_validate("42", 0, 100), Ok(42));
}

#[test]
fn test_parse_and_validate_out_of_range() {
    let r = parse_and_validate("200", 0, 100);
    assert_eq!(
        r,
        Err(AppError::OutOfRange {
            value: 200,
            min: 0,
            max: 100
        })
    );
}

#[test]
fn test_parse_and_validate_parse_error() {
    let r = parse_and_validate("abc", 0, 100);
    assert!(matches!(r, Err(AppError::ParseError(_))));
}

#[test]
fn test_safe_divide_ok() {
    assert_eq!(safe_divide("10", "2"), Ok(5));
}

#[test]
fn lib_test_safe_divide_by_zero() {
    assert_eq!(safe_divide("10", "0"), Err(AppError::DivisionByZero));
}

#[test]
fn test_safe_divide_parse_error() {
    let r = safe_divide("abc", "2");
    assert!(matches!(r, Err(AppError::ParseError(_))));
}

#[test]
fn test_fetch_config_ok() {
    let mut config = HashMap::new();
    config.insert("port", "8080");
    assert_eq!(fetch_and_parse_config(&config, "port", 1, 65535), Ok(8080));
}

#[test]
fn test_fetch_config_key_not_found() {
    let config: HashMap<&str, &str> = HashMap::new();
    let r = fetch_and_parse_config(&config, "missing", 1, 65535);
    assert!(matches!(r, Err(AppError::KeyNotFound(_))));
}

#[test]
fn test_fetch_config_out_of_range() {
    let mut config = HashMap::new();
    config.insert("port", "99999");
    let r = fetch_and_parse_config(&config, "port", 1, 65535);
    assert!(matches!(r, Err(AppError::OutOfRange { .. })));
}

#[test]
fn test_app_error_display_division_by_zero() {
    let msg = AppError::DivisionByZero.to_string();
    assert!(msg.contains("0 による除算"));
}

#[test]
fn test_app_error_display_out_of_range() {
    let msg = AppError::OutOfRange {
        value: 200,
        min: 0,
        max: 100,
    }
    .to_string();
    assert!(msg.contains("200"));
    assert!(msg.contains("100"));
}

#[test]
fn test_app_error_display_key_not_found() {
    let msg = AppError::KeyNotFound("timeout".to_string()).to_string();
    assert!(msg.contains("timeout"));
}

#[test]
fn test_ok_or_some() {
    let opt: Option<i32> = Some(42);
    assert_eq!(opt.ok_or("err"), Ok(42));
}

#[test]
fn test_ok_or_none() {
    let opt: Option<i32> = None;
    assert_eq!(opt.ok_or("err"), Err("err"));
}

#[test]
fn test_result_ok_converts_ok() {
    let r: Result<i32, &str> = Ok(42);
    assert_eq!(r.ok(), Some(42));
}

#[test]
fn test_result_ok_converts_err_to_none() {
    let r: Result<i32, &str> = Err("fail");
    assert_eq!(r.ok(), None);
}

#[test]
fn test_transpose_some_ok() {
    let v: Option<Result<i32, &str>> = Some(Ok(42));
    assert_eq!(v.transpose(), Ok(Some(42)));
}

#[test]
fn test_transpose_some_err() {
    let v: Option<Result<i32, &str>> = Some(Err("fail"));
    assert_eq!(v.transpose(), Err("fail"));
}

#[test]
fn test_transpose_none() {
    let v: Option<Result<i32, &str>> = None;
    assert_eq!(v.transpose(), Ok(None));
}

#[test]
fn test_parse_all_ok() {
    assert_eq!(parse_all(&["1", "2", "3"]), Ok(vec![1, 2, 3]));
}

#[test]
fn test_parse_all_with_invalid() {
    assert!(parse_all(&["1", "abc", "3"]).is_err());
}

#[test]
fn test_parse_all_empty() {
    assert_eq!(parse_all(&[]), Ok(vec![]));
}

#[test]
fn test_parse_valid_only() {
    assert_eq!(
        parse_valid_only(&["1", "abc", "3", "xyz", "5"]),
        vec![1, 3, 5]
    );
}

#[test]
fn test_parse_valid_only_all_invalid() {
    assert_eq!(parse_valid_only(&["a", "b", "c"]), Vec::<i32>::new());
}

#[test]
fn test_sum_strings_ok() {
    assert_eq!(sum_strings(&["1", "2", "3"]), Ok(6));
}

#[test]
fn test_sum_strings_err() {
    assert!(sum_strings(&["1", "abc"]).is_err());
}

#[test]
fn test_sum_valid_strings() {
    assert_eq!(sum_valid_strings(&["1", "abc", "3", "xyz", "5"]), 9);
    assert_eq!(sum_valid_strings(&["a", "b"]), 0);
}

#[test]
fn test_validate_all_ok() {
    assert_eq!(validate_all(&["1", "50", "99"], 0, 100), Ok(vec![1, 50, 99]));
}

#[test]
fn test_validate_all_out_of_range() {
    let r = validate_all(&["1", "200", "3"], 0, 100);
    assert!(matches!(r, Err(AppError::OutOfRange { .. })));
}

#[test]
fn test_validate_all_parse_error() {
    let r = validate_all(&["1", "xyz", "3"], 0, 100);
    assert!(matches!(r, Err(AppError::ParseError(_))));
}

#[test]
fn test_validate_email_valid() {
    assert!(validate_email("user@example.com").is_ok());
}

#[test]
fn test_validate_email_invalid() {
    let err = validate_email("not-an-email").unwrap_err();
    assert!(matches!(err, UserError::InvalidEmail { .. }));
    assert!(err.to_string().contains("not-an-email"));
}

#[test]
fn test_validate_password_short() {
    let err = validate_password("abc").unwrap_err();
    assert!(matches!(err, UserError::PasswordTooShort { len: 3, min: 8 }));
}

#[test]
fn test_parse_port_valid() {
    assert_eq!(parse_port("8080").unwrap(), 8080);
}

#[test]
fn test_parse_port_invalid_format() {
    let err = parse_port("abc").unwrap_err();
    assert!(err.to_string().contains("ポート番号は数値"));
}

#[test]
fn test_check_age_negative() {
    assert!(check_age(-1).is_err());
}

#[test]
fn test_check_age_valid() {
    assert!(check_age(25).is_ok());
}

#[test]
fn test_create_user_success() {
    let result = create_user("alice@example.com", "securepass").unwrap();
    assert!(result.contains("alice@example.com"));
}

#[test]
fn test_create_user_invalid_email() {
    let err = create_user("not-email", "securepass").unwrap_err();
    assert!(err.to_string().contains("メールアドレス"));
}

#[test]
fn test_service_error_from_user_error() {
    let user_err = UserError::NotFound(42);
    let svc_err: ServiceError = user_err.into();
    assert!(matches!(svc_err, ServiceError::User(_)));
}
