use fp_study::composition::{
    and_then_parser, char_parser, compose, map_parser, pipe, pipe3, satisfy, Email, EmailError,
    PositiveInt, PositiveIntError, PostId, QueryBuilder, UserId,
};

#[test]
fn test_compose_applies_f_then_g() {
    let add_one = |x: i32| x + 1;
    let double = |x: i32| x * 2;
    // compose(add_one, double)(3) = double(add_one(3)) = double(4) = 8
    let f = compose(add_one, double);
    assert_eq!(f(3), 8);
}

#[test]
fn test_pipe_is_left_to_right() {
    let trim = |s: &str| s.trim().to_string();
    let to_upper = |s: String| s.to_uppercase();
    let normalize = pipe(trim, to_upper);
    assert_eq!(normalize("  hello  "), "HELLO");
}

#[test]
fn test_pipe3_chains_three_functions() {
    let f = |x: i32| x + 1;
    let g = |x: i32| x * 2;
    let h = |x: i32| x - 3;
    // (3+1)*2-3 = 5
    let pipeline = pipe3(f, g, h);
    assert_eq!(pipeline(3), 5);
}

#[test]
fn test_compose_identity_law() {
    // compose(id, f) == f
    let identity = |x: i32| x;
    let double = |x: i32| x * 2;
    let composed = compose(identity, double);
    for n in [0, 1, -5, 100] {
        assert_eq!(composed(n), double(n));
    }
}

#[test]
fn test_query_builder_full() {
    let sql = QueryBuilder::new("users")
        .select("id")
        .select("name")
        .where_clause("age > 18")
        .where_clause("active = true")
        .order_by("name")
        .limit(10)
        .build();
    assert_eq!(
        sql,
        "SELECT id, name FROM users WHERE age > 18 AND active = true ORDER BY name LIMIT 10"
    );
}

#[test]
fn test_query_builder_select_star_when_no_columns() {
    let sql = QueryBuilder::new("products").build();
    assert_eq!(sql, "SELECT * FROM products");
}

#[test]
fn test_query_builder_without_optional_clauses() {
    let sql = QueryBuilder::new("orders").select("order_id").build();
    assert_eq!(sql, "SELECT order_id FROM orders");
}

#[test]
fn test_char_parser_success() {
    let parse_a = char_parser('a');
    assert_eq!(parse_a("abc"), Ok(("bc", 'a')));
}

#[test]
fn test_char_parser_failure_wrong_char() {
    let parse_a = char_parser('a');
    assert!(parse_a("xyz").is_err());
}

#[test]
fn test_char_parser_failure_empty_input() {
    let parse_a = char_parser('a');
    assert!(parse_a("").is_err());
}

#[test]
fn test_satisfy_digit() {
    let digit = satisfy(|c: char| c.is_ascii_digit());
    assert_eq!(digit("123"), Ok(("23", '1')));
    assert!(digit("abc").is_err());
}

#[test]
fn test_and_then_parser_success() {
    let parse_ab = and_then_parser(char_parser('a'), char_parser('b'));
    assert_eq!(parse_ab("abcd"), Ok(("cd", ('a', 'b'))));
}

#[test]
fn test_and_then_parser_fails_on_second() {
    let parse_ab = and_then_parser(char_parser('a'), char_parser('b'));
    // 'a' は成功するが 'x' != 'b' なので失敗
    assert!(parse_ab("axcd").is_err());
}

#[test]
fn test_map_parser_transforms_result() {
    let parse_a_upper = map_parser(char_parser('a'), |c: char| c.to_ascii_uppercase());
    assert_eq!(parse_a_upper("abc"), Ok(("bc", 'A')));
}

#[test]
fn test_user_id_and_post_id_are_distinct_types() {
    let uid = UserId(1);
    let pid = PostId(1);
    // 同じ値でも型が異なるため比較できない (コンパイル時に型チェックされる)
    // ここでは内部値が同じことだけ確認
    assert_eq!(uid.0, pid.0);
    // UserId と PostId は異なる型: uid == pid はコンパイルエラーになる
}

#[test]
fn test_email_valid() {
    let email = Email::new("user@example.com");
    assert!(email.is_ok());
    assert_eq!(email.unwrap().as_str(), "user@example.com");
}

#[test]
fn test_email_empty_is_error() {
    assert_eq!(Email::new(""), Err(EmailError::Empty));
}

#[test]
fn test_email_missing_at_sign_is_error() {
    assert_eq!(Email::new("invalidemail"), Err(EmailError::MissingAtSign));
}

#[test]
fn test_email_missing_domain_is_error() {
    assert_eq!(Email::new("user@"), Err(EmailError::MissingDomain));
}

#[test]
fn test_positive_int_valid() {
    let n = PositiveInt::new(42);
    assert!(n.is_ok());
    assert_eq!(n.unwrap().get(), 42);
}

#[test]
fn test_positive_int_zero_is_error() {
    assert_eq!(PositiveInt::new(0), Err(PositiveIntError::NotPositive));
}

#[test]
fn test_positive_int_negative_is_error() {
    assert_eq!(PositiveInt::new(-10), Err(PositiveIntError::NotPositive));
}

#[test]
fn test_compose_and_newtype_together() {
    // NewType を使ったデータ変換パイプライン
    // UserId(u64) -> u64 -> String の変換を compose で繋ぐ
    let extract_id = |uid: UserId| uid.0;
    let format_id = |id: u64| format!("user:{}", id);
    let display_user = compose(extract_id, format_id);
    assert_eq!(display_user(UserId(99)), "user:99");
}

#[test]
fn test_pipe_all_macro_four_functions() {
    let f = |x: i32| x + 1;
    let g = |x: i32| x * 2;
    let h = |x: i32| x - 3;
    let i = |x: i32| x.to_string();
    // (3+1)*2-3 = 5 -> "5"; the variadic pipeline nests two-function pipes.
    let pipeline = pipe(f, pipe(g, pipe(h, i)));
    assert_eq!(pipeline(3), "5");
}

#[test]
fn test_compose_associative_on_values() {
    let f = |x: i32| x + 1;
    let g = |x: i32| x * 2;
    let h = |x: i32| x - 3;
    let left = compose(compose(f, g), h);
    let right = compose(f, compose(g, h));
    for n in [-4, 0, 3, 10] {
        assert_eq!(left(n), right(n));
    }
}

#[test]
fn test_parser_error_messages() {
    let parse_a = char_parser('a');
    assert_eq!(parse_a("xyz"), Err("expected 'a', got 'x'".to_string()));
    assert_eq!(parse_a(""), Err("expected 'a', got end of input".to_string()));
    let digit = satisfy(|c: char| c.is_ascii_digit());
    assert_eq!(digit("abc"), Err("unexpected char 'a'".to_string()));
    assert_eq!(digit(""), Err("unexpected end of input".to_string()));
}
