use fp_study::practice::{parse, tokenize, Expr, Op, Token};

fn num(s: &str) -> Token {
    Token::Number(s.to_string())
}

#[test]
fn test_tokenize_keeps_literal_text() {
    assert_eq!(
        tokenize("1+2-3*4/5").unwrap(),
        vec![num("1"), Token::Plus, num("2"), Token::Minus, num("3"), Token::Star, num("4"), Token::Slash, num("5")]
    );
    assert_eq!(tokenize(" 3.14 *\t2.\n").unwrap(), vec![num("3.14"), Token::Star, num("2.")]);
    assert_eq!(tokenize("").unwrap(), vec![]);
}

#[test]
fn test_tokenize_errors() {
    assert_eq!(tokenize("1 @ 2"), Err("認識できない文字: '@'".to_string()));
    assert_eq!(
        tokenize("1.2.3"),
        Err("数値 \"1.2.3\" のパースに失敗しました: invalid float literal".to_string())
    );
    assert!(tokenize(".").is_err());
    assert_eq!(tokenize(".5").unwrap(), vec![num(".5")]);
}

#[test]
fn test_parse_precedence_and_grouping() {
    let tokens = tokenize("1 + 2 * 3 - 4").unwrap();
    let expected = Expr::BinOp {
        op: Op::Sub,
        lhs: Box::new(Expr::BinOp {
            op: Op::Add,
            lhs: Box::new(Expr::Num("1".to_string())),
            rhs: Box::new(Expr::BinOp {
                op: Op::Mul,
                lhs: Box::new(Expr::Num("2".to_string())),
                rhs: Box::new(Expr::Num("3".to_string())),
            }),
        }),
        rhs: Box::new(Expr::Num("4".to_string())),
    };
    assert_eq!(parse(&tokens).unwrap(), expected);
}

#[test]
fn test_parse_errors() {
    assert_eq!(parse(&[]), Err("トークンが不足しています（数値を期待）".to_string()));
    assert_eq!(parse(&[num("1"), Token::Plus]), Err("トークンが不足しています（数値を期待）".to_string()));
    assert_eq!(
        parse(&[Token::Star]),
        Err("数値トークンを期待しましたが Star が見つかりました".to_string())
    );
    assert_eq!(
        parse(&[num("1"), num("2")]),
        Err("パース後に未処理のトークンが残っています: [Number(\"2\")]".to_string())
    );
}

#[test]
fn test_parse_error_lists_every_leftover_token() {
    assert_eq!(
        parse(&[num("1"), num("2"), Token::Plus, num("3")]),
        Err("パース後に未処理のトークンが残っています: [Number(\"2\"), Plus, Number(\"3\")]".to_string())
    );
}

#[test]
fn test_tokenize_simple_addition() {
    let tokens = tokenize("1 + 2").unwrap();
    assert_eq!(tokens, vec![num("1"), Token::Plus, num("2")]);
}

#[test]
fn test_tokenize_all_operators() {
    let tokens = tokenize("1+2-3*4/5").unwrap();
    assert_eq!(
        tokens,
        vec![
            num("1"),
            Token::Plus,
            num("2"),
            Token::Minus,
            num("3"),
            Token::Star,
            num("4"),
            Token::Slash,
            num("5"),
        ]
    );
}

#[test]
fn test_tokenize_float() {
    let tokens = tokenize("3.14 * 2.0").unwrap();
    assert_eq!(tokens, vec![num("3.14"), Token::Star, num("2.0")]);
}

#[test]
fn test_tokenize_unknown_character() {
    assert!(tokenize("1 @ 2").is_err());
}

#[test]
fn test_expr_clone_is_equal() {
    let e = parse(&tokenize("1 + 2 * 3").unwrap()).unwrap();
    assert_eq!(e.clone(), e);
}
