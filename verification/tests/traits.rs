use fp_study::traits::{
    flat_map_example, fold_monoid, option_ap, option_lift2, result_ap, result_lift2,
    safe_pipeline, validate_age, validate_name, validate_user_applicative, vec_ap, vec_lift2,
    Maybe, Monoid,
};

#[test]
fn test_functor_fmap_just() {
    let result = Maybe::Just(5).fmap(|x| x * 3);
    assert_eq!(result, Maybe::Just(15));
}

#[test]
fn test_functor_fmap_nothing() {
    let nothing: Maybe<i32> = Maybe::Nothing;
    assert_eq!(nothing.fmap(|x| x * 3), Maybe::Nothing);
}

#[test]
fn test_functor_identity_law() {
    let m = Maybe::Just(42);
    assert_eq!(m.clone().fmap(|x| x), m);
}

#[test]
fn test_functor_composition_law() {
    let m = Maybe::Just(3);
    let f = |x: i32| x + 1;
    let g = |x: i32| x * 2;

    // fmap(g ∘ f)
    let composed = m.clone().fmap(|x| g(f(x)));
    // fmap(g) ∘ fmap(f)
    let chained = m.fmap(f).fmap(g);

    assert_eq!(composed, chained); // Just(8)
}

#[test]
fn test_functor_type_change() {
    let result = Maybe::Just(42).fmap(|x| format!("value={}", x));
    assert_eq!(result, Maybe::Just("value=42".to_string()));
}

#[test]
fn test_monad_bind_just() {
    let result = Maybe::Just(10).bind(|x| Maybe::Just(x + 5));
    assert_eq!(result, Maybe::Just(15));
}

#[test]
fn test_monad_bind_nothing_propagation() {
    let nothing: Maybe<i32> = Maybe::Nothing;
    let result = nothing.bind(|x| Maybe::Just(x + 5));
    assert_eq!(result, Maybe::Nothing);
}

#[test]
fn test_monad_bind_chain_short_circuit() {
    let result = Maybe::Just(10)
        .bind(|x| if x > 5 { Maybe::Just(x * 2) } else { Maybe::Nothing })
        .bind(|x| Maybe::Just(x + 1))
        .bind(|x| if x > 100 { Maybe::Just(x) } else { Maybe::Nothing });

    // 10 > 5 なので Just(20) -> Just(21) -> 21 <= 100 なので Nothing
    assert_eq!(result, Maybe::Nothing);
}

#[test]
fn test_monad_left_identity_law() {
    let a = 7;
    let f = |x: i32| Maybe::Just(x * x);

    assert_eq!(Maybe::wrap(a).bind(f), f(a));
}

#[test]
fn test_monad_right_identity_law() {
    let m = Maybe::Just(99);
    assert_eq!(m.clone().bind(Maybe::wrap), m);
}

#[test]
fn test_safe_pipeline_success() {
    // 100 / 50 = 2 -> 2 は偶数 -> 2 / 2 = 1 -> Just(1)
    assert_eq!(safe_pipeline(50), Maybe::Just(1));
}

#[test]
fn test_safe_pipeline_zero_division() {
    assert_eq!(safe_pipeline(0), Maybe::Nothing);
}

#[test]
fn test_safe_pipeline_odd_failure() {
    // 100 / 3 = 33 -> 33 は奇数なので Nothing
    assert_eq!(safe_pipeline(3), Maybe::Nothing);
}

#[test]
fn test_monoid_i32_empty() {
    assert_eq!(i32::empty(), 0);
}

#[test]
fn test_monoid_i32_combine() {
    assert_eq!(3_i32.combine(4), 7);
    assert_eq!(0_i32.combine(42), 42); // 左単位元則
    assert_eq!(42_i32.combine(0), 42); // 右単位元則
}

#[test]
fn test_monoid_string_empty() {
    assert_eq!(String::empty(), "");
}

#[test]
fn test_monoid_string_combine() {
    let s = "Hello".to_string().combine(", World".to_string());
    assert_eq!(s, "Hello, World");
}

#[test]
fn test_monoid_i32_associativity() {
    let x = 1_i32;
    let y = 2_i32;
    let z = 3_i32;
    // (x + y) + z == x + (y + z)
    assert_eq!(x.combine(y).combine(z), x.combine(y.combine(z)));
}

#[test]
fn test_fold_monoid_i32_sum() {
    let result = fold_monoid(vec![1, 2, 3, 4, 5].into_iter());
    assert_eq!(result, 15_i32);
}

#[test]
fn test_fold_monoid_empty_iterator() {
    let result: i32 = fold_monoid(std::iter::empty());
    assert_eq!(result, 0);
}

#[test]
fn test_fold_monoid_string_concat() {
    let words = vec![
        "Rust".to_string(),
        " is".to_string(),
        " great".to_string(),
    ];
    let result = fold_monoid(words.into_iter());
    assert_eq!(result, "Rust is great");
}

#[test]
fn test_flat_map_list_monad() {
    let result = flat_map_example(&[1, 2, 3], |x| vec![x, x * 10]);
    assert_eq!(result, vec![1, 10, 2, 20, 3, 30]);
}

#[test]
fn test_flat_map_empty() {
    let result = flat_map_example(&[], |x: i32| vec![x]);
    assert_eq!(result, Vec::<i32>::new());
}

#[test]
fn test_flat_map_returns_empty_vecs() {
    let result = flat_map_example(&[1, 2, 3], |_x: i32| Vec::<i32>::new());
    assert_eq!(result, Vec::<i32>::new());
}

#[test]
fn test_flat_map_range_expansion() {
    let result = flat_map_example(&[1, 2, 3], |x| (1..=x).collect::<Vec<_>>());
    // [1] ++ [1,2] ++ [1,2,3] = [1, 1, 2, 1, 2, 3]
    assert_eq!(result, vec![1, 1, 2, 1, 2, 3]);
}

#[test]
fn test_option_ap_both_some() {
    let f: Option<fn(i32) -> i32> = Some(|x| x * 2);
    assert_eq!(option_ap(f, Some(5)), Some(10));
}

#[test]
fn test_option_ap_none_function() {
    let f: Option<fn(i32) -> i32> = None;
    assert_eq!(option_ap(f, Some(5)), None);
}

#[test]
fn test_option_ap_none_value() {
    let f: Option<fn(i32) -> i32> = Some(|x| x * 2);
    assert_eq!(option_ap(f, None), None);
}

#[test]
fn test_option_lift2() {
    assert_eq!(option_lift2(|a, b| a + b, Some(3), Some(4)), Some(7));
    assert_eq!(option_lift2(|a, b: i32| a + b, Some(3), None), None);
    assert_eq!(option_lift2(|a: i32, b| a + b, None, Some(4)), None);
}

#[test]
fn test_result_ap_both_ok() {
    let f: Result<fn(i32) -> i32, &str> = Ok(|x| x * 3);
    assert_eq!(result_ap(f, Ok(5)), Ok(15));
}

#[test]
fn test_result_ap_err() {
    let f: Result<fn(i32) -> i32, &str> = Err("no function");
    assert_eq!(result_ap(f, Ok(5)), Err("no function"));
}

#[test]
fn test_result_lift2() {
    let result: Result<i32, &str> = result_lift2(|a, b| a + b, Ok(3), Ok(4));
    assert_eq!(result, Ok(7));

    let result: Result<i32, &str> = result_lift2(|a: i32, b: i32| a + b, Ok(3), Err("oops"));
    assert_eq!(result, Err("oops"));
}

#[test]
fn test_vec_ap() {
    let fs: Vec<fn(i32) -> i32> = vec![|x| x + 1, |x| x * 2];
    let result = vec_ap(&fs, &[10, 20]);
    // [10+1, 20+1, 10*2, 20*2] = [11, 21, 20, 40]
    assert_eq!(result, vec![11, 21, 20, 40]);
}

#[test]
fn test_vec_lift2() {
    let result = vec_lift2(|a, b| a + b, &[1, 2], &[10, 20]);
    // [1+10, 1+20, 2+10, 2+20] = [11, 21, 12, 22]
    assert_eq!(result, vec![11, 21, 12, 22]);
}

#[test]
fn test_validate_user_all_ok() {
    let result = validate_user_applicative(
        Ok("Alice".to_string()),
        Ok("alice@example.com".to_string()),
        Ok(30),
    );
    assert!(result.is_ok());
}

#[test]
fn test_validate_user_name_err() {
    let result = validate_user_applicative(
        Err("名前が空です".to_string()),
        Ok("alice@example.com".to_string()),
        Ok(30),
    );
    assert_eq!(result, Err("名前が空です".to_string()));
}

#[test]
fn test_validate_name_ok() {
    assert_eq!(validate_name("Alice"), Ok("Alice".to_string()));
}

#[test]
fn test_validate_name_empty() {
    assert!(validate_name("").is_err());
}

#[test]
fn test_validate_age_ok() {
    assert_eq!(validate_age(30), Ok(30));
    assert_eq!(validate_age(0), Ok(0));
    assert_eq!(validate_age(150), Ok(150));
}

#[test]
fn test_validate_age_out_of_range() {
    assert!(validate_age(-1).is_err());
    assert!(validate_age(151).is_err());
}

#[test]
fn test_lift2_with_validators() {
    // Applicative スタイル: 独立した2つのバリデーションを組み合わせる
    let result = result_lift2(
        |name, age| format!("{} ({}歳)", name, age),
        validate_name("Alice"),
        validate_age(30),
    );
    assert_eq!(result, Ok("Alice (30歳)".to_string()));

    let fail = result_lift2(
        |name, age| format!("{} ({}歳)", name, age),
        validate_name(""),
        validate_age(30),
    );
    assert!(fail.is_err());
}

#[test]
fn test_applicative_vs_monad_independence() {
    // Applicative: 両方を評価する（first が None でも second を評価）
    // liftA2 は両引数とも評価済みの値を受け取る
    let a: Option<i32> = None;
    let b: Option<i32> = Some(5);
    assert_eq!(option_lift2(|x, y| x + y, a, b), None);

    // 標準の zip も同様（Applicative の特殊ケース）
    assert_eq!(Some(3_i32).zip(Some("hello")), Some((3, "hello")));
    assert_eq!(None::<i32>.zip(Some("hello")), None);
}

#[test]
fn test_monad_associativity_on_values() {
    let f = |x: i32| if x > 0 { Maybe::Just(x * 2) } else { Maybe::Nothing };
    let g = |x: i32| if x < 100 { Maybe::Just(x + 1) } else { Maybe::Nothing };
    for m in [Maybe::Just(5), Maybe::Just(-1), Maybe::Just(60), Maybe::Nothing] {
        let left = m.clone().bind(f).bind(g);
        let right = m.bind(|x| f(x).bind(g));
        assert_eq!(left, right);
    }
}
