use fp_study::closures::{
    add, apply_closure, apply_fn_ptr, apply_n_times, apply_twice, call_once, choose_transform,
    compose, make_offset_adder, map_fn, map_fn_mut, Memoize,
};
use std::collections::HashMap;

#[test]
fn test_make_offset_adder() {
    let add7 = make_offset_adder(7);
    assert_eq!(add7(0), 7);
    assert_eq!(add7(3), 10);
    assert_eq!(add7(-5), 2);
}

#[test]
fn test_map_fn_with_pure_closure() {
    let result = map_fn(&[1, 2, 3, 4], |x| x * x);
    assert_eq!(result, vec![1, 4, 9, 16]);
}

#[test]
fn test_map_fn_mut_with_stateful_closure() {
    // 呼び出しごとに +1 ずつ加算量が増える
    let mut bonus = 0_i32;
    let result = map_fn_mut(&[10, 20, 30], |x| {
        bonus += 1;
        x + bonus
    });
    assert_eq!(result, vec![11, 22, 33]);
}

#[test]
fn test_call_once_consumes_owned_value() {
    let data = String::from("Rust");
    let result = call_once(move || format!("Hello, {}!", data));
    assert_eq!(result, "Hello, Rust!");
}

#[test]
fn test_compose_applies_g_before_f() {
    let double = |x: i32| x * 2;
    let add_one = |x: i32| x + 1;
    let double_then_add = compose(add_one, double);
    assert_eq!(double_then_add(5), 11); // (5*2) + 1
}

#[test]
fn test_compose_associativity() {
    // (f ∘ g) ∘ h  ==  f ∘ (g ∘ h) を確認
    let triple = |x: i32| x * 3;
    let add_two = |x: i32| x + 2;
    let square = |x: i32| x * x;

    let f_g = compose(add_two, triple); // x*3 + 2
    let composed1 = compose(f_g, square); // (x^2)*3 + 2

    let g_h = compose(triple, square); // x^2 * 3
    let composed2 = compose(add_two, g_h); // x^2 * 3 + 2

    assert_eq!(composed1(4), composed2(4)); // (16*3)+2 = 50
}

#[test]
fn test_choose_transform_negate() {
    let negate = choose_transform(true);
    assert_eq!(negate(10), -10);
    assert_eq!(negate(-5), 5);
}

#[test]
fn test_choose_transform_identity() {
    let identity = choose_transform(false);
    assert_eq!(identity(42), 42);
    assert_eq!(identity(-7), -7);
}

#[test]
fn test_apply_fn_ptr_with_named_fn() {
    fn triple(x: i32) -> i32 {
        x * 3
    }
    assert_eq!(apply_fn_ptr(triple, 4), 12);
}

#[test]
fn test_apply_fn_ptr_with_non_capturing_closure() {
    // 環境をキャプチャしないクロージャは fn 型に強制変換される
    assert_eq!(apply_fn_ptr(|x| x - 1, 10), 9);
}

#[test]
fn test_apply_closure_with_capturing_closure() {
    let offset = 100;
    // offset をキャプチャするクロージャは fn 型に渡せないが、impl Fn には渡せる
    let result = apply_closure(|x| x + offset, 5);
    assert_eq!(result, 105);
}

#[test]
fn test_add_curried() {
    let add10 = add(10);
    assert_eq!(add10(0), 10);
    assert_eq!(add10(5), 15);
    assert_eq!(add10(-3), 7);
}

#[test]
fn test_add_immediate_application() {
    assert_eq!(add(3)(4), 7);
    assert_eq!(add(0)(99), 99);
}

#[test]
fn test_apply_twice_integer() {
    let double = |x: i32| x * 2;
    assert_eq!(apply_twice(double, 1), 4);   // 1→2→4
    assert_eq!(apply_twice(double, 3), 12);  // 3→6→12
}

#[test]
fn test_apply_twice_string() {
    let exclaim = |s: String| format!("{}!", s);
    assert_eq!(apply_twice(exclaim, String::from("Hi")), "Hi!!");
}

#[test]
fn test_apply_n_times_zero() {
    let add_one = |x: i32| x + 1;
    assert_eq!(apply_n_times(add_one, 0, 42), 42); // 0回なので変わらない
}

#[test]
fn test_apply_n_times_power_of_two() {
    let double = |x: i32| x * 2;
    assert_eq!(apply_n_times(double, 4, 1), 16); // 1→2→4→8→16
}

#[test]
fn test_apply_n_times_equals_apply_twice_for_n2() {
    let add3 = |x: i32| x + 3;
    let x = 10;
    // apply_twice と apply_n_times(f, 2, x) は同じ結果になるはず
    assert_eq!(apply_n_times(add3, 2, x), apply_twice(add3, x));
}

#[test]
fn test_curried_add_with_apply_n_times() {
    // add(5) で作った関数を3回適用: 0 → 5 → 10 → 15
    let add5 = add(5);
    assert_eq!(apply_n_times(add5, 3, 0), 15);
}

#[test]
fn test_compose_used_in_map() {
    let double = |x: i32| x * 2;
    let add_one = |x: i32| x + 1;
    let transform = compose(add_one, double);

    let result = map_fn(&[1, 2, 3], transform);
    assert_eq!(result, vec![3, 5, 7]); // [1*2+1, 2*2+1, 3*2+1]
}

#[test]
fn test_memoize_fib() {
    // メモ化を使ったフィボナッチ（反復版）
    fn fib_memo(n: u32) -> u64 {
        let mut memo: HashMap<u32, u64> = HashMap::new();
        fn fib_inner(n: u32, memo: &mut HashMap<u32, u64>) -> u64 {
            if n <= 1 { return n as u64; }
            if let Some(&v) = memo.get(&n) { return v; }
            let result = fib_inner(n - 1, memo) + fib_inner(n - 2, memo);
            memo.insert(n, result);
            result
        }
        fib_inner(n, &mut memo)
    }

    assert_eq!(fib_memo(10), 55);
    assert_eq!(fib_memo(30), 832040);
}

#[test]
fn test_memoize_caches_results() {
    let mut memo = Memoize::new(|x: i32| x * x);

    assert_eq!(memo.call(5), 25);
    assert_eq!(memo.cache_size(), 1);

    assert_eq!(memo.call(5), 25);
    assert_eq!(memo.cache_size(), 1);

    assert_eq!(memo.call(6), 36);
    assert_eq!(memo.cache_size(), 2);
}
