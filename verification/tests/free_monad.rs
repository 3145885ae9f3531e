use fp_study::free_monad::{
    delete, get, run_in_memory, run_with_log, transfer_value, Program, ProgramExt, Pure,
};
use std::collections::HashMap;

#[test]
fn test_get_existing_key() {
    let mut store = HashMap::new();
    store.insert("key".to_string(), "value".to_string());
    let result = run_in_memory(get("key"), &mut store);
    assert_eq!(result, Some("value".to_string()));
}

#[test]
fn test_get_missing_key() {
    let mut store = HashMap::new();
    let result = run_in_memory(get("missing"), &mut store);
    assert_eq!(result, None);
}

#[test]
fn test_set_and_get() {
    let mut store = HashMap::new();
    let prog = fp_study::free_monad::set("k", "v").and_then(|_| get("k"));
    let result = run_in_memory(prog, &mut store);
    assert_eq!(result, Some("v".to_string()));
}

#[test]
fn test_transfer_success() {
    let mut store = HashMap::new();
    store.insert("from".to_string(), "hello".to_string());

    let result = run_in_memory(transfer_value("from", "to"), &mut store);

    assert_eq!(result, true);
    assert_eq!(store.get("to"), Some(&"hello".to_string()));
    assert_eq!(store.get("from"), None);
}

#[test]
fn test_transfer_missing_source() {
    let mut store = HashMap::new();
    let result = run_in_memory(transfer_value("from", "to"), &mut store);
    assert_eq!(result, false);
    assert!(store.is_empty());
}

#[test]
fn test_run_with_log_records_operations() {
    let mut store = HashMap::new();
    store.insert("from".to_string(), "data".to_string());
    let mut log = Vec::new();

    run_with_log(transfer_value("from", "to"), &mut store, &mut log);

    assert_eq!(log.len(), 3);
    assert!(log[0].contains("GET from"));
    assert!(log[1].contains("SET to"));
    assert!(log[2].contains("DELETE from"));
}

#[test]
fn test_same_result_with_different_interpreters() {
    let mut store1 = HashMap::new();
    store1.insert("x".to_string(), "42".to_string());
    let mut store2 = store1.clone();
    let mut log = Vec::new();

    let result1 = run_in_memory(transfer_value("x", "y"), &mut store1);
    let result2 = run_with_log(transfer_value("x", "y"), &mut store2, &mut log);

    // 同じプログラムを異なるインタープリタで実行しても同じ結果
    assert_eq!(result1, result2);
    assert_eq!(store1, store2);
}

#[test]
fn test_program_is_pure_data() {
    // プログラムを構築してもストアは変化しない
    let mut store = HashMap::new();
    store.insert("k".to_string(), "v".to_string());

    // プログラムを構築するだけ（実行しない）
    let _prog = fp_study::free_monad::set("k", "changed").and_then(|_| get("k"));

    // ストアは変化していない
    assert_eq!(store.get("k"), Some(&"v".to_string()));
}

#[test]
fn test_run_with_log_exact_lines() {
    let mut store = HashMap::new();
    store.insert("a".to_string(), "x\"y".to_string());
    let mut log = Vec::new();
    let found = run_with_log(get("a").and_then(|v| get("b").map(move |w| (v, w))), &mut store, &mut log);
    assert_eq!(found, (Some("x\"y".to_string()), None));
    assert_eq!(log, vec!["GET a → Some(\"x\\\"y\")", "GET b → None"]);
    run_with_log(fp_study::free_monad::set("k", "v").followed_by(delete("k")), &mut store, &mut log);
    assert_eq!(log[2], "SET k = v");
    assert_eq!(log[3], "DELETE k");
    assert_eq!(store.get("k"), None);
}

#[test]
fn test_transfer_to_same_key_removes_it() {
    let mut store = HashMap::new();
    store.insert("k".to_string(), "v".to_string());
    assert_eq!(run_in_memory(transfer_value("k", "k"), &mut store), true);
    assert!(store.is_empty());
}

#[test]
fn test_pure_program_touches_nothing() {
    let mut store: HashMap<String, String> = HashMap::new();
    let mut log = Vec::new();
    assert_eq!(run_with_log(Pure { value: 5 }, &mut store, &mut log), 5);
    assert!(log.is_empty());
    let p = Pure { value: 1 }.map(|x| x + 1);
    assert_eq!(p.exec_in_memory(&mut store), 2);
}

#[test]
fn test_and_then_on_a_value_calls_f_at_once() {
    let calls = std::cell::Cell::new(0);
    let p = Pure { value: 3 }.and_then(|x| {
        calls.set(calls.get() + 1);
        Pure { value: x * 2 }
    });
    assert_eq!(calls.get(), 1);
    let mut store: HashMap<String, String> = HashMap::new();
    assert_eq!(run_in_memory(p, &mut store), 6);
    assert_eq!(calls.get(), 1);
}
