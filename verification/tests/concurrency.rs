use fp_study::concurrency::{task_result, Config};

#[test]
fn test_task_result_by_limit() {
    let config = Config { max_connections: 3, timeout_ms: 1000, host: "localhost".to_string() };
    let mut results: Vec<u32> = [1, 2, 3, 4, 5].iter().map(|&t| task_result(&config, t)).collect();
    results.sort();
    assert_eq!(results, vec![0, 0, 2, 4, 6]);
    assert_eq!(task_result(&config, 0), 0);
}
