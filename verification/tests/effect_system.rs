use fp_study::effect_system::{
    connect, get_db_url, process_user, process_with_traits, query, AppConfig, Logger, Reader,
    Repository, SilentLogger,
};
use std::cell::RefCell;
use std::collections::HashMap;

// Test doubles for the two services: a logger that keeps every message and a
// repository held in memory.
struct VecLogger {
    messages: RefCell<Vec<String>>,
}

impl VecLogger {
    fn new() -> Self {
        VecLogger { messages: RefCell::new(Vec::new()) }
    }

    fn entries(&self) -> Vec<String> {
        self.messages.borrow().clone()
    }
}

impl Logger for VecLogger {
    fn log(&self, msg: &str) {
        self.messages.borrow_mut().push(msg.to_string());
    }
}

struct InMemoryRepo {
    data: RefCell<HashMap<u32, String>>,
}

impl InMemoryRepo {
    fn new() -> Self {
        InMemoryRepo { data: RefCell::new(HashMap::new()) }
    }
}

impl Repository for InMemoryRepo {
    fn find(&self, id: u32) -> Option<String> {
        self.data.borrow().get(&id).cloned()
    }

    fn save(&self, id: u32, value: &str) {
        self.data.borrow_mut().insert(id, value.to_string());
    }
}

fn test_config() -> AppConfig {
    AppConfig {
        db_url: "sqlite::memory:".to_string(),
        log_level: "debug".to_string(),
        app_name: "TestApp".to_string(),
    }
}

#[test]
fn test_reader_run() {
    let config = test_config();
    let result = get_db_url().run_reader(&config);
    assert_eq!(result, "sqlite::memory:");
}

#[test]
fn test_reader_map() {
    let config = test_config();
    let result = get_db_url().map(|url| url.len()).run_reader(&config);
    assert_eq!(result, "sqlite::memory:".len());
}

#[test]
fn test_reader_and_then() {
    let config = test_config();
    let result = connect()
        .and_then(|conn| query("SELECT 1").map(move |q| format!("{} | {}", conn, q)))
        .run_reader(&config);
    assert!(result.contains("TestApp"));
    assert!(result.contains("SELECT 1"));
}

#[test]
fn test_reader_zip() {
    let config = test_config();
    let (url, conn) = get_db_url().zip(connect()).run_reader(&config);
    assert_eq!(url, "sqlite::memory:");
    assert!(conn.contains("TestApp"));
}

#[test]
fn test_process_user() {
    let config = test_config();
    let result = process_user(42).run_reader(&config);
    assert!(result.contains("42"));
}

#[test]
fn test_same_reader_multiple_times() {
    let config = test_config();
    let reader = get_db_url();
    // 同じ Reader を複数回実行できる
    assert_eq!(reader.run_reader(&config), reader.run_reader(&config));
}

#[test]
fn test_trait_process_first_call() {
    let logger = SilentLogger;
    let repo = InMemoryRepo::new();

    let old = process_with_traits(&logger, &repo, 1, "hello");
    assert_eq!(old, None);
    assert_eq!(repo.find(1), Some("hello".to_string()));
}

#[test]
fn test_trait_process_second_call() {
    let logger = SilentLogger;
    let repo = InMemoryRepo::new();

    process_with_traits(&logger, &repo, 1, "first");
    let old = process_with_traits(&logger, &repo, 1, "second");

    assert_eq!(old, Some("first".to_string()));
    assert_eq!(repo.find(1), Some("second".to_string()));
}

#[test]
fn test_vec_logger_captures_messages() {
    let logger = VecLogger::new();
    let repo = InMemoryRepo::new();

    process_with_traits(&logger, &repo, 5, "value");

    let entries = logger.entries();
    assert_eq!(entries.len(), 2);
    assert!(entries[0].contains("5"));
    assert!(entries[1].contains("value"));
}

#[test]
fn test_different_envs_give_different_results() {
    let dev_config = AppConfig {
        db_url: "sqlite::memory:".to_string(),
        log_level: "debug".to_string(),
        app_name: "Dev".to_string(),
    };
    let prod_config = AppConfig {
        db_url: "postgres://prod/db".to_string(),
        log_level: "info".to_string(),
        app_name: "Prod".to_string(),
    };

    let dev_result = get_db_url().run_reader(&dev_config);
    let prod_result = get_db_url().run_reader(&prod_config);

    assert_ne!(dev_result, prod_result);
}

#[test]
fn test_reader_exact_texts() {
    let config = test_config();
    assert_eq!(connect().run_reader(&config), "[TestApp] connected to sqlite::memory:");
    assert_eq!(query("SELECT 2").run_reader(&config), "[sqlite::memory:] SELECT 2");
    assert_eq!(
        process_user(7).run_reader(&config),
        "[TestApp] connected to sqlite::memory: → [sqlite::memory:] SELECT * FROM users WHERE id = 7"
    );
}

#[test]
fn test_reader_new_and_zip_order() {
    let config = test_config();
    let name = Reader::new(|c: &AppConfig| c.app_name.clone());
    let (a, b) = name.zip(get_db_url()).run_reader(&config);
    assert_eq!(a, "TestApp");
    assert_eq!(b, "sqlite::memory:");
}

#[test]
fn test_process_with_traits_exact_messages() {
    let logger = VecLogger::new();
    let repo = InMemoryRepo::new();
    process_with_traits(&logger, &repo, 12, "v");
    assert_eq!(logger.entries(), vec!["processing id=12", "saved: v"]);
    let silent = SilentLogger;
    silent.log("ignored");
}
