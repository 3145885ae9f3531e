use fp_study::oop_vs_fp::{
    add_one, bubble_sort_fn, compose, counter_increment, counter_new, double, process_events,
    sort_with, square, with_prefix, with_timestamp, BubbleSort, Counter, EventSource, Logger,
    PlainLogger, Sorter, TimestampLogger,
};

#[test]
fn test_oop_strategy() {
    let sorter = Sorter::new(Box::new(BubbleSort));
    let mut data = vec![3, 1, 4, 1, 5];
    sorter.sort(&mut data);
    assert_eq!(data, vec![1, 1, 3, 4, 5]);
}

#[test]
fn test_fp_strategy() {
    let mut data = vec![3, 1, 4, 1, 5];
    sort_with(&mut data, bubble_sort_fn);
    assert_eq!(data, vec![1, 1, 3, 4, 5]);
}

#[test]
fn test_fp_strategy_with_closure() {
    let mut data = vec![3, 1, 4, 1, 5];
    // クロージャを直接渡せる
    sort_with(&mut data, |d| d.sort());
    assert_eq!(data, vec![1, 1, 3, 4, 5]);
}

#[test]
fn test_oop_decorator() {
    let logger = TimestampLogger::new(Box::new(PlainLogger), "2024-01-01");
    assert_eq!(logger.log("hello"), "[2024-01-01] hello");
}

#[test]
fn test_fp_decorator() {
    let plain = |msg: &str| msg.to_string();
    let with_ts = with_timestamp(plain, "2024-01-01");
    assert_eq!(with_ts("hello"), "[2024-01-01] hello");
}

#[test]
fn test_fp_decorator_composed() {
    let plain = |msg: &str| msg.to_string();
    let with_ts = with_timestamp(plain, "2024-01-01");
    let with_pfx = with_prefix(with_ts, "[INFO]");
    assert_eq!(with_pfx("hello"), "[INFO] [2024-01-01] hello");
}

#[test]
fn test_oop_mutable_state() {
    let mut counter = Counter::new(2);
    counter.increment();
    counter.increment();
    assert_eq!(counter.get(), 4);
}

#[test]
fn test_fp_immutable_state() {
    let s0 = counter_new(2);
    let s1 = counter_increment(&s0);
    let s2 = counter_increment(&s1);

    assert_eq!(s0.count, 0); // 元の状態は変わらない
    assert_eq!(s2.count, 4);
}

#[test]
fn test_oop_observer() {
    let mut source = EventSource::new();
    let results = std::sync::Arc::new(std::sync::Mutex::new(Vec::<i32>::new()));
    let results_clone = results.clone();
    source.subscribe(move |v| {
        results_clone.lock().unwrap().push(v * 2);
    });
    source.emit(10);
    source.emit(20);
    let data = results.lock().unwrap();
    assert_eq!(*data, vec![20, 40]);
}

#[test]
fn test_fp_event_pipeline() {
    let events = vec![1, 2, 3, 4, 5];
    let result = process_events(&events, |e| format!("event:{}", e * 10));
    assert_eq!(result[0], "event:10");
    assert_eq!(result[4], "event:50");
}

#[test]
fn test_fp_composition() {
    let double_then_add_one = compose(double, add_one);
    assert_eq!(double_then_add_one(5), 11); // 5*2+1

    let pipeline = compose(compose(double, add_one), square);
    assert_eq!(pipeline(3), 49); // (3*2+1)^2 = 7^2 = 49
}

#[test]
fn test_bubble_sort_edge_cases() {
    let mut empty: Vec<i32> = vec![];
    bubble_sort_fn(&mut empty);
    assert_eq!(empty, Vec::<i32>::new());
    let mut one = vec![7];
    bubble_sort_fn(&mut one);
    assert_eq!(one, vec![7]);
    let mut rev = vec![5, 4, 3, 2, 1, i32::MIN, i32::MAX];
    bubble_sort_fn(&mut rev);
    assert_eq!(rev, vec![i32::MIN, 1, 2, 3, 4, 5, i32::MAX]);
}

#[test]
fn test_plain_logger_keeps_message() {
    assert_eq!(PlainLogger.log("as is"), "as is");
}

#[test]
fn test_nested_timestamp_loggers() {
    let inner = TimestampLogger::new(Box::new(PlainLogger), "b");
    let outer = TimestampLogger::new(Box::new(inner), "a");
    assert_eq!(outer.log("m"), "[a] [b] m");
}

#[test]
fn test_counter_negative_step() {
    let mut c = Counter::new(-3);
    c.increment();
    assert_eq!(c.get(), -3);
    let s = counter_increment(&counter_new(-3));
    assert_eq!(s.count, -3);
    assert_eq!(s.step, -3);
}

#[test]
fn test_emit_calls_in_subscription_order() {
    let log = std::sync::Arc::new(std::sync::Mutex::new(Vec::<i32>::new()));
    let mut source = EventSource::new();
    for k in 1..=3 {
        let l = log.clone();
        source.subscribe(Box::new(move |v: i32| l.lock().unwrap().push(v + k)) as Box<dyn Fn(i32)>);
    }
    source.emit(10);
    assert_eq!(*log.lock().unwrap(), vec![11, 12, 13]);
}

#[test]
fn test_process_events_empty() {
    let r = process_events(&[], |e| format!("{}", e));
    assert!(r.is_empty());
}

#[test]
fn test_compose_square_first() {
    let f = compose(square, double);
    assert_eq!(f(-4), 32);
    assert_eq!(add_one(-1), 0);
}

#[test]
fn test_with_prefix_alone() {
    let p = with_prefix(|m: &str| m.to_uppercase(), ">>");
    assert_eq!(p("hi"), ">> HI");
}

#[test]
fn test_bubble_sort_matches_standard_sort() {
    for input in [vec![3, 1, 4, 1, 5], vec![], vec![7], vec![9, -2, 9, 0, -2]] {
        let mut ours = input.clone();
        bubble_sort_fn(&mut ours);
        let mut theirs = input.clone();
        theirs.sort();
        assert_eq!(ours, theirs);
    }
}
