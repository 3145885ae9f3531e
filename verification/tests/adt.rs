use fp_study::adt::{
    classify_number, describe_event, drain_positive, extract_errors, Address, DisconnectCode,
    List, LogEntry, LogLevel, NetworkEvent, Tree,
};
use std::collections::VecDeque;

fn sample_tree() -> Tree<i32> {
    Tree::empty()
        .insert(5)
        .insert(3)
        .insert(7)
        .insert(1)
        .insert(4)
        .insert(6)
        .insert(8)
}

#[test]
fn test_classify_number_zero() {
    assert_eq!(classify_number(0), "ゼロ");
}

#[test]
fn test_classify_number_small_positive() {
    assert_eq!(classify_number(1), "小さな正数");
    assert_eq!(classify_number(9), "小さな正数");
}

#[test]
fn test_classify_number_two_digits() {
    assert_eq!(classify_number(10), "2桁の正数");
    assert_eq!(classify_number(99), "2桁の正数");
}

#[test]
fn test_classify_number_negative() {
    assert_eq!(classify_number(-1), "負数");
    assert_eq!(classify_number(-100), "負数");
}

#[test]
fn test_classify_number_large() {
    assert_eq!(classify_number(100), "大きな数");
}

#[test]
fn test_list_empty() {
    let list: List<i32> = List::empty();
    assert!(list.is_empty());
    assert_eq!(list.len(), 0);
}

#[test]
fn test_list_prepend_and_len() {
    let list = List::empty().prepend(3).prepend(2).prepend(1);
    assert!(!list.is_empty());
    assert_eq!(list.len(), 3);
}

#[test]
fn test_list_to_vec_preserves_order() {
    let list = List::empty().prepend(3).prepend(2).prepend(1);
    // prepend で 1→2→3 の順に追加したので先頭から [1, 2, 3]
    assert_eq!(list.to_vec(), vec![1, 2, 3]);
}

#[test]
fn test_list_sum() {
    let list = List::empty().prepend(3).prepend(2).prepend(1);
    assert_eq!(list.sum(), 6);
}

#[test]
fn test_list_sum_empty() {
    let list: List<i32> = List::empty();
    assert_eq!(list.sum(), 0);
}

#[test]
fn test_list_map() {
    let list = List::empty().prepend(3).prepend(2).prepend(1);
    let doubled = list.map(|x| x * 2);
    assert_eq!(doubled.to_vec(), vec![2, 4, 6]);
}

#[test]
fn test_tree_contains_inserted_values() {
    let tree = sample_tree();
    for &v in &[1, 3, 4, 5, 6, 7, 8] {
        assert!(tree.contains(&v), "{} が見つかりません", v);
    }
}

#[test]
fn test_tree_not_contains_missing_values() {
    let tree = sample_tree();
    for &v in &[0, 2, 9, 10] {
        assert!(!tree.contains(&v), "{} が誤って見つかりました", v);
    }
}

#[test]
fn test_tree_to_sorted_vec() {
    let tree = sample_tree();
    assert_eq!(tree.to_sorted_vec(), vec![1, 3, 4, 5, 6, 7, 8]);
}

#[test]
fn test_tree_size() {
    let tree = sample_tree();
    assert_eq!(tree.size(), 7);
}

#[test]
fn test_tree_empty_contains_nothing() {
    let tree: Tree<i32> = Tree::empty();
    assert!(!tree.contains(&0));
    assert_eq!(tree.size(), 0);
    assert_eq!(tree.to_sorted_vec(), vec![]);
}

#[test]
fn test_tree_duplicate_insert_does_not_grow() {
    let tree = Tree::empty().insert(5).insert(5).insert(5);
    assert_eq!(tree.size(), 1);
}

#[test]
fn test_describe_event_connected_ipv4() {
    let event = NetworkEvent::Connected(Address::Ipv4(192, 168, 1, 1));
    assert_eq!(describe_event(&event), "接続: 192.168.1.1");
}

#[test]
fn test_describe_event_data_received() {
    let event = NetworkEvent::DataReceived {
        from: Address::Ipv4(10, 0, 0, 1),
        payload: vec![0u8; 42],
    };
    assert_eq!(describe_event(&event), "データ受信: 10.0.0.1 から 42 バイト");
}

#[test]
fn test_describe_event_disconnect_normal() {
    let event = NetworkEvent::Disconnected(DisconnectCode::Normal);
    assert_eq!(describe_event(&event), "正常切断");
}

#[test]
fn test_describe_event_disconnect_error() {
    let event = NetworkEvent::Disconnected(DisconnectCode::Error(404));
    assert_eq!(describe_event(&event), "エラー切断: コード 404");
}

#[test]
fn test_extract_errors_returns_only_error_messages() {
    let logs = vec![
        LogEntry::new(LogLevel::Info, "起動しました"),
        LogEntry::new(LogLevel::Error, "接続失敗"),
        LogEntry::new(LogLevel::Warn, "タイムアウト"),
        LogEntry::new(LogLevel::Error, "ディスク満杯"),
    ];
    let errors = extract_errors(&logs);
    assert_eq!(errors, vec!["接続失敗", "ディスク満杯"]);
}

#[test]
fn test_extract_errors_no_errors_returns_empty() {
    let logs = vec![
        LogEntry::new(LogLevel::Info, "正常動作"),
        LogEntry::new(LogLevel::Debug, "デバッグ情報"),
    ];
    let errors = extract_errors(&logs);
    assert!(errors.is_empty());
}

#[test]
fn test_drain_positive_stops_at_negative() {
    let mut queue = VecDeque::from(vec![3, 1, 4, -1, 5]);
    let result = drain_positive(&mut queue);
    assert_eq!(result, vec![3, 1, 4]);
    // -1 以降はキューに残る
    assert_eq!(queue.front(), Some(&-1));
}

#[test]
fn test_drain_positive_all_positive() {
    let mut queue = VecDeque::from(vec![1, 2, 3]);
    let result = drain_positive(&mut queue);
    assert_eq!(result, vec![1, 2, 3]);
    assert!(queue.is_empty());
}

#[test]
fn test_drain_positive_starts_with_negative() {
    let mut queue = VecDeque::from(vec![-1, 2, 3]);
    let result = drain_positive(&mut queue);
    assert!(result.is_empty());
    // キューは変化しない
    assert_eq!(queue.front(), Some(&-1));
}

#[test]
fn test_drain_positive_empty_queue() {
    let mut queue: VecDeque<i32> = VecDeque::new();
    let result = drain_positive(&mut queue);
    assert!(result.is_empty());
}

#[test]
fn test_tree_insert_duplicate_keeps_tree() {
    let tree = sample_tree().insert(4).insert(5);
    assert_eq!(tree.size(), 7);
    assert_eq!(tree.height(), 3);
    assert_eq!(tree.to_sorted_vec(), vec![1, 3, 4, 5, 6, 7, 8]);
}

#[test]
fn test_list_prepend_to_vec_law() {
    let list = List::empty().prepend(20).prepend(10);
    let before = list.to_vec();
    let longer = list.prepend(5);
    let mut expected = vec![5];
    expected.extend(before);
    assert_eq!(longer.to_vec(), expected);
}

#[test]
fn test_tree_and_list_clone() {
    let tree = sample_tree();
    let copy = tree.clone();
    assert_eq!(copy.to_sorted_vec(), tree.to_sorted_vec());
    assert_eq!(copy.height(), tree.height());
    let list = List::empty().prepend(2).prepend(1);
    assert_eq!(list.clone().to_vec(), vec![1, 2]);
}
