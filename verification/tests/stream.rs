use fp_study::stream::{FibStream, RangeStream, Stream, StreamExt, WindowsStream};

#[test]
fn test_range_stream_basic() {
    let result = RangeStream::new(0, 5).collect_stream();
    assert_eq!(result, vec![0, 1, 2, 3, 4]);
}

#[test]
fn test_range_stream_empty() {
    let result = RangeStream::new(5, 5).collect_stream();
    assert!(result.is_empty());
}

#[test]
fn test_map_stream() {
    let result = RangeStream::new(1, 6)
        .map_stream(|n| n * n)
        .collect_stream();
    assert_eq!(result, vec![1, 4, 9, 16, 25]);
}

#[test]
fn test_filter_stream() {
    let result = RangeStream::new(0, 10)
        .filter_stream(|n| n % 2 == 0)
        .collect_stream();
    assert_eq!(result, vec![0, 2, 4, 6, 8]);
}

#[test]
fn test_take_stream() {
    let result = RangeStream::new(0, 100)
        .take_stream(5)
        .collect_stream();
    assert_eq!(result, vec![0, 1, 2, 3, 4]);
}

#[test]
fn test_fold_stream() {
    let sum = RangeStream::new(1, 6).fold_stream(0, |acc, n| acc + n);
    assert_eq!(sum, 15);
}

#[test]
fn test_pipeline() {
    // 0..100 の偶数を2倍して最初の5件の合計
    let result = RangeStream::new(0, 100)
        .filter_stream(|n| n % 2 == 0)
        .map_stream(|n| n * 2)
        .take_stream(5)
        .fold_stream(0, |acc, n| acc + n);
    // 0+4+8+12+16 = 40
    assert_eq!(result, 40);
}

#[test]
fn test_fib_stream() {
    let result = FibStream::new().take_stream(10).collect_stream();
    assert_eq!(result, vec![0, 1, 1, 2, 3, 5, 8, 13, 21, 34]);
}

#[test]
fn test_enumerate_stream() {
    let result = RangeStream::new(10, 13)
        .enumerate_stream()
        .collect_stream();
    assert_eq!(result, vec![(0, 10), (1, 11), (2, 12)]);
}

#[test]
fn test_windows_stream() {
    let result = RangeStream::new(1, 6)
        .take_stream(5)
        .collect_stream()
        .into_iter()
        .collect::<Vec<_>>();

    // WindowsStream は Vec から作れないので RangeStream を使う
    let pairs: Vec<(u64, u64)> = WindowsStream::new(RangeStream::new(1, 6))
        .collect_stream();
    assert_eq!(pairs, vec![(1, 2), (2, 3), (3, 4), (4, 5)]);
    let _ = result; // suppress unused warning
}

#[test]
fn test_fizzbuzz_multiples() {
    // 1から100の中で3の倍数かつ5の倍数の合計
    let sum = RangeStream::new(1, 101)
        .filter_stream(|n| n % 3 == 0 && n % 5 == 0)
        .fold_stream(0, |acc, n| acc + n);
    // 15+30+45+60+75+90 = 315
    assert_eq!(sum, 315);
}

#[test]
fn test_fib_even_indexed() {
    // フィボナッチ数列の偶数番目（0-indexed）の値を10個取り出す
    let result: Vec<u64> = FibStream::new()
        .enumerate_stream()
        .filter_stream(|(i, _)| i % 2 == 0)
        .map_stream(|(_, n)| n)
        .take_stream(10)
        .collect_stream();
    // index 0,2,4,6,8,10,12,14,16,18 のフィボナッチ数
    // 0,1,3,8,21,55,144,377,987,2584
    assert_eq!(result, vec![0, 1, 3, 8, 21, 55, 144, 377, 987, 2584]);
}

#[test]
fn test_stream_next_by_hand() {
    let mut r = RangeStream::new(3, 5);
    assert_eq!(r.next(), Some(3));
    assert_eq!(r.next(), Some(4));
    assert_eq!(r.next(), None);
    assert_eq!(r.next(), None);
}

#[test]
fn test_fib_stream_saturates() {
    let v = FibStream::default().take_stream(100).collect_stream();
    assert_eq!(v[93], 12200160415121876738);
    assert_eq!(v[94], u64::MAX);
    assert_eq!(v[99], u64::MAX);
}

#[test]
fn test_windows_of_short_streams() {
    assert_eq!(WindowsStream::new(RangeStream::new(1, 2)).collect_stream(), vec![]);
    assert_eq!(WindowsStream::new(RangeStream::new(1, 1)).collect_stream(), vec![]);
}

#[test]
fn test_take_zero_and_enumerate_after_filter() {
    assert_eq!(RangeStream::new(0, 10).take_stream(0).collect_stream(), Vec::<u64>::new());
    let v = RangeStream::new(0, 10)
        .filter_stream(|n| n % 3 == 0)
        .enumerate_stream()
        .collect_stream();
    assert_eq!(v, vec![(0, 0), (1, 3), (2, 6), (3, 9)]);
}
