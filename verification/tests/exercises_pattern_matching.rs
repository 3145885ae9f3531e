use fp_study::exercises::pattern_matching::{classify_point, get_even_double};

#[test]
fn test_classify_point() {
    assert_eq!(classify_point(0, 0), "原点");
    assert_eq!(classify_point(3, 0), "正のX軸上");
    assert_eq!(classify_point(1, 1), "第1象限");
    assert_eq!(classify_point(-1, -1), "第3象限");
}

#[test]
fn test_get_even_double() {
    assert_eq!(get_even_double(4), Some(8));
    assert_eq!(get_even_double(3), None);
    assert_eq!(get_even_double(0), Some(0));
}

#[test]
fn test_classify_every_region() {
    assert_eq!(classify_point(-3, 0), "負のX軸上");
    assert_eq!(classify_point(0, 2), "正のY軸上");
    assert_eq!(classify_point(0, -2), "負のY軸上");
    assert_eq!(classify_point(-1, 1), "第2象限");
    assert_eq!(classify_point(1, -1), "第4象限");
    assert_eq!(get_even_double(-2), Some(-4));
}
