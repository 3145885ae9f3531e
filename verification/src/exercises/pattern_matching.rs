//! Matching on tuples with guards, and on options.
use vstd::prelude::*;

verus! {

/// Where the point `(x, y)` lies: the origin, a half-axis, or a quadrant.
pub open spec fn point_class(x: i32, y: i32) -> &'static str {
    if x == 0 && y == 0 {
        "原点"
    } else if y == 0 && x > 0 {
        "正のX軸上"
    } else if y == 0 && x < 0 {
        "負のX軸上"
    } else if x == 0 && y > 0 {
        "正のY軸上"
    } else if x == 0 && y < 0 {
        "負のY軸上"
    } else if x > 0 && y > 0 {
        "第1象限"
    } else if x < 0 && y > 0 {
        "第2象限"
    } else if x < 0 && y < 0 {
        "第3象限"
    } else {
        "第4象限"
    }
}

/// Names the region of the plane that holds `(x, y)`.
pub fn classify_point(x: i32, y: i32) -> (r: &'static str)
    ensures
        r == point_class(x, y),
{
    match (x, y) {
        (0, 0) => "原点",
        (x, 0) if x > 0 => "正のX軸上",
        (x, 0) if x < 0 => "負のX軸上",
        (0, y) if y > 0 => "正のY軸上",
        (0, y) if y < 0 => "負のY軸上",
        (x, y) if x > 0 && y > 0 => "第1象限",
        (x, y) if x < 0 && y > 0 => "第2象限",
        (x, y) if x < 0 && y < 0 => "第3象限",
        _ => "第4象限",
    }
}

/// `Some(2n)` for even `n`, `None` for odd; `2n` must fit in an `i32`.
pub fn get_even_double(n: i32) -> (r: Option<i32>)
    requires
        n % 2 == 0 ==> i32::MIN <= 2 * n <= i32::MAX,
    ensures
        r == (if n % 2 == 0 { Some((2 * n) as i32) } else { None::<i32> }),
{
    if n % 2 == 0 {
        Some(n * 2)
    } else {
        None
    }
}

} // verus!
