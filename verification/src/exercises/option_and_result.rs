//! `Option` and `Result` pipelines over parsed input.
use vstd::prelude::*;
use vstd::string::*;
use crate::numparse::{i32_parse, trimmed, trim, str_to_i32, ParseIntError};
use crate::text::{int_text, push_i64, push_char};

verus! {

/// The trimmed text parsed as an `i32`, kept only when even.
pub fn parse_even(s: &str) -> (r: Option<i32>)
    ensures
        r == (match i32_parse(trimmed(s@)) {
            Ok(n) => if n % 2 == 0 { Some(n as i32) } else { None::<i32> },
            Err(_) => None::<i32>,
        }),
{
    let t = trim(s);
    match str_to_i32(t.as_str()) {
        Ok(n) => if n % 2 == 0 { Some(n) } else { None },
        Err(_) => None,
    }
}

/// `'<s>' は整数ではありません`.
pub open spec fn not_integer_text(s: Seq<char>) -> Seq<char> {
    seq!['\''] + s + "' は整数ではありません"@
}

/// `<n> は負の値です`.
pub open spec fn negative_value_text(n: int) -> Seq<char> {
    int_text(n) + " は負の値です"@
}

/// The trimmed text parsed as an `i32` and accepted when not negative.
pub fn parse_positive(s: &str) -> (r: Result<u32, String>)
    ensures
        match i32_parse(trimmed(s@)) {
            Err(_) => r matches Err(m) && m@ == not_integer_text(s@),
            Ok(n) => if n < 0 {
                r matches Err(m) && m@ == negative_value_text(n)
            } else {
                r == Ok::<u32, String>(n as u32)
            },
        },
{
    let t = trim(s);
    let n = match str_to_i32(t.as_str()) {
        Ok(n) => n,
        Err(_) => {
            let mut m = String::new();
            push_char(&mut m, '\'');
            m.append(s);
            m.append("' は整数ではありません");
            return Err(m);
        }
    };
    if n < 0 {
        let mut m = String::new();
        push_i64(&mut m, n as i64);
        m.append(" は負の値です");
        Err(m)
    } else {
        Ok(n as u32)
    }
}

/// The sum of the two trimmed texts parsed as `i32`; the first failure is
/// returned. When both parse, the sum must fit in an `i32`.
pub fn parse_and_add(a: &str, b: &str) -> (r: Result<i32, ParseIntError>)
    requires
        (i32_parse(trimmed(a@)) matches Ok(x) && i32_parse(trimmed(b@)) matches Ok(y))
            ==> i32::MIN <= i32_parse(trimmed(a@))->Ok_0 + i32_parse(trimmed(b@))->Ok_0 <= i32::MAX,
    ensures
        match (i32_parse(trimmed(a@)), i32_parse(trimmed(b@))) {
            (Err(k), _) => r == Err::<i32, ParseIntError>(ParseIntError { kind: k }),
            (Ok(_), Err(k)) => r == Err::<i32, ParseIntError>(ParseIntError { kind: k }),
            (Ok(x), Ok(y)) => r == Ok::<i32, ParseIntError>((x + y) as i32),
        },
{
    let ta = trim(a);
    let x = match str_to_i32(ta.as_str()) {
        Ok(x) => x,
        Err(e) => return Err(e),
    };
    let tb = trim(b);
    let y = match str_to_i32(tb.as_str()) {
        Ok(y) => y,
        Err(e) => return Err(e),
    };
    Ok(x + y)
}

/// The first positive element, if any.
pub fn first_positive(numbers: &[i32]) -> (r: Option<i32>)
    ensures
        match r {
            Some(v) => exists|i: int| 0 <= i < numbers@.len() && numbers@[i] == v && v > 0
                && forall|k: int| 0 <= k < i ==> #[trigger] numbers@[k] <= 0,
            None => forall|k: int| 0 <= k < numbers@.len() ==> #[trigger] numbers@[k] <= 0,
        },
{
    let mut i: usize = 0;
    while i < numbers.len()
        invariant
            i <= numbers@.len(),
            forall|k: int| 0 <= k < i ==> #[trigger] numbers@[k] <= 0,
        decreases numbers.len() - i,
    {
        if numbers[i] > 0 {
            return Some(numbers[i]);
        }
        i += 1;
    }
    None
}

/// `結果: <m>` for the number `m`.
pub open spec fn result_text(m: int) -> Seq<char> {
    "結果: "@ + int_text(m)
}

/// The trimmed input parsed as an `i32`; a positive value is doubled and
/// reported, anything else gives `None`. A positive value's double must fit.
pub fn process_input(input: &str) -> (r: Option<String>)
    requires
        i32_parse(trimmed(input@)) matches Ok(n) && n > 0 ==> 2 * i32_parse(trimmed(input@))->Ok_0 <= i32::MAX,
    ensures
        match i32_parse(trimmed(input@)) {
            Ok(n) => if n > 0 {
                r matches Some(m) && m@ == result_text(2 * n)
            } else {
                r is None
            },
            Err(_) => r is None,
        },
{
    let t = trim(input);
    match str_to_i32(t.as_str()) {
        Ok(n) => {
            if n > 0 {
                let d = n * 2;
                let mut m = String::from_str("結果: ");
                push_i64(&mut m, d as i64);
                Some(m)
            } else {
                None
            }
        }
        Err(_) => None,
    }
}

} // verus!
