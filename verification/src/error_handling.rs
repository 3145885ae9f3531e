//! Error handling with `Option` and `Result`: combinator chains, a custom
//! error enum, collecting results, domain and application errors.
use vstd::prelude::*;
use vstd::string::*;
use std::collections::HashMap;
use crate::numparse::{
    chars_to_i32, chars_to_u32, i32_parse, kind_text, str_to_u16, str_to_u32, trim_chars,
    trimmed, u16_parse, u32_parse, IntErrorKind, ParseIntError,
};
use crate::seqs::sum_of;
use crate::text::{int_text, push_i64, push_u64, nat_text, str_debug, str_debug_string};

verus! {

/// The value `HashMap::get` finds for a key with the same text as `key`.
pub open spec fn lookup_spec<V>(m: Map<&str, V>, key: Seq<char>) -> Option<V> {
    if exists|k: &str| #[trigger] m.contains_key(k) && k@ == key {
        let k = choose|k: &str| #[trigger] m.contains_key(k) && k@ == key;
        Some(m[k])
    } else {
        None
    }
}

/// Calls `HashMap::get` on a map keyed by string slices. `&str` keys compare
/// by their text, and a map holds at most one key with a given text, so the
/// value found is the one stored under a key with `key`'s text.
#[verifier::external_body]
pub(crate) fn map_get<V: Copy>(map: &HashMap<&str, V>, key: &str) -> (r: Option<V>)
    ensures
        r == lookup_spec(map@, key@),
{
    map.get(key).copied()
}

/// Parses `s` as a `u32`; `None` when it is not one.
pub fn parse_u32(s: &str) -> (r: Option<u32>)
    ensures
        match u32_parse(s@) {
            Ok(v) => r == Some(v as u32) && 0 <= v <= u32::MAX,
            Err(_) => r is None,
        },
{
    match str_to_u32(s) {
        Ok(v) => Some(v),
        Err(_) => None,
    }
}

/// The value stored for `key`, if any.
pub fn lookup(map: &HashMap<&str, u32>, key: &str) -> (r: Option<u32>)
    ensures
        r == lookup_spec(map@, key@),
{
    map_get(map, key)
}

/// `Some(n)` when `min <= n <= max`, else `None`.
pub fn check_range(n: u32, min: u32, max: u32) -> (r: Option<u32>)
    ensures
        r == (if min <= n <= max { Some(n) } else { None }),
{
    if n >= min && n <= max { Some(n) } else { None }
}

/// Trimmed `s` parsed as `u32`, kept only in `1..=99`, then squared.
pub fn option_chain(s: &str) -> (r: Option<u32>)
    ensures
        r == (match u32_parse(trimmed(s@)) {
            Ok(n) => if 0 < n < 100 { Some((n * n) as u32) } else { None },
            Err(_) => None,
        }),
{
    let t = trim_chars(s);
    match chars_to_u32(&t) {
        Ok(n) => {
            if n > 0 && n < 100 {
                assert(n * n < 10000) by (nonlinear_arith) requires 0 < n < 100;
                Some(n * n)
            } else {
                None
            }
        }
        Err(_) => None,
    }
}

/// The first item parsed as `u32`, kept only when two-digit, then doubled.
pub fn find_double_digit(items: &[&str]) -> (r: Option<u32>)
    ensures
        r == (if items@.len() == 0 {
            None
        } else {
            match u32_parse(items@[0]@) {
                Ok(n) => if 10 <= n <= 99 { Some((2 * n) as u32) } else { None },
                Err(_) => None,
            }
        }),
{
    if items.len() == 0 {
        return None;
    }
    match parse_u32(items[0]) {
        Some(n) => if n >= 10 && n <= 99 { Some(n * 2) } else { None },
        None => None,
    }
}

/// Trimmed `s` parsed as `i32`.
pub fn parse_i32(s: &str) -> (r: Result<i32, ParseIntError>)
    ensures
        match i32_parse(trimmed(s@)) {
            Ok(v) => r == Ok::<i32, ParseIntError>(v as i32) && i32::MIN <= v <= i32::MAX,
            Err(k) => r == Err::<i32, ParseIntError>(ParseIntError { kind: k }),
        },
{
    let t = trim_chars(s);
    chars_to_i32(&t)
}

/// `n` as `u32` when positive, else a message naming `n`.
pub fn ensure_positive(n: i32) -> (r: Result<u32, String>)
    ensures
        n > 0 ==> r == Ok::<u32, String>(n as u32),
        n <= 0 ==> (r matches Err(m) && m@ == int_text(n as int) + " は正の数ではありません"@),
{
    if n > 0 {
        Ok(n as u32)
    } else {
        let mut m = String::new();
        push_i64(&mut m, n as i64);
        m.append(" は正の数ではありません");
        Err(m)
    }
}

/// Trimmed `s` parsed as `i32` and doubled, or the parse error as a message.
pub fn result_map_chain(s: &str) -> (r: Result<i32, String>)
    requires
        i32_parse(trimmed(s@)) matches Ok(n) ==> i32::MIN <= 2 * n <= i32::MAX,
    ensures
        match i32_parse(trimmed(s@)) {
            Ok(n) => r == Ok::<i32, String>((2 * n) as i32),
            Err(k) => r matches Err(m) && m@ == "パースエラー: "@ + kind_text(k),
        },
{
    match parse_i32(s) {
        Ok(n) => Ok(n * 2),
        Err(e) => {
            let mut m = String::from_str("パースエラー: ");
            let t = e.to_string();
            m.append(t.as_str());
            Err(m)
        }
    }
}

/// Trimmed `s` parsed as `i32`, then required to be positive.
pub fn result_and_then_chain(s: &str) -> (r: Result<u32, String>)
    ensures
        match i32_parse(trimmed(s@)) {
            Ok(n) => if n > 0 {
                r == Ok::<u32, String>(n as u32)
            } else {
                r matches Err(m) && m@ == int_text(n) + " は正の数ではありません"@
            },
            Err(k) => r matches Err(m) && m@ == kind_text(k),
        },
{
    match parse_i32(s) {
        Ok(n) => ensure_positive(n),
        Err(e) => Err(e.to_string()),
    }
}

/// The application's errors.
#[derive(Debug, PartialEq)]
pub enum AppError {
    ParseError(String),
    OutOfRange { value: i32, min: i32, max: i32 },
    DivisionByZero,
    KeyNotFound(String),
}

/// The message for each error.
pub open spec fn app_error_text(e: AppError) -> Seq<char> {
    match e {
        AppError::ParseError(msg) => "パースエラー: "@ + msg@,
        AppError::OutOfRange { value, min, max } =>
            "値 "@ + int_text(value as int) + " は範囲 ["@ + int_text(min as int) + ", "@ + int_text(max as int) + "] の外です"@,
        AppError::DivisionByZero => "0 による除算は許可されていません"@,
        AppError::KeyNotFound(key) => "キー '"@ + key@ + "' が見つかりません"@,
    }
}

impl AppError {
    /// The error's message.
    pub fn to_string(&self) -> (s: String)
        ensures
            s@ == app_error_text(*self),
    {
        let mut s = String::new();
        match self {
            AppError::ParseError(msg) => {
                s.append("パースエラー: ");
                s.append(msg.as_str());
            }
            AppError::OutOfRange { value, min, max } => {
                s.append("値 ");
                push_i64(&mut s, *value as i64);
                s.append(" は範囲 [");
                push_i64(&mut s, *min as i64);
                s.append(", ");
                push_i64(&mut s, *max as i64);
                s.append("] の外です");
            }
            AppError::DivisionByZero => {
                s.append("0 による除算は許可されていません");
            }
            AppError::KeyNotFound(key) => {
                s.append("キー '");
                s.append(key.as_str());
                s.append("' が見つかりません");
            }
        }
        s
    }

    /// A parse error carrying the parse failure's message.
    pub fn from_parse_error(e: ParseIntError) -> (r: Self)
        ensures
            r matches AppError::ParseError(m) && m@ == kind_text(e.kind),
    {
        AppError::ParseError(e.to_string())
    }
}

/// Trimmed `s` parsed as `i32` and checked against `[min, max]`.
pub fn parse_and_validate(s: &str, min: i32, max: i32) -> (r: Result<i32, AppError>)
    ensures
        match i32_parse(trimmed(s@)) {
            Err(k) => r matches Err(AppError::ParseError(m)) && m@ == kind_text(k),
            Ok(n) => if n < min || n > max {
                r == Err::<i32, AppError>(AppError::OutOfRange { value: n as i32, min, max })
            } else {
                r == Ok::<i32, AppError>(n as i32)
            },
        },
{
    let n = match parse_i32(s) {
        Ok(n) => n,
        Err(e) => return Err(AppError::from_parse_error(e)),
    };
    if n < min || n > max {
        return Err(AppError::OutOfRange { value: n, min, max });
    }
    Ok(n)
}

/// Integer division rounding toward zero, as Rust's `/`.
pub open spec fn trunc_div(a: int, b: int) -> int {
    let q = (if a >= 0 { a } else { -a }) / (if b >= 0 { b } else { -b });
    if (a >= 0) == (b > 0) { q } else { -q }
}

/// Both trimmed texts parsed as `i32`, then the first divided by the second.
pub fn safe_divide(a: &str, b: &str) -> (r: Result<i32, AppError>)
    requires
        i32_parse(trimmed(a@)) matches Ok(x) && i32_parse(trimmed(b@)) matches Ok(y) ==> !(x == i32::MIN && y == -1),
    ensures
        match (i32_parse(trimmed(a@)), i32_parse(trimmed(b@))) {
            (Err(k), _) => r matches Err(AppError::ParseError(m)) && m@ == kind_text(k),
            (Ok(_), Err(k)) => r matches Err(AppError::ParseError(m)) && m@ == kind_text(k),
            (Ok(x), Ok(y)) => if y == 0 {
                r == Err::<i32, AppError>(AppError::DivisionByZero)
            } else {
                r == Ok::<i32, AppError>(trunc_div(x, y) as i32)
            },
        },
{
    let dividend = match parse_i32(a) {
        Ok(n) => n,
        Err(e) => return Err(AppError::from_parse_error(e)),
    };
    let divisor = match parse_i32(b) {
        Ok(n) => n,
        Err(e) => return Err(AppError::from_parse_error(e)),
    };
    if divisor == 0 {
        return Err(AppError::DivisionByZero);
    }
    let q = div_toward_zero(dividend, divisor);
    Ok(q)
}

pub(crate) fn div_toward_zero(a: i32, b: i32) -> (q: i32)
    requires
        b != 0,
        !(a == i32::MIN && b == -1),
    ensures
        q == trunc_div(a as int, b as int),
{
    let ua: u32 = if a >= 0 { a as u32 } else if a == i32::MIN { 2147483648u32 } else { (-a) as u32 };
    let ub: u32 = if b >= 0 { b as u32 } else if b == i32::MIN { 2147483648u32 } else { (-b) as u32 };
    let uq = ua / ub;
    assert(uq <= ua);
    if (a >= 0) == (b > 0) {
        assert(uq <= i32::MAX) by {
            if ub == 1 {
                assert(uq == ua) by (nonlinear_arith) requires ub == 1, uq == ua / ub;
                assert(a != i32::MIN);
            } else {
                assert(uq <= ua / 2) by (nonlinear_arith) requires ub >= 2, uq == ua / ub;
            }
        }
        uq as i32
    } else {
        if uq == 2147483648u32 { i32::MIN } else { -(uq as i32) }
    }
}

/// The setting `key` from `config`, parsed and range-checked.
pub fn fetch_and_parse_config(config: &HashMap<&str, &str>, key: &str, min: i32, max: i32) -> (r: Result<i32, AppError>)
    ensures
        match lookup_spec(config@, key@) {
            None => r matches Err(AppError::KeyNotFound(k)) && k@ == key@,
            Some(raw) => match i32_parse(trimmed(raw@)) {
                Err(k) => r matches Err(AppError::ParseError(m)) && m@ == kind_text(k),
                Ok(n) => if n < min || n > max {
                    r == Err::<i32, AppError>(AppError::OutOfRange { value: n as i32, min, max })
                } else {
                    r == Ok::<i32, AppError>(n as i32)
                },
            },
        },
{
    let raw = match map_get(config, key) {
        Some(raw) => raw,
        None => return Err(AppError::KeyNotFound(String::from_str(key))),
    };
    parse_and_validate(raw, min, max)
}


/// The trimmed parses of all inputs, or the first failure.
pub open spec fn parse_all_spec(inputs: Seq<&str>) -> Result<Seq<int>, IntErrorKind>
    decreases inputs.len(),
{
    if inputs.len() == 0 {
        Ok(Seq::empty())
    } else {
        match parse_all_spec(inputs.drop_last()) {
            Err(k) => Err(k),
            Ok(vs) => match i32_parse(trimmed(inputs.last()@)) {
                Ok(v) => Ok(vs.push(v)),
                Err(k) => Err(k),
            },
        }
    }
}

/// The trimmed parses of the inputs that are integers, in order.
pub open spec fn valid_ints(inputs: Seq<&str>) -> Seq<int>
    decreases inputs.len(),
{
    if inputs.len() == 0 {
        Seq::empty()
    } else {
        match i32_parse(trimmed(inputs.last()@)) {
            Ok(v) => valid_ints(inputs.drop_last()).push(v),
            Err(_) => valid_ints(inputs.drop_last()),
        }
    }
}

/// Widens a vector's elements to integers.
pub open spec fn widened(v: Seq<i32>) -> Seq<int> {
    v.map_values(|x: i32| x as int)
}

/// Parses every (trimmed) input as `i32`; the first failure wins.
pub fn parse_all(inputs: &[&str]) -> (r: Result<Vec<i32>, ParseIntError>)
    ensures
        match parse_all_spec(inputs@) {
            Ok(vs) => r matches Ok(v) && widened(v@) == vs,
            Err(k) => r == Err::<Vec<i32>, ParseIntError>(ParseIntError { kind: k }),
        },
{
    let mut out: Vec<i32> = Vec::new();
    let mut i: usize = 0;
    assert(widened(out@) =~= Seq::<int>::empty());
    assert(inputs@.take(0) =~= Seq::<&str>::empty());
    while i < inputs.len()
        invariant
            i <= inputs@.len(),
            parse_all_spec(inputs@.take(i as int)) == Ok::<Seq<int>, IntErrorKind>(widened(out@)),
        decreases inputs.len() - i,
    {
        assert(inputs@.take(i + 1).drop_last() =~= inputs@.take(i as int));
        let ghost old_out = out@;
        match parse_i32(inputs[i]) {
            Ok(v) => {
                out.push(v);
                assert(out@.drop_last() =~= old_out);
                assert(widened(out@) =~= widened(old_out).push(v as int));
            }
            Err(e) => {
                proof { lemma_parse_all_prefix_err(inputs@, i as int); }
                return Err(e);
            }
        }
        i += 1;
    }
    assert(inputs@.take(inputs@.len() as int) =~= inputs@);
    Ok(out)
}

proof fn lemma_parse_all_prefix_err(inputs: Seq<&str>, i: int)
    requires
        0 <= i < inputs.len(),
        parse_all_spec(inputs.take(i + 1)) is Err,
    ensures
        parse_all_spec(inputs) == parse_all_spec(inputs.take(i + 1)),
    decreases inputs.len(),
{
    if i + 1 < inputs.len() {
        assert(inputs.drop_last().take(i + 1) =~= inputs.take(i + 1));
        lemma_parse_all_prefix_err(inputs.drop_last(), i);
    } else {
        assert(inputs.take(i + 1) =~= inputs);
    }
}

/// The (trimmed) inputs that parse as `i32`, parsed, in order.
pub fn parse_valid_only(inputs: &[&str]) -> (r: Vec<i32>)
    ensures
        widened(r@) == valid_ints(inputs@),
{
    let mut out: Vec<i32> = Vec::new();
    let mut i: usize = 0;
    while i < inputs.len()
        invariant
            i <= inputs@.len(),
            widened(out@) == valid_ints(inputs@.take(i as int)),
        decreases inputs.len() - i,
    {
        assert(inputs@.take(i + 1).drop_last() =~= inputs@.take(i as int));
        match parse_i32(inputs[i]) {
            Ok(v) => {
                out.push(v);
                assert(widened(out@) =~= widened(out@.drop_last()).push(v as int));
            }
            Err(_) => {}
        }
        i += 1;
    }
    assert(inputs@.take(inputs@.len() as int) =~= inputs@);
    out
}

/// Every running total of `s` fits in an `i32`.
pub open spec fn i32_sums_fit(s: Seq<int>) -> bool {
    forall|k: int| 0 <= k <= s.len() ==> i32::MIN <= #[trigger] sum_of(s.take(k)) <= i32::MAX
}

fn sum_vec(v: &Vec<i32>) -> (r: i32)
    requires
        i32_sums_fit(widened(v@)),
    ensures
        r == sum_of(widened(v@)),
{
    let ghost w = widened(v@);
    let mut acc: i32 = 0;
    let mut i: usize = 0;
    while i < v.len()
        invariant
            w == widened(v@),
            i <= v@.len(),
            i32_sums_fit(w),
            acc == sum_of(w.take(i as int)),
        decreases v.len() - i,
    {
        proof {
            crate::seqs::lemma_sum_take_succ(w, i as int);
            assert(i32::MIN <= sum_of(w.take(i + 1)) <= i32::MAX);
        }
        acc = acc + v[i];
        i += 1;
    }
    assert(w.take(w.len() as int) =~= w);
    acc
}

/// The sum of all (trimmed) inputs parsed as `i32`, or the first parse failure.
pub fn sum_strings(inputs: &[&str]) -> (r: Result<i32, ParseIntError>)
    requires
        parse_all_spec(inputs@) matches Ok(vs) ==> i32_sums_fit(vs),
    ensures
        match parse_all_spec(inputs@) {
            Ok(vs) => r == Ok::<i32, ParseIntError>(sum_of(vs) as i32),
            Err(k) => r == Err::<i32, ParseIntError>(ParseIntError { kind: k }),
        },
{
    match parse_all(inputs) {
        Ok(v) => Ok(sum_vec(&v)),
        Err(e) => Err(e),
    }
}

/// The sum of the (trimmed) inputs that parse as `i32`.
pub fn sum_valid_strings(inputs: &[&str]) -> (r: i32)
    requires
        i32_sums_fit(valid_ints(inputs@)),
    ensures
        r == sum_of(valid_ints(inputs@)),
{
    let v = parse_valid_only(inputs);
    sum_vec(&v)
}

/// The first input that [`parse_and_validate`] rejects, if any.
pub open spec fn first_invalid(inputs: Seq<&str>, min: i32, max: i32) -> Option<int>
    decreases inputs.len(),
{
    if inputs.len() == 0 {
        None
    } else {
        match first_invalid(inputs.drop_last(), min, max) {
            Some(i) => Some(i),
            None => match i32_parse(trimmed(inputs.last()@)) {
                Ok(n) => if n < min || n > max { Some(inputs.len() - 1) } else { None },
                Err(_) => Some(inputs.len() - 1),
            },
        }
    }
}

/// Every input parsed and range-checked; the first failure wins.
pub fn validate_all(inputs: &[&str], min: i32, max: i32) -> (r: Result<Vec<i32>, AppError>)
    ensures
        match first_invalid(inputs@, min, max) {
            None => r matches Ok(v) && v@.len() == inputs@.len()
                && forall|i: int| 0 <= i < v@.len() ==> i32_parse(trimmed(inputs@[i]@)) == Ok::<int, IntErrorKind>(#[trigger] v@[i] as int),
            Some(i) => match i32_parse(trimmed(inputs@[i]@)) {
                Err(k) => r matches Err(AppError::ParseError(m)) && m@ == kind_text(k),
                Ok(n) => r == Err::<Vec<i32>, AppError>(AppError::OutOfRange { value: n as i32, min, max }),
            },
        },
{
    let mut out: Vec<i32> = Vec::new();
    let mut i: usize = 0;
    while i < inputs.len()
        invariant
            i <= inputs@.len(),
            first_invalid(inputs@.take(i as int), min, max) is None,
            out@.len() == i,
            forall|j: int| 0 <= j < i ==> i32_parse(trimmed(inputs@[j]@)) == Ok::<int, IntErrorKind>(#[trigger] out@[j] as int),
        decreases inputs.len() - i,
    {
        assert(inputs@.take(i + 1).drop_last() =~= inputs@.take(i as int));
        match parse_and_validate(inputs[i], min, max) {
            Ok(v) => {
                out.push(v);
            }
            Err(e) => {
                proof {
                    assert(first_invalid(inputs@.take(i + 1), min, max) == Some(i as int));
                    lemma_first_invalid_prefix(inputs@, i as int, min, max);
                }
                return Err(e);
            }
        }
        i += 1;
    }
    assert(inputs@.take(inputs@.len() as int) =~= inputs@);
    Ok(out)
}

proof fn lemma_first_invalid_prefix(inputs: Seq<&str>, i: int, min: i32, max: i32)
    requires
        0 <= i < inputs.len(),
        first_invalid(inputs.take(i + 1), min, max) == Some(i),
    ensures
        first_invalid(inputs, min, max) == Some(i),
    decreases inputs.len(),
{
    if i + 1 < inputs.len() {
        assert(inputs.drop_last().take(i + 1) =~= inputs.take(i + 1));
        lemma_first_invalid_prefix(inputs.drop_last(), i, min, max);
    } else {
        assert(inputs.take(i + 1) =~= inputs);
    }
}

/// User-level failures.
#[derive(Debug)]
pub enum UserError {
    NotFound(u32),
    InvalidEmail { email: String },
    PasswordTooShort { len: usize, min: usize },
}

/// Infrastructure failures.
#[derive(Debug)]
pub enum InfraError {
    Database(String),
    Network(String),
}

/// A service failure wrapping either kind.
#[derive(Debug)]
pub enum ServiceError {
    User(UserError),
    Infra(InfraError),
}

/// The message of a user error.
pub open spec fn user_error_text(e: UserError) -> Seq<char> {
    match e {
        UserError::NotFound(id) => "ユーザーが見つかりません: id="@ + nat_text(id as nat),
        UserError::InvalidEmail { email } => "メールアドレスの形式が不正です: "@ + email@,
        UserError::PasswordTooShort { len, min } =>
            "パスワードが短すぎます: "@ + nat_text(len as nat) + "文字 (最低"@ + nat_text(min as nat) + "文字必要)"@,
    }
}

/// The message of an infrastructure error.
pub open spec fn infra_error_text(e: InfraError) -> Seq<char> {
    match e {
        InfraError::Database(m) => "データベースエラー: "@ + m@,
        InfraError::Network(m) => "ネットワークエラー: "@ + m@,
    }
}

impl UserError {
    /// The error's message.
    pub fn to_string(&self) -> (s: String)
        ensures
            s@ == user_error_text(*self),
    {
        let mut s = String::new();
        match self {
            UserError::NotFound(id) => {
                s.append("ユーザーが見つかりません: id=");
                push_u64(&mut s, *id as u64);
            }
            UserError::InvalidEmail { email } => {
                s.append("メールアドレスの形式が不正です: ");
                s.append(email.as_str());
            }
            UserError::PasswordTooShort { len, min } => {
                s.append("パスワードが短すぎます: ");
                push_u64(&mut s, *len as u64);
                s.append("文字 (最低");
                push_u64(&mut s, *min as u64);
                s.append("文字必要)");
            }
        }
        s
    }
}

impl InfraError {
    /// The error's message.
    pub fn to_string(&self) -> (s: String)
        ensures
            s@ == infra_error_text(*self),
    {
        let mut s = String::new();
        match self {
            InfraError::Database(m) => {
                s.append("データベースエラー: ");
                s.append(m.as_str());
            }
            InfraError::Network(m) => {
                s.append("ネットワークエラー: ");
                s.append(m.as_str());
            }
        }
        s
    }
}

impl ServiceError {
    /// The error's message, naming the wrapped error.
    pub fn to_string(&self) -> (s: String)
        ensures
            s@ == (match *self {
                ServiceError::User(e) => "ユーザーエラー: "@ + user_error_text(e),
                ServiceError::Infra(e) => "インフラエラー: "@ + infra_error_text(e),
            }),
    {
        let mut s = String::new();
        match self {
            ServiceError::User(e) => {
                s.append("ユーザーエラー: ");
                let t = e.to_string();
                s.append(t.as_str());
            }
            ServiceError::Infra(e) => {
                s.append("インフラエラー: ");
                let t = e.to_string();
                s.append(t.as_str());
            }
        }
        s
    }
}

impl From<UserError> for ServiceError {
    fn from(e: UserError) -> (r: Self) {
        ServiceError::User(e)
    }
}

impl vstd::std_specs::convert::FromSpecImpl<UserError> for ServiceError {
    open spec fn obeys_from_spec() -> bool {
        true
    }

    open spec fn from_spec(e: UserError) -> Self {
        ServiceError::User(e)
    }
}

impl From<InfraError> for ServiceError {
    fn from(e: InfraError) -> (r: Self) {
        ServiceError::Infra(e)
    }
}

impl vstd::std_specs::convert::FromSpecImpl<InfraError> for ServiceError {
    open spec fn obeys_from_spec() -> bool {
        true
    }

    open spec fn from_spec(e: InfraError) -> Self {
        ServiceError::Infra(e)
    }
}

/// An email must contain `@`.
pub fn validate_email(email: &str) -> (r: Result<(), UserError>)
    ensures
        email@.contains('@') ==> r is Ok,
        !email@.contains('@') ==> (r matches Err(UserError::InvalidEmail { email: e }) && e@ == email@),
{
    let cs = crate::text::chars_of(email);
    let mut i: usize = 0;
    while i < cs.len()
        invariant
            cs@ == email@,
            i <= cs@.len(),
            forall|j: int| 0 <= j < i ==> cs@[j] != '@',
        decreases cs.len() - i,
    {
        if cs[i] == '@' {
            assert(email@[i as int] == '@');
            return Ok(());
        }
        i += 1;
    }
    Err(UserError::InvalidEmail { email: String::from_str(email) })
}

/// The minimum password length in bytes.
pub const MIN_PASSWORD_LEN: usize = 8;

/// A password must be at least 8 bytes long.
pub fn validate_password(password: &str) -> (r: Result<(), UserError>)
    requires
        password.spec_bytes().len() <= usize::MAX,
    ensures
        password.spec_bytes().len() >= 8 ==> r is Ok,
        password.spec_bytes().len() < 8 ==> (r matches Err(UserError::PasswordTooShort { len, min }) && len == password.spec_bytes().len() && min == 8),
{
    let len = password.len();
    if len >= MIN_PASSWORD_LEN {
        Ok(())
    } else {
        Err(UserError::PasswordTooShort { len, min: MIN_PASSWORD_LEN })
    }
}

/// A port number: `s` parsed as `u16` and nonzero; each failure has its message.
pub fn parse_port(s: &str) -> (r: Result<u16, String>)
    ensures
        match u16_parse(s@) {
            Err(_) => r matches Err(m) && m@ == "ポート番号は数値で指定してください"@,
            Ok(p) => if p == 0 {
                r matches Err(m) && m@ == "ポート番号は1以上である必要があります"@
            } else {
                r == Ok::<u16, String>(p as u16)
            },
        },
{
    let port = match str_to_u16(s) {
        Ok(p) => p,
        Err(_) => return Err(String::from_str("ポート番号は数値で指定してください")),
    };
    if port == 0 {
        return Err(String::from_str("ポート番号は1以上である必要があります"));
    }
    Ok(port)
}

/// An age must be within `0..=150`.
pub fn check_age(age: i32) -> (r: Result<(), String>)
    ensures
        0 <= age <= 150 ==> r is Ok,
        age < 0 ==> (r matches Err(m) && m@ == "年齢は0以上でなければなりません: "@ + int_text(age as int)),
        age > 150 ==> (r matches Err(m) && m@ == "現実的な年齢を入力してください: "@ + int_text(age as int)),
{
    if age < 0 {
        let mut m = String::from_str("年齢は0以上でなければなりません: ");
        push_i64(&mut m, age as i64);
        return Err(m);
    }
    if age > 150 {
        let mut m = String::from_str("現実的な年齢を入力してください: ");
        push_i64(&mut m, age as i64);
        return Err(m);
    }
    Ok(())
}

/// Validates the email, then the password, and reports success naming the email.
pub fn create_user(email: &str, password: &str) -> (r: Result<String, String>)
    requires
        password.spec_bytes().len() <= usize::MAX,
    ensures
        !email@.contains('@') ==> (r matches Err(m) && m@ == "メールアドレスのバリデーションに失敗しました"@),
        email@.contains('@') && password.spec_bytes().len() < 8 ==> (r matches Err(m) && m@ == "パスワードのバリデーションに失敗しました"@),
        email@.contains('@') && password.spec_bytes().len() >= 8 ==> (r matches Ok(m) && m@ == "ユーザー作成成功: "@ + email@),
{
    if validate_email(email).is_err() {
        return Err(String::from_str("メールアドレスのバリデーションに失敗しました"));
    }
    if validate_password(password).is_err() {
        return Err(String::from_str("パスワードのバリデーションに失敗しました"));
    }
    let mut m = String::from_str("ユーザー作成成功: ");
    m.append(email);
    Ok(m)
}


/// `Debug` text of a `Result<i32, &str>`.
pub open spec fn result_text(r: Result<i32, &str>) -> Seq<char> {
    match r {
        Ok(v) => "Ok("@ + int_text(v as int) + ")"@,
        Err(e) => "Err("@ + str_debug(e@) + ")"@,
    }
}

/// `Debug` text of an `Option<i32>`.
pub open spec fn option_text(o: Option<i32>) -> Seq<char> {
    match o {
        Some(v) => "Some("@ + int_text(v as int) + ")"@,
        None => "None"@,
    }
}

/// `Debug` text of an `Option<&str>`.
pub open spec fn option_str_text(o: Option<&str>) -> Seq<char> {
    match o {
        Some(s) => "Some("@ + str_debug(s@) + ")"@,
        None => "None"@,
    }
}

/// `Debug` text of a `Result<Option<i32>, &str>`.
pub open spec fn result_option_text(r: Result<Option<i32>, &str>) -> Seq<char> {
    match r {
        Ok(o) => "Ok("@ + option_text(o) + ")"@,
        Err(e) => "Err("@ + str_debug(e@) + ")"@,
    }
}

fn push_str_debug(out: &mut String, s: &str)
    ensures
        final(out)@ == old(out)@ + str_debug(s@),
{
    let d = str_debug_string(s);
    out.append(d.as_str());
}

fn show_result(label: &str, r: Result<i32, &str>) -> (s: String)
    ensures
        s@ == label@ + result_text(r),
{
    let mut s = String::from_str(label);
    match r {
        Ok(v) => {
            s.append("Ok(");
            push_i64(&mut s, v as i64);
            s.append(")");
        }
        Err(e) => {
            s.append("Err(");
            push_str_debug(&mut s, e);
            s.append(")");
        }
    }
    s
}

fn show_option(label: &str, o: Option<i32>) -> (s: String)
    ensures
        s@ == label@ + option_text(o),
{
    let mut s = String::from_str(label);
    match o {
        Some(v) => {
            s.append("Some(");
            push_i64(&mut s, v as i64);
            s.append(")");
        }
        None => {
            s.append("None");
        }
    }
    s
}

fn show_option_str(label: &str, o: Option<&str>) -> (s: String)
    ensures
        s@ == label@ + option_str_text(o),
{
    let mut s = String::from_str(label);
    match o {
        Some(t) => {
            s.append("Some(");
            push_str_debug(&mut s, t);
            s.append(")");
        }
        None => {
            s.append("None");
        }
    }
    s
}

fn show_result_option(label: &str, r: Result<Option<i32>, &str>) -> (s: String)
    ensures
        s@ == label@ + result_option_text(r),
{
    let mut s = String::from_str(label);
    match r {
        Ok(o) => {
            s.append("Ok(");
            match o {
                Some(v) => {
                    s.append("Some(");
                    push_i64(&mut s, v as i64);
                    s.append(")");
                }
                None => {
                    s.append("None");
                }
            }
            s.append(")");
        }
        Err(e) => {
            s.append("Err(");
            push_str_debug(&mut s, e);
            s.append(")");
        }
    }
    s
}

/// `Option<Result<T, E>>` to `Result<Option<T>, E>`.
pub fn transpose<'a>(o: Option<Result<i32, &'a str>>) -> (r: Result<Option<i32>, &'a str>)
    ensures
        r == (match o {
            None => Ok(None),
            Some(Ok(v)) => Ok(Some(v)),
            Some(Err(e)) => Err(e),
        }),
{
    match o {
        None => Ok(None),
        Some(Ok(v)) => Ok(Some(v)),
        Some(Err(e)) => Err(e),
    }
}

/// Conversions between `Option` and `Result`, each line showing an
/// expression and the `Debug` text of its value.
pub fn conversion_demo() -> (r: Vec<String>)
    ensures
        r@.len() == 9,
        r@[0]@ == "Some(42).ok_or(...) = "@ + result_text(Ok(42)),
        r@[1]@ == "None.ok_or(...) = "@ + result_text(Err("値がありませんでした")),
        r@[2]@ == "None.ok_or_else(...) = "@ + result_text(Err("遅延エラー生成")),
        r@[3]@ == "Ok(42).ok() = "@ + option_text(Some(42)),
        r@[4]@ == "Err(...).ok() = "@ + option_text(None),
        r@[5]@ == "Ok(42).err() = "@ + option_str_text(None),
        r@[6]@ == "Some(Ok(42)).transpose() = "@ + result_option_text(Ok(Some(42))),
        r@[7]@ == "Some(Err(...)).transpose() = "@ + result_option_text(Err("失敗")),
        r@[8]@ == "None.transpose() = "@ + result_option_text(Ok(None)),
{
    let mut results: Vec<String> = Vec::new();
    let opt_some: Option<i32> = Some(42);
    let res: Result<i32, &str> = opt_some.ok_or("値がありませんでした");
    results.push(show_result("Some(42).ok_or(...) = ", res));
    let opt_none: Option<i32> = None;
    let res2: Result<i32, &str> = opt_none.ok_or("値がありませんでした");
    results.push(show_result("None.ok_or(...) = ", res2));
    let make_error = || -> (e: &str)
        ensures
            e@ == "遅延エラー生成"@,
    {
        "遅延エラー生成"
    };
    let res3: Result<i32, &str> = opt_none.ok_or_else(make_error);
    results.push(show_result("None.ok_or_else(...) = ", res3));
    let ok_val: Result<i32, &str> = Ok(42);
    let opt: Option<i32> = ok_val.ok();
    results.push(show_option("Ok(42).ok() = ", opt));
    let err_val: Result<i32, &str> = Err("失敗");
    let opt2: Option<i32> = err_val.ok();
    results.push(show_option("Err(...).ok() = ", opt2));
    let ok_val2: Result<i32, &str> = Ok(42);
    let opt_err: Option<&str> = ok_val2.err();
    results.push(show_option_str("Ok(42).err() = ", opt_err));
    let some_ok: Option<Result<i32, &str>> = Some(Ok(42));
    results.push(show_result_option("Some(Ok(42)).transpose() = ", transpose(some_ok)));
    let some_err: Option<Result<i32, &str>> = Some(Err("失敗"));
    results.push(show_result_option("Some(Err(...)).transpose() = ", transpose(some_err)));
    let none_val: Option<Result<i32, &str>> = None;
    results.push(show_result_option("None.transpose() = ", transpose(none_val)));
    results
}

} // verus!
