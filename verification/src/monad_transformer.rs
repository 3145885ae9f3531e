//! Stacking effects by hand: `Option`/`Result` transposition, a writer that
//! carries a log next to its value, a state-passing computation, and one
//! error type for several failure sources.
use vstd::prelude::*;
use vstd::string::*;
use crate::text::{int_text, push_i64, str_eq};
use crate::numparse::{i32_parse, kind_text, str_to_i32, ParseIntError};
use crate::composition::texts;

verus! {

// ─── Transposition ─────────────────────────────────────────────────────

/// The optional string parsed as an `i32`, with the `Option` moved inside
/// the `Result`: no string gives `Ok(None)`.
pub fn parse_optional_number(s: Option<&str>) -> (r: Result<Option<i32>, ParseIntError>)
    ensures
        match s {
            None => r == Ok::<Option<i32>, ParseIntError>(None),
            Some(v) => match i32_parse(v@) {
                Ok(n) => r == Ok::<Option<i32>, ParseIntError>(Some(n as i32)),
                Err(k) => r == Err::<Option<i32>, ParseIntError>(ParseIntError { kind: k }),
            },
        },
{
    match s {
        None => Ok(None),
        Some(v) => match str_to_i32(v) {
            Ok(n) => Ok(Some(n)),
            Err(e) => Err(e),
        },
    }
}

// ─── Writer ────────────────────────────────────────────────────────────

/// A value together with the log lines written while computing it.
#[derive(Debug, Clone)]
pub struct Writer<A> {
    pub value: A,
    pub log: Vec<String>,
}

impl<A> Writer<A> {
    /// A value with an empty log.
    pub fn new(value: A) -> (w: Self)
        ensures
            w.value == value,
            w.log@ == Seq::<String>::empty(),
    {
        Writer { value, log: Vec::new() }
    }

    /// Adds one line to the end of the log.
    pub fn tell(self, message: &str) -> (w: Self)
        ensures
            w.value == self.value,
            texts(w.log@) == texts(self.log@).push(message@),
    {
        let mut w = self;
        w.log.push(String::from_str(message));
        proof {
            assert(texts(w.log@) =~= texts(self.log@).push(message@));
        }
        w
    }

    /// Applies `f` to the value; the log stays as it is.
    pub fn map<B, F>(self, f: F) -> (w: Writer<B>)
        where
            F: FnOnce(A) -> B,
        requires
            f.requires((self.value,)),
        ensures
            f.ensures((self.value,), w.value),
            w.log@ == self.log@,
    {
        Writer { value: f(self.value), log: self.log }
    }

    /// Runs `f` on the value; the result carries this log followed by `f`'s.
    pub fn and_then<B, F>(self, f: F) -> (w: Writer<B>)
        where
            F: FnOnce(A) -> Writer<B>,
        requires
            f.requires((self.value,)),
        ensures
            exists|next: Writer<B>| #[trigger] f.ensures((self.value,), next)
                && w.value == next.value && w.log@ == self.log@ + next.log@,
    {
        let mut result = f(self.value);
        let ghost next = result;
        let mut combined_log = self.log;
        combined_log.append(&mut result.log);
        Writer { value: result.value, log: combined_log }
    }
}

/// The line `"<n> を2倍にした → <2n>"`.
pub open spec fn doubled_line(n: int) -> Seq<char> {
    int_text(n) + " を2倍にした → "@ + int_text(2 * n)
}

/// The line `"<n> に10を足した → <n + 10>"`.
pub open spec fn added_ten_line(n: int) -> Seq<char> {
    int_text(n) + " に10を足した → "@ + int_text(n + 10)
}

/// `2n`, logged.
pub fn double_with_log(n: i32) -> (w: Writer<i32>)
    requires
        i32::MIN <= 2 * n <= i32::MAX,
    ensures
        w.value == 2 * n,
        texts(w.log@) == seq![doubled_line(n as int)],
{
    let d = n * 2;
    let mut line = String::new();
    push_i64(&mut line, n as i64);
    line.append(" を2倍にした → ");
    push_i64(&mut line, d as i64);
    let w = Writer::new(d).tell(line.as_str());
    assert(texts(w.log@) =~= seq![doubled_line(n as int)]);
    w
}

/// `n + 10`, logged.
pub fn add_ten_with_log(n: i32) -> (w: Writer<i32>)
    requires
        n + 10 <= i32::MAX,
    ensures
        w.value == n + 10,
        texts(w.log@) == seq![added_ten_line(n as int)],
{
    let d = n + 10;
    let mut line = String::new();
    push_i64(&mut line, n as i64);
    line.append(" に10を足した → ");
    push_i64(&mut line, d as i64);
    let w = Writer::new(d).tell(line.as_str());
    assert(texts(w.log@) =~= seq![added_ten_line(n as int)]);
    w
}

// ─── State ─────────────────────────────────────────────────────────────

/// A computation that takes a state and gives a value and the next state.
pub struct State<F> {
    pub run: F,
}

impl<F> State<F> {
    /// Wraps a state-passing function.
    pub fn new<S, A>(f: F) -> (st: Self)
        where
            F: FnOnce(S) -> (A, S),
        ensures
            st.run == f,
    {
        State { run: f }
    }

    /// Runs the computation from the state `s`.
    pub fn run_state<S, A>(self, s: S) -> (r: (A, S))
        where
            F: FnOnce(S) -> (A, S),
        requires
            self.run.requires((s,)),
        ensures
            self.run.ensures((s,), r),
    {
        (self.run)(s)
    }

    /// The computation whose value is `f` applied to this one's value.
    pub fn map<S, A, B, G>(self, f: G) -> (st: State<impl FnOnce(S) -> (B, S)>)
        where
            F: FnOnce(S) -> (A, S),
            G: FnOnce(A) -> B,
        ensures
            forall|s: S| self.run.requires((s,))
                && (forall|a: A, s2: S| #[trigger] self.run.ensures((s,), (a, s2)) ==> f.requires((a,)))
                ==> #[trigger] st.run.requires((s,)),
            forall|s: S, b: B, s2: S| #[trigger] st.run.ensures((s,), (b, s2))
                ==> exists|a: A| #[trigger] self.run.ensures((s,), (a, s2)) && f.ensures((a,), b),
    {
        let run = self.run;
        let step = move |s: S| -> (r: (B, S))
            requires
                run.requires((s,)),
                forall|a: A, s2: S| #[trigger] run.ensures((s,), (a, s2)) ==> f.requires((a,)),
            ensures
                exists|a: A| #[trigger] run.ensures((s,), (a, r.1)) && f.ensures((a,), r.0),
        {
            let p = run(s);
            let ghost before = p;
            let (a, s2) = p;
            let b = f(a);
            assert(run.ensures((s,), (before.0, s2)));
            assert(f.ensures((before.0,), b));
            let r = (b, s2);
            assert(r.0 == b && r.1 == s2);
            r
        };
        State { run: step }
    }

    /// The computation that runs this one, hands its value to `f`, and runs
    /// what `f` returns from the state this one left.
    pub fn and_then<S, A, B, G, H>(self, f: H) -> (st: State<impl FnOnce(S) -> (B, S)>)
        where
            F: FnOnce(S) -> (A, S),
            G: FnOnce(S) -> (B, S),
            H: FnOnce(A) -> State<G>,
        ensures
            forall|s: S| self.run.requires((s,))
                && (forall|a: A, s2: S| #[trigger] self.run.ensures((s,), (a, s2)) ==> f.requires((a,)))
                && (forall|a: A, s2: S, next: State<G>| #[trigger] self.run.ensures((s,), (a, s2)) && #[trigger] f.ensures((a,), next)
                    ==> next.run.requires((s2,)))
                ==> #[trigger] st.run.requires((s,)),
            forall|s: S, b: B, s3: S| #[trigger] st.run.ensures((s,), (b, s3))
                ==> exists|a: A, s2: S, next: State<G>| #[trigger] self.run.ensures((s,), (a, s2))
                    && #[trigger] f.ensures((a,), next) && next.run.ensures((s2,), (b, s3)),
    {
        let run = self.run;
        let step = move |s: S| -> (r: (B, S))
            requires
                run.requires((s,)),
                forall|a: A, s2: S| #[trigger] run.ensures((s,), (a, s2)) ==> f.requires((a,)),
                forall|a: A, s2: S, next: State<G>| #[trigger] run.ensures((s,), (a, s2)) && #[trigger] f.ensures((a,), next)
                    ==> next.run.requires((s2,)),
            ensures
                exists|a: A, s2: S, next: State<G>| #[trigger] run.ensures((s,), (a, s2))
                    && #[trigger] f.ensures((a,), next) && next.run.ensures((s2,), r),
        {
            let p = run(s);
            let ghost before = p;
            let (a, s2) = p;
            let next = f(a);
            let ghost next_g = next;
            assert(run.ensures((s,), (before.0, s2)));
            let r = (next.run)(s2);
            assert(f.ensures((before.0,), next_g));
            r
        };
        State { run: step }
    }
}

/// The computation that reads the state: its value is a clone of the state,
/// which it leaves as it is.
pub fn get<S: Clone>() -> (st: State<impl FnOnce(S) -> (S, S)>)
    ensures
        forall|s: S| #[trigger] st.run.requires((s,)),
        forall|s: S, r: (S, S)| #[trigger] st.run.ensures((s,), r) ==> r.1 == s && cloned(s, r.0),
{
    let step = |s: S| -> (r: (S, S))
        ensures
            r.1 == s && cloned(s, r.0),
    {
        (s.clone(), s)
    };
    State { run: step }
}

/// The computation that replaces the state with `new_state`.
pub fn put<S>(new_state: S) -> (st: State<impl FnOnce(S) -> ((), S)>)
    ensures
        forall|s: S| #[trigger] st.run.requires((s,)),
        forall|s: S, r: ((), S)| #[trigger] st.run.ensures((s,), r) ==> r.1 == new_state,
{
    let step = move |_s: S| -> (r: ((), S))
        ensures
            r.1 == new_state,
    {
        ((), new_state)
    };
    State { run: step }
}

// ─── One error type for several sources ────────────────────────────────

/// Why a lookup-and-parse failed.
#[derive(Debug, PartialEq)]
pub enum AppError {
    Parse(String),
    Logic(String),
    NotFound,
}

impl AppError {
    /// A parse error carrying the parse failure's message.
    pub fn from_parse_error(e: ParseIntError) -> (r: Self)
        ensures
            r matches AppError::Parse(m) && m@ == kind_text(e.kind),
    {
        AppError::Parse(e.to_string())
    }
}

/// The message of a negative number: `"<n> は負の数"`.
pub open spec fn negative_text(n: int) -> Seq<char> {
    int_text(n) + " は負の数"@
}

/// `s` parsed as an `i32` and accepted only when it is not negative.
pub fn parse_positive(s: &str) -> (r: Result<u32, AppError>)
    ensures
        match i32_parse(s@) {
            Err(k) => r matches Err(AppError::Parse(m)) && m@ == kind_text(k),
            Ok(n) => if n < 0 {
                r matches Err(AppError::Logic(m)) && m@ == negative_text(n)
            } else {
                r == Ok::<u32, AppError>(n as u32)
            },
        },
{
    let n: i32 = match str_to_i32(s) {
        Ok(n) => n,
        Err(e) => return Err(AppError::from_parse_error(e)),
    };
    if n < 0 {
        let mut m = String::new();
        push_i64(&mut m, n as i64);
        m.append(" は負の数");
        return Err(AppError::Logic(m));
    }
    Ok(n as u32)
}

/// The value of the first pair with key `key`, parsed by [`parse_positive`].
pub fn lookup_and_parse(data: &[(&str, &str)], key: &str) -> (r: Result<u32, AppError>)
    ensures
        (forall|i: int| 0 <= i < data@.len() ==> (#[trigger] data@[i]).0@ != key@) ==> r == Err::<u32, AppError>(AppError::NotFound),
        forall|i: int| 0 <= i < data@.len() && (#[trigger] data@[i]).0@ == key@
            && (forall|j: int| 0 <= j < i ==> (#[trigger] data@[j]).0@ != key@) ==>
            match i32_parse(data@[i].1@) {
                Err(k) => r matches Err(AppError::Parse(m)) && m@ == kind_text(k),
                Ok(n) => if n < 0 {
                    r matches Err(AppError::Logic(m)) && m@ == negative_text(n)
                } else {
                    r == Ok::<u32, AppError>(n as u32)
                },
            },
{
    let mut i: usize = 0;
    while i < data.len()
        invariant
            i <= data@.len(),
            forall|j: int| 0 <= j < i ==> (#[trigger] data@[j]).0@ != key@,
        decreases data.len() - i,
    {
        let (k, v) = data[i];
        if str_eq(k, key) {
            return parse_positive(v);
        }
        i += 1;
    }
    Err(AppError::NotFound)
}

} // verus!
