//! Function composition and pipelines, a builder, parser combinators, and
//! newtypes that check their invariants on construction.
use vstd::prelude::*;
use vstd::string::*;
use crate::text::{nat_text, push_char, push_u64, chars_of};

verus! {

/// `c` is a possible result of applying `f` to `a` and `g` to what came out.
pub open spec fn chained<A, B, C, F: Fn(A) -> B, G: Fn(B) -> C>(f: F, g: G, a: A, c: C) -> bool {
    exists|b: B| f.ensures((a,), b) && g.ensures((b,), c)
}

/// Composition has identities: with a function that returns its argument
/// placed before or after `f`, every result is a result of `f` alone.
pub proof fn law_compose_identity<A, C, I: Fn(A) -> A, J: Fn(C) -> C, F: Fn(A) -> C>(id_a: I, id_c: J, f: F, a: A, c: C)
    requires
        forall|x: A, y: A| id_a.ensures((x,), y) ==> y == x,
        forall|x: C, y: C| id_c.ensures((x,), y) ==> y == x,
    ensures
        chained(id_a, f, a, c) ==> f.ensures((a,), c),
        chained(f, id_c, a, c) ==> f.ensures((a,), c),
{
}

/// Composition is associative: `h ∘ (g ∘ f)` and `(h ∘ g) ∘ f` have the same results.
pub proof fn law_compose_associative<A, B, C, D, F: Fn(A) -> B, G: Fn(B) -> C, H: Fn(C) -> D>(f: F, g: G, h: H, a: A, d: D)
    ensures
        (exists|c: C| chained(f, g, a, c) && h.ensures((c,), d))
            <==> (exists|b: B| f.ensures((a,), b) && chained(g, h, b, d)),
{
    if exists|c: C| chained(f, g, a, c) && h.ensures((c,), d) {
        let c = choose|c: C| chained(f, g, a, c) && h.ensures((c,), d);
        let b = choose|b: B| f.ensures((a,), b) && g.ensures((b,), c);
        assert(chained(g, h, b, d));
    }
    if exists|b: B| f.ensures((a,), b) && chained(g, h, b, d) {
        let b = choose|b: B| f.ensures((a,), b) && chained(g, h, b, d);
        let c = choose|c: C| g.ensures((b,), c) && h.ensures((c,), d);
        assert(chained(f, g, a, c));
    }
}

/// `g ∘ f`: apply `f`, then `g`.
pub fn compose<A, B, C, F, G>(f: F, g: G) -> (h: impl Fn(A) -> C)
    where
        F: Fn(A) -> B,
        G: Fn(B) -> C,
    requires
        forall|a: A| #[trigger] f.requires((a,)),
        forall|a: A, b: B| #[trigger] f.ensures((a,), b) ==> g.requires((b,)),
    ensures
        forall|a: A| #[trigger] h.requires((a,)),
        forall|a: A, c: C| h.ensures((a,), c) ==> chained(f, g, a, c),
{
    move |x: A| -> (c: C)
        requires
            forall|a: A| #[trigger] f.requires((a,)),
            forall|a: A, b: B| #[trigger] f.ensures((a,), b) ==> g.requires((b,)),
        ensures
            exists|b: B| f.ensures((x,), b) && g.ensures((b,), c),
    {
        let b = f(x);
        g(b)
    }
}

/// Left-to-right pipeline of two functions: `f`, then `g`.
pub fn pipe<A, B, C, F, G>(f: F, g: G) -> (h: impl Fn(A) -> C)
    where
        F: Fn(A) -> B,
        G: Fn(B) -> C,
    requires
        forall|a: A| #[trigger] f.requires((a,)),
        forall|a: A, b: B| #[trigger] f.ensures((a,), b) ==> g.requires((b,)),
    ensures
        forall|a: A| #[trigger] h.requires((a,)),
        forall|a: A, c: C| h.ensures((a,), c) ==> exists|b: B| f.ensures((a,), b) && g.ensures((b,), c),
{
    move |x: A| -> (c: C)
        requires
            forall|a: A| #[trigger] f.requires((a,)),
            forall|a: A, b: B| #[trigger] f.ensures((a,), b) ==> g.requires((b,)),
        ensures
            exists|b: B| f.ensures((x,), b) && g.ensures((b,), c),
    {
        let b = f(x);
        g(b)
    }
}

/// Left-to-right pipeline of three functions: `f`, then `g`, then `h`.
pub fn pipe3<A, B, C, D, F, G, H>(f: F, g: G, h: H) -> (p: impl Fn(A) -> D)
    where
        F: Fn(A) -> B,
        G: Fn(B) -> C,
        H: Fn(C) -> D,
    requires
        forall|a: A| #[trigger] f.requires((a,)),
        forall|a: A, b: B| #[trigger] f.ensures((a,), b) ==> g.requires((b,)),
        forall|b: B, c: C| #[trigger] g.ensures((b,), c) ==> h.requires((c,)),
    ensures
        forall|a: A| #[trigger] p.requires((a,)),
        forall|a: A, d: D| p.ensures((a,), d) ==> exists|b: B, c: C| f.ensures((a,), b) && g.ensures((b,), c) && h.ensures((c,), d),
{
    move |x: A| -> (d: D)
        requires
            forall|a: A| #[trigger] f.requires((a,)),
            forall|a: A, b: B| #[trigger] f.ensures((a,), b) ==> g.requires((b,)),
            forall|b: B, c: C| #[trigger] g.ensures((b,), c) ==> h.requires((c,)),
        ensures
            exists|b: B, c: C| f.ensures((x,), b) && g.ensures((b,), c) && h.ensures((c,), d),
    {
        let b = f(x);
        let c = g(b);
        h(c)
    }
}

/// Parts joined with a separator between consecutive parts.
pub open spec fn joined(parts: Seq<Seq<char>>, sep: Seq<char>) -> Seq<char>
    decreases parts.len(),
{
    if parts.len() == 0 {
        Seq::empty()
    } else if parts.len() == 1 {
        parts[0]
    } else {
        joined(parts.drop_last(), sep) + sep + parts.last()
    }
}

/// The text of every string in a vector.
pub open spec fn texts(v: Seq<String>) -> Seq<Seq<char>> {
    v.map_values(|s: String| s@)
}

/// Appends `parts` joined with `sep` to `out`.
pub fn push_joined(out: &mut String, parts: &Vec<String>, sep: &str)
    ensures
        final(out)@ == old(out)@ + joined(texts(parts@), sep@),
{
    let ghost start = out@;
    let mut i: usize = 0;
    while i < parts.len()
        invariant
            i <= parts@.len(),
            out@ == start + joined(texts(parts@).take(i as int), sep@),
        decreases parts.len() - i,
    {
        assert(texts(parts@).take(i + 1).drop_last() =~= texts(parts@).take(i as int));
        if i > 0 {
            out.append(sep);
        }
        out.append(parts[i].as_str());
        i += 1;
        assert(out@ =~= start + joined(texts(parts@).take(i as int), sep@));
    }
    assert(texts(parts@).take(parts@.len() as int) =~= texts(parts@));
}

/// A SQL `SELECT` built up step by step.
#[derive(Debug)]
pub struct QueryBuilder {
    table: String,
    columns: Vec<String>,
    conditions: Vec<String>,
    limit: Option<usize>,
    order_by: Option<String>,
}

/// The text [`QueryBuilder::build`] produces for the given parts.
pub open spec fn sql_text(
    table: Seq<char>,
    columns: Seq<Seq<char>>,
    conditions: Seq<Seq<char>>,
    order_by: Option<Seq<char>>,
    limit: Option<usize>,
) -> Seq<char> {
    let cols = if columns.len() == 0 { seq!['*'] } else { joined(columns, ", "@) };
    let base = "SELECT "@ + cols + " FROM "@ + table;
    let with_where = if conditions.len() == 0 { base } else { base + " WHERE "@ + joined(conditions, " AND "@) };
    let with_order = match order_by {
        Some(o) => with_where + " ORDER BY "@ + o,
        None => with_where,
    };
    match limit {
        Some(n) => with_order + " LIMIT "@ + nat_text(n as nat),
        None => with_order,
    }
}

/// How the clauses of a built query relate: a limit appends `" LIMIT "` and
/// the number's decimal digits to the query built without it, whether or not
/// an ordering is set; an ordering appends `" ORDER BY "` and the column to
/// the query built without ordering and limit; conditions append
/// `" WHERE "` and the conditions joined by `" AND "` to the bare query; and
/// the bare query with no columns selects `*` from the table.
pub proof fn law_sql_clauses(
    table: Seq<char>,
    columns: Seq<Seq<char>>,
    conditions: Seq<Seq<char>>,
    order_by: Option<Seq<char>>,
    n: usize,
)
    ensures
        sql_text(table, columns, conditions, order_by, Some(n))
            == sql_text(table, columns, conditions, order_by, None) + " LIMIT "@ + nat_text(n as nat),
        order_by matches Some(o) ==> sql_text(table, columns, conditions, order_by, None)
            == sql_text(table, columns, conditions, None, None) + " ORDER BY "@ + o,
        conditions.len() > 0 ==> sql_text(table, columns, conditions, None, None)
            == sql_text(table, columns, Seq::empty(), None, None) + " WHERE "@ + joined(conditions, " AND "@),
        sql_text(table, Seq::empty(), Seq::empty(), None, None) == "SELECT * FROM "@ + table,
{
    assert("SELECT "@ + seq!['*'] + " FROM "@ + table =~= "SELECT * FROM "@ + table) by {
        reveal_strlit("SELECT ");
        reveal_strlit(" FROM ");
        reveal_strlit("SELECT * FROM ");
    }
}

impl QueryBuilder {
    /// The table name.
    pub closed spec fn table_view(&self) -> Seq<char> {
        self.table@
    }

    /// The selected columns, in order.
    pub closed spec fn columns_view(&self) -> Seq<Seq<char>> {
        texts(self.columns@)
    }

    /// The `WHERE` conditions, in order.
    pub closed spec fn conditions_view(&self) -> Seq<Seq<char>> {
        texts(self.conditions@)
    }

    /// The `ORDER BY` column, if set.
    pub closed spec fn order_view(&self) -> Option<Seq<char>> {
        match self.order_by {
            Some(s) => Some(s@),
            None => None,
        }
    }

    /// The `LIMIT`, if set.
    pub closed spec fn limit_view(&self) -> Option<usize> {
        self.limit
    }

    /// A query on `table` with nothing else set.
    pub fn new(table: &str) -> (q: Self)
        ensures
            q.table_view() == table@,
            q.columns_view() == Seq::<Seq<char>>::empty(),
            q.conditions_view() == Seq::<Seq<char>>::empty(),
            q.order_view() is None,
            q.limit_view() is None,
    {
        let q = QueryBuilder {
            table: String::from_str(table),
            columns: Vec::new(),
            conditions: Vec::new(),
            limit: None,
            order_by: None,
        };
        assert(texts(q.columns@) =~= Seq::<Seq<char>>::empty());
        assert(texts(q.conditions@) =~= Seq::<Seq<char>>::empty());
        q
    }

    /// Adds a selected column.
    pub fn select(self, column: &str) -> (q: Self)
        ensures
            q.table_view() == self.table_view(),
            q.columns_view() == self.columns_view().push(column@),
            q.conditions_view() == self.conditions_view(),
            q.order_view() == self.order_view(),
            q.limit_view() == self.limit_view(),
    {
        let mut q = self;
        q.columns.push(String::from_str(column));
        assert(texts(q.columns@) =~= texts(self.columns@).push(column@));
        q
    }

    /// Adds a `WHERE` condition (conditions are joined with `AND`).
    pub fn where_clause(self, condition: &str) -> (q: Self)
        ensures
            q.table_view() == self.table_view(),
            q.columns_view() == self.columns_view(),
            q.conditions_view() == self.conditions_view().push(condition@),
            q.order_view() == self.order_view(),
            q.limit_view() == self.limit_view(),
    {
        let mut q = self;
        q.conditions.push(String::from_str(condition));
        assert(texts(q.conditions@) =~= texts(self.conditions@).push(condition@));
        q
    }

    /// Sets the row limit.
    pub fn limit(self, n: usize) -> (q: Self)
        ensures
            q.table_view() == self.table_view(),
            q.columns_view() == self.columns_view(),
            q.conditions_view() == self.conditions_view(),
            q.order_view() == self.order_view(),
            q.limit_view() == Some(n),
    {
        let mut q = self;
        q.limit = Some(n);
        q
    }

    /// Sets the ordering column.
    pub fn order_by(self, column: &str) -> (q: Self)
        ensures
            q.table_view() == self.table_view(),
            q.columns_view() == self.columns_view(),
            q.conditions_view() == self.conditions_view(),
            q.order_view() == Some(column@),
            q.limit_view() == self.limit_view(),
    {
        let mut q = self;
        q.order_by = Some(String::from_str(column));
        q
    }

    /// The SQL text: columns (or `*`), table, conditions, ordering, limit.
    pub fn build(self) -> (sql: String)
        ensures
            sql@ == sql_text(self.table_view(), self.columns_view(), self.conditions_view(), self.order_view(), self.limit_view()),
    {
        let mut sql = String::from_str("SELECT ");
        if self.columns.len() == 0 {
            push_char(&mut sql, '*');
        } else {
            push_joined(&mut sql, &self.columns, ", ");
        }
        sql.append(" FROM ");
        sql.append(self.table.as_str());
        if self.conditions.len() != 0 {
            sql.append(" WHERE ");
            push_joined(&mut sql, &self.conditions, " AND ");
        }
        match &self.order_by {
            Some(order) => {
                sql.append(" ORDER BY ");
                sql.append(order.as_str());
            }
            None => {}
        }
        match self.limit {
            Some(n) => {
                sql.append(" LIMIT ");
                push_u64(&mut sql, n as u64);
            }
            None => {}
        }
        proof {
            reveal_strlit("SELECT ");
        }
        sql
    }
}

/// A parser's outcome: the rest of the input and the value, or a message.
pub type ParseResult<'a, T> = Result<(&'a str, T), String>;

/// The message of [`char_parser`] when `s` does not start with `expected`.
pub open spec fn char_mismatch_text(expected: char, s: Seq<char>) -> Seq<char> {
    if s.len() == 0 {
        "expected '"@.push(expected) + "', got end of input"@
    } else {
        ("expected '"@.push(expected) + "', got '"@).push(s[0]).push('\'')
    }
}

/// The message of [`satisfy`] when `s` is empty or its first character is refused.
pub open spec fn unexpected_text(s: Seq<char>) -> Seq<char> {
    if s.len() == 0 {
        "unexpected end of input"@
    } else {
        "unexpected char '"@.push(s[0]).push('\'')
    }
}

/// A parser that accepts exactly `expected` as the first character.
pub fn char_parser(expected: char) -> (p: impl Fn(&str) -> ParseResult<char>)
    ensures
        forall|s: &str| #[trigger] p.requires((s,)),
        forall|s: &str, r: ParseResult<char>| p.ensures((s,), r) ==> match r {
            Ok((rest, c)) => s@.len() > 0 && s@[0] == expected && c == expected && rest@ == s@.drop_first(),
            Err(m) => (s@.len() == 0 || s@[0] != expected) && m@ == char_mismatch_text(expected, s@),
        },
{
    move |input: &str| -> (r: ParseResult<char>)
        ensures
            match r {
                Ok((rest, c)) => input@.len() > 0 && input@[0] == expected && c == expected && rest@ == input@.drop_first(),
                Err(m) => (input@.len() == 0 || input@[0] != expected) && m@ == char_mismatch_text(expected, input@),
            },
    {
        let n = input.unicode_len();
        if n == 0 {
            let mut m = String::from_str("expected '");
            push_char(&mut m, expected);
            m.append("', got end of input");
            return Err(m);
        }
        let c = input.get_char(0);
        if c == expected {
            let rest = input.substring_char(1, n);
            assert(rest@ =~= input@.drop_first());
            Ok((rest, c))
        } else {
            let mut m = String::from_str("expected '");
            push_char(&mut m, expected);
            m.append("', got '");
            push_char(&mut m, c);
            push_char(&mut m, '\'');
            Err(m)
        }
    }
}

/// A parser that accepts one character for which `predicate` holds.
pub fn satisfy<P: Fn(char) -> bool>(predicate: P) -> (p: impl Fn(&str) -> ParseResult<char>)
    requires
        forall|c: char| #[trigger] predicate.requires((c,)),
    ensures
        forall|s: &str| #[trigger] p.requires((s,)),
        forall|s: &str, r: ParseResult<char>| p.ensures((s,), r) ==> match r {
            Ok((rest, c)) => s@.len() > 0 && c == s@[0] && predicate.ensures((c,), true) && rest@ == s@.drop_first(),
            Err(m) => (s@.len() == 0 || predicate.ensures((s@[0],), false)) && m@ == unexpected_text(s@),
        },
{
    move |input: &str| -> (r: ParseResult<char>)
        requires
            forall|c: char| #[trigger] predicate.requires((c,)),
        ensures
            match r {
                Ok((rest, c)) => input@.len() > 0 && c == input@[0] && predicate.ensures((c,), true) && rest@ == input@.drop_first(),
                Err(m) => (input@.len() == 0 || predicate.ensures((input@[0],), false)) && m@ == unexpected_text(input@),
            },
    {
        let n = input.unicode_len();
        if n == 0 {
            return Err(String::from_str("unexpected end of input"));
        }
        let c = input.get_char(0);
        if predicate(c) {
            let rest = input.substring_char(1, n);
            assert(rest@ =~= input@.drop_first());
            Ok((rest, c))
        } else {
            let mut m = String::from_str("unexpected char '");
            push_char(&mut m, c);
            push_char(&mut m, '\'');
            Err(m)
        }
    }
}

/// Runs `pa`, then `pb` on what is left; both values are returned as a pair.
pub fn and_then_parser<'a, A, B, PA, PB>(pa: PA, pb: PB) -> (p: impl Fn(&'a str) -> Result<(&'a str, (A, B)), String>)
    where
        PA: Fn(&'a str) -> Result<(&'a str, A), String>,
        PB: Fn(&'a str) -> Result<(&'a str, B), String>,
    requires
        forall|s: &'a str| #[trigger] pa.requires((s,)),
        forall|s: &'a str| #[trigger] pb.requires((s,)),
    ensures
        forall|s: &'a str| #[trigger] p.requires((s,)),
        forall|s: &'a str, rest2: &'a str, a: A, b: B| p.ensures((s,), Ok::<(&'a str, (A, B)), String>((rest2, (a, b)))) ==> exists|rest: &'a str| pa.ensures((s,), Ok::<(&'a str, A), String>((rest, a))) && pb.ensures((rest,), Ok::<(&'a str, B), String>((rest2, b))),
        forall|s: &'a str, m: String| p.ensures((s,), Err::<(&'a str, (A, B)), String>(m)) ==> pa.ensures((s,), Err::<(&'a str, A), String>(m)) || exists|rest: &'a str, a: A| pa.ensures((s,), Ok::<(&'a str, A), String>((rest, a))) && pb.ensures((rest,), Err::<(&'a str, B), String>(m)),
{
    move |input: &'a str| -> (r: Result<(&'a str, (A, B)), String>)
        requires
            forall|s: &'a str| #[trigger] pa.requires((s,)),
            forall|s: &'a str| #[trigger] pb.requires((s,)),
        ensures
            forall|rest2: &'a str, a: A, b: B| r == Ok::<(&'a str, (A, B)), String>((rest2, (a, b))) ==> exists|rest: &'a str| pa.ensures((input,), Ok::<(&'a str, A), String>((rest, a))) && pb.ensures((rest,), Ok::<(&'a str, B), String>((rest2, b))),
            forall|m: String| r == Err::<(&'a str, (A, B)), String>(m) ==> pa.ensures((input,), Err::<(&'a str, A), String>(m)) || exists|rest: &'a str, a: A| pa.ensures((input,), Ok::<(&'a str, A), String>((rest, a))) && pb.ensures((rest,), Err::<(&'a str, B), String>(m)),
    {
        let ra = pa(input);
        match ra {
            Err(m) => {
                assert(pa.ensures((input,), Err::<(&'a str, A), String>(m)));
                Err(m)
            }
            Ok((rest, a)) => {
                let rb = pb(rest);
                match rb {
                    Err(m) => {
                        assert(pa.ensures((input,), Ok::<(&'a str, A), String>((rest, a))) && pb.ensures((rest,), Err::<(&'a str, B), String>(m)));
                        Err(m)
                    }
                    Ok((rest2, b)) => {
                        assert(pa.ensures((input,), Ok::<(&'a str, A), String>((rest, a))) && pb.ensures((rest,), Ok::<(&'a str, B), String>((rest2, b))));
                        let r: Result<(&'a str, (A, B)), String> = Ok((rest2, (a, b)));
                        r
                    }
                }
            }
        }
    }
}

/// Runs `parser` and maps its value with `f`.
pub fn map_parser<'a, A, B, P, F>(parser: P, f: F) -> (p: impl Fn(&'a str) -> Result<(&'a str, B), String>)
    where
        P: Fn(&'a str) -> Result<(&'a str, A), String>,
        F: Fn(A) -> B,
    requires
        forall|s: &'a str| #[trigger] parser.requires((s,)),
        forall|a: A| #[trigger] f.requires((a,)),
    ensures
        forall|s: &'a str| #[trigger] p.requires((s,)),
        forall|s: &'a str, rest: &'a str, b: B| p.ensures((s,), Ok::<(&'a str, B), String>((rest, b))) ==> exists|a: A| parser.ensures((s,), Ok::<(&'a str, A), String>((rest, a))) && f.ensures((a,), b),
        forall|s: &'a str, m: String| p.ensures((s,), Err::<(&'a str, B), String>(m)) ==> parser.ensures((s,), Err::<(&'a str, A), String>(m)),
{
    move |input: &'a str| -> (r: Result<(&'a str, B), String>)
        requires
            forall|s: &'a str| #[trigger] parser.requires((s,)),
            forall|a: A| #[trigger] f.requires((a,)),
        ensures
            forall|rest: &'a str, b: B| r == Ok::<(&'a str, B), String>((rest, b)) ==> exists|a: A| parser.ensures((input,), Ok::<(&'a str, A), String>((rest, a))) && f.ensures((a,), b),
            forall|m: String| r == Err::<(&'a str, B), String>(m) ==> parser.ensures((input,), Err::<(&'a str, A), String>(m)),
    {
        let ra = parser(input);
        match ra {
            Err(m) => {
                assert(parser.ensures((input,), Err::<(&'a str, A), String>(m)));
                Err(m)
            }
            Ok((rest, a)) => {
                assert(parser.ensures((input,), Ok::<(&'a str, A), String>((rest, a))));
                let ghost a0 = a;
                let b = f(a);
                assert(parser.ensures((input,), Ok::<(&'a str, A), String>((rest, a0))) && f.ensures((a0,), b));
                let r: Result<(&'a str, B), String> = Ok((rest, b));
                r
            }
        }
    }
}

/// A user identifier.
#[derive(Debug, Clone, Copy, PartialEq, Eq, Hash)]
pub struct UserId(pub u64);

/// A post identifier; a distinct type from [`UserId`].
#[derive(Debug, Clone, Copy, PartialEq, Eq, Hash)]
pub struct PostId(pub u64);

/// Why a string is not an email address.
#[derive(Debug, Clone, PartialEq, Eq)]
pub enum EmailError {
    Empty,
    MissingAtSign,
    MissingDomain,
}

/// The message for each email error.
pub open spec fn email_error_text(e: EmailError) -> Seq<char> {
    match e {
        EmailError::Empty => "email must not be empty"@,
        EmailError::MissingAtSign => "email must contain '@'"@,
        EmailError::MissingDomain => "email must have a domain after '@'"@,
    }
}

impl EmailError {
    /// The error's message.
    pub fn to_string(&self) -> (s: String)
        ensures
            s@ == email_error_text(*self),
    {
        match self {
            EmailError::Empty => String::from_str("email must not be empty"),
            EmailError::MissingAtSign => String::from_str("email must contain '@'"),
            EmailError::MissingDomain => String::from_str("email must have a domain after '@'"),
        }
    }
}

/// What [`Email::new`] decides for the text `s`.
pub open spec fn email_check(s: Seq<char>) -> Result<(), EmailError> {
    if s.len() == 0 {
        Err(EmailError::Empty)
    } else if !s.contains('@') {
        Err(EmailError::MissingAtSign)
    } else if forall|j: int| 0 <= j < s.len() - 1 ==> s[j] != '@' {
        Err(EmailError::MissingDomain)
    } else {
        Ok(())
    }
}

/// A syntactically plausible email address (non-empty, with a character after its first `@`).
#[derive(Debug, Clone, PartialEq, Eq)]
pub struct Email(String);

impl Email {
    /// The address text.
    pub closed spec fn view(&self) -> Seq<char> {
        self.0@
    }

    /// Checks `raw` and wraps it: it must be non-empty and contain `@`
    /// followed by at least one character.
    pub fn new(raw: &str) -> (r: Result<Self, EmailError>)
        ensures
            match email_check(raw@) {
                Ok(_) => r matches Ok(e) && e.view() == raw@,
                Err(k) => r == Err::<Email, EmailError>(k),
            },
    {
        let cs = chars_of(raw);
        let n = cs.len();
        if n == 0 {
            return Err(EmailError::Empty);
        }
        let mut i: usize = 0;
        while i < n && cs[i] != '@'
            invariant
                n == cs@.len(),
                cs@ == raw@,
                i <= n,
                forall|j: int| 0 <= j < i ==> cs@[j] != '@',
            decreases n - i,
        {
            i += 1;
        }
        if i == n {
            return Err(EmailError::MissingAtSign);
        }
        assert(raw@[i as int] == '@');
        assert(raw@.contains('@'));
        if i + 1 >= n {
            return Err(EmailError::MissingDomain);
        }
        assert(raw@[i as int] == '@' && i < n - 1);
        Ok(Email(String::from_str(raw)))
    }

    /// The address text.
    pub fn as_str(&self) -> (s: &str)
        ensures
            s@ == self.view(),
    {
        self.0.as_str()
    }
}

/// Why a value is not a positive integer.
#[derive(Debug, Clone, PartialEq, Eq)]
pub enum PositiveIntError {
    NotPositive,
}

impl PositiveIntError {
    /// The error's message.
    pub fn to_string(&self) -> (s: String)
        ensures
            s@ == "value must be a positive integer (> 0)"@,
    {
        String::from_str("value must be a positive integer (> 0)")
    }
}

/// An `i32` known to be greater than zero.
#[derive(Debug, Clone, Copy, PartialEq, Eq, PartialOrd, Ord)]
pub struct PositiveInt(i32);

impl PositiveInt {
    /// The wrapped value.
    pub closed spec fn value(&self) -> i32 {
        self.0
    }

    /// Every `PositiveInt` holds a value above zero.
    #[verifier::type_invariant]
    closed spec fn positive(&self) -> bool {
        self.0 > 0
    }

    /// Wraps `value` when it is positive.
    pub fn new(value: i32) -> (r: Result<Self, PositiveIntError>)
        ensures
            value > 0 ==> (r matches Ok(p) && p.value() == value),
            value <= 0 ==> r == Err::<PositiveInt, PositiveIntError>(PositiveIntError::NotPositive),
    {
        if value > 0 {
            Ok(PositiveInt(value))
        } else {
            Err(PositiveIntError::NotPositive)
        }
    }

    /// The wrapped value, which is always positive.
    pub fn get(self) -> (v: i32)
        ensures
            v == self.value(),
            v > 0,
    {
        proof { use_type_invariant(&self); }
        self.0
    }
}

} // verus!
