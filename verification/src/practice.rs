//! A small arithmetic-expression front end: a tokenizer from text to
//! tokens and a precedence-aware parser from tokens to a syntax tree.
//! Number literals are kept as their text; turning them into floating-point
//! values and evaluating the tree happen where floating point is available.
use vstd::prelude::*;
use vstd::string::*;
use crate::text::{chars_of, string_from_chars, push_char, str_debug, str_debug_string};

verus! {

/// A token of the expression language.
#[derive(Debug, Clone, PartialEq)]
pub enum Token {
    /// A number literal, as written.
    Number(String),
    Plus,
    Minus,
    Star,
    Slash,
}

/// A token as a mathematical value.
pub enum Tok {
    Num(Seq<char>),
    Plus,
    Minus,
    Star,
    Slash,
}

/// The mathematical value of a token.
pub open spec fn tok(t: Token) -> Tok {
    match t {
        Token::Number(s) => Tok::Num(s@),
        Token::Plus => Tok::Plus,
        Token::Minus => Tok::Minus,
        Token::Star => Tok::Star,
        Token::Slash => Tok::Slash,
    }
}

/// The mathematical values of a token sequence.
pub open spec fn toks(ts: Seq<Token>) -> Seq<Tok> {
    ts.map_values(|t: Token| tok(t))
}

// ─── Tokenizer ─────────────────────────────────────────────────────────

/// Characters that separate tokens.
pub open spec fn is_blank(c: char) -> bool {
    c == ' ' || c == '\t' || c == '\n' || c == '\r'
}

/// Characters that make up number literals.
pub open spec fn is_num_char(c: char) -> bool {
    ('0' <= c && c <= '9') || c == '.'
}

/// The length of the run of number characters at the start of `s`.
pub open spec fn num_run(s: Seq<char>) -> nat
    decreases s.len(),
{
    if s.len() > 0 && is_num_char(s[0]) { 1 + num_run(s.drop_first()) } else { 0 }
}

/// How many `.` characters `t` holds.
pub open spec fn dot_count(t: Seq<char>) -> nat
    decreases t.len(),
{
    if t.len() == 0 { 0 } else { dot_count(t.drop_last()) + (if t.last() == '.' { 1nat } else { 0nat }) }
}

/// A run of number characters is a valid literal when it holds at most one
/// `.` and at least one digit (the decimal forms `f64`'s `FromStr` accepts).
pub open spec fn literal_ok(t: Seq<char>) -> bool {
    dot_count(t) <= 1 && dot_count(t) < t.len()
}

/// The message for a literal that is not a number.
pub open spec fn bad_number_text(t: Seq<char>) -> Seq<char> {
    "数値 \""@ + t + "\" のパースに失敗しました: invalid float literal"@
}

/// What `{:?}` prints for a character.
pub uninterp spec fn char_debug(c: char) -> Seq<char>;

/// The message for a character outside the language.
pub open spec fn bad_char_text(c: char) -> Seq<char> {
    "認識できない文字: "@ + char_debug(c)
}

/// The token for an operator character.
pub open spec fn op_tok(c: char) -> Option<Tok> {
    if c == '+' { Some(Tok::Plus) } else if c == '-' { Some(Tok::Minus) }
    else if c == '*' { Some(Tok::Star) } else if c == '/' { Some(Tok::Slash) } else { None }
}

/// `t` in front of the tokens of `r`, or `r`'s error.
pub open spec fn cons_tok(t: Tok, r: Result<Seq<Tok>, Seq<char>>) -> Result<Seq<Tok>, Seq<char>> {
    match r {
        Ok(ts) => Ok(seq![t] + ts),
        Err(e) => Err(e),
    }
}

pub proof fn lemma_num_run_bounds(s: Seq<char>)
    ensures
        num_run(s) <= s.len(),
        s.len() > 0 && is_num_char(s[0]) ==> num_run(s) >= 1,
        forall|k: int| 0 <= k < num_run(s) ==> is_num_char(#[trigger] s[k]),
        num_run(s) < s.len() ==> !is_num_char(s[num_run(s) as int]),
    decreases s.len(),
{
    if s.len() > 0 && is_num_char(s[0]) {
        lemma_num_run_bounds(s.drop_first());
        assert forall|k: int| 0 <= k < num_run(s) implies is_num_char(#[trigger] s[k]) by {
            if k > 0 {
                assert(s[k] == s.drop_first()[k - 1]);
            }
        }
        if num_run(s) < s.len() {
            assert(s[num_run(s) as int] == s.drop_first()[num_run(s.drop_first()) as int]);
        }
    }
}

/// The tokens of `s`, or the message for the first thing that is not one.
pub open spec fn lex(s: Seq<char>) -> Result<Seq<Tok>, Seq<char>>
    decreases s.len(),
{
    if s.len() == 0 {
        Ok(Seq::empty())
    } else if is_blank(s[0]) {
        lex(s.drop_first())
    } else if op_tok(s[0]) is Some {
        cons_tok(op_tok(s[0])->0, lex(s.drop_first()))
    } else if is_num_char(s[0]) {
        let n = num_run(s);
        proof { lemma_num_run_bounds(s); }
        if literal_ok(s.take(n as int)) {
            cons_tok(Tok::Num(s.take(n as int)), lex(s.skip(n as int)))
        } else {
            Err(bad_number_text(s.take(n as int)))
        }
    } else {
        Err(bad_char_text(s[0]))
    }
}

/// Formats a character with `{:?}`, `char`'s `Debug`. Its documentation
/// (by way of `char::escape_debug`) quotes the character and leaves printable
/// ASCII other than `'` and `\` as it is; other characters' escapes are named
/// [`char_debug`] and not spelled out.
#[verifier::external_body]
fn char_debug_string(c: char) -> (s: String)
    ensures
        s@ == char_debug(c),
        (0x20 <= c as u32 <= 0x7e && c != '\'' && c != '\\') ==> s@ == seq!['\'', c, '\''],
{
    format!("{:?}", c)
}

/// Whether a run of number characters holds at most one `.` and a digit.
fn check_literal(t: &Vec<char>) -> (ok: bool)
    requires
        forall|k: int| 0 <= k < t@.len() ==> is_num_char(#[trigger] t@[k]),
    ensures
        ok == literal_ok(t@),
{
    let mut dots: usize = 0;
    let mut i: usize = 0;
    while i < t.len()
        invariant
            i <= t@.len(),
            dots == dot_count(t@.take(i as int)),
            dots <= i,
        decreases t.len() - i,
    {
        assert(t@.take(i + 1).drop_last() =~= t@.take(i as int));
        if t[i] == '.' {
            dots += 1;
        }
        i += 1;
    }
    assert(t@.take(t@.len() as int) =~= t@);
    dots <= 1 && dots < t.len()
}

/// The tokens `prefix` followed by those of `r`, or `r`'s error.
pub open spec fn after(prefix: Seq<Tok>, r: Result<Seq<Tok>, Seq<char>>) -> Result<Seq<Tok>, Seq<char>> {
    match r {
        Ok(ts) => Ok(prefix + ts),
        Err(e) => Err(e),
    }
}

/// Splits `input` into tokens: blanks (space, tab, newline, carriage return)
/// separate them, `+ - * /` are operators, and each maximal run of digits and
/// dots is one number literal. A run that is not a number, or any other
/// character, is an error.
pub fn tokenize(input: &str) -> (r: Result<Vec<Token>, String>)
    ensures
        match lex(input@) {
            Ok(ts) => r matches Ok(v) && toks(v@) == ts,
            Err(m) => r matches Err(e) && e@ == m,
        },
{
    let cs = chars_of(input);
    let n = cs.len();
    let mut tokens: Vec<Token> = Vec::new();
    let mut i: usize = 0;
    assert(cs@.skip(0) =~= cs@);
    while i < n
        invariant
            n == cs@.len(),
            cs@ == input@,
            i <= n,
            lex(input@) == after(toks(tokens@), lex(cs@.skip(i as int))),
        decreases n - i,
    {
        let c = cs[i];
        let ghost rest = cs@.skip(i as int);
        assert(rest[0] == c);
        assert(rest.drop_first() =~= cs@.skip(i + 1));
        if c == ' ' || c == '\t' || c == '\n' || c == '\r' {
            i += 1;
        } else if c == '+' || c == '-' || c == '*' || c == '/' {
            let t = if c == '+' { Token::Plus } else if c == '-' { Token::Minus } else if c == '*' { Token::Star } else { Token::Slash };
            let ghost old_tokens = tokens@;
            tokens.push(t);
            proof {
                assert(toks(tokens@) =~= toks(old_tokens) + seq![tok(t)]);
                assert(toks(old_tokens) + seq![tok(t)] + toks(tokens@).skip(toks(tokens@).len() as int) =~= toks(tokens@));
            }
            proof {
                match lex(cs@.skip(i + 1)) {
                    Ok(ts) => assert(toks(old_tokens) + (seq![tok(t)] + ts) =~= toks(tokens@) + ts),
                    Err(_) => {},
                }
            }
            i += 1;
        } else if ('0' <= c && c <= '9') || c == '.' {
            proof { lemma_num_run_bounds(rest); }
            let mut j: usize = i;
            let mut lit: Vec<char> = Vec::new();
            while j < n && (('0' <= cs[j] && cs[j] <= '9') || cs[j] == '.')
                invariant
                    n == cs@.len(),
                    i < n,
                    i <= j <= n,
                    rest == cs@.skip(i as int),
                    lit@ == cs@.subrange(i as int, j as int),
                    j - i <= num_run(rest),
                    forall|k: int| 0 <= k < lit@.len() ==> is_num_char(#[trigger] lit@[k]),
                    num_run(rest) <= rest.len(),
                    forall|k: int| 0 <= k < num_run(rest) ==> is_num_char(#[trigger] rest[k]),
                    num_run(rest) < rest.len() ==> !is_num_char(rest[num_run(rest) as int]),
                decreases n - j,
            {
                assert(rest[j - i] == cs@[j as int]);
                lit.push(cs[j]);
                assert(lit@ =~= cs@.subrange(i as int, j + 1));
                j += 1;
            }
            proof {
                if j < n {
                    assert(rest[j - i] == cs@[j as int]);
                }
                assert(j - i == num_run(rest));
                assert(lit@ =~= rest.take(num_run(rest) as int));
                assert(rest.skip(num_run(rest) as int) =~= cs@.skip(j as int));
            }
            if !check_literal(&lit) {
                let mut m = String::from_str("数値 \"");
                let text = string_from_chars(&lit);
                m.append(text.as_str());
                m.append("\" のパースに失敗しました: invalid float literal");
                return Err(m);
            }
            let t = Token::Number(string_from_chars(&lit));
            let ghost old_tokens = tokens@;
            tokens.push(t);
            proof {
                assert(toks(tokens@) =~= toks(old_tokens) + seq![tok(t)]);
            }
            proof {
                match lex(cs@.skip(j as int)) {
                    Ok(ts) => assert(toks(old_tokens) + (seq![tok(t)] + ts) =~= toks(tokens@) + ts),
                    Err(_) => {},
                }
            }
            i = j;
        } else {
            let mut m = String::from_str("認識できない文字: ");
            let d = char_debug_string(c);
            m.append(d.as_str());
            return Err(m);
        }
    }
    assert(toks(tokens@) + Seq::<Tok>::empty() =~= toks(tokens@));
    Ok(tokens)
}

// ─── Parser ────────────────────────────────────────────────────────────

/// A binary operator.
#[derive(Debug, Clone, PartialEq)]
pub enum Op {
    Add,
    Sub,
    Mul,
    Div,
}

/// A syntax tree: a number literal, or an operator applied to two trees.
#[derive(Debug, PartialEq)]
pub enum Expr {
    Num(String),
    BinOp { op: Op, lhs: Box<Expr>, rhs: Box<Expr> },
}

fn clone_expr(e: &Expr) -> (r: Expr)
    ensures
        r == *e,
    decreases e,
{
    match e {
        Expr::Num(s) => Expr::Num(s.clone()),
        Expr::BinOp { op, lhs, rhs } => Expr::BinOp {
            op: match op {
                Op::Add => Op::Add,
                Op::Sub => Op::Sub,
                Op::Mul => Op::Mul,
                Op::Div => Op::Div,
            },
            lhs: Box::new(clone_expr(&**lhs)),
            rhs: Box::new(clone_expr(&**rhs)),
        },
    }
}

impl Clone for Expr {
    fn clone(&self) -> (r: Self)
        ensures
            r == *self,
    {
        clone_expr(self)
    }
}

/// The token that writes an operator.
pub open spec fn op_token(op: Op) -> Tok {
    match op {
        Op::Add => Tok::Plus,
        Op::Sub => Tok::Minus,
        Op::Mul => Tok::Star,
        Op::Div => Tok::Slash,
    }
}

/// The tokens that write a tree out again, left to right.
pub open spec fn flat(e: Expr) -> Seq<Tok>
    decreases e,
{
    match e {
        Expr::Num(s) => seq![Tok::Num(s@)],
        Expr::BinOp { op, lhs, rhs } => flat(*lhs) + seq![op_token(op)] + flat(*rhs),
    }
}

/// A product: numbers joined by `*` and `/`, grouped to the left.
pub open spec fn is_term(e: Expr) -> bool
    decreases e,
{
    match e {
        Expr::Num(_) => true,
        Expr::BinOp { op, lhs, rhs } => (op is Mul || op is Div) && is_term(*lhs) && *rhs is Num,
    }
}

/// A sum: products joined by `+` and `-`, grouped to the left.
pub open spec fn is_sum(e: Expr) -> bool
    decreases e,
{
    match e {
        Expr::BinOp { op, lhs, rhs } => if op is Add || op is Sub {
            is_sum(*lhs) && is_term(*rhs)
        } else {
            is_term(e)
        },
        Expr::Num(_) => true,
    }
}

/// Whether position `k` holds what the grammar wants there: a number at
/// even positions, an operator at odd ones.
pub open spec fn fits(ts: Seq<Tok>, k: int) -> bool {
    (k % 2 == 0) == (ts[k] is Num)
}

/// The first position at or after `k` that does not fit, or the length.
pub open spec fn violation_from(ts: Seq<Tok>, k: int) -> int
    decreases ts.len() - k,
{
    if k < 0 || k >= ts.len() {
        ts.len() as int
    } else if !fits(ts, k) {
        k
    } else {
        violation_from(ts, k + 1)
    }
}

/// Token sequences of the grammar: numbers separated by single operators.
pub open spec fn tokens_ok(ts: Seq<Tok>) -> bool {
    violation_from(ts, 0) == ts.len() && ts.len() % 2 == 1
}

/// What the derived `Debug` prints for a token.
pub open spec fn debug_tok(t: Tok) -> Seq<char> {
    match t {
        Tok::Num(s) => "Number("@ + str_debug(s) + ")"@,
        Tok::Plus => "Plus"@,
        Tok::Minus => "Minus"@,
        Tok::Star => "Star"@,
        Tok::Slash => "Slash"@,
    }
}

/// The tokens' texts separated by `", "`.
pub open spec fn debug_items(ts: Seq<Tok>) -> Seq<char>
    decreases ts.len(),
{
    if ts.len() == 0 {
        Seq::empty()
    } else if ts.len() == 1 {
        debug_tok(ts[0])
    } else {
        debug_items(ts.drop_last()) + ", "@ + debug_tok(ts.last())
    }
}

/// What `Debug` prints for a slice of tokens: the tokens between brackets.
pub open spec fn debug_toks(ts: Seq<Tok>) -> Seq<char> {
    "["@ + debug_items(ts) + "]"@
}

/// The message for the first position `p` where the tokens leave the grammar.
pub open spec fn parse_error_text(ts: Seq<Tok>, p: int) -> Seq<char> {
    if p >= ts.len() {
        "トークンが不足しています（数値を期待）"@
    } else if p % 2 == 0 {
        "数値トークンを期待しましたが "@ + debug_tok(ts[p]) + " が見つかりました"@
    } else {
        "パース後に未処理のトークンが残っています: "@ + debug_toks(ts.skip(p))
    }
}

/// A token as its derived `Debug` prints it.
fn token_debug_string(t: &Token) -> (s: String)
    ensures
        s@ == debug_tok(tok(*t)),
{
    match t {
        Token::Number(n) => {
            let mut s = String::from_str("Number(");
            let d = str_debug_string(n.as_str());
            s.append(d.as_str());
            s.append(")");
            s
        },
        Token::Plus => String::from_str("Plus"),
        Token::Minus => String::from_str("Minus"),
        Token::Star => String::from_str("Star"),
        Token::Slash => String::from_str("Slash"),
    }
}

/// The tokens from `start` on, as `Debug` prints a slice.
fn tokens_debug_string(ts: &[Token], start: usize) -> (s: String)
    requires
        start <= ts@.len(),
    ensures
        s@ == debug_toks(toks(ts@).skip(start as int)),
{
    let ghost all = toks(ts@);
    let mut s = String::from_str("[");
    let mut i: usize = start;
    while i < ts.len()
        invariant
            start <= i <= ts@.len(),
            all == toks(ts@),
            s@ == "["@ + debug_items(all.subrange(start as int, i as int)),
        decreases ts.len() - i,
    {
        let ghost before = all.subrange(start as int, i as int);
        let d = token_debug_string(&ts[i]);
        if i > start {
            s.append(", ");
        }
        s.append(d.as_str());
        proof {
            let after = all.subrange(start as int, i + 1);
            assert(after.drop_last() =~= before);
            assert(after.last() == tok(ts@[i as int]));
            if i == start {
                assert(before =~= Seq::<Tok>::empty());
                assert(after.len() == 1);
            }
        }
        i += 1;
    }
    s.append("]");
    proof {
        assert(all.subrange(start as int, ts@.len() as int) =~= all.skip(start as int));
    }
    s
}

proof fn lemma_violation_skip(ts: Seq<Tok>, a: int, b: int)
    requires
        0 <= a <= b <= ts.len(),
        forall|k: int| a <= k < b ==> fits(ts, k),
    ensures
        violation_from(ts, a) == violation_from(ts, b),
    decreases b - a,
{
    if a < b {
        lemma_violation_skip(ts, a + 1, b);
    }
}

/// A number token at `pos`, if there is one.
fn parse_number(tokens: &[Token], pos: usize) -> (r: Result<(Expr, usize), String>)
    requires
        pos <= tokens@.len(),
        pos % 2 == 0,
    ensures
        r is Ok <==> (pos < tokens@.len() && tok(tokens@[pos as int]) is Num),
        r matches Ok((e, next)) ==> next == pos + 1 && e is Num && flat(e) == seq![tok(tokens@[pos as int])],
        r matches Err(m) ==> m@ == parse_error_text(toks(tokens@), pos as int),
{
    if pos >= tokens.len() {
        return Err(String::from_str("トークンが不足しています（数値を期待）"));
    }
    match &tokens[pos] {
        Token::Number(s) => Ok((Expr::Num(s.clone()), pos + 1)),
        other => {
            let mut m = String::from_str("数値トークンを期待しましたが ");
            let d = token_debug_string(other);
            m.append(d.as_str());
            m.append(" が見つかりました");
            Err(m)
        }
    }
}

/// A well-formed product starts at `k`: a number, then any number of `*` or
/// `/` each followed by a number.
pub open spec fn term_ok_from(ts: Seq<Tok>, k: int) -> bool
    decreases ts.len() - k, 1int,
{
    if 0 <= k < ts.len() && ts[k] is Num {
        term_tail_ok(ts, k + 1)
    } else {
        false
    }
}

/// After a number ending before `r`: either no `*` or `/` follows at `r`, or
/// one does and a well-formed product starts right after it.
pub open spec fn term_tail_ok(ts: Seq<Tok>, r: int) -> bool
    decreases ts.len() - r, 0int,
{
    if 0 <= r < ts.len() && (ts[r] is Star || ts[r] is Slash) {
        term_ok_from(ts, r + 1)
    } else {
        true
    }
}

/// A product starting at `pos`: a number, then as long as `*` or `/`
/// follows, that operator and another number, grouped to the left.
fn parse_term(tokens: &[Token], pos: usize) -> (r: Result<(Expr, usize), String>)
    requires
        pos < tokens@.len() ==> pos < usize::MAX,
        pos <= tokens@.len(),
        pos % 2 == 0,
        forall|k: int| 0 <= k < pos ==> fits(toks(tokens@), k),
    ensures
        r matches Ok((e, next)) ==> {
            &&& pos < next <= tokens@.len()
            &&& next % 2 == 1
            &&& (forall|k: int| 0 <= k < next ==> fits(toks(tokens@), k))
            &&& flat(e) == toks(tokens@).subrange(pos as int, next as int)
            &&& is_term(e)
            &&& (next == tokens@.len() || !(tok(tokens@[next as int]) is Star || tok(tokens@[next as int]) is Slash))
        },
        r is Ok <==> term_ok_from(toks(tokens@), pos as int),
        r matches Err(m) ==> m@ == parse_error_text(toks(tokens@), violation_from(toks(tokens@), 0)),
        r is Err ==> !tokens_ok(toks(tokens@)),
{
    let ghost ts = toks(tokens@);
    let (mut lhs, mut rest) = match parse_number(tokens, pos) {
        Ok(p) => p,
        Err(m) => {
            proof {
                lemma_violation_skip(ts, 0, pos as int);
                if (pos as int) < ts.len() {
                    assert(!fits(ts, pos as int));
                }
            }
            return Err(m);
        }
    };
    proof {
        assert(fits(ts, pos as int));
        assert(ts.subrange(pos as int, rest as int) =~= seq![ts[pos as int]]);
        assert(term_ok_from(ts, pos as int) == term_tail_ok(ts, rest as int));
    }
    while rest < tokens.len()
        invariant
            ts == toks(tokens@),
            term_ok_from(ts, pos as int) == term_tail_ok(ts, rest as int),
            pos < rest <= tokens@.len(),
            rest % 2 == 1,
            forall|k: int| 0 <= k < rest ==> fits(ts, k),
            flat(lhs) == ts.subrange(pos as int, rest as int),
            is_term(lhs),
        ensures
            pos < rest <= tokens@.len(),
            rest % 2 == 1,
            forall|k: int| 0 <= k < rest ==> fits(ts, k),
            flat(lhs) == ts.subrange(pos as int, rest as int),
            is_term(lhs),
            rest == tokens@.len() || !(tok(tokens@[rest as int]) is Star || tok(tokens@[rest as int]) is Slash),
            term_ok_from(ts, pos as int),
        decreases tokens.len() - rest,
    {
        let op = match &tokens[rest] {
            Token::Star => Op::Mul,
            Token::Slash => Op::Div,
            _ => break,
        };
        assert(fits(ts, rest as int));
        let (rhs, next) = match parse_number(tokens, rest + 1) {
            Ok(p) => p,
            Err(m) => {
                proof {
                    lemma_violation_skip(ts, 0, rest + 1);
                    if rest + 1 < ts.len() {
                        assert(!fits(ts, rest + 1));
                    }
                    assert(!term_ok_from(ts, rest + 1));
                }
                return Err(m);
            }
        };
        proof {
            assert(fits(ts, rest + 1));
            assert(ts.subrange(pos as int, next as int) =~= ts.subrange(pos as int, rest as int) + seq![op_token(op)] + flat(rhs));
            assert(term_ok_from(ts, rest + 1) == term_tail_ok(ts, next as int));
        }
        lhs = Expr::BinOp { op, lhs: Box::new(lhs), rhs: Box::new(rhs) };
        rest = next;
    }
    Ok((lhs, rest))
}

/// A sum: a product, then as long as `+` or `-` follows, that operator and
/// another product, grouped to the left.
fn parse_expr(tokens: &[Token]) -> (r: Result<(Expr, usize), String>)
    ensures
        r matches Ok((e, next)) ==> {
            &&& 0 < next <= tokens@.len()
            &&& next % 2 == 1
            &&& (forall|k: int| 0 <= k < next ==> fits(toks(tokens@), k))
            &&& flat(e) == toks(tokens@).take(next as int)
            &&& is_sum(e)
            &&& (next == tokens@.len() || tok(tokens@[next as int]) is Num)
        },
        r matches Err(m) ==> m@ == parse_error_text(toks(tokens@), violation_from(toks(tokens@), 0)),
        r is Err ==> !tokens_ok(toks(tokens@)),
{
    let ghost ts = toks(tokens@);
    let (mut lhs, mut rest) = match parse_term(tokens, 0) {
        Ok(p) => p,
        Err(m) => return Err(m),
    };
    assert(ts.take(rest as int) =~= ts.subrange(0, rest as int));
    while rest < tokens.len()
        invariant
            ts == toks(tokens@),
            0 < rest <= tokens@.len(),
            rest % 2 == 1,
            forall|k: int| 0 <= k < rest ==> fits(ts, k),
            flat(lhs) == ts.take(rest as int),
            is_sum(lhs),
            rest == tokens@.len() || !(tok(tokens@[rest as int]) is Star || tok(tokens@[rest as int]) is Slash),
        ensures
            0 < rest <= tokens@.len(),
            rest % 2 == 1,
            forall|k: int| 0 <= k < rest ==> fits(ts, k),
            flat(lhs) == ts.take(rest as int),
            is_sum(lhs),
            rest == tokens@.len() || tok(tokens@[rest as int]) is Num,
        decreases tokens.len() - rest,
    {
        let op = match &tokens[rest] {
            Token::Plus => Op::Add,
            Token::Minus => Op::Sub,
            _ => break,
        };
        assert(fits(ts, rest as int));
        let (rhs, next) = match parse_term(tokens, rest + 1) {
            Ok(p) => p,
            Err(m) => return Err(m),
        };
        proof {
            assert(ts.take(next as int) =~= ts.take(rest as int) + seq![op_token(op)] + ts.subrange(rest + 1, next as int));
        }
        lhs = Expr::BinOp { op, lhs: Box::new(lhs), rhs: Box::new(rhs) };
        rest = next;
    }
    Ok((lhs, rest))
}

/// Parses the whole token sequence as a sum of products. It succeeds exactly
/// on the grammar's sequences, numbers separated by single operators, and the
/// tree writes the tokens out again with `*` and `/` binding tighter than
/// `+` and `-` and each level grouped to the left. Otherwise the message
/// names the first position that leaves the grammar.
pub fn parse(tokens: &[Token]) -> (r: Result<Expr, String>)
    ensures
        r is Ok <==> tokens_ok(toks(tokens@)),
        r matches Ok(e) ==> flat(e) == toks(tokens@) && is_sum(e),
        r matches Err(m) ==> m@ == parse_error_text(toks(tokens@), violation_from(toks(tokens@), 0)),
{
    let ghost ts = toks(tokens@);
    let (expr, rest) = match parse_expr(tokens) {
        Ok(p) => p,
        Err(m) => {
            return Err(m);
        }
    };
    if rest == tokens.len() {
        proof {
            lemma_violation_skip(ts, 0, rest as int);
            assert(ts.take(rest as int) =~= ts);
        }
        Ok(expr)
    } else {
        let d = tokens_debug_string(tokens, rest);
        let mut m = String::from_str("パース後に未処理のトークンが残っています: ");
        m.append(d.as_str());
        proof {
            lemma_violation_skip(ts, 0, rest as int);
            assert(!fits(ts, rest as int));
        }
        Err(m)
    }
}

} // verus!
