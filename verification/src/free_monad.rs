//! Storage programs as data: each program is a value built from get, put and
//! delete steps and sequencing, and says nothing about how it will run.
//! Interpreters run it: one against a map held in memory, one that also
//! writes a log line for each step. Both are described by the same relation
//! between a program, the store before, the steps performed, the result and
//! the store after.
use vstd::prelude::*;
use vstd::string::*;
use std::collections::HashMap;
use crate::composition::texts;
use crate::text::{str_debug, str_debug_string};

verus! {

// ─── The store ─────────────────────────────────────────────────────────

/// The contents of a string-keyed map, as text keys to text values.
pub uninterp spec fn store_text(m: HashMap<String, String>) -> Map<Seq<char>, Seq<char>>;

/// Calls `HashMap::get` and clones the value found. `String` keys are
/// compared by their text, so the value is the one stored under `key`'s text.
#[verifier::external_body]
fn store_lookup(m: &HashMap<String, String>, key: &str) -> (r: Option<String>)
    ensures
        match r {
            Some(v) => store_text(*m).contains_key(key@) && v@ == store_text(*m)[key@],
            None => !store_text(*m).contains_key(key@),
        },
{
    m.get(key).cloned()
}

/// Calls `HashMap::insert`: afterwards `key`'s text maps to `value`'s and
/// every other key is as it was.
#[verifier::external_body]
fn store_insert(m: &mut HashMap<String, String>, key: String, value: String)
    ensures
        store_text(*final(m)) == store_text(*old(m)).insert(key@, value@),
{
    m.insert(key, value);
}

/// Calls `HashMap::remove`: afterwards `key`'s text is absent and every
/// other key is as it was.
#[verifier::external_body]
fn store_remove(m: &mut HashMap<String, String>, key: &str)
    ensures
        store_text(*final(m)) == store_text(*old(m)).remove(key@),
{
    m.remove(key);
}

/// What `{:?}` prints for an optional string.
pub open spec fn option_debug(v: Option<Seq<char>>) -> Seq<char> {
    match v {
        Some(s) => "Some("@ + str_debug(s) + ")"@,
        None => "None"@,
    }
}

/// The text of a string option, if any.
pub open spec fn opt_text(v: Option<String>) -> Option<Seq<char>> {
    match v {
        Some(s) => Some(s@),
        None => None,
    }
}

/// An optional string as `Debug` prints it.
fn option_debug_string(v: &Option<String>) -> (s: String)
    ensures
        s@ == option_debug(opt_text(*v)),
{
    match v {
        Some(x) => {
            let mut s = String::from_str("Some(");
            let d = str_debug_string(x.as_str());
            s.append(d.as_str());
            s.append(")");
            s
        },
        None => String::from_str("None"),
    }
}

// ─── Steps and programs ────────────────────────────────────────────────

/// One storage step as it was performed.
pub enum StorageOp {
    /// A read of `key`, with what was found.
    Get { key: Seq<char>, found: Option<Seq<char>> },
    /// A write of `value` under `key`.
    Put { key: Seq<char>, value: Seq<char> },
    /// A removal of `key`.
    Delete { key: Seq<char> },
}

/// The log line of one step.
pub open spec fn log_line(op: StorageOp) -> Seq<char> {
    match op {
        StorageOp::Get { key, found } => "GET "@ + key + " → "@ + option_debug(found),
        StorageOp::Put { key, value } => "SET "@ + key + " = "@ + value,
        StorageOp::Delete { key } => "DELETE "@ + key,
    }
}

/// The log lines of a sequence of steps.
pub open spec fn log_lines(ops: Seq<StorageOp>) -> Seq<Seq<char>> {
    ops.map_values(|op: StorageOp| log_line(op))
}

/// The store contents a program works on.
pub type Store = Map<Seq<char>, Seq<char>>;

/// A storage program with a result of type `Output`.
pub trait Program: Sized {
    type Output;

    /// Running from `before` can perform `ops`, give `out` and leave `after`.
    spec fn runs(&self, before: Store, ops: Seq<StorageOp>, out: Self::Output, after: Store) -> bool;

    /// Running from `before` meets what every function inside the program requires.
    spec fn runnable(&self, before: Store) -> bool;

    /// Runs against `store`.
    fn exec_in_memory(self, store: &mut HashMap<String, String>) -> (r: Self::Output)
        requires
            self.runnable(store_text(*old(store))),
        ensures
            exists|ops: Seq<StorageOp>| self.runs(store_text(*old(store)), ops, r, store_text(*final(store))),
    ;

    /// Runs against `store`, adding a log line for each step to `log`.
    fn exec_with_log(self, store: &mut HashMap<String, String>, log: &mut Vec<String>) -> (r: Self::Output)
        requires
            self.runnable(store_text(*old(store))),
        ensures
            exists|ops: Seq<StorageOp>| self.runs(store_text(*old(store)), ops, r, store_text(*final(store)))
                && texts(final(log)@) == texts(old(log)@) + log_lines(ops),
    ;
}

/// Sequencing and mapping, available on every program.
pub trait ProgramExt: Program {
    /// The program that runs this one, hands its result to `f`, and runs the
    /// program `f` returns.
    fn and_then<Q: Program, F: FnOnce(Self::Output) -> Q>(self, f: F) -> (r: AndThen<Self, F>)
        ensures
            r.first == self,
            r.cont == f,
    {
        AndThen { first: self, cont: f }
    }

    /// The program whose result is `f` of this one's.
    fn map<B, F: FnOnce(Self::Output) -> B>(self, f: F) -> (r: MapProgram<Self, F>)
        ensures
            r.first == self,
            r.cont == f,
    {
        MapProgram { first: self, cont: f }
    }

    /// This program, then `second`, whose result is the result.
    fn followed_by<P2: Program>(self, second: P2) -> (r: Sequence<Self, P2>)
        ensures
            r.first == self,
            r.second == second,
    {
        Sequence { first: self, second }
    }
}

impl<P: Program> ProgramExt for P {}

/// A program followed by the program a function makes from its result.
pub struct AndThen<P, F> {
    pub first: P,
    pub cont: F,
}

impl<P: Program, Q: Program, F: FnOnce(P::Output) -> Q> Program for AndThen<P, F> {
    type Output = Q::Output;

    open spec fn runs(&self, before: Store, ops: Seq<StorageOp>, out: Q::Output, after: Store) -> bool {
        exists|o1: P::Output, mid: Store, ops1: Seq<StorageOp>, ops2: Seq<StorageOp>, q: Q|
            #![trigger self.first.runs(before, ops1, o1, mid), q.runs(mid, ops2, out, after)]
            self.first.runs(before, ops1, o1, mid) && self.cont.ensures((o1,), q)
                && q.runs(mid, ops2, out, after) && ops == ops1 + ops2
    }

    open spec fn runnable(&self, before: Store) -> bool {
        &&& self.first.runnable(before)
        &&& forall|o1: P::Output, mid: Store, ops1: Seq<StorageOp>| #[trigger] self.first.runs(before, ops1, o1, mid)
            ==> self.cont.requires((o1,)) && forall|q: Q| #[trigger] self.cont.ensures((o1,), q) ==> q.runnable(mid)
    }

    fn exec_in_memory(self, store: &mut HashMap<String, String>) -> (r: Q::Output) {
        let ghost before = store_text(*store);
        let ghost me = self;
        let first = self.first;
        let cont = self.cont;
        let o1 = first.exec_in_memory(store);
        let ghost mid = store_text(*store);
        let ghost ops1 = choose|ops1: Seq<StorageOp>| me.first.runs(before, ops1, o1, mid);
        let ghost o1g = o1;
        let q = cont(o1);
        let ghost qg = q;
        let r = q.exec_in_memory(store);
        proof {
            let ops2 = choose|ops2: Seq<StorageOp>| qg.runs(mid, ops2, r, store_text(*store));
            assert(me.first.runs(before, ops1, o1g, mid) && me.cont.ensures((o1g,), qg)
                && qg.runs(mid, ops2, r, store_text(*store)));
            assert(me.runs(before, ops1 + ops2, r, store_text(*store)));
        }
        r
    }

    fn exec_with_log(self, store: &mut HashMap<String, String>, log: &mut Vec<String>) -> (r: Q::Output) {
        let ghost before = store_text(*store);
        let ghost log0 = texts(log@);
        let ghost me = self;
        let first = self.first;
        let cont = self.cont;
        let o1 = first.exec_with_log(store, log);
        let ghost mid = store_text(*store);
        let ghost log1 = texts(log@);
        let ghost ops1 = choose|ops1: Seq<StorageOp>| me.first.runs(before, ops1, o1, mid) && log1 == log0 + log_lines(ops1);
        let ghost o1g = o1;
        let q = cont(o1);
        let ghost qg = q;
        let r = q.exec_with_log(store, log);
        proof {
            let ops2 = choose|ops2: Seq<StorageOp>| qg.runs(mid, ops2, r, store_text(*store)) && texts(log@) == log1 + log_lines(ops2);
            assert(me.first.runs(before, ops1, o1g, mid) && me.cont.ensures((o1g,), qg)
                && qg.runs(mid, ops2, r, store_text(*store)));
            assert(me.runs(before, ops1 + ops2, r, store_text(*store)));
            assert(log_lines(ops1 + ops2) =~= log_lines(ops1) + log_lines(ops2));
            assert(texts(log@) =~= log0 + log_lines(ops1 + ops2));
        }
        r
    }
}

/// What a run of an [`AndThen`] consists of.
pub proof fn lemma_and_then_runs<P: Program, Q: Program, F: FnOnce(P::Output) -> Q>(
    a: AndThen<P, F>,
    before: Store,
    ops: Seq<StorageOp>,
    out: Q::Output,
    after: Store,
)
    requires
        a.runs(before, ops, out, after),
    ensures
        exists|o1: P::Output, mid: Store, ops1: Seq<StorageOp>, ops2: Seq<StorageOp>, q: Q|
            #![trigger a.first.runs(before, ops1, o1, mid), q.runs(mid, ops2, out, after)]
            a.first.runs(before, ops1, o1, mid) && a.cont.ensures((o1,), q)
                && q.runs(mid, ops2, out, after) && ops == ops1 + ops2,
{
}

/// When an [`AndThen`] can be run.
pub proof fn lemma_and_then_runnable<P: Program, Q: Program, F: FnOnce(P::Output) -> Q>(a: AndThen<P, F>, before: Store)
    requires
        a.first.runnable(before),
        forall|o1: P::Output, mid: Store, ops1: Seq<StorageOp>| #[trigger] a.first.runs(before, ops1, o1, mid)
            ==> a.cont.requires((o1,)) && forall|q: Q| #[trigger] a.cont.ensures((o1,), q) ==> q.runnable(mid),
    ensures
        a.runnable(before),
{
}

/// A program whose result is transformed by a function.
pub struct MapProgram<P, F> {
    pub first: P,
    pub cont: F,
}

impl<P: Program, B, F: FnOnce(P::Output) -> B> Program for MapProgram<P, F> {
    type Output = B;

    open spec fn runs(&self, before: Store, ops: Seq<StorageOp>, out: B, after: Store) -> bool {
        exists|o1: P::Output| #[trigger] self.first.runs(before, ops, o1, after) && self.cont.ensures((o1,), out)
    }

    open spec fn runnable(&self, before: Store) -> bool {
        &&& self.first.runnable(before)
        &&& forall|o1: P::Output, mid: Store, ops1: Seq<StorageOp>| #[trigger] self.first.runs(before, ops1, o1, mid)
            ==> self.cont.requires((o1,))
    }

    fn exec_in_memory(self, store: &mut HashMap<String, String>) -> (r: B) {
        let ghost before = store_text(*store);
        let ghost me = self;
        let first = self.first;
        let cont = self.cont;
        let o1 = first.exec_in_memory(store);
        let ghost o1g = o1;
        let ghost ops = choose|ops: Seq<StorageOp>| me.first.runs(before, ops, o1, store_text(*store));
        let r = cont(o1);
        assert(me.runs(before, ops, r, store_text(*store)));
        r
    }

    fn exec_with_log(self, store: &mut HashMap<String, String>, log: &mut Vec<String>) -> (r: B) {
        let ghost before = store_text(*store);
        let ghost log0 = texts(log@);
        let ghost me = self;
        let first = self.first;
        let cont = self.cont;
        let o1 = first.exec_with_log(store, log);
        let ghost ops = choose|ops: Seq<StorageOp>| me.first.runs(before, ops, o1, store_text(*store)) && texts(log@) == log0 + log_lines(ops);
        let r = cont(o1);
        assert(me.runs(before, ops, r, store_text(*store)));
        r
    }
}

/// A program that performs no step and gives `value`.
pub struct Pure<A> {
    pub value: A,
}

impl<A> Pure<A> {
    /// Continuing a program that is already a value: `f` is applied to the
    /// value at once, and its program is the result.
    pub fn and_then<Q: Program, F: FnOnce(A) -> Q>(self, f: F) -> (r: Q)
        requires
            f.requires((self.value,)),
        ensures
            f.ensures((self.value,), r),
    {
        f(self.value)
    }

    /// Transforming a program that is already a value: `f` is applied to the
    /// value at once.
    pub fn map<B, F: FnOnce(A) -> B>(self, f: F) -> (r: Pure<B>)
        requires
            f.requires((self.value,)),
        ensures
            f.ensures((self.value,), r.value),
    {
        Pure { value: f(self.value) }
    }
}

impl<A> Program for Pure<A> {
    type Output = A;

    open spec fn runs(&self, before: Store, ops: Seq<StorageOp>, out: A, after: Store) -> bool {
        ops == Seq::<StorageOp>::empty() && out == self.value && after == before
    }

    open spec fn runnable(&self, before: Store) -> bool {
        true
    }

    fn exec_in_memory(self, store: &mut HashMap<String, String>) -> (r: A) {
        assert(self.runs(store_text(*store), Seq::<StorageOp>::empty(), self.value, store_text(*store)));
        self.value
    }

    fn exec_with_log(self, store: &mut HashMap<String, String>, log: &mut Vec<String>) -> (r: A) {
        assert(texts(log@) + log_lines(Seq::<StorageOp>::empty()) =~= texts(log@));
        assert(self.runs(store_text(*store), Seq::<StorageOp>::empty(), self.value, store_text(*store)));
        self.value
    }
}

/// A program that reads `key`.
pub struct GetOp {
    pub key: String,
}

impl Program for GetOp {
    type Output = Option<String>;

    open spec fn runs(&self, before: Store, ops: Seq<StorageOp>, out: Option<String>, after: Store) -> bool {
        &&& ops == seq![StorageOp::Get { key: self.key@, found: opt_text(out) }]
        &&& after == before
        &&& match out {
            Some(v) => before.contains_key(self.key@) && v@ == before[self.key@],
            None => !before.contains_key(self.key@),
        }
    }

    open spec fn runnable(&self, before: Store) -> bool {
        true
    }

    fn exec_in_memory(self, store: &mut HashMap<String, String>) -> (r: Option<String>) {
        let v = store_lookup(store, self.key.as_str());
        assert(self.runs(store_text(*store), seq![StorageOp::Get { key: self.key@, found: opt_text(v) }], v, store_text(*store)));
        v
    }

    fn exec_with_log(self, store: &mut HashMap<String, String>, log: &mut Vec<String>) -> (r: Option<String>) {
        let v = store_lookup(store, self.key.as_str());
        let mut line = String::from_str("GET ");
        line.append(self.key.as_str());
        line.append(" → ");
        let d = option_debug_string(&v);
        line.append(d.as_str());
        let ghost before_log = texts(log@);
        log.push(line);
        proof {
            let ops = seq![StorageOp::Get { key: self.key@, found: opt_text(v) }];
            assert(texts(log@) =~= before_log + log_lines(ops));
            assert(self.runs(store_text(*store), ops, v, store_text(*store)));
        }
        v
    }
}

/// A program that writes `value` under `key`.
pub struct PutOp {
    pub key: String,
    pub value: String,
}

impl Program for PutOp {
    type Output = ();

    open spec fn runs(&self, before: Store, ops: Seq<StorageOp>, out: (), after: Store) -> bool {
        &&& ops == seq![StorageOp::Put { key: self.key@, value: self.value@ }]
        &&& after == before.insert(self.key@, self.value@)
    }

    open spec fn runnable(&self, before: Store) -> bool {
        true
    }

    fn exec_in_memory(self, store: &mut HashMap<String, String>) {
        let ghost before = store_text(*store);
        let ghost ops = seq![StorageOp::Put { key: self.key@, value: self.value@ }];
        let ghost me = self;
        store_insert(store, self.key, self.value);
        assert(me.runs(before, ops, (), store_text(*store)));
    }

    fn exec_with_log(self, store: &mut HashMap<String, String>, log: &mut Vec<String>) {
        let mut line = String::from_str("SET ");
        line.append(self.key.as_str());
        line.append(" = ");
        line.append(self.value.as_str());
        let ghost before_log = texts(log@);
        log.push(line);
        proof {
            let ops = seq![StorageOp::Put { key: self.key@, value: self.value@ }];
            assert(texts(log@) =~= before_log + log_lines(ops));
        }
        let ghost before = store_text(*store);
        let ghost me = self;
        store_insert(store, self.key, self.value);
        assert(me.runs(before, seq![StorageOp::Put { key: me.key@, value: me.value@ }], (), store_text(*store)));
    }
}

/// A program that removes `key`.
pub struct DeleteOp {
    pub key: String,
}

impl Program for DeleteOp {
    type Output = ();

    open spec fn runs(&self, before: Store, ops: Seq<StorageOp>, out: (), after: Store) -> bool {
        &&& ops == seq![StorageOp::Delete { key: self.key@ }]
        &&& after == before.remove(self.key@)
    }

    open spec fn runnable(&self, before: Store) -> bool {
        true
    }

    fn exec_in_memory(self, store: &mut HashMap<String, String>) {
        let ghost before = store_text(*store);
        store_remove(store, self.key.as_str());
        assert(self.runs(before, seq![StorageOp::Delete { key: self.key@ }], (), store_text(*store)));
    }

    fn exec_with_log(self, store: &mut HashMap<String, String>, log: &mut Vec<String>) {
        let mut line = String::from_str("DELETE ");
        line.append(self.key.as_str());
        let ghost before_log = texts(log@);
        log.push(line);
        proof {
            let ops = seq![StorageOp::Delete { key: self.key@ }];
            assert(texts(log@) =~= before_log + log_lines(ops));
        }
        let ghost before = store_text(*store);
        store_remove(store, self.key.as_str());
        assert(self.runs(before, seq![StorageOp::Delete { key: self.key@ }], (), store_text(*store)));
    }
}

/// Two programs, one after the other; the result is the second's.
pub struct Sequence<P1, P2> {
    pub first: P1,
    pub second: P2,
}

impl<P1: Program, P2: Program> Program for Sequence<P1, P2> {
    type Output = P2::Output;

    open spec fn runs(&self, before: Store, ops: Seq<StorageOp>, out: P2::Output, after: Store) -> bool {
        exists|o1: P1::Output, mid: Store, ops1: Seq<StorageOp>, ops2: Seq<StorageOp>|
            #![trigger self.first.runs(before, ops1, o1, mid), self.second.runs(mid, ops2, out, after)]
            self.first.runs(before, ops1, o1, mid) && self.second.runs(mid, ops2, out, after) && ops == ops1 + ops2
    }

    open spec fn runnable(&self, before: Store) -> bool {
        &&& self.first.runnable(before)
        &&& forall|o1: P1::Output, mid: Store, ops1: Seq<StorageOp>| #[trigger] self.first.runs(before, ops1, o1, mid)
            ==> self.second.runnable(mid)
    }

    fn exec_in_memory(self, store: &mut HashMap<String, String>) -> (r: P2::Output) {
        let ghost before = store_text(*store);
        let ghost me = self;
        let first = self.first;
        let second = self.second;
        let o1 = first.exec_in_memory(store);
        let ghost mid = store_text(*store);
        let ghost ops1 = choose|ops1: Seq<StorageOp>| me.first.runs(before, ops1, o1, mid);
        let ghost o1g = o1;
        let r = second.exec_in_memory(store);
        proof {
            let ops2 = choose|ops2: Seq<StorageOp>| me.second.runs(mid, ops2, r, store_text(*store));
            assert(me.first.runs(before, ops1, o1g, mid) && me.second.runs(mid, ops2, r, store_text(*store)));
            assert(me.runs(before, ops1 + ops2, r, store_text(*store)));
        }
        r
    }

    fn exec_with_log(self, store: &mut HashMap<String, String>, log: &mut Vec<String>) -> (r: P2::Output) {
        let ghost before = store_text(*store);
        let ghost log0 = texts(log@);
        let ghost me = self;
        let first = self.first;
        let second = self.second;
        let o1 = first.exec_with_log(store, log);
        let ghost mid = store_text(*store);
        let ghost log1 = texts(log@);
        let ghost ops1 = choose|ops1: Seq<StorageOp>| me.first.runs(before, ops1, o1, mid) && log1 == log0 + log_lines(ops1);
        let ghost o1g = o1;
        let r = second.exec_with_log(store, log);
        proof {
            let ops2 = choose|ops2: Seq<StorageOp>| me.second.runs(mid, ops2, r, store_text(*store)) && texts(log@) == log1 + log_lines(ops2);
            assert(me.first.runs(before, ops1, o1g, mid) && me.second.runs(mid, ops2, r, store_text(*store)));
            assert(me.runs(before, ops1 + ops2, r, store_text(*store)));
            assert(log_lines(ops1 + ops2) =~= log_lines(ops1) + log_lines(ops2));
            assert(texts(log@) =~= log0 + log_lines(ops1 + ops2));
        }
        r
    }
}

/// One of two programs with the same kind of result.
pub enum Branch<L, R> {
    Left(L),
    Right(R),
}

impl<O, L: Program<Output = O>, R: Program<Output = O>> Program for Branch<L, R> {
    type Output = O;

    open spec fn runs(&self, before: Store, ops: Seq<StorageOp>, out: O, after: Store) -> bool {
        match self {
            Branch::Left(l) => l.runs(before, ops, out, after),
            Branch::Right(r) => r.runs(before, ops, out, after),
        }
    }

    open spec fn runnable(&self, before: Store) -> bool {
        match self {
            Branch::Left(l) => l.runnable(before),
            Branch::Right(r) => r.runnable(before),
        }
    }

    fn exec_in_memory(self, store: &mut HashMap<String, String>) -> (r: O) {
        let ghost before = store_text(*store);
        let ghost me = self;
        match self {
            Branch::Left(l) => {
                let ghost lg = l;
                let out = l.exec_in_memory(store);
                proof {
                    let ops = choose|ops: Seq<StorageOp>| lg.runs(before, ops, out, store_text(*store));
                    assert(me.runs(before, ops, out, store_text(*store)));
                }
                out
            }
            Branch::Right(rp) => {
                let ghost rg = rp;
                let out = rp.exec_in_memory(store);
                proof {
                    let ops = choose|ops: Seq<StorageOp>| rg.runs(before, ops, out, store_text(*store));
                    assert(me.runs(before, ops, out, store_text(*store)));
                }
                out
            }
        }
    }

    fn exec_with_log(self, store: &mut HashMap<String, String>, log: &mut Vec<String>) -> (r: O) {
        let ghost before = store_text(*store);
        let ghost log0 = texts(log@);
        let ghost me = self;
        match self {
            Branch::Left(l) => {
                let ghost lg = l;
                let out = l.exec_with_log(store, log);
                proof {
                    let ops = choose|ops: Seq<StorageOp>| lg.runs(before, ops, out, store_text(*store)) && texts(log@) == log0 + log_lines(ops);
                    assert(me.runs(before, ops, out, store_text(*store)));
                }
                out
            }
            Branch::Right(rp) => {
                let ghost rg = rp;
                let out = rp.exec_with_log(store, log);
                proof {
                    let ops = choose|ops: Seq<StorageOp>| rg.runs(before, ops, out, store_text(*store)) && texts(log@) == log0 + log_lines(ops);
                    assert(me.runs(before, ops, out, store_text(*store)));
                }
                out
            }
        }
    }
}

// ─── Building programs ─────────────────────────────────────────────────

/// The program that reads `key`.
pub fn get(key: &str) -> (p: GetOp)
    ensures
        p.key@ == key@,
{
    GetOp { key: String::from_str(key) }
}

/// The program that writes `value` under `key`.
pub fn set(key: &str, value: &str) -> (p: PutOp)
    ensures
        p.key@ == key@,
        p.value@ == value@,
{
    PutOp { key: String::from_str(key), value: String::from_str(value) }
}

/// The program that removes `key`.
pub fn delete(key: &str) -> (p: DeleteOp)
    ensures
        p.key@ == key@,
{
    DeleteOp { key: String::from_str(key) }
}

/// What moving the value of `from` to `to` does to a store: when `from` holds
/// a value, the store gets it under `to` and then loses `from`, and the
/// result is `true`; otherwise nothing changes and the result is `false`.
pub open spec fn transfer_outcome(before: Store, from: Seq<char>, to: Seq<char>, out: bool, after: Store) -> bool {
    if before.contains_key(from) {
        out && after == before.insert(to, before[from]).remove(from)
    } else {
        !out && after == before
    }
}

/// The steps a transfer performs from `before`: it reads `from`, and when
/// `from` holds a value, writes that value under `to` and removes `from`.
pub open spec fn transfer_steps(before: Store, from: Seq<char>, to: Seq<char>) -> Seq<StorageOp> {
    if before.contains_key(from) {
        seq![
            StorageOp::Get { key: from, found: Some(before[from]) },
            StorageOp::Put { key: to, value: before[from] },
            StorageOp::Delete { key: from },
        ]
    } else {
        seq![StorageOp::Get { key: from, found: None }]
    }
}

/// A transfer has one run for each starting store: any two runs of a
/// transfer program, by either interpreter, give the same result, leave the
/// same store and perform the same steps, so they log the same lines.
pub proof fn law_transfer_runs_agree<P: Program<Output = bool>>(
    p: P,
    from: Seq<char>,
    to: Seq<char>,
    before: Store,
    ops1: Seq<StorageOp>,
    out1: bool,
    after1: Store,
    ops2: Seq<StorageOp>,
    out2: bool,
    after2: Store,
)
    requires
        forall|b: Store, ops: Seq<StorageOp>, out: bool, after: Store| #[trigger] p.runs(b, ops, out, after)
            ==> transfer_outcome(b, from, to, out, after) && ops == transfer_steps(b, from, to),
        p.runs(before, ops1, out1, after1),
        p.runs(before, ops2, out2, after2),
    ensures
        out1 == out2,
        after1 == after2,
        ops1 == ops2,
        log_lines(ops1) == log_lines(ops2),
{
}

/// The program that reads `from` and, if it holds a value, writes that value
/// under `to` and removes `from`.
pub fn transfer_value(from: &'static str, to: &'static str) -> (p: impl Program<Output = bool>)
    ensures
        forall|before: Store| #[trigger] p.runnable(before),
        forall|before: Store, ops: Seq<StorageOp>, out: bool, after: Store| #[trigger] p.runs(before, ops, out, after)
            ==> transfer_outcome(before, from@, to@, out, after) && ops == transfer_steps(before, from@, to@),
{
    let step = move |found: Option<String>| -> (q: Branch<Pure<bool>, Sequence<Sequence<PutOp, DeleteOp>, Pure<bool>>>)
        ensures
            forall|s: Store| #[trigger] q.runnable(s),
            forall|s: Store, ops: Seq<StorageOp>, out: bool, after: Store| #[trigger] q.runs(s, ops, out, after) ==>
                match found {
                    None => !out && after == s && ops == Seq::<StorageOp>::empty(),
                    Some(v) => out && after == s.insert(to@, v@).remove(from@)
                        && ops == seq![StorageOp::Put { key: to@, value: v@ }, StorageOp::Delete { key: from@ }],
                },
    {
        match found {
            None => Branch::Left(Pure { value: false }),
            Some(val) => {
                let inner = set(to, val.as_str()).followed_by(delete(from));
                let q = Branch::Right(inner.followed_by(Pure { value: true }));
                proof {
                    assert forall|s: Store, ops: Seq<StorageOp>, out: bool, after: Store| #[trigger] q.runs(s, ops, out, after)
                        implies out && after == s.insert(to@, val@).remove(from@)
                            && ops == seq![StorageOp::Put { key: to@, value: val@ }, StorageOp::Delete { key: from@ }] by {
                        let seq_p = q->Right_0;
                        let (o1, mid, ops1, ops2) = choose|o1: (), mid: Store, ops1: Seq<StorageOp>, ops2: Seq<StorageOp>|
                            #![trigger seq_p.first.runs(s, ops1, o1, mid), seq_p.second.runs(mid, ops2, out, after)]
                            seq_p.first.runs(s, ops1, o1, mid) && seq_p.second.runs(mid, ops2, out, after) && ops == ops1 + ops2;
                        let (o2, mid2, opsa, opsb) = choose|o2: (), mid2: Store, opsa: Seq<StorageOp>, opsb: Seq<StorageOp>|
                            #![trigger seq_p.first.first.runs(s, opsa, o2, mid2), seq_p.first.second.runs(mid2, opsb, o1, mid)]
                            seq_p.first.first.runs(s, opsa, o2, mid2) && seq_p.first.second.runs(mid2, opsb, o1, mid) && ops1 == opsa + opsb;
                        assert(ops =~= seq![StorageOp::Put { key: to@, value: val@ }, StorageOp::Delete { key: from@ }]);
                    }
                }
                q
            },
        }
    };
    let p = get(from).and_then(step);
    proof {
        assert forall|before: Store| #[trigger] p.runnable(before) by {
            lemma_and_then_runnable(p, before);
        }
        assert forall|before: Store, ops: Seq<StorageOp>, out: bool, after: Store| #[trigger] p.runs(before, ops, out, after)
            implies transfer_outcome(before, from@, to@, out, after) && ops == transfer_steps(before, from@, to@) by {
            lemma_and_then_runs(p, before, ops, out, after);
            let (o1, mid, ops1, ops2, q) = choose|o1: Option<String>, mid: Store, ops1: Seq<StorageOp>, ops2: Seq<StorageOp>, q: Branch<Pure<bool>, Sequence<Sequence<PutOp, DeleteOp>, Pure<bool>>>|
                #![trigger p.first.runs(before, ops1, o1, mid), q.runs(mid, ops2, out, after)]
                p.first.runs(before, ops1, o1, mid) && p.cont.ensures((o1,), q) && q.runs(mid, ops2, out, after) && ops == ops1 + ops2;
            assert(q.runs(mid, ops2, out, after));
            assert(ops =~= transfer_steps(before, from@, to@));
        }
    }
    p
}

/// Runs `program` against `store`.
pub fn run_in_memory<P: Program>(program: P, store: &mut HashMap<String, String>) -> (r: P::Output)
    requires
        program.runnable(store_text(*old(store))),
    ensures
        exists|ops: Seq<StorageOp>| program.runs(store_text(*old(store)), ops, r, store_text(*final(store))),
{
    program.exec_in_memory(store)
}

/// Runs `program` against `store`, adding a log line for each step to `log`.
pub fn run_with_log<P: Program>(program: P, store: &mut HashMap<String, String>, log: &mut Vec<String>) -> (r: P::Output)
    requires
        program.runnable(store_text(*old(store))),
    ensures
        exists|ops: Seq<StorageOp>| program.runs(store_text(*old(store)), ops, r, store_text(*final(store)))
            && texts(final(log)@) == texts(old(log)@) + log_lines(ops),
{
    program.exec_with_log(store, log)
}

// ─── Interpreters agree ────────────────────────────────────────────────

/// Every two runs of `p` from the same store perform the same steps and
/// leave the same store.
pub open spec fn same_effect<P: Program>(p: P) -> bool {
    forall|before: Store, ops1: Seq<StorageOp>, o1: P::Output, a1: Store, ops2: Seq<StorageOp>, o2: P::Output, a2: Store|
        #![trigger p.runs(before, ops1, o1, a1), p.runs(before, ops2, o2, a2)]
        p.runs(before, ops1, o1, a1) && p.runs(before, ops2, o2, a2) ==> ops1 == ops2 && a1 == a2
}

/// For a program with one effect, the two interpreters agree: whatever runs
/// `run_in_memory` and `run_with_log` make from the same store leave the same
/// store, and the log gains exactly one line per step of that run.
pub proof fn law_interpreters_agree<P: Program>(
    p: P,
    before: Store,
    ops1: Seq<StorageOp>,
    o1: P::Output,
    a1: Store,
    ops2: Seq<StorageOp>,
    o2: P::Output,
    a2: Store,
)
    requires
        same_effect(p),
        p.runs(before, ops1, o1, a1),
        p.runs(before, ops2, o2, a2),
    ensures
        a1 == a2,
        log_lines(ops2) == log_lines(ops1),
{
}

/// The single steps have one effect each.
pub proof fn law_steps_same_effect<A>(g: GetOp, s: PutOp, d: DeleteOp, v: Pure<A>)
    ensures
        same_effect(g),
        same_effect(s),
        same_effect(d),
        same_effect(v),
{
}

/// Running two programs with one effect each, one after the other, has one effect.
pub proof fn law_sequence_same_effect<P1: Program, P2: Program>(p: Sequence<P1, P2>)
    requires
        same_effect(p.first),
        same_effect(p.second),
    ensures
        same_effect(p),
{
    assert forall|before: Store, ops1: Seq<StorageOp>, o1: P2::Output, a1: Store, ops2: Seq<StorageOp>, o2: P2::Output, a2: Store|
        p.runs(before, ops1, o1, a1) && p.runs(before, ops2, o2, a2) implies ops1 == ops2 && a1 == a2 by {
        let (x1, m1, f1, s1) = choose|x1: P1::Output, m1: Store, f1: Seq<StorageOp>, s1: Seq<StorageOp>|
            #![trigger p.first.runs(before, f1, x1, m1), p.second.runs(m1, s1, o1, a1)]
            p.first.runs(before, f1, x1, m1) && p.second.runs(m1, s1, o1, a1) && ops1 == f1 + s1;
        let (x2, m2, f2, s2) = choose|x2: P1::Output, m2: Store, f2: Seq<StorageOp>, s2: Seq<StorageOp>|
            #![trigger p.first.runs(before, f2, x2, m2), p.second.runs(m2, s2, o2, a2)]
            p.first.runs(before, f2, x2, m2) && p.second.runs(m2, s2, o2, a2) && ops2 == f2 + s2;
        assert(f1 == f2 && m1 == m2);
        assert(s1 == s2 && a1 == a2);
    }
}

/// A branch between programs with one effect each has one effect.
pub proof fn law_branch_same_effect<O, L: Program<Output = O>, R: Program<Output = O>>(p: Branch<L, R>)
    requires
        match p {
            Branch::Left(l) => same_effect(l),
            Branch::Right(r) => same_effect(r),
        },
    ensures
        same_effect(p),
{
}

/// Transforming the result of a program with one effect keeps that effect.
pub proof fn law_map_same_effect<P: Program, B, F: FnOnce(P::Output) -> B>(p: MapProgram<P, F>)
    requires
        same_effect(p.first),
    ensures
        same_effect(p),
{
    assert forall|before: Store, ops1: Seq<StorageOp>, o1: B, a1: Store, ops2: Seq<StorageOp>, o2: B, a2: Store|
        p.runs(before, ops1, o1, a1) && p.runs(before, ops2, o2, a2) implies ops1 == ops2 && a1 == a2 by {
        let x1 = choose|x1: P::Output| #[trigger] p.first.runs(before, ops1, x1, a1) && p.cont.ensures((x1,), o1);
        let x2 = choose|x2: P::Output| #[trigger] p.first.runs(before, ops2, x2, a2) && p.cont.ensures((x2,), o2);
        assert(p.first.runs(before, ops1, x1, a1) && p.first.runs(before, ops2, x2, a2));
    }
}

} // verus!
