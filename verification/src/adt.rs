//! Algebraic data types: sum types, guarded matches, recursive lists and trees,
//! nested patterns, `if let` and `while let`.
use vstd::prelude::*;
use std::collections::VecDeque;
use crate::text::{nat_text, push_char, push_u64};
use crate::seqs::{clones_of, lemma_clones_of_prepend};
use vstd::string::*;

pub use crate::bst::Tree;

verus! {

/// The class `classify_number` names, by guard.
pub open spec fn number_class(n: i32) -> Seq<char> {
    if n == 0 {
        "ゼロ"@
    } else if 0 < n <= 9 {
        "小さな正数"@
    } else if 9 < n <= 99 {
        "2桁の正数"@
    } else if n < 0 {
        "負数"@
    } else {
        "大きな数"@
    }
}

/// Classifies an integer as zero, a small positive, a two-digit positive,
/// a negative, or a large number.
pub fn classify_number(n: i32) -> (r: &'static str)
    ensures
        r@ == number_class(n),
{
    if n == 0 {
        "ゼロ"
    } else if n > 0 && n <= 9 {
        "小さな正数"
    } else if n > 9 && n <= 99 {
        "2桁の正数"
    } else if n < 0 {
        "負数"
    } else {
        "大きな数"
    }
}

/// A cons list.
#[derive(Debug)]
pub enum List<T> {
    Cons(T, Box<List<T>>),
    Nil,
}

impl<T> List<T> {
    /// The elements, front first.
    pub open spec fn view(&self) -> Seq<T>
        decreases self,
    {
        match self {
            List::Nil => Seq::empty(),
            List::Cons(h, t) => seq![*h] + (**t).view(),
        }
    }
}

fn clone_list<T: Clone>(l: &List<T>) -> (r: List<T>)
    ensures
        clones_of(l.view(), r.view()),
    decreases l,
{
    match l {
        List::Nil => List::Nil,
        List::Cons(h, t) => {
            let r = List::Cons(h.clone(), Box::new(clone_list(&**t)));
            assert(r.view() == seq![r->Cons_0] + (*(r->Cons_1)).view());
            r
        },
    }
}

impl<T: Clone> Clone for List<T> {
    fn clone(&self) -> (r: Self)
        ensures
            clones_of(self.view(), r.view()),
    {
        clone_list(self)
    }
}

/// The sum of a sequence, adding each element to the sum of the rest.
pub open spec fn right_sum(s: Seq<i32>) -> int
    decreases s.len(),
{
    if s.len() == 0 { 0 } else { s[0] + right_sum(s.drop_first()) }
}

impl<T: Clone> List<T> {
    /// The empty list.
    pub fn empty() -> (l: Self)
        ensures
            l.view() == Seq::<T>::empty(),
    {
        List::Nil
    }

    /// The list with `value` in front.
    pub fn prepend(self, value: T) -> (l: Self)
        ensures
            l.view() == seq![value] + self.view(),
    {
        List::Cons(value, Box::new(self))
    }

    /// The number of elements.
    pub fn len(&self) -> (n: usize)
        requires
            self.view().len() <= usize::MAX,
        ensures
            n == self.view().len(),
        decreases self,
    {
        match self {
            List::Nil => 0,
            List::Cons(_, tail) => 1 + (**tail).len(),
        }
    }

    /// Whether the list is empty.
    pub fn is_empty(&self) -> (b: bool)
        ensures
            b == (self.view().len() == 0),
    {
        match self {
            List::Nil => true,
            List::Cons(_, _) => false,
        }
    }

    /// The elements (clones) as a vector, front first.
    pub fn to_vec(&self) -> (r: Vec<T>)
        ensures
            clones_of(self.view(), r@),
        decreases self,
    {
        match self {
            List::Nil => Vec::new(),
            List::Cons(head, tail) => {
                let mut r: Vec<T> = Vec::new();
                r.push(head.clone());
                let mut rest = (**tail).to_vec();
                r.append(&mut rest);
                r
            }
        }
    }

    /// The list of `f` applied to each element, in order.
    pub fn map<U: Clone, F: Fn(T) -> U>(self, f: F) -> (r: List<U>)
        requires
            forall|i: int| 0 <= i < self.view().len() ==> f.requires((#[trigger] self.view()[i],)),
        ensures
            r.view().len() == self.view().len(),
            forall|i: int| 0 <= i < self.view().len() ==> f.ensures((self.view()[i],), #[trigger] r.view()[i]),
        decreases self,
    {
        match self {
            List::Nil => List::Nil,
            List::Cons(head, tail) => {
                let ghost tv = (*tail).view();
                assert(forall|i: int| 0 <= i < tv.len() ==> tv[i] == self.view()[i + 1]);
                assert(self.view()[0] == head);
                let h = f(head);
                let t = (*tail).map(f);
                let r = List::Cons(h, Box::new(t));
                assert forall|i: int| 0 <= i < self.view().len() implies f.ensures((self.view()[i],), #[trigger] r.view()[i]) by {
                    if i > 0 {
                        assert(r.view()[i] == t.view()[i - 1]);
                    }
                }
                r
            }
        }
    }
}

/// Converting a list built by prepending `x` gives `x` in front of the
/// list's own vector, one element longer; where cloning gives back an equal
/// value, each vector is exactly the list's elements.
pub proof fn law_list_prepend_to_vec<T: Clone>(l: List<T>, x: T, v0: Seq<T>, v1: Seq<T>)
    requires
        clones_of(l.view(), v0),
        clones_of(List::Cons(x, Box::new(l)).view(), v1),
        forall|a: T, b: T| cloned::<T>(a, b) ==> a == b,
    ensures
        v0 == l.view(),
        v1 == seq![x] + v0,
        v1.len() == v0.len() + 1,
{
    lemma_clones_of_prepend(x, l.view(), v0, v1);
}

impl List<i32> {
    /// The sum of the elements, head plus the sum of the tail.
    pub fn sum(&self) -> (r: i32)
        requires
            forall|k: int| 0 <= k <= self.view().len() ==> i32::MIN <= #[trigger] right_sum(self.view().skip(k)) <= i32::MAX,
        ensures
            r == right_sum(self.view()),
        decreases self,
    {
        match self {
            List::Nil => 0,
            List::Cons(head, tail) => {
                let ghost v = self.view();
                assert forall|k: int| 0 <= k <= (**tail).view().len() implies i32::MIN <= #[trigger] right_sum((**tail).view().skip(k)) <= i32::MAX by {
                    assert((**tail).view().skip(k) =~= v.skip(k + 1));
                }
                assert(v.skip(0) =~= v);
                assert(v.skip(1) =~= (**tail).view());
                assert(v.drop_first() =~= (**tail).view());
                assert(i32::MIN <= right_sum(v.skip(0)) <= i32::MAX);
                assert(i32::MIN <= right_sum(v.skip(1)) <= i32::MAX);
                let rest = (**tail).sum();
                *head + rest
            }
        }
    }
}

/// A network endpoint.
#[derive(Debug, Clone, PartialEq)]
pub enum Address {
    Ipv4(u8, u8, u8, u8),
    Ipv6(String),
}

/// Why a connection ended.
#[derive(Debug, Clone, PartialEq)]
pub enum DisconnectCode {
    Normal,
    Timeout,
    Error(u32),
}

/// Something that happened on a connection.
#[derive(Debug, Clone, PartialEq)]
pub enum NetworkEvent {
    Connected(Address),
    DataReceived { from: Address, payload: Vec<u8> },
    Disconnected(DisconnectCode),
}

/// `a.b.c.d`.
pub open spec fn ipv4_text(a: u8, b: u8, c: u8, d: u8) -> Seq<char> {
    nat_text(a as nat) + seq!['.'] + nat_text(b as nat) + seq!['.'] + nat_text(c as nat) + seq!['.'] + nat_text(d as nat)
}

/// The description of an event, by its nested pattern.
pub open spec fn event_text(e: NetworkEvent) -> Seq<char> {
    match e {
        NetworkEvent::Connected(Address::Ipv4(a, b, c, d)) => "接続: "@ + ipv4_text(a, b, c, d),
        NetworkEvent::Connected(Address::Ipv6(s)) => "接続(IPv6): "@ + s@,
        NetworkEvent::DataReceived { from: Address::Ipv4(a, b, c, d), payload } =>
            "データ受信: "@ + ipv4_text(a, b, c, d) + " から "@ + nat_text(payload@.len()) + " バイト"@,
        NetworkEvent::DataReceived { from: Address::Ipv6(s), payload } =>
            "データ受信(IPv6): "@ + s@ + " から "@ + nat_text(payload@.len()) + " バイト"@,
        NetworkEvent::Disconnected(DisconnectCode::Normal) => "正常切断"@,
        NetworkEvent::Disconnected(DisconnectCode::Timeout) => "タイムアウト切断"@,
        NetworkEvent::Disconnected(DisconnectCode::Error(code)) => "エラー切断: コード "@ + nat_text(code as nat),
    }
}

fn push_ipv4(out: &mut String, a: u8, b: u8, c: u8, d: u8)
    ensures
        final(out)@ == old(out)@ + ipv4_text(a, b, c, d),
{
    push_u64(out, a as u64);
    push_char(out, '.');
    push_u64(out, b as u64);
    push_char(out, '.');
    push_u64(out, c as u64);
    push_char(out, '.');
    push_u64(out, d as u64);
    assert(final(out)@ =~= old(out)@ + ipv4_text(a, b, c, d));
}

/// A one-line description of a network event.
pub fn describe_event(event: &NetworkEvent) -> (r: String)
    ensures
        r@ == event_text(*event),
{
    let mut r = String::new();
    match event {
        NetworkEvent::Connected(Address::Ipv4(a, b, c, d)) => {
            r.append("接続: ");
            push_ipv4(&mut r, *a, *b, *c, *d);
        }
        NetworkEvent::Connected(Address::Ipv6(addr)) => {
            r.append("接続(IPv6): ");
            r.append(addr.as_str());
        }
        NetworkEvent::DataReceived { from: Address::Ipv4(a, b, c, d), payload } => {
            r.append("データ受信: ");
            push_ipv4(&mut r, *a, *b, *c, *d);
            r.append(" から ");
            push_u64(&mut r, payload.len() as u64);
            r.append(" バイト");
        }
        NetworkEvent::DataReceived { from: Address::Ipv6(addr), payload } => {
            r.append("データ受信(IPv6): ");
            r.append(addr.as_str());
            r.append(" から ");
            push_u64(&mut r, payload.len() as u64);
            r.append(" バイト");
        }
        NetworkEvent::Disconnected(DisconnectCode::Normal) => {
            r.append("正常切断");
        }
        NetworkEvent::Disconnected(DisconnectCode::Timeout) => {
            r.append("タイムアウト切断");
        }
        NetworkEvent::Disconnected(DisconnectCode::Error(code)) => {
            r.append("エラー切断: コード ");
            push_u64(&mut r, *code as u64);
        }
    }
    r
}

/// Log severity, least to most severe.
#[derive(Debug, Clone, PartialEq, Eq, PartialOrd, Ord)]
pub enum LogLevel {
    Debug,
    Info,
    Warn,
    Error,
}

/// A log line.
#[derive(Debug, Clone)]
pub struct LogEntry {
    pub level: LogLevel,
    pub message: String,
}

impl LogEntry {
    /// A log entry with the given level and message.
    pub fn new(level: LogLevel, message: &str) -> (e: Self)
        ensures
            e.level == level,
            e.message@ == message@,
    {
        LogEntry { level, message: String::from_str(message) }
    }
}

/// Whether an entry is at `Error` level.
pub open spec fn is_error(e: LogEntry) -> bool {
    e.level is Error
}

/// The messages of the `Error` entries, in order.
pub fn extract_errors(logs: &[LogEntry]) -> (r: Vec<&str>)
    ensures
        r@.map_values(|s: &str| s@) == logs@.filter(|e: LogEntry| is_error(e)).map_values(|e: LogEntry| e.message@),
{
    let ghost p = |e: LogEntry| is_error(e);
    let mut r: Vec<&str> = Vec::new();
    let mut i: usize = 0;
    while i < logs.len()
        invariant
            p == (|e: LogEntry| is_error(e)),
            i <= logs@.len(),
            r@.map_values(|s: &str| s@) == logs@.take(i as int).filter(p).map_values(|e: LogEntry| e.message@),
        decreases logs.len() - i,
    {
        proof { crate::seqs::lemma_filter_take_succ(logs@, p, i as int); }
        let entry = &logs[i];
        assert(*entry == logs@[i as int]);
        if let LogLevel::Error = entry.level {
            let m = entry.message.as_str();
            let ghost old_r = r@;
            r.push(m);
            assert(r@ == old_r.push(m));
            assert(r@.map_values(|s: &str| s@) =~= old_r.map_values(|s: &str| s@).push(m@));
            assert(p(logs@[i as int]));
            assert(r@.map_values(|s: &str| s@) =~= logs@.take(i + 1).filter(p).map_values(|e: LogEntry| e.message@));
        }
        i += 1;
    }
    proof { crate::seqs::lemma_take_full(logs@); }
    r
}

/// The length of the leading run of positive numbers in `s`.
pub open spec fn positive_prefix_len(s: Seq<i32>) -> nat
    decreases s.len(),
{
    if s.len() > 0 && s[0] > 0 { 1 + positive_prefix_len(s.drop_first()) } else { 0 }
}

/// Removes the leading run of positive numbers from the front of `queue`
/// and returns it; the queue keeps everything from the first non-positive on.
pub fn drain_positive(queue: &mut VecDeque<i32>) -> (r: Vec<i32>)
    ensures
        r@ == old(queue)@.take(positive_prefix_len(old(queue)@) as int),
        final(queue)@ == old(queue)@.skip(positive_prefix_len(old(queue)@) as int),
{
    let ghost q0 = queue@;
    let mut r: Vec<i32> = Vec::new();
    loop
        invariant_except_break
            r@.len() <= q0.len(),
            q0 == r@ + queue@,
            forall|j: int| 0 <= j < r@.len() ==> r@[j] > 0,
        ensures
            q0 == r@ + queue@,
            forall|j: int| 0 <= j < r@.len() ==> r@[j] > 0,
            queue@.len() == 0 || queue@[0] <= 0,
        decreases queue@.len(),
    {
        if queue.len() == 0 {
            break;
        }
        let front = queue[0];
        if front > 0 {
            let v = queue.pop_front();
            match v {
                Some(x) => {
                    r.push(x);
                    assert(q0 =~= r@ + queue@);
                }
                None => {}
            }
        } else {
            break;
        }
    }
    proof { lemma_positive_prefix(q0, r@, queue@); }
    r
}

proof fn lemma_positive_prefix(q: Seq<i32>, a: Seq<i32>, b: Seq<i32>)
    requires
        q == a + b,
        forall|j: int| 0 <= j < a.len() ==> a[j] > 0,
        b.len() == 0 || b[0] <= 0,
    ensures
        positive_prefix_len(q) == a.len(),
        a == q.take(a.len() as int),
        b == q.skip(a.len() as int),
    decreases a.len(),
{
    if a.len() > 0 {
        assert(q.drop_first() =~= a.drop_first() + b);
        lemma_positive_prefix(q.drop_first(), a.drop_first(), b);
        assert(q.drop_first() =~= a.drop_first() + b);
    } else {
        assert(q =~= b);
    }
    assert(a =~= q.take(a.len() as int));
    assert(b =~= q.skip(a.len() as int));
}

} // verus!
