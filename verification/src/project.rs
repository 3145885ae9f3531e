//! The text side of a CSV pipeline: splitting a file into data lines, a line
//! into its fields, selecting records by category, and grouping records by
//! category in sorted order. The numeric side (parsing the value field as a
//! floating-point number, sums and averages) works on what these return.
use vstd::prelude::*;
use vstd::string::*;
use crate::text::{chars_of, string_from_chars, str_eq};
use crate::numparse::{trimmed, trim_chars, white_space};
use crate::composition::texts;
use crate::iterators::{lex_le, lemma_lex_total, lemma_lex_trans, str_gt};

verus! {

/// One CSV record: a name, a category and a value of type `V`.
#[derive(Debug, Clone, PartialEq)]
pub struct Record<V> {
    pub name: String,
    pub category: String,
    pub value: V,
}

// ─── Lines ─────────────────────────────────────────────────────────────

/// Scanning for lines: the lines finished so far and the text of the current one.
pub open spec fn line_scan(s: Seq<char>) -> (Seq<Seq<char>>, Seq<char>)
    decreases s.len(),
{
    if s.len() == 0 {
        (Seq::empty(), Seq::empty())
    } else {
        let (done, cur) = line_scan(s.drop_last());
        if s.last() == '\n' {
            (done.push(strip_cr(cur)), Seq::empty())
        } else {
            (done, cur.push(s.last()))
        }
    }
}

/// A line ended by `\n` loses a `\r` just before it.
pub open spec fn strip_cr(l: Seq<char>) -> Seq<char> {
    if l.len() > 0 && l.last() == '\r' { l.drop_last() } else { l }
}

/// The lines of `s` as `str::lines` gives them: split at `\n` (and `\r\n`),
/// with no line after a final line ending.
pub open spec fn lines_of(s: Seq<char>) -> Seq<Seq<char>> {
    let (done, cur) = line_scan(s);
    if cur.len() > 0 { done.push(cur) } else { done }
}

/// Whether a line has something other than whitespace.
pub open spec fn not_blank(l: Seq<char>) -> bool {
    trimmed(l).len() > 0
}

/// The data lines of a CSV text: every line after the header that is not blank.
pub open spec fn data_lines_of(s: Seq<char>) -> Seq<Seq<char>> {
    let ls = lines_of(s);
    if ls.len() == 0 { ls } else { ls.skip(1).filter(|l: Seq<char>| not_blank(l)) }
}

/// Whether the characters are all whitespace.
fn is_blank_line(cs: &Vec<char>) -> (b: bool)
    ensures
        b == !not_blank(cs@),
{
    let s = string_from_chars(cs);
    let t = trim_chars(s.as_str());
    t.len() == 0
}

/// The data lines of `csv`: the lines after the header that are not blank.
pub fn data_lines(csv: &str) -> (r: Vec<String>)
    ensures
        texts(r@) == data_lines_of(csv@),
{
    let cs = chars_of(csv);
    let mut done: Vec<Vec<char>> = Vec::new();
    let mut cur: Vec<char> = Vec::new();
    let mut i: usize = 0;
    while i < cs.len()
        invariant
            cs@ == csv@,
            i <= cs@.len(),
            (done@.map_values(|v: Vec<char>| v@), cur@) == line_scan(cs@.take(i as int)),
        decreases cs.len() - i,
    {
        assert(cs@.take(i + 1).drop_last() =~= cs@.take(i as int));
        let c = cs[i];
        if c == '\n' {
            let ghost old_done = done@.map_values(|v: Vec<char>| v@);
            let ghost old_cur = cur@;
            if cur.len() > 0 && cur[cur.len() - 1] == '\r' {
                cur.pop();
            }
            assert(cur@ == strip_cr(old_cur));
            done.push(cur);
            cur = Vec::new();
            assert(done@.map_values(|v: Vec<char>| v@) =~= old_done.push(strip_cr(old_cur)));
        } else {
            cur.push(c);
        }
        i += 1;
    }
    assert(cs@.take(cs@.len() as int) =~= cs@);
    let ghost scanned = done@.map_values(|v: Vec<char>| v@);
    if cur.len() > 0 {
        done.push(cur);
        assert(done@.map_values(|v: Vec<char>| v@) =~= scanned.push(line_scan(csv@).1));
    }
    let ghost all = done@.map_values(|v: Vec<char>| v@);
    assert(all == lines_of(csv@));
    let mut r: Vec<String> = Vec::new();
    if done.len() == 0 {
        return r;
    }
    let ghost body = all.skip(1);
    let ghost p = |l: Seq<char>| not_blank(l);
    let mut k: usize = 1;
    while k < done.len()
        invariant
            1 <= k <= done@.len(),
            all == done@.map_values(|v: Vec<char>| v@),
            body == all.skip(1),
            p == (|l: Seq<char>| not_blank(l)),
            texts(r@) == body.take(k - 1).filter(p),
        decreases done.len() - k,
    {
        proof {
            crate::seqs::lemma_filter_take_succ(body, p, k - 1);
            assert(body[k - 1] == done@[k as int]@);
        }
        if !is_blank_line(&done[k]) {
            let line = string_from_chars(&done[k]);
            let ghost old_r = texts(r@);
            r.push(line);
            assert(texts(r@) =~= old_r.push(body[k - 1]));
        }
        k += 1;
    }
    assert(body.take(body.len() as int) =~= body);
    r
}

// ─── Fields ────────────────────────────────────────────────────────────

/// The first position at or after `k` that holds `c`, or the length.
pub open spec fn find_from(s: Seq<char>, c: char, k: int) -> int
    decreases s.len() - k,
{
    if k < 0 || k >= s.len() {
        s.len() as int
    } else if s[k] == c {
        k
    } else {
        find_from(s, c, k + 1)
    }
}

/// The three fields of a line split at its first two commas (the third keeps
/// any later commas), each trimmed; `None` when the line has fewer than two
/// commas.
pub open spec fn fields_of(s: Seq<char>) -> Option<(Seq<char>, Seq<char>, Seq<char>)> {
    let i = find_from(s, ',', 0);
    let j = find_from(s, ',', i + 1);
    if i >= s.len() || j >= s.len() {
        None
    } else {
        Some((trimmed(s.subrange(0, i)), trimmed(s.subrange(i + 1, j)), trimmed(s.skip(j + 1))))
    }
}

proof fn lemma_find_from(s: Seq<char>, c: char, k: int)
    requires
        0 <= k <= s.len(),
    ensures
        k <= find_from(s, c, k) <= s.len(),
        forall|m: int| k <= m < find_from(s, c, k) ==> s[m] != c,
        find_from(s, c, k) < s.len() ==> s[find_from(s, c, k)] == c,
    decreases s.len() - k,
{
    if k < s.len() && s[k] != c {
        lemma_find_from(s, c, k + 1);
    }
}

/// The first position at or after `k` in `cs` that holds `c`, or the length.
fn find_char(cs: &Vec<char>, c: char, k: usize) -> (r: usize)
    requires
        k <= cs@.len(),
    ensures
        r == find_from(cs@, c, k as int),
        k <= r <= cs@.len(),
{
    let mut i = k;
    proof { lemma_find_from(cs@, c, k as int); }
    while i < cs.len() && cs[i] != c
        invariant
            k <= i <= cs@.len(),
            find_from(cs@, c, k as int) == find_from(cs@, c, i as int),
        decreases cs.len() - i,
    {
        i += 1;
    }
    i
}

/// The characters of `cs` from `lo` to `hi`, trimmed, as a string.
fn trimmed_piece(cs: &Vec<char>, lo: usize, hi: usize) -> (s: String)
    requires
        lo <= hi <= cs@.len(),
    ensures
        s@ == trimmed(cs@.subrange(lo as int, hi as int)),
{
    let mut piece: Vec<char> = Vec::new();
    let mut i = lo;
    while i < hi
        invariant
            lo <= i <= hi <= cs@.len(),
            piece@ == cs@.subrange(lo as int, i as int),
        decreases hi - i,
    {
        piece.push(cs[i]);
        assert(piece@ =~= cs@.subrange(lo as int, i + 1));
        i += 1;
    }
    let raw = string_from_chars(&piece);
    let t = trim_chars(raw.as_str());
    string_from_chars(&t)
}

/// The trimmed name, category and value text of a CSV line, split at its
/// first two commas; `None` when it has fewer than two.
pub fn record_fields(line: &str) -> (r: Option<(String, String, String)>)
    ensures
        match fields_of(line@) {
            None => r is None,
            Some((a, b, c)) => r matches Some((x, y, z)) && x@ == a && y@ == b && z@ == c,
        },
{
    let cs = chars_of(line);
    let i = find_char(&cs, ',', 0);
    if i >= cs.len() {
        return None;
    }
    let j = find_char(&cs, ',', i + 1);
    if j >= cs.len() {
        return None;
    }
    let name = trimmed_piece(&cs, 0, i);
    let category = trimmed_piece(&cs, i + 1, j);
    let value = trimmed_piece(&cs, j + 1, cs.len());
    assert(cs@.subrange(j + 1, cs@.len() as int) =~= cs@.skip(j + 1));
    Some((name, category, value))
}

// ─── Selecting and grouping ────────────────────────────────────────────

/// The records of category `category`, in order.
pub fn filter_by_category<'a, V>(records: &'a [Record<V>], category: &str) -> (r: Vec<&'a Record<V>>)
    ensures
        r@.map_values(|x: &Record<V>| *x) == records@.filter(|rec: Record<V>| rec.category@ == category@),
{
    let ghost p = |rec: Record<V>| rec.category@ == category@;
    let mut r: Vec<&'a Record<V>> = Vec::new();
    let mut i: usize = 0;
    while i < records.len()
        invariant
            i <= records@.len(),
            p == (|rec: Record<V>| rec.category@ == category@),
            r@.map_values(|x: &Record<V>| *x) == records@.take(i as int).filter(p),
        decreases records.len() - i,
    {
        proof { crate::seqs::lemma_filter_take_succ(records@, p, i as int); }
        if str_eq(records[i].category.as_str(), category) {
            let ghost old_r = r@;
            r.push(&records[i]);
            assert(r@.map_values(|x: &Record<V>| *x) =~= old_r.map_values(|x: &Record<V>| *x).push(records@[i as int]));
        }
        i += 1;
    }
    proof { crate::seqs::lemma_take_full(records@); }
    r
}

/// The categories of the groups, in order.
pub open spec fn group_cat(g: (String, Vec<usize>)) -> Seq<char> {
    g.0@
}

/// The record indices of a group, in order.
pub open spec fn group_ids(g: (String, Vec<usize>)) -> Seq<usize> {
    g.1@
}

/// Groups of record indices by category, with these properties: the
/// categories strictly increase in [`lex_le`] order; each group is non-empty,
/// its indices strictly increase and are those of records of its category;
/// and each of the first `n` records is in some group.
pub open spec fn grouping<V>(records: Seq<Record<V>>, groups: Seq<(String, Vec<usize>)>, n: int) -> bool {
    &&& forall|a: int, b: int| 0 <= a < b < groups.len()
        ==> lex_le(group_cat(#[trigger] groups[a]), group_cat(#[trigger] groups[b])) && group_cat(groups[a]) != group_cat(groups[b])
    &&& forall|a: int| 0 <= a < groups.len() ==> group_ids(#[trigger] groups[a]).len() > 0
    &&& forall|a: int, t: int| 0 <= a < groups.len() && 0 <= t < group_ids(groups[a]).len()
        ==> #[trigger] group_ids(groups[a])[t] < n && records[group_ids(groups[a])[t] as int].category@ == group_cat(groups[a])
    &&& forall|a: int, t: int, u: int| 0 <= a < groups.len() && 0 <= t < u < group_ids(groups[a]).len()
        ==> #[trigger] group_ids(groups[a])[t] < #[trigger] group_ids(groups[a])[u]
    &&& forall|k: int| 0 <= k < n ==> #[trigger] in_some_group(groups, k)
}

/// Record `k` is listed in some group.
pub open spec fn in_some_group(groups: Seq<(String, Vec<usize>)>, k: int) -> bool {
    exists|a: int, t: int| 0 <= a < groups.len() && 0 <= t < group_ids(groups[a]).len() && group_ids(groups[a])[t] == k
}

/// The records grouped by category: one group per category, categories in
/// sorted order, each group listing the indices of its records in order.
pub fn category_groups<V>(records: &[Record<V>]) -> (r: Vec<(String, Vec<usize>)>)
    ensures
        grouping(records@, r@, records@.len() as int),
{
    let mut groups: Vec<(String, Vec<usize>)> = Vec::new();
    let mut i: usize = 0;
    while i < records.len()
        invariant
            i <= records@.len(),
            grouping(records@, groups@, i as int),
        decreases records.len() - i,
    {
        let cat = records[i].category.as_str();
        let mut g: usize = 0;
        while g < groups.len()
            invariant
                g <= groups@.len(),
                forall|a: int| 0 <= a < g ==> group_cat(#[trigger] groups@[a]) != cat@,
            ensures
                g <= groups@.len(),
                forall|a: int| 0 <= a < g ==> group_cat(#[trigger] groups@[a]) != cat@,
                g < groups@.len() ==> group_cat(groups@[g as int]) == cat@,
            decreases groups.len() - g,
        {
            if str_eq(groups[g].0.as_str(), cat) {
                break;
            }
            g += 1;
        }
        let ghost before = groups@;
        if g < groups.len() {
            let mut entry = groups.remove(g);
            entry.1.push(i);
            groups.insert(g, entry);
            proof {
                assert(groups@ =~= before.update(g as int, entry));
                assert forall|k: int| 0 <= k < i + 1 implies #[trigger] in_some_group(groups@, k) by {
                    if k == i {
                        assert(group_ids(groups@[g as int])[group_ids(before[g as int]).len() as int] == k);
                    } else {
                        assert(in_some_group(before, k));
                        let (a, t) = choose|a: int, t: int| 0 <= a < before.len() && 0 <= t < group_ids(before[a]).len() && group_ids(before[a])[t] == k;
                        assert(group_ids(groups@[a])[t] == k);
                    }
                }
                assert forall|a: int, t: int| 0 <= a < groups@.len() && 0 <= t < group_ids(groups@[a]).len()
                    implies #[trigger] group_ids(groups@[a])[t] < i + 1 && records@[group_ids(groups@[a])[t] as int].category@ == group_cat(groups@[a]) by {
                    if a == g && t == group_ids(before[a]).len() {
                    } else {
                        assert(group_ids(groups@[a])[t] == group_ids(before[a])[t]);
                    }
                }
                assert forall|a: int, t: int, u: int| 0 <= a < groups@.len() && 0 <= t < u < group_ids(groups@[a]).len()
                    implies #[trigger] group_ids(groups@[a])[t] < #[trigger] group_ids(groups@[a])[u] by {
                    if a == g && u == group_ids(before[a]).len() {
                        assert(group_ids(groups@[a])[t] == group_ids(before[a])[t]);
                    } else {
                        assert(group_ids(groups@[a])[t] == group_ids(before[a])[t]);
                        assert(group_ids(groups@[a])[u] == group_ids(before[a])[u]);
                    }
                }
            }
        } else {
            let mut p: usize = 0;
            while p < groups.len()
                invariant
                    p <= groups@.len(),
                    forall|a: int| 0 <= a < p ==> lex_le(group_cat(#[trigger] groups@[a]), cat@),
                ensures
                    p <= groups@.len(),
                    forall|a: int| 0 <= a < p ==> lex_le(group_cat(#[trigger] groups@[a]), cat@),
                    p < groups@.len() ==> !lex_le(group_cat(groups@[p as int]), cat@),
                decreases groups.len() - p,
            {
                if str_gt(groups[p].0.as_str(), cat) {
                    break;
                }
                p += 1;
            }
            let mut ids: Vec<usize> = Vec::new();
            ids.push(i);
            let entry = (records[i].category.clone(), ids);
            groups.insert(p, entry);
            proof {
                let n = before.len();
                assert(groups@ =~= before.insert(p as int, entry));
                assert(group_cat(entry) == cat@);
                if p < n {
                    lemma_lex_total(cat@, group_cat(before[p as int]));
                }
                assert forall|a: int, b: int| 0 <= a < b < groups@.len()
                    implies lex_le(group_cat(#[trigger] groups@[a]), group_cat(#[trigger] groups@[b])) && group_cat(groups@[a]) != group_cat(groups@[b]) by {
                    if b < p {
                    } else if a < p && b == p {
                    } else if a < p && b > p {
                        assert(groups@[b] == before[b - 1]);
                        assert(lex_le(group_cat(before[a]), group_cat(before[b - 1])));
                    } else if a == p {
                        assert(groups@[b] == before[b - 1]);
                        if b - 1 > p {
                            assert(lex_le(group_cat(before[p as int]), group_cat(before[b - 1])));
                            lemma_lex_trans(cat@, group_cat(before[p as int]), group_cat(before[b - 1]));
                        }
                    } else {
                        assert(groups@[a] == before[a - 1] && groups@[b] == before[b - 1]);
                    }
                }
                assert forall|a: int| 0 <= a < groups@.len() implies group_ids(#[trigger] groups@[a]).len() > 0 by {
                    if a > p {
                        assert(groups@[a] == before[a - 1]);
                    } else if a < p {
                    }
                }
                assert forall|a: int, t: int| 0 <= a < groups@.len() && 0 <= t < group_ids(groups@[a]).len()
                    implies #[trigger] group_ids(groups@[a])[t] < i + 1 && records@[group_ids(groups@[a])[t] as int].category@ == group_cat(groups@[a]) by {
                    if a > p {
                        assert(groups@[a] == before[a - 1]);
                    }
                }
                assert forall|a: int, t: int, u: int| 0 <= a < groups@.len() && 0 <= t < u < group_ids(groups@[a]).len()
                    implies #[trigger] group_ids(groups@[a])[t] < #[trigger] group_ids(groups@[a])[u] by {
                    if a > p {
                        assert(groups@[a] == before[a - 1]);
                    }
                }
                assert forall|k: int| 0 <= k < i + 1 implies #[trigger] in_some_group(groups@, k) by {
                    if k == i {
                        assert(group_ids(groups@[p as int])[0] == k);
                    } else {
                        assert(in_some_group(before, k));
                        let (a, t) = choose|a: int, t: int| 0 <= a < before.len() && 0 <= t < group_ids(before[a]).len() && group_ids(before[a])[t] == k;
                        if a < p {
                            assert(group_ids(groups@[a])[t] == k);
                        } else {
                            assert(groups@[a + 1] == before[a]);
                            assert(group_ids(groups@[a + 1])[t] == k);
                        }
                    }
                }
            }
        }
        i += 1;
    }
    groups
}

} // verus!
