//! Lines of a text, and simple tests on lines.
//!
//! A text is cut into lines at every line feed; a carriage return directly
//! before the line feed belongs to the terminator. A final line without a
//! terminator counts as a line, an empty remainder after the last terminator
//! does not.

use crate::text::{
    blank, contains, has_infix, has_prefix, is_blank, rows, same_chars, slice_of, starts_with,
};
use vstd::prelude::*;

verus! {

// ---------------------------------------------------------------------------
// Splitting into lines
// ---------------------------------------------------------------------------

/// Index of the first line feed at or after `from`, or the length of `s` when
/// there is none.
pub open spec fn next_newline(s: Seq<char>, from: int) -> int
    decreases s.len() - from,
{
    if 0 <= from < s.len() && s[from] != '\n' {
        next_newline(s, from + 1)
    } else {
        from
    }
}

/// `s` without one trailing carriage return, if it has one.
pub open spec fn strip_cr(s: Seq<char>) -> Seq<char> {
    if s.len() > 0 && s.last() == '\r' {
        s.drop_last()
    } else {
        s
    }
}

/// The lines of the part of `s` that starts at `from`.
pub open spec fn lines_from(s: Seq<char>, from: int) -> Seq<Seq<char>>
    decreases s.len() - from,
{
    if 0 <= from < s.len() {
        let k = next_newline(s, from);
        if from <= k < s.len() {
            seq![strip_cr(s.subrange(from, k))] + lines_from(s, k + 1)
        } else {
            seq![s.subrange(from, s.len() as int)]
        }
    } else {
        Seq::empty()
    }
}

/// The lines of `s`, without their terminators.
pub open spec fn lines(s: Seq<char>) -> Seq<Seq<char>> {
    lines_from(s, 0)
}

/// The first line feed at or after `from` is at `k` when nothing before `k`
/// is one and `k` is one or the end.
pub proof fn lemma_next_newline(s: Seq<char>, from: int, k: int)
    requires
        0 <= from <= k <= s.len(),
        forall|j: int| from <= j < k ==> s[j] != '\n',
        k < s.len() ==> s[k] == '\n',
    ensures
        next_newline(s, from) == k,
    decreases k - from,
{
    if from < k {
        lemma_next_newline(s, from + 1, k);
    }
}

/// Cuts `v` into its lines.
pub fn split_lines(v: &Vec<char>) -> (out: Vec<Vec<char>>)
    ensures
        rows(out@) == lines(v@),
{
    let n = v.len();
    let mut out: Vec<Vec<char>> = Vec::new();
    let mut start: usize = 0;
    let mut i: usize = 0;
    assert(rows(out@) + lines_from(v@, 0) =~= lines(v@));
    while i < n
        invariant
            start <= i <= n,
            n == v.len(),
            forall|j: int| start <= j < i ==> v@[j] != '\n',
            lines(v@) == rows(out@) + lines_from(v@, start as int),
        decreases n - i,
    {
        if v[i] == '\n' {
            let end: usize = if i > start && v[i - 1] == '\r' {
                i - 1
            } else {
                i
            };
            let line = slice_of(v, start, end);
            proof {
                lemma_next_newline(v@, start as int, i as int);
                let whole = v@.subrange(start as int, i as int);
                assert(line@ =~= strip_cr(whole));
                assert(rows(out@.push(line)) =~= rows(out@).push(line@));
                assert(rows(out@).push(line@) + lines_from(v@, i + 1) =~= rows(out@) + (seq![
                    line@,
                ] + lines_from(v@, i + 1)));
            }
            out.push(line);
            start = i + 1;
        }
        i = i + 1;
    }
    if start < n {
        let line = slice_of(v, start, n);
        proof {
            lemma_next_newline(v@, start as int, n as int);
            assert(rows(out@.push(line)) =~= rows(out@).push(line@));
            assert(rows(out@).push(line@) =~= rows(out@) + seq![line@]);
        }
        out.push(line);
    } else {
        assert(rows(out@) + Seq::<Seq<char>>::empty() =~= rows(out@));
    }
    out
}

// ---------------------------------------------------------------------------
// Tests on a line
// ---------------------------------------------------------------------------

/// A test on a line, as contracts see it.
pub enum Probe {
    /// The line has a character that is not whitespace.
    NonBlank,
    /// The line begins with the pattern.
    StartsWith(Seq<char>),
    /// The line begins with one of the two patterns.
    StartsWithEither(Seq<char>, Seq<char>),
    /// The line begins with the first pattern but not with the second.
    StartsWithButNot(Seq<char>, Seq<char>),
    /// One of the patterns occurs in the line.
    ContainsAny(Seq<Seq<char>>),
}

/// Whether one of the patterns `ps` occurs in `l`.
pub open spec fn contains_any(l: Seq<char>, ps: Seq<Seq<char>>) -> bool {
    exists|k: int| 0 <= k < ps.len() && contains(l, #[trigger] ps[k])
}

impl Probe {
    /// Whether the line `l` passes the test.
    pub open spec fn holds(self, l: Seq<char>) -> bool {
        match self {
            Probe::NonBlank => !is_blank(l),
            Probe::StartsWith(p) => starts_with(l, p),
            Probe::StartsWithEither(p, q) => starts_with(l, p) || starts_with(l, q),
            Probe::StartsWithButNot(p, q) => starts_with(l, p) && !starts_with(l, q),
            Probe::ContainsAny(ps) => contains_any(l, ps),
        }
    }
}

/// A test on a line that can be run.
pub enum LineProbe {
    NonBlank,
    StartsWith(Vec<char>),
    StartsWithEither(Vec<char>, Vec<char>),
    StartsWithButNot(Vec<char>, Vec<char>),
    ContainsAny(Vec<Vec<char>>),
}

impl View for LineProbe {
    type V = Probe;

    open spec fn view(&self) -> Probe {
        match self {
            LineProbe::NonBlank => Probe::NonBlank,
            LineProbe::StartsWith(p) => Probe::StartsWith(p@),
            LineProbe::StartsWithEither(p, q) => Probe::StartsWithEither(p@, q@),
            LineProbe::StartsWithButNot(p, q) => Probe::StartsWithButNot(p@, q@),
            LineProbe::ContainsAny(ps) => Probe::ContainsAny(rows(ps@)),
        }
    }
}

impl LineProbe {
    /// Runs the test on `line`.
    pub fn test(&self, line: &Vec<char>) -> (b: bool)
        ensures
            b == self@.holds(line@),
    {
        match self {
            LineProbe::NonBlank => !blank(line),
            LineProbe::StartsWith(p) => has_prefix(line, p),
            LineProbe::StartsWithEither(p, q) => has_prefix(line, p) || has_prefix(line, q),
            LineProbe::StartsWithButNot(p, q) => has_prefix(line, p) && !has_prefix(line, q),
            LineProbe::ContainsAny(ps) => {
                let mut k: usize = 0;
                while k < ps.len()
                    invariant
                        k <= ps.len(),
                        self@ == Probe::ContainsAny(rows(ps@)),
                        forall|j: int| 0 <= j < k ==> !contains(line@, #[trigger] rows(ps@)[j]),
                    decreases ps.len() - k,
                {
                    if has_infix(line, &ps[k]) {
                        proof {
                            let pats = rows(ps@);
                            assert(0 <= k < pats.len());
                            assert(pats[k as int] == ps@[k as int]@);
                            assert(contains(line@, pats[k as int]));
                            assert(contains_any(line@, pats));
                        }
                        return true;
                    }
                    k = k + 1;
                }
                false
            },
        }
    }
}

// ---------------------------------------------------------------------------
// Counting, selecting and finding lines
// ---------------------------------------------------------------------------

/// How many of the lines pass the test.
pub open spec fn count(ls: Seq<Seq<char>>, p: Probe) -> nat
    decreases ls.len(),
{
    if ls.len() == 0 {
        0
    } else {
        count(ls.drop_last(), p) + if p.holds(ls.last()) {
            1nat
        } else {
            0nat
        }
    }
}

/// The lines that pass the test, in their order.
pub open spec fn select(ls: Seq<Seq<char>>, p: Probe) -> Seq<Seq<char>>
    decreases ls.len(),
{
    if ls.len() == 0 {
        Seq::empty()
    } else if p.holds(ls.last()) {
        select(ls.drop_last(), p).push(ls.last())
    } else {
        select(ls.drop_last(), p)
    }
}

/// The first line that passes the test, if any does.
pub open spec fn first_match(ls: Seq<Seq<char>>, p: Probe) -> Option<Seq<char>>
    decreases ls.len(),
{
    if ls.len() == 0 {
        None
    } else if p.holds(ls.first()) {
        Some(ls.first())
    } else {
        first_match(ls.drop_first(), p)
    }
}

/// The first match is the line at `i` when that line passes and none before
/// it does; there is none when no line up to `i` passes and `i` is the end.
pub proof fn lemma_first_match(ls: Seq<Seq<char>>, p: Probe, i: int)
    requires
        0 <= i <= ls.len(),
        forall|j: int| 0 <= j < i ==> !p.holds(#[trigger] ls[j]),
        i < ls.len() ==> p.holds(ls[i]),
    ensures
        i < ls.len() ==> first_match(ls, p) == Some(ls[i]),
        i == ls.len() ==> first_match(ls, p) is None,
    decreases i,
{
    if i > 0 {
        let t = ls.drop_first();
        assert(!p.holds(ls[0]));
        assert forall|j: int| 0 <= j < i - 1 implies !p.holds(#[trigger] t[j]) by {
            assert(t[j] == ls[j + 1]);
        }
        lemma_first_match(t, p, i - 1);
    }
}

/// Counts the lines that pass the test.
pub fn count_lines(lines: &Vec<Vec<char>>, probe: &LineProbe) -> (n: usize)
    ensures
        n == count(rows(lines@), probe@),
{
    let mut n: usize = 0;
    let mut i: usize = 0;
    let ghost ls = rows(lines@);
    assert(ls.take(0) =~= Seq::<Seq<char>>::empty());
    while i < lines.len()
        invariant
            i <= lines.len(),
            ls == rows(lines@),
            n == count(ls.take(i as int), probe@),
            n <= i,
        decreases lines.len() - i,
    {
        proof {
            assert(ls.take(i + 1).drop_last() =~= ls.take(i as int));
            assert(ls.take(i + 1).last() == lines@[i as int]@);
        }
        if probe.test(&lines[i]) {
            n = n + 1;
        }
        i = i + 1;
    }
    assert(ls.take(lines.len() as int) =~= ls);
    n
}

/// Copies the lines that pass the test.
pub fn select_lines(lines: &Vec<Vec<char>>, probe: &LineProbe) -> (out: Vec<Vec<char>>)
    ensures
        rows(out@) == select(rows(lines@), probe@),
{
    let mut out: Vec<Vec<char>> = Vec::new();
    let mut i: usize = 0;
    let ghost ls = rows(lines@);
    assert(ls.take(0) =~= Seq::<Seq<char>>::empty());
    assert(rows(out@) =~= Seq::<Seq<char>>::empty());
    while i < lines.len()
        invariant
            i <= lines.len(),
            ls == rows(lines@),
            rows(out@) == select(ls.take(i as int), probe@),
        decreases lines.len() - i,
    {
        proof {
            assert(ls.take(i + 1).drop_last() =~= ls.take(i as int));
            assert(ls.take(i + 1).last() == lines@[i as int]@);
        }
        if probe.test(&lines[i]) {
            let copy = slice_of(&lines[i], 0, lines[i].len());
            assert(copy@ =~= lines@[i as int]@);
            assert(rows(out@.push(copy)) =~= rows(out@).push(copy@));
            out.push(copy);
        }
        i = i + 1;
    }
    assert(ls.take(lines.len() as int) =~= ls);
    out
}

/// Finds the first line that passes the test.
pub fn find_line(lines: &Vec<Vec<char>>, probe: &LineProbe) -> (found: Option<usize>)
    ensures
        match found {
            Some(i) => {
                &&& i < lines.len()
                &&& probe@.holds(lines@[i as int]@)
                &&& forall|j: int| 0 <= j < i ==> !probe@.holds(#[trigger] rows(lines@)[j])
                &&& first_match(rows(lines@), probe@) == Some(lines@[i as int]@)
            },
            None => {
                &&& forall|j: int| 0 <= j < lines.len() ==> !probe@.holds(#[trigger] rows(lines@)[j])
                &&& first_match(rows(lines@), probe@) is None
            },
        },
{
    let mut i: usize = 0;
    let ghost ls = rows(lines@);
    while i < lines.len()
        invariant
            i <= lines.len(),
            ls == rows(lines@),
            forall|j: int| 0 <= j < i ==> !probe@.holds(#[trigger] ls[j]),
        decreases lines.len() - i,
    {
        if probe.test(&lines[i]) {
            proof {
                lemma_first_match(ls, probe@, i as int);
            }
            return Some(i);
        }
        i = i + 1;
    }
    proof {
        lemma_first_match(ls, probe@, i as int);
    }
    None
}

/// Counts the different texts among the lines.
pub fn count_distinct(lines: &Vec<Vec<char>>) -> (n: usize)
    ensures
        n == rows(lines@).to_set().len(),
{
    let ghost ls = rows(lines@);
    let ghost mut uniq: Seq<Seq<char>> = Seq::empty();
    let mut firsts: Vec<usize> = Vec::new();
    let mut i: usize = 0;
    assert(uniq.to_set() =~= ls.take(0).to_set());
    while i < lines.len()
        invariant
            i <= lines.len(),
            ls == rows(lines@),
            firsts.len() == uniq.len(),
            firsts.len() <= i,
            forall|k: int|
                #![trigger firsts@[k]]
                0 <= k < firsts.len() ==> firsts@[k] < i && uniq[k] == ls[firsts@[k] as int],
            uniq.no_duplicates(),
            uniq.to_set() == ls.take(i as int).to_set(),
        decreases lines.len() - i,
    {
        let mut seen = false;
        let mut k: usize = 0;
        while k < firsts.len() && !seen
            invariant
                k <= firsts.len(),
                i < lines.len(),
                ls == rows(lines@),
                firsts.len() == uniq.len(),
                forall|j: int|
                    #![trigger firsts@[j]]
                    0 <= j < firsts.len() ==> firsts@[j] < i && uniq[j] == ls[firsts@[j] as int],
                seen ==> uniq.contains(ls[i as int]),
                !seen ==> forall|j: int| 0 <= j < k ==> uniq[j] != ls[i as int],
            decreases firsts.len() - k + if seen { 0int } else { 1int },
        {
            if same_chars(&lines[firsts[k]], &lines[i]) {
                assert(uniq[k as int] == ls[i as int]);
                seen = true;
            } else {
                k = k + 1;
            }
        }
        proof {
            let x = ls[i as int];
            ls.lemma_take_succ_push(i as int);
            ls.take(i as int).lemma_push_to_set_commute(x);
            if seen {
                assert(uniq.to_set().contains(x));
                assert(uniq.to_set().insert(x) =~= uniq.to_set());
            } else {
                uniq.lemma_push_to_set_commute(x);
            }
        }
        if !seen {
            firsts.push(i);
            proof {
                uniq = uniq.push(ls[i as int]);
            }
        }
        i = i + 1;
    }
    proof {
        assert(ls.take(lines.len() as int) =~= ls);
        uniq.unique_seq_to_set();
    }
    firsts.len()
}

} // verus!
