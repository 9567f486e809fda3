//! Text as sequences of characters.
//!
//! Every contract in this crate that speaks of text speaks of `Seq<char>`, the
//! view of `str` and `String`. This module defines, over such sequences, the
//! handful of notions the rest of the crate needs (whitespace, trimming,
//! lines, substrings, decimal numerals) together with executable functions on
//! `Vec<char>` that are proved to compute them.

use vstd::prelude::*;
use vstd::std_specs::iter::IteratorSpec;

verus! {

// ---------------------------------------------------------------------------
// Conversions between strings and character vectors
// ---------------------------------------------------------------------------

/// `String::push` appends exactly one character to the end of the string.
pub assume_specification[ String::push ](s: &mut String, ch: char)
    ensures
        final(s)@ == old(s)@.push(ch),
;

/// The characters of a string slice, in order.
pub fn chars_of(s: &str) -> (v: Vec<char>)
    ensures
        v@ == s@,
{
    let mut v: Vec<char> = Vec::new();
    for c in it: s.chars()
        invariant
            it.seq() == s@,
            v@ == it.seq().take(it.index() as int),
    {
        v.push(c);
    }
    v
}

/// The string made of the given characters, in order.
pub fn string_of(v: &Vec<char>) -> (s: String)
    ensures
        s@ == v@,
{
    let mut s = String::new();
    let mut i: usize = 0;
    while i < v.len()
        invariant
            i <= v.len(),
            s@ == v@.take(i as int),
        decreases v.len() - i,
    {
        s.push(v[i]);
        i = i + 1;
    }
    s
}

/// Appends every character of `src` to `dst`.
pub fn push_all(dst: &mut Vec<char>, src: &Vec<char>)
    ensures
        final(dst)@ == old(dst)@ + src@,
{
    let mut i: usize = 0;
    while i < src.len()
        invariant
            i <= src.len(),
            dst@ == old(dst)@ + src@.take(i as int),
        decreases src.len() - i,
    {
        dst.push(src[i]);
        i = i + 1;
    }
}

/// Appends every character of the string slice `s` to `dst`.
pub fn push_str(dst: &mut Vec<char>, s: &str)
    ensures
        final(dst)@ == old(dst)@ + s@,
{
    let tail = chars_of(s);
    push_all(dst, &tail);
}

/// A copy of the half-open window `[from, to)` of `v`.
pub fn slice_of(v: &Vec<char>, from: usize, to: usize) -> (out: Vec<char>)
    requires
        from <= to <= v.len(),
    ensures
        out@ == v@.subrange(from as int, to as int),
{
    let mut out: Vec<char> = Vec::new();
    let mut i: usize = from;
    while i < to
        invariant
            from <= i <= to <= v.len(),
            out@ == v@.subrange(from as int, i as int),
        decreases to - i,
    {
        out.push(v[i]);
        i = i + 1;
    }
    out
}

/// The views of a sequence of character vectors.
pub open spec fn rows(v: Seq<Vec<char>>) -> Seq<Seq<char>> {
    Seq::new(v.len(), |i: int| v[i]@)
}

// ---------------------------------------------------------------------------
// Character classes and trimming
// ---------------------------------------------------------------------------

/// The characters that count as whitespace: the Unicode `White_Space` set.
pub open spec fn is_space(c: char) -> bool {
    let n = c as u32;
    ||| (0x09 <= n && n <= 0x0d)
    ||| n == 0x20
    ||| n == 0x85
    ||| n == 0xa0
    ||| n == 0x1680
    ||| (0x2000 <= n && n <= 0x200a)
    ||| n == 0x2028
    ||| n == 0x2029
    ||| n == 0x202f
    ||| n == 0x205f
    ||| n == 0x3000
}

/// A set of characters that can be stripped from the ends of a text.
#[derive(Clone, Copy, Debug)]
pub enum CharClass {
    /// Any whitespace character.
    Whitespace,
    /// Exactly the given character.
    Exactly(char),
    /// Every character but the given one.
    Except(char),
}

impl CharClass {
    /// Whether `c` belongs to the class.
    pub open spec fn has(self, c: char) -> bool {
        match self {
            CharClass::Whitespace => is_space(c),
            CharClass::Exactly(x) => c == x,
            CharClass::Except(x) => c != x,
        }
    }

    /// Decides membership of `c` in the class.
    pub fn test(&self, c: char) -> (b: bool)
        ensures
            b == self.has(c),
    {
        match self {
            CharClass::Whitespace => {
                let n: u32 = c as u32;
                (0x09 <= n && n <= 0x0d) || n == 0x20 || n == 0x85 || n == 0xa0 || n == 0x1680 || (
                0x2000 <= n && n <= 0x200a) || n == 0x2028 || n == 0x2029 || n == 0x202f || n
                    == 0x205f || n == 0x3000
            },
            CharClass::Exactly(x) => c == *x,
            CharClass::Except(x) => c != *x,
        }
    }
}

/// `s` without its longest prefix of characters in `class`.
pub open spec fn strip_start(s: Seq<char>, class: CharClass) -> Seq<char>
    decreases s.len(),
{
    if s.len() > 0 && class.has(s.first()) {
        strip_start(s.drop_first(), class)
    } else {
        s
    }
}

/// `s` without its longest suffix of characters in `class`.
pub open spec fn strip_end(s: Seq<char>, class: CharClass) -> Seq<char>
    decreases s.len(),
{
    if s.len() > 0 && class.has(s.last()) {
        strip_end(s.drop_last(), class)
    } else {
        s
    }
}

/// `s` with the characters of `class` removed from both ends.
pub open spec fn strip(s: Seq<char>, class: CharClass) -> Seq<char> {
    strip_end(strip_start(s, class), class)
}

/// `s` without leading and trailing whitespace.
pub open spec fn trim(s: Seq<char>) -> Seq<char> {
    strip(s, CharClass::Whitespace)
}

/// Whether `s` consists of whitespace only (the empty text included).
pub open spec fn is_blank(s: Seq<char>) -> bool {
    forall|i: int| 0 <= i < s.len() ==> is_space(#[trigger] s[i])
}

/// Stripping from the front removes exactly the first `a` characters when
/// those are in the class and the next one, if any, is not.
pub proof fn lemma_strip_start(s: Seq<char>, class: CharClass, a: int)
    requires
        0 <= a <= s.len(),
        forall|i: int| 0 <= i < a ==> class.has(#[trigger] s[i]),
        a < s.len() ==> !class.has(s[a]),
    ensures
        strip_start(s, class) == s.skip(a),
    decreases a,
{
    if a == 0 {
        assert(s.skip(0) =~= s);
    } else {
        let t = s.drop_first();
        assert forall|i: int| 0 <= i < a - 1 implies class.has(#[trigger] t[i]) by {
            assert(t[i] == s[i + 1]);
        }
        lemma_strip_start(t, class, a - 1);
        assert(t.skip(a - 1) =~= s.skip(a));
    }
}

/// Stripping from the back keeps exactly the first `b` characters when all
/// later ones are in the class and the one before, if any, is not.
pub proof fn lemma_strip_end(s: Seq<char>, class: CharClass, b: int)
    requires
        0 <= b <= s.len(),
        forall|i: int| b <= i < s.len() ==> class.has(#[trigger] s[i]),
        0 < b ==> !class.has(s[b - 1]),
    ensures
        strip_end(s, class) == s.take(b),
    decreases s.len() - b,
{
    if b == s.len() {
        assert(s.take(b) =~= s);
    } else {
        let t = s.drop_last();
        assert forall|i: int| b <= i < t.len() implies class.has(#[trigger] t[i]) by {
            assert(t[i] == s[i]);
        }
        lemma_strip_end(t, class, b);
        assert(t.take(b) =~= s.take(b));
    }
}

/// A text trims to nothing exactly when it is blank.
pub proof fn lemma_trim_empty_iff_blank(s: Seq<char>)
    ensures
        trim(s).len() == 0 <==> is_blank(s),
{
    let class = CharClass::Whitespace;
    let a = first_outside(s, class, 0);
    lemma_first_outside(s, class, 0);
    lemma_strip_start(s, class, a);
    let t = s.skip(a);
    if a == s.len() {
        assert(t.len() == 0);
        assert(strip_end(t, class) == t);
    } else {
        assert(!is_space(s[a]));
        let b = last_outside(t, class, t.len() as int);
        lemma_last_outside(t, class, t.len() as int);
        assert(t[0] == s[a]);
        lemma_strip_end(t, class, b);
        assert(b > 0) by {
            if b == 0 {
                assert(class.has(t[0]));
            }
        }
    }
}

/// Index of the first character at or after `from` that is not in `class`,
/// or the length of `s` when there is none.
pub open spec fn first_outside(s: Seq<char>, class: CharClass, from: int) -> int
    decreases s.len() - from,
{
    if 0 <= from < s.len() && class.has(s[from]) {
        first_outside(s, class, from + 1)
    } else {
        from
    }
}

/// One past the index of the last character before `to` that is not in
/// `class`, or zero when there is none.
pub open spec fn last_outside(s: Seq<char>, class: CharClass, to: int) -> int
    decreases to,
{
    if 0 < to <= s.len() && class.has(s[to - 1]) {
        last_outside(s, class, to - 1)
    } else {
        to
    }
}

pub proof fn lemma_first_outside(s: Seq<char>, class: CharClass, from: int)
    requires
        0 <= from <= s.len(),
    ensures
        from <= first_outside(s, class, from) <= s.len(),
        forall|i: int| from <= i < first_outside(s, class, from) ==> class.has(#[trigger] s[i]),
        first_outside(s, class, from) < s.len() ==> !class.has(s[first_outside(s, class, from)]),
    decreases s.len() - from,
{
    if from < s.len() && class.has(s[from]) {
        lemma_first_outside(s, class, from + 1);
    }
}

pub proof fn lemma_last_outside(s: Seq<char>, class: CharClass, to: int)
    requires
        0 <= to <= s.len(),
    ensures
        0 <= last_outside(s, class, to) <= to,
        forall|i: int| last_outside(s, class, to) <= i < to ==> class.has(#[trigger] s[i]),
        0 < last_outside(s, class, to) ==> !class.has(s[last_outside(s, class, to) - 1]),
    decreases to,
{
    if 0 < to && class.has(s[to - 1]) {
        lemma_last_outside(s, class, to - 1);
    }
}

/// The window `[a, b)` of `v` that remains after stripping `class` from both
/// ends.
pub fn strip_bounds(v: &Vec<char>, class: CharClass) -> (w: (usize, usize))
    ensures
        w.0 <= w.1 <= v.len(),
        strip(v@, class) == v@.subrange(w.0 as int, w.1 as int),
        w.0 < w.1 ==> !class.has(v@[w.0 as int]) && !class.has(v@[w.1 - 1]),
        w.0 == w.1 ==> forall|i: int| 0 <= i < v.len() ==> class.has(#[trigger] v@[i]),
{
    let n = v.len();
    let mut a: usize = 0;
    while a < n && class.test(v[a])
        invariant
            a <= n,
            n == v.len(),
            forall|i: int| 0 <= i < a ==> class.has(#[trigger] v@[i]),
        decreases n - a,
    {
        a = a + 1;
    }
    let mut b: usize = n;
    while b > a && class.test(v[b - 1])
        invariant
            a <= b <= n,
            n == v.len(),
            forall|i: int| b <= i < n ==> class.has(#[trigger] v@[i]),
        decreases b,
    {
        b = b - 1;
    }
    proof {
        let s = v@;
        lemma_strip_start(s, class, a as int);
        let t = s.skip(a as int);
        assert forall|i: int| b - a <= i < t.len() implies class.has(#[trigger] t[i]) by {
            assert(t[i] == s[i + a]);
        }
        if b > a {
            assert(t[b - a - 1] == s[b - 1]);
        }
        lemma_strip_end(t, class, b - a);
        assert(t.take(b - a) =~= s.subrange(a as int, b as int));
    }
    (a, b)
}

/// `v` with the characters of `class` removed from both ends.
pub fn stripped(v: &Vec<char>, class: CharClass) -> (out: Vec<char>)
    ensures
        out@ == strip(v@, class),
{
    let (a, b) = strip_bounds(v, class);
    slice_of(v, a, b)
}

/// `v` without leading and trailing whitespace.
pub fn trimmed(v: &Vec<char>) -> (out: Vec<char>)
    ensures
        out@ == trim(v@),
{
    stripped(v, CharClass::Whitespace)
}

/// Whether `v` consists of whitespace only.
pub fn blank(v: &Vec<char>) -> (b: bool)
    ensures
        b == is_blank(v@),
        b == (trim(v@).len() == 0),
{
    let (a, b) = strip_bounds(v, CharClass::Whitespace);
    proof {
        lemma_trim_empty_iff_blank(v@);
    }
    a == b
}

// ---------------------------------------------------------------------------
// Prefixes and substrings
// ---------------------------------------------------------------------------

/// Whether `s` begins with `pat`.
pub open spec fn starts_with(s: Seq<char>, pat: Seq<char>) -> bool {
    pat.len() <= s.len() && s.take(pat.len() as int) == pat
}

/// Whether `pat` occurs in `s` at position `i`.
pub open spec fn occurs_at(s: Seq<char>, pat: Seq<char>, i: int) -> bool {
    0 <= i && i + pat.len() <= s.len() && s.subrange(i, i + pat.len()) == pat
}

/// Whether `pat` occurs somewhere in `s`.
pub open spec fn contains(s: Seq<char>, pat: Seq<char>) -> bool {
    exists|i: int| occurs_at(s, pat, i)
}

/// Decides whether `pat` occurs in `v` at position `at`.
pub fn matches_at(v: &Vec<char>, pat: &Vec<char>, at: usize) -> (b: bool)
    ensures
        b == occurs_at(v@, pat@, at as int),
{
    let n = v.len();
    let m = pat.len();
    if at > n || m > n - at {
        return false;
    }
    let mut j: usize = 0;
    while j < m
        invariant
            j <= m,
            m == pat.len(),
            n == v.len(),
            at + m <= n,
            forall|k: int| 0 <= k < j ==> v@[at + k] == pat@[k],
        decreases m - j,
    {
        if v[at + j] != pat[j] {
            proof {
                let w = v@.subrange(at as int, at + m);
                assert(w[j as int] == v@[at + j]);
            }
            return false;
        }
        j = j + 1;
    }
    assert(v@.subrange(at as int, at + m) =~= pat@);
    true
}

/// Decides whether `v` begins with `pat`.
pub fn has_prefix(v: &Vec<char>, pat: &Vec<char>) -> (b: bool)
    ensures
        b == starts_with(v@, pat@),
{
    let b = matches_at(v, pat, 0);
    proof {
        if pat.len() <= v.len() {
            assert(v@.take(pat.len() as int) =~= v@.subrange(0, pat.len() as int));
        }
    }
    b
}

/// Decides whether `pat` occurs somewhere in `v`.
pub fn has_infix(v: &Vec<char>, pat: &Vec<char>) -> (b: bool)
    ensures
        b == contains(v@, pat@),
{
    let n = v.len();
    let m = pat.len();
    if m > n {
        return false;
    }
    if m == 0 {
        assert(v@.subrange(0, 0) =~= pat@);
        assert(occurs_at(v@, pat@, 0));
        return true;
    }
    let last: usize = n - m;
    let mut i: usize = 0;
    while i <= last
        invariant
            i <= last + 1,
            last == n - m,
            0 < m <= n,
            n == v.len(),
            m == pat.len(),
            forall|k: int| 0 <= k < i ==> !occurs_at(v@, pat@, k),
        decreases last + 1 - i,
    {
        if matches_at(v, pat, i) {
            return true;
        }
        i = i + 1;
    }
    false
}

/// Decides whether two character vectors hold the same text.
pub fn same_chars(a: &Vec<char>, b: &Vec<char>) -> (eq: bool)
    ensures
        eq == (a@ == b@),
{
    if a.len() != b.len() {
        return false;
    }
    let mut i: usize = 0;
    while i < a.len()
        invariant
            i <= a.len(),
            a.len() == b.len(),
            forall|k: int| 0 <= k < i ==> a@[k] == b@[k],
        decreases a.len() - i,
    {
        if a[i] != b[i] {
            return false;
        }
        i = i + 1;
    }
    assert(a@ =~= b@);
    true
}

// ---------------------------------------------------------------------------
// Decimal numerals
// ---------------------------------------------------------------------------

/// The character for a decimal digit `0..=9`.
pub open spec fn digit(d: int) -> char {
    if d == 0 {
        '0'
    } else if d == 1 {
        '1'
    } else if d == 2 {
        '2'
    } else if d == 3 {
        '3'
    } else if d == 4 {
        '4'
    } else if d == 5 {
        '5'
    } else if d == 6 {
        '6'
    } else if d == 7 {
        '7'
    } else if d == 8 {
        '8'
    } else {
        '9'
    }
}

/// The decimal numeral of a natural number, without leading zeros.
pub open spec fn decimal(n: nat) -> Seq<char>
    decreases n,
{
    if n < 10 {
        seq![digit(n as int)]
    } else {
        decimal(n / 10).push(digit((n % 10) as int))
    }
}

/// The decimal numeral of an integer, with a leading `-` when negative.
pub open spec fn signed_decimal(i: int) -> Seq<char> {
    if i < 0 {
        seq!['-'] + decimal((-i) as nat)
    } else {
        decimal(i as nat)
    }
}

/// The character for the decimal digit `d`.
pub fn digit_char(d: u64) -> (c: char)
    requires
        d < 10,
    ensures
        c == digit(d as int),
{
    if d == 0 {
        '0'
    } else if d == 1 {
        '1'
    } else if d == 2 {
        '2'
    } else if d == 3 {
        '3'
    } else if d == 4 {
        '4'
    } else if d == 5 {
        '5'
    } else if d == 6 {
        '6'
    } else if d == 7 {
        '7'
    } else if d == 8 {
        '8'
    } else {
        '9'
    }
}

/// Appends the decimal numeral of `n` to `dst`.
pub fn push_decimal(dst: &mut Vec<char>, n: u64)
    ensures
        final(dst)@ == old(dst)@ + decimal(n as nat),
    decreases n,
{
    if n < 10 {
        dst.push(digit_char(n));
        assert(dst@ =~= old(dst)@ + decimal(n as nat));
    } else {
        push_decimal(dst, n / 10);
        dst.push(digit_char(n % 10));
        assert(dst@ =~= old(dst)@ + decimal(n as nat));
    }
}

/// Appends the decimal numeral of a count to `dst`.
pub fn push_count(dst: &mut Vec<char>, n: usize)
    ensures
        final(dst)@ == old(dst)@ + decimal(n as nat),
{
    push_decimal(dst, n as u64);
}

/// Appends the decimal numeral of a signed number to `dst`.
pub fn push_signed(dst: &mut Vec<char>, i: i32)
    ensures
        final(dst)@ == old(dst)@ + signed_decimal(i as int),
{
    if i < 0 {
        dst.push('-');
        let wide: i64 = i as i64;
        let magnitude: u64 = (0 - wide) as u64;
        push_decimal(dst, magnitude);
        assert(dst@ =~= old(dst)@ + signed_decimal(i as int));
    } else {
        push_decimal(dst, i as u64);
    }
}

/// `n` copies of the character `c`.
pub open spec fn repeat(c: char, n: nat) -> Seq<char> {
    Seq::new(n, |i: int| c)
}

/// Appends `n` copies of `c` to `dst`.
pub fn push_repeat(dst: &mut Vec<char>, c: char, n: usize)
    ensures
        final(dst)@ == old(dst)@ + repeat(c, n as nat),
{
    let mut i: usize = 0;
    while i < n
        invariant
            i <= n,
            dst@ == old(dst)@ + repeat(c, i as nat),
        decreases n - i,
    {
        dst.push(c);
        i = i + 1;
        assert(dst@ =~= old(dst)@ + repeat(c, i as nat));
    }
}

/// The texts `parts` written one after another with `sep` between
/// neighbours.
pub open spec fn join(parts: Seq<Seq<char>>, sep: Seq<char>) -> Seq<char>
    decreases parts.len(),
{
    if parts.len() == 0 {
        Seq::empty()
    } else if parts.len() == 1 {
        parts[0]
    } else {
        join(parts.drop_last(), sep) + sep + parts.last()
    }
}

/// Writes `parts` one after another with `sep` between neighbours.
pub fn joined(parts: &Vec<Vec<char>>, sep: &str) -> (out: Vec<char>)
    ensures
        out@ == join(rows(parts@), sep@),
{
    let mut out: Vec<char> = Vec::new();
    let mut i: usize = 0;
    let ghost ps = rows(parts@);
    assert(ps.take(0) =~= Seq::<Seq<char>>::empty());
    while i < parts.len()
        invariant
            i <= parts.len(),
            ps == rows(parts@),
            out@ == join(ps.take(i as int), sep@),
        decreases parts.len() - i,
    {
        proof {
            assert(ps.take(i + 1).drop_last() =~= ps.take(i as int));
            assert(ps.take(i + 1).last() == parts@[i as int]@);
            if i == 0 {
                assert(ps.take(1)[0] == parts@[0]@);
            }
        }
        if i > 0 {
            push_str(&mut out, sep);
        }
        push_all(&mut out, &parts[i]);
        i = i + 1;
        assert(out@ =~= join(ps.take(i as int), sep@));
    }
    assert(ps.take(parts.len() as int) =~= ps);
    out
}

// ---------------------------------------------------------------------------
// Words
// ---------------------------------------------------------------------------

/// The first position at or after `from` of a character outside `class` is
/// `k` when everything before `k` is inside and `k` is outside or the end.
pub proof fn lemma_first_outside_is(s: Seq<char>, class: CharClass, from: int, k: int)
    requires
        0 <= from <= k <= s.len(),
        forall|j: int| from <= j < k ==> class.has(#[trigger] s[j]),
        k < s.len() ==> !class.has(s[k]),
    ensures
        first_outside(s, class, from) == k,
    decreases k - from,
{
    if from < k {
        lemma_first_outside_is(s, class, from + 1, k);
    }
}

/// One past the last position before `to` of a character outside `class`
/// is `k` when everything from `k` on is inside and the one before `k` is
/// outside or there is none.
pub proof fn lemma_last_outside_is(s: Seq<char>, class: CharClass, to: int, k: int)
    requires
        0 <= k <= to <= s.len(),
        forall|j: int| k <= j < to ==> class.has(#[trigger] s[j]),
        0 < k ==> !class.has(s[k - 1]),
    ensures
        last_outside(s, class, to) == k,
    decreases to - k,
{
    if k < to {
        lemma_last_outside_is(s, class, to - 1, k);
    }
}

/// The words of the part of `s` that starts at `from`: the longest runs of
/// characters that are not whitespace.
pub open spec fn words_from(s: Seq<char>, from: int) -> Seq<Seq<char>>
    decreases s.len() - from,
{
    let a = first_outside(s, CharClass::Whitespace, from);
    let z = word_end(s, a);
    if 0 <= from <= a < z <= s.len() {
        seq![s.subrange(a, z)] + words_from(s, z)
    } else {
        Seq::empty()
    }
}

/// Index of the first whitespace character at or after `from`, or the
/// length of `s` when there is none.
pub open spec fn word_end(s: Seq<char>, from: int) -> int
    decreases s.len() - from,
{
    if 0 <= from < s.len() && !is_space(s[from]) {
        word_end(s, from + 1)
    } else {
        from
    }
}

/// The words of `s`.
pub open spec fn words(s: Seq<char>) -> Seq<Seq<char>> {
    words_from(s, 0)
}

pub proof fn lemma_word_end_is(s: Seq<char>, from: int, k: int)
    requires
        0 <= from <= k <= s.len(),
        forall|j: int| from <= j < k ==> !is_space(#[trigger] s[j]),
        k < s.len() ==> is_space(s[k]),
    ensures
        word_end(s, from) == k,
    decreases k - from,
{
    if from < k {
        lemma_word_end_is(s, from + 1, k);
    }
}

/// Cuts `v` into its words.
pub fn split_words(v: &Vec<char>) -> (out: Vec<Vec<char>>)
    ensures
        rows(out@) == words(v@),
{
    let n = v.len();
    let class = CharClass::Whitespace;
    let mut out: Vec<Vec<char>> = Vec::new();
    let mut i: usize = 0;
    assert(rows(out@) + words_from(v@, 0) =~= words(v@));
    while i < n
        invariant
            i <= n,
            n == v.len(),
            class == CharClass::Whitespace,
            words(v@) == rows(out@) + words_from(v@, i as int),
        decreases n - i,
    {
        let mut a: usize = i;
        while a < n && class.test(v[a])
            invariant
                i <= a <= n,
                n == v.len(),
                class == CharClass::Whitespace,
                forall|j: int| i <= j < a ==> class.has(#[trigger] v@[j]),
            decreases n - a,
        {
            a = a + 1;
        }
        proof {
            lemma_first_outside_is(v@, class, i as int, a as int);
        }
        if a == n {
            proof {
                assert(words_from(v@, i as int) =~= Seq::<Seq<char>>::empty());
                assert(words_from(v@, n as int) =~= Seq::<Seq<char>>::empty());
            }
            i = n;
        } else {
            let mut z: usize = a + 1;
            while z < n && !class.test(v[z])
                invariant
                    a < z <= n,
                    n == v.len(),
                    class == CharClass::Whitespace,
                    forall|j: int| a <= j < z ==> !is_space(#[trigger] v@[j]),
                decreases n - z,
            {
                z = z + 1;
            }
            let word = slice_of(v, a, z);
            proof {
                lemma_word_end_is(v@, a as int, z as int);
                assert(rows(out@.push(word)) =~= rows(out@).push(word@));
                assert(rows(out@).push(word@) + words_from(v@, z as int) =~= rows(out@) + (seq![
                    word@,
                ] + words_from(v@, z as int)));
            }
            out.push(word);
            i = z;
        }
    }
    proof {
        assert(words_from(v@, n as int) =~= Seq::<Seq<char>>::empty());
        assert(rows(out@) + Seq::<Seq<char>>::empty() =~= rows(out@));
    }
    out
}

/// Position of the first text equal to `x` at or after `from`, or the
/// length of `ls` when there is none.
pub open spec fn position(ls: Seq<Seq<char>>, x: Seq<char>, from: int) -> int
    decreases ls.len() - from,
{
    if 0 <= from < ls.len() && ls[from] != x {
        position(ls, x, from + 1)
    } else {
        from
    }
}

pub proof fn lemma_position_is(ls: Seq<Seq<char>>, x: Seq<char>, from: int, k: int)
    requires
        0 <= from <= k <= ls.len(),
        forall|j: int| from <= j < k ==> #[trigger] ls[j] != x,
        k < ls.len() ==> ls[k] == x,
    ensures
        position(ls, x, from) == k,
    decreases k - from,
{
    if from < k {
        lemma_position_is(ls, x, from + 1, k);
    }
}

/// The part of `s` after its last `sep`, or all of `s` when it has none.
pub open spec fn after_last(s: Seq<char>, sep: char) -> Seq<char> {
    s.skip(last_outside(s, CharClass::Except(sep), s.len() as int))
}

/// The part after the last `sep` has no `sep` in it.
pub proof fn lemma_after_last_is_free(s: Seq<char>, sep: char)
    ensures
        forall|j: int| 0 <= j < after_last(s, sep).len() ==> (#[trigger] after_last(s, sep)[j]) != sep,
{
    let class = CharClass::Except(sep);
    lemma_last_outside(s, class, s.len() as int);
    let k = last_outside(s, class, s.len() as int);
    assert forall|j: int| 0 <= j < after_last(s, sep).len() implies (#[trigger] after_last(
        s,
        sep,
    )[j]) != sep by {
        assert(after_last(s, sep)[j] == s[k + j]);
        assert(class.has(s[k + j]));
    }
}

/// The part of `v` after its last `sep`, or all of `v` when it has none.
pub fn tail_after(v: &Vec<char>, sep: char) -> (out: Vec<char>)
    ensures
        out@ == after_last(v@, sep),
{
    let n = v.len();
    let mut k: usize = n;
    while k > 0 && v[k - 1] != sep
        invariant
            k <= n,
            n == v.len(),
            forall|j: int| k <= j < n ==> #[trigger] v@[j] != sep,
        decreases k,
    {
        k = k - 1;
    }
    proof {
        lemma_last_outside_is(v@, CharClass::Except(sep), n as int, k as int);
        assert(v@.skip(k as int) =~= v@.subrange(k as int, n as int));
    }
    slice_of(v, k, n)
}

/// Whether `a` comes before `b`, or is `b`, in the order of dictionaries
/// over the characters' code points.
pub open spec fn text_le(a: Seq<char>, b: Seq<char>) -> bool
    decreases a.len(),
{
    if a.len() == 0 {
        true
    } else if b.len() == 0 {
        false
    } else if a[0] != b[0] {
        (a[0] as u32) < (b[0] as u32)
    } else {
        text_le(a.drop_first(), b.drop_first())
    }
}

/// Decides whether `a` comes before `b`, or is `b`, in dictionary order.
pub fn precedes_or_equals(a: &Vec<char>, b: &Vec<char>) -> (le: bool)
    ensures
        le == text_le(a@, b@),
{
    let mut i: usize = 0;
    assert(a@.skip(0) =~= a@ && b@.skip(0) =~= b@);
    while i < a.len() && i < b.len() && a[i] == b[i]
        invariant
            i <= a.len(),
            i <= b.len(),
            text_le(a@, b@) == text_le(a@.skip(i as int), b@.skip(i as int)),
        decreases a.len() - i,
    {
        proof {
            let x = a@.skip(i as int);
            let y = b@.skip(i as int);
            assert(x[0] == a@[i as int] && y[0] == b@[i as int]);
            assert(x.drop_first() =~= a@.skip(i + 1));
            assert(y.drop_first() =~= b@.skip(i + 1));
        }
        i = i + 1;
    }
    proof {
        let x = a@.skip(i as int);
        let y = b@.skip(i as int);
        if i < a.len() && i < b.len() {
            assert(x[0] == a@[i as int] && y[0] == b@[i as int]);
        }
    }
    if i == a.len() {
        true
    } else if i == b.len() {
        false
    } else {
        (a[i] as u32) < (b[i] as u32)
    }
}

} // verus!
