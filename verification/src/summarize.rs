//! One-line summaries of what a finished operation printed.
//!
//! A summary is a function of the command, the captured output and the exit
//! code alone. It is shown beside the target once the operation is over and
//! decides nothing.

use crate::cli::Command;
use crate::lines::{
    count, count_distinct, count_lines, find_line, first_match, lines, select, select_lines,
    split_lines, LineProbe, Probe,
};
use crate::text::{
    blank, chars_of, contains, decimal, has_infix, is_blank, join, joined, push_all, push_count,
    push_signed, push_str, rows, signed_decimal, slice_of, string_of, trim, trimmed,
};
use vstd::prelude::*;

verus! {

// ---------------------------------------------------------------------------
// What a summary is
// ---------------------------------------------------------------------------

/// Longest line shown in full.
pub const MAX_LINE: usize = 80;

/// Characters kept of a longer line, before the ellipsis.
pub const KEPT: usize = 77;

/// A line cut to fit: lines of more than 80 characters keep their first 77,
/// followed by three dots.
pub open spec fn clipped(l: Seq<char>) -> Seq<char> {
    if l.len() > MAX_LINE {
        l.take(KEPT as int) + "..."@
    } else {
        l
    }
}

/// The first line of `s` that is not blank, trimmed and clipped.
pub open spec fn meaningful_line(s: Seq<char>) -> Option<Seq<char>> {
    match first_match(lines(s), Probe::NonBlank) {
        Some(l) => Some(clipped(trim(l))),
        None => None,
    }
}

/// Summary of an operation that ended with a non-zero exit code: the first
/// meaningful line of the error output, else of the standard output, else
/// the exit code itself.
pub open spec fn failure_summary(stdout: Seq<char>, stderr: Seq<char>, exit_code: i32) -> Seq<
    char,
> {
    match meaningful_line(stderr) {
        Some(l) => l,
        None => match meaningful_line(stdout) {
            Some(l) => l,
            None => "exit code "@ + signed_decimal(exit_code as int),
        },
    }
}

/// The two outputs as one text, standard output first.
pub open spec fn combined(stdout: Seq<char>, stderr: Seq<char>) -> Seq<char> {
    stdout + seq!['\n'] + stderr
}

/// Lines that report what a pull changed.
pub open spec fn change_report() -> Probe {
    Probe::ContainsAny(seq!["files changed"@, "file changed"@, "insertions"@, "deletions"@])
}

/// Lines that report a moved ref.
pub open spec fn ref_update() -> Probe {
    Probe::ContainsAny(seq!["->"@])
}

/// Summary of a successful pull.
pub open spec fn pull_summary(stdout: Seq<char>, stderr: Seq<char>) -> Seq<char> {
    let both = combined(stdout, stderr);
    if contains(both, "Already up to date"@) || contains(both, "Already up-to-date"@) {
        "already up to date"@
    } else {
        match first_match(lines(stdout) + lines(stderr), change_report()) {
            Some(l) => trim(l),
            None => if is_blank(stdout) && is_blank(stderr) {
                "done"@
            } else {
                match meaningful_line(stdout) {
                    Some(l) => l,
                    None => "done"@,
                }
            },
        }
    }
}

/// One entry of a status summary: the count and its label, or nothing when
/// the count is zero.
pub open spec fn tally(n: nat, label: Seq<char>) -> Seq<Seq<char>> {
    if n > 0 {
        seq![decimal(n) + label]
    } else {
        Seq::empty()
    }
}

/// Status lines of modified entries.
pub open spec fn modified_mark() -> Probe {
    Probe::StartsWithEither(" M"@, "M "@)
}

/// Status lines of added or untracked entries.
pub open spec fn added_mark() -> Probe {
    Probe::StartsWithEither("A "@, "??"@)
}

/// Status lines of deleted entries.
pub open spec fn deleted_mark() -> Probe {
    Probe::StartsWithEither(" D"@, "D "@)
}

/// Summary of a successful short status.
pub open spec fn status_summary(stdout: Seq<char>) -> Seq<char> {
    let entries = select(lines(stdout), Probe::NonBlank);
    if entries.len() == 0 {
        "clean"@
    } else {
        let parts = tally(count(entries, modified_mark()), " modified"@) + tally(
            count(entries, added_mark()),
            " untracked"@,
        ) + tally(count(entries, deleted_mark()), " deleted"@);
        if parts.len() == 0 {
            decimal(entries.len()) + " changed"@
        } else {
            join(parts, ", "@)
        }
    }
}

/// Summary of a successful diff: the number of different file headers and
/// the numbers of added and removed lines.
pub open spec fn diff_summary(stdout: Seq<char>) -> Seq<char> {
    if is_blank(stdout) {
        "no changes"@
    } else {
        let ls = lines(stdout);
        let files = select(ls, Probe::StartsWith("diff --git"@)).to_set().len();
        let plus = count(ls, Probe::StartsWithButNot("+"@, "+++"@));
        let minus = count(ls, Probe::StartsWithButNot("-"@, "---"@));
        decimal(files) + " files, +"@ + decimal(plus) + " -"@ + decimal(minus)
    }
}

/// Summary of a successful push.
pub open spec fn push_summary(stdout: Seq<char>, stderr: Seq<char>) -> Seq<char> {
    if contains(combined(stdout, stderr), "Everything up-to-date"@) {
        "up to date"@
    } else {
        match first_match(lines(stderr) + lines(stdout), ref_update()) {
            Some(l) => trim(l),
            None => "done"@,
        }
    }
}

/// Summary of a successful fetch.
pub open spec fn fetch_summary(stdout: Seq<char>, stderr: Seq<char>) -> Seq<char> {
    let updated = count(lines(stderr), ref_update());
    if (is_blank(stdout) && is_blank(stderr)) || updated == 0 {
        "up to date"@
    } else {
        decimal(updated) + " updated refs"@
    }
}

/// Summary of a successful clone.
pub open spec fn clone_summary(stderr: Seq<char>) -> Seq<char> {
    if contains(stderr, "Cloning into"@) {
        "cloned"@
    } else {
        "done"@
    }
}

/// Summary of a successful arbitrary command: its first line of output, and
/// how many lines there are when there are several.
pub open spec fn run_summary(stdout: Seq<char>) -> Seq<char> {
    let shown = select(lines(stdout), Probe::NonBlank);
    if shown.len() == 0 {
        "done (no output)"@
    } else if shown.len() == 1 {
        trim(shown[0])
    } else {
        trim(shown[0]) + " ("@ + decimal(shown.len()) + "+ lines)"@
    }
}

/// The summary of a finished operation.
pub open spec fn summary(command: Command, stdout: Seq<char>, stderr: Seq<char>, exit_code: i32) -> Seq<
    char,
> {
    if exit_code != 0 {
        failure_summary(stdout, stderr, exit_code)
    } else {
        match command {
            Command::Update | Command::Pull => pull_summary(stdout, stderr),
            Command::Status => status_summary(stdout),
            Command::Diff => diff_summary(stdout),
            Command::Push => push_summary(stdout, stderr),
            Command::Fetch => fetch_summary(stdout, stderr),
            Command::Checkout | Command::Co => clone_summary(stderr),
            Command::Run { .. } => run_summary(stdout),
            Command::List | Command::Ls => Seq::empty(),
        }
    }
}

// ---------------------------------------------------------------------------
// Computing it
// ---------------------------------------------------------------------------

fn clip(line: Vec<char>) -> (out: Vec<char>)
    ensures
        out@ == clipped(line@),
{
    if line.len() > MAX_LINE {
        let mut out = slice_of(&line, 0, KEPT);
        push_str(&mut out, "...");
        out
    } else {
        line
    }
}

fn meaningful_chars(text: &Vec<char>) -> (found: Option<Vec<char>>)
    ensures
        match found {
            Some(l) => meaningful_line(text@) == Some(l@),
            None => meaningful_line(text@) is None,
        },
{
    let ls = split_lines(text);
    match find_line(&ls, &LineProbe::NonBlank) {
        Some(i) => Some(clip(trimmed(&ls[i]))),
        None => None,
    }
}

fn joined_outputs(out: &Vec<char>, err: &Vec<char>) -> (both: Vec<char>)
    ensures
        both@ == combined(out@, err@),
{
    let mut both: Vec<char> = Vec::new();
    push_all(&mut both, out);
    both.push('\n');
    push_all(&mut both, err);
    assert(both@ =~= combined(out@, err@));
    both
}

fn chained(first: Vec<Vec<char>>, second: Vec<Vec<char>>) -> (all: Vec<Vec<char>>)
    ensures
        rows(all@) == rows(first@) + rows(second@),
{
    let ghost a = first@;
    let ghost b = second@;
    let mut all = first;
    let mut rest = second;
    all.append(&mut rest);
    assert(rows(all@) =~= rows(a) + rows(b));
    all
}

fn change_report_probe() -> (p: LineProbe)
    ensures
        p@ == change_report(),
{
    let mut pats: Vec<Vec<char>> = Vec::new();
    pats.push(chars_of("files changed"));
    pats.push(chars_of("file changed"));
    pats.push(chars_of("insertions"));
    pats.push(chars_of("deletions"));
    assert(rows(pats@) =~= seq!["files changed"@, "file changed"@, "insertions"@, "deletions"@]);
    LineProbe::ContainsAny(pats)
}

fn ref_update_probe() -> (p: LineProbe)
    ensures
        p@ == ref_update(),
{
    let mut pats: Vec<Vec<char>> = Vec::new();
    pats.push(chars_of("->"));
    assert(rows(pats@) =~= seq!["->"@]);
    LineProbe::ContainsAny(pats)
}

/// The first line of `s` that is not blank, trimmed and clipped to 80
/// characters.
pub fn first_meaningful_line(s: &str) -> (found: Option<String>)
    ensures
        match found {
            Some(l) => meaningful_line(s@) == Some(l@),
            None => meaningful_line(s@) is None,
        },
{
    match meaningful_chars(&chars_of(s)) {
        Some(l) => Some(string_of(&l)),
        None => None,
    }
}

pub fn summarize_pull(stdout: &str, stderr: &str) -> (out: String)
    ensures
        out@ == pull_summary(stdout@, stderr@),
{
    let o = chars_of(stdout);
    let e = chars_of(stderr);
    let both = joined_outputs(&o, &e);
    if has_infix(&both, &chars_of("Already up to date")) || has_infix(
        &both,
        &chars_of("Already up-to-date"),
    ) {
        return "already up to date".to_owned();
    }
    let all = chained(split_lines(&o), split_lines(&e));
    match find_line(&all, &change_report_probe()) {
        Some(i) => string_of(&trimmed(&all[i])),
        None => {
            if blank(&o) && blank(&e) {
                "done".to_owned()
            } else {
                match meaningful_chars(&o) {
                    Some(l) => string_of(&l),
                    None => "done".to_owned(),
                }
            }
        },
    }
}

fn push_tally(parts: &mut Vec<Vec<char>>, n: usize, label: &str)
    ensures
        rows(final(parts)@) == rows(old(parts)@) + tally(n as nat, label@),
{
    if n > 0 {
        let mut part: Vec<char> = Vec::new();
        push_count(&mut part, n);
        push_str(&mut part, label);
        assert(part@ =~= decimal(n as nat) + label@);
        parts.push(part);
        assert(rows(parts@) =~= rows(old(parts)@) + tally(n as nat, label@));
    } else {
        assert(rows(parts@) =~= rows(old(parts)@) + tally(n as nat, label@));
    }
}

pub fn summarize_status(stdout: &str) -> (out: String)
    ensures
        out@ == status_summary(stdout@),
{
    let entries = select_lines(&split_lines(&chars_of(stdout)), &LineProbe::NonBlank);
    if entries.len() == 0 {
        return "clean".to_owned();
    }
    let modified = count_lines(
        &entries,
        &LineProbe::StartsWithEither(chars_of(" M"), chars_of("M ")),
    );
    let added = count_lines(&entries, &LineProbe::StartsWithEither(chars_of("A "), chars_of("??")));
    let deleted = count_lines(
        &entries,
        &LineProbe::StartsWithEither(chars_of(" D"), chars_of("D ")),
    );
    let mut parts: Vec<Vec<char>> = Vec::new();
    assert(rows(parts@) =~= Seq::<Seq<char>>::empty());
    push_tally(&mut parts, modified, " modified");
    push_tally(&mut parts, added, " untracked");
    push_tally(&mut parts, deleted, " deleted");
    proof {
        let e = rows(entries@);
        assert(rows(parts@) =~= tally(count(e, modified_mark()), " modified"@) + tally(
            count(e, added_mark()),
            " untracked"@,
        ) + tally(count(e, deleted_mark()), " deleted"@));
    }
    if parts.len() == 0 {
        let mut text: Vec<char> = Vec::new();
        push_count(&mut text, entries.len());
        push_str(&mut text, " changed");
        assert(text@ =~= decimal(entries.len() as nat) + " changed"@);
        string_of(&text)
    } else {
        string_of(&joined(&parts, ", "))
    }
}

pub fn summarize_diff(stdout: &str) -> (out: String)
    ensures
        out@ == diff_summary(stdout@),
{
    let text = chars_of(stdout);
    if blank(&text) {
        return "no changes".to_owned();
    }
    let ls = split_lines(&text);
    let plus = count_lines(&ls, &LineProbe::StartsWithButNot(chars_of("+"), chars_of("+++")));
    let minus = count_lines(&ls, &LineProbe::StartsWithButNot(chars_of("-"), chars_of("---")));
    let headers = select_lines(&ls, &LineProbe::StartsWith(chars_of("diff --git")));
    let files = count_distinct(&headers);
    let mut out: Vec<char> = Vec::new();
    push_count(&mut out, files);
    push_str(&mut out, " files, +");
    push_count(&mut out, plus);
    push_str(&mut out, " -");
    push_count(&mut out, minus);
    assert(out@ =~= diff_summary(stdout@));
    string_of(&out)
}

pub fn summarize_push(stdout: &str, stderr: &str) -> (out: String)
    ensures
        out@ == push_summary(stdout@, stderr@),
{
    let o = chars_of(stdout);
    let e = chars_of(stderr);
    let both = joined_outputs(&o, &e);
    if has_infix(&both, &chars_of("Everything up-to-date")) {
        return "up to date".to_owned();
    }
    let all = chained(split_lines(&e), split_lines(&o));
    match find_line(&all, &ref_update_probe()) {
        Some(i) => string_of(&trimmed(&all[i])),
        None => "done".to_owned(),
    }
}

pub fn summarize_fetch(stdout: &str, stderr: &str) -> (out: String)
    ensures
        out@ == fetch_summary(stdout@, stderr@),
{
    let o = chars_of(stdout);
    let e = chars_of(stderr);
    if blank(&o) && blank(&e) {
        return "up to date".to_owned();
    }
    let updated = count_lines(&split_lines(&e), &ref_update_probe());
    if updated == 0 {
        "up to date".to_owned()
    } else {
        let mut out: Vec<char> = Vec::new();
        push_count(&mut out, updated);
        push_str(&mut out, " updated refs");
        assert(out@ =~= decimal(updated as nat) + " updated refs"@);
        string_of(&out)
    }
}

pub fn summarize_clone(stderr: &str) -> (out: String)
    ensures
        out@ == clone_summary(stderr@),
{
    if has_infix(&chars_of(stderr), &chars_of("Cloning into")) {
        "cloned".to_owned()
    } else {
        "done".to_owned()
    }
}

pub fn summarize_run(stdout: &str) -> (out: String)
    ensures
        out@ == run_summary(stdout@),
{
    let shown = select_lines(&split_lines(&chars_of(stdout)), &LineProbe::NonBlank);
    let n = shown.len();
    if n == 0 {
        "done (no output)".to_owned()
    } else if n == 1 {
        string_of(&trimmed(&shown[0]))
    } else {
        let mut out = trimmed(&shown[0]);
        push_str(&mut out, " (");
        push_count(&mut out, n);
        push_str(&mut out, "+ lines)");
        assert(out@ =~= run_summary(stdout@));
        string_of(&out)
    }
}

/// Reduces what a finished operation printed to one line.
pub fn summarize(command: &Command, stdout: &str, stderr: &str, exit_code: i32) -> (out: String)
    ensures
        out@ == summary(*command, stdout@, stderr@, exit_code),
        one_line(out@),
{
    proof {
        law_summary_is_one_line(*command, stdout@, stderr@, exit_code);
    }
    if exit_code != 0 {
        return match first_meaningful_line(stderr) {
            Some(l) => l,
            None => match first_meaningful_line(stdout) {
                Some(l) => l,
                None => {
                    let mut text = chars_of("exit code ");
                    push_signed(&mut text, exit_code);
                    string_of(&text)
                },
            },
        };
    }
    match command {
        Command::Update | Command::Pull => summarize_pull(stdout, stderr),
        Command::Status => summarize_status(stdout),
        Command::Diff => summarize_diff(stdout),
        Command::Push => summarize_push(stdout, stderr),
        Command::Fetch => summarize_fetch(stdout, stderr),
        Command::Checkout | Command::Co => summarize_clone(stderr),
        Command::Run { .. } => summarize_run(stdout),
        Command::List | Command::Ls => String::new(),
    }
}

// ---------------------------------------------------------------------------
// A summary is one line
// ---------------------------------------------------------------------------

/// Whether `s` has no line feed in it.
pub open spec fn one_line(s: Seq<char>) -> bool {
    forall|j: int| 0 <= j < s.len() ==> #[trigger] s[j] != '\n'
}

/// Whether every text of `ls` has no line feed in it.
pub open spec fn all_one_line(ls: Seq<Seq<char>>) -> bool {
    forall|k: int| 0 <= k < ls.len() ==> one_line(#[trigger] ls[k])
}

proof fn lemma_next_newline_bounds(s: Seq<char>, from: int)
    requires
        0 <= from <= s.len(),
    ensures
        from <= crate::lines::next_newline(s, from) <= s.len(),
        forall|j: int| from <= j < crate::lines::next_newline(s, from) ==> #[trigger] s[j] != '\n',
    decreases s.len() - from,
{
    if from < s.len() && s[from] != '\n' {
        lemma_next_newline_bounds(s, from + 1);
    }
}

proof fn lemma_lines_are_one_line(s: Seq<char>, from: int)
    requires
        0 <= from,
    ensures
        all_one_line(crate::lines::lines_from(s, from)),
    decreases s.len() - from,
{
    if from < s.len() {
        lemma_next_newline_bounds(s, from);
        let k = crate::lines::next_newline(s, from);
        if k < s.len() {
            lemma_lines_are_one_line(s, k + 1);
            let first = crate::lines::strip_cr(s.subrange(from, k));
            let rest = crate::lines::lines_from(s, k + 1);
            assert forall|j: int| 0 <= j < first.len() implies #[trigger] first[j] != '\n' by {
                assert(first[j] == s[from + j]);
            }
            let all = seq![first] + rest;
            assert forall|i: int| 0 <= i < all.len() implies one_line(#[trigger] all[i]) by {
                if i > 0 {
                    assert(all[i] == rest[i - 1]);
                }
            }
        } else {
            let only = s.subrange(from, s.len() as int);
            assert forall|j: int| 0 <= j < only.len() implies #[trigger] only[j] != '\n' by {
                assert(only[j] == s[from + j]);
            }
        }
    }
}

proof fn lemma_first_match_one_line(ls: Seq<Seq<char>>, p: Probe)
    requires
        all_one_line(ls),
    ensures
        first_match(ls, p) matches Some(l) ==> one_line(l),
    decreases ls.len(),
{
    if ls.len() > 0 {
        assert(one_line(ls[0]));
        let rest = ls.drop_first();
        assert forall|k: int| 0 <= k < rest.len() implies one_line(#[trigger] rest[k]) by {
            assert(rest[k] == ls[k + 1]);
        }
        lemma_first_match_one_line(rest, p);
    }
}

proof fn lemma_select_one_line(ls: Seq<Seq<char>>, p: Probe)
    requires
        all_one_line(ls),
    ensures
        all_one_line(select(ls, p)),
    decreases ls.len(),
{
    if ls.len() > 0 {
        let front = ls.drop_last();
        assert forall|k: int| 0 <= k < front.len() implies one_line(#[trigger] front[k]) by {
            assert(front[k] == ls[k]);
        }
        lemma_select_one_line(front, p);
        assert(one_line(ls[ls.len() - 1]));
    }
}

proof fn lemma_strip_one_line(s: Seq<char>, class: crate::text::CharClass)
    requires
        one_line(s),
    ensures
        one_line(crate::text::strip_start(s, class)),
        one_line(crate::text::strip_end(s, class)),
    decreases s.len(),
{
    if s.len() > 0 {
        let a = s.drop_first();
        let b = s.drop_last();
        assert forall|j: int| 0 <= j < a.len() implies #[trigger] a[j] != '\n' by {
            assert(a[j] == s[j + 1]);
        }
        assert forall|j: int| 0 <= j < b.len() implies #[trigger] b[j] != '\n' by {
            assert(b[j] == s[j]);
        }
        lemma_strip_one_line(a, class);
        lemma_strip_one_line(b, class);
    }
}

proof fn lemma_trim_one_line(s: Seq<char>)
    requires
        one_line(s),
    ensures
        one_line(trim(s)),
{
    lemma_strip_one_line(s, crate::text::CharClass::Whitespace);
    lemma_strip_one_line(
        crate::text::strip_start(s, crate::text::CharClass::Whitespace),
        crate::text::CharClass::Whitespace,
    );
}

proof fn lemma_decimal_one_line(n: nat)
    ensures
        one_line(decimal(n)),
    decreases n,
{
    if n >= 10 {
        lemma_decimal_one_line(n / 10);
    }
}

proof fn lemma_join_one_line(parts: Seq<Seq<char>>, sep: Seq<char>)
    requires
        all_one_line(parts),
        one_line(sep),
    ensures
        one_line(join(parts, sep)),
    decreases parts.len(),
{
    if parts.len() == 1 {
        assert(one_line(parts[0]));
    } else if parts.len() > 1 {
        let front = parts.drop_last();
        assert forall|k: int| 0 <= k < front.len() implies one_line(#[trigger] front[k]) by {
            assert(front[k] == parts[k]);
        }
        lemma_join_one_line(front, sep);
        assert(one_line(parts[parts.len() - 1]));
    }
}

proof fn lemma_meaningful_one_line(s: Seq<char>)
    ensures
        meaningful_line(s) matches Some(l) ==> one_line(l),
{
    reveal_strlit("...");
    lemma_lines_are_one_line(s, 0);
    lemma_first_match_one_line(lines(s), Probe::NonBlank);
    if let Some(l) = first_match(lines(s), Probe::NonBlank) {
        lemma_trim_one_line(l);
    }
}

proof fn lemma_tally_one_line(n: nat, label: Seq<char>)
    requires
        one_line(label),
    ensures
        all_one_line(tally(n, label)),
{
    lemma_decimal_one_line(n);
    if n > 0 {
        assert(one_line(tally(n, label)[0]));
    }
}

proof fn lemma_status_one_line(stdout: Seq<char>)
    ensures
        one_line(status_summary(stdout)),
{
    reveal_strlit("clean");
    reveal_strlit(" modified");
    reveal_strlit(" untracked");
    reveal_strlit(" deleted");
    reveal_strlit(" changed");
    reveal_strlit(", ");
    let entries = select(lines(stdout), Probe::NonBlank);
    if entries.len() > 0 {
        let a = tally(count(entries, modified_mark()), " modified"@);
        let b = tally(count(entries, added_mark()), " untracked"@);
        let c = tally(count(entries, deleted_mark()), " deleted"@);
        lemma_tally_one_line(count(entries, modified_mark()), " modified"@);
        lemma_tally_one_line(count(entries, added_mark()), " untracked"@);
        lemma_tally_one_line(count(entries, deleted_mark()), " deleted"@);
        let parts = a + b + c;
        assert forall|k: int| 0 <= k < parts.len() implies one_line(#[trigger] parts[k]) by {
            if k < a.len() {
                assert(parts[k] == a[k]);
            } else if k < a.len() + b.len() {
                assert(parts[k] == b[k - a.len()]);
            } else {
                assert(parts[k] == c[k - a.len() - b.len()]);
            }
        }
        lemma_join_one_line(parts, ", "@);
        lemma_decimal_one_line(entries.len());
    }
}

proof fn lemma_first_report_one_line(first: Seq<char>, second: Seq<char>, p: Probe)
    ensures
        first_match(lines(first) + lines(second), p) matches Some(l) ==> one_line(trim(l)),
{
    lemma_lines_are_one_line(first, 0);
    lemma_lines_are_one_line(second, 0);
    let a = lines(first);
    let b = lines(second);
    let all = a + b;
    assert forall|k: int| 0 <= k < all.len() implies one_line(#[trigger] all[k]) by {
        if k < a.len() {
            assert(all[k] == a[k]);
        } else {
            assert(all[k] == b[k - a.len()]);
        }
    }
    lemma_first_match_one_line(all, p);
    if let Some(l) = first_match(all, p) {
        lemma_trim_one_line(l);
    }
}

proof fn lemma_run_one_line(stdout: Seq<char>)
    ensures
        one_line(run_summary(stdout)),
{
    reveal_strlit("done (no output)");
    reveal_strlit(" (");
    reveal_strlit("+ lines)");
    lemma_lines_are_one_line(stdout, 0);
    lemma_select_one_line(lines(stdout), Probe::NonBlank);
    let shown = select(lines(stdout), Probe::NonBlank);
    if shown.len() > 0 {
        assert(one_line(shown[0]));
        lemma_trim_one_line(shown[0]);
        lemma_decimal_one_line(shown.len());
    }
}

/// Whatever an operation printed, its summary has no line feed in it: it is
/// one line.
pub proof fn law_summary_is_one_line(
    command: Command,
    stdout: Seq<char>,
    stderr: Seq<char>,
    exit_code: i32,
)
    ensures
        one_line(summary(command, stdout, stderr, exit_code)),
{
    if exit_code != 0 {
        reveal_strlit("exit code ");
        lemma_meaningful_one_line(stderr);
        lemma_meaningful_one_line(stdout);
        if exit_code < 0 {
            lemma_decimal_one_line((-(exit_code as int)) as nat);
        } else {
            lemma_decimal_one_line(exit_code as nat);
        }
    } else {
        match command {
            Command::Update | Command::Pull => {
                reveal_strlit("already up to date");
                reveal_strlit("done");
                lemma_first_report_one_line(stdout, stderr, change_report());
                lemma_meaningful_one_line(stdout);
            },
            Command::Status => {
                lemma_status_one_line(stdout);
            },
            Command::Diff => {
                reveal_strlit("no changes");
                reveal_strlit(" files, +");
                reveal_strlit(" -");
                let ls = lines(stdout);
                lemma_decimal_one_line(select(ls, Probe::StartsWith("diff --git"@)).to_set().len());
                lemma_decimal_one_line(count(ls, Probe::StartsWithButNot("+"@, "+++"@)));
                lemma_decimal_one_line(count(ls, Probe::StartsWithButNot("-"@, "---"@)));
            },
            Command::Push => {
                reveal_strlit("up to date");
                reveal_strlit("done");
                lemma_first_report_one_line(stderr, stdout, ref_update());
            },
            Command::Fetch => {
                reveal_strlit("up to date");
                reveal_strlit(" updated refs");
                lemma_decimal_one_line(count(lines(stderr), ref_update()));
            },
            Command::Checkout | Command::Co => {
                reveal_strlit("cloned");
                reveal_strlit("done");
            },
            Command::Run { .. } => {
                lemma_run_one_line(stdout);
            },
            Command::List | Command::Ls => {},
        }
    }
}

} // verus!
