use mrx::cli::Command;
use mrx::summarize::summarize;

#[test]
fn pull_already_up_to_date() {
    assert_eq!(
        summarize(&Command::Pull, "Already up to date.\n", "", 0),
        "already up to date"
    );
}

#[test]
fn status_counts_modified_and_untracked() {
    assert_eq!(
        summarize(&Command::Status, " M foo.txt\n?? bar.txt\n", "", 0),
        "1 modified, 1 untracked"
    );
}

#[test]
fn diff_counts_files_and_lines() {
    assert_eq!(
        summarize(&Command::Diff, "diff --git a/x b/x\n+line\n-line\n", "", 0),
        "1 files, +1 -1"
    );
}

#[test]
fn failure_shows_first_error_line() {
    assert_eq!(
        summarize(&Command::Pull, "", "fatal: not a git repository\n", 128),
        "fatal: not a git repository"
    );
}

#[test]
fn run_shows_first_line_and_count() {
    let run = Command::Run { cmd: vec!["echo".to_string()] };
    assert_eq!(summarize(&run, "hello\nworld\nextra\n", "", 0), "hello (3+ lines)");
}

use mrx::summarize::{
    first_meaningful_line, summarize_clone, summarize_diff, summarize_fetch, summarize_pull,
    summarize_push, summarize_run, summarize_status,
};

#[test]
fn failure_falls_back_to_standard_output_then_to_the_code() {
    assert_eq!(summarize(&Command::Push, "  rejected  \n", " \n", 1), "rejected");
    assert_eq!(summarize(&Command::Push, "", "", 3), "exit code 3");
    assert_eq!(summarize(&Command::Push, "\n", "  ", -2), "exit code -2");
}

#[test]
fn long_lines_are_cut_at_eighty_characters() {
    let line80 = "x".repeat(80);
    let line81 = "y".repeat(81);
    assert_eq!(first_meaningful_line(&line80), Some(line80.clone()));
    assert_eq!(first_meaningful_line(&line81), Some(format!("{}...", "y".repeat(77))));
    let accents = "\u{00e9}".repeat(81);
    assert_eq!(
        first_meaningful_line(&accents),
        Some(format!("{}...", "\u{00e9}".repeat(77)))
    );
}

#[test]
fn first_meaningful_line_skips_blank_lines() {
    assert_eq!(first_meaningful_line("\n  \n\t first \nsecond"), Some("first".to_string()));
    assert_eq!(first_meaningful_line(" \n\n"), None);
    assert_eq!(first_meaningful_line(""), None);
}

#[test]
fn pull_summaries() {
    assert_eq!(summarize_pull("", "Already up-to-date.\n"), "already up to date");
    assert_eq!(
        summarize_pull("Updating a..b\n 2 files changed, 3 insertions(+)\n", ""),
        "2 files changed, 3 insertions(+)"
    );
    assert_eq!(summarize_pull("", " 1 file changed, 1 deletion(-)\n"), "1 file changed, 1 deletion(-)");
    assert_eq!(summarize_pull("", ""), "done");
    assert_eq!(summarize_pull(" \n", "\n"), "done");
    assert_eq!(summarize_pull("Fast-forward\n", ""), "Fast-forward");
    assert_eq!(summarize_pull("", "From origin\n"), "done");
}

#[test]
fn status_summaries() {
    assert_eq!(summarize_status(""), "clean");
    assert_eq!(summarize_status("\n  \n"), "clean");
    assert_eq!(summarize_status("M  a\n M b\nA  c\n?? d\n D e\nD  f\n"), "2 modified, 2 untracked, 2 deleted");
    assert_eq!(summarize_status(" D gone\n"), "1 deleted");
    assert_eq!(summarize_status("R  a -> b\nUU c\n"), "2 changed");
}

#[test]
fn diff_summaries() {
    assert_eq!(summarize_diff(""), "no changes");
    assert_eq!(summarize_diff(" \n"), "no changes");
    let diff = "diff --git a/x b/x\n--- a/x\n+++ b/x\n+one\n+two\n-three\ndiff --git a/y b/y\n+four\n";
    assert_eq!(summarize_diff(diff), "2 files, +3 -1");
    let repeated = "diff --git a/x b/x\n+a\ndiff --git a/x b/x\n+b\n";
    assert_eq!(summarize_diff(repeated), "1 files, +2 -0");
    assert_eq!(summarize_diff("context only\n"), "0 files, +0 -0");
}

#[test]
fn push_summaries() {
    assert_eq!(summarize_push("", "Everything up-to-date\n"), "up to date");
    assert_eq!(
        summarize_push("out -> ignored\n", "To origin\n   a..b  main -> main\n"),
        "a..b  main -> main"
    );
    assert_eq!(summarize_push("x -> y\n", ""), "x -> y");
    assert_eq!(summarize_push("", "To origin\n"), "done");
}

#[test]
fn fetch_summaries() {
    assert_eq!(summarize_fetch("", ""), "up to date");
    assert_eq!(summarize_fetch("", "From origin\n"), "up to date");
    assert_eq!(summarize_fetch("a -> b\n", "From origin\n"), "up to date");
    assert_eq!(
        summarize_fetch("", "From origin\n a..b main -> origin/main\n * [new] x -> origin/x\n"),
        "2 updated refs"
    );
}

#[test]
fn clone_summaries() {
    assert_eq!(summarize_clone("Cloning into 'x'...\n"), "cloned");
    assert_eq!(summarize_clone(""), "done");
    assert_eq!(summarize(&Command::Checkout, "", "Cloning into 'x'...\n", 0), "cloned");
    assert_eq!(summarize(&Command::Co, "Cloning into 'x'...\n", "", 0), "done");
}

#[test]
fn run_summaries() {
    assert_eq!(summarize_run(""), "done (no output)");
    assert_eq!(summarize_run("\n \n"), "done (no output)");
    assert_eq!(summarize_run("\n  only \n"), "only");
    assert_eq!(summarize_run("a\n\nb\n"), "a (2+ lines)");
}

#[test]
fn listing_has_no_summary() {
    assert_eq!(summarize(&Command::List, "anything\n", "", 0), "");
    assert_eq!(summarize(&Command::Ls, "anything\n", "", 0), "");
}

#[test]
fn aliases_share_their_summaries() {
    assert_eq!(summarize(&Command::Update, "Already up to date.\n", "", 0), "already up to date");
    assert_eq!(summarize(&Command::Fetch, "", " a -> b\n", 0), "1 updated refs");
}
