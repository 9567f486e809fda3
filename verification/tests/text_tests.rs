use mrx::lines::{count_distinct, find_line, split_lines, LineProbe};
use mrx::text::{
    chars_of, has_infix, has_prefix, precedes_or_equals, push_count, push_signed, split_words,
    string_of, stripped, tail_after, trimmed, CharClass,
};

fn text(s: &str) -> Vec<char> {
    chars_of(s)
}

fn lines_of(s: &str) -> Vec<String> {
    split_lines(&text(s)).iter().map(|l| string_of(l)).collect()
}

#[test]
fn chars_round_trip_keeps_every_character() {
    let s = "a\u{00e9}\u{2713} z";
    assert_eq!(string_of(&chars_of(s)), s);
    assert_eq!(chars_of(s).len(), 5);
}

#[test]
fn lines_drop_terminators() {
    assert_eq!(lines_of("a\nb\n"), vec!["a", "b"]);
    assert_eq!(lines_of("a\nb"), vec!["a", "b"]);
}

#[test]
fn lines_strip_carriage_return_before_line_feed_only() {
    assert_eq!(lines_of("a\r\nb\r"), vec!["a", "b\r"]);
}

#[test]
fn lines_keep_empty_lines_between() {
    assert_eq!(lines_of("a\n\nb"), vec!["a", "", "b"]);
    assert_eq!(lines_of("\n"), vec![""]);
}

#[test]
fn empty_text_has_no_lines() {
    assert_eq!(lines_of(""), Vec::<String>::new());
}

#[test]
fn lines_agree_with_the_standard_library() {
    for s in ["", "x", "x\n", "\r\n", "a\r\n\r\nb", "a\rb\nc", "\n\n\n", "tail\r"] {
        let expected: Vec<String> = s.lines().map(|l| l.to_string()).collect();
        assert_eq!(lines_of(s), expected, "on {:?}", s);
    }
}

#[test]
fn trim_removes_unicode_whitespace() {
    assert_eq!(string_of(&trimmed(&text(" \t x y \u{00a0}\u{3000}\n"))), "x y");
    assert_eq!(string_of(&trimmed(&text(" \u{2003} "))), "");
    assert_eq!(string_of(&trimmed(&text("abc"))), "abc");
}

#[test]
fn trim_agrees_with_the_standard_library() {
    for s in ["", " ", " a ", "\u{0085}a\u{1680}", "\u{200b}a", "a\u{2028}", "\u{feff}x"] {
        assert_eq!(string_of(&trimmed(&text(s))), s.trim(), "on {:?}", s);
    }
}

#[test]
fn strip_removes_only_the_given_character() {
    let quoted = text("''a'b''");
    assert_eq!(string_of(&stripped(&quoted, CharClass::Exactly('\''))), "a'b");
    assert_eq!(string_of(&stripped(&text("\"x\""), CharClass::Exactly('\''))), "\"x\"");
}

#[test]
fn words_are_runs_without_whitespace() {
    let words: Vec<String> =
        split_words(&text("  git\tclone \n x  ")).iter().map(|w| string_of(w)).collect();
    assert_eq!(words, vec!["git", "clone", "x"]);
    assert!(split_words(&text(" \n ")).is_empty());
}

#[test]
fn prefix_and_infix() {
    assert!(has_prefix(&text("diff --git a b"), &text("diff --git")));
    assert!(!has_prefix(&text("dif"), &text("diff")));
    assert!(has_prefix(&text("x"), &text("")));
    assert!(has_infix(&text("a -> b"), &text("->")));
    assert!(!has_infix(&text("a - > b"), &text("->")));
    assert!(has_infix(&text(""), &text("")));
    assert!(has_infix(&text("abc"), &text("abc")));
    assert!(!has_infix(&text("ab"), &text("abc")));
}

#[test]
fn decimal_numerals() {
    let mut out = Vec::new();
    push_count(&mut out, 0);
    out.push(' ');
    push_count(&mut out, 9);
    out.push(' ');
    push_count(&mut out, 10);
    out.push(' ');
    push_count(&mut out, 1234567890);
    assert_eq!(string_of(&out), "0 9 10 1234567890");
    let mut max = Vec::new();
    push_count(&mut max, usize::MAX);
    assert_eq!(string_of(&max), usize::MAX.to_string());
}

#[test]
fn signed_numerals() {
    for n in [0, 1, -1, 128, -128, i32::MAX, i32::MIN] {
        let mut out = Vec::new();
        push_signed(&mut out, n);
        assert_eq!(string_of(&out), n.to_string());
    }
}

#[test]
fn part_after_the_last_separator() {
    assert_eq!(string_of(&tail_after(&text("work/team/repo"), '/')), "repo");
    assert_eq!(string_of(&tail_after(&text("repo"), '/')), "repo");
    assert_eq!(string_of(&tail_after(&text("dir/"), '/')), "");
}

#[test]
fn dictionary_order_is_the_order_of_strings() {
    let samples = ["", "a", "ab", "b", "B", "a\u{00e9}", "a\u{2713}", "\u{10000}"];
    for a in samples {
        for b in samples {
            assert_eq!(precedes_or_equals(&text(a), &text(b)), a <= b, "{:?} <= {:?}", a, b);
        }
    }
}

#[test]
fn distinct_lines_are_counted_once() {
    let ls = split_lines(&text("a\nb\na\nc\nb\n"));
    assert_eq!(count_distinct(&ls), 3);
    assert_eq!(count_distinct(&Vec::new()), 0);
}

#[test]
fn the_first_passing_line_is_found_by_its_position() {
    let ls = split_lines(&text("skip\nsame\nother\nsame\n"));
    assert_eq!(find_line(&ls, &LineProbe::StartsWith(text("same"))), Some(1));
    assert_eq!(find_line(&ls, &LineProbe::StartsWith(text("o"))), Some(2));
    assert_eq!(find_line(&ls, &LineProbe::NonBlank), Some(0));
    assert_eq!(find_line(&ls, &LineProbe::StartsWith(text("none"))), None);
    assert_eq!(find_line(&Vec::new(), &LineProbe::NonBlank), None);
}
