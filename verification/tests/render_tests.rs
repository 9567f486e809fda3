use mrx::cli::Command;
use mrx::config::Repo;
use mrx::executor::TaskEvent;
use mrx::tui::apply_event;
use mrx::tui::render::{
    calculate_scroll, draw, format_status, running_text, Color, Line, Style,
};
use mrx::tui::spinner::frame;
use mrx::tui::state::{AppState, RepoStatus};
use std::path::PathBuf;

fn state_with(names: &[&str], command: &str) -> AppState {
    let repos = names
        .iter()
        .map(|n| Repo { name: n.to_string(), path: PathBuf::from("/srv").join(n), clone_url: None })
        .collect();
    AppState::new(repos, command)
}

fn texts(lines: &[Line]) -> Vec<String> {
    lines.iter().map(|l| l.spans.iter().map(|s| s.text.as_str()).collect::<String>()).collect()
}

fn gray() -> Style {
    Style { fg: Color::DarkGray, bold: false }
}

#[test]
fn a_fresh_dashboard() {
    let state = state_with(&["alpha", "be"], "status");
    let lines = draw(40, 10, &state);
    assert_eq!(
        texts(&lines),
        vec![
            format!("  mrx status{}0/2 done", " ".repeat(20)),
            "\u{2500}".repeat(40),
            "  \u{25b8}   alpha  waiting...".to_string(),
            "      be     waiting...".to_string(),
            "\u{2500}".repeat(40),
            "  [\u{2191}\u{2193}/jk] navigate  [enter] expand  [q] quit".to_string(),
        ]
    );
}

#[test]
fn styles_of_a_row() {
    let state = state_with(&["alpha", "be"], "status");
    let lines = draw(40, 10, &state);
    let header: Vec<Style> = lines[0].spans.iter().map(|s| s.style).collect();
    assert_eq!(
        header,
        vec![Style { fg: Color::Default, bold: true }, Style { fg: Color::Default, bold: false }, gray()]
    );
    let on_cursor: Vec<Style> = lines[2].spans.iter().map(|s| s.style).collect();
    assert_eq!(
        on_cursor,
        vec![
            Style { fg: Color::Cyan, bold: true },
            gray(),
            Style { fg: Color::Default, bold: false },
            Style { fg: Color::Default, bold: true },
            Style { fg: Color::Default, bold: false },
            gray(),
        ]
    );
    let other: Vec<Style> = lines[3].spans.iter().map(|s| s.style).collect();
    assert_eq!(other[0], Style { fg: Color::Default, bold: false });
    assert_eq!(other[3], Style { fg: Color::Default, bold: false });
    assert_eq!(lines[1].spans[0].style, gray());
    assert_eq!(lines[5].spans[0].style, gray());
}

#[test]
fn an_expanded_target_with_more_output_than_fits() {
    let mut state = state_with(&["alpha", "be"], "status");
    let event = TaskEvent::Finished {
        index: 0,
        stdout: "l1\nl2\nl3\nl4\nl5\n".to_string(),
        stderr: String::new(),
        exit_code: 0,
    };
    apply_event(&mut state, &event, &Command::Status);
    state.toggle_expand();
    let expected = |first: usize, last: usize| {
        let mut lines = vec![
            format!("  mrx status{}1/2 done", " ".repeat(20)),
            "\u{2500}".repeat(40),
            "  \u{25b8} \u{2713} alpha  5 changed".to_string(),
            format!("    \u{250c}{}\u{2510}", "\u{2500}".repeat(34)),
        ];
        for n in first..=last {
            lines.push(format!("    \u{2502} l{}", n));
        }
        lines.push(format!(
            "    \u{2514}{} [{}-{}/5] \u{2518}",
            "\u{2500}".repeat(25),
            first,
            last
        ));
        lines.push("\u{2500}".repeat(40));
        lines.push("  [\u{2191}\u{2193}] scroll  [esc] collapse  [q] quit".to_string());
        lines
    };
    assert_eq!(texts(&draw(40, 10, &state)), expected(1, 3));
    state.scroll_down(5);
    assert_eq!(texts(&draw(40, 10, &state)), expected(2, 4));
    for _ in 0..10 {
        state.scroll_down(5);
    }
    assert_eq!(texts(&draw(40, 10, &state)), expected(5, 5));
}

#[test]
fn an_expanded_target_whose_output_fits() {
    let mut state = state_with(&["a", "b"], "run");
    let event = TaskEvent::Finished {
        index: 1,
        stdout: "a very long line of output\nshort\n".to_string(),
        stderr: String::new(),
        exit_code: 3,
    };
    apply_event(&mut state, &event, &Command::Status);
    state.move_down();
    state.toggle_expand();
    let lines = draw(20, 12, &state);
    assert_eq!(
        texts(&lines),
        vec![
            "  mrx run1/2 done, 1 failed".to_string(),
            "\u{2500}".repeat(20),
            "      a  waiting...".to_string(),
            "  \u{25b8} \u{2717} b  a very long line of output".to_string(),
            format!("    \u{250c}{}\u{2510}", "\u{2500}".repeat(14)),
            "    \u{2502} a very long ".to_string(),
            "    \u{2502} short".to_string(),
            format!("    \u{2514}{}\u{2518}", "\u{2500}".repeat(14)),
            "\u{2500}".repeat(20),
            "  [\u{2191}\u{2193}] scroll  [esc] collapse  [q] quit".to_string(),
        ]
    );
    assert_eq!(lines[3].spans[1].style, Style { fg: Color::Red, bold: false });
    assert_eq!(lines[3].spans[5].style, Style { fg: Color::Red, bold: false });
}

#[test]
fn the_list_follows_the_cursor() {
    let mut state = state_with(&["r0", "r1", "r2", "r3", "r4"], "fetch");
    let names = |state: &AppState| -> Vec<String> {
        let lines = draw(30, 6, state);
        lines[2..lines.len() - 2].iter().map(|l| l.spans[3].text.clone()).collect()
    };
    assert_eq!(names(&state), vec!["r0", "r1"]);
    state.move_down();
    assert_eq!(names(&state), vec!["r0", "r1"]);
    state.move_down();
    assert_eq!(names(&state), vec!["r1", "r2"]);
    state.select_last();
    assert_eq!(names(&state), vec!["r3", "r4"]);
    assert_eq!(calculate_scroll(&state, 2), (3, 0));
    assert_eq!(calculate_scroll(&state, 5), (0, 0));
}

#[test]
fn an_expansion_takes_room_from_the_list() {
    let mut state = state_with(&["r0", "r1", "r2"], "fetch");
    state.move_down();
    state.move_down();
    state.toggle_expand();
    assert_eq!(calculate_scroll(&state, 6), (0, 3));
    assert_eq!(calculate_scroll(&state, 5), (1, 3));
    assert_eq!(calculate_scroll(&state, 3), (3, 3));
    assert_eq!(calculate_scroll(&state, 0), (3, 3));
    let lines = draw(30, 9, &state);
    assert_eq!(
        texts(&lines)[2..7],
        vec![
            "      r1  waiting...".to_string(),
            "  \u{25b8}   r2  waiting...".to_string(),
            format!("    \u{250c}{}\u{2510}", "\u{2500}".repeat(24)),
            "    \u{2502} (pending...)".to_string(),
            format!("    \u{2514}{}\u{2518}", "\u{2500}".repeat(24)),
        ]
    );
}

#[test]
fn tiny_and_empty_frames() {
    let state = state_with(&[], "list");
    assert_eq!(
        texts(&draw(0, 0, &state)),
        vec![
            "  mrx list0/0 done".to_string(),
            String::new(),
            String::new(),
            "  [\u{2191}\u{2193}/jk] navigate  [enter] expand  [q] quit".to_string(),
        ]
    );
    let one = state_with(&["x"], "push");
    assert_eq!(draw(10, 4, &one).len(), 4);
    assert_eq!(draw(10, 5, &one).len(), 5);
}

#[test]
fn status_cells() {
    let done = |code: i32| RepoStatus::Done {
        summary: "sum".to_string(),
        stdout: String::new(),
        stderr: String::new(),
        exit_code: code,
    };
    let yellow = Style { fg: Color::Yellow, bold: false };
    let red = Style { fg: Color::Red, bold: false };
    assert_eq!(
        format_status(&RepoStatus::Pending, 0, "update"),
        (" ".to_string(), gray(), "waiting...".to_string(), gray())
    );
    assert_eq!(
        format_status(&RepoStatus::Running, 3, "update"),
        ("\u{2838}".to_string(), yellow, "pulling...".to_string(), yellow)
    );
    assert_eq!(
        format_status(&done(0), 0, "update"),
        ("\u{2713}".to_string(), Style { fg: Color::Green, bold: false }, "sum".to_string(), gray())
    );
    assert_eq!(
        format_status(&done(1), 0, "update"),
        ("\u{2717}".to_string(), red, "sum".to_string(), red)
    );
    assert_eq!(
        format_status(&RepoStatus::Skipped { reason: "why".to_string() }, 0, "update"),
        ("-".to_string(), gray(), "why".to_string(), gray())
    );
}

#[test]
fn running_texts() {
    let shown: Vec<String> = ["update", "status", "diff", "push", "fetch", "checkout", "run", "list", ""]
        .iter()
        .map(|c| running_text(c))
        .collect();
    assert_eq!(
        shown,
        vec![
            "pulling...", "checking...", "diffing...", "pushing...", "fetching...", "cloning...",
            "running...", "running...", "running..."
        ]
    );
}

#[test]
fn the_spinner_repeats_after_ten_ticks() {
    let turn: String = (0..10).map(frame).collect();
    assert_eq!(turn, "\u{280b}\u{2819}\u{2839}\u{2838}\u{283c}\u{2834}\u{2826}\u{2827}\u{2807}\u{280f}");
    assert_eq!(frame(10), frame(0));
    assert_eq!(frame(usize::MAX), frame(usize::MAX % 10));
}

#[test]
fn names_are_padded_to_the_longest() {
    let state = state_with(&["a", "\u{00e9}\u{00e9}\u{00e9}\u{00e9}"], "status");
    let lines = draw(40, 10, &state);
    assert_eq!(lines[2].spans[4].text, " ".repeat(5));
    assert_eq!(lines[3].spans[4].text, " ".repeat(2));
}
