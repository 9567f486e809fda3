use mrx::cli::Command;
use mrx::config::Repo;
use mrx::executor::TaskEvent;
use mrx::tui::apply_event;
use mrx::tui::event::{classify, AppEvent, Key, Polled};
use mrx::tui::state::{AppState, RepoStatus};
use mrx::tui::{final_report, handle_input, Control};
use std::path::PathBuf;

fn repos(n: usize) -> Vec<Repo> {
    (0..n)
        .map(|i| Repo {
            name: format!("repo{}", i),
            path: PathBuf::from(format!("/srv/repo{}", i)),
            clone_url: None,
        })
        .collect()
}

fn finished(index: usize, stdout: &str, stderr: &str, exit_code: i32) -> TaskEvent {
    TaskEvent::Finished {
        index,
        stdout: stdout.to_string(),
        stderr: stderr.to_string(),
        exit_code,
    }
}

fn key(state: &mut AppState, k: Key) -> Control {
    handle_input(state, AppEvent::Key(k, false))
}

#[test]
fn a_new_dashboard_has_everything_pending() {
    let state = AppState::new(repos(3), "status");
    assert_eq!(state.total(), 3);
    assert_eq!(state.selected(), 0);
    assert_eq!(state.expanded(), None);
    assert_eq!(state.scroll_offset(), 0);
    assert_eq!(state.tick(), 0);
    assert_eq!(state.command_name(), "status");
    assert_eq!(state.done_count(), 0);
    assert_eq!(state.failed_count(), 0);
    assert!(!state.all_done());
    for i in 0..3 {
        assert_eq!(*state.status(i), RepoStatus::Pending);
        assert_eq!(state.repo(i).name, format!("repo{}", i));
    }
    assert_eq!(state.summary_line(), "0/3 done");
}

#[test]
fn status_predicates() {
    let done = |code| RepoStatus::Done {
        summary: String::new(),
        stdout: String::new(),
        stderr: String::new(),
        exit_code: code,
    };
    assert!(!RepoStatus::Pending.is_done() && !RepoStatus::Pending.is_failed());
    assert!(!RepoStatus::Running.is_done() && !RepoStatus::Running.is_failed());
    assert!(done(0).is_done() && !done(0).is_failed());
    assert!(done(2).is_done() && done(2).is_failed());
    assert!(done(-1).is_failed());
    let skipped = RepoStatus::Skipped { reason: "no".to_string() };
    assert!(skipped.is_done() && !skipped.is_failed());
}

#[test]
fn events_set_the_status_of_their_target_only() {
    let mut state = AppState::new(repos(3), "status");
    apply_event(&mut state, &TaskEvent::Started { index: 1 }, &Command::Status);
    assert_eq!(*state.status(0), RepoStatus::Pending);
    assert_eq!(*state.status(1), RepoStatus::Running);
    assert_eq!(*state.status(2), RepoStatus::Pending);
    apply_event(&mut state, &finished(1, " M a\n", "warn\n", 0), &Command::Status);
    assert_eq!(
        *state.status(1),
        RepoStatus::Done {
            summary: "1 modified".to_string(),
            stdout: " M a\n".to_string(),
            stderr: "warn\n".to_string(),
            exit_code: 0
        }
    );
    apply_event(
        &mut state,
        &TaskEvent::Skipped { index: 2, reason: "not checked out".to_string() },
        &Command::Status,
    );
    assert_eq!(*state.status(2), RepoStatus::Skipped { reason: "not checked out".to_string() });
    assert_eq!(*state.status(0), RepoStatus::Pending);
}

#[test]
fn a_target_leaves_pending_exactly_when_an_event_names_it() {
    let mut state = AppState::new(repos(4), "fetch");
    let events = vec![
        TaskEvent::Started { index: 2 },
        TaskEvent::Skipped { index: 0, reason: "r".to_string() },
        finished(2, "", "", 0),
    ];
    let mut rank_before = vec![0; 4];
    for event in &events {
        apply_event(&mut state, event, &Command::Fetch);
        for i in 0..4 {
            let rank = match state.status(i) {
                RepoStatus::Pending => 0,
                RepoStatus::Running => 1,
                _ => 2,
            };
            assert!(rank >= rank_before[i]);
            rank_before[i] = rank;
        }
    }
    assert_eq!(rank_before, vec![2, 0, 2, 0]);
}

#[test]
fn counts_add_up() {
    let mut state = AppState::new(repos(5), "pull");
    apply_event(&mut state, &finished(0, "", "", 0), &Command::Pull);
    apply_event(&mut state, &finished(1, "", "boom\n", 1), &Command::Pull);
    apply_event(&mut state, &TaskEvent::Skipped { index: 2, reason: "x".into() }, &Command::Pull);
    apply_event(&mut state, &TaskEvent::Started { index: 3 }, &Command::Pull);
    assert_eq!(state.done_count(), 3);
    assert_eq!(state.failed_count(), 1);
    assert!(state.failed_count() <= state.done_count());
    assert_eq!(state.done_count() + (state.total() - state.done_count()), state.total());
    assert_eq!(state.summary_line(), "3/5 done, 1 failed");
    assert!(!state.all_done());
    apply_event(&mut state, &finished(3, "", "", 0), &Command::Pull);
    apply_event(&mut state, &finished(4, "", "", 0), &Command::Pull);
    assert!(state.all_done());
    assert_eq!(state.summary_line(), "5/5 done, 1 failed");
}

#[test]
fn the_cursor_stays_on_a_target() {
    let mut state = AppState::new(repos(3), "status");
    state.move_up();
    assert_eq!(state.selected(), 0);
    state.move_down();
    state.move_down();
    assert_eq!(state.selected(), 2);
    state.move_down();
    assert_eq!(state.selected(), 2);
    state.select_first();
    assert_eq!(state.selected(), 0);
    state.select_last();
    assert_eq!(state.selected(), 2);
    state.move_up();
    assert_eq!(state.selected(), 1);
}

#[test]
fn nothing_moves_without_targets() {
    let mut state = AppState::new(Vec::new(), "status");
    state.move_down();
    state.move_up();
    state.select_last();
    state.select_first();
    state.toggle_expand();
    assert_eq!(state.selected(), 0);
    assert_eq!(state.expanded(), None);
    assert_eq!(state.expanded_content(), None);
    assert_eq!(state.summary_line(), "0/0 done");
    assert!(state.all_done());
}

#[test]
fn toggling_twice_collapses_again_and_resets_the_scroll() {
    let mut state = AppState::new(repos(2), "status");
    apply_event(&mut state, &finished(1, "a\nb\nc\n", "", 0), &Command::Status);
    state.move_down();
    state.toggle_expand();
    assert_eq!(state.expanded(), Some(1));
    assert_eq!(state.scroll_offset(), 0);
    state.scroll_down(3);
    assert_eq!(state.scroll_offset(), 1);
    state.toggle_expand();
    assert_eq!(state.expanded(), None);
    assert_eq!(state.scroll_offset(), 0);
    state.scroll_down(3);
    state.toggle_expand();
    assert_eq!(state.expanded(), Some(1));
    assert_eq!(state.scroll_offset(), 0);
    state.scroll_down(3);
    state.collapse();
    assert_eq!(state.expanded(), None);
    assert_eq!(state.scroll_offset(), 0);
}

#[test]
fn toggling_on_another_target_moves_the_expansion() {
    let mut state = AppState::new(repos(2), "status");
    state.toggle_expand();
    state.move_down();
    state.toggle_expand();
    assert_eq!(state.expanded(), Some(1));
    state.toggle_expand();
    assert_eq!(state.expanded(), None);
}

#[test]
fn scrolling_stays_within_the_lines() {
    let mut state = AppState::new(repos(1), "status");
    state.scroll_up();
    assert_eq!(state.scroll_offset(), 0);
    state.scroll_down(0);
    state.scroll_down(1);
    assert_eq!(state.scroll_offset(), 0);
    for _ in 0..10 {
        state.scroll_down(4);
    }
    assert_eq!(state.scroll_offset(), 3);
    state.scroll_up();
    assert_eq!(state.scroll_offset(), 2);
}

#[test]
fn expanded_content_by_status() {
    let mut state = AppState::new(repos(5), "status");
    assert_eq!(state.expanded_content(), None);
    assert_eq!(state.expanded_line_count(), 0);
    state.toggle_expand();
    assert_eq!(state.expanded_content(), Some("(pending...)".to_string()));
    assert_eq!(state.expanded_line_count(), 1);
    apply_event(&mut state, &TaskEvent::Started { index: 0 }, &Command::Status);
    assert_eq!(state.expanded_content(), Some("(still running...)".to_string()));
    apply_event(&mut state, &finished(0, "out\n", "err\n", 0), &Command::Status);
    assert_eq!(state.expanded_content(), Some("out\nerr\n".to_string()));
    assert_eq!(state.expanded_line_count(), 2);
    apply_event(&mut state, &finished(1, "out", "", 0), &Command::Status);
    apply_event(&mut state, &finished(2, "", "err", 1), &Command::Status);
    apply_event(&mut state, &finished(3, "", "", 0), &Command::Status);
    apply_event(&mut state, &TaskEvent::Skipped { index: 4, reason: "why".into() }, &Command::Status);
    let mut shown = Vec::new();
    for _ in 1..5 {
        state.collapse();
        state.move_down();
        state.toggle_expand();
        shown.push(state.expanded_content().unwrap());
    }
    assert_eq!(shown, vec!["out", "err", "(no output)", "(skipped: why)"]);
}

#[test]
fn scrolling_by_keys_never_leaves_the_expanded_text() {
    let mut state = AppState::new(repos(1), "run");
    apply_event(&mut state, &finished(0, "1\n2\n3\n", "", 0), &Command::Status);
    assert_eq!(key(&mut state, Key::Enter), Control::Continue);
    for _ in 0..10 {
        key(&mut state, Key::Down);
        assert!(state.scroll_offset() < state.expanded_line_count());
    }
    assert_eq!(state.scroll_offset(), 2);
    key(&mut state, Key::Char('k'));
    assert_eq!(state.scroll_offset(), 1);
    key(&mut state, Key::Esc);
    assert_eq!(state.expanded(), None);
    assert_eq!(state.scroll_offset(), 0);
}

#[test]
fn keys_in_the_list() {
    let mut state = AppState::new(repos(4), "status");
    key(&mut state, Key::Down);
    key(&mut state, Key::Char('j'));
    assert_eq!(state.selected(), 2);
    key(&mut state, Key::Up);
    key(&mut state, Key::Char('k'));
    assert_eq!(state.selected(), 0);
    key(&mut state, Key::End);
    assert_eq!(state.selected(), 3);
    key(&mut state, Key::Home);
    assert_eq!(state.selected(), 0);
    key(&mut state, Key::Char('G'));
    assert_eq!(state.selected(), 3);
    key(&mut state, Key::Char('g'));
    assert_eq!(state.selected(), 0);
    key(&mut state, Key::Other);
    key(&mut state, Key::Esc);
    key(&mut state, Key::Char('x'));
    assert_eq!(state.selected(), 0);
    assert_eq!(state.expanded(), None);
}

#[test]
fn keys_while_expanded_do_not_move_the_cursor() {
    let mut state = AppState::new(repos(3), "status");
    key(&mut state, Key::Enter);
    key(&mut state, Key::Down);
    key(&mut state, Key::End);
    key(&mut state, Key::Char('G'));
    assert_eq!(state.selected(), 0);
    assert_eq!(state.expanded(), Some(0));
    key(&mut state, Key::Enter);
    assert_eq!(state.expanded(), None);
}

#[test]
fn quitting() {
    let mut state = AppState::new(repos(2), "status");
    assert_eq!(key(&mut state, Key::Char('q')), Control::Quit);
    assert_eq!(handle_input(&mut state, AppEvent::Key(Key::Char('c'), true)), Control::Quit);
    assert_eq!(handle_input(&mut state, AppEvent::Key(Key::Char('c'), false)), Control::Continue);
    assert_eq!(handle_input(&mut state, AppEvent::Key(Key::Char('q'), true)), Control::Quit);
    key(&mut state, Key::Enter);
    assert_eq!(key(&mut state, Key::Char('q')), Control::Quit);
    assert_eq!(handle_input(&mut state, AppEvent::Key(Key::Char('c'), true)), Control::Quit);
    assert_eq!(state.expanded(), Some(0));
}

#[test]
fn ticks_advance_the_animation() {
    let mut state = AppState::new(repos(1), "status");
    assert_eq!(handle_input(&mut state, AppEvent::Tick), Control::Continue);
    handle_input(&mut state, AppEvent::Tick);
    assert_eq!(state.tick(), 2);
    state.advance_tick();
    assert_eq!(state.tick(), 3);
}

#[test]
fn poll_results_become_inputs() {
    assert_eq!(classify(Polled::Failed), None);
    assert_eq!(classify(Polled::Nothing), Some(AppEvent::Tick));
    assert_eq!(classify(Polled::Other), Some(AppEvent::Tick));
    assert_eq!(
        classify(Polled::Key { key: Key::Up, control: false, pressed: true }),
        Some(AppEvent::Key(Key::Up, false))
    );
    assert_eq!(
        classify(Polled::Key { key: Key::Char('c'), control: true, pressed: true }),
        Some(AppEvent::Key(Key::Char('c'), true))
    );
    assert_eq!(
        classify(Polled::Key { key: Key::Up, control: false, pressed: false }),
        Some(AppEvent::Tick)
    );
}

#[test]
fn the_final_report() {
    let mut state = AppState::new(repos(3), "update");
    apply_event(&mut state, &finished(0, "", "", 0), &Command::Update);
    assert_eq!(final_report(&state), ("mrx update: 1/3 done".to_string(), true));
    apply_event(&mut state, &finished(1, "", "", 7), &Command::Update);
    assert_eq!(final_report(&state), ("mrx update: 2/3 done, 1 failed".to_string(), false));
    apply_event(&mut state, &TaskEvent::Skipped { index: 2, reason: "r".into() }, &Command::Update);
    assert_eq!(final_report(&state), ("mrx update: 3/3 done, 1 failed".to_string(), false));
}

#[test]
fn standard_output_and_error_output_are_shown_back_to_back() {
    let mut state = AppState::new(repos(2), "run");
    apply_event(&mut state, &finished(0, "out", "err\n", 1), &Command::Status);
    apply_event(&mut state, &finished(1, "a\nb\n", "c", 0), &Command::Status);
    state.toggle_expand();
    assert_eq!(state.expanded_content(), Some("outerr\n".to_string()));
    assert_eq!(state.expanded_line_count(), 1);
    state.collapse();
    state.move_down();
    state.toggle_expand();
    assert_eq!(state.expanded_content(), Some("a\nb\nc".to_string()));
    assert_eq!(state.expanded_line_count(), 3);
}

#[test]
fn a_skipped_target_is_not_set_back_by_a_start() {
    let mut state = AppState::new(repos(1), "status");
    let skipped = TaskEvent::Skipped { index: 0, reason: "not checked out".into() };
    apply_event(&mut state, &skipped, &Command::Status);
    apply_event(&mut state, &TaskEvent::Started { index: 0 }, &Command::Status);
    assert_eq!(*state.status(0), RepoStatus::Skipped { reason: "not checked out".into() });
    assert_eq!(state.done_count(), 1);
    assert!(state.all_done());
}

#[test]
fn a_finished_target_is_not_set_back_by_a_start() {
    let mut state = AppState::new(repos(2), "status");
    apply_event(&mut state, &finished(1, "", "boom\n", 2), &Command::Status);
    let before = state.status(1).clone();
    apply_event(&mut state, &TaskEvent::Started { index: 1 }, &Command::Status);
    assert_eq!(*state.status(1), before);
    assert_eq!(state.done_count(), 1);
    assert_eq!(state.failed_count(), 1);
    apply_event(&mut state, &TaskEvent::Started { index: 0 }, &Command::Status);
    apply_event(&mut state, &TaskEvent::Started { index: 0 }, &Command::Status);
    assert_eq!(*state.status(0), RepoStatus::Running);
}

#[test]
fn no_sequence_of_events_sets_a_target_back() {
    let events = vec![
        finished(0, "", "", 0),
        TaskEvent::Started { index: 0 },
        TaskEvent::Started { index: 1 },
        TaskEvent::Skipped { index: 1, reason: "r".into() },
        TaskEvent::Started { index: 1 },
        finished(1, "x", "", 1),
        TaskEvent::Started { index: 2 },
    ];
    let mut state = AppState::new(repos(3), "pull");
    let rank = |status: &RepoStatus| match status {
        RepoStatus::Pending => 0,
        RepoStatus::Running => 1,
        _ => 2,
    };
    let mut ranks = vec![0, 0, 0];
    for event in &events {
        apply_event(&mut state, event, &Command::Pull);
        for i in 0..3 {
            assert!(rank(state.status(i)) >= ranks[i]);
            ranks[i] = rank(state.status(i));
        }
    }
    assert_eq!(ranks, vec![2, 2, 1]);
}
